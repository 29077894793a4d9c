use vstd::prelude::*;

verus! {

/// Why no identity or configuration could be made of PEM texts.
#[derive(Clone, Copy, Debug, PartialEq, Eq, Structural)]
pub enum TlsError {
    /// A certificate section does not decode.
    CertificateParse,
    /// A key section does not decode.
    KeyParse,
    /// The key text holds no RSA private key.
    NoKey,
    /// A certificate section of the CA text does not decode.
    CaParse,
    /// The private key was refused.
    KeyRejected,
}

/// `rustls::ServerConfig`, carried through as it is.
#[verifier::external_type_specification]
#[verifier::external_body]
pub struct ExServerConfig(rustls::ServerConfig);

/// `rustls::ClientConfig`, carried through as it is.
#[verifier::external_type_specification]
#[verifier::external_body]
pub struct ExClientConfig(rustls::ClientConfig);

/// `rustls::RootCertStore`, carried through as it is.
#[verifier::external_type_specification]
#[verifier::external_body]
pub struct ExRootCertStore(rustls::RootCertStore);

/// `async_tls::TlsConnector`, carried through as it is.
#[verifier::external_type_specification]
#[verifier::external_body]
pub struct ExTlsConnector(async_tls::TlsConnector);

/// What one side of a connection presents: its certificate chain and its
/// private key, each in DER form.
pub struct Identity {
    pub chain: Vec<Vec<u8>>,
    pub key: Vec<u8>,
}

/// The contents of a list of byte strings.
pub open spec fn bytes_of(list: Seq<Vec<u8>>) -> Seq<Seq<u8>> {
    list.map_values(|v: Vec<u8>| v@)
}

/// What `rustls::internal::pemfile::certs` gives for a PEM text: the DER
/// contents of its certificate sections, in their order; `None` where a
/// section does not decode.
pub uninterp spec fn pem_certificates(pem: Seq<u8>) -> Option<Seq<Seq<u8>>>;

/// What `rustls::internal::pemfile::rsa_private_keys` gives for a PEM text:
/// the DER contents of its RSA private key sections, in their order; `None`
/// where a section does not decode.
pub uninterp spec fn pem_rsa_keys(pem: Seq<u8>) -> Option<Seq<Seq<u8>>>;

/// Why the three PEM texts cannot be read, if they cannot: the CA is looked
/// at first, then the certificates, then the key.
pub open spec fn parse_failure(ca_pem: Seq<u8>, cert_pem: Seq<u8>, key_pem: Seq<u8>) -> Option<TlsError> {
    if pem_certificates(ca_pem) is None {
        Some(TlsError::CaParse)
    } else {
        match identity_of(pem_certificates(cert_pem), pem_rsa_keys(key_pem)) {
            Err(e) => Some(e),
            Ok(_) => None,
        }
    }
}

/// What holds of every outcome of making a configuration. Texts that cannot
/// be read give their failure, whatever else happens. Texts that can be read
/// give a configuration, or `KeyRejected` where the key was refused: whether
/// a key is taken is decided outside, and not by the key's bytes alone.
pub open spec fn config_outcome(failure: Option<TlsError>, made: bool, error: Option<TlsError>) -> bool {
    match failure {
        Some(e) => !made && error == Some(e),
        None => made || error == Some(TlsError::KeyRejected),
    }
}

/// The identity that parsed certificates and keys give: all certificates and
/// the first key. A failed certificate parse is reported before a failed key
/// parse.
pub open spec fn identity_of(
    certs: Option<Seq<Seq<u8>>>,
    keys: Option<Seq<Seq<u8>>>,
) -> Result<(Seq<Seq<u8>>, Seq<u8>), TlsError> {
    match (certs, keys) {
        (None, _) => Err(TlsError::CertificateParse),
        (Some(_), None) => Err(TlsError::KeyParse),
        (Some(chain), Some(list)) => if list.len() == 0 {
            Err(TlsError::NoKey)
        } else {
            Ok((chain, list[0]))
        },
    }
}

impl Identity {
    /// The chain and the key as byte strings.
    pub open spec fn parts(&self) -> (Seq<Seq<u8>>, Seq<u8>) {
        (bytes_of(self.chain@), self.key@)
    }
}

/// Calls `rustls::internal::pemfile::certs` on an in-memory text. The call
/// walks the text line by line, decodes the base64 between each pair of
/// certificate markers and fails where a section does not decode; reading from
/// memory cannot fail. Its result depends on the text alone and is named
/// `pem_certificates`.
#[verifier::external_body]
fn parse_certificates(pem: &Vec<u8>) -> (r: Option<Vec<Vec<u8>>>)
    ensures
        match r {
            Some(list) => pem_certificates(pem@) == Some(bytes_of(list@)),
            None => pem_certificates(pem@) is None,
        },
{
    let mut reader: &[u8] = pem.as_slice();
    match rustls::internal::pemfile::certs(&mut reader) {
        Ok(list) => Some(list.into_iter().map(|c| c.0).collect()),
        Err(()) => None,
    }
}

/// Calls `rustls::internal::pemfile::rsa_private_keys` on an in-memory text.
/// The call decodes the base64 between each pair of RSA private key markers
/// and fails where a section does not decode. Its result depends on the text
/// alone and is named `pem_rsa_keys`.
#[verifier::external_body]
fn parse_rsa_keys(pem: &Vec<u8>) -> (r: Option<Vec<Vec<u8>>>)
    ensures
        match r {
            Some(list) => pem_rsa_keys(pem@) == Some(bytes_of(list@)),
            None => pem_rsa_keys(pem@) is None,
        },
{
    let mut reader: &[u8] = pem.as_slice();
    match rustls::internal::pemfile::rsa_private_keys(&mut reader) {
        Ok(list) => Some(list.into_iter().map(|k| k.0).collect()),
        Err(()) => None,
    }
}

/// Calls `rustls::RootCertStore::add_pem_file` on an empty store and an
/// in-memory text. The call parses the text with `pemfile::certs` and fails
/// exactly where that fails; a certificate that is no trust anchor is counted
/// and passed over.
#[verifier::external_body]
fn trust_anchors(ca_pem: &Vec<u8>) -> (r: Option<rustls::RootCertStore>)
    ensures
        r is Some <==> pem_certificates(ca_pem@) is Some,
{
    let mut store = rustls::RootCertStore::empty();
    let mut reader: &[u8] = ca_pem.as_slice();
    match store.add_pem_file(&mut reader) {
        Ok(_) => Some(store),
        Err(()) => None,
    }
}

/// Calls `rustls::ServerConfig::new` with the verifier that
/// `rustls::AllowAnyAuthenticatedClient::new` makes of the trust anchors, and
/// sets the record size limit. Nothing is claimed of the configuration.
#[verifier::external_body]
fn server_config_for(store: rustls::RootCertStore, mtu: Option<usize>) -> rustls::ServerConfig {
    let mut config = rustls::ServerConfig::new(rustls::AllowAnyAuthenticatedClient::new(store));
    config.mtu = mtu;
    config
}

/// Calls `rustls::ServerConfig::set_single_cert` and says whether it took the
/// identity. It refuses a key of no supported kind, and a key for which the
/// system's random source fails; nothing is claimed of the answer.
#[verifier::external_body]
fn set_server_identity(config: &mut rustls::ServerConfig, identity: Identity) -> (r: bool) {
    let chain = identity.chain.into_iter().map(rustls::Certificate).collect();
    config.set_single_cert(chain, rustls::PrivateKey(identity.key)).is_ok()
}

/// Calls `rustls::ClientConfig::new` and sets whether the server's name is
/// sent. Nothing is claimed of the configuration.
#[verifier::external_body]
fn client_config_for(enable_sni: bool) -> rustls::ClientConfig {
    let mut config = rustls::ClientConfig::new();
    config.enable_sni = enable_sni;
    config
}

/// Calls `rustls::RootCertStore::add_pem_file` on the root store of a client
/// configuration and an in-memory text. The call fails exactly where
/// `pemfile::certs` fails on the text.
#[verifier::external_body]
fn trust_ca(config: &mut rustls::ClientConfig, ca_pem: &Vec<u8>) -> (r: bool)
    ensures
        r == (pem_certificates(ca_pem@) is Some),
{
    let mut reader: &[u8] = ca_pem.as_slice();
    config.root_store.add_pem_file(&mut reader).is_ok()
}

/// Calls `rustls::ClientConfig::set_single_client_cert` and says whether it
/// took the identity. It refuses a key of no supported kind, and a key for
/// which the system's random source fails; nothing is claimed of the answer.
#[verifier::external_body]
fn set_client_identity(config: &mut rustls::ClientConfig, identity: Identity) -> (r: bool) {
    let chain = identity.chain.into_iter().map(rustls::Certificate).collect();
    config.set_single_client_cert(chain, rustls::PrivateKey(identity.key)).is_ok()
}

/// Calls `async_tls::TlsConnector::from` on the shared configuration, which
/// the connector keeps as it is. Nothing is claimed of the connector.
#[verifier::external_body]
fn connector_of(config: rustls::ClientConfig) -> async_tls::TlsConnector {
    async_tls::TlsConnector::from(std::sync::Arc::new(config))
}

/// Chooses the identity from parsed certificates and keys: all certificates
/// and the first key.
pub fn select_identity(certs: Option<Vec<Vec<u8>>>, keys: Option<Vec<Vec<u8>>>) -> (r: Result<
    Identity,
    TlsError,
>)
    ensures
        match r {
            Ok(identity) => identity_of(
                match certs { Some(c) => Some(bytes_of(c@)), None => None },
                match keys { Some(k) => Some(bytes_of(k@)), None => None },
            ) == Ok::<(Seq<Seq<u8>>, Seq<u8>), TlsError>(identity.parts()),
            Err(e) => identity_of(
                match certs { Some(c) => Some(bytes_of(c@)), None => None },
                match keys { Some(k) => Some(bytes_of(k@)), None => None },
            ) == Err::<(Seq<Seq<u8>>, Seq<u8>), TlsError>(e),
        },
{
    let chain = match certs {
        None => { return Err(TlsError::CertificateParse); },
        Some(c) => c,
    };
    let mut list = match keys {
        None => { return Err(TlsError::KeyParse); },
        Some(k) => k,
    };
    if list.len() == 0 {
        return Err(TlsError::NoKey);
    }
    let key = list.remove(0);
    Ok(Identity { chain, key })
}

/// Takes the identity of one side from the PEM text of its certificates and
/// the PEM text of its key.
pub fn load_identity(cert_pem: &Vec<u8>, key_pem: &Vec<u8>) -> (r: Result<Identity, TlsError>)
    ensures
        match r {
            Ok(identity) => identity_of(pem_certificates(cert_pem@), pem_rsa_keys(key_pem@)) == Ok::<
                (Seq<Seq<u8>>, Seq<u8>),
                TlsError,
            >(identity.parts()),
            Err(e) => identity_of(pem_certificates(cert_pem@), pem_rsa_keys(key_pem@)) == Err::<
                (Seq<Seq<u8>>, Seq<u8>),
                TlsError,
            >(e),
        },
{
    let certs = parse_certificates(cert_pem);
    let keys = parse_rsa_keys(key_pem);
    select_identity(certs, keys)
}

/// Whether the text of a CA can be read: every certificate section decodes.
pub fn ca_is_readable(ca_pem: &Vec<u8>) -> (r: bool)
    ensures
        r == (pem_certificates(ca_pem@) is Some),
{
    parse_certificates(ca_pem).is_some()
}

/// The record size limit of the server: connections may leave the machine.
pub const SERVER_MTU: usize = 1500;

/// Configures the server from the PEM texts of the CA, of its certificates
/// and of its key: it presents the certificates with the first key, and
/// admits only clients with a certificate of the CA.
pub fn load_config(ca_pem: &Vec<u8>, cert_pem: &Vec<u8>, key_pem: &Vec<u8>) -> (r: Result<
    rustls::ServerConfig,
    TlsError,
>)
    ensures
        config_outcome(
            parse_failure(ca_pem@, cert_pem@, key_pem@),
            r is Ok,
            match r { Ok(_) => None, Err(e) => Some(e) },
        ),
{
    let store = match trust_anchors(ca_pem) {
        None => { return Err(TlsError::CaParse); },
        Some(store) => store,
    };
    let mut config = server_config_for(store, Some(SERVER_MTU));
    let identity = match load_identity(cert_pem, key_pem) {
        Err(e) => { return Err(e); },
        Ok(identity) => identity,
    };
    if set_server_identity(&mut config, identity) {
        Ok(config)
    } else {
        Err(TlsError::KeyRejected)
    }
}

/// Configures the client from the PEM texts of the CA, of its certificates
/// and of its key: it trusts the CA and nothing else, presents the
/// certificates with the first key, and does not send the server's name.
pub fn client_config(ca_pem: &Vec<u8>, cert_pem: &Vec<u8>, key_pem: &Vec<u8>) -> (r: Result<
    rustls::ClientConfig,
    TlsError,
>)
    ensures
        config_outcome(
            parse_failure(ca_pem@, cert_pem@, key_pem@),
            r is Ok,
            match r { Ok(_) => None, Err(e) => Some(e) },
        ),
{
    let mut config = client_config_for(false);
    if !trust_ca(&mut config, ca_pem) {
        return Err(TlsError::CaParse);
    }
    let identity = match load_identity(cert_pem, key_pem) {
        Err(e) => { return Err(e); },
        Ok(identity) => identity,
    };
    if set_client_identity(&mut config, identity) {
        Ok(config)
    } else {
        Err(TlsError::KeyRejected)
    }
}

/// Makes the client's connector from the PEM texts of the CA, of its
/// certificates and of its key. It fails where the configuration cannot be
/// made, and for the same reason.
pub fn get_client_tls_connector(ca_pem: &Vec<u8>, cert_pem: &Vec<u8>, key_pem: &Vec<u8>) -> (r: Result<
    async_tls::TlsConnector,
    TlsError,
>)
    ensures
        config_outcome(
            parse_failure(ca_pem@, cert_pem@, key_pem@),
            r is Ok,
            match r { Ok(_) => None, Err(e) => Some(e) },
        ),
{
    match client_config(ca_pem, cert_pem, key_pem) {
        Ok(config) => Ok(connector_of(config)),
        Err(e) => Err(e),
    }
}

} // verus!

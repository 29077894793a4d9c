use pueue::tls::{client_config, get_client_tls_connector, load_config};
use pueue::TlsError;

const RSA_KEY_BODY: &str = "\
MIIEogIBAAKCAQEAtWA8+uvu1Q+Ay9fv7FRzEPgWw0YJgzkJV/vpn1vA90DUJv6g\n\
wRG7u0+6qnXPRig2q+FiMwTfEgZMzNRIzBsDZ2T1f0389KlAEdS/+2c39RmhWb1l\n\
4JLMlKX8L5qax9yMv3aZBE8LT7YaUzzZbot4WZ5v+ZJI0UVoPR5iA+DtOC3ekit9\n\
d79mYKz2W5Cr26paoVJ2Foy925SlRm6VyLLmcxFPT4foB7T3BIWaRbDOni3vtk1b\n\
HCK8nDBDk16gAJjus2fbEFrX5ZbtwhJZvdOB+vowP/S3oGpe9qTJpGK/MFp4qgw7\n\
oo17gj5VceRAxRcsQZltfFHgxEGild5DX3pWkwIDAQABAoIBAFDTazlSbGML/pRY\n\
TTWeyIw2UkaA7npIr45C13BJfitw+1nJPK/tDCDDveZ6i3yzLPHZhV5A/HtWzWC1\n\
9R7nptOrnO83PNN2nPOVQFxzOe+ClXGdQkoagQp5EXHRTspj0WD9I+FUrDDAcOjJ\n\
BAgMJPyi6zlnZAXGDVa3NGyQDoZqwU2k36L4rEsJIkG0NVurZhpiCexNkkf32495\n\
TOINQ0iKdfJ4iZoEYQ9G+x4NiuAJRCHuIcH76SNfT+Uv3wX0ut5EFPtflnvtdgcp\n\
QVcoKwYdO0+mgO5xqWlBcsujSvgBdiNAGnAxKHWiEaacuIJi4+yYovyEebP6QI2X\n\
Zg/U2wkCgYEA794dE5CPXLOmv6nioVC/ubOESk7vjSlEka/XFbKr4EY794YEqrB1\n\
8TUqg09Bn3396AS1e6P2shr3bxos5ybhOxDGSLnJ+aC0tRFjd1BPKnA80vZM7ggt\n\
5cjmdD5Zp0tIQTIAAYU5bONQOwj0ej4PE7lny26eLa5vfvCwlrD+rM0CgYEAwZMN\n\
W/5PA2A+EM08IaHic8my0dCunrNLF890ouZnDG99SbgMGvvEsGIcCP1sai702hNh\n\
VgGDxCz6/HUy+4O4YNFVtjY7uGEpfIEcEI7CsLQRP2ggWEFxThZtnEtO8PbM3J/i\n\
qcS6njHdE+0XuCjgZwGgva5xH2pkWFzw/AIpEN8CgYB2HOo2axWc8T2n3TCifI+c\n\
EqCOsqXU3cBM+MgxgASQcCUxMkX0AuZguuxPMmS+85xmdoMi+c8NTqgOhlYcEJIR\n\
sqXgw9OH3zF8g6513w7Md+4Ld4rUHyTypGWOUfF1pmVS7RsBpKdtTdWA7FzuIMbt\n\
0HsiujqbheyTFlPuMAOH9QKBgBWS1gJSrWuq5j/pH7J/4EUXTZ6kq1F0mgHlVRJy\n\
qzlvk38LzA2V0a32wTkfRV3wLcnALzDuqkjK2o4YYb42R+5CZlMQaEd8TKtbmE0g\n\
HAKljuaKLFCpun8BcOXiXsHsP5i3GQPisQnAdOsrmWEk7R2NyORa9LCToutWMGVl\n\
uD3xAoGAA183Vldm+m4KPsKS17t8MbwBryDXvowGzruh/Z+PGA0spr+ke4XxwT1y\n\
kMMP1+5flzmjlAf4+W8LehKuVqvQoMlPn5UVHmSxQ7cGx/O/o6Gbn8Q25/6UT+sM\n\
B1Y0rlLoKG62pnkeXp1O4I57gnClatWRg5qw11a8V8e3jvDKIYM=";

fn section(kind: &str, body: &str) -> Vec<u8> {
    format!("-----BEGIN {kind}-----\n{body}\n-----END {kind}-----\n").into_bytes()
}

fn rsa_key() -> Vec<u8> {
    section("RSA PRIVATE KEY", RSA_KEY_BODY)
}

#[test]
fn server_configuration_is_made_of_valid_texts() {
    let ca = section("CERTIFICATE", "AQID");
    let certs = section("CERTIFICATE", "BAUG");
    let config = load_config(&ca, &certs, &rsa_key()).unwrap();
    assert_eq!(config.mtu, Some(1500));
    assert_eq!(pueue::tls::SERVER_MTU, 1500);
}

#[test]
fn client_configuration_is_made_of_valid_texts() {
    let ca = section("CERTIFICATE", "AQID");
    let certs = section("CERTIFICATE", "BAUG");
    let config = client_config(&ca, &certs, &rsa_key()).unwrap();
    assert!(!config.enable_sni);
    assert!(get_client_tls_connector(&ca, &certs, &rsa_key()).is_ok());
    assert!(get_client_tls_connector(&Vec::new(), &Vec::new(), &rsa_key()).is_ok());
}

#[test]
fn configuration_errors_come_in_order() {
    let good = section("CERTIFICATE", "AQID");
    let bad = section("CERTIFICATE", "!!!");
    let bad_key = section("RSA PRIVATE KEY", "!!!");
    let junk_key = section("RSA PRIVATE KEY", "BwgJ");
    assert_eq!(load_config(&bad, &bad, &bad_key).err(), Some(TlsError::CaParse));
    assert_eq!(load_config(&good, &bad, &bad_key).err(), Some(TlsError::CertificateParse));
    assert_eq!(load_config(&good, &good, &bad_key).err(), Some(TlsError::KeyParse));
    assert_eq!(load_config(&good, &good, &good).err(), Some(TlsError::NoKey));
    assert_eq!(load_config(&good, &good, &junk_key).err(), Some(TlsError::KeyRejected));
    assert_eq!(client_config(&bad, &good, &rsa_key()).err(), Some(TlsError::CaParse));
    assert_eq!(client_config(&good, &bad, &rsa_key()).err(), Some(TlsError::CertificateParse));
    assert_eq!(client_config(&good, &good, &bad_key).err(), Some(TlsError::KeyParse));
    assert_eq!(client_config(&good, &good, &Vec::new()).err(), Some(TlsError::NoKey));
    assert_eq!(client_config(&good, &good, &junk_key).err(), Some(TlsError::KeyRejected));
    assert_eq!(get_client_tls_connector(&good, &good, &junk_key).err(), Some(TlsError::KeyRejected));
}

#[test]
fn ca_text_is_checked_alone() {
    assert!(pueue::tls::ca_is_readable(&section("CERTIFICATE", "AQID")));
    assert!(pueue::tls::ca_is_readable(&Vec::new()));
    assert!(!pueue::tls::ca_is_readable(&section("CERTIFICATE", "!!!")));
}

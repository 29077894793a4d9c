use vstd::prelude::*;

verus! {

/// A directory that the daemon works in.
#[derive(Clone, Copy, Debug, PartialEq, Eq, Structural)]
pub enum Directory {
    /// The base directory.
    Base,
    /// `log` below the base directory.
    Log,
    /// `certs` below the base directory.
    Certs,
    /// `task_logs` below the base directory.
    TaskLogs,
}

/// One directory, unless its path is a directory already.
pub open spec fn unless(is_directory: bool, d: Directory) -> Seq<Directory> {
    if is_directory {
        Seq::empty()
    } else {
        seq![d]
    }
}

/// The directories that are to be created, base directory first.
pub open spec fn missing(base: bool, log: bool, certs: bool, task_logs: bool) -> Seq<Directory> {
    unless(base, Directory::Base) + unless(log, Directory::Log) + unless(certs, Directory::Certs)
        + unless(task_logs, Directory::TaskLogs)
}

/// Says which directories are to be created, given for each of them whether
/// its path is a directory now: each one that is not, in the order base, log,
/// certs, task logs. A path that is taken by a file is named too, so that its
/// creation fails and the start with it.
pub fn init_directories(base: bool, log: bool, certs: bool, task_logs: bool) -> (r: Vec<Directory>)
    ensures
        r@ == missing(base, log, certs, task_logs),
{
    let mut r: Vec<Directory> = Vec::new();
    if !base {
        r.push(Directory::Base);
    }
    if !log {
        r.push(Directory::Log);
    }
    if !certs {
        r.push(Directory::Certs);
    }
    if !task_logs {
        r.push(Directory::TaskLogs);
    }
    proof {
        assert(r@ =~= missing(base, log, certs, task_logs));
    }
    r
}

/// Whether certificates are to be created: neither the daemon's key nor its
/// certificate exists.
pub fn needs_certificates(key_exists: bool, cert_exists: bool) -> (r: bool)
    ensures
        r == (!key_exists && !cert_exists),
{
    !key_exists && !cert_exists
}

/// How the daemon ends.
#[derive(Clone, Copy, Debug, PartialEq, Eq, Structural)]
pub enum Exit {
    /// A shutdown that ran to its end.
    Normal,
    /// A panic, or a cleanup that failed.
    Failure,
    /// A configuration that cannot be used.
    ConfigError,
    /// A pid file that names a live process.
    PidConflict,
}

/// The exit code of the process.
pub fn exit_code(exit: Exit) -> (r: i32)
    ensures
        r == (match exit {
            Exit::Normal => 0i32,
            Exit::Failure => 1i32,
            Exit::ConfigError => 2i32,
            Exit::PidConflict => 3i32,
        }),
{
    match exit {
        Exit::Normal => 0,
        Exit::Failure => 1,
        Exit::ConfigError => 2,
        Exit::PidConflict => 3,
    }
}

} // verus!

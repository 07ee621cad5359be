//! Fixed configuration values and data-directory file names.
//!
//! The host hands the library a base data directory; the library only
//! forms the well-known file names under it.

use vstd::prelude::*;
use vstd::string::StringExecFns;

verus! {

/// Local SOCKS proxy port of the overlay daemon.
pub const TOR_SOCKS_PORT: u16 = 9350;

/// Local control port of the overlay daemon.
pub const TOR_CONTROL_PORT: u16 = 9351;

/// Loopback port the hidden service forwards to.
pub const HIDDEN_SERVICE_PORT: u16 = 8080;

/// Public (virtual) port of the hidden service, the one peers dial.
pub const HIDDEN_SERVICE_VIRTUAL_PORT: u16 = 80;

/// Socket read/write timeout, in seconds.
pub const CONNECTION_TIMEOUT: u64 = 30;

/// Largest accepted message, in bytes.
pub const MESSAGE_MAX_SIZE: usize = 10485760;

/// The characters of the database file name, `messages.db`.
pub open spec fn spec_db_file_name() -> Seq<char> {
    seq!['m', 'e', 's', 's', 'a', 'g', 'e', 's', '.', 'd', 'b']
}

/// The characters of the log file name, `app.log`.
pub open spec fn spec_log_file_name() -> Seq<char> {
    seq!['a', 'p', 'p', '.', 'l', 'o', 'g']
}

/// The database file name.
pub fn db_file_name() -> (r: String)
    ensures
        r@ == spec_db_file_name(),
{
    proof {
        reveal_strlit("messages.db");
    }
    let r = "messages.db".to_owned();
    proof {
        assert(r@ =~= spec_db_file_name());
    }
    r
}

/// The database path under a base directory: `<base>/messages.db`.
pub fn db_path(base_dir: &str) -> (r: String)
    ensures
        r@ == base_dir@ + seq!['/'] + spec_db_file_name(),
{
    proof {
        reveal_strlit("messages.db");
    }
    join_name(base_dir, "messages.db")
}

/// The log-file path under a base directory: `<base>/app.log`.
pub fn log_file(base_dir: &str) -> (r: String)
    ensures
        r@ == base_dir@ + seq!['/'] + spec_log_file_name(),
{
    proof {
        reveal_strlit("app.log");
    }
    join_name(base_dir, "app.log")
}

/// `<base>/<name>` as one path string.
fn join_name(base_dir: &str, name: &str) -> (r: String)
    ensures
        r@ == base_dir@ + seq!['/'] + name@,
{
    let mut out: String = base_dir.to_owned();
    proof {
        reveal_strlit("/");
    }
    out.append("/");
    out.append(name);
    proof {
        assert(out@ =~= base_dir@ + seq!['/'] + name@);
    }
    out
}

} // verus!

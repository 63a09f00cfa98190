//! Default ports, names and paths.
use vstd::prelude::*;
use vstd::string::*;
use crate::static_files::joined_path;
use crate::text::{append_str, chars_of};

verus! {

/// Port of the DNS responder.
pub const DNS_PORT: u16 = 9053;
/// Port of the HTTP front-end.
pub const HTTP_PORT: u16 = 80;
/// Port of the HTTPS front-end.
pub const HTTPS_PORT: u16 = 443;
/// Port of the management endpoint.
pub const MANAGEMENT_PORT: u16 = 9054;
/// Default log specification.
pub const LOG_LEVEL: &'static str = "duwop=info";
/// The name of the launchd agent.
pub const AGENT_NAME: &'static str = "org.babysnakes.duwop";
/// On macOS, the directory that holds custom resolver files.
pub const RESOLVER_DIR: &'static str = "/etc/resolver/";
/// The resolver file, named after the managed label.
pub const RESOLVER_FILE: &'static str = "test";
/// The name of the HTTP socket in the launchd agent file.
pub const LAUNCHD_SOCKET: &'static str = "DuwopSocket";
/// The name of the HTTPS socket in the launchd agent file.
pub const LAUNCHD_TLS_SOCKET: &'static str = "DuwopTlsSocket";

/// `rel` under `dir`, with one separator between them.
pub fn join_path(dir: &str, rel: &str) -> (r: String)
    ensures
        r@ == joined_path(dir@, rel@),
{
    let cs = chars_of(dir);
    let mut s = String::from_str(dir);
    if !(cs.len() > 0 && cs[cs.len() - 1] == '/') {
        append_str(&mut s, "/");
        proof {
            reveal_strlit("/");
        }
    }
    append_str(&mut s, rel);
    s
}

/// A path relative to the home directory `home`. `path` does not start with
/// a slash.
pub fn in_home_dir(home: &str, path: &str) -> (r: String)
    ensures
        r@ == joined_path(home@, path@),
{
    join_path(home, path)
}

/// Where everything of the service lives.
pub fn duwop_dir(home: &str) -> (r: String)
    ensures
        r@ == joined_path(home@, ".duwop"@),
{
    in_home_dir(home, ".duwop")
}

/// The log directory.
pub fn log_dir(home: &str) -> (r: String)
    ensures
        r@ == joined_path(joined_path(home@, ".duwop"@), "logs"@),
{
    join_path(duwop_dir(home).as_str(), "logs")
}

/// The default state directory.
pub fn state_dir(home: &str) -> (r: String)
    ensures
        r@ == joined_path(joined_path(home@, ".duwop"@), "state"@),
{
    join_path(duwop_dir(home).as_str(), "state")
}

/// The directory of the root CA.
pub fn ca_dir(home: &str) -> (r: String)
    ensures
        r@ == joined_path(home@, "Library/Application Support/io.duwop"@),
{
    in_home_dir(home, "Library/Application Support/io.duwop")
}

/// The root CA's private key.
pub fn ca_key(home: &str) -> (r: String)
    ensures
        r@ == joined_path(joined_path(home@, "Library/Application Support/io.duwop"@), "key.pem"@),
{
    join_path(ca_dir(home).as_str(), "key.pem")
}

/// The root CA's certificate.
pub fn ca_cert(home: &str) -> (r: String)
    ensures
        r@ == joined_path(joined_path(home@, "Library/Application Support/io.duwop"@), "cert.pem"@),
{
    join_path(ca_dir(home).as_str(), "cert.pem")
}

} // verus!

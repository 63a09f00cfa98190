//! Where setup puts things, and whether it must make a new root CA.
use vstd::prelude::*;
use vstd::string::*;
use crate::app_defaults::{ca_cert, ca_dir, ca_key, log_dir, state_dir, join_path, RESOLVER_DIR, RESOLVER_FILE};
use crate::static_files::joined_path;
use crate::text::append_str;

verus! {

/// The places that setup creates or removes.
pub struct Setup {
    pub dry_run: bool,
    pub state_dir: String,
    pub log_dir: String,
    pub launchd_agents_dir: String,
    pub agent_file: String,
    pub resolver_directory: String,
    pub resolver_file: String,
    pub ca_dir: String,
    pub ca_key_file: String,
    pub ca_cert_file: String,
}

impl Setup {
    /// The setup of the user whose home directory is `home`.
    pub fn new(dry_run: bool, home: &str) -> (r: Setup)
        ensures
            r.dry_run == dry_run,
            r.state_dir@ == joined_path(joined_path(home@, ".duwop"@), "state"@),
            r.log_dir@ == joined_path(joined_path(home@, ".duwop"@), "logs"@),
            r.launchd_agents_dir@ == joined_path(home@, "Library/LaunchAgents/"@),
            r.agent_file@ == joined_path(joined_path(home@, "Library/LaunchAgents/"@), "org.babysnakes.duwop.plist"@),
            r.resolver_directory@ == RESOLVER_DIR@,
            r.resolver_file@ == RESOLVER_DIR@ + RESOLVER_FILE@,
            r.ca_dir@ == joined_path(home@, "Library/Application Support/io.duwop"@),
            r.ca_key_file@ == joined_path(joined_path(home@, "Library/Application Support/io.duwop"@), "key.pem"@),
            r.ca_cert_file@ == joined_path(joined_path(home@, "Library/Application Support/io.duwop"@), "cert.pem"@),
    {
        let agents = join_path(home, "Library/LaunchAgents/");
        let agent_file = join_path(agents.as_str(), "org.babysnakes.duwop.plist");
        let mut resolver_file = String::from_str(RESOLVER_DIR);
        append_str(&mut resolver_file, RESOLVER_FILE);
        Setup {
            dry_run,
            state_dir: state_dir(home),
            log_dir: log_dir(home),
            launchd_agents_dir: agents,
            agent_file,
            resolver_directory: String::from_str(RESOLVER_DIR),
            resolver_file,
            ca_dir: ca_dir(home),
            ca_key_file: ca_key(home),
            ca_cert_file: ca_cert(home),
        }
    }

    /// Whether setup must make a new root CA, given what loading the present
    /// one gave: a load failure means yes; a loaded CA is replaced when it is
    /// not fresh; an error while checking it is returned.
    pub fn ca_required(&self, loaded: Result<Result<bool, String>, String>) -> (r: Result<bool, String>)
        ensures
            match loaded {
                Err(_) => r == Ok::<bool, String>(true),
                Ok(Ok(fresh)) => r == Ok::<bool, String>(!fresh),
                Ok(Err(e)) => r matches Err(m) && m@ == e@,
            },
    {
        match loaded {
            Err(_) => Ok(true),
            Ok(Ok(fresh)) => Ok(!fresh),
            Ok(Err(e)) => Err(e),
        }
    }
}

} // verus!

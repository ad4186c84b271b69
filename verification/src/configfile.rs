//! The registry's durable form: the full configuration value and the
//! location of the single backing file that persists it. Reading and
//! writing the file itself is the binary's job; the library fixes the
//! file's location and its contents.
use vstd::prelude::*;

use crate::Server;
use crate::ServerView;
use crate::error::Error;
use crate::servers_view;

verus! {

/// The full registry: an ordered sequence of known server records.
/// Name uniqueness is enforced on insert, not on load; on lookup the first
/// match wins.
pub struct Configuration {
    pub known_servers: Vec<Server>,
}

impl View for Configuration {
    type V = Seq<ServerView>;

    open spec fn view(&self) -> Seq<ServerView> {
        servers_view(self.known_servers@)
    }
}

impl Default for Configuration {
    /// The empty registry, the expected first-run state.
    fn default() -> (r: Configuration)
        ensures
            r.known_servers@.len() == 0,
    {
        Configuration { known_servers: Vec::new() }
    }
}

/// The resolved location of the backing file, fixed once per process from
/// the platform's configuration-directory conventions.
pub struct ConfigurationFile {
    pub file_path: String,
}

/// Holds when a path ends in the backing file's fixed name.
pub open spec fn names_config_json(p: Seq<char>) -> bool {
    let f = "config.json"@;
    &&& p.len() >= f.len()
    &&& p.subrange(p.len() - f.len(), p.len() as int) == f
}

/// Relies on directories::ProjectDirs::from and config_local_dir: the
/// platform-standard local configuration directory for the named
/// application, if the platform defines one. The answer depends on the
/// machine and environment, so nothing further is promised of it.
#[verifier::external_body]
fn project_config_dir(app_name: &str) -> (r: Option<String>) {
    let dirs = directories::ProjectDirs::from("", "", app_name)?;
    Some(dirs.config_local_dir().to_string_lossy().into_owned())
}

impl ConfigurationFile {
    /// Resolves the backing file's default location: the platform
    /// configuration directory for this client, plus the fixed file name
    /// `config.json`.
    pub fn build_default() -> (r: Result<ConfigurationFile, Error>)
        ensures
            r matches Ok(c) ==> names_config_json(c.file_path@),
            r matches Err(e) ==> e is FailedToFetchConfigPath,
    {
        match project_config_dir("rconcrete") {
            None => Err(Error::FailedToFetchConfigPath),
            Some(dir) => {
                let ghost d: Seq<char> = dir@;
                let mut path = dir;
                path.append("/config.json");
                proof {
                    reveal_strlit("/config.json");
                    reveal_strlit("config.json");
                    let f = "config.json"@;
                    let e = "/config.json"@;
                    assert(path@ == d + e);
                    assert(path@.subrange(path@.len() - f.len(), path@.len() as int) =~= f);
                }
                Ok(ConfigurationFile { file_path: path })
            },
        }
    }
}

} // verus!

//! The configuration value and the paths derived from the home directory.

use vstd::prelude::*;

verus! {

/// The one entity of the service: the resolved configuration.
///
/// Once resolved at startup the value is never mutated; the serving layer
/// only reads `storage_path` from it.
#[derive(Debug)]
pub struct Configuration {
    pub storage_path: String,
}

impl Configuration {
    /// Builds a configuration around the given storage path.
    pub fn new(storage_path: String) -> (r: Configuration)
        ensures
            r.storage_path@ == storage_path@,
    {
        Configuration { storage_path }
    }
}

impl Clone for Configuration {
    fn clone(&self) -> (r: Configuration)
        ensures
            r.storage_path@ == self.storage_path@,
    {
        Configuration { storage_path: self.storage_path.clone() }
    }
}

impl PartialEq for Configuration {
    fn eq(&self, other: &Configuration) -> (r: bool) {
        self.storage_path == other.storage_path
    }
}

impl vstd::std_specs::cmp::PartialEqSpecImpl for Configuration {
    open spec fn obeys_eq_spec() -> bool {
        true
    }

    open spec fn eq_spec(&self, other: &Configuration) -> bool {
        self.storage_path@ == other.storage_path@
    }
}

/// The handler behind the one HTTP route: `GET /` answers with the
/// resolved storage path as its body.
pub fn index(state: &Configuration) -> (r: String)
    ensures
        r@ == state.storage_path@,
{
    state.storage_path.clone()
}

/// The configuration directory under a home directory.
pub open spec fn config_dir_of(home: Seq<char>) -> Seq<char> {
    home + "/.realsense-capture-service"@
}

/// The configuration file inside the configuration directory.
pub open spec fn config_file_of(home: Seq<char>) -> Seq<char> {
    config_dir_of(home) + "/config.yaml"@
}

/// The storage path that a synthesized default configuration carries.
pub open spec fn default_storage_path_of(home: Seq<char>) -> Seq<char> {
    home + "/realsense_captures"@
}

/// Appends the fixed configuration-directory name to the home directory.
pub fn configuration_directory(home: &str) -> (r: String)
    ensures
        r@ == config_dir_of(home@),
{
    let s = String::from_str(home);
    s.concat("/.realsense-capture-service")
}

/// Appends the fixed file name to the configuration directory.
pub fn configuration_file_path(home: &str) -> (r: String)
    ensures
        r@ == config_file_of(home@),
{
    let dir = configuration_directory(home);
    dir.concat("/config.yaml")
}

/// The default storage path: a fixed capture subdirectory of the home
/// directory.
pub fn default_storage_path(home: &str) -> (r: String)
    ensures
        r@ == default_storage_path_of(home@),
{
    let s = String::from_str(home);
    s.concat("/realsense_captures")
}

} // verus!

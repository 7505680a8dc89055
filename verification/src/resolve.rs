//! Resolution of the effective configuration at startup.
//!
//! The resolver is pure: the caller looks up the home directory and reads
//! the configuration file (when it exists) and hands both in as plain
//! strings; the resolver decides what configuration takes effect and, when
//! it synthesizes a default, which document the caller must persist and
//! where. Every failure surfaces as a [`ConfigError`] for a single
//! top-level caller to act on.

use vstd::prelude::*;

use crate::config::Configuration;
use crate::config::config_dir_of;
use crate::config::config_file_of;
use crate::config::configuration_directory;
use crate::config::configuration_file_path;
use crate::config::default_storage_path;
use crate::config::default_storage_path_of;
use crate::yaml::parse_doc;
use crate::yaml::parse_yaml;
use crate::yaml::to_yaml;
use crate::yaml::yaml_doc_of;
use crate::yaml::lemma_round_trip;

verus! {

/// Every way configuration bootstrap can fail. All of them are fatal:
/// the caller terminates the process after reporting the message.
#[derive(Clone, Copy, Debug, PartialEq, Eq, Structural)]
pub enum ConfigError {
    /// The platform reported no home directory.
    HomeDirUnavailable,
    /// The configuration file exists but could not be read.
    ReadFailed,
    /// The configuration file was read but is not a well-formed document.
    ParseFailed,
    /// The configuration directory could not be created.
    DirCreateFailed,
    /// The synthesized configuration document could not be written.
    WriteFailed,
}

impl ConfigError {
    /// A diagnostic line for the failure, printed before termination.
    pub fn message(&self) -> (r: String)
        ensures
            self is HomeDirUnavailable ==> r@ == "Could not retrieve home directory"@,
            self is ReadFailed ==> r@ == "Could not read configuration file"@,
            self is ParseFailed ==> r@ == "Could not parse configuration file"@,
            self is DirCreateFailed ==> r@ == "Could not create configuration directory"@,
            self is WriteFailed ==> r@ == "Unable to serialize file"@,
    {
        match self {
            ConfigError::HomeDirUnavailable => String::from_str("Could not retrieve home directory"),
            ConfigError::ReadFailed => String::from_str("Could not read configuration file"),
            ConfigError::ParseFailed => String::from_str("Could not parse configuration file"),
            ConfigError::DirCreateFailed => String::from_str("Could not create configuration directory"),
            ConfigError::WriteFailed => String::from_str("Unable to serialize file"),
        }
    }
}

/// What resolution decided, and what the caller still has to do.
pub enum Resolution {
    /// An existing document was parsed; nothing is written back.
    Loaded { configuration: Configuration },
    /// No document existed: the default configuration takes effect, and
    /// the caller must create `directory` (if absent) and write
    /// `contents` to `file_path` before serving.
    Synthesized {
        configuration: Configuration,
        directory: String,
        file_path: String,
        contents: String,
    },
}

impl Resolution {
    /// The configuration that takes effect.
    pub fn configuration(self) -> (r: Configuration)
        ensures
            self matches Resolution::Loaded { configuration } ==> r.storage_path@
                == configuration.storage_path@,
            self matches Resolution::Synthesized { configuration, .. } ==> r.storage_path@
                == configuration.storage_path@,
    {
        match self {
            Resolution::Loaded { configuration } => configuration,
            Resolution::Synthesized { configuration, .. } => configuration,
        }
    }
}

/// Decides the effective configuration from the home directory (when the
/// platform offers one) and the text of the configuration file (when one
/// exists on disk).
pub fn resolve(home: Option<&str>, file_contents: Option<&str>) -> (r: Result<
    Resolution,
    ConfigError,
>)
    ensures
        home is None ==> (r matches Err(e) && e is HomeDirUnavailable),
        file_contents matches Some(doc) ==> home is Some ==> match parse_doc(doc@) {
            Some(sp) => r matches Ok(res) && res matches Resolution::Loaded { configuration }
                && configuration.storage_path@ == sp,
            None => r matches Err(e) && e is ParseFailed,
        },
        home matches Some(h) ==> file_contents is None ==> (r matches Ok(res)
            && res matches Resolution::Synthesized { configuration, directory, file_path, contents }
            && configuration.storage_path@ == default_storage_path_of(h@)
            && directory@ == config_dir_of(h@)
            && file_path@ == config_file_of(h@)
            && contents@ == yaml_doc_of(default_storage_path_of(h@))),
{
    match home {
        None => Err(ConfigError::HomeDirUnavailable),
        Some(h) => match file_contents {
            Some(doc) => match parse_yaml(doc) {
                Some(storage_path) => Ok(
                    Resolution::Loaded { configuration: Configuration::new(storage_path) },
                ),
                None => Err(ConfigError::ParseFailed),
            },
            None => {
                let storage = default_storage_path(h);
                let configuration = Configuration::new(storage);
                let directory = configuration_directory(h);
                let file_path = configuration_file_path(h);
                let contents = to_yaml(&configuration);
                Ok(Resolution::Synthesized { configuration, directory, file_path, contents })
            },
        },
    }
}

/// The document that resolution synthesizes and persists for a missing
/// configuration reads back to the very configuration that was returned:
/// a later startup that finds the file resolves to the same storage path.
pub proof fn lemma_synthesized_document_reads_back(home: Seq<char>)
    ensures
        parse_doc(yaml_doc_of(default_storage_path_of(home))) == Some(
            default_storage_path_of(home),
        ),
{
    lemma_round_trip(default_storage_path_of(home));
}

} // verus!

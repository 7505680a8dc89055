use realsense_capture_service::config::configuration_directory;
use realsense_capture_service::config::configuration_file_path;
use realsense_capture_service::config::default_storage_path;
use realsense_capture_service::index;
use realsense_capture_service::resolve::resolve;
use realsense_capture_service::ConfigError;
use realsense_capture_service::Configuration;
use realsense_capture_service::Resolution;

#[test]
fn derives_configuration_directory() {
    assert_eq!(
        configuration_directory("/home/user"),
        "/home/user/.realsense-capture-service"
    );
}

#[test]
fn derives_configuration_file_path() {
    assert_eq!(
        configuration_file_path("/home/user"),
        "/home/user/.realsense-capture-service/config.yaml"
    );
}

#[test]
fn derives_default_storage_path() {
    assert_eq!(
        default_storage_path("/home/user"),
        "/home/user/realsense_captures"
    );
}

#[test]
fn missing_file_synthesizes_default() {
    let resolution = resolve(Some("/home/user"), None).expect("resolution succeeds");
    match resolution {
        Resolution::Synthesized { configuration, directory, file_path, contents } => {
            assert_eq!(configuration.storage_path, "/home/user/realsense_captures");
            assert_eq!(directory, "/home/user/.realsense-capture-service");
            assert_eq!(file_path, "/home/user/.realsense-capture-service/config.yaml");
            assert_eq!(contents, "storage_path: /home/user/realsense_captures\n");
        }
        Resolution::Loaded { .. } => panic!("expected a synthesized configuration"),
    }
}

#[test]
fn synthesized_document_resolves_to_same_path() {
    let first = resolve(Some("/home/user"), None).expect("resolution succeeds");
    let (first_configuration, contents) = match first {
        Resolution::Synthesized { configuration, contents, .. } => (configuration, contents),
        Resolution::Loaded { .. } => panic!("expected a synthesized configuration"),
    };
    let second =
        resolve(Some("/home/user"), Some(&contents)).expect("the written document parses");
    match second {
        Resolution::Loaded { configuration } => assert_eq!(configuration, first_configuration),
        Resolution::Synthesized { .. } => panic!("expected the document to be loaded"),
    }
}

#[test]
fn existing_file_is_loaded_exactly() {
    let resolution = resolve(Some("/home/user"), Some("storage_path: /mnt/depth\n"))
        .expect("resolution succeeds");
    match resolution {
        Resolution::Loaded { configuration } => {
            assert_eq!(configuration.storage_path, "/mnt/depth");
        }
        Resolution::Synthesized { .. } => panic!("expected the document to be loaded"),
    }
}

#[test]
fn missing_home_is_fatal() {
    assert_eq!(
        resolve(None, None).err(),
        Some(ConfigError::HomeDirUnavailable)
    );
    assert_eq!(
        resolve(None, Some("storage_path: /a\n")).err(),
        Some(ConfigError::HomeDirUnavailable)
    );
}

#[test]
fn malformed_document_is_fatal_not_defaulted() {
    let result = resolve(Some("/home/user"), Some("frames_per_second: 30\n"));
    assert_eq!(result.err(), Some(ConfigError::ParseFailed));
}

#[test]
fn empty_document_is_fatal() {
    let result = resolve(Some("/home/user"), Some(""));
    assert_eq!(result.err(), Some(ConfigError::ParseFailed));
}

#[test]
fn index_returns_storage_path() {
    let configuration = Configuration::new(String::from("/tmp/x"));
    assert_eq!(index(&configuration), "/tmp/x");
}

#[test]
fn resolution_configuration_accessor() {
    let resolution = resolve(Some("/home/user"), None).expect("resolution succeeds");
    assert_eq!(
        resolution.configuration().storage_path,
        "/home/user/realsense_captures"
    );
}

#[test]
fn error_messages_name_each_failure() {
    assert_eq!(
        ConfigError::HomeDirUnavailable.message(),
        "Could not retrieve home directory"
    );
    assert_eq!(
        ConfigError::ReadFailed.message(),
        "Could not read configuration file"
    );
    assert_eq!(
        ConfigError::ParseFailed.message(),
        "Could not parse configuration file"
    );
    assert_eq!(
        ConfigError::DirCreateFailed.message(),
        "Could not create configuration directory"
    );
    assert_eq!(ConfigError::WriteFailed.message(), "Unable to serialize file");
}

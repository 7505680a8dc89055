use realsense_capture_service::yaml::parse_yaml;
use realsense_capture_service::yaml::to_yaml;
use realsense_capture_service::Configuration;

#[test]
fn serializes_single_key_document() {
    let configuration = Configuration::new(String::from("/tmp/x"));
    assert_eq!(to_yaml(&configuration), "storage_path: /tmp/x\n");
}

#[test]
fn serializes_quoted_document_when_plain_cannot_carry_it() {
    let configuration = Configuration::new(String::from("a b"));
    assert_eq!(to_yaml(&configuration), "storage_path: \"a b\"\n");
    let configuration = Configuration::new(String::from("a\nb"));
    assert_eq!(to_yaml(&configuration), "storage_path: \"a\\nb\"\n");
}

#[test]
fn parses_document_with_trailing_newline() {
    assert_eq!(
        parse_yaml("storage_path: /data/captures\n"),
        Some(String::from("/data/captures"))
    );
}

#[test]
fn parses_document_without_trailing_newline() {
    assert_eq!(
        parse_yaml("storage_path: /data/captures"),
        Some(String::from("/data/captures"))
    );
}

#[test]
fn parses_double_quoted_value() {
    assert_eq!(parse_yaml("storage_path: \"/tmp/x\"\n"), Some(String::from("/tmp/x")));
}

#[test]
fn parses_double_quoted_escapes() {
    assert_eq!(parse_yaml("storage_path: \"a\\nb\\tc\\\\d\\\"e\"\n"),
        Some(String::from("a\nb\tc\\d\"e")));
}

#[test]
fn parses_single_quoted_value() {
    assert_eq!(parse_yaml("storage_path: 'it''s here'\n"), Some(String::from("it's here")));
}

#[test]
fn parses_value_with_inner_colon() {
    assert_eq!(parse_yaml("storage_path: C:drive\n"), Some(String::from("C:drive")));
}

#[test]
fn tolerates_spaces_and_comment_after_value() {
    assert_eq!(
        parse_yaml("storage_path:    /tmp/x   \n"),
        Some(String::from("/tmp/x"))
    );
    assert_eq!(
        parse_yaml("storage_path: /tmp/x # the capture directory\n"),
        Some(String::from("/tmp/x"))
    );
    assert_eq!(
        parse_yaml("storage_path: \"/tmp/x\" # quoted\n"),
        Some(String::from("/tmp/x"))
    );
}

#[test]
fn tolerates_marker_blank_and_comment_lines() {
    assert_eq!(
        parse_yaml("---\n# capture service configuration\n\nstorage_path: /tmp/x\n"),
        Some(String::from("/tmp/x"))
    );
}

#[test]
fn ignores_entries_under_other_keys() {
    assert_eq!(
        parse_yaml("capture_rate: 30\nstorage_path: /tmp/x\n"),
        Some(String::from("/tmp/x"))
    );
}

#[test]
fn rejects_empty_document() {
    assert_eq!(parse_yaml(""), None);
}

#[test]
fn rejects_unrelated_key() {
    assert_eq!(parse_yaml("capture_rate: 30\n"), None);
}

#[test]
fn rejects_duplicate_storage_path() {
    assert_eq!(parse_yaml("storage_path: /a\nstorage_path: /b\n"), None);
}

#[test]
fn rejects_null_value() {
    assert_eq!(parse_yaml("storage_path:\n"), None);
    assert_eq!(parse_yaml("storage_path: \n"), None);
    assert_eq!(parse_yaml("storage_path: null\n"), None);
    assert_eq!(parse_yaml("storage_path: ~\n"), None);
}

#[test]
fn rejects_boolean_value() {
    assert_eq!(parse_yaml("storage_path: true\n"), None);
    assert_eq!(parse_yaml("storage_path: FALSE\n"), None);
}

#[test]
fn rejects_flow_and_unterminated_values() {
    assert_eq!(parse_yaml("storage_path: [\n"), None);
    assert_eq!(parse_yaml("storage_path: [/a, /b]\n"), None);
    assert_eq!(parse_yaml("storage_path: {a: b}\n"), None);
    assert_eq!(parse_yaml("storage_path: \"unterminated\n"), None);
}

#[test]
fn rejects_mapping_like_value() {
    assert_eq!(parse_yaml("storage_path: C: drive\n"), None);
    assert_eq!(parse_yaml("storage_path: nested:\n"), None);
}

#[test]
fn round_trip_preserves_configuration() {
    let before = Configuration::new(String::from("/var/lib/captures"));
    let text = to_yaml(&before);
    let after = Configuration::new(parse_yaml(&text).expect("the serialized document parses"));
    assert_eq!(before, after);
}

#[test]
fn round_trip_preserves_awkward_paths() {
    for path in [
        "a\nb",
        "with space/x",
        "quote\"and\\slash",
        "tab\there",
        "null",
        "~",
        "-starts-with-dash",
        "",
        "[bracketed]",
    ] {
        let before = Configuration::new(String::from(path));
        let text = to_yaml(&before);
        let after =
            Configuration::new(parse_yaml(&text).expect("the serialized document parses"));
        assert_eq!(before, after);
    }
}

#[test]
fn serde_yaml_reads_what_the_codec_writes() {
    for path in ["/tmp/x", "a b", "a\nb", "quote\"and\\slash"] {
        let configuration = Configuration::new(String::from(path));
        let text = to_yaml(&configuration);
        let value: serde_yaml::Value = serde_yaml::from_str(&text).expect("valid yaml");
        assert_eq!(value.get("storage_path").and_then(|v| v.as_str()), Some(path));
    }
}

#[test]
fn codec_reads_what_serde_yaml_writes() {
    for path in ["/home/user/realsense_captures", "a b"] {
        let mut mapping = serde_yaml::Mapping::new();
        mapping.insert(
            serde_yaml::Value::String(String::from("storage_path")),
            serde_yaml::Value::String(String::from(path)),
        );
        let text =
            serde_yaml::to_string(&serde_yaml::Value::Mapping(mapping)).expect("serializes");
        assert_eq!(parse_yaml(&text), Some(String::from(path)));
    }
}

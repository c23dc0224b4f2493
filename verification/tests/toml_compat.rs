//! The manifest text this library emits must stay a well-formed TOML
//! document, since earlier tooling read it with a full TOML parser.

use swift_archiver::manifest::Manifest;

#[test]
fn emitted_manifest_is_valid_toml() {
    let mut m = Manifest::create_empty("SWX20190116".to_string());
    m.record_file("a.wav".to_string());
    m.record_file("b.wav".to_string());
    let text = m.to_text();

    let value: toml::Value = toml::from_str(&text).expect("valid TOML");
    assert_eq!(value.get("identifier").and_then(|v| v.as_str()), Some("SWX20190116"));
    assert_eq!(value.get("update").and_then(|v| v.as_bool()), Some(true));
    let files = value.get("files").and_then(|v| v.as_array()).expect("array");
    let names: Vec<&str> = files.iter().filter_map(|v| v.as_str()).collect();
    assert_eq!(names, vec!["a.wav", "b.wav"]);
}

#[test]
fn empty_manifest_is_valid_toml() {
    let m = Manifest::create_empty("X1".to_string());
    let value: toml::Value = toml::from_str(&m.to_text()).expect("valid TOML");
    assert_eq!(value.get("identifier").and_then(|v| v.as_str()), Some("X1"));
    let files = value.get("files").and_then(|v| v.as_array()).expect("array");
    assert!(files.is_empty());
}

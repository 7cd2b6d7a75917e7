use idota::gsi_config::{bind_address, config_contents, data_sections, gsi_uri};

const TEST_URI: &str = "http://127.0.0.1:53000/";

#[test]
fn contents_include_uri_and_sections() {
    let contents = config_contents(TEST_URI, None);
    assert!(contents.starts_with("\"dota2-assistant Configuration\""));
    assert!(contents.contains(&format!("\"uri\"               \"{TEST_URI}\"")));
    for section in data_sections() {
        assert!(contents.contains(&format!("\"{section}\"")));
    }
    assert!(!contents.contains("\"auth\""));
}

#[test]
fn contents_include_auth_when_token_given() {
    let contents = config_contents(TEST_URI, Some("secret123"));
    assert!(contents.contains("\"token\"         \"secret123\""));
}

#[test]
fn token_is_escaped_for_vdf() {
    let contents = config_contents(TEST_URI, Some("a\"b\\c"));
    assert!(contents.contains(r#""token"         "a\"b\\c""#));
}

#[test]
fn contents_exact_without_token() {
    let expected = "\"dota2-assistant Configuration\"\n{\n    \"uri\"               \"http://127.0.0.1:53000/\"\n    \"timeout\"           \"5.0\"\n    \"buffer\"            \"0.1\"\n    \"throttle\"          \"0.1\"\n    \"heartbeat\"         \"30.0\"\n    \"data\"\n    {\n        \"buildings\"         \"1\"\n        \"provider\"         \"1\"\n        \"map\"         \"1\"\n        \"player\"         \"1\"\n        \"hero\"         \"1\"\n        \"abilities\"         \"1\"\n        \"items\"         \"1\"\n        \"draft\"         \"1\"\n        \"wearables\"         \"1\"\n    }\n}\n";
    assert_eq!(config_contents(TEST_URI, None), expected);
}

#[test]
fn contents_exact_auth_block() {
    let contents = config_contents(TEST_URI, Some("abc"));
    assert!(contents.ends_with(
        "    }\n    \"auth\"\n    {\n        \"token\"         \"abc\"\n    }\n}\n"
    ));
}

#[test]
fn data_sections_in_order() {
    assert_eq!(
        data_sections(),
        vec![
            "buildings", "provider", "map", "player", "hero", "abilities", "items", "draft",
            "wearables"
        ]
    );
}

#[test]
fn uri_and_bind_address_for_port() {
    assert_eq!(gsi_uri(53000), "http://127.0.0.1:53000/");
    assert_eq!(bind_address(53000), "127.0.0.1:53000");
    assert_eq!(gsi_uri(0), "http://127.0.0.1:0/");
    assert_eq!(bind_address(65535), "127.0.0.1:65535");
    assert_eq!(bind_address(7), "127.0.0.1:7");
}

#[test]
fn uri_wraps_bind_address() {
    for port in [0u16, 1, 9, 10, 99, 100, 53000, 53001, 65535] {
        assert_eq!(gsi_uri(port), format!("http://{}/", bind_address(port)));
    }
}

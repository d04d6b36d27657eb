use vimmail::config::{config_value, parse_config};

#[test]
fn settings_are_read_line_by_line() {
    let text = "# account\nusername = you@fastmail.com\n\n  api-token=abc=def  \nno equals sign\n = empty key\nusername = other@fastmail.com\r\n#x = y\nkey =\n";
    let settings = parse_config(text);
    let pairs: Vec<(&str, &str)> =
        settings.iter().map(|s| (s.key.as_str(), s.value.as_str())).collect();
    assert_eq!(
        pairs,
        vec![
            ("username", "you@fastmail.com"),
            ("api-token", "abc=def"),
            ("", "empty key"),
            ("username", "other@fastmail.com"),
            ("key", ""),
        ]
    );
    assert_eq!(config_value(&settings, "username"), Some("other@fastmail.com"));
    assert_eq!(config_value(&settings, "api-token"), Some("abc=def"));
    assert_eq!(config_value(&settings, "key"), Some(""));
    assert_eq!(config_value(&settings, "missing"), None);
    assert!(parse_config("").is_empty());
}

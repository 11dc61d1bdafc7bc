use people_clock::env_params::{
    get_env_variable, get_env_variable_with_default, get_optional_env_variable,
    ConfigParamFromEnv,
};

#[test]
fn strings_pass_through() {
    let v: String = get_env_variable("HOME_ASSISTANT_ENDPOINT", Some("http://ha:8123".to_string()))
        .unwrap();
    assert_eq!(v, "http://ha:8123");
}

#[test]
fn missing_required_variable_is_an_error() {
    let r: Result<String, String> = get_env_variable("PORT", None);
    assert_eq!(r.unwrap_err(), "Environment variable 'PORT' not set.");
}

#[test]
fn optional_variable_absent_is_none() {
    let r: Option<u16> = get_optional_env_variable("PORT", None).unwrap();
    assert!(r.is_none());
}

#[test]
fn default_applies_only_when_unset() {
    let d: u16 = get_env_variable_with_default("POLL_INTERVAL", None, 60).unwrap();
    assert_eq!(d, 60);
    let v: u16 = get_env_variable_with_default("POLL_INTERVAL", Some("90".to_string()), 60)
        .unwrap();
    assert_eq!(v, 90);
    let bad: Result<u16, String> =
        get_env_variable_with_default("POLL_INTERVAL", Some("ninety".to_string()), 60);
    assert!(bad.is_err());
}

#[test]
fn port_numbers_parse_like_rust_integers() {
    assert_eq!(u16::parse("0").unwrap(), 0);
    assert_eq!(u16::parse("12733").unwrap(), 12733);
    assert_eq!(u16::parse("65535").unwrap(), 65535);
    assert_eq!(u16::parse("+80").unwrap(), 80);
    assert!(u16::parse("65536").is_err());
    assert!(u16::parse("999999999999").is_err());
    assert!(u16::parse("").is_err());
    assert!(u16::parse("+").is_err());
    assert!(u16::parse("-1").is_err());
    assert!(u16::parse("80x").is_err());
    assert!(u16::parse(" 80").is_err());
}

#[test]
fn comma_lists_split_like_str_split() {
    let v: Vec<String> = Vec::parse("person.a,person.b,person.c").unwrap();
    assert_eq!(v, vec!["person.a", "person.b", "person.c"]);
    let single: Vec<String> = Vec::parse("alone").unwrap();
    assert_eq!(single, vec!["alone"]);
    // An empty string still yields one (empty) part, as str::split does.
    let empty: Vec<String> = Vec::parse("").unwrap();
    assert_eq!(empty, vec![""]);
    let trailing: Vec<String> = Vec::parse("a,b,").unwrap();
    assert_eq!(trailing, vec!["a", "b", ""]);
}

#[test]
fn typed_lists_propagate_element_errors() {
    let ports: Vec<u16> = Vec::parse("80,443,8123").unwrap();
    assert_eq!(ports, vec![80, 443, 8123]);
    let bad: Result<Vec<u16>, String> = Vec::parse("80,oops,8123");
    assert!(bad.is_err());
}

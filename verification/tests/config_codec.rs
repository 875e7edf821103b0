use bap::config::Config;
use bap::Error;

#[test]
fn to_json_with_default() {
    let c = Config { default_version: Some("2.0.0".to_string()) };
    assert_eq!(c.to_json(), "{\n  \"default_version\": \"2.0.0\"\n}");
}

#[test]
fn to_json_without_default() {
    let c = Config { default_version: None };
    assert_eq!(c.to_json(), "{\n  \"default_version\": null\n}");
}

#[test]
fn roundtrip_keeps_the_record() {
    let c = Config { default_version: Some("2.0.0".to_string()) };
    let back = Config::from_json(&c.to_json()).unwrap();
    assert_eq!(back.default_version, c.default_version);
    let none = Config { default_version: None };
    let back = Config::from_json(&none.to_json()).unwrap();
    assert_eq!(back.default_version, None);
}

#[test]
fn roundtrip_escapes_special_characters() {
    let c = Config { default_version: Some("a\"b\\c".to_string()) };
    let text = c.to_json();
    let back = Config::from_json(&text).unwrap();
    assert_eq!(back.default_version, Some("a\"b\\c".to_string()));
}

#[test]
fn from_json_accepts_empty_object() {
    let c = Config::from_json("{}").unwrap();
    assert_eq!(c.default_version, None);
    let c = Config::from_json("  {  }  ").unwrap();
    assert_eq!(c.default_version, None);
}

#[test]
fn from_json_accepts_null_member() {
    let c = Config::from_json("{\"default_version\": null}").unwrap();
    assert_eq!(c.default_version, None);
}

#[test]
fn from_json_tolerates_whitespace() {
    let c = Config::from_json(" {\n\t\"default_version\"  :  \"1.2.3\"\n } \n").unwrap();
    assert_eq!(c.default_version, Some("1.2.3".to_string()));
}

#[test]
fn from_json_rejects_malformed_text() {
    assert!(matches!(Config::from_json(""), Err(Error::ConfigParse)));
    assert!(matches!(Config::from_json("not json"), Err(Error::ConfigParse)));
    assert!(matches!(Config::from_json("{\"default_version\": }"), Err(Error::ConfigParse)));
    assert!(matches!(Config::from_json("{\"other\": null}"), Err(Error::ConfigParse)));
    assert!(matches!(Config::from_json("{\"default_version\": \"1.0\""), Err(Error::ConfigParse)));
    assert!(matches!(
        Config::from_json("{\"default_version\": \"1.0\"} extra"),
        Err(Error::ConfigParse)
    ));
}

#[test]
fn set_default_overwrites() {
    let mut c = Config::default();
    assert_eq!(c.default_version, None);
    c.set_default("1.2.3");
    assert_eq!(c.default_version, Some("1.2.3".to_string()));
    c.set_default("2.0.0");
    assert_eq!(c.default_version, Some("2.0.0".to_string()));
}

#[test]
fn clear_default_if_only_on_match() {
    let mut c = Config { default_version: Some("1.2.3".to_string()) };
    c.clear_default_if("9.9.9");
    assert_eq!(c.default_version, Some("1.2.3".to_string()));
    c.clear_default_if("1.2.3");
    assert_eq!(c.default_version, None);
    c.clear_default_if("1.2.3");
    assert_eq!(c.default_version, None);
}

//! Decoding and re-encoding of single dependency declarations.

use trybuild::decl::Error;
use trybuild::shape::Shape;
use trybuild::Dependency;

#[test]
fn bare_string_decodes_to_version() {
    let d = Dependency::decode_shape(Shape::Str("1.2.3".to_string())).unwrap();
    assert_eq!(d.version, Some("1.2.3".to_string()));
    assert_eq!(d.path, None);
    assert!(d.rest.is_empty());
}

#[test]
fn bare_string_value_decodes_to_version() {
    let d = Dependency::from_value(toml::Value::String("0.9.8".to_string())).unwrap();
    assert_eq!(d.version, Some("0.9.8".to_string()));
    assert_eq!(d.path, None);
    assert!(d.rest.is_empty());
}

#[test]
fn table_routes_known_keys() {
    let entries = vec![
        ("path".to_string(), toml::Value::String("../x".to_string())),
        ("version".to_string(), toml::Value::String("1.0".to_string())),
    ];
    let d = Dependency::decode_shape(Shape::Table(entries)).unwrap();
    assert_eq!(d.version, Some("1.0".to_string()));
    assert_eq!(d.path, Some("../x".to_string()));
    assert!(d.rest.is_empty());
}

#[test]
fn table_preserves_unrecognized_keys() {
    let features = toml::Value::Array(vec![toml::Value::String("derive".to_string())]);
    let entries = vec![
        ("features".to_string(), features.clone()),
        ("optional".to_string(), toml::Value::Boolean(true)),
        ("version".to_string(), toml::Value::String("2.1".to_string())),
    ];
    let d = Dependency::decode_shape(Shape::Table(entries)).unwrap();
    assert_eq!(d.version, Some("2.1".to_string()));
    assert_eq!(d.path, None);
    assert_eq!(d.rest.len(), 2);
    assert_eq!(d.rest[0].0, "features");
    assert_eq!(d.rest[0].1, features);
    assert_eq!(d.rest[1].0, "optional");
    assert_eq!(d.rest[1].1, toml::Value::Boolean(true));
}

#[test]
fn encode_then_decode_is_identity() {
    let d = Dependency {
        version: Some("0.3".to_string()),
        path: Some("../dep".to_string()),
        rest: vec![
            ("branch".to_string(), toml::Value::String("main".to_string())),
            ("optional".to_string(), toml::Value::Boolean(false)),
        ],
    };
    let encoded = d.encode();
    let keys: Vec<&str> = encoded.iter().map(|(k, _)| k.as_str()).collect();
    assert_eq!(keys, vec!["version", "path", "branch", "optional"]);
    let back = Dependency::decode_shape(Shape::Table(encoded)).unwrap();
    assert_eq!(back.version, Some("0.3".to_string()));
    assert_eq!(back.path, Some("../dep".to_string()));
    assert_eq!(back.rest.len(), 2);
    assert_eq!(back.rest[0].0, "branch");
    assert_eq!(
        back.rest[0].1,
        toml::Value::String("main".to_string())
    );
    assert_eq!(back.rest[1].0, "optional");
    assert_eq!(back.rest[1].1, toml::Value::Boolean(false));
}

#[test]
fn encode_omits_absent_attributes() {
    let d = Dependency { version: None, path: None, rest: Vec::new() };
    assert!(d.encode().is_empty());
    let d2 = Dependency {
        version: Some("1.0".to_string()),
        path: None,
        rest: Vec::new(),
    };
    let encoded = d2.encode();
    assert_eq!(encoded.len(), 1);
    assert_eq!(encoded[0].0, "version");
    assert_eq!(encoded[0].1, toml::Value::String("1.0".to_string()));
}

#[test]
fn non_string_version_is_rejected() {
    let entries = vec![("version".to_string(), toml::Value::Integer(1))];
    let r = Dependency::decode_shape(Shape::Table(entries));
    assert_eq!(r.unwrap_err(), Error::UnexpectedShape);
}

#[test]
fn non_string_path_is_rejected() {
    let entries = vec![("path".to_string(), toml::Value::Boolean(true))];
    let r = Dependency::decode_shape(Shape::Table(entries));
    assert_eq!(r.unwrap_err(), Error::UnexpectedShape);
}

#[test]
fn scalar_declaration_is_rejected() {
    let r = Dependency::from_value(toml::Value::Integer(5));
    assert_eq!(r.unwrap_err(), Error::UnexpectedShape);
    let r2 = Dependency::from_value(toml::Value::Boolean(false));
    assert_eq!(r2.unwrap_err(), Error::UnexpectedShape);
}

//! End-to-end extraction from manifest text: loading, filtering the tool's
//! own entry, and path normalization.

use trybuild::decl::Error;
use trybuild::{get, try_get};

#[test]
fn missing_manifest_gives_empty_mapping() {
    let m = get("/repo/proj", None);
    assert_eq!(m.len(), 0);
}

#[test]
fn missing_manifest_is_an_io_error() {
    let r = try_get("/repo/proj", None);
    assert_eq!(r.unwrap_err(), Error::Io);
}

#[test]
fn malformed_manifest_gives_empty_mapping() {
    let m = get("/repo/proj", Some("this = = is not toml"));
    assert_eq!(m.len(), 0);
    let r = try_get("/repo/proj", Some("this = = is not toml"));
    assert_eq!(r.unwrap_err(), Error::Parse);
}

#[test]
fn absent_section_gives_empty_mapping() {
    let text = "[package]\nname = \"demo\"\nversion = \"0.1.0\"\n";
    let m = try_get("/repo/proj", Some(text)).unwrap();
    assert_eq!(m.len(), 0);
}

#[test]
fn self_entry_is_removed() {
    let text = "[dev-dependencies]\ntrybuild = \"1.0\"\nserde = \"1.0\"\n";
    let m = get("/repo/proj", Some(text));
    assert!(!m.contains("trybuild"));
    assert!(m.contains("serde"));
    assert_eq!(m.len(), 1);
}

#[test]
fn declared_path_is_joined_onto_manifest_dir() {
    let text = "[dev-dependencies]\nsibling = { path = \"../sibling\" }\n";
    let m = get("/repo/proj", Some(text));
    let dep = m.get("sibling").unwrap();
    assert_eq!(dep.path, Some("/repo/proj/../sibling".to_string()));
    assert_eq!(dep.version, None);
}

#[test]
fn string_and_table_forms_extract_together() {
    let text = "[dev-dependencies]\nplain = \"0.8\"\nlocal = { path = \"../sibling\", version = \"1.1\" }\n";
    let m = get("/repo/proj", Some(text));
    assert_eq!(m.len(), 2);
    let plain = m.get("plain").unwrap();
    assert_eq!(plain.version, Some("0.8".to_string()));
    assert_eq!(plain.path, None);
    let local = m.get("local").unwrap();
    assert_eq!(local.version, Some("1.1".to_string()));
    assert_eq!(local.path, Some("/repo/proj/../sibling".to_string()));
}

#[test]
fn unrecognized_attributes_survive_extraction() {
    let text = "[dev-dependencies]\nfancy = { version = \"1.0\", features = [\"extra\"], default-features = false }\n";
    let m = get("/repo/proj", Some(text));
    let dep = m.get("fancy").unwrap();
    assert_eq!(dep.version, Some("1.0".to_string()));
    assert_eq!(dep.rest.len(), 2);
    let keys: Vec<&str> = dep.rest.iter().map(|(k, _)| k.as_str()).collect();
    assert!(keys.contains(&"features"));
    assert!(keys.contains(&"default-features"));
}

#[test]
fn entries_come_out_ordered_by_name() {
    let text = "[dev-dependencies]\nzebra = \"1\"\napple = \"2\"\nmango = \"3\"\n";
    let m = get("/repo/proj", Some(text));
    let entries = m.into_entries();
    let keys: Vec<&str> = entries.iter().map(|(k, _)| k.as_str()).collect();
    assert_eq!(keys, vec!["apple", "mango", "zebra"]);
}

#[test]
fn non_table_section_is_rejected() {
    let text = "dev-dependencies = 5\n";
    let r = try_get("/repo/proj", Some(text));
    assert_eq!(r.unwrap_err(), Error::UnexpectedShape);
    assert_eq!(get("/repo/proj", Some(text)).len(), 0);
}

#[test]
fn bad_declaration_fails_the_whole_table() {
    let text = "[dev-dependencies]\ngood = \"1.0\"\nbad = 7\n";
    let r = try_get("/repo/proj", Some(text));
    assert_eq!(r.unwrap_err(), Error::UnexpectedShape);
    assert_eq!(get("/repo/proj", Some(text)).len(), 0);
}

#[test]
fn other_sections_are_ignored() {
    let text = "[package]\nname = \"demo\"\n[dependencies]\nserde = \"1.0\"\n[dev-dependencies]\nanyhow = \"1.0\"\n";
    let m = get("/repo/proj", Some(text));
    assert_eq!(m.len(), 1);
    assert!(m.contains("anyhow"));
    assert!(!m.contains("serde"));
}

#[test]
fn lookup_misses_absent_names() {
    let text = "[dev-dependencies]\nserde = \"1.0\"\n";
    let m = get("/repo/proj", Some(text));
    assert!(m.get("toml").is_none());
    assert!(!m.contains("toml"));
}

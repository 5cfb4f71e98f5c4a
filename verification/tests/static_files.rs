use std::sync::Arc;

use progscrape::filters::StaticFileFilter;
use progscrape::json::Json;
use progscrape::static_files::{to_hash_key, StaticFileRegistry};

const CSS_NAME: &str = "v0-7c98040a541657584690ae2a1cc3b42a8b53b159cc60c5d3abbfecbaeac6c94a.css";

#[test]
fn hash_keys_are_lowercase_hex() {
    assert_eq!(to_hash_key(&[0x00, 0xab, 0x10, 0xff]), "v0-00ab10ff");
    assert_eq!(to_hash_key(&[]), "v0-");
}

#[test]
fn registered_files_are_found_by_key_and_name() {
    let mut registry = StaticFileRegistry::new();
    assert!(registry.register_bytes("style.css", "css", b"body{}").is_ok());
    assert_eq!(registry.lookup_key("style.css"), Some(CSS_NAME));
    assert_eq!(registry.get_bytes_from_key(CSS_NAME), Some((b"body{}".to_vec(), "text/css")));
    assert_eq!(registry.lookup_key("missing.css"), None);
    assert_eq!(registry.get_bytes_from_key("style.css"), None);
}

#[test]
fn mime_types_come_from_extension_or_contents() {
    let mut registry = StaticFileRegistry::new();
    assert!(registry.register_bytes("notes", "txt", b"hello").is_ok());
    let name = registry.lookup_key("notes").unwrap().to_owned();
    assert_eq!(name, "v0-2cf24dba5fb0a30e26e83b2ac5b9e29e1b161e5c1fa7425e73043362938b9824.txt");
    assert_eq!(registry.get_bytes_from_key(&name).unwrap().1, "text/plain");

    let png = [0x89, 0x50, 0x4E, 0x47, 0x0D, 0x0A, 0x1A, 0x0A, 0, 0, 0, 13];
    assert!(registry.try_register_bytes("logo", "png", &png));
    let name = registry.lookup_key("logo").unwrap().to_owned();
    assert_eq!(name, "v0-218ad85a233eff829618a6865ab681222b734c62d35a32b3eabd5c37d8945f86.png");
    assert_eq!(registry.get_bytes_from_key(&name), Some((png.to_vec(), "image/png")));

    // Unknown contents with an unknown extension are not registered.
    assert!(!registry.try_register_bytes("blob", "bin", b"bye"));
    assert_eq!(registry.lookup_key("blob"), None);
    assert_eq!(registry.keys(), vec!["logo".to_owned(), "notes".to_owned()]);
}

#[test]
fn registering_a_key_again_replaces_its_file() {
    let mut registry = StaticFileRegistry::new();
    assert!(registry.register_bytes("b.txt", "txt", b"bye").is_ok());
    assert!(registry.register_bytes("a.txt", "txt", b"hello").is_ok());
    assert!(registry.register_bytes("b.txt", "txt", b"hello").is_ok());
    assert_eq!(registry.keys(), vec!["a.txt".to_owned(), "b.txt".to_owned()]);
    assert_eq!(registry.lookup_key("b.txt"), registry.lookup_key("a.txt"));
    // The earlier file is still served under its own name.
    let old = "v0-b49f425a7e1f9cff3856329ada223f2f9d368f15a00cf48df16ca95986137fe8.txt";
    assert_eq!(registry.get_bytes_from_key(old), Some((b"bye".to_vec(), "text/plain")));
}

#[test]
fn static_filter_links_to_the_served_name() {
    let mut registry = StaticFileRegistry::new();
    assert!(registry.register_bytes("style.css", "css", b"body{}").is_ok());
    let filter = StaticFileFilter::new(Arc::new(registry));
    assert_eq!(filter.filter(&Json::Str("style.css".to_owned())), format!("/static/{CSS_NAME}"));
    assert_eq!(filter.filter(&Json::Str("nope.css".to_owned())), "/static/<invalid>");
    assert_eq!(filter.filter(&Json::Bool(true)), "/static/<invalid>");
}

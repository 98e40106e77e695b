use capellambse::error::ModelError;
use capellambse::namespace::{ModelClass, Namespace, UriMatch};
use capellambse::relation::gendocstring;
use capellambse::version::VersionToken;
use std::cmp::Ordering;

fn versioned(precision: usize) -> Namespace {
    Namespace::new(
        "http://example.com/org/{VERSION}/core".to_string(),
        "org".to_string(),
        None,
        Some("7.0.0".to_string()),
        precision,
    )
    .unwrap()
}

fn unversioned() -> Namespace {
    Namespace::new("http://example.com/fixed".to_string(), "fx".to_string(), Some("vp".to_string()), None, 1)
        .unwrap()
}

fn version_of(r: Result<UriMatch, ModelError>) -> Vec<u64> {
    match r {
        Ok(UriMatch::MatchedVersion(t)) => t.parts,
        _ => panic!("expected a version"),
    }
}

#[test]
fn version_parse_and_compare() {
    assert_eq!(VersionToken::parse("1.12.3").unwrap().parts, vec![1, 12, 3]);
    assert!(VersionToken::parse("1.x").is_none());
    assert!(VersionToken::parse("").is_none());
    assert!(VersionToken::parse("1..2").is_none());
    assert!(VersionToken::parse("99999999999999999999").is_none());
    let a = VersionToken::parse("1.0").unwrap();
    let b = VersionToken::parse("1").unwrap();
    assert_eq!(a.compare(&b), Ordering::Equal);
    let c = VersionToken::parse("1.2").unwrap();
    let d = VersionToken::parse("1.10").unwrap();
    assert_eq!(c.compare(&d), Ordering::Less);
    assert_eq!(d.compare(&c), Ordering::Greater);
    assert!(c.le(&d));
    assert!(!c.ge(&d));
}

#[test]
fn namespace_settings_are_checked() {
    let r = Namespace::new("u".to_string(), "a".to_string(), None, None, 0);
    assert!(matches!(r, Err(ModelError::InvalidPrecision)));
    let r = Namespace::new("u/{VERSION}".to_string(), "a".to_string(), None, None, 1);
    assert!(matches!(r, Err(ModelError::MissingMaxVersion)));
    let r = Namespace::new("u".to_string(), "a".to_string(), None, Some("1".to_string()), 1);
    assert!(matches!(r, Err(ModelError::UnexpectedMaxVersion)));
    let ns = unversioned();
    assert_eq!(ns.uri(), "http://example.com/fixed");
    assert_eq!(ns.alias(), "fx");
    assert_eq!(ns.viewpoint(), Some("vp".to_string()));
    assert_eq!(ns.get_maxver(), None);
    assert_eq!(versioned(1).get_maxver(), Some("7.0.0".to_string()));
    assert_eq!(versioned(2).version_precision(), 2);
}

#[test]
fn trim_version_zeroes_trailing_components() {
    let ns = versioned(2);
    assert_eq!(ns.trim_version("1.2.3"), "1.2.0");
    assert_eq!(ns.trim_version("1.2.3.4"), "1.2.0.0");
    assert_eq!(ns.trim_version("1.2"), "1.2");
    assert_eq!(ns.trim_version("1"), "1");
    let once = ns.trim_version("5.6.7");
    assert_eq!(ns.trim_version(&once), once);
    assert_eq!(versioned(1).trim_version("7.1.2"), "7.0.0");
}

#[test]
fn versioned_uri_matches_with_version() {
    let ns = versioned(2);
    assert_eq!(version_of(ns.match_uri("http://example.com/org/1.2.3/core")), vec![1, 2, 0]);
    assert_eq!(version_of(ns.match_uri("http://example.com/org/7/core")), vec![7]);
    assert!(matches!(ns.match_uri("http://example.com/org/1/2/core"), Ok(UriMatch::NoMatch)));
    assert!(matches!(ns.match_uri("http://example.com/org//core"), Ok(UriMatch::Matched)));
    assert!(matches!(ns.match_uri("http://example.com/org/{VERSION}/core"), Ok(UriMatch::Matched)));
    assert!(matches!(ns.match_uri("http://example.com/other/1.2/core"), Ok(UriMatch::NoMatch)));
    assert!(matches!(ns.match_uri("http://example.com/org/"), Ok(UriMatch::NoMatch)));
    match ns.match_uri("http://example.com/org/1.x/core") {
        Err(ModelError::InvalidVersion { text }) => assert_eq!(text, "1.x"),
        _ => panic!("expected an invalid version"),
    }
}

#[test]
fn unversioned_uri_matches_exactly() {
    let ns = unversioned();
    assert!(matches!(ns.match_uri("http://example.com/fixed"), Ok(UriMatch::Matched)));
    assert!(matches!(ns.match_uri("http://example.com/fixed/"), Ok(UriMatch::NoMatch)));
    assert!(matches!(ns.match_uri("http://example.com/fixe"), Ok(UriMatch::NoMatch)));
}

#[test]
fn get_class_prefers_newest_covering_entry() {
    let mut ns = versioned(1);
    ns.register(ModelClass::new("org", "Thing", 1), Some("1.0"), Some("2.0")).unwrap();
    ns.register(ModelClass::new("org", "Thing", 2), Some("2.0"), None).unwrap();
    let v2 = VersionToken::parse("2.0").unwrap();
    assert_eq!(ns.get_class("Thing", Some(&v2)).unwrap().id, 2);
    let v15 = VersionToken::parse("1.5").unwrap();
    assert_eq!(ns.get_class("Thing", Some(&v15)).unwrap().id, 1);
    let v9 = VersionToken::parse("9").unwrap();
    assert_eq!(ns.get_class("Thing", Some(&v9)).unwrap().id, 2);
    let v0 = VersionToken::parse("0.5").unwrap();
    match ns.get_class("Thing", Some(&v0)) {
        Err(ModelError::MissingClass { namespace, version, class_name }) => {
            assert_eq!(namespace, "http://example.com/org/{VERSION}/core");
            assert_eq!(version.unwrap().parts, vec![0, 5]);
            assert_eq!(class_name, "Thing");
        }
        _ => panic!("expected a missing class"),
    }
    assert!(matches!(ns.get_class("Thing", None), Err(ModelError::NoVersionRequested { .. })));
    assert!(ns.contains("Thing"));
    assert!(!ns.contains("Other"));
}

#[test]
fn get_class_unversioned_takes_greatest_minimum() {
    let mut ns = unversioned();
    ns.register(ModelClass::new("fx", "Item", 1), Some("1"), None).unwrap();
    ns.register(ModelClass::new("fx", "Item", 3), Some("3"), Some("4")).unwrap();
    ns.register(ModelClass::new("fx", "Item", 2), Some("2"), None).unwrap();
    ns.register(ModelClass::new("fx", "Item", 4), Some("3"), None).unwrap();
    let c = ns.get_class("Item", None).unwrap();
    assert_eq!(c.id, 3);
    assert_eq!(c.name, "Item");
    assert_eq!(c.namespace, "fx");
    ns.register(ModelClass::new("fx", "Plain", 7), None, None).unwrap();
    assert_eq!(ns.get_class("Plain", None).unwrap().id, 7);
}

#[test]
fn register_checks_namespace_and_versions() {
    let mut ns = unversioned();
    match ns.register(ModelClass::new("org", "Thing", 1), None, None) {
        Err(ModelError::ForeignClass { class_name, namespace, owner }) => {
            assert_eq!(class_name, "Thing");
            assert_eq!(namespace, "http://example.com/fixed");
            assert_eq!(owner, "org");
        }
        _ => panic!("expected a foreign class"),
    }
    assert!(matches!(
        ns.register(ModelClass::new("fx", "Thing", 1), Some("a"), None),
        Err(ModelError::InvalidVersion { .. })
    ));
    assert!(matches!(
        ns.register(ModelClass::new("fx", "Thing", 1), None, Some("1.b")),
        Err(ModelError::InvalidVersion { .. })
    ));
    assert!(!ns.contains("Thing"));
}

#[test]
fn docstring_of_relation() {
    assert_eq!(gendocstring("Component", "owned_parts"), "The owned parts of this Component.");
}

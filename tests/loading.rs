use capellambse::error::ModelError;
use capellambse::loader::{DocumentParser, NativeLoader, XmlEvent};
use capellambse::model::Node;
use capellambse::namespace::{ModelClass, Namespace};
use capellambse::registry::Registry;
use capellambse::relation::{Key, RelationStore};
use capellambse::scan::RawAttribute;
use capellambse::xml::load_document;

const HEAD: &str = r#"<root xmlns:xsi="http://www.w3.org/2001/XMLSchema-instance" xmlns:org="http://example.com/org/7.0.0">"#;

fn registry() -> Registry {
    let mut ns = Namespace::new(
        "http://example.com/org/{VERSION}".to_string(),
        "org".to_string(),
        None,
        Some("7.0.0".to_string()),
        1,
    )
    .unwrap();
    ns.register(ModelClass::new("org", "Thing", 5), Some("5.0"), Some("6.9")).unwrap();
    ns.register(ModelClass::new("org", "Thing", 7), Some("7.0"), None).unwrap();
    let mut reg = Registry::new();
    reg.add(ns);
    reg
}

fn load(body: &str) -> Result<NativeLoader, ModelError> {
    let doc = format!("{HEAD}{body}</root>");
    load_document(&registry(), doc.as_bytes())
}

fn foreign(m: &NativeLoader, i: usize) -> &capellambse::model::ForeignElement {
    match m.node(i) {
        Some(Node::Foreign(f)) => f,
        _ => panic!("expected a foreign element"),
    }
}

#[test]
fn typed_elements_are_indexed() {
    let m = load(r#"<a xsi:type="org:Thing" uuid="u1" name="first"/><b xsi:type="org:Thing" uuid="u2"/>"#).unwrap();
    assert!(!m.is_corrupt());
    let e = m.by_uuid("u1").unwrap();
    assert_eq!(e.id, "u1");
    assert_eq!(e.class.id, 7);
    assert_eq!(e.class.name, "Thing");
    assert_eq!(e.attributes, vec![("uuid".to_string(), "u1".to_string()), ("name".to_string(), "first".to_string())]);
    assert!(m.by_uuid("u2").is_ok());
    assert!(matches!(m.by_uuid("nope"), Err(ModelError::NotFound { .. })));
    assert_eq!(m.roots().len(), 1);
    assert_eq!(foreign(&m, m.roots()[0]).children.len(), 2);
    assert!(m.referenced_viewpoints().is_empty());
}

#[test]
fn duplicate_ids_keep_the_later_element_and_flag_corruption() {
    let m = load(r#"<a xsi:type="org:Thing" uuid="dup" name="one"/><b xsi:type="org:Thing" uuid="dup" name="two"/>"#)
        .unwrap();
    assert!(m.is_corrupt());
    let e = m.by_uuid("dup").unwrap();
    assert_eq!(e.attributes[1].1, "two");
    assert_eq!(foreign(&m, m.roots()[0]).children.len(), 2);
}

#[test]
fn unclosed_start_tag_fails() {
    let doc = format!("{HEAD}<a>");
    assert!(load_document(&registry(), doc.as_bytes()).is_err());
    let mut loader = DocumentParser::new();
    let reg = registry();
    loader.feed(&reg, XmlEvent::Start { name: "a".to_string(), attributes: vec![] }).unwrap();
    assert!(matches!(loader.finish(), Err(ModelError::UnclosedElement { depth: 1 })));
}

#[test]
fn foreign_subtree_keeps_tag_attributes_and_order() {
    let m = load(r#"<outer z="1" a="2"><first k="v"><deep/></first><second/>text</outer>"#).unwrap();
    let root = foreign(&m, m.roots()[0]);
    assert_eq!(root.tag.as_str(), "root");
    let outer = foreign(&m, root.children[0]);
    assert_eq!(outer.get_tag(), "outer");
    assert_eq!(outer.items(), vec![("z".to_string(), "1".to_string()), ("a".to_string(), "2".to_string())]);
    assert_eq!(outer.keys(), vec!["z".to_string(), "a".to_string()]);
    assert_eq!(outer.text.as_deref(), Some("text"));
    assert_eq!(outer.len(), 2);
    let first = foreign(&m, outer.child(0).unwrap());
    let second = foreign(&m, outer.child(1).unwrap());
    assert_eq!(first.tag.as_str(), "first");
    assert_eq!(second.tag.as_str(), "second");
    assert_eq!(first.get("k", None), Some("v".to_string()));
    assert_eq!(first.get("missing", Some("fb".to_string())), Some("fb".to_string()));
    assert_eq!(foreign(&m, first.children[0]).tag.as_str(), "deep");
    assert!(matches!(outer.child(2), Err(ModelError::IndexOutOfRange { index: 2 })));
}

#[test]
fn repeated_names_share_storage() {
    let m = load(r#"<item k="1"/><item k="2"/>"#).unwrap();
    let root = foreign(&m, m.roots()[0]);
    let a = foreign(&m, root.children[0]);
    let b = foreign(&m, root.children[1]);
    assert!(std::sync::Arc::ptr_eq(&a.tag, &b.tag));
    assert!(std::sync::Arc::ptr_eq(&a.attributes[0].0, &b.attributes[0].0));
}

#[test]
fn structural_errors() {
    assert!(matches!(load(r#"<a xsi:type="org:Thing" uuid="u">x</a>"#), Err(ModelError::TextInTypedElement { .. })));
    assert!(matches!(load(r#"<a xsi:type="org:Thing"/>"#), Err(ModelError::MissingId { .. })));
    assert!(matches!(load(r#"<a xsi:type="Thing" uuid="u"/>"#), Err(ModelError::UntypedDiscriminant { .. })));
    assert!(matches!(load(r#"<a xsi:type="zz:Thing" uuid="u"/>"#), Err(ModelError::UnknownNamespace { .. })));
    assert!(matches!(load(r#"<a xsi:type="org:Other" uuid="u"/>"#), Err(ModelError::MissingClass { .. })));
    assert!(matches!(load(r#"<a xsi:type="org:Thing" xsi:other="x" uuid="u"/>"#), Err(ModelError::DuplicateTypeAttribute { .. })));
    assert!(matches!(load(r#"<a foo:bar="x"/>"#), Err(ModelError::UnsupportedAttribute { .. })));
    assert!(matches!(load(r#"<p:a/>"#), Err(ModelError::NamespacedTag { .. })));
    assert!(matches!(load(r#"<a><![CDATA[x]]></a>"#), Err(ModelError::CDataSection)));
    assert!(matches!(load(r#"<a>&amp;</a>"#), Err(ModelError::EntityReference)));
    assert!(matches!(load(r#"<a></b>"#), Err(ModelError::Xml { .. })));
    let mut loader = DocumentParser::new();
    let reg = registry();
    assert!(matches!(loader.feed(&reg, XmlEvent::Text("x".to_string())), Err(ModelError::OrphanText)));
    assert!(loader.feed(&reg, XmlEvent::Text("  \n\t".to_string())).is_ok());
    assert!(matches!(loader.feed(&reg, XmlEvent::End), Err(ModelError::UnbalancedEnd)));
}

#[test]
fn version_comes_from_the_document_binding() {
    let doc = r#"<root xmlns:xsi="http://www.w3.org/2001/XMLSchema-instance" xmlns:org="http://example.com/org/6.1.0"><a xsi:type="org:Thing" uuid="old"/></root>"#;
    let m = load_document(&registry(), doc.as_bytes()).unwrap();
    assert_eq!(m.by_uuid("old").unwrap().class.id, 5);
    let doc = r#"<root xmlns:xsi="http://www.w3.org/2001/XMLSchema-instance"><a xsi:type="org:Thing" uuid="x"/></root>"#;
    assert!(matches!(load_document(&registry(), doc.as_bytes()), Err(ModelError::NoVersionRequested { .. })));
}

#[test]
fn events_drive_the_loader() {
    let reg = registry();
    let mut loader = DocumentParser::new();
    let xsi = RawAttribute { name: "xmlns:xsi".to_string(), value: "http://www.w3.org/2001/XMLSchema-instance".to_string() };
    let org = RawAttribute { name: "xmlns:org".to_string(), value: "http://example.com/org/7.1".to_string() };
    loader.feed(&reg, XmlEvent::Start { name: "r".to_string(), attributes: vec![xsi, org] }).unwrap();
    let t = RawAttribute { name: "xsi:type".to_string(), value: "org:Thing".to_string() };
    let u = RawAttribute { name: "uuid".to_string(), value: "e1".to_string() };
    loader.feed(&reg, XmlEvent::Empty { name: "e".to_string(), attributes: vec![t, u] }).unwrap();
    loader.feed(&reg, XmlEvent::Other).unwrap();
    loader.feed(&reg, XmlEvent::End).unwrap();
    let mut m = loader.finish().unwrap();
    assert_eq!(m.len(), 2);
    let n = m.roots()[0];
    let child = foreign(&m, n).children[0];
    let key = Key::Child("ownedParts".to_string());
    let s1 = m.relation_data(child, &key).unwrap();
    let s2 = m.relation_data(child, &key).unwrap();
    assert_eq!(s1, s2);
    let other = Key::Attribute("ownedParts".to_string());
    assert_eq!(m.relation_data(child, &other).unwrap(), s1 + 1);
    assert!(matches!(m.relation_data(n, &key), Err(ModelError::NotTyped { .. })));
    m.mark_corrupt();
    assert!(m.is_corrupt());
}

#[test]
fn relation_storage_is_created_once() {
    let mut store = RelationStore::new();
    let key = Key::Child("x".to_string());
    let a = store.data(&key);
    store.append(a, 4);
    let b = store.data(&key);
    assert_eq!(a, b);
    assert_eq!(store.list(b), &vec![4]);
    assert!(key.same(&Key::Child("x".to_string())));
    assert!(!key.same(&Key::Attribute("x".to_string())));
}

#[test]
fn invalid_utf8_name_is_refused() {
    let mut doc = HEAD.as_bytes().to_vec();
    doc.extend_from_slice(b"<a\xff/></root>");
    assert!(matches!(load_document(&registry(), &doc), Err(ModelError::InvalidUtf8)));
}

#[test]
fn foreign_attributes_can_be_set_and_removed() {
    let mut f = capellambse::model::ForeignElement {
        namespace: Some(std::sync::Arc::new("urn:x".to_string())),
        tag: std::sync::Arc::new("item".to_string()),
        text: None,
        attributes: vec![(std::sync::Arc::new("a".to_string()), "1".to_string())],
        children: vec![],
    };
    assert_eq!(f.get_tag(), "{urn:x}item");
    assert!(f.is_present());
    f.set("b".to_string(), Some("2".to_string()));
    f.set("a".to_string(), Some("3".to_string()));
    assert_eq!(f.items(), vec![("a".to_string(), "3".to_string()), ("b".to_string(), "2".to_string())]);
    f.set("a".to_string(), None);
    assert_eq!(f.keys(), vec!["b".to_string()]);
    f.set("zzz".to_string(), None);
    assert_eq!(f.len(), 0);
}

#[test]
fn whitespace_comments_and_declarations_are_skipped() {
    let doc = "<?xml version=\"1.0\" encoding=\"UTF-8\"?>\n<!-- model -->\n<root xmlns:xsi=\"http://www.w3.org/2001/XMLSchema-instance\" xmlns:org=\"http://example.com/org/7.0.0\">\n  <a xsi:type=\"org:Thing\" uuid=\"w1\">\n    <b xsi:type=\"org:Thing\" uuid=\"w2\"/>\n  </a>\n</root>\n";
    let m = load_document(&registry(), doc.as_bytes()).unwrap();
    assert_eq!(m.roots().len(), 1);
    let a = m.by_uuid("w1").unwrap();
    assert_eq!(a.children.len(), 1);
    match m.node(a.children[0]) {
        Some(Node::Typed(b)) => assert_eq!(b.id, "w2"),
        _ => panic!("expected a typed child"),
    }
    assert!(foreign(&m, m.roots()[0]).text.is_none());
}

#[test]
fn load_events_feeds_in_order() {
    let reg = registry();
    let events = vec![
        XmlEvent::Start { name: "r".to_string(), attributes: vec![] },
        XmlEvent::Empty { name: "c".to_string(), attributes: vec![] },
        XmlEvent::Text("hi".to_string()),
        XmlEvent::End,
    ];
    let m = capellambse::loader::load_events(&reg, events).unwrap();
    assert_eq!(m.len(), 2);
    let root = foreign(&m, m.roots()[0]);
    assert_eq!(root.text.as_deref(), Some("hi"));
    assert_eq!(root.children, vec![1]);
    let open = vec![XmlEvent::Start { name: "r".to_string(), attributes: vec![] }];
    assert!(matches!(capellambse::loader::load_events(&reg, open), Err(ModelError::UnclosedElement { depth: 1 })));
    let bad = vec![XmlEvent::End, XmlEvent::Start { name: "r".to_string(), attributes: vec![] }];
    assert!(matches!(capellambse::loader::load_events(&reg, bad), Err(ModelError::UnbalancedEnd)));
}

#[test]
fn tokenizer_error_keeps_its_message() {
    match load(r#"<a></b>"#) {
        Err(ModelError::Xml { message }) => assert!(message.contains('b')),
        _ => panic!("expected an XML error"),
    }
}

#[test]
fn failed_event_leaves_the_parser_unchanged() {
    let reg = registry();
    let mut parser = DocumentParser::new();
    let t = RawAttribute { name: "foo:bar".to_string(), value: "x".to_string() };
    assert!(parser.feed(&reg, XmlEvent::Start { name: "a".to_string(), attributes: vec![t] }).is_err());
    parser.feed(&reg, XmlEvent::Empty { name: "b".to_string(), attributes: vec![] }).unwrap();
    let m = parser.finish().unwrap();
    assert_eq!(m.len(), 1);
    assert_eq!(m.roots(), &vec![0]);
}

#[test]
fn resolution_errors_carry_their_details() {
    match load(r#"<a xsi:type="org:Other" uuid="u"/>"#) {
        Err(ModelError::MissingClass { namespace, version, class_name }) => {
            assert_eq!(namespace, "http://example.com/org/{VERSION}");
            assert_eq!(version.unwrap().parts, vec![7, 0, 0]);
            assert_eq!(class_name, "Other");
        }
        _ => panic!("expected a missing class"),
    }
    match load(r#"<a xsi:type="zz:Thing" uuid="u"/>"#) {
        Err(ModelError::UnknownNamespace { alias }) => assert_eq!(alias, "zz"),
        _ => panic!("expected an unknown namespace"),
    }
}

use capellambse::element_list::ElementList;
use capellambse::error::ModelError;
use capellambse::relation::{ClassRelations, RelationDef, Key, RelationKind};
use capellambse::resource::{check_entrypoint, ByteAccumulator};

fn containment(key: Option<&str>, fixed_length: usize) -> RelationDef {
    RelationDef::containment(key.map(|k| k.to_string()), None, None, None, fixed_length)
}

#[test]
fn element_list_operations() {
    let l = ElementList { inner: vec![3, 1, 3, 2] };
    assert_eq!(l.len(), 4);
    assert!(l.is_nonempty());
    assert!(!ElementList::new().is_nonempty());
    assert!(l.contains(2));
    assert!(!l.contains(9));
    assert_eq!(l.count(3), 2);
    assert_eq!(l.index(3, 1, usize::MAX).unwrap(), 2);
    assert!(matches!(l.index(3, 3, usize::MAX), Err(ModelError::NotInList)));
    assert!(matches!(l.index(2, 0, 3), Err(ModelError::NotInList)));
    assert_eq!(l.get_item(0).unwrap(), 3);
    assert_eq!(l.get_item(-1).unwrap(), 2);
    assert!(l.get_item(4).is_err());
    assert!(l.get_item(-5).is_err());
    assert!(l.eq_prefix(&vec![3, 1]));
    assert!(!l.eq(&vec![3, 1]));
    assert!(l.eq(&vec![3, 1, 3, 2]));
    assert!(!l.eq(&vec![3, 1, 3, 9]));
    assert!(!l.eq_prefix(&vec![3, 2]));
    assert_eq!(l.concat(&vec![7]), vec![3, 1, 3, 2, 7]);
    assert_eq!(ElementList { inner: vec![1, 2] }.repeat(3), vec![1, 2, 1, 2, 1, 2]);
    let mut r = ElementList { inner: vec![1, 2, 3] };
    r.reverse();
    assert_eq!(r.inner, vec![3, 2, 1]);
}

#[test]
fn relation_inherits_key_from_ancestor() {
    let base = ClassRelations {
        class_name: "Base".to_string(),
        members: vec![("parts".to_string(), Some(containment(Some("ownedParts"), 2)))],
    };
    let mut inherited = base.members[0].1.as_ref().map(|d| RelationDef { doc: "Inherited doc.".to_string(), ..containment(d.key.as_ref().map(|_| "ownedParts"), 2) }).unwrap();
    inherited.mapkey = Some("name".to_string());
    let base = ClassRelations { class_name: "Base".to_string(), members: vec![("parts".to_string(), Some(inherited))] };
    let mut rel = containment(None, 0);
    rel.set_name("Derived", &vec![base], "parts").unwrap();
    assert_eq!(rel.doc, "Inherited doc.");
    assert!(matches!(rel.key, Some(Key::Child(ref k)) if k == "ownedParts"));
    assert_eq!(rel.fixed_length, 2);
    assert_eq!(rel.mapkey.as_deref(), Some("name"));
    assert_eq!(rel.name.as_deref(), Some("parts"));
    assert_eq!(rel.owner.as_deref(), Some("Derived"));
}

#[test]
fn relation_without_key_is_refused() {
    let mut rel = containment(None, 0);
    match rel.set_name("Lonely", &vec![], "parts") {
        Err(ModelError::MissingRelationKey { owner, name }) => {
            assert_eq!(owner, "Lonely");
            assert_eq!(name, "parts");
        }
        _ => panic!("expected a missing key"),
    }
    let mut own = containment(Some("k"), 0);
    own.set_name("Owner", &vec![], "sub_parts").unwrap();
    assert_eq!(own.doc, "The sub parts of this Owner.");
}

#[test]
fn byte_accumulator_checks_reads() {
    let mut acc = ByteAccumulator::new();
    assert_eq!(acc.accept_chunk(4, b"abc").unwrap(), false);
    assert!(matches!(acc.accept_chunk(2, b"abc"), Err(ModelError::ProviderOverread { requested: 2, returned: 3 })));
    assert_eq!(acc.accept_chunk(4, b"").unwrap(), true);
    assert!(acc.is_done());
    assert_eq!(acc.into_bytes(), b"abc".to_vec());
}

#[test]
fn entrypoint_must_be_a_descriptor() {
    assert!(check_entrypoint("models/test.aird").is_ok());
    assert!(matches!(check_entrypoint("models/test.xml"), Err(ModelError::InvalidEntrypoint)));
    assert!(check_entrypoint("models/.aird").is_err());
    assert!(check_entrypoint("a.aird/b").is_err());
}

#[test]
fn constructors_and_writability() {
    let c = containment(Some("kids"), 0);
    assert!(matches!(c.kind, RelationKind::Containment));
    assert!(matches!(c.key, Some(Key::Child(ref k)) if k == "kids"));
    assert!(c.name.is_none());
    assert!(c.check_writable().is_ok());
    let a = RelationDef::association(Some("refs".to_string()), Some("name".to_string()), None, 1);
    assert!(matches!(a.key, Some(Key::Attribute(ref k)) if k == "refs"));
    assert_eq!(a.mapkey.as_deref(), Some("name"));
    assert_eq!(a.fixed_length, 1);
    let mut b = RelationDef::backref(vec!["parts".to_string()], None, None);
    b.set_name("Thing", &vec![], "owners").unwrap();
    match b.check_writable() {
        Err(ModelError::ReadOnlyRelation { owner, name }) => {
            assert_eq!(owner.as_deref(), Some("Thing"));
            assert_eq!(name.as_deref(), Some("owners"));
        }
        _ => panic!("expected a read-only relation"),
    }
}

#[test]
fn backref_inherits_forward_relations() {
    let mut base = RelationDef::backref(vec!["parts".to_string(), "links".to_string()], Some("k".to_string()), Some("v".to_string()));
    base.set_name("Base", &vec![], "owners").unwrap();
    let ancestors = vec![
        ClassRelations { class_name: "Mid".to_string(), members: vec![("other".to_string(), None)] },
        ClassRelations { class_name: "Base".to_string(), members: vec![("owners".to_string(), Some(base))] },
    ];
    let mut derived = RelationDef::backref(vec![], None, None);
    derived.set_name("Derived", &ancestors, "owners").unwrap();
    assert_eq!(derived.attrs, vec!["parts".to_string(), "links".to_string()]);
    assert_eq!(derived.doc, "The owners of this Base.");
    assert_eq!(derived.mapkey.as_deref(), Some("k"));
    assert_eq!(derived.mapvalue.as_deref(), Some("v"));
    let shadowed = vec![ClassRelations { class_name: "Mid".to_string(), members: vec![("owners".to_string(), None)] }];
    let mut lone = RelationDef::backref(vec![], None, None);
    assert!(matches!(lone.set_name("Derived", &shadowed, "owners"), Err(ModelError::MissingRelationKey { .. })));
}

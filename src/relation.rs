use vstd::prelude::*;

use crate::error::ModelError;
use crate::text::{chars_of, str_eq, string_of};

verus! {

/// The key under which an element keeps the storage of one relation: a
/// child list, or an attribute holding references.
#[derive(Debug)]
pub enum Key {
    Child(String),
    Attribute(String),
}

/// A key as a flag (`true` for a child key) and its text.
pub open spec fn key_view(k: Key) -> (bool, Seq<char>) {
    match k {
        Key::Child(s) => (true, s@),
        Key::Attribute(s) => (false, s@),
    }
}

impl Key {
    /// Two keys are equal when they are of the same kind and text.
    pub fn same(&self, other: &Key) -> (r: bool)
        ensures
            r == (key_view(*self) == key_view(*other)),
    {
        match (self, other) {
            (Key::Child(a), Key::Child(b)) => str_eq(a.as_str(), b.as_str()),
            (Key::Attribute(a), Key::Attribute(b)) => str_eq(a.as_str(), b.as_str()),
            _ => false,
        }
    }

    /// An equal copy.
    pub fn duplicate(&self) -> (r: Key)
        ensures
            r == *self,
    {
        match self {
            Key::Child(a) => Key::Child(a.clone()),
            Key::Attribute(a) => Key::Attribute(a.clone()),
        }
    }
}

pub open spec fn keys_view(slots: Seq<(Key, Vec<usize>)>) -> Seq<(bool, Seq<char>)> {
    slots.map_values(|s: (Key, Vec<usize>)| key_view(s.0))
}

/// The slot of `key` among `keys`, if any.
pub open spec fn slot_of(keys: Seq<(bool, Seq<char>)>, key: (bool, Seq<char>)) -> Option<int>
    decreases keys.len(),
{
    if keys.len() == 0 {
        None
    } else {
        match slot_of(keys.drop_last(), key) {
            Some(i) => Some(i),
            None => if keys.last() == key {
                Some(keys.len() - 1)
            } else {
                None
            },
        }
    }
}

/// The keys after the storage of `key` was asked for, and the slot that holds it.
pub open spec fn after_access(keys: Seq<(bool, Seq<char>)>, key: (bool, Seq<char>)) -> (Seq<(bool, Seq<char>)>, int) {
    match slot_of(keys, key) {
        Some(i) => (keys, i),
        None => (keys.push(key), keys.len() as int),
    }
}

proof fn lemma_slot_of(keys: Seq<(bool, Seq<char>)>, key: (bool, Seq<char>))
    ensures
        slot_of(keys, key) matches Some(i) ==> 0 <= i < keys.len() && keys[i] == key,
        slot_of(keys, key) is None ==> forall|k: int| 0 <= k < keys.len() ==> keys[k] != key,
    decreases keys.len(),
{
    if keys.len() > 0 {
        lemma_slot_of(keys.drop_last(), key);
        assert forall|k: int| 0 <= k < keys.len() - 1 implies keys[k] == keys.drop_last()[k] by {}
    }
}

proof fn lemma_slot_prefix(keys: Seq<(bool, Seq<char>)>, key: (bool, Seq<char>), i: int)
    requires
        0 <= i < keys.len(),
        keys[i] == key,
        forall|k: int| 0 <= k < i ==> keys[k] != key,
    ensures
        slot_of(keys, key) == Some(i),
    decreases keys.len(),
{
    if i < keys.len() - 1 {
        assert forall|k: int| 0 <= k < i implies keys.drop_last()[k] != key by {
            assert(keys.drop_last()[k] == keys[k]);
        }
        lemma_slot_prefix(keys.drop_last(), key, i);
    } else {
        lemma_slot_of(keys.drop_last(), key);
        if slot_of(keys.drop_last(), key) is Some {
            let j = slot_of(keys.drop_last(), key)->0;
            assert(keys.drop_last()[j] == keys[j]);
        }
    }
}

/// Asking twice for the storage of one key gives the same slot, and the
/// second time nothing new is created.
pub proof fn lemma_access_idempotent(keys: Seq<(bool, Seq<char>)>, key: (bool, Seq<char>))
    ensures
        after_access(after_access(keys, key).0, key) == after_access(keys, key),
{
    lemma_slot_of(keys, key);
    if slot_of(keys, key) is None {
        let k2 = keys.push(key);
        assert forall|k: int| 0 <= k < keys.len() implies k2[k] != key by {
            assert(k2[k] == keys[k]);
        }
        lemma_slot_prefix(k2, key, keys.len() as int);
    }
}

/// The relation storage of one element: for each key asked for, its list of
/// node numbers, created empty on first access.
#[derive(Debug)]
pub struct RelationStore {
    slots: Vec<(Key, Vec<usize>)>,
}

impl RelationStore {
    pub closed spec fn spec_keys(&self) -> Seq<(bool, Seq<char>)> {
        keys_view(self.slots@)
    }

    pub closed spec fn spec_lists(&self) -> Seq<Seq<usize>> {
        self.slots@.map_values(|s: (Key, Vec<usize>)| s.1@)
    }

    pub fn new() -> (r: RelationStore)
        ensures
            r.spec_keys().len() == 0,
            r.spec_lists().len() == 0,
    {
        let r = RelationStore { slots: Vec::new() };
        assert(r.spec_keys() =~= Seq::<(bool, Seq<char>)>::empty());
        assert(r.spec_lists() =~= Seq::<Seq<usize>>::empty());
        r
    }

    /// The slot that holds the storage of `key`, created empty where there
    /// was none. With `&mut`, the look-up and the creation happen as one step.
    pub fn data(&mut self, key: &Key) -> (r: usize)
        ensures
            (final(self).spec_keys(), r as int) == after_access(old(self).spec_keys(), key_view(*key)),
            final(self).spec_lists().len() == final(self).spec_keys().len(),
            final(self).spec_lists().take(old(self).spec_lists().len() as int) == old(self).spec_lists(),
            final(self).spec_lists().len() > old(self).spec_lists().len() ==> final(self).spec_lists().last().len() == 0,
    {
        let ghost keys = keys_view(self.slots@);
        let mut i: usize = 0;
        while i < self.slots.len()
            invariant
                keys == keys_view(self.slots@),
                *self == *old(self),
                i <= keys.len(),
                forall|k: int| 0 <= k < i ==> keys[k] != key_view(*key),
            decreases keys.len() - i,
        {
            if self.slots[i].0.same(key) {
                proof {
                    lemma_slot_prefix(keys, key_view(*key), i as int);
                }
                assert(self.spec_lists().take(self.spec_lists().len() as int) =~= self.spec_lists());
                return i;
            }
            i += 1;
        }
        proof {
            lemma_slot_of(keys, key_view(*key));
            if slot_of(keys, key_view(*key)) is Some {
                let j = slot_of(keys, key_view(*key))->0;
                assert(keys[j] == key_view(*key));
            }
        }
        let ghost lists = self.spec_lists();
        self.slots.push((key.duplicate(), Vec::new()));
        assert(keys_view(self.slots@) =~= keys.push(key_view(*key)));
        assert(self.spec_lists().take(lists.len() as int) =~= lists);
        i
    }

    /// The list in slot `slot`.
    pub fn list(&self, slot: usize) -> (r: &Vec<usize>)
        requires
            slot < self.spec_lists().len(),
        ensures
            r@ == self.spec_lists()[slot as int],
    {
        &self.slots[slot].1
    }

    /// Adds `node` last to the list in slot `slot`.
    pub fn append(&mut self, slot: usize, node: usize)
        requires
            slot < old(self).spec_lists().len(),
        ensures
            final(self).spec_keys() == old(self).spec_keys(),
            final(self).spec_lists() == old(self).spec_lists().update(slot as int, old(self).spec_lists()[slot as int].push(node)),
    {
        let ghost keys = self.spec_keys();
        let ghost lists = self.spec_lists();
        self.slots[slot].1.push(node);
        assert(self.spec_keys() =~= keys);
        assert(self.spec_lists() =~= lists.update(slot as int, lists[slot as int].push(node)));
    }
}


/// The kinds of relation between elements.
#[derive(Debug)]
pub enum RelationKind {
    /// Ordered children that the element owns.
    Containment,
    /// Ordered references to elements owned elsewhere.
    Association,
    /// A read-only view computed from forward relations of other elements.
    Backref,
}

/// A relation as declared on a model class.
#[derive(Debug)]
pub struct RelationDef {
    pub kind: RelationKind,
    /// Where the element keeps the relation's storage (not for back-references).
    pub key: Option<Key>,
    /// The forward relations that a back-reference follows.
    pub attrs: Vec<String>,
    pub mapkey: Option<String>,
    pub mapvalue: Option<String>,
    pub single_attr: Option<String>,
    /// Zero where the relation has no fixed length.
    pub fixed_length: usize,
    /// The attribute name and the owning class, once the relation is named.
    pub name: Option<String>,
    pub owner: Option<String>,
    pub doc: String,
}

/// The attributes that one class defines itself: for each name, the
/// relation it holds, or `None` where it holds something else.
#[derive(Debug)]
pub struct ClassRelations {
    pub class_name: String,
    pub members: Vec<(String, Option<RelationDef>)>,
}

pub open spec fn same_kind(a: RelationKind, b: RelationKind) -> bool {
    match (a, b) {
        (RelationKind::Containment, RelationKind::Containment) => true,
        (RelationKind::Association, RelationKind::Association) => true,
        (RelationKind::Backref, RelationKind::Backref) => true,
        _ => false,
    }
}

/// The relation knows where its data lives: a key, or for a back-reference
/// at least one forward relation.
pub open spec fn has_storage(d: RelationDef) -> bool {
    match d.kind {
        RelationKind::Backref => d.attrs@.len() > 0,
        _ => d.key is Some,
    }
}

/// The first member of this name.
pub open spec fn member_of(ms: Seq<(String, Option<RelationDef>)>, name: Seq<char>) -> Option<Option<RelationDef>>
    decreases ms.len(),
{
    if ms.len() == 0 {
        None
    } else if ms[0].0@ == name {
        Some(ms[0].1)
    } else {
        member_of(ms.drop_first(), name)
    }
}

/// The relation that a class overrides: the first ancestor (nearest first)
/// that defines the name decides; it counts where it is a relation of the
/// same kind.
pub open spec fn find_overridden(ancestors: Seq<ClassRelations>, name: Seq<char>, kind: RelationKind) -> Option<RelationDef>
    decreases ancestors.len(),
{
    if ancestors.len() == 0 {
        None
    } else {
        match member_of(ancestors[0].members@, name) {
            Some(Some(d)) => if same_kind(d.kind, kind) {
                Some(d)
            } else {
                None
            },
            Some(None) => None,
            None => find_overridden(ancestors.drop_first(), name, kind),
        }
    }
}

pub open spec fn underscores_to_spaces(s: Seq<char>) -> Seq<char> {
    s.map_values(|c: char| if c == '_' { ' ' } else { c })
}

/// The documentation that a relation gets where it inherits none:
/// `The {name, with spaces for underscores} of this {owner}.`
pub open spec fn doc_text(name: Seq<char>, owner: Seq<char>) -> Seq<char> {
    seq!['T', 'h', 'e', ' '] + underscores_to_spaces(name) + seq![' ', 'o', 'f', ' ', 't', 'h', 'i', 's', ' '] + owner + seq!['.']
}

fn push_all(out: &mut Vec<char>, s: &Vec<char>)
    ensures
        final(out)@ == old(out)@ + s@,
{
    let mut i: usize = 0;
    while i < s.len()
        invariant
            i <= s@.len(),
            out@ == old(out)@ + s@.take(i as int),
        decreases s@.len() - i,
    {
        out.push(s[i]);
        i += 1;
        assert(s@.take(i as int) == s@.take(i - 1).push(s@[i - 1]));
    }
    assert(s@.take(i as int) == s@);
}

/// The documentation of a relation `name` of class `owner` (see `doc_text`).
pub fn gendocstring(owner: &str, name: &str) -> (r: String)
    ensures
        r@ == doc_text(name@, owner@),
{
    let mut out: Vec<char> = Vec::new();
    let head = vec!['T', 'h', 'e', ' '];
    push_all(&mut out, &head);
    let n = chars_of(name);
    let mut spaced: Vec<char> = Vec::new();
    let mut i: usize = 0;
    while i < n.len()
        invariant
            i <= n@.len(),
            spaced@ == underscores_to_spaces(n@.take(i as int)),
        decreases n@.len() - i,
    {
        let c = n[i];
        spaced.push(if c == '_' { ' ' } else { c });
        i += 1;
        assert(spaced@ =~= underscores_to_spaces(n@.take(i as int)));
    }
    assert(n@.take(i as int) == n@);
    push_all(&mut out, &spaced);
    let mid = vec![' ', 'o', 'f', ' ', 't', 'h', 'i', 's', ' '];
    push_all(&mut out, &mid);
    let o = chars_of(owner);
    push_all(&mut out, &o);
    out.push('.');
    assert(head@ =~= seq!['T', 'h', 'e', ' ']);
    assert(mid@ =~= seq![' ', 'o', 'f', ' ', 't', 'h', 'i', 's', ' ']);
    assert(out@ =~= doc_text(name@, owner@));
    string_of(out.as_slice())
}

fn dup_opt(o: &Option<String>) -> (r: Option<String>)
    ensures
        r == *o,
{
    match o {
        Some(s) => Some(s.clone()),
        None => None,
    }
}

fn dup_key(o: &Option<Key>) -> (r: Option<Key>)
    ensures
        r == *o,
{
    match o {
        Some(k) => Some(k.duplicate()),
        None => None,
    }
}

fn dup_strings(v: &Vec<String>) -> (r: Vec<String>)
    ensures
        r@ == v@,
{
    let mut out: Vec<String> = Vec::new();
    let mut i: usize = 0;
    while i < v.len()
        invariant
            i <= v@.len(),
            out@ == v@.take(i as int),
        decreases v@.len() - i,
    {
        out.push(v[i].clone());
        i += 1;
        assert(out@ =~= v@.take(i as int));
    }
    assert(v@.take(i as int) == v@);
    out
}

fn find_member(ms: &Vec<(String, Option<RelationDef>)>, name: &str) -> (r: Option<usize>)
    ensures
        r matches Some(i) ==> i < ms@.len() && member_of(ms@, name@) == Some(ms@[i as int].1),
        r is None ==> member_of(ms@, name@) is None,
{
    let mut i: usize = 0;
    assert(ms@.skip(0) =~= ms@);
    while i < ms.len()
        invariant
            i <= ms@.len(),
            member_of(ms@, name@) == member_of(ms@.skip(i as int), name@),
        decreases ms@.len() - i,
    {
        assert(ms@.skip(i as int).drop_first() =~= ms@.skip(i + 1));
        assert(ms@.skip(i as int)[0] == ms@[i as int]);
        if str_eq(ms[i].0.as_str(), name) {
            return Some(i);
        }
        i += 1;
    }
    None
}

/// The relation that a class overrides (see `find_overridden`).
pub fn find_overridden_relation<'a>(ancestors: &'a Vec<ClassRelations>, name: &str, kind: &RelationKind) -> (r: Option<&'a RelationDef>)
    ensures
        match find_overridden(ancestors@, name@, *kind) {
            Some(d) => r == Some(&d),
            None => r is None,
        },
{
    let mut i: usize = 0;
    assert(ancestors@.skip(0) =~= ancestors@);
    while i < ancestors.len()
        invariant
            i <= ancestors@.len(),
            find_overridden(ancestors@, name@, *kind) == find_overridden(ancestors@.skip(i as int), name@, *kind),
        decreases ancestors@.len() - i,
    {
        assert(ancestors@.skip(i as int).drop_first() =~= ancestors@.skip(i + 1));
        assert(ancestors@.skip(i as int)[0] == ancestors@[i as int]);
        let members = &ancestors[i].members;
        match find_member(members, name) {
            Some(j) => {
                return match &members[j].1 {
                    Some(d) => {
                        let same = match (&d.kind, kind) {
                            (RelationKind::Containment, RelationKind::Containment) => true,
                            (RelationKind::Association, RelationKind::Association) => true,
                            (RelationKind::Backref, RelationKind::Backref) => true,
                            _ => false,
                        };
                        if same {
                            Some(d)
                        } else {
                            None
                        }
                    },
                    None => None,
                };
            },
            None => {},
        }
        i += 1;
    }
    None
}

pub open spec fn opt_seq(o: Option<String>) -> Option<Seq<char>> {
    match o {
        Some(s) => Some(s@),
        None => None,
    }
}

/// The documentation of a relation that has not been named yet.
pub open spec fn unnamed_doc() -> Seq<char> {
    "A Relation that was not properly configured. Ensure that it gets named after construction."@
}

pub open spec fn fresh(r: RelationDef) -> bool {
    &&& r.name is None
    &&& r.owner is None
    &&& r.doc@ == unnamed_doc()
}

impl RelationDef {
    /// A containment relation, kept under the child key `name` where one is given.
    pub fn containment(
        name: Option<String>,
        mapkey: Option<String>,
        mapvalue: Option<String>,
        single_attr: Option<String>,
        fixed_length: usize,
    ) -> (r: RelationDef)
        ensures
            r.kind is Containment,
            match name {
                Some(n) => r.key == Some(Key::Child(n)),
                None => r.key is None,
            },
            r.attrs@.len() == 0,
            r.mapkey == mapkey && r.mapvalue == mapvalue && r.single_attr == single_attr,
            r.fixed_length == fixed_length,
            fresh(r),
    {
        let key = match name {
            Some(n) => Some(Key::Child(n)),
            None => None,
        };
        RelationDef {
            kind: RelationKind::Containment,
            key,
            attrs: Vec::new(),
            mapkey,
            mapvalue,
            single_attr,
            fixed_length,
            name: None,
            owner: None,
            doc: "A Relation that was not properly configured. Ensure that it gets named after construction.".to_owned(),
        }
    }

    /// An association, kept under the attribute key `name` where one is given.
    pub fn association(
        name: Option<String>,
        mapkey: Option<String>,
        mapvalue: Option<String>,
        fixed_length: usize,
    ) -> (r: RelationDef)
        ensures
            r.kind is Association,
            match name {
                Some(n) => r.key == Some(Key::Attribute(n)),
                None => r.key is None,
            },
            r.attrs@.len() == 0,
            r.mapkey == mapkey && r.mapvalue == mapvalue && r.single_attr is None,
            r.fixed_length == fixed_length,
            fresh(r),
    {
        let key = match name {
            Some(n) => Some(Key::Attribute(n)),
            None => None,
        };
        RelationDef {
            kind: RelationKind::Association,
            key,
            attrs: Vec::new(),
            mapkey,
            mapvalue,
            single_attr: None,
            fixed_length,
            name: None,
            owner: None,
            doc: "A Relation that was not properly configured. Ensure that it gets named after construction.".to_owned(),
        }
    }

    /// A back-reference through the forward relations `attrs` of other elements.
    pub fn backref(attrs: Vec<String>, mapkey: Option<String>, mapvalue: Option<String>) -> (r: RelationDef)
        ensures
            r.kind is Backref,
            r.key is None,
            r.attrs@ == attrs@,
            r.mapkey == mapkey && r.mapvalue == mapvalue && r.single_attr is None,
            r.fixed_length == 0,
            fresh(r),
    {
        RelationDef {
            kind: RelationKind::Backref,
            key: None,
            attrs,
            mapkey,
            mapvalue,
            single_attr: None,
            fixed_length: 0,
            name: None,
            owner: None,
            doc: "A Relation that was not properly configured. Ensure that it gets named after construction.".to_owned(),
        }
    }

    /// A back-reference cannot be assigned or deleted: its forward relations
    /// are changed instead.
    pub fn check_writable(&self) -> (r: Result<(), ModelError>)
        ensures
            self.kind is Backref ==> (r matches Err(ModelError::ReadOnlyRelation { owner, name }) && owner == self.owner && name == self.name),
            !(self.kind is Backref) ==> r is Ok,
    {
        match self.kind {
            RelationKind::Backref => Err(ModelError::ReadOnlyRelation { owner: dup_opt(&self.owner), name: dup_opt(&self.name) }),
            _ => Ok(()),
        }
    }

    /// Names the relation `name` on class `owner`, whose ancestors are
    /// `ancestors` (nearest first). A relation that ends up without storage
    /// is refused.
    pub fn set_name(&mut self, owner: &str, ancestors: &Vec<ClassRelations>, name: &str) -> (r: Result<(), ModelError>)
        ensures
            final(self).kind == old(self).kind,
            opt_seq(final(self).name) == Some(name@),
            opt_seq(final(self).owner) == Some(owner@),
            r is Ok <==> has_storage(*final(self)),
            r matches Err(e) ==> (e matches ModelError::MissingRelationKey { owner: o, name: n } && o@ == owner@ && n@ == name@),
            named_spec(*old(self), *final(self), ancestors@, owner@, name@),
    {
        let has = match self.kind {
            RelationKind::Backref => self.attrs.len() > 0,
            _ => self.key.is_some(),
        };
        let ov = if has {
            None
        } else {
            find_overridden_relation(ancestors, name, &self.kind)
        };
        match ov {
            Some(o) => {
                self.doc = o.doc.clone();
                match self.kind {
                    RelationKind::Backref => {
                        self.attrs = dup_strings(&o.attrs);
                    },
                    _ => {
                        self.key = dup_key(&o.key);
                        if self.fixed_length == 0 {
                            self.fixed_length = o.fixed_length;
                        }
                    },
                }
                if self.mapkey.is_none() {
                    self.mapkey = dup_opt(&o.mapkey);
                    if self.mapvalue.is_none() {
                        self.mapvalue = dup_opt(&o.mapvalue);
                    }
                }
                if let RelationKind::Containment = self.kind {
                    if self.single_attr.is_none() {
                        self.single_attr = dup_opt(&o.single_attr);
                    }
                }
            },
            None => {
                self.doc = gendocstring(owner, name);
            },
        }
        self.name = Some(name.to_owned());
        self.owner = Some(owner.to_owned());
        let has_now = match self.kind {
            RelationKind::Backref => self.attrs.len() > 0,
            _ => self.key.is_some(),
        };
        if !has_now {
            return Err(ModelError::MissingRelationKey { owner: owner.to_owned(), name: name.to_owned() });
        }
        Ok(())
    }
}

/// What naming a relation changes: where it has no storage of its own and
/// overrides a relation of the same kind, it takes that relation's
/// documentation and storage, and the settings that it leaves open;
/// otherwise it gets generated documentation.
pub open spec fn named_spec(a: RelationDef, b: RelationDef, ancestors: Seq<ClassRelations>, owner: Seq<char>, name: Seq<char>) -> bool {
    let ov = if has_storage(a) { None } else { find_overridden(ancestors, name, a.kind) };
    &&& b.kind == a.kind
    &&& match ov {
        None => {
            &&& b.doc@ == doc_text(name, owner)
            &&& b.key == a.key && b.attrs@ == a.attrs@ && b.fixed_length == a.fixed_length
            &&& b.mapkey == a.mapkey && b.mapvalue == a.mapvalue && b.single_attr == a.single_attr
        },
        Some(o) => {
            &&& b.doc == o.doc
            &&& match a.kind {
                RelationKind::Backref => b.attrs@ == o.attrs@ && b.key == a.key && b.fixed_length == a.fixed_length,
                _ => b.key == o.key && b.attrs@ == a.attrs@ && b.fixed_length == (if a.fixed_length == 0 { o.fixed_length } else { a.fixed_length }),
            }
            &&& b.mapkey == (if a.mapkey is None { o.mapkey } else { a.mapkey })
            &&& b.mapvalue == (if a.mapkey is None && a.mapvalue is None { o.mapvalue } else { a.mapvalue })
            &&& b.single_attr == (if a.kind is Containment && a.single_attr is None { o.single_attr } else { a.single_attr })
        },
    }
}

} // verus!

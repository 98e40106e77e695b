use std::sync::Arc;
use vstd::prelude::*;

use crate::error::ModelError;
use crate::namespace::ModelClass;
use crate::relation::RelationStore;
use crate::scan::pairs_view;
use crate::text::{str_eq, string_of, chars_of};

verus! {

/// Keeps one shared copy of each distinct string, so that repeated tag and
/// attribute names share storage.
#[derive(Debug)]
pub struct StringCache {
    entries: Vec<Arc<String>>,
}

impl StringCache {
    pub closed spec fn spec_entries(&self) -> Seq<Seq<char>> {
        self.entries@.map_values(|a: Arc<String>| a@)
    }

    /// No string is kept twice.
    pub closed spec fn wf(&self) -> bool {
        forall|i: int, j: int|
            0 <= i < j < self.entries@.len() ==> (#[trigger] self.entries@[i])@ != (#[trigger] self.entries@[j])@
    }

    pub fn new() -> (r: StringCache)
        ensures
            r.wf(),
            r.spec_entries().len() == 0,
    {
        StringCache { entries: Vec::new() }
    }

    /// The shared copy of `s`, kept from now on if it was not yet.
    pub fn dedup(&mut self, s: String) -> (r: Arc<String>)
        requires
            old(self).wf(),
        ensures
            final(self).wf(),
            r@ == s@,
            old(self).spec_entries().contains(s@) ==> final(self).spec_entries() == old(self).spec_entries(),
            !old(self).spec_entries().contains(s@) ==> final(self).spec_entries() == old(self).spec_entries().push(s@),
    {
        let mut i: usize = 0;
        while i < self.entries.len()
            invariant
                self.wf(),
                *self == *old(self),
                i <= self.entries@.len(),
                forall|k: int| 0 <= k < i ==> (#[trigger] self.entries@[k])@ != s@,
            decreases self.entries@.len() - i,
        {
            if str_eq(self.entries[i].as_str(), s.as_str()) {
                assert(self.spec_entries()[i as int] == s@);
                return self.entries[i].clone();
            }
            i += 1;
        }
        let ghost before = self.spec_entries();
        assert(!before.contains(s@)) by {
            if before.contains(s@) {
                let k = choose|k: int| 0 <= k < before.len() && before[k] == s@;
                assert(self.entries@[k]@ == s@);
            }
        }
        let a = Arc::new(s);
        self.entries.push(a.clone());
        assert(self.spec_entries() =~= before.push(a@));
        a
    }
}


/// An element with an explicit type: its identifier, class, plain
/// attributes in document order, its children (node numbers), and the
/// storage of its relations.
#[derive(Debug)]
pub struct TypedElement {
    pub id: String,
    pub class: ModelClass,
    pub attributes: Vec<(String, String)>,
    pub children: Vec<usize>,
    pub relations: RelationStore,
}

/// An element without an explicit type, kept as written: its tag, text,
/// attributes in document order, and its children (node numbers).
#[derive(Debug)]
pub struct ForeignElement {
    pub namespace: Option<Arc<String>>,
    pub tag: Arc<String>,
    pub text: Option<String>,
    pub attributes: Vec<(Arc<String>, String)>,
    pub children: Vec<usize>,
}

/// A node of the loaded graph.
#[derive(Debug)]
pub enum Node {
    Typed(TypedElement),
    Foreign(ForeignElement),
}

pub open spec fn arc_pairs_view(ps: Seq<(Arc<String>, String)>) -> Seq<(Seq<char>, Seq<char>)> {
    ps.map_values(|p: (Arc<String>, String)| (p.0@, p.1@))
}

/// The first attribute of this name.
pub open spec fn attr_lookup<V>(ps: Seq<(Seq<char>, V)>, key: Seq<char>) -> Option<int>
    decreases ps.len(),
{
    if ps.len() == 0 {
        None
    } else {
        match attr_lookup(ps.drop_last(), key) {
            Some(i) => Some(i),
            None => if ps.last().0 == key {
                Some(ps.len() - 1)
            } else {
                None
            },
        }
    }
}

pub proof fn lemma_attr_lookup<V>(ps: Seq<(Seq<char>, V)>, key: Seq<char>)
    ensures
        attr_lookup(ps, key) matches Some(i) ==> 0 <= i < ps.len() && ps[i].0 == key && forall|k: int| 0 <= k < i ==> (#[trigger] ps[k]).0 != key,
        attr_lookup(ps, key) is None ==> forall|k: int| 0 <= k < ps.len() ==> (#[trigger] ps[k]).0 != key,
    decreases ps.len(),
{
    if ps.len() > 0 {
        lemma_attr_lookup(ps.drop_last(), key);
        assert forall|k: int| 0 <= k < ps.len() - 1 implies (#[trigger] ps[k]) == ps.drop_last()[k] by {}
    }
}

/// The position of the first attribute named `key`.
fn find_attribute(ps: &Vec<(Arc<String>, String)>, key: &str) -> (r: Option<usize>)
    ensures
        r matches Some(i) ==> attr_lookup(arc_pairs_view(ps@), key@) == Some(i as int) && i < ps@.len() && ps@[i as int].0@ == key@,
        r is None ==> attr_lookup(arc_pairs_view(ps@), key@) is None,
{
    let ghost v = arc_pairs_view(ps@);
    let mut i: usize = 0;
    assert(v.len() == ps@.len());
    while i < ps.len()
        invariant
            v == arc_pairs_view(ps@),
            i <= v.len(),
            forall|k: int| 0 <= k < i ==> (#[trigger] v[k]).0 != key@,
        decreases v.len() - i,
    {
        if str_eq(ps[i].0.as_str(), key) {
            proof {
                lemma_attr_lookup(v, key@);
                lemma_attr_first(v, key@, i as int);
            }
            return Some(i);
        }
        i += 1;
    }
    proof {
        lemma_attr_lookup(v, key@);
        if attr_lookup(v, key@) is Some {
            let j = attr_lookup(v, key@)->0;
            assert(v[j].0 == key@);
        }
    }
    None
}

pub proof fn lemma_attr_first<V>(ps: Seq<(Seq<char>, V)>, key: Seq<char>, i: int)
    requires
        0 <= i < ps.len(),
        ps[i].0 == key,
        forall|k: int| 0 <= k < i ==> (#[trigger] ps[k]).0 != key,
    ensures
        attr_lookup(ps, key) == Some(i),
    decreases ps.len(),
{
    lemma_attr_lookup(ps, key);
    if i < ps.len() - 1 {
        assert forall|k: int| 0 <= k < i implies (#[trigger] ps.drop_last()[k]).0 != key by {
            assert(ps.drop_last()[k] == ps[k]);
        }
        lemma_attr_first(ps.drop_last(), key, i);
    } else {
        lemma_attr_lookup(ps.drop_last(), key);
        if attr_lookup(ps.drop_last(), key) is Some {
            let j = attr_lookup(ps.drop_last(), key)->0;
            assert(ps.drop_last()[j] == ps[j]);
        }
    }
}

impl ForeignElement {
    /// The tag, written `{namespace}local` where there is a namespace.
    pub fn get_tag(&self) -> (r: String)
        ensures
            self.namespace is None ==> r@ == self.tag@,
            self.namespace matches Some(ns) ==> r@ == seq!['{'] + ns@ + seq!['}'] + self.tag@,
    {
        match &self.namespace {
            None => self.tag.as_str().to_owned(),
            Some(ns) => {
                let mut out: Vec<char> = Vec::new();
                out.push('{');
                let a = chars_of(ns.as_str());
                let b = chars_of(self.tag.as_str());
                let mut i: usize = 0;
                while i < a.len()
                    invariant
                        i <= a@.len(),
                        out@ == seq!['{'] + a@.take(i as int),
                    decreases a@.len() - i,
                {
                    out.push(a[i]);
                    i += 1;
                    assert(a@.take(i as int) == a@.take(i - 1).push(a@[i - 1]));
                }
                out.push('}');
                let mut j: usize = 0;
                while j < b.len()
                    invariant
                        j <= b@.len(),
                        out@ == seq!['{'] + a@ + seq!['}'] + b@.take(j as int),
                    decreases b@.len() - j,
                {
                    out.push(b[j]);
                    j += 1;
                    assert(b@.take(j as int) == b@.take(j - 1).push(b@[j - 1]));
                }
                assert(a@.take(a@.len() as int) == a@);
                assert(b@.take(b@.len() as int) == b@);
                string_of(out.as_slice())
            },
        }
    }

    /// Always true: an element counts as present even without children.
    pub fn is_present(&self) -> (r: bool)
        ensures
            r,
    {
        true
    }

    /// The number of children.
    pub fn len(&self) -> (r: usize)
        ensures
            r == self.children@.len(),
    {
        self.children.len()
    }

    /// The child at position `idx`.
    pub fn child(&self, idx: usize) -> (r: Result<usize, ModelError>)
        ensures
            idx < self.children@.len() ==> r == Ok::<usize, ModelError>(self.children@[idx as int]),
            idx >= self.children@.len() ==> r == Err::<usize, ModelError>(ModelError::IndexOutOfRange { index: idx }),
    {
        if idx < self.children.len() {
            Ok(self.children[idx])
        } else {
            Err(ModelError::IndexOutOfRange { index: idx })
        }
    }

    /// The value of attribute `k`, or `fallback` where there is none.
    pub fn get(&self, k: &str, fallback: Option<String>) -> (r: Option<String>)
        ensures
            match attr_lookup(arc_pairs_view(self.attributes@), k@) {
                Some(i) => r matches Some(v) && v@ == self.attributes@[i].1@,
                None => r == fallback,
            },
    {
        match find_attribute(&self.attributes, k) {
            Some(i) => Some(self.attributes[i].1.clone()),
            None => fallback,
        }
    }

    /// Sets attribute `k` to `v`, or removes it where `v` is `None`. A new
    /// attribute goes last; an existing one keeps its place.
    pub fn set(&mut self, k: String, v: Option<String>)
        ensures
            final(self).tag == old(self).tag,
            final(self).namespace == old(self).namespace,
            final(self).text == old(self).text,
            final(self).children == old(self).children,
            match (attr_lookup(arc_pairs_view(old(self).attributes@), k@), v) {
                (Some(i), Some(val)) => arc_pairs_view(final(self).attributes@) == arc_pairs_view(old(self).attributes@).update(i, (k@, val@)),
                (None, Some(val)) => arc_pairs_view(final(self).attributes@) == arc_pairs_view(old(self).attributes@).push((k@, val@)),
                (Some(i), None) => arc_pairs_view(final(self).attributes@) == arc_pairs_view(old(self).attributes@).remove(i),
                (None, None) => final(self).attributes@ == old(self).attributes@,
            },
    {
        let found = find_attribute(&self.attributes, k.as_str());
        let ghost before = self.attributes@;
        match (found, v) {
            (Some(i), Some(val)) => {
                let key = self.attributes[i].0.clone();
                self.attributes.set(i, (key, val));
                proof {
                    lemma_attr_lookup(arc_pairs_view(before), k@);
                }
                assert(arc_pairs_view(self.attributes@) =~= arc_pairs_view(before).update(i as int, (k@, val@)));
            },
            (None, Some(val)) => {
                self.attributes.push((Arc::new(k), val));
                assert(arc_pairs_view(self.attributes@) =~= arc_pairs_view(before).push((k@, val@)));
            },
            (Some(i), None) => {
                self.attributes.remove(i);
                assert(arc_pairs_view(self.attributes@) =~= arc_pairs_view(before).remove(i as int));
            },
            (None, None) => {},
        }
    }

    /// The attribute names, in order.
    pub fn keys(&self) -> (r: Vec<String>)
        ensures
            r@.len() == self.attributes@.len(),
            forall|i: int| 0 <= i < r@.len() ==> (#[trigger] r@[i])@ == self.attributes@[i].0@,
    {
        let mut out: Vec<String> = Vec::new();
        let mut i: usize = 0;
        while i < self.attributes.len()
            invariant
                i <= self.attributes@.len(),
                out@.len() == i,
                forall|k: int| 0 <= k < i ==> (#[trigger] out@[k])@ == self.attributes@[k].0@,
            decreases self.attributes@.len() - i,
        {
            out.push(self.attributes[i].0.as_str().to_owned());
            i += 1;
        }
        out
    }

    /// The attributes as name and value, in order.
    pub fn items(&self) -> (r: Vec<(String, String)>)
        ensures
            pairs_view(r@) == arc_pairs_view(self.attributes@),
    {
        let mut out: Vec<(String, String)> = Vec::new();
        let mut i: usize = 0;
        while i < self.attributes.len()
            invariant
                i <= self.attributes@.len(),
                out@.len() == i,
                forall|k: int| 0 <= k < i ==> (#[trigger] out@[k]).0@ == self.attributes@[k].0@ && out@[k].1@ == self.attributes@[k].1@,
            decreases self.attributes@.len() - i,
        {
            out.push((self.attributes[i].0.as_str().to_owned(), self.attributes[i].1.clone()));
            i += 1;
        }
        assert(pairs_view(out@) =~= arc_pairs_view(self.attributes@));
        out
    }
}

} // verus!

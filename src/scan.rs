use vstd::prelude::*;

use crate::error::ModelError;
use crate::text::{chars_of, str_eq, find_chars, first_occurrence, lemma_first_from_bounds, occurs_at, string_of, sub_chars};

verus! {

/// An attribute as written in a start tag: its qualified name and its value.
#[derive(Debug)]
pub struct RawAttribute {
    pub name: String,
    pub value: String,
}

/// A namespace binding or a plain attribute: a name and a value.
pub open spec fn pair_view(p: (String, String)) -> (Seq<char>, Seq<char>) {
    (p.0@, p.1@)
}

pub open spec fn pairs_view(ps: Seq<(String, String)>) -> Seq<(Seq<char>, Seq<char>)> {
    ps.map_values(|p: (String, String)| pair_view(p))
}

pub open spec fn colon() -> Seq<char> {
    seq![':']
}

/// The prefix of a qualified name: what precedes its first colon.
pub open spec fn qname_prefix(s: Seq<char>) -> Option<Seq<char>> {
    match first_occurrence(s, colon()) {
        Some(i) => Some(s.take(i)),
        None => None,
    }
}

/// The local part of a qualified name: what follows its first colon, or all of it.
pub open spec fn qname_local(s: Seq<char>) -> Seq<char> {
    match first_occurrence(s, colon()) {
        Some(i) => s.skip(i + 1),
        None => s,
    }
}

/// Splits a qualified name at its first colon.
pub fn split_qname(s: &str) -> (r: (Option<String>, String))
    ensures
        opt_str_view(r.0) == qname_prefix(s@),
        r.1@ == qname_local(s@),
{
    let chars = chars_of(s);
    let c = vec![':'];
    assert(c@ =~= colon());
    match find_chars(chars.as_slice(), c.as_slice()) {
        None => (None, s.to_owned()),
        Some(i) => {
            proof {
                lemma_first_from_bounds(chars@, colon(), 0);
                assert(occurs_at(chars@, colon(), i as int));
            }
            let n = chars.len();
            let prefix = sub_chars(chars.as_slice(), 0, i);
            let local = sub_chars(chars.as_slice(), i + 1, n);
            assert(prefix@ =~= s@.take(i as int));
            assert(local@ =~= s@.skip(i + 1));
            (Some(string_of(prefix.as_slice())), string_of(local.as_slice()))
        },
    }
}

pub open spec fn opt_str_view(o: Option<String>) -> Option<Seq<char>> {
    match o {
        Some(s) => Some(s@),
        None => None,
    }
}

pub open spec fn xmlns() -> Seq<char> {
    seq!['x', 'm', 'l', 'n', 's']
}

/// The namespace of the attributes that give an element's type.
pub open spec fn xsi_uri() -> Seq<char> {
    "http://www.w3.org/2001/XMLSchema-instance"@
}

/// The bindings that `xmlns:alias="uri"` attributes declare, in order.
pub open spec fn own_bindings(attrs: Seq<RawAttribute>) -> Seq<(Seq<char>, Seq<char>)>
    decreases attrs.len(),
{
    if attrs.len() == 0 {
        Seq::empty()
    } else {
        let rest = own_bindings(attrs.drop_last());
        let a = attrs.last();
        if qname_prefix(a.name@) == Some(xmlns()) {
            rest.push((qname_local(a.name@), a.value@))
        } else {
            rest
        }
    }
}

/// The value bound to `key` by the first binding of that name.
pub open spec fn lookup_binding(bs: Seq<(Seq<char>, Seq<char>)>, key: Seq<char>) -> Option<Seq<char>>
    decreases bs.len(),
{
    if bs.len() == 0 {
        None
    } else if bs[0].0 == key {
        Some(bs[0].1)
    } else {
        lookup_binding(bs.drop_first(), key)
    }
}

/// The binding of `key` in scope: the element's own bindings first, then
/// those of the enclosing elements, innermost first.
pub open spec fn scope_lookup(
    own: Seq<(Seq<char>, Seq<char>)>,
    outer: Seq<Seq<(Seq<char>, Seq<char>)>>,
    key: Seq<char>,
) -> Option<Seq<char>>
    decreases outer.len(),
{
    match lookup_binding(own, key) {
        Some(v) => Some(v),
        None => if outer.len() == 0 {
            None
        } else {
            scope_lookup(outer.last(), outer.drop_last(), key)
        },
    }
}

/// What an attribute is, by its prefix.
#[derive(Debug)]
pub enum AttrKind {
    Plain,
    Binding,
    TypeDiscriminant,
    Unsupported,
}

pub open spec fn attr_kind(
    a: RawAttribute,
    own: Seq<(Seq<char>, Seq<char>)>,
    outer: Seq<Seq<(Seq<char>, Seq<char>)>>,
) -> AttrKind {
    match qname_prefix(a.name@) {
        None => AttrKind::Plain,
        Some(p) => if p == xmlns() {
            AttrKind::Binding
        } else if scope_lookup(own, outer, p) == Some(xsi_uri()) {
            AttrKind::TypeDiscriminant
        } else {
            AttrKind::Unsupported
        },
    }
}

/// The outcome of scanning the attributes of a start tag, left to right:
/// the type discriminant's value, if any, and the plain attributes in order;
/// or the first attribute that cannot be taken.
pub open spec fn scan_spec(
    attrs: Seq<RawAttribute>,
    own: Seq<(Seq<char>, Seq<char>)>,
    outer: Seq<Seq<(Seq<char>, Seq<char>)>>,
) -> Result<(Option<Seq<char>>, Seq<(Seq<char>, Seq<char>)>), ScanProblem>
    decreases attrs.len(),
{
    if attrs.len() == 0 {
        Ok((None, Seq::empty()))
    } else {
        match scan_spec(attrs.drop_last(), own, outer) {
            Err(e) => Err(e),
            Ok((x, plain)) => {
                let a = attrs.last();
                match attr_kind(a, own, outer) {
                    AttrKind::Plain => Ok((x, plain.push((a.name@, a.value@)))),
                    AttrKind::Binding => Ok((x, plain)),
                    AttrKind::TypeDiscriminant => if x is Some {
                        Err(ScanProblem::SecondDiscriminant(a.name@))
                    } else {
                        Ok((Some(a.value@), plain))
                    },
                    AttrKind::Unsupported => Err(ScanProblem::Unsupported(a.name@)),
                }
            },
        }
    }
}

/// Why the attributes of a start tag could not be taken.
pub ghost enum ScanProblem {
    Unsupported(Seq<char>),
    SecondDiscriminant(Seq<char>),
}


/// An element whose start tag has been read and whose end tag has not: the
/// namespace bindings that it declares, and its node.
#[derive(Debug)]
pub struct Frame {
    pub bindings: Vec<(String, String)>,
    pub node: usize,
}

pub open spec fn frames_bindings(fs: Seq<Frame>) -> Seq<Seq<(Seq<char>, Seq<char>)>> {
    fs.map_values(|f: Frame| pairs_view(f.bindings@))
}

/// The bindings that the `xmlns:alias="uri"` attributes declare, in order.
pub fn collect_bindings(attrs: &Vec<RawAttribute>) -> (r: Vec<(String, String)>)
    ensures
        pairs_view(r@) == own_bindings(attrs@),
{
    let mut out: Vec<(String, String)> = Vec::new();
    let mut i: usize = 0;
    while i < attrs.len()
        invariant
            i <= attrs@.len(),
            pairs_view(out@) == own_bindings(attrs@.take(i as int)),
        decreases attrs@.len() - i,
    {
        let a = &attrs[i];
        assert(attrs@.take(i + 1).drop_last() == attrs@.take(i as int));
        let (prefix, local) = split_qname(a.name.as_str());
        let is_binding = match &prefix {
            Some(p) => str_eq(p.as_str(), "xmlns"),
            None => false,
        };
        proof {
            reveal_strlit("xmlns");
            assert("xmlns"@ =~= xmlns());
        }
        if is_binding {
            let ghost before = out@;
            out.push((local, a.value.clone()));
            assert(pairs_view(out@) =~= pairs_view(before).push((qname_local(a.name@), a.value@)));
        }
        i += 1;
    }
    assert(attrs@.take(i as int) == attrs@);
    out
}

/// The value bound to `key` by the first binding of that name.
pub fn lookup_binding_exec(bs: &Vec<(String, String)>, key: &str) -> (r: Option<String>)
    ensures
        opt_str_view(r) == lookup_binding(pairs_view(bs@), key@),
{
    let mut i: usize = 0;
    assert(pairs_view(bs@).skip(0) =~= pairs_view(bs@));
    while i < bs.len()
        invariant
            i <= bs@.len(),
            lookup_binding(pairs_view(bs@), key@) == lookup_binding(pairs_view(bs@).skip(i as int), key@),
        decreases bs@.len() - i,
    {
        let ghost rest = pairs_view(bs@).skip(i as int);
        assert(rest.drop_first() =~= pairs_view(bs@).skip(i + 1));
        if str_eq(bs[i].0.as_str(), key) {
            return Some(bs[i].1.clone());
        }
        i += 1;
    }
    None
}

/// The binding of `key` in scope (see `scope_lookup`).
pub fn scope_lookup_exec(own: &Vec<(String, String)>, outer: &Vec<Frame>, key: &str) -> (r: Option<String>)
    ensures
        opt_str_view(r) == scope_lookup(pairs_view(own@), frames_bindings(outer@), key@),
{
    let found = lookup_binding_exec(own, key);
    if found.is_some() {
        return found;
    }
    let mut i: usize = outer.len();
    while i > 0
        invariant
            i <= outer@.len(),
            scope_lookup(pairs_view(own@), frames_bindings(outer@), key@) == if i == 0 {
                None
            } else {
                scope_lookup(
                    frames_bindings(outer@)[i - 1],
                    frames_bindings(outer@).take(i - 1),
                    key@,
                )
            },
        decreases i,
    {
        let ghost fb = frames_bindings(outer@);
        assert(fb.take(i as int).last() == fb[i - 1]);
        assert(fb.take(i as int).drop_last() =~= fb.take(i - 1));
        let r = lookup_binding_exec(&outer[i - 1].bindings, key);
        if r.is_some() {
            return r;
        }
        i -= 1;
        if i > 0 {
            assert(fb.take(i as int).last() == fb[i - 1]);
            assert(fb.take(i as int).drop_last() =~= fb.take(i - 1));
        }
    }
    None
}

/// What an attribute is, by its prefix (see `attr_kind`).
pub fn attribute_kind(a: &RawAttribute, own: &Vec<(String, String)>, outer: &Vec<Frame>) -> (r: AttrKind)
    ensures
        r == attr_kind(*a, pairs_view(own@), frames_bindings(outer@)),
{
    let (prefix, _local) = split_qname(a.name.as_str());
    proof {
        reveal_strlit("xmlns");
        assert("xmlns"@ =~= xmlns());
    }
    match prefix {
        None => AttrKind::Plain,
        Some(p) => {
            if str_eq(p.as_str(), "xmlns") {
                AttrKind::Binding
            } else {
                match scope_lookup_exec(own, outer, p.as_str()) {
                    Some(uri) => {
                        if str_eq(uri.as_str(), "http://www.w3.org/2001/XMLSchema-instance") {
                            AttrKind::TypeDiscriminant
                        } else {
                            AttrKind::Unsupported
                        }
                    },
                    None => AttrKind::Unsupported,
                }
            }
        },
    }
}

/// The problem that a failed scan reports, as an error of the library.
pub open spec fn scan_error_matches(p: ScanProblem, e: ModelError) -> bool {
    match p {
        ScanProblem::Unsupported(n) => e matches ModelError::UnsupportedAttribute { name } && name@ == n,
        ScanProblem::SecondDiscriminant(n) => e matches ModelError::DuplicateTypeAttribute { name } && name@ == n,
    }
}

/// Scans the attributes of a start tag (see `scan_spec`).
pub fn scan_attributes(attrs: &Vec<RawAttribute>, own: &Vec<(String, String)>, outer: &Vec<Frame>) -> (r:
    Result<(Option<String>, Vec<(String, String)>), ModelError>)
    ensures
        match scan_spec(attrs@, pairs_view(own@), frames_bindings(outer@)) {
            Ok((x, plain)) => r matches Ok((rx, rp)) && opt_str_view(rx) == x && pairs_view(rp@) == plain,
            Err(p) => r matches Err(e) && scan_error_matches(p, e),
        },
{
    let ghost ov = pairs_view(own@);
    let ghost fv = frames_bindings(outer@);
    let mut xtype: Option<String> = None;
    let mut plain: Vec<(String, String)> = Vec::new();
    let mut i: usize = 0;
    assert(attrs@.take(0) =~= Seq::<RawAttribute>::empty());
    assert(pairs_view(plain@) =~= Seq::<(Seq<char>, Seq<char>)>::empty());
    while i < attrs.len()
        invariant
            ov == pairs_view(own@),
            fv == frames_bindings(outer@),
            i <= attrs@.len(),
            scan_spec(attrs@.take(i as int), ov, fv) == Ok::<_, ScanProblem>((opt_str_view(xtype), pairs_view(plain@))),
        decreases attrs@.len() - i,
    {
        let a = &attrs[i];
        assert(attrs@.take(i + 1).drop_last() == attrs@.take(i as int));
        assert(attrs@.take(i + 1).last() == *a);
        let kind = attribute_kind(a, own, outer);
        match kind {
            AttrKind::Plain => {
                let ghost before = plain@;
                plain.push((a.name.clone(), a.value.clone()));
                assert(pairs_view(plain@) =~= pairs_view(before).push((a.name@, a.value@)));
            },
            AttrKind::Binding => {},
            AttrKind::TypeDiscriminant => {
                if xtype.is_some() {
                    proof {
                        lemma_scan_err_sticks(attrs@, ov, fv, i as int + 1);
                    }
                    return Err(ModelError::DuplicateTypeAttribute { name: a.name.clone() });
                }
                xtype = Some(a.value.clone());
            },
            AttrKind::Unsupported => {
                proof {
                    lemma_scan_err_sticks(attrs@, ov, fv, i as int + 1);
                }
                return Err(ModelError::UnsupportedAttribute { name: a.name.clone() });
            },
        }
        i += 1;
    }
    assert(attrs@.take(i as int) == attrs@);
    Ok((xtype, plain))
}

/// Once a prefix of the attributes fails to scan, all of them fail the same way.
proof fn lemma_scan_err_sticks(
    attrs: Seq<RawAttribute>,
    own: Seq<(Seq<char>, Seq<char>)>,
    outer: Seq<Seq<(Seq<char>, Seq<char>)>>,
    k: int,
)
    requires
        0 <= k <= attrs.len(),
        scan_spec(attrs.take(k), own, outer) is Err,
    ensures
        scan_spec(attrs, own, outer) == scan_spec(attrs.take(k), own, outer),
    decreases attrs.len() - k,
{
    if k < attrs.len() {
        assert(attrs.take(k + 1).drop_last() == attrs.take(k));
        lemma_scan_err_sticks(attrs, own, outer, k + 1);
    } else {
        assert(attrs.take(k) == attrs);
    }
}

} // verus!

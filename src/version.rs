use std::cmp::Ordering;
use vstd::prelude::*;

use crate::text::{char_views, chars_of, split_dot_chars, split_dots};

verus! {

/// A decimal digit.
pub open spec fn is_digit(c: char) -> bool {
    '0' <= c && c <= '9'
}

pub open spec fn digit_value(c: char) -> nat {
    if is_digit(c) {
        (c as u32 - '0' as u32) as nat
    } else {
        0
    }
}

/// The number that a string of decimal digits writes.
pub open spec fn digits_value(p: Seq<char>) -> nat
    decreases p.len(),
{
    if p.len() == 0 {
        0
    } else {
        digits_value(p.drop_last()) * 10 + digit_value(p.last())
    }
}

/// A version component: one or more decimal digits, of a value that fits in `u64`.
pub open spec fn valid_component(p: Seq<char>) -> bool {
    &&& p.len() > 0
    &&& forall|i: int| 0 <= i < p.len() ==> is_digit(#[trigger] p[i])
    &&& digits_value(p) <= u64::MAX
}

/// The components that a dotted version string writes, or `None` where one
/// of its pieces is not a valid component.
pub open spec fn parse_version(s: Seq<char>) -> Option<Seq<u64>> {
    let parts = split_dots(s);
    if forall|i: int| 0 <= i < parts.len() ==> valid_component(#[trigger] parts[i]) {
        Some(parts.map_values(|p: Seq<char>| digits_value(p) as u64))
    } else {
        None
    }
}

/// Component `i` of a version; missing trailing components count as zero.
pub open spec fn component_at(v: Seq<u64>, i: int) -> int {
    if 0 <= i < v.len() {
        v[i] as int
    } else {
        0
    }
}

pub open spec fn max_len(a: Seq<u64>, b: Seq<u64>) -> int {
    if a.len() >= b.len() {
        a.len() as int
    } else {
        b.len() as int
    }
}

/// Lexicographic comparison from component `i` on: -1, 0 or 1.
pub open spec fn compare_from(a: Seq<u64>, b: Seq<u64>, i: int) -> int
    decreases max_len(a, b) - i,
{
    if i >= max_len(a, b) || i < 0 {
        0
    } else if component_at(a, i) < component_at(b, i) {
        -1
    } else if component_at(a, i) > component_at(b, i) {
        1
    } else {
        compare_from(a, b, i + 1)
    }
}

/// How version `a` compares with version `b`: -1, 0 or 1.
pub open spec fn version_cmp(a: Seq<u64>, b: Seq<u64>) -> int {
    compare_from(a, b, 0)
}

pub open spec fn version_le(a: Seq<u64>, b: Seq<u64>) -> bool {
    version_cmp(a, b) <= 0
}

pub open spec fn ordering_of(c: int) -> Ordering {
    if c < 0 {
        Ordering::Less
    } else if c > 0 {
        Ordering::Greater
    } else {
        Ordering::Equal
    }
}

/// A dotted numeric version, compared component by component.
#[derive(Debug)]
pub struct VersionToken {
    pub parts: Vec<u64>,
}

impl View for VersionToken {
    type V = Seq<u64>;

    open spec fn view(&self) -> Seq<u64> {
        self.parts@
    }
}

proof fn lemma_digits_prefix_le(p: Seq<char>, k: int)
    requires
        0 <= k <= p.len(),
    ensures
        digits_value(p.take(k)) <= digits_value(p),
    decreases p.len(),
{
    if k < p.len() {
        assert(p.drop_last().take(k) == p.take(k));
        lemma_digits_prefix_le(p.drop_last(), k);
    } else {
        assert(p.take(k) == p);
    }
}

/// The value of a version component, or `None` where it is not valid.
fn component_value(p: &Vec<char>) -> (r: Option<u64>)
    ensures
        r is Some <==> valid_component(p@),
        r is Some ==> r->0 as nat == digits_value(p@),
{
    if p.len() == 0 {
        return None;
    }
    let mut acc: u64 = 0;
    let mut j: usize = 0;
    while j < p.len()
        invariant
            j <= p@.len(),
            acc as nat == digits_value(p@.take(j as int)),
            forall|i: int| 0 <= i < j ==> is_digit(#[trigger] p@[i]),
        decreases p@.len() - j,
    {
        let c = p[j];
        assert(p@.take(j + 1).drop_last() == p@.take(j as int));
        if !('0' <= c && c <= '9') {
            return None;
        }
        let d = (c as u32 - '0' as u32) as u64;
        if acc > (u64::MAX - d) / 10 {
            proof {
                lemma_digits_prefix_le(p@, j + 1);
            }
            return None;
        }
        acc = acc * 10 + d;
        j += 1;
    }
    assert(p@.take(j as int) == p@);
    Some(acc)
}

impl VersionToken {
    /// Parses a dotted numeric version such as `1.12.3`.
    pub fn parse(s: &str) -> (r: Option<VersionToken>)
        ensures
            r is Some <==> parse_version(s@) is Some,
            r is Some ==> r->0@ == parse_version(s@)->0,
    {
        let chars = chars_of(s);
        Self::parse_chars(chars.as_slice())
    }

    /// Parses a dotted numeric version given as characters.
    pub fn parse_chars(chars: &[char]) -> (r: Option<VersionToken>)
        ensures
            r is Some <==> parse_version(chars@) is Some,
            r is Some ==> r->0@ == parse_version(chars@)->0,
    {
        let pieces = split_dot_chars(chars);
        let ghost parts = split_dots(chars@);
        let mut out: Vec<u64> = Vec::new();
        let mut i: usize = 0;
        while i < pieces.len()
            invariant
                char_views(pieces@) == parts,
                parts == split_dots(chars@),
                i <= parts.len(),
                out@.len() == i,
                forall|k: int| 0 <= k < i ==> valid_component(#[trigger] parts[k]),
                forall|k: int| 0 <= k < i ==> out@[k] as nat == digits_value(#[trigger] parts[k]),
            decreases parts.len() - i,
        {
            assert(pieces[i as int]@ == parts[i as int]);
            match component_value(&pieces[i]) {
                None => {
                    return None;
                },
                Some(v) => {
                    out.push(v);
                },
            }
            i += 1;
        }
        let r = VersionToken { parts: out };
        assert(r@ =~= parts.map_values(|p: Seq<char>| digits_value(p) as u64));
        Some(r)
    }

    /// The version with the single component zero.
    pub fn zero() -> (r: VersionToken)
        ensures
            r@ == seq![0u64],
    {
        let mut parts: Vec<u64> = Vec::new();
        parts.push(0);
        VersionToken { parts }
    }

    /// An equal copy.
    pub fn duplicate(&self) -> (r: VersionToken)
        ensures
            r@ == self@,
    {
        let mut parts: Vec<u64> = Vec::new();
        let mut i: usize = 0;
        while i < self.parts.len()
            invariant
                i <= self@.len(),
                parts@ == self@.take(i as int),
            decreases self@.len() - i,
        {
            parts.push(self.parts[i]);
            i += 1;
        }
        assert(self@.take(i as int) == self@);
        VersionToken { parts }
    }

    /// Compares component by component; missing trailing components count as zero.
    pub fn compare(&self, other: &VersionToken) -> (r: Ordering)
        ensures
            r == ordering_of(version_cmp(self@, other@)),
    {
        let n = if self.parts.len() >= other.parts.len() {
            self.parts.len()
        } else {
            other.parts.len()
        };
        let mut i: usize = 0;
        while i < n
            invariant
                n == max_len(self@, other@),
                i <= n,
                version_cmp(self@, other@) == compare_from(self@, other@, i as int),
            decreases n - i,
        {
            let a = if i < self.parts.len() { self.parts[i] } else { 0 };
            let b = if i < other.parts.len() { other.parts[i] } else { 0 };
            if a < b {
                return Ordering::Less;
            } else if a > b {
                return Ordering::Greater;
            }
            i += 1;
        }
        Ordering::Equal
    }

    /// `self <= other`, as versions.
    pub fn le(&self, other: &VersionToken) -> (r: bool)
        ensures
            r == version_le(self@, other@),
    {
        match self.compare(other) {
            Ordering::Greater => false,
            _ => true,
        }
    }

    /// `self >= other`, as versions.
    pub fn ge(&self, other: &VersionToken) -> (r: bool)
        ensures
            r == (version_cmp(self@, other@) >= 0),
    {
        match self.compare(other) {
            Ordering::Less => false,
            _ => true,
        }
    }
}


proof fn lemma_compare_unfold(a: Seq<u64>, b: Seq<u64>, i: int)
    requires
        i >= 0,
    ensures
        compare_from(a, b, i) == if component_at(a, i) < component_at(b, i) {
            -1
        } else if component_at(a, i) > component_at(b, i) {
            1
        } else {
            compare_from(a, b, i + 1)
        },
{
}

proof fn lemma_compare_antisym(a: Seq<u64>, b: Seq<u64>, i: int)
    requires
        i >= 0,
    ensures
        compare_from(a, b, i) == -compare_from(b, a, i),
    decreases max_len(a, b) - i,
{
    if i < max_len(a, b) {
        lemma_compare_antisym(a, b, i + 1);
    }
}

proof fn lemma_compare_trans(a: Seq<u64>, b: Seq<u64>, c: Seq<u64>, i: int)
    requires
        i >= 0,
        compare_from(a, b, i) <= 0,
        compare_from(b, c, i) <= 0,
    ensures
        compare_from(a, c, i) <= 0,
        compare_from(a, b, i) < 0 || compare_from(b, c, i) < 0 ==> compare_from(a, c, i) < 0,
    decreases a.len() + b.len() + c.len() - i,
{
    lemma_compare_unfold(a, b, i);
    lemma_compare_unfold(b, c, i);
    lemma_compare_unfold(a, c, i);
    if i < max_len(a, b) || i < max_len(b, c) || i < max_len(a, c) {
        if component_at(a, i) == component_at(b, i) && component_at(b, i) == component_at(c, i) {
            lemma_compare_trans(a, b, c, i + 1);
        }
    }
}

/// Version comparison is antisymmetric.
pub proof fn lemma_version_cmp_antisym(a: Seq<u64>, b: Seq<u64>)
    ensures
        version_cmp(a, b) == -version_cmp(b, a),
{
    lemma_compare_antisym(a, b, 0);
}

/// Version comparison is transitive, strictly where one step is strict.
pub proof fn lemma_version_cmp_trans(a: Seq<u64>, b: Seq<u64>, c: Seq<u64>)
    requires
        version_le(a, b),
        version_le(b, c),
    ensures
        version_le(a, c),
        version_cmp(a, b) < 0 || version_cmp(b, c) < 0 ==> version_cmp(a, c) < 0,
{
    lemma_compare_trans(a, b, c, 0);
}

} // verus!

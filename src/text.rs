use vstd::prelude::*;

verus! {

/// The characters of `s`, in order.
pub fn chars_of(s: &str) -> (r: Vec<char>)
    ensures
        r@ == s@,
{
    let mut out: Vec<char> = Vec::new();
    for c in it: s.chars()
        invariant
            out@ == it.seq().take(it.index() as int),
    {
        out.push(c);
    }
    proof {
        broadcast use vstd::string::axiom_spec_iter;
    }
    out
}

/// Relies on `String::push`: appends one character.
#[verifier::external_body]
fn push_char(s: &mut String, c: char)
    ensures
        final(s)@ == old(s)@.push(c),
{
    s.push(c)
}

/// The string made of the characters of `v`.
pub fn string_of(v: &[char]) -> (r: String)
    ensures
        r@ == v@,
{
    let mut out = String::new();
    let mut i: usize = 0;
    while i < v.len()
        invariant
            i <= v@.len(),
            out@ == v@.take(i as int),
        decreases v@.len() - i,
    {
        push_char(&mut out, v[i]);
        i += 1;
        assert(v@.take(i as int) == v@.take(i - 1).push(v@[i - 1]));
    }
    assert(v@.take(i as int) == v@);
    out
}


/// The pieces of `s` between the dots, in order; a string without a dot is a
/// single piece, the empty string included.
pub open spec fn split_dots(s: Seq<char>) -> Seq<Seq<char>>
    decreases s.len(),
{
    if s.len() == 0 {
        seq![Seq::<char>::empty()]
    } else {
        let rest = split_dots(s.drop_last());
        if s.last() == '.' {
            rest.push(Seq::<char>::empty())
        } else {
            rest.update(rest.len() - 1, rest.last().push(s.last()))
        }
    }
}

/// The pieces joined with a dot between each two.
pub open spec fn join_dots(parts: Seq<Seq<char>>) -> Seq<char>
    decreases parts.len(),
{
    if parts.len() == 0 {
        Seq::<char>::empty()
    } else if parts.len() == 1 {
        parts[0]
    } else {
        join_dots(parts.drop_last()) + seq!['.'] + parts.last()
    }
}

pub proof fn lemma_split_nonempty(s: Seq<char>)
    ensures
        split_dots(s).len() >= 1,
    decreases s.len(),
{
    if s.len() > 0 {
        lemma_split_nonempty(s.drop_last());
    }
}

/// No piece of a split holds a dot.
pub proof fn lemma_split_no_dots(s: Seq<char>)
    ensures
        forall|i: int| 0 <= i < split_dots(s).len() ==> !(#[trigger] split_dots(s)[i]).contains('.'),
    decreases s.len(),
{
    lemma_split_nonempty(s);
    if s.len() > 0 {
        lemma_split_no_dots(s.drop_last());
        lemma_split_nonempty(s.drop_last());
        let rest = split_dots(s.drop_last());
        if s.last() != '.' {
            assert forall|i: int| 0 <= i < split_dots(s).len() implies !(#[trigger] split_dots(s)[i]).contains('.') by {
                if i == rest.len() - 1 {
                    let p = rest.last().push(s.last());
                    assert(!rest[i].contains('.'));
                    if p.contains('.') {
                        let k = choose|k: int| 0 <= k < p.len() && p[k] == '.';
                        if k < rest.last().len() {
                            assert(rest.last()[k] == '.');
                        }
                    }
                }
            }
        } else {
            assert forall|i: int| 0 <= i < split_dots(s).len() implies !(#[trigger] split_dots(s)[i]).contains('.') by {
                if i < rest.len() {
                    assert(split_dots(s)[i] == rest[i]);
                }
            }
        }
    }
}

/// Splitting what was joined gives back the pieces, when none holds a dot.
pub proof fn lemma_split_join(parts: Seq<Seq<char>>)
    requires
        parts.len() >= 1,
        forall|i: int| 0 <= i < parts.len() ==> !(#[trigger] parts[i]).contains('.'),
    ensures
        split_dots(join_dots(parts)) == parts,
    decreases parts.len(),
{
    if parts.len() == 1 {
        lemma_split_dotless(parts[0]);
    } else {
        let init = parts.drop_last();
        assert forall|i: int| 0 <= i < init.len() implies !(#[trigger] init[i]).contains('.') by {
            assert(init[i] == parts[i]);
        }
        lemma_split_join(init);
        lemma_split_append_dotless(join_dots(init) + seq!['.'], parts.last());
        let a = join_dots(init) + seq!['.'];
        assert(a.drop_last() == join_dots(init));
        assert(split_dots(a) == init.push(Seq::<char>::empty()));
        assert(split_dots(a).drop_last() + seq![Seq::<char>::empty() + parts.last()] =~= parts);
    }
}

/// A string without a dot is its own single piece.
pub proof fn lemma_split_dotless(s: Seq<char>)
    requires
        !s.contains('.'),
    ensures
        split_dots(s) == seq![s],
{
    lemma_split_append_dotless(Seq::<char>::empty(), s);
    assert(Seq::<char>::empty() + s == s);
    assert(seq![Seq::<char>::empty()].drop_last() + seq![Seq::<char>::empty() + s] =~= seq![s]);
}

/// Appending dot-free text extends the last piece.
pub proof fn lemma_split_append_dotless(a: Seq<char>, b: Seq<char>)
    requires
        !b.contains('.'),
    ensures
        split_dots(a + b) == split_dots(a).drop_last() + seq![split_dots(a).last() + b],
    decreases b.len(),
{
    lemma_split_nonempty(a);
    if b.len() == 0 {
        assert(a + b == a);
        assert(split_dots(a).last() + b == split_dots(a).last());
        assert(split_dots(a).drop_last() + seq![split_dots(a).last()] =~= split_dots(a));
    } else {
        let b0 = b.drop_last();
        assert(!b0.contains('.')) by {
            if b0.contains('.') {
                let k = choose|k: int| 0 <= k < b0.len() && b0[k] == '.';
                assert(b[k] == '.');
            }
        }
        assert(b.last() != '.') by {
            assert(b[b.len() - 1] == b.last());
        }
        lemma_split_append_dotless(a, b0);
        assert((a + b).drop_last() == a + b0);
        assert((a + b).last() == b.last());
        lemma_split_nonempty(a + b0);
        let r0 = split_dots(a + b0);
        assert(r0.update(r0.len() - 1, r0.last().push(b.last())) =~= split_dots(a).drop_last()
            + seq![split_dots(a).last() + b]) by {
            let sa = split_dots(a);
            assert(b0.push(b.last()) =~= b);
            assert((sa.last() + b0).push(b.last()) =~= sa.last() + b);
            assert(r0.len() == sa.len());
            assert(r0.last() == sa.last() + b0);
        }
    }
}


/// The views of a sequence of character vectors.
pub open spec fn char_views(parts: Seq<Vec<char>>) -> Seq<Seq<char>> {
    parts.map_values(|p: Vec<char>| p@)
}

/// The pieces of `v` between the dots (see `split_dots`).
pub fn split_dot_chars(v: &[char]) -> (r: Vec<Vec<char>>)
    ensures
        char_views(r@) == split_dots(v@),
{
    let mut parts: Vec<Vec<char>> = Vec::new();
    parts.push(Vec::new());
    assert(char_views(parts@) =~= split_dots(v@.take(0)));
    let mut i: usize = 0;
    while i < v.len()
        invariant
            i <= v@.len(),
            char_views(parts@) == split_dots(v@.take(i as int)),
        decreases v@.len() - i,
    {
        let c = v[i];
        proof {
            lemma_split_nonempty(v@.take(i as int));
            assert(v@.take(i + 1).drop_last() == v@.take(i as int));
        }
        let ghost before = char_views(parts@);
        if c == '.' {
            parts.push(Vec::new());
            assert(char_views(parts@) =~= before.push(Seq::<char>::empty()));
        } else {
            let mut last = parts.pop().unwrap();
            assert(last@ == before.last());
            last.push(c);
            parts.push(last);
            assert(char_views(parts@) =~= before.update(before.len() - 1, before.last().push(c)));
        }
        i += 1;
    }
    assert(v@.take(i as int) == v@);
    parts
}


/// `pat` stands in `s` at position `i`.
pub open spec fn occurs_at(s: Seq<char>, pat: Seq<char>, i: int) -> bool {
    0 <= i && i + pat.len() <= s.len() && s.subrange(i, i + pat.len()) == pat
}

/// The first position at or after `i` at which `pat` stands in `s`.
pub open spec fn first_from(s: Seq<char>, pat: Seq<char>, i: int) -> Option<int>
    decreases s.len() + 1 - i,
{
    if i < 0 || i + pat.len() > s.len() {
        None
    } else if occurs_at(s, pat, i) {
        Some(i)
    } else {
        first_from(s, pat, i + 1)
    }
}

/// The first position at which `pat` stands in `s`.
pub open spec fn first_occurrence(s: Seq<char>, pat: Seq<char>) -> Option<int> {
    first_from(s, pat, 0)
}

pub proof fn lemma_first_from_bounds(s: Seq<char>, pat: Seq<char>, i: int)
    ensures
        first_from(s, pat, i) is Some ==> {
            let k = first_from(s, pat, i)->0;
            i <= k && occurs_at(s, pat, k)
        },
    decreases s.len() + 1 - i,
{
    if !(i < 0 || i + pat.len() > s.len()) && !occurs_at(s, pat, i) {
        lemma_first_from_bounds(s, pat, i + 1);
    }
}

/// `a` and `b` hold the same characters.
pub fn chars_eq(a: &[char], b: &[char]) -> (r: bool)
    ensures
        r == (a@ == b@),
{
    if a.len() != b.len() {
        return false;
    }
    let mut i: usize = 0;
    while i < a.len()
        invariant
            a@.len() == b@.len(),
            i <= a@.len(),
            forall|k: int| 0 <= k < i ==> a@[k] == b@[k],
        decreases a@.len() - i,
    {
        if a[i] != b[i] {
            return false;
        }
        i += 1;
    }
    assert(a@ =~= b@);
    true
}

/// `c` occurs in `a`.
pub fn contains_char(a: &[char], c: char) -> (r: bool)
    ensures
        r == a@.contains(c),
{
    let mut i: usize = 0;
    while i < a.len()
        invariant
            i <= a@.len(),
            forall|k: int| 0 <= k < i ==> a@[k] != c,
        decreases a@.len() - i,
    {
        if a[i] == c {
            return true;
        }
        i += 1;
    }
    false
}

/// `pat` stands in `s` at position `i`.
pub fn occurs_at_exec(s: &[char], pat: &[char], i: usize) -> (r: bool)
    ensures
        r == occurs_at(s@, pat@, i as int),
{
    if i > s.len() || pat.len() > s.len() - i {
        return false;
    }
    let mut k: usize = 0;
    while k < pat.len()
        invariant
            i + pat@.len() <= s@.len(),
            s@.len() == s.len(),
            k <= pat@.len(),
            forall|j: int| 0 <= j < k ==> s@[i + j] == pat@[j],
        decreases pat@.len() - k,
    {
        if s[i + k] != pat[k] {
            assert(s@.subrange(i as int, i + pat@.len())[k as int] != pat@[k as int]);
            return false;
        }
        k += 1;
    }
    assert(s@.subrange(i as int, i + pat@.len()) =~= pat@);
    true
}

/// The first position at which `pat` stands in `s`.
pub fn find_chars(s: &[char], pat: &[char]) -> (r: Option<usize>)
    ensures
        r matches Some(k) ==> first_occurrence(s@, pat@) == Some(k as int),
        r is None ==> first_occurrence(s@, pat@) is None,
{
    if pat.len() > s.len() {
        return None;
    }
    let last = s.len() - pat.len();
    let mut i: usize = 0;
    loop
        invariant
            last + pat@.len() == s@.len(),
            i <= last,
            first_occurrence(s@, pat@) == first_from(s@, pat@, i as int),
        decreases last - i,
    {
        if occurs_at_exec(s, pat, i) {
            return Some(i);
        }
        if i == last {
            assert(first_from(s@, pat@, i + 1) is None);
            return None;
        }
        i += 1;
    }
}

/// The characters of `v` from `from` up to `to`.
pub fn sub_chars(v: &[char], from: usize, to: usize) -> (r: Vec<char>)
    requires
        from <= to <= v@.len(),
    ensures
        r@ == v@.subrange(from as int, to as int),
{
    let mut out: Vec<char> = Vec::new();
    let mut i: usize = from;
    while i < to
        invariant
            from <= i <= to,
            to <= v@.len(),
            out@ == v@.subrange(from as int, i as int),
        decreases to - i,
    {
        out.push(v[i]);
        i += 1;
        assert(out@ =~= v@.subrange(from as int, i as int));
    }
    out
}

/// The pieces with every piece from position `p` on replaced by `0`.
pub open spec fn zero_from(parts: Seq<Seq<char>>, p: nat) -> Seq<Seq<char>> {
    Seq::new(parts.len(), |i: int| if i < p { parts[i] } else { seq!['0'] })
}

/// A dotted version with its components from position `p` on set to zero.
pub open spec fn trim_spec(s: Seq<char>, p: nat) -> Seq<char> {
    join_dots(zero_from(split_dots(s), p))
}

pub proof fn lemma_join_push(ps: Seq<Seq<char>>, x: Seq<char>)
    requires
        ps.len() >= 1,
    ensures
        join_dots(ps.push(x)) == join_dots(ps) + seq!['.'] + x,
{
    assert(ps.push(x).drop_last() == ps);
}

pub proof fn lemma_join_extend_last(ps: Seq<Seq<char>>, c: char)
    requires
        ps.len() >= 1,
    ensures
        join_dots(ps.update(ps.len() - 1, ps.last().push(c))) == join_dots(ps).push(c),
{
    let qs = ps.update(ps.len() - 1, ps.last().push(c));
    if ps.len() > 1 {
        assert(qs.drop_last() == ps.drop_last());
        assert(join_dots(ps.drop_last()) + seq!['.'] + ps.last().push(c) =~= (join_dots(
            ps.drop_last(),
        ) + seq!['.'] + ps.last()).push(c));
    }
}

/// `v` with its components from position `p` on set to zero (see `trim_spec`).
pub fn trim_chars(v: &[char], p: usize) -> (r: Vec<char>)
    ensures
        r@ == trim_spec(v@, p as nat),
{
    let mut out: Vec<char> = Vec::new();
    let mut k: usize = 0;
    let mut i: usize = 0;
    proof {
        assert(v@.take(0) =~= Seq::<char>::empty());
        assert(zero_from(split_dots(v@.take(0)), p as nat) =~= seq![if 0 < p { Seq::<char>::empty() } else { seq!['0'] }]);
    }
    if p == 0 {
        out.push('0');
    }
    while i < v.len()
        invariant
            i <= v@.len(),
            k <= i,
            k + 1 == split_dots(v@.take(i as int)).len(),
            out@ == trim_spec(v@.take(i as int), p as nat),
        decreases v@.len() - i,
    {
        let c = v[i];
        let ghost s0 = v@.take(i as int);
        let ghost s1 = v@.take(i + 1);
        proof {
            assert(s1.drop_last() == s0);
            assert(s1.last() == c);
            lemma_split_nonempty(s0);
        }
        let ghost ps = split_dots(s0);
        if c == '.' {
            out.push('.');
            k += 1;
            if k >= p {
                out.push('0');
            }
            proof {
                let x = if k < p { Seq::<char>::empty() } else { seq!['0'] };
                assert(zero_from(split_dots(s1), p as nat) =~= zero_from(ps, p as nat).push(x));
                lemma_join_push(zero_from(ps, p as nat), x);
                assert(out@ =~= join_dots(zero_from(ps, p as nat)) + seq!['.'] + x);
            }
        } else {
            if k < p {
                out.push(c);
                proof {
                    let zs = zero_from(ps, p as nat);
                    assert(zero_from(split_dots(s1), p as nat) =~= zs.update(
                        zs.len() - 1,
                        zs.last().push(c),
                    ));
                    lemma_join_extend_last(zs, c);
                }
            } else {
                assert(zero_from(split_dots(s1), p as nat) =~= zero_from(ps, p as nat));
            }
        }
        i += 1;
    }
    assert(v@.take(i as int) == v@);
    out
}

/// Trimming twice is trimming once.
pub proof fn lemma_trim_idempotent(s: Seq<char>, p: nat)
    ensures
        trim_spec(trim_spec(s, p), p) == trim_spec(s, p),
{
    let ps = split_dots(s);
    let zs = zero_from(ps, p);
    lemma_split_nonempty(s);
    lemma_split_no_dots(s);
    assert forall|i: int| 0 <= i < zs.len() implies !(#[trigger] zs[i]).contains('.') by {
        if i < p {
            assert(zs[i] == ps[i]);
        } else {
            assert(zs[i] == seq!['0']);
            if zs[i].contains('.') {
                let k = choose|k: int| 0 <= k < zs[i].len() && zs[i][k] == '.';
                assert(seq!['0'][k] == '0');
            }
        }
    }
    lemma_split_join(zs);
    assert(zero_from(zs, p) =~= zs);
}


/// `a` and `b` are the same text.
pub fn str_eq(a: &str, b: &str) -> (r: bool)
    ensures
        r == (a@ == b@),
{
    let x = chars_of(a);
    let y = chars_of(b);
    chars_eq(x.as_slice(), y.as_slice())
}


/// A character of the Unicode `White_Space` property.
pub open spec fn is_space(c: char) -> bool {
    let u = c as u32;
    (0x09 <= u && u <= 0x0D) || u == 0x20 || u == 0x85 || u == 0xA0 || u == 0x1680 || (0x2000 <= u
        && u <= 0x200A) || u == 0x2028 || u == 0x2029 || u == 0x202F || u == 0x205F || u == 0x3000
}

/// Every character of `s` is white space.
pub open spec fn is_blank(s: Seq<char>) -> bool {
    forall|i: int| 0 <= i < s.len() ==> is_space(#[trigger] s[i])
}

/// Every character of `s` is white space (the empty string included).
pub fn blank(s: &str) -> (r: bool)
    ensures
        r == is_blank(s@),
{
    let v = chars_of(s);
    let mut i: usize = 0;
    while i < v.len()
        invariant
            v@ == s@,
            i <= v@.len(),
            forall|k: int| 0 <= k < i ==> is_space(#[trigger] v@[k]),
        decreases v@.len() - i,
    {
        let u = v[i] as u32;
        let space = (0x09 <= u && u <= 0x0D) || u == 0x20 || u == 0x85 || u == 0xA0 || u == 0x1680
            || (0x2000 <= u && u <= 0x200A) || u == 0x2028 || u == 0x2029 || u == 0x202F || u
            == 0x205F || u == 0x3000;
        if !space {
            return false;
        }
        i += 1;
    }
    true
}

} // verus!

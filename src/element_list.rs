use vstd::prelude::*;

use crate::error::ModelError;

verus! {

/// How often `v` occurs in `s`.
pub open spec fn count_of(s: Seq<usize>, v: usize) -> nat
    decreases s.len(),
{
    if s.len() == 0 {
        0
    } else {
        count_of(s.drop_last(), v) + if s.last() == v { 1nat } else { 0nat }
    }
}

/// `s` repeated `n` times.
pub open spec fn repeat_seq(s: Seq<usize>, n: nat) -> Seq<usize>
    decreases n,
{
    if n == 0 {
        Seq::empty()
    } else {
        repeat_seq(s, (n - 1) as nat) + s
    }
}

/// An ordered list of elements, held by node number; two entries are the
/// same element exactly when their numbers are equal.
#[derive(Debug)]
pub struct ElementList {
    pub inner: Vec<usize>,
}

impl ElementList {
    pub fn new() -> (r: ElementList)
        ensures
            r.inner@.len() == 0,
    {
        ElementList { inner: Vec::new() }
    }

    pub fn len(&self) -> (r: usize)
        ensures
            r == self.inner@.len(),
    {
        self.inner.len()
    }

    /// The list is not empty.
    pub fn is_nonempty(&self) -> (r: bool)
        ensures
            r == (self.inner@.len() > 0),
    {
        self.inner.len() > 0
    }

    /// The element `value` is in the list.
    pub fn contains(&self, value: usize) -> (r: bool)
        ensures
            r == self.inner@.contains(value),
    {
        let mut i: usize = 0;
        while i < self.inner.len()
            invariant
                i <= self.inner@.len(),
                forall|k: int| 0 <= k < i ==> self.inner@[k] != value,
            decreases self.inner@.len() - i,
        {
            if self.inner[i] == value {
                return true;
            }
            i += 1;
        }
        false
    }

    /// How often `value` is in the list.
    pub fn count(&self, value: usize) -> (r: usize)
        ensures
            r == count_of(self.inner@, value),
    {
        let mut n: usize = 0;
        let mut i: usize = 0;
        while i < self.inner.len()
            invariant
                i <= self.inner@.len(),
                n == count_of(self.inner@.take(i as int), value),
                n <= i,
            decreases self.inner@.len() - i,
        {
            assert(self.inner@.take(i + 1).drop_last() == self.inner@.take(i as int));
            if self.inner[i] == value {
                n += 1;
            }
            i += 1;
        }
        assert(self.inner@.take(i as int) == self.inner@);
        n
    }

    /// The first position from `start` and before `stop` that holds `value`.
    pub fn index(&self, value: usize, start: usize, stop: usize) -> (r: Result<usize, ModelError>)
        ensures
            r matches Ok(i) ==> start <= i < stop && i < self.inner@.len() && self.inner@[i as int] == value
                && forall|k: int| start <= k < i ==> self.inner@[k] != value,
            r is Err ==> r == Err::<usize, ModelError>(ModelError::NotInList) && forall|k: int|
                start <= k < stop && k < self.inner@.len() ==> self.inner@[k] != value,
    {
        let end = if stop < self.inner.len() { stop } else { self.inner.len() };
        let mut i: usize = start;
        while i < end
            invariant
                start <= i,
                end <= stop,
                end <= self.inner@.len(),
                forall|k: int| start <= k < i ==> self.inner@[k] != value,
            decreases end - i,
        {
            if self.inner[i] == value {
                return Ok(i);
            }
            i += 1;
        }
        Err(ModelError::NotInList)
    }

    /// The element at position `idx`; a negative position counts from the end.
    pub fn get_item(&self, idx: isize) -> (r: Result<usize, ModelError>)
        ensures
            ({
                let n = self.inner@.len() as int;
                let k = if idx >= 0 { idx as int } else { idx + n };
                &&& 0 <= k < n ==> r == Ok::<usize, ModelError>(self.inner@[k])
                &&& !(0 <= k < n) ==> r == Err::<usize, ModelError>(ModelError::IndexOutOfRange { index: if idx >= 0 { idx as usize } else { 0 } })
            }),
    {
        let n = self.inner.len();
        if idx >= 0 {
            let k = idx as usize;
            if k < n {
                return Ok(self.inner[k]);
            }
            return Err(ModelError::IndexOutOfRange { index: k });
        }
        let k: i128 = idx as i128 + n as i128;
        if 0 <= k && k < n as i128 {
            Ok(self.inner[k as usize])
        } else {
            Err(ModelError::IndexOutOfRange { index: 0 })
        }
    }

    /// Equal where both lists hold the same element at every position that
    /// both have.
    pub fn eq_prefix(&self, other: &Vec<usize>) -> (r: bool)
        ensures
            r == forall|k: int| 0 <= k < self.inner@.len() && k < other@.len() ==> self.inner@[k] == other@[k],
    {
        let mut i: usize = 0;
        while i < self.inner.len() && i < other.len()
            invariant
                i <= self.inner@.len(),
                forall|k: int| 0 <= k < i && k < other@.len() ==> self.inner@[k] == other@[k],
            decreases self.inner@.len() - i,
        {
            if self.inner[i] != other[i] {
                return false;
            }
            i += 1;
        }
        true
    }

    /// Both lists hold the same elements in the same order.
    pub fn eq(&self, other: &Vec<usize>) -> (r: bool)
        ensures
            r == (self.inner@ == other@),
    {
        if self.inner.len() != other.len() {
            return false;
        }
        let same = self.eq_prefix(other);
        assert(same ==> self.inner@ =~= other@);
        same
    }

    /// This list followed by `other`.
    pub fn concat(&self, other: &Vec<usize>) -> (r: Vec<usize>)
        requires
            self.inner@.len() + other@.len() <= usize::MAX,
        ensures
            r@ == self.inner@ + other@,
    {
        let mut out: Vec<usize> = Vec::new();
        let mut i: usize = 0;
        while i < self.inner.len()
            invariant
                i <= self.inner@.len(),
                out@ == self.inner@.take(i as int),
            decreases self.inner@.len() - i,
        {
            out.push(self.inner[i]);
            i += 1;
            assert(out@ =~= self.inner@.take(i as int));
        }
        let mut j: usize = 0;
        while j < other.len()
            invariant
                i == self.inner@.len(),
                j <= other@.len(),
                out@ == self.inner@.take(i as int) + other@.take(j as int),
            decreases other@.len() - j,
        {
            out.push(other[j]);
            j += 1;
            assert(out@ =~= self.inner@.take(i as int) + other@.take(j as int));
        }
        assert(self.inner@.take(i as int) == self.inner@);
        assert(other@.take(j as int) == other@);
        out
    }

    /// This list repeated `n` times.
    pub fn repeat(&self, n: usize) -> (r: Vec<usize>)
        requires
            self.inner@.len() * n <= usize::MAX,
        ensures
            r@ == repeat_seq(self.inner@, n as nat),
    {
        let mut out: Vec<usize> = Vec::new();
        let mut t: usize = 0;
        while t < n
            invariant
                t <= n,
                out@ == repeat_seq(self.inner@, t as nat),
            decreases n - t,
        {
            let mut i: usize = 0;
            let ghost base = out@;
            while i < self.inner.len()
                invariant
                    i <= self.inner@.len(),
                    out@ == base + self.inner@.take(i as int),
                decreases self.inner@.len() - i,
            {
                out.push(self.inner[i]);
                i += 1;
                assert(out@ =~= base + self.inner@.take(i as int));
            }
            assert(self.inner@.take(i as int) == self.inner@);
            t += 1;
        }
        out
    }

    /// Reverses the list in place.
    pub fn reverse(&mut self)
        ensures
            final(self).inner@ == old(self).inner@.reverse(),
    {
        let mut out: Vec<usize> = Vec::new();
        let mut i: usize = self.inner.len();
        while i > 0
            invariant
                i <= self.inner@.len(),
                *self == *old(self),
                out@ == self.inner@.skip(i as int).reverse(),
            decreases i,
        {
            i -= 1;
            out.push(self.inner[i]);
            assert(out@ =~= self.inner@.skip(i as int).reverse());
        }
        assert(self.inner@.skip(0) == self.inner@);
        self.inner = out;
    }
}

} // verus!

use vstd::prelude::*;

use crate::error::ModelError;
use crate::text::chars_of;

verus! {

/// The bytes read so far from a resource, chunk by chunk.
#[derive(Debug)]
pub struct ByteAccumulator {
    data: Vec<u8>,
    done: bool,
}

impl ByteAccumulator {
    pub closed spec fn spec_data(&self) -> Seq<u8> {
        self.data@
    }

    pub closed spec fn spec_done(&self) -> bool {
        self.done
    }

    pub fn new() -> (r: ByteAccumulator)
        ensures
            r.spec_data().len() == 0,
            !r.spec_done(),
    {
        ByteAccumulator { data: Vec::new(), done: false }
    }

    /// Takes the answer to a read of at most `requested` bytes. An empty
    /// chunk ends the stream; a chunk longer than asked for is a fault of
    /// the provider and ends the load.
    pub fn accept_chunk(&mut self, requested: usize, chunk: &[u8]) -> (r: Result<bool, ModelError>)
        ensures
            chunk@.len() > requested ==> r == Err::<bool, ModelError>(ModelError::ProviderOverread { requested, returned: chunk@.len() as usize }) && *final(self) == *old(self),
            chunk@.len() <= requested && chunk@.len() == 0 ==> r == Ok::<bool, ModelError>(true) && final(self).spec_done() && final(self).spec_data() == old(self).spec_data(),
            chunk@.len() <= requested && chunk@.len() > 0 ==> r == Ok::<bool, ModelError>(false) && final(self).spec_done() == old(self).spec_done() && final(self).spec_data() == old(self).spec_data() + chunk@,
    {
        if chunk.len() > requested {
            return Err(ModelError::ProviderOverread { requested, returned: chunk.len() });
        }
        if chunk.len() == 0 {
            self.done = true;
            return Ok(true);
        }
        let mut i: usize = 0;
        let ghost start = self.data@;
        while i < chunk.len()
            invariant
                i <= chunk@.len(),
                self.data@ == start + chunk@.take(i as int),
                self.done == old(self).done,
                start == old(self).data@,
            decreases chunk@.len() - i,
        {
            self.data.push(chunk[i]);
            i += 1;
            assert(self.data@ =~= start + chunk@.take(i as int));
        }
        assert(chunk@.take(i as int) == chunk@);
        Ok(false)
    }

    /// The stream has ended.
    pub fn is_done(&self) -> (r: bool)
        ensures
            r == self.spec_done(),
    {
        self.done
    }

    /// The bytes read.
    pub fn into_bytes(self) -> (r: Vec<u8>)
        ensures
            r@ == self.spec_data(),
    {
        self.data
    }
}

/// The extension of the files that describe a model.
pub open spec fn descriptor_suffix() -> Seq<char> {
    seq!['.', 'a', 'i', 'r', 'd']
}

/// The last component of a `/`-separated path.
pub open spec fn file_name(path: Seq<char>) -> Seq<char>
    decreases path.len(),
{
    if path.len() == 0 {
        path
    } else if path.last() == '/' {
        Seq::empty()
    } else {
        file_name(path.drop_last()).push(path.last())
    }
}

/// The file's name ends in the descriptor extension, after a stem that is not empty.
pub open spec fn is_descriptor(path: Seq<char>) -> bool {
    let f = file_name(path);
    f.len() > descriptor_suffix().len() && f.skip(f.len() - descriptor_suffix().len()) == descriptor_suffix()
}

/// Checks that the entry point of a model is a model descriptor file.
pub fn check_entrypoint(path: &str) -> (r: Result<(), ModelError>)
    ensures
        r is Ok <==> is_descriptor(path@),
        r is Err ==> r == Err::<(), ModelError>(ModelError::InvalidEntrypoint),
{
    let v = chars_of(path);
    let mut name: Vec<char> = Vec::new();
    let mut i: usize = 0;
    while i < v.len()
        invariant
            i <= v@.len(),
            name@ == file_name(v@.take(i as int)),
        decreases v@.len() - i,
    {
        assert(v@.take(i + 1).drop_last() == v@.take(i as int));
        if v[i] == '/' {
            name = Vec::new();
            assert(name@ =~= file_name(v@.take(i + 1)));
        } else {
            name.push(v[i]);
        }
        i += 1;
    }
    assert(v@.take(i as int) == path@);
    let suffix = vec!['.', 'a', 'i', 'r', 'd'];
    assert(suffix@ =~= descriptor_suffix());
    let n = name.len();
    if n <= 5 {
        return Err(ModelError::InvalidEntrypoint);
    }
    let mut k: usize = 0;
    while k < 5
        invariant
            n == name@.len(),
            name@ == file_name(path@),
            n > 5,
            suffix@ == descriptor_suffix(),
            k <= 5,
            forall|j: int| 0 <= j < k ==> name@[n - 5 + j] == suffix@[j],
        decreases 5 - k,
    {
        if name[n - 5 + k] != suffix[k] {
            assert(name@.skip(n - 5)[k as int] != descriptor_suffix()[k as int]);
            return Err(ModelError::InvalidEntrypoint);
        }
        k += 1;
    }
    assert(name@.skip(n - 5) =~= descriptor_suffix());
    Ok(())
}

} // verus!

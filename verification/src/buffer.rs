//! Byte strings in the form a C callee expects: the content, then one zero
//! byte, and no zero byte before it.

use vstd::prelude::*;

verus! {

/// Whether `s` holds no zero byte.
pub open spec fn has_no_nul(s: Seq<u8>) -> bool {
    forall|k: int| 0 <= k < s.len() ==> #[trigger] s[k] != 0
}

/// An owned, zero-terminated byte string. The buffer is allocated once and
/// never moves or changes, so its address stays good for as long as the
/// value lives.
#[derive(Debug, PartialEq, Eq)]
pub struct CBuffer {
    bytes: Vec<u8>,
}

impl View for CBuffer {
    type V = Seq<u8>;

    /// The content, without the terminator.
    closed spec fn view(&self) -> Seq<u8> {
        self.bytes@.drop_last()
    }
}

impl Clone for CBuffer {
    /// A buffer of its own with the same content.
    fn clone(&self) -> (copy: CBuffer)
        ensures
            copy@ == self@,
    {
        proof {
            use_type_invariant(self);
        }
        let bytes = self.bytes.clone();
        assert(bytes@ =~= self.bytes@);
        CBuffer { bytes }
    }
}

impl CBuffer {
    #[verifier::type_invariant]
    spec fn inv(self) -> bool {
        &&& self.bytes@.len() >= 1
        &&& self.bytes@.last() == 0
        &&& has_no_nul(self.bytes@.drop_last())
    }

    /// Copies `content` and terminates it, where `content` holds no zero
    /// byte; else nothing.
    pub fn new(content: &[u8]) -> (r: Option<CBuffer>)
        ensures
            r is Some <==> has_no_nul(content@),
            r is Some ==> r->0@ == content@,
    {
        let mut bytes: Vec<u8> = Vec::new();
        let mut i: usize = 0;
        while i < content.len()
            invariant
                i <= content.len(),
                bytes@ == content@.subrange(0, i as int),
                has_no_nul(bytes@),
            decreases content.len() - i,
        {
            if content[i] == 0 {
                return None;
            }
            bytes.push(content[i]);
            assert(bytes@ =~= content@.subrange(0, i + 1));
            i += 1;
        }
        assert(bytes@ =~= content@);
        bytes.push(0);
        proof {
            assert(bytes@.drop_last() =~= content@);
            assert(bytes@.last() == 0);
            assert(has_no_nul(bytes@.drop_last()));
        }
        Some(CBuffer { bytes })
    }

    /// The content and its terminator, as the callee reads them.
    pub fn as_bytes_with_nul(&self) -> (bytes: &[u8])
        ensures
            bytes@ == self@.push(0),
            has_no_nul(self@),
    {
        proof {
            use_type_invariant(self);
            assert(self.bytes@ =~= self.bytes@.drop_last().push(0));
        }
        self.bytes.as_slice()
    }

    /// The content without its terminator.
    pub fn to_bytes(&self) -> (content: Vec<u8>)
        ensures
            content@ == self@,
            has_no_nul(self@),
    {
        proof {
            use_type_invariant(self);
        }
        let n: usize = self.bytes.len() - 1;
        let mut content: Vec<u8> = Vec::new();
        let mut i: usize = 0;
        while i < n
            invariant
                i <= n,
                n == self.bytes@.len() - 1,
                content@ == self.bytes@.subrange(0, i as int),
            decreases n - i,
        {
            content.push(self.bytes[i]);
            assert(content@ =~= self.bytes@.subrange(0, i + 1));
            i += 1;
        }
        assert(content@ =~= self.bytes@.drop_last());
        content
    }

    /// The number of content bytes.
    pub fn len(&self) -> (n: usize)
        ensures
            n == self@.len(),
    {
        proof {
            use_type_invariant(self);
        }
        self.bytes.len() - 1
    }
}

} // verus!

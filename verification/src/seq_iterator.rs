//! Character-wise sequence stepping over single-byte symbols.

use vstd::prelude::*;
use vstd::string::StringSliceAdditionalSpecFns;

verus! {

/// Steps through the bytes of a sequence, handing each out as a character.
pub struct SeqIterator {
    bytes: Vec<u8>,
    pos: usize,
}

impl SeqIterator {
    /// All bytes of the underlying sequence.
    pub closed spec fn bytes_view(self) -> Seq<u8> {
        self.bytes@
    }

    /// How many bytes have been consumed.
    pub closed spec fn position(self) -> int {
        self.pos as int
    }

    pub fn from(seq: &str) -> (it: SeqIterator)
        ensures
            it.bytes_view() == seq.spec_bytes(),
            it.position() == 0,
    {
        SeqIterator { bytes: vstd::slice::slice_to_vec(seq.as_bytes()), pos: 0 }
    }

    /// The next byte as a character. The sequence must not be exhausted.
    pub fn next_char(&mut self) -> (c: char)
        requires
            old(self).position() < old(self).bytes_view().len(),
        ensures
            c == (old(self).bytes_view()[old(self).position()] as char),
            final(self).bytes_view() == old(self).bytes_view(),
            final(self).position() == old(self).position() + 1,
    {
        let len = self.bytes.len();
        assert(self.pos < len);
        let b = self.bytes[self.pos];
        self.pos += 1;
        b as char
    }
}

} // verus!

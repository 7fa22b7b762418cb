//! Byte-wise sequence stepping and penalty accumulation.

use vstd::prelude::*;
use vstd::string::StringSliceAdditionalSpecFns;

verus! {

/// Steps through the bytes of a sequence, one at a time.
pub struct SeqIterator {
    bytes: Vec<u8>,
    pos: usize,
}

impl SeqIterator {
    /// All bytes of the underlying sequence.
    pub closed spec fn bytes_view(self) -> Seq<u8> {
        self.bytes@
    }

    /// How many bytes have been consumed.
    pub closed spec fn position(self) -> int {
        self.pos as int
    }

    pub fn from(seq: &str) -> (it: SeqIterator)
        ensures
            it.bytes_view() == seq.spec_bytes(),
            it.position() == 0,
    {
        SeqIterator { bytes: vstd::slice::slice_to_vec(seq.as_bytes()), pos: 0 }
    }

    /// The next byte. The sequence must not be exhausted.
    pub fn next_byte(&mut self) -> (b: u8)
        requires
            old(self).position() < old(self).bytes_view().len(),
        ensures
            b == old(self).bytes_view()[old(self).position()],
            final(self).bytes_view() == old(self).bytes_view(),
            final(self).position() == old(self).position() + 1,
    {
        let len = self.bytes.len();
        assert(self.pos < len);
        let b = self.bytes[self.pos];
        self.pos += 1;
        b
    }
}

/// The running sums of `supplier` over `0..size`: the first element is
/// zero, and each following element adds one supplied value, so each
/// adjacent difference is a value the supplier can return for its index.
pub fn accumulate<S: Fn(usize) -> i64>(size: usize, supplier: S) -> (r: Vec<i64>)
    requires
        size <= 0x10_0000,
        forall|n: usize| n < size ==> #[trigger] call_requires(supplier, (n,)),
        forall|n: usize, v: i64| #[trigger]
            call_ensures(supplier, (n,), v) ==> -0x1_0000_0000 <= v <= 0x1_0000_0000,
    ensures
        r@.len() == size + 1,
        r@[0] == 0,
        forall|n: int|
            #![trigger r@[n]]
            0 <= n < size ==> -0x1_0000_0000 <= r@[n + 1] - r@[n] <= 0x1_0000_0000
                && call_ensures(supplier, (n as usize,), ((r@[n + 1] - r@[n]) as i64)),
{
    let mut r: Vec<i64> = Vec::new();
    r.push(0);
    let mut acc: i64 = 0;
    let mut n: usize = 0;
    while n < size
        invariant
            size <= 0x10_0000,
            forall|t: usize| t < size ==> #[trigger] call_requires(supplier, (t,)),
            forall|t: usize, v: i64| #[trigger]
                call_ensures(supplier, (t,), v) ==> -0x1_0000_0000 <= v <= 0x1_0000_0000,
            n <= size,
            r@.len() == n + 1,
            r@[0] == 0,
            r@[n as int] == acc,
            -0x1_0000_0000 * (n as int) <= acc <= 0x1_0000_0000 * (n as int),
            forall|t: int|
                #![trigger r@[t]]
                0 <= t < n ==> -0x1_0000_0000 <= r@[t + 1] - r@[t] <= 0x1_0000_0000
                    && call_ensures(supplier, (t as usize,), ((r@[t + 1] - r@[t]) as i64)),
        decreases size - n,
    {
        let step = supplier(n);
        acc = acc + step;
        let ghost r0 = r@;
        r.push(acc);
        proof {
            assert(r@ == r0.push(acc));
            assert(call_ensures(supplier, (n,), step));
            assert forall|t: int|
                #![trigger r@[t]]
                0 <= t < n + 1 implies -0x1_0000_0000 <= r@[t + 1] - r@[t] <= 0x1_0000_0000
                && call_ensures(supplier, (t as usize,), ((r@[t + 1] - r@[t]) as i64)) by {
                if t < n {
                    assert(r@[t + 1] == r0[t + 1] && r@[t] == r0[t]);
                } else {
                    assert(r@[t + 1] - r@[t] == step);
                    assert(((r@[t + 1] - r@[t]) as i64) == step);
                }
            }
        }
        n += 1;
    }
    r
}

} // verus!

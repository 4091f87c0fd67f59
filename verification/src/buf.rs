//! The destination of an encode or decode: memory that is written, never read.
//!
//! A destination is either ordinary bytes or uninitialized storage. Both are
//! written through [`Buf`], whose implementors are fixed: the trait is sealed.

use vstd::prelude::*;
use vstd::std_specs::maybe_uninit::MaybeUninitAdditionalSpecFns;
use std::mem::MaybeUninit;

mod private;

verus! {

/// What the slots of a destination hold once `bytes` was stored over them from `at` on.
pub open spec fn stored(slots: Seq<Option<u8>>, at: int, bytes: Seq<u8>) -> Seq<Option<u8>> {
    Seq::new(
        slots.len(),
        |i: int|
            if at <= i < at + bytes.len() {
                Some(bytes[i - at])
            } else {
                slots[i]
            },
    )
}

/// The slots of a destination that holds exactly `bytes`, each one written.
pub open spec fn initialized(bytes: Seq<u8>) -> Seq<Option<u8>> {
    Seq::new(bytes.len(), |i: int| Some(bytes[i]))
}

/// True when `after` is `before` with some of `bytes` stored from `at` on:
/// every slot holds what it held before, or the byte of `bytes` that belongs
/// at its place.
pub open spec fn stored_in_part(
    after: Seq<Option<u8>>,
    before: Seq<Option<u8>>,
    at: int,
    bytes: Seq<u8>,
) -> bool {
    &&& after.len() == before.len()
    &&& forall|k: int|
        0 <= k < before.len() ==> #[trigger] after[k] == before[k] || (at <= k < at + bytes.len()
            && after[k] == Some(bytes[k - at]))
}

/// A slice has no more elements than a `usize` can count.
pub proof fn lemma_slice_len_fits(slice: &[u8])
    ensures
        slice@.len() <= usize::MAX,
{
    assert(slice@.len() == slice.len());
}

/// True when the first `upto` slots hold the first `upto` bytes of `bytes`.
pub open spec fn holds_prefix(slots: Seq<Option<u8>>, bytes: Seq<u8>, upto: int) -> bool {
    forall|k: int| 0 <= k < upto ==> #[trigger] slots[k] == Some(bytes[k])
}

/// A destination buffer for hex encoding and decoding.
///
/// Implemented for `[u8]` and for `[MaybeUninit<u8>]`, and for nothing else.
/// The buffer is only ever written: its one mutating operation copies bytes
/// in, so no element is read before it was stored.
pub trait Buf: private::Sealed {
    /// What each slot holds: `Some(b)` where the byte `b` is stored, `None`
    /// where uninitialized storage was never written.
    spec fn slots(&self) -> Seq<Option<u8>>;

    /// A buffer has no more slots than a `usize` can count.
    proof fn lemma_slots_fit(&self)
        ensures
            self.slots().len() <= usize::MAX,
    ;

    /// The number of slots.
    fn dst_len(&self) -> (n: usize)
        ensures
            n == self.slots().len(),
    ;

    /// Copies `bytes` into the slots from `at` on; the other slots stay as they were.
    fn write_at(&mut self, at: usize, bytes: &[u8])
        requires
            at + bytes@.len() <= old(self).slots().len(),
        ensures
            final(self).slots() == stored(old(self).slots(), at as int, bytes@),
    ;
}

impl Buf for [u8] {
    open spec fn slots(&self) -> Seq<Option<u8>> {
        initialized(self@)
    }

    proof fn lemma_slots_fit(&self) {
        assert(self@.len() == self.len());
    }

    fn dst_len(&self) -> (n: usize) {
        self.len()
    }

    fn write_at(&mut self, at: usize, bytes: &[u8]) {
        let count: usize = bytes.len();
        let ghost total = self@.len();
        proof {
            self.lemma_slots_fit();
        }
        let mut i: usize = 0;
        while i < count
            invariant
                count == bytes@.len(),
                i <= count,
                at + count <= total <= usize::MAX,
                total == self@.len(),
                total == old(self)@.len(),
                forall|k: int|
                    0 <= k < total ==> self@[k] == (if at <= k < at + i {
                        bytes@[k - at]
                    } else {
                        old(self)@[k]
                    }),
            decreases count - i,
        {
            self[at + i] = bytes[i];
            i += 1;
        }
        assert(self.slots() =~= stored(old(self).slots(), at as int, bytes@));
    }
}

impl Buf for [MaybeUninit<u8>] {
    open spec fn slots(&self) -> Seq<Option<u8>> {
        Seq::new(self@.len(), |i: int| self@[i].as_option())
    }

    proof fn lemma_slots_fit(&self) {
        assert(self@.len() == self.len());
    }

    fn dst_len(&self) -> (n: usize) {
        self.len()
    }

    fn write_at(&mut self, at: usize, bytes: &[u8]) {
        let count: usize = bytes.len();
        let ghost total = self@.len();
        proof {
            self.lemma_slots_fit();
        }
        let mut i: usize = 0;
        while i < count
            invariant
                count == bytes@.len(),
                i <= count,
                at + count <= total <= usize::MAX,
                total == self@.len(),
                total == old(self)@.len(),
                forall|k: int|
                    0 <= k < total ==> self@[k].as_option() == (if at <= k < at + i {
                        Some(bytes@[k - at])
                    } else {
                        old(self)@[k].as_option()
                    }),
            decreases count - i,
        {
            self[at + i] = MaybeUninit::new(bytes[i]);
            i += 1;
        }
        assert(self.slots() =~= stored(old(self).slots(), at as int, bytes@));
    }
}

/// Where the slots hold the first `front` of the bytes, storing the bytes
/// from `front` to `to` behind them makes the slots hold the first `to`.
pub proof fn lemma_stored_next(slots: Seq<Option<u8>>, bytes: Seq<u8>, front: int, to: int)
    requires
        0 <= front <= to <= bytes.len(),
        to <= slots.len(),
        holds_prefix(slots, bytes, front),
    ensures
        holds_prefix(stored(slots, front, bytes.subrange(front, to)), bytes, to),
{
    let window = bytes.subrange(front, to);
    assert forall|k: int| 0 <= k < to implies #[trigger] stored(slots, front, window)[k] == Some(
        bytes[k],
    ) by {
        if k < front {
            assert(slots[k] == Some(bytes[k]));
        } else {
            assert(window[k - front] == bytes[k]);
        }
    }
}

/// Storing a window of the bytes at its place, over slots that hold some of
/// the bytes at their places already, leaves slots that still do.
pub proof fn lemma_stored_in_part_next(
    slots: Seq<Option<u8>>,
    before: Seq<Option<u8>>,
    bytes: Seq<u8>,
    from: int,
    to: int,
)
    requires
        0 <= from <= to <= bytes.len(),
        stored_in_part(slots, before, 0, bytes),
    ensures
        stored_in_part(stored(slots, from, bytes.subrange(from, to)), before, 0, bytes),
{
    let window = bytes.subrange(from, to);
    let after = stored(slots, from, window);
    assert forall|k: int| 0 <= k < before.len() implies #[trigger] after[k] == before[k] || (0
        <= k < bytes.len() && after[k] == Some(bytes[k])) by {
        if from <= k < to {
            assert(window[k - from] == bytes[k]);
        } else {
            assert(after[k] == slots[k]);
        }
    }
}

/// Where the slots hold the first `front` of the bytes already, storing the
/// bytes from `start` on over them completes the whole, for any `start` that
/// is not behind `front`: what is stored twice is stored alike.
pub proof fn lemma_stored_rest(slots: Seq<Option<u8>>, bytes: Seq<u8>, front: int, start: int)
    requires
        slots.len() == bytes.len(),
        0 <= start <= front <= bytes.len(),
        holds_prefix(slots, bytes, front),
    ensures
        stored(slots, start, bytes.subrange(start, bytes.len() as int)) == initialized(bytes),
{
    let rest = bytes.subrange(start, bytes.len() as int);
    assert forall|k: int| 0 <= k < bytes.len() implies stored(slots, start, rest)[k] == Some(
        bytes[k],
    ) by {
        if k < start {
            assert(slots[k] == Some(bytes[k]));
        } else {
            assert(rest[k - start] == bytes[k]);
        }
    }
    assert(stored(slots, start, rest) =~= initialized(bytes));
}

/// An ordinary byte buffer whose slots hold `bytes` is `bytes`.
pub proof fn lemma_initialized_bytes(buffer: Seq<u8>, bytes: Seq<u8>)
    requires
        initialized(buffer) == initialized(bytes),
    ensures
        buffer == bytes,
{
    assert(buffer.len() == initialized(buffer).len());
    assert(bytes.len() == initialized(bytes).len());
    assert forall|i: int| 0 <= i < buffer.len() implies buffer[i] == bytes[i] by {
        assert(initialized(buffer)[i] == Some(buffer[i]));
        assert(initialized(bytes)[i] == Some(bytes[i]));
    }
    assert(buffer =~= bytes);
}

} // verus!

//! The byte source: exact-length reads, and the little-endian numbers read through them.

use crate::conversion::{as_signed, le_value, to_i16, to_u16, to_u32, to_u64};
use crate::error::DidNotReadEnough;
use vstd::prelude::*;

verus! {

/// A read of `amount` bytes succeeded: the source held that many, and they are gone
/// from it.
pub open spec fn delivered(before: Seq<u8>, after: Seq<u8>, amount: nat) -> bool {
    before.len() >= amount && after == before.skip(amount as int)
}

/// `after` is what is left of `before` when bytes have been taken from its front,
/// be it none or all.
pub open spec fn is_rest_of(after: Seq<u8>, before: Seq<u8>) -> bool {
    &&& after.len() <= before.len()
    &&& after == before.skip(before.len() - after.len())
}

/// A read of `amount` bytes failed with `shortfall`: the source held fewer, and the
/// error says how many were asked for and how many there were. What the source
/// holds afterwards is a rest of what it held.
pub open spec fn fell_short(
    before: Seq<u8>,
    after: Seq<u8>,
    amount: nat,
    shortfall: DidNotReadEnough,
) -> bool {
    &&& before.len() < amount
    &&& shortfall.expected == amount
    &&& shortfall.got == before.len()
    &&& is_rest_of(after, before)
}

/// What is left of a rest is a rest of the whole.
pub proof fn lemma_rest_of_rest(before: Seq<u8>, middle: Seq<u8>)
    requires
        is_rest_of(middle, before),
    ensures
        forall|after: Seq<u8>| #[trigger] is_rest_of(after, middle) ==> is_rest_of(after, before),
{
    assert forall|after: Seq<u8>| #[trigger] is_rest_of(after, middle) implies is_rest_of(
        after,
        before,
    ) by {
        let first = before.len() - middle.len();
        let second = middle.len() - after.len();
        assert(before.skip(first).skip(second) =~= before.skip(first + second));
    }
}

/// What is left behind any number of bytes taken from the front is a rest, and a
/// rest of it is a rest of the whole.
pub proof fn lemma_rest_of_skipped(before: Seq<u8>)
    ensures
        forall|taken: int|
            0 <= taken <= before.len() ==> is_rest_of(#[trigger] before.skip(taken), before),
        forall|taken: int, after: Seq<u8>|
            0 <= taken <= before.len() && #[trigger] is_rest_of(after, before.skip(taken))
                ==> is_rest_of(after, before),
{
    assert forall|taken: int, after: Seq<u8>|
        0 <= taken <= before.len() && #[trigger] is_rest_of(
            after,
            before.skip(taken),
        ) implies is_rest_of(after, before) by {
        lemma_rest_of_rest(before, before.skip(taken));
    }
}

/// A source of bytes that is read front to back, a whole field at a time.
///
/// A read either delivers exactly the bytes it was asked for or fails and says how
/// many were missing. A failed read may have taken any number of the bytes that were
/// there, and nothing else has happened to the source.
pub trait ReadExt {
    /// The bytes that the source has yet to deliver, in the order of delivery.
    spec fn remaining(&self) -> Seq<u8>;

    /// Reads `amount` bytes.
    fn read_byte_vec(&mut self, amount: usize) -> (r: Result<Vec<u8>, DidNotReadEnough>)
        ensures
            match r {
                Ok(bytes) => delivered(
                    old(self).remaining(),
                    final(self).remaining(),
                    amount as nat,
                ) && bytes@ == old(self).remaining().take(amount as int),
                Err(e) => fell_short(
                    old(self).remaining(),
                    final(self).remaining(),
                    amount as nat,
                    e,
                ),
            },
    ;

    /// Reads one byte as an unsigned number.
    fn read_u8_le(&mut self) -> (r: Result<u8, DidNotReadEnough>)
        ensures
            match r {
                Ok(value) => delivered(old(self).remaining(), final(self).remaining(), 1)
                    && value == old(self).remaining()[0],
                Err(e) => fell_short(
                    old(self).remaining(),
                    final(self).remaining(),
                    1,
                    e,
                ),
            },
    {
        let bytes = self.read_byte_vec(1)?;
        Ok(bytes[0])
    }

    /// Reads one byte as a signed number in two's complement.
    fn read_i8_le(&mut self) -> (r: Result<i8, DidNotReadEnough>)
        ensures
            match r {
                Ok(value) => delivered(old(self).remaining(), final(self).remaining(), 1)
                    && value as int == as_signed(old(self).remaining()[0] as nat, 0x100),
                Err(e) => fell_short(
                    old(self).remaining(),
                    final(self).remaining(),
                    1,
                    e,
                ),
            },
    {
        let bytes = self.read_byte_vec(1)?;
        let unsigned: u8 = bytes[0];
        if unsigned < 0x80 {
            Ok(unsigned as i8)
        } else {
            Ok(((unsigned - 0x80) as i8) + i8::MIN)
        }
    }

    /// Reads two bytes as an unsigned little-endian number.
    fn read_u16_le(&mut self) -> (r: Result<u16, DidNotReadEnough>)
        ensures
            match r {
                Ok(value) => delivered(old(self).remaining(), final(self).remaining(), 2)
                    && value as nat == le_value(old(self).remaining().take(2)),
                Err(e) => fell_short(
                    old(self).remaining(),
                    final(self).remaining(),
                    2,
                    e,
                ),
            },
    {
        let bytes = self.read_byte_vec(2)?;
        assert(bytes@.take(2) =~= bytes@);
        Ok(to_u16(bytes.as_slice()))
    }

    /// Reads two bytes as a signed little-endian number in two's complement.
    fn read_i16_le(&mut self) -> (r: Result<i16, DidNotReadEnough>)
        ensures
            match r {
                Ok(value) => delivered(old(self).remaining(), final(self).remaining(), 2)
                    && value as int == as_signed(
                    le_value(old(self).remaining().take(2)),
                    0x1_0000,
                ),
                Err(e) => fell_short(
                    old(self).remaining(),
                    final(self).remaining(),
                    2,
                    e,
                ),
            },
    {
        let bytes = self.read_byte_vec(2)?;
        assert(bytes@.take(2) =~= bytes@);
        Ok(to_i16(bytes.as_slice()))
    }

    /// Reads four bytes as an unsigned little-endian number.
    fn read_u32_le(&mut self) -> (r: Result<u32, DidNotReadEnough>)
        ensures
            match r {
                Ok(value) => delivered(old(self).remaining(), final(self).remaining(), 4)
                    && value as nat == le_value(old(self).remaining().take(4)),
                Err(e) => fell_short(
                    old(self).remaining(),
                    final(self).remaining(),
                    4,
                    e,
                ),
            },
    {
        let bytes = self.read_byte_vec(4)?;
        assert(bytes@.take(4) =~= bytes@);
        Ok(to_u32(bytes.as_slice()))
    }

    /// Reads four bytes as a signed little-endian number in two's complement.
    fn read_i32_le(&mut self) -> (r: Result<i32, DidNotReadEnough>)
        ensures
            match r {
                Ok(value) => delivered(old(self).remaining(), final(self).remaining(), 4)
                    && value as int == as_signed(
                    le_value(old(self).remaining().take(4)),
                    0x1_0000_0000,
                ),
                Err(e) => fell_short(
                    old(self).remaining(),
                    final(self).remaining(),
                    4,
                    e,
                ),
            },
    {
        let bytes = self.read_byte_vec(4)?;
        assert(bytes@.take(4) =~= bytes@);
        let unsigned: u32 = to_u32(bytes.as_slice());
        if unsigned < 0x8000_0000 {
            Ok(unsigned as i32)
        } else {
            Ok(((unsigned - 0x8000_0000) as i32) + i32::MIN)
        }
    }

    /// Reads eight bytes as an unsigned little-endian number.
    fn read_u64_le(&mut self) -> (r: Result<u64, DidNotReadEnough>)
        ensures
            match r {
                Ok(value) => delivered(old(self).remaining(), final(self).remaining(), 8)
                    && value as nat == le_value(old(self).remaining().take(8)),
                Err(e) => fell_short(
                    old(self).remaining(),
                    final(self).remaining(),
                    8,
                    e,
                ),
            },
    {
        let bytes = self.read_byte_vec(8)?;
        assert(bytes@.take(8) =~= bytes@);
        Ok(to_u64(bytes.as_slice()))
    }

    /// Reads eight bytes as a signed little-endian number in two's complement.
    fn read_i64_le(&mut self) -> (r: Result<i64, DidNotReadEnough>)
        ensures
            match r {
                Ok(value) => delivered(old(self).remaining(), final(self).remaining(), 8)
                    && value as int == as_signed(
                    le_value(old(self).remaining().take(8)),
                    0x1_0000_0000_0000_0000,
                ),
                Err(e) => fell_short(
                    old(self).remaining(),
                    final(self).remaining(),
                    8,
                    e,
                ),
            },
    {
        let bytes = self.read_byte_vec(8)?;
        assert(bytes@.take(8) =~= bytes@);
        let unsigned: u64 = to_u64(bytes.as_slice());
        if unsigned < 0x8000_0000_0000_0000 {
            Ok(unsigned as i64)
        } else {
            Ok(((unsigned - 0x8000_0000_0000_0000) as i64) + i64::MIN)
        }
    }

    /// Reads four bytes as they are.
    fn read_four_bytes(&mut self) -> (r: Result<[u8; 4], DidNotReadEnough>)
        ensures
            match r {
                Ok(bytes) => delivered(old(self).remaining(), final(self).remaining(), 4)
                    && bytes@ == old(self).remaining().take(4),
                Err(e) => fell_short(
                    old(self).remaining(),
                    final(self).remaining(),
                    4,
                    e,
                ),
            },
    {
        let bytes = self.read_byte_vec(4)?;
        let array: [u8; 4] = [bytes[0], bytes[1], bytes[2], bytes[3]];
        Ok(array)
    }

    /// Reads eight bytes as they are.
    fn read_eight_bytes(&mut self) -> (r: Result<[u8; 8], DidNotReadEnough>)
        ensures
            match r {
                Ok(bytes) => delivered(old(self).remaining(), final(self).remaining(), 8)
                    && bytes@ == old(self).remaining().take(8),
                Err(e) => fell_short(
                    old(self).remaining(),
                    final(self).remaining(),
                    8,
                    e,
                ),
            },
    {
        let bytes = self.read_byte_vec(8)?;
        let array: [u8; 8] = [
            bytes[0],
            bytes[1],
            bytes[2],
            bytes[3],
            bytes[4],
            bytes[5],
            bytes[6],
            bytes[7],
        ];
        Ok(array)
    }
}

/// A byte source over a slice held in memory. A read that fails takes nothing from
/// it.
pub struct SliceReader<'a> {
    data: &'a [u8],
    position: usize,
}

impl<'a> SliceReader<'a> {
    #[verifier::type_invariant]
    spec fn within_data(self) -> bool {
        self.position <= self.data@.len()
    }

    /// A source that will deliver the bytes of `data`, first to last.
    pub fn new(data: &'a [u8]) -> (reader: Self)
        ensures
            reader.remaining() == data@,
    {
        SliceReader { data, position: 0 }
    }

    /// The bytes that have not been delivered yet.
    pub fn remaining_bytes(&self) -> (bytes: &'a [u8])
        ensures
            bytes@ == self.remaining(),
    {
        proof {
            use_type_invariant(self);
        }
        let bytes = vstd::slice::slice_subrange(self.data, self.position, self.data.len());
        bytes
    }

    /// Whether every byte has been delivered.
    pub fn is_empty(&self) -> (empty: bool)
        ensures
            empty == (self.remaining().len() == 0),
    {
        proof {
            use_type_invariant(self);
        }
        self.position == self.data.len()
    }
}

impl<'a> ReadExt for SliceReader<'a> {
    closed spec fn remaining(&self) -> Seq<u8> {
        self.data@.skip(self.position as int)
    }

    fn read_byte_vec(&mut self, amount: usize) -> (r: Result<Vec<u8>, DidNotReadEnough>)
        ensures
            r is Err ==> final(self).remaining() == old(self).remaining(),
    {
        proof {
            use_type_invariant(&*self);
        }
        let left: usize = self.data.len() - self.position;
        if amount > left {
            assert(self.remaining().skip(0) =~= self.remaining());
            return Err(DidNotReadEnough { expected: amount, got: left });
        }
        let end: usize = self.position + amount;
        let bytes = vstd::slice::slice_to_vec(
            vstd::slice::slice_subrange(self.data, self.position, end),
        );
        assert(self.data@.skip(end as int) =~= self.remaining().skip(amount as int));
        self.position = end;
        Ok(bytes)
    }
}

} // verus!

use vstd::prelude::*;

verus! {

/// Packs values of up to eight bits into bytes, the first value into the
/// low bits of the first byte.
pub struct BitSquasher<'a> {
    sink: &'a mut [u8],
    byte: usize,
    bit: u8,
}

/// The byte `value` with the low bits of `input` set in it from bit `bit` on.
pub open spec fn low_part(value: u8, input: u8, bit: u8) -> u8 {
    value | (input << bit)
}

/// The byte `value` with the bits of `input` set in it that did not fit
/// into a byte from bit `bit` on.
pub open spec fn high_part(value: u8, input: u8, bit: u8) -> u8 {
    value | (input >> ((8 - bit) as u8))
}

/// The bytes after `count` bits of `input` have been packed into them
/// behind the first `bits` bits.
pub open spec fn squashed(bytes: Seq<u8>, bits: nat, input: u8, count: u8) -> Seq<u8> {
    let byte = (bits / 8) as int;
    let bit = (bits % 8) as u8;
    let first = bytes.update(byte, low_part(bytes[byte], input, bit));
    if 8 - bit < count {
        first.update(byte + 1, high_part(bytes[byte + 1], input, bit))
    } else {
        first
    }
}

/// Packs the `count` low bits of `input` into `sink` behind the bits up
/// to bit `bit` of byte `byte`; returns the place of the next bit.
pub fn squash_at(sink: &mut [u8], byte: usize, bit: u8, input: u8, count: u8) -> (next: (usize, u8))
    requires
        bit < 8,
        1 <= count <= 8,
        byte * 8 + bit + count <= 8 * old(sink)@.len(),
    ensures
        final(sink)@ == squashed(old(sink)@, (byte * 8 + bit) as nat, input, count),
        final(sink)@.len() == old(sink)@.len(),
        next.1 < 8,
        next.0 * 8 + next.1 == byte * 8 + bit + count,
{
    let low: u8 = sink[byte] | (input << bit);
    sink[byte] = low;
    if (8 - bit) < count {
        let high: u8 = sink[byte + 1] | (input >> (8 - bit));
        sink[byte + 1] = high;
    }
    let total: u8 = bit + count;
    (byte + (total / 8) as usize, total % 8)
}

impl<'a> BitSquasher<'a> {
    /// The bytes that are written to.
    pub closed spec fn bytes(self) -> Seq<u8> {
        self.sink@
    }

    /// The number of bits that are written already.
    pub closed spec fn bits_written(self) -> nat {
        (self.byte * 8 + self.bit) as nat
    }

    /// What holds of every squasher: the place of the next bit is kept as
    /// a byte and a bit below 8.
    pub closed spec fn wf(self) -> bool {
        self.bit < 8
    }

    /// A squasher that packs into `sink` from its first bit on.
    pub fn new(sink: &'a mut [u8]) -> (result: Self)
        ensures
            result.wf(),
            result.bytes() == old(sink)@,
            result.bits_written() == 0,
    {
        BitSquasher { sink, byte: 0, bit: 0 }
    }

    /// Packs the `count` low bits of `input` behind what is packed already.
    pub fn squash(&mut self, input: u8, count: u8)
        requires
            old(self).wf(),
            1 <= count <= 8,
            old(self).bits_written() + count <= 8 * old(self).bytes().len(),
        ensures
            final(self).wf(),
            final(self).bits_written() == old(self).bits_written() + count,
            final(self).bytes() == squashed(
                old(self).bytes(),
                old(self).bits_written(),
                input,
                count,
            ),
    {
        let next = squash_at(self.sink, self.byte, self.bit, input, count);
        self.byte = next.0;
        self.bit = next.1;
    }
}

} // verus!

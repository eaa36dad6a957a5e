//! A bitmap over a byte buffer: bit `i` is bit `i % 8` of byte `i / 8`.
use vstd::prelude::*;

verus! {

#[derive(Debug, Clone, PartialEq, Eq)]
pub struct Bitmap {
    pub buffer: Vec<u8>,
    pub size: usize,
}

/// Bit `index` of the buffer.
pub open spec fn spec_bit(buffer: Seq<u8>, index: int) -> bool {
    (buffer[index / 8] >> (index % 8) as u8) & 1 != 0
}

impl Bitmap {
    /// The declared size never exceeds the bits the buffer holds.
    pub open spec fn wf(self) -> bool {
        self.size <= 8 * self.buffer.len()
    }

    pub fn new(buffer: Vec<u8>, size: usize) -> (r: Self)
        requires
            size <= 8 * buffer.len(),
        ensures
            r.buffer == buffer,
            r.size == size,
            r.wf(),
    {
        Bitmap { buffer, size }
    }

    /// Read bit `index`.
    pub fn read(&self, index: usize) -> (r: bool)
        requires
            self.wf(),
            index < self.size,
        ensures
            r == spec_bit(self.buffer@, index as int),
    {
        proof {
            lemma_bit_index(index, self.buffer@.len() as int);
        }
        let byte_addr = index >> 3;
        let bit_addr = index & 0b111;
        let byte = self.buffer[byte_addr];
        ((byte >> (bit_addr as u8)) & 1) != 0
    }

    /// Set bit `index`.
    pub fn set(&mut self, index: usize)
        requires
            old(self).wf(),
            index < old(self).size,
        ensures
            final(self).size == old(self).size,
            final(self).buffer@ == old(self).buffer@.update(
                index as int / 8,
                (old(self).buffer@[index as int / 8] | (1u8 << (index as int % 8) as u8)) as u8,
            ),
            final(self).wf(),
            spec_bit(final(self).buffer@, index as int),
    {
        proof {
            lemma_bit_index(index, self.buffer@.len() as int);
        }
        let byte_addr = index >> 3;
        let bit_addr = index & 0b111;
        let read = self.buffer[byte_addr];
        self.buffer.set(byte_addr, read | (1u8 << (bit_addr as u8)));
        proof {
            let b = bit_addr as u8;
            assert(b < 8 ==> ((read | (1u8 << b)) >> b) & 1 != 0) by (bit_vector);
        }
    }

    /// Clear bit `index`.
    pub fn clear(&mut self, index: usize)
        requires
            old(self).wf(),
            index < old(self).size,
        ensures
            final(self).size == old(self).size,
            final(self).buffer@ == old(self).buffer@.update(
                index as int / 8,
                (old(self).buffer@[index as int / 8] & !(1u8 << (index as int % 8) as u8)) as u8,
            ),
            final(self).wf(),
            !spec_bit(final(self).buffer@, index as int),
    {
        proof {
            lemma_bit_index(index, self.buffer@.len() as int);
        }
        let byte_addr = index >> 3;
        let bit_addr = index & 0b111;
        let read = self.buffer[byte_addr];
        self.buffer.set(byte_addr, read & !(1u8 << (bit_addr as u8)));
        proof {
            let b = bit_addr as u8;
            assert(b < 8 ==> ((read & !(1u8 << b)) >> b) & 1 == 0) by (bit_vector);
        }
    }
}

/// Shifting and masking agree with division and remainder for the
/// byte/bit split, and the byte index is in bounds.
proof fn lemma_bit_index(index: usize, len: int)
    requires
        index < 8 * len,
    ensures
        index >> 3 == index / 8,
        index & 0b111 == index % 8,
        index / 8 < len,
        index % 8 < 8,
{
    assert(index >> 3 == index / 8 && index & 0b111 == index % 8 && index % 8 < 8)
        by (bit_vector);
    assert(index / 8 < len) by (nonlinear_arith)
        requires
            index < 8 * len,
    ;
}

} // verus!

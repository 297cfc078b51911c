//! Packed validity bitmaps.
//!
//! A column keeps one bit per row, least significant bit first within
//! each byte; a set bit marks a row with a value. The view is the
//! sequence of booleans the bitmap encodes.

use vstd::prelude::*;

verus! {

/// The flag of 0-based position `idx` in buffer `buf`, least significant
/// bit first; positions beyond the buffer read as clear.
pub open spec fn bitset_bit(buf: Seq<u8>, idx: int) -> bool {
    if idx / 8 >= buf.len() {
        false
    } else {
        buf[idx / 8] & (1u8 << ((idx % 8) as u8)) != 0
    }
}

/// A cleared byte has no bit set.
proof fn lemma_clear_byte(k: u8)
    by (bit_vector)
    ensures
        0u8 & (1u8 << k) == 0,
{
}

/// Or-ing in a single bit sets it and leaves every other bit alone.
proof fn lemma_or_bit(prev: u8, k: u8, j: u8)
    by (bit_vector)
    requires
        k < 8,
    ensures
        (prev | (1u8 << k)) & (1u8 << k) != 0,
        j < 8 && j != k ==> ((prev | (1u8 << k)) & (1u8 << j) != 0) == (prev & (1u8 << j) != 0),
{
}

/// Position `base * 8 + p` lands in byte `base` at bit `p`.
proof fn lemma_pos_div_mod(base: int, p: int, pos: int)
    by (nonlinear_arith)
    requires
        base >= 0,
        0 <= p < 8,
        pos == base * 8 + p,
    ensures
        pos / 8 == base,
        pos % 8 == p,
{
}

/// Two distinct positions in one byte have distinct bit offsets.
proof fn lemma_distinct_offsets(j: int, pos: int)
    by (nonlinear_arith)
    requires
        j >= 0,
        pos >= 0,
        j != pos,
        j / 8 == pos / 8,
    ensures
        j % 8 != pos % 8,
        0 <= j % 8 < 8,
{
}

/// A packed bitmap of one flag per row.
pub struct BitSet {
    buffer: Vec<u8>,
    len: usize,
}

impl View for BitSet {
    type V = Seq<bool>;

    closed spec fn view(&self) -> Seq<bool> {
        Seq::new(self.len as nat, |i: int| bitset_bit(self.buffer@, i))
    }
}

impl BitSet {
    /// The buffer holds exactly the bytes the length needs, with the
    /// unused trailing bits clear.
    pub closed spec fn wf(&self) -> bool {
        &&& self.buffer@.len() == (self.len + 7) / 8
        &&& forall|j: int|
            self.len <= j < self.buffer@.len() * 8 ==> !bitset_bit(self.buffer@, j)
    }

    pub fn new() -> (r: Self)
        ensures
            r.wf(),
            r@ == Seq::<bool>::empty(),
    {
        let r = BitSet { buffer: Vec::new(), len: 0 };
        proof {
            assert(r@ =~= Seq::<bool>::empty());
        }
        r
    }

    pub fn len(&self) -> (r: usize)
        ensures
            r == self@.len(),
    {
        self.len
    }

    /// Bytes the bitmap occupies.
    pub fn byte_len(&self) -> (r: usize)
        requires
            self.wf(),
        ensures
            r == (self@.len() + 7) / 8,
    {
        self.buffer.len()
    }

    /// Reads the flag at position `idx`.
    pub fn get(&self, idx: usize) -> (r: bool)
        requires
            self.wf(),
            idx < self@.len(),
        ensures
            r == self@[idx as int],
    {
        proof {
            assert(idx / 8 < self.buffer@.len()) by (nonlinear_arith)
                requires
                    idx < self.len,
                    self.buffer@.len() == (self.len + 7) / 8,
            ;
            assert(0 <= idx % 8 < 8) by (nonlinear_arith);
        }
        self.buffer[idx / 8] & (1u8 << ((idx % 8) as u8)) != 0
    }

    /// Appends one flag.
    pub fn push(&mut self, value: bool)
        requires
            old(self).wf(),
            old(self)@.len() < usize::MAX,
        ensures
            final(self).wf(),
            final(self)@ == old(self)@.push(value),
    {
        let ghost prev = *self;
        let pos = self.len;
        if pos % 8 == 0 {
            self.buffer.push(0u8);
            proof {
                assert((pos + 1 + 7) / 8 == pos / 8 + 1 && pos / 8 == prev.buffer@.len())
                    by (nonlinear_arith)
                    requires
                        pos % 8 == 0,
                        prev.buffer@.len() == (pos + 7) / 8,
                        pos < usize::MAX,
                ;
            }
        } else {
            proof {
                assert((pos + 1 + 7) / 8 == (pos + 7) / 8 && pos / 8 < self.buffer@.len())
                    by (nonlinear_arith)
                    requires
                        pos % 8 != 0,
                        pos >= 0,
                        self.buffer@.len() == (pos + 7) / 8,
                        pos < usize::MAX,
                ;
            }
        }
        let ghost mid = *self;
        proof {
            lemma_pos_div_mod((pos / 8) as int, (pos % 8) as int, pos as int);
            assert forall|j: int|
                0 <= j < mid.buffer@.len() * 8 && j / 8 < mid.buffer@.len() - 1 implies bitset_bit(
                mid.buffer@,
                j,
            ) == bitset_bit(prev.buffer@, j) by {
                assert(mid.buffer@[j / 8] == prev.buffer@[j / 8]);
            }
            assert forall|j: int| self.len <= j < self.buffer@.len() * 8 implies !bitset_bit(
                self.buffer@,
                j,
            ) by {
                if j / 8 == self.buffer@.len() - 1 && pos % 8 == 0 {
                    assert(self.buffer@[j / 8] == 0u8);
                    lemma_clear_byte(((j % 8) as u8));
                }
            }
        }
        if value {
            let byte_idx = pos / 8;
            let prev_byte = self.buffer[byte_idx];
            let new_byte = prev_byte | (1u8 << ((pos % 8) as u8));
            self.buffer[byte_idx] = new_byte;
            proof {
                lemma_or_bit(prev_byte, (pos % 8) as u8, 0);
                assert forall|j: int|
                    0 <= j < self.buffer@.len() * 8 && j != pos implies bitset_bit(self.buffer@, j)
                    == bitset_bit(mid.buffer@, j) by {
                    if j / 8 == pos / 8 {
                        lemma_distinct_offsets(j, pos as int);
                        lemma_or_bit(prev_byte, (pos % 8) as u8, (j % 8) as u8);
                    }
                }
                assert(bitset_bit(self.buffer@, pos as int));
            }
        }
        self.len = self.len + 1;
        proof {
            if !value {
                assert(!bitset_bit(self.buffer@, pos as int));
            }
            assert forall|j: int| self.len <= j < self.buffer@.len() * 8 implies !bitset_bit(
                self.buffer@,
                j,
            ) by {
                assert(bitset_bit(self.buffer@, j) == bitset_bit(mid.buffer@, j));
            }
            assert(self@ =~= prev@.push(value));
        }
    }

    /// Appends `count` clear flags, one per padded row.
    pub fn append_unset(&mut self, count: usize)
        requires
            old(self).wf(),
            old(self)@.len() + count <= usize::MAX,
        ensures
            final(self).wf(),
            final(self)@ == old(self)@ + Seq::new(count as nat, |i: int| false),
    {
        let mut i: usize = 0;
        while i < count
            invariant
                self.wf(),
                i <= count,
                self@.len() == old(self)@.len() + i,
                old(self)@.len() + count <= usize::MAX,
                self@ == old(self)@ + Seq::new(i as nat, |j: int| false),
            decreases count - i,
        {
            self.push(false);
            proof {
                assert(self@ =~= old(self)@ + Seq::new((i + 1) as nat, |j: int| false));
            }
            i = i + 1;
        }
    }

    /// Sets the flag at position `idx`.
    pub fn set(&mut self, idx: usize)
        requires
            old(self).wf(),
            idx < old(self)@.len(),
        ensures
            final(self).wf(),
            final(self)@ == old(self)@.update(idx as int, true),
    {
        let ghost prev = *self;
        proof {
            assert(idx / 8 < self.buffer@.len() && 0 <= idx % 8 < 8) by (nonlinear_arith)
                requires
                    idx < self.len,
                    self.buffer@.len() == (self.len + 7) / 8,
            ;
        }
        let byte_idx = idx / 8;
        let prev_byte = self.buffer[byte_idx];
        let new_byte = prev_byte | (1u8 << ((idx % 8) as u8));
        self.buffer[byte_idx] = new_byte;
        proof {
            lemma_or_bit(prev_byte, (idx % 8) as u8, 0);
            assert forall|j: int|
                0 <= j < self.buffer@.len() * 8 && j != idx implies bitset_bit(self.buffer@, j)
                == bitset_bit(prev.buffer@, j) by {
                if j / 8 == idx / 8 {
                    lemma_distinct_offsets(j, idx as int);
                    lemma_or_bit(prev_byte, (idx % 8) as u8, (j % 8) as u8);
                }
            }
            assert(bitset_bit(self.buffer@, idx as int));
            assert forall|j: int| self.len <= j < self.buffer@.len() * 8 implies !bitset_bit(
                self.buffer@,
                j,
            ) by {
                assert(bitset_bit(self.buffer@, j) == bitset_bit(prev.buffer@, j));
                assert(!bitset_bit(prev.buffer@, j));
            }
            assert(self@ =~= prev@.update(idx as int, true));
        }
    }
}

} // verus!

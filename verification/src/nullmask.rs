//! Null masks in the wire batch format.
//!
//! A null mask is a byte vector with one bit per row, most significant
//! bit first within each byte; a set bit marks a null row. The builder
//! grows a mask bit by bit while a batch column is assembled, and
//! `is_null_value` reads one row's flag out of an optional mask, where a
//! missing mask means no row is null.

use vstd::prelude::*;

verus! {

/// The null flag of 0-based row `idx` in mask bytes `mask`: most
/// significant bit first, and rows beyond the mask count as null.
pub open spec fn null_bit(mask: Seq<u8>, idx: int) -> bool {
    if idx / 8 >= mask.len() {
        true
    } else {
        mask[idx / 8] & (0x80u8 >> ((idx % 8) as u8)) != 0
    }
}

/// Whether 1-based row `row` is null under the given optional mask.
/// A missing mask means every row is present.
pub open spec fn spec_is_null_value(row: int, mask: Option<Seq<u8>>) -> bool {
    match mask {
        Option::Some(m) => null_bit(m, row - 1),
        Option::None => false,
    }
}

/// A cleared byte has no bit set.
proof fn lemma_zero_byte(k: u8)
    by (bit_vector)
    ensures
        0u8 & (0x80u8 >> k) == 0,
{
}

/// Adding a power of two whose bit is clear sets exactly that bit.
proof fn lemma_set_bit(prev: u8, k: u8, j: u8)
    by (bit_vector)
    requires
        k < 8,
        prev & (0x80u8 >> k) == 0,
    ensures
        prev + (0x80u8 >> k) <= 255,
        ((prev + (0x80u8 >> k)) as u8) & (0x80u8 >> k) != 0,
        j < 8 && j != k ==> (((prev + (0x80u8 >> k)) as u8) & (0x80u8 >> j) != 0) == (prev & (
        0x80u8 >> j) != 0),
{
}

/// The row right after `len - 1` full bytes plus `p` bits lands in the
/// last byte at bit `p`.
proof fn lemma_row_div_mod(len: int, p: int, row: int)
    by (nonlinear_arith)
    requires
        len >= 1,
        0 <= p < 8,
        row == len * 8 - 8 + p,
    ensures
        row / 8 == len - 1,
        row % 8 == p,
{
}

/// Two distinct positions in one byte have distinct bit offsets.
proof fn lemma_same_byte(j: int, row: int)
    by (nonlinear_arith)
    requires
        j >= 0,
        row >= 0,
        j != row,
        j / 8 == row / 8,
    ensures
        j % 8 != row % 8,
        0 <= j % 8 < 8,
{
}

/// Reads the null flag of 1-based row `row` from an optional mask.
pub fn is_null_value(row: usize, mask: &Option<&[u8]>) -> (r: bool)
    requires
        mask matches Option::Some(_) ==> row >= 1,
    ensures
        r == spec_is_null_value(
            row as int,
            match *mask {
                Option::Some(m) => Option::Some(m@),
                Option::None => Option::None,
            },
        ),
{
    match mask {
        Option::Some(m) => {
            let mut position: usize = row % 8;
            let mut byte: usize = row / 8;

            if position == 0 {
                byte = byte - 1;
                position = 8;
            }

            proof {
                assert(byte == (row - 1) / 8 && position - 1 == (row - 1) % 8)
                    by (nonlinear_arith)
                    requires
                        row >= 1,
                        (row % 8 == 0 ==> byte == row / 8 - 1 && position == 8),
                        (row % 8 != 0 ==> byte == row / 8 && position == row % 8),
                ;
            }

            if byte >= m.len() {
                return true;
            }

            m[byte] & (0x80u8 >> ((position - 1) as u8)) != 0
        },
        Option::None => false,
    }
}

/// Builds a null mask row by row, most significant bit first.
///
/// Its view is the sequence of null flags pushed so far.
pub struct NullMaskBuilder {
    bytes: Vec<u8>,
    position: usize,
}

impl View for NullMaskBuilder {
    type V = Seq<bool>;

    closed spec fn view(&self) -> Seq<bool> {
        Seq::new(self.spec_row_count() as nat, |i: int| null_bit(self.bytes@, i))
    }
}

impl NullMaskBuilder {
    /// Number of rows recorded so far.
    pub closed spec fn spec_row_count(&self) -> int {
        self.bytes@.len() * 8 - 8 + self.position - 1
    }

    /// The builder's bytes always cover exactly the rows pushed so far,
    /// and the unused trailing bits of the last byte stay clear.
    pub closed spec fn wf(&self) -> bool {
        &&& self.bytes@.len() >= 1
        &&& 1 <= self.position <= 9
        &&& (self.position == 1 ==> self.bytes@.len() == 1)
        &&& forall|j: int|
            self.spec_row_count() <= j < self.bytes@.len() * 8 ==> !null_bit(self.bytes@, j)
    }

    /// The raw mask bytes built so far.
    pub closed spec fn spec_bytes(&self) -> Seq<u8> {
        self.bytes@
    }

    /// Every recorded flag is readable back out of the raw bytes, and
    /// the bytes cover the rows with less than one spare byte.
    pub proof fn lemma_bytes_encode(&self)
        requires
            self.wf(),
        ensures
            self@.len() <= self.spec_bytes().len() * 8,
            self.spec_bytes().len() * 8 <= self@.len() + 8,
            self@.len() > 0 ==> self.spec_bytes().len() == (self@.len() + 7) / 8,
            forall|i: int| 0 <= i < self@.len() ==> self@[i] == null_bit(self.spec_bytes(), i),
    {
        if self@.len() > 0 {
            assert(self.position >= 2);
            let len = self@.len() as int;
            let bl = self.bytes@.len() as int;
            assert(bl == (len + 7) / 8) by (nonlinear_arith)
                requires
                    bl * 8 - 8 + self.position - 1 == len,
                    2 <= self.position <= 9,
                    bl >= 1,
            ;
        }
    }

    pub fn new() -> (r: Self)
        ensures
            r.wf(),
            r@ == Seq::<bool>::empty(),
    {
        let r = NullMaskBuilder { bytes: vec![0u8], position: 1 };
        proof {
            assert forall|j: int| 0 <= j < 8 implies !null_bit(r.bytes@, j) by {
                lemma_zero_byte(((j % 8) as u8));
            }
            assert(r@ =~= Seq::<bool>::empty());
        }
        r
    }

    pub fn push(&mut self, is_null: bool)
        requires
            old(self).wf(),
        ensures
            final(self).wf(),
            final(self)@ == old(self)@.push(is_null),
    {
        let ghost prev = *self;
        if self.position > 8 {
            self.bytes.push(0u8);
            self.position = 1;
            proof {
                assert forall|j: int|
                    0 <= j < self.bytes@.len() * 8 && j / 8 < self.bytes@.len() - 1 implies null_bit(
                    self.bytes@,
                    j,
                ) == null_bit(prev.bytes@, j) by {
                    assert(self.bytes@[j / 8] == prev.bytes@[j / 8]);
                }
                assert forall|j: int|
                    self.spec_row_count() <= j < self.bytes@.len() * 8 implies !null_bit(
                    self.bytes@,
                    j,
                ) by {
                    if j / 8 == self.bytes@.len() - 1 {
                        assert(self.bytes@[j / 8] == 0u8);
                        lemma_zero_byte(((j % 8) as u8));
                    }
                }
                assert(self@ =~= prev@);
            }
        }
        let ghost mid = *self;
        let ghost row = mid.spec_row_count();
        let ghost k = (mid.position - 1) as int;
        proof {
            lemma_row_div_mod(mid.bytes@.len() as int, k, row);
        }

        if is_null {
            let last_byte_position = self.bytes.len() - 1;
            let prev_byte = self.bytes[last_byte_position];
            proof {
                assert(!null_bit(self.bytes@, row));
                lemma_set_bit(prev_byte, k as u8, 0);
            }
            let val: u8 = 0x80u8 >> ((self.position - 1) as u8);
            let new_byte = prev_byte + val;
            self.bytes[last_byte_position] = new_byte;
        }
        self.position = self.position + 1;

        proof {
            let last = mid.bytes@.len() - 1;
            assert forall|j: int| 0 <= j < self.bytes@.len() * 8 && j != row implies null_bit(
                self.bytes@,
                j,
            ) == null_bit(mid.bytes@, j) by {
                if is_null && j / 8 == last {
                    lemma_same_byte(j, row);
                    let pb = mid.bytes@[last];
                    lemma_set_bit(pb, k as u8, (j % 8) as u8);
                }
            }
            if is_null {
                let pb = mid.bytes@[last];
                lemma_set_bit(pb, k as u8, 0);
                assert(null_bit(self.bytes@, row));
            } else {
                assert(!null_bit(self.bytes@, row));
            }
            assert forall|j: int|
                self.spec_row_count() <= j < self.bytes@.len() * 8 implies !null_bit(
                self.bytes@,
                j,
            ) by {
                assert(null_bit(self.bytes@, j) == null_bit(mid.bytes@, j));
                assert(!null_bit(mid.bytes@, j));
            }
            assert(self@ =~= mid@.push(is_null));
            assert(mid@ == old(self)@);
        }
    }

    /// The raw mask bytes built so far.
    pub fn mask_bytes(&self) -> (r: &Vec<u8>)
        ensures
            r@ == self.spec_bytes(),
    {
        &self.bytes
    }

    /// The recorded flags as one boolean per row.
    pub fn to_bool_vec(&self) -> (r: Vec<bool>)
        requires
            self.wf(),
            self@.len() + 8 <= usize::MAX,
        ensures
            r@ == self@,
    {
        let n = self.row_count();
        let mut r: Vec<bool> = Vec::new();
        let mut row: usize = 1;
        while row <= n
            invariant
                self.wf(),
                self@.len() + 8 <= usize::MAX,
                n == self@.len(),
                1 <= row <= n + 1,
                r@.len() == row - 1,
                forall|i: int| 0 <= i < row - 1 ==> r@[i] == self@[i],
            decreases n + 1 - row,
        {
            r.push(is_null_value(row, &Some(self.bytes.as_slice())));
            proof {
                self.lemma_bytes_encode();
            }
            row = row + 1;
        }
        proof {
            assert(r@ =~= self@);
        }
        r
    }

    /// Number of rows recorded so far.
    pub fn row_count(&self) -> (r: usize)
        requires
            self.wf(),
            self@.len() + 8 <= usize::MAX,
        ensures
            r == self@.len(),
    {
        (self.bytes.len() - 1) * 8 + self.position - 1
    }

    /// Whether any pushed flag was a null.
    pub fn has_nulls(&self) -> (r: bool)
        requires
            self.wf(),
        ensures
            r == exists|i: int| 0 <= i < self@.len() && self@[i],
    {
        let mut bi: usize = 0;
        while bi < self.bytes.len()
            invariant
                self.wf(),
                0 <= bi <= self.bytes@.len(),
                forall|j: int| 0 <= j < bi * 8 ==> !null_bit(self.bytes@, j),
            decreases self.bytes@.len() - bi,
        {
            let b = self.bytes[bi];
            if b > 0 {
                let mut kb: usize = 0;
                while kb < 8
                    invariant
                        0 <= kb <= 8,
                        b == self.bytes@[bi as int],
                        bi < self.bytes@.len(),
                        self.wf(),
                        forall|j: u8| j < kb ==> b & (0x80u8 >> j) == 0,
                    decreases 8 - kb,
                {
                    if b & (0x80u8 >> (kb as u8)) != 0 {
                        proof {
                            self.lemma_bytes_encode();
                            let idx = bi * 8 + kb as int;
                            assert(idx / 8 == bi as int && idx % 8 == kb as int)
                                by (nonlinear_arith)
                                requires
                                    idx == bi * 8 + kb,
                                    0 <= kb < 8,
                                    0 <= bi,
                            ;
                            assert(null_bit(self.bytes@, idx));
                            assert(idx < self@.len());
                            assert(self@[idx]);
                        }
                        return true;
                    }
                    kb = kb + 1;
                }
                proof {
                    assert(b & (0x80u8 >> 0) == 0 && b & (0x80u8 >> 1) == 0 && b & (0x80u8 >> 2)
                        == 0 && b & (0x80u8 >> 3) == 0 && b & (0x80u8 >> 4) == 0 && b & (0x80u8
                        >> 5) == 0 && b & (0x80u8 >> 6) == 0 && b & (0x80u8 >> 7) == 0 ==> b == 0)
                        by (bit_vector);
                    assert(b == 0);
                }
            }
            proof {
                assert forall|j: int| bi * 8 <= j < (bi + 1) * 8 implies !null_bit(
                    self.bytes@,
                    j,
                ) by {
                    assert(j / 8 == bi as int) by (nonlinear_arith)
                        requires
                            bi * 8 <= j < bi * 8 + 8,
                            0 <= bi,
                    ;
                    lemma_zero_byte(((j % 8) as u8));
                }
            }
            bi = bi + 1;
        }
        proof {
            self.lemma_bytes_encode();
            assert forall|i: int| 0 <= i < self@.len() implies !self@[i] by {
                assert(!null_bit(self.bytes@, i));
            }
        }
        false
    }
}

} // verus!

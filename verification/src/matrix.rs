//! The pixel buffer: one column per number, one row per binary digit.

use crate::bignum::{
    biguint_bits, bit_at, canonical, count_ones, lemma_bit_length, lemma_max_bits,
    lemma_msb_digits_count, lemma_msb_digits_value, max_bits, msb_digits, nat_of_bits,
    nat_of_digits, test_bit, widest,
};
use num_bigint::BigUint;
use vstd::arithmetic::power2::{lemma_pow2_strictly_increases, pow2};
use vstd::prelude::*;

verus! {

/// Intensity of a pixel that stands for a set digit.
pub const LIT: u8 = 255;

/// Intensity of a pixel that stands for a clear digit.
pub const UNLIT: u8 = 0;

/// Why no matrix could be built.
#[derive(Clone, Copy, Debug, PartialEq, Eq, Structural)]
pub enum BuildError {
    /// The sequence holds no number, so the height is undefined.
    EmptySequence,
    /// The buffer of `width * height` pixels cannot be addressed.
    TooLarge,
}

/// A dense single-channel image, stored row by row, top row first.
pub struct BitMatrix {
    width: usize,
    height: usize,
    pixels: Vec<u8>,
}

/// Position of cell `(x, y)` in a row-major buffer of the given width.
pub open spec fn cell_index(width: nat, x: int, y: int) -> int {
    x + width * y
}

/// The intensity that cell `(x, y)` of a matrix of the given height has for
/// the sequence `seq`: row 0 is the most significant digit of the widest number.
pub open spec fn pixel_of(seq: Seq<BigUint>, height: nat, x: int, y: int) -> u8 {
    if bit_at(biguint_bits(seq[x]), height - 1 - y) {
        LIT
    } else {
        UNLIT
    }
}

/// Whether the buffer for `seq` can be addressed on this machine.
pub open spec fn fits(seq: Seq<BigUint>) -> bool {
    seq.len() * max_bits(seq) <= usize::MAX
}

/// Every cell of a matrix has its place inside the buffer.
pub proof fn lemma_cell_index_bounds(width: nat, height: nat, x: int, y: int)
    requires
        0 <= x < width,
        0 <= y < height,
    ensures
        0 <= cell_index(width, x, y) < width * height,
{
    assert(width * y <= width * (height - 1)) by (nonlinear_arith)
        requires
            0 <= y <= height - 1,
    ;
    assert(width * (height - 1) == width * height - width) by (nonlinear_arith);
    assert(0 <= width * y) by (nonlinear_arith)
        requires
            0 <= y,
    ;
}

/// No two cells share a place in the buffer.
pub proof fn lemma_cell_index_injective(width: nat, x1: int, y1: int, x2: int, y2: int)
    requires
        0 <= x1 < width,
        0 <= x2 < width,
        cell_index(width, x1, y1) == cell_index(width, x2, y2),
    ensures
        x1 == x2,
        y1 == y2,
{
    if y1 < y2 {
        assert(width * y2 >= width * y1 + width) by (nonlinear_arith)
            requires
                y1 + 1 <= y2,
        ;
    } else if y2 < y1 {
        assert(width * y1 >= width * y2 + width) by (nonlinear_arith)
            requires
                y2 + 1 <= y1,
        ;
    }
}

impl BitMatrix {
    /// Number of columns.
    pub closed spec fn spec_width(&self) -> nat {
        self.width as nat
    }

    /// Number of rows.
    pub closed spec fn spec_height(&self) -> nat {
        self.height as nat
    }

    /// The pixels, row by row.
    pub closed spec fn buffer(&self) -> Seq<u8> {
        self.pixels@
    }

    /// The buffer holds exactly `width * height` pixels, each lit or unlit.
    #[verifier::type_invariant]
    pub closed spec fn wf(&self) -> bool {
        &&& self.pixels@.len() == self.width * self.height
        &&& forall|i: int| 0 <= i < self.pixels@.len() ==> self.pixels@[i] == LIT || self.pixels@[i] == UNLIT
    }

    /// Intensity of cell `(x, y)`.
    pub open spec fn cell(&self, x: int, y: int) -> u8 {
        self.buffer()[cell_index(self.spec_width(), x, y)]
    }

    /// Whether cell `(x, y)` is lit.
    pub open spec fn lit(&self, x: int, y: int) -> bool {
        self.cell(x, y) == LIT
    }

    /// Column `x` from the top row down: the digits of one number, most
    /// significant first.
    pub open spec fn column(&self, x: int) -> Seq<bool> {
        Seq::new(self.spec_height(), |y: int| self.lit(x, y))
    }

    /// The matrix is the image of `seq`: as wide as the sequence is long, as
    /// high as its widest number, and cell `(x, y)` is lit exactly if digit
    /// `height - 1 - y` of number `x` is set.
    pub open spec fn shows(&self, seq: Seq<BigUint>) -> bool {
        &&& self.wf()
        &&& self.spec_width() == seq.len()
        &&& self.spec_height() == max_bits(seq)
        &&& self.buffer().len() == seq.len() * max_bits(seq)
        &&& forall|x: int, y: int|
            0 <= x < self.spec_width() && 0 <= y < self.spec_height() ==> #[trigger] self.cell(x, y)
                == pixel_of(seq, self.spec_height(), x, y)
        &&& forall|x: int| 0 <= x < seq.len() ==> canonical(#[trigger] biguint_bits(seq[x]))
    }

    /// Number of columns.
    pub fn width(&self) -> (r: usize)
        ensures
            r == self.spec_width(),
    {
        self.width
    }

    /// Number of rows.
    pub fn height(&self) -> (r: usize)
        ensures
            r == self.spec_height(),
    {
        self.height
    }

    /// The pixels, row by row from the top, each `LIT` or `UNLIT`.
    pub fn pixels(&self) -> (r: &Vec<u8>)
        ensures
            r@ == self.buffer(),
            r@.len() == self.spec_width() * self.spec_height(),
            forall|i: int| 0 <= i < r@.len() ==> r@[i] == LIT || r@[i] == UNLIT,
    {
        proof {
            use_type_invariant(self);
        }
        &self.pixels
    }

    /// Whether cell `(x, y)` is lit; `None` outside the matrix.
    pub fn get(&self, x: usize, y: usize) -> (r: Option<bool>)
        ensures
            r == if x < self.spec_width() && y < self.spec_height() {
                Some(self.lit(x as int, y as int))
            } else {
                None
            },
    {
        proof {
            use_type_invariant(self);
        }
        let size = self.pixels.len();
        if x < self.width && y < self.height {
            proof {
                lemma_cell_index_bounds(self.width as nat, self.height as nat, x as int, y as int);
                assert(self.width * y >= 0) by (nonlinear_arith);
                assert(cell_index(self.width as nat, x as int, y as int) < size);
            }
            Some(self.pixels[x + self.width * y] == LIT)
        } else {
            None
        }
    }

    /// Builds the image of `sequence`.
    pub fn build(sequence: &Vec<BigUint>) -> (r: Result<BitMatrix, BuildError>)
        ensures
            match r {
                Ok(m) => sequence@.len() > 0 && fits(sequence@) && m.shows(sequence@),
                Err(BuildError::EmptySequence) => sequence@.len() == 0,
                Err(BuildError::TooLarge) => sequence@.len() > 0 && !fits(sequence@),
            },
    {
        let width = sequence.len();
        if width == 0 {
            return Err(BuildError::EmptySequence);
        }
        let tallest = widest(sequence);
        if tallest > usize::MAX as u64 {
            proof {
                assert(width * tallest >= tallest) by (nonlinear_arith)
                    requires
                        width >= 1,
                        tallest >= 0,
                ;
            }
            return Err(BuildError::TooLarge);
        }
        let height = tallest as usize;
        let size = match width.checked_mul(height) {
            Some(size) => size,
            None => {
                return Err(BuildError::TooLarge);
            },
        };
        let mut pixels = vec![UNLIT; size];
        let mut x: usize = 0;
        while x < width
            invariant
                x <= width,
                width == sequence@.len(),
                height == max_bits(sequence@),
                size == width * height,
                pixels@.len() == size,
                forall|i: int| 0 <= i < size ==> pixels@[i] == LIT || pixels@[i] == UNLIT,
                forall|cx: int, cy: int|
                    0 <= cx < x && 0 <= cy < height ==> pixels@[#[trigger] cell_index(
                        width as nat,
                        cx,
                        cy,
                    )] == pixel_of(sequence@, height as nat, cx, cy),
            decreases width - x,
        {
            let number = &sequence[x];
            let mut y: usize = 0;
            while y < height
                invariant
                    x < width,
                    y <= height,
                    width == sequence@.len(),
                    height == max_bits(sequence@),
                    size == width * height,
                    pixels@.len() == size,
                    *number == sequence@[x as int],
                    forall|i: int| 0 <= i < size ==> pixels@[i] == LIT || pixels@[i] == UNLIT,
                    forall|cx: int, cy: int|
                        0 <= cx < x && 0 <= cy < height ==> pixels@[#[trigger] cell_index(
                            width as nat,
                            cx,
                            cy,
                        )] == pixel_of(sequence@, height as nat, cx, cy),
                    forall|cy: int|
                        0 <= cy < y ==> pixels@[#[trigger] cell_index(width as nat, x as int, cy)]
                            == pixel_of(sequence@, height as nat, x as int, cy),
                decreases height - y,
            {
                let digit = height - y - 1;
                let value = if test_bit(number, digit as u64) {
                    LIT
                } else {
                    UNLIT
                };
                proof {
                    lemma_cell_index_bounds(width as nat, height as nat, x as int, y as int);
                }
                let ghost target = cell_index(width as nat, x as int, y as int);
                pixels.set(x + width * y, value);
                proof {
                    assert forall|cx: int, cy: int| 0 <= cx < x && 0 <= cy < height implies pixels@[#[trigger] cell_index(
                        width as nat,
                        cx,
                        cy,
                    )] == pixel_of(sequence@, height as nat, cx, cy) by {
                        lemma_cell_index_bounds(width as nat, height as nat, cx, cy);
                        if cell_index(width as nat, cx, cy) == target {
                            lemma_cell_index_injective(width as nat, cx, cy, x as int, y as int);
                        }
                    }
                    assert forall|cy: int| 0 <= cy < y + 1 implies pixels@[#[trigger] cell_index(
                        width as nat,
                        x as int,
                        cy,
                    )] == pixel_of(sequence@, height as nat, x as int, cy) by {
                        lemma_cell_index_bounds(width as nat, height as nat, x as int, cy);
                        if cy != y && cell_index(width as nat, x as int, cy) == target {
                            lemma_cell_index_injective(width as nat, x as int, cy, x as int, y as int);
                        }
                    }
                }
                y += 1;
            }
            x += 1;
        }
        Ok(BitMatrix { width, height, pixels })
    }
}

/// A column of the image of `seq` is the digit sequence of its number, most
/// significant digit first, under leading zeros up to the common height.
pub proof fn lemma_column_digits(m: BitMatrix, seq: Seq<BigUint>, x: int)
    requires
        m.shows(seq),
        0 <= x < seq.len(),
    ensures
        biguint_bits(seq[x]).len() <= m.spec_height(),
        m.column(x) == msb_digits(biguint_bits(seq[x]), m.spec_height()),
{
    lemma_max_bits(seq);
    let digits = msb_digits(biguint_bits(seq[x]), m.spec_height());
    assert forall|y: int| 0 <= y < m.spec_height() implies m.column(x)[y] == digits[y] by {
        assert(m.cell(x, y) == pixel_of(seq, m.spec_height(), x, y));
    }
    assert(m.column(x) =~= digits);
}

/// The image is as wide as the sequence is long, and its height is the bit
/// length of the largest number: every number is below `2^height`, and, unless
/// all are zero, one of them is at least `2^(height-1)`.
pub proof fn lemma_dimensions(m: BitMatrix, seq: Seq<BigUint>)
    requires
        m.shows(seq),
    ensures
        m.spec_width() == seq.len(),
        m.spec_height() == max_bits(seq),
        forall|x: int|
            0 <= x < seq.len() ==> nat_of_bits(#[trigger] biguint_bits(seq[x])) < pow2(
                m.spec_height(),
            ),
        m.spec_height() > 0 ==> exists|x: int|
            0 <= x < seq.len() && pow2((m.spec_height() - 1) as nat) <= nat_of_bits(
                #[trigger] biguint_bits(seq[x]),
            ),
{
    lemma_max_bits(seq);
    assert forall|x: int| 0 <= x < seq.len() implies nat_of_bits(#[trigger] biguint_bits(seq[x]))
        < pow2(m.spec_height()) by {
        let bits = biguint_bits(seq[x]);
        lemma_bit_length(bits);
        if bits.len() < m.spec_height() {
            lemma_pow2_strictly_increases(bits.len(), m.spec_height());
        }
    }
    if m.spec_height() > 0 {
        let x = choose|x: int|
            0 <= x < seq.len() && (#[trigger] biguint_bits(seq[x])).len() == max_bits(seq);
        lemma_bit_length(biguint_bits(seq[x]));
    }
}

/// Column `x` has as many lit pixels as number `x` has set digits, and the
/// rows above the number's own bit length are unlit.
pub proof fn lemma_column_count(m: BitMatrix, seq: Seq<BigUint>, x: int)
    requires
        m.shows(seq),
        0 <= x < seq.len(),
    ensures
        count_ones(m.column(x)) == count_ones(biguint_bits(seq[x])),
        forall|y: int| 0 <= y < m.spec_height() - biguint_bits(seq[x]).len() ==> !m.lit(x, y),
{
    lemma_column_digits(m, seq, x);
    lemma_msb_digits_count(biguint_bits(seq[x]), m.spec_height());
    assert forall|y: int| 0 <= y < m.spec_height() - biguint_bits(seq[x]).len() implies !m.lit(
        x,
        y,
    ) by {
        assert(m.column(x)[y] == m.lit(x, y));
    }
}

/// Reading column `x` from the top row down as a binary numeral gives back
/// number `x`.
pub proof fn lemma_column_round_trip(m: BitMatrix, seq: Seq<BigUint>, x: int)
    requires
        m.shows(seq),
        0 <= x < seq.len(),
    ensures
        nat_of_digits(m.column(x)) == nat_of_bits(biguint_bits(seq[x])),
{
    lemma_column_digits(m, seq, x);
    lemma_msb_digits_value(biguint_bits(seq[x]), m.spec_height());
}

} // verus!

//! The overview strip: one bar per number, as high as the number is wide,
//! and a highlight over the columns that the main view shows.
//!
//! All coordinates are fractions of the strip's width and height, so the
//! overview does not depend on the size at which it is drawn.

use crate::bignum::{biguint_bits, bit_length, lemma_max_bits, max_bits, widest};
use num_bigint::BigUint;
use vstd::prelude::*;

verus! {

/// The fraction `num / den` of a unit length.
#[derive(Clone, Copy, Debug, PartialEq, Eq, Structural)]
pub struct Fraction {
    pub num: u64,
    pub den: u64,
}

impl Fraction {
    /// The fraction is defined and lies between 0 and 1.
    pub open spec fn in_unit(&self) -> bool {
        0 < self.den && self.num <= self.den
    }
}

/// A bar that stands on the lower edge of the strip.
#[derive(Clone, Copy, Debug, PartialEq, Eq, Structural)]
pub struct Bar {
    pub left: Fraction,
    pub width: Fraction,
    pub height: Fraction,
}

/// A rectangle over the full height of the strip.
#[derive(Clone, Copy, Debug, PartialEq, Eq, Structural)]
pub struct Highlight {
    pub left: Fraction,
    pub width: Fraction,
}

/// What to draw for the overview: the bars from left to right, then the
/// highlight on top of them.
pub struct Overview {
    pub bars: Vec<Bar>,
    pub highlight: Highlight,
}

/// The overview of a sequence, with the window of the main view.
pub struct Minimap<'a> {
    sequence: &'a Vec<BigUint>,
    xoffset: usize,
    visible_width: usize,
}

/// The denominator of the bar heights: the width of the widest number, or 1
/// where every number is zero.
pub open spec fn height_unit(seq: Seq<BigUint>) -> u64 {
    if max_bits(seq) == 0 {
        1
    } else {
        max_bits(seq) as u64
    }
}

/// Bar `i` of the overview of `seq`: it starts at `i / n`, is `1 / n` wide,
/// and its height is the bit length of number `i` over that of the widest.
pub open spec fn bar_of(seq: Seq<BigUint>, i: int) -> Bar {
    Bar {
        left: Fraction { num: i as u64, den: seq.len() as u64 },
        width: Fraction { num: 1, den: seq.len() as u64 },
        height: Fraction { num: biguint_bits(seq[i]).len() as u64, den: height_unit(seq) },
    }
}

/// The highlight over `visible` columns from column `offset` on, of `n`
/// columns in all; what would leave the strip is cut off.
pub open spec fn highlight_of(n: usize, offset: usize, visible: usize) -> Highlight {
    let left = if offset <= n {
        offset
    } else {
        n
    };
    let width = if visible <= n - left {
        visible
    } else {
        (n - left) as usize
    };
    Highlight {
        left: Fraction { num: left as u64, den: n as u64 },
        width: Fraction { num: width as u64, den: n as u64 },
    }
}

/// The sum of the numerators of the bars' widths.
pub open spec fn total_width(bars: Seq<Bar>) -> nat
    decreases bars.len(),
{
    if bars.len() == 0 {
        0
    } else {
        total_width(bars.drop_last()) + bars.last().width.num as nat
    }
}

impl Overview {
    /// This is the overview of `seq` with `visible` columns shown from column
    /// `offset` on.
    pub open spec fn depicts(&self, seq: Seq<BigUint>, offset: usize, visible: usize) -> bool {
        &&& seq.len() <= usize::MAX
        &&& max_bits(seq) <= u64::MAX
        &&& self.bars@.len() == seq.len()
        &&& forall|i: int| 0 <= i < seq.len() ==> #[trigger] self.bars@[i] == bar_of(seq, i)
        &&& self.highlight == highlight_of(seq.len() as usize, offset, visible)
    }
}

impl<'a> Minimap<'a> {
    /// The numbers that the overview is of.
    pub closed spec fn numbers(&self) -> Seq<BigUint> {
        self.sequence@
    }

    /// The first column that the main view shows.
    pub closed spec fn offset(&self) -> usize {
        self.xoffset
    }

    /// The number of columns that the main view shows.
    pub closed spec fn visible(&self) -> usize {
        self.visible_width
    }

    /// An overview of `sequence`, of which the main view shows
    /// `visible_width` columns from column `xoffset` on.
    pub fn new(sequence: &'a Vec<BigUint>, xoffset: usize, visible_width: usize) -> (r: Self)
        ensures
            r.numbers() == sequence@,
            r.offset() == xoffset,
            r.visible() == visible_width,
    {
        Self { sequence, xoffset, visible_width }
    }

    /// Lays the overview out. There is none of an empty sequence.
    pub fn draw(&self) -> (r: Option<Overview>)
        ensures
            match r {
                Some(overview) => self.numbers().len() > 0 && overview.depicts(
                    self.numbers(),
                    self.offset(),
                    self.visible(),
                ),
                None => self.numbers().len() == 0,
            },
    {
        let n = self.sequence.len();
        if n == 0 {
            return None;
        }
        let widest = widest(self.sequence);
        let unit = if widest == 0 {
            1
        } else {
            widest
        };
        let mut bars: Vec<Bar> = Vec::with_capacity(n);
        let mut i: usize = 0;
        while i < n
            invariant
                i <= n,
                n == self.sequence@.len(),
                unit == height_unit(self.sequence@),
                bars@.len() == i,
                forall|j: int| 0 <= j < i ==> #[trigger] bars@[j] == bar_of(self.sequence@, j),
            decreases n - i,
        {
            let bits = bit_length(&self.sequence[i]);
            bars.push(
                Bar {
                    left: Fraction { num: i as u64, den: n as u64 },
                    width: Fraction { num: 1, den: n as u64 },
                    height: Fraction { num: bits, den: unit },
                },
            );
            i += 1;
        }
        let left = if self.xoffset <= n {
            self.xoffset
        } else {
            n
        };
        let width = if self.visible_width <= n - left {
            self.visible_width
        } else {
            n - left
        };
        let highlight = Highlight {
            left: Fraction { num: left as u64, den: n as u64 },
            width: Fraction { num: width as u64, den: n as u64 },
        };
        Some(Overview { bars, highlight })
    }
}

/// The widths of the first `k` bars add up to `k` times `1 / n`.
proof fn lemma_total_width(bars: Seq<Bar>, k: int)
    requires
        0 <= k <= bars.len(),
        forall|i: int| 0 <= i < bars.len() ==> (#[trigger] bars[i]).width.num == 1,
    ensures
        total_width(bars.take(k)) == k,
    decreases k,
{
    if k > 0 {
        assert(bars.take(k).drop_last() =~= bars.take(k - 1));
        lemma_total_width(bars, k - 1);
    }
}

/// The bars tile the strip: each is `1 / n` wide, the first starts at 0, each
/// starts where the one before it ends, the last ends at 1, and so no two
/// overlap and their widths add up to 1. Every bar height lies between 0 and 1.
pub proof fn lemma_bars_tile(overview: Overview, seq: Seq<BigUint>, offset: usize, visible: usize)
    requires
        seq.len() >= 1,
        overview.depicts(seq, offset, visible),
    ensures
        forall|i: int|
            0 <= i < seq.len() ==> {
                let bar = #[trigger] overview.bars@[i];
                &&& bar.left.den == seq.len()
                &&& bar.width.den == seq.len()
                &&& bar.left.num == i
                &&& bar.width.num == 1
                &&& bar.left.in_unit()
                &&& bar.width.in_unit()
                &&& bar.height.in_unit()
            },
        forall|i: int, j: int|
            0 <= i < j < seq.len() ==> (#[trigger] overview.bars@[i]).left.num
                + overview.bars@[i].width.num <= (#[trigger] overview.bars@[j]).left.num,
        overview.bars@[seq.len() - 1].left.num + overview.bars@[seq.len() - 1].width.num
            == seq.len(),
        total_width(overview.bars@) == seq.len(),
{
    lemma_max_bits(seq);
    assert forall|i: int| 0 <= i < seq.len() implies {
        let bar = #[trigger] overview.bars@[i];
        &&& bar.left.den == seq.len()
        &&& bar.width.den == seq.len()
        &&& bar.left.num == i
        &&& bar.width.num == 1
        &&& bar.left.in_unit()
        &&& bar.width.in_unit()
        &&& bar.height.in_unit()
    } by {
        assert(overview.bars@[i] == bar_of(seq, i));
        assert(biguint_bits(seq[i]).len() <= max_bits(seq));
    }
    lemma_total_width(overview.bars@, seq.len() as int);
    assert(overview.bars@.take(seq.len() as int) =~= overview.bars@);
}

/// The highlight lies inside the strip, and it is exactly the window
/// `offset / n` to `(offset + visible) / n` where that window does.
pub proof fn lemma_highlight_in_strip(n: usize, offset: usize, visible: usize)
    requires
        n >= 1,
    ensures
        highlight_of(n, offset, visible).left.den == n,
        highlight_of(n, offset, visible).width.den == n,
        highlight_of(n, offset, visible).left.num + highlight_of(n, offset, visible).width.num <= n,
        offset + visible <= n ==> highlight_of(n, offset, visible).left.num == offset
            && highlight_of(n, offset, visible).width.num == visible,
{
}

} // verus!

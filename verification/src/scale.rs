//! Conversion between matrix cells and display pixels at a zoom factor `2^e`.
//!
//! A cell is `2^e` pixels wide. Both directions round so that nothing drawn
//! leaves the display: only whole cells count as covered by a stretch of
//! pixels, and every pixel that a run of cells touches counts as covered.

use vstd::arithmetic::power2::{lemma2_to64, lemma_pow2_pos, lemma_pow2_strictly_increases, pow2};
use vstd::bits::{lemma_usize_shl_is_mul, lemma_usize_shr_is_div};
use vstd::prelude::*;

verus! {

/// How many whole cells fit into `pixels` pixels: `pixels / 2^e`, rounded down.
pub open spec fn cells_across(pixels: nat, zoom_exp: int) -> nat {
    if zoom_exp >= 0 {
        pixels / pow2(zoom_exp as nat)
    } else {
        pixels * pow2((-zoom_exp) as nat)
    }
}

/// How many pixels `cells` cells touch: `cells * 2^e`, rounded up.
pub open spec fn pixels_across(cells: nat, zoom_exp: int) -> nat {
    if zoom_exp >= 0 {
        cells * pow2(zoom_exp as nat)
    } else {
        ((cells + pow2((-zoom_exp) as nat) - 1) / (pow2((-zoom_exp) as nat) as int)) as nat
    }
}

/// The smaller of two naturals.
pub open spec fn least(a: nat, b: nat) -> nat {
    if a <= b {
        a
    } else {
        b
    }
}

/// The cells that fit into a stretch of pixels cover no more than that stretch.
pub proof fn lemma_cells_fit(pixels: nat, zoom_exp: int, cells: nat)
    requires
        cells <= cells_across(pixels, zoom_exp),
    ensures
        pixels_across(cells, zoom_exp) <= pixels,
{
    if zoom_exp >= 0 {
        let unit = pow2(zoom_exp as nat);
        lemma_pow2_pos(zoom_exp as nat);
        assert(cells * unit <= pixels) by (nonlinear_arith)
            requires
                unit > 0,
                cells <= pixels / unit,
        ;
    } else {
        let unit = pow2((-zoom_exp) as nat);
        lemma_pow2_pos((-zoom_exp) as nat);
        assert((cells + unit - 1) / (unit as int) <= pixels) by (nonlinear_arith)
            requires
                unit > 0,
                cells <= pixels * unit,
        ;
    }
}

/// The pixels that a run of cells touches hold all of these cells; where a
/// cell is at least a pixel wide, they hold no more.
pub proof fn lemma_pixels_cover(cells: nat, zoom_exp: int)
    ensures
        cells_across(pixels_across(cells, zoom_exp), zoom_exp) >= cells,
        zoom_exp >= 0 ==> cells_across(pixels_across(cells, zoom_exp), zoom_exp) == cells,
{
    if zoom_exp >= 0 {
        let unit = pow2(zoom_exp as nat);
        lemma_pow2_pos(zoom_exp as nat);
        assert((cells * unit) / unit == cells) by (nonlinear_arith)
            requires
                unit > 0,
        ;
    } else {
        let unit = pow2((-zoom_exp) as nat);
        lemma_pow2_pos((-zoom_exp) as nat);
        assert(((cells + unit - 1) / (unit as int)) * unit >= cells) by (nonlinear_arith)
            requires
                unit > 0,
        ;
    }
}

/// A power of two beyond the word size exceeds every `usize`.
pub proof fn lemma_pow2_exceeds_usize(e: nat)
    requires
        e >= usize::BITS,
    ensures
        pow2(e) > usize::MAX,
{
    lemma2_to64();
    if e > usize::BITS {
        lemma_pow2_strictly_increases(usize::BITS as nat, e);
    }
}

/// The whole cells that fit into `pixels` pixels, but no more than `cap`.
pub fn cells_within(pixels: usize, zoom_exp: i32, cap: usize) -> (r: usize)
    ensures
        r == least(cap as nat, cells_across(pixels as nat, zoom_exp as int)),
{
    if zoom_exp >= 0 {
        let shift = zoom_exp as usize;
        proof {
            lemma_pow2_pos(zoom_exp as nat);
        }
        if zoom_exp as u32 >= usize::BITS {
            proof {
                lemma_pow2_exceeds_usize(zoom_exp as nat);
                let unit = pow2(zoom_exp as nat);
                assert(pixels as nat / unit == 0) by (nonlinear_arith)
                    requires
                        pixels < unit,
                ;
            }
            0
        } else {
            proof {
                lemma_usize_shr_is_div(pixels, shift);
            }
            let cells = pixels >> shift;
            if cells < cap {
                cells
            } else {
                cap
            }
        }
    } else {
        let k: i64 = -(zoom_exp as i64);
        proof {
            lemma_pow2_pos(k as nat);
        }
        if pixels == 0 {
            proof {
                assert(0 * pow2(k as nat) == 0) by (nonlinear_arith);
            }
            0
        } else if k >= usize::BITS as i64 {
            proof {
                lemma_pow2_exceeds_usize(k as nat);
                let unit = pow2(k as nat);
                assert(pixels * unit >= unit) by (nonlinear_arith)
                    requires
                        pixels >= 1,
                ;
            }
            cap
        } else {
            let shift = k as usize;
            proof {
                lemma_usize_shr_is_div(cap, shift);
                let unit = pow2(k as nat);
                let quotient = cap as nat / unit;
                if pixels <= quotient {
                    assert(pixels * unit <= cap) by (nonlinear_arith)
                        requires
                            unit > 0,
                            pixels <= cap as nat / unit,
                    ;
                    lemma_usize_shl_is_mul(pixels, shift);
                } else {
                    assert(pixels * unit > cap) by (nonlinear_arith)
                        requires
                            unit > 0,
                            pixels >= cap as nat / unit + 1,
                    ;
                }
            }
            if pixels <= (cap >> shift) {
                pixels << shift
            } else {
                cap
            }
        }
    }
}

/// The pixels that `cells` cells touch, where these fit into a `usize`.
pub(crate) fn pixels_for(cells: usize, zoom_exp: i32) -> (r: usize)
    requires
        pixels_across(cells as nat, zoom_exp as int) <= usize::MAX,
    ensures
        r == pixels_across(cells as nat, zoom_exp as int),
{
    if cells == 0 {
        proof {
            if zoom_exp >= 0 {
                assert(0 * pow2(zoom_exp as nat) == 0) by (nonlinear_arith);
            } else {
                let unit = pow2((-zoom_exp) as nat);
                lemma_pow2_pos((-zoom_exp) as nat);
                assert((0 + unit - 1) / (unit as int) == 0) by (nonlinear_arith)
                    requires
                        unit > 0,
                ;
            }
        }
        0
    } else if zoom_exp >= 0 {
        let shift = zoom_exp as usize;
        proof {
            let unit = pow2(zoom_exp as nat);
            assert(cells * unit >= unit) by (nonlinear_arith)
                requires
                    cells >= 1,
            ;
            if zoom_exp >= usize::BITS {
                lemma_pow2_exceeds_usize(zoom_exp as nat);
            }
            lemma_usize_shl_is_mul(cells, shift);
        }
        cells << shift
    } else {
        let k: i64 = -(zoom_exp as i64);
        proof {
            lemma_pow2_pos(k as nat);
        }
        if k >= usize::BITS as i64 {
            proof {
                lemma_pow2_exceeds_usize(k as nat);
                let unit = pow2(k as nat);
                assert((cells + unit - 1) / (unit as int) == 1) by (nonlinear_arith)
                    requires
                        1 <= cells < unit,
                ;
            }
            1
        } else {
            let shift = k as usize;
            proof {
                lemma_usize_shr_is_div((cells - 1) as usize, shift);
                let unit = pow2(k as nat);
                assert((cells + unit - 1) / (unit as int) == (cells - 1) / (unit as int) + 1)
                    by (nonlinear_arith)
                    requires
                        unit > 0,
                        cells >= 1,
                ;
            }
            ((cells - 1) >> shift) + 1
        }
    }
}

} // verus!

//! Arbitrary-precision naturals, seen as sequences of binary digits.

use num_bigint::BigUint;
use vstd::arithmetic::power2::{lemma2_to64, lemma_pow2_pos, lemma_pow2_unfold, pow2};
use vstd::prelude::*;

verus! {

/// `num_bigint::BigUint`, a natural number of any size. Nothing of its
/// inside is visible here; `biguint_bits` names what it holds.
#[verifier::external_type_specification]
#[verifier::external_body]
pub struct ExBigUint(BigUint);

/// The binary digits that a `BigUint` holds, least significant first.
pub uninterp spec fn biguint_bits(n: BigUint) -> Seq<bool>;

/// Digit `i` of `bits`, where every position past the end holds a zero.
pub open spec fn bit_at(bits: Seq<bool>, i: int) -> bool {
    0 <= i < bits.len() && bits[i]
}

/// No leading zero: the most significant digit, if there is one, is set.
pub open spec fn canonical(bits: Seq<bool>) -> bool {
    bits.len() > 0 ==> bits.last()
}

/// The natural number that `bits` (least significant first) writes.
pub open spec fn nat_of_bits(bits: Seq<bool>) -> nat
    decreases bits.len(),
{
    if bits.len() == 0 {
        0
    } else {
        2 * nat_of_bits(bits.drop_first()) + if bits[0] { 1nat } else { 0nat }
    }
}

/// The natural number that `digits` (most significant first) writes.
pub open spec fn nat_of_digits(digits: Seq<bool>) -> nat
    decreases digits.len(),
{
    if digits.len() == 0 {
        0
    } else {
        2 * nat_of_digits(digits.drop_last()) + if digits.last() { 1nat } else { 0nat }
    }
}

/// The number of set digits in `bits`.
pub open spec fn count_ones(bits: Seq<bool>) -> nat
    decreases bits.len(),
{
    if bits.len() == 0 {
        0
    } else {
        count_ones(bits.drop_first()) + if bits[0] { 1nat } else { 0nat }
    }
}

/// `bits` written the other way round and padded with leading zeros to
/// `height` digits: most significant first.
pub open spec fn msb_digits(bits: Seq<bool>, height: nat) -> Seq<bool> {
    Seq::new(height, |y: int| bit_at(bits, height - 1 - y))
}

/// `BigUint::bits`: the fewest binary digits that write the number. The
/// result is the length of the digit sequence, whose top digit is set.
#[verifier::external_body]
pub(crate) fn bit_length(n: &BigUint) -> (r: u64)
    ensures
        r == biguint_bits(*n).len(),
        r > 0 ==> biguint_bits(*n)[r - 1],
{
    n.bits()
}

/// `BigUint::bit`: whether the digit at position `i` is set; positions past
/// the last digit read as zero.
#[verifier::external_body]
pub(crate) fn test_bit(n: &BigUint, i: u64) -> (r: bool)
    ensures
        r == bit_at(biguint_bits(*n), i as int),
{
    n.bit(i)
}

/// The width of the widest number of `seq`: the largest digit count.
pub open spec fn max_bits(seq: Seq<BigUint>) -> nat
    decreases seq.len(),
{
    if seq.len() == 0 {
        0
    } else {
        let rest = max_bits(seq.drop_last());
        let last = biguint_bits(seq.last()).len();
        if last > rest { last } else { rest }
    }
}

/// The digit count of the widest number of `seq`.
pub fn widest(seq: &Vec<BigUint>) -> (r: u64)
    ensures
        r == max_bits(seq@),
        forall|i: int| 0 <= i < seq@.len() ==> canonical(#[trigger] biguint_bits(seq@[i])),
{
    let mut best: u64 = 0;
    let mut i: usize = 0;
    while i < seq.len()
        invariant
            i <= seq.len(),
            best == max_bits(seq@.take(i as int)),
            forall|j: int| 0 <= j < i ==> canonical(#[trigger] biguint_bits(seq@[j])),
        decreases seq.len() - i,
    {
        let b = bit_length(&seq[i]);
        proof {
            assert(seq@.take(i + 1).drop_last() =~= seq@.take(i as int));
        }
        if b > best {
            best = b;
        }
        i += 1;
    }
    proof {
        assert(seq@.take(seq.len() as int) =~= seq@);
    }
    best
}

/// Appending a digit adds it to the count of set digits.
pub proof fn lemma_count_ones_push(bits: Seq<bool>, digit: bool)
    ensures
        count_ones(bits.push(digit)) == count_ones(bits) + if digit { 1nat } else { 0nat },
    decreases bits.len(),
{
    let longer = bits.push(digit);
    if bits.len() == 0 {
        assert(longer.drop_first() =~= bits);
    } else {
        assert(longer.drop_first() =~= bits.drop_first().push(digit));
        lemma_count_ones_push(bits.drop_first(), digit);
    }
}

/// Padding and reversal keep the value: the digits of `bits`, most
/// significant first under any number of leading zeros, write the same number.
pub proof fn lemma_msb_digits_value(bits: Seq<bool>, height: nat)
    requires
        bits.len() <= height,
    ensures
        nat_of_digits(msb_digits(bits, height)) == nat_of_bits(bits),
    decreases height,
{
    let digits = msb_digits(bits, height);
    if height > 0 {
        let shorter = (height - 1) as nat;
        if bits.len() == 0 {
            assert(digits.drop_last() =~= msb_digits(bits, shorter));
            lemma_msb_digits_value(bits, shorter);
        } else {
            assert(digits.drop_last() =~= msb_digits(bits.drop_first(), shorter));
            lemma_msb_digits_value(bits.drop_first(), shorter);
        }
    }
}

/// Padding and reversal keep the number of set digits.
pub proof fn lemma_msb_digits_count(bits: Seq<bool>, height: nat)
    requires
        bits.len() <= height,
    ensures
        count_ones(msb_digits(bits, height)) == count_ones(bits),
    decreases height,
{
    let digits = msb_digits(bits, height);
    if height > 0 {
        let shorter = (height - 1) as nat;
        assert(digits =~= digits.drop_last().push(digits.last()));
        lemma_count_ones_push(digits.drop_last(), digits.last());
        if bits.len() == 0 {
            assert(digits.drop_last() =~= msb_digits(bits, shorter));
            lemma_msb_digits_count(bits, shorter);
        } else {
            assert(digits.drop_last() =~= msb_digits(bits.drop_first(), shorter));
            lemma_msb_digits_count(bits.drop_first(), shorter);
        }
    }
}

/// A number of `n` digits is below `2^n`; without a leading zero it is at
/// least `2^(n-1)`. So the digit count of a canonical sequence is the bit
/// length of the number it writes.
pub proof fn lemma_bit_length(bits: Seq<bool>)
    ensures
        nat_of_bits(bits) < pow2(bits.len()),
        canonical(bits) && bits.len() > 0 ==> pow2((bits.len() - 1) as nat) <= nat_of_bits(bits),
    decreases bits.len(),
{
    if bits.len() == 0 {
        lemma2_to64();
    } else {
        let rest = bits.drop_first();
        lemma_bit_length(rest);
        lemma_pow2_unfold(bits.len());
        if rest.len() == 0 {
            lemma2_to64();
        } else {
            assert(rest.last() == bits.last());
            lemma_pow2_unfold(rest.len());
        }
    }
}

/// A number has one canonical digit sequence only, so the value of a
/// `BigUint` settles its digits.
pub proof fn lemma_canonical_unique(a: Seq<bool>, b: Seq<bool>)
    requires
        canonical(a),
        canonical(b),
        nat_of_bits(a) == nat_of_bits(b),
    ensures
        a == b,
    decreases a.len(),
{
    lemma_bit_length(a);
    lemma_bit_length(b);
    if a.len() == 0 {
        if b.len() > 0 {
            lemma_pow2_pos((b.len() - 1) as nat);
        }
        assert(a =~= b);
    } else if b.len() == 0 {
        lemma_pow2_pos((a.len() - 1) as nat);
    } else {
        let ra = a.drop_first();
        let rb = b.drop_first();
        assert(nat_of_bits(ra) == nat_of_bits(rb) && a[0] == b[0]);
        if ra.len() > 0 {
            assert(ra.last() == a.last());
        }
        if rb.len() > 0 {
            assert(rb.last() == b.last());
        }
        lemma_canonical_unique(ra, rb);
        assert(a =~= seq![a[0]] + ra);
        assert(b =~= seq![b[0]] + rb);
    }
}

/// `max_bits` is an upper bound that some number of a non-empty sequence
/// attains.
pub proof fn lemma_max_bits(seq: Seq<BigUint>)
    ensures
        forall|i: int| 0 <= i < seq.len() ==> (#[trigger] biguint_bits(seq[i])).len() <= max_bits(seq),
        seq.len() > 0 ==> exists|i: int|
            0 <= i < seq.len() && (#[trigger] biguint_bits(seq[i])).len() == max_bits(seq),
    decreases seq.len(),
{
    if seq.len() > 0 {
        let front = seq.drop_last();
        lemma_max_bits(front);
        assert forall|i: int| 0 <= i < seq.len() implies (#[trigger] biguint_bits(seq[i])).len()
            <= max_bits(seq) by {
            if i < front.len() {
                assert(seq[i] == front[i]);
            }
        }
        if front.len() > 0 && max_bits(front) >= biguint_bits(seq.last()).len() {
            let i = choose|i: int|
                0 <= i < front.len() && (#[trigger] biguint_bits(front[i])).len() == max_bits(front);
            assert(seq[i] == front[i]);
        } else {
            assert(biguint_bits(seq[seq.len() - 1]).len() == max_bits(seq));
        }
    }
}

} // verus!

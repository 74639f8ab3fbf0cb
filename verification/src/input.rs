//! Reading a sequence of naturals from text: decimal numerals, separated by
//! any amount of whitespace.

use crate::bignum::{biguint_bits, canonical, nat_of_bits};
use num_bigint::{BigUint, ParseBigIntError};
use vstd::prelude::*;

verus! {

/// `num_bigint::ParseBigIntError`, the reason why a text is no numeral. It is
/// only passed on.
#[verifier::external_type_specification]
#[verifier::external_body]
pub struct ExParseBigIntError(ParseBigIntError);

/// Token number `index` of the text, counted from 0, is no numeral.
#[derive(Clone, Copy, Debug, PartialEq, Eq, Structural)]
pub struct InvalidTokenError {
    pub index: usize,
}

/// Whether `c` separates tokens: whether it has the Unicode property
/// `White_Space`.
pub uninterp spec fn char_is_whitespace(c: char) -> bool;

/// `char::is_whitespace`: whether `c` has the Unicode property `White_Space`.
#[verifier::external_body]
fn is_whitespace(c: char) -> (r: bool)
    ensures
        r == char_is_whitespace(c),
{
    c.is_whitespace()
}

/// Whether `c` is one of the digits `0` to `9`.
pub open spec fn is_digit(c: char) -> bool {
    '0' <= c <= '9'
}

/// A token without the plus sign that may stand before a numeral.
pub open spec fn unsigned(token: Seq<char>) -> Seq<char> {
    if token.len() > 0 && token[0] == '+' {
        token.skip(1)
    } else {
        token
    }
}

/// Whether `token` is a numeral: after an optional plus sign a digit, then
/// digits and underscores.
pub open spec fn is_numeral(token: Seq<char>) -> bool {
    let body = unsigned(token);
    &&& body.len() > 0
    &&& body[0] != '_'
    &&& forall|i: int| 0 <= i < body.len() ==> is_digit(#[trigger] body[i]) || body[i] == '_'
}

/// The number that the digits of `body` write in base ten; underscores do
/// not count.
pub open spec fn decimal_value(body: Seq<char>) -> nat
    decreases body.len(),
{
    if body.len() == 0 {
        0
    } else if body.last() == '_' {
        decimal_value(body.drop_last())
    } else {
        10 * decimal_value(body.drop_last()) + (body.last() as nat - '0' as nat) as nat
    }
}

/// `str::parse::<BigUint>`, which reads a numeral in base ten. It takes one
/// plus sign off the front, refuses what is then empty or starts with an
/// underscore, skips the other underscores and refuses every character that
/// is no digit. So it succeeds exactly on the numerals, and the number it
/// gives has the numeral's value, held without a leading zero digit.
#[verifier::external_body]
fn parse_numeral(token: &Vec<char>) -> (r: Result<BigUint, ParseBigIntError>)
    ensures
        r is Ok <==> is_numeral(token@),
        r matches Ok(n) ==> nat_of_bits(biguint_bits(n)) == decimal_value(unsigned(token@))
            && canonical(biguint_bits(n)),
{
    let text: String = token.iter().collect();
    text.parse::<BigUint>()
}

/// The tokens of `text` that a whitespace character has ended, and the run of
/// other characters that the text ends with.
pub open spec fn scan(text: Seq<char>) -> (Seq<Seq<char>>, Seq<char>)
    decreases text.len(),
{
    if text.len() == 0 {
        (Seq::empty(), Seq::empty())
    } else {
        let (done, run) = scan(text.drop_last());
        if !char_is_whitespace(text.last()) {
            (done, run.push(text.last()))
        } else if run.len() > 0 {
            (done.push(run), Seq::empty())
        } else {
            (done, run)
        }
    }
}

/// The tokens of `text`: its maximal runs of characters that are no
/// whitespace, from left to right.
pub open spec fn tokens(text: Seq<char>) -> Seq<Seq<char>> {
    let (done, run) = scan(text);
    if run.len() > 0 {
        done.push(run)
    } else {
        done
    }
}

/// The tokens that end inside a prefix of a text are the first tokens of
/// the text.
pub proof fn lemma_scan_prefix(text: Seq<char>, k: int)
    requires
        0 <= k <= text.len(),
    ensures
        scan(text.take(k)).0.len() <= scan(text).0.len() <= tokens(text).len(),
        forall|i: int|
            0 <= i < scan(text.take(k)).0.len() ==> #[trigger] scan(text.take(k)).0[i] == scan(
                text,
            ).0[i],
        forall|i: int| 0 <= i < scan(text).0.len() ==> #[trigger] scan(text).0[i] == tokens(text)[i],
    decreases text.len(),
{
    if k == text.len() {
        assert(text.take(k) =~= text);
    } else {
        let front = text.drop_last();
        assert(front.take(k) =~= text.take(k));
        lemma_scan_prefix(front, k);
    }
}

/// No token is empty, and none holds a whitespace character.
pub proof fn lemma_tokens_shape(text: Seq<char>)
    ensures
        forall|i: int| 0 <= i < tokens(text).len() ==> (#[trigger] tokens(text)[i]).len() > 0,
        forall|i: int, j: int|
            0 <= i < tokens(text).len() && 0 <= j < tokens(text)[i].len() ==> !char_is_whitespace(
                #[trigger] tokens(text)[i][j],
            ),
        forall|j: int| 0 <= j < scan(text).1.len() ==> !char_is_whitespace(#[trigger] scan(text).1[j]),
    decreases text.len(),
{
    if text.len() > 0 {
        lemma_tokens_shape(text.drop_last());
        let (done, run) = scan(text.drop_last());
        assert forall|i: int| 0 <= i < done.len() implies done[i] == tokens(text.drop_last())[i] by {}
        assert forall|i: int| 0 <= i < tokens(text).len() implies (#[trigger] tokens(text)[i]).len()
            > 0 && forall|j: int|
            0 <= j < tokens(text)[i].len() ==> !char_is_whitespace(#[trigger] tokens(text)[i][j]) by {
            if i < done.len() {
                assert(tokens(text)[i] == tokens(text.drop_last())[i]);
            }
        }
    }
}

/// Whether `numbers` are the values of the numerals `numerals`, one by one.
pub open spec fn reads(numbers: Seq<BigUint>, numerals: Seq<Seq<char>>) -> bool {
    &&& numbers.len() == numerals.len()
    &&& forall|i: int|
        0 <= i < numerals.len() ==> {
            &&& is_numeral(#[trigger] numerals[i])
            &&& nat_of_bits(biguint_bits(numbers[i])) == decimal_value(unsigned(numerals[i]))
            &&& canonical(biguint_bits(numbers[i]))
        }
}

/// Reads the numbers that `text` lists. The text is cut into tokens at
/// whitespace; each token has to be a numeral. The first token that is none
/// is reported.
pub fn parse_sequence(text: &str) -> (r: Result<Vec<BigUint>, InvalidTokenError>)
    ensures
        match r {
            Ok(numbers) => reads(numbers@, tokens(text@)),
            Err(e) => {
                &&& e.index < tokens(text@).len()
                &&& !is_numeral(tokens(text@)[e.index as int])
                &&& forall|j: int| 0 <= j < e.index ==> is_numeral(#[trigger] tokens(text@)[j])
            },
        },
{
    let mut numbers: Vec<BigUint> = Vec::new();
    let mut run: Vec<char> = Vec::new();
    for c in it: text.chars()
        invariant
            it.seq() == text@,
            run@ == scan(text@.take(it.index() as int)).1,
            reads(numbers@, scan(text@.take(it.index() as int)).0),
    {
        let ghost before = text@.take(it.index() as int);
        let ghost after = text@.take(it.index() + 1);
        proof {
            assert(after.drop_last() =~= before);
            assert(after.last() == c);
        }
        if !is_whitespace(c) {
            run.push(c);
        } else if run.len() > 0 {
            match parse_numeral(&run) {
                Ok(n) => {
                    numbers.push(n);
                },
                Err(_) => {
                    proof {
                        lemma_scan_prefix(text@, it.index() + 1);
                        let done = scan(before).0;
                        let ended = scan(after).0;
                        assert(ended == done.push(run@));
                        assert(ended[done.len() as int] == run@);
                        assert forall|j: int| 0 <= j < done.len() implies is_numeral(
                            #[trigger] tokens(text@)[j],
                        ) by {
                            assert(ended[j] == done[j]);
                            assert(scan(text@).0[j] == ended[j]);
                        }
                    }
                    return Err(InvalidTokenError { index: numbers.len() });
                },
            }
            run = Vec::new();
        }
    }
    proof {
        assert(text@.take(text@.len() as int) =~= text@);
    }
    if run.len() > 0 {
        match parse_numeral(&run) {
            Ok(n) => {
                numbers.push(n);
            },
            Err(_) => {
                return Err(InvalidTokenError { index: numbers.len() });
            },
        }
    }
    Ok(numbers)
}

} // verus!

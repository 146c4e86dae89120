//! Primality of a number that is given as text.
//!
//! The text is a number in decimal notation: an optional minus sign, digits,
//! and optionally a point and more digits. Only a natural number can be
//! prime: a negative number is not, nor is one with a fraction other than
//! zero.

use vstd::prelude::*;
use vstd::string::StrSliceExecFns;
use num_bigint::BigUint;
use num_prime::nt_funcs;
use std::str::FromStr;

verus! {

/// The place of the first point in the text, or the length of the text if
/// there is none.
pub open spec fn point_at(text: Seq<char>) -> int
    decreases text.len(),
{
    if text.len() == 0 || text[0] == '.' {
        0
    } else {
        1 + point_at(text.drop_first())
    }
}

/// What stands before the first point.
pub open spec fn integer_part(text: Seq<char>) -> Seq<char> {
    text.take(point_at(text))
}

/// What stands behind the first point; nothing, if there is no point.
pub open spec fn fraction_part(text: Seq<char>) -> Seq<char> {
    if point_at(text) < text.len() {
        text.skip(point_at(text) + 1)
    } else {
        Seq::empty()
    }
}

/// True for a text that starts with a minus sign.
pub open spec fn is_negative(text: Seq<char>) -> bool {
    text.len() > 0 && text[0] == '-'
}

/// True for a text that holds nothing but zeros.
pub open spec fn is_zeros(text: Seq<char>) -> bool {
    forall|i: int| 0 <= i < text.len() ==> #[trigger] text[i] == '0'
}

/// True for a text of one or more decimal digits.
pub open spec fn is_decimal(text: Seq<char>) -> bool {
    text.len() > 0 && forall|i: int| 0 <= i < text.len() ==> '0' <= #[trigger] text[i] <= '9'
}

/// The number that a text of decimal digits stands for.
pub open spec fn decimal_value(digits: Seq<char>) -> nat
    decreases digits.len(),
{
    if digits.len() == 0 {
        0
    } else {
        (decimal_value(digits.drop_last()) * 10 + (digits.last() as u32 - '0' as u32)) as nat
    }
}

/// True for a text that stands for a natural number: it is not negative, and
/// its fraction, if it has one, is zero.
pub open spec fn is_natural(text: Seq<char>) -> bool {
    !is_negative(integer_part(text)) && is_zeros(fraction_part(text))
}

/// True for a text whose primality can be told: one that stands for no
/// natural number, or whose integer part is written in decimal digits.
pub open spec fn is_testable(text: Seq<char>) -> bool {
    is_natural(text) ==> is_decimal(integer_part(text))
}

/// True for a prime number.
pub open spec fn is_prime_number(n: nat) -> bool {
    n >= 2 && forall|d: nat| 2 <= d < n ==> #[trigger] (n % d) != 0
}

/// The primality test of `num_prime` (`nt_funcs::is_prime` with its default
/// configuration, then `Primality::probably`), on the number that
/// `num_bigint` reads from decimal digits (`BigUint::from_str`). Digits
/// alone are always read. Below 2^64 the test is deterministic and tells
/// whether the number is prime. An even number is prime only if it is 2.
/// Of a larger odd number nothing is claimed: the test then draws random
/// witnesses.
#[verifier::external_body]
fn probably_prime(digits: &str) -> (prime: bool)
    requires
        is_decimal(digits@),
    ensures
        decimal_value(digits@) < 0x1_0000_0000_0000_0000 ==> prime == is_prime_number(
            decimal_value(digits@),
        ),
        decimal_value(digits@) % 2 == 0 ==> prime == (decimal_value(digits@) == 2),
{
    match BigUint::from_str(digits) {
        Ok(number) => nt_funcs::is_prime(&number, None).probably(),
        Err(_) => false,
    }
}

/// The first point stands where `point_at` says.
pub proof fn lemma_point_found(text: Seq<char>, at: int)
    requires
        0 <= at <= text.len(),
        forall|k: int| 0 <= k < at ==> text[k] != '.',
        at < text.len() ==> text[at] == '.',
    ensures
        point_at(text) == at,
    decreases text.len(),
{
    if text.len() > 0 && text[0] != '.' {
        assert forall|k: int| 0 <= k < at - 1 implies text.drop_first()[k] != '.' by {
            assert(text.drop_first()[k] == text[k + 1]);
        }
        lemma_point_found(text.drop_first(), at - 1);
    }
}

/// What a text is, as far as its primality goes.
pub enum Kind<'a> {
    /// No natural number: negative, or with a fraction other than zero.
    NotNatural,
    /// A natural number, written in these decimal digits.
    Natural(&'a str),
    /// A text with something else than decimal digits before the point.
    Unreadable,
}

/// Takes a number in decimal notation apart.
pub fn classify<'a>(number: &'a str) -> (kind: Kind<'a>)
    ensures
        match kind {
            Kind::NotNatural => !is_natural(number@),
            Kind::Natural(digits) => is_natural(number@) && is_decimal(digits@) && digits@
                == integer_part(number@),
            Kind::Unreadable => is_natural(number@) && !is_decimal(integer_part(number@)),
        },
{
    let n = number.unicode_len();
    let mut point: usize = n;
    let mut negative = false;
    let mut zeros = true;
    let mut decimal = true;
    let mut i: usize = 0;
    for c in it: number.chars()
        invariant
            it.seq() == number@,
            n == number@.len(),
            i == it.index(),
            point <= n,
            point < n ==> point < i && number@[point as int] == '.',
            forall|k: int| 0 <= k < i && k < point ==> number@[k] != '.',
            point == n ==> zeros && (decimal <==> forall|k: int|
                0 <= k < i ==> '0' <= #[trigger] number@[k] <= '9'),
            negative == (i > 0 && number@[0] == '-'),
            point < n ==> {
                &&& (zeros <==> forall|k: int| point < k < i ==> #[trigger] number@[k] == '0')
                &&& (decimal <==> forall|k: int|
                    0 <= k < point ==> '0' <= #[trigger] number@[k] <= '9')
            },
    {
        if point == n {
            if c == '.' {
                point = i;
            } else {
                if i == 0 && c == '-' {
                    negative = true;
                }
                if !('0' <= c && c <= '9') {
                    decimal = false;
                }
            }
        } else if c != '0' {
            zeros = false;
        }
        i += 1;
    }
    proof {
        lemma_point_found(number@, point as int);
        let whole = integer_part(number@);
        let fraction = fraction_part(number@);
        assert(is_negative(whole) == negative);
        if point < n && !zeros {
            let k = choose|k: int| point < k < n && #[trigger] number@[k] != '0';
            assert(fraction[k - point - 1] == number@[k]);
        }
        assert(zeros == is_zeros(fraction));
        if !decimal {
            let k = choose|k: int| 0 <= k < point && !('0' <= #[trigger] number@[k] <= '9');
            assert(whole[k] == number@[k]);
        }
    }
    if negative || !zeros {
        return Kind::NotNatural;
    }
    if !decimal || point == 0 {
        return Kind::Unreadable;
    }
    let digits = number.substring_char(0, point);
    Kind::Natural(digits)
}

impl<'a> Kind<'a> {
    /// The answer for a text of this kind, given what the primality test
    /// says of its digits: only a natural number that passes the test is
    /// taken for a prime.
    pub fn verdict(&self, probable: bool) -> (prime: bool)
        ensures
            prime == (*self is Natural && probable),
    {
        match self {
            Kind::Natural(_) => probable,
            _ => false,
        }
    }
}

/// Tells whether the primality of a number in decimal notation can be told.
pub fn can_test(number: &str) -> (testable: bool)
    ensures
        testable == is_testable(number@),
{
    match classify(number) {
        Kind::Unreadable => false,
        _ => true,
    }
}

/// Tells whether a number in decimal notation is prime. A number that is
/// negative or has a fraction other than zero is not. A natural number below
/// 2^64 is tested exactly. A larger one is tested by chance: an even one is
/// never taken for a prime, and of an odd one nothing is promised.
pub fn is_prime(number: &str) -> (prime: bool)
    requires
        is_testable(number@),
    ensures
        !is_natural(number@) ==> !prime,
        is_natural(number@) && decimal_value(integer_part(number@)) < 0x1_0000_0000_0000_0000
            ==> prime == is_prime_number(decimal_value(integer_part(number@))),
        is_natural(number@) && decimal_value(integer_part(number@)) % 2 == 0 ==> prime == (
        decimal_value(integer_part(number@)) == 2),
{
    let kind = classify(number);
    let probable = match kind {
        Kind::Natural(digits) => probably_prime(digits),
        _ => false,
    };
    kind.verdict(probable)
}

} // verus!

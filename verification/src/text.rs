//! Helpers for strings and sequences of strings.

use vstd::prelude::*;
use vstd::string::*;

verus! {

/// The views of a sequence of strings.
pub open spec fn texts(strings: Seq<String>) -> Seq<Seq<char>> {
    Seq::new(strings.len(), |i: int| strings[i]@)
}

/// Whether some entry of `names` has the same text as `name`.
pub fn has_text(names: &Vec<String>, name: &String) -> (r: bool)
    ensures
        r == texts(names@).contains(name@),
{
    let mut i: usize = 0;
    while i < names.len()
        invariant
            i <= names.len(),
            forall|j: int| 0 <= j < i ==> texts(names@)[j] != name@,
        decreases names.len() - i,
    {
        if names[i] == *name {
            assert(texts(names@)[i as int] == name@);
            return true;
        }
        i = i + 1;
    }
    false
}

/// Whether two strings have the same text.
pub fn same_text(a: &str, b: &str) -> (r: bool)
    ensures
        r == (a@ == b@),
{
    a.to_owned() == b.to_owned()
}

/// The character for a decimal digit.
pub open spec fn digit_char(d: int) -> char {
    if d == 0 {
        '0'
    } else if d == 1 {
        '1'
    } else if d == 2 {
        '2'
    } else if d == 3 {
        '3'
    } else if d == 4 {
        '4'
    } else if d == 5 {
        '5'
    } else if d == 6 {
        '6'
    } else if d == 7 {
        '7'
    } else if d == 8 {
        '8'
    } else {
        '9'
    }
}

/// The decimal numeral of a natural number, without leading zeros.
pub open spec fn decimal(n: nat) -> Seq<char>
    decreases n,
{
    if n < 10 {
        seq![digit_char(n as int)]
    } else {
        decimal(n / 10).push(digit_char((n % 10) as int))
    }
}

/// The decimal numeral of an integer: a minus sign before the numeral of
/// the magnitude if the integer is negative.
pub open spec fn signed_decimal(n: int) -> Seq<char> {
    if n < 0 {
        seq!['-'] + decimal((-n) as nat)
    } else {
        decimal(n as nat)
    }
}

/// The characters of digits given least significant first, most
/// significant first.
pub open spec fn numeral(digits: Seq<u8>) -> Seq<char> {
    Seq::new(digits.len(), |i: int| digit_char(digits[digits.len() - 1 - i] as int))
}

/// The one-character string for a digit.
fn digit_text(d: u8) -> (r: &'static str)
    requires
        d < 10,
    ensures
        r@ == seq![digit_char(d as int)],
{
    proof {
        reveal_strlit("0");
        reveal_strlit("1");
        reveal_strlit("2");
        reveal_strlit("3");
        reveal_strlit("4");
        reveal_strlit("5");
        reveal_strlit("6");
        reveal_strlit("7");
        reveal_strlit("8");
        reveal_strlit("9");
    }
    let r = if d == 0 {
        "0"
    } else if d == 1 {
        "1"
    } else if d == 2 {
        "2"
    } else if d == 3 {
        "3"
    } else if d == 4 {
        "4"
    } else if d == 5 {
        "5"
    } else if d == 6 {
        "6"
    } else if d == 7 {
        "7"
    } else if d == 8 {
        "8"
    } else {
        "9"
    };
    assert(r@ =~= seq![digit_char(d as int)]);
    r
}

/// Appends the decimal numeral of `value` to `out`.
pub fn push_decimal(out: &mut String, value: u128)
    ensures
        final(out)@ == old(out)@ + decimal(value as nat),
{
    let mut digits: Vec<u8> = Vec::new();
    digits.push((value % 10) as u8);
    let mut n: u128 = value / 10;
    assert(numeral(digits@) =~= seq![digit_char((value % 10) as int)]);
    assert(decimal(value as nat) =~= (if n > 0 {
        decimal(n as nat)
    } else {
        Seq::empty()
    }) + numeral(digits@));
    while n > 0
        invariant
            digits@.len() >= 1,
            forall|i: int| 0 <= i < digits@.len() ==> digits@[i] < 10,
            decimal(value as nat) == (if n > 0 {
                decimal(n as nat)
            } else {
                Seq::empty()
            }) + numeral(digits@),
        decreases n,
    {
        let ghost before = digits@;
        let d: u8 = (n % 10) as u8;
        digits.push(d);
        proof {
            assert(numeral(digits@) =~= seq![digit_char(d as int)] + numeral(before));
            if n < 10 {
                assert(decimal(n as nat) =~= seq![digit_char(d as int)]);
            } else {
                assert(decimal(n as nat) =~= decimal((n / 10) as nat).push(digit_char(d as int)));
            }
            assert(decimal(value as nat) =~= (if n / 10 > 0 {
                decimal((n / 10) as nat)
            } else {
                Seq::empty()
            }) + numeral(digits@));
        }
        n = n / 10;
    }
    let mut i: usize = digits.len();
    assert(numeral(digits@).take(0) =~= Seq::empty());
    while i > 0
        invariant
            i <= digits@.len(),
            forall|j: int| 0 <= j < digits@.len() ==> digits@[j] < 10,
            out@ == old(out)@ + numeral(digits@).take(digits@.len() - i),
        decreases i,
    {
        i = i - 1;
        out.append(digit_text(digits[i]));
        assert(numeral(digits@).take(digits@.len() - i) =~= numeral(digits@).take(
            digits@.len() - i - 1,
        ).push(digit_char(digits@[i as int] as int)));
    }
    assert(numeral(digits@).take(digits@.len() as int) =~= numeral(digits@));
}

/// The literal of a `u128` in the ledger's value language: the numeral and
/// the type.
pub open spec fn u128_literal(value: u128) -> Seq<char> {
    decimal(value as nat) + "u128"@
}

/// The literal of a `u8`.
pub open spec fn u8_literal(value: u8) -> Seq<char> {
    decimal(value as nat) + "u8"@
}

/// The literal of an `i8`.
pub open spec fn i8_literal(value: i8) -> Seq<char> {
    signed_decimal(value as int) + "i8"@
}

/// Writes a `u128` as a literal of the ledger's value language.
pub fn format_u128(value: u128) -> (r: String)
    ensures
        r@ == u128_literal(value),
{
    let mut out = String::new();
    push_decimal(&mut out, value);
    out.append("u128");
    out
}

/// Writes a `u8` as a literal of the ledger's value language.
pub fn format_u8(value: u8) -> (r: String)
    ensures
        r@ == u8_literal(value),
{
    let mut out = String::new();
    push_decimal(&mut out, value as u128);
    out.append("u8");
    out
}

/// Writes an `i8` as a literal of the ledger's value language.
pub fn format_i8(value: i8) -> (r: String)
    ensures
        r@ == i8_literal(value),
{
    let mut out = String::new();
    if value < 0 {
        proof {
            reveal_strlit("-");
        }
        out.append("-");
        assert(out@ =~= seq!['-']);
        let magnitude: u128 = (-(value as i16)) as u128;
        push_decimal(&mut out, magnitude);
    } else {
        push_decimal(&mut out, value as u128);
    }
    out.append("i8");
    out
}

} // verus!

//! Numbers in schema text: decimal naturals and hexadecimal magic numbers.

use crate::ast::Nat;
use crate::lexer::chars_of;
use vstd::prelude::*;

verus! {

/// The value of the digit `c`, in any radix up to sixteen. Letters count in
/// either case.
pub open spec fn digit_of(c: char) -> Option<nat> {
    if '0' <= c <= '9' {
        Some((c as nat - '0' as nat) as nat)
    } else if 'a' <= c <= 'f' {
        Some((c as nat - 'a' as nat + 10) as nat)
    } else if 'A' <= c <= 'F' {
        Some((c as nat - 'A' as nat + 10) as nat)
    } else {
        None
    }
}

/// Is `c` a digit of the given radix?
pub open spec fn is_digit_in(c: char, radix: nat) -> bool {
    digit_of(c) is Some && digit_of(c)->0 < radix
}

/// Is `text` one or more digits of the given radix, and nothing else?
pub open spec fn is_number(text: Seq<char>, radix: nat) -> bool {
    text.len() > 0 && forall|i: int| 0 <= i < text.len() ==> is_digit_in(#[trigger] text[i], radix)
}

/// The number that the digits of `text` denote, most significant digit first.
pub open spec fn number_value(text: Seq<char>, radix: nat) -> nat
    decreases text.len(),
{
    if text.len() == 0 {
        0
    } else {
        number_value(text.drop_last(), radix) * radix + match digit_of(text.last()) {
            Some(d) => d,
            None => 0,
        }
    }
}

/// The 32-bit number that `text` denotes, if it is a number that fits.
pub open spec fn parse_nat(text: Seq<char>, radix: nat) -> Option<Nat> {
    if is_number(text, radix) && number_value(text, radix) <= Nat::MAX {
        Some(number_value(text, radix) as Nat)
    } else {
        None
    }
}

/// A longer text denotes no smaller a number than its prefix.
pub proof fn lemma_value_grows(text: Seq<char>, radix: nat, n: int)
    requires
        radix >= 1,
        0 <= n <= text.len(),
    ensures
        number_value(text.take(n), radix) <= number_value(text, radix),
    decreases text.len() - n,
{
    if n == text.len() {
        assert(text.take(n) =~= text);
    } else {
        lemma_value_grows(text, radix, n + 1);
        assert(text.take(n + 1).drop_last() =~= text.take(n));
        let v = number_value(text.take(n), radix);
        assert(v * radix >= v) by (nonlinear_arith)
            requires
                radix >= 1,
                v >= 0,
        ;
    }
}

/// The letter `c` in lower case; any other character as it is.
pub open spec fn lower_case(c: char) -> char {
    if 'A' <= c <= 'Z' {
        (c as u32 + 32) as char
    } else {
        c
    }
}

/// Are `a` and `b` the same text but for the case of their letters?
pub open spec fn same_but_case(a: Seq<char>, b: Seq<char>) -> bool {
    a.len() == b.len() && forall|i: int|
        0 <= i < a.len() ==> lower_case(#[trigger] a[i]) == lower_case(b[i])
}

/// Two texts that differ in the case of their letters only denote the same number.
proof fn lemma_value_ignores_case(a: Seq<char>, b: Seq<char>, radix: nat)
    requires
        same_but_case(a, b),
    ensures
        number_value(a, radix) == number_value(b, radix),
        is_number(a, radix) == is_number(b, radix),
    decreases a.len(),
{
    assert forall|i: int| 0 <= i < a.len() implies digit_of(#[trigger] a[i]) == digit_of(b[i]) by {
        assert(lower_case(a[i]) == lower_case(b[i]));
    }
    if a.len() > 0 {
        assert(same_but_case(a.drop_last(), b.drop_last())) by {
            assert forall|i: int| 0 <= i < a.drop_last().len() implies lower_case(
                #[trigger] a.drop_last()[i],
            ) == lower_case(b.drop_last()[i]) by {
                assert(lower_case(a[i]) == lower_case(b[i]));
            }
        }
        lemma_value_ignores_case(a.drop_last(), b.drop_last(), radix);
        assert(digit_of(a.last()) == digit_of(b.last()));
    }
    if is_number(a, radix) {
        assert forall|i: int| 0 <= i < b.len() implies is_digit_in(#[trigger] b[i], radix) by {
            assert(is_digit_in(a[i], radix));
        }
    }
    if is_number(b, radix) {
        assert forall|i: int| 0 <= i < a.len() implies is_digit_in(#[trigger] a[i], radix) by {
            assert(is_digit_in(b[i], radix));
        }
    }
}

/// Hexadecimal numbers have no case: two texts that differ in the case of
/// their letters only are read as the same number, or both as none.
pub proof fn lemma_hex_ignores_case(a: Seq<char>, b: Seq<char>)
    requires
        same_but_case(a, b),
    ensures
        parse_nat(a, 16) == parse_nat(b, 16),
{
    lemma_value_ignores_case(a, b, 16);
}

/// The hexadecimal digit of the value `d`, in lower case.
pub open spec fn hex_char(d: nat) -> char
    recommends
        d < 16,
{
    if d < 10 {
        ('0' as u32 + d) as char
    } else {
        ('a' as u32 + d - 10) as char
    }
}

/// The number `n` written in hexadecimal, without leading zeros.
pub open spec fn hex_text(n: nat) -> Seq<char>
    decreases n,
{
    if n < 16 {
        seq![hex_char(n)]
    } else {
        hex_text(n / 16).push(hex_char(n % 16))
    }
}

/// The hexadecimal text of a number is a number, and denotes it.
proof fn lemma_hex_text_value(n: nat)
    ensures
        is_number(hex_text(n), 16),
        number_value(hex_text(n), 16) == n,
    decreases n,
{
    if n < 16 {
        assert(hex_text(n).drop_last() =~= Seq::<char>::empty());
        assert(digit_of(hex_char(n)) == Some(n));
        reveal_with_fuel(number_value, 2);
    } else {
        lemma_hex_text_value(n / 16);
        let d = n % 16;
        assert(digit_of(hex_char(d)) == Some(d));
        assert(hex_text(n).drop_last() =~= hex_text(n / 16));
        assert(hex_text(n).last() == hex_char(d));
        assert forall|i: int| 0 <= i < hex_text(n).len() implies is_digit_in(
            #[trigger] hex_text(n)[i],
            16,
        ) by {
            if i < hex_text(n / 16).len() {
                assert(hex_text(n)[i] == hex_text(n / 16)[i]);
            }
        }
    }
}

/// Every 32-bit number is read back from its hexadecimal text: a magic
/// number survives being written down and read.
pub proof fn lemma_hex_round_trip(n: Nat)
    ensures
        parse_nat(hex_text(n as nat), 16) == Some(n),
{
    lemma_hex_text_value(n as nat);
}

/// The value of the digit `c` in hexadecimal, if it is one.
fn digit_value(c: char) -> (r: Option<u32>)
    ensures
        match r {
            Some(d) => digit_of(c) == Some(d as nat) && d < 16,
            None => digit_of(c) is None,
        },
{
    if '0' <= c && c <= '9' {
        Some(c as u32 - '0' as u32)
    } else if 'a' <= c && c <= 'f' {
        Some(c as u32 - 'a' as u32 + 10)
    } else if 'A' <= c && c <= 'F' {
        Some(c as u32 - 'A' as u32 + 10)
    } else {
        None
    }
}

/// Reads `text` as a number of the given radix, from two to sixteen.
///
/// The result is `None` where `text` is empty, holds anything but digits of
/// the radix, or denotes a number above `u32::MAX`.
pub fn parse_radix(text: &str, radix: u32) -> (r: Option<Nat>)
    requires
        2 <= radix <= 16,
    ensures
        r == parse_nat(text@, radix as nat),
{
    let chars = chars_of(text);
    if chars.len() == 0 {
        return None;
    }
    let mut acc: u64 = 0;
    let mut i: usize = 0;
    while i < chars.len()
        invariant
            i <= chars.len(),
            chars@ == text@,
            2 <= radix <= 16,
            acc == number_value(text@.take(i as int), radix as nat),
            acc <= Nat::MAX,
            forall|k: int| 0 <= k < i ==> is_digit_in(#[trigger] text@[k], radix as nat),
        decreases chars.len() - i,
    {
        let digit = match digit_value(chars[i]) {
            Some(d) => d,
            None => {
                return None;
            },
        };
        if digit >= radix {
            return None;
        }
        assert(text@.take(i + 1).drop_last() =~= text@.take(i as int));
        assert(acc * radix + digit <= 0xffff_ffff * 16 + 15) by (nonlinear_arith)
            requires
                acc <= 0xffff_ffff,
                radix <= 16,
                digit <= 15,
        ;
        acc = acc * (radix as u64) + (digit as u64);
        i += 1;
        if acc > 0xffff_ffff {
            proof {
                lemma_value_grows(text@, radix as nat, i as int);
            }
            return None;
        }
    }
    assert(text@.take(i as int) =~= text@);
    Some(acc as u32)
}

} // verus!

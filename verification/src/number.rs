//! Unsigned numbers in text: decimal digits, and numerals read in any radix.

use vstd::prelude::*;

verus! {

/// The character of a decimal digit.
pub open spec fn digit_char(d: int) -> char {
    (48 + d) as char
}

/// The decimal digits of a number, without leading zeros.
pub open spec fn decimal(n: nat) -> Seq<char>
    decreases n,
{
    if n < 10 {
        seq![digit_char(n as int)]
    } else {
        decimal(n / 10).push(digit_char((n % 10) as int))
    }
}

/// Appends a number in decimal.
pub fn push_decimal(text: &mut String, n: u64)
    ensures
        final(text)@ == old(text)@ + decimal(n as nat),
    decreases n,
{
    let digit: u8 = 48 + (n % 10) as u8;
    if n >= 10 {
        push_decimal(text, n / 10);
    }
    text.push(digit as char);
    assert(text@ =~= old(text)@ + decimal(n as nat));
}

/// A number in decimal.
pub fn decimal_text(n: u64) -> (text: String)
    ensures
        text@ == decimal(n as nat),
{
    let mut text = String::new();
    push_decimal(&mut text, n);
    assert(text@ =~= decimal(n as nat));
    text
}

/// A number in decimal, with a minus sign if it is negative.
pub open spec fn signed_decimal(n: int) -> Seq<char> {
    if n < 0 {
        "-"@ + decimal((-n) as nat)
    } else {
        decimal(n as nat)
    }
}

/// Appends a number in decimal, with a minus sign if it is negative.
pub fn push_signed(text: &mut String, n: i32)
    ensures
        final(text)@ == old(text)@ + signed_decimal(n as int),
{
    let value: i64 = n as i64;
    if value < 0 {
        text.append("-");
        push_decimal(text, (-value) as u64);
    } else {
        push_decimal(text, value as u64);
    }
    assert(text@ =~= old(text)@ + signed_decimal(n as int));
}

/// The value of a digit, if `c` is one in the given radix.
pub open spec fn digit_value(c: char, radix: nat) -> Option<nat> {
    let u = c as int;
    let v = if 48 <= u <= 57 {
        u - 48
    } else if 97 <= u <= 122 {
        u - 97 + 10
    } else if 65 <= u <= 90 {
        u - 65 + 10
    } else {
        -1
    };
    if 0 <= v < radix {
        Some(v as nat)
    } else {
        None
    }
}

/// The value of a run of digits, if every character is one.
pub open spec fn digits_value(s: Seq<char>, radix: nat) -> Option<nat>
    decreases s.len(),
{
    if s.len() == 0 {
        Some(0)
    } else {
        match (digits_value(s.drop_last(), radix), digit_value(s.last(), radix)) {
            (Some(v), Some(d)) => Some(v * radix + d),
            _ => None,
        }
    }
}

/// The digits of a numeral: all of it but one plus sign at its start.
pub open spec fn numeral_digits(s: Seq<char>) -> Seq<char> {
    if s.len() > 0 && s[0] == '+' {
        s.skip(1)
    } else {
        s
    }
}

/// The number that `s` spells in the given radix, if it spells one that is at
/// most `max`: an optional plus sign and at least one digit.
pub open spec fn numeral(s: Seq<char>, radix: nat, max: nat) -> Option<nat> {
    let digits = numeral_digits(s);
    if digits.len() == 0 {
        None
    } else {
        match digits_value(digits, radix) {
            Some(v) => if v <= max {
                Some(v)
            } else {
                None
            },
            None => None,
        }
    }
}

/// Reads one digit.
pub fn read_digit(c: char, radix: u32) -> (digit: Option<u32>)
    requires
        2 <= radix <= 36,
    ensures
        match digit {
            Some(d) => digit_value(c, radix as nat) == Some(d as nat) && d < radix,
            None => digit_value(c, radix as nat) is None,
        },
{
    let u = c as u32;
    let v: u32 = if 48 <= u && u <= 57 {
        u - 48
    } else if 97 <= u && u <= 122 {
        u - 97 + 10
    } else if 65 <= u && u <= 90 {
        u - 65 + 10
    } else {
        return None;
    };
    if v < radix {
        Some(v)
    } else {
        None
    }
}

/// More digits do not make a number smaller.
proof fn lemma_digits_value_grows(s: Seq<char>, n: int, radix: nat)
    requires
        0 <= n <= s.len(),
        radix >= 1,
    ensures
        match (digits_value(s.take(n), radix), digits_value(s, radix)) {
            (Some(part), Some(whole)) => part <= whole,
            (None, Some(_)) => false,
            _ => true,
        },
    decreases s.len() - n,
{
    if n < s.len() {
        lemma_digits_value_grows(s, n + 1, radix);
        assert(s.take(n + 1).drop_last() =~= s.take(n));
        if let Some(v) = digits_value(s.take(n), radix) {
            assert(v <= v * radix) by (nonlinear_arith)
                requires
                    radix >= 1,
            ;
        }
    } else {
        assert(s.take(n) =~= s);
    }
}

/// Reads an unsigned numeral that is at most `max`.
pub fn read_numeral(s: &[char], radix: u32, max: u64) -> (number: Option<u64>)
    requires
        2 <= radix <= 36,
    ensures
        match number {
            Some(v) => numeral(s@, radix as nat, max as nat) == Some(v as nat) && v <= max,
            None => numeral(s@, radix as nat, max as nat) is None,
        },
{
    let from: usize = if s.len() > 0 && s[0] == '+' {
        1
    } else {
        0
    };
    let ghost digits = numeral_digits(s@);
    assert(digits =~= s@.skip(from as int));
    if from == s.len() {
        return None;
    }
    let mut value: u64 = 0;
    let mut i: usize = from;
    assert(digits.take(0) =~= Seq::empty());
    while i < s.len()
        invariant
            from <= i <= s@.len(),
            from < s@.len(),
            2 <= radix <= 36,
            digits == s@.skip(from as int),
            digits == numeral_digits(s@),
            digits_value(digits.take(i - from), radix as nat) == Some(value as nat),
            value <= max,
        decreases s@.len() - i,
    {
        let ghost part = digits.take(i + 1 - from);
        assert(part.drop_last() =~= digits.take(i - from));
        assert(part.last() == s@[i as int]);
        proof {
            lemma_digits_value_grows(digits, i + 1 - from, radix as nat);
        }
        match read_digit(s[i], radix) {
            Some(d) => {
                assert((value as int) * (radix as int) <= u64::MAX * 36) by (nonlinear_arith)
                    requires
                        0 <= value <= u64::MAX,
                        0 <= radix <= 36,
                ;
                let next: u128 = (value as u128) * (radix as u128) + (d as u128);
                if next > max as u128 {
                    return None;
                }
                value = next as u64;
            },
            None => {
                return None;
            },
        }
        i += 1;
    }
    assert(digits.take(digits.len() as int) =~= digits);
    Some(value)
}

/// Every decimal numeral has a digit and consists of digits.
pub proof fn lemma_decimal_digits(n: nat)
    ensures
        decimal(n).len() >= 1,
        forall|i: int|
            0 <= i < decimal(n).len() ==> 48 <= #[trigger] decimal(n)[i] as int && decimal(
                n,
            )[i] as int <= 57,
        digits_value(decimal(n), 10) == Some(n),
    decreases n,
{
    if n >= 10 {
        lemma_decimal_digits(n / 10);
        assert(decimal(n).drop_last() =~= decimal(n / 10));
    } else {
        assert(decimal(n).drop_last() =~= Seq::empty());
        assert(digits_value(Seq::<char>::empty(), 10) == Some(0nat));
    }
}

/// Reading a number back from its decimal digits gives the number.
pub proof fn lemma_decimal_read_back(n: nat, max: nat)
    requires
        n <= max,
    ensures
        numeral(decimal(n), 10, max) == Some(n),
{
    lemma_decimal_digits(n);
    assert(decimal(n)[0] != '+');
}

/// Different numbers have different decimal digits.
pub proof fn lemma_decimal_injective(a: nat, b: nat)
    requires
        decimal(a) == decimal(b),
    ensures
        a == b,
{
    lemma_decimal_digits(a);
    lemma_decimal_digits(b);
}

/// The character of a hexadecimal digit, in upper case.
pub open spec fn hex_char(d: int) -> char {
    if d < 10 {
        (48 + d) as char
    } else {
        (55 + d) as char
    }
}

/// The last `width` hexadecimal digits of a number.
pub open spec fn hex_digits(n: nat, width: nat) -> Seq<char>
    decreases width,
{
    if width == 0 {
        Seq::empty()
    } else {
        hex_digits(n / 16, (width - 1) as nat).push(hex_char((n % 16) as int))
    }
}

/// How many numbers can be written with `width` hexadecimal digits.
pub open spec fn hex_range(width: nat) -> nat
    decreases width,
{
    if width == 0 {
        1
    } else {
        16 * hex_range((width - 1) as nat)
    }
}

/// Hexadecimal digits spell the number, and none of them is a sign or a colon.
pub proof fn lemma_hex_digits(n: nat, width: nat)
    requires
        n < hex_range(width),
    ensures
        hex_digits(n, width).len() == width,
        digits_value(hex_digits(n, width), 16) == Some(n),
        forall|i: int|
            0 <= i < width ==> #[trigger] hex_digits(n, width)[i] != '+' && hex_digits(
                n,
                width,
            )[i] != ':',
    decreases width,
{
    if width > 0 {
        let shorter = (width - 1) as nat;
        lemma_hex_digits(n / 16, shorter);
        let digits = hex_digits(n, width);
        assert(digits.drop_last() =~= hex_digits(n / 16, shorter));
    }
}

/// Reading a number back from its hexadecimal digits gives the number.
pub proof fn lemma_hex_read_back(n: nat, width: nat, max: nat)
    requires
        n < hex_range(width),
        n <= max,
        width > 0,
    ensures
        numeral(hex_digits(n, width), 16, max) == Some(n),
{
    lemma_hex_digits(n, width);
    assert(hex_digits(n, width)[0] != '+');
}

} // verus!

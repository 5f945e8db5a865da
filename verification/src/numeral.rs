//! Numeric literals: radix-suffixed, unsigned, with negatives rejected.
//!
//! A literal is a digit string with an optional radix suffix: `H`/`h` for
//! hexadecimal, `B`/`b` for binary, `O`/`o` for octal, `D`/`d` or no suffix
//! for decimal. A single leading `+` is tolerated; a leading `-` is a hard
//! error of its own kind, never two's-complemented away.

use vstd::prelude::*;

verus! {

/// Why a numeral failed to parse.
#[derive(Clone, Copy, PartialEq, Eq, Structural, Debug)]
pub enum NumErr {
    /// Empty digits, a character that is no digit of the radix, or a value
    /// over the width's maximum.
    Malformed,
    /// A leading minus sign: negative literals are not supported.
    Negative,
}

/// The numeric value of `c` read as a digit (`0`-`9`, then letters from 10
/// up, either case). Non-digits map to a sentinel above every radix.
pub open spec fn digit_value(c: char) -> nat {
    let u = c as u32;
    if 48 <= u <= 57 {
        (u - 48) as nat
    } else if 97 <= u <= 122 {
        (u - 87) as nat
    } else if 65 <= u <= 90 {
        (u - 55) as nat
    } else {
        99
    }
}

/// Whether `c` is a digit of `radix`.
pub open spec fn is_digit(c: char, radix: nat) -> bool {
    digit_value(c) < radix
}

/// The value of a digit string, most significant digit first.
pub open spec fn digits_val(s: Seq<char>, radix: nat) -> nat
    decreases s.len(),
{
    if s.len() == 0 {
        0
    } else {
        digits_val(s.drop_last(), radix) * radix + digit_value(s.last())
    }
}

/// The value of a non-empty all-digit string, if it stays within `max`.
pub open spec fn parse_radix(s: Seq<char>, radix: nat, max: nat) -> Option<nat> {
    if s.len() > 0 && (forall|i: int| 0 <= i < s.len() ==> is_digit(s[i], radix)) && digits_val(
        s,
        radix,
    ) <= max {
        Some(digits_val(s, radix))
    } else {
        None
    }
}

/// The string without a single leading plus sign.
pub open spec fn strip_plus(s: Seq<char>) -> Seq<char> {
    if s.len() > 0 && s[0] == '+' {
        s.drop_first()
    } else {
        s
    }
}

/// The radix a suffix selects, and the digits before the suffix.
pub open spec fn radix_split(s: Seq<char>) -> (nat, Seq<char>) {
    if s.len() > 0 && (s.last() == 'H' || s.last() == 'h') {
        (16, s.drop_last())
    } else if s.len() > 0 && (s.last() == 'B' || s.last() == 'b') {
        (2, s.drop_last())
    } else if s.len() > 0 && (s.last() == 'O' || s.last() == 'o') {
        (8, s.drop_last())
    } else if s.len() > 0 && (s.last() == 'D' || s.last() == 'd') {
        (10, s.drop_last())
    } else {
        (10, s)
    }
}

/// What a numeral means, up to `max`: empty input and bad digit strings are
/// malformed, a leading minus is the negative error, anything else is the
/// digits' value in the suffix's radix.
pub open spec fn spec_parse_numeral(s: Seq<char>, max: nat) -> Result<nat, NumErr> {
    if s.len() == 0 {
        Err(NumErr::Malformed)
    } else if s[0] == '-' {
        Err(NumErr::Negative)
    } else {
        let (radix, body) = radix_split(s);
        match parse_radix(strip_plus(body), radix, max) {
            Some(v) => Ok(v),
            None => Err(NumErr::Malformed),
        }
    }
}

/// The digit value of `c` under `radix`, or `None` when `c` is no such digit.
fn digit_of(c: char, radix: u32) -> (r: Option<u32>)
    requires
        2 <= radix <= 36,
    ensures
        match r {
            Some(d) => is_digit(c, radix as nat) && d as nat == digit_value(c),
            None => !is_digit(c, radix as nat),
        },
{
    let u = c as u32;
    let v: u32 = if 48 <= u && u <= 57 {
        u - 48
    } else if 97 <= u && u <= 122 {
        u - 87
    } else if 65 <= u && u <= 90 {
        u - 55
    } else {
        99
    };
    if v < radix {
        Some(v)
    } else {
        None
    }
}

/// A prefix already over the maximum only grows as more digits follow.
proof fn lemma_digits_val_grows(s: Seq<char>, radix: nat, max: nat)
    requires
        s.len() > 0,
        radix >= 1,
        digits_val(s.drop_last(), radix) > max,
    ensures
        digits_val(s, radix) > max,
{
    let prefix = digits_val(s.drop_last(), radix);
    assert(prefix * radix >= prefix * 1) by (nonlinear_arith)
        requires
            radix >= 1,
            prefix >= 0,
    ;
}

/// Read the digit substring `s[start..end]` in `radix`, capped at `max`.
fn scan_digits(s: &str, start: usize, end: usize, radix: u32, max: u32) -> (r: Option<u32>)
    requires
        2 <= radix <= 16,
        max <= 65535,
        start <= end <= s@.len(),
    ensures
        match r {
            Some(v) => parse_radix(s@.subrange(start as int, end as int), radix as nat, max as nat)
                == Some(v as nat),
            None => parse_radix(s@.subrange(start as int, end as int), radix as nat, max as nat)
                is None,
        },
{
    if start == end {
        return None;
    }
    let mut acc: u32 = 0;
    let mut over = false;
    let mut i: usize = start;
    while i < end
        invariant
            start <= i <= end <= s@.len(),
            2 <= radix <= 16,
            max <= 65535,
            forall|j: int|
                start <= j < i ==> is_digit(s@[j], radix as nat),
            !over ==> acc as nat == digits_val(
                s@.subrange(start as int, i as int),
                radix as nat,
            ) && acc <= max,
            over ==> digits_val(s@.subrange(start as int, i as int), radix as nat) > max,
        decreases end - i,
    {
        let c = s.get_char(i);
        let ghost prefix = s@.subrange(start as int, i as int);
        let ghost next_prefix = s@.subrange(start as int, i + 1);
        proof {
            assert(next_prefix.drop_last() =~= prefix);
            assert(next_prefix.last() == s@[i as int]);
        }
        match digit_of(c, radix) {
            None => {
                proof {
                    let sub = s@.subrange(start as int, end as int);
                    assert(sub[i - start] == s@[i as int]);
                }
                return None;
            },
            Some(d) => {
                if over {
                    proof {
                        lemma_digits_val_grows(next_prefix, radix as nat, max as nat);
                    }
                } else {
                    proof {
                        assert(d < radix);
                        assert(acc * radix <= 65535 * 16) by (nonlinear_arith)
                            requires
                                acc <= 65535,
                                0 <= radix <= 16,
                        ;
                    }
                    let next = acc * radix + d;
                    if next > max {
                        over = true;
                    } else {
                        acc = next;
                    }
                }
            },
        }
        i += 1;
    }
    proof {
        assert(s@.subrange(start as int, end as int) =~= s@.subrange(start as int, i as int));
    }
    if over {
        None
    } else {
        Some(acc)
    }
}

/// Parse a numeral bounded by `max`, the shared core of [`parse_number`]
/// and [`parse_number_16`].
fn parse_numeral(s: &str, max: u32) -> (r: Result<u32, NumErr>)
    requires
        255 <= max <= 65535,
    ensures
        (match r {
            Ok(v) => Ok(v as nat),
            Err(e) => Err(e),
        }) == spec_parse_numeral(s@, max as nat),
{
    let n = s.unicode_len();
    if n == 0 {
        return Err(NumErr::Malformed);
    }
    let first = s.get_char(0);
    if first == '-' {
        return Err(NumErr::Negative);
    }
    let last = s.get_char(n - 1);
    let (radix, body_end): (u32, usize) = if last == 'H' || last == 'h' {
        (16, n - 1)
    } else if last == 'B' || last == 'b' {
        (2, n - 1)
    } else if last == 'O' || last == 'o' {
        (8, n - 1)
    } else if last == 'D' || last == 'd' {
        (10, n - 1)
    } else {
        (10, n)
    };
    proof {
        assert(radix_split(s@) == (radix as nat, s@.subrange(0, body_end as int))) by {
            if body_end < n {
                assert(s@.drop_last() =~= s@.subrange(0, body_end as int));
            } else {
                assert(s@ =~= s@.subrange(0, body_end as int));
            }
        }
    }
    let start: usize = if body_end > 0 && first == '+' {
        1
    } else {
        0
    };
    let ghost body = s@.subrange(0, body_end as int);
    proof {
        assert(strip_plus(body) =~= s@.subrange(start as int, body_end as int)) by {
            if start == 1 {
                assert(body.drop_first() =~= s@.subrange(1, body_end as int));
            }
        }
    }
    match scan_digits(s, start, body_end, radix, max) {
        Some(v) => Ok(v),
        None => Err(NumErr::Malformed),
    }
}

/// Parse an 8-bit numeral.
pub fn parse_number(s: &str) -> (r: Result<u8, NumErr>)
    ensures
        (match r {
            Ok(v) => Ok(v as nat),
            Err(e) => Err(e),
        }) == spec_parse_numeral(s@, 255),
{
    match parse_numeral(s, 255) {
        Ok(v) => Ok(v as u8),
        Err(e) => Err(e),
    }
}

/// Parse a 16-bit numeral.
pub fn parse_number_16(s: &str) -> (r: Result<u16, NumErr>)
    ensures
        (match r {
            Ok(v) => Ok(v as nat),
            Err(e) => Err(e),
        }) == spec_parse_numeral(s@, 65535),
{
    match parse_numeral(s, 65535) {
        Ok(v) => Ok(v as u16),
        Err(e) => Err(e),
    }
}

} // verus!

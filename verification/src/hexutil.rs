//! Text utilities for the hex tooling: parsing an offset written in decimal
//! or `0x`-prefixed hexadecimal, and decoding a hexadecimal string (spaces
//! allowed between digits) into bytes.

use vstd::prelude::*;
use vstd::string::{StringExecFns, StrSliceExecFns};
use vstd::arithmetic::mul::{lemma_mul_inequality, lemma_mul_nonnegative};
use vstd::arithmetic::div_mod::lemma_fundamental_div_mod;

verus! {

/// Is `c` a decimal digit (`0` through `9`)?
pub open spec fn is_dec_digit(c: char) -> bool {
    '0' <= c && c <= '9'
}

/// Is `c` a hexadecimal digit (`0`-`9`, `a`-`f`, or `A`-`F`)?
pub open spec fn is_hex_digit(c: char) -> bool {
    is_dec_digit(c) || ('a' <= c && c <= 'f') || ('A' <= c && c <= 'F')
}

/// Is `c` a digit of the given radix (10 or 16)?
pub open spec fn is_digit_of(c: char, radix: int) -> bool {
    if radix == 16 {
        is_hex_digit(c)
    } else {
        is_dec_digit(c)
    }
}

/// The numeric value of a digit character; zero for anything else.
pub open spec fn digit_value(c: char) -> int {
    if '0' <= c && c <= '9' {
        c as int - '0' as int
    } else if 'a' <= c && c <= 'f' {
        c as int - 'a' as int + 10
    } else if 'A' <= c && c <= 'F' {
        c as int - 'A' as int + 10
    } else {
        0
    }
}

/// The value of a run of digit characters read most-significant first.
pub open spec fn digits_value(s: Seq<char>, radix: int) -> int
    decreases s.len(),
{
    if s.len() == 0 {
        0
    } else {
        digits_value(s.drop_last(), radix) * radix + digit_value(s.last())
    }
}

/// Every character of `s` is a digit of the radix.
pub open spec fn all_digits_of(s: Seq<char>, radix: int) -> bool {
    forall|i: int| 0 <= i < s.len() ==> is_digit_of(s[i], radix)
}

/// A well-formed numeral: nonempty, all digits of the radix, and a value
/// that fits in 64 bits.
pub open spec fn valid_numeral(s: Seq<char>, radix: int) -> bool {
    s.len() > 0 && all_digits_of(s, radix) && digits_value(s, radix) <= u64::MAX
}

/// Does the text begin with the hexadecimal marker `0x`?
pub open spec fn has_hex_prefix(s: Seq<char>) -> bool {
    s.len() >= 2 && s[0] == '0' && s[1] == 'x'
}

/// Is the text a well-formed offset: a hexadecimal numeral after a `0x`
/// marker, or a decimal numeral otherwise?
pub open spec fn valid_offset(s: Seq<char>) -> bool {
    if has_hex_prefix(s) {
        valid_numeral(s.skip(2), 16)
    } else {
        valid_numeral(s, 10)
    }
}

/// The value of a well-formed offset.
pub open spec fn offset_value(s: Seq<char>) -> int {
    if has_hex_prefix(s) {
        digits_value(s.skip(2), 16)
    } else {
        digits_value(s, 10)
    }
}

/// The value of a run of digits is never negative.
proof fn lemma_digits_value_nonneg(s: Seq<char>, radix: int)
    requires
        radix >= 2,
    ensures
        digits_value(s, radix) >= 0,
    decreases s.len(),
{
    if s.len() > 0 {
        lemma_digits_value_nonneg(s.drop_last(), radix);
        lemma_mul_nonnegative(digits_value(s.drop_last(), radix), radix);
    }
}

/// Reading one more digit multiplies the prefix value by the radix and adds
/// the digit.
proof fn lemma_digits_value_take_step(s: Seq<char>, i: int, radix: int)
    requires
        0 <= i < s.len(),
    ensures
        digits_value(s.take(i + 1), radix) == digits_value(s.take(i), radix) * radix + digit_value(
            s[i],
        ),
{
    assert(s.take(i + 1).drop_last() =~= s.take(i));
    assert(s.take(i + 1).last() == s[i]);
}

/// The value of the whole run is at least the value of any prefix.
proof fn lemma_digits_value_prefix_le(s: Seq<char>, i: int, radix: int)
    requires
        0 <= i <= s.len(),
        radix >= 2,
    ensures
        digits_value(s.take(i), radix) <= digits_value(s, radix),
    decreases s.len() - i,
{
    if i == s.len() {
        assert(s.take(i) =~= s);
    } else {
        lemma_digits_value_take_step(s, i, radix);
        let v = digits_value(s.take(i), radix);
        lemma_digits_value_nonneg(s.take(i), radix);
        lemma_mul_inequality(1, radix, v);
        assert(v * radix >= v * 1);
        lemma_digits_value_prefix_le(s, i + 1, radix);
    }
}

/// The value of `c` as a digit of the radix, if it is one.
fn digit_of(c: char, radix: u64) -> (r: Option<u64>)
    requires
        radix == 10 || radix == 16,
    ensures
        is_digit_of(c, radix as int) ==> r == Some::<u64>(digit_value(c) as u64),
        !is_digit_of(c, radix as int) ==> r is None,
{
    let v = c as u32;
    if 48 <= v && v <= 57 {
        Some((v - 48) as u64)
    } else if radix == 16 && 97 <= v && v <= 102 {
        Some((v - 97 + 10) as u64)
    } else if radix == 16 && 65 <= v && v <= 70 {
        Some((v - 65 + 10) as u64)
    } else {
        None
    }
}

/// Parse the characters of `src` from position `start` on as a numeral of
/// the radix. `None` exactly where no digit follows `start`, a character is
/// no digit of the radix, or the value does not fit in 64 bits.
fn parse_numeral(src: &str, start: usize, radix: u64) -> (r: Option<u64>)
    requires
        radix == 10 || radix == 16,
        start <= src@.len(),
    ensures
        valid_numeral(src@.skip(start as int), radix as int) ==> r == Some::<u64>(
            digits_value(src@.skip(start as int), radix as int) as u64,
        ),
        !valid_numeral(src@.skip(start as int), radix as int) ==> r is None,
{
    let ghost t = src@.skip(start as int);
    let n = src.unicode_len();
    if n == start {
        return None;
    }
    let mut value: u64 = 0;
    let mut i: usize = start;
    while i < n
        invariant
            radix == 10 || radix == 16,
            start <= i <= n,
            n == src@.len(),
            t == src@.skip(start as int),
            value == digits_value(t.take(i - start), radix as int),
            all_digits_of(t.take(i - start), radix as int),
        decreases n - i,
    {
        let c = src.get_char(i);
        proof {
            assert(t[i - start] == src@[i as int]);
        }
        let d = match digit_of(c, radix) {
            Some(d) => d,
            None => {
                proof {
                    assert(!is_digit_of(t[i - start], radix as int));
                }
                return None;
            },
        };
        proof {
            lemma_digits_value_take_step(t, i - start, radix as int);
        }
        if value > (u64::MAX - d) / radix {
            proof {
                lemma_overflow_means_invalid(t, i - start, radix as int, value as int, d as int);
            }
            return None;
        }
        proof {
            lemma_no_overflow(value as int, d as int, radix as int);
        }
        value = value * radix + d;
        i = i + 1;
    }
    proof {
        assert(t.take(n - start) =~= t);
    }
    Some(value)
}

/// A digit step whose exec overflow test passes stays within 64 bits.
proof fn lemma_no_overflow(value: int, d: int, radix: int)
    requires
        radix >= 2,
        0 <= d <= u64::MAX,
        0 <= value,
        value <= (u64::MAX - d) / radix,
    ensures
        value * radix + d <= u64::MAX,
{
    let q = (u64::MAX - d) / radix;
    lemma_fundamental_div_mod(u64::MAX - d, radix);
    lemma_mul_inequality(value, q, radix);
    assert(q * radix == radix * q);
    assert(value * radix <= q * radix);
}

/// A digit step whose exec overflow test fails pushes the value of the whole
/// run beyond 64 bits.
proof fn lemma_overflow_means_invalid(s: Seq<char>, i: int, radix: int, value: int, d: int)
    requires
        radix >= 2,
        0 <= i < s.len(),
        0 <= d <= u64::MAX,
        value == digits_value(s.take(i), radix),
        d == digit_value(s[i]),
        value > (u64::MAX - d) / radix,
    ensures
        digits_value(s, radix) > u64::MAX,
{
    let q = (u64::MAX - d) / radix;
    lemma_fundamental_div_mod(u64::MAX - d, radix);
    // u64::MAX - d == radix * q + (u64::MAX - d) % radix, with remainder < radix
    lemma_mul_inequality(q + 1, value, radix);
    assert((q + 1) * radix == q * radix + radix) by (nonlinear_arith);
    assert(q * radix == radix * q);
    lemma_digits_value_take_step(s, i, radix);
    assert(digits_value(s.take(i + 1), radix) > u64::MAX);
    lemma_digits_value_prefix_le(s, i + 1, radix);
}

/// The text with every space character removed, other characters kept in
/// order.
pub open spec fn without_spaces(s: Seq<char>) -> Seq<char>
    decreases s.len(),
{
    if s.len() == 0 {
        Seq::empty()
    } else if s.last() == ' ' {
        without_spaces(s.drop_last())
    } else {
        without_spaces(s.drop_last()).push(s.last())
    }
}

/// Well-formed hexadecimal text, after space removal: an even number of
/// characters, every one a hexadecimal digit.
pub open spec fn valid_hex_text(s: Seq<char>) -> bool {
    s.len() % 2 == 0 && forall|i: int| 0 <= i < s.len() ==> is_hex_digit(s[i])
}

/// The byte a pair of hexadecimal digits denotes.
pub open spec fn hex_pair_value(hi: char, lo: char) -> u8 {
    (digit_value(hi) * 16 + digit_value(lo)) as u8
}

/// The bytes denoted by hexadecimal text, two digits per byte.
pub open spec fn bytes_of_hex(s: Seq<char>) -> Seq<u8> {
    Seq::new((s.len() / 2) as nat, |i: int| hex_pair_value(s[2 * i], s[2 * i + 1]))
}

/// Decode hexadecimal text into bytes, two digits per byte; spaces anywhere
/// between characters are ignored. An odd number of digits or a character
/// that is no hexadecimal digit is an error.
pub fn hex_to_bytes(hex: &str) -> (r: Result<Vec<u8>, String>)
    ensures
        valid_hex_text(without_spaces(hex@)) ==> (r matches Ok(b) && b@ == bytes_of_hex(
            without_spaces(hex@),
        )),
        !valid_hex_text(without_spaces(hex@)) ==> r is Err,
{
    let n = hex.unicode_len();
    let mut cleaned: Vec<char> = Vec::new();
    let mut i: usize = 0;
    while i < n
        invariant
            i <= n,
            n == hex@.len(),
            cleaned@ == without_spaces(hex@.take(i as int)),
        decreases n - i,
    {
        let c = hex.get_char(i);
        proof {
            assert(hex@.take(i + 1).drop_last() =~= hex@.take(i as int));
            assert(hex@.take(i + 1).last() == hex@[i as int]);
        }
        if c != ' ' {
            cleaned.push(c);
        }
        i = i + 1;
    }
    proof {
        assert(hex@.take(n as int) =~= hex@);
    }
    let ghost t = without_spaces(hex@);
    if cleaned.len() % 2 != 0 {
        return Err(String::from_str("invalid hexadecimal string (odd length)"));
    }
    let mut out: Vec<u8> = Vec::new();
    let mut j: usize = 0;
    while j < cleaned.len()
        invariant
            t == without_spaces(hex@),
            t == cleaned@,
            j % 2 == 0,
            j <= cleaned@.len(),
            cleaned@.len() % 2 == 0,
            out@.len() == j / 2,
            forall|k: int|
                0 <= k < j / 2 ==> out@[k] == hex_pair_value(cleaned@[2 * k], cleaned@[2 * k + 1]),
            forall|p: int| 0 <= p < j ==> is_hex_digit(cleaned@[p]),
        decreases cleaned@.len() - j,
    {
        let hi = cleaned[j];
        let lo = cleaned[j + 1];
        let h = match digit_of(hi, 16) {
            Some(h) => h,
            None => {
                proof {
                    assert(!is_hex_digit(t[j as int]));
                }
                return Err(String::from_str("invalid hexadecimal digit"));
            },
        };
        let l = match digit_of(lo, 16) {
            Some(l) => l,
            None => {
                proof {
                    assert(!is_hex_digit(t[j + 1]));
                }
                return Err(String::from_str("invalid hexadecimal digit"));
            },
        };
        out.push((h * 16 + l) as u8);
        j = j + 2;
    }
    proof {
        assert(out@ =~= bytes_of_hex(t));
    }
    Ok(out)
}

/// Parse an offset written either as a decimal numeral or, after a `0x`
/// marker, as a hexadecimal numeral. Anything else, or a value that does
/// not fit in 64 bits, is an error.
pub fn parse_offset(src: &str) -> (r: Result<u64, String>)
    ensures
        valid_offset(src@) ==> (r matches Ok(v) && v == offset_value(src@)),
        !valid_offset(src@) ==> r is Err,
{
    let n = src.unicode_len();
    let hex = n >= 2 && src.get_char(0) == '0' && src.get_char(1) == 'x';
    if hex {
        match parse_numeral(src, 2, 16) {
            Some(v) => {
                proof {
                    lemma_digits_value_nonneg(src@.skip(2), 16);
                }
                Ok(v)
            },
            None => {
                let mut message = String::from_str("invalid hexadecimal offset: ");
                message.append(src);
                Err(message)
            },
        }
    } else {
        match parse_numeral(src, 0, 10) {
            Some(v) => {
                proof {
                    assert(src@.skip(0) =~= src@);
                    lemma_digits_value_nonneg(src@, 10);
                }
                Ok(v)
            },
            None => {
                proof {
                    assert(src@.skip(0) =~= src@);
                }
                let mut message = String::from_str("invalid decimal offset: ");
                message.append(src);
                Err(message)
            },
        }
    }
}

} // verus!

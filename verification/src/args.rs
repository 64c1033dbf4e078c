//! The construction argument surface: parsing of the optional base address
//! (decimal, or hexadecimal with a `0x` prefix) and the static help text.

use vstd::prelude::*;

verus! {

/// ASCII whitespace, ignored at both ends of a base argument.
pub open spec fn is_space(c: char) -> bool {
    c == ' ' || c == '\t' || c == '\n' || c == '\r' || c == '\u{c}'
}

/// How many whitespace characters the sequence starts with.
pub open spec fn leading_ws(s: Seq<char>) -> int
    decreases s.len(),
{
    if s.len() == 0 || !is_space(s[0]) {
        0
    } else {
        1 + leading_ws(s.drop_first())
    }
}

/// How many whitespace characters the sequence ends with.
pub open spec fn trailing_ws(s: Seq<char>) -> int
    decreases s.len(),
{
    if s.len() == 0 || !is_space(s.last()) {
        0
    } else {
        1 + trailing_ws(s.drop_last())
    }
}

/// The sequence with leading and trailing whitespace removed.
pub open spec fn trimmed(s: Seq<char>) -> Seq<char> {
    if leading_ws(s) == s.len() {
        Seq::empty()
    } else {
        s.subrange(leading_ws(s), s.len() - trailing_ws(s))
    }
}

/// A digit of the given radix (10, or 16 with both letter cases).
pub open spec fn is_digit(c: char, radix: int) -> bool {
    ('0' as u32 <= c as u32 && c as u32 <= '9' as u32) || (radix == 16 && (('a' as u32 <= c as u32
        && c as u32 <= 'f' as u32) || ('A' as u32 <= c as u32 && c as u32 <= 'F' as u32)))
}

/// The numeric value of a digit character.
pub open spec fn digit_val(c: char) -> int {
    if 'a' as u32 <= c as u32 && c as u32 <= 'f' as u32 {
        c as u32 - 'a' as u32 + 10
    } else if 'A' as u32 <= c as u32 && c as u32 <= 'F' as u32 {
        c as u32 - 'A' as u32 + 10
    } else {
        c as u32 - '0' as u32
    }
}

/// Every character is a digit of the radix.
pub open spec fn all_digits(s: Seq<char>, radix: int) -> bool {
    forall|i: int| 0 <= i < s.len() ==> is_digit(#[trigger] s[i], radix)
}

/// The value of a digit string, most significant digit first.
pub open spec fn digits_val(s: Seq<char>, radix: int) -> int
    decreases s.len(),
{
    if s.len() == 0 {
        0
    } else {
        digits_val(s.drop_last(), radix) * radix + digit_val(s.last())
    }
}

/// What a digit string parses to: its value, provided the string is
/// non-empty, all digits, and the value fits a `u64`; `None` otherwise.
pub open spec fn parse_radix(s: Seq<char>, radix: int) -> Option<u64> {
    if s.len() > 0 && all_digits(s, radix) && digits_val(s, radix) <= u64::MAX {
        Some(digits_val(s, radix) as u64)
    } else {
        None
    }
}

/// What a base argument parses to: after trimming, a `0x`- or `0X`-prefixed
/// string is read as hexadecimal, anything else as decimal.
pub open spec fn spec_parse_base(s: Seq<char>) -> Option<u64> {
    let t = trimmed(s);
    if t.len() >= 2 && t[0] == '0' && (t[1] == 'x' || t[1] == 'X') {
        parse_radix(t.skip(2), 16)
    } else {
        parse_radix(t, 10)
    }
}

/// The base address an optional argument resolves to: a parseable argument
/// gives its value; a missing or unparseable one defaults to 0.
pub open spec fn spec_resolve_base(arg: Option<&str>) -> u64 {
    match arg {
        Option::None => 0,
        Option::Some(s) => match spec_parse_base(s@) {
            Option::Some(v) => v,
            Option::None => 0,
        },
    }
}

/// `leading_ws` counts exactly the unbroken whitespace prefix.
proof fn lemma_leading_ws_at(s: Seq<char>, i: int)
    requires
        0 <= i <= s.len(),
        forall|j: int| 0 <= j < i ==> is_space(#[trigger] s[j]),
        i < s.len() ==> !is_space(s[i]),
    ensures
        leading_ws(s) == i,
    decreases i,
{
    if i == 0 {
    } else {
        assert(is_space(s[0]));
        lemma_leading_ws_at(s.drop_first(), i - 1);
    }
}

/// `trailing_ws` counts exactly the unbroken whitespace suffix.
proof fn lemma_trailing_ws_at(s: Seq<char>, i: int)
    requires
        0 <= i <= s.len(),
        forall|j: int| s.len() - i <= j < s.len() ==> is_space(#[trigger] s[j]),
        i < s.len() ==> !is_space(s[s.len() - 1 - i]),
    ensures
        trailing_ws(s) == i,
    decreases i,
{
    if i == 0 {
    } else {
        assert(is_space(s.last()));
        lemma_trailing_ws_at(s.drop_last(), i - 1);
    }
}

/// The value of a digit string is never negative.
proof fn lemma_digits_val_nonneg(s: Seq<char>, radix: int)
    requires
        radix >= 2,
        all_digits(s, radix),
    ensures
        digits_val(s, radix) >= 0,
    decreases s.len(),
{
    if s.len() > 0 {
        assert(all_digits(s.drop_last(), radix));
        lemma_digits_val_nonneg(s.drop_last(), radix);
        assert(is_digit(s.last(), radix));
        let a = digits_val(s.drop_last(), radix);
        assert(a * radix >= 0) by (nonlinear_arith)
            requires
                a >= 0,
                radix >= 2,
        ;
    }
}

/// A prefix of a digit string never has a greater value than the whole.
proof fn lemma_digits_val_prefix_le(s: Seq<char>, radix: int, i: int)
    requires
        radix >= 2,
        all_digits(s, radix),
        0 <= i <= s.len(),
    ensures
        digits_val(s.take(i), radix) <= digits_val(s, radix),
    decreases s.len() - i,
{
    if i == s.len() {
        assert(s.take(i) =~= s);
    } else {
        assert(s.take(i + 1).drop_last() =~= s.take(i));
        assert(s.take(i + 1).last() == s[i]);
        assert(all_digits(s.take(i), radix));
        lemma_digits_val_nonneg(s.take(i), radix);
        let a = digits_val(s.take(i), radix);
        assert(a * radix >= a) by (nonlinear_arith)
            requires
                a >= 0,
                radix >= 2,
        ;
        assert(is_digit(s[i], radix));
        assert(digits_val(s.take(i + 1), radix) >= digits_val(s.take(i), radix));
        lemma_digits_val_prefix_le(s, radix, i + 1);
    }
}

/// Whether `c` is ASCII whitespace.
fn is_space_char(c: char) -> (b: bool)
    ensures
        b == is_space(c),
{
    c == ' ' || c == '\t' || c == '\n' || c == '\r' || c == '\u{c}'
}

/// The digit value of `c` in the given radix, or `None` for a non-digit.
fn digit_of(c: char, hex: bool) -> (r: Option<u64>)
    ensures
        r is Some <==> is_digit(c, if hex { 16int } else { 10int }),
        r matches Some(d) ==> d == digit_val(c) && d < 16 && (!hex ==> d < 10),
{
    let u = c as u32;
    if u >= '0' as u32 && u <= '9' as u32 {
        Some((u - '0' as u32) as u64)
    } else if hex && u >= 'a' as u32 && u <= 'f' as u32 {
        Some((u - 'a' as u32 + 10) as u64)
    } else if hex && u >= 'A' as u32 && u <= 'F' as u32 {
        Some((u - 'A' as u32 + 10) as u64)
    } else {
        None
    }
}

/// Parses an optional base address: leading and trailing ASCII whitespace is
/// ignored, a `0x`/`0X` prefix selects hexadecimal, anything else is read as
/// decimal.  Returns `None` when the digits are missing or malformed or the
/// value does not fit a `u64` — exactly `spec_parse_base` of the string.
pub fn parse_base_arg(s: &str) -> (r: Option<u64>)
    ensures
        r == spec_parse_base(s@),
{
    let n = s.unicode_len();
    let mut lo: usize = 0;
    while lo < n && is_space_char(s.get_char(lo))
        invariant
            n == s@.len(),
            0 <= lo <= n,
            forall|j: int| 0 <= j < lo ==> is_space(#[trigger] s@[j]),
        decreases n - lo,
    {
        lo += 1;
    }
    proof {
        lemma_leading_ws_at(s@, lo as int);
    }
    if lo == n {
        return None;
    }
    let mut hi: usize = n;
    while hi > lo && is_space_char(s.get_char(hi - 1))
        invariant
            n == s@.len(),
            lo <= hi <= n,
            lo < n,
            !is_space(s@[lo as int]),
            forall|j: int| hi <= j < n ==> is_space(#[trigger] s@[j]),
        decreases hi,
    {
        hi -= 1;
    }
    proof {
        assert(hi > lo);
        lemma_trailing_ws_at(s@, n - hi as int);
        assert(trimmed(s@) =~= s@.subrange(lo as int, hi as int));
    }
    let ghost t = trimmed(s@);
    let hex: bool = if hi - lo >= 2 {
        let c0 = s.get_char(lo);
        let c1 = s.get_char(lo + 1);
        c0 == '0' && (c1 == 'x' || c1 == 'X')
    } else {
        false
    };
    proof {
        assert(hex == (t.len() >= 2 && t[0] == '0' && (t[1] == 'x' || t[1] == 'X')));
    }
    let dlo: usize = if hex {
        lo + 2
    } else {
        lo
    };
    let ghost rx: int = if hex {
        16int
    } else {
        10int
    };
    let ghost digits = s@.subrange(dlo as int, hi as int);
    proof {
        if hex {
            assert(digits =~= t.skip(2));
        } else {
            assert(digits =~= t);
        }
        assert(spec_parse_base(s@) == parse_radix(digits, rx));
    }
    if dlo == hi {
        return None;
    }
    let mut v: u64 = 0;
    let mut i: usize = dlo;
    while i < hi
        invariant
            n == s@.len(),
            dlo <= i <= hi <= n,
            rx == if hex { 16int } else { 10int },
            digits =~= s@.subrange(dlo as int, hi as int),
            spec_parse_base(s@) == parse_radix(digits, rx),
            forall|j: int| dlo <= j < i ==> is_digit(#[trigger] s@[j], rx),
            v == digits_val(s@.subrange(dlo as int, i as int), rx),
        decreases hi - i,
    {
        let c = s.get_char(i);
        let d = match digit_of(c, hex) {
            Some(d) => d,
            None => {
                proof {
                    assert(digits[i - dlo] == s@[i as int]);
                    assert(!all_digits(digits, rx));
                }
                return None;
            },
        };
        proof {
            assert(s@.subrange(dlo as int, i + 1).drop_last() =~= s@.subrange(
                dlo as int,
                i as int,
            ));
            assert(s@.subrange(dlo as int, i + 1).last() == s@[i as int]);
        }
        if hex {
            if v > u64::MAX / 16 {
                proof {
                    overflow_means_none(s@, dlo as int, i as int, hi as int, rx, digits);
                }
                return None;
            }
            v = v * 16 + d;
        } else {
            if v > u64::MAX / 10 || (v == u64::MAX / 10 && d > u64::MAX % 10) {
                proof {
                    overflow_means_none(s@, dlo as int, i as int, hi as int, rx, digits);
                }
                return None;
            }
            v = v * 10 + d;
        }
        i += 1;
    }
    proof {
        assert(s@.subrange(dlo as int, hi as int) =~= digits);
        assert(all_digits(digits, rx));
        assert(parse_radix(digits, rx) == Some(v));
    }
    Some(v)
}

/// A digit whose weighted addition would overflow forces the whole parse to
/// fail: the full value can only be greater still, or a later character is
/// no digit at all.
proof fn overflow_means_none(s: Seq<char>, dlo: int, i: int, hi: int, rx: int, digits: Seq<char>)
    requires
        0 <= dlo <= i < hi <= s.len(),
        rx == 10 || rx == 16,
        digits =~= s.subrange(dlo, hi),
        forall|j: int| dlo <= j <= i ==> is_digit(#[trigger] s[j], rx),
        digits_val(s.subrange(dlo, i + 1), rx) > u64::MAX,
    ensures
        parse_radix(digits, rx) is None,
{
    if all_digits(digits, rx) {
        assert(digits.take(i + 1 - dlo) =~= s.subrange(dlo, i + 1));
        lemma_digits_val_prefix_le(digits, rx, i + 1 - dlo);
        assert(digits_val(digits, rx) > u64::MAX);
    }
}

/// Resolves the optional `base` argument: its parsed value, or the default
/// base 0 when the argument is missing or unparseable.
pub fn resolve_base(arg: Option<&str>) -> (b: u64)
    ensures
        b == spec_resolve_base(arg),
{
    match arg {
        None => 0,
        Some(s) => match parse_base_arg(s) {
            Some(v) => v,
            None => 0,
        },
    }
}

/// The characters of the static help text.
pub open spec fn spec_help_text() -> Seq<char> {
    "The rawmem connector exposes a raw memory image as physical memory (read-only).\n\nArgs:\n  target  - path to the raw image (required)\n  base    - optional physical base (hex like 0x100000000 or decimal)\n\nExamples:\n  rawmem::/path/to/mem.img\n  rawmem::/path/to/mem.img:base=0x100000000\n"@
}

/// A static human-readable description of the `target` and `base` arguments;
/// documentation only, no behavior.
pub fn help() -> (r: String)
    ensures
        r@ == spec_help_text(),
{
    "The rawmem connector exposes a raw memory image as physical memory (read-only).\n\nArgs:\n  target  - path to the raw image (required)\n  base    - optional physical base (hex like 0x100000000 or decimal)\n\nExamples:\n  rawmem::/path/to/mem.img\n  rawmem::/path/to/mem.img:base=0x100000000\n".to_owned()
}

} // verus!

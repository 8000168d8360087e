//! Text helpers: white space, splitting, searching, and reading a decimal byte.
//!
//! Contracts speak of a string through its view, the sequence of its characters.

use vstd::prelude::*;
use vstd::std_specs::iter::IteratorSpec;
use vstd::string::StringSliceAdditionalSpecFns;
use vstd::utf8::encode_utf8_decode_utf8;

verus! {

/// Whether `c` is white space: a character with Unicode's `White_Space` property.
pub open spec fn white_space(c: char) -> bool {
    let u = c as u32;
    ||| 0x09 <= u <= 0x0D
    ||| u == 0x20
    ||| u == 0x85
    ||| u == 0xA0
    ||| u == 0x1680
    ||| 0x2000 <= u <= 0x200A
    ||| u == 0x2028
    ||| u == 0x2029
    ||| u == 0x202F
    ||| u == 0x205F
    ||| u == 0x3000
}

/// Whether `text` holds nothing but white space; the empty text is blank.
pub open spec fn blank(text: Seq<char>) -> bool {
    forall|i: int| 0 <= i < text.len() ==> white_space(#[trigger] text[i])
}

/// `parts` glued together, with `separator` between each two neighbours.
pub open spec fn joined(parts: Seq<Seq<char>>, separator: char) -> Seq<char>
    decreases parts.len(),
{
    if parts.len() == 0 {
        Seq::empty()
    } else if parts.len() == 1 {
        parts[0]
    } else {
        joined(parts.drop_last(), separator).push(separator) + parts.last()
    }
}

/// Whether `pattern` stands in `text` from position `at` on.
pub open spec fn occurs_at(pattern: Seq<char>, text: Seq<char>, at: int) -> bool {
    &&& 0 <= at
    &&& at + pattern.len() <= text.len()
    &&& text.subrange(at, at + pattern.len()) == pattern
}

/// Whether `pattern` stands somewhere in `text`; the empty pattern stands in every text.
pub open spec fn occurs_in(pattern: Seq<char>, text: Seq<char>) -> bool {
    exists|at: int| occurs_at(pattern, text, at)
}

/// Whether `c` is one of the ten decimal digits.
pub open spec fn decimal_digit(c: char) -> bool {
    0x30 <= c as u32 <= 0x39
}

/// The number that a run of decimal digits writes.
pub open spec fn decimal_value(digits: Seq<char>) -> nat
    decreases digits.len(),
{
    if digits.len() == 0 {
        0
    } else {
        (decimal_value(digits.drop_last()) * 10 + (digits.last() as u32 - 0x30)) as nat
    }
}

/// Whether every character of `digits` is a decimal digit.
pub open spec fn all_decimal(digits: Seq<char>) -> bool {
    forall|i: int| 0 <= i < digits.len() ==> decimal_digit(#[trigger] digits[i])
}

/// The byte that `text` writes in decimal: one or more digits, after an optional `+`,
/// whose number is at most 255. Anything else writes no byte.
pub open spec fn decimal_byte(text: Seq<char>) -> Option<u8> {
    let digits = if text.len() > 0 && text[0] == '+' {
        text.skip(1)
    } else {
        text
    };
    if digits.len() > 0 && all_decimal(digits) && decimal_value(digits) <= 255 {
        Some(decimal_value(digits) as u8)
    } else {
        None
    }
}

/// Gluing one more part on: the parts so far, the separator unless there were none, the part.
pub proof fn lemma_joined_push(parts: Seq<Seq<char>>, part: Seq<char>, separator: char)
    ensures
        joined(parts.push(part), separator) == if parts.len() == 0 {
            part
        } else {
            joined(parts, separator).push(separator) + part
        },
{
    assert(parts.push(part).drop_last() =~= parts);
}

/// A run of digits writes at least what any of its beginnings writes.
pub proof fn lemma_decimal_value_grows(digits: Seq<char>, n: int)
    requires
        all_decimal(digits),
        0 <= n <= digits.len(),
    ensures
        decimal_value(digits.take(n)) <= decimal_value(digits),
    decreases digits.len() - n,
{
    if n == digits.len() {
        assert(digits.take(n) =~= digits);
    } else {
        lemma_decimal_value_grows(digits, n + 1);
        assert(digits.take(n + 1).drop_last() =~= digits.take(n));
    }
}

/// Whether `c` is white space.
pub fn is_white_space(c: char) -> (r: bool)
    ensures
        r == white_space(c),
{
    let u: u32 = c as u32;
    (0x09 <= u && u <= 0x0D) || u == 0x20 || u == 0x85 || u == 0xA0 || u == 0x1680 || (0x2000 <= u
        && u <= 0x200A) || u == 0x2028 || u == 0x2029 || u == 0x202F || u == 0x205F || u == 0x3000
}

/// The characters of `text`, in order.
pub fn chars_of(text: &str) -> (chars: Vec<char>)
    ensures
        chars@ == text@,
{
    let mut chars: Vec<char> = Vec::new();
    for c in it: text.chars()
        invariant
            it.seq() == text@,
            chars@ == text@.take(it.index() as int),
    {
        chars.push(c);
    }
    chars
}

/// Whether `text` holds nothing but white space.
pub fn is_blank(text: &str) -> (r: bool)
    ensures
        r == blank(text@),
{
    let mut all: bool = true;
    for c in it: text.chars()
        invariant
            it.seq() == text@,
            all == blank(text@.take(it.index() as int)),
    {
        proof {
            let k = it.index() as int;
            assert(text@.take(k + 1)[k] == c);
        }
        all = is_white_space(c) && all;
    }
    proof {
        assert(text@.take(text@.len() as int) =~= text@);
    }
    all
}

/// Whether two texts hold the same characters.
pub fn same_text(a: &str, b: &str) -> (same: bool)
    ensures
        same == (a@ == b@),
{
    let left = a.as_bytes();
    let right = b.as_bytes();
    proof {
        encode_utf8_decode_utf8(a@);
        encode_utf8_decode_utf8(b@);
    }
    if left.len() != right.len() {
        return false;
    }
    let mut i: usize = 0;
    while i < left.len()
        invariant
            left.len() == right.len(),
            i <= left.len(),
            left@ == a.spec_bytes(),
            right@ == b.spec_bytes(),
            forall|j: int| 0 <= j < i ==> left[j] == right[j],
        decreases left.len() - i,
    {
        if left[i] != right[i] {
            return false;
        }
        i = i + 1;
    }
    proof {
        assert(left@ =~= right@);
    }
    true
}

/// The first byte of `text` in UTF-8, where it has one.
pub fn first_byte(text: &str) -> (first: Option<u8>)
    ensures
        match first {
            Some(byte) => text@.len() > 0 && byte == text.spec_bytes()[0],
            None => text@.len() == 0,
        },
{
    if text.is_empty() {
        None
    } else {
        let bytes = text.as_bytes();
        proof {
            encode_utf8_decode_utf8(text@);
        }
        Some(bytes[0])
    }
}

/// Cuts `text` at every `separator`. There is always at least one part, no part
/// holds the separator, and the parts glued back together give `text`.
pub fn split_on<'a>(text: &'a str, separator: char) -> (parts: Vec<&'a str>)
    ensures
        parts.len() >= 1,
        joined(parts.deep_view(), separator) == text@,
        forall|i: int| 0 <= i < parts.len() ==> !(#[trigger] parts[i])@.contains(separator),
{
    let chars = chars_of(text);
    let n: usize = chars.len();
    let mut parts: Vec<&'a str> = Vec::new();
    let mut start: usize = 0;
    let mut k: usize = 0;
    while k < n
        invariant
            chars@ == text@,
            n == chars.len(),
            start <= k <= n,
            forall|i: int| 0 <= i < parts.len() ==> !(#[trigger] parts[i])@.contains(separator),
            !text@.subrange(start as int, k as int).contains(separator),
            joined(parts.deep_view().push(text@.subrange(start as int, k as int)), separator)
                == text@.take(k as int),
        decreases n - k,
    {
        let ghost before = parts.deep_view();
        let ghost current = text@.subrange(start as int, k as int);
        proof {
            lemma_joined_push(before, current, separator);
        }
        if chars[k] == separator {
            let part = text.substring_char(start, k);
            parts.push(part);
            start = k + 1;
            proof {
                let after = parts.deep_view();
                assert(after =~= before.push(current));
                let fresh = text@.subrange(start as int, start as int);
                lemma_joined_push(after, fresh, separator);
            }
        } else {
            proof {
                let longer = text@.subrange(start as int, k + 1);
                lemma_joined_push(before, longer, separator);
                if before.len() > 0 {
                    assert(joined(before, separator).push(separator) + longer =~= (joined(
                        before,
                        separator,
                    ).push(separator) + current).push(text@[k as int]));
                }
                assert forall|i: int| 0 <= i < longer.len() implies longer[i] != separator by {
                    if i < current.len() {
                        assert(current.contains(current[i]));
                    }
                }
            }
        }
        k = k + 1;
    }
    let ghost before = parts.deep_view();
    let last = text.substring_char(start, n);
    parts.push(last);
    proof {
        assert(parts.deep_view() =~= before.push(text@.subrange(start as int, n as int)));
    }
    parts
}

/// Whether `pattern` stands somewhere in `text`.
pub fn contains_text(text: &str, pattern: &str) -> (found: bool)
    ensures
        found == occurs_in(pattern@, text@),
{
    let hay = chars_of(text);
    let needle = chars_of(pattern);
    let n: usize = hay.len();
    let m: usize = needle.len();
    if m > n {
        return false;
    }
    let mut at: usize = 0;
    while at <= n - m
        invariant
            hay@ == text@,
            needle@ == pattern@,
            n == hay.len(),
            m == needle.len(),
            m <= n,
            at <= n - m + 1,
            forall|i: int| 0 <= i < at ==> !occurs_at(pattern@, text@, i),
        decreases n - m + 1 - at,
    {
        let mut j: usize = 0;
        while j < m && hay[at + j] == needle[j]
            invariant
                hay@ == text@,
                needle@ == pattern@,
                n == hay.len(),
                m == needle.len(),
                at + m <= n,
                j <= m,
                text@.subrange(at as int, at + j) == pattern@.take(j as int),
            decreases m - j,
        {
            proof {
                assert(text@.subrange(at as int, at + j + 1) =~= text@.subrange(
                    at as int,
                    at + j,
                ).push(text@[at + j]));
            }
            j = j + 1;
        }
        if j == m {
            proof {
                assert(pattern@.take(m as int) =~= pattern@);
                assert(occurs_at(pattern@, text@, at as int));
            }
            return true;
        }
        proof {
            let window = text@.subrange(at as int, at + m);
            assert(window[j as int] != pattern@[j as int]);
        }
        at = at + 1;
    }
    false
}

/// Reads `text` as a byte written in decimal.
pub fn parse_byte(text: &str) -> (byte: Option<u8>)
    ensures
        byte == decimal_byte(text@),
{
    let chars = chars_of(text);
    let n: usize = chars.len();
    let start: usize = if n > 0 && chars[0] == '+' {
        1
    } else {
        0
    };
    let ghost digits = text@.skip(start as int);
    proof {
        assert(text@.skip(0) =~= text@);
    }
    if start == n {
        return None;
    }
    let mut value: u32 = 0;
    let mut k: usize = start;
    while k < n
        invariant
            chars@ == text@,
            n == chars.len(),
            start <= k <= n,
            digits == text@.skip(start as int),
            decimal_byte(text@) == if digits.len() > 0 && all_decimal(digits) && decimal_value(
                digits,
            ) <= 255 {
                Some(decimal_value(digits) as u8)
            } else {
                None
            },
            all_decimal(digits.take(k - start)),
            value == decimal_value(digits.take(k - start)),
            value <= 255,
        decreases n - k,
    {
        let c: u32 = chars[k] as u32;
        proof {
            let shorter = digits.take(k - start);
            let longer = digits.take(k - start + 1);
            assert(longer.drop_last() =~= shorter);
            assert(longer.last() == text@[k as int]);
        }
        if c < 0x30 || c > 0x39 {
            proof {
                assert(!decimal_digit(digits[k - start]));
            }
            return None;
        }
        value = value * 10 + (c - 0x30);
        proof {
            let longer = digits.take(k - start + 1);
            assert forall|i: int| 0 <= i < longer.len() implies decimal_digit(
                #[trigger] longer[i],
            ) by {
                if i < k - start {
                    assert(longer[i] == digits.take(k - start)[i]);
                }
            }
        }
        if value > 255 {
            proof {
                if all_decimal(digits) {
                    lemma_decimal_value_grows(digits, k - start + 1);
                }
            }
            return None;
        }
        k = k + 1;
    }
    proof {
        assert(digits.take(n - start) =~= digits);
    }
    Some(value as u8)
}

} // verus!

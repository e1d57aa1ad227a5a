//! Character classes, scanning and number reading over the chars of a line.

use vstd::prelude::*;

verus! {

/// The sets of characters that the line grammar scans over.
#[derive(Clone, Copy, Debug, PartialEq, Eq, Structural)]
pub enum CharClass {
    /// Letters, digits, `.`, `$` and `_`: the characters of a bare label.
    LabelChar,
    /// ASCII letters, digits, `.` and `_`: the characters of an opcode.
    OpChar,
    /// The ASCII decimal digits.
    Digit,
    /// The ASCII hexadecimal digits, either case.
    HexDigit,
    /// A space or a tab.
    Blank,
    /// Anything but a double quote.
    NotQuote,
    /// Anything but a line feed.
    NotNewline,
    /// Unicode white space.
    Space,
}

pub open spec fn is_ascii_digit(c: char) -> bool {
    '0' <= c && c <= '9'
}

pub open spec fn is_ascii_alpha(c: char) -> bool {
    ('a' <= c && c <= 'z') || ('A' <= c && c <= 'Z')
}

pub open spec fn is_label_char(c: char) -> bool {
    c == '.' || c == '$' || c == '_' || is_ascii_alpha(c) || is_ascii_digit(c)
}

pub open spec fn in_class(k: CharClass, c: char) -> bool {
    match k {
        CharClass::LabelChar => is_label_char(c),
        CharClass::OpChar => is_ascii_alpha(c) || is_ascii_digit(c) || c == '.' || c == '_',
        CharClass::Digit => is_ascii_digit(c),
        CharClass::HexDigit => is_ascii_digit(c) || ('a' <= c && c <= 'f') || ('A' <= c && c
            <= 'F'),
        CharClass::Blank => c == ' ' || c == '\t',
        CharClass::NotQuote => c != '"',
        CharClass::NotNewline => c != '\n',
        CharClass::Space => white_space(c),
    }
}

/// Whether `c` may appear in a bare (unquoted) label.
pub fn good_for_label(c: char) -> (r: bool)
    ensures
        r == is_label_char(c),
{
    c == '.' || c == '$' || c == '_' || ('a' <= c && c <= 'z') || ('A' <= c && c <= 'Z') || ('0'
        <= c && c <= '9')
}

pub fn class_has(k: CharClass, c: char) -> (r: bool)
    ensures
        r == in_class(k, c),
{
    match k {
        CharClass::LabelChar => good_for_label(c),
        CharClass::OpChar => ('a' <= c && c <= 'z') || ('A' <= c && c <= 'Z') || ('0' <= c && c
            <= '9') || c == '.' || c == '_',
        CharClass::Digit => '0' <= c && c <= '9',
        CharClass::HexDigit => ('0' <= c && c <= '9') || ('a' <= c && c <= 'f') || ('A' <= c && c
            <= 'F'),
        CharClass::Blank => c == ' ' || c == '\t',
        CharClass::NotQuote => c != '"',
        CharClass::NotNewline => c != '\n',
        CharClass::Space => is_white(c),
    }
}

/// The end of the longest run of `k` characters in `s` that starts at `i`.
pub open spec fn scan(s: Seq<char>, i: int, k: CharClass) -> int
    decreases s.len() - i,
{
    if 0 <= i < s.len() && in_class(k, s[i]) {
        scan(s, i + 1, k)
    } else {
        i
    }
}

pub proof fn lemma_scan(s: Seq<char>, i: int, k: CharClass)
    requires
        0 <= i <= s.len(),
    ensures
        i <= scan(s, i, k) <= s.len(),
        forall|j: int| i <= j < scan(s, i, k) ==> in_class(k, #[trigger] s[j]),
        scan(s, i, k) == s.len() || !in_class(k, s[scan(s, i, k)]),
    decreases s.len() - i,
{
    if i < s.len() && in_class(k, s[i]) {
        lemma_scan(s, i + 1, k);
    }
}

/// A run of `k` characters from `i` to `n` that nothing of `k` extends ends at `n`.
pub proof fn lemma_scan_exact(s: Seq<char>, i: int, k: CharClass, n: int)
    requires
        0 <= i <= n <= s.len(),
        forall|j: int| i <= j < n ==> in_class(k, #[trigger] s[j]),
        n == s.len() || !in_class(k, s[n]),
    ensures
        scan(s, i, k) == n,
    decreases n - i,
{
    if i < n {
        lemma_scan_exact(s, i + 1, k, n);
    }
}

/// Finds the end of the run of `k` characters that starts at `i`.
pub fn scan_class(cs: &Vec<char>, i: usize, k: CharClass) -> (e: usize)
    requires
        i <= cs@.len(),
    ensures
        e == scan(cs@, i as int, k),
{
    let mut j: usize = i;
    while j < cs.len() && class_has(k, cs[j])
        invariant
            i <= j <= cs@.len(),
            scan(cs@, j as int, k) == scan(cs@, i as int, k),
        decreases cs@.len() - j,
    {
        j = j + 1;
    }
    j
}

/// `t` occurs in `s` at position `i`.
pub open spec fn has_tag(s: Seq<char>, i: int, t: Seq<char>) -> bool {
    0 <= i && i + t.len() <= s.len() && s.subrange(i, i + t.len()) == t
}

pub proof fn lemma_has_tag_chars(s: Seq<char>, i: int, t: Seq<char>)
    ensures
        has_tag(s, i, t) <==> (0 <= i && i + t.len() <= s.len() && forall|j: int|
            0 <= j < t.len() ==> s[i + j] == #[trigger] t[j]),
{
    if 0 <= i && i + t.len() <= s.len() {
        if forall|j: int| 0 <= j < t.len() ==> s[i + j] == #[trigger] t[j] {
            assert(s.subrange(i, i + t.len()) =~= t);
        }
        if s.subrange(i, i + t.len()) == t {
            assert forall|j: int| 0 <= j < t.len() implies s[i + j] == #[trigger] t[j] by {
                assert(s.subrange(i, i + t.len())[j] == s[i + j]);
            }
        }
    }
}

/// Tests whether the chars of `t` occur in `cs` at position `i`.
pub fn tag_at(cs: &Vec<char>, i: usize, t: &str) -> (r: bool)
    requires
        i <= cs@.len(),
    ensures
        r == has_tag(cs@, i as int, t@),
{
    let n = t.unicode_len();
    let len = cs.len();
    if n > len - i {
        return false;
    }
    let mut j: usize = 0;
    while j < n
        invariant
            n == t@.len(),
            i + n <= len,
            len == cs@.len(),
            j <= n,
            forall|m: int| 0 <= m < j ==> cs@[i + m] == t@[m],
        decreases n - j,
    {
        if cs[i + j] != t.get_char(j) {
            assert(cs@.subrange(i as int, i + n)[j as int] != t@[j as int]);
            return false;
        }
        j = j + 1;
    }
    assert(cs@.subrange(i as int, i + n) =~= t@);
    true
}

/// Whether a char has the Unicode `White_Space` property: the ASCII tab, line feed,
/// vertical tab, form feed, carriage return and space, next line, no-break space, ogham
/// space mark, the spaces from en quad to hair space, the line and paragraph separators,
/// narrow no-break space, medium mathematical space and ideographic space.
pub open spec fn white_space(c: char) -> bool {
    ('\u{9}' <= c && c <= '\u{d}') || c == ' ' || c == '\u{85}' || c == '\u{a0}' || c
        == '\u{1680}' || ('\u{2000}' <= c && c <= '\u{200a}') || c == '\u{2028}' || c
        == '\u{2029}' || c == '\u{202f}' || c == '\u{205f}' || c == '\u{3000}'
}

/// Whether `c` is white space, as `char::is_whitespace` tells it.
pub fn is_white(c: char) -> (r: bool)
    ensures
        r == white_space(c),
{
    ('\u{9}' <= c && c <= '\u{d}') || c == ' ' || c == '\u{85}' || c == '\u{a0}' || c
        == '\u{1680}' || ('\u{2000}' <= c && c <= '\u{200a}') || c == '\u{2028}' || c
        == '\u{2029}' || c == '\u{202f}' || c == '\u{205f}' || c == '\u{3000}'
}

/// Relies on `str::chars`, collected into a `Vec`: the string's chars, in order.
#[verifier::external_body]
pub(crate) fn chars_of(s: &str) -> (r: Vec<char>)
    ensures
        r@ == s@,
{
    s.chars().collect()
}

/// Relies on `str::split_once`: the text before the first line feed and the text after it.
#[verifier::external_body]
pub(crate) fn split_first_line<'a>(s: &'a str) -> (r: Option<(&'a str, &'a str)>)
    ensures
        match r {
            Some((line, rest)) => s@ == line@ + seq!['\n'] + rest@ && !line@.contains('\n'),
            None => !s@.contains('\n'),
        },
{
    s.split_once('\n')
}

/// The value of an ASCII decimal digit.
pub open spec fn digit_value(c: char) -> nat {
    (c as int - '0' as int) as nat
}

/// The number that the digits `s[i..e]` write in decimal.
pub open spec fn dec_value(s: Seq<char>, i: int, e: int) -> nat
    decreases e - i,
{
    if e <= i {
        0
    } else {
        dec_value(s, i, e - 1) * 10 + digit_value(s[e - 1])
    }
}

proof fn lemma_dec_value_grows(s: Seq<char>, i: int, k: int, e: int)
    requires
        i <= k <= e,
    ensures
        dec_value(s, i, k) <= dec_value(s, i, e),
    decreases e - k,
{
    if k < e {
        lemma_dec_value_grows(s, i, k, e - 1);
    }
}

/// An unsigned 64-bit number written in decimal at `i`: its value and the end of its digits.
/// There is none where no digit stands at `i` or where the digits write a number over `u64::MAX`.
pub open spec fn read_u64(s: Seq<char>, i: int) -> Option<(u64, int)> {
    let e = scan(s, i, CharClass::Digit);
    if e > i && dec_value(s, i, e) <= u64::MAX {
        Some((dec_value(s, i, e) as u64, e))
    } else {
        None
    }
}

/// Reads an unsigned decimal number at `i`.
pub fn parse_u64(cs: &Vec<char>, i: usize) -> (r: Option<(u64, usize)>)
    requires
        i <= cs@.len(),
    ensures
        match r {
            Some((v, e)) => read_u64(cs@, i as int) == Some((v, e as int)) && i < e <= cs@.len(),
            None => read_u64(cs@, i as int) is None,
        },
{
    let e = scan_class(cs, i, CharClass::Digit);
    proof {
        lemma_scan(cs@, i as int, CharClass::Digit);
    }
    if e == i {
        return None;
    }
    let mut v: u64 = 0;
    let mut j: usize = i;
    while j < e
        invariant
            i <= j <= e,
            e == scan(cs@, i as int, CharClass::Digit),
            e <= cs@.len(),
            forall|m: int| i <= m < e ==> is_ascii_digit(#[trigger] cs@[m]),
            v == dec_value(cs@, i as int, j as int),
        decreases e - j,
    {
        assert(is_ascii_digit(cs@[j as int]));
        let d: u64 = (cs[j] as u32 - '0' as u32) as u64;
        match v.checked_mul(10) {
            None => {
                proof {
                    lemma_dec_value_grows(cs@, i as int, j + 1, e as int);
                }
                return None;
            },
            Some(m) => match m.checked_add(d) {
                None => {
                    proof {
                        lemma_dec_value_grows(cs@, i as int, j + 1, e as int);
                    }
                    return None;
                },
                Some(x) => {
                    v = x;
                },
            },
        }
        j = j + 1;
    }
    Some((v, e))
}

/// The index of the last char of `s[lo..e]` that is not white space, plus one; `lo` if
/// there is none.
pub open spec fn trailing_space_start(s: Seq<char>, lo: int, e: int) -> int
    decreases e - lo,
{
    if lo < e && white_space(s[e - 1]) {
        trailing_space_start(s, lo, e - 1)
    } else {
        e
    }
}

pub proof fn lemma_trailing_space_start(s: Seq<char>, lo: int, e: int)
    requires
        lo <= e,
    ensures
        lo <= trailing_space_start(s, lo, e) <= e,
        trailing_space_start(s, lo, e) == lo || !white_space(s[trailing_space_start(s, lo, e) - 1]),
    decreases e - lo,
{
    if lo < e && white_space(s[e - 1]) {
        lemma_trailing_space_start(s, lo, e - 1);
    }
}

/// `s[i..e]` without the white space at either end.
pub open spec fn trimmed(s: Seq<char>, i: int, e: int) -> Seq<char> {
    let a = scan(s.subrange(0, e), i, CharClass::Space);
    s.subrange(a, trailing_space_start(s, a, e))
}

/// The bounds of `cs[i..e]` without the white space at either end.
pub fn trim_bounds(cs: &Vec<char>, i: usize, e: usize) -> (r: (usize, usize))
    requires
        i <= e <= cs@.len(),
    ensures
        i <= r.0 <= r.1 <= e,
        cs@.subrange(r.0 as int, r.1 as int) == trimmed(cs@, i as int, e as int),
{
    let ghost pre = cs@.subrange(0, e as int);
    let mut a: usize = i;
    while a < e && is_white(cs[a])
        invariant
            i <= a <= e,
            e <= cs@.len(),
            pre == cs@.subrange(0, e as int),
            scan(pre, a as int, CharClass::Space) == scan(pre, i as int, CharClass::Space),
        decreases e - a,
    {
        assert(pre[a as int] == cs@[a as int]);
        a = a + 1;
    }
    assert(a == e || pre[a as int] == cs@[a as int]);
    let mut b: usize = e;
    while b > a && is_white(cs[b - 1])
        invariant
            a <= b <= e,
            e <= cs@.len(),
            trailing_space_start(cs@, a as int, b as int) == trailing_space_start(
                cs@,
                a as int,
                e as int,
            ),
        decreases b - a,
    {
        b = b - 1;
    }
    (a, b)
}

} // verus!

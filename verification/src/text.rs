//! Character and string primitives shared by the parsers.
//!
//! Unicode character classes and case mapping come from the standard
//! library; each such call sits behind a small trusted function whose
//! result is given a name. Everything built on top of them (trimming,
//! splitting, number parsing and printing) is verified here.

use vstd::prelude::*;

verus! {

// ---------------------------------------------------------------------------
// Names for Unicode properties computed by the standard library
// ---------------------------------------------------------------------------

/// `char::is_whitespace`: the Unicode `White_Space` property, which holds of
/// U+0009 to U+000D, U+0020, U+0085, U+00A0, U+1680, U+2000 to U+200A,
/// U+2028, U+2029, U+202F, U+205F and U+3000.
pub open spec fn spec_is_whitespace(c: char) -> bool {
    let u = c as u32;
    ||| 0x09 <= u <= 0x0D
    ||| u == 0x20
    ||| u == 0x85
    ||| u == 0xA0
    ||| u == 0x1680
    ||| 0x2000 <= u <= 0x200A
    ||| u == 0x2028
    ||| u == 0x2029
    ||| u == 0x202F
    ||| u == 0x205F
    ||| u == 0x3000
}

/// `char::is_alphabetic`: the Unicode `Alphabetic` property.
pub uninterp spec fn spec_is_alphabetic(c: char) -> bool;

/// `char::is_alphanumeric`: `Alphabetic` or a numeric general category.
pub uninterp spec fn spec_is_alphanumeric(c: char) -> bool;

/// `char::is_uppercase`: the Unicode `Uppercase` property.
pub uninterp spec fn spec_is_uppercase(c: char) -> bool;

/// `str::to_lowercase` on text that is not all ASCII: the full Unicode
/// lowercase mapping.
pub uninterp spec fn unicode_lowercase(s: Seq<char>) -> Seq<char>;

/// Every character is ASCII.
pub open spec fn is_ascii_text(s: Seq<char>) -> bool {
    forall|i: int| 0 <= i < s.len() ==> (s[i] as u32) < 128
}

/// `str::to_lowercase`: ASCII text has its letters `A` to `Z` lowercased one
/// for one and keeps every other character; other text goes by the Unicode
/// mapping.
pub open spec fn spec_to_lowercase(s: Seq<char>) -> Seq<char> {
    if is_ascii_text(s) {
        s.map_values(|c: char| to_ascii_lowercase_spec(c))
    } else {
        unicode_lowercase(s)
    }
}

/// Calls `char::is_whitespace`, which is `spec_is_whitespace`.
#[verifier::external_body]
pub(crate) fn char_is_whitespace(c: char) -> (res: bool)
    ensures
        res == spec_is_whitespace(c),
{
    c.is_whitespace()
}

/// Calls `char::is_alphabetic`; the result is named `spec_is_alphabetic`.
/// ASCII letters are alphabetic and ASCII digits and punctuation are not.
#[verifier::external_body]
pub(crate) fn char_is_alphabetic(c: char) -> (res: bool)
    ensures
        res == spec_is_alphabetic(c),
        is_ascii_letter(c) ==> res,
        (c as u32) < 128 && !is_ascii_letter(c) ==> !res,
{
    c.is_alphabetic()
}

/// Calls `char::is_alphanumeric`; the result is named `spec_is_alphanumeric`.
/// For ASCII it holds exactly of letters and digits.
#[verifier::external_body]
pub(crate) fn char_is_alphanumeric(c: char) -> (res: bool)
    ensures
        res == spec_is_alphanumeric(c),
        (c as u32) < 128 ==> (res <==> (is_ascii_letter(c) || is_ascii_digit_spec(c))),
{
    c.is_alphanumeric()
}

/// Calls `char::is_uppercase`; the result is named `spec_is_uppercase`.
/// For ASCII it holds exactly of `'A'..='Z'`.
#[verifier::external_body]
pub(crate) fn char_is_uppercase(c: char) -> (res: bool)
    ensures
        res == spec_is_uppercase(c),
        (c as u32) < 128 ==> (res <==> ('A' <= c && c <= 'Z')),
{
    c.is_uppercase()
}

/// Calls `str::to_lowercase`, which is `spec_to_lowercase`: ASCII text is
/// lowercased one for one, other text by the Unicode mapping, whose result is
/// named `unicode_lowercase`.
#[verifier::external_body]
pub(crate) fn str_to_lowercase(s: &str) -> (res: String)
    ensures
        res@ == (if is_ascii_text(s@) {
            s@.map_values(|c: char| to_ascii_lowercase_spec(c))
        } else {
            unicode_lowercase(s@)
        }),
{
    s.to_lowercase()
}

/// Calls `str::chars` and collects the characters.
#[verifier::external_body]
pub(crate) fn str_chars(s: &str) -> (res: Vec<char>)
    ensures
        res@ == s@,
{
    s.chars().collect()
}

/// Collects characters into a `String` (`FromIterator<char>`).
#[verifier::external_body]
pub(crate) fn string_from_chars(cs: &[char]) -> (res: String)
    ensures
        res@ == cs@,
{
    cs.iter().collect()
}

/// String slice equality (`PartialEq` for `str`).
#[verifier::external_body]
pub(crate) fn str_eq(a: &str, b: &str) -> (res: bool)
    ensures
        res == (a@ == b@),
{
    a == b
}

/// Copies a string slice into an owned `String` (`str::to_string`).
#[verifier::external_body]
pub(crate) fn to_owned_string(s: &str) -> (res: String)
    ensures
        res@ == s@,
{
    s.to_string()
}

/// Appends a string slice to a `String` (`String::push_str`).
#[verifier::external_body]
pub(crate) fn push_str(s: &mut String, t: &str)
    ensures
        final(s)@ == old(s)@ + t@,
{
    s.push_str(t)
}

// ---------------------------------------------------------------------------
// ASCII classes, stated directly
// ---------------------------------------------------------------------------

pub open spec fn is_ascii_digit_spec(c: char) -> bool {
    '0' <= c && c <= '9'
}

pub open spec fn is_ascii_letter(c: char) -> bool {
    ('a' <= c && c <= 'z') || ('A' <= c && c <= 'Z')
}

pub open spec fn is_ascii_hexdigit_spec(c: char) -> bool {
    is_ascii_digit_spec(c) || ('a' <= c && c <= 'f') || ('A' <= c && c <= 'F')
}

/// `char::to_ascii_lowercase`: uppercase ASCII letters are shifted, all else is kept.
pub open spec fn to_ascii_lowercase_spec(c: char) -> char {
    if 'A' <= c && c <= 'Z' {
        ((c as u32) + 32) as char
    } else {
        c
    }
}

/// `char::to_ascii_uppercase`: lowercase ASCII letters are shifted, all else is kept.
pub open spec fn to_ascii_uppercase_spec(c: char) -> char {
    if 'a' <= c && c <= 'z' {
        ((c as u32) - 32) as char
    } else {
        c
    }
}

pub fn is_ascii_digit(c: char) -> (res: bool)
    ensures
        res == is_ascii_digit_spec(c),
{
    '0' <= c && c <= '9'
}

pub fn is_ascii_hexdigit(c: char) -> (res: bool)
    ensures
        res == is_ascii_hexdigit_spec(c),
{
    ('0' <= c && c <= '9') || ('a' <= c && c <= 'f') || ('A' <= c && c <= 'F')
}

pub fn to_ascii_uppercase(c: char) -> (res: char)
    ensures
        res == to_ascii_uppercase_spec(c),
{
    if 'a' <= c && c <= 'z' {
        let code: u8 = ((c as u32) - 32) as u8;
        code as char
    } else {
        c
    }
}

// ---------------------------------------------------------------------------
// UTF-8 byte lengths
// ---------------------------------------------------------------------------

/// Number of bytes `c` takes in UTF-8 (`char::len_utf8`).
pub open spec fn utf8_len(c: char) -> nat {
    if (c as u32) < 0x80 {
        1
    } else if (c as u32) < 0x800 {
        2
    } else if (c as u32) < 0x10000 {
        3
    } else {
        4
    }
}

/// Number of bytes the first `n` characters of `s` take in UTF-8.
pub open spec fn utf8_prefix_len(s: Seq<char>, n: int) -> nat
    decreases n,
{
    if n <= 0 || s.len() == 0 {
        0
    } else if n > s.len() {
        utf8_prefix_len(s, s.len() as int)
    } else {
        utf8_prefix_len(s, n - 1) + utf8_len(s[n - 1])
    }
}

pub fn char_len_utf8(c: char) -> (res: usize)
    ensures
        res == utf8_len(c),
{
    let code = c as u32;
    if code < 0x80 {
        1
    } else if code < 0x800 {
        2
    } else if code < 0x10000 {
        3
    } else {
        4
    }
}

pub proof fn lemma_utf8_prefix_len_bound(s: Seq<char>, n: int)
    requires
        0 <= n <= s.len(),
    ensures
        utf8_prefix_len(s, n) <= 4 * n,
    decreases n,
{
    if n > 0 {
        lemma_utf8_prefix_len_bound(s, n - 1);
    }
}

/// Byte offset of character index `n` in `s`.
pub fn byte_offset(s: &Vec<char>, n: usize) -> (res: u128)
    requires
        n <= s.len(),
    ensures
        res == utf8_prefix_len(s@, n as int),
{
    let mut i: usize = 0;
    let mut acc: u128 = 0;
    while i < n
        invariant
            i <= n <= s.len(),
            acc == utf8_prefix_len(s@, i as int),
        decreases n - i,
    {
        proof {
            lemma_utf8_prefix_len_bound(s@, i as int);
        }
        acc = acc + char_len_utf8(s[i]) as u128;
        i = i + 1;
    }
    acc
}

// ---------------------------------------------------------------------------
// Trimming
// ---------------------------------------------------------------------------

/// Index of the first non-whitespace character at or after `i` (or `s.len()`).
pub open spec fn first_non_ws_from(s: Seq<char>, i: int) -> int
    decreases s.len() - i,
{
    if i >= s.len() {
        s.len() as int
    } else if !spec_is_whitespace(s[i]) {
        i
    } else {
        first_non_ws_from(s, i + 1)
    }
}

/// One past the last non-whitespace character before `j` (or 0).
pub open spec fn last_non_ws_before(s: Seq<char>, j: int) -> int
    decreases j,
{
    if j <= 0 {
        0
    } else if !spec_is_whitespace(s[j - 1]) {
        j
    } else {
        last_non_ws_before(s, j - 1)
    }
}

/// `s` without leading whitespace (`str::trim_start`).
pub open spec fn spec_trim_start(s: Seq<char>) -> Seq<char> {
    s.subrange(first_non_ws_from(s, 0), s.len() as int)
}

/// `s` without trailing whitespace (`str::trim_end`).
pub open spec fn spec_trim_end(s: Seq<char>) -> Seq<char> {
    s.subrange(0, last_non_ws_before(s, s.len() as int))
}

/// `s` without leading and trailing whitespace (`str::trim`).
pub open spec fn spec_trim(s: Seq<char>) -> Seq<char> {
    spec_trim_end(spec_trim_start(s))
}

proof fn lemma_first_non_ws_bounds(s: Seq<char>, i: int)
    requires
        0 <= i <= s.len(),
    ensures
        i <= first_non_ws_from(s, i) <= s.len(),
    decreases s.len() - i,
{
    if i < s.len() && spec_is_whitespace(s[i]) {
        lemma_first_non_ws_bounds(s, i + 1);
    }
}

proof fn lemma_last_non_ws_bounds(s: Seq<char>, j: int)
    requires
        0 <= j <= s.len(),
    ensures
        0 <= last_non_ws_before(s, j) <= j,
    decreases j,
{
    if j > 0 && spec_is_whitespace(s[j - 1]) {
        lemma_last_non_ws_bounds(s, j - 1);
    }
}

/// Leading and trailing whitespace removed, on characters.
pub fn trim_chars(s: &[char]) -> (res: Vec<char>)
    ensures
        res@ == spec_trim(s@),
{
    let mut i: usize = 0;
    while i < s.len() && char_is_whitespace(s[i])
        invariant
            i <= s.len(),
            first_non_ws_from(s@, 0) == first_non_ws_from(s@, i as int),
        decreases s.len() - i,
    {
        i = i + 1;
    }
    proof {
        lemma_first_non_ws_bounds(s@, i as int);
    }
    let ghost start = s@.subrange(i as int, s@.len() as int);
    let mut j: usize = s.len();
    while j > i && char_is_whitespace(s[j - 1])
        invariant
            i <= j <= s.len(),
            start == s@.subrange(i as int, s@.len() as int),
            last_non_ws_before(start, start.len() as int) == last_non_ws_before(
                start,
                (j - i) as int,
            ),
        decreases j,
    {
        assert(start[(j - i) - 1] == s@[j - 1]);
        j = j - 1;
    }
    if j > i {
        assert(start[(j - i) - 1] == s@[j - 1]);
    }
    let mut out: Vec<char> = Vec::new();
    let mut k: usize = i;
    while k < j
        invariant
            i <= k <= j <= s.len(),
            out@ == s@.subrange(i as int, k as int),
        decreases j - k,
    {
        out.push(s[k]);
        k = k + 1;
    }
    assert(out@ =~= start.subrange(0, (j - i) as int));
    out
}

/// Trailing whitespace removed, on characters.
pub fn trim_end_chars(s: &[char]) -> (res: Vec<char>)
    ensures
        res@ == spec_trim_end(s@),
{
    let mut j: usize = s.len();
    while j > 0 && char_is_whitespace(s[j - 1])
        invariant
            j <= s.len(),
            last_non_ws_before(s@, s@.len() as int) == last_non_ws_before(s@, j as int),
        decreases j,
    {
        j = j - 1;
    }
    let mut out: Vec<char> = Vec::new();
    let mut k: usize = 0;
    while k < j
        invariant
            k <= j <= s.len(),
            out@ == s@.subrange(0, k as int),
        decreases j - k,
    {
        out.push(s[k]);
        k = k + 1;
    }
    out
}

/// `str::trim` as an owned string.
pub fn trim_str(s: &str) -> (res: String)
    ensures
        res@ == spec_trim(s@),
{
    let cs = str_chars(s);
    let t = trim_chars(cs.as_slice());
    string_from_chars(t.as_slice())
}

/// The keyword form used by the enum parsers: `s.trim().to_lowercase()`.
pub open spec fn spec_keyword(s: Seq<char>) -> Seq<char> {
    spec_to_lowercase(spec_trim(s))
}

/// Computes `s.trim().to_lowercase()`.
pub fn keyword_of(s: &str) -> (res: String)
    ensures
        res@ == spec_keyword(s@),
{
    let t = trim_str(s);
    str_to_lowercase(t.as_str())
}

// ---------------------------------------------------------------------------
// Building strings
// ---------------------------------------------------------------------------

/// Concatenation of two string slices.
pub fn concat2(a: &str, b: &str) -> (res: String)
    ensures
        res@ == a@ + b@,
{
    let mut s = to_owned_string(a);
    push_str(&mut s, b);
    s
}

/// Concatenation of three string slices.
pub fn concat3(a: &str, b: &str, c: &str) -> (res: String)
    ensures
        res@ == a@ + b@ + c@,
{
    let mut s = to_owned_string(a);
    push_str(&mut s, b);
    push_str(&mut s, c);
    s
}

/// Concatenation of five string slices.
pub fn concat5(a: &str, b: &str, c: &str, d: &str, e: &str) -> (res: String)
    ensures
        res@ == a@ + b@ + c@ + d@ + e@,
{
    let mut s = to_owned_string(a);
    push_str(&mut s, b);
    push_str(&mut s, c);
    push_str(&mut s, d);
    push_str(&mut s, e);
    s
}

// ---------------------------------------------------------------------------
// Decimal numbers
// ---------------------------------------------------------------------------

/// The character of a decimal digit `0..=9`.
pub open spec fn digit_char(d: nat) -> char {
    ((d + 48) as u32) as char
}

/// Decimal representation of a natural number, as `Display` prints it.
pub open spec fn spec_decimal(n: nat) -> Seq<char>
    decreases n,
{
    if n < 10 {
        seq![digit_char(n)]
    } else {
        spec_decimal(n / 10).push(digit_char(n % 10))
    }
}

/// Decimal representation of an integer, with a leading `-` when negative.
pub open spec fn spec_signed_decimal(n: int) -> Seq<char> {
    if n < 0 {
        seq!['-'] + spec_decimal((-n) as nat)
    } else {
        spec_decimal(n as nat)
    }
}

fn digit_to_char(d: u128) -> (res: char)
    requires
        d < 10,
    ensures
        res == digit_char(d as nat),
{
    let code: u8 = (d as u8) + 48;
    code as char
}

fn push_decimal(n: u128, out: &mut Vec<char>)
    ensures
        final(out)@ == old(out)@ + spec_decimal(n as nat),
    decreases n,
{
    if n >= 10 {
        push_decimal(n / 10, out);
    }
    out.push(digit_to_char(n % 10));
    proof {
        if n >= 10 {
            assert(spec_decimal(n as nat) == spec_decimal((n / 10) as nat).push(
                digit_char((n % 10) as nat),
            ));
        } else {
            assert(spec_decimal(n as nat) == seq![digit_char(n as nat)]);
        }
        assert(final(out)@ =~= old(out)@ + spec_decimal(n as nat));
    }
}

/// Decimal representation of `n` (`u64::to_string`).
pub fn u64_to_decimal(n: u64) -> (res: String)
    ensures
        res@ == spec_decimal(n as nat),
{
    u128_to_decimal(n as u128)
}

/// Decimal representation of `n` (`u128::to_string`).
pub fn u128_to_decimal(n: u128) -> (res: String)
    ensures
        res@ == spec_decimal(n as nat),
{
    let mut out: Vec<char> = Vec::new();
    push_decimal(n, &mut out);
    assert(out@ =~= spec_decimal(n as nat));
    string_from_chars(out.as_slice())
}

/// Decimal representation of a signed integer (`i64::to_string`).
pub fn i64_to_decimal(n: i64) -> (res: String)
    ensures
        res@ == spec_signed_decimal(n as int),
{
    if n < 0 {
        let m: u64 = if n == i64::MIN {
            9223372036854775808u64
        } else {
            (-n) as u64
        };
        let digits = u64_to_decimal(m);
        let res = concat2("-", digits.as_str());
        proof {
            reveal_strlit("-");
        }
        res
    } else {
        u64_to_decimal(n as u64)
    }
}

// ---------------------------------------------------------------------------
// Integer parsing (`FromStr` for the integer types)
// ---------------------------------------------------------------------------

pub open spec fn all_ascii_digits(s: Seq<char>) -> bool {
    forall|i: int| 0 <= i < s.len() ==> is_ascii_digit_spec(#[trigger] s[i])
}

/// Value of a string of decimal digits.
pub open spec fn digits_value(s: Seq<char>) -> nat
    decreases s.len(),
{
    if s.len() == 0 {
        0
    } else {
        digits_value(s.drop_last()) * 10 + ((s.last() as u32) - 48) as nat
    }
}

/// What `str::parse` gives for an integer type, before the range check:
/// an optional `+` (or `-` where `signed`) followed by at least one ASCII digit.
pub open spec fn spec_parse_integer(s: Seq<char>, signed: bool) -> Option<int> {
    let has_sign = s.len() > 0 && (s[0] == '+' || (signed && s[0] == '-'));
    let neg = has_sign && s[0] == '-';
    let body = if has_sign {
        s.drop_first()
    } else {
        s
    };
    if body.len() > 0 && all_ascii_digits(body) {
        Some(
            if neg {
                -(digits_value(body) as int)
            } else {
                digits_value(body) as int
            },
        )
    } else {
        None
    }
}

/// `s.parse::<u16>()`, as an option.
pub open spec fn spec_parse_u16(s: Seq<char>) -> Option<u16> {
    match spec_parse_integer(s, false) {
        Some(v) => if 0 <= v <= u16::MAX {
            Some(v as u16)
        } else {
            None
        },
        None => None,
    }
}

/// `s.parse::<i32>()`, as an option.
pub open spec fn spec_parse_i32(s: Seq<char>) -> Option<i32> {
    match spec_parse_integer(s, true) {
        Some(v) => if i32::MIN <= v <= i32::MAX {
            Some(v as i32)
        } else {
            None
        },
        None => None,
    }
}

/// `s.parse::<u8>()`, as an option.
pub open spec fn spec_parse_u8(s: Seq<char>) -> Option<u8> {
    match spec_parse_integer(s, false) {
        Some(v) => if 0 <= v <= u8::MAX {
            Some(v as u8)
        } else {
            None
        },
        None => None,
    }
}

pub proof fn lemma_digits_value_prefix(s: Seq<char>, k: int)
    requires
        0 <= k <= s.len(),
        all_ascii_digits(s),
    ensures
        digits_value(s.subrange(0, k)) <= digits_value(s),
    decreases s.len() - k,
{
    if k < s.len() {
        lemma_digits_value_prefix(s, k + 1);
        let p = s.subrange(0, k + 1);
        assert(p.drop_last() =~= s.subrange(0, k));
        assert(is_ascii_digit_spec(s[k]));
    } else {
        assert(s.subrange(0, k) =~= s);
    }
}

/// Parses the digits `cs[start..]`; `None` when there are none, when one is not
/// an ASCII digit, or when the value exceeds `limit`.
pub fn parse_digits(cs: &[char], start: usize, limit: u128) -> (res: Option<u128>)
    requires
        start <= cs.len(),
        limit <= u64::MAX,
    ensures
        res is Some <==> (start < cs.len() && all_ascii_digits(cs@.skip(start as int))
            && digits_value(cs@.skip(start as int)) <= limit),
        res matches Some(v) ==> v == digits_value(cs@.skip(start as int)),
{
    if start >= cs.len() {
        return None;
    }
    let ghost body = cs@.skip(start as int);
    let mut acc: u128 = 0;
    let mut i: usize = start;
    while i < cs.len()
        invariant
            start <= i <= cs.len(),
            body == cs@.skip(start as int),
            acc <= limit,
            limit <= u64::MAX,
            all_ascii_digits(body.subrange(0, (i - start) as int)),
            acc == digits_value(body.subrange(0, (i - start) as int)),
        decreases cs.len() - i,
    {
        let c = cs[i];
        if !is_ascii_digit(c) {
            assert(body[(i - start) as int] == c);
            return None;
        }
        let d: u128 = ((c as u32) - 48) as u128;
        let next = acc * 10 + d;
        proof {
            let p = body.subrange(0, (i - start + 1) as int);
            assert(p.drop_last() =~= body.subrange(0, (i - start) as int));
            assert(p.last() == c);
            assert(all_ascii_digits(p));
        }
        if next > limit {
            proof {
                if all_ascii_digits(body) {
                    lemma_digits_value_prefix(body, (i - start + 1) as int);
                }
            }
            return None;
        }
        acc = next;
        i = i + 1;
    }
    assert(body.subrange(0, (i - start) as int) =~= body);
    Some(acc)
}

/// Splits off an optional sign: returns (start of the digits, negative).
fn sign_prefix(cs: &[char], signed: bool) -> (res: (usize, bool))
    ensures
        res.0 <= cs.len(),
        ({
            let s = cs@;
            let has_sign = s.len() > 0 && (s[0] == '+' || (signed && s[0] == '-'));
            &&& res.0 == (if has_sign { 1usize } else { 0usize })
            &&& res.1 == (has_sign && s[0] == '-')
        }),
{
    if cs.len() > 0 && (cs[0] == '+' || (signed && cs[0] == '-')) {
        (1, cs[0] == '-')
    } else {
        (0, false)
    }
}

/// `s.parse::<u16>().ok()`.
pub fn parse_u16(s: &str) -> (res: Option<u16>)
    ensures
        res == spec_parse_u16(s@),
{
    let cs = str_chars(s);
    let (start, _neg) = sign_prefix(cs.as_slice(), false);
    proof {
        if start == 1 {
            assert(cs@.drop_first() =~= cs@.skip(1));
        } else {
            assert(cs@ =~= cs@.skip(0));
        }
    }
    match parse_digits(cs.as_slice(), start, 65535) {
        Some(v) => Some(v as u16),
        None => None,
    }
}

/// `s.parse::<u8>().ok()`.
pub fn parse_u8(s: &str) -> (res: Option<u8>)
    ensures
        res == spec_parse_u8(s@),
{
    let cs = str_chars(s);
    let (start, _neg) = sign_prefix(cs.as_slice(), false);
    proof {
        if start == 1 {
            assert(cs@.drop_first() =~= cs@.skip(1));
        } else {
            assert(cs@ =~= cs@.skip(0));
        }
    }
    match parse_digits(cs.as_slice(), start, 255) {
        Some(v) => Some(v as u8),
        None => None,
    }
}

/// `s.parse::<i32>().ok()`.
pub fn parse_i32(s: &str) -> (res: Option<i32>)
    ensures
        res == spec_parse_i32(s@),
{
    let cs = str_chars(s);
    let (start, neg) = sign_prefix(cs.as_slice(), true);
    proof {
        if start == 1 {
            assert(cs@.drop_first() =~= cs@.skip(1));
        } else {
            assert(cs@ =~= cs@.skip(0));
        }
    }
    let limit: u128 = if neg {
        2147483648
    } else {
        2147483647
    };
    match parse_digits(cs.as_slice(), start, limit) {
        Some(v) => {
            if neg {
                Some((0i64 - (v as i64)) as i32)
            } else {
                Some(v as i32)
            }
        },
        None => {
            proof {
                let body = if start == 1 { cs@.drop_first() } else { cs@ };
                if body.len() > 0 && all_ascii_digits(body) {
                    assert(digits_value(body) > limit);
                }
            }
            None
        },
    }
}

} // verus!

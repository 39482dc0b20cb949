//! Text conversions used by the codec and the source tools.
use vstd::prelude::*;

verus! {

/// What `encoding_rs::SHIFT_JIS.decode` yields for the given bytes: the decoded
/// characters and whether malformed sequences were replaced.
pub uninterp spec fn sjis_decode(bytes: Seq<u8>) -> (Seq<char>, bool);

/// What `encoding_rs::SHIFT_JIS.encode` yields for the given text: the encoded
/// bytes and whether unmappable characters were replaced.
pub uninterp spec fn sjis_encode(text: Seq<char>) -> (Seq<u8>, bool);

/// What `String::from_utf8_lossy` yields for the given bytes.
pub uninterp spec fn utf8_lossy(bytes: Seq<u8>) -> Seq<char>;

/// Bytes below 0x80.
pub open spec fn is_ascii_bytes(b: Seq<u8>) -> bool {
    forall|i: int| 0 <= i < b.len() ==> #[trigger] b[i] < 0x80
}

/// The characters of ASCII bytes.
pub open spec fn ascii_chars(b: Seq<u8>) -> Seq<char> {
    b.map_values(|x: u8| x as char)
}

/// The bytes of ASCII characters.
pub open spec fn ascii_encode(s: Seq<char>) -> Seq<u8> {
    s.map_values(|c: char| c as u8)
}

/// Calls `encoding_rs::Encoding::decode` on `SHIFT_JIS`. The contract claims
/// that the characters and the error flag are the decoder's, as named by
/// `sjis_decode`, and, as the crate documents for ASCII-compatible encodings,
/// that ASCII bytes (which hold no byte order mark) decode to the same
/// characters without errors; nothing is claimed about other bytes.
#[verifier::external_body]
pub(crate) fn decode_sjis(bytes: &[u8]) -> (out: (Vec<char>, bool))
    ensures
        (out.0@, out.1) == sjis_decode(bytes@),
        is_ascii_bytes(bytes@) ==> out.0@ == ascii_chars(bytes@) && !out.1,
{
    let (decoded, _, had_errors) = encoding_rs::SHIFT_JIS.decode(bytes);
    (decoded.chars().collect(), had_errors)
}

/// Calls `encoding_rs::Encoding::encode` on `SHIFT_JIS`. The contract claims
/// that the bytes and the error flag are the encoder's, as named by
/// `sjis_encode`, and that ASCII text encodes to the same bytes without
/// errors; nothing is claimed about other text.
#[verifier::external_body]
pub(crate) fn encode_sjis(text: &str) -> (out: (Vec<u8>, bool))
    ensures
        (out.0@, out.1) == sjis_encode(text@),
        is_ascii_text(text@) ==> out.0@ == ascii_encode(text@) && !out.1,
{
    let (encoded, _, had_errors) = encoding_rs::SHIFT_JIS.encode(text);
    (encoded.into_owned(), had_errors)
}

/// Calls `String::from_utf8_lossy`; the result is the one named by
/// `utf8_lossy`, and ASCII bytes (valid UTF-8) come back as the same
/// characters; nothing is claimed about other bytes.
#[verifier::external_body]
pub(crate) fn lossy_utf8(bytes: &[u8]) -> (out: String)
    ensures
        out@ == utf8_lossy(bytes@),
        is_ascii_bytes(bytes@) ==> out@ == ascii_chars(bytes@),
{
    String::from_utf8_lossy(bytes).into_owned()
}

/// Calls `String::from_iter` over characters: the string holds exactly those
/// characters, in order.
#[verifier::external_body]
pub(crate) fn string_from_chars(chars: &[char]) -> (out: String)
    ensures
        out@ == chars@,
{
    chars.iter().collect()
}

/// Calls `str::chars` and collects: the characters of the text, in order.
#[verifier::external_body]
pub(crate) fn chars_of(text: &str) -> (out: Vec<char>)
    ensures
        out@ == text@,
{
    text.chars().collect()
}

/// Whether two texts hold the same characters.
pub fn str_eq(left: &str, right: &str) -> (same: bool)
    ensures
        same == (left@ == right@),
{
    let a = chars_of(left);
    let b = chars_of(right);
    if a.len() != b.len() {
        return false;
    }
    let mut i: usize = 0;
    while i < a.len()
        invariant
            a@ == left@,
            b@ == right@,
            a.len() == b.len(),
            i <= a.len(),
            forall|j: int| 0 <= j < i ==> a@[j] == b@[j],
        decreases a.len() - i,
    {
        if a[i] != b[i] {
            return false;
        }
        i = i + 1;
    }
    assert(a@ =~= b@);
    true
}

/// The text with every trailing NUL character removed.
pub open spec fn trim_trailing_nul(s: Seq<char>) -> Seq<char>
    decreases s.len(),
{
    if s.len() > 0 && s.last() == '\0' {
        trim_trailing_nul(s.drop_last())
    } else {
        s
    }
}

/// Removes trailing NUL characters, as `str::trim_end_matches('\0')` does.
pub fn trim_nul_chars(chars: &Vec<char>) -> (out: Vec<char>)
    ensures
        out@ == trim_trailing_nul(chars@),
{
    let mut end = chars.len();
    assert(chars@.subrange(0, end as int) =~= chars@);
    while end > 0 && chars[end - 1] == '\0'
        invariant
            end <= chars.len(),
            trim_trailing_nul(chars@) == trim_trailing_nul(chars@.subrange(0, end as int)),
        decreases end,
    {
        assert(chars@.subrange(0, end as int).drop_last() =~= chars@.subrange(0, end - 1));
        end = end - 1;
    }
    assert(trim_trailing_nul(chars@.subrange(0, end as int)) == chars@.subrange(0, end as int));
    let mut out: Vec<char> = Vec::new();
    let mut i: usize = 0;
    while i < end
        invariant
            end <= chars.len(),
            i <= end,
            out@ =~= chars@.subrange(0, i as int),
        decreases end - i,
    {
        out.push(chars[i]);
        i = i + 1;
    }
    assert(out@ =~= chars@.subrange(0, end as int));
    out
}


/// The decimal digits of `n`, most significant first (`0` for zero).
pub open spec fn decimal(n: nat) -> Seq<char>
    decreases n,
{
    if n < 10 {
        seq![(('0' as nat) + n) as char]
    } else {
        decimal(n / 10).push((('0' as nat) + n % 10) as char)
    }
}

/// Decimal digits of an unsigned integer, as `Display` writes them.
pub fn decimal_chars(n: u64) -> (out: Vec<char>)
    ensures
        out@ == decimal(n as nat),
    decreases n,
{
    if n < 10 {
        let c = (('0' as u8) + (n as u8)) as char;
        let v = vec![c];
        assert(v@ =~= decimal(n as nat));
        v
    } else {
        let mut v = decimal_chars(n / 10);
        let c = (('0' as u8) + ((n % 10) as u8)) as char;
        v.push(c);
        v
    }
}

/// Appends the characters of `text`.
pub fn push_str_chars(out: &mut Vec<char>, text: &str)
    ensures
        final(out)@ == old(out)@ + text@,
{
    let chars = chars_of(text);
    let mut i: usize = 0;
    let ghost start = out@;
    while i < chars.len()
        invariant
            i <= chars@.len(),
            chars@ == text@,
            out@ =~= start + chars@.subrange(0, i as int),
        decreases chars.len() - i,
    {
        out.push(chars[i]);
        i = i + 1;
    }
    assert(chars@.subrange(0, chars@.len() as int) =~= chars@);
}

/// Appends characters.
pub fn push_chars(out: &mut Vec<char>, chars: &Vec<char>)
    ensures
        final(out)@ == old(out)@ + chars@,
{
    let mut i: usize = 0;
    let ghost start = out@;
    while i < chars.len()
        invariant
            i <= chars@.len(),
            out@ =~= start + chars@.subrange(0, i as int),
        decreases chars.len() - i,
    {
        out.push(chars[i]);
        i = i + 1;
    }
    assert(chars@.subrange(0, chars@.len() as int) =~= chars@);
}

/// The text followed by the decimal digits of `n`.
pub fn text_with_number(text: &str, n: u64) -> (out: String)
    ensures
        out@ == text@ + decimal(n as nat),
{
    let mut chars: Vec<char> = Vec::new();
    push_str_chars(&mut chars, text);
    let digits = decimal_chars(n);
    push_chars(&mut chars, &digits);
    assert(chars@ =~= text@ + decimal(n as nat));
    string_from_chars(chars.as_slice())
}

/// Concatenation of two texts.
pub fn concat_str(a: &str, b: &str) -> (out: String)
    ensures
        out@ == a@ + b@,
{
    let mut chars: Vec<char> = Vec::new();
    push_str_chars(&mut chars, a);
    push_str_chars(&mut chars, b);
    assert(chars@ =~= a@ + b@);
    string_from_chars(chars.as_slice())
}

/// What `format!("{:?}", text)` yields for a string.
pub uninterp spec fn debug_str(text: Seq<char>) -> Seq<char>;

/// Calls `<str as Debug>::fmt` through `format!`; the result is the one named
/// by `debug_str`.
#[verifier::external_body]
pub(crate) fn debug_quoted(text: &str) -> (out: String)
    ensures
        out@ == debug_str(text@),
{
    format!("{text:?}")
}

/// The ASCII upper-case form of a character; other characters are kept.
pub open spec fn upper_char(c: char) -> char {
    if 'a' <= c && c <= 'z' {
        ((c as u8) - 32) as char
    } else {
        c
    }
}

/// The ASCII lower-case form of a character; other characters are kept.
pub open spec fn lower_char(c: char) -> char {
    if 'A' <= c && c <= 'Z' {
        ((c as u8) + 32) as char
    } else {
        c
    }
}

pub open spec fn ascii_upper(s: Seq<char>) -> Seq<char> {
    s.map_values(|c: char| upper_char(c))
}

/// `str::to_ascii_uppercase`.
pub fn ascii_uppercase(text: &str) -> (out: String)
    ensures
        out@ == ascii_upper(text@),
{
    let chars = chars_of(text);
    let mut out: Vec<char> = Vec::new();
    let mut i: usize = 0;
    while i < chars.len()
        invariant
            chars@ == text@,
            i <= chars.len(),
            out@ =~= ascii_upper(text@).subrange(0, i as int),
        decreases chars.len() - i,
    {
        let c = chars[i];
        let u = if 'a' <= c && c <= 'z' {
            ((c as u8) - 32) as char
        } else {
            c
        };
        out.push(u);
        i = i + 1;
    }
    string_from_chars(out.as_slice())
}

/// The rest of `s` after `prefix`, when `s` starts with it.
pub open spec fn strip_prefix(s: Seq<char>, prefix: Seq<char>) -> Option<Seq<char>> {
    if prefix.len() <= s.len() && s.subrange(0, prefix.len() as int) == prefix {
        Some(s.subrange(prefix.len() as int, s.len() as int))
    } else {
        None
    }
}

/// `str::strip_prefix`, giving the rest as characters.
pub fn strip_prefix_chars(text: &str, prefix: &str) -> (out: Option<Vec<char>>)
    ensures
        match (out, strip_prefix(text@, prefix@)) {
            (Some(v), Some(r)) => v@ == r,
            (None, None) => true,
            _ => false,
        },
{
    let t = chars_of(text);
    let p = chars_of(prefix);
    if p.len() > t.len() {
        return None;
    }
    let mut i: usize = 0;
    while i < p.len()
        invariant
            t@ == text@,
            p@ == prefix@,
            p.len() <= t.len(),
            i <= p.len(),
            forall|j: int| 0 <= j < i ==> t@[j] == p@[j],
        decreases p.len() - i,
    {
        if t[i] != p[i] {
            assert(t@.subrange(0, p@.len() as int)[i as int] != p@[i as int]);
            return None;
        }
        i = i + 1;
    }
    assert(t@.subrange(0, p@.len() as int) =~= p@);
    let mut rest: Vec<char> = Vec::new();
    let mut k: usize = p.len();
    while k < t.len()
        invariant
            t@ == text@,
            p.len() <= k <= t.len(),
            rest@ =~= t@.subrange(p.len() as int, k as int),
        decreases t.len() - k,
    {
        rest.push(t[k]);
        k = k + 1;
    }
    Some(rest)
}

pub open spec fn is_digit(c: char) -> bool {
    '0' <= c && c <= '9'
}

/// The value of a string of decimal digits.
pub open spec fn digits_value(s: Seq<char>) -> nat
    decreases s.len(),
{
    if s.len() == 0 {
        0
    } else {
        digits_value(s.drop_last()) * 10 + ((s.last() as u32) - ('0' as u32)) as nat
    }
}

/// The digits of an unsigned number: the text after an optional `+`.
pub open spec fn unsigned_digits(s: Seq<char>) -> Seq<char> {
    if s.len() > 0 && s[0] == '+' {
        s.drop_first()
    } else {
        s
    }
}

pub open spec fn all_digits(d: Seq<char>) -> bool {
    forall|i: int| 0 <= i < d.len() ==> is_digit(#[trigger] d[i])
}

/// What `str::parse` gives for an unsigned integer type whose largest value
/// is `max`: an optional `+`, then at least one decimal digit, and a value
/// that fits.
pub open spec fn parse_unsigned_spec(s: Seq<char>, max: nat) -> Option<nat> {
    let digits = unsigned_digits(s);
    if digits.len() > 0 && all_digits(digits) && digits_value(digits) <= max {
        Some(digits_value(digits))
    } else {
        None
    }
}

proof fn lemma_digits_value_grows(s: Seq<char>, i: int)
    requires
        0 <= i <= s.len(),
        forall|j: int| 0 <= j < s.len() ==> is_digit(#[trigger] s[j]),
    ensures
        digits_value(s.subrange(0, i)) <= digits_value(s),
    decreases s.len() - i,
{
    if i < s.len() {
        lemma_digits_value_grows(s.drop_last(), i);
        assert(s.drop_last().subrange(0, i) =~= s.subrange(0, i));
        assert(forall|j: int| 0 <= j < s.drop_last().len() ==> s.drop_last()[j] == s[j]);
    } else {
        assert(s.subrange(0, i) =~= s);
    }
}

/// Parses an unsigned decimal integer no larger than `max`, as `str::parse`
/// does for the unsigned type whose largest value is `max`.
pub fn parse_unsigned(chars: &Vec<char>, max: u64) -> (out: Option<u64>)
    requires
        max < u64::MAX / 10,
    ensures
        match (out, parse_unsigned_spec(chars@, max as nat)) {
            (Some(v), Some(w)) => v == w,
            (None, None) => true,
            _ => false,
        },
{
    let start: usize = if chars.len() > 0 && chars[0] == '+' {
        1
    } else {
        0
    };
    let ghost digits = chars@.subrange(start as int, chars@.len() as int);
    assert(digits =~= unsigned_digits(chars@));
    if start == chars.len() {
        return None;
    }
    let mut i: usize = start;
    while i < chars.len()
        invariant
            start <= i <= chars.len(),
            start < chars.len(),
            digits == chars@.subrange(start as int, chars@.len() as int),
            digits == unsigned_digits(chars@),
            forall|j: int| 0 <= j < i - start ==> is_digit(#[trigger] digits[j]),
        decreases chars.len() - i,
    {
        if !('0' <= chars[i] && chars[i] <= '9') {
            assert(!is_digit(digits[i - start]));
            return None;
        }
        i = i + 1;
    }
    let mut value: u64 = 0;
    let mut k: usize = start;
    while k < chars.len()
        invariant
            start <= k <= chars.len(),
            digits == chars@.subrange(start as int, chars@.len() as int),
            digits == unsigned_digits(chars@),
            digits.len() > 0,
            forall|j: int| 0 <= j < digits.len() ==> is_digit(#[trigger] digits[j]),
            value == digits_value(digits.subrange(0, k - start)),
            value <= max,
            max < u64::MAX / 10,
        decreases chars.len() - k,
    {
        assert(is_digit(digits[k - start]));
        assert(digits[k - start] == chars@[k as int]);
        let d = (chars[k] as u32 - '0' as u32) as u64;
        assert(digits.subrange(0, k + 1 - start).drop_last() =~= digits.subrange(0, k - start));
        let next = value * 10 + d;
        if next > max {
            proof {
                lemma_digits_value_grows(digits, k + 1 - start);
            }
            return None;
        }
        value = next;
        k = k + 1;
    }
    assert(digits.subrange(0, k - start) =~= digits);
    Some(value)
}

pub open spec fn is_ascii_text(s: Seq<char>) -> bool {
    forall|i: int| 0 <= i < s.len() ==> (#[trigger] s[i] as u32) < 0x80
}

/// `str::is_ascii` over characters.
pub fn all_ascii(chars: &Vec<char>) -> (b: bool)
    ensures
        b == is_ascii_text(chars@),
{
    let mut i: usize = 0;
    while i < chars.len()
        invariant
            i <= chars.len(),
            forall|j: int| 0 <= j < i ==> (#[trigger] chars@[j] as u32) < 0x80,
        decreases chars.len() - i,
    {
        if chars[i] as u32 >= 0x80 {
            return false;
        }
        i = i + 1;
    }
    true
}

/// `char::is_whitespace`: the Unicode `White_Space` characters.
pub open spec fn is_whitespace(c: char) -> bool {
    ||| ('\t' <= c && c <= '\r')
    ||| c == ' '
    ||| c == '\u{85}'
    ||| c == '\u{a0}'
    ||| c == '\u{1680}'
    ||| ('\u{2000}' <= c && c <= '\u{200a}')
    ||| c == '\u{2028}'
    ||| c == '\u{2029}'
    ||| c == '\u{202f}'
    ||| c == '\u{205f}'
    ||| c == '\u{3000}'
}

pub fn char_is_whitespace(c: char) -> (b: bool)
    ensures
        b == is_whitespace(c),
{
    ('\t' <= c && c <= '\r') || c == ' ' || c == '\u{85}' || c == '\u{a0}' || c == '\u{1680}'
        || ('\u{2000}' <= c && c <= '\u{200a}') || c == '\u{2028}' || c == '\u{2029}' || c
        == '\u{202f}' || c == '\u{205f}' || c == '\u{3000}'
}

/// The text without its leading and trailing whitespace (`str::trim`).
pub open spec fn trim_spec(s: Seq<char>) -> Seq<char> {
    let start = first_non_ws(s, 0);
    let end = last_non_ws_end(s, s.len() as int);
    if start >= end {
        Seq::empty()
    } else {
        s.subrange(start, end)
    }
}

/// The first position from `i` on that holds no whitespace (or the length).
pub open spec fn first_non_ws(s: Seq<char>, i: int) -> int
    decreases s.len() - i,
{
    if i >= s.len() || i < 0 {
        if i < 0 { 0 } else { s.len() as int }
    } else if !is_whitespace(s[i]) {
        i
    } else {
        first_non_ws(s, i + 1)
    }
}

/// The end of the text once trailing whitespace before `j` is removed.
pub open spec fn last_non_ws_end(s: Seq<char>, j: int) -> int
    decreases j,
{
    if j <= 0 || j > s.len() {
        0
    } else if !is_whitespace(s[j - 1]) {
        j
    } else {
        last_non_ws_end(s, j - 1)
    }
}

/// `str::trim` over characters.
pub fn trim_chars(chars: &Vec<char>) -> (out: Vec<char>)
    ensures
        out@ == trim_spec(chars@),
{
    let ghost s = chars@;
    let mut start: usize = 0;
    while start < chars.len() && char_is_whitespace(chars[start])
        invariant
            start <= chars.len(),
            first_non_ws(s, 0) == first_non_ws(s, start as int),
            s == chars@,
        decreases chars.len() - start,
    {
        start = start + 1;
    }
    let mut end: usize = chars.len();
    while end > 0 && char_is_whitespace(chars[end - 1])
        invariant
            end <= chars.len(),
            last_non_ws_end(s, s.len() as int) == last_non_ws_end(s, end as int),
            s == chars@,
        decreases end,
    {
        end = end - 1;
    }
    let mut out: Vec<char> = Vec::new();
    if start < end {
        let mut k = start;
        while k < end
            invariant
                start <= k <= end,
                end <= chars.len(),
                out@ =~= chars@.subrange(start as int, k as int),
            decreases end - k,
        {
            out.push(chars[k]);
            k = k + 1;
        }
    }
    out
}

} // verus!

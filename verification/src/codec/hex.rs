//! HEX text to bytes and back.
//!
//! Input rules of [`parse_hex`]:
//! - white space and commas separate tokens;
//! - a token may carry a `0x` / `0X` prefix (`0x01 0x0A`);
//! - a token is a run of two-digit pairs, so `010AFF` is three bytes;
//! - an odd number of digits, or a character that is not a digit, is an error.
use vstd::prelude::*;
use vstd::string::StringExecFns;
use crate::i18n::Language;
use crate::strs::{
    chars_of, is_unicode_whitespace, is_whitespace, string_from_chars, string_push, utf8_len,
    utf8_width,
};

verus! {

/// Value of a hexadecimal digit character (`char::to_digit(16)`).
pub open spec fn hex_digit_value(c: char) -> Option<u8> {
    if '0' <= c && c <= '9' {
        Some(((c as u32) - 48) as u8)
    } else if 'a' <= c && c <= 'f' {
        Some(((c as u32) - 87) as u8)
    } else if 'A' <= c && c <= 'F' {
        Some(((c as u32) - 55) as u8)
    } else {
        None
    }
}

/// Value of a pair of hexadecimal digits, high digit first; `None` unless both
/// characters are `0-9`, `a-f` or `A-F`.
pub open spec fn hex_pair_value(a: char, b: char) -> Option<u8> {
    match (hex_digit_value(a), hex_digit_value(b)) {
        (Some(x), Some(y)) => Some((x * 16 + y) as u8),
        _ => None,
    }
}

/// Characters that separate tokens: white space and the comma.
pub open spec fn is_separator(c: char) -> bool {
    is_unicode_whitespace(c) || c == ','
}

/// The kind of error a token can have.
#[derive(Clone, Copy, Debug, PartialEq, Eq, Structural)]
pub enum HexErrorKind {
    /// Nothing is left of the token after its `0x` prefix.
    MissingDigits,
    /// The token (without prefix) has an odd number of bytes.
    OddLength,
    /// A pair of the token is not a hexadecimal number.
    InvalidChar,
}

/// What reading one token gives: its bytes or an error.
pub enum TokenOutcome {
    Bytes(Seq<u8>),
    Fail(HexErrorKind),
}

/// What reading a whole input gives.
pub enum HexOutcome {
    Bytes(Seq<u8>),
    Fail(HexErrorKind, Seq<char>),
}

/// The token without a leading `0x` or `0X`.
pub open spec fn strip_hex_prefix(t: Seq<char>) -> Seq<char> {
    if t.len() >= 2 && t[0] == '0' && (t[1] == 'x' || t[1] == 'X') {
        t.skip(2)
    } else {
        t
    }
}

/// Reads the digits of a token pair by pair; any character that is not a hexadecimal
/// digit is an error.
pub open spec fn decode_pairs(t: Seq<char>) -> TokenOutcome
    decreases t.len(),
{
    if t.len() == 0 {
        TokenOutcome::Bytes(Seq::empty())
    } else if t.len() == 1 {
        TokenOutcome::Fail(HexErrorKind::InvalidChar)
    } else {
        match hex_pair_value(t[0], t[1]) {
            Some(b) => match decode_pairs(t.skip(2)) {
                TokenOutcome::Bytes(rest) => TokenOutcome::Bytes(seq![b] + rest),
                other => other,
            },
            None => TokenOutcome::Fail(HexErrorKind::InvalidChar),
        }
    }
}

/// Reads one token.
pub open spec fn token_outcome(tok: Seq<char>) -> TokenOutcome {
    let t = strip_hex_prefix(tok);
    if t.len() == 0 {
        TokenOutcome::Fail(HexErrorKind::MissingDigits)
    } else if utf8_len(t) % 2 == 1 {
        TokenOutcome::Fail(HexErrorKind::OddLength)
    } else {
        decode_pairs(t)
    }
}

/// Feeds one complete token to the outcome so far: the first failing token decides.
pub open spec fn feed_token(acc: HexOutcome, tok: Seq<char>) -> HexOutcome {
    match acc {
        HexOutcome::Bytes(b) => match token_outcome(tok) {
            TokenOutcome::Bytes(r) => HexOutcome::Bytes(b + r),
            TokenOutcome::Fail(k) => HexOutcome::Fail(k, tok),
        },
        other => other,
    }
}

/// Scans a prefix of the input: the outcome of the tokens completed so far and the
/// token under construction.
pub open spec fn hex_scan(s: Seq<char>) -> (HexOutcome, Seq<char>)
    decreases s.len(),
{
    if s.len() == 0 {
        (HexOutcome::Bytes(Seq::empty()), Seq::empty())
    } else {
        let (acc, tok) = hex_scan(s.drop_last());
        let c = s.last();
        if is_separator(c) {
            if tok.len() > 0 {
                (feed_token(acc, tok), Seq::empty())
            } else {
                (acc, Seq::empty())
            }
        } else {
            (acc, tok.push(c))
        }
    }
}

/// The outcome of reading a whole input.
pub open spec fn hex_parse(s: Seq<char>) -> HexOutcome {
    let (acc, tok) = hex_scan(s);
    if tok.len() > 0 {
        feed_token(acc, tok)
    } else {
        acc
    }
}

/// Message for a failing token.
pub open spec fn hex_error_text(lang: Language, kind: HexErrorKind, tok: Seq<char>) -> Seq<char> {
    match lang {
        Language::Chinese => match kind {
            HexErrorKind::MissingDigits => "HEX 格式错误：“"@ + tok + "”缺少十六进制数字"@,
            HexErrorKind::OddLength => "HEX 格式错误：“"@ + tok + "”的位数为奇数"@,
            HexErrorKind::InvalidChar => "HEX 格式错误：“"@ + tok + "”含有非法字符"@,
        },
        Language::English => match kind {
            HexErrorKind::MissingDigits => "Invalid HEX: \""@ + tok + "\" has no hex digits"@,
            HexErrorKind::OddLength => "Invalid HEX: \""@ + tok + "\" has an odd number of digits"@,
            HexErrorKind::InvalidChar => "Invalid HEX: \""@ + tok + "\" contains an invalid character"@,
        },
    }
}

/// An upper-case hexadecimal digit for `n < 16`.
pub open spec fn upper_hex_digit(n: u8) -> char {
    if n < 10 {
        ((n + 48) as u8) as char
    } else {
        ((n + 55) as u8) as char
    }
}

/// The two upper-case digits of a byte.
pub open spec fn hex_byte(b: u8) -> Seq<char> {
    seq![upper_hex_digit(b / 16), upper_hex_digit(b % 16)]
}

/// Upper-case HEX of a byte sequence, one space between bytes.
pub open spec fn hex_text(b: Seq<u8>) -> Seq<char>
    decreases b.len(),
{
    if b.len() == 0 {
        Seq::empty()
    } else if b.len() == 1 {
        hex_byte(b[0])
    } else {
        hex_text(b.drop_last()) + seq![' '] + hex_byte(b.last())
    }
}

fn hex_digit(c: char) -> (r: Option<u8>)
    ensures
        r == hex_digit_value(c),
{
    if '0' <= c && c <= '9' {
        Some(((c as u32) - 48) as u8)
    } else if 'a' <= c && c <= 'f' {
        Some(((c as u32) - 87) as u8)
    } else if 'A' <= c && c <= 'F' {
        Some(((c as u32) - 55) as u8)
    } else {
        None
    }
}

fn hex_pair(a: char, b: char) -> (r: Option<u8>)
    ensures
        r == hex_pair_value(a, b),
{
    match (hex_digit(a), hex_digit(b)) {
        (Some(x), Some(y)) => {
            assert(x < 16 && y < 16);
            Some(x * 16 + y)
        },
        _ => None,
    }
}

fn char_width(c: char) -> (w: usize)
    ensures
        w == utf8_width(c),
{
    let u = c as u32;
    if u < 0x80 {
        1
    } else if u < 0x800 {
        2
    } else if u < 0x10000 {
        3
    } else {
        4
    }
}

proof fn lemma_utf8_len_bound(s: Seq<char>)
    ensures
        utf8_len(s) <= 4 * s.len(),
    decreases s.len(),
{
    if s.len() > 0 {
        lemma_utf8_len_bound(s.drop_last());
    }
}

/// Whether the UTF-8 encoding of the characters has an odd number of bytes.
fn odd_byte_len(t: &[char]) -> (b: bool)
    ensures
        b == (utf8_len(t@) % 2 == 1),
{
    let mut i: usize = 0;
    let mut odd = false;
    while i < t.len()
        invariant
            i <= t@.len(),
            odd == (utf8_len(t@.take(i as int)) % 2 == 1),
        decreases t@.len() - i,
    {
        let w = char_width(t[i]);
        assert(t@.take(i + 1).drop_last() =~= t@.take(i as int));
        if w % 2 == 1 {
            odd = !odd;
        }
        i = i + 1;
    }
    assert(t@.take(t@.len() as int) =~= t@);
    odd
}

/// Executable outcome of reading a token or an input.
pub enum HexRead {
    Bytes(Vec<u8>),
    Fail(HexErrorKind),
}

/// Reads the pairs of `t` starting at character `i`, appending the bytes to `out`.
fn decode_pairs_from(t: &[char], start: usize, out: &mut Vec<u8>) -> (r: Option<HexRead>)
    requires
        start <= t@.len(),
    ensures
        match decode_pairs(t@.skip(start as int)) {
            TokenOutcome::Bytes(b) => r is None && final(out)@ == old(out)@ + b,
            TokenOutcome::Fail(k) => r == Some(HexRead::Fail(k)),
        },
{
    let mut i = start;
    let ghost out0 = out@;
    while i < t.len()
        invariant
            start <= i <= t@.len(),
            (i - start) % 2 == 0,
            decode_pairs(t@.skip(start as int)) == match decode_pairs(t@.skip(i as int)) {
                TokenOutcome::Bytes(rest) => TokenOutcome::Bytes(out@.skip(out0.len() as int) + rest),
                other => other,
            },
            out@.len() >= out0.len(),
            out@.take(out0.len() as int) == out0,
        decreases t@.len() - i,
    {
        let ghost cur = t@.skip(i as int);
        let c0 = t[i];
        assert(cur[0] == c0);
        if i + 1 >= t.len() {
            return Some(HexRead::Fail(HexErrorKind::InvalidChar));
        }
        let c1 = t[i + 1];
        assert(cur[1] == c1);
        match hex_pair(c0, c1) {
            Some(b) => {
                assert(cur.skip(2) =~= t@.skip(i + 2));
                let ghost before = out@;
                out.push(b);
                assert(out@.skip(out0.len() as int) =~= before.skip(out0.len() as int) + seq![b]);
                assert(out@.take(out0.len() as int) =~= before.take(out0.len() as int));
                proof {
                    match decode_pairs(t@.skip(i + 2)) {
                        TokenOutcome::Bytes(rest) => {
                            assert(before.skip(out0.len() as int) + (seq![b] + rest)
                                =~= out@.skip(out0.len() as int) + rest);
                        },
                        _ => {},
                    }
                }
                i = i + 2;
            },
            None => {
                return Some(HexRead::Fail(HexErrorKind::InvalidChar));
            },
        }
    }
    proof {
        assert(t@.skip(i as int) =~= Seq::<char>::empty());
        assert(out@ =~= out0 + out@.skip(out0.len() as int));
    }
    None
}

/// Reads one token, appending its bytes to `out`.
fn parse_token(tok: &[char], out: &mut Vec<u8>) -> (r: Option<HexRead>)
    ensures
        match token_outcome(tok@) {
            TokenOutcome::Bytes(b) => r is None && final(out)@ == old(out)@ + b,
            TokenOutcome::Fail(k) => r == Some(HexRead::Fail(k)),
        },
{
    let start: usize = if tok.len() >= 2 && tok[0] == '0' && (tok[1] == 'x' || tok[1] == 'X') {
        2
    } else {
        0
    };
    assert(strip_hex_prefix(tok@) == tok@.skip(start as int));
    if start == tok.len() {
        return Some(HexRead::Fail(HexErrorKind::MissingDigits));
    }
    let digits = slice_skip(tok, start);
    if odd_byte_len(digits.as_slice()) {
        return Some(HexRead::Fail(HexErrorKind::OddLength));
    }
    decode_pairs_from(tok, start, out)
}

fn slice_skip(t: &[char], start: usize) -> (v: Vec<char>)
    requires
        start <= t@.len(),
    ensures
        v@ == t@.skip(start as int),
{
    let mut v: Vec<char> = Vec::new();
    let mut i = start;
    while i < t.len()
        invariant
            start <= i <= t@.len(),
            v@ == t@.subrange(start as int, i as int),
        decreases t@.len() - i,
    {
        v.push(t[i]);
        i = i + 1;
        assert(v@ =~= t@.subrange(start as int, i as int));
    }
    assert(t@.subrange(start as int, t@.len() as int) =~= t@.skip(start as int));
    v
}

/// Once a token has failed, the rest of the input no longer changes the outcome.
proof fn lemma_scan_sticky(s: Seq<char>, n: int)
    requires
        0 <= n <= s.len(),
        !(hex_scan(s.take(n)).0 is Bytes),
    ensures
        hex_scan(s).0 == hex_scan(s.take(n)).0,
        hex_parse(s) == hex_scan(s.take(n)).0,
    decreases s.len() - n,
{
    if n == s.len() {
        assert(s.take(n) =~= s);
    } else {
        assert(s.take(n + 1).drop_last() =~= s.take(n));
        lemma_scan_sticky(s, n + 1);
    }
}

/// Reads characters to their outcome; on failure also hands back the failing token.
fn read_hex_chars(s: &[char]) -> (r: (HexRead, Vec<char>))
    ensures
        match hex_parse(s@) {
            HexOutcome::Bytes(b) => r.0 matches HexRead::Bytes(v) && v@ == b,
            HexOutcome::Fail(k, tok) => r.0 == HexRead::Fail(k) && r.1@ == tok,
        },
{
    let mut out: Vec<u8> = Vec::new();
    let mut token: Vec<char> = Vec::new();
    let mut i: usize = 0;
    while i < s.len()
        invariant
            i <= s@.len(),
            hex_scan(s@.take(i as int)) == (HexOutcome::Bytes(out@), token@),
        decreases s@.len() - i,
    {
        let c = s[i];
        assert(s@.take(i + 1).drop_last() =~= s@.take(i as int));
        assert(s@.take(i + 1).last() == c);
        if is_whitespace(c) || c == ',' {
            if token.len() > 0 {
                match parse_token(token.as_slice(), &mut out) {
                    None => {},
                    Some(e) => {
                        proof {
                            lemma_scan_sticky(s@, i + 1);
                        }
                        return (e, token);
                    },
                }
                token = Vec::new();
            }
        } else {
            token.push(c);
        }
        i = i + 1;
    }
    assert(s@.take(s@.len() as int) =~= s@);
    if token.len() > 0 {
        match parse_token(token.as_slice(), &mut out) {
            None => {},
            Some(e) => {
                return (e, token);
            },
        }
    }
    (HexRead::Bytes(out), token)
}

fn hex_error_message(lang: Language, kind: HexErrorKind, tok: &[char]) -> (s: String)
    ensures
        s@ == hex_error_text(lang, kind, tok@),
{
    let t = string_from_chars(tok);
    let (head, tail) = match lang {
        Language::Chinese => match kind {
            HexErrorKind::MissingDigits => ("HEX 格式错误：“", "”缺少十六进制数字"),
            HexErrorKind::OddLength => ("HEX 格式错误：“", "”的位数为奇数"),
            HexErrorKind::InvalidChar => ("HEX 格式错误：“", "”含有非法字符"),
        },
        Language::English => match kind {
            HexErrorKind::MissingDigits => ("Invalid HEX: \"", "\" has no hex digits"),
            HexErrorKind::OddLength => ("Invalid HEX: \"", "\" has an odd number of digits"),
            HexErrorKind::InvalidChar => ("Invalid HEX: \"", "\" contains an invalid character"),
        },
    };
    let mut s = String::from_str(head);
    s.append(t.as_str());
    s.append(tail);
    s
}

/// Parses HEX input into bytes; the error names the first failing token.
pub fn parse_hex(input: &str, lang: Language) -> (r: Result<Vec<u8>, String>)
    ensures
        match hex_parse(input@) {
            HexOutcome::Bytes(b) => r matches Ok(v) && v@ == b,
            HexOutcome::Fail(k, tok) => r matches Err(e) && e@ == hex_error_text(lang, k, tok),
        },
{
    let chars = chars_of(input);
    let (r, tok) = read_hex_chars(chars.as_slice());
    match r {
        HexRead::Bytes(v) => Ok(v),
        HexRead::Fail(k) => Err(hex_error_message(lang, k, tok.as_slice())),
    }
}

fn upper_digit(n: u8) -> (c: char)
    requires
        n < 16,
    ensures
        c == upper_hex_digit(n),
{
    if n < 10 {
        (n + 48) as char
    } else {
        (n + 55) as char
    }
}

/// Formats bytes as upper-case HEX, one space between bytes (`01 0A FF`).
pub fn format_hex(bytes: &[u8]) -> (s: String)
    ensures
        s@ == hex_text(bytes@),
{
    let mut s = String::new();
    let mut i: usize = 0;
    while i < bytes.len()
        invariant
            i <= bytes@.len(),
            s@ == hex_text(bytes@.take(i as int)),
        decreases bytes@.len() - i,
    {
        let b = bytes[i];
        assert(bytes@.take(i + 1).drop_last() =~= bytes@.take(i as int));
        if i > 0 {
            string_push(&mut s, ' ');
        }
        string_push(&mut s, upper_digit(b / 16));
        string_push(&mut s, upper_digit(b % 16));
        i = i + 1;
        assert(s@ =~= hex_text(bytes@.take(i as int)));
    }
    assert(bytes@.take(bytes@.len() as int) =~= bytes@);
    s
}


proof fn lemma_upper_digit_value(n: u8)
    requires
        n < 16,
    ensures
        hex_digit_value(upper_hex_digit(n)) == Some(n),
        upper_hex_digit(n) != 'x' && upper_hex_digit(n) != 'X' && upper_hex_digit(n) != '+',
        (upper_hex_digit(n) as u32) < 0x80,
        !is_separator(upper_hex_digit(n)),
{
}

proof fn lemma_token_of_hex_byte(x: u8)
    ensures
        token_outcome(hex_byte(x)) == TokenOutcome::Bytes(seq![x]),
{
    let t = hex_byte(x);
    let hi = upper_hex_digit(x / 16);
    let lo = upper_hex_digit(x % 16);
    lemma_upper_digit_value(x / 16);
    lemma_upper_digit_value(x % 16);
    assert(t[0] == hi && t[1] == lo && t.len() == 2);
    assert(strip_hex_prefix(t) == t);
    let t1 = t.drop_last();
    assert(t1.drop_last() =~= Seq::<char>::empty());
    assert(t1.last() == hi);
    assert(utf8_len(t1.drop_last()) == 0);
    assert(utf8_len(t1) == 1);
    assert(utf8_len(t) == 2);
    assert(t.skip(2) =~= Seq::<char>::empty());
    assert(decode_pairs(t.skip(2)) == TokenOutcome::Bytes(Seq::<u8>::empty()));
    assert((x / 16) * 16 + x % 16 == x);
    assert(hex_pair_value(hi, lo) == Some(x));
    assert(decode_pairs(t) == TokenOutcome::Bytes(seq![x] + Seq::<u8>::empty()));
    assert(seq![x] + Seq::<u8>::empty() =~= seq![x]);
}

proof fn lemma_scan_hex_text(b: Seq<u8>)
    requires
        b.len() >= 1,
    ensures
        hex_scan(hex_text(b)) == (HexOutcome::Bytes(b.drop_last()), hex_byte(b.last())),
    decreases b.len(),
{
    let h = hex_byte(b.last());
    lemma_upper_digit_value(b.last() / 16);
    lemma_upper_digit_value(b.last() % 16);
    assert(!is_separator(h[0]) && !is_separator(h[1]));
    let s = hex_text(b);
    if b.len() == 1 {
        assert(s == h);
        let s1 = s.drop_last();
        assert(s1.drop_last() =~= Seq::<char>::empty());
        assert(s1.last() == h[0]);
        assert(s.last() == h[1]);
        assert(hex_scan(s1.drop_last()) == (HexOutcome::Bytes(Seq::<u8>::empty()), Seq::<char>::empty()));
        assert(hex_scan(s1) == (HexOutcome::Bytes(Seq::<u8>::empty()), Seq::<char>::empty().push(h[0])));
        assert(Seq::<char>::empty().push(h[0]).push(h[1]) =~= h);
        assert(b.drop_last() =~= Seq::<u8>::empty());
        assert(hex_scan(s) == (HexOutcome::Bytes(Seq::<u8>::empty()), h));
    } else {
        let p = b.drop_last();
        lemma_scan_hex_text(p);
        lemma_token_of_hex_byte(p.last());
        let base = hex_text(p);
        assert(s == base + seq![' '] + h);
        let s1 = s.drop_last();
        let s2 = s1.drop_last();
        assert(s2.drop_last() =~= base);
        assert(s2.last() == ' ');
        assert(s1.last() == h[0]);
        assert(s.last() == h[1]);
        assert(hex_scan(base) == (HexOutcome::Bytes(p.drop_last()), hex_byte(p.last())));
        assert(p.drop_last() + seq![p.last()] =~= p);
        assert(feed_token(HexOutcome::Bytes(p.drop_last()), hex_byte(p.last())) == HexOutcome::Bytes(p));
        assert(hex_scan(s2) == (HexOutcome::Bytes(p), Seq::<char>::empty()));
        assert(hex_scan(s1) == (HexOutcome::Bytes(p), Seq::<char>::empty().push(h[0])));
        assert(Seq::<char>::empty().push(h[0]).push(h[1]) =~= h);
        assert(hex_scan(s) == (HexOutcome::Bytes(p), h));
    }
}

/// Reading back formatted HEX gives the original bytes: `parse_hex(format_hex(b)) == Ok(b)`.
pub proof fn law_parse_hex_reads_format_hex(b: Seq<u8>)
    ensures
        hex_parse(hex_text(b)) == HexOutcome::Bytes(b),
{
    if b.len() == 0 {
        assert(hex_text(b) =~= Seq::<char>::empty());
        assert(b =~= Seq::<u8>::empty());
        assert(hex_scan(hex_text(b)) == (HexOutcome::Bytes(Seq::<u8>::empty()), Seq::<char>::empty()));
    } else {
        lemma_scan_hex_text(b);
        lemma_token_of_hex_byte(b.last());
        assert(b.drop_last() + seq![b.last()] =~= b);
        assert(hex_byte(b.last()).len() > 0);
        assert(feed_token(HexOutcome::Bytes(b.drop_last()), hex_byte(b.last())) == HexOutcome::Bytes(b));
    }
}

} // verus!

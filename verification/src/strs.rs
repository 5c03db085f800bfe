//! Small verified helpers on strings and character sequences.
use vstd::prelude::*;

verus! {

broadcast use vstd::string::group_string_axioms;

/// The characters of a string slice, in order.
pub fn chars_of(s: &str) -> (v: Vec<char>)
    ensures
        v@ == s@,
{
    let mut v: Vec<char> = Vec::new();
    for c in it: s.chars()
        invariant
            v@ == it.seq().take(it.index() as int),
    {
        v.push(c);
    }
    v
}

/// Appends one character to a string (`String::push`).
#[verifier::external_body]
pub(crate) fn string_push(s: &mut String, c: char)
    ensures
        final(s)@ == old(s)@.push(c),
{
    s.push(c);
}

/// Builds a string holding exactly the given characters.
pub fn string_from_chars(v: &[char]) -> (s: String)
    ensures
        s@ == v@,
{
    let mut s = String::new();
    let mut i: usize = 0;
    while i < v.len()
        invariant
            i <= v@.len(),
            s@ == v@.take(i as int),
        decreases v@.len() - i,
    {
        string_push(&mut s, v[i]);
        i = i + 1;
        assert(s@ =~= v@.take(i as int));
    }
    assert(v@.take(v@.len() as int) =~= v@);
    s
}

/// Number of bytes of the UTF-8 encoding of one character.
pub open spec fn utf8_width(c: char) -> nat {
    if (c as u32) < 0x80 {
        1
    } else if (c as u32) < 0x800 {
        2
    } else if (c as u32) < 0x10000 {
        3
    } else {
        4
    }
}

/// Number of bytes of the UTF-8 encoding of a character sequence.
pub open spec fn utf8_len(s: Seq<char>) -> nat
    decreases s.len(),
{
    if s.len() == 0 {
        0
    } else {
        utf8_len(s.drop_last()) + utf8_width(s.last())
    }
}

/// Unicode `White_Space` property, as `char::is_whitespace` tests it.
pub open spec fn is_unicode_whitespace(c: char) -> bool {
    ||| ('\u{9}' <= c && c <= '\u{d}')
    ||| c == ' '
    ||| c == '\u{85}'
    ||| c == '\u{a0}'
    ||| c == '\u{1680}'
    ||| ('\u{2000}' <= c && c <= '\u{200a}')
    ||| c == '\u{2028}'
    ||| c == '\u{2029}'
    ||| c == '\u{202f}'
    ||| c == '\u{205f}'
    ||| c == '\u{3000}'
}

/// Executable form of [`is_unicode_whitespace`].
pub fn is_whitespace(c: char) -> (b: bool)
    ensures
        b == is_unicode_whitespace(c),
{
    ('\u{9}' <= c && c <= '\u{d}') || c == ' ' || c == '\u{85}' || c == '\u{a0}' || c
        == '\u{1680}' || ('\u{2000}' <= c && c <= '\u{200a}') || c == '\u{2028}' || c
        == '\u{2029}' || c == '\u{202f}' || c == '\u{205f}' || c == '\u{3000}'
}

/// A character sequence with leading and trailing white space removed (`str::trim`).
pub open spec fn trim_chars(s: Seq<char>) -> Seq<char>
    decreases s.len(),
{
    if s.len() == 0 {
        s
    } else if is_unicode_whitespace(s[0]) {
        trim_chars(s.drop_first())
    } else if is_unicode_whitespace(s.last()) {
        trim_chars(s.drop_last())
    } else {
        s
    }
}

/// True when every character of the sequence is white space (so it trims to nothing).
pub open spec fn all_whitespace(s: Seq<char>) -> bool {
    forall|i: int| 0 <= i < s.len() ==> is_unicode_whitespace(#[trigger] s[i])
}

pub proof fn lemma_trim_empty_iff_all_whitespace(s: Seq<char>)
    ensures
        trim_chars(s).len() == 0 <==> all_whitespace(s),
    decreases s.len(),
{
    if s.len() == 0 {
    } else if is_unicode_whitespace(s[0]) {
        lemma_trim_empty_iff_all_whitespace(s.drop_first());
        if all_whitespace(s.drop_first()) {
            assert forall|i: int| 0 <= i < s.len() implies is_unicode_whitespace(#[trigger] s[i]) by {
                if i > 0 {
                    assert(s[i] == s.drop_first()[i - 1]);
                }
            }
        }
        if all_whitespace(s) {
            assert forall|i: int| 0 <= i < s.drop_first().len() implies is_unicode_whitespace(
                #[trigger] s.drop_first()[i],
            ) by {
                assert(s.drop_first()[i] == s[i + 1]);
            }
        }
    } else if is_unicode_whitespace(s.last()) {
        lemma_trim_empty_iff_all_whitespace(s.drop_last());
        assert(!all_whitespace(s) ==> !is_unicode_whitespace(s[0]) || true);
        if all_whitespace(s.drop_last()) {
            assert forall|i: int| 0 <= i < s.len() implies is_unicode_whitespace(#[trigger] s[i]) by {
                if i < s.len() - 1 {
                    assert(s[i] == s.drop_last()[i]);
                }
            }
        }
        if all_whitespace(s) {
            assert forall|i: int| 0 <= i < s.drop_last().len() implies is_unicode_whitespace(
                #[trigger] s.drop_last()[i],
            ) by {
                assert(s.drop_last()[i] == s[i]);
            }
        }
    } else {
        assert(!is_unicode_whitespace(s[0]));
    }
}

/// Whether the characters are all white space (`s.trim().is_empty()`).
pub fn is_blank(s: &[char]) -> (b: bool)
    ensures
        b == (trim_chars(s@).len() == 0),
{
    proof {
        lemma_trim_empty_iff_all_whitespace(s@);
    }
    let mut i: usize = 0;
    while i < s.len()
        invariant
            i <= s@.len(),
            forall|j: int| 0 <= j < i ==> is_unicode_whitespace(#[trigger] s@[j]),
        decreases s@.len() - i,
    {
        if !is_whitespace(s[i]) {
            assert(!is_unicode_whitespace(s@[i as int]));
            assert(!all_whitespace(s@));
            proof {
                lemma_trim_empty_iff_all_whitespace(s@);
            }
            return false;
        }
        i = i + 1;
    }
    true
}

} // verus!

verus! {

/// The decimal digit character for `d < 10`.
pub open spec fn digit_char(d: nat) -> char {
    ((d + 48) as u32) as char
}

/// Decimal representation of a natural number, most significant digit first.
pub open spec fn decimal(n: nat) -> Seq<char>
    decreases n,
{
    if n < 10 {
        seq![digit_char(n)]
    } else {
        decimal(n / 10).push(digit_char(n % 10))
    }
}

/// Decimal rendering of a `usize` (`n.to_string()`).
pub fn usize_to_string(n: usize) -> (s: String)
    ensures
        s@ == decimal(n as nat),
    decreases n,
{
    if n < 10 {
        let mut s = String::new();
        string_push(&mut s, digit(n));
        s
    } else {
        let mut s = usize_to_string(n / 10);
        string_push(&mut s, digit(n % 10));
        s
    }
}

/// Decimal rendering of a `u64`.
pub fn u64_to_string(n: u64) -> (s: String)
    ensures
        s@ == decimal(n as nat),
    decreases n,
{
    if n < 10 {
        let mut s = String::new();
        string_push(&mut s, digit(n as usize));
        s
    } else {
        let mut s = u64_to_string(n / 10);
        string_push(&mut s, digit((n % 10) as usize));
        s
    }
}

fn digit(d: usize) -> (c: char)
    requires
        d < 10,
    ensures
        c == digit_char(d as nat),
{
    let b: u8 = (d as u8) + 48;
    let c = b as char;
    assert(c == digit_char(d as nat)) by {
        assert((b as u32) == (d + 48) as u32);
    }
    c
}

} // verus!

verus! {

proof fn lemma_utf8_len_front(s: Seq<char>)
    requires
        s.len() >= 1,
    ensures
        utf8_len(s) == utf8_width(s[0]) + utf8_len(s.drop_first()),
    decreases s.len(),
{
    if s.len() == 1 {
        assert(s.drop_last() =~= Seq::<char>::empty());
        assert(s.drop_first() =~= Seq::<char>::empty());
    } else {
        lemma_utf8_len_front(s.drop_last());
        assert(s.drop_last().drop_first() =~= s.drop_first().drop_last());
        assert(s.drop_first().last() == s.last());
    }
}

/// The byte length of a string is the UTF-8 length of its characters.
pub proof fn lemma_utf8_len_is_byte_len(s: Seq<char>)
    ensures
        utf8_len(s) == vstd::utf8::encode_utf8(s).len(),
    decreases s.len(),
{
    if s.len() > 0 {
        lemma_utf8_len_front(s);
        lemma_utf8_len_is_byte_len(s.drop_first());
        let c = s[0];
        vstd::utf8::char_is_scalar(c);
    }
}

/// Byte length of a string, as the UTF-8 length of its characters.
pub fn string_byte_len(s: &String) -> (n: usize)
    ensures
        n == utf8_len(s@),
{
    proof {
        lemma_utf8_len_is_byte_len(s@);
    }
    let b = s.as_str().as_bytes();
    b.len()
}

/// Number of leading characters, starting at `i` with `acc` bytes already counted, that
/// fit in `limit` bytes.
pub open spec fn fit_chars_from(s: Seq<char>, i: int, acc: int, limit: int) -> int
    decreases s.len() - i,
{
    if i < 0 || i >= s.len() || acc + utf8_width(s[i]) > limit {
        i
    } else {
        fit_chars_from(s, i + 1, acc + utf8_width(s[i]), limit)
    }
}

/// The most leading characters whose UTF-8 encoding fits in `limit` bytes; cutting there
/// is cutting at the last character boundary not after byte `limit`.
pub open spec fn fit_chars(s: Seq<char>, limit: int) -> int {
    fit_chars_from(s, 0, 0, limit)
}

pub proof fn lemma_fit_chars_from_bounds(s: Seq<char>, i: int, acc: int, limit: int)
    requires
        0 <= i <= s.len(),
    ensures
        i <= fit_chars_from(s, i, acc, limit) <= s.len(),
    decreases s.len() - i,
{
    if i < s.len() && acc + utf8_width(s[i]) <= limit {
        lemma_fit_chars_from_bounds(s, i + 1, acc + utf8_width(s[i]), limit);
    }
}

/// Drops leading characters of `s` so that its UTF-8 length is at most `cap` bytes,
/// cutting at the last character boundary not after the excess.
pub open spec fn keep_tail_bytes(s: Seq<char>, cap: int) -> Seq<char> {
    if utf8_len(s) > cap {
        s.skip(fit_chars(s, utf8_len(s) - cap))
    } else {
        s
    }
}

/// Keeps the string within `cap` bytes by dropping its oldest characters
/// (`drain(..floor_char_boundary(len - cap))`).
pub fn keep_tail(s: &mut String, cap: usize)
    ensures
        final(s)@ == keep_tail_bytes(old(s)@, cap as int),
{
    let n = string_byte_len(s);
    if n <= cap {
        return;
    }
    let limit = n - cap;
    let chars = chars_of(s.as_str());
    let mut i: usize = 0;
    let mut acc: usize = 0;
    proof {
        lemma_fit_chars_from_bounds(chars@, 0, 0, limit as int);
    }
    while i < chars.len() && utf8_char_width(chars[i]) <= limit - acc
        invariant
            chars@ == old(s)@,
            i <= chars@.len(),
            acc <= limit,
            fit_chars_from(chars@, i as int, acc as int, limit as int) == fit_chars(chars@, limit as int),
        decreases chars@.len() - i,
    {
        acc = acc + utf8_char_width(chars[i]);
        i = i + 1;
    }
    assert(fit_chars(chars@, limit as int) == i);
    let mut out = String::new();
    let mut k = i;
    while k < chars.len()
        invariant
            i <= k <= chars@.len(),
            out@ == chars@.subrange(i as int, k as int),
        decreases chars@.len() - k,
    {
        string_push(&mut out, chars[k]);
        k = k + 1;
        assert(out@ =~= chars@.subrange(i as int, k as int));
    }
    assert(chars@.subrange(i as int, chars@.len() as int) =~= chars@.skip(i as int));
    *s = out;
}

/// Byte width of one character in UTF-8.
pub fn utf8_char_width(c: char) -> (w: usize)
    ensures
        w == utf8_width(c),
{
    let u = c as u32;
    if u < 0x80 {
        1
    } else if u < 0x800 {
        2
    } else if u < 0x10000 {
        3
    } else {
        4
    }
}

} // verus!

verus! {

/// UTF-8 length adds up over concatenation.
pub proof fn lemma_utf8_len_concat(a: Seq<char>, b: Seq<char>)
    ensures
        utf8_len(a + b) == utf8_len(a) + utf8_len(b),
    decreases b.len(),
{
    if b.len() == 0 {
        assert(a + b =~= a);
    } else {
        lemma_utf8_len_concat(a, b.drop_last());
        assert((a + b).drop_last() =~= a + b.drop_last());
        assert((a + b).last() == b.last());
    }
}

/// Every character takes at least one byte.
pub proof fn lemma_len_le_utf8_len(s: Seq<char>)
    ensures
        s.len() <= utf8_len(s),
    decreases s.len(),
{
    if s.len() > 0 {
        lemma_len_le_utf8_len(s.drop_last());
    }
}


pub open spec fn is_digit(c: char) -> bool {
    '0' <= c && c <= '9'
}

pub open spec fn all_digits(d: Seq<char>) -> bool {
    forall|i: int| 0 <= i < d.len() ==> is_digit(#[trigger] d[i])
}

/// The number the decimal digits spell.
pub open spec fn digits_value(d: Seq<char>) -> nat
    decreases d.len(),
{
    if d.len() == 0 {
        0
    } else {
        digits_value(d.drop_last()) * 10 + (d.last() as int - 48) as nat
    }
}

/// The number a text reads as with `str::parse` into an unsigned type whose largest value
/// is `max`: an optional `+`, then at least one decimal digit, at most `max`.
pub open spec fn unsigned_text(p: Seq<char>, max: nat) -> Option<nat> {
    let d = if p.len() > 0 && p[0] == '+' { p.skip(1) } else { p };
    if d.len() > 0 && all_digits(d) && digits_value(d) <= max {
        Some(digits_value(d))
    } else {
        None
    }
}

/// Reads an unsigned number as `str::parse` does, with `max` the type's largest value.
pub fn parse_unsigned(p: &[char], max: u32) -> (r: Option<u32>)
    ensures
        match unsigned_text(p@, max as nat) {
            Some(n) => r == Some(n as u32),
            None => r is None,
        },
{
    let start: usize = if p.len() > 0 && p[0] == '+' { 1 } else { 0 };
    let ghost d = if p@.len() > 0 && p@[0] == '+' { p@.skip(1) } else { p@ };
    if start >= p.len() {
        assert(d.len() == 0);
        return None;
    }
    let mut v: u32 = 0;
    let mut over = false;
    let mut i = start;
    while i < p.len()
        invariant
            start <= i <= p@.len(),
            d == p@.skip(start as int),
            d == if p@.len() > 0 && p@[0] == '+' { p@.skip(1) } else { p@ },
            all_digits(p@.subrange(start as int, i as int)),
            over == (digits_value(p@.subrange(start as int, i as int)) > max),
            !over ==> v == digits_value(p@.subrange(start as int, i as int)),
        decreases p@.len() - i,
    {
        let c = p[i];
        if !('0' <= c && c <= '9') {
            assert(d[(i - start) as int] == c);
            assert(!is_digit(d[(i - start) as int]));
            assert(!all_digits(d));
            return None;
        }
        let ghost pre = p@.subrange(start as int, i as int);
        let ghost nxt = p@.subrange(start as int, i + 1);
        assert(nxt.drop_last() =~= pre);
        assert(nxt.last() == c);
        let digit: u32 = (c as u32) - 48;
        if !over {
            let nv: u64 = (v as u64) * 10 + (digit as u64);
            if nv > max as u64 {
                over = true;
            } else {
                v = nv as u32;
            }
        }
        i = i + 1;
        assert(all_digits(nxt)) by {
            assert forall|k: int| 0 <= k < nxt.len() implies is_digit(#[trigger] nxt[k]) by {
                if k < pre.len() {
                    assert(nxt[k] == pre[k]);
                }
            }
        }
    }
    assert(p@.subrange(start as int, p@.len() as int) =~= d);
    if over {
        None
    } else {
        Some(v)
    }
}

} // verus!

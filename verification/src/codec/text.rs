//! Text encodings: decoding received bytes and encoding text to send.
use vstd::prelude::*;
use vstd::utf8::{encode_utf8, valid_utf8, decode_utf8};
use crate::config::TextEncoding;
use crate::strs::{chars_of, string_push, utf8_len};

verus! {

/// Decoding `n` bytes in a multi-byte encoding writes into a buffer of at most
/// `3 * n + 16` bytes, and no allocation can exceed `isize::MAX` bytes.
pub open spec fn decode_fits(n: int) -> bool {
    3 * n + 16 <= isize::MAX
}

/// Encoding text of `n` UTF-8 bytes to GBK allocates `n + 13` bytes rounded up to a
/// power of two and may grow that once; all of it stays within `isize::MAX` bytes when
/// this holds.
pub open spec fn encode_fits(n: int) -> bool {
    8 * (n + 16) <= isize::MAX
}

/// What `String::from_utf8_lossy` gives for the bytes.
pub uninterp spec fn utf8_lossy_chars(bytes: Seq<u8>) -> Seq<char>;

/// What GBK decoding (`encoding_rs::GBK.decode`) gives for the bytes.
pub uninterp spec fn gbk_decoded(bytes: Seq<u8>) -> Seq<char>;

/// What GBK encoding (`encoding_rs::GBK.encode`) gives for the text.
pub uninterp spec fn gbk_encoded(text: Seq<char>) -> Seq<u8>;

/// `String::from_utf8_lossy`: decodes UTF-8, replacing malformed sequences with U+FFFD.
/// Valid UTF-8 decodes to its characters.
#[verifier::external_body]
fn utf8_lossy(bytes: &[u8]) -> (s: String)
    ensures
        s@ == utf8_lossy_chars(bytes@),
        valid_utf8(bytes@) ==> s@ == decode_utf8(bytes@),
{
    String::from_utf8_lossy(bytes).into_owned()
}

/// `encoding_rs::Encoding::decode` on `GBK`: whole-buffer decoding with replacement of
/// malformed sequences (and BOM sniffing).  Nothing more is stated of the result.
#[verifier::external_body]
fn gbk_decode(bytes: &[u8]) -> (s: String)
    requires
        decode_fits(bytes@.len() as int),
    ensures
        s@ == gbk_decoded(bytes@),
{
    encoding_rs::GBK.decode(bytes).0.into_owned()
}

/// `encoding_rs::Encoding::encode` on `GBK`: whole-buffer encoding, unmappable
/// characters written as numeric character references.  Nothing more is stated.
#[verifier::external_body]
fn gbk_encode(text: &str) -> (v: Vec<u8>)
    requires
        encode_fits(utf8_len(text@) as int),
    ensures
        v@ == gbk_encoded(text@),
{
    encoding_rs::GBK.encode(text).0.into_owned()
}

/// A byte shown as itself in ASCII mode: printable ASCII or space.
pub open spec fn is_shown_ascii(b: u8) -> bool {
    0x20 <= b && b < 0x7f
}

/// ASCII decoding: printable bytes as themselves, everything else as U+FFFD.
pub open spec fn ascii_decoded(bytes: Seq<u8>) -> Seq<char> {
    bytes.map_values(|b: u8| if is_shown_ascii(b) { (b as u8) as char } else { '\u{FFFD}' })
}

/// ASCII encoding: ASCII characters as their byte, everything else as `?`.
pub open spec fn ascii_encoded(text: Seq<char>) -> Seq<u8> {
    text.map_values(|c: char| if (c as u32) < 0x80 { (c as u32) as u8 } else { 63u8 })
}

/// The text that decoding the bytes in the encoding gives.
pub open spec fn decoded_text(bytes: Seq<u8>, enc: TextEncoding) -> Seq<char> {
    match enc {
        TextEncoding::Utf8 => utf8_lossy_chars(bytes),
        TextEncoding::Gbk => gbk_decoded(bytes),
        TextEncoding::Ascii => ascii_decoded(bytes),
    }
}

/// The bytes that encoding the text in the encoding gives.
pub open spec fn encoded_bytes(text: Seq<char>, enc: TextEncoding) -> Seq<u8> {
    match enc {
        TextEncoding::Utf8 => encode_utf8(text),
        TextEncoding::Gbk => gbk_encoded(text),
        TextEncoding::Ascii => ascii_encoded(text),
    }
}

fn ascii_decode(bytes: &[u8]) -> (s: String)
    ensures
        s@ == ascii_decoded(bytes@),
{
    let mut s = String::new();
    let mut i: usize = 0;
    while i < bytes.len()
        invariant
            i <= bytes@.len(),
            s@ == ascii_decoded(bytes@.take(i as int)),
        decreases bytes@.len() - i,
    {
        let b = bytes[i];
        if 0x20 <= b && b < 0x7f {
            string_push(&mut s, b as char);
        } else {
            string_push(&mut s, '\u{FFFD}');
        }
        i = i + 1;
        assert(s@ =~= ascii_decoded(bytes@.take(i as int)));
    }
    assert(bytes@.take(bytes@.len() as int) =~= bytes@);
    s
}

fn ascii_encode(text: &str) -> (v: Vec<u8>)
    ensures
        v@ == ascii_encoded(text@),
{
    let chars = chars_of(text);
    let mut v: Vec<u8> = Vec::new();
    let mut i: usize = 0;
    while i < chars.len()
        invariant
            i <= chars@.len(),
            chars@ == text@,
            v@ == ascii_encoded(chars@.take(i as int)),
        decreases chars@.len() - i,
    {
        let c = chars[i];
        if (c as u32) < 0x80 {
            v.push((c as u32) as u8);
        } else {
            v.push(63u8);
        }
        i = i + 1;
        assert(v@ =~= ascii_encoded(chars@.take(i as int)));
    }
    assert(chars@.take(chars@.len() as int) =~= chars@);
    v
}

/// Decodes bytes in the given encoding; undecodable bytes show as U+FFFD.
pub fn decode(bytes: &[u8], enc: TextEncoding) -> (s: String)
    requires
        enc == TextEncoding::Gbk ==> decode_fits(bytes@.len() as int),
    ensures
        s@ == decoded_text(bytes@, enc),
{
    match enc {
        TextEncoding::Utf8 => utf8_lossy(bytes),
        TextEncoding::Gbk => gbk_decode(bytes),
        TextEncoding::Ascii => ascii_decode(bytes),
    }
}

/// Encodes text in the given encoding; characters it cannot hold become `?` in ASCII.
pub fn encode(text: &str, enc: TextEncoding) -> (v: Vec<u8>)
    requires
        enc == TextEncoding::Gbk ==> encode_fits(utf8_len(text@) as int),
    ensures
        v@ == encoded_bytes(text@, enc),
{
    match enc {
        TextEncoding::Utf8 => vstd::slice::slice_to_vec(text.as_bytes()),
        TextEncoding::Gbk => gbk_encode(text),
        TextEncoding::Ascii => ascii_encode(text),
    }
}


#[verifier::external_type_specification]
#[verifier::external_body]
pub struct ExDecoder(encoding_rs::Decoder);

/// The encoding an `encoding_rs::Decoder` was made for.
pub uninterp spec fn decoder_encoding(d: encoding_rs::Decoder) -> TextEncoding;

/// The bytes an `encoding_rs::Decoder` has been fed since it was made.
pub uninterp spec fn decoder_fed(d: encoding_rs::Decoder) -> Seq<u8>;

/// Everything a streaming decoder for the encoding (BOM sniffing on, end of stream not
/// reached) has written out after being fed the bytes, however they were split into
/// chunks.
pub uninterp spec fn stream_decoded(enc: TextEncoding, bytes: Seq<u8>) -> Seq<char>;

/// The byte after a lead byte that can continue a well-formed UTF-8 character.
pub open spec fn utf8_second_ok(lead: u8, b: u8) -> bool {
    if lead == 0xe0 {
        0xa0 <= b <= 0xbf
    } else if lead == 0xed {
        0x80 <= b <= 0x9f
    } else if lead == 0xf0 {
        0x90 <= b <= 0xbf
    } else if lead == 0xf4 {
        0x80 <= b <= 0x8f
    } else {
        0x80 <= b <= 0xbf
    }
}

/// The bytes are the start of a well-formed UTF-8 character that is not complete yet
/// (or no bytes at all).
pub open spec fn utf8_unfinished(p: Seq<u8>) -> bool {
    p.len() == 0 || {
        let w: int = if 0xc2 <= p[0] <= 0xdf {
            2
        } else if 0xe0 <= p[0] <= 0xef {
            3
        } else if 0xf0 <= p[0] <= 0xf4 {
            4
        } else {
            0
        };
        &&& p.len() < w
        &&& (p.len() >= 2 ==> utf8_second_ok(p[0], p[1]))
        &&& (p.len() >= 3 ==> 0x80 <= p[2] <= 0xbf)
    }
}

/// The bytes start with the UTF-8 byte order mark.
pub open spec fn starts_with_utf8_bom(b: Seq<u8>) -> bool {
    b.len() >= 3 && b[0] == 0xef && b[1] == 0xbb && b[2] == 0xbf
}

/// For the UTF-8 stream decoder fed `b`: after any part of `b` that is well-formed UTF-8
/// (not starting with a byte order mark) followed by the start of one unfinished
/// character, it has written out exactly the characters of the well-formed part.
pub open spec fn utf8_stream_reads(b: Seq<u8>) -> bool {
    forall|m: int, n: int|
        #![trigger valid_utf8(b.take(m).take(n))]
        0 <= n <= m <= b.len() && valid_utf8(b.take(m).take(n)) && !starts_with_utf8_bom(b.take(m).take(n))
            && utf8_unfinished(b.take(m).skip(n))
            ==> stream_decoded(TextEncoding::Utf8, b.take(m)) == decode_utf8(b.take(m).take(n))
}

/// `encoding_rs::Encoding::new_decoder` on `UTF_8` or `GBK`: a streaming decoder that
/// keeps an unfinished multi-byte character between calls.  It has been fed nothing and
/// has written nothing.
#[verifier::external_body]
fn new_decoder(enc: TextEncoding) -> (d: encoding_rs::Decoder)
    requires
        enc != TextEncoding::Ascii,
    ensures
        decoder_encoding(d) == enc,
        decoder_fed(d) == Seq::<u8>::empty(),
        stream_decoded(decoder_encoding(d), decoder_fed(d)) == Seq::<char>::empty(),
{
    match enc {
        TextEncoding::Gbk => encoding_rs::GBK.new_decoder(),
        _ => encoding_rs::UTF_8.new_decoder(),
    }
}

/// `encoding_rs::Decoder::decode_to_utf8` (not the last chunk) into a buffer of
/// `3 * len + 16` bytes, which holds the worst case, so the whole chunk is read.  The
/// decoder has then been fed the chunk as well, and what it wrote for the chunk extends
/// what it had written before; a chunk gives at most as many characters as the buffer
/// has bytes.  The UTF-8 decoder holds back only an unfinished character and writes
/// well-formed input out as its characters (a byte order mark at the very start aside).
#[verifier::external_body]
fn decode_chunk(dec: &mut encoding_rs::Decoder, bytes: &[u8]) -> (s: String)
    requires
        decode_fits(bytes@.len() as int),
    ensures
        decoder_encoding(*final(dec)) == decoder_encoding(*old(dec)),
        decoder_fed(*final(dec)) == decoder_fed(*old(dec)) + bytes@,
        stream_decoded(decoder_encoding(*final(dec)), decoder_fed(*final(dec)))
            == stream_decoded(decoder_encoding(*old(dec)), decoder_fed(*old(dec))) + s@,
        s@.len() <= 3 * bytes@.len() + 16,
        decoder_encoding(*final(dec)) == TextEncoding::Utf8 ==> utf8_stream_reads(decoder_fed(*final(dec))),
{
    let mut out = vec![0u8; bytes.len() * 3 + 16];
    let (_, _, written, _) = dec.decode_to_utf8(bytes, &mut out, false);
    String::from_utf8_lossy(&out[..written]).into_owned()
}

/// What a streaming decoder for `enc` that has been fed `fed` writes for the next bytes.
pub open spec fn stream_piece(enc: TextEncoding, fed: Seq<u8>, bytes: Seq<u8>) -> Seq<char> {
    stream_decoded(enc, fed + bytes).skip(stream_decoded(enc, fed).len() as int)
}

/// A streaming decoder for the current text encoding; switching the encoding starts a
/// fresh decoder.
pub struct StreamDecoder {
    dec: Option<encoding_rs::Decoder>,
    enc: Option<TextEncoding>,
}

impl StreamDecoder {
    #[verifier::type_invariant]
    closed spec fn enc_matches(&self) -> bool {
        self.dec matches Some(d) ==> self.enc == Some(decoder_encoding(d))
    }

    /// The encoding whose decoder is running, if any.  While none runs, no bytes are
    /// held back from earlier chunks: the next chunk starts a fresh decoder.
    pub closed spec fn running(&self) -> Option<TextEncoding> {
        match self.dec {
            Some(d) => Some(decoder_encoding(d)),
            None => None,
        }
    }

    /// The bytes the running decoder has been fed (nothing when none runs).
    pub closed spec fn fed(&self) -> Seq<u8> {
        match self.dec {
            Some(d) => decoder_fed(d),
            None => Seq::empty(),
        }
    }

    /// The bytes a decoding step in `enc` continues from: those fed to the running
    /// decoder when it is for `enc`, else none (a fresh decoder starts).
    pub open spec fn fed_for(&self, enc: TextEncoding) -> Seq<u8> {
        if self.running() == Some(enc) {
            self.fed()
        } else {
            Seq::empty()
        }
    }

    pub fn new() -> (d: Self)
        ensures
            d.running() is None,
            d.fed() == Seq::<u8>::empty(),
    {
        StreamDecoder { dec: None, enc: None }
    }

    /// Forgets any held-back bytes.
    pub fn reset(&mut self)
        ensures
            final(self).running() is None,
            final(self).fed() == Seq::<u8>::empty(),
    {
        self.dec = None;
        self.enc = None;
    }

    /// Decodes the next chunk of a stream in the given (multi-byte) encoding, starting a
    /// fresh decoder when none runs or the running one is for another encoding; the
    /// decoder for `enc` keeps running afterwards, fed the chunk as well.
    pub fn decode(&mut self, bytes: &[u8], enc: TextEncoding) -> (s: String)
        requires
            enc != TextEncoding::Ascii,
            decode_fits(bytes@.len() as int),
        ensures
            final(self).running() == Some(enc),
            final(self).fed() == old(self).fed_for(enc) + bytes@,
            s@ == stream_piece(enc, old(self).fed_for(enc), bytes@),
            s@.len() <= 3 * bytes@.len() + 16,
            enc == TextEncoding::Utf8 ==> utf8_stream_reads(final(self).fed()),
            stream_decoded(enc, final(self).fed()) == stream_decoded(enc, old(self).fed_for(enc)) + s@,
    {
        proof {
            use_type_invariant(&*self);
        }
        let ghost from = self.fed_for(enc);
        let mut taken = StreamDecoder::new();
        std::mem::swap(self, &mut taken);
        proof {
            use_type_invariant(&taken);
        }
        let StreamDecoder { dec, enc: prev } = taken;
        let same = match prev {
            Some(e) => e == enc,
            None => false,
        };
        let mut d = match dec {
            Some(d) => if same {
                d
            } else {
                new_decoder(enc)
            },
            None => new_decoder(enc),
        };
        assert(decoder_encoding(d) == enc && decoder_fed(d) == from);
        let s = decode_chunk(&mut d, bytes);
        proof {
            let all = stream_decoded(enc, from + bytes@);
            assert(all == stream_decoded(enc, from) + s@);
            assert(all.skip(stream_decoded(enc, from).len() as int) =~= s@);
        }
        *self = StreamDecoder { dec: Some(d), enc: Some(enc) };
        s
    }
}
} // verus!

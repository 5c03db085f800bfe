//! The receive area's data: received and sent bytes kept in batches ("segments"), each
//! with a marker such as `[12:00:00.000] [RX] `, and the text shown for them.
//!
//! The raw bytes stay one continuous stream so that a multi-byte character split between
//! two batches still decodes; the markers are put into the decoded text.  Every marker
//! starts a new line.
use vstd::prelude::*;
use vstd::string::{StrSliceExecFns, StringExecFns};
use crate::codec::hex::{format_hex, hex_text};
use crate::codec::text::{ascii_decoded, decode, stream_piece, utf8_stream_reads, StreamDecoder};
use crate::config::{DisplayMode, TextEncoding};
use crate::strs::{chars_of, keep_tail, keep_tail_bytes, string_push};

verus! {

/// Bytes kept for display; past twice this many the oldest are dropped down to it.
pub const DATA_DISPLAY_CAP: usize = 256 * 1024;

/// Bytes of shown text kept; older text is dropped.
pub const DISPLAY_CACHE_CAP: usize = 300_000;

/// One batch: its marker and its range in the byte buffer.
#[derive(Debug)]
pub struct DisplaySeg {
    pub marker: String,
    pub start: usize,
    pub end: usize,
}

/// Every segment lies inside a buffer of `len` bytes.
pub open spec fn segs_within(segs: Seq<DisplaySeg>, len: int) -> bool {
    forall|k: int| #![trigger segs[k]] 0 <= k < segs.len() ==> segs[k].start <= segs[k].end && segs[k].end <= len
}

/// A segment after the first `drop` bytes of the buffer are gone.
pub open spec fn shifted_seg(s: DisplaySeg, drop: int) -> DisplaySeg {
    if s.end <= drop {
        DisplaySeg { marker: s.marker, start: 0, end: 0 }
    } else if s.start < drop {
        DisplaySeg { marker: s.marker, start: 0, end: (s.end - drop) as usize }
    } else {
        DisplaySeg { marker: s.marker, start: (s.start - drop) as usize, end: (s.end - drop) as usize }
    }
}

/// The segments after dropping `drop` bytes: shifted, and those left empty removed.
pub open spec fn kept_segments(segs: Seq<DisplaySeg>, drop: int) -> Seq<DisplaySeg>
    decreases segs.len(),
{
    if segs.len() == 0 {
        Seq::empty()
    } else {
        let r = kept_segments(segs.drop_last(), drop);
        let t = shifted_seg(segs.last(), drop);
        if t.end > t.start {
            r.push(t)
        } else {
            r
        }
    }
}

fn shift_seg(s: DisplaySeg, drop: usize) -> (t: DisplaySeg)
    ensures
        t == shifted_seg(s, drop as int),
{
    if s.end <= drop {
        DisplaySeg { marker: s.marker, start: 0, end: 0 }
    } else if s.start < drop {
        DisplaySeg { marker: s.marker, start: 0, end: s.end - drop }
    } else {
        DisplaySeg { marker: s.marker, start: s.start - drop, end: s.end - drop }
    }
}

proof fn lemma_kept_within(segs: Seq<DisplaySeg>, drop: int, len: int)
    requires
        segs_within(segs, len),
        0 <= drop <= len,
    ensures
        segs_within(kept_segments(segs, drop), len - drop),
    decreases segs.len(),
{
    if segs.len() > 0 {
        assert forall|k: int| #![trigger segs.drop_last()[k]] 0 <= k < segs.drop_last().len() implies segs.drop_last()[k].start
            <= segs.drop_last()[k].end && segs.drop_last()[k].end <= len by {
            assert(segs.drop_last()[k] == segs[k]);
        }
        let last = segs.len() - 1;
        assert(segs[last].start <= segs[last].end);
        assert(segs[last].end <= len);
        lemma_kept_within(segs.drop_last(), drop, len);
        let r = kept_segments(segs.drop_last(), drop);
        let t = shifted_seg(segs.last(), drop);
        assert(segs.last() == segs[last]);
        if t.end > t.start {
            assert forall|k: int| #![trigger r.push(t)[k]] 0 <= k < r.push(t).len() implies r.push(t)[k].start
                <= r.push(t)[k].end && r.push(t)[k].end <= len - drop by {
                if k < r.len() {
                    assert(r.push(t)[k] == r[k]);
                }
            }
        }
    }
}

/// Appends a batch to the display buffer (nothing while paused).  Past twice
/// [`DATA_DISPLAY_CAP`] bytes, the oldest bytes are dropped down to the cap, the
/// segments are shifted, and the shown text must be rebuilt.
pub fn append_segment(
    buf: &mut Vec<u8>,
    segments: &mut Vec<DisplaySeg>,
    paused: bool,
    dropped: &mut u64,
    dirty: &mut bool,
    invalid: &mut bool,
    marker: String,
    bytes: &[u8],
)
    requires
        segs_within(old(segments)@, old(buf)@.len() as int),
        old(buf)@.len() + bytes@.len() <= usize::MAX,
        *old(dropped) + old(buf)@.len() + bytes@.len() <= u64::MAX,
    ensures
        segs_within(final(segments)@, final(buf)@.len() as int),
        paused ==> {
            &&& final(buf)@ == old(buf)@ && final(segments)@ == old(segments)@
            &&& *final(dropped) == *old(dropped) && *final(dirty) == *old(dirty)
            &&& *final(invalid) == *old(invalid)
        },
        !paused ==> {
            let full = old(buf)@ + bytes@;
            let segs = old(segments)@.push(
                DisplaySeg { marker, start: old(buf)@.len() as usize, end: full.len() as usize },
            );
            &&& *final(dirty)
            &&& if full.len() > 2 * DATA_DISPLAY_CAP {
                let drop = full.len() - DATA_DISPLAY_CAP;
                &&& final(buf)@ == full.skip(drop)
                &&& *final(dropped) == *old(dropped) + drop
                &&& *final(invalid)
                &&& final(segments)@ == kept_segments(segs, drop)
            } else {
                &&& final(buf)@ == full
                &&& final(segments)@ == segs
                &&& *final(dropped) == *old(dropped)
                &&& *final(invalid) == *old(invalid)
            }
        },
{
    if paused {
        return;
    }
    let start = buf.len();
    let mut i: usize = 0;
    let ghost b0 = buf@;
    while i < bytes.len()
        invariant
            i <= bytes@.len(),
            buf@ == b0 + bytes@.take(i as int),
        decreases bytes@.len() - i,
    {
        buf.push(bytes[i]);
        i = i + 1;
        assert(buf@ =~= b0 + bytes@.take(i as int));
    }
    assert(bytes@.take(bytes@.len() as int) =~= bytes@);
    let end = buf.len();
    segments.push(DisplaySeg { marker, start, end });
    assert forall|k: int| 0 <= k < segments@.len() implies #[trigger] segments@[k].start
        <= segments@[k].end <= buf@.len() by {
        if k < segments@.len() - 1 {
            assert(segments@[k] == old(segments)@[k]);
            assert(old(segments)@[k].start <= old(segments)@[k].end);
            assert(old(segments)@[k].end <= old(buf)@.len());
        }
    }
    if buf.len() > DATA_DISPLAY_CAP * 2 {
        let drop = buf.len() - DATA_DISPLAY_CAP;
        let mut kept: Vec<u8> = Vec::new();
        let mut j = drop;
        while j < buf.len()
            invariant
                drop <= j <= buf@.len(),
                kept@ == buf@.subrange(drop as int, j as int),
            decreases buf@.len() - j,
        {
            kept.push(buf[j]);
            j = j + 1;
            assert(kept@ =~= buf@.subrange(drop as int, j as int));
        }
        assert(buf@.subrange(drop as int, buf@.len() as int) =~= buf@.skip(drop as int));
        *buf = kept;
        *dropped = *dropped + drop as u64;
        *invalid = true;
        let ghost segs = segments@;
        let mut new_segs: Vec<DisplaySeg> = Vec::new();
        let mut k: usize = 0;
        while k < segments.len()
            invariant
                segs == segments@,
                k <= segs.len(),
                new_segs@ == kept_segments(segs.take(k as int), drop as int),
            decreases segs.len() - k,
        {
            let seg = &segments[k];
            let copy = DisplaySeg { marker: seg.marker.clone(), start: seg.start, end: seg.end };
            assert(copy == segs[k as int]);
            let t = shift_seg(copy, drop);
            assert(segs.take(k + 1).drop_last() =~= segs.take(k as int));
            if t.end > t.start {
                new_segs.push(t);
            }
            k = k + 1;
        }
        assert(segs.take(segs.len() as int) =~= segs);
        proof {
            lemma_kept_within(segs, drop as int, (buf@.len() + drop) as int);
        }
        *segments = new_segs;
    }
    *dirty = true;
}

/// Index of the first `"] ["` in the marker at or after `i`.
pub open spec fn find_bracket_gap(m: Seq<char>, i: int) -> Option<int>
    decreases m.len() - i,
{
    if i < 0 || i + 3 > m.len() {
        None
    } else if m[i] == ']' && m[i + 1] == ' ' && m[i + 2] == '[' {
        Some(i)
    } else {
        find_bracket_gap(m, i + 1)
    }
}

/// The marker without its leading `[HH:MM:SS.mmm] ` time stamp: what follows the first
/// `"] "` that comes before a `[`, or the whole marker when there is none.
pub open spec fn marker_text_without_timestamp(m: Seq<char>) -> Seq<char> {
    match find_bracket_gap(m, 0) {
        Some(i) => m.skip(i + 2),
        None => m,
    }
}

/// Removes the `[HH:MM:SS.mmm]` time stamp from a marker, keeping the `[RX]`/`[TX]` part.
pub fn marker_without_timestamp(marker: &str) -> (r: &str)
    ensures
        r@ == marker_text_without_timestamp(marker@),
{
    let chars = chars_of(marker);
    let n = chars.len();
    let mut i: usize = 0;
    while i < n && n - i >= 3
        invariant
            chars@ == marker@,
            n == chars@.len(),
            i <= n,
            find_bracket_gap(chars@, i as int) == find_bracket_gap(chars@, 0),
        decreases n - i,
    {
        if chars[i] == ']' && chars[i + 1] == ' ' && chars[i + 2] == '[' {
            return marker.substring_char(i + 2, n);
        }
        i = i + 1;
    }
    assert(find_bracket_gap(chars@, i as int) is None);
    marker
}

/// How the bytes of a segment show: their HEX, their ASCII text, or what the streaming
/// decoder, already fed `fed`, writes for them (a character split across segments
/// shows once it is complete).
pub open spec fn piece_fits(piece: Seq<char>, bytes: Seq<u8>, mode: DisplayMode, enc: TextEncoding, fed: Seq<u8>) -> bool {
    match mode {
        DisplayMode::Hex => piece == hex_text(bytes),
        DisplayMode::Text => if enc == TextEncoding::Ascii {
            piece == ascii_decoded(bytes)
        } else {
            piece == stream_piece(enc, fed, bytes)
        },
    }
}

/// Whether the text of this mode and encoding goes through the streaming decoder.
pub open spec fn streamed(mode: DisplayMode, enc: TextEncoding) -> bool {
    mode == DisplayMode::Text && enc != TextEncoding::Ascii
}

/// The bytes of the segments, in order, joined.
pub open spec fn segs_bytes(segs: Seq<DisplaySeg>, data: Seq<u8>) -> Seq<u8>
    decreases segs.len(),
{
    if segs.len() == 0 {
        Seq::empty()
    } else {
        segs_bytes(segs.drop_last(), data) + data.subrange(segs.last().start as int, segs.last().end as int)
    }
}

/// The marker as shown: with or without the time stamp.
pub open spec fn shown_marker(m: Seq<char>, show_timestamps: bool) -> Seq<char> {
    if show_timestamps {
        m
    } else {
        marker_text_without_timestamp(m)
    }
}

/// Shown text after appending a segment: a line break unless the text is empty, the
/// marker, then the segment's text.
pub open spec fn with_segment(text: Seq<char>, marker: Seq<char>, piece: Seq<char>) -> Seq<char> {
    (if text.len() > 0 { text.push('\n') } else { text }) + marker + piece
}

/// Shown text after appending segments with the given markers and texts.
pub open spec fn with_segments(text: Seq<char>, markers: Seq<Seq<char>>, pieces: Seq<Seq<char>>) -> Seq<char>
    decreases markers.len(),
{
    if markers.len() == 0 || pieces.len() == 0 {
        text
    } else {
        with_segment(with_segments(text, markers.drop_last(), pieces.drop_last()), markers.last(), pieces.last())
    }
}

/// The markers of segments as shown.
pub open spec fn shown_markers(segs: Seq<DisplaySeg>, show_timestamps: bool) -> Seq<Seq<char>> {
    segs.map_values(|s: DisplaySeg| shown_marker(s.marker@, show_timestamps))
}

/// The pieces fit the segments' bytes, the segments decoded in order by a stream decoder
/// that had been fed `fed` before the first.
pub open spec fn pieces_fit(pieces: Seq<Seq<char>>, segs: Seq<DisplaySeg>, data: Seq<u8>, mode: DisplayMode, enc: TextEncoding, fed: Seq<u8>) -> bool {
    &&& pieces.len() == segs.len()
    &&& forall|k: int| 0 <= k < segs.len() ==> piece_fits(#[trigger] pieces[k], data.subrange(segs[k].start as int, segs[k].end as int), mode, enc, fed + segs_bytes(segs.take(k), data))
}

/// The bytes the decoder of a refresh continues from: none after a rebuild, else those
/// fed to the running decoder for `enc`.
pub open spec fn refresh_fed(d: DisplayState, enc: TextEncoding) -> Seq<u8> {
    if d.cache_invalid {
        Seq::empty()
    } else {
        d.decoder.fed_for(enc)
    }
}

/// The segments whose text a refresh adds: all after a rebuild, else the new ones.
pub open spec fn pending_segments(d: DisplayState) -> Seq<DisplaySeg> {
    let from: int = if d.cache_invalid { 0 } else { d.segments_decoded as int };
    d.segments@.subrange(from, d.segments@.len() as int)
}

/// The text a refresh starts from: nothing after a rebuild, else the shown text.
pub open spec fn refresh_base(d: DisplayState) -> Seq<char> {
    if d.cache_invalid {
        Seq::empty()
    } else {
        d.cache@
    }
}

/// `b` is `a` after a batch with `marker` was appended (nothing changes while paused).
pub open spec fn batch_appended(a: DisplayState, marker: String, bytes: Seq<u8>, paused: bool, b: DisplayState) -> bool {
    &&& b.cache == a.cache
    &&& b.segments_decoded == a.segments_decoded
    &&& paused ==> b == a
    &&& !paused ==> {
        let full = a.data@ + bytes;
            let segs = a.segments@.push(
                DisplaySeg { marker, start: a.data@.len() as usize, end: full.len() as usize },
            );
            &&& b.dirty
            &&& if full.len() > 2 * DATA_DISPLAY_CAP {
                let drop = full.len() - DATA_DISPLAY_CAP;
                &&& b.data@ == full.skip(drop)
                &&& b.dropped == a.dropped + drop
                &&& b.cache_invalid
                &&& b.segments@ == kept_segments(segs, drop)
            } else {
                &&& b.data@ == full
                &&& b.segments@ == segs
                &&& b.dropped == a.dropped
                &&& b.cache_invalid == a.cache_invalid
            }
    }
}

/// The receive area's batches and the text shown for them.
pub struct DisplayState {
    pub data: Vec<u8>,
    pub segments: Vec<DisplaySeg>,
    pub cache: String,
    pub dirty: bool,
    /// Segments already in `cache`.
    pub segments_decoded: usize,
    /// `cache` must be rebuilt from all segments.
    pub cache_invalid: bool,
    pub decoder: StreamDecoder,
    /// Bytes dropped from the front of the buffer so far.
    pub dropped: u64,
}

impl DisplayState {
    pub open spec fn wf(&self) -> bool {
        &&& segs_within(self.segments@, self.data@.len() as int)
        &&& self.data@.len() <= 2 * DATA_DISPLAY_CAP
        &&& (!self.cache_invalid ==> self.segments_decoded <= self.segments@.len())
    }

    pub fn new() -> (d: Self)
        ensures
            d.wf(),
            d.data@.len() == 0 && d.segments@.len() == 0 && d.cache@.len() == 0,
            !d.dirty && !d.cache_invalid && d.segments_decoded == 0 && d.dropped == 0,
            d.decoder.running() is None,
    {
        DisplayState {
            data: Vec::new(),
            segments: Vec::new(),
            cache: String::new(),
            dirty: false,
            segments_decoded: 0,
            cache_invalid: false,
            decoder: StreamDecoder::new(),
            dropped: 0,
        }
    }

    /// Empties the buffer and the shown text.
    pub fn clear(&mut self)
        ensures
            final(self).wf(),
            final(self).data@.len() == 0 && final(self).segments@.len() == 0,
            final(self).cache@.len() == 0,
            !final(self).dirty && !final(self).cache_invalid,
            final(self).segments_decoded == 0 && final(self).dropped == 0,
    {
        self.data = Vec::new();
        self.segments = Vec::new();
        self.segments_decoded = 0;
        self.cache = String::new();
        self.dropped = 0;
        self.cache_invalid = false;
        self.decoder.reset();
        self.dirty = false;
    }

    /// Appends a batch with the given marker (see [`append_segment`]).
    pub fn append(&mut self, marker: String, bytes: &[u8], paused: bool)
        requires
            old(self).wf(),
            bytes@.len() <= usize::MAX - 2 * DATA_DISPLAY_CAP,
            old(self).dropped + 2 * DATA_DISPLAY_CAP + bytes@.len() <= u64::MAX,
        ensures
            final(self).wf(),
            batch_appended(*old(self), marker, bytes@, paused, *final(self)),
    {
        if paused {
            return;
        }
        append_segment(
            &mut self.data,
            &mut self.segments,
            paused,
            &mut self.dropped,
            &mut self.dirty,
            &mut self.cache_invalid,
            marker,
            bytes,
        );
    }

    /// Appends one segment's text to the shown text.
    fn append_segment_to_cache(&mut self, k: usize, mode: DisplayMode, enc: TextEncoding, show_timestamps: bool) -> (piece: Ghost<Seq<char>>)
        requires
            old(self).wf(),
            k < old(self).segments@.len(),
        ensures
            final(self).wf(),
            final(self).data@ == old(self).data@ && final(self).segments@ == old(self).segments@,
            final(self).dirty == old(self).dirty && final(self).segments_decoded == old(self).segments_decoded,
            final(self).cache_invalid == old(self).cache_invalid && final(self).dropped == old(self).dropped,
            ({
                let seg = old(self).segments@[k as int];
                let bytes = old(self).data@.subrange(seg.start as int, seg.end as int);
                &&& piece_fits(piece@, bytes, mode, enc, old(self).decoder.fed_for(enc))
                &&& streamed(mode, enc) ==> final(self).decoder.fed_for(enc) == old(self).decoder.fed_for(enc) + bytes
                &&& streamed(mode, enc) && enc == TextEncoding::Utf8 ==> utf8_stream_reads(final(self).decoder.fed_for(enc))
                &&& !streamed(mode, enc) ==> final(self).decoder == old(self).decoder
                &&& final(self).cache@ == with_segment(old(self).cache@, shown_marker(seg.marker@, show_timestamps), piece@)
            }),
    {
        let start = self.segments[k].start;
        let end = self.segments[k].end;
        assert(self.segments@[k as int].start <= self.segments@[k as int].end <= self.data@.len());
        let mut bytes: Vec<u8> = Vec::new();
        let mut i = start;
        while i < end
            invariant
                start <= i <= end <= self.data@.len(),
                bytes@ == self.data@.subrange(start as int, i as int),
            decreases end - i,
        {
            bytes.push(self.data[i]);
            i = i + 1;
            assert(bytes@ =~= self.data@.subrange(start as int, i as int));
        }
        if !self.cache.as_str().is_empty() {
            string_push(&mut self.cache, '\n');
        }
        if show_timestamps {
            let m = self.segments[k].marker.as_str();
            self.cache.append(m);
        } else {
            let m = marker_without_timestamp(self.segments[k].marker.as_str());
            self.cache.append(m);
        }
        let text = match mode {
            DisplayMode::Text => {
                if enc == TextEncoding::Ascii {
                    decode(bytes.as_slice(), enc)
                } else {
                    self.decoder.decode(bytes.as_slice(), enc)
                }
            },
            DisplayMode::Hex => format_hex(bytes.as_slice()),
        };
        let ghost before = self.cache@;
        self.cache.append(text.as_str());
        Ghost(text@)
    }

    /// Brings the shown text up to date: after a change of mode or a trim it is rebuilt
    /// from all segments, otherwise only new segments are added; the text is then held to
    /// [`DISPLAY_CACHE_CAP`] bytes.
    pub fn refresh(&mut self, mode: DisplayMode, enc: TextEncoding, show_timestamps: bool)
        requires
            old(self).wf(),
        ensures
            final(self).wf(),
            final(self).data@ == old(self).data@ && final(self).segments@ == old(self).segments@,
            final(self).dropped == old(self).dropped,
            !old(self).dirty ==> *final(self) == *old(self),
            old(self).dirty ==> {
                &&& !final(self).dirty && !final(self).cache_invalid
                &&& final(self).segments_decoded == old(self).segments@.len()
                &&& streamed(mode, enc) ==> final(self).decoder.fed_for(enc)
                    == refresh_fed(*old(self), enc) + segs_bytes(pending_segments(*old(self)), old(self).data@)
                &&& streamed(mode, enc) && enc == TextEncoding::Utf8 && pending_segments(*old(self)).len() > 0
                    ==> utf8_stream_reads(final(self).decoder.fed_for(enc))
                &&& exists|pieces: Seq<Seq<char>>| #![trigger pieces_fit(pieces, pending_segments(*old(self)), old(self).data@, mode, enc, refresh_fed(*old(self), enc))]
                    pieces_fit(pieces, pending_segments(*old(self)), old(self).data@, mode, enc, refresh_fed(*old(self), enc))
                    && final(self).cache@ == keep_tail_bytes(
                        with_segments(
                            refresh_base(*old(self)),
                            shown_markers(pending_segments(*old(self)), show_timestamps),
                            pieces,
                        ),
                        DISPLAY_CACHE_CAP as int,
                    )
            },
    {
        if !self.dirty {
            return;
        }
        self.dirty = false;
        if self.cache_invalid {
            self.cache_invalid = false;
            self.segments_decoded = 0;
            self.cache = String::new();
            self.decoder.reset();
        }
        let ghost fed0 = refresh_fed(*old(self), enc);
        let from = self.segments_decoded;
        let n = self.segments.len();
        let ghost base = self.cache@;
        let ghost all = self.segments@;
        let ghost segs = all.subrange(from as int, n as int);
        let ghost mut pieces: Seq<Seq<char>> = Seq::empty();
        let mut k = from;
        while k < n
            invariant
                self.wf(),
                !self.cache_invalid,
                self.segments@ == all,
                self.data@ == old(self).data@,
                self.dropped == old(self).dropped,
                self.segments_decoded == from,
                !self.dirty,
                n == all.len(),
                from <= k <= n,
                segs == all.subrange(from as int, n as int),
                pieces_fit(pieces, all.subrange(from as int, k as int), self.data@, mode, enc, fed0),
                streamed(mode, enc) ==> self.decoder.fed_for(enc) == fed0 + segs_bytes(all.subrange(from as int, k as int), self.data@),
                streamed(mode, enc) && enc == TextEncoding::Utf8 && k > from ==> utf8_stream_reads(self.decoder.fed_for(enc)),
                self.cache@ == with_segments(base, shown_markers(all.subrange(from as int, k as int), show_timestamps), pieces),
            decreases n - k,
        {
            let piece = self.append_segment_to_cache(k, mode, enc, show_timestamps);
            proof {
                let pre = all.subrange(from as int, k as int);
                let post = all.subrange(from as int, k + 1);
                assert(post.drop_last() =~= pre);
                assert(post.last() == all[k as int]);
                let new_pieces = pieces.push(piece@);
                assert(new_pieces.drop_last() =~= pieces);
                assert(shown_markers(post, show_timestamps).drop_last() =~= shown_markers(pre, show_timestamps));
                assert(post.take(pre.len() as int) =~= pre);
                assert forall|j: int| 0 <= j < post.len() implies piece_fits(#[trigger] new_pieces[j], self.data@.subrange(post[j].start as int, post[j].end as int), mode, enc, fed0 + segs_bytes(post.take(j), self.data@)) by {
                    if j < pre.len() {
                        assert(new_pieces[j] == pieces[j]);
                        assert(post[j] == pre[j]);
                        assert(post.take(j) =~= pre.take(j));
                    }
                }
                assert(segs_bytes(post, self.data@) == segs_bytes(pre, self.data@) + self.data@.subrange(all[k as int].start as int, all[k as int].end as int));
                pieces = new_pieces;
            }
            k = k + 1;
        }
        self.segments_decoded = n;
        keep_tail(&mut self.cache, DISPLAY_CACHE_CAP);
        assert(all.subrange(from as int, k as int) == segs);
        assert(pieces_fit(pieces, segs, old(self).data@, mode, enc, fed0));
        assert(all == old(self).segments@);
        assert(from as int == if old(self).cache_invalid { 0 } else { old(self).segments_decoded as int });
        assert(base == refresh_base(*old(self)));
        assert(segs == pending_segments(*old(self)));
        assert(pieces_fit(pieces, pending_segments(*old(self)), old(self).data@, mode, enc, fed0));
    }
}
} // verus!

//! Batches of received and sent bytes: each is shown in the receive area after a marker
//! with its time and direction; received bytes also go to the terminal.
use vstd::prelude::*;
use vstd::string::StringExecFns;
use crate::codec::text::{decode, decode_fits, decoded_text};
use crate::config::TextEncoding;
use crate::strs::string_push;
use crate::display::{batch_appended, DisplayState, DATA_DISPLAY_CAP};
use crate::terminal::TerminalState;
use crate::terminal_input::{appended, input_kept};
use crate::util::{is_hms_ms, now_hms_ms};

verus! {

/// The direction tag that ends a marker.
pub open spec fn direction_tag(rx: bool) -> Seq<char> {
    if rx { "] [RX] "@ } else { "] [TX] "@ }
}

/// A batch marker: `[HH:MM:SS.mmm] [RX] ` for received bytes, `... [TX] ` for sent ones.
pub open spec fn is_data_marker(m: Seq<char>, rx: bool) -> bool {
    exists|t: Seq<char>| is_hms_ms(t) && m == seq!['['] + t + direction_tag(rx)
}

/// Builds the marker of a batch received or sent now.
pub fn data_marker(rx: bool) -> (m: String)
    ensures
        is_data_marker(m@, rx),
{
    let t = now_hms_ms();
    let mut m = String::from_str("[");
    m.append(t.as_str());
    if rx {
        m.append("] [RX] ");
    } else {
        m.append("] [TX] ");
    }
    proof {
        reveal_strlit("[");
        assert(m@ == seq!['['] + t@ + direction_tag(rx));
    }
    m
}

/// The display can take a batch of this many bytes.
pub open spec fn display_fits(d: DisplayState, n: nat) -> bool {
    &&& n <= usize::MAX - 2 * DATA_DISPLAY_CAP
    &&& d.dropped + 2 * DATA_DISPLAY_CAP + n <= u64::MAX
}

/// Shows received bytes: a batch in the receive area and the same bytes in the terminal
/// (neither while paused).
pub fn append_rx(display: &mut DisplayState, terminal: &mut TerminalState, bytes: &[u8], paused: bool)
    requires
        old(display).wf(),
        old(terminal).wf(),
        display_fits(*old(display), bytes@.len()),
    ensures
        final(display).wf(),
        final(terminal).wf(),
        exists|m: String| is_data_marker(m@, true) && batch_appended(*old(display), m, bytes@, paused, *final(display)),
        input_kept(*old(terminal), *final(terminal)),
        paused ==> *final(terminal) == *old(terminal),
        !paused ==> appended(*old(terminal), bytes@, *final(terminal)),
{
    let marker = data_marker(true);
    let ghost m = marker;
    display.append(marker, bytes, paused);
    assert(is_data_marker(m@, true) && batch_appended(*old(display), m, bytes@, paused, *display));
    if !paused {
        terminal.append_bytes(bytes);
    }
}

/// Shows sent bytes as a batch in the receive area (not while paused).
pub fn append_tx(display: &mut DisplayState, bytes: &[u8], paused: bool)
    requires
        old(display).wf(),
        display_fits(*old(display), bytes@.len()),
    ensures
        final(display).wf(),
        exists|m: String| is_data_marker(m@, false) && batch_appended(*old(display), m, bytes@, paused, *final(display)),
{
    let marker = data_marker(false);
    let ghost m = marker;
    display.append(marker, bytes, paused);
    assert(is_data_marker(m@, false) && batch_appended(*old(display), m, bytes@, paused, *display));
}


/// The text logged for received bytes: the bytes decoded in the encoding, then a line
/// break (no time stamp and no marker).
pub fn log_entry(bytes: &[u8], enc: TextEncoding) -> (s: String)
    requires
        enc == TextEncoding::Gbk ==> decode_fits(bytes@.len() as int),
    ensures
        s@ == decoded_text(bytes@, enc).push('\n'),
{
    let mut s = decode(bytes, enc);
    string_push(&mut s, '\n');
    s
}

} // verus!

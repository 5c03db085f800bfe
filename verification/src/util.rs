//! Time stamps.
use vstd::prelude::*;

verus! {

/// A time of day written `HH:MM:SS.mmm`: twelve characters, digits but for the two colons
/// and the dot.
pub open spec fn is_hms_ms(t: Seq<char>) -> bool {
    &&& t.len() == 12
    &&& t[2] == ':' && t[5] == ':' && t[8] == '.'
    &&& forall|i: int|
        0 <= i < 12 && i != 2 && i != 5 && i != 8 ==> '0' <= #[trigger] t[i] && t[i] <= '9'
}

/// The current local time as `HH:MM:SS.mmm`
/// (`chrono::Local::now().format("%H:%M:%S%.3f")`).  Which time it is, is not stated;
/// the shape follows from the format: two-digit hour, minute and second, then a dot and
/// three digits of milliseconds.
#[verifier::external_body]
pub fn now_hms_ms() -> (s: String)
    ensures
        is_hms_ms(s@),
{
    chrono::Local::now().format("%H:%M:%S%.3f").to_string()
}

} // verus!

//! What the terminal shows: the received text in ANSI colors with the line prefixes in
//! the prompt color, then the prompt, the input line and the block cursor.
use vstd::prelude::*;
use crate::ansi::{ansi_runs, ansi_text_runs, merge_runs, merged, runs_view, TermColor, TermRun};
use crate::strs::string_from_chars;
use crate::terminal::{at_line_start, spans_within, TerminalState};

verus! {

/// A run as plain values.
pub type RunView = (Seq<char>, TermColor, TermColor);

/// The runs of the text up to the end of the last prefix span, and where that end is.
/// Text between prefixes is read in ANSI colors from the default colors; each prefix is
/// one run in the prompt color.
pub open spec fn stream_scan(text: Seq<char>, spans: Seq<(usize, usize)>) -> (Seq<RunView>, int)
    decreases spans.len(),
{
    if spans.len() == 0 {
        (Seq::empty(), 0)
    } else {
        let (r, cur) = stream_scan(text, spans.drop_last());
        let (s, e) = spans.last();
        let r2 = if s > cur { r + ansi_runs(text.subrange(cur, s as int)) } else { r };
        (r2.push((text.subrange(s as int, e as int), TermColor::Prompt, TermColor::Transparent)), e as int)
    }
}

/// The runs of the whole received text.
pub open spec fn stream_runs(text: Seq<char>, spans: Seq<(usize, usize)>) -> Seq<RunView> {
    let (r, cur) = stream_scan(text, spans);
    if cur < text.len() { r + ansi_runs(text.skip(cur)) } else { r }
}

/// A run in the default text color, left out when empty.
pub open spec fn text_run(s: Seq<char>) -> Seq<RunView> {
    if s.len() == 0 { Seq::empty() } else { seq![(s, TermColor::Text, TermColor::Transparent)] }
}

/// The runs after the received text.  With an input line the prompt always starts a new
/// line; without, it is shown only where a line starts.  Then the input before the cursor,
/// the block cursor (a space in the prompt color) while it blinks on, and the rest of the
/// input.
pub open spec fn input_runs(t: TerminalState, enter_sends: bool, blink_on: bool) -> Seq<RunView> {
    let text = t.text@;
    let cur = if t.cursor <= t.input@.len() { t.cursor as int } else { t.input@.len() as int };
    let prompt = seq![(t.prompt@, TermColor::Prompt, TermColor::Transparent)];
    let head = if enter_sends {
        if !at_line_start(text) {
            seq![(seq!['\n'], TermColor::Text, TermColor::Transparent)] + prompt
        } else {
            prompt
        }
    } else if at_line_start(text) {
        prompt
    } else {
        Seq::empty()
    };
    let cursor_run = if blink_on {
        seq![(seq![' '], TermColor::Prompt, TermColor::Prompt)]
    } else {
        Seq::empty()
    };
    head + text_run(t.input@.take(cur)) + cursor_run + text_run(t.input@.skip(cur))
}

/// Everything the terminal shows, neighbouring runs of the same colors joined.
pub open spec fn shown_runs(t: TerminalState, enter_sends: bool, blink_on: bool) -> Seq<RunView> {
    merged(stream_runs(t.text@, t.marker_spans@) + input_runs(t, enter_sends, blink_on))
}

/// The characters `v[from..to]`.
fn slice_chars(v: &Vec<char>, from: usize, to: usize) -> (r: Vec<char>)
    requires
        from <= to <= v@.len(),
    ensures
        r@ == v@.subrange(from as int, to as int),
{
    let mut r: Vec<char> = Vec::new();
    let mut i = from;
    while i < to
        invariant
            from <= i <= to <= v@.len(),
            r@ == v@.subrange(from as int, i as int),
        decreases to - i,
    {
        r.push(v[i]);
        i = i + 1;
        assert(r@ =~= v@.subrange(from as int, i as int));
    }
    r
}

/// Appends the runs of `more`.
fn append_runs(runs: &mut Vec<TermRun>, more: Vec<TermRun>)
    ensures
        runs_view(final(runs)@) == runs_view(old(runs)@) + runs_view(more@),
{
    let mut more = more;
    let ghost m = more@;
    runs.append(&mut more);
    assert(runs_view(runs@) =~= runs_view(old(runs)@) + runs_view(m));
}

/// Appends one run.
fn push_run(runs: &mut Vec<TermRun>, text: &[char], fg: TermColor, bg: TermColor)
    ensures
        runs_view(final(runs)@) == runs_view(old(runs)@).push((text@, fg, bg)),
{
    let s = string_from_chars(text);
    runs.push(TermRun { text: s, fg: fg, bg: bg });
    assert(runs_view(runs@) =~= runs_view(old(runs)@).push((text@, fg, bg)));
}

/// The runs of the received text.
fn stream_part(text: &Vec<char>, spans: &Vec<(usize, usize)>) -> (runs: Vec<TermRun>)
    requires
        spans_within(spans@, text@.len() as int),
    ensures
        runs_view(runs@) == stream_runs(text@, spans@),
{
    let mut runs: Vec<TermRun> = Vec::new();
    let mut cur: usize = 0;
    let mut k: usize = 0;
    while k < spans.len()
        invariant
            k <= spans@.len(),
            spans_within(spans@, text@.len() as int),
            cur <= text@.len(),
            stream_scan(text@, spans@.take(k as int)) == (runs_view(runs@), cur as int),
        decreases spans@.len() - k,
    {
        let (s, e) = spans[k];
        assert(spans@.take(k + 1).drop_last() =~= spans@.take(k as int));
        assert(spans@.take(k + 1).last() == spans@[k as int]);
        if s > cur {
            let piece = slice_chars(text, cur, s);
            let more = ansi_text_runs(piece.as_slice());
            append_runs(&mut runs, more);
        }
        let p = slice_chars(text, s, e);
        push_run(&mut runs, p.as_slice(), TermColor::Prompt, TermColor::Transparent);
        cur = e;
        k = k + 1;
    }
    assert(spans@.take(spans@.len() as int) =~= spans@);
    if cur < text.len() {
        let piece = slice_chars(text, cur, text.len());
        assert(piece@ =~= text@.skip(cur as int));
        let more = ansi_text_runs(piece.as_slice());
        append_runs(&mut runs, more);
    }
    runs
}

impl TerminalState {
    /// The runs after the received text: prompt, input line and cursor.
    fn input_part(&self, enter_sends: bool, blink_on: bool) -> (runs: Vec<TermRun>)
        ensures
            runs_view(runs@) == input_runs(*self, enter_sends, blink_on),
    {
        let mut runs: Vec<TermRun> = Vec::new();
        let text = &self.text;
        let n = text.len();
        let line_start = n == 0 || text[n - 1] == '\n' || text[n - 1] == '\r';
        assert(line_start == at_line_start(text@));
        if enter_sends {
            if !line_start {
                let nl: [char; 1] = ['\n'];
                push_run(&mut runs, &nl, TermColor::Text, TermColor::Transparent);
                assert(nl@ =~= seq!['\n']);
            }
            push_run(&mut runs, self.prompt.as_slice(), TermColor::Prompt, TermColor::Transparent);
        } else if line_start {
            push_run(&mut runs, self.prompt.as_slice(), TermColor::Prompt, TermColor::Transparent);
        }
        let ghost head = runs_view(runs@);
        let m = self.input.len();
        let c = if self.cursor <= m { self.cursor } else { m };
        let before = slice_chars(&self.input, 0, c);
        assert(before@ =~= self.input@.take(c as int));
        if before.len() > 0 {
            push_run(&mut runs, before.as_slice(), TermColor::Text, TermColor::Transparent);
        }
        let ghost r1 = runs_view(runs@);
        assert(r1 =~= head + text_run(self.input@.take(c as int)));
        if blink_on {
            let sp: [char; 1] = [' '];
            push_run(&mut runs, &sp, TermColor::Prompt, TermColor::Prompt);
            assert(sp@ =~= seq![' ']);
        }
        let ghost r2 = runs_view(runs@);
        let after = slice_chars(&self.input, c, m);
        assert(after@ =~= self.input@.skip(c as int));
        if after.len() > 0 {
            push_run(&mut runs, after.as_slice(), TermColor::Text, TermColor::Transparent);
        }
        assert(runs_view(runs@) =~= r2 + text_run(self.input@.skip(c as int)));
        runs
    }

    /// The colored runs the terminal shows, with the input line after the received text.
    pub fn shown(&self, enter_sends: bool, blink_on: bool) -> (runs: Vec<TermRun>)
        requires
            spans_within(self.marker_spans@, self.text@.len() as int),
        ensures
            runs_view(runs@) == shown_runs(*self, enter_sends, blink_on),
    {
        let mut runs = stream_part(&self.text, &self.marker_spans);
        let more = self.input_part(enter_sends, blink_on);
        append_runs(&mut runs, more);
        merge_runs(&runs)
    }
}

} // verus!

//! Terminal text with ANSI control sequences, read into colored runs: SGR sequences
//! (`ESC [ ... m`) set the colors, other control sequences are hidden, CR and CRLF give
//! one line break.
use vstd::prelude::*;
use vstd::string::StringExecFns;
use crate::strs::{parse_unsigned, string_from_chars, unsigned_text};

verus! {

/// A terminal color: the default text color, the prompt color, one of the eight ANSI
/// colors (by number), its bright form, or none (for a background).
#[derive(Clone, Copy, PartialEq, Eq, Structural, Debug)]
pub enum TermColor {
    Text,
    Prompt,
    Normal(u8),
    Bright(u8),
    Transparent,
}

/// A piece of text shown in one foreground and background color.
pub struct TermRun {
    pub text: String,
    pub fg: TermColor,
    pub bg: TermColor,
}

/// A run as plain values: its characters and colors.
pub open spec fn run_view(r: TermRun) -> (Seq<char>, TermColor, TermColor) {
    (r.text@, r.fg, r.bg)
}

pub open spec fn runs_view(rs: Seq<TermRun>) -> Seq<(Seq<char>, TermColor, TermColor)> {
    rs.map_values(|r: TermRun| run_view(r))
}

/// The colors set by SGR sequences so far.
#[derive(Clone, Copy, PartialEq, Eq, Structural)]
pub struct SgrState {
    pub fg: TermColor,
    pub bg: TermColor,
    pub bold: bool,
}

/// Default colors, not bold.
pub open spec fn sgr_reset() -> SgrState {
    SgrState { fg: TermColor::Text, bg: TermColor::Transparent, bold: false }
}

/// The number a parameter reads as (`str::parse::<u16>`).
pub open spec fn u16_param(p: Seq<char>) -> Option<nat> {
    unsigned_text(p, 65535)
}

/// One SGR parameter: empty or `0` resets, `1` / `22` set / clear bold, `39` / `49` reset
/// the foreground / background, `30`–`37` pick a foreground (bright when bold), `90`–`97`
/// a bright foreground, `40`–`47` and `100`–`107` a background; others change nothing.
pub open spec fn sgr_param(p: Seq<char>, st: SgrState) -> SgrState {
    if p == Seq::<char>::empty() || p == seq!['0'] {
        sgr_reset()
    } else if p == seq!['1'] {
        SgrState { fg: st.fg, bg: st.bg, bold: true }
    } else if p == seq!['2', '2'] {
        SgrState { fg: st.fg, bg: st.bg, bold: false }
    } else if p == seq!['3', '9'] {
        SgrState { fg: TermColor::Text, bg: st.bg, bold: st.bold }
    } else if p == seq!['4', '9'] {
        SgrState { fg: st.fg, bg: TermColor::Transparent, bold: st.bold }
    } else {
        match u16_param(p) {
            Some(n) => if 30 <= n && n <= 37 {
                let fg = if st.bold { TermColor::Bright((n - 30) as u8) } else { TermColor::Normal((n - 30) as u8) };
                SgrState { fg: fg, bg: st.bg, bold: st.bold }
            } else if 90 <= n && n <= 97 {
                SgrState { fg: TermColor::Bright((n - 90) as u8), bg: st.bg, bold: st.bold }
            } else if 40 <= n && n <= 47 {
                SgrState { fg: st.fg, bg: TermColor::Normal((n - 40) as u8), bold: st.bold }
            } else if 100 <= n && n <= 107 {
                SgrState { fg: st.fg, bg: TermColor::Bright((n - 100) as u8), bold: st.bold }
            } else {
                st
            },
            None => st,
        }
    }
}

/// The parameters of a sequence, split at `;` (an empty string is one empty parameter).
pub open spec fn split_fields(s: Seq<char>) -> Seq<Seq<char>>
    decreases s.len(),
{
    if s.len() == 0 {
        seq![Seq::<char>::empty()]
    } else {
        let r = split_fields(s.drop_last());
        if s.last() == ';' {
            r.push(Seq::<char>::empty())
        } else {
            r.update(r.len() - 1, r.last().push(s.last()))
        }
    }
}

proof fn lemma_split_fields_nonempty(s: Seq<char>)
    ensures
        split_fields(s).len() >= 1,
    decreases s.len(),
{
    if s.len() > 0 {
        lemma_split_fields_nonempty(s.drop_last());
    }
}

/// The parameters applied in order.
pub open spec fn apply_fields(fields: Seq<Seq<char>>, st: SgrState) -> SgrState
    decreases fields.len(),
{
    if fields.len() == 0 {
        st
    } else {
        sgr_param(fields.last(), apply_fields(fields.drop_last(), st))
    }
}

/// The colors after an SGR sequence with these parameters.
pub open spec fn apply_sgr(params: Seq<char>, st: SgrState) -> SgrState {
    apply_fields(split_fields(params), st)
}

/// Where the reader is: in text (just after a CR, a LF is dropped), after ESC, or in a
/// control sequence.
#[derive(Clone, Copy, PartialEq, Eq, Structural)]
pub enum ScanMode {
    Plain,
    AfterCr,
    Esc,
    Csi,
}

/// The reader's state: mode, colors, the text of the current run, the parameters of the
/// current control sequence, and the runs finished so far.
#[verifier::ext_equal]
pub struct AnsiScan {
    pub mode: ScanMode,
    pub sgr: SgrState,
    pub buf: Seq<char>,
    pub params: Seq<char>,
    pub runs: Seq<(Seq<char>, TermColor, TermColor)>,
}

/// The runs with the current run closed (an empty run is left out).
pub open spec fn flushed(st: AnsiScan) -> Seq<(Seq<char>, TermColor, TermColor)> {
    if st.buf.len() == 0 {
        st.runs
    } else {
        st.runs.push((st.buf, st.sgr.fg, st.sgr.bg))
    }
}

/// A byte that ends a control sequence (`0x40`–`0x7e`).
pub open spec fn is_csi_final(c: char) -> bool {
    0x40 <= (c as u32) && (c as u32) <= 0x7e
}

/// A character shown as itself: LF, tab, or not a control character.
pub open spec fn shown_char(c: char) -> bool {
    c == '\n' || c == '\t' || (c as u32) >= 0x20
}

/// One character read.
pub open spec fn ansi_step(st: AnsiScan, c: char) -> AnsiScan {
    match st.mode {
        ScanMode::Esc => AnsiScan {
            mode: if c == '[' { ScanMode::Csi } else { ScanMode::Plain },
            sgr: st.sgr,
            buf: st.buf,
            params: Seq::empty(),
            runs: st.runs,
        },
        ScanMode::Csi => if is_csi_final(c) {
            AnsiScan {
                mode: ScanMode::Plain,
                sgr: if c == 'm' { apply_sgr(st.params, st.sgr) } else { st.sgr },
                buf: st.buf,
                params: st.params,
                runs: st.runs,
            }
        } else {
            AnsiScan { mode: st.mode, sgr: st.sgr, buf: st.buf, params: st.params.push(c), runs: st.runs }
        },
        _ => if c == '\n' && st.mode == ScanMode::AfterCr {
            AnsiScan { mode: ScanMode::Plain, sgr: st.sgr, buf: st.buf, params: st.params, runs: st.runs }
        } else if c == '\u{1b}' {
            AnsiScan { mode: ScanMode::Esc, sgr: st.sgr, buf: Seq::empty(), params: st.params, runs: flushed(st) }
        } else if c == '\r' {
            AnsiScan { mode: ScanMode::AfterCr, sgr: st.sgr, buf: st.buf.push('\n'), params: st.params, runs: st.runs }
        } else if shown_char(c) {
            AnsiScan { mode: ScanMode::Plain, sgr: st.sgr, buf: st.buf.push(c), params: st.params, runs: st.runs }
        } else {
            AnsiScan { mode: ScanMode::Plain, sgr: st.sgr, buf: st.buf, params: st.params, runs: st.runs }
        },
    }
}

pub open spec fn ansi_init() -> AnsiScan {
    AnsiScan { mode: ScanMode::Plain, sgr: sgr_reset(), buf: Seq::empty(), params: Seq::empty(), runs: Seq::empty() }
}

/// The reader's state after the text.
pub open spec fn ansi_scan(text: Seq<char>) -> AnsiScan
    decreases text.len(),
{
    if text.len() == 0 {
        ansi_init()
    } else {
        ansi_step(ansi_scan(text.drop_last()), text.last())
    }
}

/// Appends a run, joined to the last run when both have the same colors.
pub open spec fn with_run(
    runs: Seq<(Seq<char>, TermColor, TermColor)>,
    r: (Seq<char>, TermColor, TermColor),
) -> Seq<(Seq<char>, TermColor, TermColor)> {
    if runs.len() > 0 && runs.last().1 == r.1 && runs.last().2 == r.2 {
        runs.drop_last().push((runs.last().0 + r.0, r.1, r.2))
    } else {
        runs.push(r)
    }
}

/// The runs with neighbours of the same colors joined into one.
pub open spec fn merged(runs: Seq<(Seq<char>, TermColor, TermColor)>) -> Seq<(Seq<char>, TermColor, TermColor)>
    decreases runs.len(),
{
    if runs.len() == 0 {
        runs
    } else {
        with_run(merged(runs.drop_last()), runs.last())
    }
}

/// The runs a piece of terminal text shows as, read from the default colors.
pub open spec fn ansi_runs(text: Seq<char>) -> Seq<(Seq<char>, TermColor, TermColor)> {
    merged(flushed(ansi_scan(text)))
}

/// Joins neighbouring runs of the same colors.
pub fn merge_runs(v: &Vec<TermRun>) -> (r: Vec<TermRun>)
    ensures
        runs_view(r@) == merged(runs_view(v@)),
{
    let mut out: Vec<TermRun> = Vec::new();
    let mut i: usize = 0;
    assert(runs_view(v@).take(0) =~= Seq::<(Seq<char>, TermColor, TermColor)>::empty());
    assert(runs_view(out@) =~= Seq::<(Seq<char>, TermColor, TermColor)>::empty());
    while i < v.len()
        invariant
            i <= v@.len(),
            runs_view(out@) == merged(runs_view(v@).take(i as int)),
        decreases v@.len() - i,
    {
        let fg = v[i].fg;
        let bg = v[i].bg;
        let ghost before = runs_view(out@);
        let ghost item = run_view(v@[i as int]);
        assert(runs_view(v@).take(i + 1).drop_last() =~= runs_view(v@).take(i as int));
        assert(runs_view(v@).take(i + 1).last() == item);
        let n = out.len();
        if n > 0 && out[n - 1].fg == fg && out[n - 1].bg == bg {
            let last = out.pop().unwrap();
            let mut t = last.text;
            t.append(v[i].text.as_str());
            out.push(TermRun { text: t, fg: fg, bg: bg });
            assert(runs_view(out@) =~= before.drop_last().push((before.last().0 + item.0, item.1, item.2)));
        } else {
            out.push(TermRun { text: v[i].text.clone(), fg: fg, bg: bg });
            assert(runs_view(out@) =~= before.push(item));
        }
        i = i + 1;
    }
    assert(runs_view(v@).take(v@.len() as int) =~= runs_view(v@));
    out
}

/// Reads a parameter as `str::parse::<u16>` does.
fn parse_u16_param(p: &[char]) -> (r: Option<u16>)
    ensures
        match u16_param(p@) {
            Some(n) => r == Some(n as u16),
            None => r is None,
        },
{
    match parse_unsigned(p, 65535) {
        Some(v) => Some(v as u16),
        None => None,
    }
}

fn is_lit(p: &[char], lit: &[char]) -> (b: bool)
    ensures
        b == (p@ == lit@),
{
    if p.len() != lit.len() {
        return false;
    }
    let mut i: usize = 0;
    while i < p.len()
        invariant
            i <= p@.len() == lit@.len(),
            forall|k: int| 0 <= k < i ==> p@[k] == lit@[k],
        decreases p@.len() - i,
    {
        if p[i] != lit[i] {
            return false;
        }
        i = i + 1;
    }
    assert(p@ =~= lit@);
    true
}

fn sgr_param_exec(p: &[char], st: SgrState) -> (r: SgrState)
    ensures
        r == sgr_param(p@, st),
{
    let empty: [char; 0] = [];
    let zero: [char; 1] = ['0'];
    let one: [char; 1] = ['1'];
    let s22: [char; 2] = ['2', '2'];
    let s39: [char; 2] = ['3', '9'];
    let s49: [char; 2] = ['4', '9'];
    proof {
        assert(empty@ =~= Seq::<char>::empty());
        assert(zero@ =~= seq!['0']);
        assert(one@ =~= seq!['1']);
        assert(s22@ =~= seq!['2', '2']);
        assert(s39@ =~= seq!['3', '9']);
        assert(s49@ =~= seq!['4', '9']);
    }
    if is_lit(p, &empty) || is_lit(p, &zero) {
        SgrState { fg: TermColor::Text, bg: TermColor::Transparent, bold: false }
    } else if is_lit(p, &one) {
        SgrState { fg: st.fg, bg: st.bg, bold: true }
    } else if is_lit(p, &s22) {
        SgrState { fg: st.fg, bg: st.bg, bold: false }
    } else if is_lit(p, &s39) {
        SgrState { fg: TermColor::Text, bg: st.bg, bold: st.bold }
    } else if is_lit(p, &s49) {
        SgrState { fg: st.fg, bg: TermColor::Transparent, bold: st.bold }
    } else {
        match parse_u16_param(p) {
            Some(n) => {
                if 30 <= n && n <= 37 {
                    let k = (n - 30) as u8;
                    let fg = if st.bold { TermColor::Bright(k) } else { TermColor::Normal(k) };
                    SgrState { fg: fg, bg: st.bg, bold: st.bold }
                } else if 90 <= n && n <= 97 {
                    SgrState { fg: TermColor::Bright((n - 90) as u8), bg: st.bg, bold: st.bold }
                } else if 40 <= n && n <= 47 {
                    SgrState { fg: st.fg, bg: TermColor::Normal((n - 40) as u8), bold: st.bold }
                } else if 100 <= n && n <= 107 {
                    SgrState { fg: st.fg, bg: TermColor::Bright((n - 100) as u8), bold: st.bold }
                } else {
                    st
                }
            },
            None => st,
        }
    }
}

/// Applies the parameters of an SGR sequence.
fn apply_sgr_exec(params: &[char], st: SgrState) -> (r: SgrState)
    ensures
        r == apply_sgr(params@, st),
{
    let mut cur = st;
    let mut field: Vec<char> = Vec::new();
    let mut i: usize = 0;
    while i < params.len()
        invariant
            i <= params@.len(),
            split_fields(params@.take(i as int)).len() >= 1,
            cur == apply_fields(split_fields(params@.take(i as int)).drop_last(), st),
            field@ == split_fields(params@.take(i as int)).last(),
        decreases params@.len() - i,
    {
        let c = params[i];
        let ghost pre = params@.take(i as int);
        let ghost nxt = params@.take(i + 1);
        assert(nxt.drop_last() =~= pre);
        proof {
            lemma_split_fields_nonempty(pre);
        }
        if c == ';' {
            cur = sgr_param_exec(field.as_slice(), cur);
            field = Vec::new();
            assert(split_fields(nxt).drop_last() =~= split_fields(pre));
        } else {
            field.push(c);
            let ghost r = split_fields(pre);
            assert(split_fields(nxt).drop_last() =~= r.drop_last());
            assert(field@ =~= split_fields(nxt).last());
        }
        i = i + 1;
    }
    assert(params@.take(params@.len() as int) =~= params@);
    let ghost f = split_fields(params@);
    assert(f.drop_last().push(f.last()) =~= f);
    sgr_param_exec(field.as_slice(), cur)
}

/// Closes the current run.
fn flush_run(runs: &mut Vec<TermRun>, buf: &mut Vec<char>, sgr: SgrState)
    ensures
        runs_view(final(runs)@) == flushed(AnsiScan {
            mode: ScanMode::Plain,
            sgr: sgr,
            buf: old(buf)@,
            params: Seq::empty(),
            runs: runs_view(old(runs)@),
        }),
        final(buf)@.len() == 0,
{
    if buf.len() > 0 {
        let text = string_from_chars(buf.as_slice());
        let ghost before = runs@;
        runs.push(TermRun { text: text, fg: sgr.fg, bg: sgr.bg });
        assert(runs_view(runs@) =~= runs_view(before).push((old(buf)@, sgr.fg, sgr.bg)));
        *buf = Vec::new();
    }
}

/// Reads terminal text into colored runs, starting from the default colors.
pub fn ansi_text_runs(text: &[char]) -> (runs: Vec<TermRun>)
    ensures
        runs_view(runs@) == ansi_runs(text@),
{
    let mut mode = ScanMode::Plain;
    let mut sgr = SgrState { fg: TermColor::Text, bg: TermColor::Transparent, bold: false };
    let mut buf: Vec<char> = Vec::new();
    let mut params: Vec<char> = Vec::new();
    let mut runs: Vec<TermRun> = Vec::new();
    let mut i: usize = 0;
    assert(runs_view(runs@) =~= Seq::<(Seq<char>, TermColor, TermColor)>::empty());
    assert(ansi_scan(text@.take(0)) =~= (AnsiScan { mode: mode, sgr: sgr, buf: buf@, params: params@, runs: runs_view(runs@) }));
    while i < text.len()
        invariant
            i <= text@.len(),
            ansi_scan(text@.take(i as int)) == (AnsiScan { mode: mode, sgr: sgr, buf: buf@, params: params@, runs: runs_view(runs@) }),
        decreases text@.len() - i,
    {
        let c = text[i];
        let ghost st = AnsiScan { mode: mode, sgr: sgr, buf: buf@, params: params@, runs: runs_view(runs@) };
        assert(text@.take(i + 1).drop_last() =~= text@.take(i as int));
        assert(text@.take(i + 1).last() == c);
        match mode {
            ScanMode::Esc => {
                mode = if c == '[' { ScanMode::Csi } else { ScanMode::Plain };
                params = Vec::new();
            },
            ScanMode::Csi => {
                if 0x40 <= (c as u32) && (c as u32) <= 0x7e {
                    if c == 'm' {
                        sgr = apply_sgr_exec(params.as_slice(), sgr);
                    }
                    mode = ScanMode::Plain;
                } else {
                    params.push(c);
                }
            },
            _ => {
                if c == '\n' && mode == ScanMode::AfterCr {
                    mode = ScanMode::Plain;
                } else if c == '\u{1b}' {
                    flush_run(&mut runs, &mut buf, sgr);
                    mode = ScanMode::Esc;
                } else if c == '\r' {
                    buf.push('\n');
                    mode = ScanMode::AfterCr;
                } else if c == '\n' || c == '\t' || (c as u32) >= 0x20 {
                    buf.push(c);
                    mode = ScanMode::Plain;
                } else {
                    mode = ScanMode::Plain;
                }
            },
        }
        i = i + 1;
        assert(ansi_scan(text@.take(i as int)) =~= (AnsiScan { mode: mode, sgr: sgr, buf: buf@, params: params@, runs: runs_view(runs@) }));
    }
    assert(text@.take(text@.len() as int) =~= text@);
    flush_run(&mut runs, &mut buf, sgr);
    merge_runs(&runs)
}

} // verus!

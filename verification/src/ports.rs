//! The port list and opening a port: how ports are named and ordered, which one stays
//! chosen when the list changes, and what an open request checks first.
use vstd::prelude::*;
use crate::config::PortSettings;
use crate::i18n::{notice, notice_text, Language, Notice};
use crate::send::{trimmed, StatusLine};
use crate::session::Command;
use crate::strs::{chars_of, parse_unsigned, string_from_chars, trim_chars, unsigned_text};

verus! {

broadcast use vstd::seq_lib::group_to_multiset_ensures;

/// The names a USB port reports.
pub struct UsbNames {
    pub product: Option<String>,
    pub manufacturer: Option<String>,
}

/// A port as the system lists it: its name, and the USB names for a USB port.
pub struct PortInfo {
    pub port_name: String,
    pub usb: Option<UsbNames>,
}

/// The friendly name of a port: the trimmed USB product name, or the manufacturer where no
/// product name is given; empty for other ports.
pub open spec fn friendly_name(info: PortInfo) -> Seq<char> {
    match info.usb {
        Some(u) => {
            let chosen = if u.product is Some { u.product } else { u.manufacturer };
            match chosen {
                Some(s) => trim_chars(s@),
                None => Seq::empty(),
            }
        },
        None => Seq::empty(),
    }
}

/// The name shown for a port: its friendly name, or the port name when there is none.
pub open spec fn display_name(info: PortInfo) -> Seq<char> {
    if friendly_name(info).len() == 0 { info.port_name@ } else { friendly_name(info) }
}

/// The name shown for a port in the port list.
pub fn port_display(info: &PortInfo) -> (s: String)
    ensures
        s@ == display_name(*info),
{
    let friendly: Vec<char> = match &info.usb {
        Some(u) => {
            let chosen = match &u.product {
                Some(p) => Some(p),
                None => match &u.manufacturer {
                    Some(m) => Some(m),
                    None => None,
                },
            };
            match chosen {
                Some(s) => trimmed(s.as_str()),
                None => Vec::new(),
            }
        },
        None => Vec::new(),
    };
    if friendly.len() == 0 {
        info.port_name.clone()
    } else {
        string_from_chars(friendly.as_slice())
    }
}

/// Text order: character by character, a proper prefix first (the order of `String`).
pub open spec fn name_le(a: Seq<char>, b: Seq<char>) -> bool
    decreases a.len(),
{
    if a.len() == 0 {
        true
    } else if b.len() == 0 {
        false
    } else if a[0] != b[0] {
        a[0] < b[0]
    } else {
        name_le(a.drop_first(), b.drop_first())
    }
}

proof fn lemma_name_le_total(a: Seq<char>, b: Seq<char>)
    ensures
        name_le(a, b) || name_le(b, a),
    decreases a.len(),
{
    if a.len() > 0 && b.len() > 0 && a[0] == b[0] {
        lemma_name_le_total(a.drop_first(), b.drop_first());
    }
}

proof fn lemma_name_le_trans(a: Seq<char>, b: Seq<char>, c: Seq<char>)
    requires
        name_le(a, b),
        name_le(b, c),
    ensures
        name_le(a, c),
    decreases a.len(),
{
    if a.len() > 0 && b.len() > 0 && c.len() > 0 && a[0] == b[0] && b[0] == c[0] {
        lemma_name_le_trans(a.drop_first(), b.drop_first(), c.drop_first());
    }
}

fn name_le_exec(a: &str, b: &str) -> (r: bool)
    ensures
        r == name_le(a@, b@),
{
    let ac = chars_of(a);
    let bc = chars_of(b);
    let mut i: usize = 0;
    assert(a@.skip(0) =~= a@ && b@.skip(0) =~= b@);
    loop
        invariant
            i <= ac@.len(),
            i <= bc@.len(),
            ac@ == a@,
            bc@ == b@,
            name_le(a@, b@) == name_le(a@.skip(i as int), b@.skip(i as int)),
        decreases ac@.len() - i,
    {
        if i == ac.len() {
            return true;
        }
        if i == bc.len() {
            return false;
        }
        let ghost sa = a@.skip(i as int);
        let ghost sb = b@.skip(i as int);
        assert(sa[0] == ac@[i as int] && sb[0] == bc@[i as int]);
        if ac[i] != bc[i] {
            return ac[i] < bc[i];
        }
        assert(sa.drop_first() =~= a@.skip(i + 1));
        assert(sb.drop_first() =~= b@.skip(i + 1));
        i = i + 1;
    }
}

/// The entries (shown name, port name) as plain values.
pub open spec fn entry_views(list: Seq<(String, String)>) -> Seq<(Seq<char>, Seq<char>)> {
    list.map_values(|e: (String, String)| (e.0@, e.1@))
}

/// The entries are in order of their port names.
pub open spec fn sorted_by_name(list: Seq<(String, String)>) -> bool {
    forall|i: int, j: int| 0 <= i < j < list.len() ==> name_le(#[trigger] list[i].1@, #[trigger] list[j].1@)
}

/// The entries with port name `n`, in their order.
pub open spec fn named(s: Seq<(Seq<char>, Seq<char>)>, n: Seq<char>) -> Seq<(Seq<char>, Seq<char>)>
    decreases s.len(),
{
    if s.len() == 0 {
        s
    } else {
        let r = named(s.drop_last(), n);
        if s.last().1 == n { r.push(s.last()) } else { r }
    }
}

proof fn lemma_named_concat(a: Seq<(Seq<char>, Seq<char>)>, b: Seq<(Seq<char>, Seq<char>)>, n: Seq<char>)
    ensures
        named(a + b, n) == named(a, n) + named(b, n),
    decreases b.len(),
{
    if b.len() == 0 {
        assert(a + b =~= a);
        assert(named(a, n) + named(b, n) =~= named(a, n));
    } else {
        lemma_named_concat(a, b.drop_last(), n);
        assert((a + b).drop_last() =~= a + b.drop_last());
        assert((a + b).last() == b.last());
        if b.last().1 == n {
            assert(named(a, n) + named(b.drop_last(), n).push(b.last()) =~= (named(a, n) + named(b.drop_last(), n)).push(b.last()));
        }
    }
}

proof fn lemma_named_none(s: Seq<(Seq<char>, Seq<char>)>, n: Seq<char>)
    requires
        forall|m: int| 0 <= m < s.len() ==> (#[trigger] s[m]).1 != n,
    ensures
        named(s, n).len() == 0,
    decreases s.len(),
{
    if s.len() > 0 {
        assert forall|m: int| 0 <= m < s.drop_last().len() implies (#[trigger] s.drop_last()[m]).1 != n by {
            assert(s.drop_last()[m] == s[m]);
        }
        lemma_named_none(s.drop_last(), n);
        assert(s.last() == s[s.len() - 1]);
    }
}

proof fn lemma_name_le_refl(a: Seq<char>)
    ensures
        name_le(a, a),
    decreases a.len(),
{
    if a.len() > 0 {
        lemma_name_le_refl(a.drop_first());
    }
}

/// Inserting `x` after every entry named at most `x` and before every entry named more
/// keeps, for each name, the entries in order, `x` last among those with its name.
proof fn lemma_named_insert(s: Seq<(Seq<char>, Seq<char>)>, k: int, x: (Seq<char>, Seq<char>), n: Seq<char>)
    requires
        0 <= k <= s.len(),
        forall|m: int| k <= m < s.len() ==> (#[trigger] s[m]).1 != x.1,
    ensures
        named(s.insert(k, x), n) == if x.1 == n { named(s, n).push(x) } else { named(s, n) },
{
    let a = s.take(k);
    let b = s.skip(k);
    assert(s =~= a + b);
    assert(s.insert(k, x) =~= a + (seq![x] + b));
    lemma_named_concat(a, seq![x] + b, n);
    lemma_named_concat(seq![x], b, n);
    lemma_named_concat(a, b, n);
    let e = Seq::<(Seq<char>, Seq<char>)>::empty();
    assert(seq![x].drop_last() =~= e);
    assert(named(e, n) == e);
    assert(named(seq![x], n) == if x.1 == n { e.push(x) } else { e });
    if x.1 == n {
        assert forall|m: int| 0 <= m < b.len() implies (#[trigger] b[m]).1 != n by {
            assert(b[m] == s[m + k]);
        }
        lemma_named_none(b, n);
        assert(named(b, n) =~= e);
        assert(named(s, n) =~= named(a, n));
        assert(named(s.insert(k, x), n) =~= named(a, n) + (e.push(x) + e));
        assert(named(a, n) + (e.push(x) + e) =~= named(a, n).push(x));
    } else {
        assert(named(s.insert(k, x), n) =~= named(a, n) + (e + named(b, n)));
        assert(named(a, n) + (e + named(b, n)) =~= named(a, n) + named(b, n));
    }
}

/// Sorts the (shown name, port name) entries by port name, entries with equal names kept in
/// their order.
fn sort_by_name(v: Vec<(String, String)>) -> (r: Vec<(String, String)>)
    ensures
        sorted_by_name(r@),
        entry_views(r@).to_multiset() == entry_views(v@).to_multiset(),
        forall|n: Seq<char>| #[trigger] named(entry_views(r@), n) == named(entry_views(v@), n),
{
    let mut r: Vec<(String, String)> = Vec::new();
    let mut i: usize = 0;
    let n = v.len();
    assert(v@.take(0) =~= Seq::<(String, String)>::empty());
    while i < n
        invariant
            i <= n == v@.len(),
            sorted_by_name(r@),
            entry_views(r@).to_multiset() == entry_views(v@.take(i as int)).to_multiset(),
            forall|nm: Seq<char>| #[trigger] named(entry_views(r@), nm) == named(entry_views(v@.take(i as int)), nm),
        decreases n - i,
    {
        let x = (v[i].0.clone(), v[i].1.clone());
        assert(x.0@ == v@[i as int].0@ && x.1@ == v@[i as int].1@);
        let mut k: usize = 0;
        while k < r.len() && name_le_exec(r[k].1.as_str(), x.1.as_str())
            invariant
                k <= r@.len(),
                forall|m: int| 0 <= m < k ==> name_le(#[trigger] r@[m].1@, x.1@),
            decreases r@.len() - k,
        {
            k = k + 1;
        }
        let ghost old_r = r@;
        proof {
            if k < old_r.len() {
                lemma_name_le_total(old_r[k as int].1@, x.1@);
            }
            assert forall|a: int, b: int| 0 <= a < b < old_r.insert(k as int, x).len() implies name_le(
                #[trigger] old_r.insert(k as int, x)[a].1@,
                #[trigger] old_r.insert(k as int, x)[b].1@,
            ) by {
                let s = old_r.insert(k as int, x);
                if b < k {
                    assert(s[a] == old_r[a] && s[b] == old_r[b]);
                } else if b == k {
                    assert(s[a] == old_r[a]);
                } else if a == k {
                    assert(s[b] == old_r[b - 1]);
                    if b - 1 > k {
                        assert(name_le(old_r[k as int].1@, old_r[b - 1].1@));
                        lemma_name_le_trans(x.1@, old_r[k as int].1@, old_r[b - 1].1@);
                    }
                } else if a < k {
                    assert(s[a] == old_r[a] && s[b] == old_r[b - 1]);
                } else {
                    assert(s[a] == old_r[a - 1] && s[b] == old_r[b - 1]);
                }
            }
        }
        let ghost xv = (x.0@, x.1@);
        proof {
            let ev = entry_views(old_r);
            assert forall|m: int| k <= m < ev.len() implies (#[trigger] ev[m]).1 != xv.1 by {
                assert(ev[m].1 == old_r[m].1@);
                if old_r[m].1@ == x.1@ {
                    lemma_name_le_total(old_r[k as int].1@, x.1@);
                    if m > k {
                        assert(name_le(old_r[k as int].1@, old_r[m].1@));
                    }
                    lemma_name_le_refl(x.1@);
                }
            }
        }
        r.insert(k, x);
        proof {
            assert(entry_views(r@) =~= entry_views(old_r).insert(k as int, xv));
            assert(entry_views(v@.take(i + 1)) =~= entry_views(v@.take(i as int)).push(xv));
            assert(entry_views(v@.take(i + 1)).drop_last() =~= entry_views(v@.take(i as int)));
            assert forall|nm: Seq<char>| #[trigger] named(entry_views(r@), nm) == named(entry_views(v@.take(i + 1)), nm) by {
                lemma_named_insert(entry_views(old_r), k as int, xv, nm);
            }
        }
        i = i + 1;
    }
    assert(v@.take(n as int) =~= v@);
    r
}

/// The port list: each port with its shown name, in order of port names.
pub fn port_list_from(ports: &Vec<PortInfo>) -> (list: Vec<(String, String)>)
    ensures
        sorted_by_name(list@),
        entry_views(list@).to_multiset() == Seq::new(
            ports@.len(),
            |i: int| (display_name(ports@[i]), ports@[i].port_name@),
        ).to_multiset(),
        forall|n: Seq<char>| #[trigger] named(entry_views(list@), n) == named(Seq::new(
            ports@.len(),
            |i: int| (display_name(ports@[i]), ports@[i].port_name@),
        ), n),
{
    let mut v: Vec<(String, String)> = Vec::new();
    let mut i: usize = 0;
    while i < ports.len()
        invariant
            i <= ports@.len(),
            v@.len() == i,
            forall|k: int| 0 <= k < i ==> #[trigger] entry_views(v@)[k] == (display_name(ports@[k]), ports@[k].port_name@),
        decreases ports@.len() - i,
    {
        let d = port_display(&ports[i]);
        let ghost before = v@;
        v.push((d, ports[i].port_name.clone()));
        proof {
            assert forall|k: int| 0 <= k < i + 1 implies #[trigger] entry_views(v@)[k] == (display_name(ports@[k]), ports@[k].port_name@) by {
                if k < i {
                    assert(entry_views(v@)[k] == entry_views(before)[k]);
                }
            }
        }
        i = i + 1;
    }
    assert(entry_views(v@) =~= Seq::new(ports@.len(), |i: int| (display_name(ports@[i]), ports@[i].port_name@)));
    sort_by_name(v)
}

/// The port chosen once the list changed: none for an empty list, the previous port while
/// it is listed, otherwise the first listed.
pub open spec fn chosen_port(list: Seq<(String, String)>, prev: Seq<char>) -> Seq<char> {
    if list.len() == 0 {
        Seq::empty()
    } else if exists|i: int| 0 <= i < list.len() && (#[trigger] list[i]).1@ == prev {
        prev
    } else {
        list[0].1@
    }
}

/// Takes a new list of ports: builds the port list and keeps the chosen port valid.
pub fn refresh_port_list(ports: &Vec<PortInfo>, port_name: &mut String) -> (list: Vec<(String, String)>)
    ensures
        sorted_by_name(list@),
        entry_views(list@).to_multiset() == Seq::new(
            ports@.len(),
            |i: int| (display_name(ports@[i]), ports@[i].port_name@),
        ).to_multiset(),
        forall|n: Seq<char>| #[trigger] named(entry_views(list@), n) == named(Seq::new(
            ports@.len(),
            |i: int| (display_name(ports@[i]), ports@[i].port_name@),
        ), n),
        final(port_name)@ == chosen_port(list@, old(port_name)@),
{
    let list = port_list_from(ports);
    if list.len() == 0 {
        *port_name = String::new();
        return list;
    }
    let mut found = false;
    let mut i: usize = 0;
    while i < list.len()
        invariant
            i <= list@.len(),
            found == exists|k: int| 0 <= k < i && (#[trigger] list@[k]).1@ == port_name@,
        decreases list@.len() - i,
    {
        if list[i].1 == *port_name {
            found = true;
        }
        proof {
            if found {
                if list@[i as int].1@ == port_name@ {
                    assert(list@[i as int].1@ == port_name@);
                }
            }
        }
        i = i + 1;
    }
    if !found {
        *port_name = list[0].1.clone();
    }
    list
}

/// A copy of the settings.
pub fn copy_settings(p: &PortSettings) -> (c: PortSettings)
    ensures
        c == *p,
{
    PortSettings {
        port_name: p.port_name.clone(),
        baud_rate: p.baud_rate,
        data_bits: p.data_bits,
        stop_bits: p.stop_bits,
        parity: p.parity,
        flow_control: p.flow_control,
    }
}

/// The baud rate typed: a positive number (`str::parse::<u32>` of the trimmed text).
pub open spec fn typed_baud(text: Seq<char>) -> Option<nat> {
    match unsigned_text(trim_chars(text), 0xffff_ffff) {
        Some(b) => if b > 0 { Some(b) } else { None },
        None => None,
    }
}

/// Asks to open the chosen port: a blank port name or a baud rate that is not a positive
/// number is refused with a message; otherwise the settings take the trimmed name and the
/// typed baud rate and are sent with the open command.
pub fn open_request(port: &mut PortSettings, baud_input: &str, lang: Language) -> (r: (Option<Command>, StatusLine))
    ensures
        trim_chars(old(port).port_name@).len() == 0 ==> {
            &&& r.0 is None
            &&& r.1.text@ == notice_text(lang, Notice::SelectPortFirst, Seq::empty(), Seq::empty())
            &&& r.1.is_error
            &&& *final(port) == *old(port)
        },
        trim_chars(old(port).port_name@).len() > 0 ==> match typed_baud(baud_input@) {
            None => {
                &&& r.0 is None
                &&& r.1.text@ == notice_text(lang, Notice::InvalidBaud, Seq::empty(), Seq::empty())
                &&& r.1.is_error
                &&& *final(port) == *old(port)
            },
            Some(b) => {
                &&& final(port).port_name@ == trim_chars(old(port).port_name@)
                &&& final(port).baud_rate == b
                &&& final(port).data_bits == old(port).data_bits
                &&& final(port).stop_bits == old(port).stop_bits
                &&& final(port).parity == old(port).parity
                &&& final(port).flow_control == old(port).flow_control
                &&& r.0 matches Some(Command::Open(s)) && s == *final(port)
                &&& r.1.text@ == notice_text(lang, Notice::OpeningPort, Seq::empty(), Seq::empty())
                &&& !r.1.is_error
            },
        },
{
    proof {
        reveal_strlit("");
    }
    let name = trimmed(port.port_name.as_str());
    if name.len() == 0 {
        return (None, StatusLine { text: notice(lang, Notice::SelectPortFirst, "", ""), is_error: true });
    }
    let baud_text = trimmed(baud_input);
    let baud = match parse_unsigned(baud_text.as_slice(), 0xffff_ffff) {
        Some(b) => {
            if b > 0 {
                b
            } else {
                return (None, StatusLine { text: notice(lang, Notice::InvalidBaud, "", ""), is_error: true });
            }
        },
        None => {
            return (None, StatusLine { text: notice(lang, Notice::InvalidBaud, "", ""), is_error: true });
        },
    };
    port.baud_rate = baud;
    port.port_name = string_from_chars(name.as_slice());
    let settings = copy_settings(port);
    (Some(Command::Open(settings)), StatusLine { text: notice(lang, Notice::OpeningPort, "", ""), is_error: false })
}

/// The status line when the ports cannot be listed.
pub fn port_list_failed(lang: Language, err: &str) -> (s: StatusLine)
    ensures
        s.text@ == notice_text(lang, Notice::EnumPortsFailed, err@, Seq::empty()),
        s.is_error,
{
    proof {
        reveal_strlit("");
    }
    StatusLine { text: notice(lang, Notice::EnumPortsFailed, err, ""), is_error: true }
}

/// Baud rates offered in the baud rate menu.
pub const COMMON_BAUDS: [u32; 10] = [9600, 19200, 38400, 57600, 115200, 230400, 460800, 921600, 1000000, 2000000];

/// The shown name of the first listed entry with this port name.
pub open spec fn first_display(list: Seq<(String, String)>, name: Seq<char>) -> Option<Seq<char>>
    decreases list.len(),
{
    if list.len() == 0 {
        None
    } else if list[0].1@ == name {
        Some(list[0].0@)
    } else {
        first_display(list.drop_first(), name)
    }
}

/// The label of the port selector: nothing for no port (a placeholder is shown), the
/// shown name of the chosen port when it is listed, otherwise its bare name.
pub open spec fn port_label_text(list: Seq<(String, String)>, name: Seq<char>) -> Option<Seq<char>> {
    if name.len() == 0 {
        None
    } else {
        match first_display(list, name) {
            Some(d) => Some(d),
            None => Some(name),
        }
    }
}

/// Builds the label of the port selector.
pub fn port_label(list: &Vec<(String, String)>, name: &String) -> (r: Option<String>)
    ensures
        match port_label_text(list@, name@) {
            Some(t) => r matches Some(s) && s@ == t,
            None => r is None,
        },
{
    if name.as_str().is_empty() {
        return None;
    }
    let mut i: usize = 0;
    assert(list@.skip(0) =~= list@);
    while i < list.len()
        invariant
            i <= list@.len(),
            name@.len() > 0,
            first_display(list@, name@) == first_display(list@.skip(i as int), name@),
        decreases list@.len() - i,
    {
        let ghost rest = list@.skip(i as int);
        assert(rest[0] == list@[i as int]);
        if list[i].1 == *name {
            return Some(list[i].0.clone());
        }
        assert(rest.drop_first() =~= list@.skip(i + 1));
        i = i + 1;
    }
    assert(list@.skip(i as int).len() == 0);
    Some(name.clone())
}

/// A baud rate typed into the baud field (`str::parse::<u32>` of the trimmed text);
/// the settings take it as soon as it reads as a number.
pub fn parse_baud(text: &str) -> (r: Option<u32>)
    ensures
        match unsigned_text(trim_chars(text@), 0xffff_ffff) {
            Some(n) => r == Some(n as u32),
            None => r is None,
        },
{
    let t = trimmed(text);
    parse_unsigned(t.as_slice(), 0xffff_ffff)
}

} // verus!

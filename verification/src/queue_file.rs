//! Import of send queues from files.
//!
//! A queue file is TOML (one whole queue); a plain text file gives one text entry per
//! line, blank lines skipped.
use vstd::prelude::*;
use vstd::string::StringExecFns;
use crate::config::{QueueItem, SendMode, SendQueue};
use crate::strs::{chars_of, is_blank, string_from_chars, trim_chars};

verus! {

/// Largest number of entries an imported queue may have.
pub const MAX_ITEMS: usize = 1000;

/// The text split at every `'\n'`; there is always at least one piece.
pub open spec fn split_newlines(s: Seq<char>) -> Seq<Seq<char>>
    decreases s.len(),
{
    if s.len() == 0 {
        seq![Seq::empty()]
    } else {
        let p = split_newlines(s.drop_last());
        if s.last() == '\n' {
            p.push(Seq::empty())
        } else {
            p.update(p.len() - 1, p.last().push(s.last()))
        }
    }
}

proof fn lemma_split_newlines_len(s: Seq<char>)
    ensures
        split_newlines(s).len() >= 1,
    decreases s.len(),
{
    if s.len() > 0 {
        lemma_split_newlines_len(s.drop_last());
    }
}

/// A line that ended in `"\r\n"` loses its `'\r'`.
pub open spec fn strip_cr(l: Seq<char>) -> Seq<char> {
    if l.len() > 0 && l.last() == '\r' {
        l.drop_last()
    } else {
        l
    }
}

/// The lines of a text as `str::lines` gives them: pieces ended by `'\n'` (without a
/// `'\r'` before it), then the last piece unless it is empty.
pub open spec fn text_lines(s: Seq<char>) -> Seq<Seq<char>> {
    let p = split_newlines(s);
    let ended = p.drop_last().map_values(|l: Seq<char>| strip_cr(l));
    if p.last().len() == 0 {
        ended
    } else {
        ended.push(p.last())
    }
}

/// The lines that are not blank, in order.
pub open spec fn nonblank(ls: Seq<Seq<char>>) -> Seq<Seq<char>>
    decreases ls.len(),
{
    if ls.len() == 0 {
        Seq::empty()
    } else {
        let r = nonblank(ls.drop_last());
        if trim_chars(ls.last()).len() == 0 {
            r
        } else {
            r.push(ls.last())
        }
    }
}

/// The entries are text entries with 100 ms delay, selected, holding the given contents.
pub open spec fn text_items(items: Seq<QueueItem>, contents: Seq<Seq<char>>) -> bool {
    &&& items.len() == contents.len()
    &&& forall|k: int|
        0 <= k < items.len() ==> {
            &&& (#[trigger] items[k]).content@ == contents[k]
            &&& items[k].mode == SendMode::Text
            &&& items[k].delay_ms == 100
            &&& items[k].selected
        }
}

fn push_line(items: &mut Vec<QueueItem>, line: &[char])
    ensures
        trim_chars(line@).len() == 0 ==> final(items)@ == old(items)@,
        trim_chars(line@).len() != 0 ==> {
            &&& final(items)@.len() == old(items)@.len() + 1
            &&& final(items)@.take(old(items)@.len() as int) == old(items)@
            &&& final(items)@.last().content@ == line@
            &&& final(items)@.last().mode == SendMode::Text
            &&& final(items)@.last().delay_ms == 100
            &&& final(items)@.last().selected
        },
{
    if !is_blank(line) {
        let content = string_from_chars(line);
        items.push(QueueItem { mode: SendMode::Text, content, delay_ms: 100, selected: true });
        assert(items@.take(old(items)@.len() as int) =~= old(items)@);
    }
}

proof fn lemma_nonblank_push(ls: Seq<Seq<char>>, l: Seq<char>)
    ensures
        nonblank(ls.push(l)) == if trim_chars(l).len() == 0 {
            nonblank(ls)
        } else {
            nonblank(ls).push(l)
        },
{
    assert(ls.push(l).drop_last() =~= ls);
}

proof fn lemma_text_items_push(items: Seq<QueueItem>, contents: Seq<Seq<char>>, it: QueueItem)
    requires
        text_items(items, contents),
        it.mode == SendMode::Text,
        it.delay_ms == 100,
        it.selected,
    ensures
        text_items(items.push(it), contents.push(it.content@)),
{
    assert forall|k: int| 0 <= k < items.len() + 1 implies {
        &&& (#[trigger] items.push(it)[k]).content@ == contents.push(it.content@)[k]
        &&& items.push(it)[k].mode == SendMode::Text
        &&& items.push(it)[k].delay_ms == 100
        &&& items.push(it)[k].selected
    } by {
        if k < items.len() {
            assert(items.push(it)[k] == items[k]);
        }
    }
}

/// Reads a text as queue entries: one text entry per line, blank lines skipped.
pub fn import_queue_txt(s: &str) -> (items: Vec<QueueItem>)
    ensures
        text_items(items@, nonblank(text_lines(s@))),
{
    let chars = chars_of(s);
    let mut items: Vec<QueueItem> = Vec::new();
    let mut cur: Vec<char> = Vec::new();
    let mut i: usize = 0;
    while i < chars.len()
        invariant
            i <= chars@.len(),
            chars@ == s@,
            cur@ == split_newlines(chars@.take(i as int)).last(),
            text_items(
                items@,
                nonblank(
                    split_newlines(chars@.take(i as int)).drop_last().map_values(
                        |l: Seq<char>| strip_cr(l),
                    ),
                ),
            ),
        decreases chars@.len() - i,
    {
        let c = chars[i];
        let ghost pre = chars@.take(i as int);
        let ghost p = split_newlines(pre);
        proof {
            lemma_split_newlines_len(pre);
        }
        assert(chars@.take(i + 1).drop_last() =~= pre);
        assert(chars@.take(i + 1).last() == c);
        let ghost ended = p.drop_last().map_values(|l: Seq<char>| strip_cr(l));
        if c == '\n' {
            let line: Vec<char> = if cur.len() > 0 && cur[cur.len() - 1] == '\r' {
                let mut l = cur.clone();
                l.pop();
                assert(l@ =~= cur@.drop_last());
                l
            } else {
                cur.clone()
            };
            assert(line@ == strip_cr(cur@));
            let ghost old_items = items@;
            push_line(&mut items, line.as_slice());
            proof {
                let p2 = split_newlines(chars@.take(i + 1));
                assert(p2 == p.push(Seq::empty()));
                assert(p2.drop_last() =~= p);
                assert(p.drop_last().push(p.last()) =~= p);
                assert(p.map_values(|l: Seq<char>| strip_cr(l)) =~= ended.push(strip_cr(cur@)));
                lemma_nonblank_push(ended, strip_cr(cur@));
                if trim_chars(line@).len() != 0 {
                    assert(items@ =~= old_items.push(items@.last()));
                    lemma_text_items_push(old_items, nonblank(ended), items@.last());
                }
            }
            cur = Vec::new();
            proof {
                let p2 = split_newlines(chars@.take(i + 1));
                assert(cur@ =~= p2.last());
            }
        } else {
            cur.push(c);
            proof {
                let p2 = split_newlines(chars@.take(i + 1));
                assert(p2 == p.update(p.len() - 1, p.last().push(c)));
                assert(p2.drop_last() =~= p.drop_last());
                assert(cur@ =~= p2.last());
            }
        }
        i = i + 1;
    }
    assert(chars@.take(chars@.len() as int) =~= chars@);
    proof {
        lemma_split_newlines_len(s@);
    }
    if cur.len() > 0 {
        let ghost old_items = items@;
        let ghost ended = split_newlines(s@).drop_last().map_values(|l: Seq<char>| strip_cr(l));
        push_line(&mut items, cur.as_slice());
        proof {
            lemma_nonblank_push(ended, cur@);
            if trim_chars(cur@).len() != 0 {
                assert(items@ =~= old_items.push(items@.last()));
                lemma_text_items_push(old_items, nonblank(ended), items@.last());
            }
        }
    }
    items
}

/// Message for an imported queue with too many entries.
pub open spec fn too_many_items_text() -> Seq<char> {
    "条目数超过上限 1000"@
}

/// Accepts a queue read from a queue file unless it has more than [`MAX_ITEMS`] entries.
pub fn check_imported_queue(queue: SendQueue) -> (r: Result<SendQueue, String>)
    ensures
        queue.items@.len() > MAX_ITEMS ==> (r matches Err(e) && e@ == too_many_items_text()),
        queue.items@.len() <= MAX_ITEMS ==> r == Ok::<SendQueue, String>(queue),
{
    if queue.items.len() > MAX_ITEMS {
        Err(String::from_str("条目数超过上限 1000"))
    } else {
        Ok(queue)
    }
}

} // verus!

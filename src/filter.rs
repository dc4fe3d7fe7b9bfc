//! Selection of the most recent entries of one action from a whole log.
use vstd::prelude::*;

use crate::entry::{
    parse_action_line, read_action_line, Action, EntryView, LineView, LogEntry,
    ParsedLine,
};
use crate::text::{chars_of, char_views, lines_of, split_lines, string_of};

verus! {

/// Why a log could not be filtered.
#[derive(Debug)]
pub enum LogError {
    /// A line announces an entry of the kind looked for but lacks its fields.
    InvalidLine(String),
}

/// The mathematical outcome of a filter: the selected entries, oldest first, or the
/// offending line.
pub enum Selection {
    Entries(Seq<EntryView>),
    Invalid(Seq<char>),
}

/// The entries of `tail` placed after those of `s`, if `s` holds entries.
pub open spec fn extend(s: Selection, tail: Seq<EntryView>) -> Selection {
    match s {
        Selection::Entries(es) => Selection::Entries(es + tail),
        Selection::Invalid(l) => Selection::Invalid(l),
    }
}

/// The views of a sequence of entries.
pub open spec fn entry_views(v: Seq<LogEntry>) -> Seq<EntryView> {
    v.map_values(|e: LogEntry| e@)
}

/// What a filter's result stands for.
pub open spec fn outcome(r: Result<Vec<LogEntry>, LogError>) -> Selection {
    match r {
        Ok(v) => Selection::Entries(entry_views(v@)),
        Err(LogError::InvalidLine(l)) => Selection::Invalid(l@),
    }
}

/// Scanning `lines` from the newest (last) one, collect at most `max` entries of
/// `action`, stopping once `max` are held; the first malformed line met on the way
/// is the outcome instead. The entries come out oldest first.
pub open spec fn select(lines: Seq<Seq<char>>, action: Action, max: nat) -> Selection
    decreases lines.len(),
{
    if max == 0 || lines.len() == 0 {
        Selection::Entries(Seq::empty())
    } else {
        let older = lines.drop_last();
        match parse_action_line(lines.last(), action) {
            LineView::Unrelated => select(older, action, max),
            LineView::Malformed => Selection::Invalid(lines.last()),
            LineView::Record(e) => extend(select(older, action, (max - 1) as nat), seq![e]),
        }
    }
}

/// The indices of the lines that `select` takes its entries from, in the same order.
pub open spec fn selected_lines(lines: Seq<Seq<char>>, action: Action, max: nat) -> Seq<int>
    decreases lines.len(),
{
    if max == 0 || lines.len() == 0 {
        Seq::empty()
    } else {
        let older = lines.drop_last();
        match parse_action_line(lines.last(), action) {
            LineView::Unrelated => selected_lines(older, action, max),
            LineView::Malformed => Seq::empty(),
            LineView::Record(e) => selected_lines(older, action, (max - 1) as nat).push(
                lines.len() - 1,
            ),
        }
    }
}

/// Extending twice is extending once by both tails.
pub proof fn lemma_extend_extend(s: Selection, a: Seq<EntryView>, b: Seq<EntryView>)
    ensures
        extend(extend(s, a), b) == extend(s, a + b),
{
    if let Selection::Entries(es) = s {
        assert(es + a + b =~= es + (a + b));
    }
}

proof fn lemma_select_len(lines: Seq<Seq<char>>, action: Action, max: nat)
    ensures
        select(lines, action, max) matches Selection::Entries(es) ==> es.len() <= max,
    decreases lines.len(),
{
    if max > 0 && lines.len() > 0 {
        lemma_select_len(lines.drop_last(), action, max);
        lemma_select_len(lines.drop_last(), action, (max - 1) as nat);
    }
}

proof fn lemma_select_order(lines: Seq<Seq<char>>, action: Action, max: nat)
    ensures
        select(lines, action, max) matches Selection::Entries(es) ==> {
            let ix = selected_lines(lines, action, max);
            &&& ix.len() == es.len()
            &&& forall|k: int|
                0 <= k < ix.len() ==> 0 <= #[trigger] ix[k] < lines.len() && parse_action_line(
                    lines[ix[k]],
                    action,
                ) == LineView::Record(es[k])
            &&& forall|j: int, k: int| 0 <= j < k < ix.len() ==> ix[j] < ix[k]
        },
    decreases lines.len(),
{
    if max > 0 && lines.len() > 0 {
        let older = lines.drop_last();
        lemma_select_order(older, action, max);
        lemma_select_order(older, action, (max - 1) as nat);
    }
}

/// However large the log and the cap, a filter never yields more entries than the cap.
pub proof fn lemma_filter_at_most_max(log: Seq<char>, action: Action, max: nat)
    ensures
        select(lines_of(log), action, max) matches Selection::Entries(es) ==> es.len() <= max,
{
    lemma_select_len(lines_of(log), action, max);
}

/// A filter yields its entries in the order of the log: each comes from a line of
/// the log of its own kind, and the lines they come from stand in increasing order.
pub proof fn lemma_filter_chronological(log: Seq<char>, action: Action, max: nat)
    ensures
        select(lines_of(log), action, max) matches Selection::Entries(es) ==> {
            let lines = lines_of(log);
            let ix = selected_lines(lines, action, max);
            &&& ix.len() == es.len()
            &&& forall|k: int|
                0 <= k < ix.len() ==> 0 <= #[trigger] ix[k] < lines.len() && parse_action_line(
                    lines[ix[k]],
                    action,
                ) == LineView::Record(es[k])
            &&& forall|j: int, k: int| 0 <= j < k < ix.len() ==> ix[j] < ix[k]
        },
{
    lemma_select_order(lines_of(log), action, max);
}

/// Moves the entries of `found` into a new vector in the opposite order.
pub fn reverse_entries(found: Vec<LogEntry>) -> (r: Vec<LogEntry>)
    ensures
        entry_views(r@) == entry_views(found@).reverse(),
{
    let mut found = found;
    let ghost all = entry_views(found@).reverse();
    let mut out: Vec<LogEntry> = Vec::new();
    while found.len() > 0
        invariant
            all == entry_views(out@) + entry_views(found@).reverse(),
        decreases found@.len(),
    {
        let ghost before = found@;
        let e = found.pop().unwrap();
        proof {
            assert(before == found@.push(e));
            assert(entry_views(before).reverse() =~= seq![e@] + entry_views(found@).reverse());
            assert(entry_views(out@.push(e)) =~= entry_views(out@).push(e@));
        }
        out.push(e);
        proof {
            assert(all =~= entry_views(out@) + entry_views(found@).reverse());
        }
    }
    assert(entry_views(found@).reverse() =~= Seq::<EntryView>::empty());
    assert(all =~= entry_views(out@));
    out
}

/// The entries of `action` in `logs`, at most `max_entries` of them, the most recent
/// ones, oldest first; or the first malformed line of that kind met, scanning from the
/// end, before the cap is reached.
pub fn filter_logs(logs: &str, action: Action, max_entries: usize) -> (r: Result<
    Vec<LogEntry>,
    LogError,
>)
    ensures
        outcome(r) == select(lines_of(logs@), action, max_entries as nat),
        r matches Ok(v) ==> v@.len() <= max_entries,
{
    let text = chars_of(logs);
    let lines = split_lines(&text);
    let marker = chars_of(" [ALPM] ");
    let keyword = chars_of(action.keyword());
    let ghost all = char_views(lines@);
    assert(all == lines_of(logs@));
    let mut found: Vec<LogEntry> = Vec::new();
    let mut idx: usize = lines.len();
    proof {
        assert(all.subrange(0, idx as int) =~= all);
        if let Selection::Entries(es) = select(all, action, max_entries as nat) {
            assert(es + Seq::<EntryView>::empty().reverse() =~= es);
        }
        assert(entry_views(found@).reverse() =~= Seq::<EntryView>::empty());
    }
    while idx > 0 && found.len() < max_entries
        invariant
            all == char_views(lines@),
            all == lines_of(logs@),
            marker@ == crate::entry::alpm_marker(),
            keyword@ == action.spec_keyword(),
            idx <= lines@.len(),
            found@.len() <= max_entries,
            select(all, action, max_entries as nat) == extend(
                select(all.subrange(0, idx as int), action, (max_entries - found@.len()) as nat),
                entry_views(found@).reverse(),
            ),
        decreases idx,
    {
        let line = &lines[idx - 1];
        let ghost prefix = all.subrange(0, idx as int);
        let ghost older = all.subrange(0, idx - 1);
        let ghost m = (max_entries - found@.len()) as nat;
        assert(prefix.drop_last() =~= older);
        assert(prefix.last() == line@);
        match read_action_line(line, action, &marker, &keyword) {
            ParsedLine::Unrelated => {},
            ParsedLine::Malformed => {
                let l = string_of(line, 0, line.len());
                assert(line@.subrange(0, line@.len() as int) =~= line@);
                assert(select(prefix, action, m) == Selection::Invalid(line@));
                return Err(LogError::InvalidLine(l));
            },
            ParsedLine::Record(e) => {
                let ghost rest = entry_views(found@).reverse();
                proof {
                    lemma_extend_extend(select(older, action, (m - 1) as nat), seq![e@], rest);
                    assert(entry_views(found@.push(e)).reverse() =~= seq![e@] + rest);
                }
                found.push(e);
            },
        }
        idx = idx - 1;
    }
    proof {
        let sel = select(all.subrange(0, idx as int), action, (max_entries - found@.len()) as nat);
        assert(sel == Selection::Entries(Seq::<EntryView>::empty()));
        assert(Seq::<EntryView>::empty() + entry_views(found@).reverse() =~= entry_views(
            found@,
        ).reverse());
    }
    let out = reverse_entries(found);
    proof {
        lemma_select_len(all, action, max_entries as nat);
        assert(entry_views(out@).len() == out@.len());
    }
    Ok(out)
}

} // verus!

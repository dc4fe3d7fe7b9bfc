//! Install entries of the packages that were installed explicitly, each package once.
use vstd::prelude::*;

use ahash::AHashSet;

use crate::entry::{
    installed_marker, parse_installed_line, read_installed_line, EntryView,
    LineView, LogEntry, ParsedLine,
};
use crate::filter::{entry_views, extend, lemma_extend_extend, outcome, reverse_entries, LogError, Selection};
use crate::text::{chars_of, char_views, lines_of, split_lines, string_of};

verus! {

#[verifier::external_type_specification]
#[verifier::external_body]
#[verifier::reject_recursive_types(T)]
#[verifier::reject_recursive_types(S)]
pub struct ExAHashSet<T, S>(ahash::AHashSet<T, S>);

#[verifier::external_type_specification]
#[verifier::external_body]
pub struct ExRandomState(ahash::RandomState);

/// The names that a set of package names holds.
pub uninterp spec fn set_contents(s: AHashSet<String>) -> Set<Seq<char>>;

/// Relies on `ahash::AHashSet::new`: a new set holds no name.
#[verifier::external_body]
fn new_name_set() -> (r: AHashSet<String>)
    ensures
        set_contents(r) == Set::<Seq<char>>::empty(),
{
    AHashSet::new()
}

/// Relies on `HashSet::insert`, reached through `AHashSet`'s `DerefMut`: the name
/// joins the set.
#[verifier::external_body]
fn insert_name(s: &mut AHashSet<String>, name: String)
    ensures
        set_contents(*final(s)) == set_contents(*old(s)).insert(name@),
{
    s.insert(name);
}

/// Relies on `HashSet::remove`, reached through `AHashSet`'s `DerefMut`: it reports
/// whether the name was in the set, and the name is no longer in it afterwards.
#[verifier::external_body]
fn remove_name(s: &mut AHashSet<String>, name: &str) -> (r: bool)
    ensures
        r == set_contents(*old(s)).contains(name@),
        set_contents(*final(s)) == set_contents(*old(s)).remove(name@),
{
    s.remove(name)
}

/// The set of the given package names.
pub fn explicit_set(names: Vec<String>) -> (r: AHashSet<String>)
    ensures
        set_contents(r) == names@.map_values(|n: String| n@).to_set(),
{
    let ghost all = names@.map_values(|n: String| n@).to_set();
    let mut set = new_name_set();
    let mut names = names;
    while names.len() > 0
        invariant
            all == set_contents(set) + names@.map_values(|n: String| n@).to_set(),
        decreases names@.len(),
    {
        let ghost before = names@;
        let n = names.pop().unwrap();
        proof {
            assert(before == names@.push(n));
            assert(before.map_values(|n: String| n@) =~= names@.map_values(|n: String| n@).push(n@));
            names@.map_values(|n: String| n@).lemma_push_to_set_commute(n@);
        }
        insert_name(&mut set, n);
        proof {
            assert(all =~= set_contents(set) + names@.map_values(|n: String| n@).to_set());
        }
    }
    set
}

/// Scanning `lines` from the newest (last) one, collect the install entries whose
/// package is still in `names`, taking each package out of `names` once it is taken;
/// stop once `max` are held. The first malformed install line met on the way is the
/// outcome instead. The entries come out oldest first.
pub open spec fn select_explicit(lines: Seq<Seq<char>>, names: Set<Seq<char>>, max: nat) -> Selection
    decreases lines.len(),
{
    if max == 0 || lines.len() == 0 {
        Selection::Entries(Seq::empty())
    } else {
        let older = lines.drop_last();
        match parse_installed_line(lines.last()) {
            LineView::Unrelated => select_explicit(older, names, max),
            LineView::Malformed => Selection::Invalid(lines.last()),
            LineView::Record(e) => if names.contains(e.package) {
                extend(select_explicit(older, names.remove(e.package), (max - 1) as nat), seq![e])
            } else {
                select_explicit(older, names, max)
            },
        }
    }
}

/// The indices of the lines that `select_explicit` takes its entries from, in the
/// same order.
pub open spec fn selected_explicit_lines(
    lines: Seq<Seq<char>>,
    names: Set<Seq<char>>,
    max: nat,
) -> Seq<int>
    decreases lines.len(),
{
    if max == 0 || lines.len() == 0 {
        Seq::empty()
    } else {
        let older = lines.drop_last();
        match parse_installed_line(lines.last()) {
            LineView::Unrelated => selected_explicit_lines(older, names, max),
            LineView::Malformed => Seq::empty(),
            LineView::Record(e) => if names.contains(e.package) {
                selected_explicit_lines(older, names.remove(e.package), (max - 1) as nat).push(
                    lines.len() - 1,
                )
            } else {
                selected_explicit_lines(older, names, max)
            },
        }
    }
}

proof fn lemma_select_explicit_facts(lines: Seq<Seq<char>>, names: Set<Seq<char>>, max: nat)
    ensures
        select_explicit(lines, names, max) matches Selection::Entries(es) ==> {
            let ix = selected_explicit_lines(lines, names, max);
            &&& es.len() <= max
            &&& forall|k: int| 0 <= k < es.len() ==> names.contains(#[trigger] es[k].package)
            &&& forall|j: int, k: int|
                0 <= j < k < es.len() ==> es[j].package != es[k].package
            &&& ix.len() == es.len()
            &&& forall|k: int|
                0 <= k < ix.len() ==> 0 <= #[trigger] ix[k] < lines.len()
                    && parse_installed_line(lines[ix[k]]) == LineView::Record(es[k])
            &&& forall|j: int, k: int| 0 <= j < k < ix.len() ==> ix[j] < ix[k]
        },
    decreases lines.len(),
{
    if max > 0 && lines.len() > 0 {
        let older = lines.drop_last();
        if let LineView::Record(e) = parse_installed_line(lines.last()) {
            lemma_select_explicit_facts(older, names.remove(e.package), (max - 1) as nat);
        }
        lemma_select_explicit_facts(older, names, max);
    }
}

/// However large the log and the cap, explicit-install filtering never yields more
/// entries than the cap.
pub proof fn lemma_explicit_at_most_max(log: Seq<char>, names: Set<Seq<char>>, max: nat)
    ensures
        select_explicit(lines_of(log), names, max) matches Selection::Entries(es) ==> es.len()
            <= max,
{
    lemma_select_explicit_facts(lines_of(log), names, max);
}

/// Explicit-install filtering never reports the same package twice, and reports only
/// packages of the given set.
pub proof fn lemma_explicit_no_repeats(log: Seq<char>, names: Set<Seq<char>>, max: nat)
    ensures
        select_explicit(lines_of(log), names, max) matches Selection::Entries(es) ==> {
            &&& forall|j: int, k: int|
                0 <= j < k < es.len() ==> es[j].package != es[k].package
            &&& forall|k: int| 0 <= k < es.len() ==> names.contains(#[trigger] es[k].package)
        },
{
    lemma_select_explicit_facts(lines_of(log), names, max);
}

/// Explicit-install filtering yields its entries in the order of the log: each comes
/// from an install line of the log, and those lines stand in increasing order.
pub proof fn lemma_explicit_chronological(log: Seq<char>, names: Set<Seq<char>>, max: nat)
    ensures
        select_explicit(lines_of(log), names, max) matches Selection::Entries(es) ==> {
            let lines = lines_of(log);
            let ix = selected_explicit_lines(lines, names, max);
            &&& ix.len() == es.len()
            &&& forall|k: int|
                0 <= k < ix.len() ==> 0 <= #[trigger] ix[k] < lines.len()
                    && parse_installed_line(lines[ix[k]]) == LineView::Record(es[k])
            &&& forall|j: int, k: int| 0 <= j < k < ix.len() ==> ix[j] < ix[k]
        },
{
    lemma_select_explicit_facts(lines_of(log), names, max);
}

/// The install entries in `logs` of the packages in `explicit`, each package at most
/// once (its most recent install), at most `max_entries` of them, the most recent
/// ones, oldest first; or the first malformed install line met, scanning from the
/// end, before the cap is reached.
pub fn explicitly_installed(logs: &str, explicit: AHashSet<String>, max_entries: usize) -> (r:
    Result<Vec<LogEntry>, LogError>)
    ensures
        outcome(r) == select_explicit(lines_of(logs@), set_contents(explicit), max_entries as nat),
        r matches Ok(v) ==> v@.len() <= max_entries,
{
    let ghost names = set_contents(explicit);
    let mut remaining = explicit;
    let text = chars_of(logs);
    let lines = split_lines(&text);
    let marker = chars_of(" [ALPM] installed ");
    let ghost all = char_views(lines@);
    let mut found: Vec<LogEntry> = Vec::new();
    let mut idx: usize = lines.len();
    proof {
        assert(all.subrange(0, idx as int) =~= all);
        if let Selection::Entries(es) = select_explicit(all, names, max_entries as nat) {
            assert(es + Seq::<EntryView>::empty().reverse() =~= es);
        }
        assert(entry_views(found@).reverse() =~= Seq::<EntryView>::empty());
    }
    while idx > 0 && found.len() < max_entries
        invariant
            all == char_views(lines@),
            all == lines_of(logs@),
            names == set_contents(explicit),
            marker@ == installed_marker(),
            idx <= lines@.len(),
            found@.len() <= max_entries,
            select_explicit(all, names, max_entries as nat) == extend(
                select_explicit(
                    all.subrange(0, idx as int),
                    set_contents(remaining),
                    (max_entries - found@.len()) as nat,
                ),
                entry_views(found@).reverse(),
            ),
        decreases idx,
    {
        let line = &lines[idx - 1];
        let ghost prefix = all.subrange(0, idx as int);
        let ghost older = all.subrange(0, idx - 1);
        let ghost m = (max_entries - found@.len()) as nat;
        let ghost cur = set_contents(remaining);
        assert(prefix.drop_last() =~= older);
        assert(prefix.last() == line@);
        match read_installed_line(line, &marker) {
            ParsedLine::Unrelated => {},
            ParsedLine::Malformed => {
                let l = string_of(line, 0, line.len());
                assert(line@.subrange(0, line@.len() as int) =~= line@);
                return Err(LogError::InvalidLine(l));
            },
            ParsedLine::Record(e) => {
                if remove_name(&mut remaining, e.package.as_str()) {
                    let ghost rest = entry_views(found@).reverse();
                    proof {
                        lemma_extend_extend(
                            select_explicit(older, cur.remove(e.package@), (m - 1) as nat),
                            seq![e@],
                            rest,
                        );
                        assert(entry_views(found@.push(e)).reverse() =~= seq![e@] + rest);
                    }
                    found.push(e);
                } else {
                    assert(cur.remove(e.package@) =~= cur);
                }
            },
        }
        idx = idx - 1;
    }
    proof {
        let sel = select_explicit(
            all.subrange(0, idx as int),
            set_contents(remaining),
            (max_entries - found@.len()) as nat,
        );
        assert(sel == Selection::Entries(Seq::<EntryView>::empty()));
        assert(Seq::<EntryView>::empty() + entry_views(found@).reverse() =~= entry_views(
            found@,
        ).reverse());
    }
    let out = reverse_entries(found);
    proof {
        lemma_select_explicit_facts(all, names, max_entries as nat);
        assert(entry_views(out@).len() == out@.len());
    }
    Ok(out)
}

} // verus!

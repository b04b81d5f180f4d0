//! Operations the coordinator runs on the tab list: dispatching a line to
//! every matching tab and marking tabs seen on switches, live or paused.

use crate::tab::{
    pushed_record, seen_after_mark, MatchMode, Tab,
};
use vstd::prelude::*;

verus! {

/// Every tab in the list is well formed.
pub open spec fn tabs_inv(tabs: Seq<Tab>) -> bool {
    forall|j: int| 0 <= j < tabs.len() ==> (#[trigger] tabs[j]).inv()
}

/// No tab's match counter is at the point of overflow.
pub open spec fn totals_below_max(tabs: Seq<Tab>) -> bool {
    forall|j: int| 0 <= j < tabs.len() ==> (#[trigger] tabs[j]).total_matches < u64::MAX
}

/// The cutoff a paused mark uses for a tab: the snapshot entry when one
/// exists, else the tab's own total (which marks everything seen).
pub open spec fn paused_cutoff(cutoffs: Seq<u64>, index: int, total: u64) -> u64 {
    if 0 <= index < cutoffs.len() {
        cutoffs[index]
    } else {
        total
    }
}

/// How dispatching one line transforms a single tab. A non-matching line
/// leaves the tab untouched; a matching one is appended and counted, and is
/// immediately seen exactly when the tab is active in live mode
/// (`counted_seen`).
pub open spec fn tab_after_line(
    t0: Tab,
    t1: Tab,
    counted_seen: bool,
    seq: u64,
    line: Seq<char>,
) -> bool {
    &&& t1.label == t0.label
    &&& t1.mode == t0.mode
    &&& if t0.mode.spec_matches(line) {
        &&& t1.total_matches == t0.total_matches + 1
        &&& pushed_record(t0.lines@, t1.lines@, seq, line)
        &&& t1.seen_matches == if counted_seen {
            (t0.total_matches + 1) as u64
        } else {
            t0.seen_matches
        }
    } else {
        t1 == t0
    }
}

/// Per-tab counters frozen the moment pause is entered: for each tab, the
/// buffered line count and the match total at that instant.
#[derive(Debug)]
pub struct PauseSnapshot {
    pub line_cutoffs: Vec<usize>,
    pub match_cutoffs: Vec<u64>,
}

impl PauseSnapshot {
    /// Both cutoff lists cover the same tabs.
    pub open spec fn wf(&self, n_tabs: int) -> bool {
        &&& self.line_cutoffs@.len() == n_tabs
        &&& self.match_cutoffs@.len() == n_tabs
    }

    /// Freeze the current buffered length and match total of every tab.
    pub fn capture(tabs: &Vec<Tab>) -> (s: PauseSnapshot)
        ensures
            s.wf(tabs@.len() as int),
            forall|j: int|
                0 <= j < tabs@.len() ==> #[trigger] s.line_cutoffs@[j] == tabs@[j].lines@.len(),
            forall|j: int|
                0 <= j < tabs@.len() ==> #[trigger] s.match_cutoffs@[j] == tabs@[j].total_matches,
    {
        let mut line_cutoffs: Vec<usize> = Vec::new();
        let mut match_cutoffs: Vec<u64> = Vec::new();
        let mut k: usize = 0;
        while k < tabs.len()
            invariant
                k <= tabs@.len(),
                line_cutoffs@.len() == k,
                match_cutoffs@.len() == k,
                forall|j: int|
                    0 <= j < k ==> #[trigger] line_cutoffs@[j] == tabs@[j].lines@.len(),
                forall|j: int|
                    0 <= j < k ==> #[trigger] match_cutoffs@[j] == tabs@[j].total_matches,
            decreases tabs@.len() - k,
        {
            line_cutoffs.push(tabs[k].lines.len());
            match_cutoffs.push(tabs[k].total_matches);
            k += 1;
        }
        PauseSnapshot { line_cutoffs, match_cutoffs }
    }
}

/// Mark tab `index` fully seen: its unread count drops to zero. Out-of-range
/// indices are ignored.
pub fn mark_tab_seen_live(tabs: &mut Vec<Tab>, index: usize)
    ensures
        final(tabs)@.len() == old(tabs)@.len(),
        forall|j: int|
            0 <= j < old(tabs)@.len() && j != index ==> final(tabs)@[j] == old(tabs)@[j],
        index < old(tabs)@.len() ==> {
            let t0 = old(tabs)@[index as int];
            let t1 = final(tabs)@[index as int];
            &&& t1.seen_matches == seen_after_mark(
                t0.seen_matches,
                t0.total_matches,
                t0.total_matches,
            )
            &&& t1.total_matches == t0.total_matches
            &&& t1.label == t0.label
            &&& t1.mode == t0.mode
            &&& t1.lines == t0.lines
            &&& (t0.inv() ==> t1.spec_unread() == 0)
        },
        index >= old(tabs)@.len() ==> final(tabs)@ == old(tabs)@,
        tabs_inv(old(tabs)@) ==> tabs_inv(final(tabs)@),
{
    if index < tabs.len() {
        let total = tabs[index].total_matches;
        tabs[index].mark_seen_through(total);
    }
}

/// Mark tab `index` seen up to its pause-time cutoff: matches that arrived
/// after the snapshot stay unread. Out-of-range indices are ignored; a tab
/// without a snapshot entry is marked fully seen.
pub fn mark_tab_seen_paused(tabs: &mut Vec<Tab>, index: usize, pause_match_cutoffs: &Vec<u64>)
    ensures
        final(tabs)@.len() == old(tabs)@.len(),
        forall|j: int|
            0 <= j < old(tabs)@.len() && j != index ==> final(tabs)@[j] == old(tabs)@[j],
        index < old(tabs)@.len() ==> {
            let t0 = old(tabs)@[index as int];
            let t1 = final(tabs)@[index as int];
            &&& t1.seen_matches == seen_after_mark(
                t0.seen_matches,
                t0.total_matches,
                paused_cutoff(pause_match_cutoffs@, index as int, t0.total_matches),
            )
            &&& t1.total_matches == t0.total_matches
            &&& t1.label == t0.label
            &&& t1.mode == t0.mode
            &&& t1.lines == t0.lines
        },
        index >= old(tabs)@.len() ==> final(tabs)@ == old(tabs)@,
        tabs_inv(old(tabs)@) ==> tabs_inv(final(tabs)@),
{
    if index < tabs.len() {
        let cutoff = if index < pause_match_cutoffs.len() {
            pause_match_cutoffs[index]
        } else {
            tabs[index].total_matches
        };
        tabs[index].mark_seen_through(cutoff);
    }
}

/// After a paused mark, the unread count of the marked tab is exactly the
/// matches that arrived after the pause snapshot was taken.
pub proof fn lemma_paused_mark_unread(t0: Tab, t1: Tab, cutoff: u64)
    requires
        t0.seen_matches <= cutoff <= t0.total_matches,
        t1.total_matches == t0.total_matches,
        t1.seen_matches == seen_after_mark(t0.seen_matches, t0.total_matches, cutoff),
    ensures
        t1.spec_unread() == t0.total_matches - cutoff,
{
}

/// Switch the active tab to `next_index` and mark the newly active tab seen:
/// fully in live mode, up to the snapshot cutoff while paused. An
/// out-of-range index changes nothing.
pub fn select_tab(
    tabs: &mut Vec<Tab>,
    active_index: &mut usize,
    next_index: usize,
    paused: bool,
    pause_snapshot: Option<&PauseSnapshot>,
)
    ensures
        final(tabs)@.len() == old(tabs)@.len(),
        next_index >= old(tabs)@.len() ==> final(tabs)@ == old(tabs)@ && *final(active_index)
            == *old(active_index),
        next_index < old(tabs)@.len() ==> *final(active_index) == next_index,
        forall|j: int|
            0 <= j < old(tabs)@.len() && j != next_index ==> final(tabs)@[j] == old(tabs)@[j],
        next_index < old(tabs)@.len() ==> {
            let t0 = old(tabs)@[next_index as int];
            let t1 = final(tabs)@[next_index as int];
            &&& t1.total_matches == t0.total_matches
            &&& t1.label == t0.label
            &&& t1.mode == t0.mode
            &&& t1.lines == t0.lines
            &&& t1.seen_matches == if paused {
                match pause_snapshot {
                    Some(snap) => seen_after_mark(
                        t0.seen_matches,
                        t0.total_matches,
                        paused_cutoff(snap.match_cutoffs@, next_index as int, t0.total_matches),
                    ),
                    None => t0.seen_matches,
                }
            } else {
                seen_after_mark(t0.seen_matches, t0.total_matches, t0.total_matches)
            }
            &&& (!paused && t0.inv() ==> t1.spec_unread() == 0)
        },
        tabs_inv(old(tabs)@) ==> tabs_inv(final(tabs)@),
{
    if next_index >= tabs.len() {
        return;
    }
    *active_index = next_index;
    if paused {
        if let Some(snapshot) = pause_snapshot {
            mark_tab_seen_paused(tabs, next_index, &snapshot.match_cutoffs);
        }
    } else {
        mark_tab_seen_live(tabs, next_index);
    }
}

/// Dispatch one input line: append it to every tab whose filter accepts it,
/// and count it as seen right away only on the active tab in live mode.
pub fn apply_line_to_tabs(
    tabs: &mut Vec<Tab>,
    active_index: usize,
    paused: bool,
    seq: u64,
    line: &str,
)
    requires
        tabs_inv(old(tabs)@),
        totals_below_max(old(tabs)@),
    ensures
        final(tabs)@.len() == old(tabs)@.len(),
        forall|j: int|
            0 <= j < old(tabs)@.len() ==> tab_after_line(
                old(tabs)@[j],
                #[trigger] final(tabs)@[j],
                j == active_index && !paused,
                seq,
                line@,
            ),
        tabs_inv(final(tabs)@),
{
    let ghost tabs0 = tabs@;
    let mut k: usize = 0;
    while k < tabs.len()
        invariant
            tabs_inv(tabs0),
            totals_below_max(tabs0),
            tabs@.len() == tabs0.len(),
            k <= tabs0.len(),
            forall|j: int|
                0 <= j < k ==> tab_after_line(
                    tabs0[j],
                    #[trigger] tabs@[j],
                    j == active_index && !paused,
                    seq,
                    line@,
                ),
            forall|j: int| k <= j < tabs0.len() ==> tabs@[j] == tabs0[j],
            tabs_inv(tabs@),
        decreases tabs0.len() - k,
    {
        let matched = tabs[k].matches(line);
        proof {
            assert(tabs@[k as int] == tabs0[k as int]);
            assert(tabs0[k as int].inv());
            assert(tabs0[k as int].total_matches < u64::MAX);
        }
        if matched {
            tabs[k].push_line(seq, line);
            if k == active_index && !paused {
                let total = tabs[k].total_matches;
                tabs[k].mark_seen_through(total);
            }
        }
        k += 1;
    }
}

/// While a tab is not the one being read (it is inactive, or the view is
/// paused), a line arrival never lowers its unread count, and a matching
/// arrival raises it by exactly one. In particular the active tab accumulates
/// unread while paused.
pub proof fn lemma_unread_grows_when_not_counted(t0: Tab, t1: Tab, seq: u64, line: Seq<char>)
    requires
        t0.inv(),
        tab_after_line(t0, t1, false, seq, line),
    ensures
        t1.spec_unread() >= t0.spec_unread(),
        t0.mode.spec_matches(line) ==> t1.spec_unread() == t0.spec_unread() + 1,
{
}

} // verus!

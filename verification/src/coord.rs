//! The coordinator: the single owner of all mutable domain state. Line
//! events and UI events feed two transition functions; an unverified shell
//! only pumps channels, sleeps, and draws what `build_render_plan` decides.

use crate::input::UiMessage;
use crate::store::{
    apply_line_to_tabs, mark_tab_seen_live, mark_tab_seen_paused, paused_cutoff, select_tab,
    tab_after_line, tabs_inv, PauseSnapshot,
};
use crate::tab::{pushed_record, seen_after_mark, LineRecord, Tab};
use crate::view::{
    line_at_row, middle_visible_line, toggle_selected_line, visible_lines_of, RenderState,
    RenderedLine, SelectedLine,
};
use vstd::prelude::*;
use vstd::string::StrSliceExecFns;

verus! {

/// A line as the stream reader hands it over: one trailing newline removed,
/// and a carriage return before it removed with it.
pub open spec fn spec_trimmed(s: Seq<char>) -> Seq<char> {
    if s.len() >= 2 && s[s.len() - 1] == '\n' && s[s.len() - 2] == '\r' {
        s.take(s.len() - 2)
    } else if s.len() >= 1 && s[s.len() - 1] == '\n' {
        s.take(s.len() - 1)
    } else {
        s
    }
}

/// Normalise one raw input line: drop a trailing newline, and a carriage
/// return directly before it.
pub fn trim_line_ending(line: &str) -> (r: String)
    ensures
        r@ == spec_trimmed(line@),
{
    let n = line.unicode_len();
    if n >= 1 && line.get_char(n - 1) == '\n' {
        if n >= 2 && line.get_char(n - 2) == '\r' {
            line.substring_char(0, n - 2).to_owned()
        } else {
            line.substring_char(0, n - 1).to_owned()
        }
    } else {
        line.to_owned()
    }
}

/// What the event loop does after one UI event: keep going, leave cleanly,
/// or abort with an error message.
#[derive(Debug)]
pub enum CoordinatorAction {
    Continue,
    Quit,
    Fail(String),
}

/// A buffer is ordered when its arrival indices strictly increase and all
/// stay below `bound`.
pub open spec fn buffer_ordered(buf: Seq<LineRecord>, bound: u64) -> bool {
    &&& forall|a: int, b: int|
        0 <= a < b < buf.len() ==> (#[trigger] buf[a]).seq < (#[trigger] buf[b]).seq
    &&& forall|t: int| 0 <= t < buf.len() ==> (#[trigger] buf[t]).seq < bound
}

/// Appending a fresh record with the next arrival index keeps a buffer
/// ordered, evicted or not; this is why the indices shown on every tab are
/// strictly increasing.
pub proof fn lemma_push_keeps_order(
    old_buf: Seq<LineRecord>,
    new_buf: Seq<LineRecord>,
    seq: u64,
    text: Seq<char>,
    bound: u64,
)
    requires
        buffer_ordered(old_buf, bound),
        pushed_record(old_buf, new_buf, seq, text),
        seq == bound,
        bound < u64::MAX,
    ensures
        buffer_ordered(new_buf, (bound + 1) as u64),
{
    let base = if old_buf.len() < crate::tab::MAX_STORED_LINES_PER_TAB {
        old_buf
    } else {
        old_buf.drop_first()
    };
    assert(new_buf.drop_last() == base);
    let n = new_buf.len() as int;
    assert forall|a: int, b: int| 0 <= a < b < n implies (#[trigger] new_buf[a]).seq < (
    #[trigger] new_buf[b]).seq by {
        assert(new_buf[a] == new_buf.drop_last()[a]);
        if b < n - 1 {
            assert(new_buf[b] == new_buf.drop_last()[b]);
            if old_buf.len() < crate::tab::MAX_STORED_LINES_PER_TAB {
                assert(base[a] == old_buf[a]);
            } else {
                assert(base[a] == old_buf[a + 1]);
            }
        } else {
            assert(new_buf[b].seq == seq);
            if old_buf.len() < crate::tab::MAX_STORED_LINES_PER_TAB {
                assert(base[a] == old_buf[a]);
            } else {
                assert(base[a] == old_buf[a + 1]);
            }
        }
    }
    assert forall|t: int| 0 <= t < n implies (#[trigger] new_buf[t]).seq < bound + 1 by {
        if t < n - 1 {
            assert(new_buf[t] == new_buf.drop_last()[t]);
            if old_buf.len() < crate::tab::MAX_STORED_LINES_PER_TAB {
                assert(base[t] == old_buf[t]);
            } else {
                assert(base[t] == old_buf[t + 1]);
            }
        }
    }
}

/// The seen counter of the tab a switch lands on: everything in live mode,
/// the snapshot cutoff while paused, and unchanged when paused without a
/// snapshot.
pub open spec fn seen_after_switch(t0: Tab, paused: bool, snap: Option<PauseSnapshot>, idx: int) -> u64 {
    if paused {
        match snap {
            Some(s) => seen_after_mark(
                t0.seen_matches,
                t0.total_matches,
                paused_cutoff(s.match_cutoffs@, idx, t0.total_matches),
            ),
            None => t0.seen_matches,
        }
    } else {
        seen_after_mark(t0.seen_matches, t0.total_matches, t0.total_matches)
    }
}

/// The pin after a click on `l`: cleared when `l` was already pinned,
/// replaced by `l` otherwise.
pub open spec fn pin_toggled(
    old_sel: Option<SelectedLine>,
    new_sel: Option<SelectedLine>,
    l: RenderedLine,
) -> bool {
    match old_sel {
        Some(cur) => if cur.seq == l.seq {
            new_sel is None
        } else {
            new_sel matches Some(s) && s.seq == l.seq && s.text == l.text
        },
        None => new_sel matches Some(s) && s.seq == l.seq && s.text == l.text,
    }
}

/// The event loop's entire mutable state.
#[derive(Debug)]
pub struct Coordinator {
    pub tabs: Vec<Tab>,
    pub active_index: usize,
    pub next_seq: u64,
    pub paused: bool,
    pub pause_snapshot: Option<PauseSnapshot>,
    pub selected_line: Option<SelectedLine>,
    pub dirty: bool,
    pub last_render_state: RenderState,
}

impl Coordinator {
    /// Consistency of the whole state: a nonempty well-formed tab list with
    /// the active index inside it, a snapshot exactly while paused that
    /// brackets every tab's seen counter, match totals that never outrun the
    /// arrival counter, and ordered buffers.
    pub open spec fn inv(&self) -> bool {
        &&& self.tabs@.len() >= 1
        &&& self.active_index < self.tabs@.len()
        &&& tabs_inv(self.tabs@)
        &&& self.paused <==> self.pause_snapshot is Some
        &&& match self.pause_snapshot {
            Some(s) => {
                &&& s.wf(self.tabs@.len() as int)
                &&& forall|j: int|
                    0 <= j < self.tabs@.len() ==> (#[trigger] self.tabs@[j]).seen_matches
                        <= s.match_cutoffs@[j] <= self.tabs@[j].total_matches
            },
            None => true,
        }
        &&& forall|j: int|
            0 <= j < self.tabs@.len() ==> (#[trigger] self.tabs@[j]).total_matches
                <= self.next_seq
        &&& forall|j: int|
            0 <= j < self.tabs@.len() ==> buffer_ordered(
                (#[trigger] self.tabs@[j]).lines@,
                self.next_seq,
            )
        &&& forall|j: int|
            0 <= j < self.tabs@.len() ==> (#[trigger] self.tabs@[j]).label@.len() + 40
                <= usize::MAX
    }

    /// The startup state: the synthetic catch-all tab followed by one
    /// substring tab per filter, in order, nothing arrived, nothing seen,
    /// live, and in need of a first draw.
    pub fn new(filters: Vec<String>) -> (c: Coordinator)
        requires
            forall|j: int|
                0 <= j < filters@.len() ==> (#[trigger] filters@[j])@.len() + 40 <= usize::MAX,
        ensures
            c.inv(),
            c.tabs@.len() == filters@.len() + 1,
            c.tabs@[0].mode is All,
            forall|j: int|
                1 <= j < c.tabs@.len() ==> ((#[trigger] c.tabs@[j].mode) matches
                    crate::tab::MatchMode::Contains(p) && p@ == filters@[j - 1]@),
            forall|j: int|
                1 <= j < c.tabs@.len() ==> (#[trigger] c.tabs@[j]).label@ == filters@[j - 1]@,
            forall|j: int|
                0 <= j < c.tabs@.len() ==> (#[trigger] c.tabs@[j]).total_matches == 0
                    && c.tabs@[j].seen_matches == 0 && c.tabs@[j].lines@.len() == 0,
            c.active_index == 0,
            c.next_seq == 0,
            !c.paused,
            c.selected_line is None,
            c.dirty,
    {
        let mut tabs: Vec<Tab> = Vec::new();
        tabs.push(Tab::unfiltered());
        let mut k: usize = 0;
        let n = filters.len();
        let mut rest = filters;
        let ghost all_filters = rest@;
        while k < n
            invariant
                n == all_filters.len(),
                rest@ == all_filters,
                forall|j: int|
                    0 <= j < all_filters.len() ==> (#[trigger] all_filters[j])@.len() + 40
                        <= usize::MAX,
                k <= n,
                tabs@.len() == k + 1,
                tabs@[0].mode is All,
                tabs@[0].label@.len() == 5,
                forall|j: int|
                    1 <= j < tabs@.len() ==> ((#[trigger] tabs@[j].mode) matches
                        crate::tab::MatchMode::Contains(p) && p@ == all_filters[j - 1]@),
                forall|j: int|
                    1 <= j < tabs@.len() ==> (#[trigger] tabs@[j]).label@ == all_filters[j - 1]@,
                forall|j: int|
                    0 <= j < tabs@.len() ==> (#[trigger] tabs@[j]).total_matches == 0
                        && tabs@[j].seen_matches == 0 && tabs@[j].lines@.len() == 0,
            decreases n - k,
        {
            let f = rest[k].clone();
            tabs.push(Tab::new(f));
            k += 1;
        }
        proof {
            assert forall|j: int| 0 <= j < tabs@.len() implies (#[trigger] tabs@[j]).inv() by {
                assert(tabs@[j].total_matches == 0);
            }
            assert forall|j: int| 0 <= j < tabs@.len() implies buffer_ordered(
                (#[trigger] tabs@[j]).lines@,
                0u64,
            ) by {
                assert(tabs@[j].lines@.len() == 0);
            }
            assert forall|j: int| 0 <= j < tabs@.len() implies (#[trigger] tabs@[j]).label@.len()
                + 40 <= usize::MAX by {
                if j == 0 {
                    assert(tabs@[0].label@.len() == 5);
                } else {
                    assert(tabs@[j].label@ == all_filters[j - 1]@);
                    assert(all_filters[j - 1]@.len() + 40 <= usize::MAX);
                }
            }
        }
        Coordinator {
            tabs,
            active_index: 0,
            next_seq: 0,
            paused: false,
            pause_snapshot: None,
            selected_line: None,
            dirty: true,
            last_render_state: RenderState { tab_hitboxes: Vec::new(), line_rows: Vec::new() },
        }
    }
}
/// A completed tab switch to `target`: the newly active tab marked seen by
/// its mode's rule, everything else untouched, and a redraw scheduled. With
/// the snapshot bracketing the counters (as the coordinator's invariant
/// keeps it), a live switch leaves nothing unread and a paused switch leaves
/// exactly the matches that arrived after the snapshot.
pub open spec fn switched(c0: Coordinator, c1: Coordinator, target: int) -> bool {
    &&& 0 <= target < c0.tabs@.len()
    &&& c1.active_index == target
    &&& c1.tabs@.len() == c0.tabs@.len()
    &&& forall|j: int| 0 <= j < c0.tabs@.len() && j != target ==> c1.tabs@[j] == c0.tabs@[j]
    &&& c1.tabs@[target].label == c0.tabs@[target].label
    &&& c1.tabs@[target].mode == c0.tabs@[target].mode
    &&& c1.tabs@[target].lines == c0.tabs@[target].lines
    &&& c1.tabs@[target].total_matches == c0.tabs@[target].total_matches
    &&& c1.tabs@[target].seen_matches == seen_after_switch(
        c0.tabs@[target],
        c0.paused,
        c0.pause_snapshot,
        target,
    )
    &&& c1.next_seq == c0.next_seq
    &&& c1.paused == c0.paused
    &&& c1.pause_snapshot == c0.pause_snapshot
    &&& c1.selected_line == c0.selected_line
    &&& c1.last_render_state == c0.last_render_state
    &&& c1.dirty
    &&& !c0.paused && c0.tabs@[target].seen_matches <= c0.tabs@[target].total_matches
        ==> c1.tabs@[target].spec_unread() == 0
    &&& match c0.pause_snapshot {
        Some(s) => {
            (c0.paused && s.match_cutoffs@.len() == c0.tabs@.len()
                && c0.tabs@[target].seen_matches <= s.match_cutoffs@[target]
                <= c0.tabs@[target].total_matches) ==> c1.tabs@[target].spec_unread()
                == c0.tabs@[target].total_matches - s.match_cutoffs@[target]
        },
        None => true,
    }
}

impl Coordinator {
    /// Dispatch one arrived line: append it to every tab whose filter
    /// accepts it, count it as seen right away only on the active tab in
    /// live mode, stamp it with the next arrival index, and schedule a
    /// redraw unless the view is frozen.
    pub fn handle_line(&mut self, line: &str)
        requires
            old(self).inv(),
            old(self).next_seq < u64::MAX,
        ensures
            final(self).inv(),
            final(self).tabs@.len() == old(self).tabs@.len(),
            forall|j: int|
                0 <= j < old(self).tabs@.len() ==> tab_after_line(
                    old(self).tabs@[j],
                    #[trigger] final(self).tabs@[j],
                    j == old(self).active_index && !old(self).paused,
                    old(self).next_seq,
                    line@,
                ),
            final(self).next_seq == old(self).next_seq + 1,
            final(self).active_index == old(self).active_index,
            final(self).paused == old(self).paused,
            final(self).pause_snapshot == old(self).pause_snapshot,
            final(self).selected_line == old(self).selected_line,
            final(self).last_render_state == old(self).last_render_state,
            final(self).dirty == (old(self).dirty || !old(self).paused),
    {
        let ghost c0 = *self;
        proof {
            assert forall|j: int| 0 <= j < self.tabs@.len() implies (
            #[trigger] self.tabs@[j]).total_matches < u64::MAX by {
                assert(self.tabs@[j].total_matches <= self.next_seq);
            }
        }
        let seq = self.next_seq;
        let active = self.active_index;
        let paused = self.paused;
        apply_line_to_tabs(&mut self.tabs, active, paused, seq, line);
        self.next_seq = self.next_seq.saturating_add(1);
        if !paused {
            self.dirty = true;
        }
        proof {
            let n = c0.tabs@.len() as int;
            assert forall|j: int| 0 <= j < n implies (#[trigger] self.tabs@[j]).total_matches
                <= self.next_seq by {
                assert(tab_after_line(
                    c0.tabs@[j],
                    self.tabs@[j],
                    j == c0.active_index && !c0.paused,
                    c0.next_seq,
                    line@,
                ));
            }
            assert forall|j: int| 0 <= j < n implies buffer_ordered(
                (#[trigger] self.tabs@[j]).lines@,
                self.next_seq,
            ) by {
                assert(tab_after_line(
                    c0.tabs@[j],
                    self.tabs@[j],
                    j == c0.active_index && !c0.paused,
                    c0.next_seq,
                    line@,
                ));
                if c0.tabs@[j].mode.spec_matches(line@) {
                    lemma_push_keeps_order(
                        c0.tabs@[j].lines@,
                        self.tabs@[j].lines@,
                        c0.next_seq,
                        line@,
                        c0.next_seq,
                    );
                } else {
                    assert(self.tabs@[j] == c0.tabs@[j]);
                }
            }
            match &self.pause_snapshot {
                Some(s) => {
                    assert forall|j: int| 0 <= j < n implies (
                    #[trigger] self.tabs@[j]).seen_matches <= s.match_cutoffs@[j]
                        <= self.tabs@[j].total_matches by {
                        assert(tab_after_line(
                            c0.tabs@[j],
                            self.tabs@[j],
                            j == c0.active_index && !c0.paused,
                            c0.next_seq,
                            line@,
                        ));
                    }
                },
                None => {},
            }
            assert forall|j: int| 0 <= j < n implies (#[trigger] self.tabs@[j]).label@.len() + 40
                <= usize::MAX by {
                assert(tab_after_line(
                    c0.tabs@[j],
                    self.tabs@[j],
                    j == c0.active_index && !c0.paused,
                    c0.next_seq,
                    line@,
                ));
            }
        }
    }

    /// Record the screen state of the frame just drawn and clear the redraw
    /// flag.
    pub fn store_render_state(&mut self, state: RenderState)
        ensures
            final(self).last_render_state == state,
            !final(self).dirty,
            final(self).tabs == old(self).tabs,
            final(self).active_index == old(self).active_index,
            final(self).next_seq == old(self).next_seq,
            final(self).paused == old(self).paused,
            final(self).pause_snapshot == old(self).pause_snapshot,
            final(self).selected_line == old(self).selected_line,
            old(self).inv() ==> final(self).inv(),
    {
        self.last_render_state = state;
        self.dirty = false;
    }

    /// Note a change of terminal size: the next tick must redraw.
    pub fn note_resize(&mut self)
        ensures
            final(self).dirty,
            final(self).tabs == old(self).tabs,
            final(self).active_index == old(self).active_index,
            final(self).next_seq == old(self).next_seq,
            final(self).paused == old(self).paused,
            final(self).pause_snapshot == old(self).pause_snapshot,
            final(self).selected_line == old(self).selected_line,
            final(self).last_render_state == old(self).last_render_state,
            old(self).inv() ==> final(self).inv(),
    {
        self.dirty = true;
    }
}
impl Coordinator {
    /// Everything except the pin and the redraw flag is untouched.
    pub open spec fn only_pin_and_dirty_changed(c0: Coordinator, c1: Coordinator) -> bool {
        &&& c1.tabs == c0.tabs
        &&& c1.active_index == c0.active_index
        &&& c1.next_seq == c0.next_seq
        &&& c1.paused == c0.paused
        &&& c1.pause_snapshot == c0.pause_snapshot
        &&& c1.last_render_state == c0.last_render_state
    }

    /// Apply one UI event, by the event semantics of the view: tab switches
    /// mark the newly active tab seen against the mode's cutoff, toggling
    /// pause freezes or drops the snapshot, selection events toggle the pin
    /// against the last drawn frame, and quit or a producer error end the
    /// loop.
    pub fn handle_ui(&mut self, msg: UiMessage) -> (r: CoordinatorAction)
        requires
            old(self).inv(),
        ensures
            final(self).inv(),
            ({
                let cold = *old(self);
                let cnew = *final(self);
                match msg {
                    UiMessage::NextTab => switched(
                        cold,
                        cnew,
                        ((cold.active_index + 1) as int) % (cold.tabs@.len() as int),
                    ) && r is Continue,
                    UiMessage::SelectTab(i) => r is Continue && (if i < cold.tabs@.len() {
                        switched(cold, cnew, i as int)
                    } else {
                        cnew == cold
                    }),
                    UiMessage::TogglePause => {
                        &&& r is Continue
                        &&& cnew.dirty
                        &&& cnew.active_index == cold.active_index
                        &&& cnew.next_seq == cold.next_seq
                        &&& cnew.selected_line == cold.selected_line
                        &&& cnew.last_render_state == cold.last_render_state
                        &&& cnew.tabs@.len() == cold.tabs@.len()
                        &&& forall|j: int|
                            0 <= j < cold.tabs@.len() && j != cold.active_index
                                ==> cnew.tabs@[j] == cold.tabs@[j]
                        &&& ({
                            let a = cold.active_index as int;
                            let t0 = cold.tabs@[a];
                            let t1 = cnew.tabs@[a];
                            &&& t1.label == t0.label
                            &&& t1.mode == t0.mode
                            &&& t1.lines == t0.lines
                            &&& t1.total_matches == t0.total_matches
                            &&& t1.seen_matches == seen_after_mark(
                                t0.seen_matches,
                                t0.total_matches,
                                t0.total_matches,
                            )
                            &&& t1.spec_unread() == 0
                        })
                        &&& if !cold.paused {
                            &&& cnew.paused
                            &&& match cnew.pause_snapshot {
                                Some(s) => {
                                    &&& s.line_cutoffs@.len() == cold.tabs@.len()
                                    &&& s.match_cutoffs@.len() == cold.tabs@.len()
                                    &&& forall|j: int|
                                        0 <= j < cold.tabs@.len()
                                            ==> #[trigger] s.line_cutoffs@[j]
                                            == cold.tabs@[j].lines@.len()
                                    &&& forall|j: int|
                                        0 <= j < cold.tabs@.len()
                                            ==> #[trigger] s.match_cutoffs@[j]
                                            == cold.tabs@[j].total_matches
                                },
                                None => false,
                            }
                        } else {
                            &&& !cnew.paused
                            &&& cnew.pause_snapshot is None
                        }
                    },
                    UiMessage::ClearSelection => r is Continue && cnew.selected_line is None
                        && Self::only_pin_and_dirty_changed(cold, cnew) && cnew.dirty == (
                    cold.dirty || cold.selected_line is Some),
                    UiMessage::SelectMiddleVisibleLine => r is Continue && ({
                        let vis = visible_lines_of(cold.last_render_state.line_rows@);
                        if vis.len() > 0 {
                            &&& pin_toggled(
                                cold.selected_line,
                                cnew.selected_line,
                                vis[vis.len() as int / 2],
                            )
                            &&& Self::only_pin_and_dirty_changed(cold, cnew)
                            &&& cnew.dirty
                        } else {
                            cnew == cold
                        }
                    }),
                    UiMessage::MouseLeftDown { column, row } => r is Continue && ({
                        let hit = if row > 2 {
                            None
                        } else {
                            crate::view::spec_first_hit(
                                cold.last_render_state.tab_hitboxes@,
                                column,
                            )
                        };
                        match hit {
                            Some(ti) => if ti < cold.tabs@.len() {
                                switched(cold, cnew, ti as int)
                            } else {
                                &&& cnew.tabs@ == cold.tabs@
                                &&& cnew.active_index == cold.active_index
                                &&& cnew.next_seq == cold.next_seq
                                &&& cnew.paused == cold.paused
                                &&& cnew.pause_snapshot == cold.pause_snapshot
                                &&& cnew.selected_line == cold.selected_line
                                &&& cnew.last_render_state == cold.last_render_state
                                &&& cnew.dirty
                            },
                            None => {
                                let rowsv = cold.last_render_state.line_rows@;
                                if (row as int) < rowsv.len() && rowsv[row as int] is Some {
                                    &&& pin_toggled(
                                        cold.selected_line,
                                        cnew.selected_line,
                                        rowsv[row as int]->0,
                                    )
                                    &&& Self::only_pin_and_dirty_changed(cold, cnew)
                                    &&& cnew.dirty
                                } else {
                                    cnew == cold
                                }
                            },
                        }
                    }),
                    UiMessage::Quit => cnew == cold && r is Quit,
                    UiMessage::Error(e) => cnew == cold && (r matches CoordinatorAction::Fail(m)
                        && m == e),
                }
            }),
    {
        let ghost c0 = *self;
        match msg {
            UiMessage::NextTab => {
                let len = self.tabs.len();
                let next_index = (self.active_index + 1) % len;
                let paused = self.paused;
                let snap = self.pause_snapshot.as_ref();
                select_tab(&mut self.tabs, &mut self.active_index, next_index, paused, snap);
                self.dirty = true;
                proof {
                    lemma_switch_ok(c0, *self, next_index as int);
                    assert(next_index as int == ((c0.active_index + 1) as int) % (
                    c0.tabs@.len() as int));
                }
                CoordinatorAction::Continue
            },
            UiMessage::SelectTab(tab_index) => {
                if tab_index < self.tabs.len() {
                    let paused = self.paused;
                    let snap = self.pause_snapshot.as_ref();
                    select_tab(&mut self.tabs, &mut self.active_index, tab_index, paused, snap);
                    self.dirty = true;
                    proof {
                        lemma_switch_ok(c0, *self, tab_index as int);
                    }
                }
                CoordinatorAction::Continue
            },
            UiMessage::TogglePause => {
                let active = self.active_index;
                if !self.paused {
                    self.paused = true;
                    let snap = PauseSnapshot::capture(&self.tabs);
                    mark_tab_seen_paused(&mut self.tabs, active, &snap.match_cutoffs);
                    self.pause_snapshot = Some(snap);
                } else {
                    self.paused = false;
                    self.pause_snapshot = None;
                    mark_tab_seen_live(&mut self.tabs, active);
                }
                self.dirty = true;
                CoordinatorAction::Continue
            },
            UiMessage::ClearSelection => {
                if self.selected_line.is_some() {
                    self.selected_line = None;
                    self.dirty = true;
                }
                CoordinatorAction::Continue
            },
            UiMessage::SelectMiddleVisibleLine => {
                match middle_visible_line(&self.last_render_state) {
                    Some(line) => {
                        toggle_selected_line(&mut self.selected_line, line);
                        self.dirty = true;
                    },
                    None => {},
                }
                CoordinatorAction::Continue
            },
            UiMessage::MouseLeftDown { column, row } => {
                match crate::view::tab_index_at_position(&self.last_render_state, column, row) {
                    Some(tab_index) => {
                        let paused = self.paused;
                        let snap = self.pause_snapshot.as_ref();
                        select_tab(
                            &mut self.tabs,
                            &mut self.active_index,
                            tab_index,
                            paused,
                            snap,
                        );
                        self.dirty = true;
                        proof {
                            if tab_index < c0.tabs@.len() {
                                lemma_switch_ok(c0, *self, tab_index as int);
                            }
                        }
                    },
                    None => {
                        match line_at_row(&self.last_render_state, row) {
                            Some(line) => {
                                toggle_selected_line(&mut self.selected_line, line);
                                self.dirty = true;
                            },
                            None => {},
                        }
                    },
                }
                CoordinatorAction::Continue
            },
            UiMessage::Quit => CoordinatorAction::Quit,
            UiMessage::Error(e) => CoordinatorAction::Fail(e),
        }
    }
}

/// What a call of the tab-switch operation leaves behind satisfies
/// `switched`, and keeps the coordinator's invariant.
proof fn lemma_switch_ok(c0: Coordinator, c1: Coordinator, target: int)
    requires
        c0.inv(),
        0 <= target < c0.tabs@.len(),
        c1.active_index == target,
        c1.tabs@.len() == c0.tabs@.len(),
        forall|j: int| 0 <= j < c0.tabs@.len() && j != target ==> c1.tabs@[j] == c0.tabs@[j],
        ({
            let t0 = c0.tabs@[target];
            let t1 = c1.tabs@[target];
            &&& t1.label == t0.label
            &&& t1.mode == t0.mode
            &&& t1.lines == t0.lines
            &&& t1.total_matches == t0.total_matches
            &&& t1.seen_matches == seen_after_switch(t0, c0.paused, c0.pause_snapshot, target)
        }),
        c1.next_seq == c0.next_seq,
        c1.paused == c0.paused,
        c1.pause_snapshot == c0.pause_snapshot,
        c1.selected_line == c0.selected_line,
        c1.last_render_state == c0.last_render_state,
        c1.dirty,
    ensures
        switched(c0, c1, target),
        c1.inv(),
{
    let t0 = c0.tabs@[target];
    let t1 = c1.tabs@[target];
    assert(t0.inv());
    assert forall|j: int| 0 <= j < c1.tabs@.len() implies (#[trigger] c1.tabs@[j]).inv() by {
        if j != target {
            assert(c1.tabs@[j] == c0.tabs@[j]);
        }
        assert(c0.tabs@[j].inv());
    }
    assert forall|j: int| 0 <= j < c1.tabs@.len() implies (#[trigger] c1.tabs@[j]).total_matches
        <= c1.next_seq by {
        if j != target {
            assert(c1.tabs@[j] == c0.tabs@[j]);
        }
        assert(c0.tabs@[j].total_matches <= c0.next_seq);
    }
    assert forall|j: int| 0 <= j < c1.tabs@.len() implies buffer_ordered(
        (#[trigger] c1.tabs@[j]).lines@,
        c1.next_seq,
    ) by {
        if j != target {
            assert(c1.tabs@[j] == c0.tabs@[j]);
        }
        assert(buffer_ordered(c0.tabs@[j].lines@, c0.next_seq));
    }
    assert forall|j: int| 0 <= j < c1.tabs@.len() implies (#[trigger] c1.tabs@[j]).label@.len()
        + 40 <= usize::MAX by {
        if j != target {
            assert(c1.tabs@[j] == c0.tabs@[j]);
        }
        assert(c0.tabs@[j].label@.len() + 40 <= usize::MAX);
    }
    match c0.pause_snapshot {
        Some(s) => {
            assert forall|j: int| 0 <= j < c1.tabs@.len() implies (
            #[trigger] c1.tabs@[j]).seen_matches <= s.match_cutoffs@[j]
                <= c1.tabs@[j].total_matches by {
                if j != target {
                    assert(c1.tabs@[j] == c0.tabs@[j]);
                }
                assert(c0.tabs@[j].seen_matches <= s.match_cutoffs@[j]
                    <= c0.tabs@[j].total_matches);
            }
        },
        None => {},
    }
}

} // verus!

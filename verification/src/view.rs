//! The viewport and selection model: which buffered lines are shown, where
//! the window over them starts, and how mouse positions resolve against the
//! last rendered frame.

use crate::tab::{LineRecord, Tab};
use vstd::prelude::*;

verus! {

/// The cross-tab line pin: an arrival index and the pinned text.
#[derive(Debug, Clone)]
pub struct SelectedLine {
    pub seq: u64,
    pub text: String,
}

/// One line as placed on screen: its arrival index, its text, and whether it
/// is the pinned line.
#[derive(Debug, Clone, PartialEq, Eq)]
pub struct RenderedLine {
    pub seq: u64,
    pub text: String,
    pub selected: bool,
}

/// The columns a tab's box occupied on the tab strip, for hit-testing clicks.
#[derive(Debug, Clone, Copy)]
pub struct TabHitbox {
    pub index: usize,
    pub left: u16,
    pub right: u16,
}

/// What the last draw put on screen: the tab hitboxes, and per terminal row
/// the line drawn there, if any. Mouse events are resolved against this, not
/// against the live model.
#[derive(Debug, Clone)]
pub struct RenderState {
    pub tab_hitboxes: Vec<TabHitbox>,
    pub line_rows: Vec<Option<RenderedLine>>,
}

impl Default for RenderState {
    /// The state before anything was drawn: no hitboxes, no rows.
    fn default() -> (r: RenderState)
        ensures
            r.tab_hitboxes@.len() == 0,
            r.line_rows@.len() == 0,
    {
        RenderState { tab_hitboxes: Vec::new(), line_rows: Vec::new() }
    }
}

/// The first screen row of the body window: bottom-anchored, so a partial
/// window hugs the bottom edge.
pub fn first_body_row(body_start_row: usize, body_height: usize, visible_count: usize) -> (r:
    usize)
    requires
        body_start_row + body_height <= usize::MAX,
    ensures
        r == body_start_row + if visible_count <= body_height {
            body_height - visible_count
        } else {
            0
        },
{
    body_start_row + body_height.saturating_sub(visible_count)
}

/// `column` falls inside hitbox `h`.
pub open spec fn hitbox_contains(h: TabHitbox, column: u16) -> bool {
    h.left <= column <= h.right
}

/// The tab index of the first hitbox containing `column`, if any.
pub open spec fn spec_first_hit(hs: Seq<TabHitbox>, column: u16) -> Option<usize>
    decreases hs.len(),
{
    if hs.len() == 0 {
        None
    } else if hitbox_contains(hs[0], column) {
        Some(hs[0].index)
    } else {
        spec_first_hit(hs.drop_first(), column)
    }
}

proof fn lemma_first_hit_skip(hs: Seq<TabHitbox>, column: u16, k: int)
    requires
        0 <= k < hs.len(),
        !hitbox_contains(hs[k], column),
    ensures
        spec_first_hit(hs.skip(k), column) == spec_first_hit(hs.skip(k + 1), column),
{
    assert(hs.skip(k).len() > 0);
    assert(hs.skip(k)[0] == hs[k]);
    assert(hs.skip(k).drop_first() =~= hs.skip(k + 1));
}

/// Resolve a mouse position on the tab strip (rows `0..=2`) to the tab whose
/// box spans that column, if any.
pub fn tab_index_at_position(render_state: &RenderState, column: u16, row: u16) -> (r: Option<
    usize,
>)
    ensures
        r == if row > 2 {
            None
        } else {
            spec_first_hit(render_state.tab_hitboxes@, column)
        },
{
    if row > 2 {
        return None;
    }
    let hs = &render_state.tab_hitboxes;
    let mut k: usize = 0;
    proof {
        assert(hs@.skip(0) =~= hs@);
    }
    while k < hs.len()
        invariant
            row <= 2,
            hs == render_state.tab_hitboxes,
            k <= hs@.len(),
            spec_first_hit(hs@, column) == spec_first_hit(hs@.skip(k as int), column),
        decreases hs@.len() - k,
    {
        let h = hs[k];
        if column >= h.left && column <= h.right {
            proof {
                assert(hs@.skip(k as int).len() > 0);
                assert(hs@.skip(k as int)[0] == h);
                assert(hitbox_contains(h, column));
                assert(spec_first_hit(hs@.skip(k as int), column) == Some(h.index));
            }
            return Some(h.index);
        }
        proof {
            lemma_first_hit_skip(hs@, column, k as int);
        }
        k += 1;
    }
    proof {
        assert(hs@.skip(hs@.len() as int) =~= Seq::<TabHitbox>::empty());
    }
    None
}

/// The line drawn at terminal row `row` in the last frame, if that row held
/// one.
pub fn line_at_row(render_state: &RenderState, row: u16) -> (r: Option<&RenderedLine>)
    ensures
        match r {
            Some(l) => (row as int) < render_state.line_rows@.len()
                && render_state.line_rows@[row as int] == Some(*l),
            None => (row as int) >= render_state.line_rows@.len()
                || render_state.line_rows@[row as int] is None,
        },
{
    if (row as usize) < render_state.line_rows.len() {
        render_state.line_rows[row as usize].as_ref()
    } else {
        None
    }
}

/// Toggle the pin against a clicked line: clicking the pinned line unpins,
/// anything else pins that line.
pub fn toggle_selected_line(selected_line: &mut Option<SelectedLine>, line: &RenderedLine)
    ensures
        match *old(selected_line) {
            Some(cur) => if cur.seq == line.seq {
                *final(selected_line) is None
            } else {
                *final(selected_line) matches Some(s) && s.seq == line.seq && s.text == line.text
            },
            None => *final(selected_line) matches Some(s) && s.seq == line.seq && s.text
                == line.text,
        },
{
    let same = if let Some(cur) = selected_line.as_ref() {
        cur.seq == line.seq
    } else {
        false
    };
    if same {
        *selected_line = None;
    } else {
        *selected_line = Some(SelectedLine { seq: line.seq, text: line.text.clone() });
    }
}

/// The lines present on screen, in row order, with the empty rows left out.
pub open spec fn visible_lines_of(rows: Seq<Option<RenderedLine>>) -> Seq<RenderedLine>
    decreases rows.len(),
{
    if rows.len() == 0 {
        Seq::empty()
    } else {
        let rest = visible_lines_of(rows.drop_first());
        match rows[0] {
            Some(l) => seq![l] + rest,
            None => rest,
        }
    }
}

/// The line at the lower-middle of the rows currently showing one, if any
/// row does.
pub fn middle_visible_line(render_state: &RenderState) -> (r: Option<&RenderedLine>)
    ensures
        match r {
            Some(l) => visible_lines_of(render_state.line_rows@).len() > 0 && *l
                == visible_lines_of(render_state.line_rows@)[visible_lines_of(
                render_state.line_rows@,
            ).len() as int / 2],
            None => visible_lines_of(render_state.line_rows@).len() == 0,
        },
{
    let rows = &render_state.line_rows;
    let ghost all = visible_lines_of(rows@);
    let mut idxs: Vec<usize> = Vec::new();
    let ghost mut done: Seq<RenderedLine> = Seq::empty();
    let mut k: usize = 0;
    proof {
        assert(rows@.skip(0) =~= rows@);
    }
    while k < rows.len()
        invariant
            k <= rows@.len(),
            idxs@.len() == done.len(),
            forall|t: int|
                0 <= t < done.len() ==> #[trigger] idxs@[t] < rows@.len() && rows@[idxs@[t] as int]
                    == Some(done[t]),
            visible_lines_of(rows@) == done + visible_lines_of(rows@.skip(k as int)),
        decreases rows@.len() - k,
    {
        let ghost tail = rows@.skip(k as int);
        proof {
            assert(tail.len() > 0);
            assert(tail[0] == rows@[k as int]);
            assert(tail.drop_first() =~= rows@.skip(k + 1));
        }
        if rows[k].is_some() {
            idxs.push(k);
            proof {
                done = done.push(rows@[k as int]->0);
                assert(visible_lines_of(tail) == seq![tail[0]->0] + visible_lines_of(
                    tail.drop_first(),
                ));
                assert(done + visible_lines_of(rows@.skip(k + 1)) =~= done.drop_last() + (seq![
                    tail[0]->0
                ] + visible_lines_of(tail.drop_first())));
            }
        }
        k += 1;
    }
    proof {
        assert(rows@.skip(rows@.len() as int) =~= Seq::<Option<RenderedLine>>::empty());
        assert(all =~= done);
    }
    if idxs.len() == 0 {
        return None;
    }
    let mid = idxs.len() / 2;
    let row_idx = idxs[mid];
    let r = rows[row_idx].as_ref();
    proof {
        assert(rows@[row_idx as int] == Some(done[mid as int]));
    }
    r
}


/// The slice of a tab's buffer eligible for display: the whole buffer live,
/// or at most the pause-time prefix while paused.
pub open spec fn pool_of(tab: Tab, cutoff_len: int) -> Seq<LineRecord> {
    tab.lines@.take(
        if cutoff_len < tab.lines@.len() {
            cutoff_len
        } else {
            tab.lines@.len() as int
        },
    )
}

/// `r` shows record `rec`, with the given pin mark.
pub open spec fn renders_record(r: RenderedLine, rec: LineRecord, selected: bool) -> bool {
    &&& r.seq == rec.seq
    &&& r.text == rec.text
    &&& r.selected == selected
}

/// The first index in `pool` carrying arrival index `sel_seq`, if any.
pub open spec fn spec_find_seq(pool: Seq<LineRecord>, sel_seq: u64) -> Option<int>
    decreases pool.len(),
{
    if pool.len() == 0 {
        None
    } else if pool[0].seq == sel_seq {
        Some(0)
    } else {
        match spec_find_seq(pool.drop_first(), sel_seq) {
            Some(i) => Some(i + 1),
            None => None,
        }
    }
}

/// Where a pinned line with arrival index `sel_seq` splices into `pool`: the
/// first position whose record is newer, or the end.
pub open spec fn spec_insert_pos(pool: Seq<LineRecord>, sel_seq: u64) -> int
    decreases pool.len(),
{
    if pool.len() == 0 {
        0
    } else if pool[0].seq > sel_seq {
        0
    } else {
        1 + spec_insert_pos(pool.drop_first(), sel_seq)
    }
}

proof fn lemma_find_seq_at(pool: Seq<LineRecord>, sel_seq: u64, k: int)
    requires
        0 <= k < pool.len(),
        pool[k].seq == sel_seq,
        forall|t: int| 0 <= t < k ==> pool[t].seq != sel_seq,
    ensures
        spec_find_seq(pool, sel_seq) == Some(k),
    decreases pool.len(),
{
    if k > 0 {
        lemma_find_seq_at(pool.drop_first(), sel_seq, k - 1);
    }
}

proof fn lemma_find_seq_none(pool: Seq<LineRecord>, sel_seq: u64)
    requires
        forall|t: int| 0 <= t < pool.len() ==> pool[t].seq != sel_seq,
    ensures
        spec_find_seq(pool, sel_seq) is None,
    decreases pool.len(),
{
    if pool.len() > 0 {
        lemma_find_seq_none(pool.drop_first(), sel_seq);
    }
}

proof fn lemma_insert_pos_at(pool: Seq<LineRecord>, sel_seq: u64, p: int)
    requires
        0 <= p <= pool.len(),
        forall|t: int| 0 <= t < p ==> pool[t].seq <= sel_seq,
        p < pool.len() ==> pool[p].seq > sel_seq,
    ensures
        spec_insert_pos(pool, sel_seq) == p,
    decreases pool.len(),
{
    if p > 0 {
        lemma_insert_pos_at(pool.drop_first(), sel_seq, p - 1);
    }
}

/// The pool with the pin spliced in: the matching record is marked when the
/// pinned line is in the pool, and a synthetic line is inserted in arrival
/// order when it is not. The result of `prepare_visible_lines`.
pub open spec fn spliced_pool(
    r: Seq<RenderedLine>,
    pool: Seq<LineRecord>,
    selected_line: Option<SelectedLine>,
) -> bool {
    match selected_line {
        None => r.len() == pool.len() && forall|j: int|
            0 <= j < pool.len() ==> renders_record(#[trigger] r[j], pool[j], false),
        Some(sel) => match spec_find_seq(pool, sel.seq) {
            Some(f) => r.len() == pool.len() && forall|j: int|
                0 <= j < pool.len() ==> renders_record(#[trigger] r[j], pool[j], j == f),
            None => {
                let p = spec_insert_pos(pool, sel.seq);
                &&& r.len() == pool.len() + 1
                &&& forall|j: int|
                    0 <= j < p ==> renders_record(#[trigger] r[j], pool[j], false)
                &&& r[p].seq == sel.seq
                &&& r[p].text == sel.text
                &&& r[p].selected
                &&& forall|j: int|
                    p < j < r.len() ==> renders_record(#[trigger] r[j], pool[j - 1], false)
            },
        },
    }
}

/// The pin argument as a plain optional value.
pub open spec fn pin_of(selected_line: Option<&SelectedLine>) -> Option<SelectedLine> {
    match selected_line {
        Some(sel) => Some(*sel),
        None => None,
    }
}

/// Build the list of lines the body will show for a tab: the eligible prefix
/// of its buffer, with the pin marked in place or spliced in by arrival
/// order as a transient line.
pub fn prepare_visible_lines(
    tab: &Tab,
    cutoff_len: usize,
    selected_line: Option<&SelectedLine>,
) -> (r: Vec<RenderedLine>)
    ensures
        spliced_pool(r@, pool_of(*tab, cutoff_len as int), pin_of(selected_line)),
{
    let ghost pool = pool_of(*tab, cutoff_len as int);
    let total = tab.lines.len();
    let cut = if cutoff_len < total {
        cutoff_len
    } else {
        total
    };
    proof {
        assert(pool.len() == cut);
        assert(forall|t: int| 0 <= t < cut ==> pool[t] == tab.lines@[t]);
    }
    match selected_line {
        None => {
            let mut lines: Vec<RenderedLine> = Vec::new();
            let mut k: usize = 0;
            while k < cut
                invariant
                    cut <= tab.lines@.len(),
                    pool.len() == cut,
                    forall|t: int| 0 <= t < cut ==> pool[t] == tab.lines@[t],
                    k <= cut,
                    lines@.len() == k,
                    forall|j: int|
                        0 <= j < k ==> renders_record(#[trigger] lines@[j], pool[j], false),
                decreases cut - k,
            {
                lines.push(
                    RenderedLine {
                        seq: tab.lines[k].seq,
                        text: tab.lines[k].text.clone(),
                        selected: false,
                    },
                );
                k += 1;
            }
            lines
        },
        Some(sel) => {
            let mut k: usize = 0;
            let mut any = false;
            let mut found: usize = 0;
            while k < cut
                invariant
                    cut <= tab.lines@.len(),
                    pool.len() == cut,
                    forall|t: int| 0 <= t < cut ==> pool[t] == tab.lines@[t],
                    k <= cut,
                    !any ==> forall|t: int| 0 <= t < k ==> pool[t].seq != sel.seq,
                    any ==> found < k && pool[found as int].seq == sel.seq,
                    any ==> forall|t: int| 0 <= t < found ==> pool[t].seq != sel.seq,
                decreases cut - k,
            {
                if !any && tab.lines[k].seq == sel.seq {
                    any = true;
                    found = k;
                }
                k += 1;
            }
            if any {
                proof {
                    lemma_find_seq_at(pool, sel.seq, found as int);
                }
                let mut lines: Vec<RenderedLine> = Vec::new();
                let mut j: usize = 0;
                while j < cut
                    invariant
                        cut <= tab.lines@.len(),
                        pool.len() == cut,
                        forall|t: int| 0 <= t < cut ==> pool[t] == tab.lines@[t],
                        j <= cut,
                        found < cut,
                        lines@.len() == j,
                        forall|t: int|
                            0 <= t < j ==> renders_record(
                                #[trigger] lines@[t],
                                pool[t],
                                t == found,
                            ),
                    decreases cut - j,
                {
                    lines.push(
                        RenderedLine {
                            seq: tab.lines[j].seq,
                            text: tab.lines[j].text.clone(),
                            selected: j == found,
                        },
                    );
                    j += 1;
                }
                proof {
                    assert(spec_find_seq(pool, sel.seq) == Some(found as int));
                }
                lines
            } else {
                proof {
                    lemma_find_seq_none(pool, sel.seq);
                }
                let mut k2: usize = 0;
                let mut got = false;
                let mut pos: usize = cut;
                while k2 < cut
                    invariant
                        cut <= tab.lines@.len(),
                        pool.len() == cut,
                        forall|t: int| 0 <= t < cut ==> pool[t] == tab.lines@[t],
                        k2 <= cut,
                        !got ==> pos == cut,
                        !got ==> forall|t: int| 0 <= t < k2 ==> pool[t].seq <= sel.seq,
                        got ==> pos < k2 && pool[pos as int].seq > sel.seq,
                        got ==> forall|t: int| 0 <= t < pos ==> pool[t].seq <= sel.seq,
                    decreases cut - k2,
                {
                    if !got && tab.lines[k2].seq > sel.seq {
                        got = true;
                        pos = k2;
                    }
                    k2 += 1;
                }
                proof {
                    lemma_insert_pos_at(pool, sel.seq, pos as int);
                }
                let mut lines: Vec<RenderedLine> = Vec::new();
                let mut j: usize = 0;
                while j < pos
                    invariant
                        cut <= tab.lines@.len(),
                        pool.len() == cut,
                        forall|t: int| 0 <= t < cut ==> pool[t] == tab.lines@[t],
                        pos <= cut,
                        j <= pos,
                        lines@.len() == j,
                        forall|t: int|
                            0 <= t < j ==> renders_record(#[trigger] lines@[t], pool[t], false),
                    decreases pos - j,
                {
                    lines.push(
                        RenderedLine {
                            seq: tab.lines[j].seq,
                            text: tab.lines[j].text.clone(),
                            selected: false,
                        },
                    );
                    j += 1;
                }
                lines.push(RenderedLine { seq: sel.seq, text: sel.text.clone(), selected: true });
                let mut j2: usize = pos;
                while j2 < cut
                    invariant
                        cut <= tab.lines@.len(),
                        pool.len() == cut,
                        forall|t: int| 0 <= t < cut ==> pool[t] == tab.lines@[t],
                        pos <= j2 <= cut,
                        lines@.len() == j2 + 1,
                        forall|t: int|
                            0 <= t < pos ==> renders_record(#[trigger] lines@[t], pool[t], false),
                        lines@[pos as int].seq == sel.seq,
                        lines@[pos as int].text == sel.text,
                        lines@[pos as int].selected,
                        forall|t: int|
                            pos < t < lines@.len() ==> renders_record(
                                #[trigger] lines@[t],
                                pool[t - 1],
                                false,
                            ),
                    decreases cut - j2,
                {
                    lines.push(
                        RenderedLine {
                            seq: tab.lines[j2].seq,
                            text: tab.lines[j2].text.clone(),
                            selected: false,
                        },
                    );
                    j2 += 1;
                }
                lines
            }
        },
    }
}

/// The first pinned entry in the spliced list, if one is there.
pub open spec fn spec_first_selected(lines: Seq<RenderedLine>) -> Option<int>
    decreases lines.len(),
{
    if lines.len() == 0 {
        None
    } else if lines[0].selected {
        Some(0)
    } else {
        match spec_first_selected(lines.drop_first()) {
            Some(i) => Some(i + 1),
            None => None,
        }
    }
}

proof fn lemma_first_selected_at(lines: Seq<RenderedLine>, k: int)
    requires
        0 <= k < lines.len(),
        lines[k].selected,
        forall|t: int| 0 <= t < k ==> !lines[t].selected,
    ensures
        spec_first_selected(lines) == Some(k),
    decreases lines.len(),
{
    if k > 0 {
        lemma_first_selected_at(lines.drop_first(), k - 1);
    }
}

proof fn lemma_first_selected_none(lines: Seq<RenderedLine>)
    requires
        forall|t: int| 0 <= t < lines.len() ==> !lines[t].selected,
    ensures
        spec_first_selected(lines) is None,
    decreases lines.len(),
{
    if lines.len() > 0 {
        lemma_first_selected_none(lines.drop_first());
    }
}

/// The window the body shows: the start index into the spliced list, how
/// many entries are visible, and the screen row of the first one. Live mode
/// bottom-anchors the last entries; paused mode centers the pinned entry,
/// clamped so the window stays within the list and the body.
pub open spec fn spec_viewport(
    body_start: int,
    height: int,
    lines: Seq<RenderedLine>,
    paused: bool,
) -> (int, int, int) {
    let n = lines.len() as int;
    let visible = if n < height {
        n
    } else {
        height
    };
    if visible == 0 {
        (0, 0, body_start)
    } else if paused && spec_first_selected(lines) is Some {
        let k = spec_first_selected(lines)->0;
        let half = height / 2;
        let start0 = if k >= half {
            k - half
        } else {
            0
        };
        let max_start = n - visible;
        let start = if start0 > max_start {
            max_start
        } else {
            start0
        };
        let sel_row = if k >= start {
            k - start
        } else {
            0
        };
        let max_first = body_start + (if height >= visible {
            height - visible
        } else {
            0
        });
        let f0 = body_start + (if half >= sel_row {
            half - sel_row
        } else {
            0
        });
        let first = if f0 < body_start {
            body_start
        } else if f0 > max_first {
            max_first
        } else {
            f0
        };
        (start, visible, first)
    } else {
        (n - visible, visible, body_start + height - visible)
    }
}

/// Place the body window over the spliced list, by the bottom-anchoring and
/// pin-centering rules.
pub fn viewport_for_lines(
    body_start_row: usize,
    body_height: usize,
    lines: &[RenderedLine],
    paused: bool,
) -> (r: (usize, usize, usize))
    requires
        body_start_row + body_height <= usize::MAX,
    ensures
        r.0 == spec_viewport(body_start_row as int, body_height as int, lines@, paused).0,
        r.1 == spec_viewport(body_start_row as int, body_height as int, lines@, paused).1,
        r.2 == spec_viewport(body_start_row as int, body_height as int, lines@, paused).2,
{
    let len = lines.len();
    let visible_count = if len < body_height {
        len
    } else {
        body_height
    };
    if visible_count == 0 {
        return (0, 0, body_start_row);
    }
    if paused {
        let mut k: usize = 0;
        let mut any = false;
        let mut sel_idx: usize = 0;
        while k < len
            invariant
                len == lines@.len(),
                k <= len,
                !any ==> forall|t: int| 0 <= t < k ==> !lines@[t].selected,
                any ==> sel_idx < k && lines@[sel_idx as int].selected,
                any ==> forall|t: int| 0 <= t < sel_idx ==> !lines@[t].selected,
            decreases len - k,
        {
            if !any && vstd::slice::slice_index_get(lines, k).selected {
                any = true;
                sel_idx = k;
            }
            k += 1;
        }
        if any {
            proof {
                lemma_first_selected_at(lines@, sel_idx as int);
            }
            let half = body_height / 2;
            let mut start_index = sel_idx.saturating_sub(half);
            let max_start = len - visible_count;
            if start_index > max_start {
                start_index = max_start;
            }
            let selected_row = sel_idx.saturating_sub(start_index);
            let min_first_row = body_start_row;
            let max_first_row = body_start_row + (body_height - visible_count);
            let mut first_row = body_start_row + half.saturating_sub(selected_row);
            if first_row < min_first_row {
                first_row = min_first_row;
            }
            if first_row > max_first_row {
                first_row = max_first_row;
            }
            return (start_index, visible_count, first_row);
        }
        proof {
            lemma_first_selected_none(lines@);
        }
    }
    let start_index = len - visible_count;
    let first_row = first_body_row(body_start_row, body_height, visible_count);
    (start_index, visible_count, first_row)
}

} // verus!

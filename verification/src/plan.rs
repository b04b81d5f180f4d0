//! The render plan: everything one draw pass decides, computed ahead of any
//! terminal output. A plan carries the tab strip layout (boxes, their inner
//! pieces and hitboxes), the pause marker, the body window, and the
//! hit-test state retained for the next mouse event.

use crate::tab::{MatchMode, Tab};
use crate::text::{
    clip_ansi_to_visible_width, clip_to_width, fit_tab_title, format_unread_slot, push_char,
    spaces, spec_clip, spec_clip_ansi, spec_decimal, spec_fit_tab_title, spec_paused_label,
    spec_strip_ansi, spec_tab_limit, spec_unread_slot, strip_ansi, tab_columns_limit,
    tab_shortcut_label, lemma_decimal_len_le_20, paused_label,
};
use crate::view::{
    pin_of, pool_of, prepare_visible_lines, spec_viewport, spliced_pool, viewport_for_lines,
    RenderState, RenderedLine, SelectedLine, TabHitbox,
};
use vstd::prelude::*;
use vstd::string::StrSliceExecFns;
use vstd::string::StringExecFns;

verus! {

/// The palette the inner pieces speak in; the drawing back end maps each
/// tint to a concrete color.
#[derive(Clone, Copy, PartialEq, Eq, Structural, Debug)]
pub enum Tint {
    Dim,
    Badge,
    Plain,
}

/// A run of text drawn in one tint.
#[derive(Debug)]
pub struct StyledPiece {
    pub text: String,
    pub tint: Tint,
}

/// One tab's box on the strip: its columns, its border emphasis, and the
/// clipped inner pieces of its middle row.
#[derive(Debug)]
pub struct TabBoxPlan {
    pub index: usize,
    pub left: u16,
    pub right: u16,
    pub inner_width: usize,
    pub active: bool,
    pub all_tab: bool,
    pub draw_top: bool,
    pub draw_mid: bool,
    pub draw_bottom: bool,
    pub pieces: Vec<StyledPiece>,
    pub pad: usize,
}

/// The pause marker's placement beside the tab strip.
#[derive(Debug)]
pub struct PausedNote {
    pub col: u16,
    pub row: u16,
    pub text: String,
}

/// One body line ready to print: its screen row and its already-clipped text.
#[derive(Debug)]
pub struct BodyLine {
    pub row: u16,
    pub text: String,
    pub selected: bool,
}

/// The outcome of one draw decision pass.
#[derive(Debug)]
pub struct RenderPlan {
    pub boxes: Vec<TabBoxPlan>,
    pub paused_note: Option<PausedNote>,
    pub lines: Vec<RenderedLine>,
    pub body: Vec<BodyLine>,
    pub state: RenderState,
}

/// The shortcut piece at the left of a tab box: the tab's digit between
/// single spaces.
pub open spec fn spec_number_piece(index: int) -> Seq<char> {
    seq![' '] + spec_decimal(index as nat) + seq![' ']
}

/// The inner row of a tab box is these four pieces, each clipped to what is
/// left of the inner width in turn, then padded with spaces.
#[verifier::opaque]
pub open spec fn box_pieces_ok(b: TabBoxPlan, tab: Tab) -> bool {
    let number = spec_number_piece(b.index as int);
    let fixed = number.len() + 6 + 1;
    let budget = if b.inner_width >= fixed {
        b.inner_width - fixed
    } else {
        0
    };
    let title = spec_fit_tab_title(tab.label@, budget as nat);
    let unread = spec_unread_slot(tab.spec_unread());
    let r0 = b.inner_width as nat;
    let p0 = spec_clip(number, r0);
    let r1 = (r0 - p0.len()) as nat;
    let p1 = spec_clip(title, r1);
    let r2 = (r1 - p1.len()) as nat;
    let p2 = spec_clip(unread, r2);
    let r3 = (r2 - p2.len()) as nat;
    let p3 = spec_clip(seq![' '], r3);
    &&& b.pieces@.len() == 4
    &&& b.pieces@[0].text@ == p0 && b.pieces@[0].tint == Tint::Dim
    &&& b.pieces@[1].text@ == p1 && b.pieces@[1].tint == (if tab.mode is All {
        Tint::Dim
    } else {
        Tint::Plain
    })
    &&& b.pieces@[2].text@ == p2 && b.pieces@[2].tint == Tint::Badge
    &&& b.pieces@[3].text@ == p3 && b.pieces@[3].tint == Tint::Plain
    &&& b.pad == r3 - p3.len()
}

/// Geometry and content of the whole strip: one box per leading tab, in
/// order, disjoint, inside the column limit, sized and styled by the tab it
/// shows.
pub open spec fn boxes_wf(
    boxes: Seq<TabBoxPlan>,
    tabs: Seq<Tab>,
    active_index: int,
    limit: int,
    rows: int,
) -> bool {
    &&& boxes.len() <= tabs.len()
    &&& forall|j: int|
        0 <= j < boxes.len() ==> {
            let b = #[trigger] boxes[j];
            &&& b.index == j
            &&& b.left <= b.right
            &&& b.right < limit
            &&& 1 <= b.inner_width
            &&& b.right == b.left + b.inner_width + 1
            &&& b.inner_width == ({
                let desired = spec_number_piece(j).len() + 7 + tabs[j].label@.len() + 2;
                let cap = limit - b.left - 2;
                if desired < cap {
                    desired as int
                } else {
                    cap
                }
            })
            &&& b.active == (j == active_index)
            &&& b.all_tab == (tabs[j].mode is All)
            &&& b.draw_top == (rows >= 1)
            &&& b.draw_mid == (rows >= 2)
            &&& b.draw_bottom == (rows >= 3)
            &&& box_pieces_ok(b, tabs[j])
        }
    &&& (boxes.len() > 0 ==> boxes[0].left == 0)
    &&& forall|j: int| 0 < j < boxes.len() ==> boxes[j - 1].right + 2 == #[trigger] boxes[j].left
}

/// The strip's hitboxes mirror its boxes.
pub open spec fn hitboxes_match(hs: Seq<TabHitbox>, boxes: Seq<TabBoxPlan>) -> bool {
    &&& hs.len() == boxes.len()
    &&& forall|j: int|
        0 <= j < hs.len() ==> (#[trigger] hs[j]).index == boxes[j].index && hs[j].left
            == boxes[j].left && hs[j].right == boxes[j].right
}

/// The line-count cutoff the body uses for the active tab: the pause
/// snapshot's entry clamped to the buffer, or the whole buffer.
pub open spec fn spec_cutoff(cutoffs: Option<&Vec<usize>>, active: int, buf_len: int) -> int {
    match cutoffs {
        Some(c) => if 0 <= active < c@.len() {
            if c@[active] < buf_len {
                c@[active] as int
            } else {
                buf_len
            }
        } else {
            buf_len
        },
        None => buf_len,
    }
}

/// The screen row where the body starts: under a three-row strip, or under
/// two rows on a very short terminal.
pub open spec fn spec_body_start(rows: int) -> int {
    if rows >= 3 {
        3
    } else {
        2
    }
}

/// The body of the plan: when there is room, the spliced pool of the active
/// tab windowed by the viewport rule, each line clipped for the screen — the
/// pinned line plainly after stripping its escapes, the rest with escapes
/// kept.
pub open spec fn body_ok(plan: RenderPlan, pool_tab: Tab, cutoff: int, pin: Option<SelectedLine>, paused: bool, cols: int, rows: int) -> bool {
    let body_start = spec_body_start(rows);
    if cols == 0 || rows == 0 || rows <= body_start {
        plan.body@.len() == 0 && plan.lines@.len() == 0
    } else {
        let h = rows - body_start;
        let vp = spec_viewport(body_start, h, plan.lines@, paused);
        &&& spliced_pool(plan.lines@, pool_of(pool_tab, cutoff), pin)
        &&& plan.body@.len() == vp.1
        &&& forall|j: int|
            0 <= j < vp.1 ==> {
                let bl = #[trigger] plan.body@[j];
                let l = plan.lines@[vp.0 + j];
                &&& bl.row == vp.2 + j
                &&& bl.selected == l.selected
                &&& bl.text@ == if l.selected {
                    spec_clip(spec_strip_ansi(l.text@), cols as nat)
                } else {
                    spec_clip_ansi(l.text@, cols as nat)
                }
            }
    }
}

/// The hit-test rows of the plan: one slot per terminal row, holding exactly
/// the window's lines at the rows where the body put them.
pub open spec fn line_rows_ok(plan: RenderPlan, paused: bool, cols: int, rows: int) -> bool {
    let body_start = spec_body_start(rows);
    &&& plan.state.line_rows@.len() == rows
    &&& if cols == 0 || rows == 0 || rows <= body_start {
        forall|t: int| 0 <= t < rows ==> plan.state.line_rows@[t] is None
    } else {
        let h = rows - body_start;
        let vp = spec_viewport(body_start, h, plan.lines@, paused);
        forall|t: int|
            0 <= t < rows ==> #[trigger] plan.state.line_rows@[t] == if vp.2 <= t < vp.2 + vp.1 {
                Some(plan.lines@[vp.0 + (t - vp.2)])
            } else {
                None
            }
    }
}

/// Clip one inner piece to the columns still free, consuming them.
fn clip_piece(text: &str, remaining: &mut usize, tint: Tint) -> (p: StyledPiece)
    ensures
        p.text@ == spec_clip(text@, *old(remaining) as nat),
        p.tint == tint,
        *final(remaining) == *old(remaining) - p.text@.len(),
{
    let s = clip_to_width(text, *remaining);
    let w = s.unicode_len();
    *remaining = *remaining - w;
    StyledPiece { text: s, tint }
}

/// Bounds every window respects: it lies inside the list and inside the
/// body's rows.
pub proof fn lemma_viewport_bounds(
    body_start: int,
    height: int,
    lines: Seq<RenderedLine>,
    paused: bool,
)
    requires
        body_start >= 0,
        height >= 0,
    ensures
        ({
            let vp = spec_viewport(body_start, height, lines, paused);
            &&& 0 <= vp.0
            &&& vp.0 + vp.1 <= lines.len()
            &&& 0 <= vp.1 <= height
            &&& body_start <= vp.2
            &&& vp.2 + vp.1 <= body_start + height
        }),
{
}

/// Lay out one tab's box at column `x`: size it to its label within the
/// columns left, and clip its four inner pieces in turn.
#[verifier::rlimit(100)]
fn make_tab_box(tab: &Tab, index: usize, active: bool, x: u16, limit: usize, rows: u16) -> (b:
    TabBoxPlan)
    requires
        tab.label@.len() + 40 <= usize::MAX,
        (x as int) < limit,
        limit - x >= 3,
        limit <= u16::MAX,
    ensures
        b.index == index,
        b.left == x,
        b.right == b.left + b.inner_width + 1,
        1 <= b.inner_width,
        (b.right as int) < limit,
        b.inner_width == ({
            let desired = spec_number_piece(index as int).len() + 7 + tab.label@.len() + 2;
            let cap = limit - x - 2;
            if desired < cap {
                desired as int
            } else {
                cap
            }
        }),
        b.active == active,
        b.all_tab == (tab.mode is All),
        b.draw_top == (rows >= 1),
        b.draw_mid == (rows >= 2),
        b.draw_bottom == (rows >= 3),
        box_pieces_ok(b, *tab),
{
    proof {
        reveal(box_pieces_ok);
    }
    let shortcut = tab_shortcut_label(index);
    let mut number = String::new();
    push_char(&mut number, ' ');
    number.append(shortcut.as_str());
    push_char(&mut number, ' ');
    proof {
        assert(number@ =~= spec_number_piece(index as int));
        lemma_decimal_len_le_20(index as u64);
    }
    let unread_piece = format_unread_slot(tab.unread_matches());
    let number_len = number.unicode_len();
    let fixed_inner_width = number_len + 6 + 1;
    let full_title_width = tab.label.unicode_len() + 2;
    let desired_inner_width = fixed_inner_width + full_title_width;
    let remaining_cols = limit - (x as usize);
    let inner_width = if desired_inner_width < remaining_cols - 2 {
        desired_inner_width
    } else {
        remaining_cols - 2
    };
    let title_budget = if inner_width >= fixed_inner_width {
        inner_width - fixed_inner_width
    } else {
        0
    };
    let title_piece = fit_tab_title(tab.label.as_str(), title_budget);
    let right = x + (inner_width as u16) + 1;
    let all_tab = match &tab.mode {
        MatchMode::All => true,
        MatchMode::Contains(_) => false,
    };
    let mut remaining_inner = inner_width;
    let p0 = clip_piece(number.as_str(), &mut remaining_inner, Tint::Dim);
    let p1 = clip_piece(
        title_piece.as_str(),
        &mut remaining_inner,
        if all_tab {
            Tint::Dim
        } else {
            Tint::Plain
        },
    );
    let p2 = clip_piece(unread_piece.as_str(), &mut remaining_inner, Tint::Badge);
    proof {
        reveal_strlit(" ");
        assert(" "@ =~= seq![' ']);
    }
    let p3 = clip_piece(" ", &mut remaining_inner, Tint::Plain);
    let mut pieces: Vec<StyledPiece> = Vec::new();
    pieces.push(p0);
    pieces.push(p1);
    pieces.push(p2);
    pieces.push(p3);
    TabBoxPlan {
        index,
        left: x,
        right,
        inner_width,
        active,
        all_tab,
        draw_top: rows >= 1,
        draw_mid: rows >= 2,
        draw_bottom: rows >= 3,
        pieces,
        pad: remaining_inner,
    }
}

/// Compute one draw pass without touching the terminal: lay out the tab
/// strip within the column limit, place the pause marker, window the active
/// tab's lines, and record the hit-test state for the next mouse event.
#[verifier::rlimit(100)]
pub fn build_render_plan(
    tabs: &Vec<Tab>,
    active_index: usize,
    paused: bool,
    pause_line_cutoffs: Option<&Vec<usize>>,
    selected_line: Option<&SelectedLine>,
    cols: u16,
    rows: u16,
) -> (plan: RenderPlan)
    requires
        active_index < tabs@.len(),
        forall|j: int|
            0 <= j < tabs@.len() ==> (#[trigger] tabs@[j]).label@.len() + 40 <= usize::MAX,
    ensures
        boxes_wf(
            plan.boxes@,
            tabs@,
            active_index as int,
            spec_tab_limit(cols as int, paused),
            rows as int,
        ),
        hitboxes_match(plan.state.tab_hitboxes@, plan.boxes@),
        cols == 0 || rows == 0 ==> plan.boxes@.len() == 0,
        spec_tab_limit(cols as int, paused) < 3 ==> plan.boxes@.len() == 0,
        cols > 0 && rows > 0 && plan.boxes@.len() < tabs@.len() ==> (plan.boxes@.len() == 0
            && spec_tab_limit(cols as int, paused) < 3) || (plan.boxes@.len() > 0
            && spec_tab_limit(cols as int, paused) < plan.boxes@.last().right + 5),
        body_ok(
            plan,
            tabs@[active_index as int],
            spec_cutoff(
                pause_line_cutoffs,
                active_index as int,
                tabs@[active_index as int].lines@.len() as int,
            ),
            pin_of(selected_line),
            paused,
            cols as int,
            rows as int,
        ),
        line_rows_ok(plan, paused, cols as int, rows as int),
        ({
            let start_col = if plan.boxes@.len() > 0 {
                plan.boxes@.last().right + 1
            } else {
                0int
            };
            let note_text = spec_clip(spec_paused_label(), (cols - start_col) as nat);
            if paused && cols > 0 && rows > 0 && start_col < cols && note_text.len() > 0 {
                plan.paused_note matches Some(n) && n.col == start_col && n.row == (
                if rows >= 2 {
                    1int
                } else {
                    0
                }) && n.text@ == note_text
            } else {
                plan.paused_note is None
            }
        }),
{
    let rows_usize = rows as usize;
    let cols_usize = cols as usize;
    let mut line_rows: Vec<Option<RenderedLine>> = Vec::new();
    let mut t: usize = 0;
    while t < rows_usize
        invariant
            t <= rows_usize,
            line_rows@.len() == t,
            forall|u: int| 0 <= u < t ==> #[trigger] line_rows@[u] is None,
        decreases rows_usize - t,
    {
        line_rows.push(None);
        t += 1;
    }
    if rows == 0 || cols == 0 {
        return RenderPlan {
            boxes: Vec::new(),
            paused_note: None,
            lines: Vec::new(),
            body: Vec::new(),
            state: RenderState { tab_hitboxes: Vec::new(), line_rows },
        };
    }
    let limit = tab_columns_limit(cols_usize, paused);
    let mut boxes: Vec<TabBoxPlan> = Vec::new();
    let mut hitboxes: Vec<TabHitbox> = Vec::new();
    let mut x: u16 = 0;
    let mut i: usize = 0;
    while i < tabs.len()
        invariant
            active_index < tabs@.len(),
            forall|j: int|
                0 <= j < tabs@.len() ==> (#[trigger] tabs@[j]).label@.len() + 40 <= usize::MAX,
            cols >= 1,
            rows >= 1,
            limit == spec_tab_limit(cols as int, paused),
            limit <= cols_usize,
            cols_usize == cols,
            i <= tabs@.len(),
            boxes@.len() == i,
            boxes_wf(boxes@, tabs@, active_index as int, limit as int, rows as int),
            hitboxes_match(hitboxes@, boxes@),
            boxes@.len() > 0 ==> limit >= 3,
            boxes@.len() > 0 ==> (x as int) > boxes@.last().right,
            boxes@.len() == 0 ==> x == 0,
            boxes@.len() > 0 ==> ((x as int) == boxes@.last().right + 2 || ((x as int)
                == boxes@.last().right + 1 && (boxes@.last().right + 1 >= limit || boxes@.len()
                == tabs@.len()))),
        ensures
            boxes@.len() <= tabs@.len(),
            boxes_wf(boxes@, tabs@, active_index as int, limit as int, rows as int),
            hitboxes_match(hitboxes@, boxes@),
            boxes@.len() > 0 ==> limit >= 3,
            boxes@.len() < tabs@.len() ==> (boxes@.len() == 0 && limit < 3) || (boxes@.len() > 0
                && limit < boxes@.last().right + 5),
        decreases tabs@.len() - i,
    {
        if x as usize >= limit {
            break;
        }
        let remaining_cols = limit - (x as usize);
        if remaining_cols < 3 {
            break;
        }
        let b = make_tab_box(&tabs[i], i, i == active_index, x, limit, rows);
        let right = b.right;
        let ghost boxes0 = boxes@;
        boxes.push(b);
        hitboxes.push(TabHitbox { index: i, left: x, right });
        proof {
            assert forall|j: int| 0 <= j < boxes@.len() implies {
                let bb = #[trigger] boxes@[j];
                &&& bb.index == j
                &&& bb.left <= bb.right
                &&& bb.right < limit
                &&& 1 <= bb.inner_width
                &&& bb.right == bb.left + bb.inner_width + 1
                &&& bb.inner_width == ({
                    let desired = spec_number_piece(j).len() + 7 + tabs@[j].label@.len() + 2;
                    let cap = limit - bb.left - 2;
                    if desired < cap {
                        desired as int
                    } else {
                        cap
                    }
                })
                &&& bb.active == (j == active_index as int)
                &&& bb.all_tab == (tabs@[j].mode is All)
                &&& bb.draw_top == (rows as int >= 1)
                &&& bb.draw_mid == (rows as int >= 2)
                &&& bb.draw_bottom == (rows as int >= 3)
                &&& box_pieces_ok(bb, tabs@[j])
            } by {
                if j < boxes0.len() {
                    assert(boxes@[j] == boxes0[j]);
                } else {
                    assert(boxes@[j] == b);
                }
            }
            assert forall|j: int| 0 < j < boxes@.len() implies boxes@[j - 1].right + 2 == (
            #[trigger] boxes@[j]).left by {
                if j < boxes0.len() {
                    assert(boxes@[j] == boxes0[j]);
                    assert(boxes@[j - 1] == boxes0[j - 1]);
                } else {
                    assert(boxes@[j] == b);
                }
            }
        }
        x = right.saturating_add(1);
        if i + 1 < tabs.len() && (x as usize) < limit {
            x = x.saturating_add(1);
        }
        i += 1;
    }
    let tabs_right: u16 = if boxes.len() > 0 {
        boxes[boxes.len() - 1].right
    } else {
        0
    };
    let mut paused_note: Option<PausedNote> = None;
    if paused {
        let start_col: u16 = if tabs_right > 0 {
            tabs_right.saturating_add(1)
        } else {
            0
        };
        if (start_col as usize) < cols_usize {
            let available = cols_usize - start_col as usize;
            let shown = clip_to_width(paused_label(), available);
            if shown.unicode_len() > 0 {
                let paused_row: u16 = if rows >= 2 {
                    1
                } else {
                    0
                };
                paused_note = Some(PausedNote { col: start_col, row: paused_row, text: shown });
            }
        }
    }
    let body_start_row: usize = if rows_usize >= 3 {
        3
    } else {
        2
    };
    if rows_usize <= body_start_row {
        return RenderPlan {
            boxes,
            paused_note,
            lines: Vec::new(),
            body: Vec::new(),
            state: RenderState { tab_hitboxes: hitboxes, line_rows },
        };
    }
    let body_height = rows_usize - body_start_row;
    let buf_len = tabs[active_index].lines.len();
    let cutoff_len = match pause_line_cutoffs {
        Some(c) => if active_index < c.len() {
            if c[active_index] < buf_len {
                c[active_index]
            } else {
                buf_len
            }
        } else {
            buf_len
        },
        None => buf_len,
    };
    let visible_lines = prepare_visible_lines(&tabs[active_index], cutoff_len, selected_line);
    let n_lines = visible_lines.len();
    let vp = viewport_for_lines(body_start_row, body_height, visible_lines.as_slice(), paused);
    let start_index = vp.0;
    let visible_count = vp.1;
    let first_row = vp.2;
    proof {
        lemma_viewport_bounds(
            body_start_row as int,
            body_height as int,
            visible_lines@,
            paused,
        );
    }
    let mut body: Vec<BodyLine> = Vec::new();
    let mut j: usize = 0;
    while j < visible_count
        invariant
            cols >= 1,
            cols_usize == cols,
            rows_usize == rows,
            body_start_row == spec_body_start(rows as int),
            rows_usize > body_start_row,
            body_height == rows_usize - body_start_row,
            start_index == spec_viewport(
                body_start_row as int,
                body_height as int,
                visible_lines@,
                paused,
            ).0,
            visible_count == spec_viewport(
                body_start_row as int,
                body_height as int,
                visible_lines@,
                paused,
            ).1,
            first_row == spec_viewport(
                body_start_row as int,
                body_height as int,
                visible_lines@,
                paused,
            ).2,
            n_lines == visible_lines@.len(),
            start_index + visible_count <= n_lines,
            body_start_row <= first_row,
            first_row + visible_count <= rows_usize,
            j <= visible_count,
            body@.len() == j,
            forall|u: int|
                0 <= u < j ==> {
                    let bl = #[trigger] body@[u];
                    let l = visible_lines@[start_index + u];
                    &&& bl.row == first_row + u
                    &&& bl.selected == l.selected
                    &&& bl.text@ == if l.selected {
                        spec_clip(spec_strip_ansi(l.text@), cols as nat)
                    } else {
                        spec_clip_ansi(l.text@, cols as nat)
                    }
                },
            line_rows@.len() == rows_usize,
            forall|u: int|
                0 <= u < rows_usize ==> #[trigger] line_rows@[u] == if first_row <= u < first_row
                    + j {
                    Some(visible_lines@[start_index + (u - first_row)])
                } else {
                    None
                },
        decreases visible_count - j,
    {
        let l = &visible_lines[start_index + j];
        let row = first_row + j;
        let textv = if l.selected {
            let plain = strip_ansi(l.text.as_str());
            clip_to_width(plain.as_str(), cols_usize)
        } else {
            clip_ansi_to_visible_width(l.text.as_str(), cols_usize)
        };
        body.push(BodyLine { row: row as u16, text: textv, selected: l.selected });
        let slot = &mut line_rows[row];
        *slot = Some(RenderedLine { seq: l.seq, text: l.text.clone(), selected: l.selected });
        j += 1;
    }
    RenderPlan {
        boxes,
        paused_note,
        lines: visible_lines,
        body,
        state: RenderState { tab_hitboxes: hitboxes, line_rows },
    }
}

} // verus!

use streamtabs::{build_render_plan, SelectedLine, Tab, Tint};

fn two_tabs_with_lines() -> Vec<Tab> {
    let mut tabs = vec![Tab::unfiltered(), Tab::new("foo".into())];
    tabs[0].push_line(0, "alpha");
    tabs[0].push_line(1, "beta");
    tabs[1].push_line(2, "foo-line");
    tabs[0].push_line(2, "foo-line");
    tabs
}

#[test]
fn plan_lays_out_disjoint_boxes_with_hitboxes() {
    let tabs = two_tabs_with_lines();
    let plan = build_render_plan(&tabs, 0, false, None, None, 80, 24);
    assert_eq!(plan.boxes.len(), 2);
    assert!(plan.boxes[0].active);
    assert!(!plan.boxes[1].active);
    assert!(plan.boxes[0].right < plan.boxes[1].left);
    assert_eq!(plan.state.tab_hitboxes.len(), 2);
    assert_eq!(plan.state.tab_hitboxes[1].index, 1);
    assert_eq!(plan.state.tab_hitboxes[0].left, plan.boxes[0].left);
    assert!(plan.paused_note.is_none());
}

#[test]
fn short_terminal_hides_body_but_keeps_strip() {
    let tabs = two_tabs_with_lines();
    let plan = build_render_plan(&tabs, 0, false, None, None, 80, 3);
    assert!(plan.body.is_empty());
    assert_eq!(plan.boxes.len(), 2);
    assert!(plan.boxes[0].draw_top);
    assert!(plan.boxes[0].draw_mid);
    assert!(plan.boxes[0].draw_bottom);

    let plan2 = build_render_plan(&tabs, 0, false, None, None, 80, 2);
    assert!(plan2.body.is_empty());
    assert!(!plan2.boxes[0].draw_bottom);
    assert!(plan2.boxes[0].draw_mid);
}

#[test]
fn degenerate_widths_produce_no_strip_and_no_crash() {
    let tabs = two_tabs_with_lines();
    for cols in [0u16, 1, 2] {
        let plan = build_render_plan(&tabs, 0, false, None, None, cols, 24);
        assert!(plan.boxes.is_empty());
        assert!(plan.state.tab_hitboxes.is_empty());
    }
    let plan = build_render_plan(&tabs, 0, false, None, None, 0, 24);
    assert!(plan.body.is_empty());
    let plan = build_render_plan(&tabs, 0, false, None, None, 80, 0);
    assert!(plan.body.is_empty());
    assert!(plan.boxes.is_empty());
}

#[test]
fn body_lines_are_bottom_anchored_and_clipped() {
    let tabs = two_tabs_with_lines();
    let plan = build_render_plan(&tabs, 0, false, None, None, 4, 24);
    assert_eq!(plan.body.len(), 3);
    assert_eq!(plan.body[0].row, 21);
    assert_eq!(plan.body[2].row, 23);
    assert_eq!(plan.body[0].text, "alph");
    assert_eq!(plan.body[2].text, "foo-");
    assert_eq!(
        plan.state.line_rows[23].as_ref().map(|l| l.seq),
        Some(2)
    );
    assert!(plan.state.line_rows[20].is_none());
}

#[test]
fn paused_plan_shows_marker_and_freezes_pool() {
    let mut tabs = two_tabs_with_lines();
    let cutoffs = vec![2usize, 1];
    tabs[0].push_line(3, "after pause");
    let plan = build_render_plan(&tabs, 0, true, Some(&cutoffs), None, 80, 24);
    assert_eq!(plan.body.len(), 2);
    assert_eq!(plan.body[1].text, "beta");
    let note = plan.paused_note.expect("paused marker shown");
    assert_eq!(note.text, " (paused)");
    assert_eq!(note.row, 1);
}

#[test]
fn pinned_line_is_drawn_plain_in_pin_style() {
    let tabs = two_tabs_with_lines();
    let pin = SelectedLine {
        seq: 1,
        text: "\u{1b}[31mbeta\u{1b}[0m".to_owned(),
    };
    let plan = build_render_plan(&tabs, 1, false, None, Some(&pin), 80, 24);
    let pinned_row = plan
        .body
        .iter()
        .find(|l| l.selected)
        .expect("pin spliced into the body");
    assert_eq!(pinned_row.text, "beta");
}

#[test]
fn active_all_tab_title_is_dim_and_badge_styled() {
    let mut tabs = two_tabs_with_lines();
    tabs[1].push_line(5, "foo unseen");
    let plan = build_render_plan(&tabs, 0, false, None, None, 80, 24);
    assert!(plan.boxes[0].all_tab);
    assert!(!plan.boxes[1].all_tab);
    assert_eq!(plan.boxes[0].pieces[1].tint, Tint::Dim);
    assert_eq!(plan.boxes[1].pieces[1].tint, Tint::Plain);
    assert_eq!(plan.boxes[1].pieces[2].tint, Tint::Badge);
    assert_eq!(plan.boxes[1].pieces[2].text, "    \u{2022}2");
    assert_eq!(plan.boxes[0].pieces[0].text, " 0 ");
    assert_eq!(plan.boxes[1].pieces[0].text, " 1 ");
}

use streamtabs::{
    build_render_plan, trim_line_ending, Coordinator, CoordinatorAction, UiMessage,
};

fn coordinator_with(filters: &[&str]) -> Coordinator {
    Coordinator::new(filters.iter().map(|f| f.to_string()).collect())
}

#[test]
fn startup_builds_catch_all_tab_then_filters() {
    let coord = coordinator_with(&["error", "warn"]);
    assert_eq!(coord.tabs.len(), 3);
    assert_eq!(coord.tabs[0].label, "(all)");
    assert_eq!(coord.tabs[1].label, "error");
    assert_eq!(coord.tabs[2].label, "warn");
    assert_eq!(coord.active_index, 0);
    assert!(!coord.paused);
    assert!(coord.dirty);
}

#[test]
fn dispatched_sequence_numbers_strictly_increase() {
    let mut coord = coordinator_with(&["a"]);
    for line in ["a one", "skip", "a two", "a three"] {
        coord.handle_line(line);
    }
    let seqs: Vec<u64> = coord.tabs[1].lines.iter().map(|r| r.seq).collect();
    assert_eq!(seqs, vec![0, 2, 3]);
    let all_seqs: Vec<u64> = coord.tabs[0].lines.iter().map(|r| r.seq).collect();
    assert_eq!(all_seqs, vec![0, 1, 2, 3]);
    assert!(all_seqs.windows(2).all(|w| w[0] < w[1]));
    assert_eq!(coord.next_seq, 4);
}

#[test]
fn switch_to_tab_clears_unread_in_live_mode() {
    let mut coord = coordinator_with(&["foo", "bar"]);
    coord.handle_line("foo only");
    coord.handle_line("bar only");
    coord.handle_line("foo and bar");
    assert_eq!(coord.tabs[1].unread_matches(), 2);
    assert_eq!(coord.tabs[2].unread_matches(), 2);

    let action = coord.handle_ui(UiMessage::SelectTab(1));
    assert!(matches!(action, CoordinatorAction::Continue));
    assert_eq!(coord.active_index, 1);
    assert_eq!(coord.tabs[1].unread_matches(), 0);
    assert_eq!(coord.tabs[2].unread_matches(), 2);
}

#[test]
fn paused_switch_counts_only_post_pause_arrivals() {
    let mut coord = coordinator_with(&["foo", "bar"]);
    coord.handle_line("bar before pause");
    coord.handle_ui(UiMessage::TogglePause);
    assert!(coord.paused);
    coord.handle_line("bar after pause");

    coord.handle_ui(UiMessage::SelectTab(2));
    assert_eq!(coord.active_index, 2);
    assert_eq!(coord.tabs[2].unread_matches(), 1);
}

#[test]
fn toggling_pause_snapshots_and_restores() {
    let mut coord = coordinator_with(&["x"]);
    coord.handle_line("x one");
    coord.handle_ui(UiMessage::TogglePause);
    assert!(coord.paused);
    let snap = coord.pause_snapshot.as_ref().expect("snapshot while paused");
    assert_eq!(snap.line_cutoffs, vec![1, 1]);
    assert_eq!(snap.match_cutoffs, vec![1, 1]);

    coord.handle_line("x two");
    coord.handle_ui(UiMessage::TogglePause);
    assert!(!coord.paused);
    assert!(coord.pause_snapshot.is_none());
    assert_eq!(coord.tabs[0].unread_matches(), 0);
}

#[test]
fn next_tab_wraps_around() {
    let mut coord = coordinator_with(&["a"]);
    coord.handle_ui(UiMessage::NextTab);
    assert_eq!(coord.active_index, 1);
    coord.handle_ui(UiMessage::NextTab);
    assert_eq!(coord.active_index, 0);
}

#[test]
fn quit_and_error_end_the_loop() {
    let mut coord = coordinator_with(&["a"]);
    assert!(matches!(coord.handle_ui(UiMessage::Quit), CoordinatorAction::Quit));
    match coord.handle_ui(UiMessage::Error("stdin broke".to_string())) {
        CoordinatorAction::Fail(message) => assert_eq!(message, "stdin broke"),
        other => panic!("expected a failure action, got {:?}", other),
    }
}

#[test]
fn mouse_click_on_strip_switches_tab() {
    let mut coord = coordinator_with(&["foo"]);
    coord.handle_line("foo unseen");
    let plan = build_render_plan(
        &coord.tabs,
        coord.active_index,
        coord.paused,
        None,
        coord.selected_line.as_ref(),
        80,
        24,
    );
    let second_tab_left = plan.state.tab_hitboxes[1].left;
    coord.store_render_state(plan.state);
    assert!(!coord.dirty);

    coord.handle_ui(UiMessage::MouseLeftDown {
        column: second_tab_left,
        row: 1,
    });
    assert_eq!(coord.active_index, 1);
    assert_eq!(coord.tabs[1].unread_matches(), 0);
    assert!(coord.dirty);
}

#[test]
fn mouse_click_on_body_pins_and_unpins_a_line() {
    let mut coord = coordinator_with(&["beta"]);
    coord.handle_line("alpha");
    coord.handle_line("beta");
    let plan = build_render_plan(
        &coord.tabs,
        coord.active_index,
        coord.paused,
        None,
        coord.selected_line.as_ref(),
        80,
        10,
    );
    let row = plan.body[0].row;
    coord.store_render_state(plan.state);

    coord.handle_ui(UiMessage::MouseLeftDown { column: 0, row });
    let pinned = coord.selected_line.as_ref().expect("line pinned");
    assert_eq!(pinned.seq, 0);
    assert_eq!(pinned.text, "alpha");

    coord.handle_ui(UiMessage::MouseLeftDown { column: 0, row });
    assert!(coord.selected_line.is_none());
}

#[test]
fn clear_selection_is_a_noop_without_a_pin() {
    let mut coord = coordinator_with(&["a"]);
    coord.store_render_state(streamtabs::RenderState {
        tab_hitboxes: Vec::new(),
        line_rows: Vec::new(),
    });
    assert!(!coord.dirty);
    coord.handle_ui(UiMessage::ClearSelection);
    assert!(!coord.dirty);
    assert!(coord.selected_line.is_none());
}

#[test]
fn select_middle_visible_line_pins_from_last_frame() {
    let mut coord = coordinator_with(&["line"]);
    for i in 0..5 {
        coord.handle_line(&format!("line {}", i));
    }
    let plan = build_render_plan(
        &coord.tabs,
        coord.active_index,
        coord.paused,
        None,
        coord.selected_line.as_ref(),
        40,
        12,
    );
    coord.store_render_state(plan.state);
    coord.handle_ui(UiMessage::SelectMiddleVisibleLine);
    let pinned = coord.selected_line.as_ref().expect("middle line pinned");
    assert_eq!(pinned.text, "line 2");
}

#[test]
fn trim_line_ending_accepts_lf_and_crlf() {
    assert_eq!(trim_line_ending("plain\n"), "plain");
    assert_eq!(trim_line_ending("windows\r\n"), "windows");
    assert_eq!(trim_line_ending("no newline"), "no newline");
    assert_eq!(trim_line_ending("keeps\rinner\n"), "keeps\rinner");
    assert_eq!(trim_line_ending(""), "");
    assert_eq!(trim_line_ending("\n"), "");
}

#[test]
fn pin_survives_tab_switch_and_splices_by_seq() {
    let mut coord = coordinator_with(&["foo"]);
    coord.handle_line("alpha");
    coord.handle_line("beta");
    coord.handle_line("foo-line");

    let plan = build_render_plan(
        &coord.tabs,
        coord.active_index,
        coord.paused,
        None,
        coord.selected_line.as_ref(),
        80,
        10,
    );
    let beta_row = plan
        .body
        .iter()
        .find(|l| l.text == "beta")
        .expect("beta drawn on the catch-all tab")
        .row;
    coord.store_render_state(plan.state);

    coord.handle_ui(UiMessage::MouseLeftDown { column: 0, row: beta_row });
    assert_eq!(coord.selected_line.as_ref().map(|l| l.seq), Some(1));

    coord.handle_ui(UiMessage::SelectTab(1));
    let plan = build_render_plan(
        &coord.tabs,
        coord.active_index,
        coord.paused,
        None,
        coord.selected_line.as_ref(),
        80,
        10,
    );
    let texts: Vec<(&str, bool)> = plan
        .body
        .iter()
        .map(|l| (l.text.as_str(), l.selected))
        .collect();
    assert_eq!(texts, vec![("beta", true), ("foo-line", false)]);
}

use streamtabs::{
    line_at_row, middle_visible_line, prepare_visible_lines, tab_index_at_position,
    toggle_selected_line, viewport_for_lines, RenderState, RenderedLine, SelectedLine, Tab,
    TabHitbox,
};

#[test]
fn selected_line_is_injected_into_non_matching_tabs() {
    let mut tab = Tab::new("foo".into());
    tab.push_line(1, "foo first");
    tab.push_line(3, "foo second");
    let selected = SelectedLine {
        seq: 2,
        text: "picked elsewhere".to_owned(),
    };

    let visible = prepare_visible_lines(&tab, tab.lines.len(), Some(&selected));
    assert_eq!(visible.len(), 3);
    assert_eq!(visible[0].seq, 1);
    assert_eq!(visible[1].seq, 2);
    assert_eq!(visible[1].text, "picked elsewhere");
    assert!(visible[1].selected);
    assert_eq!(visible[2].seq, 3);
}

#[test]
fn paused_viewport_centers_selected_line() {
    let lines = (0..20)
        .map(|idx| RenderedLine {
            seq: idx as u64,
            text: idx.to_string(),
            selected: idx == 10,
        })
        .collect::<Vec<_>>();
    let (start, count, first_row) = viewport_for_lines(3, 10, &lines, true);
    assert_eq!(start, 5);
    assert_eq!(count, 10);
    assert_eq!(first_row, 3);
}

#[test]
fn clicking_selected_line_toggles_selection_off() {
    let clicked = RenderedLine {
        seq: 42,
        text: "selected".to_owned(),
        selected: false,
    };
    let mut selected = Some(SelectedLine {
        seq: 42,
        text: "selected".to_owned(),
    });

    toggle_selected_line(&mut selected, &clicked);
    assert!(selected.is_none());

    toggle_selected_line(&mut selected, &clicked);
    assert_eq!(selected.as_ref().map(|line| line.seq), Some(42));
}

#[test]
fn middle_visible_line_picks_middle_rendered_row() {
    let mut render_state = RenderState {
        tab_hitboxes: Vec::new(),
        line_rows: vec![None; 8],
    };
    render_state.line_rows[2] = Some(RenderedLine {
        seq: 10,
        text: "a".to_owned(),
        selected: false,
    });
    render_state.line_rows[3] = Some(RenderedLine {
        seq: 20,
        text: "b".to_owned(),
        selected: false,
    });
    render_state.line_rows[4] = Some(RenderedLine {
        seq: 30,
        text: "c".to_owned(),
        selected: false,
    });

    let picked = middle_visible_line(&render_state).expect("middle line should exist");
    assert_eq!(picked.seq, 20);
}

#[test]
fn pin_marks_existing_record_instead_of_inserting() {
    let mut tab = Tab::new("x".into());
    tab.push_line(4, "x four");
    tab.push_line(9, "x nine");
    let selected = SelectedLine {
        seq: 9,
        text: "x nine".to_owned(),
    };
    let visible = prepare_visible_lines(&tab, tab.lines.len(), Some(&selected));
    assert_eq!(visible.len(), 2);
    assert!(!visible[0].selected);
    assert!(visible[1].selected);
    assert_eq!(visible[1].text, "x nine");
}

#[test]
fn pin_after_all_records_goes_last() {
    let mut tab = Tab::new("x".into());
    tab.push_line(1, "x one");
    let selected = SelectedLine {
        seq: 8,
        text: "late pin".to_owned(),
    };
    let visible = prepare_visible_lines(&tab, tab.lines.len(), Some(&selected));
    assert_eq!(visible.len(), 2);
    assert_eq!(visible[1].seq, 8);
    assert!(visible[1].selected);
}

#[test]
fn live_viewport_shows_last_lines_bottom_anchored() {
    let lines = (0..4)
        .map(|idx| RenderedLine {
            seq: idx as u64,
            text: idx.to_string(),
            selected: false,
        })
        .collect::<Vec<_>>();
    let (start, count, first_row) = viewport_for_lines(3, 10, &lines, false);
    assert_eq!(start, 0);
    assert_eq!(count, 4);
    assert_eq!(first_row, 9);

    let many = (0..25)
        .map(|idx| RenderedLine {
            seq: idx as u64,
            text: idx.to_string(),
            selected: false,
        })
        .collect::<Vec<_>>();
    let (start, count, first_row) = viewport_for_lines(3, 10, &many, false);
    assert_eq!(start, 15);
    assert_eq!(count, 10);
    assert_eq!(first_row, 3);
}

#[test]
fn tab_click_resolves_through_hitboxes() {
    let render_state = RenderState {
        tab_hitboxes: vec![
            TabHitbox { index: 0, left: 0, right: 9 },
            TabHitbox { index: 1, left: 11, right: 20 },
        ],
        line_rows: vec![None; 5],
    };
    assert_eq!(tab_index_at_position(&render_state, 5, 1), Some(0));
    assert_eq!(tab_index_at_position(&render_state, 11, 0), Some(1));
    assert_eq!(tab_index_at_position(&render_state, 10, 2), None);
    assert_eq!(tab_index_at_position(&render_state, 5, 3), None);
}

#[test]
fn line_lookup_honours_row_occupancy() {
    let mut render_state = RenderState {
        tab_hitboxes: Vec::new(),
        line_rows: vec![None; 4],
    };
    render_state.line_rows[3] = Some(RenderedLine {
        seq: 7,
        text: "seven".to_owned(),
        selected: false,
    });
    assert!(line_at_row(&render_state, 0).is_none());
    assert_eq!(line_at_row(&render_state, 3).map(|line| line.seq), Some(7));
    assert!(line_at_row(&render_state, 9).is_none());
}

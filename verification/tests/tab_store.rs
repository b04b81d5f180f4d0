use streamtabs::{
    apply_line_to_tabs, mark_tab_seen_live, mark_tab_seen_paused, select_tab, Tab,
    MAX_STORED_LINES_PER_TAB,
};

#[test]
fn filters_are_applied_independently() {
    let mut tabs = vec![Tab::new("foo".into()), Tab::new("bar".into())];

    apply_line_to_tabs(&mut tabs, 0, false, 0, "foo only");
    apply_line_to_tabs(&mut tabs, 0, false, 1, "bar only");
    apply_line_to_tabs(&mut tabs, 0, false, 2, "foo and bar");

    assert_eq!(tabs[0].total_matches, 2);
    assert_eq!(tabs[1].total_matches, 2);
    assert_eq!(
        tabs[0].lines.back().map(|line| line.text.as_str()),
        Some("foo and bar")
    );
    assert_eq!(
        tabs[1].lines.back().map(|line| line.text.as_str()),
        Some("foo and bar")
    );
    assert_eq!(tabs[1].unread_matches(), 2);
    assert_eq!(tabs[0].unread_matches(), 0);
}

#[test]
fn all_tab_matches_every_line() {
    let all = Tab::unfiltered();
    assert!(all.matches("anything"));
    assert!(all.matches(""));
}

#[test]
fn unread_count_clears_when_tab_is_seen() {
    let mut tabs = vec![Tab::new("foo".into()), Tab::new("bar".into())];

    apply_line_to_tabs(&mut tabs, 0, false, 0, "foo and bar");
    apply_line_to_tabs(&mut tabs, 0, false, 1, "bar only");
    assert_eq!(tabs[1].unread_matches(), 2);

    mark_tab_seen_live(&mut tabs, 1);
    assert_eq!(tabs[1].unread_matches(), 0);
}

#[test]
fn paused_switch_keeps_post_pause_unread() {
    let mut tabs = vec![Tab::new("foo".into()), Tab::new("bar".into())];

    apply_line_to_tabs(&mut tabs, 0, false, 0, "bar before pause");
    let pause_match_cutoffs = tabs.iter().map(|tab| tab.total_matches).collect::<Vec<_>>();

    apply_line_to_tabs(&mut tabs, 0, true, 1, "bar after pause");
    assert_eq!(tabs[1].unread_matches(), 2);

    mark_tab_seen_paused(&mut tabs, 1, &pause_match_cutoffs);
    assert_eq!(tabs[1].unread_matches(), 1);
}

#[test]
fn active_tab_accumulates_unread_while_paused() {
    let mut tabs = vec![Tab::new("foo".into()), Tab::new("bar".into())];

    apply_line_to_tabs(&mut tabs, 0, false, 0, "foo visible");
    assert_eq!(tabs[0].unread_matches(), 0);

    apply_line_to_tabs(&mut tabs, 0, true, 1, "foo hidden while paused");
    assert_eq!(tabs[0].unread_matches(), 1);
}

#[test]
fn empty_filter_matches_every_line() {
    let tab = Tab::new("".into());
    assert!(tab.matches("anything at all"));
    assert!(tab.matches(""));
    assert!(streamtabs::contains_substring("abc", ""));
}

#[test]
fn substring_matching_is_case_sensitive() {
    let tab = Tab::new("Error".into());
    assert!(tab.matches("an Error occurred"));
    assert!(!tab.matches("an error occurred"));
    assert!(!tab.matches("Erro"));
}

#[test]
fn inactive_tab_unread_never_decreases_on_arrivals() {
    let mut tabs = vec![Tab::new("a".into()), Tab::new("b".into())];
    let mut last_unread = 0;
    for (i, line) in ["b one", "none", "b two", "ab", "b three"].iter().enumerate() {
        apply_line_to_tabs(&mut tabs, 0, false, i as u64, line);
        let unread = tabs[1].unread_matches();
        assert!(unread >= last_unread);
        last_unread = unread;
    }
    assert_eq!(last_unread, 4);
}

#[test]
fn select_tab_live_clears_unread() {
    let mut tabs = vec![Tab::new("foo".into()), Tab::new("bar".into())];
    let mut active = 0usize;

    apply_line_to_tabs(&mut tabs, 0, false, 0, "bar only");
    apply_line_to_tabs(&mut tabs, 0, false, 1, "bar again");
    assert_eq!(tabs[1].unread_matches(), 2);

    select_tab(&mut tabs, &mut active, 1, false, None);
    assert_eq!(active, 1);
    assert_eq!(tabs[1].unread_matches(), 0);
}

#[test]
fn select_tab_out_of_range_is_ignored() {
    let mut tabs = vec![Tab::new("foo".into())];
    let mut active = 0usize;
    select_tab(&mut tabs, &mut active, 7, false, None);
    assert_eq!(active, 0);
}

#[test]
fn buffer_is_bounded_by_capacity() {
    let mut tab = Tab::unfiltered();
    for i in 0..(MAX_STORED_LINES_PER_TAB as u64 + 37) {
        tab.push_line(i, "line");
        assert!(tab.lines.len() <= MAX_STORED_LINES_PER_TAB);
    }
    assert_eq!(tab.lines.len(), MAX_STORED_LINES_PER_TAB);
    assert_eq!(tab.total_matches, MAX_STORED_LINES_PER_TAB as u64 + 37);
    assert_eq!(tab.lines.front().map(|line| line.seq), Some(37));
}

#[test]
fn eviction_does_not_change_counters() {
    let mut tab = Tab::new("x".into());
    for i in 0..(MAX_STORED_LINES_PER_TAB as u64 + 5) {
        tab.push_line(i, "x");
    }
    assert_eq!(tab.total_matches, MAX_STORED_LINES_PER_TAB as u64 + 5);
    assert_eq!(tab.seen_matches, 0);
    assert_eq!(tab.unread_matches(), MAX_STORED_LINES_PER_TAB as u64 + 5);
}

#[test]
fn mark_seen_through_never_moves_backward() {
    let mut tab = Tab::new("x".into());
    tab.push_line(0, "x");
    tab.push_line(1, "x");
    tab.push_line(2, "x");
    tab.mark_seen_through(2);
    assert_eq!(tab.seen_matches, 2);
    tab.mark_seen_through(1);
    assert_eq!(tab.seen_matches, 2);
    tab.mark_seen_through(99);
    assert_eq!(tab.seen_matches, 3);
}

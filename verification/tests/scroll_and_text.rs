use tabstrip::model::{AgentStatus, ClientShellAgent, ClientShellPane, ClientShellTab};
use tabstrip::scroll::{
    centered_tab_scroll, last_visible_entry, last_visible_tab, max_tab_scroll, max_tab_strip_scroll,
    overflow_tab_strip, strip_scroll_revealing,
};
use tabstrip::text::{detail_segments, ellipsize_tail, join_segments, strip_agent_name, strip_cwd_leaf, tab_label};
use tabstrip::width::display_width;

fn chars(s: &str) -> Vec<char> {
    s.chars().collect()
}

fn text(v: &[char]) -> String {
    v.iter().collect()
}

#[test]
fn last_visible_tab_counts_the_one_column_gaps() {
    // Tabs start at 0, 7 and 14: only the first two begin inside 10 columns.
    assert_eq!(last_visible_tab(0, &[6, 6, 6], 10), Some(1));
    assert_eq!(last_visible_tab(1, &[6, 6, 6], 10), Some(2));
    assert_eq!(last_visible_tab(0, &[6, 6, 6], 0), None);
    assert_eq!(last_visible_tab(3, &[6, 6, 6], 10), None);
    // A tab that fills the rest of the space still counts as visible.
    assert_eq!(last_visible_tab(0, &[10, 6], 10), Some(0));
}

#[test]
fn last_visible_entry_stacks_groups_flush() {
    assert_eq!(last_visible_entry(0, &[4, 4, 4], 8), Some(1));
    assert_eq!(last_visible_entry(0, &[4, 4, 4], 9), Some(2));
    assert_eq!(last_visible_entry(0, &[4, 4, 4], 0), None);
    assert_eq!(last_visible_entry(5, &[4, 4, 4], 8), None);
}

#[test]
fn max_tab_scroll_shows_the_whole_last_tab() {
    let widths = [6, 6, 6];
    let max = max_tab_scroll(&widths, 10);
    // From 2 the last tab takes 6 of 10 columns; from 1 the two tabs and the
    // gap between them would take 13.
    assert_eq!(max, 2);
    assert_eq!(last_visible_tab(max, &widths, 10), Some(2));
    assert_eq!(max_tab_scroll(&widths, 100), 0);
    assert_eq!(max_tab_scroll(&[], 10), 0);
    assert_eq!(max_tab_scroll(&widths, 0), 0);
    // An 18-column last tab after a 10-column one in 21 columns: only the
    // last tab shows, whole.
    assert_eq!(max_tab_scroll(&[10, 18], 21), 1);
    assert_eq!(max_tab_scroll(&[10, 10], 21), 0);
}

#[test]
fn max_tab_scroll_of_a_last_tab_wider_than_the_bar() {
    // The last tab cannot show whole: the first start from which it begins
    // inside the bar.
    assert_eq!(max_tab_scroll(&[6, 30], 10), 0);
    assert_eq!(max_tab_scroll(&[6, 6, 30], 10), 1);
}

#[test]
fn max_strip_scroll_shows_the_whole_last_group() {
    let heights = [4, 4, 4];
    let max = max_tab_strip_scroll(&heights, 8);
    assert_eq!(max, 1);
    assert_eq!(last_visible_entry(max, &heights, 8), Some(2));
    assert_eq!(max_tab_strip_scroll(&heights, 9), 1);
    assert_eq!(max_tab_strip_scroll(&heights, 12), 0);
    assert_eq!(max_tab_strip_scroll(&[8, 6], 10), 1);
    // A last group taller than the strip: the first start from which it
    // begins inside.
    assert_eq!(max_tab_strip_scroll(&[4, 4, 20], 9), 0);
    assert_eq!(max_tab_strip_scroll(&[4, 4, 20], 8), 1);
}

#[test]
fn strip_overflows_exactly_when_it_can_scroll() {
    assert!(!overflow_tab_strip(&[4, 4, 4], 12));
    assert_eq!(max_tab_strip_scroll(&[4, 4, 4], 12), 0);
    assert!(overflow_tab_strip(&[4, 4, 4], 10));
    assert!(max_tab_strip_scroll(&[4, 4, 4], 10) > 0);
    assert!(overflow_tab_strip(&[8, 6], 10));
    assert!(!overflow_tab_strip(&[], 8));
    assert!(!overflow_tab_strip(&[4, 4, 4], 0));
}

#[test]
fn revealing_a_group_scrolls_just_far_enough() {
    // Group 2 only starts inside 8 rows when scrolled to 1.
    assert_eq!(strip_scroll_revealing(0, 2, &[4, 4, 4], 8), 1);
    // Scrolling back up to a group above the view lands on it.
    assert_eq!(strip_scroll_revealing(2, 0, &[4, 4, 4], 8), 0);
    // The second group of [8, 6] only shows whole in 10 rows from 1.
    assert_eq!(strip_scroll_revealing(0, 1, &[8, 6], 10), 1);
    // A group taller than the strip: it goes to the top.
    assert_eq!(strip_scroll_revealing(0, 1, &[4, 20], 10), 1);
}

#[test]
fn revealing_a_group_in_view_keeps_the_scroll() {
    assert_eq!(strip_scroll_revealing(0, 1, &[4, 4, 4], 8), 0);
    assert_eq!(strip_scroll_revealing(1, 2, &[4, 4, 4], 8), 1);
}

#[test]
fn centered_scroll_picks_the_start_closest_to_the_middle() {
    // From 2 the focused tab spans columns 0-5: centre 3 of 10, distance 4
    // (in half columns); from 1 it is clipped to 3 columns at 7: distance 7.
    assert_eq!(centered_tab_scroll(2, &[6, 6, 6, 6], 10), 2);
    assert_eq!(centered_tab_scroll(1, &[2, 2, 2, 2], 10), 0);
    // Nothing visible: the focused tab itself.
    assert_eq!(centered_tab_scroll(3, &[6, 6, 6, 6], 0), 3);
}

#[test]
fn clamped_reveal_keeps_the_focused_tab_visible() {
    let widths = [6, 6, 6, 6];
    let centered = centered_tab_scroll(3, &widths, 10);
    let max = max_tab_scroll(&widths, 10);
    assert_eq!((centered, max), (3, 3));
    let scroll = centered.min(max);
    let last = last_visible_tab(scroll, &widths, 10).expect("something visible");
    assert!(scroll <= 3 && 3 <= last);
}

#[test]
fn ellipsize_keeps_text_that_fits() {
    assert_eq!(text(&ellipsize_tail(&chars("repo"), 8)), "repo");
    assert_eq!(text(&ellipsize_tail(&chars("karty-bb"), 8)), "karty-bb");
    assert_eq!(text(&ellipsize_tail(&chars(""), 0)), "");
}

#[test]
fn ellipsize_cuts_the_tail() {
    assert_eq!(text(&ellipsize_tail(&chars("kartyb-sprouts-instructions"), 8)), "kartyb-…");
    assert_eq!(text(&ellipsize_tail(&chars("abc"), 1)), "…");
    assert_eq!(text(&ellipsize_tail(&chars("abc"), 0)), "…");
}

#[test]
fn ellipsize_measures_wide_characters() {
    // Each of these characters takes two columns.
    assert_eq!(text(&ellipsize_tail(&chars("日本語テキスト"), 5)), "日本…");
    assert_eq!(text(&ellipsize_tail(&chars("日本"), 3)), "日…");
    assert_eq!(text(&ellipsize_tail(&chars("日本"), 4)), "日本");
}

#[test]
fn display_width_counts_terminal_columns() {
    assert_eq!(display_width(&chars("client-shell")), 12);
    assert_eq!(display_width(&chars("日本")), 4);
    assert_eq!(display_width(&chars("")), 0);
}

#[test]
fn detail_segments_put_the_leaf_first() {
    let leaf = chars("repo");
    let branch = chars("main");
    let both = detail_segments(Some(leaf.as_slice()), Some(branch.as_slice()));
    assert_eq!(both, vec![leaf.clone(), branch.clone()]);
    assert_eq!(detail_segments(None, Some(branch.as_slice())), vec![branch.clone()]);
    assert_eq!(detail_segments(Some(leaf.as_slice()), None), vec![leaf]);
    assert!(detail_segments(None, None).is_empty());
}

#[test]
fn segments_join_with_bullets() {
    let segments = vec![chars("repo"), chars("main"), chars("x")];
    assert_eq!(text(&join_segments(&segments, 3)), "repo • main • x");
    assert_eq!(text(&join_segments(&segments, 1)), "repo");
    assert_eq!(text(&join_segments(&segments, 0)), "");
}

fn tab(label: &str, zoomed: bool) -> ClientShellTab {
    ClientShellTab {
        tab_id: "tab_1".into(),
        workspace_id: "ws_1".into(),
        number: 1,
        label: label.into(),
        custom_label: false,
        zoomed,
        focused: false,
        agent_status: AgentStatus::Idle,
    }
}

#[test]
fn tab_label_marks_zoomed_tabs() {
    assert_eq!(text(&tab_label(&tab("shell", false))), "shell");
    assert_eq!(text(&tab_label(&tab("shell", true))), "shell Z");
}

fn agent(display: Option<&str>, name: Option<&str>, kind: Option<&str>, title: Option<&str>) -> ClientShellAgent {
    ClientShellAgent {
        pane_id: "pane_1".into(),
        display_agent: display.map(Into::into),
        name: name.map(Into::into),
        agent: kind.map(Into::into),
        title: title.map(Into::into),
        agent_status: AgentStatus::Working,
        state_change_seq: 1,
    }
}

#[test]
fn agent_name_falls_back_in_order() {
    let name = |a: &ClientShellAgent| strip_agent_name(a).map(|n| text(&n));
    assert_eq!(name(&agent(Some("pi"), Some("n"), Some("k"), Some("t"))), Some("pi".into()));
    assert_eq!(name(&agent(None, Some("n"), Some("k"), Some("t"))), Some("n".into()));
    assert_eq!(name(&agent(None, None, Some("k"), Some("t"))), Some("k".into()));
    assert_eq!(name(&agent(None, None, None, Some("t"))), Some("t".into()));
    assert_eq!(name(&agent(None, None, None, None)), None);
    // The first name present is taken even when empty, and then hidden.
    assert_eq!(name(&agent(Some(""), Some("n"), None, None)), None);
}

fn pane(cwd: Option<&str>, foreground: Option<&str>) -> ClientShellPane {
    ClientShellPane {
        pane_id: "pane_1".into(),
        tab_id: "tab_1".into(),
        label: None,
        cwd: cwd.map(Into::into),
        foreground_cwd: foreground.map(Into::into),
        focused: true,
    }
}

#[test]
fn cwd_leaf_takes_the_last_path_component() {
    let leaf = |p: &ClientShellPane| strip_cwd_leaf(p).map(|n| text(&n));
    assert_eq!(leaf(&pane(Some("/repo"), None)), Some("repo".into()));
    assert_eq!(leaf(&pane(Some("/a/b"), Some("/x/y/"))), Some("y".into()));
    assert_eq!(leaf(&pane(Some("/repo//"), None)), Some("repo".into()));
    assert_eq!(leaf(&pane(Some("/"), None)), None);
    assert_eq!(leaf(&pane(Some("plain"), None)), Some("plain".into()));
    assert_eq!(leaf(&pane(None, None)), None);
    assert_eq!(leaf(&pane(None, Some("/repo/kartyb-sprouts"))), Some("kartyb-…".into()));
}

use tabstrip::draw::{Buffer, DrawOp};
use tabstrip::drop::tab_drop_indicator_y;
use tabstrip::frame::{render_tab_strip, render_tab_strip_chrome, try_render_tab_strip};
use tabstrip::model::{
    AgentStatus, ClientShellAgent, ClientShellConfig, ClientShellPane, ClientShellSnapshot, ClientShellTab,
    ClientShellWorkspace, Palette, Rect, ShellHitMap, ShellRenderState, Style,
};
use tabstrip::rows::{
    draw_strip_box, render_strip_line_with_badge, render_strip_title_row, strip_text_rect, try_render_strip_line_with_badge,
    try_render_strip_title_row, Badge,
};
use tabstrip::strip::{try_render_tab_strip_group, TabStripEntry, TabStripGroup};

fn parts_palette() -> Palette {
    Palette {
        panel_bg: 1,
        sidebar_bg: 2,
        surface0: 3,
        surface_dim: 4,
        overlay0: 5,
        overlay1: 6,
        text: 7,
        accent: 8,
        accent_fg: 9,
        working: 10,
        blocked: 11,
        done: 12,
        idle: 13,
    }
}

fn parts_config(compact: bool) -> ClientShellConfig {
    ClientShellConfig { palette: parts_palette(), mouse_capture: true, vertical_tabs_compact: compact, status_indicators: true }
}

fn blank_hits() -> ShellHitMap {
    let zero = Rect { x: 0, y: 0, width: 0, height: 0 };
    ShellHitMap { tabs: Vec::new(), agents: Vec::new(), new_tab: zero, tab_scroll_left: zero, tab_scroll_right: zero, sidebar_divider: zero }
}

fn plain() -> Style {
    Style { fg: None, bg: None, bold: false, dim: false }
}

fn pane(id: &str, focused: bool) -> ClientShellPane {
    ClientShellPane {
        pane_id: id.into(),
        tab_id: "tab_1".into(),
        label: None,
        cwd: Some(format!("/repo/{id}")),
        foreground_cwd: None,
        focused,
    }
}

fn agent(pane_id: &str, status: AgentStatus, seq: u64, name: &str) -> ClientShellAgent {
    ClientShellAgent {
        pane_id: pane_id.into(),
        display_agent: Some(name.into()),
        name: None,
        agent: None,
        title: None,
        agent_status: status,
        state_change_seq: seq,
    }
}

fn panes_snapshot(panes: Vec<ClientShellPane>, agents: Vec<ClientShellAgent>) -> ClientShellSnapshot {
    ClientShellSnapshot {
        tabs: vec![ClientShellTab {
            tab_id: "tab_1".into(),
            workspace_id: "ws_1".into(),
            number: 1,
            label: "1".into(),
            custom_label: false,
            zoomed: false,
            focused: true,
            agent_status: AgentStatus::Idle,
        }],
        workspaces: vec![ClientShellWorkspace {
            workspace_id: "ws_1".into(),
            active_tab_id: "tab_1".into(),
            number: 1,
            label: "client-shell".into(),
            focused: true,
            branch: Some("main".into()),
        }],
        panes,
        agents,
        focused_workspace_id: Some("ws_1".into()),
        tab_bar_right: Vec::new(),
        tab_bar_right_separator: " · ".into(),
    }
}

fn entry_of(count: usize) -> TabStripEntry {
    TabStripEntry { tab: 0, workspace: 0, panes: (0..count).collect() }
}

#[test]
fn entry_rows_are_title_details_and_extra_panes() {
    assert_eq!(entry_of(1).line_count(false), 2);
    assert_eq!(entry_of(1).line_count(true), 1);
    assert_eq!(entry_of(3).line_count(false), 4);
    assert_eq!(entry_of(3).line_count(true), 3);
    assert_eq!(entry_of(0).line_count(false), 2);
}

#[test]
fn group_height_adds_the_two_borders() {
    let group = TabStripGroup { workspace: 0, tabs: vec![entry_of(1), entry_of(3)] };
    assert_eq!(group.height(false), 2 + 4 + 2);
    assert_eq!(group.height(true), 1 + 3 + 2);
    let empty = TabStripGroup { workspace: 0, tabs: Vec::new() };
    assert_eq!(empty.height(false), 2);
}

#[test]
fn pane_agent_prefers_urgent_then_recent() {
    let snapshot = panes_snapshot(
        vec![pane("pane_1", true)],
        vec![
            agent("pane_1", AgentStatus::Working, 5, "a"),
            agent("pane_1", AgentStatus::Blocked, 1, "b"),
            agent("pane_1", AgentStatus::Blocked, 3, "c"),
            agent("pane_2", AgentStatus::Blocked, 9, "d"),
        ],
    );
    let entry = entry_of(1);
    assert_eq!(entry.pane_agent(&snapshot, &snapshot.panes[0]), Some(2));
    let lone = panes_snapshot(vec![pane("pane_1", true)], Vec::new());
    assert_eq!(entry.pane_agent(&lone, &lone.panes[0]), None);
}

#[test]
fn pane_agent_takes_the_last_of_equals() {
    let snapshot = panes_snapshot(
        vec![pane("pane_1", true)],
        vec![agent("pane_1", AgentStatus::Done, 2, "a"), agent("pane_1", AgentStatus::Done, 2, "b")],
    );
    assert_eq!(entry_of(1).pane_agent(&snapshot, &snapshot.panes[0]), Some(1));
}

#[test]
fn primary_pane_hosts_the_most_urgent_agent() {
    let snapshot = panes_snapshot(
        vec![pane("pane_1", true), pane("pane_2", false), pane("pane_3", false)],
        vec![agent("pane_1", AgentStatus::Idle, 7, "a"), agent("pane_3", AgentStatus::Working, 1, "b")],
    );
    assert_eq!(entry_of(3).primary_pane(&snapshot), Some(2));
}

#[test]
fn primary_pane_without_agents_is_the_focused_pane() {
    let snapshot = panes_snapshot(vec![pane("pane_1", false), pane("pane_2", true)], Vec::new());
    assert_eq!(entry_of(2).primary_pane(&snapshot), Some(1));
    let unfocused = panes_snapshot(vec![pane("pane_1", false), pane("pane_2", false)], Vec::new());
    assert_eq!(entry_of(2).primary_pane(&unfocused), Some(0));
}

#[test]
fn primary_pane_ties_go_to_the_first_pane() {
    let snapshot = panes_snapshot(
        vec![pane("pane_1", false), pane("pane_2", true)],
        vec![agent("pane_1", AgentStatus::Working, 4, "a"), agent("pane_2", AgentStatus::Working, 4, "b")],
    );
    assert_eq!(entry_of(2).primary_pane(&snapshot), Some(0));
    assert_eq!(TabStripEntry { tab: 0, workspace: 0, panes: Vec::new() }.primary_pane(&snapshot), None);
}

#[test]
fn strip_text_rect_insets_one_column_each_side() {
    let r = Rect { x: 1, y: 2, width: 24, height: 1 };
    assert_eq!(strip_text_rect(r), Rect { x: 2, y: 2, width: 22, height: 1 });
    assert_eq!(strip_text_rect(Rect { x: 0, y: 0, width: 1, height: 1 }), Rect { x: 1, y: 0, width: 0, height: 1 });
}

fn texts_at(buffer: &Buffer) -> Vec<(u16, u16, u16, String)> {
    buffer
        .ops
        .iter()
        .filter_map(|op| match op {
            DrawOp::Text { x, y, width, text, .. } => Some((*x, *y, *width, text.iter().collect())),
            DrawOp::Fill { .. } => None,
        })
        .collect()
}

#[test]
fn strip_box_returns_its_inner_area() {
    let mut buffer = Buffer::new();
    let inner = draw_strip_box(&mut buffer, Rect { x: 0, y: 0, width: 26, height: 4 }, plain());
    assert_eq!(inner, Rect { x: 1, y: 1, width: 24, height: 2 });
    let drawn = texts_at(&buffer);
    assert!(drawn.contains(&(0, 0, 1, "╭".into())));
    assert!(drawn.contains(&(25, 0, 1, "╮".into())));
    assert!(drawn.contains(&(0, 3, 1, "╰".into())));
    assert!(drawn.contains(&(25, 3, 1, "╯".into())));
    assert!(drawn.contains(&(0, 1, 1, "│".into())));
    assert!(drawn.contains(&(12, 3, 1, "─".into())));
}

#[test]
fn strip_box_too_small_is_skipped() {
    let mut buffer = Buffer::new();
    let r = Rect { x: 3, y: 3, width: 4, height: 5 };
    assert_eq!(draw_strip_box(&mut buffer, r, plain()), r);
    let r = Rect { x: 3, y: 3, width: 9, height: 2 };
    assert_eq!(draw_strip_box(&mut buffer, r, plain()), r);
    assert!(buffer.ops.is_empty());
}

fn chars(s: &str) -> Vec<char> {
    s.chars().collect()
}

#[test]
fn title_row_hides_the_label_before_the_title_gets_too_narrow() {
    let config = parts_config(false);
    let mut wide = Buffer::new();
    render_strip_title_row(&mut wide, Rect { x: 2, y: 1, width: 22, height: 1 }, &chars("1"), plain(), &chars("client-shell"), &config);
    assert_eq!(texts_at(&wide), vec![(2, 1, 9, "1".into()), (12, 1, 12, "client-shell".into())]);
    // 12 + 1 + 4 = 17 columns are needed for the label.
    let mut edge = Buffer::new();
    render_strip_title_row(&mut edge, Rect { x: 0, y: 0, width: 17, height: 1 }, &chars("1"), plain(), &chars("client-shell"), &config);
    assert_eq!(texts_at(&edge).len(), 2);
    let mut narrow = Buffer::new();
    render_strip_title_row(&mut narrow, Rect { x: 0, y: 0, width: 16, height: 1 }, &chars("1"), plain(), &chars("client-shell"), &config);
    assert_eq!(texts_at(&narrow), vec![(0, 0, 16, "1".into())]);
}

#[test]
fn badge_row_drops_segments_from_the_right() {
    let config = parts_config(false);
    let segments = vec![chars("repo"), chars("main")];
    let mut wide = Buffer::new();
    render_strip_line_with_badge(&mut wide, Rect { x: 0, y: 0, width: 20, height: 1 }, &segments, plain(), None, &config);
    assert_eq!(texts_at(&wide), vec![(0, 0, 19, "repo • main".into())]);
    let mut narrow = Buffer::new();
    render_strip_line_with_badge(&mut narrow, Rect { x: 0, y: 0, width: 8, height: 1 }, &segments, plain(), None, &config);
    assert_eq!(texts_at(&narrow), vec![(0, 0, 7, "repo".into())]);
}

#[test]
fn badge_name_yields_before_the_icon() {
    let config = parts_config(false);
    let badge = || Some(Badge { name: Some(chars("pi")), status: AgentStatus::Working });
    let segments = vec![chars("repo")];
    // The name shows with 1 + 2 + 1 + 4 = 8 columns.
    let mut wide = Buffer::new();
    render_strip_line_with_badge(&mut wide, Rect { x: 0, y: 0, width: 8, height: 1 }, &segments, plain(), badge(), &config);
    let drawn = texts_at(&wide);
    assert_eq!(drawn[0], (0, 0, 4, "repo".into()));
    assert_eq!(&drawn[1..], &[(4, 0, 4, "pi".into()), (6, 0, 2, " ".into()), (7, 0, 1, "●".into())]);
    let mut narrow = Buffer::new();
    render_strip_line_with_badge(&mut narrow, Rect { x: 0, y: 0, width: 7, height: 1 }, &segments, plain(), badge(), &config);
    let drawn = texts_at(&narrow);
    assert_eq!(drawn[0], (0, 0, 6, "repo".into()));
    assert_eq!(&drawn[1..], &[(6, 0, 1, "●".into())]);
}

#[test]
fn strip_chrome_adds_scroll_buttons_on_overflow() {
    let palette = parts_palette();
    let area = Rect { x: 0, y: 0, width: 26, height: 6 };
    let mut buffer = Buffer::new();
    let mut hits = blank_hits();
    render_tab_strip_chrome(&mut buffer, area, false, false, &palette, &mut hits);
    assert_eq!(hits.new_tab, Rect { x: 0, y: 5, width: 3, height: 1 });
    assert_eq!(hits.tab_scroll_right.width, 0);
    let mut buffer = Buffer::new();
    let mut hits = blank_hits();
    render_tab_strip_chrome(&mut buffer, area, true, true, &palette, &mut hits);
    assert_eq!(hits.tab_scroll_left, Rect { x: 24, y: 5, width: 1, height: 1 });
    assert_eq!(hits.tab_scroll_right, Rect { x: 25, y: 5, width: 1, height: 1 });
    assert_eq!(texts_at(&buffer), vec![(0, 5, 3, " + ".into()), (24, 5, 1, "▲".into()), (25, 5, 1, "▼".into())]);
}

fn many_workspaces(focused: u32) -> ClientShellSnapshot {
    let mut snapshot = panes_snapshot(Vec::new(), Vec::new());
    snapshot.tabs.clear();
    snapshot.workspaces.clear();
    for n in 1..=10u32 {
        snapshot.workspaces.push(ClientShellWorkspace {
            workspace_id: format!("ws_{n}"),
            active_tab_id: format!("tab_{n}"),
            number: n,
            label: format!("space-{n}"),
            focused: n == focused,
            branch: None,
        });
        snapshot.tabs.push(ClientShellTab {
            tab_id: format!("tab_{n}"),
            workspace_id: format!("ws_{n}"),
            number: 1,
            label: n.to_string(),
            custom_label: false,
            zoomed: false,
            focused: n == focused,
            agent_status: AgentStatus::Idle,
        });
    }
    snapshot.focused_workspace_id = Some(format!("ws_{focused}"));
    snapshot
}

fn draw_strip(snapshot: &ClientShellSnapshot, height: u16, state: &mut ShellRenderState) -> ShellHitMap {
    let mut buffer = Buffer::new();
    let mut hits = blank_hits();
    render_tab_strip(&mut buffer, Rect { x: 0, y: 0, width: 26, height }, snapshot, &parts_config(false), state, &mut hits);
    hits
}

#[test]
fn overflowing_strip_scrolls_by_whole_groups() {
    // Each group is 4 rows; 5 rows above the chrome row show one group.
    let snapshot = many_workspaces(1);
    let mut state = ShellRenderState { tab_scroll: 0, reveal_focused_tab: false, tab_drag_insert_index: None };
    let hits = draw_strip(&snapshot, 6, &mut state);
    assert!(hits.tab_scroll_right.width > 0);
    assert_eq!(state.tab_scroll, 0);
    let ids: Vec<&str> = hits.tabs.iter().map(|(_, id)| id.as_str()).collect();
    assert_eq!(ids, vec!["tab_1", "tab_2"]);
    // A scroll past the end is clamped to the first start from which the
    // last group shows whole.
    let mut state = ShellRenderState { tab_scroll: 50, reveal_focused_tab: false, tab_drag_insert_index: None };
    let hits = draw_strip(&snapshot, 6, &mut state);
    assert_eq!(state.tab_scroll, 9);
    let ids: Vec<&str> = hits.tabs.iter().map(|(_, id)| id.as_str()).collect();
    assert_eq!(ids, vec!["tab_10"]);
}

#[test]
fn strip_reveal_brings_the_focused_group_into_view() {
    let snapshot = many_workspaces(7);
    let mut state = ShellRenderState { tab_scroll: 0, reveal_focused_tab: true, tab_drag_insert_index: None };
    let hits = draw_strip(&snapshot, 6, &mut state);
    assert!(!state.reveal_focused_tab);
    assert_eq!(state.tab_scroll, 6);
    assert!(hits.tabs.iter().any(|(_, id)| id == "tab_7"));
    // Nothing to scroll: back to the top.
    let mut state = ShellRenderState { tab_scroll: 3, reveal_focused_tab: true, tab_drag_insert_index: None };
    let hits = draw_strip(&snapshot, 60, &mut state);
    assert_eq!(state.tab_scroll, 0);
    assert_eq!(hits.tabs.len(), 10);
    assert_eq!(hits.tab_scroll_right.width, 0);
}

#[test]
fn drop_row_follows_the_tab_regions() {
    let mut snapshot = panes_snapshot(vec![pane("pane_1", true)], Vec::new());
    let mut second = snapshot.tabs[0].clone();
    second.tab_id = "tab_2".into();
    second.focused = false;
    snapshot.tabs.push(second);
    let mut state = ShellRenderState { tab_scroll: 0, reveal_focused_tab: false, tab_drag_insert_index: None };
    let hits = draw_strip(&snapshot, 24, &mut state);
    // Both tabs in one box, two rows each: titles on rows 1 and 3.
    let ys: Vec<u16> = hits.tabs.iter().map(|(r, _)| r.y).collect();
    assert_eq!(ys, vec![1, 3]);
    let tabs = [0usize, 1];
    assert_eq!(tab_drop_indicator_y(&hits, &snapshot, &tabs, 0), Some(1));
    assert_eq!(tab_drop_indicator_y(&hits, &snapshot, &tabs, 1), Some(2));
    assert_eq!(tab_drop_indicator_y(&hits, &snapshot, &tabs, 2), Some(5));
}

#[test]
fn checked_strip_draws_like_the_plain_one() {
    let snapshot = panes_snapshot(vec![pane("pane_1", true)], vec![agent("pane_1", AgentStatus::Working, 1, "pi")]);
    let area = Rect { x: 0, y: 0, width: 26, height: 24 };
    let mut plain_buffer = Buffer::new();
    let mut plain_state = ShellRenderState { tab_scroll: 0, reveal_focused_tab: true, tab_drag_insert_index: None };
    let mut plain_hits = blank_hits();
    render_tab_strip(&mut plain_buffer, area, &snapshot, &parts_config(false), &mut plain_state, &mut plain_hits);
    let mut buffer = Buffer::new();
    let mut state = ShellRenderState { tab_scroll: 0, reveal_focused_tab: true, tab_drag_insert_index: None };
    let mut hits = blank_hits();
    assert!(try_render_tab_strip(&mut buffer, area, &snapshot, &parts_config(false), &mut state, &mut hits));
    assert_eq!(texts_at(&buffer), texts_at(&plain_buffer));
    assert_eq!(hits.tabs, plain_hits.tabs);
    assert_eq!(state.tab_scroll, plain_state.tab_scroll);
}

#[test]
fn checked_strip_declines_a_label_as_wide_as_the_range() {
    let mut snapshot = panes_snapshot(vec![pane("pane_1", true)], Vec::new());
    snapshot.workspaces[0].label = "w".repeat(65531);
    let mut buffer = Buffer::new();
    let mut state = ShellRenderState { tab_scroll: 2, reveal_focused_tab: true, tab_drag_insert_index: None };
    let mut hits = blank_hits();
    let area = Rect { x: 0, y: 0, width: 26, height: 24 };
    assert!(!try_render_tab_strip(&mut buffer, area, &snapshot, &parts_config(false), &mut state, &mut hits));
    assert!(buffer.ops.is_empty());
    assert_eq!(state.tab_scroll, 2);
    assert!(state.reveal_focused_tab);
    assert!(hits.tabs.is_empty());
    // One column less fits.
    snapshot.workspaces[0].label = "w".repeat(65530);
    assert!(try_render_tab_strip(&mut buffer, area, &snapshot, &parts_config(false), &mut state, &mut hits));
}

#[test]
fn checked_strip_declines_an_agent_name_as_wide_as_the_range() {
    let snapshot = panes_snapshot(vec![pane("pane_1", true)], vec![agent("pane_1", AgentStatus::Idle, 1, &"n".repeat(65530))]);
    let mut buffer = Buffer::new();
    let mut state = ShellRenderState { tab_scroll: 0, reveal_focused_tab: false, tab_drag_insert_index: None };
    let mut hits = blank_hits();
    let area = Rect { x: 0, y: 0, width: 26, height: 24 };
    assert!(!try_render_tab_strip(&mut buffer, area, &snapshot, &parts_config(false), &mut state, &mut hits));
    assert!(buffer.ops.is_empty());
}

#[test]
fn checked_title_row_measures_the_label() {
    let config = parts_config(false);
    let area = Rect { x: 0, y: 0, width: 20, height: 1 };
    let mut buffer = Buffer::new();
    assert!(try_render_strip_title_row(&mut buffer, area, &chars("1"), plain(), &chars("space"), &config));
    assert_eq!(texts_at(&buffer), vec![(0, 0, 14, "1".into()), (15, 0, 5, "space".into())]);
    let mut buffer = Buffer::new();
    let wide: Vec<char> = vec!['w'; 65531];
    assert!(!try_render_strip_title_row(&mut buffer, area, &chars("1"), plain(), &wide, &config));
    assert!(buffer.ops.is_empty());
}

#[test]
fn checked_badge_row_measures_the_name() {
    let config = parts_config(false);
    let area = Rect { x: 0, y: 0, width: 20, height: 1 };
    let segments = vec![chars("repo")];
    let mut buffer = Buffer::new();
    let badge = Some(Badge { name: Some(chars("pi")), status: AgentStatus::Done });
    assert!(try_render_strip_line_with_badge(&mut buffer, area, &segments, plain(), badge, &config));
    assert_eq!(texts_at(&buffer).len(), 4);
    let mut buffer = Buffer::new();
    let wide = Some(Badge { name: Some(vec!['n'; 65530]), status: AgentStatus::Done });
    assert!(!try_render_strip_line_with_badge(&mut buffer, area, &segments, plain(), wide, &config));
    assert!(buffer.ops.is_empty());
    // Without a glyph the name is never measured against the row.
    let unknown = Some(Badge { name: Some(vec!['n'; 65530]), status: AgentStatus::Unknown });
    assert!(try_render_strip_line_with_badge(&mut buffer, area, &segments, plain(), unknown, &config));
}

fn workspace_with_tabs(snapshot: &mut ClientShellSnapshot, ws: u32, tabs: u32, focused_tab: Option<u32>) {
    snapshot.workspaces.push(ClientShellWorkspace {
        workspace_id: format!("ws_{ws}"),
        active_tab_id: format!("tab_{ws}_1"),
        number: ws,
        label: format!("space-{ws}"),
        focused: focused_tab.is_some(),
        branch: None,
    });
    for t in 1..=tabs {
        snapshot.tabs.push(ClientShellTab {
            tab_id: format!("tab_{ws}_{t}"),
            workspace_id: format!("ws_{ws}"),
            number: t,
            label: t.to_string(),
            custom_label: false,
            zoomed: false,
            focused: focused_tab == Some(t),
            agent_status: AgentStatus::Idle,
        });
    }
}

#[test]
fn strip_reveals_a_focused_tab_in_a_clipped_group() {
    // Groups of 8 and 6 rows in 10 rows: the strip does not fit, and the
    // second tab of the second group would fall below the bottom.
    let mut snapshot = panes_snapshot(Vec::new(), Vec::new());
    snapshot.tabs.clear();
    snapshot.workspaces.clear();
    workspace_with_tabs(&mut snapshot, 1, 3, None);
    workspace_with_tabs(&mut snapshot, 2, 2, Some(2));
    snapshot.focused_workspace_id = Some("ws_2".into());
    let mut state = ShellRenderState { tab_scroll: 0, reveal_focused_tab: true, tab_drag_insert_index: None };
    let hits = draw_strip(&snapshot, 11, &mut state);
    assert_eq!(state.tab_scroll, 1);
    let ids: Vec<&str> = hits.tabs.iter().map(|(_, id)| id.as_str()).collect();
    assert_eq!(ids, vec!["tab_2_1", "tab_2_2"]);
    // Without the reveal, the strip keeps its scroll.
    let mut state = ShellRenderState { tab_scroll: 0, reveal_focused_tab: false, tab_drag_insert_index: None };
    let hits = draw_strip(&snapshot, 11, &mut state);
    assert_eq!(state.tab_scroll, 0);
    assert!(!hits.tabs.iter().any(|(_, id)| id == "tab_2_2"));
}

#[test]
fn strip_sets_the_resize_divider_over_the_content_rows() {
    let snapshot = panes_snapshot(vec![pane("pane_1", true)], Vec::new());
    let mut state = ShellRenderState { tab_scroll: 0, reveal_focused_tab: false, tab_drag_insert_index: None };
    let hits = draw_strip(&snapshot, 24, &mut state);
    assert_eq!(hits.sidebar_divider, Rect { x: 25, y: 0, width: 1, height: 23 });
    // Without mouse capture there is no chrome row.
    let mut config = parts_config(false);
    config.mouse_capture = false;
    let mut buffer = Buffer::new();
    let mut hits = blank_hits();
    let mut state = ShellRenderState { tab_scroll: 0, reveal_focused_tab: false, tab_drag_insert_index: None };
    render_tab_strip(&mut buffer, Rect { x: 2, y: 1, width: 20, height: 10 }, &snapshot, &config, &mut state, &mut hits);
    assert_eq!(hits.sidebar_divider, Rect { x: 21, y: 1, width: 1, height: 10 });
}

fn detail_text_style(snapshot: &ClientShellSnapshot) -> Style {
    let mut buffer = Buffer::new();
    let mut hits = blank_hits();
    let mut state = ShellRenderState { tab_scroll: 0, reveal_focused_tab: false, tab_drag_insert_index: None };
    render_tab_strip(&mut buffer, Rect { x: 0, y: 0, width: 26, height: 24 }, snapshot, &parts_config(false), &mut state, &mut hits);
    buffer
        .ops
        .iter()
        .find_map(|op| match op {
            DrawOp::Text { y: 2, x: 2, style, .. } => Some(*style),
            _ => None,
        })
        .expect("details row text")
}

#[test]
fn details_row_follows_the_primary_pane_focus() {
    let focused = panes_snapshot(vec![pane("pane_1", true)], Vec::new());
    let style = detail_text_style(&focused);
    assert_eq!((style.fg, style.dim), (Some(parts_palette().overlay1), false));
    let unfocused = panes_snapshot(vec![pane("pane_1", false)], Vec::new());
    let style = detail_text_style(&unfocused);
    assert_eq!((style.fg, style.dim), (Some(parts_palette().overlay0), true));
}

#[test]
fn checked_strip_measures_only_what_it_can_draw() {
    let area = Rect { x: 0, y: 0, width: 26, height: 24 };
    // A compact strip never shows the workspace label.
    let mut snapshot = panes_snapshot(vec![pane("pane_1", true)], Vec::new());
    snapshot.workspaces[0].label = "w".repeat(65531);
    let mut buffer = Buffer::new();
    let mut state = ShellRenderState { tab_scroll: 0, reveal_focused_tab: false, tab_drag_insert_index: None };
    let mut hits = blank_hits();
    assert!(try_render_tab_strip(&mut buffer, area, &snapshot, &parts_config(true), &mut state, &mut hits));
    // Without status indicators a badge has no glyph, and its name is never
    // measured against the row.
    let snapshot = panes_snapshot(vec![pane("pane_1", true)], vec![agent("pane_1", AgentStatus::Idle, 1, &"n".repeat(65530))]);
    let mut config = parts_config(false);
    config.status_indicators = false;
    let mut buffer = Buffer::new();
    let mut hits = blank_hits();
    assert!(try_render_tab_strip(&mut buffer, area, &snapshot, &config, &mut state, &mut hits));
    // Nor is the name of an agent whose status is unknown.
    let snapshot = panes_snapshot(vec![pane("pane_1", true)], vec![agent("pane_1", AgentStatus::Unknown, 1, &"n".repeat(65530))]);
    let mut buffer = Buffer::new();
    let mut hits = blank_hits();
    assert!(try_render_tab_strip(&mut buffer, area, &snapshot, &parts_config(false), &mut state, &mut hits));
}

#[test]
fn checked_strip_skips_texts_it_never_draws() {
    let area = Rect { x: 0, y: 0, width: 26, height: 24 };
    // An agent on a pane that no tab shows never gets a badge.
    let snapshot = panes_snapshot(vec![pane("pane_1", true)], vec![agent("pane_9", AgentStatus::Idle, 1, &"n".repeat(65530))]);
    let mut buffer = Buffer::new();
    let mut state = ShellRenderState { tab_scroll: 0, reveal_focused_tab: false, tab_drag_insert_index: None };
    let mut hits = blank_hits();
    assert!(try_render_tab_strip(&mut buffer, area, &snapshot, &parts_config(false), &mut state, &mut hits));
    // A group below the strip's rows is not measured.
    let mut snapshot = panes_snapshot(vec![pane("pane_1", true)], Vec::new());
    snapshot.tabs.push(ClientShellTab {
        tab_id: "tab_2".into(),
        workspace_id: "ws_2".into(),
        number: 2,
        label: "2".into(),
        custom_label: false,
        zoomed: false,
        focused: false,
        agent_status: AgentStatus::Idle,
    });
    snapshot.workspaces.push(ClientShellWorkspace {
        workspace_id: "ws_2".into(),
        active_tab_id: "tab_2".into(),
        number: 2,
        label: "w".repeat(65531),
        focused: false,
        branch: None,
    });
    let short = Rect { x: 0, y: 0, width: 26, height: 5 };
    let mut buffer = Buffer::new();
    let mut state = ShellRenderState { tab_scroll: 0, reveal_focused_tab: false, tab_drag_insert_index: None };
    let mut hits = blank_hits();
    assert!(try_render_tab_strip(&mut buffer, short, &snapshot, &parts_config(false), &mut state, &mut hits));
    let ids: Vec<&str> = hits.tabs.iter().map(|(_, id)| id.as_str()).collect();
    assert_eq!(ids, vec!["tab_1"]);
    // Once it is drawn, its label is.
    let mut buffer = Buffer::new();
    let mut state = ShellRenderState { tab_scroll: 0, reveal_focused_tab: false, tab_drag_insert_index: None };
    let mut hits = blank_hits();
    assert!(!try_render_tab_strip(&mut buffer, area, &snapshot, &parts_config(false), &mut state, &mut hits));
    assert!(buffer.ops.is_empty());
    assert!(hits.tabs.is_empty());
}

#[test]
fn tab_titles_follow_the_line_counts_before_them() {
    let mut snapshot = panes_snapshot(vec![pane("pane_1", true), pane("pane_2", false), pane("pane_3", false)], Vec::new());
    snapshot.tabs.push(ClientShellTab {
        tab_id: "tab_2".into(),
        workspace_id: "ws_1".into(),
        number: 2,
        label: "2".into(),
        custom_label: false,
        zoomed: false,
        focused: false,
        agent_status: AgentStatus::Idle,
    });
    let area = Rect { x: 0, y: 0, width: 26, height: 24 };
    let mut buffer = Buffer::new();
    let mut state = ShellRenderState { tab_scroll: 0, reveal_focused_tab: false, tab_drag_insert_index: None };
    let mut hits = blank_hits();
    render_tab_strip(&mut buffer, area, &snapshot, &parts_config(false), &mut state, &mut hits);
    // The first tab takes its title, details and two extra-pane rows.
    let tabs: Vec<(u16, u16, &str)> = hits.tabs.iter().map(|(r, id)| (r.y, r.height, id.as_str())).collect();
    assert_eq!(tabs, vec![(1, 2, "tab_1"), (5, 2, "tab_2")]);
    let agents: Vec<(u16, &str)> = hits.agents.iter().map(|(r, id)| (r.y, id.as_str())).collect();
    assert_eq!(agents, vec![(3, "pane_2"), (4, "pane_3")]);
}

#[test]
fn checked_group_measures_the_rows_it_shows() {
    let r = Rect { x: 0, y: 0, width: 26, height: 4 };
    let group = TabStripGroup { workspace: 0, tabs: vec![entry_of(1)] };
    let mut snapshot = panes_snapshot(vec![pane("pane_1", true)], Vec::new());
    snapshot.workspaces[0].label = "w".repeat(65531);
    let mut buffer = Buffer::new();
    let mut hits = blank_hits();
    assert!(!try_render_tab_strip_group(&mut buffer, r, &group, &snapshot, &parts_config(false), &mut hits));
    assert!(buffer.ops.is_empty());
    assert!(hits.tabs.is_empty());
    // A compact title row shows no workspace label.
    assert!(try_render_tab_strip_group(&mut buffer, r, &group, &snapshot, &parts_config(true), &mut hits));
    assert_eq!(hits.tabs.len(), 1);
    // The details row measures the primary pane's badge.
    let snapshot = panes_snapshot(vec![pane("pane_1", true)], vec![agent("pane_1", AgentStatus::Idle, 1, &"n".repeat(65530))]);
    let mut buffer = Buffer::new();
    let mut hits = blank_hits();
    assert!(!try_render_tab_strip_group(&mut buffer, r, &group, &snapshot, &parts_config(false), &mut hits));
    assert!(buffer.ops.is_empty());
    // A box too short for the details row does not measure it.
    let short = Rect { x: 0, y: 0, width: 26, height: 3 };
    assert!(try_render_tab_strip_group(&mut buffer, short, &group, &snapshot, &parts_config(false), &mut hits));
}

#[test]
fn checked_group_declines_geometry_past_the_range() {
    let group = TabStripGroup { workspace: 0, tabs: vec![entry_of(1)] };
    let snapshot = panes_snapshot(vec![pane("pane_1", true)], Vec::new());
    let mut buffer = Buffer::new();
    let mut hits = blank_hits();
    // A box whose left border sits on the last column has no inside column.
    let edge = Rect { x: u16::MAX, y: 0, width: 26, height: 4 };
    assert!(!try_render_tab_strip_group(&mut buffer, edge, &group, &snapshot, &parts_config(false), &mut hits));
    // The focused tab's title block would end past the last row.
    let low = Rect { x: 0, y: u16::MAX - 2, width: 26, height: 3 };
    assert!(!try_render_tab_strip_group(&mut buffer, low, &group, &snapshot, &parts_config(false), &mut hits));
    assert!(buffer.ops.is_empty());
    assert!(hits.tabs.is_empty());
    // One row higher it ends on the last row.
    let higher = Rect { x: 0, y: u16::MAX - 3, width: 26, height: 3 };
    assert!(try_render_tab_strip_group(&mut buffer, higher, &group, &snapshot, &parts_config(false), &mut hits));
    assert_eq!(hits.tabs.len(), 1);
}

#[test]
fn checked_strip_declines_a_title_block_past_the_last_row() {
    let snapshot = panes_snapshot(vec![pane("pane_1", true)], Vec::new());
    let area = Rect { x: 0, y: u16::MAX - 1, width: 26, height: 1 };
    let mut buffer = Buffer::new();
    let mut state = ShellRenderState { tab_scroll: 0, reveal_focused_tab: false, tab_drag_insert_index: None };
    let mut hits = blank_hits();
    let mut config = parts_config(false);
    config.mouse_capture = false;
    assert!(!try_render_tab_strip(&mut buffer, area, &snapshot, &config, &mut state, &mut hits));
    assert!(buffer.ops.is_empty());
}

use tabstrip::bar::{tab_bar_content_area, tab_bar_status_area, tab_bar_status_width};
use tabstrip::bar_frame::{render_tab_bar, try_render_tab_bar};
use tabstrip::draw::{Buffer, DrawOp};
use tabstrip::drop::tab_drop_indicator_x;
use tabstrip::model::{
    AgentStatus, ClientShellConfig, ClientShellSnapshot, ClientShellTab, ClientShellWorkspace, Palette, Rect,
    ShellHitMap, TabBarSegment,
};
use unicode_width::UnicodeWidthChar;

fn bar_palette() -> Palette {
    Palette {
        panel_bg: 1,
        sidebar_bg: 2,
        surface0: 3,
        surface_dim: 4,
        overlay0: 5,
        overlay1: 6,
        text: 7,
        accent: 8,
        accent_fg: 9,
        working: 10,
        blocked: 11,
        done: 12,
        idle: 13,
    }
}

fn bar_config(mouse: bool) -> ClientShellConfig {
    ClientShellConfig { palette: bar_palette(), mouse_capture: mouse, vertical_tabs_compact: false, status_indicators: true }
}

fn no_hits() -> ShellHitMap {
    let zero = Rect { x: 0, y: 0, width: 0, height: 0 };
    ShellHitMap { tabs: Vec::new(), agents: Vec::new(), new_tab: zero, tab_scroll_left: zero, tab_scroll_right: zero, sidebar_divider: zero }
}

fn bar_snapshot(count: u32, focused: u32) -> ClientShellSnapshot {
    let tabs = (1..=count)
        .map(|n| ClientShellTab {
            tab_id: format!("tab_{n}"),
            workspace_id: "ws_1".into(),
            number: n,
            label: n.to_string(),
            custom_label: false,
            zoomed: false,
            focused: n == focused,
            agent_status: AgentStatus::Idle,
        })
        .collect();
    ClientShellSnapshot {
        tabs,
        workspaces: vec![ClientShellWorkspace {
            workspace_id: "ws_1".into(),
            active_tab_id: format!("tab_{focused}"),
            number: 1,
            label: "client-shell".into(),
            focused: true,
            branch: None,
        }],
        panes: Vec::new(),
        agents: Vec::new(),
        focused_workspace_id: Some("ws_1".into()),
        tab_bar_right: Vec::new(),
        tab_bar_right_separator: " · ".into(),
    }
}

/// The characters a row of `cols` cells shows after the commands run.
fn bar_row(buffer: &Buffer, cols: u16) -> String {
    let mut row = vec![' '; cols as usize];
    for op in &buffer.ops {
        if let DrawOp::Text { x, y, width, text, .. } = op {
            if *y != 0 {
                continue;
            }
            let mut x = *x;
            let mut remaining = cols.saturating_sub(x).min(*width);
            for ch in text {
                let w = match ch.width() {
                    Some(w) if w > 0 => w as u16,
                    _ => continue,
                };
                if w > remaining {
                    break;
                }
                remaining -= w;
                row[x as usize] = *ch;
                x += w;
            }
        }
    }
    row.into_iter().collect()
}

struct BarFrame {
    row: String,
    hits: ShellHitMap,
    scroll: usize,
}

fn draw_bar(snapshot: &ClientShellSnapshot, config: &ClientShellConfig, width: u16, drag: Option<usize>) -> BarFrame {
    let mut buffer = Buffer::new();
    let mut hits = no_hits();
    let mut scroll = 0;
    let mut reveal = true;
    let area = Rect { x: 0, y: 0, width, height: 1 };
    render_tab_bar(&mut buffer, area, snapshot, config, &mut scroll, &mut reveal, drag, &mut hits);
    assert!(!reveal);
    BarFrame { row: bar_row(&buffer, width), hits, scroll }
}

#[test]
fn bar_lays_tabs_out_left_to_right_with_a_new_tab_button() {
    let frame = draw_bar(&bar_snapshot(3, 1), &bar_config(true), 80, None);
    let rects: Vec<(u16, u16)> = frame.hits.tabs.iter().map(|(r, _)| (r.x, r.width)).collect();
    assert_eq!(rects, vec![(0, 6), (7, 6), (14, 6)]);
    let ids: Vec<&str> = frame.hits.tabs.iter().map(|(_, id)| id.as_str()).collect();
    assert_eq!(ids, vec!["tab_1", "tab_2", "tab_3"]);
    assert_eq!(frame.hits.new_tab, Rect { x: 21, y: 0, width: 3, height: 1 });
    assert_eq!(frame.scroll, 0);
    assert!(frame.row.starts_with("  1      2      3     + "), "{:?}", frame.row);
    // No scroll chrome when the tabs fit.
    assert_eq!(frame.hits.tab_scroll_left.width, 0);
    assert_eq!(frame.hits.tab_scroll_right.width, 0);
}

#[test]
fn bar_without_mouse_has_no_new_tab_button() {
    let frame = draw_bar(&bar_snapshot(2, 1), &bar_config(false), 80, None);
    assert_eq!(frame.hits.new_tab.width, 0);
    assert!(!frame.row.contains('+'));
}

#[test]
fn overflowing_bar_shows_scroll_buttons_and_an_ellipsis() {
    let frame = draw_bar(&bar_snapshot(10, 1), &bar_config(true), 40, None);
    assert_eq!(frame.scroll, 0);
    assert_eq!(frame.hits.tab_scroll_left, Rect { x: 0, y: 0, width: 3, height: 1 });
    assert_eq!(frame.hits.tab_scroll_right, Rect { x: 34, y: 0, width: 3, height: 1 });
    assert_eq!(frame.hits.new_tab, Rect { x: 37, y: 0, width: 3, height: 1 });
    let rects: Vec<(u16, u16)> = frame.hits.tabs.iter().map(|(r, _)| (r.x, r.width)).collect();
    // The fifth tab is cut short at the scroll-right button.
    assert_eq!(rects, vec![(3, 6), (10, 6), (17, 6), (24, 6), (31, 3)]);
    let row: Vec<char> = frame.row.chars().collect();
    assert_eq!(&frame.row[..3], " < ");
    assert_eq!(row[33], '…', "{:?}", frame.row);
    assert_eq!(row.iter().skip(34).take(6).collect::<String>(), " >  + ");
}

#[test]
fn revealing_the_focused_tab_clamps_to_the_last_page() {
    // The best-centred start for the last tab is 7, past the maximum scroll 6,
    // from which the last four tabs show whole.
    let frame = draw_bar(&bar_snapshot(10, 10), &bar_config(true), 40, None);
    assert_eq!(frame.scroll, 6);
    let ids: Vec<&str> = frame.hits.tabs.iter().map(|(_, id)| id.as_str()).collect();
    assert_eq!(ids, vec!["tab_7", "tab_8", "tab_9", "tab_10"]);
    let widths: Vec<u16> = frame.hits.tabs.iter().map(|(r, _)| r.width).collect();
    assert_eq!(widths, vec![6, 6, 6, 6]);
    let row: Vec<char> = frame.row.chars().collect();
    assert_eq!(row[3], '…', "tabs scrolled out on the left: {:?}", frame.row);
    assert_ne!(row[33], '…', "nothing scrolled out on the right: {:?}", frame.row);
}

#[test]
fn drop_marker_stands_before_the_first_tab() {
    let frame = draw_bar(&bar_snapshot(3, 1), &bar_config(true), 80, Some(0));
    assert!(frame.row.starts_with('│'), "{:?}", frame.row);
    let frame = draw_bar(&bar_snapshot(3, 1), &bar_config(true), 80, Some(1));
    assert_eq!(frame.row.chars().nth(6), Some('│'), "{:?}", frame.row);
    let frame = draw_bar(&bar_snapshot(3, 1), &bar_config(true), 80, Some(3));
    assert_eq!(frame.row.chars().nth(20), Some('│'), "{:?}", frame.row);
}

#[test]
fn drop_column_follows_the_hit_regions() {
    let snapshot = bar_snapshot(3, 1);
    let frame = draw_bar(&snapshot, &bar_config(true), 80, None);
    let tabs = [0usize, 1, 2];
    assert_eq!(tab_drop_indicator_x(&frame.hits, &snapshot, &tabs, 0), Some(0));
    assert_eq!(tab_drop_indicator_x(&frame.hits, &snapshot, &tabs, 2), Some(13));
    assert_eq!(tab_drop_indicator_x(&frame.hits, &snapshot, &tabs, 3), Some(20));
    assert_eq!(tab_drop_indicator_x(&no_hits(), &snapshot, &tabs, 0), None);
}

#[test]
fn drop_column_on_a_scrolled_bar_uses_the_buttons() {
    let snapshot = bar_snapshot(10, 10);
    let frame = draw_bar(&snapshot, &bar_config(true), 40, None);
    let tabs: Vec<usize> = (0..10).collect();
    // Tab 0 is scrolled out: the marker sits after the scroll-left button.
    assert_eq!(tab_drop_indicator_x(&frame.hits, &snapshot, &tabs, 0), Some(3));
    assert_eq!(tab_drop_indicator_x(&frame.hits, &snapshot, &tabs, 10), Some(30));
    // A tab scrolled out in the middle has no column.
    assert_eq!(tab_drop_indicator_x(&frame.hits, &snapshot, &tabs, 2), None);
}

fn with_status(mut snapshot: ClientShellSnapshot) -> ClientShellSnapshot {
    snapshot.tab_bar_right = vec![
        TabBarSegment { text: "main".into(), accent: false },
        TabBarSegment { text: "12:00".into(), accent: true },
    ];
    snapshot
}

#[test]
fn status_width_adds_segments_and_separators() {
    let snapshot = with_status(bar_snapshot(1, 1));
    assert_eq!(tab_bar_status_width(&snapshot), 12);
    assert_eq!(tab_bar_status_width(&bar_snapshot(1, 1)), 0);
}

#[test]
fn status_area_sits_at_the_right_end_when_there_is_room() {
    let snapshot = with_status(bar_snapshot(1, 1));
    let area = Rect { x: 0, y: 0, width: 80, height: 1 };
    assert_eq!(tab_bar_status_area(&snapshot, area), Some(Rect { x: 68, y: 0, width: 12, height: 1 }));
    assert_eq!(tab_bar_content_area(&snapshot, area), Rect { x: 0, y: 0, width: 67, height: 1 });
    // 28 - 13 = 15 columns left for tabs: just enough.
    let narrow = Rect { x: 0, y: 0, width: 28, height: 1 };
    assert!(tab_bar_status_area(&snapshot, narrow).is_some());
    let narrower = Rect { x: 0, y: 0, width: 27, height: 1 };
    assert_eq!(tab_bar_status_area(&snapshot, narrower), None);
    assert_eq!(tab_bar_content_area(&snapshot, narrower), narrower);
}

#[test]
fn status_segments_are_drawn_right_aligned() {
    let snapshot = with_status(bar_snapshot(1, 1));
    let frame = draw_bar(&snapshot, &bar_config(true), 80, None);
    assert!(frame.row.ends_with("main · 12:00"), "{:?}", frame.row);
}

#[test]
fn checked_bar_draws_like_the_plain_one() {
    let snapshot = bar_snapshot(10, 10);
    let config = bar_config(true);
    let area = Rect { x: 0, y: 0, width: 40, height: 1 };
    let mut buffer = Buffer::new();
    let mut hits = no_hits();
    let mut scroll = 0;
    let mut reveal = true;
    assert!(try_render_tab_bar(&mut buffer, area, &snapshot, &config, &mut scroll, &mut reveal, None, &mut hits));
    let plain = draw_bar(&snapshot, &config, 40, None);
    assert_eq!(bar_row(&buffer, 40), plain.row);
    assert_eq!(scroll, plain.scroll);
    assert_eq!(hits.tabs, plain.hits.tabs);
    assert!(!reveal);
}

#[test]
fn checked_bar_declines_centring_past_a_tab_as_wide_as_the_range() {
    let mut snapshot = bar_snapshot(3, 3);
    snapshot.tabs[1].label = "w".repeat(65531);
    let config = bar_config(true);
    let area = Rect { x: 0, y: 0, width: 40, height: 1 };
    let mut buffer = Buffer::new();
    let mut hits = no_hits();
    let mut scroll = 7;
    let mut reveal = true;
    assert!(!try_render_tab_bar(&mut buffer, area, &snapshot, &config, &mut scroll, &mut reveal, None, &mut hits));
    assert!(buffer.ops.is_empty());
    assert_eq!(scroll, 7);
    assert!(reveal);
    assert!(hits.tabs.is_empty());
    // Without a request to reveal the focused tab, nothing is centred.
    let mut reveal = false;
    assert!(try_render_tab_bar(&mut buffer, area, &snapshot, &config, &mut scroll, &mut reveal, None, &mut hits));
    // A tab of another workspace is not measured.
    snapshot.tabs[1].workspace_id = "ws_2".into();
    let mut reveal = true;
    assert!(try_render_tab_bar(&mut buffer, area, &snapshot, &config, &mut scroll, &mut reveal, None, &mut hits));
}

#[test]
fn checked_bar_declines_a_first_tab_filling_the_range() {
    let mut snapshot = bar_snapshot(1, 1);
    snapshot.tabs[0].label = "w".repeat(65531);
    let config = bar_config(false);
    let area = Rect { x: 0, y: 0, width: u16::MAX, height: 1 };
    let mut buffer = Buffer::new();
    let mut hits = no_hits();
    let mut scroll = 0;
    let mut reveal = false;
    assert!(!try_render_tab_bar(&mut buffer, area, &snapshot, &config, &mut scroll, &mut reveal, None, &mut hits));
    assert!(buffer.ops.is_empty());
    // One column in from the left edge it is clipped, and drawn.
    let area = Rect { x: 1, y: 0, width: u16::MAX - 1, height: 1 };
    assert!(try_render_tab_bar(&mut buffer, area, &snapshot, &config, &mut scroll, &mut reveal, None, &mut hits));
    assert_eq!(hits.tabs[0].0.width, u16::MAX - 1);
}

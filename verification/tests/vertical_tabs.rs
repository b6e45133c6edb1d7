use tabstrip::draw::{Buffer, DrawOp};
use tabstrip::frame::render_tab_strip;
use tabstrip::model::{
    AgentStatus, ClientShellAgent, ClientShellConfig, ClientShellPane, ClientShellSnapshot, ClientShellTab,
    ClientShellWorkspace, Palette, Rect, ShellHitMap, ShellRenderState,
};
use unicode_width::UnicodeWidthChar;

const SIDEBAR_WIDTH: u16 = 26;

#[derive(Clone, Debug)]
struct Cell {
    symbol: char,
    fg: u32,
    bg: u32,
}

fn palette() -> Palette {
    Palette {
        panel_bg: 0x101010,
        sidebar_bg: 0x181818,
        surface0: 0x313244,
        surface_dim: 0x262636,
        overlay0: 0x6c7086,
        overlay1: 0x7f849c,
        text: 0xcdd6f4,
        accent: 0x89b4fa,
        accent_fg: 0x11111b,
        working: 0xf9e2af,
        blocked: 0xf38ba8,
        done: 0xa6e3a1,
        idle: 0x9399b2,
    }
}

fn shell_config(compact: bool) -> ClientShellConfig {
    ClientShellConfig {
        palette: palette(),
        mouse_capture: true,
        vertical_tabs_compact: compact,
        status_indicators: true,
    }
}

fn empty_hits() -> ShellHitMap {
    let zero = Rect { x: 0, y: 0, width: 0, height: 0 };
    ShellHitMap { tabs: Vec::new(), agents: Vec::new(), new_tab: zero, tab_scroll_left: zero, tab_scroll_right: zero, sidebar_divider: zero }
}

fn snapshot() -> ClientShellSnapshot {
    ClientShellSnapshot {
        tabs: vec![ClientShellTab {
            tab_id: "tab_1".into(),
            workspace_id: "ws_1".into(),
            number: 1,
            label: "1".into(),
            custom_label: false,
            zoomed: false,
            focused: true,
            agent_status: AgentStatus::Idle,
        }],
        workspaces: vec![ClientShellWorkspace {
            workspace_id: "ws_1".into(),
            active_tab_id: "tab_1".into(),
            number: 1,
            label: "client-shell".into(),
            focused: true,
            branch: Some("main".into()),
        }],
        panes: vec![ClientShellPane {
            pane_id: "pane_1".into(),
            tab_id: "tab_1".into(),
            label: None,
            cwd: Some("/repo".into()),
            foreground_cwd: Some("/repo".into()),
            focused: true,
        }],
        agents: Vec::new(),
        focused_workspace_id: Some("ws_1".into()),
        tab_bar_right: Vec::new(),
        tab_bar_right_separator: " · ".into(),
    }
}

fn strip_agent(pane_id: &str, status: AgentStatus) -> ClientShellAgent {
    ClientShellAgent {
        pane_id: pane_id.into(),
        display_agent: Some("pi".into()),
        name: None,
        agent: Some("pi".into()),
        title: None,
        agent_status: status,
        state_change_seq: 1,
    }
}

fn second_tab() -> ClientShellTab {
    ClientShellTab {
        tab_id: "tab_2".into(),
        workspace_id: "ws_1".into(),
        number: 2,
        label: "second".into(),
        custom_label: true,
        zoomed: false,
        focused: false,
        agent_status: AgentStatus::Idle,
    }
}

fn second_workspace(template: &ClientShellWorkspace) -> ClientShellWorkspace {
    ClientShellWorkspace {
        workspace_id: "ws_2".into(),
        active_tab_id: "tab_2".into(),
        number: 2,
        label: "space-two".into(),
        focused: false,
        ..template.clone()
    }
}

/// One frame of the screen: the strip in the sidebar, the rest blank.
struct Frame {
    cells: Vec<Cell>,
    hits: ShellHitMap,
}

fn paint(buffer: &Buffer, cols: u16, rows: u16) -> Vec<Cell> {
    let mut cells = vec![Cell { symbol: ' ', fg: 0, bg: 0 }; cols as usize * rows as usize];
    for op in &buffer.ops {
        match op {
            DrawOp::Fill { area, style } => {
                for y in area.y..area.y.saturating_add(area.height).min(rows) {
                    for x in area.x..area.x.saturating_add(area.width).min(cols) {
                        let cell = &mut cells[y as usize * cols as usize + x as usize];
                        if let Some(fg) = style.fg {
                            cell.fg = fg;
                        }
                        if let Some(bg) = style.bg {
                            cell.bg = bg;
                        }
                    }
                }
            }
            DrawOp::Text { x, y, width, text, style } => {
                if *y >= rows {
                    continue;
                }
                let mut x = *x;
                let mut remaining = cols.saturating_sub(x).min(*width);
                for ch in text {
                    let w = match ch.width() {
                        Some(w) if w > 0 => w as u16,
                        _ => continue,
                    };
                    if w > remaining {
                        break;
                    }
                    remaining -= w;
                    let cell = &mut cells[*y as usize * cols as usize + x as usize];
                    cell.symbol = *ch;
                    if let Some(fg) = style.fg {
                        cell.fg = fg;
                    }
                    if let Some(bg) = style.bg {
                        cell.bg = bg;
                    }
                    for k in 1..w {
                        cells[*y as usize * cols as usize + (x + k) as usize].symbol = ' ';
                    }
                    x += w;
                }
            }
        }
    }
    cells
}

fn compose_strip(snapshot: &ClientShellSnapshot, config: &ClientShellConfig, width: u16, cols: u16, rows: u16) -> Frame {
    let mut buffer = Buffer::new();
    let mut state = ShellRenderState { tab_scroll: 0, reveal_focused_tab: true, tab_drag_insert_index: None };
    let mut hits = empty_hits();
    let area = Rect { x: 0, y: 0, width, height: rows };
    render_tab_strip(&mut buffer, area, snapshot, config, &mut state, &mut hits);
    Frame { cells: paint(&buffer, cols, rows), hits }
}

fn frame_text(frame: &Frame, cols: u16) -> String {
    frame
        .cells
        .chunks(cols as usize)
        .map(|row| row.iter().map(|cell| cell.symbol).collect::<String>())
        .collect::<Vec<_>>()
        .join("\n")
}

#[test]
fn strip_renders_title_agent_badge_and_context_line() {
    let mut snapshot = snapshot();
    snapshot.agents.push(strip_agent("pane_1", AgentStatus::Working));
    let frame = compose_strip(&snapshot, &shell_config(false), SIDEBAR_WIDTH, 80, 24);

    assert_eq!(frame.hits.tabs.len(), 1);
    let (rect, tab_id) = &frame.hits.tabs[0];
    assert_eq!(tab_id, "tab_1");
    assert_eq!(rect.height, 2, "clickable region: title + context");

    let text = frame_text(&frame, 80);
    assert!(text.contains('●'), "agent status icon missing: {text}");
    assert!(text.contains(" pi "), "agent name missing: {text}");
    assert!(text.contains(" • "), "context line missing: {text}");
    assert!(!text.contains(" spaces"), "spaces header leaked: {text}");
}

#[test]
fn strip_agent_name_hides_when_the_strip_is_narrow() {
    let mut snapshot = snapshot();
    snapshot.agents.push(strip_agent("pane_1", AgentStatus::Working));
    let frame = compose_strip(&snapshot, &shell_config(false), 8, 80, 24);

    let text = frame_text(&frame, 80);
    assert!(text.contains('●'), "status icon should survive: {text}");
    assert!(!text.contains("pi "), "agent name should yield: {text}");
}

#[test]
fn compact_strip_drops_the_context_line() {
    let frame = compose_strip(&snapshot(), &shell_config(true), SIDEBAR_WIDTH, 80, 24);

    let (rect, _) = &frame.hits.tabs[0];
    assert_eq!(rect.height, 1, "clickable region: title only");
    let text = frame_text(&frame, 80);
    assert!(!text.contains(" • "), "context line should be gone: {text}");
}

#[test]
fn strip_groups_every_workspaces_tabs_under_one_box() {
    let mut snapshot = snapshot();
    let mut second = second_tab();
    second.workspace_id = "ws_2".into();
    snapshot.tabs.push(second);
    let template = snapshot.workspaces[0].clone();
    snapshot.workspaces.push(second_workspace(&template));
    let frame = compose_strip(&snapshot, &shell_config(false), SIDEBAR_WIDTH, 80, 24);

    assert_eq!(frame.hits.tabs.len(), 2, "tabs from both workspaces");
    let (_, second_id) = &frame.hits.tabs[1];
    assert_eq!(second_id, "tab_2");

    let text = frame_text(&frame, 80);
    assert!(text.contains("space-two"), "workspace header missing: {text}");
}

#[test]
fn strip_details_show_cwd_leaf_branch_and_workspace_on_title() {
    let mut snapshot = snapshot();
    snapshot.panes[0].cwd = Some("/repo/karty-b".into());
    snapshot.panes[0].foreground_cwd = Some("/repo/karty-b".into());
    snapshot.agents.push(strip_agent("pane_1", AgentStatus::Working));
    let frame = compose_strip(&snapshot, &shell_config(false), SIDEBAR_WIDTH, 80, 24);

    let text = frame_text(&frame, 80);
    let rows: Vec<&str> = text.lines().collect();
    // Row 0 is the box top border, row 1 the title, row 2 the details.
    let title = rows[1];
    let details = rows[2];
    assert!(title.contains("client-shell"), "workspace on title row: {text}");
    assert!(!title.contains('●') && !title.contains("pi "), "badge left the title row: {text}");
    assert!(details.contains("karty-b"), "cwd leaf missing: {details}");
    assert!(details.contains("main"), "branch missing: {details}");
    assert!(!details.contains("client-shell"), "workspace left the details row: {details}");
    assert!(details.find("karty-b") < details.find("main"), "leaf folder comes first: {details}");
    assert!(details.contains(" pi "), "agent badge on details row: {details}");
}

#[test]
fn strip_cwd_leaf_caps_at_eight_columns() {
    let mut snapshot = snapshot();
    snapshot.panes[0].foreground_cwd = Some("/repo/kartyb-sprouts-instructions".into());
    let frame = compose_strip(&snapshot, &shell_config(false), SIDEBAR_WIDTH, 80, 24);

    let text = frame_text(&frame, 80);
    assert!(text.contains("kartyb-…"), "8-column leaf: {text}");
    assert!(!text.contains("kartyb-sprouts"), "full leaf leaked: {text}");
}

#[test]
fn strip_details_drop_the_branch_before_the_leaf_when_narrow() {
    let mut snapshot = snapshot();
    snapshot.agents.push(strip_agent("pane_1", AgentStatus::Working));
    let frame = compose_strip(&snapshot, &shell_config(false), 10, 80, 24);

    let text = frame_text(&frame, 80);
    let details = text.lines().nth(2).expect("details row");
    assert!(details.contains("repo"), "leaf survives: {text}");
    assert!(!details.contains("main"), "branch drops first: {text}");
}

#[test]
fn strip_drops_the_sidebar_separator_and_stacks_groups_flush() {
    let mut snapshot = snapshot();
    let mut second = second_tab();
    second.workspace_id = "ws_2".into();
    snapshot.tabs.push(second);
    let template = snapshot.workspaces[0].clone();
    snapshot.workspaces.push(second_workspace(&template));
    let frame = compose_strip(&snapshot, &shell_config(false), SIDEBAR_WIDTH, 80, 24);

    let text = frame_text(&frame, 80);
    let rows: Vec<&str> = text.lines().collect();
    let tops: Vec<usize> =
        rows.iter().enumerate().filter(|(_, row)| row.starts_with('╭')).map(|(index, _)| index).collect();
    let bottoms: Vec<usize> =
        rows.iter().enumerate().filter(|(_, row)| row.starts_with('╰')).map(|(index, _)| index).collect();
    assert_eq!(tops.len(), 2, "two group boxes: {text}");
    assert_eq!(bottoms.len(), 2, "two group boxes: {text}");
    assert_eq!(bottoms[0] + 1, tops[1], "groups stack flush: {text}");
    let last_bottom = bottoms[1];
    for row in &rows[last_bottom + 1..] {
        assert!(!row.chars().take(26).any(|ch| ch == '│'), "no stray separator below the last box: {text}");
    }
}

#[test]
fn compact_strip_keeps_the_badge_on_the_title_row() {
    let mut snapshot = snapshot();
    snapshot.agents.push(strip_agent("pane_1", AgentStatus::Working));
    let frame = compose_strip(&snapshot, &shell_config(true), SIDEBAR_WIDTH, 80, 24);

    let text = frame_text(&frame, 80);
    assert!(text.contains(" pi "), "badge stays visible in compact: {text}");
    assert!(text.contains('●'), "status icon visible in compact: {text}");
}

#[test]
fn active_tab_highlight_bleeds_under_the_box_border() {
    let frame = compose_strip(&snapshot(), &shell_config(false), SIDEBAR_WIDTH, 80, 24);

    let text = frame_text(&frame, 80);
    let bgs: Vec<Vec<u32>> = frame.cells.chunks(80).map(|row| row.iter().map(|cell| cell.bg).collect()).collect();
    // Single-tab group: rows 0-3 = top border, title, details, bottom
    // border; the box spans cols 0-25, inner cols 1-24. The highlight on
    // the active tab's rows must continue into every adjacent border cell.
    let highlight = bgs[1][2];
    assert_eq!(bgs[1][0], highlight, "left border cell flush: {text}");
    assert_eq!(bgs[1][25], highlight, "right border cell flush: {text}");
    assert_eq!(bgs[0][1], highlight, "top border row flush: {text}");
    assert_eq!(bgs[3][1], highlight, "bottom border row flush: {text}");
    assert_ne!(bgs[6][1], highlight, "no bleed past the box: {text}");
}

#[test]
fn strip_rows_inset_their_text_one_column() {
    let frame = compose_strip(&snapshot(), &shell_config(false), SIDEBAR_WIDTH, 80, 24);

    let text = frame_text(&frame, 80);
    let title: Vec<char> = text.lines().nth(1).expect("title row").chars().collect();
    // Border at col 0, one padding column, text from col 2; the workspace
    // label ends a column before the right border.
    assert_eq!(title[0], '│', "box border: {text}");
    assert_eq!(title[1], ' ', "left padding column: {text}");
    assert_eq!(title[2], '1', "title text after padding: {text}");
    assert_eq!(title[24], ' ', "right padding column: {text}");
    assert_eq!(title[25], '│', "box border: {text}");
}

fn region_at(regions: &[(Rect, String)], x: u16, y: u16) -> Option<&str> {
    regions
        .iter()
        .find(|(r, _)| r.x <= x && x < r.x + r.width && r.y <= y && y < r.y + r.height)
        .map(|(_, id)| id.as_str())
}

#[test]
fn extra_pane_rows_get_their_own_hit_regions() {
    let mut snapshot = snapshot();
    let mut second_pane = snapshot.panes[0].clone();
    second_pane.pane_id = "pane_2".into();
    second_pane.cwd = Some("/repo/feature".into());
    second_pane.foreground_cwd = Some("/repo/feature".into());
    second_pane.focused = false;
    snapshot.panes.push(second_pane);
    let frame = compose_strip(&snapshot, &shell_config(false), SIDEBAR_WIDTH, 80, 24);

    let (rect, _) = &frame.hits.tabs[0];
    assert_eq!(rect.height, 2, "clickable region stays title + context even with panes");
    let text = frame_text(&frame, 80);
    assert!(text.contains("feature"), "pane cwd title missing: {text}");
    let (pane_rect, _) = frame
        .hits
        .agents
        .iter()
        .find(|(rect, pane_id)| pane_id == "pane_2" && rect.height == 1)
        .expect("pane line hit rect");
    // A click on the pane line lands on the pane, not on the tab.
    assert_eq!(region_at(&frame.hits.agents, pane_rect.x + 1, pane_rect.y), Some("pane_2"));
    assert_eq!(region_at(&frame.hits.tabs, pane_rect.x + 1, pane_rect.y), None);
}

#[test]
fn strip_entry_regions_lead_to_their_tabs() {
    let mut snapshot = snapshot();
    snapshot.tabs.push(second_tab());
    let frame = compose_strip(&snapshot, &shell_config(false), SIDEBAR_WIDTH, 80, 24);

    let rect = frame.hits.tabs[1].0;
    assert_eq!(region_at(&frame.hits.tabs, rect.x + 1, rect.y), Some("tab_2"));
    // The details row belongs to the tab region too.
    assert_eq!(region_at(&frame.hits.tabs, rect.x + 1, rect.y + 1), Some("tab_2"));
    let first = frame.hits.tabs[0].0;
    assert_eq!(region_at(&frame.hits.tabs, first.x + 1, first.y), Some("tab_1"));
}

#[test]
fn overflowing_strip_offers_scroll_buttons_and_keeps_a_group_scroll() {
    let mut snapshot = snapshot();
    let ws_template = snapshot.workspaces[0].clone();
    let tab_template = snapshot.tabs[0].clone();
    for number in 2..=10u32 {
        snapshot.workspaces.push(ClientShellWorkspace {
            workspace_id: format!("ws_{number}"),
            active_tab_id: format!("tab_{number}"),
            number,
            label: format!("space-{number}"),
            focused: false,
            ..ws_template.clone()
        });
        snapshot.tabs.push(ClientShellTab {
            tab_id: format!("tab_{number}"),
            workspace_id: format!("ws_{number}"),
            number: 1,
            label: number.to_string(),
            ..tab_template.clone()
        });
    }
    let config = shell_config(false);
    let frame = compose_strip(&snapshot, &config, SIDEBAR_WIDTH, 80, 6);
    assert!(frame.hits.tab_scroll_right.width > 0);
    assert!(frame.hits.tab_scroll_left.width > 0);

    // Scrolled down one group, the strip stays there and starts at ws_2.
    let mut buffer = Buffer::new();
    let mut state = ShellRenderState { tab_scroll: 1, reveal_focused_tab: false, tab_drag_insert_index: None };
    let mut hits = empty_hits();
    let area = Rect { x: 0, y: 0, width: SIDEBAR_WIDTH, height: 6 };
    render_tab_strip(&mut buffer, area, &snapshot, &config, &mut state, &mut hits);
    assert_eq!(state.tab_scroll, 1);
    assert_eq!(hits.tabs[0].1, "tab_2");
}

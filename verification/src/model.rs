//! The shell snapshot the tab bar and tab strip are drawn from, the render
//! configuration, and the geometry and styles they produce.
use vstd::prelude::*;

verus! {

/// Columns of the "new tab" button.
pub const NEW_TAB_WIDTH: u16 = 3;

/// Narrowest a tab of the horizontal bar is drawn.
pub const MIN_TAB_WIDTH: u16 = 6;

/// A screen rectangle in terminal cells.
#[derive(Clone, Copy, Debug, PartialEq, Eq, Structural)]
pub struct Rect {
    pub x: u16,
    pub y: u16,
    pub width: u16,
    pub height: u16,
}

/// `a - b`, floored at zero.
pub open spec fn sub0(a: int, b: int) -> int {
    if a > b { a - b } else { 0 }
}

/// `a + b`, capped at `u16::MAX`.
pub open spec fn add16(a: int, b: int) -> int {
    if a + b > u16::MAX { u16::MAX as int } else { a + b }
}

/// The smaller of two integers.
pub open spec fn min_int(a: int, b: int) -> int {
    if a < b { a } else { b }
}

/// The rectangle `Rect::new` builds: width and height are clipped so that the
/// right and bottom edges stay within `u16`.
pub open spec fn rect(x: u16, y: u16, width: u16, height: u16) -> Rect {
    Rect {
        x,
        y,
        width: min_int(width as int, u16::MAX - x) as u16,
        height: min_int(height as int, u16::MAX - y) as u16,
    }
}

impl Rect {
    /// Builds a rectangle, clipping width and height to the `u16` range.
    pub fn new(x: u16, y: u16, width: u16, height: u16) -> (r: Rect)
        ensures
            r == rect(x, y, width, height),
    {
        let max_width = u16::MAX - x;
        let max_height = u16::MAX - y;
        Rect {
            x,
            y,
            width: if width < max_width { width } else { max_width },
            height: if height < max_height { height } else { max_height },
        }
    }

    /// Column just past the right edge.
    pub open spec fn right_edge(self) -> int {
        add16(self.x as int, self.width as int)
    }

    /// Row just past the bottom edge.
    pub open spec fn bottom_edge(self) -> int {
        add16(self.y as int, self.height as int)
    }

    /// Column just past the right edge (saturating).
    pub fn right(&self) -> (r: u16)
        ensures
            r as int == self.right_edge(),
    {
        self.x.saturating_add(self.width)
    }

    /// Row just past the bottom edge (saturating).
    pub fn bottom(&self) -> (r: u16)
        ensures
            r as int == self.bottom_edge(),
    {
        self.y.saturating_add(self.height)
    }

    /// No cells at all.
    pub fn is_empty(&self) -> (r: bool)
        ensures
            r == (self.width == 0 || self.height == 0),
    {
        self.width == 0 || self.height == 0
    }
}

/// Foreground, background and the two text modifiers the shell uses.
#[derive(Clone, Copy, Debug, PartialEq, Eq, Structural)]
pub struct Style {
    pub fg: Option<u32>,
    pub bg: Option<u32>,
    pub bold: bool,
    pub dim: bool,
}

/// A style that only sets the foreground.
pub open spec fn fg_style(color: u32) -> Style {
    Style { fg: Some(color), bg: None, bold: false, dim: false }
}

/// A style that sets foreground and background.
pub open spec fn fg_bg_style(fg: u32, bg: u32) -> Style {
    Style { fg: Some(fg), bg: Some(bg), bold: false, dim: false }
}

/// A style that only sets the background.
pub open spec fn bg_style(color: u32) -> Style {
    Style { fg: None, bg: Some(color), bold: false, dim: false }
}

/// A dimmed foreground.
pub open spec fn dim_style(color: u32) -> Style {
    Style { fg: Some(color), bg: None, bold: false, dim: true }
}

/// The theme colors (24-bit RGB).
#[derive(Clone, Copy, Debug, PartialEq, Eq, Structural)]
pub struct Palette {
    pub panel_bg: u32,
    pub sidebar_bg: u32,
    pub surface0: u32,
    pub surface_dim: u32,
    pub overlay0: u32,
    pub overlay1: u32,
    pub text: u32,
    pub accent: u32,
    pub accent_fg: u32,
    pub working: u32,
    pub blocked: u32,
    pub done: u32,
    pub idle: u32,
}

/// What an agent in a pane is doing.
#[derive(Clone, Copy, Debug, PartialEq, Eq, Structural)]
pub enum AgentStatus {
    Unknown,
    Idle,
    Done,
    Working,
    Blocked,
}

/// How urgent a status is: blocked agents first, then working, done, idle.
pub open spec fn priority_of(status: AgentStatus) -> u8 {
    match status {
        AgentStatus::Blocked => 4,
        AgentStatus::Working => 3,
        AgentStatus::Done => 2,
        AgentStatus::Idle => 1,
        AgentStatus::Unknown => 0,
    }
}

/// How urgent a status is: blocked agents first, then working, done, idle.
pub fn status_priority(status: AgentStatus) -> (r: u8)
    ensures
        r == priority_of(status),
{
    match status {
        AgentStatus::Blocked => 4,
        AgentStatus::Working => 3,
        AgentStatus::Done => 2,
        AgentStatus::Idle => 1,
        AgentStatus::Unknown => 0,
    }
}

/// The glyph that stands for a status when status indicators are on.
pub open spec fn icon_of(status: AgentStatus, indicators: bool) -> Seq<char> {
    if !indicators {
        Seq::empty()
    } else {
        match status {
            AgentStatus::Blocked => seq!['▲'],
            AgentStatus::Working => seq!['●'],
            AgentStatus::Done => seq!['✓'],
            AgentStatus::Idle => seq!['○'],
            AgentStatus::Unknown => Seq::empty(),
        }
    }
}

/// The glyph that stands for a status when status indicators are on.
pub fn status_icon(status: AgentStatus, indicators: bool) -> (r: Vec<char>)
    ensures
        r@ == icon_of(status, indicators),
{
    if !indicators {
        return Vec::new();
    }
    match status {
        AgentStatus::Blocked => vec!['▲'],
        AgentStatus::Working => vec!['●'],
        AgentStatus::Done => vec!['✓'],
        AgentStatus::Idle => vec!['○'],
        AgentStatus::Unknown => Vec::new(),
    }
}

/// The color a status is drawn in.
pub open spec fn color_of(status: AgentStatus, palette: Palette) -> u32 {
    match status {
        AgentStatus::Blocked => palette.blocked,
        AgentStatus::Working => palette.working,
        AgentStatus::Done => palette.done,
        AgentStatus::Idle => palette.idle,
        AgentStatus::Unknown => palette.overlay0,
    }
}

/// The color a status is drawn in.
pub fn status_color(status: AgentStatus, palette: &Palette) -> (r: u32)
    ensures
        r == color_of(status, *palette),
{
    match status {
        AgentStatus::Blocked => palette.blocked,
        AgentStatus::Working => palette.working,
        AgentStatus::Done => palette.done,
        AgentStatus::Idle => palette.idle,
        AgentStatus::Unknown => palette.overlay0,
    }
}

/// A tab of some workspace.
#[derive(Clone, Debug)]
pub struct ClientShellTab {
    pub tab_id: String,
    pub workspace_id: String,
    pub number: u32,
    pub label: String,
    pub custom_label: bool,
    pub zoomed: bool,
    pub focused: bool,
    pub agent_status: AgentStatus,
}

/// A workspace (a "space"): a group of tabs.
#[derive(Clone, Debug)]
pub struct ClientShellWorkspace {
    pub workspace_id: String,
    pub active_tab_id: String,
    pub number: u32,
    pub label: String,
    pub focused: bool,
    pub branch: Option<String>,
}

/// A terminal pane inside a tab.
#[derive(Clone, Debug)]
pub struct ClientShellPane {
    pub pane_id: String,
    pub tab_id: String,
    pub label: Option<String>,
    pub cwd: Option<String>,
    pub foreground_cwd: Option<String>,
    pub focused: bool,
}

/// A coding agent detected in a pane.
#[derive(Clone, Debug)]
pub struct ClientShellAgent {
    pub pane_id: String,
    pub display_agent: Option<String>,
    pub name: Option<String>,
    pub agent: Option<String>,
    pub title: Option<String>,
    pub agent_status: AgentStatus,
    pub state_change_seq: u64,
}

/// A status segment shown at the right end of the tab bar.
#[derive(Clone, Debug)]
pub struct TabBarSegment {
    pub text: String,
    pub accent: bool,
}

/// Everything the tab bar and tab strip draw from.
#[derive(Clone, Debug)]
pub struct ClientShellSnapshot {
    pub tabs: Vec<ClientShellTab>,
    pub workspaces: Vec<ClientShellWorkspace>,
    pub panes: Vec<ClientShellPane>,
    pub agents: Vec<ClientShellAgent>,
    pub focused_workspace_id: Option<String>,
    pub tab_bar_right: Vec<TabBarSegment>,
    pub tab_bar_right_separator: String,
}

/// Render settings.
#[derive(Clone, Copy, Debug)]
pub struct ClientShellConfig {
    pub palette: Palette,
    pub mouse_capture: bool,
    pub vertical_tabs_compact: bool,
    pub status_indicators: bool,
}

/// Clickable regions produced while drawing.
#[derive(Clone, Debug)]
pub struct ShellHitMap {
    pub tabs: Vec<(Rect, String)>,
    pub agents: Vec<(Rect, String)>,
    pub new_tab: Rect,
    pub tab_scroll_left: Rect,
    pub tab_scroll_right: Rect,
    /// The column that resizes the sidebar when dragged.
    pub sidebar_divider: Rect,
}

/// Scroll state carried between frames of the tab strip.
#[derive(Clone, Copy, Debug)]
pub struct ShellRenderState {
    pub tab_scroll: usize,
    pub reveal_focused_tab: bool,
    pub tab_drag_insert_index: Option<usize>,
}

} // verus!

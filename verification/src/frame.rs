//! A whole frame of the vertical tab strip: groups, scroll chrome and the
//! drop marker of a dragged tab.
use vstd::prelude::*;
use crate::draw::{Buffer, Draw, put_text};
use crate::drop::{drop_row, tab_drop_indicator_y, visible_tabs};
use crate::model::{ClientShellConfig, ClientShellSnapshot, NEW_TAB_WIDTH, Palette, Rect, ShellHitMap, ShellRenderState,
    Style, bg_style, fg_bg_style, fg_style, min_int, rect, sub0};
use crate::scroll::{lemma_span_nonneg, overflow_tab_strip, run_overflows, span};
use crate::strip::{TabStripGroup, build_strip_groups, drawn_groups, group_height, group_row_height, group_wf,
    groups_agent_hits, groups_draws, groups_fit_check, groups_geom_ok, groups_ok, groups_tab_hits, groups_texts_ok,
    group_height_check,
    hit_views, lemma_groups_ok_parts, lemma_next_strip_scroll_reveals, is_first_focused_group, next_strip_scroll,
    render_strip_groups, strip_group_ok, strip_row_heights,
    lemma_group_height_min, placed_group_rect, strip_rows_available, update_strip_scroll};

verus! {

/// Rows the strip's chrome (the "new tab" and scroll buttons) takes.
pub const TAB_STRIP_CHROME_HEIGHT: u16 = 1;

/// The commands of the strip's bottom chrome row.
pub open spec fn chrome_draws(area: Rect, overflow: bool, can_scroll_down: bool, palette: Palette) -> Seq<Draw> {
    let y = sub0(area.bottom_edge(), 1) as u16;
    let new_tab = rect(area.x, y, min_int(NEW_TAB_WIDTH as int, area.width as int) as u16, 1);
    let head = seq![Draw::Text(new_tab.x, y, new_tab.width, seq![' ', '+', ' '], fg_bg_style(palette.overlay1, palette.panel_bg))];
    if !overflow {
        head
    } else {
        head + seq![
            Draw::Text(sub0(area.right_edge(), 2) as u16, y, 1, seq!['▲'], fg_bg_style(palette.overlay1, palette.surface0)),
            Draw::Text(
                sub0(area.right_edge(), 1) as u16,
                y,
                1,
                seq!['▼'],
                fg_bg_style(if can_scroll_down { palette.overlay1 } else { palette.overlay0 }, palette.surface0),
            ),
        ]
    }
}

/// The chrome's "new tab" button.
pub open spec fn chrome_new_tab(area: Rect) -> Rect {
    rect(area.x, sub0(area.bottom_edge(), 1) as u16, min_int(NEW_TAB_WIDTH as int, area.width as int) as u16, 1)
}

/// The chrome's scroll-up button.
pub open spec fn chrome_scroll_up(area: Rect) -> Rect {
    rect(sub0(area.right_edge(), 2) as u16, sub0(area.bottom_edge(), 1) as u16, 1, 1)
}

/// The chrome's scroll-down button.
pub open spec fn chrome_scroll_down(area: Rect) -> Rect {
    rect(sub0(area.right_edge(), 1) as u16, sub0(area.bottom_edge(), 1) as u16, 1, 1)
}

/// The strip's bottom row: a "new tab" button, and scroll buttons when the
/// strip overflows.
pub fn render_tab_strip_chrome(
    buffer: &mut Buffer,
    area: Rect,
    overflow: bool,
    can_scroll_down: bool,
    palette: &Palette,
    hits: &mut ShellHitMap,
)
    ensures
        final(buffer)@ == old(buffer)@ + chrome_draws(area, overflow, can_scroll_down, *palette),
        final(hits).new_tab == chrome_new_tab(area),
        final(hits).tab_scroll_left == if overflow { chrome_scroll_up(area) } else { old(hits).tab_scroll_left },
        final(hits).tab_scroll_right == if overflow { chrome_scroll_down(area) } else { old(hits).tab_scroll_right },
        final(hits).tabs == old(hits).tabs,
        final(hits).agents == old(hits).agents,
        final(hits).sidebar_divider == old(hits).sidebar_divider,
{
    let chrome_y = area.bottom().saturating_sub(1);
    let width = if NEW_TAB_WIDTH < area.width { NEW_TAB_WIDTH } else { area.width };
    hits.new_tab = Rect::new(area.x, chrome_y, width, 1);
    let plus = vec![' ', '+', ' '];
    assert(plus@ =~= seq![' ', '+', ' ']);
    put_text(buffer, hits.new_tab.x, chrome_y, hits.new_tab.width, plus.as_slice(),
        Style { fg: Some(palette.overlay1), bg: Some(palette.panel_bg), bold: false, dim: false });
    if !overflow {
        assert(final(buffer)@ =~= old(buffer)@ + chrome_draws(area, overflow, can_scroll_down, *palette));
        return;
    }
    hits.tab_scroll_left = Rect::new(area.right().saturating_sub(2), chrome_y, 1, 1);
    hits.tab_scroll_right = Rect::new(area.right().saturating_sub(1), chrome_y, 1, 1);
    let up = vec!['▲'];
    let down = vec!['▼'];
    assert(up@ =~= seq!['▲']);
    assert(down@ =~= seq!['▼']);
    put_text(buffer, hits.tab_scroll_left.x, chrome_y, 1, up.as_slice(),
        Style { fg: Some(palette.overlay1), bg: Some(palette.surface0), bold: false, dim: false });
    put_text(buffer, hits.tab_scroll_right.x, chrome_y, 1, down.as_slice(),
        Style {
            fg: Some(if can_scroll_down { palette.overlay1 } else { palette.overlay0 }),
            bg: Some(palette.surface0),
            bold: false,
            dim: false,
        });
    assert(final(buffer)@ =~= old(buffer)@ + chrome_draws(area, overflow, can_scroll_down, *palette));
}

/// Indices of the tabs of the focused workspace (the first `n` tabs).
pub open spec fn focused_tab_indices(snap: ClientShellSnapshot, n: int) -> Seq<usize>
    decreases n,
{
    if n <= 0 {
        Seq::empty()
    } else {
        let prev = focused_tab_indices(snap, n - 1);
        match snap.focused_workspace_id {
            Some(id) => if snap.tabs@[n - 1].workspace_id@ == id@ { prev.push((n - 1) as usize) } else { prev },
            None => prev,
        }
    }
}

/// Indices of the tabs of the focused workspace.
pub fn focused_tabs(snapshot: &ClientShellSnapshot) -> (r: Vec<usize>)
    ensures
        r@ == focused_tab_indices(*snapshot, snapshot.tabs@.len() as int),
        forall|k: int| 0 <= k < r@.len() ==> #[trigger] r@[k] < snapshot.tabs.len(),
{
    let mut out: Vec<usize> = Vec::new();
    let mut i: usize = 0;
    while i < snapshot.tabs.len()
        invariant
            i <= snapshot.tabs.len(),
            out@ == focused_tab_indices(*snapshot, i as int),
            forall|k: int| 0 <= k < out@.len() ==> #[trigger] out@[k] < i,
        decreases snapshot.tabs.len() - i,
    {
        match &snapshot.focused_workspace_id {
            Some(id) => {
                if snapshot.tabs[i].workspace_id == *id {
                    out.push(i);
                }
            },
            None => {},
        }
        i = i + 1;
    }
    out
}

/// The groups are the ones the strip builds from the snapshot.
pub open spec fn strip_groups_built(snap: ClientShellSnapshot, groups: Seq<TabStripGroup>) -> bool {
    &&& groups.len() == snap.workspaces@.len()
    &&& forall|wi: int| 0 <= wi < groups.len() ==> #[trigger] strip_group_ok(snap, wi, groups[wi])
    &&& forall|wi: int| 0 <= wi < groups.len() ==> #[trigger] group_wf(snap, groups[wi])
}

/// The groups' heights.
pub open spec fn strip_heights(groups: Seq<TabStripGroup>, compact: bool) -> Seq<u16> {
    Seq::new(groups.len(), |i: int| group_row_height(groups[i], compact) as u16)
}

/// The rows the groups may use: all of the strip but the chrome row.
pub open spec fn strip_content(area: Rect, mouse: bool) -> Rect {
    if mouse { rect(area.x, area.y, area.width, sub0(area.height as int, 1) as u16) } else { area }
}

/// The scroll the strip settles on this frame.
pub open spec fn strip_scroll(snap: ClientShellSnapshot, config: ClientShellConfig, area: Rect, groups: Seq<TabStripGroup>,
    state: ShellRenderState) -> int {
    next_strip_scroll(snap, groups, strip_heights(groups, config.vertical_tabs_compact),
        strip_content(area, config.mouse_capture).height as int, state.tab_scroll as int, state.reveal_focused_tab)
}

/// How many groups the frame draws.
pub open spec fn strip_drawn(snap: ClientShellSnapshot, config: ClientShellConfig, area: Rect, groups: Seq<TabStripGroup>,
    state: ShellRenderState) -> int {
    drawn_groups(strip_heights(groups, config.vertical_tabs_compact), strip_scroll(snap, config, area, groups, state),
        strip_rows_available(strip_content(area, config.mouse_capture)))
}

/// The hit map after the groups and chrome of a frame.
pub open spec fn strip_hits(snap: ClientShellSnapshot, config: ClientShellConfig, area: Rect, groups: Seq<TabStripGroup>,
    state: ShellRenderState, hits: ShellHitMap) -> (Seq<(Rect, Seq<char>)>, Seq<(Rect, Seq<char>)>, Rect, Rect, Rect) {
    let compact = config.vertical_tabs_compact;
    let content = strip_content(area, config.mouse_capture);
    let heights = strip_heights(groups, compact);
    let scroll = strip_scroll(snap, config, area, groups, state);
    let n = strip_drawn(snap, config, area, groups, state);
    let tabs = hit_views(hits.tabs@) + groups_tab_hits(snap, compact, content, groups, heights, scroll, n);
    let agents = hit_views(hits.agents@) + groups_agent_hits(snap, compact, content, groups, heights, scroll, n);
    let overflow = strip_overflows(heights, content.height as int);
    if config.mouse_capture {
        (tabs, agents, chrome_new_tab(area),
            if overflow { chrome_scroll_up(area) } else { hits.tab_scroll_left },
            if overflow { chrome_scroll_down(area) } else { hits.tab_scroll_right })
    } else {
        (tabs, agents, hits.new_tab, hits.tab_scroll_left, hits.tab_scroll_right)
    }
}

/// The strip overflows its rows.
pub open spec fn strip_overflows(heights: Seq<u16>, available: int) -> bool {
    run_overflows(heights, 0, available)
}

/// Everything a frame of the strip draws (when the strip has any cells).
pub open spec fn strip_frame_draws(snap: ClientShellSnapshot, config: ClientShellConfig, area: Rect,
    groups: Seq<TabStripGroup>, state: ShellRenderState, hits: ShellHitMap) -> Seq<Draw> {
    let compact = config.vertical_tabs_compact;
    let palette = config.palette;
    let content = strip_content(area, config.mouse_capture);
    let heights = strip_heights(groups, compact);
    let scroll = strip_scroll(snap, config, area, groups, state);
    let n = strip_drawn(snap, config, area, groups, state);
    let can_scroll_down = n > 0 && scroll + n < groups.len();
    let chrome = if config.mouse_capture {
        chrome_draws(area, strip_overflows(heights, content.height as int), can_scroll_down, palette)
    } else {
        Seq::empty()
    };
    let after = strip_hits(snap, config, area, groups, state, hits);
    let ftabs = focused_tab_indices(snap, snap.tabs@.len() as int);
    let marker = match state.tab_drag_insert_index {
        Some(insert) => match drop_row(visible_tabs(snap, ftabs, after.0, after.0.len() as int), ftabs.len() as int,
            insert as int, after.3, after.4) {
            Some(y) => seq![Draw::Text(content.x, min_int(y as int, sub0(content.bottom_edge(), 1)) as u16, content.width,
                Seq::new(content.width as nat, |i: int| '─'), fg_style(palette.accent))],
            None => Seq::empty(),
        },
        None => Seq::empty(),
    };
    seq![Draw::Fill(area, bg_style(palette.sidebar_bg))]
        + groups_draws(snap, config, content, groups, heights, scroll, n)
        + chrome
        + marker
}

/// The strip's resize column: its last column, over the rows the groups may
/// use (the chrome row keeps its buttons).
pub open spec fn strip_divider(area: Rect, mouse: bool) -> Rect {
    rect(sub0(area.right_edge(), 1) as u16, area.y, 1, strip_content(area, mouse).height)
}

/// A frame of the strip can be drawn without arithmetic overflow.
pub open spec fn strip_frame_ok(snap: ClientShellSnapshot, config: ClientShellConfig, area: Rect,
    groups: Seq<TabStripGroup>, state: ShellRenderState) -> bool {
    let compact = config.vertical_tabs_compact;
    &&& forall|i: int| 0 <= i < groups.len() ==> group_height(#[trigger] groups[i].tabs@, compact) <= u16::MAX + 2
    &&& groups_ok(snap, config, strip_content(area, config.mouse_capture), groups, strip_heights(groups, compact),
        strip_scroll(snap, config, area, groups, state))
}


/// The strip's geometry fits `u16` this frame: each group's height, and the
/// box and rows of every group drawn.
pub open spec fn strip_geometry_ok(snap: ClientShellSnapshot, config: ClientShellConfig, area: Rect,
    groups: Seq<TabStripGroup>, state: ShellRenderState) -> bool {
    let compact = config.vertical_tabs_compact;
    &&& forall|i: int| 0 <= i < groups.len() ==> group_height(#[trigger] groups[i].tabs@, compact) <= u16::MAX + 2
    &&& groups_geom_ok(snap, compact, strip_content(area, config.mouse_capture), groups, strip_heights(groups, compact),
        strip_scroll(snap, config, area, groups, state))
}

/// The widths measured by the groups a frame of the strip draws fit.
pub open spec fn strip_frame_texts_ok(snap: ClientShellSnapshot, config: ClientShellConfig, area: Rect,
    groups: Seq<TabStripGroup>, state: ShellRenderState) -> bool {
    groups_texts_ok(snap, config, strip_content(area, config.mouse_capture), groups,
        strip_heights(groups, config.vertical_tabs_compact), strip_scroll(snap, config, area, groups, state))
}

/// A frame whose geometry and measured widths fit can be drawn.
pub proof fn lemma_strip_frame_ok(snap: ClientShellSnapshot, config: ClientShellConfig, area: Rect,
    groups: Seq<TabStripGroup>, state: ShellRenderState)
    requires
        strip_geometry_ok(snap, config, area, groups, state),
        strip_frame_texts_ok(snap, config, area, groups, state),
    ensures
        strip_frame_ok(snap, config, area, groups, state),
{
    let compact = config.vertical_tabs_compact;
    lemma_groups_ok_parts(snap, config, strip_content(area, config.mouse_capture), groups,
        strip_heights(groups, compact), strip_scroll(snap, config, area, groups, state));
}

/// Revealing the focused group draws it whole: when the strip is asked to
/// reveal and the first group holding the focused tab fits the strip's
/// rows, that group is among the groups the frame draws, at its full height.
pub proof fn law_strip_reveal_draws_focused_group(snap: ClientShellSnapshot, config: ClientShellConfig, area: Rect,
    groups: Seq<TabStripGroup>, state: ShellRenderState, f: int)
    requires
        area.y + area.height <= u16::MAX,
        strip_groups_built(snap, groups),
        state.reveal_focused_tab,
        is_first_focused_group(snap, groups, f),
        group_row_height(groups[f], config.vertical_tabs_compact)
            <= strip_content(area, config.mouse_capture).height,
    ensures
        ({
            let s = strip_scroll(snap, config, area, groups, state);
            let content = strip_content(area, config.mouse_capture);
            let heights = strip_heights(groups, config.vertical_tabs_compact);
            &&& 0 <= s <= f
            &&& f < s + strip_drawn(snap, config, area, groups, state)
            &&& placed_group_rect(content, heights, s, f).height == heights[f]
        }),
{
    let content = strip_content(area, config.mouse_capture);
    let heights = strip_heights(groups, config.vertical_tabs_compact);
    lemma_group_height_min(groups[f].tabs@, config.vertical_tabs_compact);
    assert(strip_rows_available(content) == content.height as int);
    lemma_next_strip_scroll_reveals(snap, groups, heights, content.height as int, state.tab_scroll as int, f);
    let s = strip_scroll(snap, config, area, groups, state);
    lemma_span_nonneg(heights, 0, s, f);
}

/// A run of `n` box-drawing horizontal lines.
fn horizontal_rule(n: u16) -> (r: Vec<char>)
    ensures
        r@ == Seq::new(n as nat, |i: int| '─'),
{
    let mut out: Vec<char> = Vec::new();
    let mut i: u16 = 0;
    while i < n
        invariant
            i <= n,
            out@ == Seq::new(i as nat, |k: int| '─'),
        decreases n - i,
    {
        out.push('─');
        i = i + 1;
        assert(out@ =~= Seq::new(i as nat, |k: int| '─'));
    }
    out
}

/// Draw a frame of the strip from the groups built from the snapshot.
#[verifier::rlimit(80)]
fn render_strip_frame(
    buffer: &mut Buffer,
    area: Rect,
    snapshot: &ClientShellSnapshot,
    config: &ClientShellConfig,
    state: &mut ShellRenderState,
    hits: &mut ShellHitMap,
    groups: &Vec<TabStripGroup>,
)
    requires
        area.width != 0 && area.height != 0,
        strip_groups_built(*snapshot, groups@),
        strip_frame_ok(*snapshot, *config, area, groups@, *old(state)),
    ensures
        final(buffer)@ == old(buffer)@ + strip_frame_draws(*snapshot, *config, area, groups@, *old(state), *old(hits)),
        final(state).tab_scroll as int == strip_scroll(*snapshot, *config, area, groups@, *old(state)),
        !final(state).reveal_focused_tab,
        final(state).tab_drag_insert_index == old(state).tab_drag_insert_index,
        (hit_views(final(hits).tabs@), hit_views(final(hits).agents@), final(hits).new_tab,
            final(hits).tab_scroll_left, final(hits).tab_scroll_right)
            == strip_hits(*snapshot, *config, area, groups@, *old(state), *old(hits)),
        final(hits).sidebar_divider == strip_divider(area, config.mouse_capture),
{
    let ghost snap = *snapshot;
    let palette = &config.palette;
    let compact = config.vertical_tabs_compact;
    buffer.set_style(area, Style { fg: None, bg: Some(palette.sidebar_bg), bold: false, dim: false });
    let content = if config.mouse_capture {
        Rect::new(area.x, area.y, area.width, area.height.saturating_sub(TAB_STRIP_CHROME_HEIGHT))
    } else {
        area
    };
    let ftabs = focused_tabs(snapshot);
    let heights = strip_row_heights(groups, compact);
    assert(heights@ =~= strip_heights(groups@, compact));
    update_strip_scroll(state, snapshot, groups, &heights, content.height);
    let ghost scroll = state.tab_scroll as int;
    let ghost n = drawn_groups(heights@, scroll, strip_rows_available(content));
    let ghost buf1 = buffer@;
    let last = render_strip_groups(buffer, content, groups, &heights, state.tab_scroll, snapshot, config, hits);
    let ghost buf2 = buffer@;
    if config.mouse_capture {
        let overflow = overflow_tab_strip(heights.as_slice(), content.height);
        let can_scroll_down = match last {
            Some(index) => index + 1 < groups.len(),
            None => false,
        };
        render_tab_strip_chrome(buffer, area, overflow, can_scroll_down, palette, hits);
    }
    let ghost buf3 = buffer@;
    let ghost after = strip_hits(snap, *config, area, groups@, *old(state), *old(hits));
    assert(hit_views(hits.tabs@) == after.0);
    assert(hits.tab_scroll_left == after.3);
    assert(hits.tab_scroll_right == after.4);
    match state.tab_drag_insert_index {
        Some(insert_index) => {
            match tab_drop_indicator_y(hits, snapshot, ftabs.as_slice(), insert_index) {
                Some(indicator_y) => {
                    let last_row = content.bottom().saturating_sub(1);
                    let y = if indicator_y < last_row { indicator_y } else { last_row };
                    let rule = horizontal_rule(content.width);
                    put_text(buffer, content.x, y, content.width, rule.as_slice(),
                        Style { fg: Some(palette.accent), bg: None, bold: false, dim: false });
                },
                None => {},
            }
        },
        None => {},
    }
    hits.sidebar_divider = Rect::new(area.right().saturating_sub(1), area.y, 1, content.height);
    assert(buffer@ =~= old(buffer)@ + strip_frame_draws(snap, *config, area, groups@, *old(state), *old(hits)));
}

/// Draw the vertical tab strip: every workspace's tabs in one rounded box
/// per workspace, scrolled by whole groups, with the chrome row when the
/// mouse is captured and a marker where a dragged tab would drop.
pub fn render_tab_strip(
    buffer: &mut Buffer,
    area: Rect,
    snapshot: &ClientShellSnapshot,
    config: &ClientShellConfig,
    state: &mut ShellRenderState,
    hits: &mut ShellHitMap,
)
    requires
        forall|groups: Seq<TabStripGroup>|
            #[trigger] strip_groups_built(*snapshot, groups) ==> strip_frame_ok(*snapshot, *config, area, groups, *old(state)),
    ensures
        (area.width == 0 || area.height == 0) ==> {
            &&& final(buffer)@ == old(buffer)@.push(Draw::Fill(area, bg_style(config.palette.sidebar_bg)))
            &&& *final(state) == *old(state)
            &&& *final(hits) == *old(hits)
        },
        !(area.width == 0 || area.height == 0) ==> exists|groups: Seq<TabStripGroup>| {
            &&& #[trigger] strip_groups_built(*snapshot, groups)
            &&& final(buffer)@ == old(buffer)@ + strip_frame_draws(*snapshot, *config, area, groups, *old(state), *old(hits))
            &&& final(state).tab_scroll as int == strip_scroll(*snapshot, *config, area, groups, *old(state))
            &&& !final(state).reveal_focused_tab
            &&& final(state).tab_drag_insert_index == old(state).tab_drag_insert_index
            &&& (hit_views(final(hits).tabs@), hit_views(final(hits).agents@), final(hits).new_tab,
                final(hits).tab_scroll_left, final(hits).tab_scroll_right)
                == strip_hits(*snapshot, *config, area, groups, *old(state), *old(hits))
        },
        !(area.width == 0 || area.height == 0) ==> final(hits).sidebar_divider == strip_divider(area, config.mouse_capture),
{
    if area.width == 0 || area.height == 0 {
        buffer.set_style(area, Style { fg: None, bg: Some(config.palette.sidebar_bg), bold: false, dim: false });
        return;
    }
    let groups = build_strip_groups(snapshot);
    assert(strip_groups_built(*snapshot, groups@));
    render_strip_frame(buffer, area, snapshot, config, state, hits, &groups);
}

/// Draw the vertical tab strip when the frame can be drawn: every group's
/// height, the geometry of the groups it draws and the widths their rows
/// measure fit (see `strip_geometry_ok` and `strip_frame_texts_ok`); report
/// `true`. Otherwise draw nothing, leave the scroll state and hit map as they
/// were, and report `false`.
pub fn try_render_tab_strip(
    buffer: &mut Buffer,
    area: Rect,
    snapshot: &ClientShellSnapshot,
    config: &ClientShellConfig,
    state: &mut ShellRenderState,
    hits: &mut ShellHitMap,
) -> (drawn: bool)
    ensures
        (area.width == 0 || area.height == 0) ==> {
            &&& drawn
            &&& final(buffer)@ == old(buffer)@.push(Draw::Fill(area, bg_style(config.palette.sidebar_bg)))
            &&& *final(state) == *old(state)
            &&& *final(hits) == *old(hits)
        },
        !(area.width == 0 || area.height == 0) ==> exists|groups: Seq<TabStripGroup>| {
            &&& #[trigger] strip_groups_built(*snapshot, groups)
            &&& drawn == (strip_geometry_ok(*snapshot, *config, area, groups, *old(state))
                && strip_frame_texts_ok(*snapshot, *config, area, groups, *old(state)))
            &&& !drawn ==> {
                &&& final(buffer)@ == old(buffer)@
                &&& *final(state) == *old(state)
                &&& *final(hits) == *old(hits)
            }
            &&& drawn ==> {
                &&& final(buffer)@ == old(buffer)@ + strip_frame_draws(*snapshot, *config, area, groups, *old(state),
                    *old(hits))
                &&& final(state).tab_scroll as int == strip_scroll(*snapshot, *config, area, groups, *old(state))
                &&& !final(state).reveal_focused_tab
                &&& final(state).tab_drag_insert_index == old(state).tab_drag_insert_index
                &&& (hit_views(final(hits).tabs@), hit_views(final(hits).agents@), final(hits).new_tab,
                    final(hits).tab_scroll_left, final(hits).tab_scroll_right)
                    == strip_hits(*snapshot, *config, area, groups, *old(state), *old(hits))
                &&& final(hits).sidebar_divider == strip_divider(area, config.mouse_capture)
            }
        },
{
    let ghost snap = *snapshot;
    if area.width == 0 || area.height == 0 {
        buffer.set_style(area, Style { fg: None, bg: Some(config.palette.sidebar_bg), bold: false, dim: false });
        return true;
    }
    let compact = config.vertical_tabs_compact;
    let groups = build_strip_groups(snapshot);
    assert(strip_groups_built(snap, groups@));
    let mut g: usize = 0;
    while g < groups.len()
        invariant
            snap == *snapshot,
            compact == config.vertical_tabs_compact,
            !(area.width == 0 || area.height == 0),
            strip_groups_built(snap, groups@),
            buffer@ == old(buffer)@,
            *state == *old(state),
            *hits == *old(hits),
            g <= groups@.len(),
            forall|j: int| 0 <= j < g ==> group_height(#[trigger] groups@[j].tabs@, compact) <= u16::MAX + 2,
        decreases groups.len() - g,
    {
        if !group_height_check(&groups[g], compact) {
            assert(!strip_geometry_ok(snap, *config, area, groups@, *old(state)));
            assert(strip_groups_built(*snapshot, groups@));
            return false;
        }
        g = g + 1;
    }
    let heights = strip_row_heights(&groups, compact);
    assert(heights@ =~= strip_heights(groups@, compact));
    let content = if config.mouse_capture {
        Rect::new(area.x, area.y, area.width, area.height.saturating_sub(TAB_STRIP_CHROME_HEIGHT))
    } else {
        area
    };
    assert(content == strip_content(area, config.mouse_capture));
    let mut probe = *state;
    update_strip_scroll(&mut probe, snapshot, &groups, &heights, content.height);
    assert(probe.tab_scroll as int == strip_scroll(snap, *config, area, groups@, *old(state)));
    if !groups_fit_check(snapshot, config, content, &groups, &heights, probe.tab_scroll) {
        return false;
    }
    proof {
        lemma_strip_frame_ok(snap, *config, area, groups@, *old(state));
    }
    render_strip_frame(buffer, area, snapshot, config, state, hits, &groups);
    true
}

} // verus!

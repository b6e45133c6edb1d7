//! A whole frame of the horizontal tab bar.
use vstd::prelude::*;
use crate::bar::{TAB_SCROLL_BUTTON_WIDTH, MIN_TAB_STRIP_WIDTH, bar_tab_draws, desired_width, tab_w, bar_tab_hits, bar_tabs_end, bar_tabs_ok,
    content_area, desired_tab_widths, desired_widths, drawn_tabs, lemma_bar_tabs_ok_first, lemma_drawn_tabs_all, lemma_drawn_tabs_cover,
    render_tab_bar_status,
    render_tab_bar_tabs, tab_bar_content_area, tab_bar_status_draws};
use crate::draw::{Buffer, Draw, put_text};
use crate::drop::{drop_column, tab_drop_indicator_x, visible_tabs};
use crate::frame::{focused_tab_indices, focused_tabs};
use crate::model::{Palette, ClientShellConfig, ClientShellSnapshot, MIN_TAB_WIDTH, NEW_TAB_WIDTH, Rect, ShellHitMap, Style, add16, bg_style,
    fg_bg_style, fg_style, min_int, rect, sub0};
use crate::scroll::{centered_scroll, centered_tab_scroll, is_centered_scroll, lemma_centered_scroll_exists, lemma_span_gap,
    lemma_span_grows, lemma_span_nonneg,
    lemma_centered_scroll_unique, lemma_full_max_scroll_exists, lemma_full_max_scroll_unique,
    law_bar_reveal_keeps_focused_visible, full_max_scroll, max_tab_scroll, sat16, span};
use crate::strip::hit_views;

verus! {

/// Columns of the "new tab" button (none without mouse chrome).
pub open spec fn new_tab_cols(mouse: bool) -> int {
    if mouse { NEW_TAB_WIDTH as int } else { 0 }
}

/// Columns the tabs ask for in total: their widths, the gaps between them
/// and the "new tab" button (each step saturated at `u16::MAX`).
pub open spec fn bar_total(ws: Seq<u16>, mouse: bool) -> int {
    let gaps = sub0(ws.len() as int, 1);
    add16(add16(sat16(span(ws, 0, 0, ws.len() as int)), if gaps > u16::MAX { u16::MAX as int } else { gaps }),
        new_tab_cols(mouse))
}

/// The tabs do not fit: with mouse chrome, only once the bar is wide enough
/// for its scroll buttons.
pub open spec fn bar_overflows(ws: Seq<u16>, content: Rect, mouse: bool) -> bool {
    bar_total(ws, mouse) > content.width && (!mouse || content.width >= MIN_TAB_STRIP_WIDTH)
}

/// Columns available to tabs.
pub open spec fn bar_space(ws: Seq<u16>, content: Rect, mouse: bool) -> int {
    if bar_overflows(ws, content, mouse) && mouse {
        sub0(sub0(content.width as int, NEW_TAB_WIDTH as int), 2 * TAB_SCROLL_BUTTON_WIDTH)
    } else {
        sub0(content.width as int, new_tab_cols(mouse))
    }
}

/// `f` is the first focused tab of the list.
pub open spec fn is_first_focused_tab(snap: ClientShellSnapshot, tabs: Seq<usize>, f: int) -> bool {
    &&& 0 <= f < tabs.len()
    &&& snap.tabs@[tabs[f] as int].focused
    &&& forall|g: int| 0 <= g < f ==> !#[trigger] snap.tabs@[tabs[g] as int].focused
}

/// The bar's scroll after a frame: back to the start when the tabs fit;
/// when asked to reveal the focused tab, the position that best centres it
/// (no further than the maximum); otherwise the old scroll, clamped.
pub open spec fn next_bar_scroll(snap: ClientShellSnapshot, tabs: Seq<usize>, ws: Seq<u16>, content: Rect, mouse: bool,
    current: int, reveal: bool) -> int {
    let avail = bar_space(ws, content, mouse);
    let max = full_max_scroll(ws, 1, avail);
    if !bar_overflows(ws, content, mouse) {
        0
    } else if reveal {
        if exists|f: int| is_first_focused_tab(snap, tabs, f) {
            let f = choose|f: int| is_first_focused_tab(snap, tabs, f);
            let c = centered_scroll(ws, f, avail);
            if c < max { c } else { max }
        } else {
            current
        }
    } else {
        if current < max { current } else { max }
    }
}

/// Centring the focused tab only adds up widths that fit below `u16::MAX`.
pub open spec fn bar_scroll_ok(snap: ClientShellSnapshot, tabs: Seq<usize>, ws: Seq<u16>, content: Rect, mouse: bool,
    reveal: bool) -> bool {
    bar_overflows(ws, content, mouse) && reveal ==> forall|f: int|
        #[trigger] is_first_focused_tab(snap, tabs, f) ==> forall|k: int| 0 <= k < f ==> #[trigger] ws[k] < u16::MAX
}

/// The first focused tab of the list.
fn first_focused_tab(snapshot: &ClientShellSnapshot, tabs: &[usize]) -> (r: Option<usize>)
    requires
        forall|k: int| 0 <= k < tabs@.len() ==> #[trigger] tabs@[k] < snapshot.tabs.len(),
    ensures
        match r {
            Some(f) => is_first_focused_tab(*snapshot, tabs@, f as int),
            None => !exists|f: int| is_first_focused_tab(*snapshot, tabs@, f),
        },
{
    let mut i: usize = 0;
    while i < tabs.len()
        invariant
            i <= tabs.len(),
            forall|k: int| 0 <= k < tabs@.len() ==> #[trigger] tabs@[k] < snapshot.tabs.len(),
            forall|g: int| 0 <= g < i ==> !#[trigger] snapshot.tabs@[tabs@[g] as int].focused,
        decreases tabs.len() - i,
    {
        if snapshot.tabs[tabs[i]].focused {
            return Some(i);
        }
        i = i + 1;
    }
    None
}

/// Settle the bar's scroll for this frame (see `next_bar_scroll`) and clear
/// the request to reveal the focused tab.
pub(crate) fn update_tab_bar_scroll(
    tab_scroll: &mut usize,
    reveal_focused_tab: &mut bool,
    snapshot: &ClientShellSnapshot,
    tabs: &[usize],
    widths: &[u16],
    content: Rect,
    mouse: bool,
    overflow: bool,
    available: u16,
)
    requires
        forall|k: int| 0 <= k < tabs@.len() ==> #[trigger] tabs@[k] < snapshot.tabs.len(),
        widths@.len() == tabs@.len(),
        overflow == bar_overflows(widths@, content, mouse),
        available as int == bar_space(widths@, content, mouse),
        bar_scroll_ok(*snapshot, tabs@, widths@, content, mouse, *old(reveal_focused_tab)),
    ensures
        *final(tab_scroll) as int == next_bar_scroll(*snapshot, tabs@, widths@, content, mouse, *old(tab_scroll) as int,
            *old(reveal_focused_tab)),
        !*final(reveal_focused_tab),
{
    let max = max_tab_scroll(widths, available);
    proof {
        let m = full_max_scroll(widths@, 1, available as int);
        lemma_full_max_scroll_unique(widths@, 1, available as int, m, max as int);
    }
    if !overflow {
        *tab_scroll = 0;
    } else if *reveal_focused_tab {
        match first_focused_tab(snapshot, tabs) {
            Some(focused) => {
                proof {
                    let f = choose|f: int| is_first_focused_tab(*snapshot, tabs@, f);
                    if f < focused {
                        assert(snapshot.tabs@[tabs@[f] as int].focused);
                    } else if focused < f {
                        assert(snapshot.tabs@[tabs@[focused as int] as int].focused);
                    }
                    assert(is_first_focused_tab(*snapshot, tabs@, focused as int));
                }
                let c = centered_tab_scroll(focused, widths, available);
                proof {
                    let q = centered_scroll(widths@, focused as int, available as int);
                    lemma_centered_scroll_unique(widths@, focused as int, available as int, q, c as int);
                }
                *tab_scroll = if c < max { c } else { max };
            },
            None => {},
        }
    } else {
        *tab_scroll = if *tab_scroll < max { *tab_scroll } else { max };
    }
    *reveal_focused_tab = false;
}


/// Geometry of a bar frame, as mathematical values.
pub struct BarLayout {
    /// The focused workspace's tabs (snapshot indices).
    pub tabs: Seq<usize>,
    /// The columns each asks for.
    pub widths: Seq<u16>,
    /// The part of the bar for tabs and their buttons.
    pub content: Rect,
    /// The tabs do not fit.
    pub overflow: bool,
    /// Scroll buttons are shown.
    pub chrome: bool,
    /// The scroll the bar settles on.
    pub scroll: int,
    /// The scroll-left button.
    pub left: Rect,
    /// The scroll-right button.
    pub right: Rect,
    /// Column where the first shown tab starts.
    pub x0: int,
    /// Column tabs must end before.
    pub tab_right: int,
    /// How many tabs are drawn.
    pub count: int,
}

/// Geometry of the bar for this frame.
#[verifier::opaque]
pub open spec fn bar_layout(snap: ClientShellSnapshot, config: ClientShellConfig, area: Rect, tab_scroll: int, reveal: bool) -> BarLayout {
    let mouse = config.mouse_capture;
    let tabs = focused_tab_indices(snap, snap.tabs@.len() as int);
    let widths = desired_widths(snap, tabs);
    let content = content_area(snap, area);
    let overflow = bar_overflows(widths, content, mouse);
    let chrome = overflow && mouse;
    let scroll = next_bar_scroll(snap, tabs, widths, content, mouse, tab_scroll, reveal);
    let left = rect(content.x, content.y, min_int(TAB_SCROLL_BUTTON_WIDTH as int, content.width as int) as u16, 1);
    let x0 = if chrome { left.right_edge() } else { content.x as int };
    let tab_right = if chrome {
        sub0(content.right_edge(), (NEW_TAB_WIDTH + TAB_SCROLL_BUTTON_WIDTH) as int)
    } else {
        sub0(content.right_edge(), new_tab_cols(mouse))
    };
    BarLayout {
        tabs,
        widths,
        content,
        overflow,
        chrome,
        scroll,
        left,
        right: rect(tab_right as u16, area.y, TAB_SCROLL_BUTTON_WIDTH, 1),
        x0,
        tab_right,
        count: drawn_tabs(widths, scroll, sub0(tab_right, x0)),
    }
}

/// The bar's "new tab" button: after the scroll-right button with chrome,
/// else just after the last tab.
pub open spec fn bar_new_tab(layout: BarLayout, area: Rect, mouse: bool, old_new_tab: Rect) -> Rect {
    let content_right = layout.content.right_edge();
    if layout.chrome {
        rect(layout.right.right_edge() as u16, area.y,
            min_int(sub0(content_right, layout.right.right_edge()), NEW_TAB_WIDTH as int) as u16, 1)
    } else if mouse {
        let x = bar_tabs_end(layout.widths, layout.scroll, layout.x0, layout.tab_right, layout.count);
        rect(min_int(x, content_right) as u16, area.y, min_int(sub0(content_right, x), NEW_TAB_WIDTH as int) as u16, 1)
    } else {
        old_new_tab
    }
}

/// The hit map after a frame of the bar.
#[verifier::opaque]
pub open spec fn bar_hits(snap: ClientShellSnapshot, config: ClientShellConfig, area: Rect, tab_scroll: int, reveal: bool,
    hits: ShellHitMap) -> (Seq<(Rect, Seq<char>)>, Rect, Rect, Rect) {
    let l = bar_layout(snap, config, area, tab_scroll, reveal);
    (
        hit_views(hits.tabs@) + bar_tab_hits(snap, l.tabs, l.widths, l.scroll, l.x0, l.tab_right, area.y, l.count),
        bar_new_tab(l, area, config.mouse_capture, hits.new_tab),
        if l.chrome { l.left } else { hits.tab_scroll_left },
        if l.chrome { l.right } else { hits.tab_scroll_right },
    )
}

/// Some tab after the last one drawn is scrolled out on the right.
pub open spec fn more_on_right(l: BarLayout) -> bool {
    l.count > 0 && l.scroll + l.count < l.tabs.len()
}

/// The scroll-left button (with chrome).
pub open spec fn bar_left_draws(l: BarLayout, palette: Palette) -> Seq<Draw> {
    if l.chrome {
        seq![Draw::Text(l.left.x, l.content.y, l.left.width, seq![' ', '<', ' '],
            fg_bg_style(if l.scroll > 0 { palette.overlay1 } else { palette.overlay0 }, palette.surface0))]
    } else {
        Seq::empty()
    }
}

/// The scroll-right button (with chrome).
pub open spec fn bar_right_draws(l: BarLayout, area: Rect, palette: Palette) -> Seq<Draw> {
    if l.chrome {
        seq![Draw::Text(l.right.x, area.y, l.right.width, seq![' ', '>', ' '],
            fg_bg_style(if more_on_right(l) { palette.overlay1 } else { palette.overlay0 }, palette.surface0))]
    } else {
        Seq::empty()
    }
}

/// The "new tab" button (with mouse chrome).
pub open spec fn bar_plus_draws(new_tab: Rect, area: Rect, mouse: bool, palette: Palette) -> Seq<Draw> {
    if mouse {
        seq![Draw::Text(new_tab.x, area.y, new_tab.width, seq![' ', '+', ' '], fg_bg_style(palette.overlay1, palette.panel_bg))]
    } else {
        Seq::empty()
    }
}

/// Ellipses where tabs are scrolled out: after the scroll-left button (or at
/// the start) and before the scroll-right button (or at the end).
pub open spec fn bar_ellipsis_draws(content: Rect, area: Rect, left_out: bool, right_out: bool, left: Rect, right: Rect,
    palette: Palette) -> Seq<Draw> {
    let content_right = content.right_edge();
    let lx = if left.width > 0 { left.right_edge() } else { content.x as int };
    let rx = if right.width > 0 { sub0(right.x as int, 1) } else { sub0(content_right, 1) };
    (if left_out {
        seq![Draw::Text(lx as u16, area.y, if lx < content_right { 1u16 } else { 0u16 }, seq!['…'], fg_style(palette.overlay0))]
    } else {
        Seq::empty()
    }) + (if right_out {
        seq![Draw::Text(rx as u16, area.y, if rx >= content.x && rx < content_right { 1u16 } else { 0u16 }, seq!['…'],
            fg_style(palette.overlay0))]
    } else {
        Seq::empty()
    })
}

/// The drop marker of a dragged tab, clamped inside the content area.
pub open spec fn bar_marker_draws(snap: ClientShellSnapshot, tabs: Seq<usize>, tab_hits: Seq<(Rect, Seq<char>)>, content: Rect,
    area: Rect, left: Rect, right: Rect, drag: Option<usize>, palette: Palette) -> Seq<Draw> {
    match drag {
        Some(insert) => match drop_column(visible_tabs(snap, tabs, tab_hits, tab_hits.len() as int), tabs.len() as int,
            insert as int, left, right) {
            Some(x) => seq![Draw::Text(min_int(x as int, sub0(content.right_edge(), 1)) as u16, area.y, 1, seq!['│'],
                fg_style(palette.accent))],
            None => Seq::empty(),
        },
        None => Seq::empty(),
    }
}

/// Everything a frame of the bar draws: background, scroll-left button, the
/// tabs, scroll-right and "new tab" buttons, ellipses where tabs are
/// scrolled out, the drop marker of a dragged tab, and the status segments.
#[verifier::opaque]
pub open spec fn bar_frame_draws(snap: ClientShellSnapshot, config: ClientShellConfig, area: Rect, tab_scroll: int,
    reveal: bool, drag: Option<usize>, hits: ShellHitMap) -> Seq<Draw> {
    let palette = config.palette;
    let l = bar_layout(snap, config, area, tab_scroll, reveal);
    let after = bar_hits(snap, config, area, tab_scroll, reveal, hits);
    seq![Draw::Fill(area, bg_style(palette.panel_bg))]
        + bar_left_draws(l, palette)
        + bar_tab_draws(snap, l.tabs, l.widths, l.scroll, l.x0, l.tab_right, area.y, palette, l.count)
        + bar_right_draws(l, area, palette)
        + bar_plus_draws(after.1, area, config.mouse_capture, palette)
        + bar_ellipsis_draws(l.content, area, l.count > 0 && l.scroll > 0, more_on_right(l), after.2, after.3, palette)
        + bar_marker_draws(snap, l.tabs, after.0, l.content, area, after.2, after.3, drag, palette)
        + tab_bar_status_draws(snap, area, palette)
}

/// A frame of the bar can be drawn without arithmetic overflow.
pub open spec fn bar_frame_ok(snap: ClientShellSnapshot, config: ClientShellConfig, area: Rect, tab_scroll: int, reveal: bool) -> bool {
    let l = bar_layout(snap, config, area, tab_scroll, reveal);
    &&& bar_scroll_ok(snap, l.tabs, l.widths, l.content, config.mouse_capture, reveal)
    &&& bar_tabs_ok(l.widths, l.scroll, l.x0, l.tab_right)
}

/// What the bar measures this frame: the focused workspace's tabs, their
/// widths, the content area, whether the tabs overflow it and the columns
/// left for them.
fn bar_measure(snapshot: &ClientShellSnapshot, config: &ClientShellConfig, area: Rect)
    -> (r: (Vec<usize>, Vec<u16>, Rect, bool, u16))
    ensures
        r.0@ == focused_tab_indices(*snapshot, snapshot.tabs@.len() as int),
        r.1@ == desired_widths(*snapshot, r.0@),
        r.1@.len() == r.0@.len(),
        r.2 == content_area(*snapshot, area),
        r.3 == bar_overflows(r.1@, r.2, config.mouse_capture),
        r.4 as int == bar_space(r.1@, r.2, config.mouse_capture),
        forall|k: int| 0 <= k < r.0@.len() ==> #[trigger] r.0@[k] < snapshot.tabs.len(),
{
    let tabs = focused_tabs(snapshot);
    let widths = desired_tab_widths(snapshot, tabs.as_slice());
    let content = tab_bar_content_area(snapshot, area);
    let mouse_chrome = config.mouse_capture;
    let new_tab_width: u16 = if mouse_chrome { NEW_TAB_WIDTH } else { 0 };
    let mut sum: u16 = 0;
    let mut i: usize = 0;
    while i < widths.len()
        invariant
            i <= widths.len(),
            sum as int == sat16(span(widths@, 0, 0, i as int)),
        decreases widths.len() - i,
    {
        proof {
            crate::scroll::lemma_span_nonneg(widths@, 0, 0, i as int);
        }
        sum = sum.saturating_add(widths[i]);
        i = i + 1;
    }
    let gaps = tabs.len().saturating_sub(1);
    let gaps16: u16 = if gaps > u16::MAX as usize { u16::MAX } else { gaps as u16 };
    let desired_total = sum.saturating_add(gaps16).saturating_add(new_tab_width);
    assert(desired_total as int == bar_total(widths@, mouse_chrome));
    let overflow = desired_total > content.width && (!mouse_chrome || content.width >= MIN_TAB_STRIP_WIDTH);
    let available = if overflow && mouse_chrome {
        content.width.saturating_sub(NEW_TAB_WIDTH).saturating_sub(TAB_SCROLL_BUTTON_WIDTH * 2)
    } else {
        content.width.saturating_sub(new_tab_width)
    };
    (tabs, widths, content, overflow, available)
}

/// The geometry of this frame: the focused workspace's tabs, their widths,
/// the content area and whether they overflow; settles the scroll.
fn bar_geometry(
    snapshot: &ClientShellSnapshot,
    config: &ClientShellConfig,
    area: Rect,
    tab_scroll: &mut usize,
    reveal_focused_tab: &mut bool,
) -> (r: (Vec<usize>, Vec<u16>, Rect, bool))
    requires
        ({
            let l = bar_layout(*snapshot, *config, area, *old(tab_scroll) as int, *old(reveal_focused_tab));
            bar_scroll_ok(*snapshot, l.tabs, l.widths, l.content, config.mouse_capture, *old(reveal_focused_tab))
        }),
    ensures
        ({
            let l = bar_layout(*snapshot, *config, area, *old(tab_scroll) as int, *old(reveal_focused_tab));
            &&& r.0@ == l.tabs
            &&& r.1@ == l.widths
            &&& r.2 == l.content
            &&& r.3 == l.overflow
            &&& *final(tab_scroll) as int == l.scroll
        }),
        forall|k: int| 0 <= k < r.0@.len() ==> #[trigger] r.0@[k] < snapshot.tabs.len(),
        !*final(reveal_focused_tab),
{
    proof {
        reveal(bar_layout);
    }
    let (tabs, widths, content, overflow, available) = bar_measure(snapshot, config, area);
    update_tab_bar_scroll(tab_scroll, reveal_focused_tab, snapshot, tabs.as_slice(), widths.as_slice(), content,
        config.mouse_capture, overflow, available);
    (tabs, widths, content, overflow)
}

/// The parts of the bar's geometry that follow from its content area,
/// overflow and scroll.
proof fn lemma_bar_layout(snap: ClientShellSnapshot, config: ClientShellConfig, area: Rect, tab_scroll: int, reveal: bool)
    ensures
        ({
            let l = bar_layout(snap, config, area, tab_scroll, reveal);
            let left = rect(l.content.x, l.content.y,
                min_int(TAB_SCROLL_BUTTON_WIDTH as int, l.content.width as int) as u16, 1);
            &&& l.tabs == focused_tab_indices(snap, snap.tabs@.len() as int)
            &&& l.widths == desired_widths(snap, l.tabs)
            &&& l.widths.len() == l.tabs.len()
            &&& l.chrome == (l.overflow && config.mouse_capture)
            &&& l.left == left
            &&& l.x0 == if l.chrome { left.right_edge() } else { l.content.x as int }
            &&& l.tab_right == if l.chrome {
                sub0(l.content.right_edge(), (NEW_TAB_WIDTH + TAB_SCROLL_BUTTON_WIDTH) as int)
            } else {
                sub0(l.content.right_edge(), new_tab_cols(config.mouse_capture))
            }
            &&& l.right == rect(l.tab_right as u16, area.y, TAB_SCROLL_BUTTON_WIDTH, 1)
            &&& l.count == drawn_tabs(l.widths, l.scroll, sub0(l.tab_right, l.x0))
        }),
{
    reveal(bar_layout);
}

/// The scroll-left button (with chrome); returns where tabs start.
fn render_tab_bar_left(buffer: &mut Buffer, hits: &mut ShellHitMap, l: Ghost<BarLayout>, content: Rect, chrome: bool,
    scroll: usize, palette: &crate::model::Palette) -> (x0: u16)
    requires
        content == l@.content,
        chrome == l@.chrome,
        scroll as int == l@.scroll,
        l@.left == rect(content.x, content.y, min_int(TAB_SCROLL_BUTTON_WIDTH as int, content.width as int) as u16, 1),
    ensures
        final(buffer)@ == old(buffer)@ + bar_left_draws(l@, *palette),
        ({
            let left = rect(content.x, content.y, min_int(TAB_SCROLL_BUTTON_WIDTH as int, content.width as int) as u16, 1);
            &&& x0 as int == if chrome { left.right_edge() } else { content.x as int }
            &&& final(hits).tab_scroll_left == if chrome { left } else { old(hits).tab_scroll_left }
            &&& final(buffer)@ == old(buffer)@ + if chrome {
                seq![Draw::Text(left.x, content.y, left.width, seq![' ', '<', ' '],
                    fg_bg_style(if scroll > 0 { palette.overlay1 } else { palette.overlay0 }, palette.surface0))]
            } else {
                Seq::empty()
            }
        }),
        final(hits).tabs == old(hits).tabs,
        final(hits).agents == old(hits).agents,
        final(hits).sidebar_divider == old(hits).sidebar_divider,
        final(hits).new_tab == old(hits).new_tab,
        final(hits).tab_scroll_right == old(hits).tab_scroll_right,
{
    if !chrome {
        assert(final(buffer)@ =~= old(buffer)@);
        return content.x;
    }
    let button = if TAB_SCROLL_BUTTON_WIDTH < content.width { TAB_SCROLL_BUTTON_WIDTH } else { content.width };
    hits.tab_scroll_left = Rect::new(content.x, content.y, button, 1);
    let label = vec![' ', '<', ' '];
    assert(label@ =~= seq![' ', '<', ' ']);
    put_text(buffer, hits.tab_scroll_left.x, content.y, hits.tab_scroll_left.width, label.as_slice(),
        Style {
            fg: Some(if scroll > 0 { palette.overlay1 } else { palette.overlay0 }),
            bg: Some(palette.surface0),
            bold: false,
            dim: false,
        });
    assert(final(buffer)@ =~= old(buffer)@ + seq![Draw::Text(hits.tab_scroll_left.x, content.y, hits.tab_scroll_left.width,
        seq![' ', '<', ' '], fg_bg_style(if scroll > 0 { palette.overlay1 } else { palette.overlay0 }, palette.surface0))]);
    hits.tab_scroll_left.right()
}

/// The scroll-right and "new tab" buttons.
fn render_tab_bar_right(buffer: &mut Buffer, hits: &mut ShellHitMap, l: Ghost<BarLayout>, area: Rect, content: Rect,
    chrome: bool, mouse: bool, tab_right: u16, x_end: u16, more_right: bool, palette: &crate::model::Palette)
    requires
        content == l@.content,
        chrome == l@.chrome,
        tab_right as int == l@.tab_right,
        x_end as int == bar_tabs_end(l@.widths, l@.scroll, l@.x0, l@.tab_right, l@.count),
        l@.right == rect(tab_right, area.y, TAB_SCROLL_BUTTON_WIDTH, 1),
        chrome ==> mouse,
    ensures
        final(hits).new_tab == bar_new_tab(l@, area, mouse, old(hits).new_tab),
        final(hits).tab_scroll_right == if chrome { l@.right } else { old(hits).tab_scroll_right },
        more_right == more_on_right(l@) ==> final(buffer)@ == old(buffer)@ + bar_right_draws(l@, area, *palette)
            + bar_plus_draws(final(hits).new_tab, area, mouse, *palette),
        final(buffer)@ == old(buffer)@ + (if chrome {
            seq![Draw::Text(l@.right.x, area.y, l@.right.width, seq![' ', '>', ' '],
                fg_bg_style(if more_right { palette.overlay1 } else { palette.overlay0 }, palette.surface0))]
        } else {
            Seq::empty()
        }) + (if mouse {
            seq![Draw::Text(final(hits).new_tab.x, area.y, final(hits).new_tab.width, seq![' ', '+', ' '],
                fg_bg_style(palette.overlay1, palette.panel_bg))]
        } else {
            Seq::empty()
        }),
        final(hits).tabs == old(hits).tabs,
        final(hits).agents == old(hits).agents,
        final(hits).sidebar_divider == old(hits).sidebar_divider,
        final(hits).tab_scroll_left == old(hits).tab_scroll_left,
{
    let ghost start = buffer@;
    if chrome {
        hits.tab_scroll_right = Rect::new(tab_right, area.y, TAB_SCROLL_BUTTON_WIDTH, 1);
        let label = vec![' ', '>', ' '];
        assert(label@ =~= seq![' ', '>', ' ']);
        put_text(buffer, hits.tab_scroll_right.x, area.y, hits.tab_scroll_right.width, label.as_slice(),
            Style {
                fg: Some(if more_right { palette.overlay1 } else { palette.overlay0 }),
                bg: Some(palette.surface0),
                bold: false,
                dim: false,
            });
        let after_right = hits.tab_scroll_right.right();
        let room = content.right().saturating_sub(after_right);
        hits.new_tab = Rect::new(after_right, area.y, if room < NEW_TAB_WIDTH { room } else { NEW_TAB_WIDTH }, 1);
    } else if mouse {
        let content_right = content.right();
        let room = content_right.saturating_sub(x_end);
        hits.new_tab = Rect::new(if x_end < content_right { x_end } else { content_right }, area.y,
            if room < NEW_TAB_WIDTH { room } else { NEW_TAB_WIDTH }, 1);
    }
    let ghost mid = buffer@;
    if mouse {
        let label = vec![' ', '+', ' '];
        assert(label@ =~= seq![' ', '+', ' ']);
        put_text(buffer, hits.new_tab.x, area.y, hits.new_tab.width, label.as_slice(),
            Style { fg: Some(palette.overlay1), bg: Some(palette.panel_bg), bold: false, dim: false });
    }
    assert(final(buffer)@ =~= start + (if chrome {
        seq![Draw::Text(l@.right.x, area.y, l@.right.width, seq![' ', '>', ' '],
            fg_bg_style(if more_right { palette.overlay1 } else { palette.overlay0 }, palette.surface0))]
    } else {
        Seq::empty()
    }) + (if mouse {
        seq![Draw::Text(final(hits).new_tab.x, area.y, final(hits).new_tab.width, seq![' ', '+', ' '],
            fg_bg_style(palette.overlay1, palette.panel_bg))]
    } else {
        Seq::empty()
    }));
}

/// Ellipses where tabs are scrolled out on either side.
fn render_tab_bar_ellipses(buffer: &mut Buffer, hits: &ShellHitMap, area: Rect, content: Rect, scrolled_out_left: bool,
    more_right: bool, palette: &crate::model::Palette)
    ensures
        final(buffer)@ == old(buffer)@ + bar_ellipsis_draws(content, area, scrolled_out_left, more_right, hits.tab_scroll_left,
            hits.tab_scroll_right, *palette),
        ({
            let content_right = content.right_edge();
            let lx = if hits.tab_scroll_left.width > 0 { hits.tab_scroll_left.right_edge() } else { content.x as int };
            let rx = if hits.tab_scroll_right.width > 0 { sub0(hits.tab_scroll_right.x as int, 1) } else { sub0(content_right, 1) };
            final(buffer)@ == old(buffer)@ + (if scrolled_out_left {
                seq![Draw::Text(lx as u16, area.y, if lx < content_right { 1u16 } else { 0u16 }, seq!['…'], fg_style(palette.overlay0))]
            } else {
                Seq::empty()
            }) + (if more_right {
                seq![Draw::Text(rx as u16, area.y, if rx >= content.x && rx < content_right { 1u16 } else { 0u16 }, seq!['…'],
                    fg_style(palette.overlay0))]
            } else {
                Seq::empty()
            })
        }),
{
    let ghost start = buffer@;
    let ellipsis = vec!['…'];
    assert(ellipsis@ =~= seq!['…']);
    let dim = Style { fg: Some(palette.overlay0), bg: None, bold: false, dim: false };
    if scrolled_out_left {
        let ellipsis_x = if hits.tab_scroll_left.width > 0 { hits.tab_scroll_left.right() } else { content.x };
        put_text(buffer, ellipsis_x, area.y, if ellipsis_x < content.right() { 1 } else { 0 }, ellipsis.as_slice(), dim);
    }
    let ghost mid = buffer@;
    if more_right {
        let ellipsis_x = if hits.tab_scroll_right.width > 0 {
            hits.tab_scroll_right.x.saturating_sub(1)
        } else {
            content.right().saturating_sub(1)
        };
        put_text(buffer, ellipsis_x, area.y, if ellipsis_x >= content.x && ellipsis_x < content.right() { 1 } else { 0 },
            ellipsis.as_slice(), dim);
    }
    proof {
        let content_right = content.right_edge();
        let lx = if hits.tab_scroll_left.width > 0 { hits.tab_scroll_left.right_edge() } else { content.x as int };
        let rx = if hits.tab_scroll_right.width > 0 { sub0(hits.tab_scroll_right.x as int, 1) } else { sub0(content_right, 1) };
        assert(final(buffer)@ =~= start + (if scrolled_out_left {
            seq![Draw::Text(lx as u16, area.y, if lx < content_right { 1u16 } else { 0u16 }, seq!['…'], fg_style(palette.overlay0))]
        } else {
            Seq::empty()
        }) + (if more_right {
            seq![Draw::Text(rx as u16, area.y, if rx >= content.x && rx < content_right { 1u16 } else { 0u16 }, seq!['…'],
                fg_style(palette.overlay0))]
        } else {
            Seq::empty()
        }));
    }
}

/// The drop marker of a dragged tab, if it has a column.
fn render_tab_bar_marker(buffer: &mut Buffer, hits: &ShellHitMap, snapshot: &ClientShellSnapshot, tabs: &[usize], area: Rect,
    content: Rect, drag: Option<usize>, palette: &crate::model::Palette)
    requires
        forall|k: int| 0 <= k < tabs@.len() ==> #[trigger] tabs@[k] < snapshot.tabs.len(),
    ensures
        final(buffer)@ == old(buffer)@ + bar_marker_draws(*snapshot, tabs@, hit_views(hits.tabs@), content, area,
            hits.tab_scroll_left, hits.tab_scroll_right, drag, *palette),
        final(buffer)@ == old(buffer)@ + match drag {
            Some(insert) => match drop_column(visible_tabs(*snapshot, tabs@, hit_views(hits.tabs@), hits.tabs@.len() as int),
                tabs@.len() as int, insert as int, hits.tab_scroll_left, hits.tab_scroll_right) {
                Some(x) => seq![Draw::Text(min_int(x as int, sub0(content.right_edge(), 1)) as u16, area.y, 1, seq!['│'],
                    fg_style(palette.accent))],
                None => Seq::<Draw>::empty(),
            },
            None => Seq::<Draw>::empty(),
        },
{
    match drag {
        Some(insert_index) => {
            match tab_drop_indicator_x(hits, snapshot, tabs, insert_index) {
                Some(indicator_x) => {
                    let limit = content.right().saturating_sub(1);
                    let bar = vec!['│'];
                    assert(bar@ =~= seq!['│']);
                    put_text(buffer, if indicator_x < limit { indicator_x } else { limit }, area.y, 1, bar.as_slice(),
                        Style { fg: Some(palette.accent), bg: None, bold: false, dim: false });
                },
                None => {
                    assert(final(buffer)@ =~= old(buffer)@ + Seq::<Draw>::empty());
                },
            }
        },
        None => {
            assert(final(buffer)@ =~= old(buffer)@ + Seq::<Draw>::empty());
        },
    }
}

/// The pieces drawn one after the other make up a frame of the bar, and the
/// hit regions recorded on the way are those of the frame.
#[verifier::rlimit(60)]
proof fn lemma_bar_frame_compose(snap: ClientShellSnapshot, config: ClientShellConfig, area: Rect, tab_scroll: int,
    reveal: bool, drag: Option<usize>, h0: ShellHitMap, h1: ShellHitMap, b0: Seq<Draw>, b1: Seq<Draw>, b2: Seq<Draw>,
    b3: Seq<Draw>, b4: Seq<Draw>, b5: Seq<Draw>, b6: Seq<Draw>, b7: Seq<Draw>)
    requires
        ({
            let l = bar_layout(snap, config, area, tab_scroll, reveal);
            let palette = config.palette;
            &&& hit_views(h1.tabs@) == hit_views(h0.tabs@) + bar_tab_hits(snap, l.tabs, l.widths, l.scroll, l.x0,
                l.tab_right, area.y, l.count)
            &&& h1.new_tab == bar_new_tab(l, area, config.mouse_capture, h0.new_tab)
            &&& h1.tab_scroll_left == if l.chrome { l.left } else { h0.tab_scroll_left }
            &&& h1.tab_scroll_right == if l.chrome { l.right } else { h0.tab_scroll_right }
            &&& b1 == b0 + seq![Draw::Fill(area, bg_style(palette.panel_bg))]
            &&& b2 == b1 + bar_left_draws(l, palette)
            &&& b3 == b2 + bar_tab_draws(snap, l.tabs, l.widths, l.scroll, l.x0, l.tab_right, area.y, palette, l.count)
            &&& b4 == b3 + bar_right_draws(l, area, palette) + bar_plus_draws(h1.new_tab, area, config.mouse_capture,
                palette)
            &&& b5 == b4 + bar_ellipsis_draws(l.content, area, l.count > 0 && l.scroll > 0, more_on_right(l),
                h1.tab_scroll_left, h1.tab_scroll_right, palette)
            &&& b6 == b5 + bar_marker_draws(snap, l.tabs, hit_views(h1.tabs@), l.content, area, h1.tab_scroll_left,
                h1.tab_scroll_right, drag, palette)
            &&& b7 == b6 + tab_bar_status_draws(snap, area, palette)
        }),
    ensures
        b7 == b0 + bar_frame_draws(snap, config, area, tab_scroll, reveal, drag, h0),
        (hit_views(h1.tabs@), h1.new_tab, h1.tab_scroll_left, h1.tab_scroll_right)
            == bar_hits(snap, config, area, tab_scroll, reveal, h0),
{
    reveal(bar_hits);
    reveal(bar_frame_draws);
    let l = bar_layout(snap, config, area, tab_scroll, reveal);
    let palette = config.palette;
    assert(b7 =~= b0 + (seq![Draw::Fill(area, bg_style(palette.panel_bg))]
        + bar_left_draws(l, palette)
        + bar_tab_draws(snap, l.tabs, l.widths, l.scroll, l.x0, l.tab_right, area.y, palette, l.count)
        + bar_right_draws(l, area, palette)
        + bar_plus_draws(h1.new_tab, area, config.mouse_capture, palette)
        + bar_ellipsis_draws(l.content, area, l.count > 0 && l.scroll > 0, more_on_right(l), h1.tab_scroll_left,
            h1.tab_scroll_right, palette)
        + bar_marker_draws(snap, l.tabs, hit_views(h1.tabs@), l.content, area, h1.tab_scroll_left,
            h1.tab_scroll_right, drag, palette)
        + tab_bar_status_draws(snap, area, palette)));
}

/// Draw the horizontal tab bar for the focused workspace.
#[verifier::rlimit(50)]
pub fn render_tab_bar(
    buffer: &mut Buffer,
    area: Rect,
    snapshot: &ClientShellSnapshot,
    config: &ClientShellConfig,
    tab_scroll: &mut usize,
    reveal_focused_tab: &mut bool,
    tab_drag_insert_index: Option<usize>,
    hits: &mut ShellHitMap,
)
    requires
        bar_frame_ok(*snapshot, *config, area, *old(tab_scroll) as int, *old(reveal_focused_tab)),
    ensures
        *final(tab_scroll) as int
            == bar_layout(*snapshot, *config, area, *old(tab_scroll) as int, *old(reveal_focused_tab)).scroll,
        !*final(reveal_focused_tab),
        final(buffer)@ == old(buffer)@ + bar_frame_draws(*snapshot, *config, area, *old(tab_scroll) as int,
            *old(reveal_focused_tab), tab_drag_insert_index, *old(hits)),
        (hit_views(final(hits).tabs@), final(hits).new_tab, final(hits).tab_scroll_left, final(hits).tab_scroll_right)
            == bar_hits(*snapshot, *config, area, *old(tab_scroll) as int, *old(reveal_focused_tab), *old(hits)),
        final(hits).agents == old(hits).agents,
        final(hits).sidebar_divider == old(hits).sidebar_divider,
{
    let ghost snap = *snapshot;
    let ghost l = bar_layout(snap, *config, area, *old(tab_scroll) as int, *old(reveal_focused_tab));
    let ghost b0 = buffer@;
    let ghost h0 = *hits;
    let palette = &config.palette;
    let mouse_chrome = config.mouse_capture;
    buffer.set_style(area, Style { fg: None, bg: Some(palette.panel_bg), bold: false, dim: false });
    let ghost b1 = buffer@;
    let (tabs, widths, content, overflow) = bar_geometry(snapshot, config, area, tab_scroll, reveal_focused_tab);
    let chrome = overflow && mouse_chrome;
    proof {
        lemma_bar_layout(snap, *config, area, *old(tab_scroll) as int, *old(reveal_focused_tab));
    }
    let x0 = render_tab_bar_left(buffer, hits, Ghost(l), content, chrome, *tab_scroll, palette);
    let ghost b2 = buffer@;
    let new_tab_width: u16 = if mouse_chrome { NEW_TAB_WIDTH } else { 0 };
    let tab_right = if chrome {
        content.right().saturating_sub(NEW_TAB_WIDTH + TAB_SCROLL_BUTTON_WIDTH)
    } else {
        content.right().saturating_sub(new_tab_width)
    };
    let (last_visible, x_end) = render_tab_bar_tabs(buffer, hits, snapshot, tabs.as_slice(), widths.as_slice(), *tab_scroll,
        x0, tab_right, area.y, palette);
    let ghost b3 = buffer@;
    let scrolled_out_left = match last_visible {
        Some(_) => *tab_scroll > 0,
        None => false,
    };
    let more_right = match last_visible {
        Some(index) => index < tabs.len() - 1,
        None => false,
    };
    assert(more_right == more_on_right(l));
    assert(scrolled_out_left == (l.count > 0 && l.scroll > 0));
    render_tab_bar_right(buffer, hits, Ghost(l), area, content, chrome, mouse_chrome, tab_right, x_end, more_right, palette);
    let ghost b4 = buffer@;
    render_tab_bar_ellipses(buffer, hits, area, content, scrolled_out_left, more_right, palette);
    let ghost b5 = buffer@;
    render_tab_bar_marker(buffer, hits, snapshot, tabs.as_slice(), area, content, tab_drag_insert_index, palette);
    let ghost b6 = buffer@;
    render_tab_bar_status(buffer, area, snapshot, palette);
    proof {
        let palette = config.palette;
        assert(hit_views(hits.tabs@) == hit_views(h0.tabs@) + bar_tab_hits(snap, l.tabs, l.widths, l.scroll, l.x0,
                l.tab_right, area.y, l.count));
        assert(hits.new_tab == bar_new_tab(l, area, config.mouse_capture, h0.new_tab));
        assert(hits.tab_scroll_left == if l.chrome { l.left } else { h0.tab_scroll_left });
        assert(hits.tab_scroll_right == if l.chrome { l.right } else { h0.tab_scroll_right });
        assert(b1 == b0 + seq![Draw::Fill(area, bg_style(palette.panel_bg))]);
        assert(b2 == b1 + bar_left_draws(l, palette));
        assert(b3 == b2 + bar_tab_draws(snap, l.tabs, l.widths, l.scroll, l.x0, l.tab_right, area.y, palette, l.count));
        assert(b4 == b3 + bar_right_draws(l, area, palette) + bar_plus_draws(hits.new_tab, area, config.mouse_capture,
                palette));
        assert(b5 == b4 + bar_ellipsis_draws(l.content, area, l.count > 0 && l.scroll > 0, more_on_right(l),
                hits.tab_scroll_left, hits.tab_scroll_right, palette));
        assert(b6 == b5 + bar_marker_draws(snap, l.tabs, hit_views(hits.tabs@), l.content, area, hits.tab_scroll_left,
                hits.tab_scroll_right, tab_drag_insert_index, palette));
        assert(buffer@ == b6 + tab_bar_status_draws(snap, area, palette));
        lemma_bar_frame_compose(snap, *config, area, *old(tab_scroll) as int, *old(reveal_focused_tab),
            tab_drag_insert_index, h0, *hits, b0, b1, b2, b3, b4, b5, b6, buffer@);
    }
}

/// The bar's scroll rule. A frame scrolls back to the start when the focused
/// workspace's tabs fit; when asked to reveal the focused tab, it settles on
/// the position that best centres the first focused tab, but no further
/// than the largest scroll (and keeps the old scroll when no tab is
/// focused); otherwise it keeps the old scroll, clamped to the largest.
pub proof fn law_bar_scroll_rule(snap: ClientShellSnapshot, config: ClientShellConfig, area: Rect, tab_scroll: int,
    reveal: bool)
    ensures
        ({
            let l = bar_layout(snap, config, area, tab_scroll, reveal);
            let mouse = config.mouse_capture;
            let avail = bar_space(l.widths, l.content, mouse);
            let max = full_max_scroll(l.widths, 1, avail);
            &&& l.tabs == focused_tab_indices(snap, snap.tabs@.len() as int)
            &&& l.widths == desired_widths(snap, l.tabs)
            &&& l.content == content_area(snap, area)
            &&& l.overflow == bar_overflows(l.widths, l.content, mouse)
            &&& !l.overflow ==> l.scroll == 0
            &&& l.overflow && !reveal ==> l.scroll == min_int(tab_scroll, max)
            &&& l.overflow && reveal ==> forall|f: int| #[trigger] is_first_focused_tab(snap, l.tabs, f)
                ==> l.scroll == min_int(centered_scroll(l.widths, f, avail), max)
            &&& l.overflow && reveal && !(exists|f: int| is_first_focused_tab(snap, l.tabs, f)) ==> l.scroll == tab_scroll
        }),
{
    reveal(bar_layout);
    let l = bar_layout(snap, config, area, tab_scroll, reveal);
    assert forall|f: int| #[trigger] is_first_focused_tab(snap, l.tabs, f) implies
        f == choose|g: int| is_first_focused_tab(snap, l.tabs, g) by {
        let g = choose|g: int| is_first_focused_tab(snap, l.tabs, g);
        if g < f {
            assert(snap.tabs@[l.tabs[g] as int].focused);
        } else if f < g {
            assert(snap.tabs@[l.tabs[f] as int].focused);
        }
    }
}

/// Tabs that do not fit overflow, and the bar then reveals the focused tab:
/// when the focused workspace's tabs, the one-column gaps between them and
/// (with mouse capture) the "new tab" button need more columns than the
/// content area has (one narrower than the whole `u16` range), and, with
/// mouse capture, the content area is at least `MIN_TAB_STRIP_WIDTH` wide,
/// the bar overflows, with or without mouse capture; asked to reveal, it
/// draws the first focused tab.
pub proof fn law_bar_overflow_reveals_focused_tab(snap: ClientShellSnapshot, config: ClientShellConfig, area: Rect,
    tab_scroll: int, f: int)
    requires
        0 <= tab_scroll,
        area.x + area.width <= u16::MAX,
        ({
            let l = bar_layout(snap, config, area, tab_scroll, true);
            let mouse = config.mouse_capture;
            let n = l.widths.len() as int;
            &&& 0 < l.content.width < u16::MAX
            &&& span(l.widths, 0, 0, n) + sub0(n, 1) + new_tab_cols(mouse) > l.content.width
            &&& (!mouse || l.content.width >= MIN_TAB_STRIP_WIDTH)
            &&& is_first_focused_tab(snap, l.tabs, f)
        }),
    ensures
        ({
            let l = bar_layout(snap, config, area, tab_scroll, true);
            &&& l.overflow
            &&& l.scroll <= f < l.scroll + l.count
        }),
{
    reveal(bar_layout);
    let l = bar_layout(snap, config, area, tab_scroll, true);
    let mouse = config.mouse_capture;
    let ws = l.widths;
    let n = ws.len() as int;
    lemma_span_nonneg(ws, 0, 0, n);
    assert(bar_overflows(ws, l.content, mouse));
    assert(bar_space(ws, l.content, mouse) > 0);
    law_bar_reveal_draws_focused_tab(snap, config, area, tab_scroll, f);
}

/// Revealing the focused tab draws it: when the bar overflows, has room for
/// tabs and is asked to reveal, the first focused tab of the focused
/// workspace is among the tabs the frame draws.
pub proof fn law_bar_reveal_draws_focused_tab(snap: ClientShellSnapshot, config: ClientShellConfig, area: Rect,
    tab_scroll: int, f: int)
    requires
        0 <= tab_scroll,
        area.x + area.width <= u16::MAX,
        bar_layout(snap, config, area, tab_scroll, true).overflow,
        is_first_focused_tab(snap, bar_layout(snap, config, area, tab_scroll, true).tabs, f),
        bar_space(bar_layout(snap, config, area, tab_scroll, true).widths,
            bar_layout(snap, config, area, tab_scroll, true).content, config.mouse_capture) > 0,
    ensures
        ({
            let l = bar_layout(snap, config, area, tab_scroll, true);
            &&& l.scroll <= f
            &&& f < l.scroll + l.count
        }),
{
    reveal(bar_layout);
    let l = bar_layout(snap, config, area, tab_scroll, true);
    let mouse = config.mouse_capture;
    let ws = l.widths;
    let avail = bar_space(ws, l.content, mouse);
    let g = choose|g: int| is_first_focused_tab(snap, l.tabs, g);
    if g < f {
        assert(snap.tabs@[l.tabs[g] as int].focused);
    } else if f < g {
        assert(snap.tabs@[l.tabs[f] as int].focused);
    }
    lemma_full_max_scroll_exists(ws, 1, avail);
    lemma_centered_scroll_exists(ws, f, avail);
    let c = centered_scroll(ws, f, avail);
    let m = full_max_scroll(ws, 1, avail);
    law_bar_reveal_keeps_focused_visible(ws, f, avail, c, m);
    assert(sub0(l.tab_right, l.x0) == avail);
    lemma_drawn_tabs_cover(ws, l.scroll, avail, f);
}

/// Tabs that fit are all drawn whole: when the focused workspace's tabs, the
/// gaps between them and the "new tab" button fit the content area, the bar
/// does not scroll and draws every tab at the width it asks for.
pub proof fn law_bar_fitting_tabs_all_drawn(snap: ClientShellSnapshot, config: ClientShellConfig, area: Rect,
    tab_scroll: int, reveal: bool)
    requires
        area.x + area.width <= u16::MAX,
        ({
            let l = bar_layout(snap, config, area, tab_scroll, reveal);
            l.widths.len() > 0 ==> span(l.widths, 1, 0, l.widths.len() as int) - 1 + new_tab_cols(config.mouse_capture)
                <= l.content.width
        }),
    ensures
        ({
            let l = bar_layout(snap, config, area, tab_scroll, reveal);
            &&& l.scroll == 0
            &&& l.count == l.widths.len()
            &&& forall|i: int| 0 <= i < l.widths.len() ==> #[trigger] tab_w(l.widths, 0, l.x0, l.tab_right, i) == l.widths[i]
        }),
{
    reveal(bar_layout);
    let l = bar_layout(snap, config, area, tab_scroll, reveal);
    let ws = l.widths;
    let n = ws.len() as int;
    let mouse = config.mouse_capture;
    if n > 0 {
        assert forall|i: int| 0 <= i < n implies #[trigger] ws[i] >= MIN_TAB_WIDTH by {
            assert(0 <= i < l.tabs.len());
            assert(ws[i] == desired_width(snap.tabs@[l.tabs[i] as int]) as u16);
        }
        lemma_span_nonneg(ws, 0, 0, n);
        lemma_span_nonneg(ws, 1, 0, n);
        lemma_span_gap(ws, 0, n);
        assert(!bar_overflows(ws, l.content, mouse));
        assert(span(ws, 1, 0, n) == span(ws, 1, 0, n - 1) + ws[n - 1] + 1);
        lemma_drawn_tabs_all(ws, sub0(l.tab_right, l.x0));
        assert forall|i: int| 0 <= i < n implies #[trigger] tab_w(ws, 0, l.x0, l.tab_right, i) == ws[i] by {
            lemma_span_grows(ws, 1, 0, i + 1, n);
            assert(span(ws, 1, 0, i + 1) == span(ws, 1, 0, i) + ws[i] + 1);
        }
    } else {
        lemma_drawn_tabs_all(ws, sub0(l.tab_right, l.x0));
    }
}

/// Draw the horizontal tab bar when this frame can be drawn (see
/// `bar_frame_ok`: centring the focused tab, when asked, adds up only widths
/// below `u16::MAX`, and the first tab drawn does not fill the whole `u16`
/// range) and report `true`; otherwise draw nothing, leave the scroll state
/// and hit map as they were, and report `false`.
pub fn try_render_tab_bar(
    buffer: &mut Buffer,
    area: Rect,
    snapshot: &ClientShellSnapshot,
    config: &ClientShellConfig,
    tab_scroll: &mut usize,
    reveal_focused_tab: &mut bool,
    tab_drag_insert_index: Option<usize>,
    hits: &mut ShellHitMap,
) -> (drawn: bool)
    ensures
        drawn == bar_frame_ok(*snapshot, *config, area, *old(tab_scroll) as int, *old(reveal_focused_tab)),
        !drawn ==> {
            &&& final(buffer)@ == old(buffer)@
            &&& *final(tab_scroll) == *old(tab_scroll)
            &&& *final(reveal_focused_tab) == *old(reveal_focused_tab)
            &&& *final(hits) == *old(hits)
        },
        drawn ==> {
            &&& *final(tab_scroll) as int
                == bar_layout(*snapshot, *config, area, *old(tab_scroll) as int, *old(reveal_focused_tab)).scroll
            &&& !*final(reveal_focused_tab)
            &&& final(buffer)@ == old(buffer)@ + bar_frame_draws(*snapshot, *config, area, *old(tab_scroll) as int,
                *old(reveal_focused_tab), tab_drag_insert_index, *old(hits))
            &&& (hit_views(final(hits).tabs@), final(hits).new_tab, final(hits).tab_scroll_left,
                final(hits).tab_scroll_right)
                == bar_hits(*snapshot, *config, area, *old(tab_scroll) as int, *old(reveal_focused_tab), *old(hits))
            &&& final(hits).agents == old(hits).agents
            &&& final(hits).sidebar_divider == old(hits).sidebar_divider
        },
{
    let ghost snap = *snapshot;
    let ghost l = bar_layout(snap, *config, area, *old(tab_scroll) as int, *old(reveal_focused_tab));
    proof {
        reveal(bar_layout);
    }
    let mouse = config.mouse_capture;
    let (tabs, widths, content, overflow, available) = bar_measure(snapshot, config, area);
    if overflow && *reveal_focused_tab {
        match first_focused_tab(snapshot, tabs.as_slice()) {
            Some(f) => {
                let mut k: usize = 0;
                while k < f
                    invariant
                        snap == *snapshot,
                        l == bar_layout(snap, *config, area, *old(tab_scroll) as int, *old(reveal_focused_tab)),
                        l.tabs == tabs@,
                        l.widths == widths@,
                        widths@.len() == tabs@.len(),
                        is_first_focused_tab(snap, tabs@, f as int),
                        bar_overflows(l.widths, l.content, config.mouse_capture),
                        l.content == content,
                        *old(reveal_focused_tab),
                        k <= f,
                        forall|j: int| 0 <= j < k ==> #[trigger] widths@[j] < u16::MAX,
                    decreases f - k,
                {
                    if widths[k] == u16::MAX {
                        assert(is_first_focused_tab(snap, l.tabs, f as int));
                        assert(!(l.widths[k as int] < u16::MAX));
                        assert(!bar_scroll_ok(snap, l.tabs, l.widths, l.content, config.mouse_capture,
                            *old(reveal_focused_tab)));
                        return false;
                    }
                    k = k + 1;
                }
                proof {
                    assert forall|g: int| #[trigger] is_first_focused_tab(snap, l.tabs, g)
                        implies forall|j: int| 0 <= j < g ==> #[trigger] l.widths[j] < u16::MAX by {
                        if g < f {
                            assert(snap.tabs@[l.tabs[g] as int].focused);
                        } else if f < g {
                            assert(snap.tabs@[l.tabs[f as int] as int].focused);
                        }
                    }
                }
            },
            None => {},
        }
    }
    assert(bar_scroll_ok(snap, l.tabs, l.widths, l.content, mouse, *old(reveal_focused_tab)));
    let mut scroll = *tab_scroll;
    let mut reveal_probe = *reveal_focused_tab;
    update_tab_bar_scroll(&mut scroll, &mut reveal_probe, snapshot, tabs.as_slice(), widths.as_slice(), content, mouse,
        overflow, available);
    let chrome = overflow && mouse;
    let left_width = if TAB_SCROLL_BUTTON_WIDTH < content.width { TAB_SCROLL_BUTTON_WIDTH } else { content.width };
    let x0 = if chrome { content.x.saturating_add(left_width) } else { content.x };
    let new_tab_width: u16 = if mouse { NEW_TAB_WIDTH } else { 0 };
    let tab_right = if chrome {
        content.right().saturating_sub(NEW_TAB_WIDTH + TAB_SCROLL_BUTTON_WIDTH)
    } else {
        content.right().saturating_sub(new_tab_width)
    };
    assert(x0 as int == l.x0);
    assert(tab_right as int == l.tab_right);
    proof {
        lemma_bar_tabs_ok_first(l.widths, l.scroll, l.x0, l.tab_right);
    }
    if scroll < widths.len() && widths[scroll] == u16::MAX && x0 == 0 && tab_right == u16::MAX {
        return false;
    }
    render_tab_bar(buffer, area, snapshot, config, tab_scroll, reveal_focused_tab, tab_drag_insert_index, hits);
    true
}

} // verus!

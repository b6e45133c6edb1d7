//! The horizontal tab bar: the focused workspace's tabs, scrolled
//! horizontally, with scroll and "new tab" buttons and status segments on
//! the right.
use vstd::prelude::*;
use crate::draw::{Buffer, Draw, put_text};
use crate::model::{ClientShellSnapshot, MIN_TAB_WIDTH, NEW_TAB_WIDTH, Palette, Rect, Style, TabBarSegment, add16,
    fg_bg_style, rect, sub0};
use crate::scroll::{is_last_visible, last_visible_contract, last_visible_tab, lemma_last_visible_bound,
    lemma_last_visible_unique, lemma_span_nonneg, sat16, span};
use crate::model::{ClientShellTab, ShellHitMap, min_int};
use crate::strip::hit_views;
use crate::text::tab_label_text;
use crate::width::{display_columns, display_width, string_chars};

verus! {

/// Columns of each scroll button.
pub const TAB_SCROLL_BUTTON_WIDTH: u16 = 3;

/// Narrowest bar that still shows a tab between the scroll buttons and the
/// "new tab" button.
pub const MIN_TAB_STRIP_WIDTH: u16 = 15;

/// Columns the texts of the first `n` status segments take, in total.
pub open spec fn segments_columns(segs: Seq<TabBarSegment>, n: int) -> int
    decreases n,
{
    if n <= 0 {
        0
    } else {
        segments_columns(segs, n - 1) + display_columns(segs[n - 1].text@)
    }
}

/// `a * b`, capped at `u16::MAX`.
pub open spec fn mul16(a: int, b: int) -> int {
    if a * b > u16::MAX { u16::MAX as int } else { a * b }
}

/// Columns the status segments take: their texts and the separators between
/// them (each part saturated at `u16::MAX`).
pub open spec fn status_columns(snap: ClientShellSnapshot) -> int {
    let segs = snap.tab_bar_right@;
    let separators = sub0(segs.len() as int, 1);
    add16(
        sat16(segments_columns(segs, segs.len() as int)),
        mul16(display_columns(snap.tab_bar_right_separator@), if separators > u16::MAX { u16::MAX as int } else { separators }),
    )
}

/// Width of the status segments at the right of the tab bar.
pub fn tab_bar_status_width(snapshot: &ClientShellSnapshot) -> (w: u16)
    ensures
        w as int == status_columns(*snapshot),
{
    let ghost segs = snapshot.tab_bar_right@;
    let mut content: u16 = 0;
    let mut i: usize = 0;
    while i < snapshot.tab_bar_right.len()
        invariant
            segs == snapshot.tab_bar_right@,
            i <= segs.len(),
            content as int == sat16(segments_columns(segs, i as int)),
        decreases segs.len() - i,
    {
        proof {
            lemma_segments_columns_nonneg(segs, i as int);
        }
        let text = string_chars(snapshot.tab_bar_right[i].text.as_str());
        content = content.saturating_add(display_width(text.as_slice()));
        i = i + 1;
    }
    let separators = snapshot.tab_bar_right.len().saturating_sub(1);
    let count: u16 = if separators > u16::MAX as usize { u16::MAX } else { separators as u16 };
    let sep = string_chars(snapshot.tab_bar_right_separator.as_str());
    let sep_width = display_width(sep.as_slice());
    let separator_columns = match sep_width.checked_mul(count) {
        Some(v) => v,
        None => u16::MAX,
    };
    content.saturating_add(separator_columns)
}

/// Segment column totals are never negative.
proof fn lemma_segments_columns_nonneg(segs: Seq<TabBarSegment>, n: int)
    ensures
        segments_columns(segs, n) >= 0,
    decreases n,
{
    if n > 0 {
        lemma_segments_columns_nonneg(segs, n - 1);
    }
}

/// Where the status segments go: flush right on the bar's row, only when
/// there are any and they leave the tabs enough room.
pub open spec fn status_area(snap: ClientShellSnapshot, area: Rect) -> Option<Rect> {
    let width = status_columns(snap);
    if width == 0 {
        None
    } else if sub0(area.width as int, add16(width, 1)) >= MIN_TAB_STRIP_WIDTH {
        Some(rect(sub0(area.right_edge(), width) as u16, area.y, width as u16, 1))
    } else {
        None
    }
}

/// Where the status segments go, if they are shown.
pub fn tab_bar_status_area(snapshot: &ClientShellSnapshot, area: Rect) -> (r: Option<Rect>)
    ensures
        r == status_area(*snapshot, area),
{
    let width = tab_bar_status_width(snapshot);
    if width == 0 {
        return None;
    }
    let reserved = width.saturating_add(1);
    if area.width.saturating_sub(reserved) >= MIN_TAB_STRIP_WIDTH {
        Some(Rect::new(area.right().saturating_sub(width), area.y, width, 1))
    } else {
        None
    }
}

/// The part of the bar left for tabs: all of it but the status segments and
/// the column before them.
pub open spec fn content_area(snap: ClientShellSnapshot, area: Rect) -> Rect {
    let reserved = match status_area(snap, area) {
        Some(status) => add16(status.width as int, 1),
        None => 0,
    };
    Rect { width: sub0(area.width as int, reserved) as u16, ..area }
}

/// The part of the bar left for tabs.
pub fn tab_bar_content_area(snapshot: &ClientShellSnapshot, area: Rect) -> (r: Rect)
    ensures
        r == content_area(*snapshot, area),
{
    let reserved = match tab_bar_status_area(snapshot, area) {
        Some(status) => status.width.saturating_add(1),
        None => 0,
    };
    Rect { width: area.width.saturating_sub(reserved), ..area }
}

/// Style of a status segment: accented segments stand out in bold.
pub open spec fn status_style(segment: TabBarSegment, palette: Palette) -> Style {
    if segment.accent {
        Style { fg: Some(palette.accent_fg), bg: Some(palette.accent), bold: true, dim: false }
    } else {
        fg_bg_style(palette.overlay1, palette.panel_bg)
    }
}

/// Column after the first `n` segments (and their separators), from `x0`.
pub open spec fn status_x(segs: Seq<TabBarSegment>, sep_w: int, x0: int, n: int) -> int
    decreases n,
{
    if n <= 0 {
        x0
    } else {
        let x = status_x(segs, sep_w, x0, n - 1);
        let x = if n - 1 > 0 && sep_w > 0 { add16(x, sep_w) } else { x };
        add16(x, display_columns(segs[n - 1].text@))
    }
}

/// Commands of the first `n` segments: each after its separator.
pub open spec fn status_draws(segs: Seq<TabBarSegment>, sep: Seq<char>, y: u16, x0: int, palette: Palette, n: int) -> Seq<Draw>
    decreases n,
{
    if n <= 0 {
        Seq::empty()
    } else {
        let sep_w = display_columns(sep);
        let prev = status_draws(segs, sep, y, x0, palette, n - 1);
        let x = status_x(segs, sep_w, x0, n - 1);
        let with_sep = n - 1 > 0 && sep_w > 0;
        let sep_draw = if with_sep {
            seq![Draw::Text(x as u16, y, sep_w as u16, sep, fg_bg_style(palette.overlay0, palette.panel_bg))]
        } else {
            Seq::empty()
        };
        let x2 = if with_sep { add16(x, sep_w) } else { x };
        let text = segs[n - 1].text@;
        prev + sep_draw + seq![Draw::Text(x2 as u16, y, display_columns(text) as u16, text, status_style(segs[n - 1], palette))]
    }
}

/// Columns the separators between the first `n` segments take.
pub open spec fn separators_columns(sep_w: int, n: int) -> int
    decreases n,
{
    if n <= 1 { 0 } else { separators_columns(sep_w, n - 1) + sep_w }
}

/// The separators between `n` segments take `sep_w` columns each.
proof fn lemma_separators_columns(sep_w: int, n: int)
    requires
        n >= 1,
    ensures
        separators_columns(sep_w, n) == sep_w * (n - 1),
    decreases n,
{
    if n > 1 {
        lemma_separators_columns(sep_w, n - 1);
        assert(sep_w * (n - 2) + sep_w == sep_w * (n - 1)) by (nonlinear_arith);
    } else {
        assert(sep_w * (n - 1) == 0) by (nonlinear_arith)
            requires n == 1;
    }
}

/// Unsaturated, the first `n` segments end where their widths and
/// separators add up to, and each command they issue lies between `x0` and
/// that column, on row `y`.
proof fn lemma_status_draws_within(segs: Seq<TabBarSegment>, sep: Seq<char>, y: u16, x0: int, palette: Palette, n: int)
    requires
        0 <= n <= segs.len(),
        0 <= x0,
        x0 + segments_columns(segs, n) + separators_columns(display_columns(sep), n) <= u16::MAX,
    ensures
        status_x(segs, display_columns(sep), x0, n)
            == x0 + segments_columns(segs, n) + separators_columns(display_columns(sep), n),
        forall|i: int| 0 <= i < status_draws(segs, sep, y, x0, palette, n).len() ==>
            (#[trigger] status_draws(segs, sep, y, x0, palette, n)[i] matches Draw::Text(x, dy, w, _, _)
                && dy == y && x0 <= x && x + w <= x0 + segments_columns(segs, n)
                    + separators_columns(display_columns(sep), n)),
    decreases n,
{
    let sep_w = display_columns(sep);
    if n > 0 {
        lemma_segments_columns_nonneg(segs, n - 1);
        assert(separators_columns(sep_w, n - 1) >= 0) by {
            if n - 1 >= 1 {
                lemma_separators_columns(sep_w, n - 1);
                assert(sep_w * (n - 2) >= 0) by (nonlinear_arith)
                    requires sep_w >= 0, n >= 2;
            }
        }
        lemma_status_draws_within(segs, sep, y, x0, palette, n - 1);
        let prev = status_draws(segs, sep, y, x0, palette, n - 1);
        let x = status_x(segs, sep_w, x0, n - 1);
        let with_sep = n - 1 > 0 && sep_w > 0;
        let sep_draw = if with_sep {
            seq![Draw::Text(x as u16, y, sep_w as u16, sep, fg_bg_style(palette.overlay0, palette.panel_bg))]
        } else {
            Seq::empty()
        };
        let x2 = if with_sep { add16(x, sep_w) } else { x };
        let text = segs[n - 1].text@;
        let last = seq![Draw::Text(x2 as u16, y, display_columns(text) as u16, text, status_style(segs[n - 1], palette))];
        let all = prev + sep_draw + last;
        assert(status_draws(segs, sep, y, x0, palette, n) == all);
        assert forall|i: int| 0 <= i < all.len() implies (#[trigger] all[i] matches Draw::Text(dx, dy, w, _, _)
            && dy == y && x0 <= dx && dx + w <= x0 + segments_columns(segs, n) + separators_columns(sep_w, n)) by {
            if i < prev.len() {
                assert(all[i] == prev[i]);
            } else if i < prev.len() + sep_draw.len() {
                assert(all[i] == sep_draw[i - prev.len()]);
            } else {
                assert(all[i] == last[i - prev.len() - sep_draw.len()]);
            }
        }
    }
}

/// The status segments are drawn inside the status area, which ends where
/// the bar ends: every command they issue lies on the bar's row, between the
/// status area's first column and its right edge.
pub proof fn law_status_inside_area(snap: ClientShellSnapshot, area: Rect, palette: Palette, s: Rect)
    requires
        status_area(snap, area) == Some(s),
    ensures
        s.y == area.y,
        s.right_edge() == area.right_edge(),
        forall|i: int| 0 <= i < tab_bar_status_draws(snap, area, palette).len() ==>
            (#[trigger] tab_bar_status_draws(snap, area, palette)[i] matches Draw::Text(x, y, w, _, _)
                && y == area.y && s.x <= x && x + w <= s.x + s.width),
{
    let segs = snap.tab_bar_right@;
    let n = segs.len() as int;
    let sep = snap.tab_bar_right_separator@;
    let sep_w = display_columns(sep);
    lemma_segments_columns_nonneg(segs, n);
    assert(status_columns(snap) <= u16::MAX - 16);
    assert(sat16(segments_columns(segs, n)) <= u16::MAX - 16);
    let count = sub0(n, 1);
    let capped = if count > u16::MAX { u16::MAX as int } else { count };
    if n >= 1 {
        lemma_separators_columns(sep_w, n);
        assert(sep_w * (n - 1) >= 0) by (nonlinear_arith)
            requires sep_w >= 0, n >= 1;
        if sep_w == 0 {
            assert(sep_w * capped == 0) by (nonlinear_arith)
                requires sep_w == 0;
            assert(sep_w * (n - 1) == 0) by (nonlinear_arith)
                requires sep_w == 0;
        } else {
            assert(n - 1 <= sep_w * (n - 1)) by (nonlinear_arith)
                requires sep_w >= 1, n >= 1;
            assert(capped == n - 1);
            assert(sep_w * capped == sep_w * (n - 1));
        }
    } else {
        assert(sep_w * capped == 0) by (nonlinear_arith)
            requires capped == 0;
    }
    assert(mul16(sep_w, capped) == separators_columns(sep_w, n));
    assert(status_columns(snap) == segments_columns(segs, n) + separators_columns(sep_w, n));
    lemma_status_draws_within(segs, sep, area.y, s.x as int, palette, n);
}

/// What the status segments draw on the bar in `area`.
pub open spec fn tab_bar_status_draws(snap: ClientShellSnapshot, area: Rect, palette: Palette) -> Seq<Draw> {
    match status_area(snap, area) {
        Some(status) => status_draws(snap.tab_bar_right@, snap.tab_bar_right_separator@, area.y, status.x as int, palette,
            snap.tab_bar_right@.len() as int),
        None => Seq::empty(),
    }
}

/// Draw the status segments at the right end of the bar, separated by the
/// snapshot's separator.
pub fn render_tab_bar_status(buffer: &mut Buffer, area: Rect, snapshot: &ClientShellSnapshot, palette: &Palette)
    ensures
        final(buffer)@ == old(buffer)@ + tab_bar_status_draws(*snapshot, area, *palette),
{
    let status = match tab_bar_status_area(snapshot, area) {
        Some(status) => status,
        None => {
            assert(final(buffer)@ =~= old(buffer)@ + tab_bar_status_draws(*snapshot, area, *palette));
            return;
        },
    };
    let ghost segs = snapshot.tab_bar_right@;
    let sep = string_chars(snapshot.tab_bar_right_separator.as_str());
    let separator_width = display_width(sep.as_slice());
    let mut x = status.x;
    let mut index: usize = 0;
    while index < snapshot.tab_bar_right.len()
        invariant
            segs == snapshot.tab_bar_right@,
            sep@ == snapshot.tab_bar_right_separator@,
            separator_width as int == display_columns(sep@),
            index <= segs.len(),
            x as int == status_x(segs, separator_width as int, status.x as int, index as int),
            buffer@ == old(buffer)@ + status_draws(segs, sep@, area.y, status.x as int, *palette, index as int),
        decreases segs.len() - index,
    {
        let ghost before = buffer@;
        let segment = &snapshot.tab_bar_right[index];
        if index > 0 && separator_width > 0 {
            put_text(buffer, x, area.y, separator_width, sep.as_slice(),
                Style { fg: Some(palette.overlay0), bg: Some(palette.panel_bg), bold: false, dim: false });
            x = x.saturating_add(separator_width);
        }
        let text = string_chars(segment.text.as_str());
        let width = display_width(text.as_slice());
        let style = if segment.accent {
            Style { fg: Some(palette.accent_fg), bg: Some(palette.accent), bold: true, dim: false }
        } else {
            Style { fg: Some(palette.overlay1), bg: Some(palette.panel_bg), bold: false, dim: false }
        };
        put_text(buffer, x, area.y, width, text.as_slice(), style);
        x = x.saturating_add(width);
        assert(buffer@ =~= old(buffer)@ + status_draws(segs, sep@, area.y, status.x as int, *palette, index + 1));
        index = index + 1;
    }
}


/// Columns a tab of the bar asks for: its label plus four columns of padding,
/// at least `MIN_TAB_WIDTH`.
pub open spec fn desired_width(tab: ClientShellTab) -> int {
    let w = add16(display_columns(tab_label_text(tab)), 4);
    if w > MIN_TAB_WIDTH { w } else { MIN_TAB_WIDTH as int }
}

/// The columns each of the listed tabs asks for.
pub open spec fn desired_widths(snap: ClientShellSnapshot, tabs: Seq<usize>) -> Seq<u16> {
    Seq::new(tabs.len(), |i: int| desired_width(snap.tabs@[tabs[i] as int]) as u16)
}

/// The columns each of the listed tabs asks for.
pub fn desired_tab_widths(snapshot: &ClientShellSnapshot, tabs: &[usize]) -> (r: Vec<u16>)
    requires
        forall|k: int| 0 <= k < tabs@.len() ==> #[trigger] tabs@[k] < snapshot.tabs.len(),
    ensures
        r@ == desired_widths(*snapshot, tabs@),
{
    let mut out: Vec<u16> = Vec::new();
    let mut i: usize = 0;
    while i < tabs.len()
        invariant
            i <= tabs.len(),
            forall|k: int| 0 <= k < tabs@.len() ==> #[trigger] tabs@[k] < snapshot.tabs.len(),
            out@ =~= desired_widths(*snapshot, tabs@).subrange(0, i as int),
        decreases tabs.len() - i,
    {
        let label = crate::text::tab_label(&snapshot.tabs[tabs[i]]);
        let w = display_width(label.as_slice()).saturating_add(4);
        out.push(if w > MIN_TAB_WIDTH { w } else { MIN_TAB_WIDTH });
        i = i + 1;
    }
    out
}

/// Column where tab `i` starts when the bar is scrolled to `scroll` and tabs
/// begin at `x0` (saturated at `u16::MAX`).
pub open spec fn tab_x(ws: Seq<u16>, scroll: int, x0: int, i: int) -> int {
    sat16(x0 + span(ws, 1, scroll, i))
}

/// Columns tab `i` is drawn with: what it asks for, clipped at `tab_right`.
pub open spec fn tab_w(ws: Seq<u16>, scroll: int, x0: int, tab_right: int, i: int) -> int {
    min_int(ws[i] as int, sub0(tab_right, tab_x(ws, scroll, x0, i)))
}

/// Tabs in the bar never overlap and never run past `tab_right`: each one
/// ends at or before that column (or where it starts, when it starts past
/// it), and the next one starts at least a column after it ends.
pub proof fn law_bar_tabs_do_not_overlap(ws: Seq<u16>, scroll: int, x0: int, tab_right: int, i: int)
    requires
        0 <= scroll <= i,
        i + 1 < ws.len(),
        0 <= x0,
        x0 + span(ws, 1, scroll, i + 1) <= u16::MAX,
    ensures
        tab_x(ws, scroll, x0, i) + tab_w(ws, scroll, x0, tab_right, i)
            <= if tab_right > tab_x(ws, scroll, x0, i) { tab_right } else { tab_x(ws, scroll, x0, i) },
        tab_x(ws, scroll, x0, i) + tab_w(ws, scroll, x0, tab_right, i) < tab_x(ws, scroll, x0, i + 1),
{
    lemma_span_nonneg(ws, 1, scroll, i);
    assert(span(ws, 1, scroll, i + 1) == span(ws, 1, scroll, i) + ws[i] + 1);
}

/// Style of a tab in the bar: accented when focused (bold with a custom
/// label), brighter for custom labels, dim otherwise.
pub open spec fn bar_tab_style(tab: ClientShellTab, palette: Palette) -> Style {
    if tab.focused {
        Style { fg: Some(palette.accent_fg), bg: Some(palette.accent), bold: tab.custom_label, dim: false }
    } else if tab.custom_label {
        fg_bg_style(palette.overlay1, palette.surface0)
    } else {
        Style { fg: Some(palette.overlay0), bg: Some(palette.surface0), bold: false, dim: true }
    }
}

/// `n` spaces.
pub open spec fn spaces(n: int) -> Seq<char> {
    Seq::new(n as nat, |i: int| ' ')
}

/// A tab name centred in `width` columns (the extra column, if any, on the right).
pub open spec fn centered_name(name: Seq<char>, width: int) -> Seq<char> {
    let padding = sub0(width, display_columns(name));
    let left = padding / 2;
    spaces(left) + name + spaces(padding - left)
}

/// Commands of the first `n` tabs drawn from `scroll`.
pub open spec fn bar_tab_draws(snap: ClientShellSnapshot, tabs: Seq<usize>, ws: Seq<u16>, scroll: int, x0: int, tab_right: int,
    y: u16, palette: Palette, n: int) -> Seq<Draw>
    decreases n,
{
    if n <= 0 {
        Seq::empty()
    } else {
        let i = scroll + n - 1;
        let tab = snap.tabs@[tabs[i] as int];
        let w = tab_w(ws, scroll, x0, tab_right, i);
        bar_tab_draws(snap, tabs, ws, scroll, x0, tab_right, y, palette, n - 1)
            + seq![Draw::Text(tab_x(ws, scroll, x0, i) as u16, y, w as u16, centered_name(tab_label_text(tab), w),
                bar_tab_style(tab, palette))]
    }
}

/// Hit regions of the first `n` tabs drawn from `scroll`.
pub open spec fn bar_tab_hits(snap: ClientShellSnapshot, tabs: Seq<usize>, ws: Seq<u16>, scroll: int, x0: int, tab_right: int,
    y: u16, n: int) -> Seq<(Rect, Seq<char>)>
    decreases n,
{
    if n <= 0 {
        Seq::empty()
    } else {
        let i = scroll + n - 1;
        bar_tab_hits(snap, tabs, ws, scroll, x0, tab_right, y, n - 1)
            + seq![(rect(tab_x(ws, scroll, x0, i) as u16, y, tab_w(ws, scroll, x0, tab_right, i) as u16, 1),
                snap.tabs@[tabs[i] as int].tab_id@)]
    }
}

/// How many tabs are drawn from `scroll` when `available` columns are free.
pub open spec fn drawn_tabs(ws: Seq<u16>, scroll: int, available: int) -> int {
    if scroll >= ws.len() || available <= 0 {
        0
    } else {
        (choose|l: int| is_last_visible(ws, 1, scroll, available, l)) - scroll + 1
    }
}

/// Where the cursor stands after the first `n` tabs: one column past the
/// last one drawn.
pub open spec fn bar_tabs_end(ws: Seq<u16>, scroll: int, x0: int, tab_right: int, n: int) -> int {
    if n <= 0 {
        x0
    } else {
        let i = scroll + n - 1;
        add16(tab_x(ws, scroll, x0, i), tab_w(ws, scroll, x0, tab_right, i) + 1)
    }
}

/// No drawn tab fills the whole `u16` range (its width plus the gap fits).
pub open spec fn bar_tabs_ok(ws: Seq<u16>, scroll: int, x0: int, tab_right: int) -> bool {
    forall|i: int| scroll <= i < scroll + drawn_tabs(ws, scroll, sub0(tab_right, x0))
        ==> #[trigger] tab_w(ws, scroll, x0, tab_right, i) < u16::MAX
}

/// Only the first tab drawn can fill the whole `u16` range: it does exactly
/// when it asks for all of it and the bar leaves it all of it.
pub proof fn lemma_bar_tabs_ok_first(ws: Seq<u16>, scroll: int, x0: int, tab_right: int)
    requires
        0 <= scroll,
        0 <= x0 <= u16::MAX,
        tab_right <= u16::MAX,
    ensures
        bar_tabs_ok(ws, scroll, x0, tab_right)
            <==> !(scroll < ws.len() && ws[scroll] == u16::MAX && sub0(tab_right, x0) == u16::MAX),
{
    let avail = sub0(tab_right, x0);
    assert(span(ws, 1, scroll, scroll) == 0);
    if scroll < ws.len() && avail > 0 {
        crate::scroll::lemma_last_visible_exists(ws, 1, scroll, avail);
        let last = choose|l: int| is_last_visible(ws, 1, scroll, avail, l);
        assert(drawn_tabs(ws, scroll, avail) == last - scroll + 1);
        if ws[scroll] == u16::MAX && avail == u16::MAX {
            assert(tab_w(ws, scroll, x0, tab_right, scroll) == u16::MAX);
        } else {
            assert forall|i: int| scroll <= i < scroll + drawn_tabs(ws, scroll, avail)
                implies #[trigger] tab_w(ws, scroll, x0, tab_right, i) < u16::MAX by {
                if i > scroll {
                    crate::scroll::lemma_span_gap(ws, scroll, i);
                    crate::scroll::lemma_span_nonneg(ws, 0, scroll, i);
                }
            }
        }
    }
}

/// A tab that begins inside the visible width is among the tabs drawn.
pub proof fn lemma_drawn_tabs_cover(ws: Seq<u16>, scroll: int, available: int, f: int)
    requires
        0 <= scroll <= f < ws.len(),
        0 < available,
        span(ws, 1, scroll, f) < available,
    ensures
        f < scroll + drawn_tabs(ws, scroll, available),
{
    crate::scroll::lemma_last_visible_exists(ws, 1, scroll, available);
    let l = choose|l: int| is_last_visible(ws, 1, scroll, available, l);
    lemma_last_visible_bound(ws, 1, scroll, available, l, f);
}

/// When the last tab begins inside the visible width from the start, every
/// tab is drawn (none when there are none).
pub proof fn lemma_drawn_tabs_all(ws: Seq<u16>, available: int)
    requires
        ws.len() > 0 ==> 0 < available && span(ws, 1, 0, ws.len() - 1) < available,
    ensures
        drawn_tabs(ws, 0, available) == ws.len(),
{
    if ws.len() > 0 {
        assert(is_last_visible(ws, 1, 0, available, ws.len() - 1));
        let l = choose|l: int| is_last_visible(ws, 1, 0, available, l);
        lemma_last_visible_unique(ws, 1, 0, available, l, ws.len() - 1);
    }
}

/// A name centred in `width` columns.
fn center_name(name: &[char], width: u16) -> (r: Vec<char>)
    ensures
        r@ == centered_name(name@, width as int),
{
    let padding = width.saturating_sub(display_width(name));
    let left = padding / 2;
    let mut out: Vec<char> = Vec::new();
    let mut i: u16 = 0;
    while i < left
        invariant
            i <= left,
            out@ == spaces(i as int),
        decreases left - i,
    {
        out.push(' ');
        i = i + 1;
        assert(out@ =~= spaces(i as int));
    }
    let mut j: usize = 0;
    while j < name.len()
        invariant
            j <= name.len(),
            out@ == spaces(left as int) + name@.subrange(0, j as int),
        decreases name.len() - j,
    {
        out.push(name[j]);
        j = j + 1;
        assert(out@ =~= spaces(left as int) + name@.subrange(0, j as int));
    }
    assert(name@.subrange(0, name@.len() as int) =~= name@);
    let right = padding - left;
    let mut k: u16 = 0;
    while k < right
        invariant
            k <= right,
            out@ == spaces(left as int) + name@ + spaces(k as int),
        decreases right - k,
    {
        out.push(' ');
        k = k + 1;
        assert(out@ =~= spaces(left as int) + name@ + spaces(k as int));
    }
    out
}

/// Draw the tabs from `scroll` on, left to right from `x0`, one column
/// apart, until one is clipped at `tab_right` or no columns are left.
/// Returns the last tab drawn and the column after it.
#[verifier::rlimit(60)]
pub(crate) fn render_tab_bar_tabs(
    buffer: &mut Buffer,
    hits: &mut ShellHitMap,
    snapshot: &ClientShellSnapshot,
    tabs: &[usize],
    widths: &[u16],
    scroll: usize,
    x0: u16,
    tab_right: u16,
    y: u16,
    palette: &Palette,
) -> (r: (Option<usize>, u16))
    requires
        forall|k: int| 0 <= k < tabs@.len() ==> #[trigger] tabs@[k] < snapshot.tabs.len(),
        widths@ == desired_widths(*snapshot, tabs@),
        bar_tabs_ok(widths@, scroll as int, x0 as int, tab_right as int),
    ensures
        last_visible_contract(widths@, 1, scroll as int, sub0(tab_right as int, x0 as int), r.0),
        drawn_tabs(widths@, scroll as int, sub0(tab_right as int, x0 as int)) == match r.0 {
            Some(l) => l - scroll + 1,
            None => 0int,
        },
        r.1 as int == bar_tabs_end(widths@, scroll as int, x0 as int, tab_right as int,
            drawn_tabs(widths@, scroll as int, sub0(tab_right as int, x0 as int))),
        final(buffer)@ == old(buffer)@ + bar_tab_draws(*snapshot, tabs@, widths@, scroll as int, x0 as int, tab_right as int,
            y, *palette, drawn_tabs(widths@, scroll as int, sub0(tab_right as int, x0 as int))),
        hit_views(final(hits).tabs@) == hit_views(old(hits).tabs@) + bar_tab_hits(*snapshot, tabs@, widths@, scroll as int,
            x0 as int, tab_right as int, y, drawn_tabs(widths@, scroll as int, sub0(tab_right as int, x0 as int))),
        final(hits).agents == old(hits).agents,
        final(hits).new_tab == old(hits).new_tab,
        final(hits).tab_scroll_left == old(hits).tab_scroll_left,
        final(hits).tab_scroll_right == old(hits).tab_scroll_right,
        final(hits).sidebar_divider == old(hits).sidebar_divider,
{
    let ghost ws = widths@;
    let ghost avail = sub0(tab_right as int, x0 as int);
    let available: u16 = tab_right.saturating_sub(x0);
    let expected = last_visible_tab(scroll, widths, available);
    let ghost count: int = match expected {
        Some(l) => l - scroll + 1,
        None => 0,
    };
    proof {
        match expected {
            Some(l) => {
                let c = choose|c: int| is_last_visible(ws, 1, scroll as int, avail, c);
                lemma_last_visible_unique(ws, 1, scroll as int, avail, c, l as int);
            },
            None => {},
        }
        assert(span(ws, 1, scroll as int, scroll as int) == 0);
    }
    let mut x: u16 = x0;
    let mut last: Option<usize> = None;
    let mut index: usize = scroll;
    while index < tabs.len()
        invariant
            ws == widths@,
            widths@ == desired_widths(*snapshot, tabs@),
            ws.len() == tabs@.len(),
            forall|k: int| 0 <= k < tabs@.len() ==> #[trigger] tabs@[k] < snapshot.tabs.len(),
            bar_tabs_ok(ws, scroll as int, x0 as int, tab_right as int),
            avail == sub0(tab_right as int, x0 as int),
            last_visible_contract(ws, 1, scroll as int, avail, expected),
            count == drawn_tabs(ws, scroll as int, avail),
            count == match expected { Some(l) => l - scroll + 1, None => 0int },
            scroll <= index,
            x as int == tab_x(ws, scroll as int, x0 as int, index as int),
            index == scroll ==> last is None,
            index > scroll ==> last == Some((index - 1) as usize),
            index > scroll ==> x as int == bar_tabs_end(ws, scroll as int, x0 as int, tab_right as int, index - scroll),
            index > scroll ==> tab_w(ws, scroll as int, x0 as int, tab_right as int, index - 1) == ws[index - 1],
            index - scroll <= count,
            buffer@ == old(buffer)@ + bar_tab_draws(*snapshot, tabs@, ws, scroll as int, x0 as int, tab_right as int, y,
                *palette, index - scroll),
            hit_views(hits.tabs@) == hit_views(old(hits).tabs@) + bar_tab_hits(*snapshot, tabs@, ws, scroll as int,
                x0 as int, tab_right as int, y, index - scroll),
            hits.agents == old(hits).agents,
            hits.new_tab == old(hits).new_tab,
            hits.tab_scroll_left == old(hits).tab_scroll_left,
            hits.tab_scroll_right == old(hits).tab_scroll_right,
            hits.sidebar_divider == old(hits).sidebar_divider,
        decreases tabs.len() - index,
    {
        let desired = widths[index];
        let remaining = tab_right.saturating_sub(x);
        let width = if desired < remaining { desired } else { remaining };
        if width == 0 {
            proof {
                lemma_bar_stop(ws, scroll as int, x0 as int, tab_right as int, index as int, expected);
            }
            let end = if index > scroll { x } else { x0 };
            return (last, end);
        }
        proof {
            lemma_bar_continue(ws, scroll as int, x0 as int, tab_right as int, index as int, expected);
        }
        let tab = &snapshot.tabs[tabs[index]];
        let name = crate::text::tab_label(tab);
        let text = center_name(name.as_slice(), width);
        let style = if tab.focused {
            Style { fg: Some(palette.accent_fg), bg: Some(palette.accent), bold: tab.custom_label, dim: false }
        } else if tab.custom_label {
            Style { fg: Some(palette.overlay1), bg: Some(palette.surface0), bold: false, dim: false }
        } else {
            Style { fg: Some(palette.overlay0), bg: Some(palette.surface0), bold: false, dim: true }
        };
        let area = Rect::new(x, y, width, 1);
        put_text(buffer, area.x, area.y, area.width, text.as_slice(), style);
        let ghost old_tabs = hits.tabs@;
        hits.tabs.push((area, tab.tab_id.clone()));
        proof {
            assert(hit_views(hits.tabs@) =~= hit_views(old_tabs).push((area, tab.tab_id@)));
            assert(index - scroll < count);
            assert(tab_w(ws, scroll as int, x0 as int, tab_right as int, index as int) < u16::MAX);
        }
        last = Some(index);
        x = x.saturating_add(width + 1);
        if width < desired {
            proof {
                assert(is_last_visible(ws, 1, scroll as int, avail, index as int));
                lemma_last_visible_unique(ws, 1, scroll as int, avail, expected->0 as int, index as int);
            }
            return (last, x);
        }
        proof {
            assert(span(ws, 1, scroll as int, index + 1) == span(ws, 1, scroll as int, index as int) + ws[index as int] + 1);
        }
        index = index + 1;
    }
    proof {
        if index > scroll {
            assert(is_last_visible(ws, 1, scroll as int, avail, index - 1));
            lemma_last_visible_unique(ws, 1, scroll as int, avail, expected->0 as int, index - 1);
        }
    }
    let end = if index > scroll { x } else { x0 };
    (last, end)
}

/// When no columns are left at tab `index`, the tabs drawn so far are all
/// the visible ones.
proof fn lemma_bar_stop(ws: Seq<u16>, scroll: int, x0: int, tab_right: int, index: int, expected: Option<usize>)
    requires
        0 <= scroll <= index < ws.len(),
        ws.len() <= usize::MAX,
        0 <= x0 <= u16::MAX,
        0 <= tab_right <= u16::MAX,
        forall|i: int| 0 <= i < ws.len() ==> #[trigger] ws[i] >= 1,
        sub0(tab_right, tab_x(ws, scroll, x0, index)) == 0,
        index > scroll ==> tab_x(ws, scroll, x0, index - 1) < tab_right,
        last_visible_contract(ws, 1, scroll, sub0(tab_right, x0), expected),
    ensures
        index == scroll ==> expected is None,
        index > scroll ==> expected == Some((index - 1) as usize),
{
    let avail = sub0(tab_right, x0);
    lemma_span_nonneg(ws, 1, scroll, index);
    if index > scroll {
        lemma_span_nonneg(ws, 1, scroll, index - 1);
        assert(span(ws, 1, scroll, index - 1) < avail);
        assert(span(ws, 1, scroll, index) >= avail);
        assert(is_last_visible(ws, 1, scroll, avail, index - 1));
        lemma_last_visible_unique(ws, 1, scroll, avail, expected->0 as int, index - 1);
    } else {
        assert(span(ws, 1, scroll, scroll) == 0);
    }
}

/// When columns are left at tab `index`, it is visible.
proof fn lemma_bar_continue(ws: Seq<u16>, scroll: int, x0: int, tab_right: int, index: int, expected: Option<usize>)
    requires
        0 <= scroll <= index < ws.len(),
        0 <= x0 <= u16::MAX,
        0 <= tab_right <= u16::MAX,
        sub0(tab_right, tab_x(ws, scroll, x0, index)) > 0,
        last_visible_contract(ws, 1, scroll, sub0(tab_right, x0), expected),
    ensures
        expected matches Some(l) && index <= l,
{
    let avail = sub0(tab_right, x0);
    lemma_span_nonneg(ws, 1, scroll, index);
    assert(span(ws, 1, scroll, index) < avail);
    lemma_last_visible_bound(ws, 1, scroll, avail, expected->0 as int, index);
}

} // verus!

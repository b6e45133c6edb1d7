//! Single rows of the vertical tab strip, and the box around a group.
use vstd::prelude::*;
use crate::draw::{Buffer, Draw, put_text, put_right_text, put_segment, right_text_draw, segment_draw, segment_end};
use crate::model::{AgentStatus, add16, ClientShellConfig, Rect, Style, Palette, color_of, dim_style, fg_style,
    icon_of, min_int, rect, status_color, status_icon, sub0};
use crate::text::{bullet_sep, join_segments, joined, texts};
use crate::width::{display_columns, display_width};

verus! {

/// An agent badge: the agent's name (if it has one) and its status.
#[derive(Debug)]
pub struct Badge {
    pub name: Option<Vec<char>>,
    pub status: AgentStatus,
}

/// A badge, as a mathematical value.
pub struct BadgeView {
    pub name: Option<Seq<char>>,
    pub status: AgentStatus,
}

impl View for Badge {
    type V = BadgeView;

    open spec fn view(&self) -> BadgeView {
        BadgeView {
            name: match self.name {
                Some(n) => Some(n@),
                None => None,
            },
            status: self.status,
        }
    }
}

/// The view of an optional badge.
pub open spec fn opt_badge(badge: Option<Badge>) -> Option<BadgeView> {
    match badge {
        Some(b) => Some(b@),
        None => None,
    }
}

/// The status glyph of a badge (nothing without a badge).
pub open spec fn badge_icon(badge: Option<BadgeView>, indicators: bool) -> Seq<char> {
    match badge {
        Some(b) => icon_of(b.status, indicators),
        None => Seq::empty(),
    }
}

/// The name of a badge (nothing without a badge or name).
pub open spec fn badge_name(badge: Option<BadgeView>) -> Seq<char> {
    match badge {
        Some(b) => match b.name {
            Some(n) => n,
            None => Seq::empty(),
        },
        None => Seq::empty(),
    }
}

/// The status a badge's glyph is colored by.
pub open spec fn badge_status(badge: Option<BadgeView>) -> AgentStatus {
    match badge {
        Some(b) => b.status,
        None => AgentStatus::Unknown,
    }
}

/// Narrowest title a row keeps before it hides what sits on its right.
pub const MIN_TITLE_WIDTH: u16 = 4;

/// Text columns of a strip row: the row inset by one column on each side.
pub const STRIP_TEXT_INSET: u16 = 1;

/// A strip row's text area: inset by `STRIP_TEXT_INSET` on each side.
pub open spec fn text_rect(r: Rect) -> Rect {
    rect(
        add16(r.x as int, STRIP_TEXT_INSET as int) as u16,
        r.y,
        sub0(r.width as int, 2 * STRIP_TEXT_INSET) as u16,
        r.height,
    )
}

/// Inset a strip row's text area by `STRIP_TEXT_INSET` on each side.
pub fn strip_text_rect(r: Rect) -> (t: Rect)
    ensures
        t == text_rect(r),
{
    Rect::new(r.x.saturating_add(STRIP_TEXT_INSET), r.y, r.width.saturating_sub(2 * STRIP_TEXT_INSET), r.height)
}

/// Width of the badge glyph (one column when there is a glyph).
pub open spec fn icon_cols(badge: Option<BadgeView>, indicators: bool) -> int {
    if badge_icon(badge, indicators).len() > 0 { 1 } else { 0 }
}

/// Whether the badge shows the agent name beside its glyph: only with a
/// glyph, a name, and room for both plus a minimal title.
pub open spec fn shows_name(width: int, badge: Option<BadgeView>, indicators: bool) -> bool {
    let name_w = display_columns(badge_name(badge));
    icon_cols(badge, indicators) > 0 && name_w > 0
        && width >= icon_cols(badge, indicators) + name_w + 1 + MIN_TITLE_WIDTH
}

/// Columns reserved for the badge at the right of the row.
pub open spec fn badge_cols(width: int, badge: Option<BadgeView>, indicators: bool) -> int {
    if shows_name(width, badge, indicators) {
        display_columns(badge_name(badge)) + 1 + icon_cols(badge, indicators)
    } else {
        icon_cols(badge, indicators)
    }
}

/// Columns left for the row's text.
pub open spec fn row_title_cols(width: int, badge: Option<BadgeView>, indicators: bool) -> int {
    min_int(sub0(width, badge_cols(width, badge, indicators)), sub0(width, 1))
}

/// `count` segments are kept: the most that fit `limit` columns when joined,
/// but never fewer than one (when there are any).
pub open spec fn is_fitting_count(segs: Seq<Seq<char>>, limit: int, count: int) -> bool {
    if segs.len() == 0 {
        count == 0
    } else {
        &&& 1 <= count <= segs.len()
        &&& (count == 1 || display_columns(joined(segs.subrange(0, count), bullet_sep())) <= limit)
        &&& forall|d: int|
            count < d <= segs.len() ==> display_columns(#[trigger] joined(segs.subrange(0, d), bullet_sep())) > limit
    }
}

/// Only one count qualifies.
pub proof fn lemma_fitting_count_unique(segs: Seq<Seq<char>>, limit: int, c1: int, c2: int)
    requires
        is_fitting_count(segs, limit, c1),
        is_fitting_count(segs, limit, c2),
    ensures
        c1 == c2,
{
    if segs.len() > 0 {
        if c1 < c2 {
            assert(display_columns(joined(segs.subrange(0, c2), bullet_sep())) > limit);
        } else if c2 < c1 {
            assert(display_columns(joined(segs.subrange(0, c1), bullet_sep())) > limit);
        }
    }
}

/// Segments drop from the right: a narrower row keeps no more of them than a
/// wider one (and what it keeps is always a leading run).
pub proof fn law_narrower_keeps_fewer_segments(segs: Seq<Seq<char>>, narrow: int, wide: int, c1: int, c2: int)
    requires
        narrow <= wide,
        is_fitting_count(segs, narrow, c1),
        is_fitting_count(segs, wide, c2),
    ensures
        c1 <= c2,
{
    if segs.len() > 0 && c2 < c1 {
        assert(display_columns(joined(segs.subrange(0, c1), bullet_sep())) > wide);
    }
}

/// The agent name yields before its status icon: the glyph keeps its column
/// at every width, and once the name shows at some width it shows at every
/// wider one.
pub proof fn law_badge_name_yields_first(badge: Option<BadgeView>, indicators: bool, narrow: int, wide: int)
    requires
        narrow <= wide,
    ensures
        badge_cols(narrow, badge, indicators) >= icon_cols(badge, indicators),
        badge_cols(wide, badge, indicators) >= icon_cols(badge, indicators),
        shows_name(narrow, badge, indicators) ==> shows_name(wide, badge, indicators),
{
}

/// The left text of a row: its segments joined by " • ", dropping from the
/// right until it fits (the first always stays).
pub open spec fn fitted_text(segs: Seq<Seq<char>>, limit: int) -> Seq<char> {
    let count = choose|c: int| is_fitting_count(segs, limit, c);
    joined(segs.subrange(0, count), bullet_sep())
}

/// The badge commands: name, a space and the glyph when the name shows;
/// only the glyph otherwise; nothing without a glyph.
pub open spec fn badge_draws(area: Rect, title_style: Style, badge: Option<BadgeView>, config: ClientShellConfig) -> Seq<Draw> {
    let ind = config.status_indicators;
    let right_w = badge_cols(area.width as int, badge, ind);
    let right = area.right_edge() as u16;
    let x0 = sub0(area.right_edge(), right_w) as u16;
    let name = badge_name(badge);
    let icon = badge_icon(badge, ind);
    let icon_style = fg_style(color_of(badge_status(badge), config.palette));
    if right_w == 0 {
        Seq::empty()
    } else if shows_name(area.width as int, badge, ind) {
        let x1 = segment_end(x0, right, name);
        let x2 = segment_end(x1, right, seq![' ']);
        seq![
            segment_draw(x0, area.y, right, name, fg_style(config.palette.overlay0)),
            segment_draw(x1, area.y, right, seq![' '], title_style),
            segment_draw(x2, area.y, right, icon, icon_style),
        ]
    } else {
        seq![segment_draw(x0, area.y, right, icon, icon_style)]
    }
}

/// Everything a row with segments and a badge draws.
pub open spec fn badge_row_draws(
    area: Rect,
    segs: Seq<Seq<char>>,
    title_style: Style,
    badge: Option<BadgeView>,
    config: ClientShellConfig,
) -> Seq<Draw> {
    let title_w = row_title_cols(area.width as int, badge, config.status_indicators);
    seq![Draw::Text(area.x, area.y, title_w as u16, fitted_text(segs, title_w), title_style)]
        + badge_draws(area, title_style, badge, config)
}

/// A badge name can be measured against the row without overflow.
pub open spec fn badge_fits_u16(badge: Option<BadgeView>, indicators: bool) -> bool {
    icon_cols(badge, indicators) > 0 && display_columns(badge_name(badge)) > 0
        ==> display_columns(badge_name(badge)) + 6 <= u16::MAX
}

/// Whether a badge's name leaves room beside it (see `badge_fits_u16`).
pub fn badge_fits_check(badge: &Option<Badge>, indicators: bool) -> (r: bool)
    ensures
        r == badge_fits_u16(opt_badge(*badge), indicators),
{
    match badge {
        Some(b) => {
            let icon = status_icon(b.status, indicators);
            let name_width = match &b.name {
                Some(n) => display_width(n.as_slice()),
                None => {
                    let empty: Vec<char> = Vec::new();
                    display_width(empty.as_slice())
                },
            };
            assert(icon@ == badge_icon(opt_badge(*badge), indicators));
            !(icon.len() > 0 && name_width > 0) || name_width <= u16::MAX - 6
        },
        None => true,
    }
}

/// Left text built from `segments` joined by " • " (rightmost segment
/// dropped first when narrow); badge right-aligned, the agent name
/// yielding before its status icon.
pub fn render_strip_line_with_badge(
    buffer: &mut Buffer,
    area: Rect,
    segments: &[Vec<char>],
    title_style: Style,
    badge: Option<Badge>,
    config: &ClientShellConfig,
)
    requires
        badge_fits_u16(opt_badge(badge), config.status_indicators),
    ensures
        final(buffer)@ == old(buffer)@ + badge_row_draws(area, texts(segments@), title_style, opt_badge(badge), *config),
{
    let ghost segs = texts(segments@);
    let ghost ind = config.status_indicators;
    let icon = match &badge {
        Some(b) => status_icon(b.status, config.status_indicators),
        None => Vec::new(),
    };
    assert(icon@ == badge_icon(opt_badge(badge), ind));
    let icon_width: u16 = if icon.len() > 0 { 1 } else { 0 };
    let empty: Vec<char> = Vec::new();
    let name: &[char] = match &badge {
        Some(b) => match &b.name {
            Some(n) => n.as_slice(),
            None => empty.as_slice(),
        },
        None => empty.as_slice(),
    };
    assert(name@ == badge_name(opt_badge(badge)));
    let name_width = display_width(name);
    let show_name = icon_width > 0 && name_width > 0
        && area.width >= icon_width + name_width + 1 + MIN_TITLE_WIDTH;
    let right_width = if show_name { name_width + 1 + icon_width } else { icon_width };
    let a = area.width.saturating_sub(right_width);
    let b = area.width.saturating_sub(1);
    let title_width = if a < b { a } else { b };
    assert(title_width as int == row_title_cols(area.width as int, opt_badge(badge), ind));

    let mut count = segments.len();
    let mut text = join_segments(segments, count);
    while display_width(text.as_slice()) > title_width && count > 1
        invariant
            1 <= count <= segments.len() || (count == 0 && segments.len() == 0),
            segs == texts(segments@),
            text@ == joined(segs.subrange(0, count as int), bullet_sep()),
            forall|d: int|
                count < d <= segs.len()
                    ==> display_columns(#[trigger] joined(segs.subrange(0, d), bullet_sep())) > title_width,
        decreases count,
    {
        count = count - 1;
        text = join_segments(segments, count);
    }
    proof {
        assert(is_fitting_count(segs, title_width as int, count as int));
        let c = choose|c: int| is_fitting_count(segs, title_width as int, c);
        lemma_fitting_count_unique(segs, title_width as int, c, count as int);
    }
    put_text(buffer, area.x, area.y, title_width, text.as_slice(), title_style);

    if right_width == 0 {
        assert(final(buffer)@ =~= old(buffer)@ + badge_row_draws(area, segs, title_style, opt_badge(badge), *config));
        return;
    }
    let ghost mid = buffer@;
    let right = area.right();
    let mut x = area.right().saturating_sub(right_width);
    let status = match &badge {
        Some(b) => b.status,
        None => AgentStatus::Unknown,
    };
    let icon_style = Style { fg: Some(status_color(status, &config.palette)), bg: None, bold: false, dim: false };
    if show_name {
        let name_style = Style { fg: Some(config.palette.overlay0), bg: None, bold: false, dim: false };
        x = put_segment(buffer, x, area.y, right, name, name_style);
        let space = vec![' '];
        assert(space@ =~= seq![' ']);
        x = put_segment(buffer, x, area.y, right, space.as_slice(), title_style);
    }
    put_segment(buffer, x, area.y, right, icon.as_slice(), icon_style);
    assert(final(buffer)@ =~= old(buffer)@ + badge_row_draws(area, segs, title_style, opt_badge(badge), *config));
}

/// Draw a row with a badge when the badge's name leaves room beside it and
/// report `true`; otherwise draw nothing and report `false`.
pub fn try_render_strip_line_with_badge(
    buffer: &mut Buffer,
    area: Rect,
    segments: &[Vec<char>],
    title_style: Style,
    badge: Option<Badge>,
    config: &ClientShellConfig,
) -> (drawn: bool)
    ensures
        drawn == badge_fits_u16(opt_badge(badge), config.status_indicators),
        drawn ==> final(buffer)@ == old(buffer)@ + badge_row_draws(area, texts(segments@), title_style, opt_badge(badge),
            *config),
        !drawn ==> final(buffer)@ == old(buffer)@,
{
    let fits = badge_fits_check(&badge, config.status_indicators);
    if !fits {
        return false;
    }
    render_strip_line_with_badge(buffer, area, segments, title_style, badge, config);
    true
}

/// Whether the title row shows the workspace label: only when there is one
/// and it leaves the title its minimum width.
pub open spec fn shows_label(width: int, label: Seq<char>) -> bool {
    display_columns(label) > 0 && width >= display_columns(label) + 1 + MIN_TITLE_WIDTH
}

/// Everything a title row draws.
pub open spec fn title_row_draws(area: Rect, title: Seq<char>, title_style: Style, label: Seq<char>, palette: Palette) -> Seq<Draw> {
    let show = shows_label(area.width as int, label);
    let title_w = if show { area.width - (display_columns(label) + 1) } else { area.width as int };
    let head = seq![Draw::Text(area.x, area.y, title_w as u16, title, title_style)];
    if show {
        head.push(right_text_draw(area, area.y, label, dim_style(palette.overlay0)))
    } else {
        head
    }
}

/// Title left-aligned; workspace label right-aligned and dim, hidden
/// before the title drops below its minimum width.
pub fn render_strip_title_row(
    buffer: &mut Buffer,
    area: Rect,
    title: &[char],
    title_style: Style,
    workspace_label: &[char],
    config: &ClientShellConfig,
)
    requires
        display_columns(workspace_label@) > 0 ==> display_columns(workspace_label@) + 5 <= u16::MAX,
    ensures
        final(buffer)@ == old(buffer)@ + title_row_draws(area, title@, title_style, workspace_label@, config.palette),
{
    let label_width = display_width(workspace_label);
    let show_label = label_width > 0 && area.width >= label_width + 1 + MIN_TITLE_WIDTH;
    let title_width = if show_label { area.width.saturating_sub(label_width + 1) } else { area.width };
    put_text(buffer, area.x, area.y, title_width, title, title_style);
    if show_label {
        let style = Style { fg: Some(config.palette.overlay0), bg: None, bold: false, dim: true };
        put_right_text(buffer, area, area.y, workspace_label, style);
    }
    assert(final(buffer)@ =~= old(buffer)@ + title_row_draws(area, title@, title_style, workspace_label@, config.palette));
}


/// Draw a title row when the workspace label's width leaves room beside it
/// and report `true`; otherwise draw nothing and report `false`.
pub fn try_render_strip_title_row(
    buffer: &mut Buffer,
    area: Rect,
    title: &[char],
    title_style: Style,
    workspace_label: &[char],
    config: &ClientShellConfig,
) -> (drawn: bool)
    ensures
        drawn == (display_columns(workspace_label@) > 0 ==> display_columns(workspace_label@) + 5 <= u16::MAX),
        drawn ==> final(buffer)@ == old(buffer)@ + title_row_draws(area, title@, title_style, workspace_label@,
            config.palette),
        !drawn ==> final(buffer)@ == old(buffer)@,
{
    let label_width = display_width(workspace_label);
    if label_width > 0 && label_width > u16::MAX - 5 {
        return false;
    }
    render_strip_title_row(buffer, area, title, title_style, workspace_label, config);
    true
}

/// Horizontal border pieces for columns `lo..hi`, on the top and bottom rows.
pub open spec fn hline_draws(lo: int, hi: int, top: u16, bottom: u16, style: Style) -> Seq<Draw>
    decreases hi - lo,
{
    if lo >= hi {
        Seq::empty()
    } else {
        hline_draws(lo, hi - 1, top, bottom, style)
            + seq![Draw::Text((hi - 1) as u16, top, 1, seq!['─'], style), Draw::Text((hi - 1) as u16, bottom, 1, seq!['─'], style)]
    }
}

/// Vertical border pieces for rows `lo..hi`, on the left and right columns.
pub open spec fn vline_draws(lo: int, hi: int, left: u16, right: u16, style: Style) -> Seq<Draw>
    decreases hi - lo,
{
    if lo >= hi {
        Seq::empty()
    } else {
        vline_draws(lo, hi - 1, left, right, style)
            + seq![Draw::Text(left, (hi - 1) as u16, 1, seq!['│'], style), Draw::Text(right, (hi - 1) as u16, 1, seq!['│'], style)]
    }
}

/// Whether a rectangle has room for a box (and something inside it).
pub open spec fn has_box(r: Rect) -> bool {
    r.width >= 5 && r.height >= 3
}

/// The content area inside a group box (the rectangle itself when too small
/// for a box).
pub open spec fn box_inner(r: Rect) -> Rect {
    if has_box(r) {
        rect((r.x + 1) as u16, (r.y + 1) as u16, (r.width - 2) as u16, (r.height - 2) as u16)
    } else {
        r
    }
}

/// The content area inside a group box (see `box_inner`).
pub fn strip_box_inner(r: Rect) -> (inner: Rect)
    requires
        has_box(r) ==> r.x < u16::MAX && r.y < u16::MAX,
    ensures
        inner == box_inner(r),
{
    if r.width < 5 || r.height < 3 {
        return r;
    }
    Rect::new(r.x + 1, r.y + 1, r.width - 2, r.height - 2)
}

/// The commands that draw a rounded box: edges, then the four corners.
pub open spec fn box_draws(r: Rect, style: Style) -> Seq<Draw> {
    if !has_box(r) {
        Seq::empty()
    } else {
        let inner = box_inner(r);
        let right = sub0(r.right_edge(), 1) as u16;
        let bottom = sub0(r.bottom_edge(), 1) as u16;
        hline_draws(inner.x as int, inner.right_edge(), r.y, bottom, style)
            + vline_draws(inner.y as int, inner.bottom_edge(), r.x, right, style)
            + seq![
                Draw::Text(r.x, r.y, 1, seq!['╭'], style),
                Draw::Text(right, r.y, 1, seq!['╮'], style),
                Draw::Text(r.x, bottom, 1, seq!['╰'], style),
                Draw::Text(right, bottom, 1, seq!['╯'], style),
            ]
    }
}

/// Rounded, muted box; returns the inner content rect. Falls back to the
/// rect itself when there is no room for a box.
pub fn draw_strip_box(buffer: &mut Buffer, r: Rect, style: Style) -> (inner: Rect)
    requires
        has_box(r) ==> r.x < u16::MAX && r.y < u16::MAX,
    ensures
        inner == box_inner(r),
        final(buffer)@ == old(buffer)@ + box_draws(r, style),
{
    if r.width < 5 || r.height < 3 {
        assert(final(buffer)@ =~= old(buffer)@ + box_draws(r, style));
        return r;
    }
    let inner = Rect::new(r.x + 1, r.y + 1, r.width - 2, r.height - 2);
    let right = r.right().saturating_sub(1);
    let bottom = r.bottom().saturating_sub(1);
    let ghost start = buffer@;
    let horizontal = vec!['─'];
    let vertical = vec!['│'];
    assert(horizontal@ =~= seq!['─']);
    assert(vertical@ =~= seq!['│']);
    let inner_right = inner.right();
    let mut x = inner.x;
    while x < inner_right
        invariant
            inner.x <= x <= inner_right,
            horizontal@ == seq!['─'],
            buffer@ == start + hline_draws(inner.x as int, x as int, r.y, bottom, style),
        decreases inner_right - x,
    {
        put_text(buffer, x, r.y, 1, horizontal.as_slice(), style);
        put_text(buffer, x, bottom, 1, horizontal.as_slice(), style);
        assert(buffer@ =~= start + hline_draws(inner.x as int, x + 1, r.y, bottom, style));
        x = x + 1;
    }
    let ghost mid = buffer@;
    let inner_bottom = inner.bottom();
    let mut y = inner.y;
    while y < inner_bottom
        invariant
            inner.y <= y <= inner_bottom,
            vertical@ == seq!['│'],
            buffer@ == mid + vline_draws(inner.y as int, y as int, r.x, right, style),
        decreases inner_bottom - y,
    {
        put_text(buffer, r.x, y, 1, vertical.as_slice(), style);
        put_text(buffer, right, y, 1, vertical.as_slice(), style);
        assert(buffer@ =~= mid + vline_draws(inner.y as int, y + 1, r.x, right, style));
        y = y + 1;
    }
    let top_left = vec!['╭'];
    let top_right = vec!['╮'];
    let bottom_left = vec!['╰'];
    let bottom_right = vec!['╯'];
    put_text(buffer, r.x, r.y, 1, top_left.as_slice(), style);
    put_text(buffer, right, r.y, 1, top_right.as_slice(), style);
    put_text(buffer, r.x, bottom, 1, bottom_left.as_slice(), style);
    put_text(buffer, right, bottom, 1, bottom_right.as_slice(), style);
    assert(top_left@ =~= seq!['╭']);
    assert(top_right@ =~= seq!['╮']);
    assert(bottom_left@ =~= seq!['╰']);
    assert(bottom_right@ =~= seq!['╯']);
    assert(final(buffer)@ =~= old(buffer)@ + box_draws(r, style));
    inner
}

} // verus!

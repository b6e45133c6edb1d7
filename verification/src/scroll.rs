//! Scroll arithmetic shared by the horizontal tab bar and the vertical tab strip.
//!
//! A run of items with sizes `ws` is laid out from index `start`; each item is
//! followed by `gap` cells of separation (one column between tabs, none between
//! strip groups).
use vstd::prelude::*;

verus! {

/// Cells taken by items `a..b` of `ws`, each followed by `gap` cells.
pub open spec fn span(ws: Seq<u16>, gap: int, a: int, b: int) -> int
    decreases b - a,
{
    if a >= b {
        0
    } else {
        span(ws, gap, a, b - 1) + ws[b - 1] + gap
    }
}

/// The span grows (weakly) as the end index moves right.
pub proof fn lemma_span_grows(ws: Seq<u16>, gap: int, a: int, b: int, c: int)
    requires
        0 <= a,
        b <= c <= ws.len(),
        gap >= 0,
    ensures
        span(ws, gap, a, b) <= span(ws, gap, a, c),
    decreases c - b,
{
    if b < c {
        lemma_span_grows(ws, gap, a, b, c - 1);
        assert(ws[c - 1] >= 0);
    }
}

/// Spans are never negative.
pub proof fn lemma_span_nonneg(ws: Seq<u16>, gap: int, a: int, b: int)
    requires
        0 <= a,
        b <= ws.len(),
        gap >= 0,
    ensures
        span(ws, gap, a, b) >= 0,
    decreases b - a,
{
    if a < b {
        lemma_span_nonneg(ws, gap, a, b - 1);
    }
}

/// Peeling the first item off a span.
pub proof fn lemma_span_front(ws: Seq<u16>, gap: int, a: int, b: int)
    requires
        a < b,
    ensures
        span(ws, gap, a, b) == ws[a] + gap + span(ws, gap, a + 1, b),
    decreases b - a,
{
    assert(span(ws, gap, a, a) == 0);
    assert(span(ws, gap, a + 1, a + 1) == 0);
    if a + 1 < b {
        lemma_span_front(ws, gap, a, b - 1);
        assert(span(ws, gap, a + 1, b) == span(ws, gap, a + 1, b - 1) + ws[b - 1] + gap);
    }
}

/// Adding a gap after every item adds one cell per item.
pub proof fn lemma_span_gap(ws: Seq<u16>, a: int, b: int)
    requires
        a <= b,
    ensures
        span(ws, 1, a, b) == span(ws, 0, a, b) + (b - a),
    decreases b - a,
{
    if a < b {
        lemma_span_gap(ws, a, b - 1);
    }
}

/// `last` is the last item that starts inside `available` cells when the run
/// is laid out from `start`: it starts inside, and the next one (if any) does not.
pub open spec fn is_last_visible(ws: Seq<u16>, gap: int, start: int, available: int, last: int) -> bool {
    &&& start <= last < ws.len()
    &&& span(ws, gap, start, last) < available
    &&& (last + 1 == ws.len() || span(ws, gap, start, last + 1) >= available)
}

/// The contract shared by both "last visible" scans.
pub open spec fn last_visible_contract(
    ws: Seq<u16>,
    gap: int,
    start: int,
    available: int,
    r: Option<usize>,
) -> bool {
    &&& (r is None <==> (start >= ws.len() || available == 0))
    &&& (r matches Some(last) ==> is_last_visible(ws, gap, start, available, last as int))
}

/// Some item is the last visible one whenever the run has an item at `start`
/// and there is room to show it.
pub proof fn lemma_last_visible_exists(ws: Seq<u16>, gap: int, start: int, available: int)
    requires
        gap >= 0,
        0 <= start < ws.len(),
        available > 0,
    ensures
        exists|l: int| is_last_visible(ws, gap, start, available, l),
{
    assert(span(ws, gap, start, start) == 0);
    lemma_last_visible_from(ws, gap, start, available, start);
}

/// Searching on from an item `k` that begins inside the visible area finds
/// the last visible one.
proof fn lemma_last_visible_from(ws: Seq<u16>, gap: int, start: int, available: int, k: int)
    requires
        gap >= 0,
        0 <= start <= k < ws.len(),
        span(ws, gap, start, k) < available,
    ensures
        exists|l: int| is_last_visible(ws, gap, start, available, l),
    decreases ws.len() - k,
{
    if k + 1 == ws.len() || span(ws, gap, start, k + 1) >= available {
        assert(is_last_visible(ws, gap, start, available, k));
    } else {
        lemma_last_visible_from(ws, gap, start, available, k + 1);
    }
}

/// An item `i` at or after `start` starts inside the visible area exactly when
/// it is at most the last visible one.
pub proof fn lemma_last_visible_bound(
    ws: Seq<u16>,
    gap: int,
    start: int,
    available: int,
    last: int,
    i: int,
)
    requires
        gap >= 0,
        0 <= start <= i < ws.len(),
        is_last_visible(ws, gap, start, available, last),
    ensures
        (i <= last) <==> (span(ws, gap, start, i) < available),
{
    if i <= last {
        lemma_span_grows(ws, gap, start, i, last);
    } else {
        lemma_span_grows(ws, gap, start, last + 1, i);
    }
}

/// The last visible item is unique.
pub proof fn lemma_last_visible_unique(ws: Seq<u16>, gap: int, start: int, available: int, l1: int, l2: int)
    requires
        gap >= 0,
        0 <= start,
        is_last_visible(ws, gap, start, available, l1),
        is_last_visible(ws, gap, start, available, l2),
    ensures
        l1 == l2,
{
    lemma_last_visible_bound(ws, gap, start, available, l1, l2);
    lemma_last_visible_bound(ws, gap, start, available, l2, l1);
}

/// Last tab (by index) that is at least partly visible when the bar is
/// scrolled to `start`; tabs are separated by one column.
pub fn last_visible_tab(start: usize, widths: &[u16], available: u16) -> (r: Option<usize>)
    ensures
        last_visible_contract(widths@, 1, start as int, available as int, r),
{
    if start >= widths.len() || available == 0 {
        return None;
    }
    let mut remaining: u16 = available;
    let mut last: Option<usize> = None;
    let mut index: usize = start;
    while index < widths.len()
        invariant
            start <= index <= widths.len(),
            start < widths.len(),
            available > 0,
            remaining as int == available as int - span(widths@, 1, start as int, index as int),
            index == start ==> last is None,
            index > start ==> last == Some((index - 1) as usize),
            index > start ==> span(widths@, 1, start as int, index - 1) < available,
        decreases widths.len() - index,
    {
        if remaining == 0 {
            return last;
        }
        let width = widths[index];
        if width >= remaining {
            return Some(index);
        }
        remaining = remaining - (width + 1);
        last = Some(index);
        index = index + 1;
    }
    last
}

/// Last strip group (by index) that is at least partly visible when the strip
/// is scrolled to `start`; groups stack flush.
pub fn last_visible_entry(start: usize, heights: &[u16], available: u16) -> (r: Option<usize>)
    ensures
        last_visible_contract(heights@, 0, start as int, available as int, r),
{
    if start >= heights.len() || available == 0 {
        return None;
    }
    let mut remaining: u16 = available;
    let mut last: Option<usize> = None;
    let mut index: usize = start;
    while index < heights.len()
        invariant
            start <= index <= heights.len(),
            start < heights.len(),
            available > 0,
            remaining as int == available as int - span(heights@, 0, start as int, index as int),
            remaining > 0,
            index == start ==> last is None,
            index > start ==> last == Some((index - 1) as usize),
            index > start ==> span(heights@, 0, start as int, index - 1) < available,
        decreases heights.len() - index,
    {
        let height = heights[index];
        if height >= remaining {
            return Some(index);
        }
        remaining = remaining - height;
        last = Some(index);
        index = index + 1;
    }
    last
}


/// The smallest start from which the last item still begins inside the
/// visible area (the largest scroll of a run whose last item cannot show
/// whole). Zero when the run is empty or nothing is visible.
pub open spec fn is_max_scroll(ws: Seq<u16>, gap: int, available: int, r: int) -> bool {
    if ws.len() == 0 || available == 0 {
        r == 0
    } else {
        &&& 0 <= r < ws.len()
        &&& span(ws, gap, r, ws.len() - 1) < available
        &&& forall|s: int| 0 <= s < r ==> #[trigger] span(ws, gap, s, ws.len() - 1) >= available
    }
}

/// For a start before the last item: the last item is the last visible one
/// exactly when it begins inside the visible area.
proof fn lemma_reaches_end(ws: Seq<u16>, gap: int, start: int, available: int, r: Option<usize>)
    requires
        gap >= 0,
        0 <= start < ws.len(),
        ws.len() <= usize::MAX,
        available > 0,
        last_visible_contract(ws, gap, start, available, r),
    ensures
        (r == Some((ws.len() - 1) as usize)) <==> span(ws, gap, start, ws.len() - 1) < available,
{
    assert(r is Some);
    let last = r->0 as int;
    assert(is_last_visible(ws, gap, start, available, last));
    if span(ws, gap, start, ws.len() - 1) < available {
        lemma_last_visible_bound(ws, gap, start, available, last, ws.len() - 1);
        assert(last == ws.len() - 1);
        assert(r->0 == (ws.len() - 1) as usize);
    }
}

/// Every run has a maximum scroll.
pub proof fn lemma_max_scroll_exists(ws: Seq<u16>, gap: int, available: int)
    requires
        gap >= 0,
        available >= 0,
    ensures
        exists|r: int| is_max_scroll(ws, gap, available, r),
{
    if ws.len() == 0 || available == 0 {
        assert(is_max_scroll(ws, gap, available, 0));
    } else {
        lemma_max_scroll_from(ws, gap, available, 0);
    }
}

/// Searching on from a start before which the last item never shows finds
/// the maximum scroll.
proof fn lemma_max_scroll_from(ws: Seq<u16>, gap: int, available: int, s: int)
    requires
        gap >= 0,
        ws.len() > 0,
        available > 0,
        0 <= s < ws.len(),
        forall|t: int| 0 <= t < s ==> #[trigger] span(ws, gap, t, ws.len() - 1) >= available,
    ensures
        exists|r: int| is_max_scroll(ws, gap, available, r),
    decreases ws.len() - s,
{
    if span(ws, gap, s, ws.len() - 1) < available {
        assert(is_max_scroll(ws, gap, available, s));
    } else {
        assert(span(ws, gap, ws.len() - 1, ws.len() - 1) == 0);
        assert forall|t: int| 0 <= t < s + 1 implies #[trigger] span(ws, gap, t, ws.len() - 1) >= available by {
            if t == s {
            }
        }
        lemma_max_scroll_from(ws, gap, available, s + 1);
    }
}

/// Smallest horizontal scroll from which the last tab begins inside the
/// visible width.
fn scroll_showing_last_tab(widths: &[u16], available: u16) -> (r: usize)
    ensures
        is_max_scroll(widths@, 1, available as int, r as int),
{
    let mut start: usize = 0;
    while start < widths.len()
        invariant
            start <= widths.len(),
            forall|s: int| 0 <= s < start ==> #[trigger] span(widths@, 1, s, widths.len() - 1) >= available,
            widths.len() > 0 && available > 0 ==> start < widths.len(),
        decreases widths.len() - start,
    {
        let last = last_visible_tab(start, widths, available);
        proof {
            if available > 0 {
                lemma_reaches_end(widths@, 1, start as int, available as int, last);
            }
        }
        if available > 0 && last == Some(widths.len() - 1) {
            return start;
        }
        proof {
            if available > 0 && start + 1 == widths.len() {
                assert(span(widths@, 1, start as int, start as int) == 0);
            }
            lemma_span_nonneg(widths@, 1, start as int, widths.len() - 1);
        }
        start = start + 1;
    }
    0
}

/// Smallest vertical scroll from which the last strip group begins inside
/// the visible height.
fn scroll_showing_last_group(heights: &[u16], available: u16) -> (r: usize)
    ensures
        is_max_scroll(heights@, 0, available as int, r as int),
{
    let mut start: usize = 0;
    while start < heights.len()
        invariant
            start <= heights.len(),
            forall|s: int| 0 <= s < start ==> #[trigger] span(heights@, 0, s, heights.len() - 1) >= available,
            heights.len() > 0 && available > 0 ==> start < heights.len(),
        decreases heights.len() - start,
    {
        let last = last_visible_entry(start, heights, available);
        proof {
            if available > 0 {
                lemma_reaches_end(heights@, 0, start as int, available as int, last);
            }
        }
        if available > 0 && last == Some(heights.len() - 1) {
            return start;
        }
        proof {
            if available > 0 && start + 1 == heights.len() {
                assert(span(heights@, 0, start as int, start as int) == 0);
            }
            lemma_span_nonneg(heights@, 0, start as int, heights.len() - 1);
        }
        start = start + 1;
    }
    0
}

/// `r` is the largest scroll of a run: when its last item fits the visible
/// area at all, the smallest start from which every item from there on fits
/// whole (with `gap` cells between consecutive items); otherwise the
/// smallest start from which the last item still begins inside.
pub open spec fn is_full_max_scroll(ws: Seq<u16>, gap: int, available: int, r: int) -> bool {
    let n = ws.len() as int;
    if n == 0 || available == 0 {
        r == 0
    } else if ws[n - 1] <= available {
        &&& 0 <= r < n
        &&& span(ws, gap, r, n) - gap <= available
        &&& forall|s: int| 0 <= s < r ==> #[trigger] span(ws, gap, s, n) - gap > available
    } else {
        is_max_scroll(ws, gap, available, r)
    }
}

/// The largest scroll of a run, shown whole where it fits.
pub open spec fn full_max_scroll(ws: Seq<u16>, gap: int, available: int) -> int {
    choose|r: int| is_full_max_scroll(ws, gap, available, r)
}

/// Only one scroll position is the largest.
pub proof fn lemma_full_max_scroll_unique(ws: Seq<u16>, gap: int, available: int, r1: int, r2: int)
    requires
        is_full_max_scroll(ws, gap, available, r1),
        is_full_max_scroll(ws, gap, available, r2),
    ensures
        r1 == r2,
{
    let n = ws.len() as int;
    if n > 0 && available != 0 {
        if ws[n - 1] <= available {
            if r1 < r2 {
                assert(span(ws, gap, r1, n) - gap > available);
            } else if r2 < r1 {
                assert(span(ws, gap, r2, n) - gap > available);
            }
        } else {
            lemma_max_scroll_unique(ws, gap, available, r1, r2);
        }
    }
}

/// Moving the start left never shrinks a span.
pub proof fn lemma_span_shrinks(ws: Seq<u16>, gap: int, a: int, a2: int, b: int)
    requires
        a <= a2 <= b,
        gap >= 0,
    ensures
        span(ws, gap, a2, b) <= span(ws, gap, a, b),
    decreases a2 - a,
{
    if a < a2 {
        lemma_span_front(ws, gap, a, b);
        lemma_span_shrinks(ws, gap, a + 1, a2, b);
    }
}

/// Every run has a largest scroll.
pub proof fn lemma_full_max_scroll_exists(ws: Seq<u16>, gap: int, available: int)
    requires
        0 <= gap <= 1,
        available >= 0,
    ensures
        exists|r: int| is_full_max_scroll(ws, gap, available, r),
{
    let n = ws.len() as int;
    if n == 0 || available == 0 {
        assert(is_full_max_scroll(ws, gap, available, 0));
    } else if ws[n - 1] <= available {
        assert(span(ws, gap, n - 1, n - 1) == 0);
        lemma_full_fit_from(ws, gap, available, 0);
    } else {
        lemma_max_scroll_exists(ws, gap, available);
        let r = choose|r: int| is_max_scroll(ws, gap, available, r);
        assert(is_full_max_scroll(ws, gap, available, r));
    }
}

/// Searching on from a start before which the rest never fits whole finds
/// the largest scroll.
proof fn lemma_full_fit_from(ws: Seq<u16>, gap: int, available: int, s: int)
    requires
        0 <= gap <= 1,
        ws.len() > 0,
        available > 0,
        ws[ws.len() - 1] <= available,
        0 <= s < ws.len(),
        forall|t: int| 0 <= t < s ==> #[trigger] span(ws, gap, t, ws.len() as int) - gap > available,
    ensures
        exists|r: int| is_full_max_scroll(ws, gap, available, r),
    decreases ws.len() - s,
{
    let n = ws.len() as int;
    if span(ws, gap, s, n) - gap <= available {
        assert(is_full_max_scroll(ws, gap, available, s));
    } else {
        assert(span(ws, gap, n - 1, n) == ws[n - 1] + gap) by {
            assert(span(ws, gap, n - 1, n - 1) == 0);
        }
        assert forall|t: int| 0 <= t < s + 1 implies #[trigger] span(ws, gap, t, n) - gap > available by {
            if t == s {
            }
        }
        lemma_full_fit_from(ws, gap, available, s + 1);
    }
}

/// The smallest start from which the items from there on, with `gap` cells
/// between consecutive ones, fit `available` cells whole (the last item
/// fits on its own).
fn full_fit_start(items: &[u16], gap: u16, available: u16) -> (r: usize)
    requires
        gap <= 1,
        items.len() > 0,
        items[items.len() - 1] <= available,
    ensures
        0 <= r < items.len(),
        span(items@, gap as int, r as int, items.len() as int) - gap <= available,
        forall|s: int| 0 <= s < r ==> #[trigger] span(items@, gap as int, s, items.len() as int) - gap > available,
{
    let ghost ws = items@;
    let ghost g = gap as int;
    let n = items.len();
    let mut s: usize = n - 1;
    let mut used: u32 = items[n - 1] as u32;
    let mut done = false;
    proof {
        assert(span(ws, g, s as int, s as int) == 0);
        assert(span(ws, g, s as int, n as int) == items[n - 1] + g);
    }
    while s > 0 && !done
        invariant
            ws == items@,
            g == gap as int,
            gap <= 1,
            0 <= s < n,
            n == items.len(),
            used as int == span(ws, g, s as int, n as int) - g,
            used <= available,
            done ==> s > 0 && span(ws, g, s - 1, n as int) - g > available,
        decreases s + (if done { 0int } else { 1int }),
    {
        let w = items[s - 1] as u32;
        proof {
            lemma_span_front(ws, g, s - 1, n as int);
        }
        if used + w + gap as u32 > available as u32 {
            done = true;
        } else {
            used = used + w + gap as u32;
            s = s - 1;
        }
    }
    proof {
        assert forall|t: int| 0 <= t < s implies #[trigger] span(ws, g, t, n as int) - g > available by {
            lemma_span_shrinks(ws, g, t, s - 1, n as int);
        }
    }
    s
}

/// Largest horizontal scroll: from it the last tab shows whole, after as
/// many tabs before it as fit; when the last tab is wider than the bar, the
/// smallest scroll from which it still begins inside.
pub fn max_tab_scroll(widths: &[u16], available: u16) -> (r: usize)
    ensures
        is_full_max_scroll(widths@, 1, available as int, r as int),
{
    if widths.len() == 0 || available == 0 || widths[widths.len() - 1] > available {
        return scroll_showing_last_tab(widths, available);
    }
    full_fit_start(widths, 1, available)
}

/// Largest vertical scroll: from it the last group shows whole, after as
/// many groups before it as fit; when the last group is taller than the
/// strip, the smallest scroll from which it still begins inside.
pub fn max_tab_strip_scroll(heights: &[u16], available: u16) -> (r: usize)
    ensures
        is_full_max_scroll(heights@, 0, available as int, r as int),
{
    if heights.len() == 0 || available == 0 || heights[heights.len() - 1] > available {
        return scroll_showing_last_group(heights, available);
    }
    full_fit_start(heights, 0, available)
}

/// A run overflows its visible area: when its last item fits at all, the
/// whole run laid out from the start does not fit; otherwise its last item
/// does not even begin inside.
pub open spec fn run_overflows(ws: Seq<u16>, gap: int, available: int) -> bool {
    let n = ws.len() as int;
    &&& n > 0
    &&& available > 0
    &&& if ws[n - 1] <= available { span(ws, gap, 0, n) - gap > available } else { span(ws, gap, 0, n - 1) >= available }
}

/// The strip overflows: its groups, stacked from the top, do not all fit
/// (see `run_overflows`).
pub fn overflow_tab_strip(heights: &[u16], available: u16) -> (r: bool)
    ensures
        r == run_overflows(heights@, 0, available as int),
{
    let max = max_tab_strip_scroll(heights, available);
    proof {
        law_overflow_iff_scrollable(heights@, 0, available as int, max as int);
    }
    max > 0
}

/// Whether scrolling the strip to `start` shows group `focused` whole: the
/// groups from `start` through it fit the visible height.
pub open spec fn strip_reveals(heights: Seq<u16>, start: int, focused: int, available: int) -> bool {
    &&& start <= focused < heights.len()
    &&& available > 0
    &&& span(heights, 0, start, focused + 1) <= available
}

/// Whether scrolling the strip to `start` shows group `focused` whole.
fn reveals_whole(heights: &[u16], start: usize, focused: usize, available: u16) -> (r: bool)
    ensures
        r == strip_reveals(heights@, start as int, focused as int, available as int),
{
    if !(start <= focused && focused < heights.len() && available > 0) {
        return false;
    }
    let mut k: usize = start;
    let mut used: u32 = 0;
    while k <= focused
        invariant
            start <= k <= focused + 1,
            focused < heights.len(),
            used as int == span(heights@, 0, start as int, k as int),
            used <= available,
        decreases focused + 1 - k,
    {
        let h = heights[k] as u32;
        if used + h > available as u32 {
            proof {
                lemma_span_grows(heights@, 0, start as int, k + 1, focused + 1);
            }
            return false;
        }
        used = used + h;
        k = k + 1;
    }
    true
}

/// `r` is the smallest scroll, no earlier than `min(current, focused)`, that
/// shows the focused group whole; `focused` itself when none before it does.
pub open spec fn is_reveal_scroll(heights: Seq<u16>, current: int, focused: int, available: int, r: int) -> bool {
    let low = if current < focused { current } else { focused };
    &&& low <= r <= focused
    &&& r < focused ==> strip_reveals(heights, r, focused, available)
    &&& forall|s: int| low <= s < r ==> !#[trigger] strip_reveals(heights, s, focused, available)
}

/// Only one scroll position qualifies.
pub proof fn lemma_reveal_scroll_unique(heights: Seq<u16>, current: int, focused: int, available: int, r1: int, r2: int)
    requires
        is_reveal_scroll(heights, current, focused, available, r1),
        is_reveal_scroll(heights, current, focused, available, r2),
    ensures
        r1 == r2,
{
    if r1 < r2 {
        assert(!strip_reveals(heights, r1, focused, available));
    } else if r2 < r1 {
        assert(!strip_reveals(heights, r2, focused, available));
    }
}

/// A revealing scroll always exists.
pub proof fn lemma_reveal_scroll_exists(heights: Seq<u16>, current: int, focused: int, available: int)
    ensures
        exists|r: int| is_reveal_scroll(heights, current, focused, available, r),
{
    let low = if current < focused { current } else { focused };
    lemma_reveal_scroll_from(heights, current, focused, available, low);
}

/// Searching on from a start before which the focused group never shows
/// finds the revealing scroll.
proof fn lemma_reveal_scroll_from(heights: Seq<u16>, current: int, focused: int, available: int, s: int)
    requires
        (if current < focused { current } else { focused }) <= s <= focused,
        forall|t: int| (if current < focused { current } else { focused }) <= t < s
            ==> !#[trigger] strip_reveals(heights, t, focused, available),
    ensures
        exists|r: int| is_reveal_scroll(heights, current, focused, available, r),
    decreases focused - s,
{
    if s == focused || strip_reveals(heights, s, focused, available) {
        assert(is_reveal_scroll(heights, current, focused, available, s));
    } else {
        lemma_reveal_scroll_from(heights, current, focused, available, s + 1);
    }
}

/// The scroll the strip moves to when revealing the focused group.
pub open spec fn reveal_scroll(heights: Seq<u16>, current: int, focused: int, available: int) -> int {
    choose|r: int| is_reveal_scroll(heights, current, focused, available, r)
}

/// Only one scroll position is the maximum.
pub proof fn lemma_max_scroll_unique(ws: Seq<u16>, gap: int, available: int, r1: int, r2: int)
    requires
        is_max_scroll(ws, gap, available, r1),
        is_max_scroll(ws, gap, available, r2),
    ensures
        r1 == r2,
{
    if ws.len() > 0 && available != 0 {
        if r1 < r2 {
            assert(span(ws, gap, r1, ws.len() - 1) >= available);
        } else if r2 < r1 {
            assert(span(ws, gap, r2, ws.len() - 1) >= available);
        }
    }
}

/// The smallest scroll, no earlier than `min(current, focused)`, that shows
/// the focused group whole; `focused` itself when none before it does.
pub fn strip_scroll_revealing(current: usize, focused: usize, heights: &[u16], available: u16) -> (r: usize)
    ensures
        is_reveal_scroll(heights@, current as int, focused as int, available as int, r as int),
{
    let low: usize = if current < focused { current } else { focused };
    let mut start: usize = low;
    while start < focused
        invariant
            low == (if current < focused { current } else { focused }),
            low <= start <= focused,
            forall|s: int| low <= s < start ==> !strip_reveals(heights@, s, focused as int, available as int),
        decreases focused - start,
    {
        if reveals_whole(heights, start, focused, available) {
            return start;
        }
        start = start + 1;
    }
    start
}


/// `v` clamped to the `u16` range from above (saturating arithmetic).
pub open spec fn sat16(v: int) -> int {
    if v > u16::MAX { u16::MAX as int } else { v }
}

/// Columns before the focused tab when the bar is scrolled to `start`
/// (saturated at `u16::MAX`).
pub open spec fn scroll_before(ws: Seq<u16>, start: int, focused: int) -> int {
    sat16(span(ws, 1, start, focused))
}

/// A scroll position at or before the focused tab from which the focused tab
/// still begins inside the visible width.
pub open spec fn centering_candidate(ws: Seq<u16>, start: int, focused: int, available: int) -> bool {
    0 <= start <= focused && scroll_before(ws, start, focused) < available
}

/// How far the focused tab's centre sits from the middle of the visible width
/// when scrolled to `start` (both measured in half columns).
pub open spec fn centering_distance(ws: Seq<u16>, start: int, focused: int, available: int) -> int {
    let before = scroll_before(ws, start, focused);
    let shown = if ws[focused] < available - before { ws[focused] as int } else { available - before };
    let center = sat16(2 * before + shown);
    if center >= available { center - available } else { available - center }
}

/// `r` best centres the focused tab: among the candidate positions it has
/// the smallest distance, and among equals the largest start (the focused
/// tab itself when nothing is visible).
pub open spec fn is_centered_scroll(ws: Seq<u16>, focused: int, available: int, r: int) -> bool {
    &&& available == 0 ==> r == focused
    &&& available > 0 ==> centering_candidate(ws, r, focused, available)
    &&& available > 0 ==> forall|s: int|
        #[trigger] centering_candidate(ws, s, focused, available) ==> {
            &&& centering_distance(ws, r, focused, available) <= centering_distance(ws, s, focused, available)
            &&& (centering_distance(ws, s, focused, available) == centering_distance(ws, r, focused, available) ==> s <= r)
        }
}

/// Only one position centres best.
pub proof fn lemma_centered_scroll_unique(ws: Seq<u16>, focused: int, available: int, r1: int, r2: int)
    requires
        available >= 0,
        is_centered_scroll(ws, focused, available, r1),
        is_centered_scroll(ws, focused, available, r2),
    ensures
        r1 == r2,
{
    if available > 0 {
        assert(centering_candidate(ws, r1, focused, available));
        assert(centering_candidate(ws, r2, focused, available));
        let d1 = centering_distance(ws, r1, focused, available);
        let d2 = centering_distance(ws, r2, focused, available);
        assert(d1 <= d2);
        assert(d2 <= d1);
        assert(r2 <= r1);
        assert(r1 <= r2);
    }
}

/// A best-centring scroll always exists.
pub proof fn lemma_centered_scroll_exists(ws: Seq<u16>, focused: int, available: int)
    requires
        0 <= focused,
        0 <= available,
    ensures
        exists|r: int| is_centered_scroll(ws, focused, available, r),
{
    if available == 0 {
        assert(is_centered_scroll(ws, focused, available, focused));
    } else {
        let r = lemma_best_centering_from(ws, focused, available, 0);
        assert(is_centered_scroll(ws, focused, available, r));
    }
}

/// The best-centring start among the starts `s..=focused`.
proof fn lemma_best_centering_from(ws: Seq<u16>, focused: int, available: int, s: int) -> (r: int)
    requires
        0 <= s <= focused,
        0 < available,
    ensures
        s <= r <= focused,
        centering_candidate(ws, r, focused, available),
        forall|t: int| s <= t <= focused && #[trigger] centering_candidate(ws, t, focused, available) ==> {
            &&& centering_distance(ws, r, focused, available) <= centering_distance(ws, t, focused, available)
            &&& (centering_distance(ws, t, focused, available) == centering_distance(ws, r, focused, available) ==> t <= r)
        },
    decreases focused - s,
{
    if s == focused {
        assert(span(ws, 1, focused, focused) == 0);
        focused
    } else {
        let rest = lemma_best_centering_from(ws, focused, available, s + 1);
        if centering_candidate(ws, s, focused, available)
            && centering_distance(ws, s, focused, available) < centering_distance(ws, rest, focused, available) {
            s
        } else {
            rest
        }
    }
}

/// The scroll position that best centres the focused tab.
pub open spec fn centered_scroll(ws: Seq<u16>, focused: int, available: int) -> int {
    choose|r: int| is_centered_scroll(ws, focused, available, r)
}

/// The scroll position that best centres the focused tab: among the candidate
/// positions it has the smallest distance, and among equals the largest start.
pub fn centered_tab_scroll(focused: usize, widths: &[u16], available: u16) -> (r: usize)
    requires
        available > 0 ==> focused < widths.len(),
        forall|k: int| 0 <= k < focused && k < widths.len() ==> widths[k] < u16::MAX,
    ensures
        is_centered_scroll(widths@, focused as int, available as int, r as int),
{
    if available == 0 {
        return focused;
    }
    let ghost ws = widths@;
    let ghost f = focused as int;
    let ghost a = available as int;
    let mut best: usize = focused;
    let mut best_distance: u16 = u16::MAX;
    let ghost mut found = false;
    let mut start: usize = 0;
    while start <= focused
        invariant
            ws == widths@,
            f == focused,
            a == available,
            available > 0,
            focused < widths.len(),
            forall|k: int| 0 <= k < focused ==> widths[k] < u16::MAX,
            0 <= start <= focused + 1,
            !found ==> best == focused && best_distance == u16::MAX,
            !found ==> forall|s: int| 0 <= s < start ==> !#[trigger] centering_candidate(ws, s, f, a),
            found ==> centering_candidate(ws, best as int, f, a),
            found ==> best < start,
            found ==> best_distance == centering_distance(ws, best as int, f, a),
            found ==> forall|s: int|
                0 <= s < start && #[trigger] centering_candidate(ws, s, f, a) ==> {
                    &&& centering_distance(ws, best as int, f, a) <= centering_distance(ws, s, f, a)
                    &&& (centering_distance(ws, s, f, a) == centering_distance(ws, best as int, f, a)
                        ==> s <= best)
                },
        decreases focused + 1 - start,
    {
        let mut before: u16 = 0;
        let mut k: usize = start;
        while k < focused
            invariant
                start <= k <= focused,
                focused < widths.len(),
                forall|j: int| 0 <= j < focused ==> widths[j] < u16::MAX,
                before as int == sat16(span(widths@, 1, start as int, k as int)),
            decreases focused - k,
        {
            before = before.saturating_add(widths[k] + 1);
            k = k + 1;
        }
        assert(before as int == scroll_before(ws, start as int, f));
        if before < available {
            let rest = available - before;
            let shown = if widths[focused] < rest { widths[focused] } else { rest };
            let doubled: u16 = if before > u16::MAX / 2 { u16::MAX } else { before * 2 };
            let center = doubled.saturating_add(shown);
            let distance: u16 = if center >= available { center - available } else { available - center };
            assert(distance as int == centering_distance(ws, start as int, f, a));
            if distance <= best_distance {
                best_distance = distance;
                best = start;
                proof {
                    found = true;
                }
            }
        }
        start = start + 1;
    }
    proof {
        assert(span(ws, 1, f, f) == 0);
        assert(centering_candidate(ws, f, f, a));
        assert(found);
        assert forall|s: int| #[trigger] centering_candidate(ws, s, f, a) implies {
            &&& centering_distance(ws, best as int, f, a) <= centering_distance(ws, s, f, a)
            &&& (centering_distance(ws, s, f, a) == centering_distance(ws, best as int, f, a) ==> s <= best)
        } by {
            assert(0 <= s < start);
        }
    }
    best
}

/// Scrolled to its largest scroll, a run shows its last item: the last item
/// that begins inside the visible area is the run's last; and when the last
/// item fits the area at all, every item from that scroll on shows whole.
pub proof fn law_max_scroll_shows_last(ws: Seq<u16>, gap: int, available: int, r: int, last: int)
    requires
        0 <= gap <= 1,
        ws.len() > 0,
        available > 0,
        ws[ws.len() - 1] > 0,
        is_full_max_scroll(ws, gap, available, r),
        is_last_visible(ws, gap, r, available, last),
    ensures
        last == ws.len() - 1,
        ws[ws.len() - 1] <= available ==> span(ws, gap, r, ws.len() as int) - gap <= available,
{
    let n = ws.len() as int;
    if last < n - 1 {
        lemma_span_grows(ws, gap, r, last + 1, n - 1);
        if ws[n - 1] <= available {
            assert(span(ws, gap, r, n) == span(ws, gap, r, n - 1) + ws[n - 1] + gap);
        }
    }
}

/// A run overflows exactly when its largest scroll is past the start.
pub proof fn law_overflow_iff_scrollable(ws: Seq<u16>, gap: int, available: int, r: int)
    requires
        0 <= gap <= 1,
        available >= 0,
        is_full_max_scroll(ws, gap, available, r),
    ensures
        (r > 0) <==> run_overflows(ws, gap, available),
{
    let n = ws.len() as int;
    if n > 0 && available > 0 && r > 0 {
        if ws[n - 1] <= available {
            assert(span(ws, gap, 0, n) - gap > available);
        } else {
            assert(span(ws, gap, 0, n - 1) >= available);
        }
    }
}

/// Revealing a group that fits the strip shows it whole: from the scroll
/// the strip settles on, the groups through the focused one fit.
pub proof fn law_reveal_shows_focused(heights: Seq<u16>, current: int, focused: int, available: int, r: int)
    requires
        0 <= focused < heights.len(),
        available > 0,
        heights[focused] <= available,
        is_reveal_scroll(heights, current, focused, available, r),
    ensures
        strip_reveals(heights, r, focused, available),
{
    if r == focused {
        assert(span(heights, 0, focused, focused + 1) == heights[focused]) by {
            assert(span(heights, 0, focused, focused) == 0);
        }
    }
}

/// Revealing a group that is already shown whole does not move the strip.
pub proof fn law_reveal_keeps_view(heights: Seq<u16>, current: int, focused: int, available: int, r: int)
    requires
        current <= focused,
        strip_reveals(heights, current, focused, available),
        is_reveal_scroll(heights, current, focused, available, r),
    ensures
        r == current,
{
}

/// The best-centred scroll shows the focused tab: the tab begins inside the
/// visible width.
pub proof fn law_centered_scroll_shows_focused(ws: Seq<u16>, focused: int, available: int, r: int)
    requires
        0 < available <= u16::MAX,
        is_centered_scroll(ws, focused, available, r),
    ensures
        0 <= r <= focused,
        span(ws, 1, r, focused) < available,
{
}

/// The tab bar keeps a revealed tab in view: the best-centred scroll, clamped
/// to the bar's largest scroll, still shows the focused tab beginning inside
/// the visible width.
pub proof fn law_bar_reveal_keeps_focused_visible(ws: Seq<u16>, focused: int, available: int, c: int, m: int)
    requires
        0 <= focused < ws.len(),
        0 < available <= u16::MAX,
        forall|k: int| 0 <= k < ws.len() ==> #[trigger] ws[k] > 0,
        is_centered_scroll(ws, focused, available, c),
        is_full_max_scroll(ws, 1, available, m),
    ensures
        ({
            let t = if c < m { c } else { m };
            &&& 0 <= t <= focused
            &&& span(ws, 1, t, focused) < available
        }),
{
    let n = ws.len() as int;
    law_centered_scroll_shows_focused(ws, focused, available, c);
    if m < c {
        lemma_span_grows(ws, 1, m, focused, n - 1);
        if ws[n - 1] <= available {
            assert(span(ws, 1, m, n) == span(ws, 1, m, n - 1) + ws[n - 1] + 1);
            assert(ws[n - 1] > 0);
        }
    }
}

/// The tab strip keeps a revealed group in view: when the focused group fits
/// the strip, the revealing scroll, clamped to the strip's largest scroll,
/// still shows it whole.
pub proof fn law_strip_reveal_keeps_focused_visible(heights: Seq<u16>, current: int, focused: int, available: int,
    r: int, m: int)
    requires
        0 <= current,
        0 <= focused < heights.len(),
        available > 0,
        heights[focused] <= available,
        is_reveal_scroll(heights, current, focused, available, r),
        is_full_max_scroll(heights, 0, available, m),
    ensures
        ({
            let t = if r < m { r } else { m };
            &&& 0 <= t <= focused
            &&& span(heights, 0, t, focused + 1) <= available
        }),
{
    let n = heights.len() as int;
    law_reveal_shows_focused(heights, current, focused, available, r);
    if m < r {
        if heights[n - 1] <= available {
            lemma_span_grows(heights, 0, m, focused + 1, n);
        } else {
            lemma_span_grows(heights, 0, m, focused + 1, n - 1);
        }
    }
}

} // verus!

//! Where the drop marker goes while a tab is dragged: before the tab at the
//! insertion index, or at an end of the visible tabs.
use vstd::prelude::*;
use crate::model::{ClientShellSnapshot, Rect, ShellHitMap, sub0};
use crate::strip::hit_views;

verus! {

/// Position, at or after `k` within `tabs`, of the first tab whose id is `id`.
pub open spec fn tab_position_from(snap: ClientShellSnapshot, tabs: Seq<usize>, id: Seq<char>, k: int) -> Option<int>
    decreases tabs.len() - k,
{
    if k < 0 || k >= tabs.len() {
        None
    } else if snap.tabs@[tabs[k] as int].tab_id@ == id {
        Some(k)
    } else {
        tab_position_from(snap, tabs, id, k + 1)
    }
}

/// Position, within `tabs`, of the first tab whose id is `id`.
pub open spec fn tab_position(snap: ClientShellSnapshot, tabs: Seq<usize>, id: Seq<char>) -> Option<int> {
    tab_position_from(snap, tabs, id, 0)
}

/// The hit regions (among the first `n`) of tabs in `tabs`, with each tab's
/// position in `tabs`, in hit order.
pub open spec fn visible_tabs(snap: ClientShellSnapshot, tabs: Seq<usize>, hits: Seq<(Rect, Seq<char>)>, n: int) -> Seq<(int, Rect)>
    decreases n,
{
    if n <= 0 {
        Seq::empty()
    } else {
        let prev = visible_tabs(snap, tabs, hits, n - 1);
        match tab_position(snap, tabs, hits[n - 1].1) {
            Some(k) => prev.push((k, hits[n - 1].0)),
            None => prev,
        }
    }
}

/// The first visible tab, at or after `j`, at position `index`.
pub open spec fn visible_at_from(visible: Seq<(int, Rect)>, index: int, j: int) -> Option<Rect>
    decreases visible.len() - j,
{
    if j < 0 || j >= visible.len() {
        None
    } else if visible[j].0 == index {
        Some(visible[j].1)
    } else {
        visible_at_from(visible, index, j + 1)
    }
}

/// The first visible tab at position `index`, if any.
pub open spec fn visible_at(visible: Seq<(int, Rect)>, index: int) -> Option<Rect> {
    visible_at_from(visible, index, 0)
}

/// The row of the drop marker in the vertical strip.
pub open spec fn drop_row(visible: Seq<(int, Rect)>, count: int, insert: int, up: Rect, down: Rect) -> Option<u16> {
    if visible.len() == 0 {
        None
    } else if insert == 0 {
        Some(if visible[0].0 == 0 { visible[0].1.y } else { up.y })
    } else if visible_at(visible, insert) is Some {
        Some(sub0(visible_at(visible, insert)->0.y as int, 1) as u16)
    } else if insert >= count {
        Some(if visible.last().0 + 1 >= count { visible.last().1.bottom_edge() as u16 } else { sub0(down.y as int, 1) as u16 })
    } else {
        None
    }
}

/// The column of the drop marker in the horizontal tab bar.
pub open spec fn drop_column(visible: Seq<(int, Rect)>, count: int, insert: int, left: Rect, right: Rect) -> Option<u16> {
    if visible.len() == 0 {
        None
    } else if insert == 0 {
        Some(if visible[0].0 == 0 { visible[0].1.x } else { left.right_edge() as u16 })
    } else if visible_at(visible, insert) is Some {
        Some(sub0(visible_at(visible, insert)->0.x as int, 1) as u16)
    } else if insert >= count {
        Some(if visible.last().0 + 1 >= count { visible.last().1.right_edge() as u16 } else { sub0(right.x as int, 1) as u16 })
    } else {
        None
    }
}

/// Position, within `tabs`, of the first tab whose id is `id`.
fn position_of(snapshot: &ClientShellSnapshot, tabs: &[usize], id: &String) -> (r: Option<usize>)
    requires
        forall|k: int| 0 <= k < tabs@.len() ==> #[trigger] tabs@[k] < snapshot.tabs.len(),
    ensures
        match r {
            Some(k) => k < tabs.len() && tab_position(*snapshot, tabs@, id@) == Some(k as int),
            None => tab_position(*snapshot, tabs@, id@) is None,
        },
{
    let mut k: usize = 0;
    while k < tabs.len()
        invariant
            k <= tabs.len(),
            forall|j: int| 0 <= j < tabs@.len() ==> #[trigger] tabs@[j] < snapshot.tabs.len(),
            tab_position(*snapshot, tabs@, id@) == tab_position_from(*snapshot, tabs@, id@, k as int),
        decreases tabs.len() - k,
    {
        if snapshot.tabs[tabs[k]].tab_id == *id {
            return Some(k);
        }
        k = k + 1;
    }
    None
}

/// The visible tabs: hit regions of tabs in `tabs`, with their positions.
fn collect_visible(hits: &ShellHitMap, snapshot: &ClientShellSnapshot, tabs: &[usize]) -> (r: Vec<(usize, Rect)>)
    requires
        forall|k: int| 0 <= k < tabs@.len() ==> #[trigger] tabs@[k] < snapshot.tabs.len(),
    ensures
        r@.len() == visible_tabs(*snapshot, tabs@, hit_views(hits.tabs@), hits.tabs@.len() as int).len(),
        forall|j: int| 0 <= j < r@.len() ==> (#[trigger] r@[j]).0 as int
            == visible_tabs(*snapshot, tabs@, hit_views(hits.tabs@), hits.tabs@.len() as int)[j].0
            && r@[j].1 == visible_tabs(*snapshot, tabs@, hit_views(hits.tabs@), hits.tabs@.len() as int)[j].1,
        forall|j: int| 0 <= j < r@.len() ==> (#[trigger] r@[j]).0 < tabs.len(),
{
    let ghost hv = hit_views(hits.tabs@);
    let mut out: Vec<(usize, Rect)> = Vec::new();
    let mut i: usize = 0;
    while i < hits.tabs.len()
        invariant
            hv == hit_views(hits.tabs@),
            i <= hits.tabs.len(),
            forall|k: int| 0 <= k < tabs@.len() ==> #[trigger] tabs@[k] < snapshot.tabs.len(),
            out@.len() == visible_tabs(*snapshot, tabs@, hv, i as int).len(),
            forall|j: int| 0 <= j < out@.len() ==> (#[trigger] out@[j]).0 as int
                == visible_tabs(*snapshot, tabs@, hv, i as int)[j].0
                && out@[j].1 == visible_tabs(*snapshot, tabs@, hv, i as int)[j].1,
            forall|j: int| 0 <= j < out@.len() ==> (#[trigger] out@[j]).0 < tabs.len(),
        decreases hits.tabs.len() - i,
    {
        let (area, id) = &hits.tabs[i];
        assert(hv[i as int] == (*area, id@));
        match position_of(snapshot, tabs, id) {
            Some(k) => {
                out.push((k, *area));
            },
            None => {},
        }
        i = i + 1;
    }
    out
}

/// The first visible tab at position `index`.
fn find_visible(visible: &Vec<(usize, Rect)>, index: usize) -> (r: Option<Rect>)
    ensures
        r == visible_at(Seq::new(visible@.len(), |j: int| (visible@[j].0 as int, visible@[j].1)), index as int),
{
    let ghost vs = Seq::new(visible@.len(), |j: int| (visible@[j].0 as int, visible@[j].1));
    let mut j: usize = 0;
    while j < visible.len()
        invariant
            j <= visible.len(),
            vs == Seq::new(visible@.len(), |j: int| (visible@[j].0 as int, visible@[j].1)),
            visible_at(vs, index as int) == visible_at_from(vs, index as int, j as int),
        decreases visible.len() - j,
    {
        if visible[j].0 == index {
            return Some(visible[j].1);
        }
        j = j + 1;
    }
    None
}

/// Row of the drop marker for a tab dragged in the vertical strip.
pub fn tab_drop_indicator_y(hits: &ShellHitMap, snapshot: &ClientShellSnapshot, tabs: &[usize], insert_index: usize) -> (r: Option<u16>)
    requires
        forall|k: int| 0 <= k < tabs@.len() ==> #[trigger] tabs@[k] < snapshot.tabs.len(),
    ensures
        r == drop_row(visible_tabs(*snapshot, tabs@, hit_views(hits.tabs@), hits.tabs@.len() as int), tabs@.len() as int,
            insert_index as int, hits.tab_scroll_left, hits.tab_scroll_right),
{
    let visible = collect_visible(hits, snapshot, tabs);
    let ghost vs = visible_tabs(*snapshot, tabs@, hit_views(hits.tabs@), hits.tabs@.len() as int);
    assert(Seq::new(visible@.len(), |j: int| (visible@[j].0 as int, visible@[j].1)) =~= vs);
    if visible.len() == 0 {
        return None;
    }
    let (first_index, first_rect) = visible[0];
    let (last_index, last_rect) = visible[visible.len() - 1];
    if insert_index == 0 {
        return Some(if first_index == 0 { first_rect.y } else { hits.tab_scroll_left.y });
    }
    if let Some(found) = find_visible(&visible, insert_index) {
        return Some(found.y.saturating_sub(1));
    }
    if insert_index >= tabs.len() {
        return Some(if last_index + 1 >= tabs.len() { last_rect.bottom() } else { hits.tab_scroll_right.y.saturating_sub(1) });
    }
    None
}

/// Column of the drop marker for a tab dragged in the horizontal tab bar.
pub fn tab_drop_indicator_x(hits: &ShellHitMap, snapshot: &ClientShellSnapshot, tabs: &[usize], insert_index: usize) -> (r: Option<u16>)
    requires
        forall|k: int| 0 <= k < tabs@.len() ==> #[trigger] tabs@[k] < snapshot.tabs.len(),
    ensures
        r == drop_column(visible_tabs(*snapshot, tabs@, hit_views(hits.tabs@), hits.tabs@.len() as int), tabs@.len() as int,
            insert_index as int, hits.tab_scroll_left, hits.tab_scroll_right),
{
    let visible = collect_visible(hits, snapshot, tabs);
    let ghost vs = visible_tabs(*snapshot, tabs@, hit_views(hits.tabs@), hits.tabs@.len() as int);
    assert(Seq::new(visible@.len(), |j: int| (visible@[j].0 as int, visible@[j].1)) =~= vs);
    if visible.len() == 0 {
        return None;
    }
    let (first_index, first_rect) = visible[0];
    let (last_index, last_rect) = visible[visible.len() - 1];
    if insert_index == 0 {
        return Some(if first_index == 0 { first_rect.x } else { hits.tab_scroll_left.right() });
    }
    if let Some(found) = find_visible(&visible, insert_index) {
        return Some(found.x.saturating_sub(1));
    }
    if insert_index >= tabs.len() {
        return Some(if last_index + 1 >= tabs.len() { last_rect.right() } else { hits.tab_scroll_right.x.saturating_sub(1) });
    }
    None
}

} // verus!

//! The vertical tab strip: one rounded box per workspace, listing its tabs
//! and their panes.
use vstd::prelude::*;
use crate::draw::{Buffer, Draw};
use crate::model::{ShellHitMap, ShellRenderState};
use crate::scroll::{is_last_visible, is_reveal_scroll, last_visible_contract, lemma_last_visible_bound,
    lemma_last_visible_unique, lemma_full_max_scroll_unique, lemma_reveal_scroll_unique, lemma_span_grows, lemma_span_nonneg,
    full_max_scroll, max_tab_strip_scroll, overflow_tab_strip, run_overflows, reveal_scroll, span, strip_scroll_revealing};
use crate::model::{AgentStatus, ClientShellAgent, ClientShellConfig, ClientShellPane, ClientShellSnapshot, ClientShellTab,
    Palette, Rect, Style, bg_style, dim_style, fg_style, icon_of, min_int, priority_of, rect, status_icon, status_priority,
    sub0};
use crate::rows::{Badge, BadgeView, badge_fits_check, badge_fits_u16, badge_row_draws, box_draws, box_inner, draw_strip_box,
    has_box, strip_box_inner,
    opt_badge, render_strip_line_with_badge, render_strip_title_row, strip_text_rect, text_rect, title_row_draws};
use crate::text::{agent_name_text, cwd_leaf, detail_segments, detail_segs, opt_chars, option_chars, strip_agent_name,
    strip_cwd_leaf, tab_label, tab_label_text, texts};
use crate::width::{display_columns, display_width, string_chars};

verus! {

/// A tab as the strip lists it: indices of the tab and its workspace in the
/// snapshot, and the indices of the panes it shows.
#[derive(Debug)]
pub struct TabStripEntry {
    pub tab: usize,
    pub workspace: usize,
    pub panes: Vec<usize>,
}

/// One workspace's box in the strip.
#[derive(Debug)]
pub struct TabStripGroup {
    pub workspace: usize,
    pub tabs: Vec<TabStripEntry>,
}

/// The indices an entry holds point into the snapshot.
pub open spec fn entry_wf(snap: ClientShellSnapshot, entry: TabStripEntry) -> bool {
    &&& entry.tab < snap.tabs.len()
    &&& entry.workspace < snap.workspaces.len()
    &&& forall|k: int| 0 <= k < entry.panes@.len() ==> #[trigger] entry.panes@[k] < snap.panes.len()
}

/// Rows an entry takes: its title, its details row (unless compact), and one
/// row per pane beyond the first.
pub open spec fn entry_line_count(entry: TabStripEntry, compact: bool) -> int {
    let extra = if entry.panes@.len() > 0 { entry.panes@.len() - 1 } else { 0 };
    1 + (if compact { 0int } else { 1int }) + (if extra > u16::MAX - 3 { u16::MAX - 3 } else { extra })
}

/// How an agent ranks for a pane's badge: by status priority, then by the
/// most recent state change.
pub open spec fn agent_rank(a: ClientShellAgent) -> int {
    priority_of(a.agent_status) as int * 0x1_0000_0000_0000_0000 + a.state_change_seq as int
}

/// `i` is the agent a pane shows: among the agents in that pane it ranks
/// highest, and is the last of equals.
pub open spec fn is_pane_agent(agents: Seq<ClientShellAgent>, pane_id: Seq<char>, i: int) -> bool {
    &&& 0 <= i < agents.len()
    &&& agents[i].pane_id@ == pane_id
    &&& forall|j: int|
        0 <= j < agents.len() && #[trigger] agents[j].pane_id@ == pane_id ==> {
            &&& agent_rank(agents[j]) <= agent_rank(agents[i])
            &&& (agent_rank(agents[j]) == agent_rank(agents[i]) ==> j <= i)
        }
}

/// The agent a pane shows, if any agent runs in it.
pub open spec fn pane_agent_of(agents: Seq<ClientShellAgent>, pane_id: Seq<char>) -> Option<int> {
    if exists|i: int| is_pane_agent(agents, pane_id, i) {
        Some(choose|i: int| is_pane_agent(agents, pane_id, i))
    } else {
        None
    }
}

/// Only one agent qualifies.
pub proof fn lemma_pane_agent_unique(agents: Seq<ClientShellAgent>, pane_id: Seq<char>, i1: int, i2: int)
    requires
        is_pane_agent(agents, pane_id, i1),
        is_pane_agent(agents, pane_id, i2),
    ensures
        i1 == i2,
{
    assert(agents[i1].pane_id@ == pane_id);
    assert(agents[i2].pane_id@ == pane_id);
}

/// How a pane ranks for the tab title: a pane hosting an agent ranks by that
/// agent, above every pane without one; among those, the focused pane ranks
/// above the others.
pub open spec fn pane_rank(snap: ClientShellSnapshot, p: int) -> int {
    match pane_agent_of(snap.agents@, snap.panes@[p].pane_id@) {
        Some(i) => 2 * 0x1_0000_0000_0000_0000_00 + agent_rank(snap.agents@[i]),
        None => if snap.panes@[p].focused { 0x1_0000_0000_0000_0000_00 } else { 0 },
    }
}

/// `k` is the position of the entry's primary pane: it ranks highest, and is
/// the first of equals.
pub open spec fn is_primary(snap: ClientShellSnapshot, panes: Seq<usize>, k: int) -> bool {
    &&& 0 <= k < panes.len()
    &&& forall|m: int|
        0 <= m < panes.len() ==> {
            &&& #[trigger] pane_rank(snap, panes[m] as int) <= pane_rank(snap, panes[k] as int)
            &&& (pane_rank(snap, panes[m] as int) == pane_rank(snap, panes[k] as int) ==> k <= m)
        }
}

/// The snapshot index of the entry's primary pane, if it has panes.
pub open spec fn primary_of(snap: ClientShellSnapshot, entry: TabStripEntry) -> Option<int> {
    if exists|k: int| is_primary(snap, entry.panes@, k) {
        let k = choose|k: int| is_primary(snap, entry.panes@, k);
        Some(entry.panes@[k] as int)
    } else {
        None
    }
}

/// The rank a (class, status priority, state change) triple stands for.
pub open spec fn pane_rank_of(r: (u8, u8, u64)) -> int {
    r.0 as int * 0x1_0000_0000_0000_0000_00 + r.1 as int * 0x1_0000_0000_0000_0000 + r.2 as int
}

impl TabStripEntry {
    /// Rows the entry takes in its group.
    pub fn line_count(&self, compact: bool) -> (r: u16)
        ensures
            r as int == entry_line_count(*self, compact),
    {
        let extra = self.panes.len().saturating_sub(1);
        let pane_lines: u16 = if extra > (u16::MAX - 3) as usize { u16::MAX - 3 } else { extra as u16 };
        1 + (if compact { 0 } else { 1 }) + pane_lines
    }

    /// The agent a pane shows: its highest-priority agent, the most recent
    /// state change breaking ties (the last of equals wins).
    pub fn pane_agent(&self, snapshot: &ClientShellSnapshot, pane: &ClientShellPane) -> (r: Option<usize>)
        ensures
            match r {
                Some(i) => i < snapshot.agents.len() && pane_agent_of(snapshot.agents@, pane.pane_id@) == Some(i as int),
                None => pane_agent_of(snapshot.agents@, pane.pane_id@) is None,
            },
            r is None <==> forall|j: int| 0 <= j < snapshot.agents@.len()
                ==> #[trigger] snapshot.agents@[j].pane_id@ != pane.pane_id@,
    {
        let ghost agents = snapshot.agents@;
        let ghost pid = pane.pane_id@;
        let mut best: Option<usize> = None;
        let mut i: usize = 0;
        while i < snapshot.agents.len()
            invariant
                agents == snapshot.agents@,
                pid == pane.pane_id@,
                i <= agents.len(),
                match best {
                    None => forall|j: int| 0 <= j < i ==> !(#[trigger] agents[j].pane_id@ == pid),
                    Some(b) => b < i && agents[b as int].pane_id@ == pid && forall|j: int|
                        0 <= j < i && #[trigger] agents[j].pane_id@ == pid ==> {
                            &&& agent_rank(agents[j]) <= agent_rank(agents[b as int])
                            &&& (agent_rank(agents[j]) == agent_rank(agents[b as int]) ==> j <= b)
                        },
                },
            decreases agents.len() - i,
        {
            let agent = &snapshot.agents[i];
            if agent.pane_id == pane.pane_id {
                let better = match best {
                    None => true,
                    Some(b) => {
                        let current = &snapshot.agents[b];
                        let p = status_priority(agent.agent_status);
                        let q = status_priority(current.agent_status);
                        p > q || (p == q && agent.state_change_seq >= current.state_change_seq)
                    },
                };
                if better {
                    best = Some(i);
                }
            }
            i = i + 1;
        }
        proof {
            match best {
                Some(b) => {
                    assert(is_pane_agent(agents, pid, b as int));
                    let c = choose|c: int| is_pane_agent(agents, pid, c);
                    lemma_pane_agent_unique(agents, pid, c, b as int);
                },
                None => {},
            }
        }
        best
    }

    /// The pane whose info populates the tab line: the one hosting the
    /// highest-priority agent, else the focused pane, else the first pane
    /// (pane order decides ties).
    pub fn primary_pane(&self, snapshot: &ClientShellSnapshot) -> (r: Option<usize>)
        requires
            entry_wf(*snapshot, *self),
        ensures
            match r {
                Some(p) => p < snapshot.panes.len() && primary_of(*snapshot, *self) == Some(p as int),
                None => primary_of(*snapshot, *self) is None,
            },
            r is None <==> self.panes@.len() == 0,
    {
        let ghost panes = self.panes@;
        let ghost snap = *snapshot;
        let mut best: usize = 0;
        let mut best_rank: (u8, u8, u64) = (0, 0, 0);
        let mut k: usize = 0;
        while k < self.panes.len()
            invariant
                panes == self.panes@,
                snap == *snapshot,
                entry_wf(snap, *self),
                k <= panes.len(),
                k > 0 ==> best < k,
                k > 0 ==> pane_rank_of(best_rank) == pane_rank(snap, panes[best as int] as int),
                best_rank.1 <= 4,
                k > 0 ==> forall|m: int|
                    0 <= m < k ==> {
                        &&& #[trigger] pane_rank(snap, panes[m] as int) <= pane_rank(snap, panes[best as int] as int)
                        &&& (pane_rank(snap, panes[m] as int) == pane_rank(snap, panes[best as int] as int)
                            ==> best <= m)
                    },
            decreases panes.len() - k,
        {
            let pane = &snapshot.panes[self.panes[k]];
            let rank: (u8, u8, u64) = match self.pane_agent(snapshot, pane) {
                Some(i) => (2, status_priority(snapshot.agents[i].agent_status), snapshot.agents[i].state_change_seq),
                None => (if pane.focused { 1 } else { 0 }, 0, 0),
            };
            assert(pane_rank_of(rank) == pane_rank(snap, panes[k as int] as int));
            if k == 0 || rank.0 > best_rank.0 || (rank.0 == best_rank.0 && (rank.1 > best_rank.1
                || (rank.1 == best_rank.1 && rank.2 > best_rank.2))) {
                best = k;
                best_rank = rank;
            }
            k = k + 1;
        }
        if self.panes.len() == 0 {
            return None;
        }
        proof {
            assert(is_primary(snap, panes, best as int));
            let c = choose|c: int| is_primary(snap, panes, c);
            if c < best {
                assert(pane_rank(snap, panes[c] as int) == pane_rank(snap, panes[best as int] as int));
            } else if best < c {
                assert(pane_rank(snap, panes[c] as int) == pane_rank(snap, panes[best as int] as int));
            }
        }
        assert(self.panes@[best as int] < snap.panes.len());
        Some(self.panes[best])
    }
}

/// Height of a group: its entries' rows plus the two box borders.
pub open spec fn group_height(tabs: Seq<TabStripEntry>, compact: bool) -> int
    decreases tabs.len(),
{
    if tabs.len() == 0 {
        2
    } else {
        group_height(tabs.drop_last(), compact) + entry_line_count(tabs.last(), compact)
    }
}

impl TabStripGroup {
    /// One rounded box wraps the whole group: content rows + two borders.
    pub fn height(&self, compact: bool) -> (r: u16)
        requires
            group_height(self.tabs@, compact) <= u16::MAX + 2,
        ensures
            r as int == if group_height(self.tabs@, compact) > u16::MAX {
                u16::MAX as int
            } else {
                group_height(self.tabs@, compact)
            },
    {
        let mut sum: u16 = 0;
        let mut i: usize = 0;
        while i < self.tabs.len()
            invariant
                i <= self.tabs.len(),
                group_height(self.tabs@, compact) <= u16::MAX + 2,
                sum as int + 2 == group_height(self.tabs@.subrange(0, i as int), compact),
            decreases self.tabs.len() - i,
        {
            proof {
                let pre = self.tabs@.subrange(0, i + 1);
                assert(pre.drop_last() =~= self.tabs@.subrange(0, i as int));
                lemma_group_height_prefix(self.tabs@, i + 1, compact);
            }
            sum = sum + self.tabs[i].line_count(compact);
            i = i + 1;
        }
        assert(self.tabs@.subrange(0, i as int) =~= self.tabs@);
        sum.saturating_add(2)
    }
}

/// A prefix of the entries never needs more rows than all of them.
pub proof fn lemma_group_height_prefix(tabs: Seq<TabStripEntry>, n: int, compact: bool)
    requires
        0 <= n <= tabs.len(),
    ensures
        group_height(tabs.subrange(0, n), compact) <= group_height(tabs, compact),
    decreases tabs.len() - n,
{
    if n < tabs.len() {
        lemma_group_height_prefix(tabs, n + 1, compact);
        assert(tabs.subrange(0, n + 1).drop_last() =~= tabs.subrange(0, n));
    } else {
        assert(tabs.subrange(0, n) =~= tabs);
    }
}


/// What a row of a group shows.
#[derive(Clone, Copy, Debug, PartialEq, Eq, Structural)]
pub enum LineKind {
    /// The tab's title row.
    Title,
    /// The tab's details row: the primary pane's cwd leaf, branch and badge.
    Details,
    /// An extra pane of the tab (its snapshot index).
    Pane(usize),
}

/// A row of a group: which entry it belongs to and what it shows.
#[derive(Clone, Copy, Debug, PartialEq, Eq, Structural)]
pub struct StripLine {
    pub entry: usize,
    pub kind: LineKind,
}

/// Whether pane `p` is shown by the details row already: it has the primary
/// pane's id.
pub open spec fn is_primary_id(snap: ClientShellSnapshot, primary: Option<int>, p: int) -> bool {
    match primary {
        Some(q) => snap.panes@[q].pane_id@ == snap.panes@[p].pane_id@,
        None => false,
    }
}

/// Rows for the first `n` panes of an entry, skipping the primary pane.
pub open spec fn pane_rows(snap: ClientShellSnapshot, entry: TabStripEntry, e: int, primary: Option<int>, n: int) -> Seq<StripLine>
    decreases n,
{
    if n <= 0 {
        Seq::empty()
    } else {
        let prev = pane_rows(snap, entry, e, primary, n - 1);
        let p = entry.panes@[n - 1];
        if is_primary_id(snap, primary, p as int) {
            prev
        } else {
            prev.push(StripLine { entry: e as usize, kind: LineKind::Pane(p) })
        }
    }
}

/// The rows of one entry: title, details (unless compact), extra panes.
pub open spec fn entry_rows(snap: ClientShellSnapshot, entry: TabStripEntry, e: int, compact: bool) -> Seq<StripLine> {
    let head = seq![StripLine { entry: e as usize, kind: LineKind::Title }];
    let head = if compact { head } else { head.push(StripLine { entry: e as usize, kind: LineKind::Details }) };
    head + pane_rows(snap, entry, e, primary_of(snap, entry), entry.panes@.len() as int)
}

/// The rows of the first `n` entries of a group, in order.
pub open spec fn group_rows(snap: ClientShellSnapshot, tabs: Seq<TabStripEntry>, n: int, compact: bool) -> Seq<StripLine>
    decreases n,
{
    if n <= 0 {
        Seq::empty()
    } else {
        group_rows(snap, tabs, n - 1, compact) + entry_rows(snap, tabs[n - 1], n - 1, compact)
    }
}

/// Every entry of a group points into the snapshot.
pub open spec fn group_wf(snap: ClientShellSnapshot, group: TabStripGroup) -> bool {
    &&& group.workspace < snap.workspaces.len()
    &&& group.tabs@.len() <= usize::MAX
    &&& forall|e: int| 0 <= e < group.tabs@.len() ==> #[trigger] entry_wf(snap, group.tabs@[e])
}

impl TabStripGroup {
    /// The rows of the group, in the order they are drawn.
    pub fn rows(&self, snapshot: &ClientShellSnapshot, compact: bool) -> (r: Vec<StripLine>)
        requires
            group_wf(*snapshot, *self),
        ensures
            r@ == group_rows(*snapshot, self.tabs@, self.tabs@.len() as int, compact),
    {
        let ghost snap = *snapshot;
        let mut out: Vec<StripLine> = Vec::new();
        let mut e: usize = 0;
        while e < self.tabs.len()
            invariant
                snap == *snapshot,
                group_wf(snap, *self),
                e <= self.tabs.len(),
                out@ == group_rows(snap, self.tabs@, e as int, compact),
            decreases self.tabs.len() - e,
        {
            let entry = &self.tabs[e];
            assert(entry_wf(snap, *entry));
            let ghost before = out@;
            out.push(StripLine { entry: e, kind: LineKind::Title });
            if !compact {
                out.push(StripLine { entry: e, kind: LineKind::Details });
            }
            let ghost with_head = out@;
            let primary = entry.primary_pane(snapshot);
            let ghost prim: Option<int> = match primary { Some(q) => Some(q as int), None => None };
            assert(prim == primary_of(snap, *entry));
            let mut k: usize = 0;
            while k < entry.panes.len()
                invariant
                    snap == *snapshot,
                    entry_wf(snap, *entry),
                    prim == primary_of(snap, *entry),
                    match primary { Some(q) => q < snap.panes.len() && prim == Some(q as int), None => prim is None },
                    k <= entry.panes.len(),
                    out@ == with_head + pane_rows(snap, *entry, e as int, prim, k as int),
                decreases entry.panes.len() - k,
            {
                let p = entry.panes[k];
                assert(entry.panes@[k as int] < snap.panes.len());
                let skip = match primary {
                    Some(q) => snapshot.panes[q].pane_id == snapshot.panes[p].pane_id,
                    None => false,
                };
                if !skip {
                    out.push(StripLine { entry: e, kind: LineKind::Pane(p) });
                }
                k = k + 1;
            }
            proof {
                assert(out@ =~= group_rows(snap, self.tabs@, e + 1, compact));
            }
            e = e + 1;
        }
        out
    }
}

/// The badge a pane shows: its agent's name and status.
pub open spec fn pane_badge(snap: ClientShellSnapshot, p: int) -> Option<BadgeView> {
    match pane_agent_of(snap.agents@, snap.panes@[p].pane_id@) {
        Some(i) => Some(BadgeView { name: agent_name_text(snap.agents@[i]), status: snap.agents@[i].agent_status }),
        None => None,
    }
}

/// The badge of an entry's primary pane.
pub open spec fn primary_badge(snap: ClientShellSnapshot, entry: TabStripEntry) -> Option<BadgeView> {
    match primary_of(snap, entry) {
        Some(p) => pane_badge(snap, p),
        None => None,
    }
}

/// Title style: bold when active, brighter for custom labels, dim otherwise.
pub open spec fn strip_title_style(tab: ClientShellTab, palette: Palette) -> Style {
    if tab.focused {
        Style { fg: Some(palette.text), bg: None, bold: true, dim: false }
    } else if tab.custom_label {
        fg_style(palette.overlay1)
    } else {
        dim_style(palette.overlay0)
    }
}

/// Segments of an extra pane's row: its label (or cwd leaf, or "pane"), then
/// the workspace branch.
pub open spec fn pane_segs(pane: ClientShellPane, branch: Option<Seq<char>>) -> Seq<Seq<char>> {
    let first = match opt_chars(pane.label) {
        Some(l) if l.len() > 0 => l,
        _ => match cwd_leaf(pane) {
            Some(leaf) => leaf,
            None => seq!['p', 'a', 'n', 'e'],
        },
    };
    match branch {
        Some(b) => seq![first, b],
        None => seq![first],
    }
}

/// Rows of the title region that are clickable for the tab.
pub open spec fn tab_hit_rows(inner: Rect, y: u16, compact: bool) -> int {
    min_int(1 + (if compact { 0int } else { 1int }), sub0(inner.bottom_edge(), y as int))
}

/// The active tab's highlight: under its title region, under the box borders
/// beside its block, and on the top/bottom border rows its block touches.
pub open spec fn highlight_draws(outer: Rect, inner: Rect, y: u16, compact: bool, lines: int, palette: Palette) -> Seq<Draw> {
    let hl = bg_style(palette.surface0);
    let block = min_int(lines, sub0(inner.bottom_edge(), y as int)) as u16;
    let base = seq![
        Draw::Fill(rect(inner.x, y, inner.width, tab_hit_rows(inner, y, compact) as u16), hl),
        Draw::Fill(rect(outer.x, y, 1, block), hl),
        Draw::Fill(rect(sub0(outer.right_edge(), 1) as u16, y, 1, block), hl),
    ];
    let base = if y == inner.y { base.push(Draw::Fill(rect(outer.x, outer.y, outer.width, 1), hl)) } else { base };
    if y + lines >= inner.bottom_edge() {
        base.push(Draw::Fill(rect(outer.x, sub0(outer.bottom_edge(), 1) as u16, outer.width, 1), hl))
    } else {
        base
    }
}

/// What a title row draws: the active tab's highlight, then the title with
/// the workspace label (or, compact, with the primary pane's badge).
pub open spec fn title_draws(
    snap: ClientShellSnapshot,
    config: ClientShellConfig,
    outer: Rect,
    inner: Rect,
    entry: TabStripEntry,
    y: u16,
) -> Seq<Draw> {
    let compact = config.vertical_tabs_compact;
    let palette = config.palette;
    let tab = snap.tabs@[entry.tab as int];
    let ws = snap.workspaces@[entry.workspace as int];
    let row = rect(inner.x, y, inner.width, 1);
    let hl = if tab.focused {
        highlight_draws(outer, inner, y, compact, entry_line_count(entry, compact), palette)
    } else {
        Seq::empty()
    };
    let style = strip_title_style(tab, palette);
    hl + if compact {
        badge_row_draws(text_rect(row), seq![tab_label_text(tab)], style, primary_badge(snap, entry), config)
    } else {
        title_row_draws(text_rect(row), tab_label_text(tab), style, ws.label@, palette)
    }
}

/// The style of a details row: brighter when its primary pane is the
/// focused pane, dim otherwise.
pub open spec fn details_style(snap: ClientShellSnapshot, entry: TabStripEntry, palette: Palette) -> Style {
    match primary_of(snap, entry) {
        Some(p) => if snap.panes@[p].focused { fg_style(palette.overlay1) } else { dim_style(palette.overlay0) },
        None => dim_style(palette.overlay0),
    }
}

/// What a details row draws: the cwd leaf and branch of the primary pane,
/// with its badge, in the primary pane's style.
pub open spec fn details_draws(snap: ClientShellSnapshot, config: ClientShellConfig, inner: Rect, entry: TabStripEntry, y: u16) -> Seq<Draw> {
    let palette = config.palette;
    let tab = snap.tabs@[entry.tab as int];
    let ws = snap.workspaces@[entry.workspace as int];
    let row = rect(inner.x, y, inner.width, 1);
    let fill = if tab.focused { seq![Draw::Fill(row, bg_style(palette.surface0))] } else { Seq::empty() };
    let leaf = match primary_of(snap, entry) {
        Some(p) => cwd_leaf(snap.panes@[p]),
        None => None,
    };
    fill + badge_row_draws(
        text_rect(row),
        detail_segs(leaf, opt_chars(ws.branch)),
        details_style(snap, entry, palette),
        primary_badge(snap, entry),
        config,
    )
}

/// What an extra pane's row draws: its label or cwd leaf and the branch,
/// with its own badge.
pub open spec fn pane_draws(snap: ClientShellSnapshot, config: ClientShellConfig, inner: Rect, entry: TabStripEntry, p: int, y: u16) -> Seq<Draw> {
    let palette = config.palette;
    let tab = snap.tabs@[entry.tab as int];
    let ws = snap.workspaces@[entry.workspace as int];
    let row = rect(inner.x, y, inner.width, 1);
    let fill = if tab.focused { seq![Draw::Fill(row, bg_style(palette.surface0))] } else { Seq::empty() };
    let pane = snap.panes@[p];
    let style = if pane.focused { fg_style(palette.overlay1) } else { dim_style(palette.overlay0) };
    fill + badge_row_draws(text_rect(row), pane_segs(pane, opt_chars(ws.branch)), style, pane_badge(snap, p), config)
}

/// Everything one row of a group draws at row `y`.
pub open spec fn row_draws(
    snap: ClientShellSnapshot,
    config: ClientShellConfig,
    outer: Rect,
    inner: Rect,
    group: TabStripGroup,
    line: StripLine,
    y: u16,
) -> Seq<Draw> {
    let entry = group.tabs@[line.entry as int];
    match line.kind {
        LineKind::Title => title_draws(snap, config, outer, inner, entry, y),
        LineKind::Details => details_draws(snap, config, inner, entry, y),
        LineKind::Pane(p) => pane_draws(snap, config, inner, entry, p as int, y),
    }
}

/// A tab's title row shows the tab's label, marked with " Z" exactly when
/// the tab is zoomed: beside the workspace label, or (compact) beside the
/// primary pane's badge, after the active tab's highlight.
pub proof fn law_title_row_marks_zoom(snap: ClientShellSnapshot, config: ClientShellConfig, outer: Rect, inner: Rect,
    entry: TabStripEntry, y: u16)
    ensures
        ({
            let compact = config.vertical_tabs_compact;
            let palette = config.palette;
            let tab = snap.tabs@[entry.tab as int];
            let title = if tab.zoomed { tab.label@ + seq![' ', 'Z'] } else { tab.label@ };
            let row = text_rect(rect(inner.x, y, inner.width, 1));
            let style = if tab.focused {
                Style { fg: Some(palette.text), bg: None, bold: true, dim: false }
            } else if tab.custom_label {
                fg_style(palette.overlay1)
            } else {
                dim_style(palette.overlay0)
            };
            let hl = if tab.focused {
                highlight_draws(outer, inner, y, compact, entry_line_count(entry, compact), palette)
            } else {
                Seq::empty()
            };
            title_draws(snap, config, outer, inner, entry, y) == hl + if compact {
                badge_row_draws(row, seq![title], style, primary_badge(snap, entry), config)
            } else {
                title_row_draws(row, title, style, snap.workspaces@[entry.workspace as int].label@, palette)
            }
        }),
{
}

/// An extra pane row is named by the pane's label when it has a non-empty
/// one, else by its cwd leaf, else by the word "pane"; the workspace branch
/// follows, and the row carries the pane's own badge.
pub proof fn law_pane_row_names_pane(snap: ClientShellSnapshot, config: ClientShellConfig, inner: Rect, entry: TabStripEntry,
    p: int, y: u16)
    ensures
        ({
            let pane = snap.panes@[p];
            let palette = config.palette;
            let name = match pane.label {
                Some(l) if l@.len() > 0 => l@,
                _ => match cwd_leaf(pane) {
                    Some(leaf) => leaf,
                    None => seq!['p', 'a', 'n', 'e'],
                },
            };
            let segs = match snap.workspaces@[entry.workspace as int].branch {
                Some(b) => seq![name, b@],
                None => seq![name],
            };
            let row = rect(inner.x, y, inner.width, 1);
            let fill = if snap.tabs@[entry.tab as int].focused {
                seq![Draw::Fill(row, bg_style(palette.surface0))]
            } else {
                Seq::empty()
            };
            let style = if pane.focused { fg_style(palette.overlay1) } else { dim_style(palette.overlay0) };
            let badge = match pane_agent_of(snap.agents@, snap.panes@[p].pane_id@) {
                Some(i) => Some(BadgeView { name: agent_name_text(snap.agents@[i]), status: snap.agents@[i].agent_status }),
                None => None,
            };
            pane_draws(snap, config, inner, entry, p, y)
                == fill + badge_row_draws(text_rect(row), segs, style, badge, config)
        }),
{
}

/// Every row of an entry belongs to it, and its extra pane rows skip the
/// primary pane's id.
proof fn lemma_entry_rows_skip_primary(snap: ClientShellSnapshot, entry: TabStripEntry, e: int, compact: bool)
    requires
        0 <= e <= usize::MAX,
    ensures
        forall|i: int| 0 <= i < entry_rows(snap, entry, e, compact).len() ==> {
            let line = #[trigger] entry_rows(snap, entry, e, compact)[i];
            &&& line.entry == e
            &&& (line.kind matches LineKind::Pane(q) ==> !is_primary_id(snap, primary_of(snap, entry), q as int))
        },
{
    let primary = primary_of(snap, entry);
    let n = entry.panes@.len() as int;
    lemma_pane_rows_skip(snap, entry, e, primary, n);
    let head = seq![StripLine { entry: e as usize, kind: LineKind::Title }];
    let head = if compact { head } else { head.push(StripLine { entry: e as usize, kind: LineKind::Details }) };
    let rows = entry_rows(snap, entry, e, compact);
    assert forall|i: int| 0 <= i < rows.len() implies {
        let line = #[trigger] rows[i];
        &&& line.entry == e
        &&& (line.kind matches LineKind::Pane(q) ==> !is_primary_id(snap, primary, q as int))
    } by {
        if i >= head.len() {
            assert(rows[i] == pane_rows(snap, entry, e, primary, n)[i - head.len()]);
        }
    }
}

/// The pane rows of an entry belong to it and skip the primary pane's id.
proof fn lemma_pane_rows_skip(snap: ClientShellSnapshot, entry: TabStripEntry, e: int, primary: Option<int>, n: int)
    requires
        0 <= e <= usize::MAX,
    ensures
        forall|i: int| 0 <= i < pane_rows(snap, entry, e, primary, n).len() ==> {
            let line = #[trigger] pane_rows(snap, entry, e, primary, n)[i];
            &&& line.entry == e
            &&& (line.kind matches LineKind::Pane(q) ==> !is_primary_id(snap, primary, q as int))
        },
    decreases n,
{
    if n > 0 {
        lemma_pane_rows_skip(snap, entry, e, primary, n - 1);
    }
}

/// Every row of the first `n` entries names an entry before `n`, and no
/// extra pane row shows its entry's primary pane.
proof fn lemma_group_rows_skip_primary(snap: ClientShellSnapshot, tabs: Seq<TabStripEntry>, n: int, compact: bool)
    requires
        n <= tabs.len() <= usize::MAX,
    ensures
        forall|i: int| 0 <= i < group_rows(snap, tabs, n, compact).len() ==> {
            let line = #[trigger] group_rows(snap, tabs, n, compact)[i];
            &&& 0 <= line.entry < n
            &&& (line.kind matches LineKind::Pane(q)
                ==> !is_primary_id(snap, primary_of(snap, tabs[line.entry as int]), q as int))
        },
    decreases n,
{
    if n > 0 {
        lemma_group_rows_skip_primary(snap, tabs, n - 1, compact);
        lemma_entry_rows_skip_primary(snap, tabs[n - 1], n - 1, compact);
        let prev = group_rows(snap, tabs, n - 1, compact);
        let rows = group_rows(snap, tabs, n, compact);
        assert forall|i: int| 0 <= i < rows.len() implies {
            let line = #[trigger] rows[i];
            &&& 0 <= line.entry < n
            &&& (line.kind matches LineKind::Pane(q)
                ==> !is_primary_id(snap, primary_of(snap, tabs[line.entry as int]), q as int))
        } by {
            if i < prev.len() {
                assert(rows[i] == prev[i]);
            } else {
                assert(rows[i] == entry_rows(snap, tabs[n - 1], n - 1, compact)[i - prev.len()]);
            }
        }
    }
}

/// A tab's details row speaks for its primary pane: the primary pane is one
/// of the tab's panes, the details row shows that pane's cwd leaf (then the
/// workspace branch) beside that same pane's badge, and no extra pane row
/// of the group shows a pane of that tab with the primary pane's id.
pub proof fn law_details_row_shows_primary_pane(snap: ClientShellSnapshot, config: ClientShellConfig, inner: Rect,
    group: TabStripGroup, e: int, p: int, y: u16)
    requires
        group.tabs@.len() <= usize::MAX,
        0 <= e < group.tabs@.len(),
        primary_of(snap, group.tabs@[e]) == Some(p),
    ensures
        ({
            let entry = group.tabs@[e];
            let palette = config.palette;
            let row = rect(inner.x, y, inner.width, 1);
            let fill = if snap.tabs@[entry.tab as int].focused {
                seq![Draw::Fill(row, bg_style(palette.surface0))]
            } else {
                Seq::empty()
            };
            let branch = opt_chars(snap.workspaces@[entry.workspace as int].branch);
            let style = if snap.panes@[p].focused { fg_style(palette.overlay1) } else { dim_style(palette.overlay0) };
            let badge = match pane_agent_of(snap.agents@, snap.panes@[p].pane_id@) {
                Some(i) => Some(BadgeView { name: agent_name_text(snap.agents@[i]), status: snap.agents@[i].agent_status }),
                None => None,
            };
            &&& exists|k: int| 0 <= k < entry.panes@.len() && entry.panes@[k] == p
            &&& details_draws(snap, config, inner, entry, y) == fill + badge_row_draws(text_rect(row),
                detail_segs(cwd_leaf(snap.panes@[p]), branch), style, badge, config)
        }),
        ({
            let rows = group_rows(snap, group.tabs@, group.tabs@.len() as int, config.vertical_tabs_compact);
            forall|i: int| 0 <= i < rows.len() && rows[i].entry == e ==>
                (#[trigger] rows[i].kind matches LineKind::Pane(q) ==> snap.panes@[q as int].pane_id@ != snap.panes@[p].pane_id@)
        }),
{
    let entry = group.tabs@[e];
    let k = choose|k: int| is_primary(snap, entry.panes@, k);
    assert(entry.panes@[k] == p);
    lemma_group_rows_skip_primary(snap, group.tabs@, group.tabs@.len() as int, config.vertical_tabs_compact);
    let rows = group_rows(snap, group.tabs@, group.tabs@.len() as int, config.vertical_tabs_compact);
    assert forall|i: int| 0 <= i < rows.len() && rows[i].entry == e implies
        (#[trigger] rows[i].kind matches LineKind::Pane(q) ==> snap.panes@[q as int].pane_id@ != snap.panes@[p].pane_id@) by {
        match rows[i].kind {
            LineKind::Pane(q) => {
                assert(!is_primary_id(snap, primary_of(snap, group.tabs@[rows[i].entry as int]), q as int));
            },
            _ => {},
        }
    }
}

/// The agent a pane shows runs in that pane and has the highest status
/// priority among the pane's agents, then the most recent state change, and
/// among agents equal in both it is the last one listed.
pub proof fn law_pane_agent_ranks(agents: Seq<ClientShellAgent>, pane_id: Seq<char>, i: int, j: int)
    requires
        pane_agent_of(agents, pane_id) == Some(i),
        0 <= j < agents.len(),
        agents[j].pane_id@ == pane_id,
    ensures
        0 <= i < agents.len(),
        agents[i].pane_id@ == pane_id,
        ({
            let pi = priority_of(agents[i].agent_status);
            let pj = priority_of(agents[j].agent_status);
            let si = agents[i].state_change_seq;
            let sj = agents[j].state_change_seq;
            pj < pi || (pj == pi && (sj < si || (sj == si && j <= i)))
        }),
{
    assert(is_pane_agent(agents, pane_id, i));
    assert(agent_rank(agents[j]) <= agent_rank(agents[i]));
}

/// Pane `a` outranks pane `b` for a tab's title (or ties with it, unless
/// `strict`): a pane hosting an agent outranks one without; two such panes
/// compare their agents' status priority, then state change; two without
/// compare focus.
pub open spec fn pane_outranks(snap: ClientShellSnapshot, a: int, b: int, strict: bool) -> bool {
    match (pane_agent_of(snap.agents@, snap.panes@[a].pane_id@), pane_agent_of(snap.agents@, snap.panes@[b].pane_id@)) {
        (Some(x), Some(y)) => {
            let px = priority_of(snap.agents@[x].agent_status);
            let py = priority_of(snap.agents@[y].agent_status);
            let sx = snap.agents@[x].state_change_seq;
            let sy = snap.agents@[y].state_change_seq;
            px > py || (px == py && (sx > sy || (sx == sy && !strict)))
        },
        (Some(_), None) => true,
        (None, Some(_)) => false,
        (None, None) => (snap.panes@[a].focused && !snap.panes@[b].focused)
            || (!strict && snap.panes@[a].focused == snap.panes@[b].focused),
    }
}

/// The primary pane of a tab is one of its panes that outranks every pane
/// listed before it and ranks at least as high as every pane after it.
pub proof fn law_primary_pane_rule(snap: ClientShellSnapshot, entry: TabStripEntry, p: int)
    requires
        primary_of(snap, entry) == Some(p),
    ensures
        exists|k: int| {
            &&& 0 <= k < entry.panes@.len()
            &&& entry.panes@[k] == p
            &&& forall|m: int| 0 <= m < k ==> pane_outranks(snap, p, #[trigger] entry.panes@[m] as int, true)
            &&& forall|m: int| k < m < entry.panes@.len() ==> pane_outranks(snap, p, #[trigger] entry.panes@[m] as int, false)
        },
{
    let panes = entry.panes@;
    let k = choose|k: int| is_primary(snap, panes, k);
    assert(panes[k] == p);
    assert forall|m: int| 0 <= m < panes.len() && m != k implies
        pane_outranks(snap, p, #[trigger] panes[m] as int, m < k) by {
        assert(pane_rank(snap, panes[m] as int) <= pane_rank(snap, panes[k] as int));
        let q = panes[m] as int;
        match pane_agent_of(snap.agents@, snap.panes@[q].pane_id@) {
            Some(y) => { assert(is_pane_agent(snap.agents@, snap.panes@[q].pane_id@, y)); },
            None => {},
        }
        match pane_agent_of(snap.agents@, snap.panes@[p].pane_id@) {
            Some(x) => { assert(is_pane_agent(snap.agents@, snap.panes@[p].pane_id@, x)); },
            None => {},
        }
    }
    assert(forall|m: int| 0 <= m < k ==> pane_outranks(snap, p, #[trigger] panes[m] as int, true));
    assert(forall|m: int| k < m < panes.len() ==> pane_outranks(snap, p, #[trigger] panes[m] as int, false));
}

/// The primary pane is chosen by its agent: when any pane of a tab hosts an
/// agent, so does the primary pane, and the primary pane's agent has a
/// higher status priority than that agent, or the same priority and a state
/// change at least as recent.
pub proof fn law_primary_pane_by_agent(snap: ClientShellSnapshot, entry: TabStripEntry, p: int, m: int, j: int)
    requires
        primary_of(snap, entry) == Some(p),
        0 <= m < entry.panes@.len(),
        is_pane_agent(snap.agents@, snap.panes@[entry.panes@[m] as int].pane_id@, j),
    ensures
        exists|i: int| {
            &&& #[trigger] is_pane_agent(snap.agents@, snap.panes@[p].pane_id@, i)
            &&& ({
                let pi = priority_of(snap.agents@[i].agent_status);
                let pj = priority_of(snap.agents@[j].agent_status);
                pi > pj || (pi == pj && snap.agents@[i].state_change_seq >= snap.agents@[j].state_change_seq)
            })
        },
{
    let panes = entry.panes@;
    let k = choose|k: int| is_primary(snap, panes, k);
    assert(panes[k] == p);
    let q = panes[m] as int;
    let qid = snap.panes@[q].pane_id@;
    assert(pane_agent_of(snap.agents@, qid) is Some);
    let j2 = pane_agent_of(snap.agents@, qid)->0;
    lemma_pane_agent_unique(snap.agents@, qid, j, j2);
    assert(pane_rank(snap, panes[m] as int) <= pane_rank(snap, panes[k] as int));
    let pid = snap.panes@[p].pane_id@;
    match pane_agent_of(snap.agents@, pid) {
        Some(i) => {
            assert(is_pane_agent(snap.agents@, pid, i));
            assert(agent_rank(snap.agents@[j]) <= agent_rank(snap.agents@[i]));
        },
        None => {
            assert(false);
        },
    }
}

/// The tab hit region a row adds (title rows only).
pub open spec fn row_tab_hits(snap: ClientShellSnapshot, compact: bool, inner: Rect, group: TabStripGroup, line: StripLine, y: u16) -> Seq<(Rect, Seq<char>)> {
    let entry = group.tabs@[line.entry as int];
    match line.kind {
        LineKind::Title => seq![(rect(inner.x, y, inner.width, tab_hit_rows(inner, y, compact) as u16), snap.tabs@[entry.tab as int].tab_id@)],
        _ => Seq::empty(),
    }
}

/// The pane hit region a row adds (extra pane rows only).
pub open spec fn row_agent_hits(snap: ClientShellSnapshot, inner: Rect, line: StripLine, y: u16) -> Seq<(Rect, Seq<char>)> {
    match line.kind {
        LineKind::Pane(p) => seq![(rect(inner.x, y, inner.width, 1), snap.panes@[p as int].pane_id@)],
        _ => Seq::empty(),
    }
}

/// The row's geometry fits `u16`: an active title block's end fits.
pub open spec fn row_geom_ok(snap: ClientShellSnapshot, compact: bool, inner: Rect, group: TabStripGroup, line: StripLine, y: u16) -> bool {
    let entry = group.tabs@[line.entry as int];
    let tab = snap.tabs@[entry.tab as int];
    &&& (line.kind is Title ==> (tab.focused ==> y + entry_line_count(entry, compact) <= u16::MAX))
}

/// The widths a row measures leave room for the row's minimum title: the
/// workspace label on a title row, the agent name of a badge otherwise (and
/// on a compact title row).
pub open spec fn row_texts_ok(snap: ClientShellSnapshot, config: ClientShellConfig, group: TabStripGroup, line: StripLine) -> bool {
    let compact = config.vertical_tabs_compact;
    let ind = config.status_indicators;
    let entry = group.tabs@[line.entry as int];
    let ws = snap.workspaces@[entry.workspace as int];
    match line.kind {
        LineKind::Title => {
            &&& compact ==> badge_fits_u16(primary_badge(snap, entry), ind)
            &&& !compact ==> label_fits(ws.label@)
        },
        LineKind::Details => badge_fits_u16(primary_badge(snap, entry), ind),
        LineKind::Pane(p) => badge_fits_u16(pane_badge(snap, p as int), ind),
    }
}

/// A row can be drawn without arithmetic overflow: its geometry and the
/// widths it measures fit.
pub open spec fn row_ok(snap: ClientShellSnapshot, config: ClientShellConfig, inner: Rect, group: TabStripGroup, line: StripLine, y: u16) -> bool {
    &&& row_geom_ok(snap, config.vertical_tabs_compact, inner, group, line, y)
    &&& row_texts_ok(snap, config, group, line)
}

/// A workspace label leaves room for a minimum title beside it.
pub open spec fn label_fits(label: Seq<char>) -> bool {
    display_columns(label) > 0 ==> display_columns(label) + 5 <= u16::MAX
}

/// A line belongs to the group and its pane (if any) is in the snapshot.
pub open spec fn line_wf(snap: ClientShellSnapshot, group: TabStripGroup, line: StripLine) -> bool {
    &&& line.entry < group.tabs@.len()
    &&& match line.kind {
        LineKind::Pane(p) => p < snap.panes.len(),
        _ => true,
    }
}

/// The views of hit regions.
pub open spec fn hit_views(s: Seq<(Rect, String)>) -> Seq<(Rect, Seq<char>)> {
    Seq::new(s.len(), |i: int| (s[i].0, s[i].1@))
}


impl TabStripEntry {
    /// The badge pane `p` shows, if an agent runs in it.
    pub fn pane_badge(&self, snapshot: &ClientShellSnapshot, p: usize) -> (r: Option<Badge>)
        requires
            p < snapshot.panes.len(),
        ensures
            opt_badge(r) == pane_badge(*snapshot, p as int),
    {
        match self.pane_agent(snapshot, &snapshot.panes[p]) {
            Some(i) => {
                let agent = &snapshot.agents[i];
                Some(Badge { name: strip_agent_name(agent), status: agent.agent_status })
            },
            None => None,
        }
    }
}

/// Draw the active tab's highlight for its title row at `y`.
pub fn render_strip_highlight(
    buffer: &mut Buffer,
    outer: Rect,
    inner: Rect,
    entry: &TabStripEntry,
    y: u16,
    config: &ClientShellConfig,
)
    requires
        y < inner.bottom_edge(),
        y + entry_line_count(*entry, config.vertical_tabs_compact) <= u16::MAX,
    ensures
        final(buffer)@ == old(buffer)@ + highlight_draws(outer, inner, y, config.vertical_tabs_compact,
            entry_line_count(*entry, config.vertical_tabs_compact), config.palette),
{
    let compact = config.vertical_tabs_compact;
    let highlight = Style { fg: None, bg: Some(config.palette.surface0), bold: false, dim: false };
    let bottom = inner.bottom();
    let below = bottom - y;
    let title_rows: u16 = if compact { 1 } else { 2 };
    let hit_rows = if title_rows < below { title_rows } else { below };
    let lines = entry.line_count(compact);
    let block = if lines < below { lines } else { below };
    buffer.set_style(Rect::new(inner.x, y, inner.width, hit_rows), highlight);
    buffer.set_style(Rect::new(outer.x, y, 1, block), highlight);
    buffer.set_style(Rect::new(outer.right().saturating_sub(1), y, 1, block), highlight);
    if y == inner.y {
        buffer.set_style(Rect::new(outer.x, outer.y, outer.width, 1), highlight);
    }
    if y + lines >= bottom {
        buffer.set_style(Rect::new(outer.x, outer.bottom().saturating_sub(1), outer.width, 1), highlight);
    }
    assert(final(buffer)@ =~= old(buffer)@ + highlight_draws(outer, inner, y, compact, entry_line_count(*entry, compact),
        config.palette));
}

/// Draw a title row at `y` and record the tab's hit region.
pub(crate) fn render_strip_title_line(
    buffer: &mut Buffer,
    outer: Rect,
    inner: Rect,
    entry: &TabStripEntry,
    y: u16,
    snapshot: &ClientShellSnapshot,
    config: &ClientShellConfig,
    hits: &mut ShellHitMap,
)
    requires
        entry_wf(*snapshot, *entry),
        snapshot.tabs@[entry.tab as int].focused ==> y + entry_line_count(*entry, config.vertical_tabs_compact) <= u16::MAX,
        config.vertical_tabs_compact ==> badge_fits_u16(primary_badge(*snapshot, *entry), config.status_indicators),
        !config.vertical_tabs_compact ==> (display_columns(snapshot.workspaces@[entry.workspace as int].label@) > 0
            ==> display_columns(snapshot.workspaces@[entry.workspace as int].label@) + 5 <= u16::MAX),
        y < inner.bottom_edge(),
    ensures
        final(buffer)@ == old(buffer)@ + title_draws(*snapshot, *config, outer, inner, *entry, y),
        hit_views(final(hits).tabs@) == hit_views(old(hits).tabs@).push(
            (rect(inner.x, y, inner.width, tab_hit_rows(inner, y, config.vertical_tabs_compact) as u16),
                snapshot.tabs@[entry.tab as int].tab_id@)),
        final(hits).agents == old(hits).agents,
        final(hits).new_tab == old(hits).new_tab,
        final(hits).tab_scroll_left == old(hits).tab_scroll_left,
        final(hits).tab_scroll_right == old(hits).tab_scroll_right,
        final(hits).sidebar_divider == old(hits).sidebar_divider,
{
    let ghost snap = *snapshot;
    let compact = config.vertical_tabs_compact;
    let palette = &config.palette;
    let tab = &snapshot.tabs[entry.tab];
    let ws = &snapshot.workspaces[entry.workspace];
    let row = Rect::new(inner.x, y, inner.width, 1);
    let highlight = Style { fg: None, bg: Some(palette.surface0), bold: false, dim: false };
    let ghost start = buffer@;
    let bottom = inner.bottom();
    let below = bottom - y;
    let title_rows: u16 = if compact { 1 } else { 2 };
    let hit_rows = if title_rows < below { title_rows } else { below };
    if tab.focused {
        render_strip_highlight(buffer, outer, inner, entry, y, config);
    }
    let ghost after_fill = buffer@;
    let ghost old_tabs = hits.tabs@;
    hits.tabs.push((Rect::new(inner.x, y, inner.width, hit_rows), tab.tab_id.clone()));
    assert(hit_views(hits.tabs@) =~= hit_views(old_tabs).push(
        (rect(inner.x, y, inner.width, tab_hit_rows(inner, y, compact) as u16), snap.tabs@[entry.tab as int].tab_id@)));
    let style = if tab.focused {
        Style { fg: Some(palette.text), bg: None, bold: true, dim: false }
    } else if tab.custom_label {
        Style { fg: Some(palette.overlay1), bg: None, bold: false, dim: false }
    } else {
        Style { fg: Some(palette.overlay0), bg: None, bold: false, dim: true }
    };
    let label = tab_label(tab);
    if compact {
        let badge = match entry.primary_pane(snapshot) {
            Some(p) => entry.pane_badge(snapshot, p),
            None => None,
        };
        let segments = vec![label];
        assert(texts(segments@) =~= seq![tab_label_text(*tab)]);
        render_strip_line_with_badge(buffer, strip_text_rect(row), segments.as_slice(), style, badge, config);
    } else {
        let ws_label = string_chars(ws.label.as_str());
        render_strip_title_row(buffer, strip_text_rect(row), label.as_slice(), style, ws_label.as_slice(), config);
    }
    assert(buffer@ =~= start + title_draws(snap, *config, outer, inner, *entry, y));
}

/// Draw a details row at `y`.
pub(crate) fn render_strip_details_line(
    buffer: &mut Buffer,
    inner: Rect,
    entry: &TabStripEntry,
    y: u16,
    snapshot: &ClientShellSnapshot,
    config: &ClientShellConfig,
)
    requires
        entry_wf(*snapshot, *entry),
        badge_fits_u16(primary_badge(*snapshot, *entry), config.status_indicators),
    ensures
        final(buffer)@ == old(buffer)@ + details_draws(*snapshot, *config, inner, *entry, y),
{
    let ghost snap = *snapshot;
    let palette = &config.palette;
    let tab = &snapshot.tabs[entry.tab];
    let ws = &snapshot.workspaces[entry.workspace];
    let row = Rect::new(inner.x, y, inner.width, 1);
    let ghost start = buffer@;
    if tab.focused {
        buffer.set_style(row, Style { fg: None, bg: Some(palette.surface0), bold: false, dim: false });
    }
    let primary = entry.primary_pane(snapshot);
    let badge = match primary {
        Some(p) => entry.pane_badge(snapshot, p),
        None => None,
    };
    let leaf = match primary {
        Some(p) => strip_cwd_leaf(&snapshot.panes[p]),
        None => None,
    };
    let branch = option_chars(&ws.branch);
    let segments = detail_segments(
        match &leaf { Some(l) => Some(l.as_slice()), None => None },
        match &branch { Some(b) => Some(b.as_slice()), None => None },
    );
    let primary_focused = match primary {
        Some(p) => snapshot.panes[p].focused,
        None => false,
    };
    let style = if primary_focused {
        Style { fg: Some(palette.overlay1), bg: None, bold: false, dim: false }
    } else {
        Style { fg: Some(palette.overlay0), bg: None, bold: false, dim: true }
    };
    render_strip_line_with_badge(buffer, strip_text_rect(row), segments.as_slice(), style, badge, config);
    assert(buffer@ =~= start + details_draws(snap, *config, inner, *entry, y));
}

/// Draw an extra pane's row at `y` and record the pane's hit region.
pub(crate) fn render_strip_pane_line(
    buffer: &mut Buffer,
    inner: Rect,
    entry: &TabStripEntry,
    p: usize,
    y: u16,
    snapshot: &ClientShellSnapshot,
    config: &ClientShellConfig,
    hits: &mut ShellHitMap,
)
    requires
        entry_wf(*snapshot, *entry),
        p < snapshot.panes.len(),
        badge_fits_u16(pane_badge(*snapshot, p as int), config.status_indicators),
    ensures
        final(buffer)@ == old(buffer)@ + pane_draws(*snapshot, *config, inner, *entry, p as int, y),
        hit_views(final(hits).agents@) == hit_views(old(hits).agents@).push(
            (rect(inner.x, y, inner.width, 1), snapshot.panes@[p as int].pane_id@)),
        final(hits).tabs == old(hits).tabs,
        final(hits).new_tab == old(hits).new_tab,
        final(hits).tab_scroll_left == old(hits).tab_scroll_left,
        final(hits).tab_scroll_right == old(hits).tab_scroll_right,
        final(hits).sidebar_divider == old(hits).sidebar_divider,
{
    let ghost snap = *snapshot;
    let palette = &config.palette;
    let tab = &snapshot.tabs[entry.tab];
    let ws = &snapshot.workspaces[entry.workspace];
    let row = Rect::new(inner.x, y, inner.width, 1);
    let ghost start = buffer@;
    if tab.focused {
        buffer.set_style(row, Style { fg: None, bg: Some(palette.surface0), bold: false, dim: false });
    }
    let pane = &snapshot.panes[p];
    let badge = entry.pane_badge(snapshot, p);
    let style = if pane.focused {
        Style { fg: Some(palette.overlay1), bg: None, bold: false, dim: false }
    } else {
        Style { fg: Some(palette.overlay0), bg: None, bold: false, dim: true }
    };
    let label = option_chars(&pane.label);
    let first: Vec<char> = match label {
        Some(l) => if l.len() > 0 {
            l
        } else {
            match strip_cwd_leaf(pane) {
                Some(leaf) => leaf,
                None => vec!['p', 'a', 'n', 'e'],
            }
        },
        None => match strip_cwd_leaf(pane) {
            Some(leaf) => leaf,
            None => vec!['p', 'a', 'n', 'e'],
        },
    };
    let mut segments: Vec<Vec<char>> = vec![first];
    match option_chars(&ws.branch) {
        Some(b) => segments.push(b),
        None => {},
    }
    assert(texts(segments@) =~= pane_segs(*pane, opt_chars(ws.branch)));
    render_strip_line_with_badge(buffer, strip_text_rect(row), segments.as_slice(), style, badge, config);
    assert(buffer@ =~= start + pane_draws(snap, *config, inner, *entry, p as int, y));
    let ghost old_agents = hits.agents@;
    hits.agents.push((row, pane.pane_id.clone()));
    assert(hit_views(hits.agents@) =~= hit_views(old_agents).push((rect(inner.x, y, inner.width, 1), snap.panes@[p as int].pane_id@)));
}

/// Draw one row of a group at row `y`, and record its hit region.
pub(crate) fn render_strip_row(
    buffer: &mut Buffer,
    outer: Rect,
    inner: Rect,
    group: &TabStripGroup,
    line: StripLine,
    y: u16,
    snapshot: &ClientShellSnapshot,
    config: &ClientShellConfig,
    hits: &mut ShellHitMap,
)
    requires
        group_wf(*snapshot, *group),
        line_wf(*snapshot, *group, line),
        row_ok(*snapshot, *config, inner, *group, line, y),
        y < inner.bottom_edge(),
    ensures
        final(buffer)@ == old(buffer)@ + row_draws(*snapshot, *config, outer, inner, *group, line, y),
        hit_views(final(hits).tabs@) == hit_views(old(hits).tabs@)
            + row_tab_hits(*snapshot, config.vertical_tabs_compact, inner, *group, line, y),
        hit_views(final(hits).agents@) == hit_views(old(hits).agents@) + row_agent_hits(*snapshot, inner, line, y),
        final(hits).new_tab == old(hits).new_tab,
        final(hits).tab_scroll_left == old(hits).tab_scroll_left,
        final(hits).tab_scroll_right == old(hits).tab_scroll_right,
        final(hits).sidebar_divider == old(hits).sidebar_divider,
{
    let entry = &group.tabs[line.entry];
    assert(entry_wf(*snapshot, *entry));
    match line.kind {
        LineKind::Title => {
            render_strip_title_line(buffer, outer, inner, entry, y, snapshot, config, hits);
        },
        LineKind::Details => {
            render_strip_details_line(buffer, inner, entry, y, snapshot, config);
        },
        LineKind::Pane(p) => {
            render_strip_pane_line(buffer, inner, entry, p, y, snapshot, config, hits);
        },
    }
    assert(hit_views(final(hits).tabs@) =~= hit_views(old(hits).tabs@)
        + row_tab_hits(*snapshot, config.vertical_tabs_compact, inner, *group, line, y));
    assert(hit_views(final(hits).agents@) =~= hit_views(old(hits).agents@) + row_agent_hits(*snapshot, inner, line, y));
}


/// Rows `0..n` of a group, drawn one per row from the top of `inner`.
pub open spec fn rows_draws(
    snap: ClientShellSnapshot,
    config: ClientShellConfig,
    outer: Rect,
    inner: Rect,
    group: TabStripGroup,
    rows: Seq<StripLine>,
    n: int,
) -> Seq<Draw>
    decreases n,
{
    if n <= 0 {
        Seq::empty()
    } else {
        rows_draws(snap, config, outer, inner, group, rows, n - 1)
            + row_draws(snap, config, outer, inner, group, rows[n - 1], (inner.y + n - 1) as u16)
    }
}

/// Tab hit regions of rows `0..n`.
pub open spec fn rows_tab_hits(snap: ClientShellSnapshot, compact: bool, inner: Rect, group: TabStripGroup, rows: Seq<StripLine>, n: int) -> Seq<(Rect, Seq<char>)>
    decreases n,
{
    if n <= 0 {
        Seq::empty()
    } else {
        rows_tab_hits(snap, compact, inner, group, rows, n - 1)
            + row_tab_hits(snap, compact, inner, group, rows[n - 1], (inner.y + n - 1) as u16)
    }
}

/// Pane hit regions of rows `0..n`.
pub open spec fn rows_agent_hits(snap: ClientShellSnapshot, inner: Rect, rows: Seq<StripLine>, n: int) -> Seq<(Rect, Seq<char>)>
    decreases n,
{
    if n <= 0 {
        Seq::empty()
    } else {
        rows_agent_hits(snap, inner, rows, n - 1) + row_agent_hits(snap, inner, rows[n - 1], (inner.y + n - 1) as u16)
    }
}

/// How many of `total` rows fit inside `inner`.
pub open spec fn shown_rows(inner: Rect, total: int) -> int {
    min_int(total, sub0(inner.bottom_edge(), inner.y as int))
}

/// The border color of a group: brighter for the focused workspace.
pub open spec fn group_border(snap: ClientShellSnapshot, group: TabStripGroup, palette: Palette) -> Style {
    if snap.workspaces@[group.workspace as int].focused {
        fg_style(palette.overlay0)
    } else {
        fg_style(palette.surface_dim)
    }
}

/// The rows of a group that are actually drawn when it occupies `r`.
pub open spec fn group_shown(snap: ClientShellSnapshot, compact: bool, r: Rect, group: TabStripGroup) -> int {
    let inner = box_inner(r);
    if inner.width == 0 || inner.height == 0 {
        0
    } else {
        shown_rows(inner, group_rows(snap, group.tabs@, group.tabs@.len() as int, compact).len() as int)
    }
}

/// Everything a group draws in `r`: its box, then as many rows as fit.
pub open spec fn group_draws(snap: ClientShellSnapshot, config: ClientShellConfig, r: Rect, group: TabStripGroup) -> Seq<Draw> {
    let compact = config.vertical_tabs_compact;
    let inner = box_inner(r);
    let rows = group_rows(snap, group.tabs@, group.tabs@.len() as int, compact);
    box_draws(r, group_border(snap, group, config.palette))
        + rows_draws(snap, config, r, inner, group, rows, group_shown(snap, compact, r, group))
}

/// The tab hit regions a group in `r` records.
pub open spec fn group_tab_hits(snap: ClientShellSnapshot, compact: bool, r: Rect, group: TabStripGroup) -> Seq<(Rect, Seq<char>)> {
    let rows = group_rows(snap, group.tabs@, group.tabs@.len() as int, compact);
    rows_tab_hits(snap, compact, box_inner(r), group, rows, group_shown(snap, compact, r, group))
}

/// The pane hit regions a group in `r` records.
pub open spec fn group_agent_hits(snap: ClientShellSnapshot, compact: bool, r: Rect, group: TabStripGroup) -> Seq<(Rect, Seq<char>)> {
    let rows = group_rows(snap, group.tabs@, group.tabs@.len() as int, compact);
    rows_agent_hits(snap, box_inner(r), rows, group_shown(snap, compact, r, group))
}

/// A group in `r` can be drawn without arithmetic overflow.
pub open spec fn group_ok(snap: ClientShellSnapshot, config: ClientShellConfig, r: Rect, group: TabStripGroup) -> bool {
    let compact = config.vertical_tabs_compact;
    let inner = box_inner(r);
    let rows = group_rows(snap, group.tabs@, group.tabs@.len() as int, compact);
    &&& has_box(r) ==> r.x < u16::MAX && r.y < u16::MAX
    &&& forall|i: int|
        0 <= i < group_shown(snap, compact, r, group)
            ==> #[trigger] row_ok(snap, config, inner, group, rows[i], (inner.y + i) as u16)
}

/// The title row of entry `k` comes right after the rows of the entries
/// before it.
pub proof fn lemma_title_row_of_entry(snap: ClientShellSnapshot, tabs: Seq<TabStripEntry>, k: int, n: int, compact: bool)
    requires
        0 <= k < n <= tabs.len(),
    ensures
        group_rows(snap, tabs, k, compact).len() < group_rows(snap, tabs, n, compact).len(),
        group_rows(snap, tabs, n, compact)[group_rows(snap, tabs, k, compact).len() as int]
            == (StripLine { entry: k as usize, kind: LineKind::Title }),
    decreases n,
{
    if n > k + 1 {
        lemma_title_row_of_entry(snap, tabs, k, n - 1, compact);
    }
}

/// Each title row among the first `n` rows records its tab's hit region.
proof fn lemma_rows_tab_hits_has(snap: ClientShellSnapshot, compact: bool, inner: Rect, group: TabStripGroup,
    rows: Seq<StripLine>, n: int, i: int)
    requires
        0 <= i < n <= rows.len(),
        rows[i].kind is Title,
    ensures
        rows_tab_hits(snap, compact, inner, group, rows, n).contains(
            (rect(inner.x, (inner.y + i) as u16, inner.width, tab_hit_rows(inner, (inner.y + i) as u16, compact) as u16),
                snap.tabs@[group.tabs@[rows[i].entry as int].tab as int].tab_id@)),
    decreases n,
{
    let prev = rows_tab_hits(snap, compact, inner, group, rows, n - 1);
    let last = row_tab_hits(snap, compact, inner, group, rows[n - 1], (inner.y + n - 1) as u16);
    if i == n - 1 {
        assert((prev + last)[prev.len() as int] == last[0]);
    } else {
        lemma_rows_tab_hits_has(snap, compact, inner, group, rows, n - 1, i);
        let h = choose|j: int| 0 <= j < prev.len() && prev[j] == (rect(inner.x, (inner.y + i) as u16, inner.width,
            tab_hit_rows(inner, (inner.y + i) as u16, compact) as u16),
            snap.tabs@[group.tabs@[rows[i].entry as int].tab as int].tab_id@);
        assert((prev + last)[h] == prev[h]);
    }
}

/// Each extra-pane row among the first `n` rows records its pane's hit region.
proof fn lemma_rows_agent_hits_has(snap: ClientShellSnapshot, inner: Rect, rows: Seq<StripLine>, n: int, i: int, p: usize)
    requires
        0 <= i < n <= rows.len(),
        rows[i].kind == LineKind::Pane(p),
    ensures
        rows_agent_hits(snap, inner, rows, n).contains((rect(inner.x, (inner.y + i) as u16, inner.width, 1),
            snap.panes@[p as int].pane_id@)),
    decreases n,
{
    let prev = rows_agent_hits(snap, inner, rows, n - 1);
    let last = row_agent_hits(snap, inner, rows[n - 1], (inner.y + n - 1) as u16);
    if i == n - 1 {
        assert((prev + last)[prev.len() as int] == last[0]);
    } else {
        lemma_rows_agent_hits_has(snap, inner, rows, n - 1, i, p);
        let h = choose|j: int| 0 <= j < prev.len() && prev[j] == (rect(inner.x, (inner.y + i) as u16, inner.width, 1),
            snap.panes@[p as int].pane_id@);
        assert((prev + last)[h] == prev[h]);
    }
}

/// Every tab of a group whose title row is drawn has its hit region: entry
/// `k`'s title sits after the rows of the entries before it, and its region
/// spans the inner width and its title and details rows (clipped at the box).
pub proof fn law_group_tabs_have_hits(snap: ClientShellSnapshot, compact: bool, r: Rect, group: TabStripGroup, k: int)
    requires
        group_wf(snap, group),
        0 <= k < group.tabs@.len(),
        group_rows(snap, group.tabs@, k, compact).len() < group_shown(snap, compact, r, group),
    ensures
        ({
            let inner = box_inner(r);
            let y = (inner.y + group_rows(snap, group.tabs@, k, compact).len()) as u16;
            group_tab_hits(snap, compact, r, group).contains(
                (rect(inner.x, y, inner.width, tab_hit_rows(inner, y, compact) as u16),
                    snap.tabs@[group.tabs@[k].tab as int].tab_id@))
        }),
{
    let n = group.tabs@.len() as int;
    let rows = group_rows(snap, group.tabs@, n, compact);
    let i = group_rows(snap, group.tabs@, k, compact).len() as int;
    lemma_title_row_of_entry(snap, group.tabs@, k, n, compact);
    lemma_rows_tab_hits_has(snap, compact, box_inner(r), group, rows, group_shown(snap, compact, r, group), i);
}

/// The panes of each tab of the group have distinct ids.
pub open spec fn group_pane_ids_distinct(snap: ClientShellSnapshot, group: TabStripGroup) -> bool {
    forall|e: int, m: int, n: int|
        #![trigger group.tabs@[e].panes@[m], group.tabs@[e].panes@[n]]
        0 <= e < group.tabs@.len() && 0 <= m < n < group.tabs@[e].panes@.len()
            ==> snap.panes@[group.tabs@[e].panes@[m] as int].pane_id@
                != snap.panes@[group.tabs@[e].panes@[n] as int].pane_id@
}

/// Among the first `n` panes of a list, one ranks first.
proof fn lemma_primary_in_prefix(snap: ClientShellSnapshot, panes: Seq<usize>, n: int)
    requires
        0 < n <= panes.len(),
    ensures
        exists|k: int| is_primary(snap, panes.subrange(0, n), k),
    decreases n,
{
    if n == 1 {
        assert(is_primary(snap, panes.subrange(0, 1), 0));
    } else {
        lemma_primary_in_prefix(snap, panes, n - 1);
        let pre = panes.subrange(0, n - 1);
        let cur = panes.subrange(0, n);
        let k = choose|k: int| is_primary(snap, pre, k);
        assert forall|m: int| 0 <= m < n - 1 implies #[trigger] cur[m] == pre[m] by {}
        if pane_rank(snap, panes[n - 1] as int) > pane_rank(snap, panes[k] as int) {
            assert forall|m: int| 0 <= m < cur.len() implies {
                &&& #[trigger] pane_rank(snap, cur[m] as int) <= pane_rank(snap, cur[n - 1] as int)
                &&& (pane_rank(snap, cur[m] as int) == pane_rank(snap, cur[n - 1] as int) ==> n - 1 <= m)
            } by {
                if m < n - 1 {
                    assert(pane_rank(snap, pre[m] as int) <= pane_rank(snap, pre[k] as int));
                }
            }
            assert(is_primary(snap, cur, n - 1));
        } else {
            assert forall|m: int| 0 <= m < cur.len() implies {
                &&& #[trigger] pane_rank(snap, cur[m] as int) <= pane_rank(snap, cur[k] as int)
                &&& (pane_rank(snap, cur[m] as int) == pane_rank(snap, cur[k] as int) ==> k <= m)
            } by {
                if m < n - 1 {
                    assert(pane_rank(snap, pre[m] as int) <= pane_rank(snap, pre[k] as int));
                }
            }
            assert(is_primary(snap, cur, k));
        }
    }
}

/// With distinct pane ids, the first `n` panes give one row each but the
/// primary pane.
proof fn lemma_pane_rows_len(snap: ClientShellSnapshot, group: TabStripGroup, e: int, k0: int, n: int)
    requires
        group_pane_ids_distinct(snap, group),
        0 <= e < group.tabs@.len(),
        0 <= k0 < group.tabs@[e].panes@.len(),
        0 <= n <= group.tabs@[e].panes@.len(),
    ensures
        pane_rows(snap, group.tabs@[e], e, Some(group.tabs@[e].panes@[k0] as int), n).len()
            == n - (if k0 < n { 1int } else { 0int }),
    decreases n,
{
    if n > 0 {
        lemma_pane_rows_len(snap, group, e, k0, n - 1);
        let panes = group.tabs@[e].panes@;
        if n - 1 < k0 {
            assert(panes[n - 1] == group.tabs@[e].panes@[n - 1]);
            assert(snap.panes@[panes[n - 1] as int].pane_id@ != snap.panes@[panes[k0] as int].pane_id@);
        } else if k0 < n - 1 {
            assert(snap.panes@[panes[k0] as int].pane_id@ != snap.panes@[panes[n - 1] as int].pane_id@);
        }
    }
}

/// Tabs of a group follow one another by their line counts: with pane ids
/// distinct within each tab (and no tab with more panes than a `u16` row
/// count holds), the rows of the first `k` tabs are as many as their line
/// counts add up to, so tab `k`'s title (and hit region, see
/// `law_group_tabs_have_hits`) sits that many rows below the box's top
/// border.
pub proof fn law_group_rows_follow_line_counts(snap: ClientShellSnapshot, compact: bool, group: TabStripGroup, k: int)
    requires
        group_wf(snap, group),
        group_pane_ids_distinct(snap, group),
        forall|e: int| 0 <= e < group.tabs@.len() ==> #[trigger] group.tabs@[e].panes@.len() <= u16::MAX - 2,
        0 <= k <= group.tabs@.len(),
    ensures
        group_rows(snap, group.tabs@, k, compact).len() + 2 == group_height(group.tabs@.subrange(0, k), compact),
    decreases k,
{
    let tabs = group.tabs@;
    if k == 0 {
        assert(tabs.subrange(0, 0).len() == 0);
    } else {
        law_group_rows_follow_line_counts(snap, compact, group, k - 1);
        assert(tabs.subrange(0, k).drop_last() =~= tabs.subrange(0, k - 1));
        let entry = tabs[k - 1];
        let panes = entry.panes@;
        if panes.len() > 0 {
            lemma_primary_in_prefix(snap, panes, panes.len() as int);
            assert(panes.subrange(0, panes.len() as int) =~= panes);
            let k0 = choose|q: int| is_primary(snap, panes, q);
            lemma_pane_rows_len(snap, group, k - 1, k0, panes.len() as int);
        }
    }
}

/// Every extra-pane row of a group that is drawn has its pane's hit region,
/// one row high across the inner width.
pub proof fn law_group_pane_rows_have_hits(snap: ClientShellSnapshot, compact: bool, r: Rect, group: TabStripGroup, i: int,
    p: usize)
    requires
        0 <= i < group_shown(snap, compact, r, group),
        group_rows(snap, group.tabs@, group.tabs@.len() as int, compact)[i].kind == LineKind::Pane(p),
    ensures
        ({
            let inner = box_inner(r);
            group_agent_hits(snap, compact, r, group).contains(
                (rect(inner.x, (inner.y + i) as u16, inner.width, 1), snap.panes@[p as int].pane_id@))
        }),
{
    let rows = group_rows(snap, group.tabs@, group.tabs@.len() as int, compact);
    lemma_rows_agent_hits_has(snap, box_inner(r), rows, group_shown(snap, compact, r, group), i, p);
}

/// A group's geometry in `r` fits `u16` (its box can be inset and its shown
/// rows' geometry fits).
pub open spec fn group_geom_ok(snap: ClientShellSnapshot, compact: bool, r: Rect, group: TabStripGroup) -> bool {
    let inner = box_inner(r);
    let rows = group_rows(snap, group.tabs@, group.tabs@.len() as int, compact);
    &&& has_box(r) ==> r.x < u16::MAX && r.y < u16::MAX
    &&& forall|i: int|
        0 <= i < group_shown(snap, compact, r, group)
            ==> #[trigger] row_geom_ok(snap, compact, inner, group, rows[i], (inner.y + i) as u16)
}

/// Rows of the first `n` entries of an entry's panes refer to valid panes.
pub proof fn lemma_pane_rows_wf(snap: ClientShellSnapshot, group: TabStripGroup, e: int, primary: Option<int>, n: int)
    requires
        group_wf(snap, group),
        0 <= e < group.tabs@.len(),
        0 <= n <= group.tabs@[e].panes@.len(),
    ensures
        forall|i: int| 0 <= i < pane_rows(snap, group.tabs@[e], e, primary, n).len()
            ==> #[trigger] line_wf(snap, group, pane_rows(snap, group.tabs@[e], e, primary, n)[i]),
    decreases n,
{
    if n > 0 {
        lemma_pane_rows_wf(snap, group, e, primary, n - 1);
        assert(entry_wf(snap, group.tabs@[e]));
        assert(group.tabs@[e].panes@[n - 1] < snap.panes.len());
        let prev = pane_rows(snap, group.tabs@[e], e, primary, n - 1);
        let cur = pane_rows(snap, group.tabs@[e], e, primary, n);
        assert((e as usize) as int == e);
        assert forall|i: int| 0 <= i < cur.len() implies #[trigger] line_wf(snap, group, cur[i]) by {
            if i < prev.len() {
                assert(cur[i] == prev[i]);
            }
        }
    }
}

/// Every row of a group belongs to it.
pub proof fn lemma_group_rows_wf(snap: ClientShellSnapshot, group: TabStripGroup, n: int, compact: bool)
    requires
        group_wf(snap, group),
        0 <= n <= group.tabs@.len(),
    ensures
        forall|i: int| 0 <= i < group_rows(snap, group.tabs@, n, compact).len()
            ==> #[trigger] line_wf(snap, group, group_rows(snap, group.tabs@, n, compact)[i]),
    decreases n,
{
    if n > 0 {
        lemma_group_rows_wf(snap, group, n - 1, compact);
        let entry = group.tabs@[n - 1];
        lemma_pane_rows_wf(snap, group, n - 1, primary_of(snap, entry), entry.panes@.len() as int);
        let prev = group_rows(snap, group.tabs@, n - 1, compact);
        let cur = entry_rows(snap, entry, n - 1, compact);
        let panes = pane_rows(snap, entry, n - 1, primary_of(snap, entry), entry.panes@.len() as int);
        let head_len = if compact { 1int } else { 2int };
        assert forall|i: int| 0 <= i < (prev + cur).len() implies #[trigger] line_wf(snap, group, (prev + cur)[i]) by {
            if i >= prev.len() && i - prev.len() >= head_len {
                assert(cur[i - prev.len()] == panes[i - prev.len() - head_len]);
            }
        }
    }
}

/// One workspace group: a single rounded box around all its tabs. Each tab
/// renders a title row (workspace label right-aligned), a details row
/// (cwd leaf • branch + agent badge), then one line per extra pane in the
/// same details format; rows that do not fit are left out.
pub fn render_tab_strip_group(
    buffer: &mut Buffer,
    r: Rect,
    group: &TabStripGroup,
    snapshot: &ClientShellSnapshot,
    config: &ClientShellConfig,
    hits: &mut ShellHitMap,
)
    requires
        group_wf(*snapshot, *group),
        group_ok(*snapshot, *config, r, *group),
    ensures
        final(buffer)@ == old(buffer)@ + group_draws(*snapshot, *config, r, *group),
        hit_views(final(hits).tabs@) == hit_views(old(hits).tabs@)
            + group_tab_hits(*snapshot, config.vertical_tabs_compact, r, *group),
        hit_views(final(hits).agents@) == hit_views(old(hits).agents@)
            + group_agent_hits(*snapshot, config.vertical_tabs_compact, r, *group),
        final(hits).new_tab == old(hits).new_tab,
        final(hits).tab_scroll_left == old(hits).tab_scroll_left,
        final(hits).tab_scroll_right == old(hits).tab_scroll_right,
        final(hits).sidebar_divider == old(hits).sidebar_divider,
{
    let ghost snap = *snapshot;
    let compact = config.vertical_tabs_compact;
    let palette = &config.palette;
    let workspace = &snapshot.workspaces[group.workspace];
    let border = Style {
        fg: Some(if workspace.focused { palette.overlay0 } else { palette.surface_dim }),
        bg: None,
        bold: false,
        dim: false,
    };
    let inner = draw_strip_box(buffer, r, border);
    if inner.is_empty() {
        assert(final(buffer)@ =~= old(buffer)@ + group_draws(snap, *config, r, *group));
        assert(hit_views(final(hits).tabs@) =~= hit_views(old(hits).tabs@)
            + group_tab_hits(snap, compact, r, *group));
        assert(hit_views(final(hits).agents@) =~= hit_views(old(hits).agents@)
            + group_agent_hits(snap, compact, r, *group));
        return;
    }
    let rows = group.rows(snapshot, compact);
    proof {
        lemma_group_rows_wf(snap, *group, group.tabs@.len() as int, compact);
    }
    let ghost shown = group_shown(snap, compact, r, *group);
    let ghost buf0 = buffer@;
    let ghost tabs0 = hit_views(hits.tabs@);
    let ghost agents0 = hit_views(hits.agents@);
    let bottom = inner.bottom();
    let mut i: usize = 0;
    let mut y: u16 = inner.y;
    while i < rows.len() && y < bottom
        invariant
            snap == *snapshot,
            compact == config.vertical_tabs_compact,
            inner == box_inner(r),
            !(inner.width == 0 || inner.height == 0),
            bottom as int == inner.bottom_edge(),
            group_wf(snap, *group),
            group_ok(snap, *config, r, *group),
            rows@ == group_rows(snap, group.tabs@, group.tabs@.len() as int, compact),
            shown == group_shown(snap, compact, r, *group),
            forall|k: int| 0 <= k < rows@.len() ==> #[trigger] line_wf(snap, *group, rows@[k]),
            i <= rows.len(),
            y as int == inner.y + i,
            i <= shown,
            y <= bottom || i == 0,
            buffer@ == buf0 + rows_draws(snap, *config, r, inner, *group, rows@, i as int),
            hit_views(hits.tabs@) == tabs0 + rows_tab_hits(snap, compact, inner, *group, rows@, i as int),
            hit_views(hits.agents@) == agents0 + rows_agent_hits(snap, inner, rows@, i as int),
            hits.new_tab == old(hits).new_tab,
            hits.tab_scroll_left == old(hits).tab_scroll_left,
            hits.tab_scroll_right == old(hits).tab_scroll_right,
            hits.sidebar_divider == old(hits).sidebar_divider,
        decreases rows.len() - i,
    {
        assert(row_ok(snap, *config, inner, *group, rows@[i as int], (inner.y + i) as u16));
        render_strip_row(buffer, r, inner, group, rows[i], y, snapshot, config, hits);
        i = i + 1;
        y = y + 1;
    }
    assert(i == shown);
    assert(final(buffer)@ =~= old(buffer)@ + group_draws(snap, *config, r, *group));
    assert(hit_views(final(hits).tabs@) =~= hit_views(old(hits).tabs@) + group_tab_hits(snap, compact, r, *group));
    assert(hit_views(final(hits).agents@) =~= hit_views(old(hits).agents@) + group_agent_hits(snap, compact, r, *group));
}

/// Draw a workspace group when it can be drawn in `r`: its geometry and the
/// widths its shown rows measure fit (see `group_geom_ok` and
/// `group_texts_ok`); report `true`. Otherwise draw nothing, leave the hit
/// map as it was, and report `false`.
pub fn try_render_tab_strip_group(
    buffer: &mut Buffer,
    r: Rect,
    group: &TabStripGroup,
    snapshot: &ClientShellSnapshot,
    config: &ClientShellConfig,
    hits: &mut ShellHitMap,
) -> (drawn: bool)
    requires
        group_wf(*snapshot, *group),
    ensures
        drawn == (group_geom_ok(*snapshot, config.vertical_tabs_compact, r, *group)
            && group_texts_ok(*snapshot, *config, r, *group)),
        !drawn ==> final(buffer)@ == old(buffer)@ && *final(hits) == *old(hits),
        drawn ==> {
            &&& final(buffer)@ == old(buffer)@ + group_draws(*snapshot, *config, r, *group)
            &&& hit_views(final(hits).tabs@) == hit_views(old(hits).tabs@)
                + group_tab_hits(*snapshot, config.vertical_tabs_compact, r, *group)
            &&& hit_views(final(hits).agents@) == hit_views(old(hits).agents@)
                + group_agent_hits(*snapshot, config.vertical_tabs_compact, r, *group)
            &&& final(hits).new_tab == old(hits).new_tab
            &&& final(hits).tab_scroll_left == old(hits).tab_scroll_left
            &&& final(hits).tab_scroll_right == old(hits).tab_scroll_right
            &&& final(hits).sidebar_divider == old(hits).sidebar_divider
        },
{
    if !group_geom_check(snapshot, config.vertical_tabs_compact, r, group) {
        return false;
    }
    if !group_texts_check(snapshot, config, r, group) {
        return false;
    }
    proof {
        lemma_group_ok_parts(*snapshot, *config, r, *group);
    }
    render_tab_strip_group(buffer, r, group, snapshot, config, hits);
    true
}


/// Indices (below `n`) of the tabs of the workspace with id `ws_id`, in order.
pub open spec fn ws_tab_indices(tabs: Seq<ClientShellTab>, ws_id: Seq<char>, n: int) -> Seq<usize>
    decreases n,
{
    if n <= 0 {
        Seq::empty()
    } else {
        let prev = ws_tab_indices(tabs, ws_id, n - 1);
        if tabs[n - 1].workspace_id@ == ws_id { prev.push((n - 1) as usize) } else { prev }
    }
}

/// Indices (below `n`) of the panes of the tab with id `tab_id`, in order.
pub open spec fn tab_pane_indices(panes: Seq<ClientShellPane>, tab_id: Seq<char>, n: int) -> Seq<usize>
    decreases n,
{
    if n <= 0 {
        Seq::empty()
    } else {
        let prev = tab_pane_indices(panes, tab_id, n - 1);
        if panes[n - 1].tab_id@ == tab_id { prev.push((n - 1) as usize) } else { prev }
    }
}

/// The tabs the strip lists under workspace `wi`.
pub open spec fn strip_tab_list(snap: ClientShellSnapshot, wi: int) -> Seq<usize> {
    ws_tab_indices(snap.tabs@, snap.workspaces@[wi].workspace_id@, snap.tabs@.len() as int)
}

/// Some of the first `limit` tabs listed under workspace `wi` has id `id`.
pub open spec fn listed_in(snap: ClientShellSnapshot, wi: int, limit: int, id: Seq<char>) -> bool {
    exists|j: int| 0 <= j < limit && #[trigger] snap.tabs@[strip_tab_list(snap, wi)[j] as int].tab_id@ == id
}

/// The tab at position `k` under workspace `wi` has an id the strip already
/// listed before it; its panes went to that earlier entry.
pub open spec fn listed_earlier(snap: ClientShellSnapshot, wi: int, k: int) -> bool {
    let id = snap.tabs@[strip_tab_list(snap, wi)[k] as int].tab_id@;
    (exists|w: int| 0 <= w < wi && #[trigger] listed_in(snap, w, strip_tab_list(snap, w).len() as int, id))
        || listed_in(snap, wi, k, id)
}

/// The entry at position `k` of group `wi`, as the strip builds it.
pub open spec fn strip_entry_ok(snap: ClientShellSnapshot, wi: int, k: int, entry: TabStripEntry) -> bool {
    let ti = strip_tab_list(snap, wi)[k];
    &&& entry.tab == ti
    &&& entry.workspace == wi
    &&& entry.panes@ == if listed_earlier(snap, wi, k) {
        Seq::empty()
    } else {
        tab_pane_indices(snap.panes@, snap.tabs@[ti as int].tab_id@, snap.panes@.len() as int)
    }
}

/// Group `wi` as the strip builds it: the workspace's tabs in snapshot order,
/// each with the panes of its tab (the first listing of a tab id takes them).
pub open spec fn strip_group_ok(snap: ClientShellSnapshot, wi: int, group: TabStripGroup) -> bool {
    &&& group.workspace == wi
    &&& group.tabs@.len() == strip_tab_list(snap, wi).len()
    &&& forall|k: int| 0 <= k < group.tabs@.len() ==> #[trigger] strip_entry_ok(snap, wi, k, group.tabs@[k])
}

/// Tab indices of a workspace's list are tabs of the snapshot.
proof fn lemma_ws_tab_indices(tabs: Seq<ClientShellTab>, ws_id: Seq<char>, n: int)
    requires
        0 <= n <= tabs.len(),
    ensures
        forall|k: int| 0 <= k < ws_tab_indices(tabs, ws_id, n).len() ==> #[trigger] ws_tab_indices(tabs, ws_id, n)[k] < n,
        ws_tab_indices(tabs, ws_id, n).len() <= n,
    decreases n,
{
    if n > 0 {
        lemma_ws_tab_indices(tabs, ws_id, n - 1);
    }
}

/// Pane indices of a tab's list are panes of the snapshot.
proof fn lemma_tab_pane_indices(panes: Seq<ClientShellPane>, tab_id: Seq<char>, n: int)
    requires
        0 <= n <= panes.len(),
    ensures
        forall|k: int| 0 <= k < tab_pane_indices(panes, tab_id, n).len() ==> #[trigger] tab_pane_indices(panes, tab_id, n)[k] < n,
        tab_pane_indices(panes, tab_id, n).len() <= n,
    decreases n,
{
    if n > 0 {
        lemma_tab_pane_indices(panes, tab_id, n - 1);
    }
}

/// Whether one of the first `limit` entries shows a tab with id `id`.
fn entries_show_tab(entries: &Vec<TabStripEntry>, limit: usize, snapshot: &ClientShellSnapshot, id: &String) -> (r: bool)
    requires
        limit <= entries.len(),
        forall|j: int| 0 <= j < limit ==> #[trigger] entries@[j].tab < snapshot.tabs.len(),
    ensures
        r == exists|j: int| 0 <= j < limit && #[trigger] snapshot.tabs@[entries@[j].tab as int].tab_id@ == id@,
{
    let mut j: usize = 0;
    while j < limit
        invariant
            j <= limit <= entries.len(),
            forall|i: int| 0 <= i < limit ==> #[trigger] entries@[i].tab < snapshot.tabs.len(),
            forall|i: int| 0 <= i < j ==> !(#[trigger] snapshot.tabs@[entries@[i].tab as int].tab_id@ == id@),
        decreases limit - j,
    {
        if snapshot.tabs[entries[j].tab].tab_id == *id {
            return true;
        }
        j = j + 1;
    }
    false
}

/// One box per workspace: its tabs in snapshot order, each with the panes of
/// its tab.
pub fn build_strip_groups(snapshot: &ClientShellSnapshot) -> (groups: Vec<TabStripGroup>)
    ensures
        groups@.len() == snapshot.workspaces@.len(),
        forall|wi: int| 0 <= wi < groups@.len() ==> #[trigger] strip_group_ok(*snapshot, wi, groups@[wi]),
        forall|wi: int| 0 <= wi < groups@.len() ==> #[trigger] group_wf(*snapshot, groups@[wi]),
{
    let ghost snap = *snapshot;
    let mut groups: Vec<TabStripGroup> = Vec::new();
    let mut wi: usize = 0;
    while wi < snapshot.workspaces.len()
        invariant
            snap == *snapshot,
            wi <= snapshot.workspaces.len(),
            groups@.len() == wi,
            forall|w: int| 0 <= w < wi ==> #[trigger] strip_group_ok(snap, w, groups@[w]),
            forall|w: int| 0 <= w < wi ==> #[trigger] group_wf(snap, groups@[w]),
        decreases snapshot.workspaces.len() - wi,
    {
        let workspace = &snapshot.workspaces[wi];
        let ghost list = strip_tab_list(snap, wi as int);
        proof {
            lemma_ws_tab_indices(snap.tabs@, workspace.workspace_id@, snap.tabs@.len() as int);
        }
        let mut tabs: Vec<TabStripEntry> = Vec::new();
        let mut ti: usize = 0;
        while ti < snapshot.tabs.len()
            invariant
                snap == *snapshot,
                wi < snapshot.workspaces.len(),
                groups@.len() == wi,
                forall|w: int| 0 <= w < wi ==> #[trigger] strip_group_ok(snap, w, groups@[w]),
                forall|w: int| 0 <= w < wi ==> #[trigger] group_wf(snap, groups@[w]),
                list == strip_tab_list(snap, wi as int),
                *workspace == snap.workspaces@[wi as int],
                ti <= snapshot.tabs.len(),
                tabs@.len() == ws_tab_indices(snap.tabs@, workspace.workspace_id@, ti as int).len(),
                forall|k: int| 0 <= k < tabs@.len() ==> #[trigger] tabs@[k].tab
                    == ws_tab_indices(snap.tabs@, workspace.workspace_id@, ti as int)[k],
                forall|k: int| 0 <= k < tabs@.len() ==> #[trigger] strip_entry_ok(snap, wi as int, k, tabs@[k]),
                forall|k: int| 0 <= k < tabs@.len() ==> #[trigger] entry_wf(snap, tabs@[k]),
            decreases snapshot.tabs.len() - ti,
        {
            proof {
                lemma_ws_tab_indices(snap.tabs@, workspace.workspace_id@, ti + 1);
                lemma_ws_tab_indices(snap.tabs@, workspace.workspace_id@, snap.tabs@.len() as int);
                lemma_ws_tab_indices_prefix(snap.tabs@, workspace.workspace_id@, ti + 1, snap.tabs@.len() as int);
            }
            let tab = &snapshot.tabs[ti];
            if tab.workspace_id == workspace.workspace_id {
                let k = tabs.len();
                let ghost next = ws_tab_indices(snap.tabs@, workspace.workspace_id@, ti + 1);
                assert(next == ws_tab_indices(snap.tabs@, workspace.workspace_id@, ti as int).push(ti));
                assert(next[k as int] == ti);
                assert(workspace.workspace_id@ == snap.workspaces@[wi as int].workspace_id@);
                assert(ws_tab_indices(snap.tabs@, workspace.workspace_id@, snap.tabs@.len() as int)[k as int] == next[k as int]);
                assert(list[k as int] == ti);
                let mut earlier = false;
                let mut w: usize = 0;
                while w < wi
                    invariant
                        snap == *snapshot,
                        w <= wi < snapshot.workspaces.len(),
                        groups@.len() == wi,
                        forall|v: int| 0 <= v < wi ==> #[trigger] strip_group_ok(snap, v, groups@[v]),
                        forall|v: int| 0 <= v < wi ==> #[trigger] group_wf(snap, groups@[v]),
                        earlier == exists|v: int| 0 <= v < w
                            && #[trigger] listed_in(snap, v, strip_tab_list(snap, v).len() as int, tab.tab_id@),
                    decreases wi - w,
                {
                    let g = &groups[w];
                    assert(strip_group_ok(snap, w as int, *g));
                    assert(group_wf(snap, *g));
                    assert forall|j: int| 0 <= j < g.tabs@.len() implies #[trigger] g.tabs@[j].tab < snapshot.tabs.len() by {
                        assert(entry_wf(snap, g.tabs@[j]));
                    }
                    let found = entries_show_tab(&g.tabs, g.tabs.len(), snapshot, &tab.tab_id);
                    proof {
                        let lw = strip_tab_list(snap, w as int);
                        if found {
                            let j = choose|j: int| 0 <= j < g.tabs@.len()
                                && #[trigger] snapshot.tabs@[g.tabs@[j].tab as int].tab_id@ == tab.tab_id@;
                            assert(strip_entry_ok(snap, w as int, j, g.tabs@[j]));
                            assert(snap.tabs@[lw[j] as int].tab_id@ == tab.tab_id@);
                            assert(listed_in(snap, w as int, lw.len() as int, tab.tab_id@));
                        } else {
                            if listed_in(snap, w as int, lw.len() as int, tab.tab_id@) {
                                let j = choose|j: int| 0 <= j < lw.len() && #[trigger] snap.tabs@[lw[j] as int].tab_id@ == tab.tab_id@;
                                assert(strip_entry_ok(snap, w as int, j, g.tabs@[j]));
                                assert(snapshot.tabs@[g.tabs@[j].tab as int].tab_id@ == tab.tab_id@);
                            }
                        }
                    }
                    earlier = earlier || found;
                    w = w + 1;
                }
                assert forall|j: int| 0 <= j < k implies #[trigger] tabs@[j].tab < snapshot.tabs.len() by {
                    assert(entry_wf(snap, tabs@[j]));
                }
                let here = entries_show_tab(&tabs, k, snapshot, &tab.tab_id);
                proof {
                    if here {
                        let j = choose|j: int| 0 <= j < k && #[trigger] snapshot.tabs@[tabs@[j].tab as int].tab_id@ == tab.tab_id@;
                        assert(strip_entry_ok(snap, wi as int, j, tabs@[j]));
                        assert(listed_in(snap, wi as int, k as int, tab.tab_id@));
                    } else if listed_in(snap, wi as int, k as int, tab.tab_id@) {
                        let j = choose|j: int| 0 <= j < k && #[trigger] snap.tabs@[list[j] as int].tab_id@ == tab.tab_id@;
                        assert(strip_entry_ok(snap, wi as int, j, tabs@[j]));
                    }
                    assert(listed_earlier(snap, wi as int, k as int) == (earlier || here));
                }
                let mut panes: Vec<usize> = Vec::new();
                if !(earlier || here) {
                    let mut p: usize = 0;
                    while p < snapshot.panes.len()
                        invariant
                            p <= snapshot.panes.len(),
                            panes@ == tab_pane_indices(snapshot.panes@, tab.tab_id@, p as int),
                        decreases snapshot.panes.len() - p,
                    {
                        if snapshot.panes[p].tab_id == tab.tab_id {
                            panes.push(p);
                        }
                        p = p + 1;
                    }
                }
                proof {
                    lemma_tab_pane_indices(snap.panes@, tab.tab_id@, snap.panes@.len() as int);
                }
                let entry = TabStripEntry { tab: ti, workspace: wi, panes };
                assert(strip_entry_ok(snap, wi as int, k as int, entry));
                assert(entry_wf(snap, entry));
                tabs.push(entry);
            }
            ti = ti + 1;
        }
        proof {
            assert forall|k: int| 0 <= k < tabs@.len() implies #[trigger] entry_wf(snap, tabs@[k]) by {}
        }
        let group = TabStripGroup { workspace: wi, tabs };
        assert(strip_group_ok(snap, wi as int, group));
        assert(group_wf(snap, group));
        groups.push(group);
        wi = wi + 1;
    }
    groups
}

/// The list of tabs up to `n` is a prefix of the full list.
proof fn lemma_ws_tab_indices_prefix(tabs: Seq<ClientShellTab>, ws_id: Seq<char>, n: int, m: int)
    requires
        0 <= n <= m <= tabs.len(),
    ensures
        ws_tab_indices(tabs, ws_id, n).len() <= ws_tab_indices(tabs, ws_id, m).len(),
        forall|k: int| 0 <= k < ws_tab_indices(tabs, ws_id, n).len()
            ==> #[trigger] ws_tab_indices(tabs, ws_id, m)[k] == ws_tab_indices(tabs, ws_id, n)[k],
    decreases m - n,
{
    if n < m {
        lemma_ws_tab_indices_prefix(tabs, ws_id, n, m - 1);
    }
}


/// The height a group asks for, saturated to `u16`.
pub open spec fn group_row_height(group: TabStripGroup, compact: bool) -> int {
    if group_height(group.tabs@, compact) > u16::MAX { u16::MAX as int } else { group_height(group.tabs@, compact) }
}

/// A group needs at least its two borders.
pub proof fn lemma_group_height_min(tabs: Seq<TabStripEntry>, compact: bool)
    ensures
        group_height(tabs, compact) >= 2,
    decreases tabs.len(),
{
    if tabs.len() > 0 {
        lemma_group_height_min(tabs.drop_last(), compact);
    }
}

/// The heights the groups ask for, in order.
pub fn strip_row_heights(groups: &Vec<TabStripGroup>, compact: bool) -> (heights: Vec<u16>)
    requires
        forall|i: int| 0 <= i < groups@.len() ==> group_height(#[trigger] groups@[i].tabs@, compact) <= u16::MAX + 2,
    ensures
        heights@.len() == groups@.len(),
        forall|i: int| 0 <= i < groups@.len() ==> heights@[i] as int == group_row_height(#[trigger] groups@[i], compact),
        forall|i: int| 0 <= i < groups@.len() ==> #[trigger] heights@[i] >= 2,
{
    let mut heights: Vec<u16> = Vec::new();
    let mut i: usize = 0;
    while i < groups.len()
        invariant
            i <= groups.len(),
            forall|j: int| 0 <= j < groups@.len() ==> group_height(#[trigger] groups@[j].tabs@, compact) <= u16::MAX + 2,
            heights@.len() == i,
            forall|j: int| 0 <= j < i ==> heights@[j] as int == group_row_height(#[trigger] groups@[j], compact),
            forall|j: int| 0 <= j < i ==> #[trigger] heights@[j] >= 2,
        decreases groups.len() - i,
    {
        proof {
            lemma_group_height_min(groups@[i as int].tabs@, compact);
        }
        heights.push(groups[i].height(compact));
        i = i + 1;
    }
    heights
}

/// Some tab of the group is the focused tab.
pub open spec fn group_has_focus(snap: ClientShellSnapshot, group: TabStripGroup) -> bool {
    exists|e: int| 0 <= e < group.tabs@.len() && #[trigger] snap.tabs@[group.tabs@[e].tab as int].focused
}

/// The first group holding the focused tab.
pub open spec fn is_first_focused_group(snap: ClientShellSnapshot, groups: Seq<TabStripGroup>, f: int) -> bool {
    &&& 0 <= f < groups.len()
    &&& group_has_focus(snap, groups[f])
    &&& forall|g: int| 0 <= g < f ==> !#[trigger] group_has_focus(snap, groups[g])
}

/// The strip's scroll after a frame: back to the top when nothing overflows;
/// when asked to reveal the focused tab, the smallest scroll showing its
/// group whole (no further than the maximum); otherwise the old scroll,
/// clamped.
pub open spec fn next_strip_scroll(
    snap: ClientShellSnapshot,
    groups: Seq<TabStripGroup>,
    heights: Seq<u16>,
    available: int,
    current: int,
    reveal: bool,
) -> int {
    let max = full_max_scroll(heights, 0, available);
    if !run_overflows(heights, 0, available) {
        0
    } else if reveal {
        if exists|f: int| is_first_focused_group(snap, groups, f) {
            let f = choose|f: int| is_first_focused_group(snap, groups, f);
            let r = reveal_scroll(heights, current, f, available);
            if r < max { r } else { max }
        } else {
            current
        }
    } else {
        if current < max { current } else { max }
    }
}

/// How the strip scrolls, group by group: never above the top; back to the
/// top when every group fits; kept, clamped to the largest scroll, when the
/// strip overflows and nothing is to be revealed; and, when revealing, never
/// past the first group holding the focused tab.
pub proof fn law_strip_scroll_rule(
    snap: ClientShellSnapshot,
    groups: Seq<TabStripGroup>,
    heights: Seq<u16>,
    available: int,
    current: int,
    reveal: bool,
)
    requires
        0 <= current,
        0 <= available,
    ensures
        ({
            let s = next_strip_scroll(snap, groups, heights, available, current, reveal);
            let m = full_max_scroll(heights, 0, available);
            &&& 0 <= s
            &&& span(heights, 0, 0, heights.len() as int) <= available ==> s == 0
            &&& run_overflows(heights, 0, available) && !reveal ==> s == (if current < m { current } else { m })
            &&& reveal ==> forall|f: int| #[trigger] is_first_focused_group(snap, groups, f) ==> s <= f
        }),
{
    let n = heights.len() as int;
    lemma_next_strip_scroll_nonneg(snap, groups, heights, available, current, reveal);
    if n > 0 && span(heights, 0, 0, n) <= available {
        assert(span(heights, 0, 0, n) == span(heights, 0, 0, n - 1) + heights[n - 1]);
        lemma_span_nonneg(heights, 0, 0, n - 1);
    }
    if reveal {
        assert forall|f: int| #[trigger] is_first_focused_group(snap, groups, f) implies
            next_strip_scroll(snap, groups, heights, available, current, reveal) <= f by {
            let g = choose|g: int| is_first_focused_group(snap, groups, g);
            if g < f {
                assert(group_has_focus(snap, groups[g]));
            } else if f < g {
                assert(group_has_focus(snap, groups[f]));
            }
            crate::scroll::lemma_reveal_scroll_exists(heights, current, f, available);
        }
    }
}

/// The strip never settles on a negative scroll.
pub proof fn lemma_next_strip_scroll_nonneg(
    snap: ClientShellSnapshot,
    groups: Seq<TabStripGroup>,
    heights: Seq<u16>,
    available: int,
    current: int,
    reveal: bool,
)
    requires
        0 <= current,
        0 <= available,
    ensures
        0 <= next_strip_scroll(snap, groups, heights, available, current, reveal),
{
    crate::scroll::lemma_full_max_scroll_exists(heights, 0, available);
    if exists|f: int| is_first_focused_group(snap, groups, f) {
        let f = choose|f: int| is_first_focused_group(snap, groups, f);
        crate::scroll::lemma_reveal_scroll_exists(heights, current, f, available);
    }
}

/// A group that begins inside the visible height is among the groups drawn.
pub proof fn lemma_drawn_groups_cover(heights: Seq<u16>, scroll: int, available: int, f: int)
    requires
        0 <= scroll <= f < heights.len(),
        0 < available,
        span(heights, 0, scroll, f) < available,
    ensures
        f < scroll + drawn_groups(heights, scroll, available),
{
    crate::scroll::lemma_last_visible_exists(heights, 0, scroll, available);
    let l = choose|l: int| is_last_visible(heights, 0, scroll, available, l);
    lemma_last_visible_bound(heights, 0, scroll, available, l, f);
}

/// When the strip reveals and the first group holding the focused tab fits
/// its height, the scroll it settles on shows that group whole, and the group
/// is among those drawn.
pub proof fn lemma_next_strip_scroll_reveals(
    snap: ClientShellSnapshot,
    groups: Seq<TabStripGroup>,
    heights: Seq<u16>,
    available: int,
    current: int,
    f: int,
)
    requires
        0 <= current,
        0 < available,
        heights.len() == groups.len(),
        is_first_focused_group(snap, groups, f),
        0 < heights[f] <= available,
    ensures
        ({
            let s = next_strip_scroll(snap, groups, heights, available, current, true);
            &&& 0 <= s <= f
            &&& span(heights, 0, s, f + 1) <= available
            &&& f < s + drawn_groups(heights, s, available)
        }),
{
    let n = heights.len() as int;
    let g = choose|g: int| is_first_focused_group(snap, groups, g);
    if g < f {
        assert(group_has_focus(snap, groups[g]));
    } else if f < g {
        assert(group_has_focus(snap, groups[f]));
    }
    let s = next_strip_scroll(snap, groups, heights, available, current, true);
    if !run_overflows(heights, 0, available) {
        if heights[n - 1] <= available {
            lemma_span_grows(heights, 0, 0, f + 1, n);
        } else {
            lemma_span_grows(heights, 0, 0, f + 1, n - 1);
        }
    } else {
        crate::scroll::lemma_full_max_scroll_exists(heights, 0, available);
        crate::scroll::lemma_reveal_scroll_exists(heights, current, f, available);
        let r = reveal_scroll(heights, current, f, available);
        let m = full_max_scroll(heights, 0, available);
        crate::scroll::law_strip_reveal_keeps_focused_visible(heights, current, f, available, r, m);
    }
    assert(span(heights, 0, s, f + 1) == span(heights, 0, s, f) + heights[f]);
    lemma_drawn_groups_cover(heights, s, available, f);
}

/// The first group holding the focused tab, if any.
fn first_focused_group(snapshot: &ClientShellSnapshot, groups: &Vec<TabStripGroup>) -> (r: Option<usize>)
    requires
        forall|i: int| 0 <= i < groups@.len() ==> #[trigger] group_wf(*snapshot, groups@[i]),
    ensures
        match r {
            Some(f) => is_first_focused_group(*snapshot, groups@, f as int),
            None => !exists|f: int| is_first_focused_group(*snapshot, groups@, f),
        },
{
    let mut g: usize = 0;
    while g < groups.len()
        invariant
            g <= groups.len(),
            forall|i: int| 0 <= i < groups@.len() ==> #[trigger] group_wf(*snapshot, groups@[i]),
            forall|h: int| 0 <= h < g ==> !#[trigger] group_has_focus(*snapshot, groups@[h]),
        decreases groups.len() - g,
    {
        let group = &groups[g];
        assert(group_wf(*snapshot, *group));
        let mut e: usize = 0;
        let mut found = false;
        while e < group.tabs.len()
            invariant
                e <= group.tabs.len(),
                group_wf(*snapshot, *group),
                found == exists|k: int| 0 <= k < e && #[trigger] snapshot.tabs@[group.tabs@[k].tab as int].focused,
            decreases group.tabs.len() - e,
        {
            assert(entry_wf(*snapshot, group.tabs@[e as int]));
            if snapshot.tabs[group.tabs[e].tab].focused {
                found = true;
            }
            e = e + 1;
        }
        if found {
            return Some(g);
        }
        g = g + 1;
    }
    None
}

/// Settle the strip's scroll for this frame (see `next_strip_scroll`) and
/// clear the request to reveal the focused tab.
pub fn update_strip_scroll(
    state: &mut ShellRenderState,
    snapshot: &ClientShellSnapshot,
    groups: &Vec<TabStripGroup>,
    heights: &Vec<u16>,
    available: u16,
)
    requires
        forall|i: int| 0 <= i < groups@.len() ==> #[trigger] group_wf(*snapshot, groups@[i]),
    ensures
        final(state).tab_scroll as int == next_strip_scroll(*snapshot, groups@, heights@, available as int,
            old(state).tab_scroll as int, old(state).reveal_focused_tab),
        !final(state).reveal_focused_tab,
        final(state).tab_drag_insert_index == old(state).tab_drag_insert_index,
{
    let max = max_tab_strip_scroll(heights.as_slice(), available);
    proof {
        let m = full_max_scroll(heights@, 0, available as int);
        lemma_full_max_scroll_unique(heights@, 0, available as int, m, max as int);
    }
    if !overflow_tab_strip(heights.as_slice(), available) {
        state.tab_scroll = 0;
    } else if state.reveal_focused_tab {
        match first_focused_group(snapshot, groups) {
            Some(focused) => {
                let r = strip_scroll_revealing(state.tab_scroll, focused, heights.as_slice(), available);
                proof {
                    let f = choose|f: int| is_first_focused_group(*snapshot, groups@, f);
                    if f < focused {
                        assert(group_has_focus(*snapshot, groups@[f]));
                    } else if focused < f {
                        assert(group_has_focus(*snapshot, groups@[focused as int]));
                    }
                    let q = reveal_scroll(heights@, old(state).tab_scroll as int, focused as int, available as int);
                    lemma_reveal_scroll_unique(heights@, old(state).tab_scroll as int, focused as int, available as int, q, r as int);
                }
                state.tab_scroll = if r < max { r } else { max };
            },
            None => {},
        }
    } else {
        state.tab_scroll = if state.tab_scroll < max { state.tab_scroll } else { max };
    }
    state.reveal_focused_tab = false;
}


/// Where group `i` lands when the strip is scrolled to `scroll`: stacked flush
/// below the groups before it, clipped at the bottom of `content`.
pub open spec fn placed_group_rect(content: Rect, heights: Seq<u16>, scroll: int, i: int) -> Rect {
    let y = content.y + span(heights, 0, scroll, i);
    rect(content.x, y as u16, content.width, min_int(heights[i] as int, content.bottom_edge() - y) as u16)
}

/// Rows the strip's groups can use.
pub open spec fn strip_rows_available(content: Rect) -> int {
    content.bottom_edge() - content.y
}

/// Groups stack flush: when a group begins inside the strip, the group
/// before it is drawn whole and it starts on the row just below that one.
pub proof fn law_groups_stack_flush(content: Rect, heights: Seq<u16>, scroll: int, i: int)
    requires
        0 <= scroll <= i,
        i + 1 < heights.len(),
        span(heights, 0, scroll, i + 1) < strip_rows_available(content),
    ensures
        placed_group_rect(content, heights, scroll, i).height == heights[i],
        placed_group_rect(content, heights, scroll, i + 1).y
            == placed_group_rect(content, heights, scroll, i).y + placed_group_rect(content, heights, scroll, i).height,
{
    lemma_span_nonneg(heights, 0, scroll, i);
    assert(span(heights, 0, scroll, i + 1) == span(heights, 0, scroll, i) + heights[i]);
}

/// How many groups are drawn from `scroll` on.
pub open spec fn drawn_groups(heights: Seq<u16>, scroll: int, available: int) -> int {
    if scroll >= heights.len() || available <= 0 {
        0
    } else {
        (choose|l: int| is_last_visible(heights, 0, scroll, available, l)) - scroll + 1
    }
}

/// What the first `n` drawn groups draw.
pub open spec fn groups_draws(
    snap: ClientShellSnapshot,
    config: ClientShellConfig,
    content: Rect,
    groups: Seq<TabStripGroup>,
    heights: Seq<u16>,
    scroll: int,
    n: int,
) -> Seq<Draw>
    decreases n,
{
    if n <= 0 {
        Seq::empty()
    } else {
        groups_draws(snap, config, content, groups, heights, scroll, n - 1)
            + group_draws(snap, config, placed_group_rect(content, heights, scroll, scroll + n - 1), groups[scroll + n - 1])
    }
}

/// Tab hit regions of the first `n` drawn groups.
pub open spec fn groups_tab_hits(
    snap: ClientShellSnapshot,
    compact: bool,
    content: Rect,
    groups: Seq<TabStripGroup>,
    heights: Seq<u16>,
    scroll: int,
    n: int,
) -> Seq<(Rect, Seq<char>)>
    decreases n,
{
    if n <= 0 {
        Seq::empty()
    } else {
        groups_tab_hits(snap, compact, content, groups, heights, scroll, n - 1)
            + group_tab_hits(snap, compact, placed_group_rect(content, heights, scroll, scroll + n - 1), groups[scroll + n - 1])
    }
}

/// Pane hit regions of the first `n` drawn groups.
pub open spec fn groups_agent_hits(
    snap: ClientShellSnapshot,
    compact: bool,
    content: Rect,
    groups: Seq<TabStripGroup>,
    heights: Seq<u16>,
    scroll: int,
    n: int,
) -> Seq<(Rect, Seq<char>)>
    decreases n,
{
    if n <= 0 {
        Seq::empty()
    } else {
        groups_agent_hits(snap, compact, content, groups, heights, scroll, n - 1)
            + group_agent_hits(snap, compact, placed_group_rect(content, heights, scroll, scroll + n - 1), groups[scroll + n - 1])
    }
}

/// Every group that gets drawn can be drawn without arithmetic overflow.
pub open spec fn groups_ok(
    snap: ClientShellSnapshot,
    config: ClientShellConfig,
    content: Rect,
    groups: Seq<TabStripGroup>,
    heights: Seq<u16>,
    scroll: int,
) -> bool {
    forall|i: int|
        scroll <= i < scroll + drawn_groups(heights, scroll, strip_rows_available(content))
            ==> #[trigger] group_ok(snap, config, placed_group_rect(content, heights, scroll, i), groups[i])
}

/// The geometry of every drawn group fits `u16`.
pub open spec fn groups_geom_ok(
    snap: ClientShellSnapshot,
    compact: bool,
    content: Rect,
    groups: Seq<TabStripGroup>,
    heights: Seq<u16>,
    scroll: int,
) -> bool {
    forall|i: int|
        scroll <= i < scroll + drawn_groups(heights, scroll, strip_rows_available(content))
            ==> #[trigger] group_geom_ok(snap, compact, placed_group_rect(content, heights, scroll, i), groups[i])
}

/// The widths the shown rows of a group in `r` measure fit.
pub open spec fn group_texts_ok(snap: ClientShellSnapshot, config: ClientShellConfig, r: Rect, group: TabStripGroup) -> bool {
    let rows = group_rows(snap, group.tabs@, group.tabs@.len() as int, config.vertical_tabs_compact);
    forall|i: int| 0 <= i < group_shown(snap, config.vertical_tabs_compact, r, group)
        ==> #[trigger] row_texts_ok(snap, config, group, rows[i])
}

/// A group whose geometry and measured widths fit can be drawn.
pub proof fn lemma_group_ok_parts(snap: ClientShellSnapshot, config: ClientShellConfig, r: Rect, group: TabStripGroup)
    requires
        group_geom_ok(snap, config.vertical_tabs_compact, r, group),
        group_texts_ok(snap, config, r, group),
    ensures
        group_ok(snap, config, r, group),
{
    let compact = config.vertical_tabs_compact;
    let inner = box_inner(r);
    let rows = group_rows(snap, group.tabs@, group.tabs@.len() as int, compact);
    assert forall|i: int| 0 <= i < group_shown(snap, compact, r, group)
        implies #[trigger] row_ok(snap, config, inner, group, rows[i], (inner.y + i) as u16) by {
        assert(row_geom_ok(snap, compact, inner, group, rows[i], (inner.y + i) as u16));
        assert(row_texts_ok(snap, config, group, rows[i]));
    }
}

/// Whether the badge of an entry's primary pane leaves room beside it.
fn primary_badge_fits(snapshot: &ClientShellSnapshot, config: &ClientShellConfig, entry: &TabStripEntry) -> (r: bool)
    requires
        entry_wf(*snapshot, *entry),
    ensures
        r == badge_fits_u16(primary_badge(*snapshot, *entry), config.status_indicators),
{
    match entry.primary_pane(snapshot) {
        Some(p) => {
            let badge = entry.pane_badge(snapshot, p);
            badge_fits_check(&badge, config.status_indicators)
        },
        None => true,
    }
}

/// Whether the widths a row measures fit (see `row_texts_ok`).
fn row_texts_check(snapshot: &ClientShellSnapshot, config: &ClientShellConfig, group: &TabStripGroup, line: StripLine)
    -> (r: bool)
    requires
        group_wf(*snapshot, *group),
        line_wf(*snapshot, *group, line),
    ensures
        r == row_texts_ok(*snapshot, *config, *group, line),
{
    let entry = &group.tabs[line.entry];
    assert(entry_wf(*snapshot, *entry));
    match line.kind {
        LineKind::Title => {
            if config.vertical_tabs_compact {
                primary_badge_fits(snapshot, config, entry)
            } else {
                let label = string_chars(snapshot.workspaces[entry.workspace].label.as_str());
                let width = display_width(label.as_slice());
                width == 0 || width <= u16::MAX - 5
            }
        },
        LineKind::Details => primary_badge_fits(snapshot, config, entry),
        LineKind::Pane(p) => {
            let badge = entry.pane_badge(snapshot, p);
            badge_fits_check(&badge, config.status_indicators)
        },
    }
}

/// Whether a group's height fits the arithmetic (see `TabStripGroup::height`).
pub fn group_height_check(group: &TabStripGroup, compact: bool) -> (ok: bool)
    ensures
        ok == (group_height(group.tabs@, compact) <= u16::MAX + 2),
{
    let mut sum: u32 = 0;
    let mut i: usize = 0;
    assert(group.tabs@.subrange(0, 0).len() == 0);
    while i < group.tabs.len()
        invariant
            i <= group.tabs@.len(),
            sum <= u16::MAX,
            sum as int + 2 == group_height(group.tabs@.subrange(0, i as int), compact),
        decreases group.tabs.len() - i,
    {
        proof {
            let pre = group.tabs@.subrange(0, i + 1);
            assert(pre.drop_last() =~= group.tabs@.subrange(0, i as int));
        }
        sum = sum + group.tabs[i].line_count(compact) as u32;
        i = i + 1;
        if sum > u16::MAX as u32 {
            proof {
                lemma_group_height_prefix(group.tabs@, i as int, compact);
            }
            return false;
        }
    }
    assert(group.tabs@.subrange(0, i as int) =~= group.tabs@);
    true
}

/// Whether a row's geometry fits (see `row_geom_ok`).
fn row_geom_check(snapshot: &ClientShellSnapshot, compact: bool, inner: Ghost<Rect>, group: &TabStripGroup, line: StripLine,
    y: u16) -> (r: bool)
    requires
        group_wf(*snapshot, *group),
        line_wf(*snapshot, *group, line),
    ensures
        r == row_geom_ok(*snapshot, compact, inner@, *group, line, y),
{
    let entry = &group.tabs[line.entry];
    assert(entry_wf(*snapshot, *entry));
    match line.kind {
        LineKind::Title => {
            if snapshot.tabs[entry.tab].focused {
                y as u32 + entry.line_count(compact) as u32 <= u16::MAX as u32
            } else {
                true
            }
        },
        _ => true,
    }
}

/// Whether a group's geometry in `r` fits (see `group_geom_ok`).
pub fn group_geom_check(snapshot: &ClientShellSnapshot, compact: bool, r: Rect, group: &TabStripGroup) -> (ok: bool)
    requires
        group_wf(*snapshot, *group),
    ensures
        ok == group_geom_ok(*snapshot, compact, r, *group),
{
    let ghost snap = *snapshot;
    if r.width >= 5 && r.height >= 3 && (r.x == u16::MAX || r.y == u16::MAX) {
        return false;
    }
    let inner = strip_box_inner(r);
    if inner.width == 0 || inner.height == 0 {
        return true;
    }
    let rows = group.rows(snapshot, compact);
    let room = inner.bottom() - inner.y;
    let shown: usize = if rows.len() < room as usize { rows.len() } else { room as usize };
    assert(shown as int == group_shown(snap, compact, r, *group));
    proof {
        lemma_group_rows_wf(snap, *group, group.tabs@.len() as int, compact);
    }
    let mut i: usize = 0;
    while i < shown
        invariant
            snap == *snapshot,
            group_wf(snap, *group),
            inner == box_inner(r),
            has_box(r) ==> r.x < u16::MAX && r.y < u16::MAX,
            rows@ == group_rows(snap, group.tabs@, group.tabs@.len() as int, compact),
            shown <= rows@.len(),
            shown as int == group_shown(snap, compact, r, *group),
            shown <= room,
            room as int == inner.bottom_edge() - inner.y,
            forall|k: int| 0 <= k < rows@.len() ==> #[trigger] line_wf(snap, *group, rows@[k]),
            i <= shown,
            forall|k: int| 0 <= k < i ==> #[trigger] row_geom_ok(snap, compact, inner, *group, rows@[k],
                (inner.y + k) as u16),
        decreases shown - i,
    {
        assert(line_wf(snap, *group, rows@[i as int]));
        let y = inner.y + i as u16;
        if !row_geom_check(snapshot, compact, Ghost(inner), group, rows[i], y) {
            return false;
        }
        i = i + 1;
    }
    true
}

/// Whether the widths the shown rows of a group in `r` measure fit (see
/// `group_texts_ok`).
pub fn group_texts_check(snapshot: &ClientShellSnapshot, config: &ClientShellConfig, r: Rect, group: &TabStripGroup)
    -> (ok: bool)
    requires
        group_wf(*snapshot, *group),
        has_box(r) ==> r.x < u16::MAX && r.y < u16::MAX,
    ensures
        ok == group_texts_ok(*snapshot, *config, r, *group),
{
    let ghost snap = *snapshot;
    let compact = config.vertical_tabs_compact;
    let inner = strip_box_inner(r);
    if inner.width == 0 || inner.height == 0 {
        return true;
    }
    let rows = group.rows(snapshot, compact);
    let room = inner.bottom() - inner.y;
    let shown: usize = if rows.len() < room as usize { rows.len() } else { room as usize };
    assert(shown as int == group_shown(snap, compact, r, *group));
    proof {
        lemma_group_rows_wf(snap, *group, group.tabs@.len() as int, compact);
    }
    let mut i: usize = 0;
    while i < shown
        invariant
            snap == *snapshot,
            group_wf(snap, *group),
            rows@ == group_rows(snap, group.tabs@, group.tabs@.len() as int, compact),
            compact == config.vertical_tabs_compact,
            shown <= rows@.len(),
            shown as int == group_shown(snap, compact, r, *group),
            forall|k: int| 0 <= k < rows@.len() ==> #[trigger] line_wf(snap, *group, rows@[k]),
            i <= shown,
            forall|k: int| 0 <= k < i ==> #[trigger] row_texts_ok(snap, *config, *group, rows@[k]),
        decreases shown - i,
    {
        assert(line_wf(snap, *group, rows@[i as int]));
        if !row_texts_check(snapshot, config, group, rows[i]) {
            return false;
        }
        i = i + 1;
    }
    true
}

/// The widths measured by every drawn group fit.
pub open spec fn groups_texts_ok(
    snap: ClientShellSnapshot,
    config: ClientShellConfig,
    content: Rect,
    groups: Seq<TabStripGroup>,
    heights: Seq<u16>,
    scroll: int,
) -> bool {
    forall|i: int|
        scroll <= i < scroll + drawn_groups(heights, scroll, strip_rows_available(content))
            ==> #[trigger] group_texts_ok(snap, config, placed_group_rect(content, heights, scroll, i), groups[i])
}

/// Groups whose geometry and measured widths fit can be drawn.
pub proof fn lemma_groups_ok_parts(
    snap: ClientShellSnapshot,
    config: ClientShellConfig,
    content: Rect,
    groups: Seq<TabStripGroup>,
    heights: Seq<u16>,
    scroll: int,
)
    requires
        groups_geom_ok(snap, config.vertical_tabs_compact, content, groups, heights, scroll),
        groups_texts_ok(snap, config, content, groups, heights, scroll),
    ensures
        groups_ok(snap, config, content, groups, heights, scroll),
{
    let n = drawn_groups(heights, scroll, strip_rows_available(content));
    assert forall|i: int| scroll <= i < scroll + n implies
        #[trigger] group_ok(snap, config, placed_group_rect(content, heights, scroll, i), groups[i]) by {
        let r = placed_group_rect(content, heights, scroll, i);
        assert(group_geom_ok(snap, config.vertical_tabs_compact, r, groups[i]));
        assert(group_texts_ok(snap, config, r, groups[i]));
        lemma_group_ok_parts(snap, config, r, groups[i]);
    }
}

/// Whether every group drawn from `scroll` can be drawn: its geometry and the
/// widths it measures fit (see `groups_geom_ok` and `groups_texts_ok`).
pub fn groups_fit_check(
    snapshot: &ClientShellSnapshot,
    config: &ClientShellConfig,
    content: Rect,
    groups: &Vec<TabStripGroup>,
    heights: &Vec<u16>,
    scroll: usize,
) -> (ok: bool)
    requires
        heights@.len() == groups@.len(),
        forall|i: int| 0 <= i < groups@.len() ==> #[trigger] group_wf(*snapshot, groups@[i]),
    ensures
        ok == (groups_geom_ok(*snapshot, config.vertical_tabs_compact, content, groups@, heights@, scroll as int)
            && groups_texts_ok(*snapshot, *config, content, groups@, heights@, scroll as int)),
{
    let ghost snap = *snapshot;
    let ghost hs = heights@;
    let ghost avail = strip_rows_available(content);
    let bottom = content.bottom();
    let expected = crate::scroll::last_visible_entry(scroll, heights.as_slice(), bottom - content.y);
    let last = match expected {
        Some(l) => l,
        None => {
            return true;
        },
    };
    proof {
        let c = choose|c: int| is_last_visible(hs, 0, scroll as int, avail, c);
        lemma_last_visible_unique(hs, 0, scroll as int, avail, c, last as int);
        assert(span(hs, 0, scroll as int, scroll as int) == 0);
    }
    let count = heights.len();
    let mut index: usize = scroll;
    let mut y: u32 = content.y as u32;
    while index <= last
        invariant
            count == hs.len(),
            snap == *snapshot,
            hs == heights@,
            avail == strip_rows_available(content),
            bottom as int == content.bottom_edge(),
            is_last_visible(hs, 0, scroll as int, avail, last as int),
            drawn_groups(hs, scroll as int, avail) == last - scroll + 1,
            last < hs.len(),
            heights@.len() == groups@.len(),
            forall|i: int| 0 <= i < groups@.len() ==> #[trigger] group_wf(snap, groups@[i]),
            scroll <= index <= last + 1,
            y as int == content.y + span(hs, 0, scroll as int, index as int),
            forall|i: int| scroll <= i < index ==>
                #[trigger] group_texts_ok(snap, *config, placed_group_rect(content, hs, scroll as int, i), groups@[i]),
            forall|i: int| scroll <= i < index ==> #[trigger] group_geom_ok(snap, config.vertical_tabs_compact,
                placed_group_rect(content, hs, scroll as int, i), groups@[i]),
        decreases last + 1 - index,
    {
        proof {
            lemma_last_visible_bound(hs, 0, scroll as int, avail, last as int, index as int);
        }
        let row_height = heights[index];
        let remaining = bottom - y as u16;
        let height = if row_height < remaining { row_height } else { remaining };
        let r = Rect::new(content.x, y as u16, content.width, height);
        assert(r == placed_group_rect(content, hs, scroll as int, index as int));
        assert(group_wf(snap, groups@[index as int]));
        if !group_geom_check(snapshot, config.vertical_tabs_compact, r, &groups[index]) {
            return false;
        }
        if !group_texts_check(snapshot, config, r, &groups[index]) {
            return false;
        }
        y = y + row_height as u32;
        index = index + 1;
    }
    true
}

/// Draw the groups from `scroll` on, stacked flush from the top of `content`,
/// until one is clipped or no rows are left. Returns the last one drawn.
#[verifier::rlimit(80)]
pub(crate) fn render_strip_groups(
    buffer: &mut Buffer,
    content: Rect,
    groups: &Vec<TabStripGroup>,
    heights: &Vec<u16>,
    scroll: usize,
    snapshot: &ClientShellSnapshot,
    config: &ClientShellConfig,
    hits: &mut ShellHitMap,
) -> (last: Option<usize>)
    requires
        heights@.len() == groups@.len(),
        forall|i: int| 0 <= i < groups@.len() ==> #[trigger] heights@[i] >= 2,
        forall|i: int| 0 <= i < groups@.len() ==> #[trigger] group_wf(*snapshot, groups@[i]),
        groups_ok(*snapshot, *config, content, groups@, heights@, scroll as int),
    ensures
        last_visible_contract(heights@, 0, scroll as int, strip_rows_available(content), last),
        drawn_groups(heights@, scroll as int, strip_rows_available(content)) == match last {
            Some(l) => l - scroll + 1,
            None => 0int,
        },
        final(buffer)@ == old(buffer)@ + groups_draws(*snapshot, *config, content, groups@, heights@, scroll as int,
            drawn_groups(heights@, scroll as int, strip_rows_available(content))),
        hit_views(final(hits).tabs@) == hit_views(old(hits).tabs@) + groups_tab_hits(*snapshot, config.vertical_tabs_compact,
            content, groups@, heights@, scroll as int, drawn_groups(heights@, scroll as int, strip_rows_available(content))),
        hit_views(final(hits).agents@) == hit_views(old(hits).agents@) + groups_agent_hits(*snapshot,
            config.vertical_tabs_compact, content, groups@, heights@, scroll as int,
            drawn_groups(heights@, scroll as int, strip_rows_available(content))),
        final(hits).new_tab == old(hits).new_tab,
        final(hits).tab_scroll_left == old(hits).tab_scroll_left,
        final(hits).tab_scroll_right == old(hits).tab_scroll_right,
        final(hits).sidebar_divider == old(hits).sidebar_divider,
{
    let ghost snap = *snapshot;
    let ghost hs = heights@;
    let ghost avail = strip_rows_available(content);
    let ghost compact = config.vertical_tabs_compact;
    let bottom = content.bottom();
    let expected = crate::scroll::last_visible_entry(scroll, heights.as_slice(), bottom - content.y);
    let ghost count: int = match expected {
        Some(l) => l - scroll + 1,
        None => 0,
    };
    proof {
        match expected {
            Some(l) => {
                let c = choose|c: int| is_last_visible(hs, 0, scroll as int, avail, c);
                lemma_last_visible_unique(hs, 0, scroll as int, avail, c, l as int);
            },
            None => {},
        }
        assert(count == drawn_groups(hs, scroll as int, avail));
    }
    let mut y: u16 = content.y;
    let mut last: Option<usize> = None;
    let mut index: usize = scroll;
    proof {
        assert(span(hs, 0, scroll as int, scroll as int) == 0);
    }
    while index < groups.len()
        invariant
            snap == *snapshot,
            hs == heights@,
            compact == config.vertical_tabs_compact,
            avail == strip_rows_available(content),
            bottom as int == content.bottom_edge(),
            last_visible_contract(hs, 0, scroll as int, avail, expected),
            count == drawn_groups(hs, scroll as int, avail),
            count == match expected { Some(l) => l - scroll + 1, None => 0int },
            heights@.len() == groups@.len(),
            forall|i: int| 0 <= i < groups@.len() ==> #[trigger] heights@[i] >= 2,
            forall|i: int| 0 <= i < groups@.len() ==> #[trigger] group_wf(snap, groups@[i]),
            groups_ok(snap, *config, content, groups@, hs, scroll as int),
            scroll <= index,
            y as int == content.y + span(hs, 0, scroll as int, index as int),
            y <= bottom,
            index == scroll ==> last is None,
            index > scroll ==> last == Some((index - 1) as usize),
            index - scroll <= count,
            buffer@ == old(buffer)@ + groups_draws(snap, *config, content, groups@, hs, scroll as int, index - scroll),
            hit_views(hits.tabs@) == hit_views(old(hits).tabs@)
                + groups_tab_hits(snap, compact, content, groups@, hs, scroll as int, index - scroll),
            hit_views(hits.agents@) == hit_views(old(hits).agents@)
                + groups_agent_hits(snap, compact, content, groups@, hs, scroll as int, index - scroll),
            hits.new_tab == old(hits).new_tab,
            hits.tab_scroll_left == old(hits).tab_scroll_left,
            hits.tab_scroll_right == old(hits).tab_scroll_right,
            hits.sidebar_divider == old(hits).sidebar_divider,
        decreases groups.len() - index,
    {
        let row_height = heights[index];
        let remaining = bottom - y;
        let height = if row_height < remaining { row_height } else { remaining };
        if height == 0 {
            proof {
                lemma_strip_stop(hs, scroll as int, avail, index as int, expected);
            }
            return last;
        }
        proof {
            lemma_strip_continue(hs, scroll as int, avail, index as int, expected);
            assert(group_ok(snap, *config, placed_group_rect(content, hs, scroll as int, index as int), groups@[index as int]));
        }
        let area = Rect::new(content.x, y, content.width, height);
        assert(area == placed_group_rect(content, hs, scroll as int, index as int));
        render_tab_strip_group(buffer, area, &groups[index], snapshot, config, hits);
        last = Some(index);
        y = y + height;
        if height < row_height {
            proof {
                assert(is_last_visible(hs, 0, scroll as int, avail, index as int));
                lemma_last_visible_unique(hs, 0, scroll as int, avail, expected->0 as int, index as int);
            }
            return last;
        }
        index = index + 1;
    }
    proof {
        if index > scroll {
            assert(is_last_visible(hs, 0, scroll as int, avail, index - 1));
            lemma_last_visible_unique(hs, 0, scroll as int, avail, expected->0 as int, index - 1);
        }
    }
    last
}

/// When no rows are left at group `index`, the groups drawn so far are all
/// the visible ones.
proof fn lemma_strip_stop(hs: Seq<u16>, scroll: int, avail: int, index: int, expected: Option<usize>)
    requires
        0 <= scroll <= index < hs.len(),
        hs.len() <= usize::MAX,
        avail >= 0,
        span(hs, 0, scroll, index) == avail,
        index > scroll ==> span(hs, 0, scroll, index - 1) < avail,
        last_visible_contract(hs, 0, scroll, avail, expected),
    ensures
        index == scroll ==> expected is None,
        index > scroll ==> expected == Some((index - 1) as usize),
{
    if index > scroll {
        lemma_span_nonneg(hs, 0, scroll, index - 1);
        assert(span(hs, 0, scroll, index) >= avail);
        assert(is_last_visible(hs, 0, scroll, avail, index - 1));
        lemma_last_visible_unique(hs, 0, scroll, avail, expected->0 as int, index - 1);
    } else {
        assert(span(hs, 0, scroll, scroll) == 0);
    }
}

/// When rows are left at group `index`, it is visible.
proof fn lemma_strip_continue(hs: Seq<u16>, scroll: int, avail: int, index: int, expected: Option<usize>)
    requires
        0 <= scroll <= index < hs.len(),
        span(hs, 0, scroll, index) < avail,
        last_visible_contract(hs, 0, scroll, avail, expected),
    ensures
        expected matches Some(l) && index <= l,
{
    lemma_span_nonneg(hs, 0, scroll, index);
    lemma_last_visible_bound(hs, 0, scroll, avail, expected->0 as int, index);
}

} // verus!

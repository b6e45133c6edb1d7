//! Text pieces of tab labels, strip rows and their truncation.
use vstd::prelude::*;
use crate::model::{ClientShellAgent, ClientShellPane, ClientShellTab};
use crate::width::{char_columns, char_width, display_columns, display_width, string_chars};

verus! {

/// The characters of an optional string.
pub open spec fn opt_chars(o: Option<String>) -> Option<Seq<char>> {
    match o {
        Some(s) => Some(s@),
        None => None,
    }
}

/// The characters of an optional string.
pub fn option_chars(o: &Option<String>) -> (r: Option<Vec<char>>)
    ensures
        match r {
            Some(v) => opt_chars(*o) == Some(v@),
            None => o.is_none(),
        },
{
    match o {
        Some(s) => Some(string_chars(s.as_str())),
        None => None,
    }
}

/// Columns a character advances text by (control characters take none).
pub open spec fn char_advance(c: char) -> int {
    match char_columns(c) {
        Some(w) => w as int,
        None => 0,
    }
}

/// Columns taken by the first `n` characters of `t`, character by character.
pub open spec fn prefix_columns(t: Seq<char>, n: int) -> int
    decreases n,
{
    if n <= 0 {
        0
    } else {
        prefix_columns(t, n - 1) + char_advance(t[n - 1])
    }
}

/// Prefix columns never shrink as the prefix grows.
pub proof fn lemma_prefix_columns_grow(t: Seq<char>, m: int, n: int)
    requires
        0 <= m <= n,
    ensures
        prefix_columns(t, m) <= prefix_columns(t, n),
    decreases n - m,
{
    if m < n {
        lemma_prefix_columns_grow(t, m, n - 1);
        assert(char_advance(t[n - 1]) >= 0);
    }
}

/// `n` is the length of the longest prefix of `t` that fits `budget` columns.
pub open spec fn is_kept_len(t: Seq<char>, budget: int, n: int) -> bool {
    &&& 0 <= n <= t.len()
    &&& prefix_columns(t, n) <= budget
    &&& (n == t.len() || prefix_columns(t, n + 1) > budget)
}

/// There is only one such length.
pub proof fn lemma_kept_len_unique(t: Seq<char>, budget: int, n1: int, n2: int)
    requires
        is_kept_len(t, budget, n1),
        is_kept_len(t, budget, n2),
    ensures
        n1 == n2,
{
    if n1 < n2 {
        lemma_prefix_columns_grow(t, n1 + 1, n2);
    } else if n2 < n1 {
        lemma_prefix_columns_grow(t, n2 + 1, n1);
    }
}

/// `text` cut to `max` display columns: unchanged when it fits, otherwise the
/// longest prefix that fits `max - 1` columns followed by an ellipsis.
pub open spec fn ellipsized(text: Seq<char>, max: int) -> Seq<char> {
    if display_columns(text) <= max {
        text
    } else {
        let budget = if max > 0 { max - 1 } else { 0 };
        let n = choose|n: int| is_kept_len(text, budget, n);
        text.subrange(0, n).push('…')
    }
}

/// Truncate to `max` display columns, replacing the tail with '…'.
pub fn ellipsize_tail(text: &[char], max: u16) -> (r: Vec<char>)
    ensures
        r@ == ellipsized(text@, max as int),
{
    if display_width(text) <= max {
        return vstd::slice::slice_to_vec(text);
    }
    let budget: usize = max.saturating_sub(1) as usize;
    let mut kept: Vec<char> = Vec::new();
    let mut used: usize = 0;
    let mut i: usize = 0;
    while i < text.len()
        invariant
            i <= text.len(),
            used as int == prefix_columns(text@, i as int),
            used <= budget,
            kept@ == text@.subrange(0, i as int),
        ensures
            i <= text.len(),
            used as int == prefix_columns(text@, i as int),
            used <= budget,
            kept@ == text@.subrange(0, i as int),
            i == text.len() || prefix_columns(text@, i + 1) > budget,
        decreases text.len() - i,
    {
        let width: usize = match char_width(text[i]) {
            Some(w) => w,
            None => 0,
        };
        if width > budget - used {
            break;
        }
        used = used + width;
        kept.push(text[i]);
        i = i + 1;
    }
    proof {
        let b = budget as int;
        assert(is_kept_len(text@, b, i as int));
        let n = choose|n: int| is_kept_len(text@, b, n);
        lemma_kept_len_unique(text@, b, n, i as int);
    }
    kept.push('…');
    kept
}

/// The character sequences of a list of texts.
pub open spec fn texts(v: Seq<Vec<char>>) -> Seq<Seq<char>> {
    Seq::new(v.len(), |i: int| v[i]@)
}

/// Segments joined by `sep`.
pub open spec fn joined(segs: Seq<Seq<char>>, sep: Seq<char>) -> Seq<char>
    decreases segs.len(),
{
    if segs.len() == 0 {
        Seq::empty()
    } else if segs.len() == 1 {
        segs[0]
    } else {
        joined(segs.drop_last(), sep) + sep + segs.last()
    }
}

/// The separator between strip row segments.
pub open spec fn bullet_sep() -> Seq<char> {
    seq![' ', '•', ' ']
}

/// The first `count` segments joined by " • ".
pub fn join_segments(segments: &[Vec<char>], count: usize) -> (r: Vec<char>)
    requires
        count <= segments.len(),
    ensures
        r@ == joined(texts(segments@).subrange(0, count as int), bullet_sep()),
{
    let ghost segs = texts(segments@);
    let mut out: Vec<char> = Vec::new();
    let mut i: usize = 0;
    while i < count
        invariant
            count <= segments.len(),
            segs == texts(segments@),
            i <= count,
            out@ == joined(segs.subrange(0, i as int), bullet_sep()),
        decreases count - i,
    {
        let ghost before = out@;
        if i > 0 {
            out.push(' ');
            out.push('•');
            out.push(' ');
        }
        let mut j: usize = 0;
        let seg = &segments[i];
        while j < seg.len()
            invariant
                j <= seg.len(),
                i > 0 ==> out@ == before + bullet_sep() + seg@.subrange(0, j as int),
                i == 0 ==> out@ == before + seg@.subrange(0, j as int),
            decreases seg.len() - j,
        {
            out.push(seg[j]);
            j = j + 1;
        }
        proof {
            let s2 = segs.subrange(0, i + 1);
            assert(s2.drop_last() =~= segs.subrange(0, i as int));
            assert(seg@.subrange(0, seg@.len() as int) =~= seg@);
            assert(segs[i as int] == seg@);
            if i == 0 {
                assert(before == Seq::<char>::empty());
            }
        }
        i = i + 1;
    }
    out
}

/// Details-row segments: the cwd leaf first, then the branch.
pub open spec fn detail_segs(leaf: Option<Seq<char>>, branch: Option<Seq<char>>) -> Seq<Seq<char>> {
    let first: Seq<Seq<char>> = match leaf {
        Some(l) => seq![l],
        None => Seq::empty(),
    };
    match branch {
        Some(b) => first.push(b),
        None => first,
    }
}

/// Details-row segments: cwd leaf first (the identity), branch second —
/// the rightmost drops first when the strip is narrow.
pub fn detail_segments(leaf: Option<&[char]>, branch: Option<&[char]>) -> (r: Vec<Vec<char>>)
    ensures
        texts(r@) == detail_segs(
            match leaf { Some(l) => Some(l@), None => None },
            match branch { Some(b) => Some(b@), None => None },
        ),
{
    let mut segments: Vec<Vec<char>> = Vec::new();
    if let Some(leaf) = leaf {
        segments.push(vstd::slice::slice_to_vec(leaf));
    }
    if let Some(branch) = branch {
        segments.push(vstd::slice::slice_to_vec(branch));
    }
    proof {
        assert(texts(segments@) =~= detail_segs(
            match leaf { Some(l) => Some(l@), None => None },
            match branch { Some(b) => Some(b@), None => None },
        ));
    }
    segments
}

/// A tab's label, with " Z" appended when one of its panes is zoomed.
pub open spec fn tab_label_text(tab: ClientShellTab) -> Seq<char> {
    if tab.zoomed {
        tab.label@ + seq![' ', 'Z']
    } else {
        tab.label@
    }
}

/// A tab's label, with " Z" appended when one of its panes is zoomed.
pub fn tab_label(tab: &ClientShellTab) -> (r: Vec<char>)
    ensures
        r@ == tab_label_text(*tab),
{
    let mut label = string_chars(tab.label.as_str());
    if tab.zoomed {
        label.push(' ');
        label.push('Z');
    }
    label
}

/// The name an agent badge shows: the first of display name, name, agent kind
/// and title that is set — unless that one is empty.
pub open spec fn agent_name_text(agent: ClientShellAgent) -> Option<Seq<char>> {
    let chosen = if agent.display_agent is Some {
        agent.display_agent
    } else if agent.name is Some {
        agent.name
    } else if agent.agent is Some {
        agent.agent
    } else {
        agent.title
    };
    match chosen {
        Some(s) => if s@.len() > 0 { Some(s@) } else { None },
        None => None,
    }
}

/// The name an agent badge shows.
pub fn strip_agent_name(agent: &ClientShellAgent) -> (r: Option<Vec<char>>)
    ensures
        match r {
            Some(v) => agent_name_text(*agent) == Some(v@),
            None => agent_name_text(*agent) is None,
        },
{
    let chosen = if agent.display_agent.is_some() {
        &agent.display_agent
    } else if agent.name.is_some() {
        &agent.name
    } else if agent.agent.is_some() {
        &agent.agent
    } else {
        &agent.title
    };
    match chosen {
        Some(s) => {
            let chars = string_chars(s.as_str());
            if chars.len() > 0 {
                Some(chars)
            } else {
                None
            }
        },
        None => None,
    }
}

/// Widest cwd leaf the strip shows.
pub const MAX_CWD_LEAF_WIDTH: u16 = 8;

/// `s` without its trailing slashes.
pub open spec fn trim_trailing_slashes(s: Seq<char>) -> Seq<char>
    decreases s.len(),
{
    if s.len() > 0 && s.last() == '/' {
        trim_trailing_slashes(s.drop_last())
    } else {
        s
    }
}

/// The part of `s` after its last slash (all of `s` when it has none).
pub open spec fn after_last_slash(s: Seq<char>) -> Seq<char>
    decreases s.len(),
{
    if s.len() == 0 {
        s
    } else if s.last() == '/' {
        Seq::empty()
    } else {
        after_last_slash(s.drop_last()).push(s.last())
    }
}

/// The pane's working directory: the foreground process's when known.
pub open spec fn pane_cwd(pane: ClientShellPane) -> Option<String> {
    if pane.foreground_cwd is Some { pane.foreground_cwd } else { pane.cwd }
}

/// The pane's cwd leaf, capped to `MAX_CWD_LEAF_WIDTH` columns; none when
/// the pane has no cwd or its last path component is empty.
pub open spec fn cwd_leaf(pane: ClientShellPane) -> Option<Seq<char>> {
    match pane_cwd(pane) {
        None => None,
        Some(cwd) => {
            let base = after_last_slash(trim_trailing_slashes(cwd@));
            if base.len() == 0 {
                None
            } else {
                Some(ellipsized(base, MAX_CWD_LEAF_WIDTH as int))
            }
        },
    }
}

/// The pane's cwd leaf — the only part of the path a strip row has room
/// for — capped to `MAX_CWD_LEAF_WIDTH` columns by ellipsizing the tail.
pub fn strip_cwd_leaf(pane: &ClientShellPane) -> (r: Option<Vec<char>>)
    ensures
        match r {
            Some(v) => cwd_leaf(*pane) == Some(v@),
            None => cwd_leaf(*pane) is None,
        },
{
    let cwd = if pane.foreground_cwd.is_some() { &pane.foreground_cwd } else { &pane.cwd };
    let cwd = match cwd {
        Some(c) => string_chars(c.as_str()),
        None => return None,
    };
    let ghost full = cwd@;
    let mut end: usize = cwd.len();
    assert(full.subrange(0, end as int) =~= full);
    while end > 0 && cwd[end - 1] == '/'
        invariant
            end <= cwd.len(),
            cwd@ == full,
            trim_trailing_slashes(full) == trim_trailing_slashes(full.subrange(0, end as int)),
        decreases end,
    {
        proof {
            assert(full.subrange(0, end as int).drop_last() =~= full.subrange(0, end - 1));
        }
        end = end - 1;
    }
    let ghost trimmed = full.subrange(0, end as int);
    assert(trim_trailing_slashes(full) == trimmed);
    let mut start: usize = end;
    while start > 0 && cwd[start - 1] != '/'
        invariant
            start <= end <= cwd.len(),
            cwd@ == full,
            trimmed == full.subrange(0, end as int),
            after_last_slash(trimmed) == after_last_slash(full.subrange(0, start as int))
                + full.subrange(start as int, end as int),
        decreases start,
    {
        proof {
            let pre = full.subrange(0, start as int);
            assert(pre.drop_last() =~= full.subrange(0, start - 1));
            assert(after_last_slash(pre) == after_last_slash(pre.drop_last()).push(pre.last()));
            assert(full.subrange(start - 1, end as int) =~= seq![pre.last()] + full.subrange(start as int, end as int));
            assert(after_last_slash(pre.drop_last()).push(pre.last()) + full.subrange(start as int, end as int)
                =~= after_last_slash(pre.drop_last()) + full.subrange(start - 1, end as int));
        }
        start = start - 1;
    }
    proof {
        let pre = full.subrange(0, start as int);
        if start > 0 {
            assert(pre.last() == '/');
        }
        assert(after_last_slash(pre) =~= Seq::<char>::empty());
        assert(after_last_slash(trimmed) =~= full.subrange(start as int, end as int));
    }
    if start == end {
        return None;
    }
    let mut base: Vec<char> = Vec::new();
    let mut k: usize = start;
    while k < end
        invariant
            start <= k <= end <= cwd.len(),
            base@ == cwd@.subrange(start as int, k as int),
        decreases end - k,
    {
        base.push(cwd[k]);
        k = k + 1;
    }
    Some(ellipsize_tail(base.as_slice(), MAX_CWD_LEAF_WIDTH))
}

} // verus!

//! Drawing commands: what the renderers ask to be painted, in order.
use vstd::prelude::*;
use crate::model::{Rect, Style, min_int, sub0};
use crate::width::{display_columns, display_width};

verus! {

/// A drawing command, as a mathematical value.
pub enum Draw {
    /// Patch the style of every cell of an area.
    Fill(Rect, Style),
    /// Write text at column `x` of row `y`, clipped to `width` columns.
    Text(u16, u16, u16, Seq<char>, Style),
}

/// A drawing command.
#[derive(Debug)]
pub enum DrawOp {
    Fill { area: Rect, style: Style },
    Text { x: u16, y: u16, width: u16, text: Vec<char>, style: Style },
}

impl View for DrawOp {
    type V = Draw;

    open spec fn view(&self) -> Draw {
        match self {
            DrawOp::Fill { area, style } => Draw::Fill(*area, *style),
            DrawOp::Text { x, y, width, text, style } => Draw::Text(*x, *y, *width, text@, *style),
        }
    }
}

/// The frame being drawn: the commands issued so far.
#[derive(Debug)]
pub struct Buffer {
    pub ops: Vec<DrawOp>,
}

impl View for Buffer {
    type V = Seq<Draw>;

    open spec fn view(&self) -> Seq<Draw> {
        Seq::new(self.ops@.len(), |i: int| self.ops@[i]@)
    }
}

impl Buffer {
    /// An empty frame.
    pub fn new() -> (b: Buffer)
        ensures
            b@ == Seq::<Draw>::empty(),
    {
        let b = Buffer { ops: Vec::new() };
        assert(b@ =~= Seq::<Draw>::empty());
        b
    }

    /// Patch the style of every cell of `area`.
    pub fn set_style(&mut self, area: Rect, style: Style)
        ensures
            final(self)@ == old(self)@.push(Draw::Fill(area, style)),
    {
        self.ops.push(DrawOp::Fill { area, style });
        assert(final(self)@ =~= old(self)@.push(Draw::Fill(area, style)));
    }
}

/// Write `text` at (`x`, `y`), clipped to `width` columns.
pub fn put_text(buffer: &mut Buffer, x: u16, y: u16, width: u16, text: &[char], style: Style)
    ensures
        final(buffer)@ == old(buffer)@.push(Draw::Text(x, y, width, text@, style)),
{
    buffer.ops.push(DrawOp::Text { x, y, width, text: vstd::slice::slice_to_vec(text), style });
    assert(final(buffer)@ =~= old(buffer)@.push(Draw::Text(x, y, width, text@, style)));
}

/// Columns a right-aligned text takes inside `area`.
pub open spec fn right_text_width(area: Rect, text: Seq<char>) -> int {
    min_int(display_columns(text), area.width as int)
}

/// The command that writes `text` flush against the right edge of `area`.
pub open spec fn right_text_draw(area: Rect, y: u16, text: Seq<char>, style: Style) -> Draw {
    let w = right_text_width(area, text);
    Draw::Text(sub0(area.right_edge(), w) as u16, y, w as u16, text, style)
}

/// Write `text` flush against the right edge of `area`, on row `y`.
pub fn put_right_text(buffer: &mut Buffer, area: Rect, y: u16, text: &[char], style: Style)
    ensures
        final(buffer)@ == old(buffer)@.push(right_text_draw(area, y, text@, style)),
{
    let text_width = display_width(text);
    let width = if text_width < area.width { text_width } else { area.width };
    let x = area.right().saturating_sub(width);
    put_text(buffer, x, y, width, text, style);
}

/// The command that writes a segment starting at `x`, clipped at `right`.
pub open spec fn segment_draw(x: u16, y: u16, right: u16, text: Seq<char>, style: Style) -> Draw {
    Draw::Text(x, y, sub0(right as int, x as int) as u16, text, style)
}

/// Where the next segment starts: just past this one, but no further than `right`.
pub open spec fn segment_end(x: u16, right: u16, text: Seq<char>) -> u16 {
    (x + min_int(display_columns(text), sub0(right as int, x as int))) as u16
}

/// Write a segment starting at `x`, clipped at column `right`; returns the
/// column just past what it occupies.
pub fn put_segment(buffer: &mut Buffer, x: u16, y: u16, right: u16, text: &[char], style: Style) -> (next: u16)
    ensures
        final(buffer)@ == old(buffer)@.push(segment_draw(x, y, right, text@, style)),
        next == segment_end(x, right, text@),
{
    let room = right.saturating_sub(x);
    put_text(buffer, x, y, room, text, style);
    let width = display_width(text);
    let used = if width < room { width } else { room };
    x + used
}

} // verus!

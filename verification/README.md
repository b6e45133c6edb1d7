# tabstrip

Layout and rendering logic for a terminal shell's horizontal tab bar and its
vertical tab strip (one rounded box per workspace), verified with Verus.

Rendering does not paint cells: each renderer appends drawing commands
(`draw::Buffer`, a list of `Draw::Fill` / `Draw::Text`) and records clickable
regions in a `ShellHitMap`. Every renderer's contract states exactly which
commands it appends and which regions it records, as spec functions of the
snapshot, the configuration and the area.

Modules:

- `scroll`: scroll arithmetic shared by bar and strip (last visible item,
  maximum scroll, revealing and centring scrolls) and its laws.
- `width`: display widths, measured by the `unicode-width` crate (the only
  trusted code in the crate).
- `model`: snapshot, configuration, geometry and style types.
- `text`: labels, agent names, cwd leaves, ellipsizing, detail segments.
- `draw`: drawing commands and the buffer.
- `rows`: a strip row with segments and an agent badge, the title row, boxes.
- `strip`: strip entries and groups, their rows, and drawing a group.
- `frame`: a whole frame of the strip (groups, scroll chrome, drop marker).
- `drop`: where a dragged tab's drop marker goes.
- `bar`, `bar_frame`: the horizontal tab bar (status segments, tabs, scroll
  buttons, ellipses, drop marker).

Functions whose contracts bound the widths they measure (so that the
arithmetic stays in `u16`) come with a `try_` companion that checks exactly
those widths first and draws nothing when a bound fails.

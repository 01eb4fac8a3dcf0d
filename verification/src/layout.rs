//! Where the panes stand on a terminal of a given size.

use vstd::prelude::*;

verus! {

/// A pane: its top left corner, its size, its colours, and whether it is framed.
#[derive(Clone, Copy, PartialEq, Eq, Structural, Debug)]
pub struct PaneBox {
    pub x: u16,
    pub y: u16,
    pub w: u16,
    pub h: u16,
    pub fg: u16,
    pub bg: u16,
    pub border: bool,
}

/// The four panes.
#[derive(Clone, Copy, PartialEq, Eq, Structural, Debug)]
pub struct Layout {
    pub top: PaneBox,
    pub left: PaneBox,
    pub right: PaneBox,
    pub status: PaneBox,
}

/// `n` less by `d`, but not below zero.
pub open spec fn less(n: u16, d: int) -> u16 {
    if n >= d {
        (n - d) as u16
    } else {
        0
    }
}

/// The panes on a terminal: a heading and a status line over the full width,
/// between them the categories, of a fixed width, and the items in the rest.
pub open spec fn layout_of(cols: u16, rows: u16) -> Layout {
    let h = less(rows, 4);
    Layout {
        top: PaneBox { x: 1, y: 1, w: cols, h: 1, fg: 0, bg: 236, border: false },
        left: PaneBox { x: 2, y: 3, w: 21, h, fg: 255, bg: 0, border: true },
        right: PaneBox { x: 25, y: 3, w: less(cols, 26), h, fg: 252, bg: 0, border: true },
        status: PaneBox { x: 1, y: rows, w: cols, h: 1, fg: 252, bg: 236, border: false },
    }
}

/// The framed panes lie inside a terminal that is large enough for them, side
/// by side, between the heading and the status line.
pub proof fn law_panes_fit(cols: u16, rows: u16)
    requires
        cols >= 26,
        rows >= 4,
    ensures
        ({
            let l = layout_of(cols, rows);
            &&& l.left.x + l.left.w < l.right.x
            &&& l.right.x + l.right.w <= cols
            &&& l.top.y < l.left.y == l.right.y
            &&& l.left.y + l.left.h == l.right.y + l.right.h < l.status.y
        }),
{
}

/// The panes on a terminal of the given size.
pub fn layout(cols: u16, rows: u16) -> (l: Layout)
    ensures
        l == layout_of(cols, rows),
{
    let split: u16 = 22;
    let lw: u16 = split - 1;
    let rx: u16 = split + 3;
    let rw: u16 = cols.saturating_sub(rx).saturating_sub(1);
    let h: u16 = rows.saturating_sub(4);
    Layout {
        top: PaneBox { x: 1, y: 1, w: cols, h: 1, fg: 0, bg: 236, border: false },
        left: PaneBox { x: 2, y: 3, w: lw, h, fg: 255, bg: 0, border: true },
        right: PaneBox { x: rx, y: 3, w: rw, h, fg: 252, bg: 0, border: true },
        status: PaneBox { x: 1, y: rows, w: cols, h: 1, fg: 252, bg: 236, border: false },
    }
}

} // verus!

//! The split-pane layout the orchestrator owns: a left region that fills the
//! remaining width and a right log pane of fixed width.

use vstd::prelude::*;

use crate::types::Rect;

verus! {

/// Width, in columns, of the right-hand log pane.
pub const LOG_PANE_WIDTH: u16 = 75;

/// The left pane of `area`: everything the log pane leaves over.
pub open spec fn left_pane(area: Rect) -> Rect {
    Rect {
        x: area.x,
        y: area.y,
        width: (area.width - log_width(area.width)) as u16,
        height: area.height,
    }
}

/// The right pane of `area`: the log pane, flush right.
pub open spec fn right_pane(area: Rect) -> Rect {
    Rect {
        x: (area.x + area.width - log_width(area.width)) as u16,
        y: area.y,
        width: log_width(area.width),
        height: area.height,
    }
}

/// How many columns of an area of width `w` the log pane takes.
pub open spec fn log_width(w: u16) -> u16 {
    if w >= LOG_PANE_WIDTH {
        LOG_PANE_WIDTH
    } else {
        w
    }
}

/// Split `area` horizontally: the right pane takes [`LOG_PANE_WIDTH`] columns
/// (everything, if the area is narrower) and the left pane fills the rest.
pub fn split_panes(area: Rect) -> (panes: (Rect, Rect))
    requires
        area.x + area.width <= u16::MAX,
    ensures
        panes.0 == left_pane(area),
        panes.1 == right_pane(area),
        panes.1.width == if area.width >= LOG_PANE_WIDTH { LOG_PANE_WIDTH } else { area.width },
        panes.0.width + panes.1.width == area.width,
        panes.0.x == area.x,
        panes.1.x == area.x + panes.0.width,
        panes.0.y == area.y && panes.1.y == area.y,
        panes.0.height == area.height && panes.1.height == area.height,
{
    let right_width: u16 = if area.width >= LOG_PANE_WIDTH { LOG_PANE_WIDTH } else { area.width };
    let left_width: u16 = area.width - right_width;
    let left = Rect { x: area.x, y: area.y, width: left_width, height: area.height };
    let right = Rect { x: area.x + left_width, y: area.y, width: right_width, height: area.height };
    (left, right)
}

} // verus!

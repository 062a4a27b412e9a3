//! Positions and areas on the terminal, counted in columns and rows.

use euclid::default::{Point2D, SideOffsets2D, Size2D};
use vstd::prelude::*;

verus! {

/// A place on the terminal.
#[derive(Clone, Copy, Debug, PartialEq, Eq, Structural)]
pub struct Position {
    pub x: usize,
    pub y: usize,
}

/// How large an area is.
#[derive(Clone, Copy, Debug, PartialEq, Eq, Structural)]
pub struct Size {
    pub width: usize,
    pub height: usize,
}

/// An area of the terminal.
#[derive(Clone, Copy, Debug, PartialEq, Eq, Structural)]
pub struct Rect {
    pub origin: Position,
    pub size: Size,
}

impl Rect {
    /// Whether the right and the lower edge have coordinates.
    pub open spec fn bounded(self) -> bool {
        &&& self.origin.x + self.size.width <= usize::MAX
        &&& self.origin.y + self.size.height <= usize::MAX
    }

    /// The area with the given upper left corner and size.
    pub fn new(x: usize, y: usize, width: usize, height: usize) -> (rect: Self)
        ensures
            rect.origin.x == x,
            rect.origin.y == y,
            rect.size.width == width,
            rect.size.height == height,
    {
        Rect { origin: Position { x, y }, size: Size { width, height } }
    }

    /// The column behind the last one of the area.
    pub fn max_x(&self) -> (x: usize)
        requires
            self.bounded(),
        ensures
            x == self.origin.x + self.size.width,
    {
        self.origin.x + self.size.width
    }

    /// The area that is left when rows and columns are taken off at its sides.
    pub open spec fn without(self, top: int, right: int, bottom: int, left: int) -> Rect {
        Rect {
            origin: Position {
                x: (self.origin.x + left) as usize,
                y: (self.origin.y + top) as usize,
            },
            size: Size {
                width: (self.size.width - left - right) as usize,
                height: (self.size.height - top - bottom) as usize,
            },
        }
    }
}

/// `euclid::Rect::inner_rect`: rows and columns are taken off at the sides of an
/// area. They have to be there.
#[verifier::external_body]
pub(crate) fn inner_rect(
    rect: Rect,
    top: usize,
    right: usize,
    bottom: usize,
    left: usize,
) -> (inner: Rect)
    requires
        rect.bounded(),
        left + right <= rect.size.width,
        top + bottom <= rect.size.height,
    ensures
        inner == rect.without(top as int, right as int, bottom as int, left as int),
{
    let origin = Point2D::new(rect.origin.x, rect.origin.y);
    let size = Size2D::new(rect.size.width, rect.size.height);
    let inner = euclid::default::Rect::new(origin, size).inner_rect(
        SideOffsets2D::new(top, right, bottom, left),
    );
    Rect {
        origin: Position { x: inner.origin.x, y: inner.origin.y },
        size: Size { width: inner.size.width, height: inner.size.height },
    }
}

} // verus!

use vstd::prelude::*;
use crate::geometry::{Point, Rect};

verus! {

/// The side of a tile, in pixels.
pub const TILE_SIZE: i32 = 100;

/// The gap between two neighbouring tiles, in pixels.
pub const TILE_SPACING: i32 = 10;

/// One cell of the board.
///
/// `value` is `None` for a blocking tile of the header row, `Some(0)` for the
/// cursor (the empty cell) and `Some(n)` with `n > 0` for a numbered tile.
/// `address` is the fixed (column, row) coordinate of the cell.
#[derive(Clone, Copy, Debug)]
pub struct Tile {
    pub selected: bool,
    pub value: Option<i32>,
    pub address: (i32, i32),
    pub position: Point,
    pub image_src_rect: Option<Rect>,
    pub image_dest_rect: Option<Rect>,
}

/// The image source that a tile ends up with when `incoming` moves onto it:
/// the incoming one if it has any, else the tile keeps its own.
pub open spec fn carried_src(keep: Option<Rect>, incoming: Option<Rect>) -> Option<Rect> {
    if incoming is Some {
        incoming
    } else {
        keep
    }
}

/// What `a` holds after `a.swap_value(b)` succeeded.
pub open spec fn swapped_self(a: Tile, b: Tile) -> Tile {
    Tile {
        selected: b.selected,
        value: b.value,
        address: a.address,
        position: a.position,
        image_src_rect: carried_src(a.image_src_rect, b.image_src_rect),
        image_dest_rect: a.image_dest_rect,
    }
}

/// What `b` holds after `a.swap_value(b)` succeeded.
pub open spec fn swapped_other(a: Tile, b: Tile) -> Tile {
    Tile {
        selected: a.selected,
        value: a.value,
        address: b.address,
        position: b.position,
        image_src_rect: carried_src(b.image_src_rect, a.image_src_rect),
        image_dest_rect: b.image_dest_rect,
    }
}

impl Tile {
    /// An unselected tile.
    pub fn new(
        value: Option<i32>,
        pos: Point,
        address: (i32, i32),
        image_src_rect: Option<Rect>,
        image_dest_rect: Option<Rect>,
    ) -> (r: Tile)
        ensures
            r.value == value,
            r.position == pos,
            r.address == address,
            r.image_src_rect == image_src_rect,
            r.image_dest_rect == image_dest_rect,
            !r.selected,
    {
        Tile {
            value,
            address,
            position: pos,
            selected: false,
            image_src_rect,
            image_dest_rect,
        }
    }

    /// Exchanges the selection and the value of two tiles; an image source
    /// follows its value only where there is one to carry. A blocking `other`
    /// refuses: nothing changes and the result is `false`.
    pub fn swap_value(&mut self, other: &mut Tile) -> (r: bool)
        ensures
            r == (old(other).value is Some),
            r ==> *final(self) == swapped_self(*old(self), *old(other)),
            r ==> *final(other) == swapped_other(*old(self), *old(other)),
            !r ==> *final(self) == *old(self),
            !r ==> *final(other) == *old(other),
    {
        if other.value.is_none() {
            return false;
        }
        let other_selected = other.selected;
        let other_value = other.value;
        let other_img_src = other.image_src_rect;

        other.selected = self.selected;
        other.value = self.value;

        if self.image_src_rect.is_some() {
            other.image_src_rect = self.image_src_rect;
        }

        self.selected = other_selected;
        self.value = other_value;

        if other_img_src.is_some() {
            self.image_src_rect = other_img_src;
        }
        true
    }
}

} // verus!

//! Sprites: placed entities with an identity, an extent, a base offset pair
//! and an accumulated adjustment.

use vstd::prelude::*;
use crate::geometry::{Area, Offset, MAX_EXTENT};
use crate::layout::GameboardSize;

verus! {

/// Strict overlap of two boxes: touching edges do not overlap.
pub open spec fn overlaps_spec(a: Area, b: Area) -> bool {
    &&& a.offset.0 < b.offset.0 + b.size.0
    &&& a.offset.0 + a.size.0 > b.offset.0
    &&& a.offset.1 < b.offset.1 + b.size.1
    &&& a.offset.1 + a.size.1 > b.offset.1
}

/// Each corner coordinate of the box fits in an `i64`.
pub open spec fn area_fits(a: Area) -> bool {
    &&& i64::MIN <= a.offset.0 + a.size.0 <= i64::MAX
    &&& i64::MIN <= a.offset.1 + a.size.1 <= i64::MAX
}

/// Whether two boxes overlap.
pub fn overlaps(a: &Area, b: &Area) -> (r: bool)
    requires
        area_fits(*a),
        area_fits(*b),
    ensures
        r == overlaps_spec(*a, *b),
{
    a.offset.0 < b.offset.0 + b.size.0 && a.offset.0 + a.size.0 > b.offset.0 && a.offset.1 < b.offset.1
        + b.size.1 && a.offset.1 + a.size.1 > b.offset.1
}

/// Overlap does not depend on the order of the two boxes.
pub proof fn lemma_overlaps_symmetric(a: Area, b: Area)
    ensures
        overlaps_spec(a, b) == overlaps_spec(b, a),
{
}

/// What a sprite holds.
pub struct SpriteView {
    pub id: Seq<char>,
    pub size: (i64, i64),
    pub offsets: (Offset, Offset),
    pub adjustments: (i64, i64),
}

pub open spec fn offset_bounded(o: Offset) -> bool {
    match o {
        Offset::Static(v) => -MAX_EXTENT <= v <= MAX_EXTENT,
        _ => true,
    }
}

impl SpriteView {
    /// Extent, static offsets and adjustments within `MAX_EXTENT`.
    pub open spec fn is_bounded(self) -> bool {
        &&& 0 <= self.size.0 <= MAX_EXTENT
        &&& 0 <= self.size.1 <= MAX_EXTENT
        &&& offset_bounded(self.offsets.0)
        &&& offset_bounded(self.offsets.1)
        &&& -MAX_EXTENT <= self.adjustments.0 <= MAX_EXTENT
        &&& -MAX_EXTENT <= self.adjustments.1 <= MAX_EXTENT
    }

    /// World position on a board of extent `board`: the base offsets
    /// resolved with the board's extent available and the sprite's used,
    /// plus the adjustments. Nothing is clamped: a sprite may lie off the board.
    pub open spec fn position(self, board: GameboardSize) -> (int, int) {
        (
            self.offsets.0.resolve_spec(board.0 as int, self.size.0 as int) + self.adjustments.0,
            self.offsets.1.resolve_spec(board.1 as int, self.size.1 as int) + self.adjustments.1,
        )
    }

    /// The box that the sprite covers on a board of extent `board`.
    pub open spec fn area(self, board: GameboardSize) -> Area {
        Area {
            offset: (self.position(board).0 as i64, self.position(board).1 as i64),
            size: self.size,
        }
    }
}

/// A board extent that positions can be computed against.
pub open spec fn board_bounded(board: GameboardSize) -> bool {
    0 <= board.0 <= 2 * MAX_EXTENT && 0 <= board.1 <= 2 * MAX_EXTENT
}

/// A placed entity of the board.
#[derive(Debug)]
pub struct Sprite {
    id: String,
    size: (i64, i64),
    offsets: (Offset, Offset),
    adjustments: (i64, i64),
}

impl View for Sprite {
    type V = SpriteView;

    closed spec fn view(&self) -> SpriteView {
        SpriteView {
            id: self.id@,
            size: self.size,
            offsets: self.offsets,
            adjustments: self.adjustments,
        }
    }
}

impl Sprite {
    /// A sprite named `id` of extent `size` at `offsets`, not yet moved.
    pub fn new(id: &str, size: (i64, i64), offsets: (Offset, Offset)) -> (r: Self)
        ensures
            r@ == (SpriteView { id: id@, size, offsets, adjustments: (0i64, 0i64) }),
    {
        Sprite { id: String::from_str(id), size, offsets, adjustments: (0, 0) }
    }

    /// The extent, to read or change.
    pub fn dimensions(&mut self) -> (r: &mut (i64, i64))
        ensures
            *r == old(self)@.size,
            final(self)@ == (SpriteView { size: *final(r), ..old(self)@ }),
    {
        &mut self.size
    }

    pub fn size(&self) -> (r: (i64, i64))
        ensures
            r == self@.size,
    {
        self.size
    }

    pub fn id(&self) -> (r: &String)
        ensures
            r@ == self@.id,
    {
        &self.id
    }

    /// The base offsets given at creation; not the position.
    pub fn offset(&self) -> (r: &(Offset, Offset))
        ensures
            *r == self@.offsets,
    {
        &self.offsets
    }

    /// The adjustments added to the base offsets, to read or change.
    pub fn adjustments(&mut self) -> (r: &mut (i64, i64))
        ensures
            *r == old(self)@.adjustments,
            final(self)@ == (SpriteView { adjustments: *final(r), ..old(self)@ }),
    {
        &mut self.adjustments
    }

    /// Whether extent, static offsets and adjustments lie within `MAX_EXTENT`.
    pub fn is_in_bounds(&self) -> (r: bool)
        ensures
            r == self@.is_bounded(),
    {
        let ox = match self.offsets.0 {
            Offset::Static(v) => -MAX_EXTENT <= v && v <= MAX_EXTENT,
            _ => true,
        };
        let oy = match self.offsets.1 {
            Offset::Static(v) => -MAX_EXTENT <= v && v <= MAX_EXTENT,
            _ => true,
        };
        0 <= self.size.0 && self.size.0 <= MAX_EXTENT && 0 <= self.size.1 && self.size.1 <= MAX_EXTENT && ox
            && oy && -MAX_EXTENT <= self.adjustments.0 && self.adjustments.0 <= MAX_EXTENT && -MAX_EXTENT
            <= self.adjustments.1 && self.adjustments.1 <= MAX_EXTENT
    }

    /// The world position on a board of extent `board`.
    pub fn position(&self, board: GameboardSize) -> (r: (i64, i64))
        requires
            self@.is_bounded(),
            board_bounded(board),
        ensures
            (r.0 as int, r.1 as int) == self@.position(board),
            -2 * MAX_EXTENT <= r.0 <= 3 * MAX_EXTENT,
            -2 * MAX_EXTENT <= r.1 <= 3 * MAX_EXTENT,
    {
        let x = self.offsets.0.resolve(board.0, self.size.0);
        let y = self.offsets.1.resolve(board.1, self.size.1);
        (x + self.adjustments.0, y + self.adjustments.1)
    }

    /// The box that the sprite covers on a board of extent `board`.
    pub fn area(&self, board: GameboardSize) -> (r: Area)
        requires
            self@.is_bounded(),
            board_bounded(board),
        ensures
            r == self@.area(board),
            area_fits(r),
    {
        Area { offset: self.position(board), size: self.size }
    }
}

/// What a sprite does in the game.
#[derive(Clone, Copy, Debug, PartialEq, Eq, Hash, Structural)]
pub enum SpriteAction {
    Hurt,
    Die,
    Shoot,
}

/// How a sprite is moving.
#[derive(Clone, Copy, Debug, PartialEq, Eq, Structural)]
pub enum SpriteState {
    Idle,
    MovingLeft,
    MovingRight,
    MovingUp,
    MovingDown,
}

impl Default for SpriteState {
    fn default() -> (r: Self)
        ensures
            r == SpriteState::Idle,
    {
        SpriteState::Idle
    }
}

} // verus!

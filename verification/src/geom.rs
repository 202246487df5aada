use vstd::prelude::*;

verus! {

/// Largest magnitude accepted for a configured length: pads, manual sizes,
/// character cells, scroll offsets and sizing-formula coefficients.
pub const LIT_MAX: i64 = 0x100_0000;

/// Largest extent a computed dimension may reach (sums of child extents).
pub const DIM_MAX: i64 = 0x1_0000_0000_0000;

/// Largest magnitude a computed position may reach.
pub const POS_MAX: i64 = 0x100_0000_0000_0000;

/// A point or extent in pixels.
#[derive(Clone, Copy, PartialEq, Eq, Structural, Debug)]
pub struct Vec2 {
    pub x: i64,
    pub y: i64,
}

impl Vec2 {
    pub fn new(x: i64, y: i64) -> (r: Vec2)
        ensures
            r == (Vec2 { x, y }),
    {
        Vec2 { x, y }
    }
}

/// Four-sided insets, in layout order left, right, top, low.
#[derive(Clone, Copy, PartialEq, Eq, Structural, Debug)]
pub struct Pad {
    pub left: i64,
    pub right: i64,
    pub top: i64,
    pub low: i64,
}

impl Pad {
    pub fn zero() -> (r: Pad)
        ensures
            r == (Pad { left: 0, right: 0, top: 0, low: 0 }),
    {
        Pad { left: 0, right: 0, top: 0, low: 0 }
    }
}

/// Whether a container lets children paint past its box or cuts them off.
#[derive(Clone, Copy, PartialEq, Eq, Structural, Debug)]
pub enum Overflow {
    Leak,
    Clip,
}

impl Overflow {
    pub fn need_clip(&self) -> (r: bool)
        ensures
            r == (*self is Clip),
    {
        match self {
            Overflow::Clip => true,
            Overflow::Leak => false,
        }
    }

    pub fn make_clip(&mut self)
        ensures
            *final(self) is Clip,
    {
        *self = Overflow::Clip;
    }
}

/// The computed box of a node: position, extent, resolved insets and an
/// optional rotation in degrees (0 means unrotated). Overwritten each frame;
/// between frames it only serves as the previous-frame value for culling.
#[derive(Clone, Copy, PartialEq, Eq, Structural, Debug)]
pub struct Bound {
    pub pos: Vec2,
    pub dim: Vec2,
    pub shadow: Pad,
    pub angle: i64,
}

impl Bound {
    pub fn new() -> (r: Bound)
        ensures
            r == Bound::start(),
    {
        Bound {
            pos: Vec2 { x: 0, y: 0 },
            dim: Vec2 { x: 0, y: 0 },
            shadow: Pad { left: 0, right: 0, top: 0, low: 0 },
            angle: 0,
        }
    }

    /// The all-zero box every node starts from.
    pub open spec fn start() -> Bound {
        Bound {
            pos: Vec2 { x: 0, y: 0 },
            dim: Vec2 { x: 0, y: 0 },
            shadow: Pad { left: 0, right: 0, top: 0, low: 0 },
            angle: 0,
        }
    }

    /// True when the vertical coordinate `y` falls inside the box.
    pub open spec fn spec_inside_y(self, y: int) -> bool {
        self.pos.y <= y <= self.pos.y + self.dim.y
    }

    pub fn inside_y(&self, y: i64) -> (r: bool)
        requires
            wf_bound(*self),
        ensures
            r == self.spec_inside_y(y as int),
    {
        self.pos.y <= y && y <= self.pos.y + self.dim.y
    }
}

pub open spec fn wf_pad(p: Pad) -> bool {
    &&& 0 <= p.left <= LIT_MAX
    &&& 0 <= p.right <= LIT_MAX
    &&& 0 <= p.top <= LIT_MAX
    &&& 0 <= p.low <= LIT_MAX
}

pub open spec fn wf_bound(b: Bound) -> bool {
    &&& -POS_MAX <= b.pos.x <= POS_MAX
    &&& -POS_MAX <= b.pos.y <= POS_MAX
    &&& 0 <= b.dim.x <= DIM_MAX
    &&& 0 <= b.dim.y <= DIM_MAX
    &&& wf_pad(b.shadow)
}

/// True when the box lies entirely outside the viewport `[0,win.x] x [0,win.y]`.
/// A subtree whose previous-frame box satisfies this is skipped by the
/// non-silent passes.
pub open spec fn outside_window(b: Bound, win: Vec2) -> bool {
    ||| b.pos.x > win.x
    ||| b.pos.y > win.y
    ||| b.pos.x + b.dim.x < 0
    ||| b.pos.y + b.dim.y < 0
}

} // verus!

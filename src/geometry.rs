//! Spatial primitives: positions in sub-units, sprite sizes, scales, and the
//! axis-aligned bounding-box overlap test.
use vstd::prelude::*;

verus! {

/// Sub-units in one world unit. One tick is 1/60 s, so a speed of one world
/// unit per second moves an entity exactly one sub-unit per tick.
pub const SUBUNITS_PER_UNIT: i64 = 60;

/// Scale factors are stored in thousandths: 1000 is a scale of 1.
pub const SCALE_ONE: u32 = 1000;

/// Largest magnitude a stored coordinate may take, in sub-units.
pub const COORD_LIMIT: i64 = 1099511627776;

/// A world position, in sub-units; `z` is a stacking depth only.
#[derive(Clone, Copy, Debug, PartialEq, Eq, Structural)]
pub struct Position {
    pub x: i64,
    pub y: i64,
    pub z: i64,
}

/// Full width and height of a sprite's collision box, in world units.
#[derive(Clone, Copy, Debug, PartialEq, Eq, Structural)]
pub struct SpriteSize {
    pub w: u32,
    pub h: u32,
}

/// Scale factors along x and y, in thousandths.
#[derive(Clone, Copy, Debug, PartialEq, Eq, Structural)]
pub struct Scale {
    pub x: u32,
    pub y: u32,
}

/// Size of the window, in world units.
#[derive(Clone, Copy, Debug, PartialEq, Eq, Structural)]
pub struct WindowSize {
    pub w: u32,
    pub h: u32,
}

impl Position {
    pub open spec fn in_limits(self) -> bool {
        -COORD_LIMIT <= self.x <= COORD_LIMIT && -COORD_LIMIT <= self.y <= COORD_LIMIT
    }
}

impl SpriteSize {
    pub fn new(w: u32, h: u32) -> (r: SpriteSize)
        ensures
            r == (SpriteSize { w, h }),
    {
        SpriteSize { w, h }
    }
}

impl From<(u32, u32)> for SpriteSize {
    fn from(v: (u32, u32)) -> (r: SpriteSize) {
        SpriteSize { w: v.0, h: v.1 }
    }
}

impl vstd::std_specs::convert::FromSpecImpl<(u32, u32)> for SpriteSize {
    open spec fn obeys_from_spec() -> bool {
        true
    }

    open spec fn from_spec(v: (u32, u32)) -> SpriteSize {
        SpriteSize { w: v.0, h: v.1 }
    }
}

/// Brings a coordinate back into `[-COORD_LIMIT, COORD_LIMIT]`.
pub open spec fn clamp_coord(v: int) -> int {
    if v > COORD_LIMIT {
        COORD_LIMIT as int
    } else if v < -COORD_LIMIT {
        -COORD_LIMIT
    } else {
        v
    }
}

pub fn clamp_coord_exec(v: i128) -> (r: i64)
    ensures
        r == clamp_coord(v as int),
{
    if v > COORD_LIMIT as i128 {
        COORD_LIMIT
    } else if v < -(COORD_LIMIT as i128) {
        -COORD_LIMIT
    } else {
        v as i64
    }
}

/// Extent of a box side after scaling, in thousandths of a sub-unit.
pub open spec fn scaled_extent(size: u32, scale: u32) -> int {
    size * SUBUNITS_PER_UNIT * scale
}

/// Two centred intervals overlap with positive length: centres `a`, `b` in
/// sub-units, full extents `ea`, `eb` in thousandths of a sub-unit.
/// Multiplied through by 2000, `a - ea/2 < b + eb/2 && a + ea/2 > b - eb/2`.
pub open spec fn intervals_overlap(a: int, ea: int, b: int, eb: int) -> bool {
    2000 * a - ea < 2000 * b + eb && 2000 * a + ea > 2000 * b - eb
}

/// The boxes centred at `pa` and `pb`, of the given sizes and scales, overlap.
pub open spec fn boxes_overlap(pa: Position, sa: SpriteSize, ka: Scale, pb: Position, sb: SpriteSize, kb: Scale) -> bool {
    intervals_overlap(pa.x as int, scaled_extent(sa.w, ka.x), pb.x as int, scaled_extent(sb.w, kb.x))
    && intervals_overlap(pa.y as int, scaled_extent(sa.h, ka.y), pb.y as int, scaled_extent(sb.h, kb.y))
}

fn extent_exec(size: u32, scale: u32) -> (r: i128)
    ensures
        r == scaled_extent(size, scale),
        0 <= r <= 60 * 0xffff_ffff * 0xffff_ffff,
{
    assert(0 <= size * scale <= 0xffff_ffff * 0xffff_ffff) by (nonlinear_arith);
    assert(size * SUBUNITS_PER_UNIT * scale == (size * scale) * 60) by (nonlinear_arith);
    (size as i128) * (SUBUNITS_PER_UNIT as i128) * (scale as i128)
}

fn intervals_overlap_exec(a: i64, ea: i128, b: i64, eb: i128) -> (r: bool)
    requires
        0 <= ea < 0x1_0000_0000_0000_0000_0000_0000,
        0 <= eb < 0x1_0000_0000_0000_0000_0000_0000,
    ensures
        r == intervals_overlap(a as int, ea as int, b as int, eb as int),
{
    let a2 = 2000 * (a as i128);
    let b2 = 2000 * (b as i128);
    a2 - ea < b2 + eb && a2 + ea > b2 - eb
}

/// Tests whether two scaled boxes overlap, with the strict comparisons of an
/// axis-aligned bounding-box test: boxes that only touch do not collide.
pub fn collide(pa: Position, sa: SpriteSize, ka: Scale, pb: Position, sb: SpriteSize, kb: Scale) -> (r: bool)
    ensures
        r == boxes_overlap(pa, sa, ka, pb, sb, kb),
{
    let eaw = extent_exec(sa.w, ka.x);
    let ebw = extent_exec(sb.w, kb.x);
    let eah = extent_exec(sa.h, ka.y);
    let ebh = extent_exec(sb.h, kb.y);
    intervals_overlap_exec(pa.x, eaw, pb.x, ebw) && intervals_overlap_exec(pa.y, eah, pb.y, ebh)
}

} // verus!

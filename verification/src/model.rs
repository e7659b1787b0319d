//! Shared data model: identifiers, fixed-point geometry values, tasks and
//! the animation segments that clients interpolate between ticks.

use crate::geom;
use vstd::prelude::*;

verus! {

/// Dense 64-bit identifier, allocated monotonically by the game state.
pub type Id = u64;

pub type PlayerId = u64;

pub type UnitId = u64;

pub type TaskId = u64;

pub type ResourceId = u64;

/// Dense id assigned to each pre-computed task execution.
pub type SimulatedId = u64;

/// Per-unit monotonic counter marking each externally observable change.
pub type SequenceNumber = u64;

/// Milliseconds.
pub type TimeStamp = u64;

/// Fixed-point coordinate: one unit is one micrometer.
pub type Coord = i64;

/// Micrometers per millisecond; 1000 is one meter per second.
pub type Speed = u64;

/// Millidegrees.
pub type Orientation = i64;

/// Milliseconds in a second: time is counted in milliseconds everywhere.
pub const TIME_PER_SECOND: u64 = 1_000;

/// Coordinate units in a meter.
pub const METERS: i64 = 1_000_000;

/// Largest coordinate magnitude the map admits (one thousand kilometers).
/// Keeping coordinates in this range keeps every squared distance inside
/// 64 bits.
pub const COORD_LIMIT: i64 = 1_000_000_000;

/// Latest admissible timestamp; keeps `begin_time + duration` inside 64
/// bits for every representable move.
pub const TIME_LIMIT: u64 = 0x4000_0000_0000_0000;

#[derive(Clone, Copy, Debug, PartialEq, Eq, Structural)]
pub struct Point {
    pub x: Coord,
    pub y: Coord,
}

/// The coordinate lies on the map.
pub open spec fn coord_in_bounds(c: int) -> bool {
    -COORD_LIMIT <= c <= COORD_LIMIT
}

impl Point {
    /// The point lies on the map.
    pub open spec fn in_bounds(self) -> bool {
        coord_in_bounds(self.x as int) && coord_in_bounds(self.y as int)
    }

    /// Squared distance to `other`, exact.
    pub open spec fn dist_sq(self, other: Point) -> int {
        let dx = other.x - self.x;
        let dy = other.y - self.y;
        dx * dx + dy * dy
    }

    /// Distance to `other` in coordinate units, rounded down.
    pub open spec fn dist(self, other: Point) -> nat {
        geom::sqrt_floor(self.dist_sq(other) as nat)
    }
}

/// Distance between two in-bounds points, rounded down to whole coordinate
/// units.
pub fn distance(a: Point, b: Point) -> (d: u64)
    requires
        a.in_bounds(),
        b.in_bounds(),
    ensures
        d == a.dist(b),
        d == 0 <==> a == b,
        d <= 0x1_0000_0000u64,
{
    let dx: i64 = b.x - a.x;
    let dy: i64 = b.y - a.y;
    let ax: u64 = if dx >= 0 { dx as u64 } else { (-dx) as u64 };
    let ay: u64 = if dy >= 0 { dy as u64 } else { (-dy) as u64 };
    assert((ax as int) * (ax as int) == (dx as int) * (dx as int) <= 0x7735_9400 * 0x7735_9400)
        by (nonlinear_arith)
        requires ax == if dx >= 0 { dx as int } else { -(dx as int) } && ax <= 0x7735_9400u64;
    assert((ay as int) * (ay as int) == (dy as int) * (dy as int) <= 0x7735_9400 * 0x7735_9400)
        by (nonlinear_arith)
        requires ay == if dy >= 0 { dy as int } else { -(dy as int) } && ay <= 0x7735_9400u64;
    let sq: u64 = ax * ax + ay * ay;
    let d = geom::isqrt64(sq);
    proof {
        geom::lemma_sqrt_floor_is_sqrt(sq as nat);
        if d == 0 {
            assert(geom::is_sqrt(sq as int, 0));
            assert((0 + 1) * (0 + 1) == 1) by (nonlinear_arith);
            assert(sq == 0);
            assert((dx as int) * (dx as int) >= 0) by (nonlinear_arith);
            assert((dy as int) * (dy as int) >= 0) by (nonlinear_arith);
            assert((dx as int) * (dx as int) == 0 ==> dx as int == 0) by (nonlinear_arith);
            assert((dy as int) * (dy as int) == 0 ==> dy as int == 0) by (nonlinear_arith);
        }
        if a == b {
            assert((0int) * (0int) == 0) by (nonlinear_arith);
        }
        if d > 0x1_0000_0000u64 {
            assert((d as int) * (d as int) > 0x1_0000_0000 * 0x1_0000_0000) by (nonlinear_arith)
                requires d as int > 0x1_0000_0000;
        }
    }
    d
}

/// Straight-line velocity, held exactly as the total displacement `(dx, dy)`
/// covered over `dt` milliseconds.
#[derive(Clone, Copy, Debug, PartialEq, Eq, Structural)]
pub struct Delta {
    pub dx: i64,
    pub dy: i64,
    pub dt: u64,
}

impl Delta {
    /// A usable velocity covers its displacement over at least one
    /// millisecond, and the displacement stays within one map span.
    pub open spec fn wf(self) -> bool {
        &&& 1 <= self.dt
        &&& -2 * COORD_LIMIT <= self.dx as int <= 2 * COORD_LIMIT
        &&& -2 * COORD_LIMIT <= self.dy as int <= 2 * COORD_LIMIT
    }
}

#[derive(Clone, Copy, Debug, PartialEq, Eq, Structural)]
pub struct OrientedPoint {
    pub point: Point,
    pub orientation: Orientation,
}

impl OrientedPoint {
    pub open spec fn in_bounds(self) -> bool {
        self.point.in_bounds()
    }
}

/// A linear-motion description usable by clients to interpolate positions
/// between server ticks.  With a velocity, the position at `t` (for
/// `begin_time <= t <= begin_time + delta.dt`) is
/// `begin_location + delta * (t - begin_time)`; without one the segment is
/// stationary.  Orientation is preserved through a move: `begin_orientation`
/// holds for the whole segment, and `d_orientation` is carried for display
/// only.
#[derive(Clone, Copy, Debug)]
pub struct AnimationSegment {
    pub begin_time: TimeStamp,
    pub begin_location: Point,
    pub delta: Option<Delta>,
    pub begin_orientation: Orientation,
    pub d_orientation: Option<Orientation>,
}

impl AnimationSegment {
    pub open spec fn wf(self) -> bool {
        &&& self.begin_location.in_bounds()
        &&& match self.delta {
            Some(d) => d.wf(),
            None => true,
        }
    }

    /// The time at which the motion this segment describes ends.
    pub open spec fn end_time(self) -> int {
        match self.delta {
            Some(d) => self.begin_time + d.dt,
            None => self.begin_time as int,
        }
    }

    /// The position at `t`, as the exact integer interpolation between the
    /// segment's begin location and its displacement.
    pub open spec fn place_at_spec(self, t: int) -> Point {
        match self.delta {
            Some(d) => Point {
                x: (self.begin_location.x + geom::interp(d.dx as int, t - self.begin_time, d.dt as int)) as i64,
                y: (self.begin_location.y + geom::interp(d.dy as int, t - self.begin_time, d.dt as int)) as i64,
            },
            None => self.begin_location,
        }
    }

    /// Position on this segment at time `t`.  `t` must lie within the
    /// segment: outside it the motion is not defined by this segment, and
    /// the interpolation would leave 64 bits.
    pub fn place_at(&self, t: TimeStamp) -> (p: Point)
        requires
            self.wf(),
            self.begin_time <= t <= self.end_time(),
        ensures
            p == self.place_at_spec(t as int),
    {
        match self.delta {
            Some(d) => {
                let e: u64 = t - self.begin_time;
                let ox = geom::scaled_offset(d.dx, e, d.dt);
                let oy = geom::scaled_offset(d.dy, e, d.dt);
                Point { x: self.begin_location.x + ox, y: self.begin_location.y + oy }
            },
            None => self.begin_location,
        }
    }
}

/// A position interpolated inside a segment that ends on the map stays on
/// the map: the offset never overshoots the displacement.
pub proof fn lemma_place_at_in_bounds(seg: AnimationSegment, dest: Point, t: int)
    requires
        seg.wf(),
        seg.delta matches Some(d) && d.dx == dest.x - seg.begin_location.x && d.dy == dest.y
            - seg.begin_location.y,
        dest.in_bounds(),
        seg.begin_time <= t <= seg.end_time(),
    ensures
        seg.place_at_spec(t).in_bounds(),
{
    let d = seg.delta->Some_0;
    geom::lemma_interp_bounds(d.dx as int, t - seg.begin_time, d.dt as int);
    geom::lemma_interp_bounds(d.dy as int, t - seg.begin_time, d.dt as int);
}

/// Law: the distance covered along each axis of a segment is proportional
/// to elapsed time, to within one coordinate unit (one micrometer): scaled
/// by the duration, the offset differs from `displacement * elapsed` by
/// less than one duration's worth.
pub proof fn lemma_segment_motion_proportional(seg: AnimationSegment, dest: Point, t: int)
    requires
        seg.wf(),
        seg.delta matches Some(d) && d.dx == dest.x - seg.begin_location.x && d.dy == dest.y
            - seg.begin_location.y,
        dest.in_bounds(),
        seg.begin_time <= t <= seg.end_time(),
    ensures
        ({
            let d = seg.delta->Some_0;
            let e = t - seg.begin_time;
            let p = seg.place_at_spec(t);
            &&& (d.dx >= 0 ==> d.dx * e - d.dt < (p.x - seg.begin_location.x) * d.dt <= d.dx * e)
            &&& (d.dx < 0 ==> d.dx * e <= (p.x - seg.begin_location.x) * d.dt < d.dx * e + d.dt)
            &&& (d.dy >= 0 ==> d.dy * e - d.dt < (p.y - seg.begin_location.y) * d.dt <= d.dy * e)
            &&& (d.dy < 0 ==> d.dy * e <= (p.y - seg.begin_location.y) * d.dt < d.dy * e + d.dt)
        }),
{
    let d = seg.delta->Some_0;
    let e = t - seg.begin_time;
    geom::lemma_interp_bounds(d.dx as int, e, d.dt as int);
    geom::lemma_interp_bounds(d.dy as int, e, d.dt as int);
    geom::lemma_interp_proportional(d.dx as int, e, d.dt as int);
    geom::lemma_interp_proportional(d.dy as int, e, d.dt as int);
    lemma_place_at_in_bounds(seg, dest, t);
    let p = seg.place_at_spec(t);
    assert(p.x == seg.begin_location.x + geom::interp(d.dx as int, e, d.dt as int));
    assert(p.y == seg.begin_location.y + geom::interp(d.dy as int, e, d.dt as int));
}

/// Resource movement between two units; reserved, not simulated by the
/// motion core.
#[derive(Clone, Copy, Debug, PartialEq, Eq, Structural)]
pub struct Transfer {
    pub resource_id: ResourceId,
    pub amount: i32,
    pub source_id: Id,
    pub destination_id: Id,
}

/// A player-issued task for one unit.
#[derive(Clone, Copy, Debug, PartialEq, Eq, Structural)]
pub enum Task {
    MoveTo(Point),
    Transfer(Transfer),
}

#[derive(Clone, Copy, Debug, PartialEq, Eq, Structural)]
pub struct Health {
    pub current: u32,
    pub max: u32,
}

/// How a client should draw the unit.
#[derive(Clone, Copy, Debug, PartialEq, Eq, Structural)]
pub enum UnitDisplayType {
    SimpleUnit,
}

/// Everything a client needs to draw one unit: its display type and the
/// animation segments of its outstanding motion.
#[derive(Clone, Debug)]
pub struct Animatable {
    pub unit_id: UnitId,
    pub display_type: UnitDisplayType,
    pub queue: Vec<AnimationSegment>,
}

} // verus!

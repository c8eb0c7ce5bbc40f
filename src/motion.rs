use vstd::prelude::*;

use crate::error::SimError;

verus! {

/// Area of a freshly spawned cell, in canvas area-units (about 30 units across).
pub const INIT_SIZE: u32 = 707;

/// Period of the canvas timer in nanoseconds (30 Hz).
pub const STD_INTERVAL_NS: u64 = 33_333_333;

/// Simulated time that one frame advances every cell, in nanoseconds (1/30 s).
pub const FRAME_DELTA_NS: u64 = 33_333_333;

/// Converts a unit heading into momentum.
pub const ENERGY_FACTOR: u128 = 10000;

/// Fixed-point scale: position steps per canvas unit, and the length of a
/// heading's direction vector.
pub const UNIT: i64 = 1_000_000;

/// Nanoseconds in one second.
pub const NANOS_PER_SEC: u128 = 1_000_000_000;

/// A point of the canvas, in position steps (`UNIT` per canvas unit).
#[derive(Clone, Copy, Debug, PartialEq, Eq, Structural)]
pub struct Point {
    pub x: i64,
    pub y: i64,
}

/// A finite heading: the angle in millionths of a radian and its direction
/// vector `(cos, sin)` scaled by `UNIT`.
#[derive(Clone, Copy, Debug, PartialEq, Eq, Structural)]
pub struct Heading {
    pub micro_rads: i64,
    pub unit_x: i32,
    pub unit_y: i32,
}

/// How far the squared length of a heading's direction vector may be from
/// `UNIT * UNIT`: room for rounding each component to a whole number.
pub const UNIT_SQ_TOLERANCE: i64 = 4_000_000;

impl Heading {
    /// Each component lies in `[-UNIT, UNIT]` and the direction vector has
    /// length `UNIT`, up to `UNIT_SQ_TOLERANCE` on its square.
    pub open spec fn wf(&self) -> bool {
        &&& -UNIT <= self.unit_x <= UNIT
        &&& -UNIT <= self.unit_y <= UNIT
        &&& UNIT * UNIT - UNIT_SQ_TOLERANCE
            <= self.unit_x * self.unit_x + self.unit_y * self.unit_y
            <= UNIT * UNIT + UNIT_SQ_TOLERANCE
    }

    /// A heading from its angle and direction vector; `NumericDomain` where
    /// the vector is not of unit length.
    pub fn new(micro_rads: i64, unit_x: i32, unit_y: i32) -> (r: Result<Heading, SimError>)
        ensures
            match r {
                Ok(h) => h == (Heading { micro_rads, unit_x, unit_y }) && h.wf(),
                Err(e) => e == SimError::NumericDomain && !(Heading { micro_rads, unit_x, unit_y }).wf(),
            },
    {
        let x = unit_x as i64;
        let y = unit_y as i64;
        if x < -UNIT || x > UNIT || y < -UNIT || y > UNIT {
            return Err(SimError::NumericDomain);
        }
        assert(x * x <= 1_000_000_000_000 && y * y <= 1_000_000_000_000) by (nonlinear_arith)
            requires -1_000_000 <= x <= 1_000_000, -1_000_000 <= y <= 1_000_000;
        assert(x * x >= 0 && y * y >= 0) by (nonlinear_arith);
        let sq = x * x + y * y;
        if sq < UNIT * UNIT - UNIT_SQ_TOLERANCE || sq > UNIT * UNIT + UNIT_SQ_TOLERANCE {
            return Err(SimError::NumericDomain);
        }
        Ok(Heading { micro_rads, unit_x, unit_y })
    }
}

/// A heading that is absent (not finite) or well formed.
pub open spec fn heading_ok(h: Option<Heading>) -> bool {
    match h {
        Some(h) => h.wf(),
        None => true,
    }
}

/// The heading of a quarter turn `k` counted anticlockwise from the x axis.
pub open spec fn quarter_turn_spec(k: int) -> Heading {
    if k == 0 {
        Heading { micro_rads: 0, unit_x: 1_000_000, unit_y: 0 }
    } else if k == 1 {
        Heading { micro_rads: 1_570_796, unit_x: 0, unit_y: 1_000_000 }
    } else if k == 2 {
        Heading { micro_rads: 3_141_593, unit_x: -1_000_000i32, unit_y: 0 }
    } else {
        Heading { micro_rads: 4_712_389, unit_x: 0, unit_y: -1_000_000i32 }
    }
}

impl Heading {
    /// The exact heading along an axis: `k` quarter turns from the x axis.
    pub fn quarter_turn(k: u8) -> (r: Heading)
        requires
            k < 4,
        ensures
            r == quarter_turn_spec(k as int),
            r.wf(),
    {
        if k == 0 {
            Heading { micro_rads: 0, unit_x: 1_000_000, unit_y: 0 }
        } else if k == 1 {
            Heading { micro_rads: 1_570_796, unit_x: 0, unit_y: 1_000_000 }
        } else if k == 2 {
            Heading { micro_rads: 3_141_593, unit_x: -1_000_000, unit_y: 0 }
        } else {
            Heading { micro_rads: 4_712_389, unit_x: 0, unit_y: -1_000_000 }
        }
    }
}

/// Displacement along one axis, in position steps, of a cell of area `size`
/// whose direction component is `unit` (scaled by `UNIT`) over `delta`
/// nanoseconds: `unit/UNIT * ENERGY_FACTOR / size * delta/1e9` canvas units,
/// truncated toward zero.
pub open spec fn axis_step(unit: int, size: int, delta: int) -> int {
    let mag = if unit >= 0 { unit } else { -unit };
    let q = (mag * ENERGY_FACTOR * delta) / (size * NANOS_PER_SEC);
    if unit >= 0 { q } else { -q }
}

pub open spec fn fits_i64(v: int) -> bool {
    i64::MIN <= v <= i64::MAX
}

/// Where a cell at `p` with heading `h` and area `size` stands after `delta`
/// nanoseconds; `None` where the heading is not finite or the point leaves the
/// representable range.
pub open spec fn next_position(p: Point, h: Option<Heading>, size: u32, delta: u64) -> Option<Point> {
    match h {
        None => None,
        Some(h) => {
            let x = p.x + axis_step(h.unit_x as int, size as int, delta as int);
            let y = p.y + axis_step(h.unit_y as int, size as int, delta as int);
            if fits_i64(x) && fits_i64(y) {
                Some(Point { x: x as i64, y: y as i64 })
            } else {
                None
            }
        },
    }
}

/// An immutable record of one cell's state at one instant.
#[derive(Clone, Copy, Debug, PartialEq, Eq, Structural)]
pub struct CellInfo {
    pub id: u128,
    pub position: Point,
    /// `None` where the heading is not a finite number.
    pub heading: Option<Heading>,
    pub size: u32,
}

/// The per-cell update message of one frame.
#[derive(Clone, Copy, Debug, PartialEq, Eq, Structural)]
pub struct CellTick {
    /// Time of the frame, in nanoseconds since the canvas started.
    pub time_ns: u64,
    /// Simulated time that the frame advances, in nanoseconds.
    pub delta_ns: u64,
}

/// What a cell reports for one consumed tick: its snapshot, and a warning
/// where it could not move.
#[derive(Clone, Copy, Debug, PartialEq, Eq, Structural)]
pub struct TickReport {
    pub info: CellInfo,
    pub warning: Option<SimError>,
}

/// The mathematical state of a cell.
pub struct CellView {
    pub id: u128,
    pub name: Seq<char>,
    pub position: Point,
    pub heading: Option<Heading>,
    pub size: u32,
}

impl CellView {
    /// The state after one tick of `delta` nanoseconds: moved where the motion
    /// rule gives a representable point, otherwise unchanged.
    pub open spec fn after(self, delta: u64) -> CellView {
        match next_position(self.position, self.heading, self.size, delta) {
            Some(p) => CellView { position: p, ..self },
            None => self,
        }
    }

    /// The state after `n` ticks of `delta` nanoseconds each.
    pub open spec fn after_n(self, delta: u64, n: nat) -> CellView
        decreases n,
    {
        if n == 0 {
            self
        } else {
            self.after_n(delta, (n - 1) as nat).after(delta)
        }
    }

    pub open spec fn info(self) -> CellInfo {
        CellInfo { id: self.id, position: self.position, heading: self.heading, size: self.size }
    }
}

/// One simulated circular entity.
pub struct Cell {
    id: u128,
    name: String,
    position: Point,
    heading: Option<Heading>,
    size: u32,
}

impl View for Cell {
    type V = CellView;

    closed spec fn view(&self) -> CellView {
        CellView {
            id: self.id,
            name: self.name@,
            position: self.position,
            heading: self.heading,
            size: self.size,
        }
    }
}

/// A bound on the displacement of one tick, whatever its inputs.
pub const STEP_BOUND: i128 = 1_000_000_000_000_000_000_000_000_000_000_000;

/// Offset along one axis for one tick; see `axis_step`.
fn axis_offset(unit: i32, size: u32, delta_ns: u64) -> (r: i128)
    requires
        size > 0,
    ensures
        r == axis_step(unit as int, size as int, delta_ns as int),
        -STEP_BOUND <= r <= STEP_BOUND,
{
    let mag: u128 = if unit >= 0 { unit as u128 } else { (-(unit as i64)) as u128 };
    assert(mag <= 2_147_483_648);
    assert(mag * 10000 <= 21_474_836_480_000) by (nonlinear_arith)
        requires mag <= 2_147_483_648;
    let m: u128 = mag * 10000;
    assert(m * (delta_ns as u128) <= 21_474_836_480_000u128 * 18_446_744_073_709_551_615u128)
        by (nonlinear_arith)
        requires m <= 21_474_836_480_000u128, delta_ns as u128 <= 18_446_744_073_709_551_615u128;
    let num: u128 = m * (delta_ns as u128);
    let den: u128 = (size as u128) * 1_000_000_000;
    let q: u128 = num / den;
    assert(q <= num) by (nonlinear_arith)
        requires den >= 1, q == num / den, num >= 0;
    if unit >= 0 {
        q as i128
    } else {
        -(q as i128)
    }
}

impl Cell {
    pub open spec fn wf(&self) -> bool {
        self@.size > 0 && heading_ok(self@.heading)
    }

    /// A cell with the given state.
    pub fn new(id: u128, name: String, position: Point, heading: Option<Heading>, size: u32) -> (r: Cell)
        requires
            size > 0,
            heading_ok(heading),
        ensures
            r.wf(),
            r@ == (CellView { id, name: name@, position, heading, size }),
    {
        Cell { id, name, position, heading, size }
    }

    pub fn id(&self) -> (r: u128)
        ensures
            r == self@.id,
    {
        self.id
    }

    pub fn name(&self) -> (r: &String)
        ensures
            r@ == self@.name,
    {
        &self.name
    }

    pub fn position(&self) -> (r: Point)
        ensures
            r == self@.position,
    {
        self.position
    }

    pub fn heading(&self) -> (r: Option<Heading>)
        ensures
            r == self@.heading,
    {
        self.heading
    }

    pub fn size(&self) -> (r: u32)
        ensures
            r == self@.size,
    {
        self.size
    }

    /// The cell's current snapshot.
    pub fn info(&self) -> (r: CellInfo)
        ensures
            r == self@.info(),
    {
        CellInfo { id: self.id, position: self.position, heading: self.heading, size: self.size }
    }

    /// Consumes one tick: moves the cell by the motion rule and reports its
    /// new snapshot. A heading that is not finite, or a move out of the
    /// representable range, leaves the cell where it is and is reported as a
    /// `NumericDomain` warning.
    pub fn tick(&mut self, tick: &CellTick) -> (r: TickReport)
        requires
            old(self).wf(),
        ensures
            final(self).wf(),
            final(self)@ == old(self)@.after(tick.delta_ns),
            r.info == final(self)@.info(),
            r.warning == (if next_position(old(self)@.position, old(self)@.heading, old(self)@.size, tick.delta_ns) is None {
                Some(SimError::NumericDomain)
            } else {
                None::<SimError>
            }),
            tick.delta_ns == 0 ==> final(self)@.position == old(self)@.position,
    {
        let warning = match self.heading {
            None => Some(SimError::NumericDomain),
            Some(h) => {
                let dx = axis_offset(h.unit_x, self.size, tick.delta_ns);
                let dy = axis_offset(h.unit_y, self.size, tick.delta_ns);
                let x: i128 = self.position.x as i128 + dx;
                let y: i128 = self.position.y as i128 + dy;
                if i64::MIN as i128 <= x && x <= i64::MAX as i128 && i64::MIN as i128 <= y && y <= i64::MAX as i128 {
                    self.position = Point { x: x as i64, y: y as i64 };
                    None
                } else {
                    Some(SimError::NumericDomain)
                }
            },
        };
        proof {
            if tick.delta_ns == 0 {
                lemma_zero_delta_step(old(self)@.size as int);
            }
        }
        TickReport { info: self.info(), warning }
    }
}

/// No time elapsed, no displacement along either axis.
pub proof fn lemma_zero_delta_step(size: int)
    requires
        size > 0,
    ensures
        forall|u: int| axis_step(u, size, 0) == 0,
{
    assert forall|u: int| axis_step(u, size, 0) == 0 by {
        let mag = if u >= 0 { u } else { -u };
        assert(mag * ENERGY_FACTOR * 0 == 0) by (nonlinear_arith);
        assert(size * NANOS_PER_SEC > 0) by (nonlinear_arith) requires size > 0;
        assert(0int / (size * NANOS_PER_SEC) == 0);
    }
}

/// The step along an axis has the sign of the direction component, and is
/// zero where the component is zero.
pub proof fn lemma_step_sign(unit: int, size: int, delta: int)
    requires
        size > 0,
        delta >= 0,
    ensures
        unit == 0 ==> axis_step(unit, size, delta) == 0,
        unit >= 0 ==> axis_step(unit, size, delta) >= 0,
        unit <= 0 ==> axis_step(unit, size, delta) <= 0,
{
    let mag = if unit >= 0 { unit } else { -unit };
    let den = size * NANOS_PER_SEC;
    assert(den > 0) by (nonlinear_arith) requires size > 0, den == size * 1_000_000_000;
    assert(mag * ENERGY_FACTOR * delta >= 0) by (nonlinear_arith) requires mag >= 0, delta >= 0;
    assert((mag * ENERGY_FACTOR * delta) / den >= 0) by (nonlinear_arith)
        requires mag * ENERGY_FACTOR * delta >= 0, den > 0;
    if unit == 0 {
        assert(mag * ENERGY_FACTOR * delta == 0) by (nonlinear_arith) requires mag == 0;
    }
}

/// Axis headings move a cell along one axis only: a quarter turn `k` of
/// 0, 1, 2 or 3 moves it toward +x, +y, -x or -y, and leaves the other
/// coordinate as it was.
pub proof fn lemma_axis_motion(c: CellView, k: int, delta: u64)
    requires
        c.size > 0,
        0 <= k < 4,
        c.heading == Some(quarter_turn_spec(k)),
    ensures
        k == 0 ==> c.after(delta).position.y == c.position.y && c.after(delta).position.x >= c.position.x,
        k == 1 ==> c.after(delta).position.x == c.position.x && c.after(delta).position.y >= c.position.y,
        k == 2 ==> c.after(delta).position.y == c.position.y && c.after(delta).position.x <= c.position.x,
        k == 3 ==> c.after(delta).position.x == c.position.x && c.after(delta).position.y <= c.position.y,
{
    let h = quarter_turn_spec(k);
    lemma_step_sign(h.unit_x as int, c.size as int, delta as int);
    lemma_step_sign(h.unit_y as int, c.size as int, delta as int);
}

/// Drift: with a finite heading and ticks of constant length `delta`, after
/// `n` ticks the identity, name, heading and size are unchanged and the
/// position is the initial one plus `n` times the one-tick displacement,
/// provided the end point is representable.
pub proof fn lemma_drift(c: CellView, delta: u64, n: nat)
    requires
        c.size > 0,
        c.heading is Some,
        fits_i64(c.position.x + n * axis_step(c.heading->0.unit_x as int, c.size as int, delta as int)),
        fits_i64(c.position.y + n * axis_step(c.heading->0.unit_y as int, c.size as int, delta as int)),
    ensures
        c.after_n(delta, n) == (CellView {
            position: Point {
                x: (c.position.x + n * axis_step(c.heading->0.unit_x as int, c.size as int, delta as int)) as i64,
                y: (c.position.y + n * axis_step(c.heading->0.unit_y as int, c.size as int, delta as int)) as i64,
            },
            ..c
        }),
    decreases n,
{
    let dx = axis_step(c.heading->0.unit_x as int, c.size as int, delta as int);
    let dy = axis_step(c.heading->0.unit_y as int, c.size as int, delta as int);
    let x0 = c.position.x as int;
    let y0 = c.position.y as int;
    if n == 0 {
        assert(c.position == Point { x: (x0 + 0 * dx) as i64, y: (y0 + 0 * dy) as i64 });
    } else {
        let m = (n - 1) as nat;
        assert(fits_i64(x0 + m * dx)) by (nonlinear_arith)
            requires fits_i64(x0), fits_i64(x0 + n * dx), m + 1 == n, m >= 0;
        assert(fits_i64(y0 + m * dy)) by (nonlinear_arith)
            requires fits_i64(y0), fits_i64(y0 + n * dy), m + 1 == n, m >= 0;
        lemma_drift(c, delta, m);
        assert(x0 + m * dx + dx == x0 + n * dx) by (nonlinear_arith) requires m + 1 == n;
        assert(y0 + m * dy + dy == y0 + n * dy) by (nonlinear_arith) requires m + 1 == n;
    }
}

} // verus!

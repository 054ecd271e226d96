//! Fixed-point vectors.
//!
//! Every quantity of the simulation is an integer count of a small unit, so
//! that motion is exact and reproducible:
//!
//! * time is counted in nanoseconds;
//! * a length is counted in trillionths (10^-12) of a world unit;
//! * a velocity is counted in length units per nanosecond, which is one
//!   thousandth of a world unit per second.
//!
//! A position advanced by a velocity for a number of nanoseconds is therefore
//! a plain multiplication and addition, with nothing rounded.
//!
//! Coordinates of positions are kept within `WORLD_LIMIT` of the origin; a
//! position that would leave the world stops at its edge.
use vstd::prelude::*;

verus! {

/// The largest magnitude of a coordinate of a position: 2^61 length units,
/// about 2.3 million world units.
pub const WORLD_LIMIT: i64 = 2_305_843_009_213_693_952;

/// The number of length units in one world unit.
pub const LENGTH_UNITS_PER_WORLD_UNIT: i64 = 1_000_000_000_000;

/// A vector of three fixed-point components. It stands for a position, a
/// displacement or a velocity, depending on where it is used.
#[derive(Clone, Copy, Debug, Default, PartialEq, Eq, Structural)]
pub struct Vec3 {
    pub x: i64,
    pub y: i64,
    pub z: i64,
}

/// A coordinate brought back into the world: values beyond `WORLD_LIMIT` on
/// either side become the limit on that side.
pub open spec fn clamp_coord(c: int) -> int {
    if c < -WORLD_LIMIT {
        -WORLD_LIMIT as int
    } else if c > WORLD_LIMIT {
        WORLD_LIMIT as int
    } else {
        c
    }
}

/// `r` is the integer square root of `n`, rounded down.
pub open spec fn is_floor_sqrt(n: nat, r: nat) -> bool {
    r * r <= n < (r + 1) * (r + 1)
}

/// The integer square root of `n`, rounded down.
pub open spec fn floor_sqrt(n: nat) -> nat {
    choose|r: nat| is_floor_sqrt(n, r)
}

/// One component `c` of a vector of length `len`, rescaled so that the vector
/// has length `speed`. The quotient is rounded toward zero.
pub open spec fn rescaled(c: int, speed: nat, len: nat) -> int {
    if c >= 0 {
        (c * speed) / (len as int)
    } else {
        -(((-c) * speed) / (len as int))
    }
}

/// Squares grow with their argument.
pub proof fn lemma_square_monotone(a: nat, b: nat)
    requires
        a <= b,
    ensures
        a * a <= b * b,
{
    assert(a * a <= b * b) by (nonlinear_arith)
        requires
            a <= b,
    ;
}

/// A number has only one rounded-down square root.
pub proof fn lemma_floor_sqrt_unique(n: nat, r: nat)
    requires
        is_floor_sqrt(n, r),
    ensures
        floor_sqrt(n) == r,
{
    let s = floor_sqrt(n);
    assert(is_floor_sqrt(n, s));
    if s < r {
        lemma_square_monotone(s + 1, r);
    } else if r < s {
        lemma_square_monotone(r + 1, s);
    }
}

/// Every number has a rounded-down square root.
pub proof fn lemma_floor_sqrt_exists(n: nat)
    ensures
        is_floor_sqrt(n, floor_sqrt(n)),
    decreases n,
{
    if n == 0 {
        assert(is_floor_sqrt(0, 0)) by (nonlinear_arith);
    } else {
        lemma_floor_sqrt_exists((n - 1) as nat);
        let r = floor_sqrt((n - 1) as nat);
        if (r + 1) * (r + 1) <= n {
            assert((r + 1) * (r + 1) < (r + 2) * (r + 2)) by (nonlinear_arith)
                requires
                    r >= 0,
            ;
            assert(is_floor_sqrt(n, r + 1));
        } else {
            assert(is_floor_sqrt(n, r));
        }
    }
}

/// A vector rescaled to a speed has no component beyond that speed, and
/// each component points the way it did.
pub proof fn lemma_with_length_is_bounded(d: Vec3, speed: nat)
    requires
        !d.is_zero(),
        speed <= u32::MAX,
    ensures
        ({
            let v = d.with_length(speed);
            &&& -speed <= v.x <= speed && (d.x >= 0 ==> v.x >= 0) && (d.x <= 0 ==> v.x <= 0)
            &&& -speed <= v.y <= speed && (d.y >= 0 ==> v.y >= 0) && (d.y <= 0 ==> v.y <= 0)
            &&& -speed <= v.z <= speed && (d.z >= 0 ==> v.z >= 0) && (d.z <= 0 ==> v.z <= 0)
        }),
{
    let n = d.norm_squared();
    let len = floor_sqrt(n);
    let (x, y, z) = (d.x as int, d.y as int, d.z as int);
    lemma_floor_sqrt_exists(n);
    assert(x * x >= 0 && y * y >= 0 && z * z >= 0 && (x * x + y * y + z * z > 0)) by (nonlinear_arith)
        requires
            x != 0 || y != 0 || z != 0,
    ;
    assert(len > 0) by (nonlinear_arith)
        requires
            n > 0,
            n < (len + 1) * (len + 1),
    ;
    lemma_component_below_length(x, n, len);
    lemma_component_below_length(y, n, len);
    lemma_component_below_length(z, n, len);
    lemma_rescaled_is_bounded(x, speed, len);
    lemma_rescaled_is_bounded(y, speed, len);
    lemma_rescaled_is_bounded(z, speed, len);
}

/// A component no longer than the vector is, rescaled, no longer than the
/// speed.
proof fn lemma_rescaled_is_bounded(c: int, speed: nat, len: nat)
    requires
        len > 0,
        -len <= c <= len,
    ensures
        -speed <= rescaled(c, speed, len) <= speed,
        c >= 0 ==> rescaled(c, speed, len) >= 0,
        c <= 0 ==> rescaled(c, speed, len) <= 0,
{
    let a: int = if c >= 0 {
        c
    } else {
        -c
    };
    assert(0 <= (a * speed) / (len as int) <= speed && (a == 0 ==> (a * speed) / (len as int)
        == 0)) by (nonlinear_arith)
        requires
            0 <= a <= len,
            0 < len,
            0 <= speed,
    ;
}

/// The rounded-down square root of a number below 2^128.
pub fn isqrt(n: u128) -> (r: u64)
    ensures
        is_floor_sqrt(n as nat, r as nat),
        r as nat == floor_sqrt(n as nat),
{
    let mut lo: u128 = 0;
    let mut hi: u128 = 0x1_0000_0000_0000_0000;
    assert(n < hi * hi) by (nonlinear_arith)
        requires
            hi == 0x1_0000_0000_0000_0000u128,
            n <= u128::MAX,
    ;
    while hi - lo > 1
        invariant
            lo < hi <= 0x1_0000_0000_0000_0000,
            lo * lo <= n < hi * hi,
        decreases hi - lo,
    {
        let mid: u128 = lo + (hi - lo) / 2;
        assert(mid * mid <= u128::MAX) by (nonlinear_arith)
            requires
                mid <= 0xffff_ffff_ffff_ffffu128,
        ;
        if mid * mid <= n {
            lo = mid;
        } else {
            hi = mid;
        }
    }
    proof {
        assert(hi == lo + 1);
        lemma_floor_sqrt_unique(n as nat, lo as nat);
    }
    lo as u64
}

impl Vec3 {
    /// The vector with the given components.
    pub fn new(x: i64, y: i64, z: i64) -> (v: Vec3)
        ensures
            v == (Vec3 { x, y, z }),
    {
        Vec3 { x, y, z }
    }

    /// Every coordinate lies within `WORLD_LIMIT` of the origin.
    pub open spec fn in_world(self) -> bool {
        &&& -WORLD_LIMIT <= self.x <= WORLD_LIMIT
        &&& -WORLD_LIMIT <= self.y <= WORLD_LIMIT
        &&& -WORLD_LIMIT <= self.z <= WORLD_LIMIT
    }

    /// Every component is at most the distance between two opposite edges of
    /// the world, as the difference of two positions is.
    pub open spec fn is_displacement(self) -> bool {
        &&& -2 * WORLD_LIMIT <= self.x <= 2 * WORLD_LIMIT
        &&& -2 * WORLD_LIMIT <= self.y <= 2 * WORLD_LIMIT
        &&& -2 * WORLD_LIMIT <= self.z <= 2 * WORLD_LIMIT
    }

    /// All three components are zero.
    pub open spec fn is_zero(self) -> bool {
        self.x == 0 && self.y == 0 && self.z == 0
    }

    /// The position reached from `self` by moving at `velocity` for `dt`
    /// nanoseconds, stopped at the edge of the world.
    pub open spec fn moved(self, velocity: Vec3, dt: nat) -> Vec3 {
        Vec3 {
            x: clamp_coord(self.x + velocity.x * dt) as i64,
            y: clamp_coord(self.y + velocity.y * dt) as i64,
            z: clamp_coord(self.z + velocity.z * dt) as i64,
        }
    }

    /// The position `self` displaced by `offset`, stopped at the edge of the
    /// world.
    pub open spec fn shifted(self, offset: Vec3) -> Vec3 {
        Vec3 {
            x: clamp_coord(self.x + offset.x) as i64,
            y: clamp_coord(self.y + offset.y) as i64,
            z: clamp_coord(self.z + offset.z) as i64,
        }
    }

    /// The displacement that leads from `origin` to `self`.
    pub open spec fn displacement_from(self, origin: Vec3) -> Vec3 {
        Vec3 {
            x: (self.x - origin.x) as i64,
            y: (self.y - origin.y) as i64,
            z: (self.z - origin.z) as i64,
        }
    }

    /// The square of the Euclidean length of `self`.
    pub open spec fn norm_squared(self) -> nat {
        (self.x * self.x + self.y * self.y + self.z * self.z) as nat
    }

    /// The square of the Euclidean distance between `self` and `other`.
    pub open spec fn distance_squared(self, other: Vec3) -> nat {
        ((self.x - other.x) * (self.x - other.x) + (self.y - other.y) * (self.y - other.y) + (
        self.z - other.z) * (self.z - other.z)) as nat
    }

    /// The vector that points where `self` points, rescaled toward length
    /// `speed`: each component of `self` times `speed`, divided by the length
    /// of `self` rounded down to a whole number, the quotient rounded toward
    /// zero.
    ///
    /// Because the length is rounded down before the division, the result
    /// is not shorter than it would be with the exact length, and for a
    /// vector of a few units it is longer than `speed`: (1, 1, 0) has the
    /// rounded length 1 and gives (`speed`, `speed`, 0). For a vector of
    /// many units, as a displacement between two entities is, the result
    /// has length `speed` to within that rounding. No component is ever
    /// beyond `speed` (`lemma_with_length_is_bounded`).
    pub open spec fn with_length(self, speed: nat) -> Vec3 {
        let len = floor_sqrt(self.norm_squared());
        Vec3 {
            x: rescaled(self.x as int, speed, len) as i64,
            y: rescaled(self.y as int, speed, len) as i64,
            z: rescaled(self.z as int, speed, len) as i64,
        }
    }

    /// Tells whether the vector is a position inside the world.
    pub fn is_in_world(&self) -> (b: bool)
        ensures
            b == self.in_world(),
    {
        within(self.x, WORLD_LIMIT) && within(self.y, WORLD_LIMIT) && within(self.z, WORLD_LIMIT)
    }

    /// Moves a position at `velocity` for `dt` nanoseconds.
    pub fn advance(&self, velocity: &Vec3, dt: u64) -> (p: Vec3)
        ensures
            p == self.moved(*velocity, dt as nat),
            p.in_world(),
    {
        Vec3 {
            x: advance_coord(self.x, velocity.x, dt),
            y: advance_coord(self.y, velocity.y, dt),
            z: advance_coord(self.z, velocity.z, dt),
        }
    }

    /// Displaces a position by `offset`.
    pub fn shift(&self, offset: &Vec3) -> (p: Vec3)
        ensures
            p == self.shifted(*offset),
            p.in_world(),
    {
        Vec3 {
            x: clamp_to_world(self.x as i128 + offset.x as i128),
            y: clamp_to_world(self.y as i128 + offset.y as i128),
            z: clamp_to_world(self.z as i128 + offset.z as i128),
        }
    }

    /// The displacement from `origin` to `self`, both positions in the world.
    pub fn minus(&self, origin: &Vec3) -> (d: Vec3)
        requires
            self.in_world(),
            origin.in_world(),
        ensures
            d == self.displacement_from(*origin),
            d.is_displacement(),
            d.norm_squared() == self.distance_squared(*origin),
            d.is_zero() <==> *self == *origin,
    {
        Vec3 { x: self.x - origin.x, y: self.y - origin.y, z: self.z - origin.z }
    }

    /// The squared length of a displacement.
    pub fn length_squared(&self) -> (n: u128)
        requires
            self.is_displacement(),
        ensures
            n == self.norm_squared(),
            n == self.x * self.x + self.y * self.y + self.z * self.z,
            n == 0 <==> self.is_zero(),
    {
        let x: u128 = square(self.x);
        let y: u128 = square(self.y);
        let z: u128 = square(self.z);
        x + y + z
    }

    /// The squared distance between two positions in the world.
    pub fn distance_squared_to(&self, other: &Vec3) -> (n: u128)
        requires
            self.in_world(),
            other.in_world(),
        ensures
            n == self.distance_squared(*other),
    {
        self.minus(other).length_squared()
    }

    /// Rescales a displacement to length `speed`. A zero displacement points
    /// nowhere and has no rescaled form.
    pub fn aimed(&self, speed: u32) -> (v: Option<Vec3>)
        requires
            self.is_displacement(),
        ensures
            self.is_zero() <==> v is None,
            v matches Some(w) ==> w == self.with_length(speed as nat),
    {
        let n: u128 = self.length_squared();
        if n == 0 {
            return None;
        }
        let len: u64 = isqrt(n);
        proof {
            let (x, y, z) = (self.x as int, self.y as int, self.z as int);
            assert(len > 0) by (nonlinear_arith)
                requires
                    n > 0,
                    n < (len + 1) * (len + 1),
            ;
            assert(x * x <= n && y * y <= n && z * z <= n) by (nonlinear_arith)
                requires
                    n == x * x + y * y + z * z,
            ;
            lemma_component_below_length(self.x as int, n as nat, len as nat);
            lemma_component_below_length(self.y as int, n as nat, len as nat);
            lemma_component_below_length(self.z as int, n as nat, len as nat);
        }
        Some(
            Vec3 {
                x: rescale(self.x, speed, len),
                y: rescale(self.y, speed, len),
                z: rescale(self.z, speed, len),
            },
        )
    }
}

/// A component of a vector is no longer than the vector.
proof fn lemma_component_below_length(c: int, n: nat, len: nat)
    requires
        c * c <= n,
        is_floor_sqrt(n, len),
    ensures
        -len <= c <= len,
{
    let a: nat = if c >= 0 {
        c as nat
    } else {
        (-c) as nat
    };
    assert(a * a == c * c) by (nonlinear_arith)
        requires
            a == c || a == -c,
    ;
    if a > len {
        lemma_square_monotone(len + 1, a);
    }
}

fn within(c: i64, limit: i64) -> (b: bool)
    requires
        0 <= limit,
    ensures
        b == (-limit <= c <= limit),
{
    -limit <= c && c <= limit
}

fn clamp_to_world(c: i128) -> (r: i64)
    ensures
        r == clamp_coord(c as int),
        -WORLD_LIMIT <= r <= WORLD_LIMIT,
{
    if c < -(WORLD_LIMIT as i128) {
        -WORLD_LIMIT
    } else if c > WORLD_LIMIT as i128 {
        WORLD_LIMIT
    } else {
        c as i64
    }
}

fn advance_coord(c: i64, v: i64, dt: u64) -> (r: i64)
    ensures
        r == clamp_coord(c + v * dt),
        -WORLD_LIMIT <= r <= WORLD_LIMIT,
{
    assert(-0x7fff_ffff_ffff_ffff_8000_0000_0000_0000 <= v * dt
        <= 0x7fff_ffff_ffff_ffff_0000_0000_0000_0000) by (nonlinear_arith)
        requires
            -0x8000_0000_0000_0000 <= v <= 0x7fff_ffff_ffff_ffff,
            0 <= dt <= 0xffff_ffff_ffff_ffff,
    ;
    let step: i128 = (v as i128) * (dt as i128);
    clamp_to_world(c as i128 + step)
}

fn square(c: i64) -> (n: u128)
    requires
        -2 * WORLD_LIMIT <= c <= 2 * WORLD_LIMIT,
    ensures
        n == c * c,
        n <= 0x1000_0000_0000_0000_0000_0000_0000_0000,
        n == 0 <==> c == 0,
{
    let a: u128 = if c >= 0 {
        c as u128
    } else {
        (-c) as u128
    };
    assert(a * a == c * c && a * a <= 0x1000_0000_0000_0000_0000_0000_0000_0000 && (a * a == 0
        <==> c == 0)) by (nonlinear_arith)
        requires
            a == c || a == -c,
            0 <= a <= 0x4000_0000_0000_0000,
    ;
    a * a
}

fn rescale(c: i64, speed: u32, len: u64) -> (r: i64)
    requires
        len > 0,
        -len <= c <= len,
    ensures
        r == rescaled(c as int, speed as nat, len as nat),
        -speed <= r <= speed,
{
    let a: u128 = if c >= 0 {
        c as u128
    } else {
        (-(c as i128)) as u128
    };
    assert(0 <= a * speed <= len * speed && (a * speed) / (len as int) <= speed) by (nonlinear_arith)
        requires
            0 <= a <= len,
            0 < len,
            0 <= speed,
    ;
    assert(len * speed <= 0xffff_ffff_ffff_ffff * 0xffff_ffff) by (nonlinear_arith)
        requires
            0 <= len <= 0xffff_ffff_ffff_ffff,
            0 <= speed <= 0xffff_ffff,
    ;
    let q: u128 = (a * (speed as u128)) / (len as u128);
    if c >= 0 {
        q as i64
    } else {
        -(q as i64)
    }
}

} // verus!

//! Fixed-point planar quantities.
//!
//! Every length, position, velocity and mass in this crate is a whole number
//! of thousandths of the corresponding world unit. Arithmetic is therefore
//! exact and identical on every machine. Rounding happens in three places
//! only: [`isqrt`] and [`floor_div`] round down, and [`clamp_i32`] stops at
//! the limits of a component.

use vstd::prelude::*;

verus! {

/// Number of fixed-point steps in one world unit.
pub const SCALE: i64 = 1000;

/// Length of a unit vector, in the steps directions are measured in.
pub const UNIT: i64 = 1_000_000;

/// A planar quantity: a position, a displacement or a velocity.
#[derive(Clone, Copy, Debug, PartialEq, Eq, Structural)]
pub struct Vector {
    pub x: i32,
    pub y: i32,
}

/// `r` is the square root of `n`, rounded down.
pub open spec fn is_floor_sqrt(r: nat, n: nat) -> bool {
    r * r <= n < (r + 1) * (r + 1)
}

/// The square root of `n`, rounded down.
pub open spec fn floor_sqrt(n: nat) -> nat {
    choose|r: nat| is_floor_sqrt(r, n)
}

/// The nearest component value to `v`.
pub open spec fn clamped(v: int) -> int {
    if v < i32::MIN as int {
        i32::MIN as int
    } else if v > i32::MAX as int {
        i32::MAX as int
    } else {
        v
    }
}

/// Squares are monotone on the naturals.
pub proof fn lemma_square_monotone(a: nat, b: nat)
    requires
        a <= b,
    ensures
        a * a <= b * b,
{
    assert(a * a <= b * b) by (nonlinear_arith)
        requires
            a <= b,
    ;
}

/// A number has at most one rounded-down square root.
pub proof fn lemma_floor_sqrt_unique(a: nat, b: nat, n: nat)
    requires
        is_floor_sqrt(a, n),
        is_floor_sqrt(b, n),
    ensures
        a == b,
{
    if a < b {
        lemma_square_monotone(a + 1, b);
    } else if b < a {
        lemma_square_monotone(b + 1, a);
    }
}

/// Every number has a rounded-down square root, and `floor_sqrt` is it.
pub proof fn lemma_floor_sqrt(n: nat)
    ensures
        is_floor_sqrt(floor_sqrt(n), n),
    decreases n,
{
    if n == 0 {
        assert(is_floor_sqrt(0, 0)) by (nonlinear_arith);
    } else {
        lemma_floor_sqrt((n - 1) as nat);
        let r = floor_sqrt((n - 1) as nat);
        if n < (r + 1) * (r + 1) {
            assert(is_floor_sqrt(r, n));
        } else {
            assert((r + 1 + 1) * (r + 1 + 1) > (r + 1) * (r + 1)) by (nonlinear_arith);
            assert(is_floor_sqrt(r + 1, n));
        }
    }
}

/// Square root of `n`, rounded down.
pub fn isqrt(n: u64) -> (r: u32)
    ensures
        r == floor_sqrt(n as nat),
        is_floor_sqrt(r as nat, n as nat),
{
    let mut lo: u64 = 0;
    let mut hi: u64 = 0x1_0000_0000;
    assert(0x1_0000_0000 * 0x1_0000_0000 > n) by (nonlinear_arith)
        requires
            n <= u64::MAX,
    ;
    while hi - lo > 1
        invariant
            lo < hi <= 0x1_0000_0000,
            lo * lo <= n < hi * hi,
        decreases hi - lo,
    {
        let mid: u64 = lo + (hi - lo) / 2;
        assert(mid * mid <= 0xFFFF_FFFF * 0xFFFF_FFFF) by (nonlinear_arith)
            requires
                0 <= mid <= 0xFFFF_FFFF,
        ;
        if mid * mid <= n {
            lo = mid;
        } else {
            hi = mid;
        }
    }
    proof {
        assert(is_floor_sqrt(lo as nat, n as nat));
        lemma_floor_sqrt_unique(lo as nat, floor_sqrt(n as nat), n as nat);
    }
    lo as u32
}

/// The nearest component value to `v`.
pub fn clamp_i32(v: i128) -> (r: i32)
    ensures
        r == clamped(v as int),
{
    if v < i32::MIN as i128 {
        i32::MIN
    } else if v > i32::MAX as i128 {
        i32::MAX
    } else {
        v as i32
    }
}

/// The quotient of `a` by a positive `d`, rounded down.
pub fn floor_div(a: i128, d: i128) -> (q: i128)
    requires
        d > 0,
    ensures
        q == a as int / d as int,
{
    let t: i128 = a / d;
    let r: i128 = a % d;
    proof {
        let ai = a as int;
        let di = d as int;
        if ai >= 0 {
            assert(t == ai / di && r == ai % di);
            vstd::arithmetic::div_mod::lemma_mod_pos_bound(ai, di);
        } else {
            let na = -ai;
            assert(t == -(na / di) && r == -(na % di));
            vstd::arithmetic::div_mod::lemma_fundamental_div_mod(na, di);
            vstd::arithmetic::div_mod::lemma_mod_pos_bound(na, di);
            let tq = na / di;
            let tr = na % di;
            if tr == 0 {
                assert(ai == di * (-tq) + 0) by (nonlinear_arith)
                    requires
                        na == di * tq + tr,
                        tr == 0,
                        ai == -na,
                ;
                vstd::arithmetic::div_mod::lemma_fundamental_div_mod_converse(ai, di, -tq, 0);
            } else {
                assert(ai == di * (-tq - 1) + (di - tr)) by (nonlinear_arith)
                    requires
                        na == di * tq + tr,
                        ai == -na,
                ;
                vstd::arithmetic::div_mod::lemma_fundamental_div_mod_converse(
                    ai,
                    di,
                    -tq - 1,
                    di - tr,
                );
                assert(tq >= 0) by (nonlinear_arith)
                    requires
                        na == di * tq + tr,
                        na > 0,
                        di > 0,
                        0 <= tr < di,
                ;
                assert(tq < na) by (nonlinear_arith)
                    requires
                        na == di * tq + tr,
                        di > 0,
                        tq >= 0,
                        0 < tr,
                ;
            }
        }
    }
    if r < 0 {
        t - 1
    } else {
        t
    }
}

/// The share of a direction that falls on one axis. `c` is the component
/// of the quantity on that axis and `q` the squared length of the quantity.
/// The share is the root of `c * c * UNIT * UNIT / q`, quotient and root
/// rounded down, with the sign of `c`.
pub open spec fn spec_unit_component(c: int, q: int) -> int {
    let share = floor_sqrt(((c * c * (UNIT * UNIT)) / q) as nat) as int;
    if c >= 0 {
        share
    } else {
        -share
    }
}

/// A magnitude laid along one axis of a direction: `h` is the direction's
/// component on that axis. The product is divided by [`UNIT`] and rounded
/// towards zero.
pub open spec fn spec_scaled_component(h: int, magnitude: int) -> int {
    if h >= 0 {
        (h * magnitude) / (UNIT as int)
    } else {
        -((-h * magnitude) / (UNIT as int))
    }
}

/// How much shorter than its magnitude a quantity laid along a direction
/// can turn out, because of rounding.
pub open spec fn spec_slack(magnitude: int) -> int {
    2 * (magnitude / (UNIT as int)) + 4
}

/// A root is at most a bound whose square the number does not exceed.
pub proof fn lemma_floor_sqrt_at_most(n: nat, bound: nat)
    requires
        n <= bound * bound,
    ensures
        floor_sqrt(n) <= bound,
{
    lemma_floor_sqrt(n);
    if floor_sqrt(n) > bound {
        lemma_square_monotone(bound + 1, floor_sqrt(n));
        assert((bound + 1) * (bound + 1) > bound * bound) by (nonlinear_arith);
    }
}

/// A root is at least a bound whose square the number reaches.
pub proof fn lemma_floor_sqrt_at_least(n: nat, bound: nat)
    requires
        n >= bound * bound,
    ensures
        floor_sqrt(n) >= bound,
{
    lemma_floor_sqrt(n);
    if floor_sqrt(n) < bound {
        lemma_square_monotone(floor_sqrt(n) + 1, bound);
    }
}

/// Moving both legs of a right angle in by one step shortens the long side
/// by at most two.
pub proof fn lemma_one_step_in(a: int, b: int, m: int)
    requires
        a >= 0,
        b >= 0,
        m >= 2,
        (a + 1) * (a + 1) + (b + 1) * (b + 1) >= m * m,
    ensures
        a * a + b * b >= (m - 2) * (m - 2),
{
    if a * a + b * b < (m - 2) * (m - 2) {
        assert((a + b) * (a + b) <= 2 * (a * a + b * b)) by (nonlinear_arith);
        assert((a + b) * (a + b) < (2 * (m - 2)) * (2 * (m - 2))) by (nonlinear_arith)
            requires
                (a + b) * (a + b) <= 2 * (a * a + b * b),
                a * a + b * b < (m - 2) * (m - 2),
                m >= 2,
        ;
        assert(a + b < 2 * (m - 2)) by (nonlinear_arith)
            requires
                (a + b) * (a + b) < (2 * (m - 2)) * (2 * (m - 2)),
                a + b >= 0,
                m >= 2,
        ;
        assert(false) by (nonlinear_arith)
            requires
                a * a + b * b < (m - 2) * (m - 2),
                a + b < 2 * (m - 2),
                (a + 1) * (a + 1) + (b + 1) * (b + 1) >= m * m,
        ;
    }
}

/// Only zero has a square that is not above zero.
proof fn lemma_drop_to_zero(r: int, n: int)
    requires
        r >= 0,
        n == 0,
        r * r <= n,
    ensures
        r == 0,
{
    assert(r == 0) by (nonlinear_arith)
        requires
            r >= 0,
            r * r <= 0,
    ;
}

/// The direction of a quantity that has a length is as long as [`UNIT`],
/// or shorter by no more than two steps: it is not longer, and one step
/// more on each axis makes it longer.
pub proof fn lemma_unit_length(v: Vector)
    requires
        v.spec_length_squared() > 0,
    ensures
        ({
            let u = v.spec_normalize_or_zero();
            &&& -UNIT <= u.x <= UNIT
            &&& -UNIT <= u.y <= UNIT
            &&& u.x == spec_unit_component(v.x as int, v.spec_length_squared() as int)
            &&& u.y == spec_unit_component(v.y as int, v.spec_length_squared() as int)
            &&& (v.x >= 0 ==> u.x >= 0) && (v.x <= 0 ==> u.x <= 0)
            &&& (v.y >= 0 ==> u.y >= 0) && (v.y <= 0 ==> u.y <= 0)
            &&& u.x * u.x + u.y * u.y <= UNIT * UNIT
            &&& u.x * u.x + u.y * u.y >= (UNIT - 2) * (UNIT - 2)
        }),
{
    let x = v.x as int;
    let y = v.y as int;
    let q = v.spec_length_squared() as int;
    let uu = UNIT * UNIT;
    assert(x * x >= 0 && y * y >= 0) by (nonlinear_arith);
    assert(q == x * x + y * y);
    let px = x * x * uu;
    let py = y * y * uu;
    assert(px >= 0 && py >= 0 && px + py == q * uu) by (nonlinear_arith)
        requires
            px == x * x * uu,
            py == y * y * uu,
            q == x * x + y * y,
            x * x >= 0,
            y * y >= 0,
            uu >= 0,
    ;
    let nx = px / q;
    let ny = py / q;
    vstd::arithmetic::div_mod::lemma_fundamental_div_mod(px, q);
    vstd::arithmetic::div_mod::lemma_fundamental_div_mod(py, q);
    vstd::arithmetic::div_mod::lemma_mod_pos_bound(px, q);
    vstd::arithmetic::div_mod::lemma_mod_pos_bound(py, q);
    assert(0 <= nx && 0 <= ny && nx + ny <= uu && uu < nx + ny + 2) by (nonlinear_arith)
        requires
            px == q * nx + px % q,
            py == q * ny + py % q,
            0 <= px % q < q,
            0 <= py % q < q,
            px + py == q * uu,
            px >= 0,
            py >= 0,
            q > 0,
    ;
    let rx = floor_sqrt(nx as nat) as int;
    let ry = floor_sqrt(ny as nat) as int;
    lemma_floor_sqrt(nx as nat);
    lemma_floor_sqrt(ny as nat);
    lemma_floor_sqrt_at_most(nx as nat, UNIT as nat);
    lemma_floor_sqrt_at_most(ny as nat, UNIT as nat);
    assert((rx + 1) * (rx + 1) + (ry + 1) * (ry + 1) >= UNIT * UNIT);
    lemma_one_step_in(rx, ry, UNIT as int);
    if x == 0 {
        assert(px == 0) by (nonlinear_arith)
            requires
                px == x * x * uu,
                x == 0,
        ;
        lemma_drop_to_zero(rx, nx);
    }
    if y == 0 {
        assert(py == 0) by (nonlinear_arith)
            requires
                py == y * y * uu,
                y == 0,
        ;
        lemma_drop_to_zero(ry, ny);
    }
    let u = v.spec_normalize_or_zero();
    assert(u.x == spec_unit_component(x, q));
    assert(u.y == spec_unit_component(y, q));
    assert(u.x * u.x == rx * rx) by (nonlinear_arith)
        requires
            u.x == rx || u.x == -rx,
    ;
    assert(u.y * u.y == ry * ry) by (nonlinear_arith)
        requires
            u.y == ry || u.y == -ry,
    ;
}

/// The square of a product is the product of the squares.
proof fn lemma_square_of_product(a: int, b: int)
    ensures
        (a * b) * (a * b) == (a * a) * (b * b),
{
    assert((a * b) * (a * b) == (a * a) * (b * b)) by (nonlinear_arith);
}

/// Squares keep the order of what is not negative.
proof fn lemma_squares_ordered(a: int, b: int)
    requires
        0 <= a <= b,
    ensures
        a * a <= b * b,
{
    assert(a * a <= b * b) by (nonlinear_arith)
        requires
            0 <= a <= b,
    ;
}

/// A common positive factor can be dropped from both sides.
proof fn lemma_drop_factor(a: int, b: int, c: int)
    requires
        c > 0,
        a * c <= b * c,
    ensures
        a <= b,
{
    assert(a <= b) by (nonlinear_arith)
        requires
            c > 0,
            a * c <= b * c,
    ;
}

/// A magnitude laid along a direction comes out no longer than the
/// magnitude, and shorter by no more than the slack.
pub proof fn lemma_scaled_length(hx: int, hy: int, magnitude: int)
    requires
        magnitude >= 0,
        hx * hx + hy * hy <= UNIT * UNIT,
        hx * hx + hy * hy >= (UNIT - 2) * (UNIT - 2),
    ensures
        ({
            let a = spec_scaled_component(hx, magnitude);
            let b = spec_scaled_component(hy, magnitude);
            &&& -magnitude <= a <= magnitude
            &&& -magnitude <= b <= magnitude
            &&& a * a + b * b <= magnitude * magnitude
            &&& magnitude >= spec_slack(magnitude) ==> a * a + b * b >= (magnitude - spec_slack(
                magnitude,
            )) * (magnitude - spec_slack(magnitude))
        }),
{
    let u = UNIT as int;
    let m = magnitude;
    let xx: int = if hx >= 0 {
        hx
    } else {
        -hx
    };
    let yy: int = if hy >= 0 {
        hy
    } else {
        -hy
    };
    assert(xx * xx == hx * hx && yy * yy == hy * hy) by (nonlinear_arith)
        requires
            xx == hx || xx == -hx,
            yy == hy || yy == -hy,
    ;
    let r = xx * m;
    let t = yy * m;
    assert(r >= 0 && t >= 0) by (nonlinear_arith)
        requires
            r == xx * m,
            t == yy * m,
            xx >= 0,
            yy >= 0,
            m >= 0,
    ;
    let aa = r / u;
    let bb = t / u;
    vstd::arithmetic::div_mod::lemma_fundamental_div_mod(r, u);
    vstd::arithmetic::div_mod::lemma_fundamental_div_mod(t, u);
    vstd::arithmetic::div_mod::lemma_mod_pos_bound(r, u);
    vstd::arithmetic::div_mod::lemma_mod_pos_bound(t, u);
    let a = spec_scaled_component(hx, m);
    let b = spec_scaled_component(hy, m);
    assert(a == aa || a == -aa);
    assert(b == bb || b == -bb);
    assert(a * a == aa * aa && b * b == bb * bb) by (nonlinear_arith)
        requires
            a == aa || a == -aa,
            b == bb || b == -bb,
    ;
    let p = aa * u;
    let q = bb * u;
    assert(u * aa == aa * u && u * bb == bb * u) by (nonlinear_arith);
    assert(0 <= p <= r && 0 <= q <= t && p + u > r && q + u > t && aa >= 0 && bb >= 0);
    // the squares, spelled out
    lemma_square_of_product(aa, u);
    lemma_square_of_product(bb, u);
    lemma_square_of_product(xx, m);
    lemma_square_of_product(yy, m);
    lemma_square_of_product(u, m);
    let u2 = u * u;
    let m2 = m * m;
    let h2 = xx * xx + yy * yy;
    assert(h2 * m2 == (xx * xx) * m2 + (yy * yy) * m2) by (nonlinear_arith)
        requires
            h2 == xx * xx + yy * yy,
    ;
    assert(m2 >= 0 && u2 > 0) by (nonlinear_arith)
        requires
            m2 == m * m,
            u2 == u * u,
            u > 0,
    ;
    // not longer than the magnitude
    lemma_squares_ordered(p, r);
    lemma_squares_ordered(q, t);
    vstd::arithmetic::mul::lemma_mul_inequality(h2, u2, m2);
    let n2 = aa * aa + bb * bb;
    assert(n2 * u2 == (aa * aa) * u2 + (bb * bb) * u2) by (nonlinear_arith)
        requires
            n2 == aa * aa + bb * bb,
    ;
    assert(n2 * u2 <= m2 * u2) by (nonlinear_arith)
        requires
            n2 * u2 <= u2 * m2,
    ;
    lemma_drop_factor(n2, m2, u2);
    assert(aa <= m && bb <= m) by (nonlinear_arith)
        requires
            aa * aa + bb * bb <= m * m,
            aa >= 0,
            bb >= 0,
            m >= 0,
    ;
    // shorter by no more than the slack
    let k = m / u + 1;
    vstd::arithmetic::div_mod::lemma_fundamental_div_mod(m, u);
    vstd::arithmetic::div_mod::lemma_mod_pos_bound(m, u);
    assert(u * (m / u) == (m / u) * u) by (nonlinear_arith);
    let big = m - 2 * k;
    assert(spec_slack(m) == 2 * k + 2);
    if m >= spec_slack(m) {
        assert(big >= 2);
        let pp = (aa + 1) * u;
        let qq = (bb + 1) * u;
        assert(pp == p + u && qq == q + u) by (nonlinear_arith)
            requires
                pp == (aa + 1) * u,
                qq == (bb + 1) * u,
                p == aa * u,
                q == bb * u,
        ;
        lemma_squares_ordered(r, pp);
        lemma_squares_ordered(t, qq);
        lemma_square_of_product(aa + 1, u);
        lemma_square_of_product(bb + 1, u);
        let low = (u - 2) * m;
        let goal = big * u;
        assert(low == u * m - 2 * m && goal == u * m - 2 * (k * u)) by (nonlinear_arith)
            requires
                low == (u - 2) * m,
                goal == big * u,
                big == m - 2 * k,
        ;
        assert(k * u == (m / u) * u + u) by (nonlinear_arith)
            requires
                k == m / u + 1,
        ;
        assert(goal >= 0) by (nonlinear_arith)
            requires
                goal == big * u,
                big >= 2,
                u > 0,
        ;
        assert(0 <= goal <= low);
        lemma_squares_ordered(goal, low);
        lemma_square_of_product(u - 2, m);
        lemma_square_of_product(big, u);
        let w2 = (u - 2) * (u - 2);
        vstd::arithmetic::mul::lemma_mul_inequality(w2, h2, m2);
        let e2 = (aa + 1) * (aa + 1) + (bb + 1) * (bb + 1);
        assert(e2 * u2 == ((aa + 1) * (aa + 1)) * u2 + ((bb + 1) * (bb + 1)) * u2)
            by (nonlinear_arith)
            requires
                e2 == (aa + 1) * (aa + 1) + (bb + 1) * (bb + 1),
        ;
        assert((big * big) * u2 <= e2 * u2);
        lemma_drop_factor(big * big, e2, u2);
        lemma_one_step_in(aa, bb, big);
    }
}

/// The share of a direction that falls on one axis.
pub fn unit_component(c: i32, q: u64) -> (r: i32)
    requires
        q > 0,
        c * c <= q,
    ensures
        r == spec_unit_component(c as int, q as int),
        -UNIT <= r <= UNIT,
{
    let wide: i128 = c as i128;
    assert(0 <= wide * wide <= 0x4000_0000_0000_0000) by (nonlinear_arith)
        requires
            -0x8000_0000 <= wide <= 0x7FFF_FFFF,
    ;
    let square: u128 = (wide * wide) as u128;
    assert(square * 1_000_000_000_000 <= 0x4000_0000_0000_0000 * 1_000_000_000_000)
        by (nonlinear_arith)
        requires
            0 <= square <= 0x4000_0000_0000_0000,
    ;
    let scaled: u128 = square * 1_000_000_000_000;
    let share: u128 = scaled / (q as u128);
    proof {
        assert(UNIT * UNIT == 1_000_000_000_000) by (nonlinear_arith)
            requires
                UNIT == 1_000_000,
        ;
        assert(scaled == c * c * (UNIT * UNIT)) by (nonlinear_arith)
            requires
                scaled == square * 1_000_000_000_000,
                square == c * c,
                UNIT * UNIT == 1_000_000_000_000,
        ;
        assert(scaled <= q * 1_000_000_000_000) by (nonlinear_arith)
            requires
                scaled == square * 1_000_000_000_000,
                square <= q,
        ;
        vstd::arithmetic::div_mod::lemma_div_is_ordered(
            scaled as int,
            q * 1_000_000_000_000,
            q as int,
        );
        vstd::arithmetic::div_mod::lemma_div_multiples_vanish(1_000_000_000_000, q as int);
        assert(q * 1_000_000_000_000 == 1_000_000_000_000 * q) by (nonlinear_arith);
        lemma_floor_sqrt_at_most(share as nat, 1_000_000);
    }
    let root: u32 = isqrt(share as u64);
    if c >= 0 {
        root as i32
    } else {
        -(root as i32)
    }
}

/// A magnitude laid along one axis of a direction.
pub fn scaled_component(h: i32, magnitude: u64) -> (r: i128)
    ensures
        r == spec_scaled_component(h as int, magnitude as int),
{
    let m: i128 = magnitude as i128;
    let wide: i128 = h as i128;
    assert(-0x8000_0000 * 0x1_0000_0000_0000_0000 <= wide * m <= 0x8000_0000
        * 0x1_0000_0000_0000_0000) by (nonlinear_arith)
        requires
            -0x8000_0000 <= wide <= 0x8000_0000,
            0 <= m <= 0x1_0000_0000_0000_0000,
    ;
    if h >= 0 {
        floor_div(wide * m, 1_000_000)
    } else {
        assert(-wide * m == -(wide * m)) by (nonlinear_arith);
        -floor_div(-wide * m, 1_000_000)
    }
}

impl Vector {
    /// The squared length, in squared fixed-point steps.
    pub open spec fn spec_length_squared(self) -> nat {
        (self.x * self.x + self.y * self.y) as nat
    }

    /// The length rounded down to a whole fixed-point step.
    pub open spec fn spec_length(self) -> nat {
        floor_sqrt(self.spec_length_squared())
    }

    /// The quantity with the given components.
    pub fn new(x: i32, y: i32) -> (v: Vector)
        ensures
            v == (Vector { x, y }),
    {
        Vector { x, y }
    }

    /// The quantity with both components zero.
    pub fn zero() -> (v: Vector)
        ensures
            v == (Vector { x: 0, y: 0 }),
    {
        Vector { x: 0, y: 0 }
    }

    /// The squared length, in squared fixed-point steps.
    pub fn length_squared(&self) -> (q: u64)
        ensures
            q == self.spec_length_squared(),
    {
        let x: i64 = self.x as i64;
        let y: i64 = self.y as i64;
        assert(0 <= x * x <= 0x4000_0000_0000_0000) by (nonlinear_arith)
            requires
                -0x8000_0000 <= x <= 0x7FFF_FFFF,
        ;
        assert(0 <= y * y <= 0x4000_0000_0000_0000) by (nonlinear_arith)
            requires
                -0x8000_0000 <= y <= 0x7FFF_FFFF,
        ;
        let xx: u64 = (x * x) as u64;
        let yy: u64 = (y * y) as u64;
        xx + yy
    }

    /// The length rounded down to a whole fixed-point step.
    pub fn length(&self) -> (l: u32)
        ensures
            l == self.spec_length(),
    {
        isqrt(self.length_squared())
    }

    /// The direction of the quantity: a vector whose length is [`UNIT`] to
    /// within two steps (see [`lemma_unit_length`]), or zero if the quantity
    /// has no length.
    pub open spec fn spec_normalize_or_zero(self) -> Vector {
        let q = self.spec_length_squared() as int;
        if q == 0 {
            Vector { x: 0, y: 0 }
        } else {
            Vector {
                x: spec_unit_component(self.x as int, q) as i32,
                y: spec_unit_component(self.y as int, q) as i32,
            }
        }
    }

    /// The direction of the quantity, or zero if it has no length.
    pub fn normalize_or_zero(&self) -> (v: Vector)
        ensures
            v == self.spec_normalize_or_zero(),
    {
        let q: u64 = self.length_squared();
        if q == 0 {
            return Vector { x: 0, y: 0 };
        }
        assert(self.x * self.x >= 0 && self.y * self.y >= 0) by (nonlinear_arith);
        Vector { x: unit_component(self.x, q), y: unit_component(self.y, q) }
    }

    /// Component-wise sum, each component saturating.
    pub fn plus(&self, other: Vector) -> (v: Vector)
        ensures
            v.x == clamped(self.x + other.x),
            v.y == clamped(self.y + other.y),
    {
        Vector {
            x: clamp_i32(self.x as i128 + other.x as i128),
            y: clamp_i32(self.y as i128 + other.y as i128),
        }
    }

    /// Component-wise difference, each component saturating.
    pub fn minus(&self, other: Vector) -> (v: Vector)
        ensures
            v.x == clamped(self.x - other.x),
            v.y == clamped(self.y - other.y),
    {
        Vector {
            x: clamp_i32(self.x as i128 - other.x as i128),
            y: clamp_i32(self.y as i128 - other.y as i128),
        }
    }

    /// Component-wise multiple, each component saturating.
    pub fn times(&self, factor: i32) -> (v: Vector)
        ensures
            v.x == clamped(self.x * factor),
            v.y == clamped(self.y * factor),
    {
        let f: i64 = factor as i64;
        let x: i64 = self.x as i64;
        let y: i64 = self.y as i64;
        assert(-0x4000_0000_0000_0000 <= x * f <= 0x4000_0000_0000_0000) by (nonlinear_arith)
            requires
                -0x8000_0000 <= x <= 0x7FFF_FFFF,
                -0x8000_0000 <= f <= 0x7FFF_FFFF,
        ;
        assert(-0x4000_0000_0000_0000 <= y * f <= 0x4000_0000_0000_0000) by (nonlinear_arith)
            requires
                -0x8000_0000 <= y <= 0x7FFF_FFFF,
                -0x8000_0000 <= f <= 0x7FFF_FFFF,
        ;
        Vector { x: clamp_i32((x * f) as i128), y: clamp_i32((y * f) as i128) }
    }
}

} // verus!

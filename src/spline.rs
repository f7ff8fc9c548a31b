use vstd::prelude::*;

use crate::geom::{abs, lemma_mul_abs_bound, scale, scale_spec, Vec2, MAX_COORD};

verus! {

/// Parameters along a curve are counted in thousandths.
pub const T_SCALE: i64 = 1000;

/// Largest absolute value of a derivative coordinate.
pub const MAX_DERIV: i64 = 0x1_0000_0000;

/// A cubic Hermite curve from `from` to `to` with the given end derivatives.
#[derive(Clone, Copy, Debug, PartialEq, Eq, Structural)]
pub struct Spline {
    pub from: Vec2,
    pub to: Vec2,
    pub from_derivative: Vec2,
    pub to_derivative: Vec2,
}

pub open spec fn deriv_ok(v: Vec2) -> bool {
    -MAX_DERIV <= v.x <= MAX_DERIV && -MAX_DERIV <= v.y <= MAX_DERIV
}

pub open spec fn clamp_deriv(a: int) -> int {
    if a < -MAX_DERIV {
        -MAX_DERIV as int
    } else if a > MAX_DERIV {
        MAX_DERIV as int
    } else {
        a
    }
}

pub open spec fn scale_vec(v: Vec2, num: int, den: int) -> Vec2 {
    Vec2 { x: scale_spec(v.x as int, num, den) as i64, y: scale_spec(v.y as int, num, den) as i64 }
}

/// `1_000_000` times the derivative of the curve at parameter `k / 1000`, along one axis.
pub open spec fn hermite_derivative(p0: int, p1: int, m0: int, m1: int, k: int) -> int {
    (6 * (k * k) - 6 * k * 1000) * p0 + (3 * (k * k) - 4 * k * 1000 + 1_000_000) * m0 + (6 * k
        * 1000 - 6 * (k * k)) * p1 + (3 * (k * k) - 2 * k * 1000) * m1
}

/// The derivative that each half gets at the split point, along one axis.
pub open spec fn mid_derivative(d: int, part: int) -> int {
    clamp_deriv(scale_spec(d, part, 1_000_000_000))
}

impl Spline {
    pub open spec fn valid(self) -> bool {
        self.from.in_world() && self.to.in_world() && deriv_ok(self.from_derivative) && deriv_ok(
            self.to_derivative,
        )
    }

    /// Squared distance from the point at parameter `k / 1000` to `pos`.
    pub open spec fn dist2_at(self, k: int, pos: Vec2) -> int {
        self.get_spec(k).dist2_spec(pos)
    }

    /// `k` is the first parameter strictly inside the curve, in thousandths, whose
    /// point is nearest to `pos`.
    pub open spec fn is_projection(self, pos: Vec2, k: int) -> bool {
        &&& 1 <= k <= 999
        &&& forall|j: int| 1 <= j <= 999 ==> self.dist2_at(k, pos) <= #[trigger] self.dist2_at(j, pos)
        &&& forall|j: int| 1 <= j < k ==> self.dist2_at(k, pos) < #[trigger] self.dist2_at(j, pos)
    }

    /// The parameter of the point of the curve nearest to `pos`.
    pub open spec fn project_t_spec(self, pos: Vec2) -> int {
        choose|k: int| self.is_projection(pos, k)
    }

    pub proof fn lemma_projection_unique(self, pos: Vec2, k: int)
        requires
            self.is_projection(pos, k),
        ensures
            self.project_t_spec(pos) == k,
    {
        let c = self.project_t_spec(pos);
        assert(self.is_projection(pos, c));
        if c < k {
            assert(self.dist2_at(k, pos) < self.dist2_at(c, pos));
            assert(self.dist2_at(c, pos) <= self.dist2_at(k, pos));
        } else if c > k {
            assert(self.dist2_at(c, pos) < self.dist2_at(k, pos));
            assert(self.dist2_at(k, pos) <= self.dist2_at(c, pos));
        }
    }

    /// The two halves of the curve split at parameter `k / 1000`; they meet at the
    /// point of the curve there.
    pub open spec fn split_spec(self, k: int) -> (Spline, Spline) {
        let dx = hermite_derivative(
            self.from.x as int,
            self.to.x as int,
            self.from_derivative.x as int,
            self.to_derivative.x as int,
            k,
        );
        let dy = hermite_derivative(
            self.from.y as int,
            self.to.y as int,
            self.from_derivative.y as int,
            self.to_derivative.y as int,
            k,
        );
        let left = Spline {
            from: self.from,
            to: self.get_spec(k),
            from_derivative: scale_vec(self.from_derivative, k, 1000),
            to_derivative: Vec2 { x: mid_derivative(dx, k) as i64, y: mid_derivative(dy, k) as i64 },
        };
        let right = Spline {
            from: self.get_spec(k),
            to: self.to,
            from_derivative: Vec2 {
                x: mid_derivative(dx, 1000 - k) as i64,
                y: mid_derivative(dy, 1000 - k) as i64,
            },
            to_derivative: scale_vec(self.to_derivative, 1000 - k, 1000),
        };
        (left, right)
    }

    /// The parameter of the point of the curve nearest to `pos`, searched over
    /// every thousandth strictly inside the curve; the first of equal ones wins.
    pub fn project_t(&self, pos: Vec2) -> (r: i64)
        requires
            self.valid(),
            pos.in_world(),
        ensures
            self.is_projection(pos, r as int),
            r == self.project_t_spec(pos),
    {
        let mut best: i64 = 1;
        let mut best_d: i128 = self.get(1).distance2(pos);
        let mut k: i64 = 2;
        while k <= 999
            invariant
                self.valid(),
                pos.in_world(),
                2 <= k <= 1000,
                1 <= best < k,
                best_d == self.dist2_at(best as int, pos),
                forall|j: int| 1 <= j < k ==> self.dist2_at(best as int, pos) <= #[trigger] self.dist2_at(j, pos),
                forall|j: int| 1 <= j < best ==> self.dist2_at(best as int, pos) < #[trigger] self.dist2_at(j, pos),
            decreases 1000 - k,
        {
            let d = self.get(k).distance2(pos);
            if d < best_d {
                best = k;
                best_d = d;
            }
            k += 1;
        }
        proof {
            self.lemma_projection_unique(pos, best as int);
        }
        best
    }

    /// Splits the curve at parameter `k / 1000`. Each half's outer derivative is the
    /// whole curve's one scaled by the half's share of the parameter; the derivatives at the
    /// split point are saturated to the derivative bound.
    pub fn split_at(&self, k: i64) -> (r: (Spline, Spline))
        requires
            self.valid(),
            1 <= k <= 999,
        ensures
            r == self.split_spec(k as int),
            r.0.from == self.from,
            r.0.to == self.get_spec(k as int),
            r.1.from == self.get_spec(k as int),
            r.1.to == self.to,
            r.0.valid(),
            r.1.valid(),
            deriv_ok(r.0.from_derivative),
            deriv_ok(r.0.to_derivative),
            deriv_ok(r.1.from_derivative),
            deriv_ok(r.1.to_derivative),
    {
        let dx = hermite_axis(
            self.from.x as i128,
            self.to.x as i128,
            self.from_derivative.x as i128,
            self.to_derivative.x as i128,
            k as i128,
        );
        let dy = hermite_axis(
            self.from.y as i128,
            self.to.y as i128,
            self.from_derivative.y as i128,
            self.to_derivative.y as i128,
            k as i128,
        );
        let mid = self.get(k);
        let left = Spline {
            from: self.from,
            to: mid,
            from_derivative: Vec2 {
                x: scale(self.from_derivative.x, k as i128, 1000),
                y: scale(self.from_derivative.y, k as i128, 1000),
            },
            to_derivative: Vec2 { x: mid_axis(dx, k as i128), y: mid_axis(dy, k as i128) },
        };
        let right = Spline {
            from: mid,
            to: self.to,
            from_derivative: Vec2 {
                x: mid_axis(dx, 1000 - k as i128),
                y: mid_axis(dy, 1000 - k as i128),
            },
            to_derivative: Vec2 {
                x: scale(self.to_derivative.x, 1000 - k as i128, 1000),
                y: scale(self.to_derivative.y, 1000 - k as i128, 1000),
            },
        };
        (left, right)
    }
}

fn hermite_axis(p0: i128, p1: i128, m0: i128, m1: i128, k: i128) -> (r: i128)
    requires
        -0x4000_0000 <= p0 <= 0x4000_0000,
        -0x4000_0000 <= p1 <= 0x4000_0000,
        -MAX_DERIV <= m0 <= MAX_DERIV,
        -MAX_DERIV <= m1 <= MAX_DERIV,
        0 <= k <= 1000,
    ensures
        r == hermite_derivative(p0 as int, p1 as int, m0 as int, m1 as int, k as int),
        -0x800_0000_0000_0000 <= r <= 0x800_0000_0000_0000,
{
    assert(0 <= k * k <= 1_000_000) by (nonlinear_arith) requires 0 <= k <= 1000;
    let kk = k * k;
    let c0 = 6 * kk - 6 * k * 1000;
    let c1 = 3 * kk - 4 * k * 1000 + 1_000_000;
    let c2 = 6 * k * 1000 - 6 * kk;
    let c3 = 3 * kk - 2 * k * 1000;
    proof {
        lemma_mul_abs_bound(c0 as int, p0 as int, 0x80_0000, 0x4000_0000);
        lemma_mul_abs_bound(c1 as int, m0 as int, 0x80_0000, MAX_DERIV as int);
        lemma_mul_abs_bound(c2 as int, p1 as int, 0x80_0000, 0x4000_0000);
        lemma_mul_abs_bound(c3 as int, m1 as int, 0x80_0000, MAX_DERIV as int);
    }
    c0 * p0 + c1 * m0 + c2 * p1 + c3 * m1
}

fn mid_axis(d: i128, part: i128) -> (r: i64)
    requires
        -0x800_0000_0000_0000 <= d <= 0x800_0000_0000_0000,
        1 <= part <= 999,
    ensures
        r == mid_derivative(d as int, part as int),
        -MAX_DERIV <= r <= MAX_DERIV,
{
    let m: i128 = if d < 0 { -d } else { d };
    proof {
        lemma_mul_abs_bound(m as int, part as int, 0x800_0000_0000_0000, 1000);
        assert(m * part >= 0) by (nonlinear_arith) requires m >= 0, part >= 0;
    }
    let q = (m * part) / 1_000_000_000;
    let v = if d < 0 { -q } else { q };
    if v < -(MAX_DERIV as i128) {
        -MAX_DERIV
    } else if v > MAX_DERIV as i128 {
        MAX_DERIV
    } else {
        v as i64
    }
}

/// `1_000_000_000` times the point of the curve at parameter `k / 1000`, along one axis.
pub open spec fn hermite_point(p0: int, p1: int, m0: int, m1: int, k: int) -> int {
    (2 * (k * k * k) - 3000 * (k * k) + 1_000_000_000) * p0 + ((k * k * k) - 2000 * (k * k)
        + 1_000_000 * k) * m0 + (3000 * (k * k) - 2 * (k * k * k)) * p1 + ((k * k * k) - 1000 * (k
        * k)) * m1
}

pub open spec fn clamp_coord(a: int) -> int {
    if a < -MAX_COORD {
        -MAX_COORD as int
    } else if a > MAX_COORD {
        MAX_COORD as int
    } else {
        a
    }
}

impl Spline {
    /// The point at parameter `k / 1000`, kept inside the world.
    pub open spec fn get_spec(self, k: int) -> Vec2 {
        Vec2 {
            x: clamp_coord(
                scale_spec(
                    hermite_point(
                        self.from.x as int,
                        self.to.x as int,
                        self.from_derivative.x as int,
                        self.to_derivative.x as int,
                        k,
                    ),
                    1,
                    1_000_000_000,
                ),
            ) as i64,
            y: clamp_coord(
                scale_spec(
                    hermite_point(
                        self.from.y as int,
                        self.to.y as int,
                        self.from_derivative.y as int,
                        self.to_derivative.y as int,
                        k,
                    ),
                    1,
                    1_000_000_000,
                ),
            ) as i64,
        }
    }

    /// The derivative at parameter `k / 1000`, in thousandths.
    pub open spec fn derivative_spec(self, k: int) -> Vec2 {
        Vec2 {
            x: clamp_coord(
                scale_spec(
                    hermite_derivative(
                        self.from.x as int,
                        self.to.x as int,
                        self.from_derivative.x as int,
                        self.to_derivative.x as int,
                        k,
                    ),
                    1,
                    1000,
                ),
            ) as i64,
            y: clamp_coord(
                scale_spec(
                    hermite_derivative(
                        self.from.y as int,
                        self.to.y as int,
                        self.from_derivative.y as int,
                        self.to_derivative.y as int,
                        k,
                    ),
                    1,
                    1000,
                ),
            ) as i64,
        }
    }

    pub fn get(&self, k: i64) -> (r: Vec2)
        requires
            self.valid(),
            0 <= k <= 1000,
        ensures
            r == self.get_spec(k as int),
            r.in_world(),
    {
        let x = point_axis(
            self.from.x as i128,
            self.to.x as i128,
            self.from_derivative.x as i128,
            self.to_derivative.x as i128,
            k as i128,
        );
        let y = point_axis(
            self.from.y as i128,
            self.to.y as i128,
            self.from_derivative.y as i128,
            self.to_derivative.y as i128,
            k as i128,
        );
        Vec2 { x: clamp_axis(scale_big(x, 1_000_000_000)), y: clamp_axis(scale_big(y, 1_000_000_000)) }
    }

    pub fn derivative(&self, k: i64) -> (r: Vec2)
        requires
            self.valid(),
            0 <= k <= 1000,
        ensures
            r == self.derivative_spec(k as int),
            r.in_world(),
    {
        let x = hermite_axis(
            self.from.x as i128,
            self.to.x as i128,
            self.from_derivative.x as i128,
            self.to_derivative.x as i128,
            k as i128,
        );
        let y = hermite_axis(
            self.from.y as i128,
            self.to.y as i128,
            self.from_derivative.y as i128,
            self.to_derivative.y as i128,
            k as i128,
        );
        Vec2 { x: clamp_axis(scale_big(x, 1000)), y: clamp_axis(scale_big(y, 1000)) }
    }
}

/// `a / den` rounded toward zero.
fn scale_big(a: i128, den: i128) -> (r: i128)
    requires
        -0x1000_0000_0000_0000_0000_0000 <= a <= 0x1000_0000_0000_0000_0000_0000,
        0 < den,
    ensures
        r == scale_spec(a as int, 1, den as int),
{
    if a < 0 {
        -((-a) / den)
    } else {
        a / den
    }
}

fn clamp_axis(a: i128) -> (r: i64)
    ensures
        r == clamp_coord(a as int),
{
    if a < -(MAX_COORD as i128) {
        -MAX_COORD
    } else if a > MAX_COORD as i128 {
        MAX_COORD
    } else {
        a as i64
    }
}

fn point_axis(p0: i128, p1: i128, m0: i128, m1: i128, k: i128) -> (r: i128)
    requires
        -0x4000_0000 <= p0 <= 0x4000_0000,
        -0x4000_0000 <= p1 <= 0x4000_0000,
        -MAX_DERIV <= m0 <= MAX_DERIV,
        -MAX_DERIV <= m1 <= MAX_DERIV,
        0 <= k <= 1000,
    ensures
        r == hermite_point(p0 as int, p1 as int, m0 as int, m1 as int, k as int),
        -0x1000_0000_0000_0000_0000_0000 <= r <= 0x1000_0000_0000_0000_0000_0000,
{
    assert(0 <= k * k <= 1_000_000) by (nonlinear_arith) requires 0 <= k <= 1000;
    let kk = k * k;
    assert(0 <= kk * k <= 1_000_000_000) by (nonlinear_arith) requires 0 <= kk <= 1_000_000, 0 <= k <= 1000;
    let kkk = kk * k;
    assert(kkk == k * k * k);
    let c0 = 2 * kkk - 3000 * kk + 1_000_000_000;
    let c1 = kkk - 2000 * kk + 1_000_000 * k;
    let c2 = 3000 * kk - 2 * kkk;
    let c3 = kkk - 1000 * kk;
    proof {
        lemma_mul_abs_bound(c0 as int, p0 as int, 0x1_0000_0000, 0x4000_0000);
        lemma_mul_abs_bound(c1 as int, m0 as int, 0x1_0000_0000, MAX_DERIV as int);
        lemma_mul_abs_bound(c2 as int, p1 as int, 0x1_0000_0000, 0x4000_0000);
        lemma_mul_abs_bound(c3 as int, m1 as int, 0x1_0000_0000, MAX_DERIV as int);
    }
    c0 * p0 + c1 * m0 + c2 * p1 + c3 * m1
}

/// The two halves meet at the curve's point at the split parameter, and rejoining
/// them there gives back the whole curve's end derivatives, up to the rounding of
/// one thousandth.
pub proof fn lemma_split_round_trip(s: Spline, k: int)
    requires
        s.valid(),
        1 <= k <= 999,
    ensures
        ({
            let (left, right) = s.split_spec(k);
            &&& abs(left.from_derivative.x * 1000 - s.from_derivative.x * k) < 1000
            &&& abs(left.from_derivative.y * 1000 - s.from_derivative.y * k) < 1000
            &&& abs(right.to_derivative.x * 1000 - s.to_derivative.x * (1000 - k)) < 1000
            &&& abs(right.to_derivative.y * 1000 - s.to_derivative.y * (1000 - k)) < 1000
            &&& left.from == s.from
            &&& right.to == s.to
            &&& left.to == s.get_spec(k)
            &&& right.from == s.get_spec(k)
        }),
{
    lemma_scale_round_trip(s.from_derivative.x as int, k);
    lemma_scale_round_trip(s.from_derivative.y as int, k);
    lemma_scale_round_trip(s.to_derivative.x as int, 1000 - k);
    lemma_scale_round_trip(s.to_derivative.y as int, 1000 - k);
}

pub proof fn lemma_scale_round_trip(a: int, k: int)
    requires
        -MAX_DERIV <= a <= MAX_DERIV,
        1 <= k <= 999,
    ensures
        -MAX_DERIV <= scale_spec(a, k, 1000) <= MAX_DERIV,
        abs(scale_spec(a, k, 1000) * 1000 - a * k) < 1000,
{
    let m = if a < 0 { -a } else { a };
    assert(0 <= m * k <= m * 1000) by (nonlinear_arith) requires 0 <= m, 1 <= k <= 999;
    let q = (m * k) / 1000;
    vstd::arithmetic::div_mod::lemma_fundamental_div_mod(m * k, 1000);
    assert(0 <= (m * k) % 1000 < 1000);
    assert(q * 1000 <= m * k);
    assert(q <= m) by (nonlinear_arith) requires q * 1000 <= m * k, m * k <= m * 1000, m >= 0;
    assert(q >= 0) by (nonlinear_arith) requires q * 1000 + (m * k) % 1000 == m * k, m * k >= 0, (m * k) % 1000 < 1000;
    if a < 0 {
        assert(a * k == -(m * k)) by (nonlinear_arith) requires m == -a;
    }
}

} // verus!

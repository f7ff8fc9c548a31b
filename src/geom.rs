use vstd::prelude::*;

verus! {

/// Largest absolute value of a coordinate, in centimetres.
pub const MAX_COORD: i64 = 0x4000_0000;

/// A point or displacement on the ground plane, in centimetres.
#[derive(Clone, Copy, Debug, PartialEq, Eq, Structural)]
pub struct Vec2 {
    pub x: i64,
    pub y: i64,
}

pub open spec fn abs(a: int) -> int {
    if a < 0 { -a } else { a }
}

/// `a * num / den`, rounded toward zero.
pub open spec fn scale_spec(a: int, num: int, den: int) -> int {
    if a < 0 { -((-a * num) / den) } else { (a * num) / den }
}

pub open spec fn dot_spec(ax: int, ay: int, bx: int, by: int) -> int {
    ax * bx + ay * by
}

pub open spec fn cross_spec(ax: int, ay: int, bx: int, by: int) -> int {
    ax * by - ay * bx
}

pub proof fn lemma_mul_abs_bound(a: int, b: int, ba: int, bb: int)
    requires
        -ba <= a <= ba,
        -bb <= b <= bb,
    ensures
        -(ba * bb) <= a * b <= ba * bb,
{
    assert(-(ba * bb) <= a * b <= ba * bb) by (nonlinear_arith)
        requires
            -ba <= a <= ba,
            -bb <= b <= bb,
    {
        if a >= 0 {
            if b >= 0 {
                assert(a * b <= ba * b);
                assert(ba * b <= ba * bb);
            } else {
                assert(a * b >= a * (-bb));
                assert(a * (-bb) >= ba * (-bb));
            }
        } else {
            if b >= 0 {
                assert(a * b >= (-ba) * b);
                assert((-ba) * b >= (-ba) * bb);
            } else {
                assert(a * b <= (-ba) * b);
                assert((-ba) * b <= (-ba) * (-bb));
            }
        }
    }
}

impl Vec2 {
    pub open spec fn in_world(self) -> bool {
        -MAX_COORD <= self.x <= MAX_COORD && -MAX_COORD <= self.y <= MAX_COORD
    }

    pub open spec fn dist2_spec(self, o: Vec2) -> int {
        (self.x - o.x) * (self.x - o.x) + (self.y - o.y) * (self.y - o.y)
    }

    pub fn new(x: i64, y: i64) -> (r: Vec2)
        ensures
            r.x == x,
            r.y == y,
    {
        Vec2 { x, y }
    }

    /// Squared distance between two points of the world.
    pub fn distance2(self, o: Vec2) -> (r: i128)
        requires
            self.in_world(),
            o.in_world(),
        ensures
            r == self.dist2_spec(o),
            0 <= r <= 0x8000_0000_0000_0000,
    {
        let dx = self.x as i128 - o.x as i128;
        let dy = self.y as i128 - o.y as i128;
        proof {
            lemma_mul_abs_bound(dx as int, dx as int, 0x8000_0000, 0x8000_0000);
            lemma_mul_abs_bound(dy as int, dy as int, 0x8000_0000, 0x8000_0000);
            assert(dx * dx >= 0) by (nonlinear_arith);
            assert(dy * dy >= 0) by (nonlinear_arith);
        }
        dx * dx + dy * dy
    }
}

/// `a * num / den` rounded toward zero, for a fraction `num / den` in `[0, 1]`.
pub fn scale(a: i64, num: i128, den: i128) -> (r: i64)
    requires
        -0x100_0000_0000 <= a <= 0x100_0000_0000,
        0 <= num <= den,
        0 < den <= 0x1_0000_0000_0000_0000,
    ensures
        r == scale_spec(a as int, num as int, den as int),
        abs(r as int) <= abs(a as int),
        a >= 0 ==> r >= 0,
        a <= 0 ==> r <= 0,
{
    let m: i128 = if a < 0 { -(a as i128) } else { a as i128 };
    proof {
        lemma_mul_abs_bound(m as int, num as int, 0x100_0000_0000, 0x1_0000_0000_0000_0000);
        assert(m * num >= 0) by (nonlinear_arith) requires m >= 0, num >= 0;
        assert(m * num <= m * den) by (nonlinear_arith) requires m >= 0, num <= den;
        vstd::arithmetic::div_mod::lemma_div_is_ordered(m * num, m * den, den as int);
        vstd::arithmetic::div_mod::lemma_div_multiples_vanish(m as int, den as int);
        assert(m * den == den * m) by (nonlinear_arith);
    }
    let q = (m * num) / den;
    if a < 0 {
        -(q as i64)
    } else {
        q as i64
    }
}

/// The point of segment `[a, b]` nearest to `p`, with coordinates rounded toward `a`.
pub open spec fn project_segment_spec(a: Vec2, b: Vec2, p: Vec2) -> Vec2 {
    let den = a.dist2_spec(b);
    let num = dot_spec(p.x - a.x, p.y - a.y, b.x - a.x, b.y - a.y);
    if den == 0 || num <= 0 {
        a
    } else if num >= den {
        b
    } else {
        Vec2 {
            x: (a.x + scale_spec(b.x - a.x, num, den)) as i64,
            y: (a.y + scale_spec(b.y - a.y, num, den)) as i64,
        }
    }
}

pub fn project_segment(a: Vec2, b: Vec2, p: Vec2) -> (r: Vec2)
    requires
        a.in_world(),
        b.in_world(),
        p.in_world(),
    ensures
        r == project_segment_spec(a, b, p),
        r.in_world(),
{
    let den = a.distance2(b);
    let ax = p.x as i128 - a.x as i128;
    let ay = p.y as i128 - a.y as i128;
    let bx = b.x as i128 - a.x as i128;
    let by = b.y as i128 - a.y as i128;
    proof {
        lemma_mul_abs_bound(ax as int, bx as int, 0x8000_0000, 0x8000_0000);
        lemma_mul_abs_bound(ay as int, by as int, 0x8000_0000, 0x8000_0000);
    }
    let num = ax * bx + ay * by;
    if den == 0 || num <= 0 {
        a
    } else if num >= den {
        b
    } else {
        let sx = scale(b.x - a.x, num, den);
        let sy = scale(b.y - a.y, num, den);
        Vec2 { x: a.x + sx, y: a.y + sy }
    }
}

/// Length of a heading vector: headings are unit vectors scaled by this.
pub const UNIT: i64 = 1000;

/// A direction: nonzero, with coordinates of at most `UNIT`.
pub open spec fn heading_ok(d: Vec2) -> bool {
    -UNIT <= d.x <= UNIT && -UNIT <= d.y <= UNIT && (d.x != 0 || d.y != 0)
}

/// `a * UNIT / len` rounded toward zero.
pub open spec fn unit_axis(a: int, len: int) -> int {
    if a < 0 { -((-a * UNIT) / len) } else { (a * UNIT) / len }
}

/// The direction of `v`, scaled to `UNIT` and rounded toward zero; `None` for zero.
pub open spec fn normalize_spec(v: Vec2) -> Option<Vec2> {
    if v.x == 0 && v.y == 0 {
        None
    } else {
        let len = isqrt_spec(v.x * v.x + v.y * v.y);
        Some(Vec2 { x: unit_axis(v.x as int, len) as i64, y: unit_axis(v.y as int, len) as i64 })
    }
}

/// The integer square root, as `isqrt` computes it.
pub open spec fn isqrt_spec(n: int) -> int
    recommends n >= 0,
{
    choose|r: int| #[trigger] is_isqrt(n, r)
}

pub open spec fn is_isqrt(n: int, r: int) -> bool {
    r >= 0 && r * r <= n && n < (r + 1) * (r + 1)
}

pub proof fn lemma_isqrt_unique(n: int, r: int)
    requires
        r >= 0,
        r * r <= n,
        n < (r + 1) * (r + 1),
    ensures
        isqrt_spec(n) == r,
{
    let q = isqrt_spec(n);
    assert(is_isqrt(n, r));
    assert(q >= 0 && q * q <= n && n < (q + 1) * (q + 1));
    if q < r {
        assert((q + 1) * (q + 1) <= r * r) by (nonlinear_arith) requires 0 <= q < r;
    } else if q > r {
        assert((r + 1) * (r + 1) <= q * q) by (nonlinear_arith) requires 0 <= r < q;
    }
}

/// Unit direction of a displacement between two points of the world.
pub fn normalize(v: Vec2) -> (r: Option<Vec2>)
    requires
        -0x8000_0000 <= v.x <= 0x8000_0000,
        -0x8000_0000 <= v.y <= 0x8000_0000,
    ensures
        r == normalize_spec(v),
        r is Some ==> heading_ok(r->Some_0),
{
    if v.x == 0 && v.y == 0 {
        return None;
    }
    let x = v.x as i128;
    let y = v.y as i128;
    proof {
        lemma_mul_abs_bound(x as int, x as int, 0x8000_0000, 0x8000_0000);
        lemma_mul_abs_bound(y as int, y as int, 0x8000_0000, 0x8000_0000);
        assert(x * x >= 0 && y * y >= 0) by (nonlinear_arith);
    }
    let n = (x * x + y * y) as u128;
    let len = isqrt(n);
    proof {
        lemma_isqrt_unique(n as int, len as int);
    }
    let l = len as i128;
    let ax: i128 = if x < 0 { -x } else { x };
    let ay: i128 = if y < 0 { -y } else { y };
    proof {
        // each coordinate is at most the length, and the larger one is large enough
        assert(ax * ax == x * x) by (nonlinear_arith) requires ax == x || ax == -x;
        assert(ay * ay == y * y) by (nonlinear_arith) requires ay == y || ay == -y;
        assert(n >= 1) by (nonlinear_arith) requires n == x * x + y * y, x != 0 || y != 0;
        assert(ax * ax <= n);
        assert(ay * ay <= n);
        assert(ax <= l) by (nonlinear_arith) requires ax * ax <= n, n < (l + 1) * (l + 1), ax >= 0, l >= 0;
        assert(ay <= l) by (nonlinear_arith) requires ay * ay <= n, n < (l + 1) * (l + 1), ay >= 0, l >= 0;
        assert(l > 0) by (nonlinear_arith) requires n < (l + 1) * (l + 1), n >= 1, l >= 0;
        assert(l <= 0x1_0000_0000) by (nonlinear_arith) requires l * l <= n, n <= 0x8000_0000_0000_0000, l >= 0;
        if ax >= ay {
            assert(ay * ay <= ax * ax) by (nonlinear_arith) requires 0 <= ay <= ax;
            assert(l * l <= 2 * (ax * ax));
            assert(l <= 2 * ax) by (nonlinear_arith) requires l * l <= 2 * (ax * ax), ax >= 0, l >= 0 {
                if l > 2 * ax {
                    assert(l * l > (2 * ax) * (2 * ax));
                }
            }
        } else {
            assert(ax * ax <= ay * ay) by (nonlinear_arith) requires 0 <= ax <= ay;
            assert(l * l <= 2 * (ay * ay));
            assert(l <= 2 * ay) by (nonlinear_arith) requires l * l <= 2 * (ay * ay), ay >= 0, l >= 0 {
                if l > 2 * ay {
                    assert(l * l > (2 * ay) * (2 * ay));
                }
            }
        }
        assert(ax * 1000 <= l * 1000) by (nonlinear_arith) requires ax <= l;
        assert(ay * 1000 <= l * 1000) by (nonlinear_arith) requires ay <= l;
        vstd::arithmetic::div_mod::lemma_div_is_ordered(ax * 1000, l * 1000, l as int);
        vstd::arithmetic::div_mod::lemma_div_is_ordered(ay * 1000, l * 1000, l as int);
        vstd::arithmetic::div_mod::lemma_div_multiples_vanish(1000, l as int);
        assert(l * 1000 == 1000 * l);
        if ax >= ay {
            vstd::arithmetic::div_mod::lemma_div_is_ordered(l as int, ax * 1000, l as int);
            vstd::arithmetic::div_mod::lemma_div_by_self(l as int);
        } else {
            vstd::arithmetic::div_mod::lemma_div_is_ordered(l as int, ay * 1000, l as int);
            vstd::arithmetic::div_mod::lemma_div_by_self(l as int);
        }
    }
    let qx = (ax * 1000) / l;
    let qy = (ay * 1000) / l;
    let rx: i64 = if x < 0 { -(qx as i64) } else { qx as i64 };
    let ry: i64 = if y < 0 { -(qy as i64) } else { qy as i64 };
    Some(Vec2 { x: rx, y: ry })
}

/// Integer square root: the largest `r` with `r * r <= n`.
pub fn isqrt(n: u128) -> (r: u64)
    ensures
        r * r <= n,
        n < (r + 1) * (r + 1),
{
    let mut lo: u128 = 0;
    let mut hi: u128 = 0x1_0000_0000_0000_0000;
    assert(hi * hi > n) by (nonlinear_arith) requires hi == 0x1_0000_0000_0000_0000, n <= u128::MAX;
    while hi - lo > 1
        invariant
            lo < hi <= 0x1_0000_0000_0000_0000,
            lo * lo <= n,
            n < hi * hi,
        decreases hi - lo,
    {
        let mid = lo + (hi - lo) / 2;
        if mid >= 0x1_0000_0000_0000_0000 {
            assert(mid * mid > n) by (nonlinear_arith)
                requires mid >= 0x1_0000_0000_0000_0000, n <= u128::MAX;
            hi = mid;
        } else {
            assert(mid * mid < 0x1_0000_0000_0000_0000 * 0x1_0000_0000_0000_0000) by (nonlinear_arith)
                requires 0 <= mid < 0x1_0000_0000_0000_0000;
            if mid * mid <= n {
                lo = mid;
            } else {
                hi = mid;
            }
        }
    }
    assert(hi == lo + 1);
    lo as u64
}

} // verus!

//! Fixed-point 3D points on (or near) the sphere of radius `SCALE`, and the
//! one numeric kernel of the library: adding two such points and rescaling
//! the sum back onto the sphere, which is how an edge midpoint is projected.

use vstd::prelude::*;

verus! {

/// Fixed-point scale: the integer that stands for unit length.
pub const SCALE: i64 = 16777216;

/// Allowed deviation of a vertex's squared norm from `SCALE * SCALE`.
/// `NORM_TOL` is `SCALE * SCALE / 1048576`, so the norm itself deviates
/// from `SCALE` by less than one part in two million of the radius.
pub const NORM_TOL: i64 = 268435456;

/// A 3D coordinate. After construction by this library it lies on the unit
/// sphere: `norm_sq(p)` is within `NORM_TOL` of `SCALE * SCALE`.
#[derive(Clone, Copy, PartialEq, Eq, Debug)]
pub struct Point {
    pub x: i64,
    pub y: i64,
    pub z: i64,
}

/// Squared Euclidean norm.
pub open spec fn norm_sq(p: Point) -> int {
    p.x * p.x + p.y * p.y + p.z * p.z
}

/// Dot product of two points taken as vectors from the origin.
pub open spec fn dot(p: Point, q: Point) -> int {
    p.x * q.x + p.y * q.y + p.z * q.z
}

/// The vertex invariant: the squared norm deviates from `SCALE * SCALE`
/// by at most `NORM_TOL`.
pub open spec fn on_sphere(p: Point) -> bool {
    SCALE * SCALE - NORM_TOL <= norm_sq(p) <= SCALE * SCALE + NORM_TOL
}

/// Dot product of `v` with the (un-rescaled) sum `pa + pb`.
pub open spec fn dot_sum(v: Point, pa: Point, pb: Point) -> int {
    v.x * (pa.x + pb.x) + v.y * (pa.y + pb.y) + v.z * (pa.z + pb.z)
}

/// Floor of the square root of a non-negative integer.
pub open spec fn sqrt_floor(n: int) -> int {
    choose|r: int| 0 <= r && #[trigger] (r * r) <= n && n < (r + 1) * (r + 1)
}

/// Truncating division is what the executable code computes on a
/// (possibly negative) coordinate: the magnitude is scaled by
/// `SCALE / r` rounding down, and the sign is kept.
pub open spec fn scale_coord_spec(c: int, r: int) -> int {
    if c >= 0 {
        (c * SCALE) / r
    } else {
        -((-c * SCALE) / r)
    }
}

/// The projected midpoint of the edge `pa`-`pb`: the coordinate sum
/// `pa + pb` (which points along the true midpoint's ray), rescaled onto
/// the sphere by its own norm.
pub open spec fn edge_midpoint(pa: Point, pb: Point) -> Point {
    let sx = pa.x + pb.x;
    let sy = pa.y + pb.y;
    let sz = pa.z + pb.z;
    let r = sqrt_floor(sx * sx + sy * sy + sz * sz);
    Point {
        x: scale_coord_spec(sx, r) as i64,
        y: scale_coord_spec(sy, r) as i64,
        z: scale_coord_spec(sz, r) as i64,
    }
}

/// Squares are monotone on non-negative integers, in both directions.
proof fn lemma_sq_mono(a: int, b: int)
    by (nonlinear_arith)
    requires
        0 <= a,
        0 <= b,
    ensures
        a <= b ==> a * a <= b * b,
        a * a < b * b ==> a < b,
{
}

/// A point on the sphere has every coordinate within `16777223` of zero.
pub proof fn lemma_coord_bound(p: Point)
    requires
        on_sphere(p),
    ensures
        -16777223 <= p.x <= 16777223,
        -16777223 <= p.y <= 16777223,
        -16777223 <= p.z <= 16777223,
{
    assert(p.x * p.x <= norm_sq(p) && p.y * p.y <= norm_sq(p) && p.z * p.z <= norm_sq(p))
        by (nonlinear_arith);
    assert(-16777223 <= p.x <= 16777223) by (nonlinear_arith)
        requires
            p.x * p.x <= 281475245146112,
    ;
    assert(-16777223 <= p.y <= 16777223) by (nonlinear_arith)
        requires
            p.y * p.y <= 281475245146112,
    ;
    assert(-16777223 <= p.z <= 16777223) by (nonlinear_arith)
        requires
            p.z * p.z <= 281475245146112,
    ;
}

/// Twice a dot product is at most the sum of the squared norms
/// (expand the squared norm of the difference).
pub proof fn lemma_dot_upper(p: Point, q: Point)
    by (nonlinear_arith)
    ensures
        2 * dot(p, q) <= norm_sq(p) + norm_sq(q),
{
}

/// The dot product does not depend on the order of its arguments.
pub proof fn lemma_dot_comm(p: Point, q: Point)
    by (nonlinear_arith)
    ensures
        dot(p, q) == dot(q, p),
{
}

/// Integer square root by binary search.
pub fn isqrt(n: i64) -> (r: i64)
    requires
        0 <= n < 0x4000000000000000,
    ensures
        0 <= r,
        r * r <= n < (r + 1) * (r + 1),
        r == sqrt_floor(n as int),
{
    let mut lo: i64 = 0;
    let mut hi: i64 = 0x80000000;
    assert(hi * hi == 0x4000000000000000) by (nonlinear_arith)
        requires
            hi == 0x80000000,
    ;
    while hi - lo > 1
        invariant
            0 <= lo < hi <= 0x80000000,
            lo * lo <= n,
            n < hi * hi,
        decreases hi - lo,
    {
        let mid = lo + (hi - lo) / 2;
        assert(lo < mid < hi);
        assert(mid * mid <= 0x4000000000000000) by (nonlinear_arith)
            requires
                0 <= mid <= 0x80000000,
        ;
        if mid * mid <= n {
            lo = mid;
        } else {
            hi = mid;
        }
    }
    proof {
        assert(hi == lo + 1);
        lemma_sqrt_floor_unique(n as int, lo as int);
    }
    lo
}

/// A floor square root exists for every non-negative integer, so
/// `sqrt_floor` satisfies its defining bracket.
pub proof fn lemma_sqrt_floor_props(n: int)
    requires
        0 <= n,
    ensures
        0 <= sqrt_floor(n),
        sqrt_floor(n) * sqrt_floor(n) <= n,
        n < (sqrt_floor(n) + 1) * (sqrt_floor(n) + 1),
    decreases n,
{
    if n == 0 {
        assert(0 * 0 <= 0 && 0 < (0 + 1) * (0 + 1)) by (nonlinear_arith);
        lemma_sqrt_floor_unique(0, 0);
    } else {
        lemma_sqrt_floor_props(n - 1);
        let r0 = sqrt_floor(n - 1);
        if n < (r0 + 1) * (r0 + 1) {
            lemma_sqrt_floor_unique(n, r0);
        } else {
            assert(n == (r0 + 1) * (r0 + 1));
            assert((r0 + 1) * (r0 + 1) < (r0 + 2) * (r0 + 2)) by (nonlinear_arith)
                requires
                    0 <= r0,
            ;
            lemma_sqrt_floor_unique(n, r0 + 1);
        }
    }
}

/// `sqrt_floor` picks the unique integer whose square brackets `n`.
proof fn lemma_sqrt_floor_unique(n: int, r: int)
    requires
        0 <= r,
        r * r <= n < (r + 1) * (r + 1),
    ensures
        sqrt_floor(n) == r,
{
    assert(0 <= r && r * r <= n && n < (r + 1) * (r + 1));
    let c = sqrt_floor(n);
    assert(0 <= c && c * c <= n && n < (c + 1) * (c + 1));
    assert(c == r) by (nonlinear_arith)
        requires
            0 <= r,
            0 <= c,
            r * r <= n < (r + 1) * (r + 1),
            c * c <= n < (c + 1) * (c + 1),
    ;
}

/// Bracket of floor division: `(a / d) * d` is within `d` below `a`.
proof fn lemma_div_bracket(a: int, d: int)
    requires
        0 <= a,
        1 <= d,
    ensures
        0 <= a / d,
        (a / d) * d <= a,
        a < (a / d) * d + d,
        a / d <= a,
{
    vstd::arithmetic::div_mod::lemma_fundamental_div_mod(a, d);
    vstd::arithmetic::div_mod::lemma_mod_bound(a, d);
    let q = a / d;
    let m = a % d;
    assert(0 <= q && q * d <= a && a < q * d + d && q <= a) by (nonlinear_arith)
        requires
            a == d * q + m,
            0 <= m < d,
            0 <= a,
            1 <= d,
    ;
}

/// `scale_coord_spec(c, r) * r` is within `r - 1` of `c * SCALE`, on the
/// side of zero, and the result keeps the sign of `c`.
pub proof fn lemma_scale_bracket(c: int, r: int)
    requires
        1 <= r,
        -33554447 <= c <= 33554447,
    ensures
        c * SCALE - (r - 1) <= scale_coord_spec(c, r) * r <= c * SCALE + (r - 1),
        c >= 0 ==> 0 <= scale_coord_spec(c, r) && scale_coord_spec(c, r) * r <= c * SCALE,
        c < 0 ==> scale_coord_spec(c, r) <= 0 && c * SCALE <= scale_coord_spec(c, r) * r,
        -562950205079552 <= scale_coord_spec(c, r) <= 562950205079552,
{
    if c >= 0 {
        let q = (c * SCALE) / r;
        lemma_div_bracket(c * SCALE, r);
        assert(scale_coord_spec(c, r) == q);
    } else {
        let q0 = (-c * SCALE) / r;
        lemma_div_bracket(-c * SCALE, r);
        assert(scale_coord_spec(c, r) == -q0);
        assert((-q0) * r == -(q0 * r)) by (nonlinear_arith);
    }
}

/// Scale a coordinate of magnitude at most `33554447` by `SCALE / r`,
/// rounding the magnitude down and keeping the sign.
pub fn scale_coord(c: i64, r: i64) -> (q: i64)
    requires
        1 <= r,
        -33554447 <= c <= 33554447,
    ensures
        q == scale_coord_spec(c as int, r as int),
{
    proof {
        lemma_scale_bracket(c as int, r as int);
    }
    if c >= 0 {
        let num = (c as u64) * 16777216;
        proof {
            lemma_div_bracket(num as int, r as int);
        }
        (num / (r as u64)) as i64
    } else {
        let num = ((-c) as u64) * 16777216;
        proof {
            lemma_div_bracket(num as int, r as int);
        }
        -((num / (r as u64)) as i64)
    }
}

/// The scaled coordinate's square never exceeds the exactly scaled one.
proof fn lemma_coord_sq_upper(c: int, r: int, m: int)
    by (nonlinear_arith)
    requires
        1 <= r,
        c >= 0 ==> 0 <= m && m * r <= c * 16777216,
        c < 0 ==> m <= 0 && c * 16777216 <= m * r,
    ensures
        m * m * r * r <= c * c * 281474976710656,
{
}

/// The scaled coordinate's square loses at most `2 * r * |c| * SCALE`
/// against the exactly scaled one.
proof fn lemma_coord_sq_lower(c: int, r: int, m: int, a: int)
    by (nonlinear_arith)
    requires
        1 <= r,
        c >= 0 ==> a == c,
        c < 0 ==> a == -c,
        c * 16777216 - (r - 1) <= m * r <= c * 16777216 + (r - 1),
        c >= 0 ==> 0 <= m,
        c < 0 ==> m <= 0,
    ensures
        m * m * r * r >= a * a * 281474976710656 - 2 * r * a * 16777216,
        a * a == c * c,
        0 <= a,
{
}

/// Sum the per-coordinate upper bounds.
proof fn lemma_sum_sq_upper(mx: int, my: int, mz: int, cx: int, cy: int, cz: int, r: int)
    by (nonlinear_arith)
    requires
        mx * mx * r * r <= cx * cx * 281474976710656,
        my * my * r * r <= cy * cy * 281474976710656,
        mz * mz * r * r <= cz * cz * 281474976710656,
    ensures
        (mx * mx + my * my + mz * mz) * (r * r) <= (cx * cx + cy * cy + cz * cz) * 281474976710656,
{
}

/// Sum the per-coordinate lower bounds.
proof fn lemma_sum_sq_lower(
    mx: int,
    my: int,
    mz: int,
    ax: int,
    ay: int,
    az: int,
    r: int,
)
    requires
        mx * mx * r * r >= ax * ax * 281474976710656 - 2 * r * ax * 16777216,
        my * my * r * r >= ay * ay * 281474976710656 - 2 * r * ay * 16777216,
        mz * mz * r * r >= az * az * 281474976710656 - 2 * r * az * 16777216,
    ensures
        (mx * mx + my * my + mz * mz) * (r * r) >= (ax * ax + ay * ay + az * az) * 281474976710656
            - 33554432 * r * (ax + ay + az),
{
    assert((mx * mx + my * my + mz * mz) * (r * r) == mx * mx * r * r + my * my * r * r + mz * mz
        * r * r) by (nonlinear_arith);
    assert((ax * ax + ay * ay + az * az) * 281474976710656 == ax * ax * 281474976710656 + ay * ay
        * 281474976710656 + az * az * 281474976710656) by (nonlinear_arith);
    assert(33554432 * r * (ax + ay + az) == 2 * r * ax * 16777216 + 2 * r * ay * 16777216 + 2 * r * az
        * 16777216) by (nonlinear_arith);
}

/// Divide the summed upper bound by `r * r`.
proof fn lemma_norm_upper_final(t: int, n: int, r: int)
    by (nonlinear_arith)
    requires
        23000000 <= r,
        t * (r * r) <= n * 281474976710656,
        n < (r + 1) * (r + 1),
    ensures
        t <= 281475245146112,
{
}

/// Divide the summed lower bound by `r * r`.
proof fn lemma_norm_lower_final(t: int, n: int, r: int, sa: int)
    by (nonlinear_arith)
    requires
        23000000 <= r,
        t * (r * r) >= n * 281474976710656 - 33554432 * r * sa,
        r * r <= n,
        0 <= sa <= 3 * r,
    ensures
        t >= 281474708275200,
{
}

/// Range facts for the coordinate sum of an edge whose endpoints lie on
/// the sphere and subtend at most a quarter turn: its squared norm, its
/// floor square root `r`, and its coordinates against `r`.
pub proof fn lemma_edge_r_range(
    pa: Point,
    pb: Point,
    sx: int,
    sy: int,
    sz: int,
    n: int,
    r: int,
)
    requires
        on_sphere(pa),
        on_sphere(pb),
        dot(pa, pb) >= 0,
        sx == pa.x + pb.x,
        sy == pa.y + pb.y,
        sz == pa.z + pb.z,
        n == sx * sx + sy * sy + sz * sz,
        r == sqrt_floor(n),
    ensures
        562949416550400 <= n <= 1125900980584448,
        23000000 <= r <= 33554447,
        r * r <= n < (r + 1) * (r + 1),
        -33554446 <= sx <= 33554446,
        -33554446 <= sy <= 33554446,
        -33554446 <= sz <= 33554446,
        -r <= sx <= r,
        -r <= sy <= r,
        -r <= sz <= r,
{
    lemma_coord_bound(pa);
    lemma_coord_bound(pb);
    lemma_dot_upper(pa, pb);
    assert(sx * sx == pa.x * pa.x + 2 * (pa.x * pb.x) + pb.x * pb.x) by (nonlinear_arith)
        requires
            sx == pa.x + pb.x,
    ;
    assert(sy * sy == pa.y * pa.y + 2 * (pa.y * pb.y) + pb.y * pb.y) by (nonlinear_arith)
        requires
            sy == pa.y + pb.y,
    ;
    assert(sz * sz == pa.z * pa.z + 2 * (pa.z * pb.z) + pb.z * pb.z) by (nonlinear_arith)
        requires
            sz == pa.z + pb.z,
    ;
    assert(n == norm_sq(pa) + norm_sq(pb) + 2 * dot(pa, pb));
    assert(562949416550400 <= n <= 1125900980584448);
    lemma_sqrt_floor_props(n);
    assert(23000000 <= r) by (nonlinear_arith)
        requires
            0 <= r,
            562949416550400 < (r + 1) * (r + 1),
    ;
    assert(r <= 33554447) by (nonlinear_arith)
        requires
            0 <= r,
            r * r <= 1125900980584448,
    ;
    assert(sy * sy >= 0 && sz * sz >= 0 && sx * sx >= 0) by (nonlinear_arith);
    let ax = if sx >= 0 { sx } else { -sx };
    let ay = if sy >= 0 { sy } else { -sy };
    let az = if sz >= 0 { sz } else { -sz };
    assert(ax * ax == sx * sx) by (nonlinear_arith)
        requires
            ax == sx || ax == -sx,
    ;
    assert(ay * ay == sy * sy) by (nonlinear_arith)
        requires
            ay == sy || ay == -sy,
    ;
    assert(az * az == sz * sz) by (nonlinear_arith)
        requires
            az == sz || az == -sz,
    ;
    assert(ax * ax < (r + 1) * (r + 1));
    lemma_sq_mono(ax, r + 1);
    lemma_sq_mono(ay, r + 1);
    lemma_sq_mono(az, r + 1);
}

/// The projected midpoint of a well-formed edge lies on the sphere.
pub proof fn lemma_edge_midpoint_on_sphere(pa: Point, pb: Point)
    requires
        on_sphere(pa),
        on_sphere(pb),
        dot(pa, pb) >= 0,
    ensures
        on_sphere(edge_midpoint(pa, pb)),
{
    let sx = pa.x + pb.x;
    let sy = pa.y + pb.y;
    let sz = pa.z + pb.z;
    let n = sx * sx + sy * sy + sz * sz;
    let r = sqrt_floor(n);
    lemma_edge_r_range(pa, pb, sx, sy, sz, n, r);
    lemma_scale_bracket(sx, r);
    lemma_scale_bracket(sy, r);
    lemma_scale_bracket(sz, r);
    let mx = scale_coord_spec(sx, r);
    let my = scale_coord_spec(sy, r);
    let mz = scale_coord_spec(sz, r);
    let ax = if sx >= 0 { sx } else { -sx };
    let ay = if sy >= 0 { sy } else { -sy };
    let az = if sz >= 0 { sz } else { -sz };
    lemma_coord_sq_upper(sx, r, mx);
    lemma_coord_sq_upper(sy, r, my);
    lemma_coord_sq_upper(sz, r, mz);
    lemma_coord_sq_lower(sx, r, mx, ax);
    lemma_coord_sq_lower(sy, r, my, ay);
    lemma_coord_sq_lower(sz, r, mz, az);
    lemma_sum_sq_upper(mx, my, mz, sx, sy, sz, r);
    let t = mx * mx + my * my + mz * mz;
    lemma_norm_upper_final(t, n, r);
    lemma_sum_sq_lower(mx, my, mz, ax, ay, az, r);
    assert(ax * ax + ay * ay + az * az == n);
    lemma_norm_lower_final(t, n, r, ax + ay + az);
    let m = edge_midpoint(pa, pb);
    assert(m.x == mx && m.y == my && m.z == mz);
    assert(norm_sq(m) == t);
}

/// One rounded product against an exact one: the loss is bounded by the
/// bound on `v` times the rounding error.
proof fn lemma_mul_err(v: int, t: int, u: int, e: int)
    by (nonlinear_arith)
    requires
        u - e <= t <= u + e,
        -33554447 <= v <= 33554447,
        0 <= e,
    ensures
        v * t >= v * u - 33554447 * e,
{
}

/// A dot product with the rounded scaling against the exact scaling.
proof fn lemma_dot_scaled(
    vx: int,
    vy: int,
    vz: int,
    cx: int,
    cy: int,
    cz: int,
    mx: int,
    my: int,
    mz: int,
    r: int,
)
    requires
        1 <= r,
        cx * 16777216 - (r - 1) <= mx * r <= cx * 16777216 + (r - 1),
        cy * 16777216 - (r - 1) <= my * r <= cy * 16777216 + (r - 1),
        cz * 16777216 - (r - 1) <= mz * r <= cz * 16777216 + (r - 1),
        -33554447 <= vx <= 33554447,
        -33554447 <= vy <= 33554447,
        -33554447 <= vz <= 33554447,
    ensures
        (vx * mx + vy * my + vz * mz) * r >= 16777216 * (vx * cx + vy * cy + vz * cz) - 100663341 * r,
{
    lemma_mul_err(vx, mx * r, cx * 16777216, r - 1);
    lemma_mul_err(vy, my * r, cy * 16777216, r - 1);
    lemma_mul_err(vz, mz * r, cz * 16777216, r - 1);
    assert(vx * (mx * r) >= vx * (cx * 16777216) - 33554447 * (r - 1));
    assert(vy * (my * r) >= vy * (cy * 16777216) - 33554447 * (r - 1));
    assert(vz * (mz * r) >= vz * (cz * 16777216) - 33554447 * (r - 1));
    assert((vx * mx + vy * my + vz * mz) * r == vx * (mx * r) + vy * (my * r) + vz * (mz * r))
        by (nonlinear_arith);
    assert(16777216 * (vx * cx + vy * cy + vz * cz) == vx * (cx * 16777216) + vy * (cy * 16777216) + vz * (
    cz * 16777216)) by (nonlinear_arith);
    assert((vx * mx + vy * my + vz * mz) * r >= 16777216 * (vx * cx + vy * cy + vz * cz) - 100663341 * (r
        - 1));
}

/// Lower bounds on a dot product with the projected midpoint, for the
/// three thresholds the subdivision proof needs.
proof fn lemma_dot_conclude(t: int, d: int, r: int)
    by (nonlinear_arith)
    requires
        23000000 <= r <= 33554447,
        t * r >= 16777216 * d - 100663341 * r,
    ensures
        d >= 281474708275200 ==> t >= 140000000000000,
        d >= 100000000000000 ==> t >= 0,
        d >= 0 ==> t >= -100663341,
{
}

/// How a dot product survives midpoint projection: if `v` points at most
/// a quarter turn away from the edge sum, sharper thresholds on
/// `dot_sum` give sharper floors on the projected dot product.
pub proof fn lemma_edge_midpoint_dot(v: Point, pa: Point, pb: Point)
    requires
        on_sphere(pa),
        on_sphere(pb),
        dot(pa, pb) >= 0,
        -33554447 <= v.x <= 33554447,
        -33554447 <= v.y <= 33554447,
        -33554447 <= v.z <= 33554447,
    ensures
        dot_sum(v, pa, pb) >= 281474708275200 ==> dot(v, edge_midpoint(pa, pb)) >= 140000000000000,
        dot_sum(v, pa, pb) >= 100000000000000 ==> dot(v, edge_midpoint(pa, pb)) >= 0,
        dot_sum(v, pa, pb) >= 0 ==> dot(v, edge_midpoint(pa, pb)) >= -100663341,
{
    let sx = pa.x + pb.x;
    let sy = pa.y + pb.y;
    let sz = pa.z + pb.z;
    let n = sx * sx + sy * sy + sz * sz;
    let r = sqrt_floor(n);
    lemma_edge_r_range(pa, pb, sx, sy, sz, n, r);
    lemma_scale_bracket(sx, r);
    lemma_scale_bracket(sy, r);
    lemma_scale_bracket(sz, r);
    let m = edge_midpoint(pa, pb);
    let mx = scale_coord_spec(sx, r);
    let my = scale_coord_spec(sy, r);
    let mz = scale_coord_spec(sz, r);
    assert(m.x == mx && m.y == my && m.z == mz);
    lemma_dot_scaled(v.x as int, v.y as int, v.z as int, sx, sy, sz, mx, my, mz, r);
    assert(dot(v, m) == v.x * mx + v.y * my + v.z * mz);
    assert(dot_sum(v, pa, pb) == v.x * sx + v.y * sy + v.z * sz);
    lemma_dot_conclude(dot(v, m), dot_sum(v, pa, pb), r);
}

/// The projected midpoint of the edge `pa`-`pb`: add the endpoint
/// coordinates and rescale the sum onto the sphere by its own norm.
/// This is the numeric heart of subdivision; the endpoints must not
/// point more than a quarter turn apart, which keeps the sum well away
/// from the origin.
pub fn subdivide_edge(pa: Point, pb: Point) -> (m: Point)
    requires
        on_sphere(pa),
        on_sphere(pb),
        dot(pa, pb) >= 0,
    ensures
        m == edge_midpoint(pa, pb),
        on_sphere(m),
{
    proof {
        lemma_coord_bound(pa);
        lemma_coord_bound(pb);
    }
    let sx = pa.x + pb.x;
    let sy = pa.y + pb.y;
    let sz = pa.z + pb.z;
    assert(0 <= sx * sx <= 1125900846366916 && 0 <= sy * sy <= 1125900846366916 && 0 <= sz * sz
        <= 1125900846366916) by (nonlinear_arith)
        requires
            -33554446 <= sx <= 33554446,
            -33554446 <= sy <= 33554446,
            -33554446 <= sz <= 33554446,
    ;
    let n = sx * sx + sy * sy + sz * sz;
    let r = isqrt(n);
    proof {
        lemma_edge_r_range(pa, pb, sx as int, sy as int, sz as int, n as int, r as int);
        lemma_edge_midpoint_on_sphere(pa, pb);
    }
    let m = Point { x: scale_coord(sx, r), y: scale_coord(sy, r), z: scale_coord(sz, r) };
    m
}

} // verus!

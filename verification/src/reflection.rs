//! The law of the mirror: reflecting twice about the same unit normal
//! gives the vector back.
//!
//! Fixed-point products are rounded, and a rounded reflection cannot be
//! undone exactly. The law is therefore stated for the reflections that
//! need no rounding: those in which every product is a whole number of
//! millionths.
use crate::scalar::{saturate, Scalar, RAW_MAX, SCALE};
use crate::vec3::Vec3;
use vstd::prelude::*;

verus! {

/// Whether the product of two numbers is a whole number of millionths, so
/// that multiplying them rounds nothing away.
pub open spec fn exact(a: Scalar, b: Scalar) -> bool {
    (a.raw * b.raw) % (SCALE as int) == 0
}

/// Whether a vector has length one, exactly.
pub open spec fn is_unit(n: Vec3) -> bool {
    n.x.raw * n.x.raw + n.y.raw * n.y.raw + n.z.raw * n.z.raw == SCALE * SCALE
}

/// Whether no component of a vector exceeds `bound` millionths in size.
pub open spec fn within(v: Vec3, bound: int) -> bool {
    &&& -bound <= v.x.raw <= bound
    &&& -bound <= v.y.raw <= bound
    &&& -bound <= v.z.raw <= bound
}

/// Whether the reflection of `v` about `n` is computed without rounding.
pub open spec fn reflects_exactly(v: Vec3, n: Vec3) -> bool {
    let k = Scalar::from_int(2).times(v.dot(n));
    &&& exact(v.x, n.x)
    &&& exact(v.y, n.y)
    &&& exact(v.z, n.z)
    &&& exact(n.x, k)
    &&& exact(n.y, k)
    &&& exact(n.z, k)
}

/// The largest size of a component for which the law is stated: a thousand
/// million.
pub open spec fn reach() -> int {
    1_000_000_000_000_000
}

/// No component of a unit vector exceeds one.
proof fn lemma_unit_components(n: Vec3)
    requires
        is_unit(n),
    ensures
        within(n, SCALE as int),
{
    let x = n.x.raw as int;
    let y = n.y.raw as int;
    let z = n.z.raw as int;
    assert(x * x >= 0 && y * y >= 0 && z * z >= 0) by (nonlinear_arith);
    assert(-1_000_000 <= x <= 1_000_000) by (nonlinear_arith)
        requires
            x * x <= 1_000_000 * 1_000_000,
    ;
    assert(-1_000_000 <= y <= 1_000_000) by (nonlinear_arith)
        requires
            y * y <= 1_000_000 * 1_000_000,
    ;
    assert(-1_000_000 <= z <= 1_000_000) by (nonlinear_arith)
        requires
            z * z <= 1_000_000 * 1_000_000,
    ;
}

/// An exact product that is at most `m` in size is computed without
/// clamping: multiplied by the scale it is the product of the raw values.
proof fn lemma_exact_times(a: Scalar, b: Scalar, m: int)
    requires
        exact(a, b),
        0 <= m <= RAW_MAX,
        -m * SCALE <= a.raw * b.raw <= m * SCALE,
    ensures
        a.times(b).raw * SCALE == a.raw * b.raw,
        -m <= a.times(b).raw <= m,
{
    let p = a.raw * b.raw;
    let s = SCALE as int;
    let q = p / s;
    vstd::arithmetic::div_mod::lemma_fundamental_div_mod(p, s);
    assert(s * q == q * s) by (nonlinear_arith);
    assert(-m <= q <= m) by (nonlinear_arith)
        requires
            q * s == p,
            -m * s <= p <= m * s,
            s > 0,
    ;
    assert(saturate(q) == q);
}

/// What an exact reflection computes, in raw values: the dot product
/// `d`, twice the dot product, and the mirrored vector.
proof fn lemma_exact_reflection(v: Vec3, n: Vec3, bound: int)
    requires
        is_unit(n),
        0 <= bound <= 10 * reach(),
        within(v, bound),
        reflects_exactly(v, n),
    ensures
        ({
            let r = v.reflect(&n);
            let d = v.dot(n).raw as int;
            &&& d * SCALE == v.x.raw * n.x.raw + v.y.raw * n.y.raw + v.z.raw * n.z.raw
            &&& r.x.raw * SCALE == v.x.raw * SCALE - n.x.raw * (2 * d)
            &&& r.y.raw * SCALE == v.y.raw * SCALE - n.y.raw * (2 * d)
            &&& r.z.raw * SCALE == v.z.raw * SCALE - n.z.raw * (2 * d)
            &&& within(r, 7 * bound)
        }),
{
    let s = SCALE as int;
    lemma_unit_components(n);
    lemma_small_product(v.x, n.x, bound);
    lemma_small_product(v.y, n.y, bound);
    lemma_small_product(v.z, n.z, bound);
    lemma_exact_times(v.x, n.x, bound);
    lemma_exact_times(v.y, n.y, bound);
    lemma_exact_times(v.z, n.z, bound);
    let ax = v.x.times(n.x);
    let ay = v.y.times(n.y);
    let az = v.z.times(n.z);
    assert(ax.plus(ay).raw == ax.raw + ay.raw);
    let dot = v.dot(n);
    let d = dot.raw as int;
    assert(d == ax.raw + ay.raw + az.raw);
    assert(d * s == ax.raw * s + ay.raw * s + az.raw * s) by (nonlinear_arith)
        requires
            d == ax.raw + ay.raw + az.raw,
    ;
    let two = Scalar::from_int(2);
    assert(two.raw == 2 * s);
    assert(two.raw * dot.raw == (2 * d) * s) by (nonlinear_arith)
        requires
            two.raw == 2 * s,
            dot.raw == d,
    ;
    vstd::arithmetic::div_mod::lemma_mod_multiples_basic(2 * d, s);
    assert(-(6 * bound) * s <= (2 * d) * s <= (6 * bound) * s) by (nonlinear_arith)
        requires
            -3 * bound <= d <= 3 * bound,
            s > 0,
    ;
    lemma_exact_times(two, dot, 6 * bound);
    let k = two.times(dot);
    assert(k.raw == 2 * d) by (nonlinear_arith)
        requires
            k.raw * s == (2 * d) * s,
            s > 0,
    ;
    lemma_small_product(k, n.x, 6 * bound);
    lemma_small_product(k, n.y, 6 * bound);
    lemma_small_product(k, n.z, 6 * bound);
    assert(n.x.raw * k.raw == k.raw * n.x.raw) by (nonlinear_arith);
    assert(n.y.raw * k.raw == k.raw * n.y.raw) by (nonlinear_arith);
    assert(n.z.raw * k.raw == k.raw * n.z.raw) by (nonlinear_arith);
    lemma_exact_times(n.x, k, 6 * bound);
    lemma_exact_times(n.y, k, 6 * bound);
    lemma_exact_times(n.z, k, 6 * bound);
    let b = n.scaled(k);
    let r = v.reflect(&n);
    assert(r == v.minus(b));
    assert(r.x.raw == v.x.raw - b.x.raw);
    assert(r.y.raw == v.y.raw - b.y.raw);
    assert(r.z.raw == v.z.raw - b.z.raw);
    assert(r.x.raw * s == v.x.raw * s - b.x.raw * s) by (nonlinear_arith)
        requires
            r.x.raw == v.x.raw - b.x.raw,
    ;
    assert(r.y.raw * s == v.y.raw * s - b.y.raw * s) by (nonlinear_arith)
        requires
            r.y.raw == v.y.raw - b.y.raw,
    ;
    assert(r.z.raw * s == v.z.raw * s - b.z.raw * s) by (nonlinear_arith)
        requires
            r.z.raw == v.z.raw - b.z.raw,
    ;
}

/// The product of a number of bounded size and a number that is at most
/// one in size is at most the bound in size.
proof fn lemma_small_product(a: Scalar, b: Scalar, bound: int)
    requires
        0 <= bound,
        -bound <= a.raw <= bound,
        -SCALE <= b.raw <= SCALE,
    ensures
        -bound * SCALE <= a.raw * b.raw <= bound * SCALE,
{
    let x = a.raw as int;
    let y = b.raw as int;
    let s = SCALE as int;
    assert(-bound * s <= x * y <= bound * s) by (nonlinear_arith)
        requires
            0 <= bound,
            -bound <= x <= bound,
            -s <= y <= s,
    ;
}

/// One component of the dot product of a mirrored vector with the
/// normal, in terms of the vector itself.
proof fn lemma_mirrored_component(r: int, v: int, n: int, d: int, s: int)
    requires
        r * s == v * s - n * (2 * d),
    ensures
        (r * n) * s == (v * n) * s - 2 * (d * (n * n)),
{
    assert((r * n) * s == (r * s) * n) by (nonlinear_arith);
    assert((v * s - n * (2 * d)) * n == (v * n) * s - 2 * (d * (n * n))) by (nonlinear_arith);
}

/// Reflecting a vector twice about the same unit normal gives the vector
/// back, for every vector with components of at most a thousand million
/// whose two reflections are computed without rounding.
pub proof fn lemma_reflect_involution(v: Vec3, n: Vec3)
    requires
        is_unit(n),
        within(v, reach()),
        reflects_exactly(v, n),
        reflects_exactly(v.reflect(&n), n),
    ensures
        v.reflect(&n).reflect(&n) == v,
{
    let s = SCALE as int;
    let r = v.reflect(&n);
    let back = r.reflect(&n);
    lemma_exact_reflection(v, n, reach());
    lemma_exact_reflection(r, n, 7 * reach());
    let d = v.dot(n).raw as int;
    let e = r.dot(n).raw as int;
    let nx = n.x.raw as int;
    let ny = n.y.raw as int;
    let nz = n.z.raw as int;
    let vx = v.x.raw as int;
    let vy = v.y.raw as int;
    let vz = v.z.raw as int;
    let rx = r.x.raw as int;
    let ry = r.y.raw as int;
    let rz = r.z.raw as int;
    lemma_mirrored_component(rx, vx, nx, d, s);
    lemma_mirrored_component(ry, vy, ny, d, s);
    lemma_mirrored_component(rz, vz, nz, d, s);
    let total = vx * nx + vy * ny + vz * nz;
    let square = nx * nx + ny * ny + nz * nz;
    assert((e * s) * s == (rx * nx) * s + (ry * ny) * s + (rz * nz) * s) by (nonlinear_arith)
        requires
            e * s == rx * nx + ry * ny + rz * nz,
    ;
    assert(total * s == (vx * nx) * s + (vy * ny) * s + (vz * nz) * s) by (nonlinear_arith)
        requires
            total == vx * nx + vy * ny + vz * nz,
    ;
    assert(d * square == d * (nx * nx) + d * (ny * ny) + d * (nz * nz)) by (nonlinear_arith)
        requires
            square == nx * nx + ny * ny + nz * nz,
    ;
    assert((e * s) * s == total * s - 2 * (d * square));
    assert(d * square == (d * s) * s) by (nonlinear_arith)
        requires
            square == s * s,
    ;
    assert((e * s) * s == -(d * s) * s);
    assert(e == -d) by (nonlinear_arith)
        requires
            (e * s) * s == -(d * s) * s,
            s > 0,
    ;
    assert(back.x.raw == vx) by (nonlinear_arith)
        requires
            back.x.raw * s == rx * s - nx * (2 * e),
            rx * s == vx * s - nx * (2 * d),
            e == -d,
            s > 0,
    ;
    assert(back.y.raw == vy) by (nonlinear_arith)
        requires
            back.y.raw * s == ry * s - ny * (2 * e),
            ry * s == vy * s - ny * (2 * d),
            e == -d,
            s > 0,
    ;
    assert(back.z.raw == vz) by (nonlinear_arith)
        requires
            back.z.raw * s == rz * s - nz * (2 * e),
            rz * s == vz * s - nz * (2 * d),
            e == -d,
            s > 0,
    ;
}

} // verus!

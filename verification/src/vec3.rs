//! Three-component vectors over fixed-point scalars.

use vstd::prelude::*;

verus! {

use crate::fixed::{
    SCALE, abs_int, div_trunc, divi_fx, fdiv, fmul, fsqrt, is_isqrt, isqrt_int, isqrt_u128,
    lemma_div_trunc_mag, lemma_isqrt_below, lemma_mul_fx_bound, lemma_mul_mag_bound, mul_fx,
    sqrt_fx,
};
use crate::utils::random_double_range;
use vstd::arithmetic::div_mod::lemma_fundamental_div_mod;

/// All components below this magnitude count as "near zero": the smallest
/// epsilon at which a square still registers at this fixed-point scale.
pub const NEAR_ZERO_EPS: i64 = 256;

/// A bound on every component of a normalized vector: truncation can push a
/// component slightly past 1.0, never past 2.0.
pub const UNIT_MAX: i64 = 131072;

/// A vector (or point) in scene space, components in fixed-point units.
#[derive(Clone, Copy, Debug, PartialEq, Eq, Structural)]
pub struct Vec3 {
    pub x: i64,
    pub y: i64,
    pub z: i64,
}

/// A location in scene space.
pub type Point3 = Vec3;

/// The fixed-point dot product.
pub open spec fn dot3(a: Vec3, b: Vec3) -> int {
    mul_fx(a.x as int, b.x as int) + mul_fx(a.y as int, b.y as int) + mul_fx(
        a.z as int,
        b.z as int,
    )
}

/// The fixed-point cross product, as a component triple.
pub open spec fn cross3(a: Vec3, b: Vec3) -> (int, int, int) {
    (
        mul_fx(a.y as int, b.z as int) - mul_fx(a.z as int, b.y as int),
        mul_fx(a.z as int, b.x as int) - mul_fx(a.x as int, b.z as int),
        mul_fx(a.x as int, b.y as int) - mul_fx(a.y as int, b.x as int),
    )
}

/// Whether every component is below the near-zero epsilon.
pub open spec fn near_zero3(a: Vec3) -> bool {
    abs_int(a.x as int) < NEAR_ZERO_EPS && abs_int(a.y as int) < NEAR_ZERO_EPS && abs_int(
        a.z as int,
    ) < NEAR_ZERO_EPS
}

/// The length of `a`, the fixed-point square root of its squared length.
pub open spec fn length3(a: Vec3) -> int {
    sqrt_fx(dot3(a, a))
}

/// One component of `a` normalized: divided by the length of `a`.
pub open spec fn unit_comp(c: int, a: Vec3) -> int {
    divi_fx(c, length3(a))
}

/// The component-wise sum, as a vector.
pub open spec fn add3v(a: Vec3, b: Vec3) -> Vec3 {
    Vec3 { x: (a.x + b.x) as i64, y: (a.y + b.y) as i64, z: (a.z + b.z) as i64 }
}

/// The component-wise difference, as a vector.
pub open spec fn sub3v(a: Vec3, b: Vec3) -> Vec3 {
    Vec3 { x: (a.x - b.x) as i64, y: (a.y - b.y) as i64, z: (a.z - b.z) as i64 }
}

/// The opposite vector.
pub open spec fn neg3v(a: Vec3) -> Vec3 {
    Vec3 { x: (-a.x) as i64, y: (-a.y) as i64, z: (-a.z) as i64 }
}

/// The vector scaled by a fixed-point factor.
pub open spec fn scale3v(a: Vec3, s: int) -> Vec3 {
    Vec3 {
        x: mul_fx(a.x as int, s) as i64,
        y: mul_fx(a.y as int, s) as i64,
        z: mul_fx(a.z as int, s) as i64,
    }
}

/// The vector divided by a fixed-point factor.
pub open spec fn div3v(a: Vec3, s: int) -> Vec3 {
    Vec3 {
        x: divi_fx(a.x as int, s) as i64,
        y: divi_fx(a.y as int, s) as i64,
        z: divi_fx(a.z as int, s) as i64,
    }
}

/// The normalized vector.
pub open spec fn unit3v(a: Vec3) -> Vec3 {
    Vec3 {
        x: unit_comp(a.x as int, a) as i64,
        y: unit_comp(a.y as int, a) as i64,
        z: unit_comp(a.z as int, a) as i64,
    }
}

/// The cross product, as a vector.
pub open spec fn cross3v(a: Vec3, b: Vec3) -> Vec3 {
    Vec3 { x: cross3(a, b).0 as i64, y: cross3(a, b).1 as i64, z: cross3(a, b).2 as i64 }
}

/// The reflection, as a vector.
pub open spec fn reflect3v(v: Vec3, n: Vec3) -> Vec3 {
    Vec3 { x: reflect3(v, n).0 as i64, y: reflect3(v, n).1 as i64, z: reflect3(v, n).2 as i64 }
}

/// The refraction, as a vector.
pub open spec fn refract3v(uv: Vec3, n: Vec3, ratio: int) -> Vec3 {
    Vec3 {
        x: refract3(uv, n, ratio).0 as i64,
        y: refract3(uv, n, ratio).1 as i64,
        z: refract3(uv, n, ratio).2 as i64,
    }
}

/// A component that is not near zero squares to at least one unit, so the
/// squared length of a vector that is not near zero is at least one.
pub proof fn lemma_not_near_zero_dot(a: Vec3)
    requires
        !near_zero3(a),
    ensures
        dot3(a, a) >= 1,
{
    lemma_len2_nonneg(a);
    if abs_int(a.x as int) >= 256 {
        lemma_square_at_least_unit(a.x as int);
    } else if abs_int(a.y as int) >= 256 {
        lemma_square_at_least_unit(a.y as int);
    } else {
        lemma_square_at_least_unit(a.z as int);
    }
}

/// A magnitude of at least 256 squares to at least one fixed-point unit.
pub proof fn lemma_square_at_least_unit(c: int)
    requires
        abs_int(c) >= 256,
    ensures
        mul_fx(c, c) >= 1,
{
    assert(c * c >= 65536) by (nonlinear_arith)
        requires
            abs_int(c) >= 256,
    ;
    lemma_div_trunc_mag(c * c, 65536);
    vstd::arithmetic::div_mod::lemma_div_is_ordered(65536, c * c, 65536);
}

/// All components bounded by `m` in magnitude.
pub open spec fn bounded3(a: Vec3, m: int) -> bool {
    abs_int(a.x as int) <= m && abs_int(a.y as int) <= m && abs_int(a.z as int) <= m
}

/// A square never truncates below zero.
pub proof fn lemma_square_fx_nonneg(c: int)
    ensures
        mul_fx(c, c) >= 0,
        abs_int(c * c) == c * c,
{
    assert(c * c >= 0) by (nonlinear_arith);
    lemma_div_trunc_mag(c * c, SCALE as int);
}

/// The squared length is nonnegative and each squared component is below it.
pub proof fn lemma_len2_nonneg(a: Vec3)
    ensures
        dot3(a, a) >= 0,
        mul_fx(a.x as int, a.x as int) <= dot3(a, a),
        mul_fx(a.y as int, a.y as int) <= dot3(a, a),
        mul_fx(a.z as int, a.z as int) <= dot3(a, a),
{
    lemma_square_fx_nonneg(a.x as int);
    lemma_square_fx_nonneg(a.y as int);
    lemma_square_fx_nonneg(a.z as int);
}

/// A bound on a dot product from bounds on its operands.
pub proof fn lemma_dot3_bound(a: Vec3, b: Vec3, m: int, n: int)
    requires
        bounded3(a, m),
        bounded3(b, n),
    ensures
        abs_int(mul_fx(a.x as int, b.x as int)) + abs_int(mul_fx(a.y as int, b.y as int))
            + abs_int(mul_fx(a.z as int, b.z as int)) <= 3 * ((m * n) / (SCALE as int)),
        abs_int(dot3(a, b)) <= 3 * ((m * n) / (SCALE as int)),
{
    lemma_mul_fx_bound(a.x as int, b.x as int, m, n);
    lemma_mul_fx_bound(a.y as int, b.y as int, m, n);
    lemma_mul_fx_bound(a.z as int, b.z as int, m, n);
}

/// Truncation budgets for products of unit-scale operands: each lemma fixes
/// one magnitude step of the scatter arithmetic, so the larger proofs stay
/// linear.
pub proof fn lemma_fx_cap_ss(a: int, b: int)
    requires
        abs_int(a) <= 65536,
        abs_int(b) <= 65536,
    ensures
        abs_int(mul_fx(a, b)) <= 65536,
{
    lemma_mul_fx_bound(a, b, 65536, 65536);
}

/// Budget for a product of two normalized components.
pub proof fn lemma_fx_cap_uu(a: int, b: int)
    requires
        abs_int(a) <= 131072,
        abs_int(b) <= 131072,
    ensures
        abs_int(mul_fx(a, b)) <= 262144,
{
    lemma_mul_fx_bound(a, b, 131072, 131072);
}

/// Budget for a normalized component times a clamped cosine.
pub proof fn lemma_fx_cap_uc(a: int, b: int)
    requires
        abs_int(a) <= 131072,
        abs_int(b) <= 65536,
    ensures
        abs_int(mul_fx(a, b)) <= 131072,
{
    lemma_mul_fx_bound(a, b, 131072, 65536);
}

/// Budget for a normalized component times twice a unit dot product.
pub proof fn lemma_fx_cap_ud(a: int, b: int)
    requires
        abs_int(a) <= 131072,
        abs_int(b) <= 1572864,
    ensures
        abs_int(mul_fx(a, b)) <= 3145728,
{
    lemma_mul_fx_bound(a, b, 131072, 1572864);
}

/// Budget for the refraction scaling step.
pub proof fn lemma_fx_cap_rr(a: int, b: int)
    requires
        abs_int(a) <= 262144,
        abs_int(b) <= 262144,
    ensures
        abs_int(mul_fx(a, b)) <= 1048576,
{
    lemma_mul_fx_bound(a, b, 262144, 262144);
}

/// Budget for the squared length of the refracted perpendicular part.
pub proof fn lemma_fx_cap_pp(a: int, b: int)
    requires
        abs_int(a) <= 1048576,
        abs_int(b) <= 1048576,
    ensures
        abs_int(mul_fx(a, b)) <= 16777216,
{
    lemma_mul_fx_bound(a, b, 1048576, 1048576);
}

/// Budget for a normalized component times the refraction square root.
pub proof fn lemma_fx_cap_uq(a: int, b: int)
    requires
        abs_int(a) <= 131072,
        abs_int(b) <= 1835008,
    ensures
        abs_int(mul_fx(a, b)) <= 3670016,
{
    lemma_mul_fx_bound(a, b, 131072, 1835008);
}

/// Budget for the refraction square root itself.
pub proof fn lemma_sqrt_cap(r: int, k: int)
    requires
        is_isqrt(r, k * 65536),
        0 <= k <= 50397184,
    ensures
        0 <= r <= 1835008,
{
    lemma_isqrt_below(r, k * 65536, 1835009);
    assert(k * 65536 < 1835009 * 1835009) by (nonlinear_arith)
        requires
            0 <= k <= 50397184,
    ;
}

/// Budget for a raw ray direction times a normalized component.
pub proof fn lemma_fx_cap_du(a: int, b: int)
    requires
        abs_int(a) <= 0x1_0000_0000_0000,
        abs_int(b) <= 131072,
    ensures
        abs_int(mul_fx(a, b)) <= 0x2_0000_0000_0000,
{
    lemma_mul_fx_bound(a, b, 0x1_0000_0000_0000, 131072);
}

/// Budget for a fuzzed reflection component times a normalized component.
pub proof fn lemma_fx_cap_mn(a: int, b: int)
    requires
        abs_int(a) <= 4325376,
        abs_int(b) <= 131072,
    ensures
        abs_int(mul_fx(a, b)) <= 8650752,
{
    lemma_mul_fx_bound(a, b, 4325376, 131072);
}

/// Budget for an in-sphere sample component times a fuzz radius.
pub proof fn lemma_fx_cap_sf(a: int, b: int)
    requires
        abs_int(a) <= 65536,
        abs_int(b) <= 1048576,
    ensures
        abs_int(mul_fx(a, b)) <= 1048576,
{
    lemma_mul_fx_bound(a, b, 65536, 1048576);
}

/// Scaling any vector by a zero factor gives the zero vector.
pub proof fn lemma_scale3v_zero(a: Vec3)
    ensures
        scale3v(a, 0) == (Vec3 { x: 0, y: 0, z: 0 }),
{
    lemma_div_trunc_mag((a.x as int) * 0, 65536);
    lemma_div_trunc_mag((a.y as int) * 0, 65536);
    lemma_div_trunc_mag((a.z as int) * 0, 65536);
}

/// Budget for the fifth power step of the reflectance estimate.
pub proof fn lemma_fx_cap_p5(a: int, b: int)
    requires
        abs_int(a) <= 16777216,
        abs_int(b) <= 131072,
    ensures
        abs_int(mul_fx(a, b)) <= 33554432,
{
    lemma_mul_fx_bound(a, b, 16777216, 131072);
}

/// Budget for a unit-interval factor times the fifth power.
pub proof fn lemma_fx_cap_sp(a: int, b: int)
    requires
        abs_int(a) <= 65536,
        abs_int(b) <= 33554432,
    ensures
        abs_int(mul_fx(a, b)) <= 33554432,
{
    lemma_mul_fx_bound(a, b, 65536, 33554432);
}

/// A square root of a unit-interval scalar stays in the unit interval.
pub proof fn lemma_sqrt_unit(r: int, k: int)
    requires
        is_isqrt(r, k * 65536),
        0 <= k <= 65536,
    ensures
        0 <= r <= 65536,
{
    lemma_isqrt_below(r, k * 65536, 65537);
    assert(k * 65536 < 65537 * 65537) by (nonlinear_arith)
        requires
            0 <= k <= 65536,
    ;
}

/// Dotting against a negated vector negates the dot product exactly.
pub proof fn lemma_dot3_neg(a: Vec3, b: Vec3)
    requires
        bounded3(b, 0x1000_0000_0000_0000),
    ensures
        dot3(a, neg3v(b)) == -dot3(a, b),
{
    crate::fixed::lemma_mul_fx_neg(a.x as int, b.x as int);
    crate::fixed::lemma_mul_fx_neg(a.y as int, b.y as int);
    crate::fixed::lemma_mul_fx_neg(a.z as int, b.z as int);
}

/// A fixed-point product grows with its first factor when the second is
/// nonnegative.
pub proof fn lemma_mul_fx_mono(a: int, m: int, b: int)
    requires
        0 <= m <= a,
        0 <= b,
    ensures
        mul_fx(m, b) <= mul_fx(a, b),
{
    assert(0 <= m * b <= a * b) by (nonlinear_arith)
        requires
            0 <= m <= a,
            0 <= b,
    ;
    lemma_div_trunc_mag(m * b, 65536);
    lemma_div_trunc_mag(a * b, 65536);
    vstd::arithmetic::div_mod::lemma_div_is_ordered(m * b, a * b, 65536);
}

/// The algebra of reflection, for integer vectors about a normal of exact
/// squared length `s * s`: with `d = v . n`, the scaled reflection
/// `rfl = s*s*v - 2*d*n` dots against the normal to the opposite of the
/// scaled incoming dot, and its squared length is the scaled squared length
/// of the incoming vector.  Fixed-point evaluation adds only truncation to
/// these identities.
#[verifier::rlimit(80)]
pub proof fn lemma_reflect_law(
    vx: int,
    vy: int,
    vz: int,
    nx: int,
    ny: int,
    nz: int,
    s: int,
)
    requires
        nx * nx + ny * ny + nz * nz == s * s,
    ensures
        ({
            let d = vx * nx + vy * ny + vz * nz;
            let rx = s * s * vx - 2 * d * nx;
            let ry = s * s * vy - 2 * d * ny;
            let rz = s * s * vz - 2 * d * nz;
            rx * nx + ry * ny + rz * nz == -(s * s) * d
        }),
        ({
            let d = vx * nx + vy * ny + vz * nz;
            let rx = s * s * vx - 2 * d * nx;
            let ry = s * s * vy - 2 * d * ny;
            let rz = s * s * vz - 2 * d * nz;
            rx * rx + ry * ry + rz * rz == s * s * s * s * (vx * vx + vy * vy + vz * vz)
        }),
{
    let d = vx * nx + vy * ny + vz * nz;
    let rx = s * s * vx - 2 * d * nx;
    let ry = s * s * vy - 2 * d * ny;
    let rz = s * s * vz - 2 * d * nz;
    assert(rx * nx == s * s * vx * nx - 2 * d * nx * nx) by (nonlinear_arith)
        requires
            rx == s * s * vx - 2 * d * nx,
    ;
    assert(ry * ny == s * s * vy * ny - 2 * d * ny * ny) by (nonlinear_arith)
        requires
            ry == s * s * vy - 2 * d * ny,
    ;
    assert(rz * nz == s * s * vz * nz - 2 * d * nz * nz) by (nonlinear_arith)
        requires
            rz == s * s * vz - 2 * d * nz,
    ;
    assert(s * s * vx * nx + s * s * vy * ny + s * s * vz * nz == s * s * d) by (nonlinear_arith)
        requires
            d == vx * nx + vy * ny + vz * nz,
    ;
    assert(2 * d * nx * nx + 2 * d * ny * ny + 2 * d * nz * nz == 2 * d * (s * s))
        by (nonlinear_arith)
        requires
            nx * nx + ny * ny + nz * nz == s * s,
    ;
    assert(s * s * d - 2 * d * (s * s) == -(s * s) * d) by (nonlinear_arith);
    lemma_reflect_comp_square(vx, nx, d, s);
    lemma_reflect_comp_square(vy, ny, d, s);
    lemma_reflect_comp_square(vz, nz, d, s);
    assert(s * s * s * s * (vx * vx) + s * s * s * s * (vy * vy) + s * s * s * s * (vz * vz) == s
        * s * s * s * (vx * vx + vy * vy + vz * vz)) by (nonlinear_arith);
    assert(4 * (s * s) * (d * (vx * nx)) + 4 * (s * s) * (d * (vy * ny)) + 4 * (s * s) * (d * (vz
        * nz)) == 4 * (s * s) * (d * d)) by (nonlinear_arith)
        requires
            d == vx * nx + vy * ny + vz * nz,
    ;
    assert(4 * (d * d) * (nx * nx) + 4 * (d * d) * (ny * ny) + 4 * (d * d) * (nz * nz) == 4 * (s
        * s) * (d * d)) by (nonlinear_arith)
        requires
            nx * nx + ny * ny + nz * nz == s * s,
    ;
}

/// One squared component of the scaled reflection, expanded.
proof fn lemma_reflect_comp_square(v: int, n: int, d: int, s: int)
    ensures
        (s * s * v - 2 * d * n) * (s * s * v - 2 * d * n) == s * s * s * s * (v * v) - 4 * (s
            * s) * (d * (v * n)) + 4 * (d * d) * (n * n),
{
    let a = s * s * v;
    let b = 2 * d * n;
    assert((a - b) * (a - b) == a * a - 2 * (a * b) + b * b) by (nonlinear_arith);
    assert(a * a == s * s * s * s * (v * v)) by (nonlinear_arith)
        requires
            a == s * s * v,
    ;
    assert(2 * (a * b) == 4 * (s * s) * (d * (v * n))) by (nonlinear_arith)
        requires
            a == s * s * v,
            b == 2 * d * n,
    ;
    assert(b * b == 4 * (d * d) * (n * n)) by (nonlinear_arith)
        requires
            b == 2 * d * n,
    ;
}

/// A square dominates its fixed-point square scaled back up: truncation
/// only loses the remainder.
proof fn lemma_square_dominates(c: int)
    ensures
        c * c >= 65536 * mul_fx(c, c),
{
    lemma_square_fx_nonneg(c);
    lemma_div_trunc_mag(c * c, 65536);
    lemma_fundamental_div_mod(c * c, 65536);
}

/// A component whose square carries at least a third of the scaled squared
/// length keeps at least half a unit after normalization.
proof fn lemma_unit_comp_lower(c: int, d: int, l: int)
    requires
        d >= 1,
        is_isqrt(l, d * 65536),
        l >= 1,
        3 * (c * c) >= d * 65536,
    ensures
        abs_int(divi_fx(c, l)) >= 32768,
{
    assert(2 * abs_int(c) >= l) by (nonlinear_arith)
        requires
            l >= 0,
            l * l <= 3 * (c * c),
    ;
    lemma_div_trunc_mag(c * 65536, l);
    crate::fixed::lemma_abs_mul(c, 65536);
    assert(abs_int(c) * 65536 >= l * 32768) by (nonlinear_arith)
        requires
            2 * abs_int(c) >= l,
    ;
    vstd::arithmetic::div_mod::lemma_div_is_ordered(l * 32768, abs_int(c) * 65536, l);
    vstd::arithmetic::div_mod::lemma_div_multiples_vanish(32768, l);
}

/// A normalized vector is never near zero: its largest component keeps at
/// least half a unit.
pub proof fn lemma_unit3v_not_near_zero(a: Vec3)
    requires
        bounded3(a, 0x1000_0000_0000_0000),
        dot3(a, a) >= 1,
    ensures
        !near_zero3(unit3v(a)),
{
    let d = dot3(a, a);
    crate::fixed::lemma_isqrt_exists(d * 65536);
    let l = isqrt_int(d * 65536);
    assert(l == length3(a));
    lemma_len2_nonneg(a);
    lemma_square_fx_nonneg(a.x as int);
    lemma_square_fx_nonneg(a.y as int);
    lemma_square_fx_nonneg(a.z as int);
    lemma_unit_comp_bound(a.x as int, d, l);
    lemma_unit_comp_bound(a.y as int, d, l);
    lemma_unit_comp_bound(a.z as int, d, l);
    lemma_square_dominates(a.x as int);
    lemma_square_dominates(a.y as int);
    lemma_square_dominates(a.z as int);
    let sx = (a.x as int) * (a.x as int);
    let sy = (a.y as int) * (a.y as int);
    let sz = (a.z as int) * (a.z as int);
    assert(sx + sy + sz >= 65536 * d);
    if sx >= sy && sx >= sz {
        assert(3 * sx >= d * 65536);
        lemma_unit_comp_lower(a.x as int, d, l);
    } else if sy >= sx && sy >= sz {
        assert(3 * sy >= d * 65536);
        lemma_unit_comp_lower(a.y as int, d, l);
    } else {
        assert(3 * sz >= d * 65536);
        lemma_unit_comp_lower(a.z as int, d, l);
    }
}

/// The products that the half-unit fallback vector produces.
pub proof fn lemma_fx_consts()
    ensures
        mul_fx(32768, 32768) == 16384,
        mul_fx(0, 0) == 0,
        mul_fx(65536, 65536) == 65536,
{
    assert(abs_int(1073741824) == 1073741824);
    assert(abs_int(4294967296) == 4294967296);
    assert(abs_int(0) == 0);
    assert(abs_int(65536) == 65536);
    assert(1073741824int / 65536int == 16384);
    assert(4294967296int / 65536int == 65536);
    assert(0int / 65536int == 0);
    assert(32768int * 32768int == 1073741824);
    assert(65536int * 65536int == 4294967296);
    assert(div_trunc(1073741824, 65536) == 16384);
    assert(div_trunc(4294967296, 65536) == 65536);
    assert(div_trunc(0int, 65536) == 0);
}

impl Vec3 {
    /// Builds the vector with the given fixed-point components.
    pub fn new(x: i64, y: i64, z: i64) -> (r: Vec3)
        ensures
            r == (Vec3 { x, y, z }),
    {
        Vec3 { x, y, z }
    }

    /// The first component.
    pub fn x(&self) -> (r: i64)
        ensures
            r == self.x,
    {
        self.x
    }

    /// The second component.
    pub fn y(&self) -> (r: i64)
        ensures
            r == self.y,
    {
        self.y
    }

    /// The third component.
    pub fn z(&self) -> (r: i64)
        ensures
            r == self.z,
    {
        self.z
    }

    /// Component-wise sum.
    pub fn add(&self, o: &Vec3) -> (r: Vec3)
        requires
            abs_int(self.x + o.x) <= i64::MAX,
            abs_int(self.y + o.y) <= i64::MAX,
            abs_int(self.z + o.z) <= i64::MAX,
        ensures
            r.x == self.x + o.x,
            r.y == self.y + o.y,
            r.z == self.z + o.z,
            r == add3v(*self, *o),
    {
        Vec3 { x: self.x + o.x, y: self.y + o.y, z: self.z + o.z }
    }

    /// Component-wise difference.
    pub fn sub(&self, o: &Vec3) -> (r: Vec3)
        requires
            abs_int(self.x - o.x) <= i64::MAX,
            abs_int(self.y - o.y) <= i64::MAX,
            abs_int(self.z - o.z) <= i64::MAX,
        ensures
            r.x == self.x - o.x,
            r.y == self.y - o.y,
            r.z == self.z - o.z,
            r == sub3v(*self, *o),
    {
        Vec3 { x: self.x - o.x, y: self.y - o.y, z: self.z - o.z }
    }

    /// The opposite vector.
    pub fn neg(&self) -> (r: Vec3)
        requires
            abs_int(self.x as int) <= i64::MAX,
            abs_int(self.y as int) <= i64::MAX,
            abs_int(self.z as int) <= i64::MAX,
        ensures
            r.x == -self.x,
            r.y == -self.y,
            r.z == -self.z,
            r == neg3v(*self),
    {
        Vec3 { x: -self.x, y: -self.y, z: -self.z }
    }

    /// The vector scaled by a fixed-point factor.
    pub fn scale(&self, s: i64) -> (r: Vec3)
        requires
            abs_int(mul_fx(self.x as int, s as int)) <= i64::MAX,
            abs_int(mul_fx(self.y as int, s as int)) <= i64::MAX,
            abs_int(mul_fx(self.z as int, s as int)) <= i64::MAX,
        ensures
            r.x == mul_fx(self.x as int, s as int),
            r.y == mul_fx(self.y as int, s as int),
            r.z == mul_fx(self.z as int, s as int),
            r == scale3v(*self, s as int),
    {
        Vec3 { x: fmul(self.x, s), y: fmul(self.y, s), z: fmul(self.z, s) }
    }

    /// The vector divided by a fixed-point factor.
    pub fn div_scalar(&self, s: i64) -> (r: Vec3)
        requires
            s != 0,
            abs_int(divi_fx(self.x as int, s as int)) <= i64::MAX,
            abs_int(divi_fx(self.y as int, s as int)) <= i64::MAX,
            abs_int(divi_fx(self.z as int, s as int)) <= i64::MAX,
        ensures
            r.x == divi_fx(self.x as int, s as int),
            r.y == divi_fx(self.y as int, s as int),
            r.z == divi_fx(self.z as int, s as int),
            r == div3v(*self, s as int),
    {
        Vec3 { x: fdiv(self.x, s), y: fdiv(self.y, s), z: fdiv(self.z, s) }
    }

    /// The fixed-point dot product.
    pub fn dot(&self, o: &Vec3) -> (r: i64)
        requires
            abs_int(mul_fx(self.x as int, o.x as int)) + abs_int(mul_fx(self.y as int, o.y as int))
                + abs_int(mul_fx(self.z as int, o.z as int)) <= i64::MAX,
        ensures
            r == dot3(*self, *o),
    {
        let tx = fmul(self.x, o.x);
        let ty = fmul(self.y, o.y);
        let tz = fmul(self.z, o.z);
        tx + ty + tz
    }

    /// The fixed-point cross product.
    pub fn cross(&self, o: &Vec3) -> (r: Vec3)
        requires
            abs_int(mul_fx(self.y as int, o.z as int)) + abs_int(mul_fx(self.z as int, o.y as int))
                <= i64::MAX,
            abs_int(mul_fx(self.z as int, o.x as int)) + abs_int(mul_fx(self.x as int, o.z as int))
                <= i64::MAX,
            abs_int(mul_fx(self.x as int, o.y as int)) + abs_int(mul_fx(self.y as int, o.x as int))
                <= i64::MAX,
        ensures
            r.x == cross3(*self, *o).0,
            r.y == cross3(*self, *o).1,
            r.z == cross3(*self, *o).2,
            r == cross3v(*self, *o),
    {
        Vec3 {
            x: fmul(self.y, o.z) - fmul(self.z, o.y),
            y: fmul(self.z, o.x) - fmul(self.x, o.z),
            z: fmul(self.x, o.y) - fmul(self.y, o.x),
        }
    }

    /// The squared length, in fixed-point units.
    pub fn length_squared(&self) -> (r: i64)
        requires
            abs_int(mul_fx(self.x as int, self.x as int)) + abs_int(
                mul_fx(self.y as int, self.y as int),
            ) + abs_int(mul_fx(self.z as int, self.z as int)) <= i64::MAX,
        ensures
            r == dot3(*self, *self),
            r >= 0,
    {
        proof {
            lemma_len2_nonneg(*self);
        }
        self.dot(self)
    }

    /// The length, in fixed-point units.
    pub fn length(&self) -> (r: i64)
        requires
            abs_int(mul_fx(self.x as int, self.x as int)) + abs_int(
                mul_fx(self.y as int, self.y as int),
            ) + abs_int(mul_fx(self.z as int, self.z as int)) <= i64::MAX,
        ensures
            r == length3(*self),
            is_isqrt(r as int, dot3(*self, *self) * SCALE),
    {
        let l2 = self.length_squared();
        fsqrt(l2)
    }

    /// Whether every component is below the near-zero epsilon.
    pub fn near_zero(&self) -> (r: bool)
        ensures
            r == near_zero3(*self),
    {
        self.x < NEAR_ZERO_EPS && self.x > -NEAR_ZERO_EPS && self.y < NEAR_ZERO_EPS && self.y
            > -NEAR_ZERO_EPS && self.z < NEAR_ZERO_EPS && self.z > -NEAR_ZERO_EPS
    }

    /// The vector scaled to (approximately) unit length.  The caller keeps
    /// zero-length vectors away, as the length would divide by zero.
    pub fn unit_vector(&self) -> (r: Vec3)
        requires
            bounded3(*self, 0x1000_0000_0000_0000),
            dot3(*self, *self) >= 1,
        ensures
            r == unit3v(*self),
            bounded3(r, UNIT_MAX as int),
            length3(*self) >= 256,
    {
        proof {
            lemma_mul_fx_bound(self.x as int, self.x as int, 0x1000_0000_0000_0000, 0x1000_0000_0000_0000);
            lemma_mul_fx_bound(self.y as int, self.y as int, 0x1000_0000_0000_0000, 0x1000_0000_0000_0000);
            lemma_mul_fx_bound(self.z as int, self.z as int, 0x1000_0000_0000_0000, 0x1000_0000_0000_0000);
            lemma_len2_nonneg(*self);
            lemma_mul_mag_bound(self.x as int, self.x as int, 0x1000_0000_0000_0000, 0x1000_0000_0000_0000);
            lemma_mul_mag_bound(self.y as int, self.y as int, 0x1000_0000_0000_0000, 0x1000_0000_0000_0000);
            lemma_mul_mag_bound(self.z as int, self.z as int, 0x1000_0000_0000_0000, 0x1000_0000_0000_0000);
        }
        let tx: i128 = ((self.x as i128) * (self.x as i128)) / 65536;
        let ty: i128 = ((self.y as i128) * (self.y as i128)) / 65536;
        let tz: i128 = ((self.z as i128) * (self.z as i128)) / 65536;
        proof {
            lemma_div_trunc_mag((self.x as int) * (self.x as int), 65536);
            lemma_div_trunc_mag((self.y as int) * (self.y as int), 65536);
            lemma_div_trunc_mag((self.z as int) * (self.z as int), 65536);
            lemma_square_fx_nonneg(self.x as int);
            lemma_square_fx_nonneg(self.y as int);
            lemma_square_fx_nonneg(self.z as int);
        }
        proof {
            assert(tx == div_trunc((self.x as int) * (self.x as int), 65536));
            assert(ty == div_trunc((self.y as int) * (self.y as int), 65536));
            assert(tz == div_trunc((self.z as int) * (self.z as int), 65536));
        }
        let l2: i128 = tx + ty + tz;
        let n: u128 = (l2 as u128) * 65536;
        let d: Ghost<int> = Ghost(dot3(*self, *self));
        proof {
            assert(l2 == d@);
            assert(n as int == d@ * 65536);
        }
        let l: u128 = isqrt_u128(n);
        proof {
            lemma_isqrt_below(l as int, n as int, 0x4000_0000_0000_0000);
            lemma_unit_comp_bound(self.x as int, d@, l as int);
            lemma_unit_comp_bound(self.y as int, d@, l as int);
            lemma_unit_comp_bound(self.z as int, d@, l as int);
            assert(l as int == length3(*self));
        }
        let qx: i128 = ((self.x as i128) * 65536) / (l as i128);
        let qy: i128 = ((self.y as i128) * 65536) / (l as i128);
        let qz: i128 = ((self.z as i128) * 65536) / (l as i128);
        proof {
            lemma_div_trunc_mag((self.x as int) * 65536, l as int);
            lemma_div_trunc_mag((self.y as int) * 65536, l as int);
            lemma_div_trunc_mag((self.z as int) * 65536, l as int);
            assert(qx == div_trunc((self.x as int) * 65536, l as int));
            assert(qy == div_trunc((self.y as int) * 65536, l as int));
            assert(qz == div_trunc((self.z as int) * 65536, l as int));
            assert(qx == unit_comp(self.x as int, *self));
            assert(qy == unit_comp(self.y as int, *self));
            assert(qz == unit_comp(self.z as int, *self));
        }
        Vec3 { x: qx as i64, y: qy as i64, z: qz as i64 }
    }

    /// Reflection about a normal: `v - 2*dot(v, n)*n`.
    pub fn reflect(&self, n: &Vec3) -> (r: Vec3)
        requires
            bounded3(*self, UNIT_MAX as int),
            bounded3(*n, UNIT_MAX as int),
        ensures
            r == reflect3v(*self, *n),
            bounded3(r, 50 * SCALE),
    {
        proof {
            lemma_fx_cap_uu(self.x as int, n.x as int);
            lemma_fx_cap_uu(self.y as int, n.y as int);
            lemma_fx_cap_uu(self.z as int, n.z as int);
        }
        let d: i64 = self.dot(n);
        let two_d: i64 = 2 * d;
        proof {
            lemma_fx_cap_ud(n.x as int, two_d as int);
            lemma_fx_cap_ud(n.y as int, two_d as int);
            lemma_fx_cap_ud(n.z as int, two_d as int);
        }
        Vec3 {
            x: self.x - fmul(n.x, two_d),
            y: self.y - fmul(n.y, two_d),
            z: self.z - fmul(n.z, two_d),
        }
    }

    /// Refraction by Snell's law in vector form, with the cosine clamped to
    /// the unit interval so truncation slop cannot push the radicand
    /// negative.
    pub fn refract(&self, n: &Vec3, etai_over_etat: i64) -> (r: Vec3)
        requires
            bounded3(*self, UNIT_MAX as int),
            bounded3(*n, UNIT_MAX as int),
            0 <= etai_over_etat <= 4 * SCALE,
        ensures
            r == refract3v(*self, *n, etai_over_etat as int),
            bounded3(r, 80 * SCALE),
    {
        proof {
            lemma_fx_cap_uu(self.x as int, n.x as int);
            lemma_fx_cap_uu(self.y as int, n.y as int);
            lemma_fx_cap_uu(self.z as int, n.z as int);
        }
        let d: i64 = self.dot(n);
        let neg_d: i64 = -d;
        let cos: i64 = if neg_d > SCALE {
            SCALE
        } else if neg_d < -SCALE {
            -SCALE
        } else {
            neg_d
        };
        proof {
            lemma_fx_cap_uc(n.x as int, cos as int);
            lemma_fx_cap_uc(n.y as int, cos as int);
            lemma_fx_cap_uc(n.z as int, cos as int);
        }
        let sx: i64 = self.x + fmul(n.x, cos);
        let sy: i64 = self.y + fmul(n.y, cos);
        let sz: i64 = self.z + fmul(n.z, cos);
        proof {
            lemma_fx_cap_rr(sx as int, etai_over_etat as int);
            lemma_fx_cap_rr(sy as int, etai_over_etat as int);
            lemma_fx_cap_rr(sz as int, etai_over_etat as int);
        }
        let px: i64 = fmul(sx, etai_over_etat);
        let py: i64 = fmul(sy, etai_over_etat);
        let pz: i64 = fmul(sz, etai_over_etat);
        proof {
            lemma_fx_cap_pp(px as int, px as int);
            lemma_fx_cap_pp(py as int, py as int);
            lemma_fx_cap_pp(pz as int, pz as int);
            lemma_square_fx_nonneg(px as int);
            lemma_square_fx_nonneg(py as int);
            lemma_square_fx_nonneg(pz as int);
        }
        let l2: i64 = fmul(px, px) + fmul(py, py) + fmul(pz, pz);
        let k: i64 = if SCALE - l2 >= 0 {
            SCALE - l2
        } else {
            l2 - SCALE
        };
        let sq: i64 = fsqrt(k);
        proof {
            lemma_sqrt_cap(sq as int, k as int);
            lemma_fx_cap_uq(n.x as int, sq as int);
            lemma_fx_cap_uq(n.y as int, sq as int);
            lemma_fx_cap_uq(n.z as int, sq as int);
        }
        Vec3 {
            x: px - fmul(n.x, sq),
            y: py - fmul(n.y, sq),
            z: pz - fmul(n.z, sq),
        }
    }

    /// A random vector inside the unit sphere, by rejection sampling.  After
    /// a bounded number of draws a fixed interior vector stands in, so the
    /// function always terminates.
    pub fn random_in_unit_sphere() -> (r: Vec3)
        ensures
            bounded3(r, SCALE as int),
            dot3(r, r) < SCALE,
    {
        let mut tries: u32 = 0;
        while tries < 64
            invariant
                tries <= 64,
            decreases 64 - tries,
        {
            let v = Vec3 {
                x: random_double_range(-SCALE, SCALE),
                y: random_double_range(-SCALE, SCALE),
                z: random_double_range(-SCALE, SCALE),
            };
            proof {
                lemma_fx_cap_ss(v.x as int, v.x as int);
                lemma_fx_cap_ss(v.y as int, v.y as int);
                lemma_fx_cap_ss(v.z as int, v.z as int);
            }
            let l2 = v.length_squared();
            if l2 < SCALE {
                return v;
            }
            tries = tries + 1;
        }
        let fallback = Vec3 { x: SCALE / 2, y: 0, z: 0 };
        proof {
            lemma_fx_consts();
            assert(fallback.x == 32768);
            assert(dot3(fallback, fallback) == 16384);
        }
        fallback
    }

    /// A random vector of (approximately) unit length: a rejection-sampled
    /// shell point, normalized.
    pub fn random_unit_vector() -> (r: Vec3)
        ensures
            bounded3(r, UNIT_MAX as int),
    {
        let mut tries: u32 = 0;
        while tries < 64
            invariant
                tries <= 64,
            decreases 64 - tries,
        {
            let v = Vec3 {
                x: random_double_range(-SCALE, SCALE),
                y: random_double_range(-SCALE, SCALE),
                z: random_double_range(-SCALE, SCALE),
            };
            proof {
                lemma_fx_cap_ss(v.x as int, v.x as int);
                lemma_fx_cap_ss(v.y as int, v.y as int);
                lemma_fx_cap_ss(v.z as int, v.z as int);
            }
            let l2 = v.length_squared();
            if l2 >= 1 && l2 < SCALE {
                proof {
                    lemma_unit3v_not_near_zero(v);
                }
                return v.unit_vector();
            }
            tries = tries + 1;
        }
        let fallback = Vec3 { x: SCALE, y: 0, z: 0 };
        fallback
    }

    /// A random vector in the unit disk of the x-y plane, by rejection
    /// sampling with the same bounded fallback as the sphere sampler.
    pub fn random_in_unit_circle() -> (r: Vec3)
        ensures
            bounded3(r, SCALE as int),
            dot3(r, r) < SCALE,
            r.z == 0,
    {
        let mut tries: u32 = 0;
        while tries < 64
            invariant
                tries <= 64,
            decreases 64 - tries,
        {
            let v = Vec3 {
                x: random_double_range(-SCALE, SCALE),
                y: random_double_range(-SCALE, SCALE),
                z: 0,
            };
            proof {
                lemma_fx_cap_ss(v.x as int, v.x as int);
                lemma_fx_cap_ss(v.y as int, v.y as int);
                lemma_fx_cap_ss(v.z as int, v.z as int);
            }
            let l2 = v.length_squared();
            if l2 < SCALE {
                return v;
            }
            tries = tries + 1;
        }
        let fallback = Vec3 { x: SCALE / 2, y: 0, z: 0 };
        proof {
            lemma_fx_consts();
            assert(fallback.x == 32768);
            assert(dot3(fallback, fallback) == 16384);
        }
        fallback
    }
}

/// Clamping to a closed interval, stated over mathematical integers.
pub open spec fn clamp_int(v: int, lo: int, hi: int) -> int {
    if v > hi {
        hi
    } else if v < lo {
        lo
    } else {
        v
    }
}

/// The reflection of `v` about `n`, as a component triple:
/// `v - 2*dot(v, n)*n` in fixed-point arithmetic.
pub open spec fn reflect3(v: Vec3, n: Vec3) -> (int, int, int) {
    let d2 = 2 * dot3(v, n);
    (
        v.x - mul_fx(n.x as int, d2),
        v.y - mul_fx(n.y as int, d2),
        v.z - mul_fx(n.z as int, d2),
    )
}

/// The refraction of `uv` through a surface with normal `n` at refraction
/// ratio `ratio`, as a component triple.  The cosine is clamped to the unit
/// interval; the perpendicular part is `ratio*(uv + cos*n)` and the parallel
/// part `-sqrt(|1 - |perp|^2|)*n`.
pub open spec fn refract3(uv: Vec3, n: Vec3, ratio: int) -> (int, int, int) {
    let cos = clamp_int(-dot3(uv, n), -SCALE as int, SCALE as int);
    let px = mul_fx(uv.x + mul_fx(n.x as int, cos), ratio);
    let py = mul_fx(uv.y + mul_fx(n.y as int, cos), ratio);
    let pz = mul_fx(uv.z + mul_fx(n.z as int, cos), ratio);
    let l2 = mul_fx(px, px) + mul_fx(py, py) + mul_fx(pz, pz);
    let sq = sqrt_fx(abs_int(SCALE - l2));
    (px - mul_fx(n.x as int, sq), py - mul_fx(n.y as int, sq), pz - mul_fx(n.z as int, sq))
}

/// Why a normalized component can never pass [`UNIT_MAX`]: a component's
/// square is at most the squared length, so dividing by the length leaves at
/// most one unit plus truncation slop.
pub proof fn lemma_unit_comp_bound(c: int, d: int, l: int)
    requires
        d >= 1,
        0 <= mul_fx(c, c) <= d,
        is_isqrt(l, d * 65536),
    ensures
        l >= 256,
        abs_int(divi_fx(c, l)) <= UNIT_MAX,
{
    let s = SCALE as int;
    assert(d * s >= s) by (nonlinear_arith)
        requires
            d >= 1,
            s == 65536,
    ;
    assert(l >= 256) by (nonlinear_arith)
        requires
            (l + 1) * (l + 1) > 65536,
            l >= 0,
    ;
    // c*c < s*(d + 1)
    lemma_div_trunc_mag(c * c, s);
    assert(c * c >= 0) by (nonlinear_arith);
    assert(abs_int(c * c) == c * c);
    lemma_fundamental_div_mod(c * c, s);
    assert(mul_fx(c, c) == (c * c) / s);
    assert(c * c < s * (d + 1)) by (nonlinear_arith)
        requires
            c * c == s * ((c * c) / s) + (c * c) % s,
            0 <= (c * c) % s < s,
            (c * c) / s <= d,
            s == 65536,
    ;
    // |c| <= l + 255
    assert(abs_int(c) <= l + 255) by (nonlinear_arith)
        requires
            c * c < s * (d + 1),
            d * s < (l + 1) * (l + 1),
            s == 65536,
            l >= 256,
    ;
    // |c*SCALE/l| <= 2*SCALE
    lemma_div_trunc_mag(c * s, l);
    crate::fixed::lemma_abs_mul(c, s);
    assert(abs_int(s) == s);
    assert(abs_int(c) * s <= (l + 255) * s) by (nonlinear_arith)
        requires
            abs_int(c) <= l + 255,
            s == 65536,
    ;
    vstd::arithmetic::div_mod::lemma_div_is_ordered(abs_int(c) * s, (l + 255) * s, l);
    assert(((l + 255) * s) / l <= 2 * s) by (nonlinear_arith)
        requires
            l >= 256,
            s == 65536,
    ;
}

} // verus!

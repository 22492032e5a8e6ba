//! An immutable 4x4 matrix wrapper with derived direction vectors.
//!
//! Matrix entries are IEEE-754 single-precision values carried as their raw
//! bit patterns, column-major, so that every structural fact about transforms
//! (identity defaults, composition order) is independent of float arithmetic.
//! The arithmetic itself is delegated to `glam`, behind trusted wrappers whose
//! results are named by uninterpreted functions.

use vstd::prelude::*;

verus! {

/// Bit pattern of the single-precision value one.
pub const ONE_BITS: u32 = 0x3F80_0000;

/// The world-space forward direction, as component bit patterns.
pub const GLOBAL_FORWARD: [u32; 3] = [0, 0, ONE_BITS];

/// The world-space up direction, as component bit patterns.
pub const GLOBAL_UP: [u32; 3] = [0, ONE_BITS, 0];

/// The world-space left direction, as component bit patterns.
pub const GLOBAL_LEFT: [u32; 3] = [ONE_BITS, 0, 0];

/// The product of two column-major matrices, as computed by `glam::Mat4`'s
/// multiplication on the bit level.
pub uninterp spec fn mat_mul_of(a: Seq<u32>, b: Seq<u32>) -> Seq<u32>;

/// The translation matrix `glam::Mat4::from_translation` builds from a vector.
pub uninterp spec fn translation_matrix_of(t: Seq<u32>) -> Seq<u32>;

/// The rotation matrix `glam::Mat4::from_quat` builds from a quaternion.
pub uninterp spec fn rotation_matrix_of(q: Seq<u32>) -> Seq<u32>;

/// The scale matrix `glam::Mat4::from_scale` builds from a vector.
pub uninterp spec fn scale_matrix_of(s: Seq<u32>) -> Seq<u32>;

/// The (scale, rotation, translation) decomposition
/// `glam::Mat4::to_scale_rotation_translation` computes.
pub uninterp spec fn srt_of(m: Seq<u32>) -> (Seq<u32>, Seq<u32>, Seq<u32>);

/// The product of a matrix and a column vector, as computed by `glam`.
pub uninterp spec fn mat_vec_mul_of(m: Seq<u32>, v: Seq<u32>) -> Seq<u32>;

/// The unit vector `glam::Vec3::normalize` computes.
pub uninterp spec fn normalized_of(v: Seq<u32>) -> Seq<u32>;

/// The bit patterns of the identity matrix, column-major.
pub open spec fn identity_bits() -> Seq<u32> {
    seq![
        ONE_BITS, 0u32, 0u32, 0u32,
        0u32, ONE_BITS, 0u32, 0u32,
        0u32, 0u32, ONE_BITS, 0u32,
        0u32, 0u32, 0u32, ONE_BITS,
    ]
}

/// The matrix a glTF node's decomposed translation, rotation and scale
/// produce, composed in translation x rotation x scale order.
pub open spec fn trs_matrix(t: Seq<u32>, r: Seq<u32>, s: Seq<u32>) -> Seq<u32> {
    mat_mul_of(mat_mul_of(translation_matrix_of(t), rotation_matrix_of(r)), scale_matrix_of(s))
}

/// Relies on `glam::Mat4`'s `Mul` impl: the product matrix is a function of
/// the two operand matrices alone. Operands and result travel as column-major
/// bit patterns through `bytemuck` casts (`glam::Mat4` is `Pod`).
#[verifier::external_body]
fn mat_mul_bits(a: &[u32; 16], b: &[u32; 16]) -> (r: [u32; 16])
    ensures
        r@ == mat_mul_of(a@, b@),
{
    let am: glam::Mat4 = bytemuck::cast(*a);
    let bm: glam::Mat4 = bytemuck::cast(*b);
    bytemuck::cast(am * bm)
}

/// Relies on `glam::Mat4::from_translation`: the result is a function of the
/// translation vector alone.
#[verifier::external_body]
fn translation_matrix_bits(t: &[u32; 3]) -> (r: [u32; 16])
    ensures
        r@ == translation_matrix_of(t@),
{
    let v: glam::Vec3 = bytemuck::cast(*t);
    bytemuck::cast(glam::Mat4::from_translation(v))
}

/// Relies on `glam::Mat4::from_quat`: the result is a function of the
/// quaternion alone.
#[verifier::external_body]
fn rotation_matrix_bits(q: &[u32; 4]) -> (r: [u32; 16])
    ensures
        r@ == rotation_matrix_of(q@),
{
    let v: glam::Quat = bytemuck::cast(*q);
    bytemuck::cast(glam::Mat4::from_quat(v))
}

/// Relies on `glam::Mat4::from_scale`: the result is a function of the scale
/// vector alone.
#[verifier::external_body]
fn scale_matrix_bits(s: &[u32; 3]) -> (r: [u32; 16])
    ensures
        r@ == scale_matrix_of(s@),
{
    let v: glam::Vec3 = bytemuck::cast(*s);
    bytemuck::cast(glam::Mat4::from_scale(v))
}

/// Relies on `glam::Mat4::to_scale_rotation_translation`: the decomposition
/// is a function of the matrix alone.
#[verifier::external_body]
fn decompose_bits(m: &[u32; 16]) -> (r: ([u32; 3], [u32; 4], [u32; 3]))
    ensures
        (r.0@, r.1@, r.2@) == srt_of(m@),
{
    let mm: glam::Mat4 = bytemuck::cast(*m);
    let (s, q, t) = mm.to_scale_rotation_translation();
    (bytemuck::cast(s), bytemuck::cast(q), bytemuck::cast(t))
}

/// Relies on `glam::Mat4`'s `Mul<Vec4>` impl: the product is a function of
/// the matrix and the vector alone.
#[verifier::external_body]
fn mat_vec_mul_bits(m: &[u32; 16], v: &[u32; 4]) -> (r: [u32; 4])
    ensures
        r@ == mat_vec_mul_of(m@, v@),
{
    let mm: glam::Mat4 = bytemuck::cast(*m);
    let vv: glam::Vec4 = bytemuck::cast(*v);
    bytemuck::cast(mm * vv)
}

/// Relies on `glam::Vec3::normalize`: the result is a function of the vector
/// alone.
#[verifier::external_body]
fn normalize_bits(v: &[u32; 3]) -> (r: [u32; 3])
    ensures
        r@ == normalized_of(v@),
{
    let vv: glam::Vec3 = bytemuck::cast(*v);
    bytemuck::cast(vv.normalize())
}

/// An immutable 4x4 matrix; never mutated in place, only recomputed and
/// replaced.
#[derive(Clone, Copy, Debug)]
pub struct Transform {
    m: [u32; 16],
}

impl View for Transform {
    type V = Seq<u32>;

    closed spec fn view(&self) -> Seq<u32> {
        self.m@
    }
}

impl Transform {
    /// The identity transform.
    pub fn identity() -> (r: Self)
        ensures
            r@ == identity_bits(),
    {
        let r = Transform {
            m: [
                ONE_BITS, 0, 0, 0,
                0, ONE_BITS, 0, 0,
                0, 0, ONE_BITS, 0,
                0, 0, 0, ONE_BITS,
            ],
        };
        proof {
            assert(r@ =~= identity_bits());
        }
        r
    }

    /// Wraps a column-major matrix given as entry bit patterns.
    pub fn from_mat4(m: [u32; 16]) -> (r: Self)
        ensures
            r@ == m@,
    {
        Transform { m }
    }

    /// Builds the local transform of decomposed translation, rotation and
    /// scale components, composed in that order.
    pub fn from_translation_rotation_scale(t: &[u32; 3], r: &[u32; 4], s: &[u32; 3]) -> (out: Self)
        ensures
            out@ == trs_matrix(t@, r@, s@),
    {
        let tm = translation_matrix_bits(t);
        let rm = rotation_matrix_bits(r);
        let sm = scale_matrix_bits(s);
        Transform { m: mat_mul_bits(&mat_mul_bits(&tm, &rm), &sm) }
    }

    /// The matrix entries, column-major, as bit patterns.
    pub fn mat4(&self) -> (r: [u32; 16])
        ensures
            r@ == self@,
    {
        self.m
    }

    /// The matrix product `self * other`.
    pub fn compose(&self, other: &Transform) -> (r: Transform)
        ensures
            r@ == mat_mul_of(self@, other@),
    {
        Transform { m: mat_mul_bits(&self.m, &other.m) }
    }

    /// The scale part of the decomposition.
    pub fn scale(&self) -> (r: [u32; 3])
        ensures
            r@ == srt_of(self@).0,
    {
        let (s, _, _) = decompose_bits(&self.m);
        s
    }

    /// The rotation part of the decomposition, as a quaternion.
    pub fn rotation(&self) -> (r: [u32; 4])
        ensures
            r@ == srt_of(self@).1,
    {
        let (_, q, _) = decompose_bits(&self.m);
        q
    }

    /// The translation part of the decomposition.
    pub fn position(&self) -> (r: [u32; 3])
        ensures
            r@ == srt_of(self@).2,
    {
        let (_, _, t) = decompose_bits(&self.m);
        t
    }

    /// The world forward direction carried through this transform and
    /// normalized.
    pub fn forward(&self) -> (r: [u32; 3])
        ensures
            r@ == normalized_of(
                mat_vec_mul_of(self@, GLOBAL_FORWARD@.push(0u32)).take(3),
            ),
    {
        self.direction(&GLOBAL_FORWARD)
    }

    /// The world left direction carried through this transform and
    /// normalized.
    pub fn left(&self) -> (r: [u32; 3])
        ensures
            r@ == normalized_of(
                mat_vec_mul_of(self@, GLOBAL_LEFT@.push(0u32)).take(3),
            ),
    {
        self.direction(&GLOBAL_LEFT)
    }

    fn direction(&self, d: &[u32; 3]) -> (r: [u32; 3])
        ensures
            r@ == normalized_of(mat_vec_mul_of(self@, d@.push(0u32)).take(3)),
    {
        let v: [u32; 4] = [d[0], d[1], d[2], 0];
        let w = mat_vec_mul_bits(&self.m, &v);
        let xyz: [u32; 3] = [w[0], w[1], w[2]];
        proof {
            assert(v@ =~= d@.push(0u32));
            assert(xyz@ =~= w@.take(3));
        }
        normalize_bits(&xyz)
    }
}

} // verus!

use vstd::prelude::*;

verus! {

/// The IEEE-754 bit pattern of the single-precision value one.
pub const ONE_BITS: u32 = 0x3F80_0000;

/// A 3D point or direction, each coordinate held as the bit pattern of a
/// single-precision float. The library never interprets the bits itself;
/// every arithmetic step goes through the trusted wrappers below, so a
/// coordinate is opaque data to every proof.
#[derive(Clone, Copy, PartialEq, Eq, Structural, Debug)]
pub struct Vec3Bits {
    pub x: u32,
    pub y: u32,
    pub z: u32,
}

/// An affine transform: a 3x3 linear part (columns `x`, `y`, `z`) and a
/// translation column `w`, each entry the bit pattern of a single-precision
/// float, in column-major order.
#[derive(Clone, Copy, PartialEq, Eq, Structural, Debug)]
pub struct Transform {
    pub xx: u32,
    pub xy: u32,
    pub xz: u32,
    pub yx: u32,
    pub yy: u32,
    pub yz: u32,
    pub zx: u32,
    pub zy: u32,
    pub zz: u32,
    pub wx: u32,
    pub wy: u32,
    pub wz: u32,
}

/// The identity transform: ones on the diagonal of the linear part, zero
/// translation.
pub open spec fn spec_identity() -> Transform {
    Transform {
        xx: ONE_BITS,
        xy: 0u32,
        xz: 0u32,
        yx: 0u32,
        yy: ONE_BITS,
        yz: 0u32,
        zx: 0u32,
        zy: 0u32,
        zz: ONE_BITS,
        wx: 0u32,
        wy: 0u32,
        wz: 0u32,
    }
}

impl Transform {
    /// The identity transform.
    pub fn identity() -> (r: Transform)
        ensures
            r == spec_identity(),
    {
        Transform {
            xx: ONE_BITS,
            xy: 0,
            xz: 0,
            yx: 0,
            yy: ONE_BITS,
            yz: 0,
            zx: 0,
            zy: 0,
            zz: ONE_BITS,
            wx: 0,
            wy: 0,
            wz: 0,
        }
    }
}

/// The twelve entries of a transform, column-major, for the wrappers below.
pub fn transform_to_array(t: &Transform) -> (r: [u32; 12])
    ensures
        r@ =~= seq![t.xx, t.xy, t.xz, t.yx, t.yy, t.yz, t.zx, t.zy, t.zz, t.wx, t.wy, t.wz],
{
    [t.xx, t.xy, t.xz, t.yx, t.yy, t.yz, t.zx, t.zy, t.zz, t.wx, t.wy, t.wz]
}

/// The transform with the given twelve column-major entries.
pub fn transform_from_array(o: [u32; 12]) -> (r: Transform)
    ensures
        seq![r.xx, r.xy, r.xz, r.yx, r.yy, r.yz, r.zx, r.zy, r.zz, r.wx, r.wy, r.wz] =~= o@,
{
    Transform {
        xx: o[0],
        xy: o[1],
        xz: o[2],
        yx: o[3],
        yy: o[4],
        yz: o[5],
        zx: o[6],
        zy: o[7],
        zz: o[8],
        wx: o[9],
        wy: o[10],
        wz: o[11],
    }
}

/// The product of two affine transforms, as glam computes it on the
/// transforms' bits.
pub uninterp spec fn composed(a: Transform, b: Transform) -> Transform;

/// The translation by the vector whose coordinate bits are given.
pub uninterp spec fn translation_of(x: u32, y: u32, z: u32) -> Transform;

/// The rotation about the X axis by the angle (in radians) with the given bits.
pub uninterp spec fn rotation_x_of(rad: u32) -> Transform;

/// The rotation about the Y axis by the angle (in radians) with the given bits.
pub uninterp spec fn rotation_y_of(rad: u32) -> Transform;

/// The rotation about the Z axis by the angle (in radians) with the given bits.
pub uninterp spec fn rotation_z_of(rad: u32) -> Transform;

/// The image of the point under the affine transform.
pub uninterp spec fn transformed(t: Transform, p: Vec3Bits) -> Vec3Bits;

/// The point with X and Y scaled by the two factors (Z kept), as the
/// diagonal-matrix product computes it.
pub uninterp spec fn scaled_xy(p: Vec3Bits, sx: u32, sy: u32) -> Vec3Bits;

/// The angle in radians for the angle in degrees with the given bits.
pub uninterp spec fn radians_of(deg: u32) -> u32;

/// Relies on glam's `Affine3 * Affine3` multiplication: the product of the
/// two transforms, a pure function of the operands' bits. `bytemuck::cast`
/// only reinterprets the bits as floats and back.
#[verifier::external_body]
pub fn transform_compose(a: &Transform, b: &Transform) -> (r: Transform)
    ensures
        r == composed(*a, *b),
{
    let ga = bytemuck::cast::<[u32; 12], glam::Affine3>(transform_to_array(a));
    let gb = bytemuck::cast::<[u32; 12], glam::Affine3>(transform_to_array(b));
    transform_from_array(bytemuck::cast(ga * gb))
}

/// Relies on glam's `Affine3::from_translation`, a pure function of the
/// coordinate bits.
#[verifier::external_body]
pub fn transform_translation(x: u32, y: u32, z: u32) -> (r: Transform)
    ensures
        r == translation_of(x, y, z),
{
    let t = glam::Affine3::from_translation(bytemuck::cast::<[u32; 3], glam::Vec3>([x, y, z]));
    transform_from_array(bytemuck::cast(t))
}

/// Relies on glam's `Affine3::from_rotation_x`, a pure function of the
/// angle's bits.
#[verifier::external_body]
pub fn transform_rotation_x(rad: u32) -> (r: Transform)
    ensures
        r == rotation_x_of(rad),
{
    transform_from_array(bytemuck::cast(glam::Affine3::from_rotation_x(bytemuck::cast(rad))))
}

/// Relies on glam's `Affine3::from_rotation_y`, a pure function of the
/// angle's bits.
#[verifier::external_body]
pub fn transform_rotation_y(rad: u32) -> (r: Transform)
    ensures
        r == rotation_y_of(rad),
{
    transform_from_array(bytemuck::cast(glam::Affine3::from_rotation_y(bytemuck::cast(rad))))
}

/// Relies on glam's `Affine3::from_rotation_z`, a pure function of the
/// angle's bits.
#[verifier::external_body]
pub fn transform_rotation_z(rad: u32) -> (r: Transform)
    ensures
        r == rotation_z_of(rad),
{
    transform_from_array(bytemuck::cast(glam::Affine3::from_rotation_z(bytemuck::cast(rad))))
}

/// Relies on glam's `Affine3::transform_point3`, a pure function of the
/// transform's and the point's bits.
#[verifier::external_body]
pub fn transform_apply(t: &Transform, p: Vec3Bits) -> (r: Vec3Bits)
    ensures
        r == transformed(*t, p),
{
    let gt = bytemuck::cast::<[u32; 12], glam::Affine3>(transform_to_array(t));
    let v = gt.transform_point3(bytemuck::cast::<[u32; 3], glam::Vec3>([p.x, p.y, p.z]));
    let o: [u32; 3] = bytemuck::cast(v);
    Vec3Bits { x: o[0], y: o[1], z: o[2] }
}

/// Relies on glam's `Mat3::from_diagonal` and `Mat3 * Vec3` multiplication:
/// scales X and Y of the point by the two factors and keeps Z (the third
/// diagonal entry is one), a pure function of the bits.
#[verifier::external_body]
pub fn scale_point_xy(p: Vec3Bits, sx: u32, sy: u32) -> (r: Vec3Bits)
    ensures
        r == scaled_xy(p, sx, sy),
{
    // 0x3F80_0000 is the bit pattern of the single-precision value one.
    let diag = bytemuck::cast::<[u32; 3], glam::Vec3>([sx, sy, 0x3F80_0000]);
    let v = glam::Mat3::from_diagonal(diag)
        * bytemuck::cast::<[u32; 3], glam::Vec3>([p.x, p.y, p.z]);
    let o: [u32; 3] = bytemuck::cast(v);
    Vec3Bits { x: o[0], y: o[1], z: o[2] }
}

/// Relies on `f32::to_radians`, a pure function of the angle's bits.
/// (Reading the angle back out of a glam vector only fixes its type.)
#[verifier::external_body]
pub fn degrees_to_radians(deg: u32) -> (r: u32)
    ensures
        r == radians_of(deg),
{
    bytemuck::cast::<[u32; 3], glam::Vec3>([deg, deg, deg]).x.to_radians().to_bits()
}

} // verus!

use ayude::transform::Transform;
use ayude::transform::GLOBAL_FORWARD;
use ayude::transform::ONE_BITS;

fn bits_of(m: glam::Mat4) -> [u32; 16] {
    let cols = m.to_cols_array();
    let mut out = [0u32; 16];
    for (i, v) in cols.iter().enumerate() {
        out[i] = v.to_bits();
    }
    out
}

fn mat_of(bits: [u32; 16]) -> glam::Mat4 {
    let mut cols = [0f32; 16];
    for (i, v) in bits.iter().enumerate() {
        cols[i] = f32::from_bits(*v);
    }
    glam::Mat4::from_cols_array(&cols)
}

#[test]
fn identity_matches_glam() {
    assert_eq!(Transform::identity().mat4(), bits_of(glam::Mat4::IDENTITY));
    assert_eq!(ONE_BITS, 1.0f32.to_bits());
}

#[test]
fn compose_matches_glam_product() {
    let a = glam::Mat4::from_translation(glam::Vec3::new(1.0, 2.0, 3.0));
    let b = glam::Mat4::from_scale(glam::Vec3::new(2.0, 2.0, 2.0));
    let ta = Transform::from_mat4(bits_of(a));
    let tb = Transform::from_mat4(bits_of(b));
    assert_eq!(ta.compose(&tb).mat4(), bits_of(a * b));
}

#[test]
fn trs_composition_matches_glam() {
    let t = [1.5f32.to_bits(), 0, 2.5f32.to_bits()];
    let q = glam::Quat::from_rotation_y(0.5);
    let qb = [q.x.to_bits(), q.y.to_bits(), q.z.to_bits(), q.w.to_bits()];
    let s = [2.0f32.to_bits(), 3.0f32.to_bits(), 4.0f32.to_bits()];
    let made = Transform::from_translation_rotation_scale(&t, &qb, &s);
    let expected = glam::Mat4::from_translation(glam::Vec3::new(1.5, 0.0, 2.5))
        * glam::Mat4::from_quat(q)
        * glam::Mat4::from_scale(glam::Vec3::new(2.0, 3.0, 4.0));
    assert_eq!(made.mat4(), bits_of(expected));
}

#[test]
fn decomposition_parts_match_glam() {
    let m = glam::Mat4::from_translation(glam::Vec3::new(4.0, 5.0, 6.0));
    let t = Transform::from_mat4(bits_of(m));
    let (es, eq, et) = m.to_scale_rotation_translation();
    let pos = t.position();
    assert_eq!(
        [f32::from_bits(pos[0]), f32::from_bits(pos[1]), f32::from_bits(pos[2])],
        [et.x, et.y, et.z]
    );
    let sc = t.scale();
    assert_eq!(
        [f32::from_bits(sc[0]), f32::from_bits(sc[1]), f32::from_bits(sc[2])],
        [es.x, es.y, es.z]
    );
    let ro = t.rotation();
    assert_eq!(f32::from_bits(ro[3]), eq.w);
}

#[test]
fn forward_of_identity_is_global_forward() {
    let t = Transform::identity();
    let f = t.forward();
    assert_eq!(f, GLOBAL_FORWARD);
    let m = mat_of(t.mat4());
    let v = m * glam::Vec4::new(0.0, 0.0, 1.0, 0.0);
    let n = glam::Vec3::new(v.x, v.y, v.z).normalize();
    assert_eq!([f32::from_bits(f[0]), f32::from_bits(f[1]), f32::from_bits(f[2])], [n.x, n.y, n.z]);
}

use bhanm::anm_bone::TransformShape;
use bhanm::wire::ByteReader;
use bhanm::{AnmBone, AnmReadingError};

fn bits(x: f32) -> u32 {
    x.to_bits()
}

fn bone(id: i16, t: [f32; 4], x: f32, y: f32, opacity: f64, frame: i8) -> AnmBone {
    AnmBone {
        id,
        scale_x: bits(t[0]),
        rotate_skew0: bits(t[1]),
        rotate_skew1: bits(t[2]),
        scale_y: bits(t[3]),
        x: bits(x),
        y: bits(y),
        opacity: opacity.to_bits(),
        frame,
    }
}

fn written(b: &AnmBone, prev: Option<&AnmBone>) -> Vec<u8> {
    let mut out = vec![0xee];
    b.write(&mut out, prev);
    assert_eq!(out[0], 0xee);
    assert_eq!(b.get_byte_size(prev), out.len() - 1);
    out.split_off(1)
}

fn read(bytes: &[u8], prev: Option<&AnmBone>) -> Result<AnmBone, AnmReadingError> {
    let mut padded = bytes.to_vec();
    padded.extend_from_slice(&[0xaa, 0xbb]);
    let mut reader = ByteReader::new(&padded);
    let r = AnmBone::read(&mut reader, prev);
    if r.is_ok() {
        assert_eq!(reader.len(), 2);
    }
    r
}

#[test]
fn an_identity_bone_is_sixteen_bytes() {
    let b = bone(1, [1., 0., 0., 1.], 5., 5., 1., 1);
    assert_eq!(b.transform_shape(), TransformShape::Identity);
    assert!(b.is_identity());
    assert!(!b.is_symmetric());
    let bytes = written(&b, None);
    assert_eq!(
        bytes,
        vec![1, 0, 1, 0, 1, 1, 0, 0, 0, 0xa0, 0x40, 0, 0, 0xa0, 0x40, 0]
    );
    assert_eq!(read(&bytes, None), Ok(b));
}

#[test]
fn a_symmetric_bone_writes_two_numbers() {
    let b = bone(-2, [2., 0.5, 0.5, -2.], 0., 1., 1., 1);
    assert_eq!(b.transform_shape(), TransformShape::Symmetric);
    assert!(b.is_symmetric());
    assert!(!b.is_identity());
    let bytes = written(&b, None);
    assert_eq!(
        bytes,
        vec![
            0xfe, 0xff, // id
            1,    // opaque
            0,    // transform not copied
            1, 0, // special, not the identity
            0, 0, 0, 0x40, // scale_x
            0, 0, 0, 0x3f, // rotate_skew0
            0,    // position not copied
            0, 0, 0, 0, // x
            0, 0, 0x80, 0x3f, // y
            0,    // frame is 1
        ]
    );
    assert_eq!(read(&bytes, None), Ok(b));
}

#[test]
fn a_general_bone_writes_four_numbers() {
    let b = bone(7, [2., 0.5, 0.25, 3.], -1., 1., 0.5, -3);
    assert_eq!(b.transform_shape(), TransformShape::General);
    let bytes = written(&b, None);
    assert_eq!(
        bytes,
        vec![
            7, 0, // id
            0, // not opaque
            0, // transform not copied
            0, // not special
            0, 0, 0, 0x40, // scale_x
            0, 0, 0, 0x3f, // rotate_skew0
            0, 0, 0x80, 0x3e, // rotate_skew1
            0, 0, 0x40, 0x40, // scale_y
            0,    // position not copied
            0, 0, 0x80, 0xbf, // x
            0, 0, 0x80, 0x3f, // y
            1, 0xfd, // frame
            128,  // opacity
        ]
    );
    assert_eq!(bytes.len(), 33);
    let back = read(&bytes, None).unwrap();
    assert_eq!(back, AnmBone { opacity: (128f64 / 255f64).to_bits(), ..b });
}

#[test]
fn the_shortest_bone_is_six_bytes() {
    let prev = bone(3, [2., 0.5, 0.25, 3.], -1., 1., 0.5, 1);
    let b = bone(4, [2., 0.5, 0.25, 3.], -1., 1., 1., 1);
    let bytes = written(&b, Some(&prev));
    assert_eq!(bytes, vec![4, 0, 1, 1, 1, 0]);
    assert_eq!(read(&bytes, Some(&prev)), Ok(b));
}

#[test]
fn transform_and_position_are_copied_apart() {
    let prev = bone(3, [2., 0.5, 0.25, 3.], -1., 1., 1., 1);
    let same_transform = bone(4, [2., 0.5, 0.25, 3.], 8., 1., 1., 1);
    assert!(same_transform.has_same_transform_as(&prev));
    assert!(!same_transform.has_same_position_as(&prev));
    let bytes = written(&same_transform, Some(&prev));
    assert_eq!(bytes, vec![4, 0, 1, 1, 0, 0, 0, 0, 0x41, 0, 0, 0x80, 0x3f, 0]);
    assert_eq!(read(&bytes, Some(&prev)), Ok(same_transform));

    let same_position = bone(4, [1., 0., 0., 1.], -1., 1., 1., 1);
    assert!(!same_position.has_same_transform_as(&prev));
    assert!(same_position.has_same_position_as(&prev));
    let bytes = written(&same_position, Some(&prev));
    assert_eq!(bytes, vec![4, 0, 1, 0, 1, 1, 1, 0]);
    assert_eq!(read(&bytes, Some(&prev)), Ok(same_position));
}

#[test]
fn a_first_bone_cannot_copy_its_transform() {
    let bytes = [4, 0, 1, 1, 1, 0];
    assert_eq!(read(&bytes, None), Err(AnmReadingError::NoPrevBoneTransformError()));
    let bytes = [4, 0, 1, 7, 0, 0, 0, 0, 0, 0, 0, 0, 0, 0];
    assert_eq!(read(&bytes, None), Err(AnmReadingError::NoPrevBoneTransformError()));
}

#[test]
fn a_first_bone_cannot_copy_its_position() {
    let bytes = [4, 0, 1, 0, 1, 1, 1, 0];
    assert_eq!(read(&bytes, None), Err(AnmReadingError::NoPrevBonePositionError()));
}

#[test]
fn a_bone_that_is_cut_short_is_not_read() {
    let b = bone(7, [2., 0.5, 0.25, 3.], -1., 1., 0.5, -3);
    let bytes = written(&b, None);
    for n in 0..bytes.len() {
        let mut reader = ByteReader::new(&bytes[..n]);
        assert_eq!(AnmBone::read(&mut reader, None), Err(AnmReadingError::IOError()), "{n}");
    }
}

#[test]
fn zeros_of_either_sign_are_equal() {
    let prev = bone(1, [0., -0., 0., -0.], 0., -0., 0., 1);
    let b = bone(1, [-0., 0., -0., 0.], -0., 0., -0., 1);
    assert!(b.has_same_transform_as(&prev));
    assert!(b.has_same_position_as(&prev));
    assert!(b.is_partial_clone_of(&prev));
    assert!(b.is_symmetric());
    assert_ne!(b, prev);
    let bytes = written(&b, Some(&prev));
    assert_eq!(bytes, vec![1, 0, 0, 1, 1, 0, 0]);
    // What is copied comes back with the sign that the reference has.
    assert_eq!(read(&bytes, Some(&prev)), Ok(AnmBone { opacity: 0, ..prev }));
}

#[test]
fn a_skew_of_minus_zero_is_still_the_identity() {
    let b = bone(1, [1., -0., 0., 1.], 0., 0., 1., 1);
    assert!(b.is_identity());
    let bytes = written(&b, None);
    assert_eq!(&bytes[3..6], &[0, 1, 1]);
    assert_eq!(read(&bytes, None), Ok(bone(1, [1., 0., 0., 1.], 0., 0., 1., 1)));
}

#[test]
fn a_nan_equals_nothing() {
    let b = bone(1, [f32::NAN, 0., 0., 1.], f32::NAN, 0., f64::NAN, 1);
    assert!(!b.has_same_transform_as(&b));
    assert!(!b.has_same_position_as(&b));
    assert!(!b.is_partial_clone_of(&b));
    assert!(!b.is_symmetric());
    let bytes = written(&b, Some(&b));
    assert_eq!(bytes.len(), 32);
    let back = read(&bytes, Some(&b)).unwrap();
    assert_eq!(back, AnmBone { opacity: 0, ..b });
}

#[test]
fn a_partial_clone_has_everything_equal() {
    let a = bone(1, [1., 0., 0., 1.], 5., 5., 0.5, 1);
    assert!(a.is_partial_clone_of(&a));
    assert!(!a.is_partial_clone_of(&AnmBone { id: 2, ..a }));
    assert!(!a.is_partial_clone_of(&AnmBone { frame: 2, ..a }));
    assert!(!a.is_partial_clone_of(&AnmBone { opacity: 0.25f64.to_bits(), ..a }));
    assert!(!a.is_partial_clone_of(&AnmBone { x: bits(6.), ..a }));
    assert!(!a.is_partial_clone_of(&AnmBone { y: bits(6.), ..a }));
    assert!(!a.is_partial_clone_of(&AnmBone { scale_x: bits(6.), ..a }));
    assert!(!a.is_partial_clone_of(&AnmBone { rotate_skew0: bits(6.), ..a }));
    assert!(!a.is_partial_clone_of(&AnmBone { rotate_skew1: bits(6.), ..a }));
    assert!(!a.is_partial_clone_of(&AnmBone { scale_y: bits(6.), ..a }));
}

#[test]
fn each_transform_has_one_shape_and_comes_back() {
    let values = [0f32, -0., 1., -1., 2., -2., 0.5, f32::NAN, f32::INFINITY];
    for &sx in &values {
        for &r0 in &values {
            for &r1 in &values {
                for &sy in &values {
                    let b = bone(0, [sx, r0, r1, sy], 0., 0., 1., 1);
                    let identity = sx == 1. && r0 == 0. && r1 == 0. && sy == 1.;
                    let symmetric = sy == -sx && r0 == r1;
                    let shape = b.transform_shape();
                    assert_eq!(shape == TransformShape::Identity, identity);
                    assert_eq!(shape == TransformShape::Symmetric, symmetric && !identity);
                    assert_eq!(shape == TransformShape::General, !symmetric && !identity);
                    assert_eq!(b.is_identity(), identity);
                    assert_eq!(b.is_symmetric(), symmetric);
                    let bytes = written(&b, None);
                    let expected = match shape {
                        TransformShape::Identity => 6 + 9 + 1,
                        TransformShape::Symmetric => 6 + 9 + 9,
                        TransformShape::General => 6 + 9 + 16,
                    };
                    assert_eq!(bytes.len(), expected);
                    let back = read(&bytes, None).unwrap();
                    let same = |a: u32, b: u32| {
                        a == b || f32::from_bits(a) == f32::from_bits(b)
                    };
                    assert!(same(back.scale_x, b.scale_x));
                    assert!(same(back.rotate_skew0, b.rotate_skew0));
                    assert!(same(back.rotate_skew1, b.rotate_skew1));
                    assert!(same(back.scale_y, b.scale_y));
                }
            }
        }
    }
}

#[test]
fn an_opacity_comes_back_as_its_step() {
    for opacity in [0.0, 0.1, 0.5, 0.999, 0.3333, 1.0] {
        let b = bone(1, [1., 0., 0., 1.], 0., 0., opacity, 1);
        let back = read(&written(&b, None), None).unwrap();
        let expected = if opacity == 1.0 {
            1.0
        } else {
            (f64::round(opacity * 255.) as u8) as f64 / 255f64
        };
        assert_eq!(f64::from_bits(back.opacity), expected);
    }
}

#[test]
fn an_opacity_byte_of_255_reads_as_opaque() {
    let bytes = [1, 0, 0, 0, 1, 1, 0, 0, 0, 0, 0, 0, 0, 0, 0, 0, 255];
    let b = read(&bytes, None).unwrap();
    assert_eq!(b.opacity, 1f64.to_bits());
    assert_eq!(written(&b, None).len(), 16);
}

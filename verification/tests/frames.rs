use bhanm::wire::ByteReader;
use bhanm::{AnmBone, AnmFrame, AnmReadingError, AnmWritingError};

fn bone(id: i16, x: f32, frame: i8) -> AnmBone {
    AnmBone {
        id,
        scale_x: 1f32.to_bits(),
        rotate_skew0: 0,
        rotate_skew1: 0,
        scale_y: 1f32.to_bits(),
        x: x.to_bits(),
        y: 5f32.to_bits(),
        opacity: 1f64.to_bits(),
        frame,
    }
}

fn frame(id: i16, bones: Vec<AnmBone>) -> AnmFrame {
    AnmFrame { id, bones, fire_socket: None, eb_platform_pos: None }
}

fn written(f: &AnmFrame, prev: Option<&AnmFrame>) -> Vec<u8> {
    let mut out = vec![0xee];
    assert_eq!(f.write(&mut out, prev), Ok(()));
    assert_eq!(out[0], 0xee);
    assert_eq!(f.get_byte_size(prev), (out.len() - 1) as u64);
    out.split_off(1)
}

fn read(bytes: &[u8], prev: Option<&AnmFrame>) -> Result<AnmFrame, AnmReadingError> {
    let mut padded = bytes.to_vec();
    padded.extend_from_slice(&[0xaa, 0xbb]);
    let mut reader = ByteReader::new(&padded);
    let r = AnmFrame::read(&mut reader, prev);
    if r.is_ok() {
        assert_eq!(reader.len(), 2);
    }
    r
}

#[test]
fn a_frame_without_bones_is_six_bytes() {
    let f = frame(-1, vec![]);
    let bytes = written(&f, None);
    assert_eq!(bytes, vec![0xff, 0xff, 0, 0, 0, 0]);
    assert_eq!(read(&bytes, None), Ok(f));
}

#[test]
fn the_points_of_a_frame_are_written_when_present() {
    let f = AnmFrame {
        id: 2,
        bones: vec![],
        fire_socket: Some((1f64.to_bits(), (-2f64).to_bits())),
        eb_platform_pos: Some((0.5f64.to_bits(), f64::NAN.to_bits())),
    };
    let bytes = written(&f, None);
    let mut expected = vec![2, 0, 1];
    expected.extend_from_slice(&1f64.to_le_bytes());
    expected.extend_from_slice(&(-2f64).to_le_bytes());
    expected.push(1);
    expected.extend_from_slice(&0.5f64.to_le_bytes());
    expected.extend_from_slice(&f64::NAN.to_le_bytes());
    expected.extend_from_slice(&[0, 0]);
    assert_eq!(bytes, expected);
    assert_eq!(bytes.len(), 38);
    assert_eq!(read(&bytes, None), Ok(f));

    let only_second = AnmFrame {
        id: 2,
        bones: vec![],
        fire_socket: None,
        eb_platform_pos: Some((3f64.to_bits(), 4f64.to_bits())),
    };
    let bytes = written(&only_second, None);
    assert_eq!(bytes.len(), 22);
    assert_eq!(&bytes[..4], &[2, 0, 0, 1]);
    assert_eq!(read(&bytes, None), Ok(only_second));
}

#[test]
fn a_bone_is_written_after_the_bone_before_it_in_its_frame() {
    let f = frame(0, vec![bone(1, 5., 1), bone(2, 5., 1), bone(3, 6., 1)]);
    let bytes = written(&f, None);
    let mut expected = vec![0, 0, 0, 0, 3, 0];
    // the first bone has nothing to copy from
    expected.extend_from_slice(&[0, 1, 0, 1, 0, 1, 1, 0]);
    expected.extend_from_slice(&5f32.to_le_bytes());
    expected.extend_from_slice(&5f32.to_le_bytes());
    expected.push(0);
    // the second copies transform and position from the first
    expected.extend_from_slice(&[0, 2, 0, 1, 1, 1, 0]);
    // the third copies the transform only
    expected.extend_from_slice(&[0, 3, 0, 1, 1, 0]);
    expected.extend_from_slice(&6f32.to_le_bytes());
    expected.extend_from_slice(&5f32.to_le_bytes());
    expected.push(0);
    assert_eq!(bytes, expected);
    assert_eq!(read(&bytes, None), Ok(f));
}

#[test]
fn a_bone_that_repeats_the_frame_before_is_two_bytes() {
    let prev = frame(0, vec![bone(1, 5., 1), bone(2, 7., 3)]);
    let f = frame(1, vec![bone(1, 5., 1), bone(2, 7., 3)]);
    let bytes = written(&f, Some(&prev));
    assert_eq!(bytes, vec![1, 0, 0, 0, 2, 0, 1, 1, 1, 1]);
    assert!(f.get_byte_size(Some(&prev)) < f.get_byte_size(None));
    assert_eq!(read(&bytes, Some(&prev)), Ok(f));
}

#[test]
fn a_bone_is_compared_with_the_bone_at_its_own_place() {
    // The second bone equals the first bone of the frame before, which is not
    // at its place: it is written out, after the first bone of its own frame.
    let prev = frame(0, vec![bone(1, 5., 1)]);
    let f = frame(1, vec![bone(9, 6., 1), bone(1, 5., 1)]);
    let bytes = written(&f, Some(&prev));
    let mut expected = vec![1, 0, 0, 0, 2, 0];
    expected.extend_from_slice(&[0, 9, 0, 1, 0, 1, 1, 0]);
    expected.extend_from_slice(&6f32.to_le_bytes());
    expected.extend_from_slice(&5f32.to_le_bytes());
    expected.push(0);
    expected.extend_from_slice(&[0, 1, 0, 1, 1, 0]);
    expected.extend_from_slice(&5f32.to_le_bytes());
    expected.extend_from_slice(&5f32.to_le_bytes());
    expected.push(0);
    assert_eq!(bytes, expected);
    assert_eq!(read(&bytes, Some(&prev)), Ok(f));
}

#[test]
fn a_repeated_bone_may_bring_a_picture_of_its_own() {
    let prev = frame(0, vec![bone(1, 5., 1)]);
    let bytes = [1, 0, 0, 0, 1, 0, 1, 0, 2];
    assert_eq!(read(&bytes, Some(&prev)), Ok(frame(1, vec![bone(1, 5., 2)])));
    let bytes = [1, 0, 0, 0, 1, 0, 1, 0, 0x80];
    assert_eq!(read(&bytes, Some(&prev)), Ok(frame(1, vec![bone(1, 5., -128)])));
}

#[test]
fn a_bone_with_another_picture_is_written_out() {
    let prev = frame(0, vec![bone(1, 5., 1)]);
    let f = frame(1, vec![bone(1, 5., 2)]);
    let bytes = written(&f, Some(&prev));
    let mut expected = vec![1, 0, 0, 0, 1, 0];
    expected.extend_from_slice(&[0, 1, 0, 1, 0, 1, 1, 0]);
    expected.extend_from_slice(&5f32.to_le_bytes());
    expected.extend_from_slice(&5f32.to_le_bytes());
    expected.extend_from_slice(&[1, 2]);
    assert_eq!(bytes, expected);
    assert_eq!(read(&bytes, Some(&prev)), Ok(f));
}

#[test]
fn a_first_frame_cannot_repeat_a_bone() {
    let bytes = [1, 0, 0, 0, 1, 0, 1, 1];
    assert_eq!(read(&bytes, None), Err(AnmReadingError::NoPrevFrameError()));
    let bytes = [1, 0, 0, 0, 1, 0, 9];
    assert_eq!(read(&bytes, None), Err(AnmReadingError::NoPrevFrameError()));
}

#[test]
fn a_frame_cannot_repeat_a_bone_that_is_not_there() {
    let prev = frame(0, vec![bone(1, 5., 1)]);
    let bytes = [1, 0, 0, 0, 2, 0, 1, 1, 1, 1];
    assert_eq!(read(&bytes, Some(&prev)), Err(AnmReadingError::NoPrevFrameBoneError()));
    let empty = frame(0, vec![]);
    let bytes = [1, 0, 0, 0, 1, 0, 1, 1];
    assert_eq!(read(&bytes, Some(&empty)), Err(AnmReadingError::NoPrevFrameBoneError()));
}

#[test]
fn a_frame_cannot_have_fewer_than_no_bones() {
    let bytes = [1, 0, 0, 0, 0xff, 0xff];
    assert_eq!(
        read(&bytes, None),
        Err(AnmReadingError::NegativeBoneCountError { bone_count: -1 })
    );
    let bytes = [1, 0, 0, 0, 0x00, 0x80];
    assert_eq!(
        read(&bytes, None),
        Err(AnmReadingError::NegativeBoneCountError { bone_count: -32768 })
    );
}

#[test]
fn a_frame_that_is_cut_short_is_not_read() {
    let f = AnmFrame {
        id: 2,
        bones: vec![bone(1, 5., 1), bone(2, 5., 4)],
        fire_socket: Some((1f64.to_bits(), 2f64.to_bits())),
        eb_platform_pos: None,
    };
    let bytes = written(&f, None);
    for n in 0..bytes.len() {
        let mut reader = ByteReader::new(&bytes[..n]);
        assert_eq!(AnmFrame::read(&mut reader, None), Err(AnmReadingError::IOError()), "{n}");
    }
}

#[test]
fn a_frame_holds_at_most_32767_bones() {
    let full = frame(0, vec![bone(1, 5., 1); 32767]);
    let bytes = written(&full, None);
    assert_eq!(&bytes[4..6], &[0xff, 0x7f]);
    assert_eq!(bytes.len(), 6 + 17 + 32766 * 7);
    assert_eq!(read(&bytes, None), Ok(full));

    let too_many = frame(0, vec![bone(1, 5., 1); 32768]);
    let mut out = vec![1, 2, 3];
    assert_eq!(
        too_many.write(&mut out, None),
        Err(AnmWritingError::TooManyBonesError { bone_count: 32768 })
    );
    assert_eq!(out, vec![1, 2, 3]);
    assert_eq!(too_many.get_byte_size(None), 6 + 17 + 32767 * 7);
}

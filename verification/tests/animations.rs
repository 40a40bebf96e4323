use bhanm::wire::ByteReader;
use bhanm::{AnmAnimation, AnmBone, AnmFrame, AnmReadingError, AnmWritingError};

fn bone(id: i16, x: f32, frame: i8) -> AnmBone {
    AnmBone {
        id,
        scale_x: 1f32.to_bits(),
        rotate_skew0: 0,
        rotate_skew1: 0,
        scale_y: 1f32.to_bits(),
        x: x.to_bits(),
        y: 5f32.to_bits(),
        opacity: 1f64.to_bits(),
        frame,
    }
}

fn frame(id: i16, bones: Vec<AnmBone>) -> AnmFrame {
    AnmFrame { id, bones, fire_socket: None, eb_platform_pos: None }
}

fn animation(name: &str, data: Vec<u32>, frames: Vec<AnmFrame>) -> AnmAnimation {
    AnmAnimation {
        name: name.to_string(),
        loop_start: 1,
        recovery_start: 2,
        free_start: 3,
        preview_frame: 4,
        base_start: 0xffff_ffff,
        data,
        frames,
    }
}

fn written(a: &AnmAnimation) -> Vec<u8> {
    let mut out = vec![0xee];
    assert_eq!(a.write(&mut out), Ok(()));
    assert_eq!(out[0], 0xee);
    out.split_off(1)
}

fn read(bytes: &[u8]) -> Result<AnmAnimation, AnmReadingError> {
    let mut padded = bytes.to_vec();
    padded.extend_from_slice(&[0xaa, 0xbb]);
    let mut reader = ByteReader::new(&padded);
    let r = AnmAnimation::read(&mut reader);
    if r.is_ok() {
        assert_eq!(reader.len(), 2);
    }
    r
}

#[test]
fn an_animation_without_frames() {
    let a = animation("Idle", vec![7, 0x0102_0304], vec![]);
    let bytes = written(&a);
    assert_eq!(
        bytes,
        vec![
            4, 0, b'I', b'd', b'l', b'e', // name
            0, 0, 0, 0, // frame count
            1, 0, 0, 0, // loop_start
            2, 0, 0, 0, // recovery_start
            3, 0, 0, 0, // free_start
            4, 0, 0, 0, // preview_frame
            0xff, 0xff, 0xff, 0xff, // base_start
            2, 0, 0, 0, // data length
            7, 0, 0, 0, 4, 3, 2, 1, // data
            0, 0, 0, 0, // bytes of the frames
        ]
    );
    assert_eq!(a.get_frames_byte_size(), 0);
    assert_eq!(read(&bytes), Ok(a));
}

#[test]
fn the_frames_of_an_animation_follow_each_other() {
    let a = animation(
        "Run",
        vec![],
        vec![
            frame(0, vec![bone(1, 5., 1), bone(2, 6., 1)]),
            frame(1, vec![bone(1, 5., 1), bone(2, 7., 1)]),
            frame(2, vec![bone(1, 5., 1), bone(2, 7., 1), bone(3, 7., 1)]),
        ],
    );
    let bytes = written(&a);
    let head = 2 + 3 + 4 * 7;
    // frame 0: both bones written out, the second after the first
    let frame0 = 6 + 17 + (1 + 5 + 9);
    // frame 1: the first bone repeated, the second written out after it
    let frame1 = 6 + 2 + (1 + 5 + 9);
    // frame 2: two bones repeated, the third written out after the second
    let frame2 = 6 + 2 + 2 + (1 + 6);
    assert_eq!(bytes.len(), head + 4 + frame0 + frame1 + frame2);
    assert_eq!(a.get_frames_byte_size(), (frame0 + frame1 + frame2) as u64);
    assert_eq!(&bytes[head..head + 4], &((frame0 + frame1 + frame2) as u32).to_le_bytes());
    assert_eq!(a.frames[1].get_byte_size(Some(&a.frames[0])), frame1 as u64);
    assert_eq!(a.frames[1].get_byte_size(None), frame0 as u64);
    assert_eq!(read(&bytes), Ok(a));
}

#[test]
fn the_count_of_bytes_in_front_of_the_frames_is_passed_over() {
    let a = animation("Run", vec![], vec![frame(0, vec![bone(1, 5., 1)])]);
    let mut bytes = written(&a);
    let head = 2 + 3 + 4 * 7;
    assert_eq!(&bytes[head..head + 4], &[23, 0, 0, 0]);
    bytes[head] = 0;
    bytes[head + 3] = 0xff;
    assert_eq!(read(&bytes), Ok(a));
}

#[test]
fn two_frames_whose_bone_differs_in_its_picture() {
    let first = bone(1, 5., 1);
    let second = AnmBone { frame: 2, ..first };
    let a = animation("A", vec![], vec![frame(0, vec![first]), frame(1, vec![second])]);

    // Written by hand, the second bone repeats the first and brings its own
    // picture: three bytes.
    let mut by_hand = vec![1, 0, b'A', 2, 0, 0, 0];
    by_hand.extend_from_slice(&[1, 0, 0, 0, 2, 0, 0, 0, 3, 0, 0, 0, 4, 0, 0, 0]);
    by_hand.extend_from_slice(&[0xff, 0xff, 0xff, 0xff, 0, 0, 0, 0]);
    by_hand.extend_from_slice(&[32, 0, 0, 0]);
    by_hand.extend_from_slice(&[0, 0, 0, 0, 1, 0]);
    by_hand.extend_from_slice(&[0, 1, 0, 1, 0, 1, 1, 0]);
    by_hand.extend_from_slice(&5f32.to_le_bytes());
    by_hand.extend_from_slice(&5f32.to_le_bytes());
    by_hand.push(0);
    by_hand.extend_from_slice(&[1, 0, 0, 0, 1, 0]);
    by_hand.extend_from_slice(&[1, 0, 2]);
    let back = read(&by_hand).unwrap();
    assert_eq!(back, a);
    assert_eq!(back.frames[0].bones[0], first);
    assert_eq!(back.frames[1].bones[0], second);

    // The writer repeats a bone only where the picture is the same too, so it
    // writes the second bone out; both bones come back all the same.
    let bytes = written(&a);
    assert_eq!(bytes.len(), by_hand.len() - 3 + 18);
    assert_eq!(read(&bytes), Ok(a));
}

#[test]
fn a_name_of_70000_bytes_is_not_written() {
    let a = animation(&"n".repeat(70000), vec![1, 2, 3], vec![frame(0, vec![bone(1, 5., 1)])]);
    let mut out = vec![9, 9];
    assert_eq!(a.write(&mut out), Err(AnmWritingError::LongAnimNameError { name_length: 70000 }));
    assert_eq!(out, vec![9, 9]);
}

#[test]
fn a_name_is_measured_in_bytes() {
    // 32768 letters of two bytes each
    let a = animation(&"\u{e9}".repeat(32768), vec![], vec![]);
    let mut out = Vec::new();
    assert_eq!(a.write(&mut out), Err(AnmWritingError::LongAnimNameError { name_length: 65536 }));
    assert!(out.is_empty());
    let a = animation(&"n".repeat(65535), vec![], vec![]);
    assert_eq!(read(&written(&a)), Ok(a));
}

#[test]
fn a_frame_with_too_many_bones_stops_the_writing() {
    let a = animation(
        "A",
        vec![],
        vec![
            frame(0, vec![bone(1, 5., 1)]),
            frame(1, vec![bone(1, 5., 1); 32768]),
            frame(2, vec![bone(1, 5., 1)]),
        ],
    );
    let mut out = Vec::new();
    assert_eq!(a.write(&mut out), Err(AnmWritingError::TooManyBonesError { bone_count: 32768 }));
    // the head, the count of bytes and the first frame have been written
    let head = 2 + 1 + 4 * 7;
    assert_eq!(out.len(), head + 4 + 23);
    let all = 23 + (6 + 2 + 32767 * 7) + (6 + 2);
    assert_eq!(&out[head..head + 4], &(all as u32).to_le_bytes());
    assert_eq!(a.get_frames_byte_size(), all as u64);
}

#[test]
fn an_animation_that_is_cut_short_is_not_read() {
    let a = animation("Run", vec![5], vec![frame(0, vec![bone(1, 5., 1)])]);
    let bytes = written(&a);
    for n in 0..bytes.len() {
        let mut reader = ByteReader::new(&bytes[..n]);
        assert_eq!(AnmAnimation::read(&mut reader), Err(AnmReadingError::IOError()), "{n}");
    }
}

#[test]
fn an_animation_with_a_broken_name_is_not_read() {
    let a = animation("Run", vec![], vec![]);
    let mut bytes = written(&a);
    bytes[3] = 0xff;
    assert_eq!(read(&bytes), Err(AnmReadingError::FromUtf8Error()));
}

#[test]
fn errors_of_bones_come_up_through_the_animation() {
    let a = animation("A", vec![], vec![frame(0, vec![bone(1, 5., 1)])]);
    let bytes = written(&a);
    let bones = 2 + 1 + 4 * 7 + 4 + 6;
    let mut repeats = bytes.clone();
    repeats[bones] = 1;
    assert_eq!(read(&repeats), Err(AnmReadingError::NoPrevFrameError()));
    let mut copies_transform = bytes.clone();
    copies_transform[bones + 4] = 1;
    assert_eq!(read(&copies_transform), Err(AnmReadingError::NoPrevBoneTransformError()));
    let mut copies_position = bytes.clone();
    copies_position[bones + 7] = 1;
    assert_eq!(read(&copies_position), Err(AnmReadingError::NoPrevBonePositionError()));
    let mut negative = bytes.clone();
    negative[bones - 1] = 0x80;
    assert_eq!(
        read(&negative),
        Err(AnmReadingError::NegativeBoneCountError { bone_count: -32767 })
    );
}

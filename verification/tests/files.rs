use bhanm::wire::ByteReader;
use bhanm::{
    AnimationCollection, AnmAnimation, AnmBone, AnmClass, AnmFile, AnmFrame, AnmReadingError,
    AnmWritingError, ClassesCollection,
};
use flate2::read::ZlibDecoder;
use flate2::write::ZlibEncoder;
use flate2::Compression;
use std::io::{Read, Write};

fn bone(id: i16, x: f32, opacity: f64) -> AnmBone {
    AnmBone {
        id,
        scale_x: 2f32.to_bits(),
        rotate_skew0: 0.5f32.to_bits(),
        rotate_skew1: 0.5f32.to_bits(),
        scale_y: (-2f32).to_bits(),
        x: x.to_bits(),
        y: 5f32.to_bits(),
        opacity: opacity.to_bits(),
        frame: 1,
    }
}

fn animation(name: &str, frames: Vec<AnmFrame>) -> AnmAnimation {
    AnmAnimation {
        name: name.to_string(),
        loop_start: 1,
        recovery_start: 2,
        free_start: 3,
        preview_frame: 4,
        base_start: 5,
        data: vec![10, 20, 30],
        frames,
    }
}

fn class(index: &str, animations: Vec<AnmAnimation>) -> AnmClass {
    let mut collection = AnimationCollection::new();
    for a in animations {
        collection.insert(a);
    }
    AnmClass { index: index.to_string(), file_name: format!("{index}.swf"), animations: collection }
}

fn sample() -> AnmFile {
    let frames = vec![
        AnmFrame {
            id: 0,
            bones: vec![bone(1, 5., 1.), bone(2, 5., 0.5), bone(3, 6., 0.25)],
            fire_socket: Some((1.5f64.to_bits(), (-2.5f64).to_bits())),
            eb_platform_pos: None,
        },
        AnmFrame {
            id: 1,
            bones: vec![bone(1, 5., 1.), bone(2, 5.5, 0.5), bone(3, 6., 0.25), bone(4, 0., 1.)],
            fire_socket: None,
            eb_platform_pos: Some((0f64.to_bits(), 1f64.to_bits())),
        },
        AnmFrame {
            id: 2,
            bones: vec![bone(1, 5., 1.)],
            fire_socket: None,
            eb_platform_pos: None,
        },
    ];
    let mut classes = ClassesCollection::new();
    classes.insert(
        "bow".to_string(),
        class("a", vec![animation("Idle", frames.clone()), animation("Run", vec![])]),
    );
    classes.insert("empty".to_string(), class("b", vec![]));
    classes.insert("sword".to_string(), class("c", vec![animation("Idle", frames)]));
    AnmFile { header: -123456789, classes }
}

// A bone as it is read back: its opacity is the step that was stored.
fn stored(b: &AnmBone) -> AnmBone {
    let opacity = f64::from_bits(b.opacity);
    let step = if opacity == 1.0 { 1.0 } else { (f64::round(opacity * 255.) as u8) as f64 / 255f64 };
    AnmBone { opacity: step.to_bits(), ..*b }
}

fn assert_read_back(written: &AnmFile, read: &AnmFile) {
    assert_eq!(read.header, written.header);
    assert_eq!(read.classes.len(), written.classes.len());
    for ((key, class), (key_back, class_back)) in written.classes.iter().iter().zip(read.classes.iter())
    {
        assert_eq!(key_back, key);
        assert_eq!(class_back.index, class.index);
        assert_eq!(class_back.file_name, class.file_name);
        assert_eq!(class_back.animations.len(), class.animations.len());
        for (a, a_back) in class.animations.iter().iter().zip(class_back.animations.iter()) {
            assert_eq!(a_back.name, a.name);
            assert_eq!(a_back.loop_start, a.loop_start);
            assert_eq!(a_back.recovery_start, a.recovery_start);
            assert_eq!(a_back.free_start, a.free_start);
            assert_eq!(a_back.preview_frame, a.preview_frame);
            assert_eq!(a_back.base_start, a.base_start);
            assert_eq!(a_back.data, a.data);
            assert_eq!(a_back.frames.len(), a.frames.len());
            for (f, f_back) in a.frames.iter().zip(a_back.frames.iter()) {
                assert_eq!(f_back.id, f.id);
                assert_eq!(f_back.fire_socket, f.fire_socket);
                assert_eq!(f_back.eb_platform_pos, f.eb_platform_pos);
                let expected: Vec<AnmBone> = f.bones.iter().map(stored).collect();
                assert_eq!(f_back.bones, expected);
            }
        }
    }
}

fn deflated(body: &[u8]) -> Vec<u8> {
    let mut encoder = ZlibEncoder::new(Vec::new(), Compression::fast());
    encoder.write_all(body).unwrap();
    encoder.finish().unwrap()
}

fn file_of(header: i32, body: &[u8]) -> Vec<u8> {
    let mut bytes = header.to_le_bytes().to_vec();
    bytes.extend_from_slice(&deflated(body));
    bytes
}

#[test]
fn a_file_is_read_back_as_it_was_written() {
    let file = sample();
    let mut bytes = Vec::new();
    assert_eq!(file.write(&mut bytes), Ok(()));
    let back = AnmFile::read(&bytes).unwrap();
    assert_read_back(&file, &back);
    // What was read is written as the same bytes again.
    let mut again = Vec::new();
    assert_eq!(back.write(&mut again), Ok(()));
    assert_eq!(again, bytes);
}

#[test]
fn a_file_is_its_header_and_a_zlib_stream() {
    let file = sample();
    let mut bytes = vec![0xee];
    assert_eq!(file.write(&mut bytes), Ok(()));
    assert_eq!(&bytes[..5], &[0xee, 0xeb, 0x32, 0xa4, 0xf8]);
    assert_eq!(bytes[5] & 0x0f, 8);
    let mut body = Vec::new();
    ZlibDecoder::new(&bytes[5..]).read_to_end(&mut body).unwrap();
    let mut expected = Vec::new();
    assert_eq!(file.write_classes(&mut expected), Ok(()));
    assert_eq!(body, expected);
    assert!(bytes.len() - 5 < body.len());
    assert_eq!(&body[..6], &[1, 3, 0, b'b', b'o', b'w']);
    assert_eq!(body[body.len() - 1], 0);
}

#[test]
fn the_classes_are_read_from_the_zlib_stream() {
    let file = sample();
    let mut body = Vec::new();
    assert_eq!(file.write_classes(&mut body), Ok(()));
    let bytes = file_of(77, &body);
    let back = AnmFile::read(&bytes).unwrap();
    assert_eq!(back.header, 77);
    assert_read_back(&AnmFile { header: 77, ..file }, &back);
}

#[test]
fn a_file_without_classes() {
    let file = AnmFile { header: 1, classes: ClassesCollection::new() };
    let mut body = vec![5];
    assert_eq!(file.write_classes(&mut body), Ok(()));
    assert_eq!(body, vec![5, 0]);
    let mut bytes = Vec::new();
    assert_eq!(file.write(&mut bytes), Ok(()));
    let back = AnmFile::read(&bytes).unwrap();
    assert_eq!(back.header, 1);
    assert_eq!(back.classes.len(), 0);
    assert!(back.classes.iter().is_empty());
}

#[test]
fn a_zero_ends_the_classes() {
    let body = [0, 1, 2, 3];
    let mut reader = ByteReader::new(&body);
    let classes = AnmFile::read_classes(&mut reader).unwrap();
    assert_eq!(classes.len(), 0);
    assert_eq!(reader.len(), 3);
    let back = AnmFile::read(&file_of(-1, &body)).unwrap();
    assert_eq!(back.header, -1);
    assert_eq!(back.classes.len(), 0);
}

#[test]
fn a_class_that_is_announced_has_to_follow() {
    for body in [&[1u8][..], &[1, 3, 0, b'a'], &[1, 1, 0, b'a', 0, 0, 0, 0, 1, 0, 0, 0]] {
        let mut reader = ByteReader::new(body);
        assert!(matches!(AnmFile::read_classes(&mut reader), Err(AnmReadingError::IOError())));
        assert!(matches!(AnmFile::read(&file_of(0, body)), Err(AnmReadingError::IOError())));
    }
    let broken_key = [1, 1, 0, 0xff, 0, 0, 0, 0, 0, 0, 0, 0, 0];
    assert!(matches!(
        AnmFile::read(&file_of(0, &broken_key)),
        Err(AnmReadingError::FromUtf8Error())
    ));
}

#[test]
fn classes_without_the_zero_behind_them_are_not_read() {
    let file = sample();
    let mut body = Vec::new();
    assert_eq!(file.write_classes(&mut body), Ok(()));
    body.pop();
    assert!(matches!(AnmFile::read(&file_of(0, &body)), Err(AnmReadingError::IOError())));
}

#[test]
fn a_file_that_is_cut_short_is_not_read() {
    let file = sample();
    let mut bytes = Vec::new();
    assert_eq!(file.write(&mut bytes), Ok(()));
    for n in [0, 1, 3, 4, 5, 6, 10, bytes.len() / 2] {
        assert!(matches!(AnmFile::read(&bytes[..n]), Err(AnmReadingError::IOError())), "{n}");
    }
}

#[test]
fn a_file_whose_stream_is_not_zlib_is_not_read() {
    assert!(matches!(
        AnmFile::read(&[0, 0, 0, 0, 0, 1, 2, 3, 4, 5, 6, 7]),
        Err(AnmReadingError::IOError())
    ));
}

#[test]
fn what_stands_behind_the_zero_is_not_looked_at() {
    let body = [0, 1, 0xff, 0xff];
    let back = AnmFile::read(&file_of(3, &body)).unwrap();
    assert_eq!(back.classes.len(), 0);
    let mut bytes = file_of(3, &[0]);
    bytes.extend_from_slice(b"not part of the stream");
    let back = AnmFile::read(&bytes).unwrap();
    assert_eq!(back.header, 3);
    assert_eq!(back.classes.len(), 0);
}

#[test]
fn a_stream_that_is_cut_short_behind_the_classes_is_read() {
    let file = sample();
    let mut bytes = Vec::new();
    assert_eq!(file.write(&mut bytes), Ok(()));
    // the stream ends with four bytes of checksum
    bytes.truncate(bytes.len() - 4);
    let back = AnmFile::read(&bytes).unwrap();
    assert_read_back(&file, &back);
}

#[test]
fn of_two_classes_with_one_key_the_later_is_read() {
    let mut body = Vec::new();
    for index in [b'x', b'y', b'z'] {
        let key = if index == b'y' { b'l' } else { b'k' };
        body.extend_from_slice(&[1, 1, 0, key]);
        body.extend_from_slice(&[1, 0, index, 0, 0, 0, 0, 0, 0]);
    }
    body.push(0);
    let back = AnmFile::read(&file_of(0, &body)).unwrap();
    assert_eq!(back.classes.len(), 2);
    assert_eq!(back.classes.get("k").unwrap().index, "z");
    assert_eq!(back.classes.get("l").unwrap().index, "y");
    assert!(back.classes.get("m").is_none());
    let keys: Vec<&str> = back.classes.iter().iter().map(|e| e.0.as_str()).collect();
    assert_eq!(keys, vec!["k", "l"]);
}

#[test]
fn classes_are_indexed_by_key() {
    let mut classes = ClassesCollection::new();
    assert_eq!(classes.len(), 0);
    assert!(classes.insert("k".to_string(), class("1", vec![])).is_none());
    assert!(classes.insert("l".to_string(), class("2", vec![])).is_none());
    let old = classes.insert("k".to_string(), class("3", vec![])).unwrap();
    assert_eq!(old.index, "1");
    assert_eq!(classes.len(), 2);
    assert_eq!(classes.get("k").unwrap().index, "3");
    assert_eq!(classes.get("l").unwrap().index, "2");
    assert!(classes.get("").is_none());
}

#[test]
fn a_key_has_to_fit_its_field() {
    let mut classes = ClassesCollection::new();
    classes.insert("k".to_string(), class("1", vec![]));
    classes.insert("x".repeat(65536), class("2", vec![]));
    classes.insert("l".to_string(), class("3", vec![]));
    let file = AnmFile { header: 0, classes };
    let mut body = Vec::new();
    assert_eq!(
        file.write_classes(&mut body),
        Err(AnmWritingError::TooLongClassKey { key_length: 65536 })
    );
    // the first class has been written, and neither the long key nor the
    // zero at the end
    assert_eq!(body, vec![1, 1, 0, b'k', 1, 0, b'1', 5, 0, b'1', b'.', b's', b'w', b'f', 0, 0, 0, 0]);
    let mut bytes = Vec::new();
    assert_eq!(file.write(&mut bytes), Err(AnmWritingError::TooLongClassKey { key_length: 65536 }));
    // the stream holds what was written up to the error
    assert_eq!(&bytes[..4], &[0, 0, 0, 0]);
    let mut partial = Vec::new();
    ZlibDecoder::new(&bytes[4..]).read_to_end(&mut partial).unwrap();
    assert_eq!(partial, body);
}

#[test]
fn an_error_inside_a_class_stops_the_file() {
    let mut classes = ClassesCollection::new();
    classes.insert("k".to_string(), class("1", vec![animation(&"n".repeat(70000), vec![])]));
    let file = AnmFile { header: 0, classes };
    let mut bytes = Vec::new();
    assert_eq!(
        file.write(&mut bytes),
        Err(AnmWritingError::LongAnimNameError { name_length: 70000 })
    );
    let mut classes = ClassesCollection::new();
    classes.insert("k".to_string(), class(&"n".repeat(70000), vec![]));
    let file = AnmFile { header: 0, classes };
    assert_eq!(
        file.write(&mut bytes),
        Err(AnmWritingError::TooLongClassIndex { index_length: 70000 })
    );
}

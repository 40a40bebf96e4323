//! One frame: a run of bones and two optional points.
//!
//! Each bone of a frame has two references. The bone at the same place in
//! the frame before decides whether the bone is written at all: a bone that
//! repeats it is two flags. A bone that is written is written after the bone
//! before it in its own frame.

use crate::anm_bone::{
    bone_leaves_no_more, bone_read_back, bone_round_trip, bone_takes_6_to_33_bytes,
    reference_read_back, take_bone, AnmBone,
};
use crate::errors::{write_result, AnmReadingError, AnmWritingError};
use crate::opacity::zeros_are_stored_alike;
use crate::wire::{
    append_assoc, flag, flag_round_trip, i16_bits, i16_round_trip, i8_bits, i8_round_trip, le16,
    le64, no_longer, put_flag, put_i16, put_i8, put_u64, read_as, take_flag, take_i16, take_i8, take_u64,
    u64_round_trip, ByteReader, Taken,
};
use vstd::prelude::*;

verus! {

/// A single frame of animation.
#[derive(Clone, Debug, PartialEq, Eq)]
pub struct AnmFrame {
    pub id: i16,
    /// The bones, in the order of the skeleton, which is the same in every
    /// frame of an animation.
    pub bones: Vec<AnmBone>,
    /// Where a grabbed opponent is held; two binary64 bit patterns.
    pub fire_socket: Option<(u64, u64)>,
    /// Kept as it was read; two binary64 bit patterns.
    pub eb_platform_pos: Option<(u64, u64)>,
}

/// What a frame holds.
pub struct FrameView {
    pub id: i16,
    pub bones: Seq<AnmBone>,
    pub fire_socket: Option<(u64, u64)>,
    pub eb_platform_pos: Option<(u64, u64)>,
}

impl View for AnmFrame {
    type V = FrameView;

    open spec fn view(&self) -> FrameView {
        FrameView {
            id: self.id,
            bones: self.bones@,
            fire_socket: self.fire_socket,
            eb_platform_pos: self.eb_platform_pos,
        }
    }
}

/// How much of a bone the frame before already says.
#[derive(Clone, Copy, Debug, PartialEq, Eq, Structural)]
pub enum BoneCloneLevel {
    /// Nothing: the bone is written out.
    NoClone,
    /// All but the sprite-sheet picture, which is written.
    Partial,
    /// All of it.
    Full,
}

/// What the frame behind a reference that may be absent holds.
pub open spec fn frame_of(prev: Option<&AnmFrame>) -> Option<FrameView> {
    match prev {
        Some(p) => Some(p@),
        None => None,
    }
}

/// The bone at place `i` of the frame before, if there is such a frame and
/// it has such a place.
pub open spec fn cross_reference(prev: Option<FrameView>, i: int) -> Option<AnmBone> {
    match prev {
        Some(p) => if 0 <= i < p.bones.len() {
            Some(p.bones[i])
        } else {
            None
        },
        None => None,
    }
}

/// The bone before place `i` among `bones`, if `i` is not the first place.
pub open spec fn intra_reference(bones: Seq<AnmBone>, i: int) -> Option<AnmBone> {
    if 0 < i <= bones.len() {
        Some(bones[i - 1])
    } else {
        None
    }
}

/// How much of `b` the bone `cross` already says.
pub open spec fn clone_level(b: AnmBone, cross: Option<AnmBone>) -> BoneCloneLevel {
    match cross {
        Some(c) => if b.partial_clone(c) {
            if b.frame == c.frame {
                BoneCloneLevel::Full
            } else {
                BoneCloneLevel::Partial
            }
        } else {
            BoneCloneLevel::NoClone
        },
        None => BoneCloneLevel::NoClone,
    }
}

/// The bytes of one bone of a frame: a flag that says whether it repeats
/// `cross`; if it does, a flag that says whether the picture is repeated
/// too, and the picture if not; if it does not, the bone, written after
/// `intra`.
pub open spec fn slot_bytes(b: AnmBone, cross: Option<AnmBone>, intra: Option<AnmBone>) -> Seq<u8> {
    match clone_level(b, cross) {
        BoneCloneLevel::Full => flag(true) + flag(true),
        BoneCloneLevel::Partial => flag(true) + flag(false) + seq![i8_bits(b.frame)],
        BoneCloneLevel::NoClone => flag(false) + b.bytes(intra),
    }
}

/// The bytes of the bones from place `from` on.
pub open spec fn bones_bytes(bones: Seq<AnmBone>, prev: Option<FrameView>, from: int) -> Seq<u8>
    decreases bones.len() - from,
{
    if 0 <= from < bones.len() {
        slot_bytes(bones[from], cross_reference(prev, from), intra_reference(bones, from))
            + bones_bytes(bones, prev, from + 1)
    } else {
        Seq::<u8>::empty()
    }
}

/// The bytes of an optional point: a flag, and the two numbers if it is set.
pub open spec fn point_bytes(p: Option<(u64, u64)>) -> Seq<u8> {
    match p {
        Some((x, y)) => flag(true) + le64(x) + le64(y),
        None => flag(false),
    }
}

/// An optional point off the front of `s`.
pub open spec fn take_point(s: Seq<u8>) -> Taken<Option<(u64, u64)>> {
    match take_flag(s) {
        Err(e) => Err(e),
        Ok((present, s1)) => if present {
            match take_u64(s1) {
                Err(e) => Err(e),
                Ok((x, s2)) => match take_u64(s2) {
                    Err(e) => Err(e),
                    Ok((y, s3)) => Ok((Some((x, y)), s3)),
                },
            }
        } else {
            Ok((None, s1))
        },
    }
}

/// One bone of a frame off the front of `s`. `read` holds the bones of the
/// frame that came before it, `prev` the frame before.
pub open spec fn take_slot(s: Seq<u8>, read: Seq<AnmBone>, prev: Option<FrameView>) -> Taken<
    AnmBone,
> {
    match take_flag(s) {
        Err(e) => Err(e),
        Ok((clone_prev, s1)) => if clone_prev {
            match prev {
                None => Err(AnmReadingError::NoPrevFrameError()),
                Some(p) => if read.len() >= p.bones.len() {
                    Err(AnmReadingError::NoPrevFrameBoneError())
                } else {
                    let prev_bone = p.bones[read.len() as int];
                    match take_flag(s1) {
                        Err(e) => Err(e),
                        Ok((clone_frame, s2)) => if clone_frame {
                            Ok((prev_bone, s2))
                        } else {
                            match take_i8(s2) {
                                Err(e) => Err(e),
                                Ok((frame, s3)) => Ok((AnmBone { frame, ..prev_bone }, s3)),
                            }
                        },
                    }
                },
            }
        } else {
            take_bone(s1, intra_reference(read, read.len() as int))
        },
    }
}

/// `count` more bones off the front of `s`, behind the bones `read`.
pub open spec fn take_bones(s: Seq<u8>, count: nat, read: Seq<AnmBone>, prev: Option<FrameView>)
    -> Taken<Seq<AnmBone>>
    decreases count,
{
    if count == 0 {
        Ok((read, s))
    } else {
        match take_slot(s, read, prev) {
            Err(e) => Err(e),
            Ok((b, rest)) => take_bones(rest, (count - 1) as nat, read.push(b), prev),
        }
    }
}

/// A frame off the front of `s`, with `prev` as the frame before.
pub open spec fn take_frame(s: Seq<u8>, prev: Option<FrameView>) -> Taken<FrameView> {
    match take_i16(s) {
        Err(e) => Err(e),
        Ok((id, s1)) => match take_point(s1) {
            Err(e) => Err(e),
            Ok((fire_socket, s2)) => match take_point(s2) {
                Err(e) => Err(e),
                Ok((eb_platform_pos, s3)) => match take_i16(s3) {
                    Err(e) => Err(e),
                    Ok((bone_count, s4)) => if bone_count < 0 {
                        Err(AnmReadingError::NegativeBoneCountError { bone_count })
                    } else {
                        match take_bones(s4, bone_count as nat, Seq::<AnmBone>::empty(), prev) {
                            Err(e) => Err(e),
                            Ok((bones, s5)) => Ok(
                                (FrameView { id, bones, fire_socket, eb_platform_pos }, s5),
                            ),
                        }
                    },
                },
            },
        },
    }
}

/// The smaller of `n` and the largest `usize`.
pub open spec fn clamped(n: int) -> usize {
    if n > usize::MAX {
        usize::MAX
    } else {
        n as usize
    }
}

/// The smaller of `n` and the largest `u64`.
pub open spec fn clamped64(n: int) -> u64 {
    if n > u64::MAX {
        u64::MAX
    } else {
        n as u64
    }
}

impl FrameView {
    /// The bytes of everything in front of the bones: id, the two points,
    /// the number of bones.
    pub open spec fn head_bytes(self) -> Seq<u8> {
        le16(i16_bits(self.id)) + point_bytes(self.fire_socket) + point_bytes(
            self.eb_platform_pos,
        ) + le16(i16_bits(self.bones.len() as i16))
    }

    /// The bytes of the frame, written after the frame `prev`.
    pub open spec fn bytes(self, prev: Option<FrameView>) -> Seq<u8> {
        self.head_bytes() + bones_bytes(self.bones, prev, 0)
    }

    /// Why the frame cannot be written, if it cannot: it has more bones than
    /// a signed 16-bit count can say.
    pub open spec fn write_error(self) -> Option<AnmWritingError> {
        if self.bones.len() > i16::MAX {
            Some(AnmWritingError::TooManyBonesError { bone_count: self.bones.len() as usize })
        } else {
            None
        }
    }

    /// What writing the frame after `prev` appends: its bytes, or nothing if
    /// it cannot be written.
    pub open spec fn written(self, prev: Option<FrameView>) -> Seq<u8> {
        if self.write_error() is Some {
            Seq::<u8>::empty()
        } else {
            self.bytes(prev)
        }
    }
}

/// Adds two sizes and stops at the largest `u64`.
pub fn add_clamped(a: u64, b: u64) -> (r: u64)
    ensures
        r == clamped64(a + b),
{
    if a > u64::MAX - b {
        u64::MAX
    } else {
        a + b
    }
}

impl AnmFrame {
    /// Reads an optional point.
    fn read_point(reader: &mut ByteReader) -> (r: Result<Option<(u64, u64)>, AnmReadingError>)
        ensures
            read_as(r, final(reader).remaining(), take_point(old(reader).remaining())),
            final(reader).source() == old(reader).source(),
    {
        let present = reader.read_flag()?;
        if present {
            let x = reader.read_u64()?;
            let y = reader.read_u64()?;
            Ok(Some((x, y)))
        } else {
            Ok(None)
        }
    }

    /// Reads one bone of a frame, behind the bones `read`.
    fn read_slot(reader: &mut ByteReader, read: &Vec<AnmBone>, prev_frame: Option<&AnmFrame>) -> (r:
        Result<AnmBone, AnmReadingError>)
        ensures
            read_as(
                r,
                final(reader).remaining(),
                take_slot(old(reader).remaining(), read@, frame_of(prev_frame)),
            ),
            final(reader).source() == old(reader).source(),
    {
        let i = read.len();
        let clone_prev = reader.read_flag()?;
        if clone_prev {
            if let Some(prev_frame) = prev_frame {
                if i >= prev_frame.bones.len() {
                    return Err(AnmReadingError::NoPrevFrameBoneError());
                }
                let prev_bone = &prev_frame.bones[i];
                let clone_frame = reader.read_flag()?;
                let bone = if !clone_frame {
                    let new_frame = reader.read_i8()?;
                    AnmBone { frame: new_frame, ..*prev_bone }
                } else {
                    *prev_bone
                };
                Ok(bone)
            } else {
                Err(AnmReadingError::NoPrevFrameError())
            }
        } else {
            let prev_bone = if i > 0 {
                Some(&read[i - 1])
            } else {
                None
            };
            AnmBone::read(reader, prev_bone)
        }
    }

    /// Reads a frame. `prev_frame` is the frame before it in its animation,
    /// whose bones it may repeat.
    pub fn read(reader: &mut ByteReader, prev_frame: Option<&AnmFrame>) -> (r: Result<
        AnmFrame,
        AnmReadingError,
    >)
        ensures
            match take_frame(old(reader).remaining(), frame_of(prev_frame)) {
                Ok((v, rest)) => r matches Ok(f) && f@ == v && final(reader).remaining() == rest,
                Err(e) => r == Err::<AnmFrame, AnmReadingError>(e),
            },
            final(reader).source() == old(reader).source(),
    {
        let id = reader.read_i16()?;
        let fire_socket = Self::read_point(reader)?;
        let eb_platform_pos = Self::read_point(reader)?;

        let bone_count = reader.read_i16()?;
        if bone_count < 0 {
            return Err(AnmReadingError::NegativeBoneCountError { bone_count });
        }
        let bone_count = bone_count as usize;
        let mut bones: Vec<AnmBone> = Vec::with_capacity(bone_count);
        let ghost prev = frame_of(prev_frame);
        let ghost whole = take_frame(old(reader).remaining(), prev);
        let ghost bones_whole = take_bones(
            reader.remaining(),
            bone_count as nat,
            Seq::<AnmBone>::empty(),
            prev,
        );
        let mut i: usize = 0;
        while i < bone_count
            invariant
                i <= bone_count,
                bones@.len() == i,
                prev == frame_of(prev_frame),
                reader.source() == old(reader).source(),
                whole == take_frame(old(reader).remaining(), prev),
                whole == match bones_whole {
                    Err(e) => Err::<(FrameView, Seq<u8>), AnmReadingError>(e),
                    Ok((all, rest)) => Ok::<(FrameView, Seq<u8>), AnmReadingError>(
                        (FrameView { id, bones: all, fire_socket, eb_platform_pos }, rest),
                    ),
                },
                take_bones(reader.remaining(), (bone_count - i) as nat, bones@, prev)
                    == bones_whole,
            decreases bone_count - i,
        {
            let bone = Self::read_slot(reader, &bones, prev_frame)?;
            bones.push(bone);
            i = i + 1;
        }
        Ok(AnmFrame { id, bones, fire_socket, eb_platform_pos })
    }

    /// Writes an optional point.
    fn write_point(out: &mut Vec<u8>, point: Option<(u64, u64)>)
        ensures
            final(out)@ == old(out)@ + point_bytes(point),
    {
        if let Some(p) = point {
            put_flag(out, true);
            put_u64(out, p.0);
            put_u64(out, p.1);
        } else {
            put_flag(out, false);
        }
        assert(out@ =~= old(out)@ + point_bytes(point));
    }

    /// How much of the bone at place `i` the frame before already says.
    fn bone_clone_level(&self, i: usize, prev_frame: Option<&AnmFrame>) -> (r: BoneCloneLevel)
        requires
            i < self.bones@.len(),
        ensures
            r == clone_level(self.bones@[i as int], cross_reference(frame_of(prev_frame), i as int)),
    {
        let bone = &self.bones[i];
        match prev_frame {
            Some(f) => if i < f.bones.len() {
                let prev_bone = &f.bones[i];
                if bone.is_partial_clone_of(prev_bone) {
                    if bone.frame == prev_bone.frame {
                        BoneCloneLevel::Full
                    } else {
                        BoneCloneLevel::Partial
                    }
                } else {
                    BoneCloneLevel::NoClone
                }
            } else {
                BoneCloneLevel::NoClone
            },
            None => BoneCloneLevel::NoClone,
        }
    }

    /// Writes the bone at place `i`.
    fn write_slot(&self, out: &mut Vec<u8>, i: usize, prev_frame: Option<&AnmFrame>)
        requires
            i < self.bones@.len(),
        ensures
            final(out)@ == old(out)@ + slot_bytes(
                self.bones@[i as int],
                cross_reference(frame_of(prev_frame), i as int),
                intra_reference(self.bones@, i as int),
            ),
    {
        let bone = &self.bones[i];
        match self.bone_clone_level(i, prev_frame) {
            BoneCloneLevel::Full => {
                put_flag(out, true);
                put_flag(out, true);
            },
            BoneCloneLevel::Partial => {
                put_flag(out, true);
                put_flag(out, false);
                put_i8(out, bone.frame);
            },
            BoneCloneLevel::NoClone => {
                put_flag(out, false);
                let prev_bone = if i > 0 {
                    Some(&self.bones[i - 1])
                } else {
                    None
                };
                bone.write(out, prev_bone);
            },
        }
        assert(out@ =~= old(out)@ + slot_bytes(
            self.bones@[i as int],
            cross_reference(frame_of(prev_frame), i as int),
            intra_reference(self.bones@, i as int),
        ));
    }

    /// Writes the frame. `prev_frame` is the frame before it in its
    /// animation. A frame with more than 32767 bones is not written at all.
    pub fn write(&self, out: &mut Vec<u8>, prev_frame: Option<&AnmFrame>) -> (r: Result<
        (),
        AnmWritingError,
    >)
        ensures
            r == write_result(self@.write_error()),
            final(out)@ == old(out)@ + self@.written(frame_of(prev_frame)),
    {
        let bone_count = self.bones.len();
        if bone_count > 32767 {
            assert(out@ =~= old(out)@ + self@.written(frame_of(prev_frame)));
            return Err(AnmWritingError::TooManyBonesError { bone_count });
        }
        put_i16(out, self.id);
        Self::write_point(out, self.fire_socket);
        Self::write_point(out, self.eb_platform_pos);
        put_i16(out, bone_count as i16);
        assert(out@ =~= old(out)@ + self@.head_bytes());

        let ghost prev = frame_of(prev_frame);
        let ghost target = old(out)@ + self@.bytes(prev);
        assert(out@ + bones_bytes(self.bones@, prev, 0) == target) by {
            append_assoc(old(out)@, self@.head_bytes(), bones_bytes(self.bones@, prev, 0));
        }
        let mut i: usize = 0;
        while i < bone_count
            invariant
                i <= bone_count,
                bone_count == self.bones@.len(),
                prev == frame_of(prev_frame),
                out@ + bones_bytes(self.bones@, prev, i as int) == target,
            decreases bone_count - i,
        {
            let ghost before = out@;
            self.write_slot(out, i, prev_frame);
            proof {
                append_assoc(
                    before,
                    slot_bytes(
                        self.bones@[i as int],
                        cross_reference(prev, i as int),
                        intra_reference(self.bones@, i as int),
                    ),
                    bones_bytes(self.bones@, prev, i + 1),
                );
            }
            i = i + 1;
        }
        assert(out@ =~= out@ + bones_bytes(self.bones@, prev, i as int));
        Ok(())
    }

    /// How many bytes the bone at place `i` takes.
    fn slot_byte_size(&self, i: usize, prev_frame: Option<&AnmFrame>) -> (n: usize)
        requires
            i < self.bones@.len(),
        ensures
            n == slot_bytes(
                self.bones@[i as int],
                cross_reference(frame_of(prev_frame), i as int),
                intra_reference(self.bones@, i as int),
            ).len(),
            2 <= n <= 34,
    {
        let mut result: usize = 0;
        result += 1;  // prev frame clone indicator
        match self.bone_clone_level(i, prev_frame) {
            BoneCloneLevel::Full => {
                result += 1;  // full copy indicator
            },
            BoneCloneLevel::Partial => {
                result += 1;  // full copy indicator
                result += 1;  // frame override
            },
            BoneCloneLevel::NoClone => {
                let prev_bone = if i > 0 {
                    Some(&self.bones[i - 1])
                } else {
                    None
                };
                result += self.bones[i].get_byte_size(prev_bone);
            },
        }
        result
    }

    /// How many bytes the frame takes when it is written after `prev_frame`,
    /// whether or not it can be written; the largest `u64` if that is less.
    pub fn get_byte_size(&self, prev_frame: Option<&AnmFrame>) -> (n: u64)
        ensures
            n == clamped64(self@.bytes(frame_of(prev_frame)).len() as int),
    {
        let mut result: u64 = 0;
        result += 2;  // id

        result += 1;  // fire socket indicator
        if self.fire_socket.is_some() {
            result += 8 * 2;
        }
        result += 1;  // eb platform indicator
        if self.eb_platform_pos.is_some() {
            result += 8 * 2;
        }

        result += 2;  // bone count
        assert(result == self@.head_bytes().len());

        let ghost prev = frame_of(prev_frame);
        let ghost total = self@.bytes(prev).len() as int;
        let bone_count = self.bones.len();
        let mut i: usize = 0;
        while i < bone_count
            invariant
                i <= bone_count,
                bone_count == self.bones@.len(),
                prev == frame_of(prev_frame),
                total == self@.bytes(prev).len(),
                bones_bytes(self.bones@, prev, i as int).len() <= total,
                result == clamped64(total - bones_bytes(self.bones@, prev, i as int).len()),
            decreases bone_count - i,
        {
            let size = self.slot_byte_size(i, prev_frame);
            result = add_clamped(result, size as u64);
            i = i + 1;
        }
        result
    }
}

/// Whether the bones `read` are what reading gives for the bones `written`,
/// place by place.
pub open spec fn bones_read_back(written: Seq<AnmBone>, read: Seq<AnmBone>) -> bool {
    &&& read.len() == written.len()
    &&& forall|i: int| 0 <= i < written.len() ==> bone_read_back(written[i], #[trigger] read[i])
}

/// Whether the frame `read` is what reading gives for the frame `written`:
/// the same id and points, and bones that are what reading gives for its
/// bones.
pub open spec fn frame_read_back(written: FrameView, read: FrameView) -> bool {
    &&& read.id == written.id
    &&& read.fire_socket == written.fire_socket
    &&& read.eb_platform_pos == written.eb_platform_pos
    &&& bones_read_back(written.bones, read.bones)
}

/// Whether the frame before of the reader is what reading gives for the
/// frame before of the writer, or both are absent.
pub open spec fn prev_frame_read_back(written: Option<FrameView>, read: Option<FrameView>) -> bool {
    match (written, read) {
        (None, None) => true,
        (Some(w), Some(r)) => frame_read_back(w, r),
        _ => false,
    }
}

/// A bone that equals `c` in everything is read back as whatever `c` is read
/// back as, whichever picture is put in its place.
proof fn repeated_bone_is_read_back(b: AnmBone, c: AnmBone, c_read: AnmBone)
    requires
        b.partial_clone(c),
        bone_read_back(c, c_read),
    ensures
        bone_read_back(b, c_read),
        bone_read_back(b, AnmBone { frame: b.frame, ..c_read }),
{
    zeros_are_stored_alike();
}

/// An optional point that was written is read back.
proof fn point_round_trip(p: Option<(u64, u64)>, rest: Seq<u8>)
    ensures
        take_point(point_bytes(p) + rest) == Ok::<(Option<(u64, u64)>, Seq<u8>), AnmReadingError>(
            (p, rest),
        ),
{
    match p {
        Some((x, y)) => {
            let s2 = le64(y) + rest;
            let s1 = le64(x) + s2;
            assert(point_bytes(p) + rest == flag(true) + s1) by {
                append_assoc(flag(true) + le64(x), le64(y), rest);
                append_assoc(flag(true), le64(x), s2);
            }
            flag_round_trip(true, s1);
            u64_round_trip(x, s2);
            u64_round_trip(y, rest);
        },
        None => {
            flag_round_trip(false, rest);
        },
    }
}

/// The bone at place `i` that was written is read back, when the bones
/// before it and the frame before were.
proof fn slot_round_trip(
    bones: Seq<AnmBone>,
    i: int,
    prev: Option<FrameView>,
    prev_read: Option<FrameView>,
    read: Seq<AnmBone>,
    rest: Seq<u8>,
)
    requires
        0 <= i < bones.len(),
        bones_read_back(bones.take(i), read),
        prev_frame_read_back(prev, prev_read),
    ensures
        take_slot(
            slot_bytes(bones[i], cross_reference(prev, i), intra_reference(bones, i)) + rest,
            read,
            prev_read,
        ) matches Ok((r, after)) && after == rest && bone_read_back(bones[i], r),
{
    let b = bones[i];
    let cross = cross_reference(prev, i);
    let intra = intra_reference(bones, i);
    match clone_level(b, cross) {
        BoneCloneLevel::Full => {
            assert(slot_bytes(b, cross, intra) + rest == flag(true) + (flag(true) + rest)) by {
                append_assoc(flag(true), flag(true), rest);
            }
            flag_round_trip(true, flag(true) + rest);
            flag_round_trip(true, rest);
            repeated_bone_is_read_back(b, prev->0.bones[i], prev_read->0.bones[i]);
        },
        BoneCloneLevel::Partial => {
            let s2 = seq![i8_bits(b.frame)] + rest;
            let s1 = flag(false) + s2;
            assert(slot_bytes(b, cross, intra) + rest == flag(true) + s1) by {
                append_assoc(flag(true) + flag(false), seq![i8_bits(b.frame)], rest);
                append_assoc(flag(true), flag(false), s2);
            }
            flag_round_trip(true, s1);
            flag_round_trip(false, s2);
            i8_round_trip(b.frame, rest);
            repeated_bone_is_read_back(b, prev->0.bones[i], prev_read->0.bones[i]);
        },
        BoneCloneLevel::NoClone => {
            let s1 = b.bytes(intra) + rest;
            assert(slot_bytes(b, cross, intra) + rest == flag(false) + s1) by {
                append_assoc(flag(false), b.bytes(intra), rest);
            }
            flag_round_trip(false, s1);
            let intra_read = intra_reference(read, read.len() as int);
            assert(reference_read_back(intra, intra_read)) by {
                if i > 0 {
                    assert(bones.take(i)[i - 1] == bones[i - 1]);
                }
            }
            bone_round_trip(b, intra, intra_read, rest);
        },
    }
}

/// The bones from place `from` on that were written are read back, when the
/// bones before them and the frame before were.
proof fn bones_round_trip(
    bones: Seq<AnmBone>,
    from: int,
    prev: Option<FrameView>,
    prev_read: Option<FrameView>,
    read: Seq<AnmBone>,
    rest: Seq<u8>,
)
    requires
        0 <= from <= bones.len(),
        bones_read_back(bones.take(from), read),
        prev_frame_read_back(prev, prev_read),
    ensures
        take_bones(
            bones_bytes(bones, prev, from) + rest,
            (bones.len() - from) as nat,
            read,
            prev_read,
        ) matches Ok((all, after)) && after == rest && bones_read_back(bones, all),
    decreases bones.len() - from,
{
    if from == bones.len() {
        assert(bones_bytes(bones, prev, from) + rest =~= rest);
        assert(bones.take(from) =~= bones);
    } else {
        let slot = slot_bytes(
            bones[from],
            cross_reference(prev, from),
            intra_reference(bones, from),
        );
        let tail = bones_bytes(bones, prev, from + 1) + rest;
        assert(bones_bytes(bones, prev, from) + rest == slot + tail) by {
            append_assoc(slot, bones_bytes(bones, prev, from + 1), rest);
        }
        slot_round_trip(bones, from, prev, prev_read, read, tail);
        let r = take_slot(slot + tail, read, prev_read)->Ok_0.0;
        assert(bones_read_back(bones.take(from + 1), read.push(r))) by {
            assert forall|j: int| 0 <= j < from + 1 implies bone_read_back(
                bones.take(from + 1)[j],
                #[trigger] read.push(r)[j],
            ) by {
                if j < from {
                    assert(bones.take(from)[j] == bones[j]);
                    assert(read.push(r)[j] == read[j]);
                }
            }
        }
        bones_round_trip(bones, from + 1, prev, prev_read, read.push(r), rest);
    }
}

/// A frame that was written after `prev` is read back, when the reader's
/// frame before is what `prev` was read back as: nothing in it but the sign
/// of a zero and the step of an opacity can differ, and the bytes behind the
/// frame are left.
pub proof fn frame_round_trip(
    f: FrameView,
    prev: Option<FrameView>,
    prev_read: Option<FrameView>,
    rest: Seq<u8>,
)
    requires
        f.write_error() is None,
        prev_frame_read_back(prev, prev_read),
    ensures
        take_frame(f.bytes(prev) + rest, prev_read) matches Ok((read, after)) && after == rest
            && frame_read_back(f, read),
{
    let id = le16(i16_bits(f.id));
    let fire = point_bytes(f.fire_socket);
    let eb = point_bytes(f.eb_platform_pos);
    let count = le16(i16_bits(f.bones.len() as i16));
    let s4 = bones_bytes(f.bones, prev, 0) + rest;
    let s3 = count + s4;
    let s2 = eb + s3;
    let s1 = fire + s2;
    assert(f.bytes(prev) + rest == id + s1) by {
        append_assoc(id + fire + eb + count, bones_bytes(f.bones, prev, 0), rest);
        append_assoc(id + fire + eb, count, s4);
        append_assoc(id + fire, eb, s3);
        append_assoc(id, fire, s2);
    }
    i16_round_trip(f.id, s1);
    point_round_trip(f.fire_socket, s2);
    point_round_trip(f.eb_platform_pos, s3);
    i16_round_trip(f.bones.len() as i16, s4);
    assert(f.bones.take(0) =~= Seq::<AnmBone>::empty());
    bones_round_trip(f.bones, 0, prev, prev_read, Seq::<AnmBone>::empty(), rest);
}

/// A bone that repeats the bone at its place in the frame before takes two
/// bytes, fewer than it takes written out after any bone, and is read back
/// as that bone.
pub proof fn repeated_bone_is_shorter(
    b: AnmBone,
    prev: FrameView,
    read: Seq<AnmBone>,
    intra: Option<AnmBone>,
    rest: Seq<u8>,
)
    requires
        read.len() < prev.bones.len(),
        b.partial_clone(prev.bones[read.len() as int]),
    ensures
        slot_bytes(b, Some(prev.bones[read.len() as int]), intra).len() == 2,
        2 < (flag(false) + b.bytes(intra)).len(),
        take_slot(slot_bytes(b, Some(prev.bones[read.len() as int]), intra) + rest, read, Some(prev))
            == Ok::<(AnmBone, Seq<u8>), AnmReadingError>((prev.bones[read.len() as int], rest)),
{
    let c = prev.bones[read.len() as int];
    bone_takes_6_to_33_bytes(b, intra);
    assert(slot_bytes(b, Some(c), intra) + rest == flag(true) + (flag(true) + rest)) by {
        append_assoc(flag(true), flag(true), rest);
    }
    flag_round_trip(true, flag(true) + rest);
    flag_round_trip(true, rest);
}

/// The writer lets a bone repeat the bone of the frame before only where
/// the picture is the same too: it never writes a repeated bone with a
/// picture of its own, though the reader takes one.
pub proof fn a_repeated_bone_is_written_without_a_picture(b: AnmBone, cross: Option<AnmBone>)
    ensures
        clone_level(b, cross) != BoneCloneLevel::Partial,
{
}

/// In the first frame of an animation no bone can repeat a bone of the
/// frame before: bytes that ask for it cannot be read.
pub proof fn first_frame_cannot_repeat(s: Seq<u8>, read: Seq<AnmBone>)
    requires
        s.len() >= 1,
        s[0] != 0,
    ensures
        take_slot(s, read, None) == Err::<(AnmBone, Seq<u8>), AnmReadingError>(
            AnmReadingError::NoPrevFrameError(),
        ),
        forall|count: nat|
            count > 0 ==> #[trigger] take_bones(s, count, read, None) == Err::<
                (Seq<AnmBone>, Seq<u8>),
                AnmReadingError,
            >(AnmReadingError::NoPrevFrameError()),
{
}

/// Taking bones leaves no more bytes than there were.
pub proof fn bones_leave_no_more(
    s: Seq<u8>,
    count: nat,
    read: Seq<AnmBone>,
    prev: Option<FrameView>,
)
    ensures
        no_longer(take_bones(s, count, read, prev), s),
    decreases count,
{
    if count > 0 {
        bone_leaves_no_more(s.skip(1), intra_reference(read, read.len() as int));
        match take_slot(s, read, prev) {
            Ok((b, rest)) => {
                bones_leave_no_more(rest, (count - 1) as nat, read.push(b), prev);
            },
            Err(e) => {},
        }
    }
}

/// Taking a frame leaves no more bytes than there were.
pub proof fn frame_leaves_no_more(s: Seq<u8>, prev: Option<FrameView>)
    ensures
        no_longer(take_frame(s, prev), s),
{
    match take_i16(s) {
        Ok((id, s1)) => match take_point(s1) {
            Ok((fire_socket, s2)) => match take_point(s2) {
                Ok((eb_platform_pos, s3)) => match take_i16(s3) {
                    Ok((bone_count, s4)) => {
                        if bone_count >= 0 {
                            bones_leave_no_more(
                                s4,
                                bone_count as nat,
                                Seq::<AnmBone>::empty(),
                                prev,
                            );
                        }
                    },
                    Err(e) => {},
                },
                Err(e) => {},
            },
            Err(e) => {},
        },
        Err(e) => {},
    }
}

} // verus!

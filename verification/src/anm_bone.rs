//! One bone: a sprite with a place, a transform and an opacity.
//!
//! A bone is written after a comparison bone, if there is one. Where its
//! transform equals that bone's, one flag stands for the four numbers; the
//! same for its position. A transform that is written takes the shortest of
//! three shapes.

use crate::errors::AnmReadingError;
use crate::ieee::{
    binary32_eq, binary32_neg, binary64_eq, eq32, eq64, neg32, same32, ONE32, ONE64, ZERO32,
};
use crate::opacity::{
    alpha_of, alpha_to_opacity, one_is_stored_as_one, opacity_of, opacity_to_alpha, stored_opacity,
};
use crate::wire::{
    append_assoc, flag, flag_round_trip, i16_bits, i16_round_trip, i8_bits, i8_round_trip, le16, le32, put_flag,
    no_longer, put_i16, put_i8, put_u32, put_u8, read_as, take_flag, take_i16, take_i8, take_u32, take_u8,
    u32_round_trip, u8_round_trip, ByteReader, Taken,
};
use vstd::prelude::*;

verus! {

/// A sprite to be positioned in the world.
///
/// The transform is a two-by-two matrix, kept as two scales and two skews.
/// The six numbers of transform and position are binary32 bit patterns, the
/// opacity is a binary64 bit pattern.
#[derive(Clone, Copy, Debug, PartialEq, Eq, Structural)]
pub struct AnmBone {
    pub id: i16,
    pub scale_x: u32,
    pub rotate_skew0: u32,
    pub rotate_skew1: u32,
    pub scale_y: u32,
    pub x: u32,
    pub y: u32,
    pub opacity: u64,
    /// Which picture of the sprite sheet is shown; 1 unless said otherwise.
    pub frame: i8,
}

/// The four numbers of a transform: `scale_x`, `rotate_skew0`,
/// `rotate_skew1`, `scale_y`.
pub type Transform = (u32, u32, u32, u32);

/// The shape in which a transform is written when it is not copied.
#[derive(Clone, Copy, Debug, PartialEq, Eq, Structural)]
pub enum TransformShape {
    /// Scales of 1 and skews of 0: no number is written.
    Identity,
    /// `scale_y` is `-scale_x` and the skews are equal: `scale_x` and
    /// `rotate_skew0` are written.
    Symmetric,
    /// All four numbers are written.
    General,
}

/// The bone behind a reference that may be absent.
pub open spec fn bone_of(prev: Option<&AnmBone>) -> Option<AnmBone> {
    match prev {
        Some(p) => Some(*p),
        None => None,
    }
}

/// The shape that the transform `t` is written in.
pub open spec fn shape_of(t: Transform) -> TransformShape {
    if eq32(t.0, ONE32) && eq32(t.1, ZERO32) && eq32(t.2, ZERO32) && eq32(t.3, ONE32) {
        TransformShape::Identity
    } else if eq32(t.3, neg32(t.0)) && eq32(t.1, t.2) {
        TransformShape::Symmetric
    } else {
        TransformShape::General
    }
}

/// The bytes of a transform that is not copied: which shape, then the
/// numbers that the shape does not imply.
pub open spec fn shaped_bytes(t: Transform) -> Seq<u8> {
    match shape_of(t) {
        TransformShape::Identity => flag(true) + flag(true),
        TransformShape::Symmetric => flag(true) + flag(false) + le32(t.0) + le32(t.1),
        TransformShape::General => flag(false) + le32(t.0) + le32(t.1) + le32(t.2) + le32(t.3),
    }
}

/// A transform that is not copied, off the front of `s`.
pub open spec fn take_shaped(s: Seq<u8>) -> Taken<Transform> {
    match take_flag(s) {
        Err(e) => Err(e),
        Ok((special, s1)) => if special {
            match take_flag(s1) {
                Err(e) => Err(e),
                Ok((identity, s2)) => if identity {
                    Ok(((ONE32, ZERO32, ZERO32, ONE32), s2))
                } else {
                    match take_u32(s2) {
                        Err(e) => Err(e),
                        Ok((scale_x, s3)) => match take_u32(s3) {
                            Err(e) => Err(e),
                            Ok((skew, s4)) => Ok(((scale_x, skew, skew, neg32(scale_x)), s4)),
                        },
                    }
                },
            }
        } else {
            match take_u32(s1) {
                Err(e) => Err(e),
                Ok((scale_x, s2)) => match take_u32(s2) {
                    Err(e) => Err(e),
                    Ok((skew0, s3)) => match take_u32(s3) {
                        Err(e) => Err(e),
                        Ok((skew1, s4)) => match take_u32(s4) {
                            Err(e) => Err(e),
                            Ok((scale_y, s5)) => Ok(((scale_x, skew0, skew1, scale_y), s5)),
                        },
                    },
                },
            }
        },
    }
}

/// A transform off the front of `s`: a flag that says whether it is that of
/// `prev`, and if not, its shape and numbers.
pub open spec fn take_transform(s: Seq<u8>, prev: Option<AnmBone>) -> Taken<Transform> {
    match take_flag(s) {
        Err(e) => Err(e),
        Ok((copy, s1)) => if copy {
            match prev {
                Some(p) => Ok(((p.scale_x, p.rotate_skew0, p.rotate_skew1, p.scale_y), s1)),
                None => Err(AnmReadingError::NoPrevBoneTransformError()),
            }
        } else {
            take_shaped(s1)
        },
    }
}

/// A position off the front of `s`: a flag that says whether it is that of
/// `prev`, and if not, `x` and `y`.
pub open spec fn take_position(s: Seq<u8>, prev: Option<AnmBone>) -> Taken<(u32, u32)> {
    match take_flag(s) {
        Err(e) => Err(e),
        Ok((copy, s1)) => if copy {
            match prev {
                Some(p) => Ok(((p.x, p.y), s1)),
                None => Err(AnmReadingError::NoPrevBonePositionError()),
            }
        } else {
            match take_u32(s1) {
                Err(e) => Err(e),
                Ok((x, s2)) => match take_u32(s2) {
                    Err(e) => Err(e),
                    Ok((y, s3)) => Ok(((x, y), s3)),
                },
            }
        },
    }
}

/// The sprite-sheet picture off the front of `s`: a flag, and the number if
/// the flag is set, 1 if it is clear.
pub open spec fn take_picture(s: Seq<u8>) -> Taken<i8> {
    match take_flag(s) {
        Err(e) => Err(e),
        Ok((has_frame, s1)) => if has_frame {
            take_i8(s1)
        } else {
            Ok((1i8, s1))
        },
    }
}

/// The opacity off the front of `s`: 1 for an opaque bone, which has no
/// byte, and else what the byte stands for.
pub open spec fn take_opacity(s: Seq<u8>, opaque: bool) -> Taken<u64> {
    if opaque {
        Ok((ONE64, s))
    } else {
        match take_u8(s) {
            Err(e) => Err(e),
            Ok((alpha, s1)) => Ok((opacity_of(alpha), s1)),
        }
    }
}

/// A bone off the front of `s`, with `prev` as the bone to copy from.
pub open spec fn take_bone(s: Seq<u8>, prev: Option<AnmBone>) -> Taken<AnmBone> {
    match take_i16(s) {
        Err(e) => Err(e),
        Ok((id, s1)) => match take_flag(s1) {
            Err(e) => Err(e),
            Ok((opaque, s2)) => match take_transform(s2, prev) {
                Err(e) => Err(e),
                Ok((t, s3)) => match take_position(s3, prev) {
                    Err(e) => Err(e),
                    Ok((p, s4)) => match take_picture(s4) {
                        Err(e) => Err(e),
                        Ok((frame, s5)) => match take_opacity(s5, opaque) {
                            Err(e) => Err(e),
                            Ok((opacity, s6)) => Ok(
                                (
                                    AnmBone {
                                        id,
                                        scale_x: t.0,
                                        rotate_skew0: t.1,
                                        rotate_skew1: t.2,
                                        scale_y: t.3,
                                        x: p.0,
                                        y: p.1,
                                        opacity,
                                        frame,
                                    },
                                    s6,
                                ),
                            ),
                        },
                    },
                },
            },
        },
    }
}

impl AnmBone {
    /// The four numbers of the transform.
    pub open spec fn transform(self) -> Transform {
        (self.scale_x, self.rotate_skew0, self.rotate_skew1, self.scale_y)
    }

    /// Whether the four numbers of the transform equal those of `other`.
    pub open spec fn same_transform(self, other: AnmBone) -> bool {
        &&& eq32(self.scale_x, other.scale_x)
        &&& eq32(self.rotate_skew0, other.rotate_skew0)
        &&& eq32(self.rotate_skew1, other.rotate_skew1)
        &&& eq32(self.scale_y, other.scale_y)
    }

    /// Whether `x` and `y` equal those of `other`.
    pub open spec fn same_position(self, other: AnmBone) -> bool {
        eq32(self.x, other.x) && eq32(self.y, other.y)
    }

    /// Whether everything equals `other`: transform, position, id, picture
    /// and opacity.
    pub open spec fn partial_clone(self, other: AnmBone) -> bool {
        &&& self.same_transform(other)
        &&& self.same_position(other)
        &&& self.id == other.id
        &&& self.frame == other.frame
        &&& eq64(self.opacity, other.opacity)
    }

    /// Whether the transform is written as a copy of that of `prev`.
    pub open spec fn copies_transform(self, prev: Option<AnmBone>) -> bool {
        prev matches Some(p) && self.same_transform(p)
    }

    /// Whether the position is written as a copy of that of `prev`.
    pub open spec fn copies_position(self, prev: Option<AnmBone>) -> bool {
        prev matches Some(p) && self.same_position(p)
    }

    /// The bytes of the transform, written after `prev`.
    pub open spec fn transform_bytes(self, prev: Option<AnmBone>) -> Seq<u8> {
        if self.copies_transform(prev) {
            flag(true)
        } else {
            flag(false) + shaped_bytes(self.transform())
        }
    }

    /// The bytes of the position, written after `prev`.
    pub open spec fn position_bytes(self, prev: Option<AnmBone>) -> Seq<u8> {
        if self.copies_position(prev) {
            flag(true)
        } else {
            flag(false) + le32(self.x) + le32(self.y)
        }
    }

    /// The bytes of the sprite-sheet picture.
    pub open spec fn picture_bytes(self) -> Seq<u8> {
        if self.frame == 1 {
            flag(false)
        } else {
            flag(true) + seq![i8_bits(self.frame)]
        }
    }

    /// The byte of the opacity; none where the bone is opaque.
    pub open spec fn opacity_bytes(self) -> Seq<u8> {
        if self.opacity == ONE64 {
            Seq::<u8>::empty()
        } else {
            seq![alpha_of(self.opacity)]
        }
    }

    /// The bytes of the bone, written after `prev`: id, whether it is opaque,
    /// transform, position, picture, opacity.
    pub open spec fn bytes(self, prev: Option<AnmBone>) -> Seq<u8> {
        le16(i16_bits(self.id)) + flag(self.opacity == ONE64) + self.transform_bytes(prev)
            + self.position_bytes(prev) + self.picture_bytes() + self.opacity_bytes()
    }

    /// Whether the transform equals that of `other`, number by number.
    pub fn has_same_transform_as(&self, other: &AnmBone) -> (r: bool)
        ensures
            r == self.same_transform(*other),
    {
        binary32_eq(self.scale_x, other.scale_x) && binary32_eq(
            self.rotate_skew0,
            other.rotate_skew0,
        ) && binary32_eq(self.rotate_skew1, other.rotate_skew1) && binary32_eq(
            self.scale_y,
            other.scale_y,
        )
    }

    /// Whether the position equals that of `other`.
    pub fn has_same_position_as(&self, other: &AnmBone) -> (r: bool)
        ensures
            r == self.same_position(*other),
    {
        binary32_eq(self.x, other.x) && binary32_eq(self.y, other.y)
    }

    /// Whether a bone that repeats `other` is this bone: transform, position,
    /// id, picture and opacity are all equal.
    pub fn is_partial_clone_of(&self, other: &AnmBone) -> (r: bool)
        ensures
            r == self.partial_clone(*other),
    {
        self.has_same_transform_as(other) && self.has_same_position_as(other) && self.id
            == other.id && self.frame == other.frame && binary64_eq(self.opacity, other.opacity)
    }

    /// Whether the transform changes nothing: scales of 1 and skews of 0.
    pub fn is_identity(&self) -> (r: bool)
        ensures
            r == (shape_of(self.transform()) == TransformShape::Identity),
    {
        binary32_eq(self.scale_x, ONE32) && binary32_eq(self.rotate_skew0, ZERO32) && binary32_eq(
            self.rotate_skew1,
            ZERO32,
        ) && binary32_eq(self.scale_y, ONE32)
    }

    /// Whether `scale_y` is `-scale_x` and the two skews are equal.
    pub fn is_symmetric(&self) -> (r: bool)
        ensures
            r == (eq32(self.scale_y, neg32(self.scale_x)) && eq32(
                self.rotate_skew0,
                self.rotate_skew1,
            )),
    {
        binary32_eq(self.scale_y, binary32_neg(self.scale_x)) && binary32_eq(
            self.rotate_skew0,
            self.rotate_skew1,
        )
    }

    /// The shape in which the transform is written when it is not copied.
    pub fn transform_shape(&self) -> (r: TransformShape)
        ensures
            r == shape_of(self.transform()),
    {
        if self.is_identity() {
            TransformShape::Identity
        } else if self.is_symmetric() {
            TransformShape::Symmetric
        } else {
            TransformShape::General
        }
    }

    /// Reads a transform that is not copied: its shape, then its numbers.
    fn read_shaped(reader: &mut ByteReader) -> (r: Result<Transform, AnmReadingError>)
        ensures
            read_as(r, final(reader).remaining(), take_shaped(old(reader).remaining())),
            final(reader).source() == old(reader).source(),
    {
        let mut identity = false;
        let mut symmetric = false;

        let special_transform = reader.read_flag()?;
        if special_transform {
            identity = reader.read_flag()?;
            symmetric = !identity;
        }
        if identity {
            Ok((ONE32, ZERO32, ZERO32, ONE32))
        } else {
            let scale_x = reader.read_u32()?;
            let rotate_skew0 = reader.read_u32()?;
            if symmetric {
                Ok((scale_x, rotate_skew0, rotate_skew0, binary32_neg(scale_x)))
            } else {
                let rotate_skew1 = reader.read_u32()?;
                let scale_y = reader.read_u32()?;
                Ok((scale_x, rotate_skew0, rotate_skew1, scale_y))
            }
        }
    }

    /// Reads a transform, copied from `prev_bone` or written out.
    fn read_transform(reader: &mut ByteReader, prev_bone: Option<&AnmBone>) -> (r: Result<
        Transform,
        AnmReadingError,
    >)
        ensures
            read_as(
                r,
                final(reader).remaining(),
                take_transform(old(reader).remaining(), bone_of(prev_bone)),
            ),
            final(reader).source() == old(reader).source(),
    {
        let copy_transform = reader.read_flag()?;
        if copy_transform {
            if let Some(prev) = prev_bone {
                Ok((prev.scale_x, prev.rotate_skew0, prev.rotate_skew1, prev.scale_y))
            } else {
                Err(AnmReadingError::NoPrevBoneTransformError())
            }
        } else {
            Self::read_shaped(reader)
        }
    }

    /// Reads a position, copied from `prev_bone` or written out.
    fn read_position(reader: &mut ByteReader, prev_bone: Option<&AnmBone>) -> (r: Result<
        (u32, u32),
        AnmReadingError,
    >)
        ensures
            read_as(
                r,
                final(reader).remaining(),
                take_position(old(reader).remaining(), bone_of(prev_bone)),
            ),
            final(reader).source() == old(reader).source(),
    {
        let copy_position = reader.read_flag()?;
        if copy_position {
            if let Some(prev) = prev_bone {
                Ok((prev.x, prev.y))
            } else {
                Err(AnmReadingError::NoPrevBonePositionError())
            }
        } else {
            let x = reader.read_u32()?;
            let y = reader.read_u32()?;
            Ok((x, y))
        }
    }

    /// Reads the sprite-sheet picture.
    fn read_picture(reader: &mut ByteReader) -> (r: Result<i8, AnmReadingError>)
        ensures
            read_as(r, final(reader).remaining(), take_picture(old(reader).remaining())),
            final(reader).source() == old(reader).source(),
    {
        let mut frame = 1i8;
        let has_frame = reader.read_flag()?;
        if has_frame {
            frame = reader.read_i8()?;
        }
        Ok(frame)
    }

    /// Reads the opacity of a bone that is `opaque` or not.
    fn read_opacity(reader: &mut ByteReader, opaque: bool) -> (r: Result<u64, AnmReadingError>)
        ensures
            read_as(r, final(reader).remaining(), take_opacity(old(reader).remaining(), opaque)),
            final(reader).source() == old(reader).source(),
    {
        if !opaque {
            let alpha = reader.read_u8()?;
            Ok(alpha_to_opacity(alpha))
        } else {
            Ok(ONE64)
        }
    }

    /// Reads a bone. `prev_bone` is the bone that it may copy its transform
    /// and its position from.
    pub fn read(reader: &mut ByteReader, prev_bone: Option<&AnmBone>) -> (r: Result<
        AnmBone,
        AnmReadingError,
    >)
        ensures
            read_as(
                r,
                final(reader).remaining(),
                take_bone(old(reader).remaining(), bone_of(prev_bone)),
            ),
            final(reader).source() == old(reader).source(),
    {
        let id = reader.read_i16()?;
        let opaque = reader.read_flag()?;
        let (scale_x, rotate_skew0, rotate_skew1, scale_y) = Self::read_transform(
            reader,
            prev_bone,
        )?;
        let (x, y) = Self::read_position(reader, prev_bone)?;
        let frame = Self::read_picture(reader)?;
        let opacity = Self::read_opacity(reader, opaque)?;
        Ok(AnmBone { id, scale_x, rotate_skew0, rotate_skew1, scale_y, x, y, opacity, frame })
    }

    /// Writes the transform, as a copy of that of `prev_bone` or in its
    /// shape.
    fn write_transform(&self, out: &mut Vec<u8>, prev_bone: Option<&AnmBone>)
        ensures
            final(out)@ == old(out)@ + self.transform_bytes(bone_of(prev_bone)),
    {
        let copy_transform = if let Some(prev) = prev_bone {
            self.has_same_transform_as(prev)
        } else {
            false
        };
        if copy_transform {
            put_flag(out, true);
        } else {
            put_flag(out, false);
            match self.transform_shape() {
                TransformShape::Identity => {
                    put_flag(out, true);
                    put_flag(out, true);
                },
                TransformShape::Symmetric => {
                    put_flag(out, true);
                    put_flag(out, false);
                    put_u32(out, self.scale_x);
                    put_u32(out, self.rotate_skew0);
                },
                TransformShape::General => {
                    put_flag(out, false);
                    put_u32(out, self.scale_x);
                    put_u32(out, self.rotate_skew0);
                    put_u32(out, self.rotate_skew1);
                    put_u32(out, self.scale_y);
                },
            }
        }
        assert(out@ =~= old(out)@ + self.transform_bytes(bone_of(prev_bone)));
    }

    /// Writes the position, as a copy of that of `prev_bone` or in full.
    fn write_position(&self, out: &mut Vec<u8>, prev_bone: Option<&AnmBone>)
        ensures
            final(out)@ == old(out)@ + self.position_bytes(bone_of(prev_bone)),
    {
        let copy_position = if let Some(prev) = prev_bone {
            self.has_same_position_as(prev)
        } else {
            false
        };
        if copy_position {
            put_flag(out, true);
        } else {
            put_flag(out, false);
            put_u32(out, self.x);
            put_u32(out, self.y);
        }
        assert(out@ =~= old(out)@ + self.position_bytes(bone_of(prev_bone)));
    }

    /// Writes the bone. `prev_bone` is the bone that it may copy its
    /// transform and its position from.
    pub fn write(&self, out: &mut Vec<u8>, prev_bone: Option<&AnmBone>)
        ensures
            final(out)@ == old(out)@ + self.bytes(bone_of(prev_bone)),
    {
        put_i16(out, self.id);
        let opaque = self.opacity == ONE64;
        put_flag(out, opaque);
        self.write_transform(out, prev_bone);
        self.write_position(out, prev_bone);

        let ghost before_picture = out@;
        if self.frame == 1 {
            put_flag(out, false);
        } else {
            put_flag(out, true);
            put_i8(out, self.frame);
        }
        assert(out@ =~= before_picture + self.picture_bytes());

        let ghost before_opacity = out@;
        if !opaque {
            put_u8(out, opacity_to_alpha(self.opacity));
        }
        assert(out@ =~= before_opacity + self.opacity_bytes());
        assert(out@ =~= old(out)@ + self.bytes(bone_of(prev_bone)));
    }

    /// How many bytes `write` appends for this bone after `prev_bone`.
    pub fn get_byte_size(&self, prev_bone: Option<&AnmBone>) -> (n: usize)
        ensures
            n == self.bytes(bone_of(prev_bone)).len(),
            6 <= n <= 33,
    {
        let mut result: usize = 0;
        result += 2;  // id
        result += 1;  // opaque

        result += 1;  // copy transform indicator
        let copy_transform = match prev_bone {
            Some(prev) => self.has_same_transform_as(prev),
            None => false,
        };
        if !copy_transform {
            result += 1;  // identity/symmetric indicator
            match self.transform_shape() {
                TransformShape::Identity => {
                    result += 1;  // 2nd indicator
                },
                TransformShape::Symmetric => {
                    result += 1;  // 2nd indicator
                    result += 4;  // scale_x
                    result += 4;  // rotate_skew0
                },
                TransformShape::General => {
                    result += 4;  // scale_x
                    result += 4;  // rotate_skew0
                    result += 4;  // rotate_skew1
                    result += 4;  // scale_y
                },
            }
        }

        result += 1;  // copy position indicator
        let copy_position = match prev_bone {
            Some(prev) => self.has_same_position_as(prev),
            None => false,
        };
        if !copy_position {
            result += 4;  // x
            result += 4;  // y
        }

        result += 1;  // default frame indicator
        if self.frame != 1 {
            result += 1;  // frame
        }

        if self.opacity != ONE64 {
            result += 1;  // opacity
        }

        result
    }
}

/// Whether the transform `read` is the transform `written`, number by
/// number, up to the sign of a zero.
pub open spec fn transform_read_back(written: Transform, read: Transform) -> bool {
    &&& same32(written.0, read.0)
    &&& same32(written.1, read.1)
    &&& same32(written.2, read.2)
    &&& same32(written.3, read.3)
}

/// Whether `read` is what reading gives for the bone `written`: the same id
/// and picture, the same numbers up to the sign of a zero, and the opacity
/// that the stored byte stands for.
pub open spec fn bone_read_back(written: AnmBone, read: AnmBone) -> bool {
    &&& read.id == written.id
    &&& read.frame == written.frame
    &&& transform_read_back(written.transform(), read.transform())
    &&& same32(written.x, read.x)
    &&& same32(written.y, read.y)
    &&& read.opacity == stored_opacity(written.opacity)
}

/// Whether the comparison bone of the reader is what reading gives for the
/// comparison bone of the writer, or both are absent.
pub open spec fn reference_read_back(written: Option<AnmBone>, read: Option<AnmBone>) -> bool {
    match (written, read) {
        (None, None) => true,
        (Some(w), Some(r)) => bone_read_back(w, r),
        _ => false,
    }
}

/// Every transform has exactly one shape, the shape fixes how many bytes
/// are written, and reading those bytes gives the four numbers back, up to
/// the sign of a zero: for the identity 1, 0, 0, 1; for a symmetric
/// transform the two written numbers, the skew once more and the scale
/// negated.
#[verifier::rlimit(50)]
pub proof fn shape_is_read_back(t: Transform, rest: Seq<u8>)
    ensures
        shaped_bytes(t).len() == match shape_of(t) {
            TransformShape::Identity => 2nat,
            TransformShape::Symmetric => 10nat,
            TransformShape::General => 17nat,
        },
        take_shaped(shaped_bytes(t) + rest) matches Ok((read, after)) && after == rest
            && transform_read_back(t, read),
{
    match shape_of(t) {
        TransformShape::Identity => {
            assert(shaped_bytes(t) + rest =~= flag(true) + (flag(true) + rest));
            flag_round_trip(true, flag(true) + rest);
            flag_round_trip(true, rest);
        },
        TransformShape::Symmetric => {
            let s3 = le32(t.1) + rest;
            let s2 = le32(t.0) + s3;
            let s1 = flag(false) + s2;
            assert(shaped_bytes(t) + rest =~= flag(true) + s1);
            flag_round_trip(true, s1);
            flag_round_trip(false, s2);
            u32_round_trip(t.0, s3);
            u32_round_trip(t.1, rest);
        },
        TransformShape::General => {
            let s4 = le32(t.3) + rest;
            let s3 = le32(t.2) + s4;
            let s2 = le32(t.1) + s3;
            let s1 = le32(t.0) + s2;
            assert(shaped_bytes(t) + rest =~= flag(false) + s1);
            flag_round_trip(false, s1);
            u32_round_trip(t.0, s2);
            u32_round_trip(t.1, s3);
            u32_round_trip(t.2, s4);
            u32_round_trip(t.3, rest);
        },
    }
}

/// A transform that was written after `prev` is read back after what `prev`
/// was read back as.
proof fn transform_round_trip(
    b: AnmBone,
    prev: Option<AnmBone>,
    prev_read: Option<AnmBone>,
    rest: Seq<u8>,
)
    requires
        reference_read_back(prev, prev_read),
    ensures
        take_transform(b.transform_bytes(prev) + rest, prev_read) matches Ok((read, after))
            && after == rest && transform_read_back(b.transform(), read),
{
    if b.copies_transform(prev) {
        flag_round_trip(true, rest);
    } else {
        let s1 = shaped_bytes(b.transform()) + rest;
        assert(b.transform_bytes(prev) + rest =~= flag(false) + s1);
        flag_round_trip(false, s1);
        shape_is_read_back(b.transform(), rest);
    }
}

/// A position that was written after `prev` is read back after what `prev`
/// was read back as.
proof fn position_round_trip(
    b: AnmBone,
    prev: Option<AnmBone>,
    prev_read: Option<AnmBone>,
    rest: Seq<u8>,
)
    requires
        reference_read_back(prev, prev_read),
    ensures
        take_position(b.position_bytes(prev) + rest, prev_read) matches Ok((read, after))
            && after == rest && same32(b.x, read.0) && same32(b.y, read.1),
{
    if b.copies_position(prev) {
        flag_round_trip(true, rest);
    } else {
        let s2 = le32(b.y) + rest;
        let s1 = le32(b.x) + s2;
        assert(b.position_bytes(prev) + rest =~= flag(false) + s1);
        flag_round_trip(false, s1);
        u32_round_trip(b.x, s2);
        u32_round_trip(b.y, rest);
    }
}

/// The picture and the opacity that were written are read back, the opacity
/// as the value that its byte stands for.
proof fn picture_and_opacity_round_trip(b: AnmBone, rest: Seq<u8>)
    ensures
        take_picture(b.picture_bytes() + (b.opacity_bytes() + rest)) == Ok::<
            (i8, Seq<u8>),
            AnmReadingError,
        >((b.frame, b.opacity_bytes() + rest)),
        take_opacity(b.opacity_bytes() + rest, b.opacity == ONE64) == Ok::<
            (u64, Seq<u8>),
            AnmReadingError,
        >((stored_opacity(b.opacity), rest)),
{
    let s1 = b.opacity_bytes() + rest;
    if b.frame == 1 {
        flag_round_trip(false, s1);
    } else {
        let s0 = seq![i8_bits(b.frame)] + s1;
        assert(b.picture_bytes() + s1 =~= flag(true) + s0);
        flag_round_trip(true, s0);
        i8_round_trip(b.frame, s1);
    }
    if b.opacity == ONE64 {
        assert(b.opacity_bytes() + rest =~= rest);
        one_is_stored_as_one();
    } else {
        u8_round_trip(alpha_of(b.opacity), rest);
    }
}

/// The bytes of a bone with `rest` behind them, as one field in front of the
/// next.
proof fn bone_bytes_are_fields(b: AnmBone, prev: Option<AnmBone>, rest: Seq<u8>)
    ensures
        b.bytes(prev) + rest == le16(i16_bits(b.id)) + (flag(b.opacity == ONE64) + (
        b.transform_bytes(prev) + (b.position_bytes(prev) + (b.picture_bytes() + (b.opacity_bytes()
            + rest))))),
{
    let id = le16(i16_bits(b.id));
    let opaque = flag(b.opacity == ONE64);
    let transform = b.transform_bytes(prev);
    let position = b.position_bytes(prev);
    let picture = b.picture_bytes();
    let s5 = b.opacity_bytes() + rest;
    let s4 = picture + s5;
    let s3 = position + s4;
    let s2 = transform + s3;
    append_assoc(id + opaque + transform + position + picture, b.opacity_bytes(), rest);
    append_assoc(id + opaque + transform + position, picture, s5);
    append_assoc(id + opaque + transform, position, s4);
    append_assoc(id + opaque, transform, s3);
    append_assoc(id, opaque, s2);
}

/// A bone that was written after `prev` is read back, when the reader's
/// comparison bone is what `prev` was read back as: nothing but the sign of
/// a zero and the step of the opacity can differ, and the bytes behind the
/// bone are left.
#[verifier::rlimit(100)]
pub proof fn bone_round_trip(
    b: AnmBone,
    prev: Option<AnmBone>,
    prev_read: Option<AnmBone>,
    rest: Seq<u8>,
)
    requires
        reference_read_back(prev, prev_read),
    ensures
        take_bone(b.bytes(prev) + rest, prev_read) matches Ok((read, after)) && after == rest
            && bone_read_back(b, read),
{
    let s5 = b.opacity_bytes() + rest;
    let s4 = b.picture_bytes() + s5;
    let s3 = b.position_bytes(prev) + s4;
    let s2 = b.transform_bytes(prev) + s3;
    let s1 = flag(b.opacity == ONE64) + s2;
    bone_bytes_are_fields(b, prev, rest);
    i16_round_trip(b.id, s1);
    flag_round_trip(b.opacity == ONE64, s2);
    transform_round_trip(b, prev, prev_read, s3);
    position_round_trip(b, prev, prev_read, s4);
    picture_and_opacity_round_trip(b, rest);
}

/// A bone takes at least 6 bytes and at most 33.
pub proof fn bone_takes_6_to_33_bytes(b: AnmBone, prev: Option<AnmBone>)
    ensures
        6 <= b.bytes(prev).len() <= 33,
{
}

/// A bone that is the first of its frame and whose bytes ask for a copied
/// transform cannot be read; nor can one that asks for a copied position
/// after a transform that could be read.
pub proof fn first_bone_cannot_copy(s: Seq<u8>)
    requires
        s.len() >= 4,
    ensures
        s[3] != 0 ==> take_bone(s, None) == Err::<(AnmBone, Seq<u8>), AnmReadingError>(
            AnmReadingError::NoPrevBoneTransformError(),
        ),
        take_transform(s.skip(3), None) matches Ok((t, after)) && after.len() >= 1 && after[0] != 0
            ==> take_bone(s, None) == Err::<(AnmBone, Seq<u8>), AnmReadingError>(
            AnmReadingError::NoPrevBonePositionError(),
        ),
{
    assert(s.skip(2).skip(1) =~= s.skip(3));
    assert(s.skip(3)[0] == s[3]);
}

/// Taking a bone leaves no more bytes than there were.
pub proof fn bone_leaves_no_more(s: Seq<u8>, prev: Option<AnmBone>)
    ensures
        no_longer(take_bone(s, prev), s),
{
}

} // verus!

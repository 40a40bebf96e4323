//! What can go wrong while reading or writing.

use vstd::prelude::*;

verus! {

/// Why a byte stream could not be read as ANM data.
#[derive(Clone, Copy, Debug, PartialEq, Eq, Structural)]
pub enum AnmReadingError {
    /// The input ended before the field that was being read was complete.
    IOError(),
    /// A string field holds bytes that are not UTF-8.
    FromUtf8Error(),
    /// A bone copies its transform from the bone before it, but it is the
    /// first of its frame.
    NoPrevBoneTransformError(),
    /// A bone copies its position from the bone before it, but it is the
    /// first of its frame.
    NoPrevBonePositionError(),
    /// A bone repeats a bone of the frame before, but its frame is the first.
    NoPrevFrameError(),
    /// A bone repeats a bone of the frame before, but that frame has no bone
    /// at this place.
    NoPrevFrameBoneError(),
    /// A frame says that it has fewer than zero bones.
    NegativeBoneCountError { bone_count: i16 },
}

/// Why a value could not be written: some length or count does not fit the
/// width that the format gives it.
#[derive(Clone, Copy, Debug, PartialEq, Eq, Structural)]
pub enum AnmWritingError {
    /// The compressor gave up.
    IOError(),
    /// A frame has more bones than a signed 16-bit count can say.
    TooManyBonesError { bone_count: usize },
    /// An animation's name is longer than 65535 bytes.
    LongAnimNameError { name_length: usize },
    /// An animation has more frames than an unsigned 32-bit count can say.
    TooManyFramesError { frame_count: usize },
    /// An animation's data array is longer than an unsigned 32-bit count can
    /// say.
    DataArrayTooLongError { data_length: usize },
    /// An animation's frames take more bytes than an unsigned 32-bit count
    /// can say.
    AnimationDataTooLargeError { byte_count: usize },
    /// A class's index is longer than 65535 bytes.
    TooLongClassIndex { index_length: usize },
    /// A class's file name is longer than 65535 bytes.
    TooLongClassFilename { filename_length: usize },
    /// A class has more animations than an unsigned 32-bit count can say.
    TooManyAnimationsError { animation_count: usize },
    /// A class's key is longer than 65535 bytes.
    TooLongClassKey { key_length: usize },
}

/// The result of a writer that fails with `error` if there is one.
pub open spec fn write_result(error: Option<AnmWritingError>) -> Result<(), AnmWritingError> {
    match error {
        Some(e) => Err(e),
        None => Ok(()),
    }
}

} // verus!

//! One animation: a name, five markers, a data array and a run of frames.
//!
//! In front of the frames stands the number of bytes that they take, so that
//! a reader can pass over them. This reader reads them all.

use crate::anm_frame::{
    add_clamped, clamped, clamped64, frame_leaves_no_more, frame_of, frame_read_back,
    frame_round_trip, prev_frame_read_back, take_frame, AnmFrame, FrameView,
};
use crate::errors::{write_result, AnmReadingError, AnmWritingError};
use crate::wire::{
    append_assoc, le32, no_longer, put_string, put_u32, string_bytes, string_leaves_no_more,
    string_round_trip, take_string, take_u32, u32_round_trip, ByteReader, Taken,
};
use vstd::prelude::*;
use vstd::utf8::encode_utf8;

verus! {

/// A complete animation.
#[derive(Clone, Debug, PartialEq, Eq)]
pub struct AnmAnimation {
    pub name: String,
    pub loop_start: u32,
    pub recovery_start: u32,
    pub free_start: u32,
    pub preview_frame: u32,
    pub base_start: u32,
    pub data: Vec<u32>,
    /// The frames, in the order in which they are played.
    pub frames: Vec<AnmFrame>,
}

/// What an animation holds.
pub struct AnimationView {
    pub name: Seq<char>,
    pub loop_start: u32,
    pub recovery_start: u32,
    pub free_start: u32,
    pub preview_frame: u32,
    pub base_start: u32,
    pub data: Seq<u32>,
    pub frames: Seq<FrameView>,
}

/// What each of the frames holds.
pub open spec fn frame_views(frames: Seq<AnmFrame>) -> Seq<FrameView> {
    frames.map_values(|f: AnmFrame| f@)
}

impl View for AnmAnimation {
    type V = AnimationView;

    open spec fn view(&self) -> AnimationView {
        AnimationView {
            name: self.name@,
            loop_start: self.loop_start,
            recovery_start: self.recovery_start,
            free_start: self.free_start,
            preview_frame: self.preview_frame,
            base_start: self.base_start,
            data: self.data@,
            frames: frame_views(self.frames@),
        }
    }
}

/// The frame before place `i` among `frames`, if `i` is not the first
/// place.
pub open spec fn frame_before(frames: Seq<FrameView>, i: int) -> Option<FrameView> {
    if 0 < i <= frames.len() {
        Some(frames[i - 1])
    } else {
        None
    }
}

/// The bytes of the frames from place `from` on, each written after the one
/// before it. Opaque: the proofs about an animation take its frames as a
/// whole.
#[verifier::opaque]
pub open spec fn frames_bytes(frames: Seq<FrameView>, from: int) -> Seq<u8>
    decreases frames.len() - from,
{
    if 0 <= from < frames.len() {
        frames[from].bytes(frame_before(frames, from)) + frames_bytes(frames, from + 1)
    } else {
        Seq::<u8>::empty()
    }
}

/// Why the first of the frames from place `from` on that cannot be written
/// cannot be written, if there is one.
pub open spec fn first_frame_error(frames: Seq<FrameView>, from: int) -> Option<AnmWritingError>
    decreases frames.len() - from,
{
    if 0 <= from < frames.len() {
        match frames[from].write_error() {
            Some(e) => Some(e),
            None => first_frame_error(frames, from + 1),
        }
    } else {
        None
    }
}

/// What writing the frames from place `from` on appends: their bytes, up to
/// the first that cannot be written.
pub open spec fn frames_written(frames: Seq<FrameView>, from: int) -> Seq<u8>
    decreases frames.len() - from,
{
    if 0 <= from < frames.len() && frames[from].write_error() is None {
        frames[from].bytes(frame_before(frames, from)) + frames_written(frames, from + 1)
    } else {
        Seq::<u8>::empty()
    }
}

/// The bytes of the words from place `from` on. Opaque: the proofs about an
/// animation take its data array as a whole.
#[verifier::opaque]
pub open spec fn words_bytes(words: Seq<u32>, from: int) -> Seq<u8>
    decreases words.len() - from,
{
    if 0 <= from < words.len() {
        le32(words[from]) + words_bytes(words, from + 1)
    } else {
        Seq::<u8>::empty()
    }
}

/// `count` more words off the front of `s`, behind the words `read`. Opaque,
/// as `words_bytes` is.
#[verifier::opaque]
pub open spec fn take_words(s: Seq<u8>, count: nat, read: Seq<u32>) -> Taken<Seq<u32>>
    decreases count,
{
    if count == 0 {
        Ok((read, s))
    } else {
        match take_u32(s) {
            Err(e) => Err(e),
            Ok((w, rest)) => take_words(rest, (count - 1) as nat, read.push(w)),
        }
    }
}

/// `count` more frames off the front of `s`, behind the frames `read`.
/// Opaque, as `frames_bytes` is.
#[verifier::opaque]
pub open spec fn take_frames(s: Seq<u8>, count: nat, read: Seq<FrameView>) -> Taken<
    Seq<FrameView>,
>
    decreases count,
{
    if count == 0 {
        Ok((read, s))
    } else {
        match take_frame(s, frame_before(read, read.len() as int)) {
            Err(e) => Err(e),
            Ok((f, rest)) => take_frames(rest, (count - 1) as nat, read.push(f)),
        }
    }
}

/// The five markers of an animation: `loop_start`, `recovery_start`,
/// `free_start`, `preview_frame`, `base_start`.
pub type Markers = (u32, u32, u32, u32, u32);

/// Five markers off the front of `s`.
pub open spec fn take_markers(s: Seq<u8>) -> Taken<Markers> {
    match take_u32(s) {
        Err(e) => Err(e),
        Ok((loop_start, s1)) => match take_u32(s1) {
            Err(e) => Err(e),
            Ok((recovery_start, s2)) => match take_u32(s2) {
                Err(e) => Err(e),
                Ok((free_start, s3)) => match take_u32(s3) {
                    Err(e) => Err(e),
                    Ok((preview_frame, s4)) => match take_u32(s4) {
                        Err(e) => Err(e),
                        Ok((base_start, s5)) => Ok(
                            (
                                (loop_start, recovery_start, free_start, preview_frame, base_start),
                                s5,
                            ),
                        ),
                    },
                },
            },
        },
    }
}

/// A data array off the front of `s`: how many words, then the words.
pub open spec fn take_data(s: Seq<u8>) -> Taken<Seq<u32>> {
    match take_u32(s) {
        Err(e) => Err(e),
        Ok((data_size, s1)) => take_words(s1, data_size as nat, Seq::<u32>::empty()),
    }
}

/// An animation off the front of `s`: name, number of frames, markers, data
/// array, the number of bytes of the frames, which is passed over, and the
/// frames.
pub open spec fn take_animation(s: Seq<u8>) -> Taken<AnimationView> {
    match take_string(s) {
        Err(e) => Err(e),
        Ok((name, s1)) => match take_u32(s1) {
            Err(e) => Err(e),
            Ok((frame_count, s2)) => match take_markers(s2) {
                Err(e) => Err(e),
                Ok((m, s3)) => match take_data(s3) {
                    Err(e) => Err(e),
                    Ok((data, s4)) => match take_u32(s4) {
                        Err(e) => Err(e),
                        Ok((byte_count, s5)) => match take_frames(
                            s5,
                            frame_count as nat,
                            Seq::<FrameView>::empty(),
                        ) {
                            Err(e) => Err(e),
                            Ok((frames, s6)) => Ok(
                                (
                                    AnimationView {
                                        name,
                                        loop_start: m.0,
                                        recovery_start: m.1,
                                        free_start: m.2,
                                        preview_frame: m.3,
                                        base_start: m.4,
                                        data,
                                        frames,
                                    },
                                    s6,
                                ),
                            ),
                        },
                    },
                },
            },
        },
    }
}

impl AnimationView {
    /// Why the animation cannot be written before a byte of it has been
    /// written, if so: the first of name, number of frames, length of the
    /// data array and number of bytes of the frames that does not fit its
    /// field.
    pub open spec fn head_error(self) -> Option<AnmWritingError> {
        if encode_utf8(self.name).len() > u16::MAX {
            Some(
                AnmWritingError::LongAnimNameError {
                    name_length: encode_utf8(self.name).len() as usize,
                },
            )
        } else if self.frames.len() > u32::MAX {
            Some(AnmWritingError::TooManyFramesError { frame_count: self.frames.len() as usize })
        } else if self.data.len() > u32::MAX {
            Some(AnmWritingError::DataArrayTooLongError { data_length: self.data.len() as usize })
        } else if frames_bytes(self.frames, 0).len() > u32::MAX {
            Some(
                AnmWritingError::AnimationDataTooLargeError {
                    byte_count: clamped(frames_bytes(self.frames, 0).len() as int),
                },
            )
        } else {
            None
        }
    }

    /// Why the animation cannot be written, if it cannot: what is wrong with
    /// its head, or else with the first frame that cannot be written.
    pub open spec fn write_error(self) -> Option<AnmWritingError> {
        match self.head_error() {
            Some(e) => Some(e),
            None => first_frame_error(self.frames, 0),
        }
    }

    /// The bytes of everything in front of the frames.
    pub open spec fn head_bytes(self) -> Seq<u8> {
        string_bytes(self.name) + le32(self.frames.len() as u32) + le32(self.loop_start) + le32(
            self.recovery_start,
        ) + le32(self.free_start) + le32(self.preview_frame) + le32(self.base_start) + le32(
            self.data.len() as u32,
        ) + words_bytes(self.data, 0) + le32(frames_bytes(self.frames, 0).len() as u32)
    }

    /// The bytes of the animation.
    pub open spec fn bytes(self) -> Seq<u8> {
        self.head_bytes() + frames_bytes(self.frames, 0)
    }

    /// What writing the animation appends: nothing if something is wrong
    /// with its head, and else its bytes up to the first frame that cannot
    /// be written.
    pub open spec fn written(self) -> Seq<u8> {
        if self.head_error() is Some {
            Seq::<u8>::empty()
        } else {
            self.head_bytes() + frames_written(self.frames, 0)
        }
    }
}

impl AnmAnimation {
    /// Reads `count` words.
    fn read_words(reader: &mut ByteReader, count: usize) -> (r: Result<Vec<u32>, AnmReadingError>)
        ensures
            match take_words(old(reader).remaining(), count as nat, Seq::<u32>::empty()) {
                Ok((v, rest)) => r matches Ok(d) && d@ == v && final(reader).remaining() == rest,
                Err(e) => r == Err::<Vec<u32>, AnmReadingError>(e),
            },
            final(reader).source() == old(reader).source(),
    {
        reveal(take_words);
        let mut data: Vec<u32> = Vec::new();
        let ghost whole = take_words(reader.remaining(), count as nat, Seq::<u32>::empty());
        let mut i: usize = 0;
        while i < count
            invariant
                i <= count,
                reader.source() == old(reader).source(),
                whole == take_words(old(reader).remaining(), count as nat, Seq::<u32>::empty()),
                take_words(reader.remaining(), (count - i) as nat, data@) == whole,
            decreases count - i,
        {
            reveal(take_words);
            let w = reader.read_u32()?;
            data.push(w);
            i = i + 1;
        }
        Ok(data)
    }

    /// Reads `count` frames, each after the one before it.
    fn read_frames(reader: &mut ByteReader, count: usize) -> (r: Result<
        Vec<AnmFrame>,
        AnmReadingError,
    >)
        ensures
            match take_frames(old(reader).remaining(), count as nat, Seq::<FrameView>::empty()) {
                Ok((v, rest)) => r matches Ok(f) && frame_views(f@) == v && final(reader).remaining() == rest,
                Err(e) => r == Err::<Vec<AnmFrame>, AnmReadingError>(e),
            },
            final(reader).source() == old(reader).source(),
    {
        reveal(take_frames);
        let mut frames: Vec<AnmFrame> = Vec::new();
        let ghost whole = take_frames(reader.remaining(), count as nat, Seq::<FrameView>::empty());
        assert(frame_views(frames@) =~= Seq::<FrameView>::empty());
        let mut i: usize = 0;
        while i < count
            invariant
                i <= count,
                frames@.len() == i,
                reader.source() == old(reader).source(),
                whole == take_frames(
                    old(reader).remaining(),
                    count as nat,
                    Seq::<FrameView>::empty(),
                ),
                take_frames(reader.remaining(), (count - i) as nat, frame_views(frames@))
                    == whole,
            decreases count - i,
        {
            reveal(take_frames);
            let prev_frame = if i > 0 {
                Some(&frames[i - 1])
            } else {
                None
            };
            let ghost before = frame_views(frames@);
            let frame = AnmFrame::read(reader, prev_frame)?;
            frames.push(frame);
            assert(frame_views(frames@) =~= before.push(frame@));
            i = i + 1;
        }
        Ok(frames)
    }

    /// Reads the five markers.
    fn read_markers(reader: &mut ByteReader) -> (r: Result<Markers, AnmReadingError>)
        ensures
            match take_markers(old(reader).remaining()) {
                Ok((v, rest)) => r == Ok::<Markers, AnmReadingError>(v) && final(reader).remaining() == rest,
                Err(e) => r == Err::<Markers, AnmReadingError>(e),
            },
            final(reader).source() == old(reader).source(),
    {
        let loop_start = reader.read_u32()?;
        let recovery_start = reader.read_u32()?;
        let free_start = reader.read_u32()?;
        let preview_frame = reader.read_u32()?;
        let base_start = reader.read_u32()?;
        Ok((loop_start, recovery_start, free_start, preview_frame, base_start))
    }

    /// Reads an animation.
    pub fn read(reader: &mut ByteReader) -> (r: Result<AnmAnimation, AnmReadingError>)
        ensures
            match take_animation(old(reader).remaining()) {
                Ok((v, rest)) => r matches Ok(a) && a@ == v && final(reader).remaining() == rest,
                Err(e) => r == Err::<AnmAnimation, AnmReadingError>(e),
            },
            final(reader).source() == old(reader).source(),
    {
        let name = reader.read_string()?;

        let frame_count = reader.read_u32()? as usize;
        let (loop_start, recovery_start, free_start, preview_frame, base_start) =
            Self::read_markers(reader)?;

        let data_size = reader.read_u32()? as usize;
        let data = Self::read_words(reader, data_size)?;

        // The number of bytes that the frames take. A reader that wants to
        // pass over the frames needs it; this one reads them.
        let _ = reader.read_u32()?;

        let frames = Self::read_frames(reader, frame_count)?;

        Ok(
            AnmAnimation {
                name,
                loop_start,
                recovery_start,
                free_start,
                preview_frame,
                base_start,
                data,
                frames,
            },
        )
    }

    /// Writes the words of the data array.
    fn write_words(&self, out: &mut Vec<u8>)
        ensures
            final(out)@ == old(out)@ + words_bytes(self.data@, 0),
    {
        reveal(words_bytes);
        let ghost target = out@ + words_bytes(self.data@, 0);
        let count = self.data.len();
        let mut i: usize = 0;
        while i < count
            invariant
                i <= count,
                count == self.data@.len(),
                out@ + words_bytes(self.data@, i as int) == target,
            decreases count - i,
        {
            reveal(words_bytes);
            let ghost before = out@;
            put_u32(out, self.data[i]);
            proof {
                append_assoc(before, le32(self.data@[i as int]), words_bytes(self.data@, i + 1));
            }
            i = i + 1;
        }
        assert(out@ =~= out@ + words_bytes(self.data@, i as int));
    }

    /// Writes the frames, each after the one before it, up to the first that
    /// cannot be written.
    fn write_frames(&self, out: &mut Vec<u8>) -> (r: Result<(), AnmWritingError>)
        ensures
            r == write_result(first_frame_error(self@.frames, 0)),
            final(out)@ == old(out)@ + frames_written(self@.frames, 0),
    {
        let ghost views = self@.frames;
        let ghost target = out@ + frames_written(views, 0);
        let count = self.frames.len();
        let mut i: usize = 0;
        while i < count
            invariant
                i <= count,
                count == self.frames@.len(),
                views == frame_views(self.frames@),
                first_frame_error(views, i as int) == first_frame_error(views, 0),
                target == old(out)@ + frames_written(views, 0),
                out@ + frames_written(views, i as int) == target,
            decreases count - i,
        {
            let prev_frame = if i == 0 {
                None
            } else {
                Some(&self.frames[i - 1])
            };
            let ghost before = out@;
            let frame = &self.frames[i];
            assert(views[i as int] == frame@);
            assert(frame_of(prev_frame) == frame_before(views, i as int));
            match frame.write(out, prev_frame) {
                Ok(()) => {},
                Err(e) => {
                    assert(out@ =~= before);
                    assert(before =~= before + frames_written(views, i as int));
                    return Err(e);
                },
            }
            proof {
                append_assoc(
                    before,
                    views[i as int].bytes(frame_before(views, i as int)),
                    frames_written(views, i + 1),
                );
            }
            i = i + 1;
        }
        assert(out@ =~= out@ + frames_written(views, i as int));
        Ok(())
    }

    /// Writes the animation. Nothing is written if its name, its number of
    /// frames, the length of its data array or the number of bytes of its
    /// frames does not fit its field; if a frame cannot be written, what
    /// stands in front of that frame is written.
    pub fn write(&self, out: &mut Vec<u8>) -> (r: Result<(), AnmWritingError>)
        ensures
            r == write_result(self@.write_error()),
            final(out)@ == old(out)@ + self@.written(),
    {
        let name_length = self.name.as_str().as_bytes().len();
        if name_length > 0xffff {
            assert(out@ =~= old(out)@ + self@.written());
            return Err(AnmWritingError::LongAnimNameError { name_length });
        }
        let frame_count = self.frames.len();
        if frame_count > 0xffff_ffff {
            assert(out@ =~= old(out)@ + self@.written());
            return Err(AnmWritingError::TooManyFramesError { frame_count });
        }
        let data_length = self.data.len();
        if data_length > 0xffff_ffff {
            assert(out@ =~= old(out)@ + self@.written());
            return Err(AnmWritingError::DataArrayTooLongError { data_length });
        }
        let byte_count = self.get_frames_byte_size();
        if byte_count > 0xffff_ffff {
            assert(out@ =~= old(out)@ + self@.written());
            let byte_count = if byte_count > usize::MAX as u64 {
                usize::MAX
            } else {
                byte_count as usize
            };
            return Err(AnmWritingError::AnimationDataTooLargeError { byte_count });
        }
        let named = put_string(out, self.name.as_str());
        assert(named is Ok);

        put_u32(out, frame_count as u32);
        put_u32(out, self.loop_start);
        put_u32(out, self.recovery_start);
        put_u32(out, self.free_start);
        put_u32(out, self.preview_frame);
        put_u32(out, self.base_start);
        put_u32(out, data_length as u32);
        self.write_words(out);
        put_u32(out, byte_count as u32);
        assert(out@ == old(out)@ + self@.head_bytes()) by {
            let v = self@;
            let h1 = string_bytes(v.name);
            let h2 = h1 + le32(v.frames.len() as u32);
            let h3 = h2 + le32(v.loop_start);
            let h4 = h3 + le32(v.recovery_start);
            let h5 = h4 + le32(v.free_start);
            let h6 = h5 + le32(v.preview_frame);
            let h7 = h6 + le32(v.base_start);
            let h8 = h7 + le32(v.data.len() as u32);
            let h9 = h8 + words_bytes(v.data, 0);
            let o = old(out)@;
            append_assoc(o, h1, le32(v.frames.len() as u32));
            append_assoc(o, h2, le32(v.loop_start));
            append_assoc(o, h3, le32(v.recovery_start));
            append_assoc(o, h4, le32(v.free_start));
            append_assoc(o, h5, le32(v.preview_frame));
            append_assoc(o, h6, le32(v.base_start));
            append_assoc(o, h7, le32(v.data.len() as u32));
            append_assoc(o, h8, words_bytes(v.data, 0));
            append_assoc(o, h9, le32(frames_bytes(v.frames, 0).len() as u32));
        }
        let r = self.write_frames(out);
        proof {
            append_assoc(old(out)@, self@.head_bytes(), frames_written(self@.frames, 0));
        }
        r
    }

    /// How many bytes the frames take, each written after the one before it,
    /// whether or not they can be written; the largest `u64` if that is
    /// less.
    pub fn get_frames_byte_size(&self) -> (n: u64)
        ensures
            n == clamped64(frames_bytes(self@.frames, 0).len() as int),
    {
        reveal(frames_bytes);
        let ghost views = self@.frames;
        let ghost total = frames_bytes(views, 0).len() as int;
        let mut result: u64 = 0;
        let count = self.frames.len();
        let mut i: usize = 0;
        while i < count
            invariant
                i <= count,
                count == self.frames@.len(),
                views == frame_views(self.frames@),
                total == frames_bytes(views, 0).len(),
                frames_bytes(views, i as int).len() <= total,
                result == clamped64(total - frames_bytes(views, i as int).len()),
            decreases count - i,
        {
            reveal(frames_bytes);
            let prev_frame = if i == 0 {
                None
            } else {
                Some(&self.frames[i - 1])
            };
            let frame = &self.frames[i];
            assert(views[i as int] == frame@);
            assert(frame_of(prev_frame) == frame_before(views, i as int));
            let size = frame.get_byte_size(prev_frame);
            result = add_clamped(result, size);
            i = i + 1;
        }
        result
    }
}

/// Whether the frames `read` are what reading gives for the frames
/// `written`, place by place.
pub open spec fn frames_read_back(written: Seq<FrameView>, read: Seq<FrameView>) -> bool {
    &&& read.len() == written.len()
    &&& forall|i: int| 0 <= i < written.len() ==> frame_read_back(written[i], #[trigger] read[i])
}

/// Whether the animation `read` is what reading gives for the animation
/// `written`: the same name, markers and data, and frames that are what
/// reading gives for its frames.
pub open spec fn animation_read_back(written: AnimationView, read: AnimationView) -> bool {
    &&& read.name == written.name
    &&& read.loop_start == written.loop_start
    &&& read.recovery_start == written.recovery_start
    &&& read.free_start == written.free_start
    &&& read.preview_frame == written.preview_frame
    &&& read.base_start == written.base_start
    &&& read.data == written.data
    &&& frames_read_back(written.frames, read.frames)
}

/// The words from place `from` on that were written are read back.
proof fn words_round_trip(words: Seq<u32>, from: int, rest: Seq<u8>)
    requires
        0 <= from <= words.len(),
    ensures
        take_words(words_bytes(words, from) + rest, (words.len() - from) as nat, words.take(from))
            == Ok::<(Seq<u32>, Seq<u8>), AnmReadingError>((words, rest)),
    decreases words.len() - from,
{
    reveal(words_bytes);
    reveal(take_words);
    if from == words.len() {
        assert(words_bytes(words, from) + rest =~= rest);
        assert(words.take(from) =~= words);
    } else {
        let tail = words_bytes(words, from + 1) + rest;
        append_assoc(le32(words[from]), words_bytes(words, from + 1), rest);
        u32_round_trip(words[from], tail);
        assert(words.take(from).push(words[from]) =~= words.take(from + 1));
        words_round_trip(words, from + 1, rest);
    }
}

/// Where every frame from place `from` on can be written, writing them
/// appends the bytes of them all.
proof fn frames_are_written_whole(frames: Seq<FrameView>, from: int)
    requires
        0 <= from <= frames.len(),
        first_frame_error(frames, from) is None,
    ensures
        frames_written(frames, from) == frames_bytes(frames, from),
    decreases frames.len() - from,
{
    reveal(frames_bytes);
    if from < frames.len() {
        frames_are_written_whole(frames, from + 1);
    }
}

/// The frames from place `from` on that were written are read back, when
/// the frames before them were.
proof fn frames_round_trip(
    frames: Seq<FrameView>,
    from: int,
    read: Seq<FrameView>,
    rest: Seq<u8>,
)
    requires
        0 <= from <= frames.len(),
        first_frame_error(frames, from) is None,
        frames_read_back(frames.take(from), read),
    ensures
        take_frames(frames_bytes(frames, from) + rest, (frames.len() - from) as nat, read) matches Ok(
            (all, after),
        ) && after == rest && frames_read_back(frames, all),
    decreases frames.len() - from,
{
    reveal(frames_bytes);
    reveal(take_frames);
    if from == frames.len() {
        assert(frames_bytes(frames, from) + rest =~= rest);
        assert(frames.take(from) =~= frames);
    } else {
        let prev = frame_before(frames, from);
        let prev_read = frame_before(read, read.len() as int);
        let tail = frames_bytes(frames, from + 1) + rest;
        append_assoc(frames[from].bytes(prev), frames_bytes(frames, from + 1), rest);
        assert(prev_frame_read_back(prev, prev_read)) by {
            if from > 0 {
                assert(frames.take(from)[from - 1] == frames[from - 1]);
            }
        }
        frame_round_trip(frames[from], prev, prev_read, tail);
        let r = take_frame(frames[from].bytes(prev) + tail, prev_read)->Ok_0.0;
        assert(frames_read_back(frames.take(from + 1), read.push(r))) by {
            assert forall|j: int| 0 <= j < from + 1 implies frame_read_back(
                frames.take(from + 1)[j],
                #[trigger] read.push(r)[j],
            ) by {
                if j < from {
                    assert(frames.take(from)[j] == frames[j]);
                    assert(read.push(r)[j] == read[j]);
                }
            }
        }
        frames_round_trip(frames, from + 1, read.push(r), rest);
    }
}

/// Five markers that were written are read back.
proof fn markers_round_trip(m: Markers, rest: Seq<u8>)
    ensures
        take_markers(le32(m.0) + (le32(m.1) + (le32(m.2) + (le32(m.3) + (le32(m.4) + rest)))))
            == Ok::<(Markers, Seq<u8>), AnmReadingError>((m, rest)),
{
    let s4 = le32(m.4) + rest;
    let s3 = le32(m.3) + s4;
    let s2 = le32(m.2) + s3;
    let s1 = le32(m.1) + s2;
    u32_round_trip(m.0, s1);
    u32_round_trip(m.1, s2);
    u32_round_trip(m.2, s3);
    u32_round_trip(m.3, s4);
    u32_round_trip(m.4, rest);
}

/// The bytes of an animation followed by `rest`, as one field in front of
/// the next.
pub open spec fn animation_fields(a: AnimationView, rest: Seq<u8>) -> Seq<u8> {
    string_bytes(a.name) + (le32(a.frames.len() as u32) + (le32(a.loop_start) + (le32(
        a.recovery_start,
    ) + (le32(a.free_start) + (le32(a.preview_frame) + (le32(a.base_start) + (le32(
        a.data.len() as u32,
    ) + (words_bytes(a.data, 0) + (le32(frames_bytes(a.frames, 0).len() as u32) + (frames_bytes(
        a.frames,
        0,
    ) + rest))))))))))
}

/// The bytes of an animation are its fields, one after the other.
proof fn animation_bytes_are_fields(a: AnimationView, rest: Seq<u8>)
    ensures
        a.bytes() + rest == animation_fields(a, rest),
{
    let name = string_bytes(a.name);
    let frame_count = le32(a.frames.len() as u32);
    let m0 = le32(a.loop_start);
    let m1 = le32(a.recovery_start);
    let m2 = le32(a.free_start);
    let m3 = le32(a.preview_frame);
    let m4 = le32(a.base_start);
    let data_size = le32(a.data.len() as u32);
    let words = words_bytes(a.data, 0);
    let byte_count = le32(frames_bytes(a.frames, 0).len() as u32);
    let frames = frames_bytes(a.frames, 0);
    let s10 = frames + rest;
    let s9 = byte_count + s10;
    let s8 = words + s9;
    let s7 = data_size + s8;
    let s6 = m4 + s7;
    let s5 = m3 + s6;
    let s4 = m2 + s5;
    let s3 = m1 + s4;
    let s2 = m0 + s3;
    let h1 = name;
    let h2 = h1 + frame_count;
    let h3 = h2 + m0;
    let h4 = h3 + m1;
    let h5 = h4 + m2;
    let h6 = h5 + m3;
    let h7 = h6 + m4;
    let h8 = h7 + data_size;
    let h9 = h8 + words;
    let h10 = h9 + byte_count;
    append_assoc(h10, frames, rest);
    append_assoc(h9, byte_count, s10);
    append_assoc(h8, words, s9);
    append_assoc(h7, data_size, s8);
    append_assoc(h6, m4, s7);
    append_assoc(h5, m3, s6);
    append_assoc(h4, m2, s5);
    append_assoc(h3, m1, s4);
    append_assoc(h2, m0, s3);
    append_assoc(h1, frame_count, s2);
}

/// The data array and the frames that were written are read back.
proof fn body_round_trip(a: AnimationView, rest: Seq<u8>)
    requires
        a.write_error() is None,
    ensures
        take_data(
            le32(a.data.len() as u32) + (words_bytes(a.data, 0) + (le32(
                frames_bytes(a.frames, 0).len() as u32,
            ) + (frames_bytes(a.frames, 0) + rest))),
        ) == Ok::<(Seq<u32>, Seq<u8>), AnmReadingError>(
            (
                a.data,
                le32(frames_bytes(a.frames, 0).len() as u32) + (frames_bytes(a.frames, 0) + rest),
            ),
        ),
        take_frames(
            frames_bytes(a.frames, 0) + rest,
            a.frames.len(),
            Seq::<FrameView>::empty(),
        ) matches Ok((all, after)) && after == rest && frames_read_back(a.frames, all),
{
    let s10 = frames_bytes(a.frames, 0) + rest;
    let s9 = le32(frames_bytes(a.frames, 0).len() as u32) + s10;
    let s8 = words_bytes(a.data, 0) + s9;
    u32_round_trip(a.data.len() as u32, s8);
    assert(a.data.take(0) =~= Seq::<u32>::empty());
    words_round_trip(a.data, 0, s9);
    assert(a.frames.take(0) =~= Seq::<FrameView>::empty());
    frames_round_trip(a.frames, 0, Seq::<FrameView>::empty(), rest);
}

/// An animation that can be written is written whole and is read back:
/// nothing in it but the sign of a zero and the step of an opacity can
/// differ, and the bytes behind the animation are left.
#[verifier::rlimit(50)]
pub proof fn animation_round_trip(a: AnimationView, rest: Seq<u8>)
    requires
        a.write_error() is None,
    ensures
        a.written() == a.bytes(),
        take_animation(a.bytes() + rest) matches Ok((read, after)) && after == rest
            && animation_read_back(a, read),
{
    frames_are_written_whole(a.frames, 0);
    animation_bytes_are_fields(a, rest);
    let s10 = frames_bytes(a.frames, 0) + rest;
    let s9 = le32(frames_bytes(a.frames, 0).len() as u32) + s10;
    let s8 = words_bytes(a.data, 0) + s9;
    let s7 = le32(a.data.len() as u32) + s8;
    let s2 = le32(a.loop_start) + (le32(a.recovery_start) + (le32(a.free_start) + (le32(
        a.preview_frame,
    ) + (le32(a.base_start) + s7))));
    let s1 = le32(a.frames.len() as u32) + s2;
    string_round_trip(a.name, s1);
    u32_round_trip(a.frames.len() as u32, s2);
    markers_round_trip(
        (a.loop_start, a.recovery_start, a.free_start, a.preview_frame, a.base_start),
        s7,
    );
    body_round_trip(a, rest);
    u32_round_trip(frames_bytes(a.frames, 0).len() as u32, s10);
}

/// An animation whose name is longer than 65535 bytes cannot be written,
/// whatever else it holds, and nothing of it is written.
pub proof fn a_long_name_is_not_written(a: AnimationView)
    requires
        encode_utf8(a.name).len() > u16::MAX,
    ensures
        a.write_error() == Some(
            AnmWritingError::LongAnimNameError {
                name_length: encode_utf8(a.name).len() as usize,
            },
        ),
        a.written() == Seq::<u8>::empty(),
{
}

/// Taking words leaves no more bytes than there were.
proof fn words_leave_no_more(s: Seq<u8>, count: nat, read: Seq<u32>)
    ensures
        no_longer(take_words(s, count, read), s),
    decreases count,
{
    reveal(take_words);
    if count > 0 {
        match take_u32(s) {
            Ok((w, rest)) => {
                words_leave_no_more(rest, (count - 1) as nat, read.push(w));
            },
            Err(e) => {},
        }
    }
}

/// Taking frames leaves no more bytes than there were.
proof fn frames_leave_no_more(s: Seq<u8>, count: nat, read: Seq<FrameView>)
    ensures
        no_longer(take_frames(s, count, read), s),
    decreases count,
{
    reveal(take_frames);
    if count > 0 {
        let prev = frame_before(read, read.len() as int);
        frame_leaves_no_more(s, prev);
        match take_frame(s, prev) {
            Ok((f, rest)) => {
                frames_leave_no_more(rest, (count - 1) as nat, read.push(f));
            },
            Err(e) => {},
        }
    }
}

/// Taking an animation leaves no more bytes than there were.
pub proof fn animation_leaves_no_more(s: Seq<u8>)
    ensures
        no_longer(take_animation(s), s),
{
    string_leaves_no_more(s);
    match take_string(s) {
        Ok((name, s1)) => match take_u32(s1) {
            Ok((frame_count, s2)) => match take_markers(s2) {
                Ok((m, s3)) => match take_u32(s3) {
                    Ok((data_size, s31)) => {
                        words_leave_no_more(s31, data_size as nat, Seq::<u32>::empty());
                        match take_data(s3) {
                            Ok((data, s4)) => match take_u32(s4) {
                                Ok((byte_count, s5)) => {
                                    frames_leave_no_more(
                                        s5,
                                        frame_count as nat,
                                        Seq::<FrameView>::empty(),
                                    );
                                },
                                Err(e) => {},
                            },
                            Err(e) => {},
                        }
                    },
                    Err(e) => {},
                },
                Err(e) => {},
            },
            Err(e) => {},
        },
        Err(e) => {},
    }
}

} // verus!

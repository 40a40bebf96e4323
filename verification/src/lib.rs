//! Reading and writing of ANM animation containers.
//!
//! An ANM file is a four-byte header followed by a zlib stream. The stream
//! holds keyed classes, each a set of named animations, each a run of frames,
//! each a run of bones. Bones and frames are stored as differences against
//! two references: the bone before in the same frame, and the bone at the
//! same place in the frame before.
//!
//! [`AnmFile::read`] makes a file of bytes, [`AnmFile::write`] appends the
//! bytes of a file to a vector. Each kind of object has a `read` that takes
//! it off a [`ByteReader`] and a `write` that appends it, and beside them
//! two spec functions: `bytes`, which says what is written, and `take_..`,
//! which says what is read. The executable functions are proved to do what
//! those say, and the proof functions named `.._round_trip` show that reading
//! what was written gives back what was there.
//!
//! Every number with a fractional part is held as its IEEE-754 bit pattern,
//! so that the whole codec is integer code. Compression is left to the
//! `flate2` crate; what it gives has a name in the contracts and no more.

pub mod anm_animation;
pub mod anm_bone;
pub mod anm_class;
pub mod anm_file;
pub mod anm_frame;
pub mod errors;
pub mod ieee;
pub mod opacity;
pub mod wire;
pub mod zlib;

pub use anm_animation::AnmAnimation;
pub use anm_bone::AnmBone;
pub use anm_class::{AnimationCollection, AnmClass};
pub use anm_file::{AnmFile, ClassesCollection};
pub use anm_frame::AnmFrame;
pub use errors::{AnmReadingError, AnmWritingError};
pub use wire::ByteReader;

//! The fields that everything else is made of: little-endian integers and
//! length-prefixed strings, read from a byte slice and written to a byte
//! vector.
//!
//! Each field has a spec function that gives its bytes and one that takes it
//! off the front of a byte sequence. The executable readers and writers are
//! proved against those.

use crate::errors::AnmReadingError;
use vstd::prelude::*;
use vstd::slice::{slice_subrange, slice_to_vec};
use vstd::utf8::{decode_utf8, encode_utf8, valid_utf8};

verus! {

/// What taking a field off the front of a byte sequence gives: the field and
/// the bytes behind it, or the reason why there is no such field.
pub type Taken<T> = Result<(T, Seq<u8>), AnmReadingError>;

/// The two bytes of `v`, low byte first.
pub open spec fn le16(v: u16) -> Seq<u8> {
    Seq::new(
        2,
        |i: int|
            if i == 0 {
                (v % 256) as u8
            } else {
                (v / 256) as u8
            },
    )
}

/// The four bytes of `v`, low byte first.
pub open spec fn le32(v: u32) -> Seq<u8> {
    Seq::new(
        4,
        |i: int|
            if i == 0 {
                (v % 256) as u8
            } else if i == 1 {
                (v / 256 % 256) as u8
            } else if i == 2 {
                (v / 65536 % 256) as u8
            } else {
                (v / 16777216) as u8
            },
    )
}

/// The eight bytes of `v`, low byte first.
pub open spec fn le64(v: u64) -> Seq<u8> {
    le32((v % 0x1_0000_0000) as u32) + le32((v / 0x1_0000_0000) as u32)
}

/// The number whose bytes, low byte first, are `b0` and `b1`.
pub open spec fn from_le16(b0: u8, b1: u8) -> u16 {
    (b0 + 256 * b1) as u16
}

/// The number whose bytes, low byte first, are `b0` to `b3`.
pub open spec fn from_le32(b0: u8, b1: u8, b2: u8, b3: u8) -> u32 {
    (b0 + 256 * b1 + 65536 * b2 + 16777216 * b3) as u32
}

/// The byte that stands for `v` in two's complement.
pub open spec fn i8_bits(v: i8) -> u8 {
    if v < 0 {
        (v + 256) as u8
    } else {
        v as u8
    }
}

/// The number that `u` stands for in two's complement.
pub open spec fn bits_i8(u: u8) -> i8 {
    if u >= 128 {
        (u - 256) as i8
    } else {
        u as i8
    }
}

/// The 16 bits that stand for `v` in two's complement.
pub open spec fn i16_bits(v: i16) -> u16 {
    if v < 0 {
        (v + 65536) as u16
    } else {
        v as u16
    }
}

/// The number that `u` stands for in two's complement.
pub open spec fn bits_i16(u: u16) -> i16 {
    if u >= 32768 {
        (u - 65536) as i16
    } else {
        u as i16
    }
}

/// The 32 bits that stand for `v` in two's complement.
pub open spec fn i32_bits(v: i32) -> u32 {
    if v < 0 {
        (v + 0x1_0000_0000) as u32
    } else {
        v as u32
    }
}

/// The number that `u` stands for in two's complement.
pub open spec fn bits_i32(u: u32) -> i32 {
    if u >= 0x8000_0000 {
        (u - 0x1_0000_0000) as i32
    } else {
        u as i32
    }
}

/// The byte of a flag: 1 for set, 0 for clear.
pub open spec fn flag(b: bool) -> Seq<u8> {
    seq![if b { 1u8 } else { 0u8 }]
}

/// The bytes of a string field: the length of its UTF-8 form as 16 bits, then
/// that form. Opaque, to keep UTF-8 out of the proofs above it.
#[verifier::opaque]
pub open spec fn string_bytes(s: Seq<char>) -> Seq<u8> {
    le16(encode_utf8(s).len() as u16) + encode_utf8(s)
}

/// One byte off the front.
pub open spec fn take_u8(s: Seq<u8>) -> Taken<u8> {
    if s.len() >= 1 {
        Ok((s[0], s.skip(1)))
    } else {
        Err(AnmReadingError::IOError())
    }
}

/// One signed byte off the front.
pub open spec fn take_i8(s: Seq<u8>) -> Taken<i8> {
    if s.len() >= 1 {
        Ok((bits_i8(s[0]), s.skip(1)))
    } else {
        Err(AnmReadingError::IOError())
    }
}

/// One flag off the front: any byte but 0 means set.
pub open spec fn take_flag(s: Seq<u8>) -> Taken<bool> {
    if s.len() >= 1 {
        Ok((s[0] != 0, s.skip(1)))
    } else {
        Err(AnmReadingError::IOError())
    }
}

/// Sixteen bits off the front.
pub open spec fn take_u16(s: Seq<u8>) -> Taken<u16> {
    if s.len() >= 2 {
        Ok((from_le16(s[0], s[1]), s.skip(2)))
    } else {
        Err(AnmReadingError::IOError())
    }
}

/// A signed 16-bit number off the front.
pub open spec fn take_i16(s: Seq<u8>) -> Taken<i16> {
    if s.len() >= 2 {
        Ok((bits_i16(from_le16(s[0], s[1])), s.skip(2)))
    } else {
        Err(AnmReadingError::IOError())
    }
}

/// Thirty-two bits off the front.
pub open spec fn take_u32(s: Seq<u8>) -> Taken<u32> {
    if s.len() >= 4 {
        Ok((from_le32(s[0], s[1], s[2], s[3]), s.skip(4)))
    } else {
        Err(AnmReadingError::IOError())
    }
}

/// A signed 32-bit number off the front.
pub open spec fn take_i32(s: Seq<u8>) -> Taken<i32> {
    if s.len() >= 4 {
        Ok((bits_i32(from_le32(s[0], s[1], s[2], s[3])), s.skip(4)))
    } else {
        Err(AnmReadingError::IOError())
    }
}

/// Sixty-four bits off the front: the low half, then the high half.
pub open spec fn take_u64(s: Seq<u8>) -> Taken<u64> {
    match take_u32(s) {
        Err(e) => Err(e),
        Ok((lo, s1)) => match take_u32(s1) {
            Err(e) => Err(e),
            Ok((hi, s2)) => Ok(((lo + 0x1_0000_0000 * hi) as u64, s2)),
        },
    }
}

/// A string field off the front: a 16-bit length, then that many bytes, which
/// have to be UTF-8. Opaque, to keep UTF-8 out of the proofs above it.
#[verifier::opaque]
pub open spec fn take_string(s: Seq<u8>) -> Taken<Seq<char>> {
    match take_u16(s) {
        Err(e) => Err(e),
        Ok((n, rest)) => if rest.len() < n {
            Err(AnmReadingError::IOError())
        } else if !valid_utf8(rest.take(n as int)) {
            Err(AnmReadingError::FromUtf8Error())
        } else {
            Ok((decode_utf8(rest.take(n as int)), rest.skip(n as int)))
        },
    }
}

/// Whether a reader that returned `got` and was left with `after` did what
/// `want` says.
pub open spec fn read_as<T>(got: Result<T, AnmReadingError>, after: Seq<u8>, want: Taken<T>) -> bool {
    match want {
        Ok((v, rest)) => got == Ok::<T, AnmReadingError>(v) && after == rest,
        Err(e) => got == Err::<T, AnmReadingError>(e),
    }
}

/// A place in a byte slice from which fields are read, front to back.
pub struct ByteReader<'a> {
    data: &'a [u8],
    pos: usize,
}

impl<'a> ByteReader<'a> {
    #[verifier::type_invariant]
    spec fn in_bounds(&self) -> bool {
        self.pos <= self.data@.len()
    }

    /// The bytes that have not been read yet.
    pub closed spec fn remaining(&self) -> Seq<u8> {
        self.data@.skip(self.pos as int)
    }

    /// The whole of the bytes that the reader was made for.
    pub closed spec fn source(&self) -> Seq<u8> {
        self.data@
    }

    /// A reader at the front of `data`.
    pub fn new(data: &'a [u8]) -> (r: Self)
        ensures
            r.remaining() == data@,
            r.source() == data@,
    {
        ByteReader { data, pos: 0 }
    }

    /// How many bytes have not been read yet.
    pub fn len(&self) -> (n: usize)
        ensures
            n == self.remaining().len(),
    {
        proof {
            use_type_invariant(self);
        }
        self.data.len() - self.pos
    }

    /// Reads one byte.
    pub fn read_u8(&mut self) -> (r: Result<u8, AnmReadingError>)
        ensures
            read_as(r, final(self).remaining(), take_u8(old(self).remaining())),
            final(self).source() == old(self).source(),
    {
        proof {
            use_type_invariant(&*self);
        }
        if self.data.len() - self.pos < 1 {
            return Err(AnmReadingError::IOError());
        }
        let b = self.data[self.pos];
        self.pos = self.pos + 1;
        assert(self.data@.skip(self.pos as int) =~= old(self).remaining().skip(1));
        Ok(b)
    }

    /// Reads one signed byte.
    pub fn read_i8(&mut self) -> (r: Result<i8, AnmReadingError>)
        ensures
            read_as(r, final(self).remaining(), take_i8(old(self).remaining())),
            final(self).source() == old(self).source(),
    {
        let u = self.read_u8()?;
        if u >= 128 {
            Ok((u as i16 - 256) as i8)
        } else {
            Ok(u as i8)
        }
    }

    /// Reads one flag: any byte but 0 means set.
    pub fn read_flag(&mut self) -> (r: Result<bool, AnmReadingError>)
        ensures
            read_as(r, final(self).remaining(), take_flag(old(self).remaining())),
            final(self).source() == old(self).source(),
    {
        let u = self.read_u8()?;
        Ok(u != 0)
    }

    /// Reads sixteen bits, low byte first.
    pub fn read_u16(&mut self) -> (r: Result<u16, AnmReadingError>)
        ensures
            read_as(r, final(self).remaining(), take_u16(old(self).remaining())),
            final(self).source() == old(self).source(),
    {
        proof {
            use_type_invariant(&*self);
        }
        if self.data.len() - self.pos < 2 {
            return Err(AnmReadingError::IOError());
        }
        let b0 = self.data[self.pos];
        let b1 = self.data[self.pos + 1];
        self.pos = self.pos + 2;
        assert(self.data@.skip(self.pos as int) =~= old(self).remaining().skip(2));
        Ok(b0 as u16 + 256 * (b1 as u16))
    }

    /// Reads a signed 16-bit number, low byte first.
    pub fn read_i16(&mut self) -> (r: Result<i16, AnmReadingError>)
        ensures
            read_as(r, final(self).remaining(), take_i16(old(self).remaining())),
            final(self).source() == old(self).source(),
    {
        let u = self.read_u16()?;
        if u >= 32768 {
            Ok((u as i32 - 65536) as i16)
        } else {
            Ok(u as i16)
        }
    }

    /// Reads thirty-two bits, low byte first.
    pub fn read_u32(&mut self) -> (r: Result<u32, AnmReadingError>)
        ensures
            read_as(r, final(self).remaining(), take_u32(old(self).remaining())),
            final(self).source() == old(self).source(),
    {
        proof {
            use_type_invariant(&*self);
        }
        if self.data.len() - self.pos < 4 {
            return Err(AnmReadingError::IOError());
        }
        let b0 = self.data[self.pos];
        let b1 = self.data[self.pos + 1];
        let b2 = self.data[self.pos + 2];
        let b3 = self.data[self.pos + 3];
        self.pos = self.pos + 4;
        assert(self.data@.skip(self.pos as int) =~= old(self).remaining().skip(4));
        Ok(b0 as u32 + 256 * (b1 as u32) + 65536 * (b2 as u32) + 16777216 * (b3 as u32))
    }

    /// Reads a signed 32-bit number, low byte first.
    pub fn read_i32(&mut self) -> (r: Result<i32, AnmReadingError>)
        ensures
            read_as(r, final(self).remaining(), take_i32(old(self).remaining())),
            final(self).source() == old(self).source(),
    {
        let u = self.read_u32()?;
        if u >= 0x8000_0000 {
            Ok((u as i64 - 0x1_0000_0000) as i32)
        } else {
            Ok(u as i32)
        }
    }

    /// Reads sixty-four bits, low byte first.
    pub fn read_u64(&mut self) -> (r: Result<u64, AnmReadingError>)
        ensures
            read_as(r, final(self).remaining(), take_u64(old(self).remaining())),
            final(self).source() == old(self).source(),
    {
        let lo = self.read_u32()?;
        let hi = self.read_u32()?;
        Ok(lo as u64 + 0x1_0000_0000 * (hi as u64))
    }

    /// Reads a string field: a 16-bit length, then that many bytes of UTF-8.
    pub fn read_string(&mut self) -> (r: Result<String, AnmReadingError>)
        ensures
            match take_string(old(self).remaining()) {
                Ok((v, rest)) => r matches Ok(s) && s@ == v && final(self).remaining() == rest,
                Err(e) => r == Err::<String, AnmReadingError>(e),
            },
            final(self).source() == old(self).source(),
    {
        reveal(take_string);
        let n = self.read_u16()? as usize;
        proof {
            use_type_invariant(&*self);
        }
        if self.data.len() - self.pos < n {
            return Err(AnmReadingError::IOError());
        }
        let ghost rest = self.remaining();
        let bytes = slice_to_vec(slice_subrange(self.data, self.pos, self.pos + n));
        self.pos = self.pos + n;
        assert(bytes@ =~= rest.take(n as int));
        assert(self.data@.skip(self.pos as int) =~= rest.skip(n as int));
        match string_from_utf8(bytes) {
            Some(s) => Ok(s),
            None => Err(AnmReadingError::FromUtf8Error()),
        }
    }
}

/// `String::from_utf8` of the standard library. It gives a string exactly
/// when the bytes are UTF-8, and the string is then what they decode to.
#[verifier::external_body]
fn string_from_utf8(bytes: Vec<u8>) -> (r: Option<String>)
    ensures
        r is Some <==> valid_utf8(bytes@),
        r matches Some(s) ==> s@ == decode_utf8(bytes@),
{
    String::from_utf8(bytes).ok()
}

/// Appends one byte.
pub fn put_u8(out: &mut Vec<u8>, v: u8)
    ensures
        final(out)@ == old(out)@ + seq![v],
{
    out.push(v);
    assert(out@ =~= old(out)@ + seq![v]);
}

/// Appends one signed byte.
pub fn put_i8(out: &mut Vec<u8>, v: i8)
    ensures
        final(out)@ == old(out)@ + seq![i8_bits(v)],
{
    let u: u8 = if v < 0 {
        (v as i16 + 256) as u8
    } else {
        v as u8
    };
    put_u8(out, u);
}

/// Appends one flag: 1 for set, 0 for clear.
pub fn put_flag(out: &mut Vec<u8>, b: bool)
    ensures
        final(out)@ == old(out)@ + flag(b),
{
    put_u8(
        out,
        if b {
            1
        } else {
            0
        },
    );
}

/// Appends sixteen bits, low byte first.
pub fn put_u16(out: &mut Vec<u8>, v: u16)
    ensures
        final(out)@ == old(out)@ + le16(v),
{
    out.push((v % 256) as u8);
    out.push((v / 256) as u8);
    assert(out@ =~= old(out)@ + le16(v));
}

/// Appends a signed 16-bit number, low byte first.
pub fn put_i16(out: &mut Vec<u8>, v: i16)
    ensures
        final(out)@ == old(out)@ + le16(i16_bits(v)),
{
    let u: u16 = if v < 0 {
        (v as i32 + 65536) as u16
    } else {
        v as u16
    };
    put_u16(out, u);
}

/// Appends thirty-two bits, low byte first.
pub fn put_u32(out: &mut Vec<u8>, v: u32)
    ensures
        final(out)@ == old(out)@ + le32(v),
{
    out.push((v % 256) as u8);
    out.push((v / 256 % 256) as u8);
    out.push((v / 65536 % 256) as u8);
    out.push((v / 16777216) as u8);
    assert(out@ =~= old(out)@ + le32(v));
}

/// Appends a signed 32-bit number, low byte first.
pub fn put_i32(out: &mut Vec<u8>, v: i32)
    ensures
        final(out)@ == old(out)@ + le32(i32_bits(v)),
{
    let u: u32 = if v < 0 {
        (v as i64 + 0x1_0000_0000) as u32
    } else {
        v as u32
    };
    put_u32(out, u);
}

/// Appends sixty-four bits, low byte first.
pub fn put_u64(out: &mut Vec<u8>, v: u64)
    ensures
        final(out)@ == old(out)@ + le64(v),
{
    put_u32(out, (v % 0x1_0000_0000) as u32);
    put_u32(out, (v / 0x1_0000_0000) as u32);
    assert(out@ =~= old(out)@ + le64(v));
}

/// Appends a string field. The 16-bit length in front of it can say no more
/// than 65535 bytes: a longer string is not written, and its length is
/// returned.
pub fn put_string(out: &mut Vec<u8>, s: &str) -> (r: Result<(), usize>)
    ensures
        match r {
            Ok(()) => encode_utf8(s@).len() <= u16::MAX && final(out)@ == old(out)@
                + string_bytes(s@),
            Err(n) => n == encode_utf8(s@).len() > u16::MAX && final(out)@ == old(out)@,
        },
{
    reveal(string_bytes);
    let bytes = s.as_bytes();
    if bytes.len() > 0xffff {
        return Err(bytes.len());
    }
    put_u16(out, bytes.len() as u16);
    out.extend_from_slice(bytes);
    assert(out@ =~= old(out)@ + string_bytes(s@));
    Ok(())
}

/// Appending is associative.
pub proof fn append_assoc(a: Seq<u8>, b: Seq<u8>, c: Seq<u8>)
    ensures
        (a + b) + c == a + (b + c),
{
    assert((a + b) + c =~= a + (b + c));
}

/// A byte that was written is read back, and what follows it is left.
pub proof fn u8_round_trip(v: u8, rest: Seq<u8>)
    ensures
        take_u8(seq![v] + rest) == Ok::<(u8, Seq<u8>), AnmReadingError>((v, rest)),
{
    assert((seq![v] + rest).skip(1) =~= rest);
}

/// A signed byte that was written is read back.
pub proof fn i8_round_trip(v: i8, rest: Seq<u8>)
    ensures
        take_i8(seq![i8_bits(v)] + rest) == Ok::<(i8, Seq<u8>), AnmReadingError>((v, rest)),
{
    assert((seq![i8_bits(v)] + rest).skip(1) =~= rest);
}

/// A flag that was written is read back.
pub proof fn flag_round_trip(b: bool, rest: Seq<u8>)
    ensures
        take_flag(flag(b) + rest) == Ok::<(bool, Seq<u8>), AnmReadingError>((b, rest)),
{
    assert((flag(b) + rest).skip(1) =~= rest);
}

/// Sixteen bits that were written are read back.
pub proof fn u16_round_trip(v: u16, rest: Seq<u8>)
    ensures
        take_u16(le16(v) + rest) == Ok::<(u16, Seq<u8>), AnmReadingError>((v, rest)),
{
    assert((le16(v) + rest).skip(2) =~= rest);
}

/// A signed 16-bit number that was written is read back.
pub proof fn i16_round_trip(v: i16, rest: Seq<u8>)
    ensures
        take_i16(le16(i16_bits(v)) + rest) == Ok::<(i16, Seq<u8>), AnmReadingError>((v, rest)),
{
    u16_round_trip(i16_bits(v), rest);
}

/// Thirty-two bits that were written are read back.
pub proof fn u32_round_trip(v: u32, rest: Seq<u8>)
    ensures
        take_u32(le32(v) + rest) == Ok::<(u32, Seq<u8>), AnmReadingError>((v, rest)),
{
    let s = le32(v) + rest;
    assert(s.skip(4) =~= rest);
    assert(s[0] == v % 256 && s[1] == v / 256 % 256 && s[2] == v / 65536 % 256 && s[3] == v
        / 16777216);
}

/// A signed 32-bit number that was written is read back.
pub proof fn i32_round_trip(v: i32, rest: Seq<u8>)
    ensures
        take_i32(le32(i32_bits(v)) + rest) == Ok::<(i32, Seq<u8>), AnmReadingError>((v, rest)),
{
    u32_round_trip(i32_bits(v), rest);
}

/// Sixty-four bits that were written are read back.
pub proof fn u64_round_trip(v: u64, rest: Seq<u8>)
    ensures
        take_u64(le64(v) + rest) == Ok::<(u64, Seq<u8>), AnmReadingError>((v, rest)),
{
    let lo = (v % 0x1_0000_0000) as u32;
    let hi = (v / 0x1_0000_0000) as u32;
    assert(le64(v) + rest =~= le32(lo) + (le32(hi) + rest));
    u32_round_trip(lo, le32(hi) + rest);
    u32_round_trip(hi, rest);
}

/// A string that was written is read back, if its UTF-8 form was short
/// enough to be written.
pub proof fn string_round_trip(v: Seq<char>, rest: Seq<u8>)
    requires
        encode_utf8(v).len() <= u16::MAX,
    ensures
        take_string(string_bytes(v) + rest) == Ok::<(Seq<char>, Seq<u8>), AnmReadingError>(
            (v, rest),
        ),
{
    reveal(string_bytes);
    reveal(take_string);
    let bytes = encode_utf8(v);
    let n = bytes.len() as u16;
    assert(string_bytes(v) + rest =~= le16(n) + (bytes + rest));
    u16_round_trip(n, bytes + rest);
    assert((bytes + rest).take(n as int) =~= bytes);
    assert((bytes + rest).skip(n as int) =~= rest);
    vstd::utf8::encode_utf8_valid_utf8(v);
    vstd::utf8::encode_utf8_decode_utf8(v);
}

/// Whether taking a field left no more bytes than there were.
pub open spec fn no_longer<T>(taken: Taken<T>, s: Seq<u8>) -> bool {
    taken matches Ok((v, rest)) ==> rest.len() <= s.len()
}

/// Taking a string leaves no more bytes than there were.
pub proof fn string_leaves_no_more(s: Seq<u8>)
    ensures
        no_longer(take_string(s), s),
{
    reveal(take_string);
}

} // verus!

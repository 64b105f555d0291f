//! Byte-stream primitives: typed scalar reads from a byte buffer under a
//! chosen endianness.
//!
//! Every reader takes the whole file as a byte vector and a cursor position,
//! and returns the decoded value together with the position after it. A read
//! that would run past the end of the buffer fails with the I/O kind; the
//! contracts say exactly which integer each successful read denotes.

use vstd::prelude::*;

use crate::tdms_error::{TdmsError, TdmsErrorKind};

verus! {

/// The byte order of a segment's multi-byte fields.
#[derive(Clone, Copy, Debug, PartialEq, Eq, Structural)]
pub enum Endianness {
    Little,
    Big,
}

/// The integer denoted by two bytes under an endianness.
pub open spec fn word2(s: Seq<u8>, e: Endianness) -> int {
    match e {
        Endianness::Little => s[0] + 0x100 * s[1],
        Endianness::Big => s[1] + 0x100 * s[0],
    }
}

/// The integer denoted by four bytes under an endianness.
pub open spec fn word4(s: Seq<u8>, e: Endianness) -> int {
    match e {
        Endianness::Little => s[0] + 0x100 * s[1] + 0x1_0000 * s[2] + 0x100_0000 * s[3],
        Endianness::Big => s[3] + 0x100 * s[2] + 0x1_0000 * s[1] + 0x100_0000 * s[0],
    }
}

/// The integer denoted by eight bytes under an endianness.
pub open spec fn word8(s: Seq<u8>, e: Endianness) -> int {
    match e {
        Endianness::Little => s[0] + 0x100 * s[1] + 0x1_0000 * s[2] + 0x100_0000 * s[3]
            + 0x1_0000_0000 * s[4] + 0x100_0000_0000 * s[5] + 0x1_0000_0000_0000 * s[6]
            + 0x100_0000_0000_0000 * s[7],
        Endianness::Big => s[7] + 0x100 * s[6] + 0x1_0000 * s[5] + 0x100_0000 * s[4]
            + 0x1_0000_0000 * s[3] + 0x100_0000_0000 * s[2] + 0x1_0000_0000_0000 * s[1]
            + 0x100_0000_0000_0000 * s[0],
    }
}

/// The signed reading of an unsigned 8-bit value (two's complement).
pub open spec fn signed8(v: int) -> int {
    if v < 0x80 {
        v
    } else {
        v - 0x100
    }
}

/// The signed reading of an unsigned 16-bit value (two's complement).
pub open spec fn signed16(v: int) -> int {
    if v < 0x8000 {
        v
    } else {
        v - 0x1_0000
    }
}

/// The signed reading of an unsigned 32-bit value (two's complement).
pub open spec fn signed32(v: int) -> int {
    if v < 0x8000_0000 {
        v
    } else {
        v - 0x1_0000_0000
    }
}

/// The signed reading of an unsigned 64-bit value (two's complement).
pub open spec fn signed64(v: int) -> int {
    if v < 0x8000_0000_0000_0000 {
        v
    } else {
        v - 0x1_0000_0000_0000_0000
    }
}

/// Read one byte.
pub fn read_u8(data: &Vec<u8>, pos: usize) -> (r: Result<(u8, usize), TdmsError>)
    ensures
        pos + 1 <= data@.len() ==> (r matches Ok(p) && p.1 == pos + 1 && p.0 == data@[pos as int]),
        pos + 1 > data@.len() ==> r == Err::<(u8, usize), _>(TdmsError { kind: TdmsErrorKind::Io }),
{
    if pos < data.len() {
        Ok((data[pos], pos + 1))
    } else {
        Err(TdmsError { kind: TdmsErrorKind::Io })
    }
}

/// Read a 16-bit scalar under the given endianness.
pub fn read_u16(data: &Vec<u8>, pos: usize, e: Endianness) -> (r: Result<
    (u16, usize),
    TdmsError,
>)
    ensures
        pos + 2 <= data@.len() ==> (r matches Ok(p) && p.1 == pos + 2 && p.0 == word2(
            data@.subrange(pos as int, pos + 2),
            e,
        )),
        pos + 2 > data@.len() ==> r == Err::<(u16, usize), _>(
            TdmsError { kind: TdmsErrorKind::Io },
        ),
{
    if pos < data.len() && data.len() - pos >= 2 {
        let b0 = data[pos] as u16;
        let b1 = data[pos + 1] as u16;
        let v: u16 = match e {
            Endianness::Little => b0 + 0x100 * b1,
            Endianness::Big => b1 + 0x100 * b0,
        };
        assert(data@.subrange(pos as int, pos + 2)[0] == data@[pos as int]);
        assert(data@.subrange(pos as int, pos + 2)[1] == data@[pos + 1]);
        Ok((v, pos + 2))
    } else {
        Err(TdmsError { kind: TdmsErrorKind::Io })
    }
}

/// Read a 32-bit scalar under the given endianness.
pub fn read_u32(data: &Vec<u8>, pos: usize, e: Endianness) -> (r: Result<
    (u32, usize),
    TdmsError,
>)
    ensures
        pos + 4 <= data@.len() ==> (r matches Ok(p) && p.1 == pos + 4 && p.0 == word4(
            data@.subrange(pos as int, pos + 4),
            e,
        )),
        pos + 4 > data@.len() ==> r == Err::<(u32, usize), _>(
            TdmsError { kind: TdmsErrorKind::Io },
        ),
{
    if pos < data.len() && data.len() - pos >= 4 {
        let b0 = data[pos] as u32;
        let b1 = data[pos + 1] as u32;
        let b2 = data[pos + 2] as u32;
        let b3 = data[pos + 3] as u32;
        let v: u32 = match e {
            Endianness::Little => b0 + 0x100 * b1 + 0x1_0000 * b2 + 0x100_0000 * b3,
            Endianness::Big => b3 + 0x100 * b2 + 0x1_0000 * b1 + 0x100_0000 * b0,
        };
        proof {
            let s = data@.subrange(pos as int, pos + 4);
            assert(s[0] == data@[pos as int]);
            assert(s[1] == data@[pos + 1]);
            assert(s[2] == data@[pos + 2]);
            assert(s[3] == data@[pos + 3]);
        }
        Ok((v, pos + 4))
    } else {
        Err(TdmsError { kind: TdmsErrorKind::Io })
    }
}

/// Read a 64-bit scalar under the given endianness.
pub fn read_u64(data: &Vec<u8>, pos: usize, e: Endianness) -> (r: Result<
    (u64, usize),
    TdmsError,
>)
    ensures
        pos + 8 <= data@.len() ==> (r matches Ok(p) && p.1 == pos + 8 && p.0 == word8(
            data@.subrange(pos as int, pos + 8),
            e,
        )),
        pos + 8 > data@.len() ==> r == Err::<(u64, usize), _>(
            TdmsError { kind: TdmsErrorKind::Io },
        ),
{
    if pos < data.len() && data.len() - pos >= 8 {
        let b0 = data[pos] as u64;
        let b1 = data[pos + 1] as u64;
        let b2 = data[pos + 2] as u64;
        let b3 = data[pos + 3] as u64;
        let b4 = data[pos + 4] as u64;
        let b5 = data[pos + 5] as u64;
        let b6 = data[pos + 6] as u64;
        let b7 = data[pos + 7] as u64;
        let v: u64 = match e {
            Endianness::Little => b0 + 0x100 * b1 + 0x1_0000 * b2 + 0x100_0000 * b3 + 0x1_0000_0000
                * b4 + 0x100_0000_0000 * b5 + 0x1_0000_0000_0000 * b6 + 0x100_0000_0000_0000 * b7,
            Endianness::Big => b7 + 0x100 * b6 + 0x1_0000 * b5 + 0x100_0000 * b4 + 0x1_0000_0000
                * b3 + 0x100_0000_0000 * b2 + 0x1_0000_0000_0000 * b1 + 0x100_0000_0000_0000 * b0,
        };
        proof {
            let s = data@.subrange(pos as int, pos + 8);
            assert(s[0] == data@[pos as int]);
            assert(s[1] == data@[pos + 1]);
            assert(s[2] == data@[pos + 2]);
            assert(s[3] == data@[pos + 3]);
            assert(s[4] == data@[pos + 4]);
            assert(s[5] == data@[pos + 5]);
            assert(s[6] == data@[pos + 6]);
            assert(s[7] == data@[pos + 7]);
        }
        Ok((v, pos + 8))
    } else {
        Err(TdmsError { kind: TdmsErrorKind::Io })
    }
}

/// Read a signed 64-bit scalar under the given endianness.
pub fn read_i64(data: &Vec<u8>, pos: usize, e: Endianness) -> (r: Result<
    (i64, usize),
    TdmsError,
>)
    ensures
        pos + 8 <= data@.len() ==> (r matches Ok(p) && p.1 == pos + 8 && p.0 == signed64(
            word8(data@.subrange(pos as int, pos + 8), e),
        )),
        pos + 8 > data@.len() ==> r == Err::<(i64, usize), _>(
            TdmsError { kind: TdmsErrorKind::Io },
        ),
{
    match read_u64(data, pos, e) {
        Ok((v, p)) => {
            let s: i64 = v as i64;
            assert(v < 0x8000_0000_0000_0000 ==> (v as i64) == v) by (bit_vector);
            assert(v >= 0x8000_0000_0000_0000 ==> (v as i64) == v - 0x1_0000_0000_0000_0000)
                by (bit_vector);
            Ok((s, p))
        },
        Err(err) => Err(err),
    }
}

/// Read a signed byte.
pub fn read_i8(data: &Vec<u8>, pos: usize) -> (r: Result<(i8, usize), TdmsError>)
    ensures
        pos + 1 <= data@.len() ==> (r matches Ok(p) && p.1 == pos + 1 && p.0 == signed8(
            data@[pos as int] as int,
        )),
        pos + 1 > data@.len() ==> r == Err::<(i8, usize), _>(TdmsError { kind: TdmsErrorKind::Io }),
{
    match read_u8(data, pos) {
        Ok((v, p)) => {
            let s: i8 = v as i8;
            assert(v < 0x80 ==> (v as i8) == v) by (bit_vector);
            assert(v >= 0x80 ==> (v as i8) == v - 0x100) by (bit_vector);
            Ok((s, p))
        },
        Err(err) => Err(err),
    }
}

/// Read a signed 16-bit scalar under the given endianness.
pub fn read_i16(data: &Vec<u8>, pos: usize, e: Endianness) -> (r: Result<
    (i16, usize),
    TdmsError,
>)
    ensures
        pos + 2 <= data@.len() ==> (r matches Ok(p) && p.1 == pos + 2 && p.0 == signed16(
            word2(data@.subrange(pos as int, pos + 2), e),
        )),
        pos + 2 > data@.len() ==> r == Err::<(i16, usize), _>(
            TdmsError { kind: TdmsErrorKind::Io },
        ),
{
    match read_u16(data, pos, e) {
        Ok((v, p)) => {
            let s: i16 = v as i16;
            assert(v < 0x8000 ==> (v as i16) == v) by (bit_vector);
            assert(v >= 0x8000 ==> (v as i16) == v - 0x1_0000) by (bit_vector);
            Ok((s, p))
        },
        Err(err) => Err(err),
    }
}

/// Read a signed 32-bit scalar under the given endianness.
pub fn read_i32(data: &Vec<u8>, pos: usize, e: Endianness) -> (r: Result<
    (i32, usize),
    TdmsError,
>)
    ensures
        pos + 4 <= data@.len() ==> (r matches Ok(p) && p.1 == pos + 4 && p.0 == signed32(
            word4(data@.subrange(pos as int, pos + 4), e),
        )),
        pos + 4 > data@.len() ==> r == Err::<(i32, usize), _>(
            TdmsError { kind: TdmsErrorKind::Io },
        ),
{
    match read_u32(data, pos, e) {
        Ok((v, p)) => {
            let s: i32 = v as i32;
            assert(v < 0x8000_0000 ==> (v as i32) == v) by (bit_vector);
            assert(v >= 0x8000_0000 ==> (v as i32) == v - 0x1_0000_0000) by (bit_vector);
            Ok((s, p))
        },
        Err(err) => Err(err),
    }
}

/// Copy `n` bytes out of the buffer.
pub fn read_bytes(data: &Vec<u8>, pos: usize, n: usize) -> (r: Result<(Vec<u8>, usize), TdmsError>)
    ensures
        pos + n <= data@.len() ==> (r matches Ok(p) && p.1 == pos + n && p.0@ == data@.subrange(
            pos as int,
            pos + n,
        )),
        pos + n > data@.len() ==> r == Err::<(Vec<u8>, usize), _>(
            TdmsError { kind: TdmsErrorKind::Io },
        ),
{
    if pos <= data.len() && data.len() - pos >= n {
        let mut out: Vec<u8> = Vec::new();
        let mut i: usize = 0;
        while i < n
            invariant
                pos + n <= data@.len(),
                data@.len() <= usize::MAX,
                i <= n,
                out@ == data@.subrange(pos as int, pos + i),
            decreases n - i,
        {
            out.push(data[pos + i]);
            i = i + 1;
            assert(out@ =~= data@.subrange(pos as int, pos + i));
        }
        Ok((out, pos + n))
    } else {
        Err(TdmsError { kind: TdmsErrorKind::Io })
    }
}

} // verus!

//! The type registry and scalar decoding: ToC flags, the closed set of raw
//! type codes with their fixed sizes, and the decoding of single property
//! values and length-prefixed strings.

use vstd::prelude::*;

use crate::bytes::{
    read_bytes, read_i16, read_i32, read_i64, read_i8, read_u16, read_u32, read_u64, read_u8,
    signed16, signed32, signed64, signed8, word2, word4, word8, Endianness,
};
use crate::tdms_error::{TdmsError, TdmsErrorKind};
use crate::timestamps::{timestamp_value, TimeStamp};

verus! {

/// The flags of a segment's table-of-contents word.
#[derive(Clone, Copy, Debug, PartialEq, Eq, Structural)]
pub enum TocProperties {
    /// The segment carries a metadata block.
    KTocMetaData,
    /// The segment carries raw data.
    KTocRawData,
    /// The segment carries DAQmx raw data.
    KTocDAQmxRawData,
    /// Raw data is interleaved (else contiguous).
    KTocInterleavedData,
    /// Every multi-byte value after the first eight header bytes is
    /// big-endian.
    KTocBigEndian,
    /// The object roster of this segment replaces the live list.
    KTocNewObjList,
}

/// The bit of the ToC word that carries a flag.
pub open spec fn flag_mask(p: TocProperties) -> u32 {
    match p {
        TocProperties::KTocMetaData => 0x2,
        TocProperties::KTocNewObjList => 0x4,
        TocProperties::KTocRawData => 0x8,
        TocProperties::KTocInterleavedData => 0x20,
        TocProperties::KTocBigEndian => 0x40,
        TocProperties::KTocDAQmxRawData => 0x80,
    }
}

/// Whether a ToC word has a flag set.
pub open spec fn has_toc(flags: u32, p: TocProperties) -> bool {
    flags & flag_mask(p) == flag_mask(p)
}

/// A segment's table-of-contents word.
#[derive(Clone, Copy, Debug, PartialEq, Eq, Structural)]
pub struct TocMask {
    pub flags: u32,
}

impl TocMask {
    /// Wrap a flag word read from a segment header.
    pub fn from_flags(flags: u32) -> (r: TocMask)
        ensures
            r.flags == flags,
    {
        TocMask { flags }
    }

    /// Test one flag of the word.
    pub fn has_flag(&self, flag: TocProperties) -> (r: bool)
        ensures
            r == has_toc(self.flags, flag),
    {
        let mask: u32 = match flag {
            TocProperties::KTocMetaData => 0x2,
            TocProperties::KTocNewObjList => 0x4,
            TocProperties::KTocRawData => 0x8,
            TocProperties::KTocInterleavedData => 0x20,
            TocProperties::KTocBigEndian => 0x40,
            TocProperties::KTocDAQmxRawData => 0x80,
        };
        (self.flags & mask) == mask
    }
}

/// The closed set of raw type codes a TDMS file can declare.
#[derive(Clone, Copy, Debug, PartialEq, Eq, Structural)]
pub enum DataTypeRaw {
    Void,
    I8,
    I16,
    I32,
    I64,
    U8,
    U16,
    U32,
    U64,
    SingleFloat,
    DoubleFloat,
    ExtendedFloat,
    SingleFloatWithUnit,
    DoubleFloatWithUnit,
    ExtendedFloatWithUnit,
    TdmsString,
    Boolean,
    TimeStamp,
    FixedPoint,
    ComplexSingleFloat,
    ComplexDoubleFloat,
    DAQmxRawData,
}

/// The on-disk code of each raw type.
pub open spec fn type_code(t: DataTypeRaw) -> u32 {
    match t {
        DataTypeRaw::Void => 0,
        DataTypeRaw::I8 => 1,
        DataTypeRaw::I16 => 2,
        DataTypeRaw::I32 => 3,
        DataTypeRaw::I64 => 4,
        DataTypeRaw::U8 => 5,
        DataTypeRaw::U16 => 6,
        DataTypeRaw::U32 => 7,
        DataTypeRaw::U64 => 8,
        DataTypeRaw::SingleFloat => 9,
        DataTypeRaw::DoubleFloat => 10,
        DataTypeRaw::ExtendedFloat => 11,
        DataTypeRaw::DoubleFloatWithUnit => 12,
        DataTypeRaw::ExtendedFloatWithUnit => 13,
        DataTypeRaw::SingleFloatWithUnit => 0x19,
        DataTypeRaw::TdmsString => 0x20,
        DataTypeRaw::Boolean => 0x21,
        DataTypeRaw::TimeStamp => 0x44,
        DataTypeRaw::FixedPoint => 0x4F,
        DataTypeRaw::ComplexSingleFloat => 0x0008_000C,
        DataTypeRaw::ComplexDoubleFloat => 0x0010_000D,
        DataTypeRaw::DAQmxRawData => 0xFFFF_FFFF,
    }
}

/// The fixed byte size of each raw type. The string type has none; its
/// entry here is never relied on (the exec query fails on it).
pub open spec fn type_size(t: DataTypeRaw) -> int {
    match t {
        DataTypeRaw::Void => 0,
        DataTypeRaw::I8 => 1,
        DataTypeRaw::I16 => 2,
        DataTypeRaw::I32 => 4,
        DataTypeRaw::I64 => 8,
        DataTypeRaw::U8 => 1,
        DataTypeRaw::U16 => 2,
        DataTypeRaw::U32 => 4,
        DataTypeRaw::U64 => 8,
        DataTypeRaw::SingleFloat => 4,
        DataTypeRaw::DoubleFloat => 8,
        DataTypeRaw::ExtendedFloat => 10,
        DataTypeRaw::SingleFloatWithUnit => 4,
        DataTypeRaw::DoubleFloatWithUnit => 8,
        DataTypeRaw::ExtendedFloatWithUnit => 10,
        DataTypeRaw::TdmsString => 0,
        DataTypeRaw::Boolean => 1,
        DataTypeRaw::TimeStamp => 16,
        DataTypeRaw::FixedPoint => 4,
        DataTypeRaw::ComplexSingleFloat => 8,
        DataTypeRaw::ComplexDoubleFloat => 16,
        DataTypeRaw::DAQmxRawData => 0,
    }
}

impl DataTypeRaw {
    /// Decode a raw type code, failing on a code outside the registry.
    pub fn from_u32(raw_id: u32) -> (r: Result<DataTypeRaw, TdmsError>)
        ensures
            r matches Ok(t) ==> type_code(t) == raw_id,
            r matches Err(err) ==> err.kind == TdmsErrorKind::RawDataTypeNotFound && (forall|
                t: DataTypeRaw,
            |
                type_code(t) != raw_id),
    {
        match raw_id {
            0 => Ok(DataTypeRaw::Void),
            1 => Ok(DataTypeRaw::I8),
            2 => Ok(DataTypeRaw::I16),
            3 => Ok(DataTypeRaw::I32),
            4 => Ok(DataTypeRaw::I64),
            5 => Ok(DataTypeRaw::U8),
            6 => Ok(DataTypeRaw::U16),
            7 => Ok(DataTypeRaw::U32),
            8 => Ok(DataTypeRaw::U64),
            9 => Ok(DataTypeRaw::SingleFloat),
            10 => Ok(DataTypeRaw::DoubleFloat),
            11 => Ok(DataTypeRaw::ExtendedFloat),
            12 => Ok(DataTypeRaw::DoubleFloatWithUnit),
            13 => Ok(DataTypeRaw::ExtendedFloatWithUnit),
            0x19 => Ok(DataTypeRaw::SingleFloatWithUnit),
            0x20 => Ok(DataTypeRaw::TdmsString),
            0x21 => Ok(DataTypeRaw::Boolean),
            0x44 => Ok(DataTypeRaw::TimeStamp),
            0x4F => Ok(DataTypeRaw::FixedPoint),
            0x0008_000C => Ok(DataTypeRaw::ComplexSingleFloat),
            0x0010_000D => Ok(DataTypeRaw::ComplexDoubleFloat),
            0xFFFF_FFFF => Ok(DataTypeRaw::DAQmxRawData),
            _ => Err(TdmsError { kind: TdmsErrorKind::RawDataTypeNotFound }),
        }
    }

    /// The size of the type in bytes; asking it of the string type is an
    /// error, its size being segment-local data of the file.
    pub fn size(&self) -> (r: Result<u64, TdmsError>)
        ensures
            *self != DataTypeRaw::TdmsString ==> r == Ok::<u64, TdmsError>(
                type_size(*self) as u64,
            ),
            *self == DataTypeRaw::TdmsString ==> r == Err::<u64, _>(
                TdmsError { kind: TdmsErrorKind::StringSizeNotDefined },
            ),
    {
        match self {
            DataTypeRaw::Void => Ok(0),
            DataTypeRaw::I8 => Ok(1),
            DataTypeRaw::I16 => Ok(2),
            DataTypeRaw::I32 => Ok(4),
            DataTypeRaw::I64 => Ok(8),
            DataTypeRaw::U8 => Ok(1),
            DataTypeRaw::U16 => Ok(2),
            DataTypeRaw::U32 => Ok(4),
            DataTypeRaw::U64 => Ok(8),
            DataTypeRaw::SingleFloat => Ok(4),
            DataTypeRaw::DoubleFloat => Ok(8),
            DataTypeRaw::ExtendedFloat => Ok(10),
            DataTypeRaw::SingleFloatWithUnit => Ok(4),
            DataTypeRaw::DoubleFloatWithUnit => Ok(8),
            DataTypeRaw::ExtendedFloatWithUnit => Ok(10),
            DataTypeRaw::TdmsString => Err(
                TdmsError { kind: TdmsErrorKind::StringSizeNotDefined },
            ),
            DataTypeRaw::Boolean => Ok(1),
            DataTypeRaw::TimeStamp => Ok(16),
            DataTypeRaw::FixedPoint => Ok(4),
            DataTypeRaw::ComplexSingleFloat => Ok(8),
            DataTypeRaw::ComplexDoubleFloat => Ok(16),
            DataTypeRaw::DAQmxRawData => Ok(0),
        }
    }
}

/// One decoded property value. The two floating-point variants carry the
/// raw bit pattern of the on-disk IEEE-754 value; turning the bits into a
/// machine float is the caller's affair.
#[derive(Clone, Debug, PartialEq)]
pub enum DataType {
    Void,
    Boolean(bool),
    I8(i8),
    I16(i16),
    I32(i32),
    I64(i64),
    U8(u8),
    U16(u16),
    U32(u32),
    U64(u64),
    /// The bit pattern of a 32-bit IEEE-754 value.
    Float(u32),
    /// The bit pattern of a 64-bit IEEE-754 value.
    Double(u64),
    TdmsString(String),
    TimeStamp(TimeStamp),
    /// The bit pattern of the eight-byte value stored under the DAQmx
    /// raw-data code, captured and not interpreted.
    DaqMx(u64),
}

/// One loaded channel, tagged by its raw type. As with [`DataType`], the
/// floating-point variants carry raw bit patterns.
#[derive(Clone, Debug, PartialEq)]
pub enum DataTypeVec {
    Void,
    Boolean(Vec<bool>),
    I8(Vec<i8>),
    I16(Vec<i16>),
    I32(Vec<i32>),
    I64(Vec<i64>),
    U8(Vec<u8>),
    U16(Vec<u16>),
    U32(Vec<u32>),
    U64(Vec<u64>),
    /// Bit patterns of 32-bit IEEE-754 values.
    Float(Vec<u32>),
    /// Bit patterns of 64-bit IEEE-754 values.
    Double(Vec<u64>),
    TdmsString(Vec<String>),
    TimeStamp(Vec<TimeStamp>),
}

/// The number of values a loaded channel holds.
pub open spec fn data_vec_len(v: DataTypeVec) -> nat {
    match v {
        DataTypeVec::Void => 0,
        DataTypeVec::Boolean(d) => d@.len(),
        DataTypeVec::I8(d) => d@.len(),
        DataTypeVec::I16(d) => d@.len(),
        DataTypeVec::I32(d) => d@.len(),
        DataTypeVec::I64(d) => d@.len(),
        DataTypeVec::U8(d) => d@.len(),
        DataTypeVec::U16(d) => d@.len(),
        DataTypeVec::U32(d) => d@.len(),
        DataTypeVec::U64(d) => d@.len(),
        DataTypeVec::Float(d) => d@.len(),
        DataTypeVec::Double(d) => d@.len(),
        DataTypeVec::TdmsString(d) => d@.len(),
        DataTypeVec::TimeStamp(d) => d@.len(),
    }
}

impl DataTypeVec {
    /// The number of values loaded.
    pub fn len(&self) -> (r: usize)
        ensures
            r == data_vec_len(*self),
    {
        match self {
            DataTypeVec::Void => 0,
            DataTypeVec::Boolean(d) => d.len(),
            DataTypeVec::I8(d) => d.len(),
            DataTypeVec::I16(d) => d.len(),
            DataTypeVec::I32(d) => d.len(),
            DataTypeVec::I64(d) => d.len(),
            DataTypeVec::U8(d) => d.len(),
            DataTypeVec::U16(d) => d.len(),
            DataTypeVec::U32(d) => d.len(),
            DataTypeVec::U64(d) => d.len(),
            DataTypeVec::Float(d) => d.len(),
            DataTypeVec::Double(d) => d.len(),
            DataTypeVec::TdmsString(d) => d.len(),
            DataTypeVec::TimeStamp(d) => d.len(),
        }
    }
}

/// Relies on `String::from_utf8`: it succeeds exactly on valid UTF-8 and
/// returns its decoding, as vstd's UTF-8 model states it.
#[verifier::external_body]
pub(crate) fn string_from_utf8(bytes: Vec<u8>) -> (r: Result<String, TdmsError>)
    ensures
        r is Ok <==> vstd::utf8::valid_utf8(bytes@),
        r matches Ok(s) ==> s@ == vstd::utf8::decode_utf8(bytes@),
        r matches Err(err) ==> err.kind == TdmsErrorKind::FromUtf8,
{
    match String::from_utf8(bytes) {
        Ok(s) => Ok(s),
        Err(_) => Err(TdmsError { kind: TdmsErrorKind::FromUtf8 }),
    }
}

/// What a length-prefixed string starting at `pos` denotes: its character
/// sequence and the position after it, or the kind of failure.
pub open spec fn string_decode(s: Seq<u8>, pos: int, e: Endianness) -> Result<
    (Seq<char>, int),
    TdmsErrorKind,
> {
    if pos + 4 > s.len() {
        Err(TdmsErrorKind::Io)
    } else {
        let l = word4(s.subrange(pos, pos + 4), e);
        if pos + 4 + l > s.len() {
            Err(TdmsErrorKind::Io)
        } else {
            let b = s.subrange(pos + 4, pos + 4 + l);
            if vstd::utf8::valid_utf8(b) {
                Ok((vstd::utf8::decode_utf8(b), pos + 4 + l))
            } else {
                Err(TdmsErrorKind::FromUtf8)
            }
        }
    }
}

/// Read a length-prefixed UTF-8 string: a four-byte length, then that many
/// bytes.
pub fn read_string(data: &Vec<u8>, pos: usize, e: Endianness) -> (r: Result<
    (String, usize),
    TdmsError,
>)
    ensures
        string_decode(data@, pos as int, e) matches Ok(p) ==> (r matches Ok(q) && q.0@ == p.0
            && q.1 == p.1),
        string_decode(data@, pos as int, e) matches Err(k) ==> (r matches Err(err) && err.kind
            == k),
{
    let (len32, p1) = match read_u32(data, pos, e) {
        Ok(x) => x,
        Err(err) => {
            return Err(err);
        },
    };
    let n = len32 as usize;
    let (buf, p2) = match read_bytes(data, p1, n) {
        Ok(x) => x,
        Err(err) => {
            return Err(err);
        },
    };
    match string_from_utf8(buf) {
        Ok(s) => Ok((s, p2)),
        Err(err) => Err(err),
    }
}

/// Two distinct raw types never share an on-disk code.
pub proof fn lemma_type_code_injective(a: DataTypeRaw, b: DataTypeRaw)
    ensures
        type_code(a) == type_code(b) ==> a == b,
{
}

/// Whether a raw type is decoded as a fixed-width property value.
pub open spec fn is_fixed_prop(t: DataTypeRaw) -> bool {
    match t {
        DataTypeRaw::U8 | DataTypeRaw::I8 | DataTypeRaw::Boolean => true,
        DataTypeRaw::U16 | DataTypeRaw::I16 => true,
        DataTypeRaw::U32 | DataTypeRaw::I32 | DataTypeRaw::SingleFloat => true,
        DataTypeRaw::U64 | DataTypeRaw::I64 | DataTypeRaw::DoubleFloat => true,
        DataTypeRaw::TimeStamp => true,
        DataTypeRaw::DAQmxRawData => true,
        _ => false,
    }
}

/// How many bytes a fixed-width property value occupies.
pub open spec fn prop_width(t: DataTypeRaw) -> int {
    match t {
        DataTypeRaw::U8 | DataTypeRaw::I8 | DataTypeRaw::Boolean => 1,
        DataTypeRaw::U16 | DataTypeRaw::I16 => 2,
        DataTypeRaw::U32 | DataTypeRaw::I32 | DataTypeRaw::SingleFloat => 4,
        DataTypeRaw::U64 | DataTypeRaw::I64 | DataTypeRaw::DoubleFloat => 8,
        DataTypeRaw::TimeStamp => 16,
        DataTypeRaw::DAQmxRawData => 8,
        _ => 0,
    }
}

/// The fixed-width property value denoted by the bytes at `pos`.
pub open spec fn prop_value(s: Seq<u8>, pos: int, e: Endianness, t: DataTypeRaw) -> DataType {
    match t {
        DataTypeRaw::U8 => DataType::U8(s[pos]),
        DataTypeRaw::I8 => DataType::I8(signed8(s[pos] as int) as i8),
        DataTypeRaw::Boolean => DataType::Boolean(s[pos] != 0),
        DataTypeRaw::U16 => DataType::U16(word2(s.subrange(pos, pos + 2), e) as u16),
        DataTypeRaw::I16 => DataType::I16(signed16(word2(s.subrange(pos, pos + 2), e)) as i16),
        DataTypeRaw::U32 => DataType::U32(word4(s.subrange(pos, pos + 4), e) as u32),
        DataTypeRaw::I32 => DataType::I32(signed32(word4(s.subrange(pos, pos + 4), e)) as i32),
        DataTypeRaw::SingleFloat => DataType::Float(word4(s.subrange(pos, pos + 4), e) as u32),
        DataTypeRaw::U64 => DataType::U64(word8(s.subrange(pos, pos + 8), e) as u64),
        DataTypeRaw::I64 => DataType::I64(signed64(word8(s.subrange(pos, pos + 8), e)) as i64),
        DataTypeRaw::DoubleFloat => DataType::Double(word8(s.subrange(pos, pos + 8), e) as u64),
        DataTypeRaw::TimeStamp => DataType::TimeStamp(
            timestamp_value(s.subrange(pos, pos + 16), e),
        ),
        DataTypeRaw::DAQmxRawData => DataType::DaqMx(word8(s.subrange(pos, pos + 8), e) as u64),
        _ => DataType::Void,
    }
}

/// Decode one fixed-width property value.
#[verifier::rlimit(60)]
fn read_fixed_prop(data: &Vec<u8>, pos: usize, e: Endianness, rawtype: DataTypeRaw) -> (r: Result<
    (DataType, usize),
    TdmsError,
>)
    requires
        is_fixed_prop(rawtype),
    ensures
        pos + prop_width(rawtype) <= data@.len() ==> (r matches Ok(x) && x.1 == pos + prop_width(
            rawtype,
        ) && x.0 == prop_value(data@, pos as int, e, rawtype)),
        pos + prop_width(rawtype) > data@.len() ==> r == Err::<(DataType, usize), _>(
            TdmsError { kind: TdmsErrorKind::Io },
        ),
{
    match rawtype {
        DataTypeRaw::U8 => match read_u8(data, pos) {
            Ok((v, p)) => Ok((DataType::U8(v), p)),
            Err(err) => Err(err),
        },
        DataTypeRaw::I8 => match read_i8(data, pos) {
            Ok((v, p)) => Ok((DataType::I8(v), p)),
            Err(err) => Err(err),
        },
        DataTypeRaw::Boolean => match read_u8(data, pos) {
            Ok((v, p)) => Ok((DataType::Boolean(v != 0), p)),
            Err(err) => Err(err),
        },
        DataTypeRaw::U16 => match read_u16(data, pos, e) {
            Ok((v, p)) => Ok((DataType::U16(v), p)),
            Err(err) => Err(err),
        },
        DataTypeRaw::I16 => match read_i16(data, pos, e) {
            Ok((v, p)) => Ok((DataType::I16(v), p)),
            Err(err) => Err(err),
        },
        DataTypeRaw::U32 => match read_u32(data, pos, e) {
            Ok((v, p)) => Ok((DataType::U32(v), p)),
            Err(err) => Err(err),
        },
        DataTypeRaw::I32 => match read_i32(data, pos, e) {
            Ok((v, p)) => Ok((DataType::I32(v), p)),
            Err(err) => Err(err),
        },
        DataTypeRaw::SingleFloat => match read_u32(data, pos, e) {
            Ok((v, p)) => Ok((DataType::Float(v), p)),
            Err(err) => Err(err),
        },
        DataTypeRaw::U64 => match read_u64(data, pos, e) {
            Ok((v, p)) => Ok((DataType::U64(v), p)),
            Err(err) => Err(err),
        },
        DataTypeRaw::I64 => match read_i64(data, pos, e) {
            Ok((v, p)) => Ok((DataType::I64(v), p)),
            Err(err) => Err(err),
        },
        DataTypeRaw::DoubleFloat => match read_u64(data, pos, e) {
            Ok((v, p)) => Ok((DataType::Double(v), p)),
            Err(err) => Err(err),
        },
        DataTypeRaw::TimeStamp => read_timestamp_prop(data, pos, e),
        DataTypeRaw::DAQmxRawData => match read_u64(data, pos, e) {
            Ok((v, p)) => Ok((DataType::DaqMx(v), p)),
            Err(err) => Err(err),
        },
        _ => Err(TdmsError { kind: TdmsErrorKind::NotImplemented }),
    }
}

/// Decode one sixteen-byte timestamp property value.
fn read_timestamp_prop(data: &Vec<u8>, pos: usize, e: Endianness) -> (r: Result<
    (DataType, usize),
    TdmsError,
>)
    ensures
        pos + 16 <= data@.len() ==> (r matches Ok(x) && x.1 == pos + 16 && x.0
            == DataType::TimeStamp(timestamp_value(data@.subrange(pos as int, pos + 16), e))),
        pos + 16 > data@.len() ==> r == Err::<(DataType, usize), _>(
            TdmsError { kind: TdmsErrorKind::Io },
        ),
{
    match read_i64(data, pos, e) {
        Ok((epoch, p1)) => match read_u64(data, p1, e) {
            Ok((radix, p2)) => {
                proof {
                    if pos + 16 <= data@.len() {
                        let s16 = data@.subrange(pos as int, pos + 16);
                        assert(s16.subrange(0, 8) =~= data@.subrange(pos as int, pos + 8));
                        assert(s16.subrange(8, 16) =~= data@.subrange(pos + 8, pos + 16));
                    }
                }
                Ok((DataType::TimeStamp(TimeStamp { epoch, radix }), p2))
            },
            Err(err) => Err(err),
        },
        Err(err) => Err(err),
    }
}

/// Decode one property value of the given raw type. A type outside the
/// fixed-width set and the string type has no property encoding offered
/// here and is refused, so that no later field is read from a shifted
/// position.
pub fn read_datatype(data: &Vec<u8>, pos: usize, e: Endianness, rawtype: DataTypeRaw) -> (r:
    Result<(DataType, usize), TdmsError>)
    ensures
        is_fixed_prop(rawtype) ==> ((pos + prop_width(rawtype) <= data@.len() ==> (r matches Ok(x)
            && x.1 == pos + prop_width(rawtype) && x.0 == prop_value(data@, pos as int, e, rawtype)))
            && (pos + prop_width(rawtype) > data@.len() ==> r == Err::<(DataType, usize), _>(
            TdmsError { kind: TdmsErrorKind::Io },
        ))),
        rawtype == DataTypeRaw::TdmsString ==> ((string_decode(data@, pos as int, e) matches Ok(p)
            ==> (r matches Ok(x) && x.1 == p.1 && (x.0 matches DataType::TdmsString(q) && q@
            == p.0))) && (string_decode(data@, pos as int, e) matches Err(k) ==> (r matches Err(err)
            && err.kind == k))),
        !is_fixed_prop(rawtype) && rawtype != DataTypeRaw::TdmsString ==> r == Err::<
            (DataType, usize),
            _,
        >(TdmsError { kind: TdmsErrorKind::NotImplemented }),
{
    match rawtype {
        DataTypeRaw::TdmsString => match read_string(data, pos, e) {
            Ok((s, p)) => Ok((DataType::TdmsString(s), p)),
            Err(err) => Err(err),
        },
        DataTypeRaw::U8 | DataTypeRaw::I8 | DataTypeRaw::Boolean | DataTypeRaw::U16
        | DataTypeRaw::I16 | DataTypeRaw::U32 | DataTypeRaw::I32 | DataTypeRaw::SingleFloat
        | DataTypeRaw::U64 | DataTypeRaw::I64 | DataTypeRaw::DoubleFloat
        | DataTypeRaw::TimeStamp | DataTypeRaw::DAQmxRawData => read_fixed_prop(
            data,
            pos,
            e,
            rawtype,
        ),
        _ => Err(TdmsError { kind: TdmsErrorKind::NotImplemented }),
    }
}

/// The position after one property starting at `pos` — its name, its
/// type-code word, and its value — or nothing if the property does not
/// parse there: a truncated or ill-formed name, an unknown type code, a
/// value running past the end, or a type with no offered encoding.
pub open spec fn prop_end(data: Seq<u8>, pos: int, e: Endianness) -> Option<int> {
    match string_decode(data, pos, e) {
        Err(_) => None,
        Ok(nm) => {
            let cpos = nm.1;
            if cpos + 4 > data.len() {
                None
            } else {
                let code = word4(data.subrange(cpos, cpos + 4), e);
                if exists|t: DataTypeRaw| type_code(t) == code {
                    let t = choose|t: DataTypeRaw| type_code(t) == code;
                    if is_fixed_prop(t) {
                        if cpos + 4 + prop_width(t) <= data.len() {
                            Some(cpos + 4 + prop_width(t))
                        } else {
                            None
                        }
                    } else if t == DataTypeRaw::TdmsString {
                        match string_decode(data, cpos + 4, e) {
                            Ok(sv) => Some(sv.1),
                            Err(_) => None,
                        }
                    } else {
                        None
                    }
                } else {
                    None
                }
            }
        },
    }
}

/// The position after `n` properties in a row, or nothing if any of
/// them fails to parse.
pub open spec fn props_end(data: Seq<u8>, pos: int, e: Endianness, n: nat) -> Option<int>
    decreases n,
{
    if n == 0 {
        Some(pos)
    } else {
        match prop_end(data, pos, e) {
            None => None,
            Some(q) => props_end(data, q, e, (n - 1) as nat),
        }
    }
}

/// One more property extends the chain at its end.
pub proof fn lemma_props_end_snoc(data: Seq<u8>, pos: int, e: Endianness, n: nat)
    ensures
        props_end(data, pos, e, n + 1) == (match props_end(data, pos, e, n) {
            Some(q) => prop_end(data, q, e),
            None => None,
        }),
    decreases n,
{
    match prop_end(data, pos, e) {
        None => {
            assert(props_end(data, pos, e, n + 1) is None);
        },
        Some(q) => {
            assert(props_end(data, pos, e, n + 1) == props_end(data, q, e, n));
            if n == 0 {
                assert(props_end(data, q, e, 0) == Some(q));
            } else {
                lemma_props_end_snoc(data, q, e, (n - 1) as nat);
            }
        },
    }
}

/// A chain that parses whole parses at every prefix.
pub proof fn lemma_props_end_prefix(data: Seq<u8>, pos: int, e: Endianness, n: nat, k: nat)
    requires
        k <= n,
        props_end(data, pos, e, n) is Some,
    ensures
        props_end(data, pos, e, k) is Some,
    decreases n,
{
    if k > 0 && n > 0 {
        match prop_end(data, pos, e) {
            Some(q) => {
                lemma_props_end_prefix(data, q, e, (n - 1) as nat, (k - 1) as nat);
            },
            None => {},
        }
    }
}

} // verus!

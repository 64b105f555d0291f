//! The loader: executing a channel's read plan into one typed vector.
//!
//! A single generic routine walks the read pairs; each sample type
//! supplies its width and its decoding, so the contracts can say exactly
//! which bytes every loaded value came from.

use vstd::prelude::*;

use crate::bytes::{
    read_bytes, read_i16, read_i32, read_i64, read_i8, read_u16, read_u32, read_u64, read_u8,
    signed16, signed32, signed64, signed8, word2, word4, word8, Endianness,
};
use crate::tdms_datatypes::{data_vec_len, string_from_utf8, DataTypeRaw, DataTypeVec};
use crate::tdms_error::{TdmsError, TdmsErrorKind};
use crate::tdms_map::{sum_values, wf_object_map, ObjectMap, ReadPair};
use crate::timestamps::{timestamp_value, TimeStamp};

verus! {

/// The byte distance between two values of a channel inside a pair: its
/// declared stride for interleaved pairs, nothing otherwise.
pub open spec fn stride_of(p: ReadPair) -> int {
    if p.interleaved {
        match p.stride {
            Some(s) => s as int,
            None => 0,
        }
    } else {
        0
    }
}

/// A fixed-width sample type: its width, and which value a window of
/// that many bytes denotes.
pub trait RawSample: Sized {
    /// How many bytes one sample occupies.
    spec fn sample_bytes() -> int;

    /// The sample a window of `sample_bytes` bytes denotes.
    spec fn decode(s: Seq<u8>, e: Endianness) -> Self;

    /// The width, as a run-time value.
    fn sample_bytes_exec() -> (n: u64)
        ensures
            n == Self::sample_bytes(),
            1 <= n <= 16,
    ;

    /// Read one sample from the buffer.
    fn read_sample(data: &Vec<u8>, pos: usize, e: Endianness) -> (r: Self)
        requires
            pos + Self::sample_bytes() <= data@.len(),
            1 <= Self::sample_bytes(),
        ensures
            r == Self::decode(data@.subrange(pos as int, pos + Self::sample_bytes()), e),
    ;
}

/// Where the `k`-th value of a pair starts: consecutive windows for a
/// contiguous pair, stride-separated windows for an interleaved one.
pub open spec fn sample_offset<T: RawSample>(p: ReadPair, k: int) -> int {
    p.start_index + k * (T::sample_bytes() + stride_of(p))
}

/// The values a pair denotes.
pub open spec fn pair_values<T: RawSample>(data: Seq<u8>, p: ReadPair, e: Endianness) -> Seq<T> {
    Seq::new(
        p.no_values as nat,
        |k: int|
            T::decode(
                data.subrange(sample_offset::<T>(p, k), sample_offset::<T>(p, k) + T::sample_bytes()),
                e,
            ),
    )
}

/// Whether every value of a pair lies inside the buffer.
pub open spec fn pair_fits<T: RawSample>(data: Seq<u8>, p: ReadPair) -> bool {
    forall|k: int|
        0 <= k < p.no_values ==> #[trigger] sample_offset::<T>(p, k) + T::sample_bytes()
            <= data.len()
}

/// The values a whole read plan denotes, in plan order.
pub open spec fn plan_values<T: RawSample>(data: Seq<u8>, ps: Seq<ReadPair>, e: Endianness) -> Seq<
    T,
>
    decreases ps.len(),
{
    if ps.len() == 0 {
        Seq::empty()
    } else {
        plan_values(data, ps.drop_last(), e) + pair_values(data, ps.last(), e)
    }
}

/// Whether every pair of a plan fits the buffer.
pub open spec fn plan_fits<T: RawSample>(data: Seq<u8>, ps: Seq<ReadPair>) -> bool {
    forall|i: int| 0 <= i < ps.len() ==> pair_fits::<T>(data, #[trigger] ps[i])
}

/// A plan denotes as many values as its pairs count.
pub proof fn lemma_plan_values_len<T: RawSample>(data: Seq<u8>, ps: Seq<ReadPair>, e: Endianness)
    ensures
        plan_values::<T>(data, ps, e).len() == sum_values(ps),
    decreases ps.len(),
{
    if ps.len() > 0 {
        lemma_plan_values_len::<T>(data, ps.drop_last(), e);
    }
}

impl RawSample for u8 {
    open spec fn sample_bytes() -> int {
        1
    }

    open spec fn decode(s: Seq<u8>, e: Endianness) -> u8 {
        s[0]
    }

    fn sample_bytes_exec() -> u64 {
        1
    }

    fn read_sample(data: &Vec<u8>, pos: usize, e: Endianness) -> u8 {
        match read_u8(data, pos) {
            Ok((v, _)) => v,
            Err(_) => 0,
        }
    }
}

impl RawSample for i8 {
    open spec fn sample_bytes() -> int {
        1
    }

    open spec fn decode(s: Seq<u8>, e: Endianness) -> i8 {
        signed8(s[0] as int) as i8
    }

    fn sample_bytes_exec() -> u64 {
        1
    }

    fn read_sample(data: &Vec<u8>, pos: usize, e: Endianness) -> i8 {
        match read_i8(data, pos) {
            Ok((v, _)) => v,
            Err(_) => 0,
        }
    }
}

impl RawSample for bool {
    open spec fn sample_bytes() -> int {
        1
    }

    open spec fn decode(s: Seq<u8>, e: Endianness) -> bool {
        s[0] != 0
    }

    fn sample_bytes_exec() -> u64 {
        1
    }

    fn read_sample(data: &Vec<u8>, pos: usize, e: Endianness) -> bool {
        match read_u8(data, pos) {
            Ok((v, _)) => v != 0,
            Err(_) => false,
        }
    }
}

impl RawSample for u16 {
    open spec fn sample_bytes() -> int {
        2
    }

    open spec fn decode(s: Seq<u8>, e: Endianness) -> u16 {
        word2(s, e) as u16
    }

    fn sample_bytes_exec() -> u64 {
        2
    }

    fn read_sample(data: &Vec<u8>, pos: usize, e: Endianness) -> u16 {
        match read_u16(data, pos, e) {
            Ok((v, _)) => v,
            Err(_) => 0,
        }
    }
}

impl RawSample for i16 {
    open spec fn sample_bytes() -> int {
        2
    }

    open spec fn decode(s: Seq<u8>, e: Endianness) -> i16 {
        signed16(word2(s, e)) as i16
    }

    fn sample_bytes_exec() -> u64 {
        2
    }

    fn read_sample(data: &Vec<u8>, pos: usize, e: Endianness) -> i16 {
        match read_i16(data, pos, e) {
            Ok((v, _)) => v,
            Err(_) => 0,
        }
    }
}

impl RawSample for u32 {
    open spec fn sample_bytes() -> int {
        4
    }

    open spec fn decode(s: Seq<u8>, e: Endianness) -> u32 {
        word4(s, e) as u32
    }

    fn sample_bytes_exec() -> u64 {
        4
    }

    fn read_sample(data: &Vec<u8>, pos: usize, e: Endianness) -> u32 {
        match read_u32(data, pos, e) {
            Ok((v, _)) => v,
            Err(_) => 0,
        }
    }
}

impl RawSample for i32 {
    open spec fn sample_bytes() -> int {
        4
    }

    open spec fn decode(s: Seq<u8>, e: Endianness) -> i32 {
        signed32(word4(s, e)) as i32
    }

    fn sample_bytes_exec() -> u64 {
        4
    }

    fn read_sample(data: &Vec<u8>, pos: usize, e: Endianness) -> i32 {
        match read_i32(data, pos, e) {
            Ok((v, _)) => v,
            Err(_) => 0,
        }
    }
}

impl RawSample for u64 {
    open spec fn sample_bytes() -> int {
        8
    }

    open spec fn decode(s: Seq<u8>, e: Endianness) -> u64 {
        word8(s, e) as u64
    }

    fn sample_bytes_exec() -> u64 {
        8
    }

    fn read_sample(data: &Vec<u8>, pos: usize, e: Endianness) -> u64 {
        match read_u64(data, pos, e) {
            Ok((v, _)) => v,
            Err(_) => 0,
        }
    }
}

impl RawSample for i64 {
    open spec fn sample_bytes() -> int {
        8
    }

    open spec fn decode(s: Seq<u8>, e: Endianness) -> i64 {
        signed64(word8(s, e)) as i64
    }

    fn sample_bytes_exec() -> u64 {
        8
    }

    fn read_sample(data: &Vec<u8>, pos: usize, e: Endianness) -> i64 {
        match read_i64(data, pos, e) {
            Ok((v, _)) => v,
            Err(_) => 0,
        }
    }
}

impl RawSample for TimeStamp {
    open spec fn sample_bytes() -> int {
        16
    }

    open spec fn decode(s: Seq<u8>, e: Endianness) -> TimeStamp {
        timestamp_value(s, e)
    }

    fn sample_bytes_exec() -> u64 {
        16
    }

    fn read_sample(data: &Vec<u8>, pos: usize, e: Endianness) -> TimeStamp {
        let epoch: i64 = match read_i64(data, pos, e) {
            Ok((v, _)) => v,
            Err(_) => 0,
        };
        let radix: u64 = match read_u64(data, pos + 8, e) {
            Ok((v, _)) => v,
            Err(_) => 0,
        };
        proof {
            let s16 = data@.subrange(pos as int, pos + 16);
            assert(s16.subrange(0, 8) =~= data@.subrange(pos as int, pos + 8));
            assert(s16.subrange(8, 16) =~= data@.subrange(pos + 8, pos + 16));
        }
        TimeStamp { epoch, radix }
    }
}

/// Execute a read plan for one fixed-width sample type. Succeeds exactly
/// when every value of every pair lies inside the buffer, and then
/// returns exactly the values the plan denotes.
#[verifier::rlimit(100)]
pub fn read_into_vec<T: RawSample>(data: &Vec<u8>, read_pairs: &Vec<ReadPair>, e: Endianness) -> (r:
    Result<Vec<T>, TdmsError>)
    ensures
        r is Ok <==> plan_fits::<T>(data@, read_pairs@),
        r matches Ok(v) ==> v@ == plan_values::<T>(data@, read_pairs@, e),
        r matches Err(err) ==> err.kind == TdmsErrorKind::Io,
{
    let sz: u64 = T::sample_bytes_exec();
    let len64: u64 = data.len() as u64;
    let mut out: Vec<T> = Vec::new();
    let mut i: usize = 0;
    proof {
        assert(read_pairs@.take(0) =~= Seq::<ReadPair>::empty());
    }
    while i < read_pairs.len()
        invariant
            i <= read_pairs@.len(),
            sz == T::sample_bytes(),
            1 <= sz <= 16,
            len64 == data@.len(),
            len64 <= usize::MAX,
            out@ == plan_values::<T>(data@, read_pairs@.take(i as int), e),
            forall|q: int| 0 <= q < i ==> pair_fits::<T>(data@, #[trigger] read_pairs@[q]),
        decreases read_pairs@.len() - i,
    {
        let p = read_pairs[i];
        let step: u64 = if p.interleaved {
            let st = match p.stride {
                Some(s) => s,
                None => 0,
            };
            match sz.checked_add(st) {
                Some(v) => v,
                None => {
                    if p.no_values > 1 {
                        proof {
                            assert(sample_offset::<T>(p, 1) + T::sample_bytes() > data@.len());
                            assert(!pair_fits::<T>(data@, p));
                        }
                        return Err(TdmsError { kind: TdmsErrorKind::Io });
                    }
                    sz
                },
            }
        } else {
            sz
        };
        let ghost pvs = pair_values::<T>(data@, p, e);
        let mut k: u64 = 0;
        while k < p.no_values
            invariant
                k <= p.no_values,
                sz == T::sample_bytes(),
                1 <= sz <= 16,
                len64 == data@.len(),
                len64 <= usize::MAX,
                step == T::sample_bytes() + stride_of(p) || p.no_values <= 1,
                p == read_pairs@[i as int],
                i < read_pairs@.len(),
                pvs == pair_values::<T>(data@, p, e),
                out@ == plan_values::<T>(data@, read_pairs@.take(i as int), e) + pvs.take(
                    k as int,
                ),
                forall|q: int| 0 <= q < k ==> #[trigger] sample_offset::<T>(p, q)
                    + T::sample_bytes() <= data@.len(),
            decreases p.no_values - k,
        {
            let prod = match k.checked_mul(step) {
                Some(v) => v,
                None => {
                    proof {
                        assert(k >= 1) by (nonlinear_arith)
                            requires
                                k * step > u64::MAX,
                                step <= u64::MAX,
                        ;
                        assert(k * step >= 0) by (nonlinear_arith)
                            requires
                                k >= 0,
                                step >= 0,
                        ;
                        assert(sample_offset::<T>(p, k as int) + T::sample_bytes() > data@.len());
                        assert(!pair_fits::<T>(data@, p));
                    }
                    return Err(TdmsError { kind: TdmsErrorKind::Io });
                },
            };
            let off = match p.start_index.checked_add(prod) {
                Some(v) => v,
                None => {
                    proof {
                        if k == 0 {
                            assert(prod == 0) by (nonlinear_arith)
                                requires
                                    prod == k * step,
                                    k == 0,
                            ;
                        }
                        assert(sample_offset::<T>(p, k as int) + T::sample_bytes() > data@.len());
                        assert(!pair_fits::<T>(data@, p));
                    }
                    return Err(TdmsError { kind: TdmsErrorKind::Io });
                },
            };
            proof {
                if k == 0 {
                    assert(prod == 0) by (nonlinear_arith)
                        requires
                            prod == k * step,
                            k == 0,
                    ;
                    assert(0 * (T::sample_bytes() + stride_of(p)) == 0) by (nonlinear_arith);
                    assert(off == sample_offset::<T>(p, k as int));
                } else {
                    assert(off == sample_offset::<T>(p, k as int));
                }
            }
            if off > len64 || len64 - off < sz {
                proof {
                    assert(sample_offset::<T>(p, k as int) + T::sample_bytes() > data@.len());
                    assert(!pair_fits::<T>(data@, p));
                }
                return Err(TdmsError { kind: TdmsErrorKind::Io });
            }
            let pos = match usize::try_from(off) {
                Ok(v) => v,
                Err(_) => {
                    return Err(TdmsError { kind: TdmsErrorKind::Io });
                },
            };
            let v = T::read_sample(data, pos, e);
            out.push(v);
            proof {
                assert(pvs.take(k + 1) =~= pvs.take(k as int).push(pvs[k as int]));
                assert(v == pvs[k as int]);
            }
            k = k + 1;
        }
        proof {
            assert(pvs.take(p.no_values as int) =~= pvs);
            assert(read_pairs@.take(i + 1).drop_last() =~= read_pairs@.take(i as int));
            assert(read_pairs@.take(i + 1).last() == p);
        }
        i = i + 1;
    }
    proof {
        assert(read_pairs@.take(read_pairs@.len() as int) =~= read_pairs@);
    }
    Ok(out)
}

/// The byte order a record's samples were written in.
pub open spec fn endian_of(bigendian: bool) -> Endianness {
    if bigendian {
        Endianness::Big
    } else {
        Endianness::Little
    }
}

/// Execute one record's read plan for one sample type, with the totals
/// the indexer accumulated.
fn read_channel<T: RawSample>(object_map: &ObjectMap, data: &Vec<u8>, e: Endianness) -> (r: Result<
    Vec<T>,
    TdmsError,
>)
    requires
        wf_object_map(*object_map),
    ensures
        r is Ok <==> plan_fits::<T>(data@, object_map.read_map@),
        r matches Ok(v) ==> v@ == plan_values::<T>(data@, object_map.read_map@, e) && v@.len()
            == object_map.total_values,
        r matches Err(err) ==> err.kind == TdmsErrorKind::Io,
{
    let r = read_into_vec::<T>(data, &object_map.read_map, e);
    proof {
        lemma_plan_values_len::<T>(data@, object_map.read_map@, e);
    }
    r
}

/// What loading a record must return, type by type: each fixed-width
/// scalar type succeeds exactly when its whole plan lies inside the
/// buffer and then carries exactly the values the plan denotes; the
/// string type's successes carry exactly the plan's strings; the void
/// type loads as an empty channel; a record without a raw type fails
/// with its own kind, and the remaining types are not offered.
#[verifier::opaque]
pub open spec fn load_matches(om: ObjectMap, data: Seq<u8>, r: Result<
    DataTypeVec,
    TdmsError,
>) -> bool {
    let ps = om.read_map@;
    let e = endian_of(om.bigendian);
    match om.last_object.raw_data_type {
        None => r == Err::<DataTypeVec, _>(TdmsError { kind: TdmsErrorKind::ObjectHasNoRawData }),
        Some(DataTypeRaw::Void) => r == Ok::<_, TdmsError>(DataTypeVec::Void),
        Some(DataTypeRaw::U8) => (r is Ok <==> plan_fits::<u8>(data, ps)) && (r matches Ok(d)
            ==> (d matches DataTypeVec::U8(v) && v@ == plan_values::<u8>(data, ps, e))),
        Some(DataTypeRaw::I8) => (r is Ok <==> plan_fits::<i8>(data, ps)) && (r matches Ok(d)
            ==> (d matches DataTypeVec::I8(v) && v@ == plan_values::<i8>(data, ps, e))),
        Some(DataTypeRaw::U16) => (r is Ok <==> plan_fits::<u16>(data, ps)) && (r matches Ok(d)
            ==> (d matches DataTypeVec::U16(v) && v@ == plan_values::<u16>(data, ps, e))),
        Some(DataTypeRaw::I16) => (r is Ok <==> plan_fits::<i16>(data, ps)) && (r matches Ok(d)
            ==> (d matches DataTypeVec::I16(v) && v@ == plan_values::<i16>(data, ps, e))),
        Some(DataTypeRaw::U32) => (r is Ok <==> plan_fits::<u32>(data, ps)) && (r matches Ok(d)
            ==> (d matches DataTypeVec::U32(v) && v@ == plan_values::<u32>(data, ps, e))),
        Some(DataTypeRaw::I32) => (r is Ok <==> plan_fits::<i32>(data, ps)) && (r matches Ok(d)
            ==> (d matches DataTypeVec::I32(v) && v@ == plan_values::<i32>(data, ps, e))),
        Some(DataTypeRaw::U64) => (r is Ok <==> plan_fits::<u64>(data, ps)) && (r matches Ok(d)
            ==> (d matches DataTypeVec::U64(v) && v@ == plan_values::<u64>(data, ps, e))),
        Some(DataTypeRaw::I64) => (r is Ok <==> plan_fits::<i64>(data, ps)) && (r matches Ok(d)
            ==> (d matches DataTypeVec::I64(v) && v@ == plan_values::<i64>(data, ps, e))),
        Some(DataTypeRaw::SingleFloat) => (r is Ok <==> plan_fits::<u32>(data, ps)) && (
        r matches Ok(d) ==> (d matches DataTypeVec::Float(v) && v@ == plan_values::<u32>(
            data,
            ps,
            e,
        ))),
        Some(DataTypeRaw::DoubleFloat) => (r is Ok <==> plan_fits::<u64>(data, ps)) && (
        r matches Ok(d) ==> (d matches DataTypeVec::Double(v) && v@ == plan_values::<u64>(
            data,
            ps,
            e,
        ))),
        Some(DataTypeRaw::Boolean) => (r is Ok <==> plan_fits::<bool>(data, ps)) && (r matches Ok(
            d,
        ) ==> (d matches DataTypeVec::Boolean(v) && v@ == plan_values::<bool>(data, ps, e))),
        Some(DataTypeRaw::TimeStamp) => (r is Ok <==> plan_fits::<TimeStamp>(data, ps)) && (
        r matches Ok(d) ==> (d matches DataTypeVec::TimeStamp(v) && v@ == plan_values::<
            TimeStamp,
        >(data, ps, e))),
        Some(DataTypeRaw::TdmsString) => r matches Ok(d) ==> (d matches DataTypeVec::TdmsString(v)
            && v@.map_values(|s: String| s@) == plan_strings(data, ps, e)),
        Some(_) => r == Err::<DataTypeVec, _>(TdmsError { kind: TdmsErrorKind::NotImplemented }),
    }
}

/// Load one channel stored under the i8 type code.
fn load_channel_i8(object_map: &ObjectMap, data: &Vec<u8>, e: Endianness) -> (r:
    Result<DataTypeVec, TdmsError>)
    requires
        wf_object_map(*object_map),
        object_map.last_object.raw_data_type == Some(DataTypeRaw::I8),
        e == endian_of(object_map.bigendian),
    ensures
        load_matches(*object_map, data@, r),
        r matches Ok(d) ==> data_vec_len(d) == object_map.total_values,
        r matches Err(err) ==> err.kind == TdmsErrorKind::Io,
{
    let rr = match read_channel::<i8>(object_map, data, e) {
        Ok(v) => Ok(DataTypeVec::I8(v)),
        Err(err) => Err(err),
    };
    proof {
        reveal(load_matches);
    }
    rr
}

/// Load one channel stored under the i16 type code.
fn load_channel_i16(object_map: &ObjectMap, data: &Vec<u8>, e: Endianness) -> (r:
    Result<DataTypeVec, TdmsError>)
    requires
        wf_object_map(*object_map),
        object_map.last_object.raw_data_type == Some(DataTypeRaw::I16),
        e == endian_of(object_map.bigendian),
    ensures
        load_matches(*object_map, data@, r),
        r matches Ok(d) ==> data_vec_len(d) == object_map.total_values,
        r matches Err(err) ==> err.kind == TdmsErrorKind::Io,
{
    let rr = match read_channel::<i16>(object_map, data, e) {
        Ok(v) => Ok(DataTypeVec::I16(v)),
        Err(err) => Err(err),
    };
    proof {
        reveal(load_matches);
    }
    rr
}

/// Load one channel stored under the i32 type code.
fn load_channel_i32(object_map: &ObjectMap, data: &Vec<u8>, e: Endianness) -> (r:
    Result<DataTypeVec, TdmsError>)
    requires
        wf_object_map(*object_map),
        object_map.last_object.raw_data_type == Some(DataTypeRaw::I32),
        e == endian_of(object_map.bigendian),
    ensures
        load_matches(*object_map, data@, r),
        r matches Ok(d) ==> data_vec_len(d) == object_map.total_values,
        r matches Err(err) ==> err.kind == TdmsErrorKind::Io,
{
    let rr = match read_channel::<i32>(object_map, data, e) {
        Ok(v) => Ok(DataTypeVec::I32(v)),
        Err(err) => Err(err),
    };
    proof {
        reveal(load_matches);
    }
    rr
}

/// Load one channel stored under the i64 type code.
fn load_channel_i64(object_map: &ObjectMap, data: &Vec<u8>, e: Endianness) -> (r:
    Result<DataTypeVec, TdmsError>)
    requires
        wf_object_map(*object_map),
        object_map.last_object.raw_data_type == Some(DataTypeRaw::I64),
        e == endian_of(object_map.bigendian),
    ensures
        load_matches(*object_map, data@, r),
        r matches Ok(d) ==> data_vec_len(d) == object_map.total_values,
        r matches Err(err) ==> err.kind == TdmsErrorKind::Io,
{
    let rr = match read_channel::<i64>(object_map, data, e) {
        Ok(v) => Ok(DataTypeVec::I64(v)),
        Err(err) => Err(err),
    };
    proof {
        reveal(load_matches);
    }
    rr
}

/// Load one channel stored under the u8 type code.
fn load_channel_u8(object_map: &ObjectMap, data: &Vec<u8>, e: Endianness) -> (r:
    Result<DataTypeVec, TdmsError>)
    requires
        wf_object_map(*object_map),
        object_map.last_object.raw_data_type == Some(DataTypeRaw::U8),
        e == endian_of(object_map.bigendian),
    ensures
        load_matches(*object_map, data@, r),
        r matches Ok(d) ==> data_vec_len(d) == object_map.total_values,
        r matches Err(err) ==> err.kind == TdmsErrorKind::Io,
{
    let rr = match read_channel::<u8>(object_map, data, e) {
        Ok(v) => Ok(DataTypeVec::U8(v)),
        Err(err) => Err(err),
    };
    proof {
        reveal(load_matches);
    }
    rr
}

/// Load one channel stored under the u16 type code.
fn load_channel_u16(object_map: &ObjectMap, data: &Vec<u8>, e: Endianness) -> (r:
    Result<DataTypeVec, TdmsError>)
    requires
        wf_object_map(*object_map),
        object_map.last_object.raw_data_type == Some(DataTypeRaw::U16),
        e == endian_of(object_map.bigendian),
    ensures
        load_matches(*object_map, data@, r),
        r matches Ok(d) ==> data_vec_len(d) == object_map.total_values,
        r matches Err(err) ==> err.kind == TdmsErrorKind::Io,
{
    let rr = match read_channel::<u16>(object_map, data, e) {
        Ok(v) => Ok(DataTypeVec::U16(v)),
        Err(err) => Err(err),
    };
    proof {
        reveal(load_matches);
    }
    rr
}

/// Load one channel stored under the u32 type code.
fn load_channel_u32(object_map: &ObjectMap, data: &Vec<u8>, e: Endianness) -> (r:
    Result<DataTypeVec, TdmsError>)
    requires
        wf_object_map(*object_map),
        object_map.last_object.raw_data_type == Some(DataTypeRaw::U32),
        e == endian_of(object_map.bigendian),
    ensures
        load_matches(*object_map, data@, r),
        r matches Ok(d) ==> data_vec_len(d) == object_map.total_values,
        r matches Err(err) ==> err.kind == TdmsErrorKind::Io,
{
    let rr = match read_channel::<u32>(object_map, data, e) {
        Ok(v) => Ok(DataTypeVec::U32(v)),
        Err(err) => Err(err),
    };
    proof {
        reveal(load_matches);
    }
    rr
}

/// Load one channel stored under the u64 type code.
fn load_channel_u64(object_map: &ObjectMap, data: &Vec<u8>, e: Endianness) -> (r:
    Result<DataTypeVec, TdmsError>)
    requires
        wf_object_map(*object_map),
        object_map.last_object.raw_data_type == Some(DataTypeRaw::U64),
        e == endian_of(object_map.bigendian),
    ensures
        load_matches(*object_map, data@, r),
        r matches Ok(d) ==> data_vec_len(d) == object_map.total_values,
        r matches Err(err) ==> err.kind == TdmsErrorKind::Io,
{
    let rr = match read_channel::<u64>(object_map, data, e) {
        Ok(v) => Ok(DataTypeVec::U64(v)),
        Err(err) => Err(err),
    };
    proof {
        reveal(load_matches);
    }
    rr
}

/// Load one channel stored under the singlefloat type code.
fn load_channel_singlefloat(object_map: &ObjectMap, data: &Vec<u8>, e: Endianness) -> (r:
    Result<DataTypeVec, TdmsError>)
    requires
        wf_object_map(*object_map),
        object_map.last_object.raw_data_type == Some(DataTypeRaw::SingleFloat),
        e == endian_of(object_map.bigendian),
    ensures
        load_matches(*object_map, data@, r),
        r matches Ok(d) ==> data_vec_len(d) == object_map.total_values,
        r matches Err(err) ==> err.kind == TdmsErrorKind::Io,
{
    let rr = match read_channel::<u32>(object_map, data, e) {
        Ok(v) => Ok(DataTypeVec::Float(v)),
        Err(err) => Err(err),
    };
    proof {
        reveal(load_matches);
    }
    rr
}

/// Load one channel stored under the doublefloat type code.
fn load_channel_doublefloat(object_map: &ObjectMap, data: &Vec<u8>, e: Endianness) -> (r:
    Result<DataTypeVec, TdmsError>)
    requires
        wf_object_map(*object_map),
        object_map.last_object.raw_data_type == Some(DataTypeRaw::DoubleFloat),
        e == endian_of(object_map.bigendian),
    ensures
        load_matches(*object_map, data@, r),
        r matches Ok(d) ==> data_vec_len(d) == object_map.total_values,
        r matches Err(err) ==> err.kind == TdmsErrorKind::Io,
{
    let rr = match read_channel::<u64>(object_map, data, e) {
        Ok(v) => Ok(DataTypeVec::Double(v)),
        Err(err) => Err(err),
    };
    proof {
        reveal(load_matches);
    }
    rr
}

/// Load one channel stored under the boolean type code.
fn load_channel_boolean(object_map: &ObjectMap, data: &Vec<u8>, e: Endianness) -> (r:
    Result<DataTypeVec, TdmsError>)
    requires
        wf_object_map(*object_map),
        object_map.last_object.raw_data_type == Some(DataTypeRaw::Boolean),
        e == endian_of(object_map.bigendian),
    ensures
        load_matches(*object_map, data@, r),
        r matches Ok(d) ==> data_vec_len(d) == object_map.total_values,
        r matches Err(err) ==> err.kind == TdmsErrorKind::Io,
{
    let rr = match read_channel::<bool>(object_map, data, e) {
        Ok(v) => Ok(DataTypeVec::Boolean(v)),
        Err(err) => Err(err),
    };
    proof {
        reveal(load_matches);
    }
    rr
}

/// Load one channel stored under the timestamp type code.
fn load_channel_timestamp(object_map: &ObjectMap, data: &Vec<u8>, e: Endianness) -> (r:
    Result<DataTypeVec, TdmsError>)
    requires
        wf_object_map(*object_map),
        object_map.last_object.raw_data_type == Some(DataTypeRaw::TimeStamp),
        e == endian_of(object_map.bigendian),
    ensures
        load_matches(*object_map, data@, r),
        r matches Ok(d) ==> data_vec_len(d) == object_map.total_values,
        r matches Err(err) ==> err.kind == TdmsErrorKind::Io,
{
    let rr = match read_channel::<TimeStamp>(object_map, data, e) {
        Ok(v) => Ok(DataTypeVec::TimeStamp(v)),
        Err(err) => Err(err),
    };
    proof {
        reveal(load_matches);
    }
    rr
}

/// Load one object's raw data, dispatching on its raw type. The object
/// must carry a raw type; the string and fixed-width scalar types are
/// loadable, every other type is not offered.
pub fn read_data_vector(object_map: &ObjectMap, data: &Vec<u8>) -> (r: Result<
    DataTypeVec,
    TdmsError,
>)
    requires
        wf_object_map(*object_map),
    ensures
        load_matches(*object_map, data@, r),
        (r matches Ok(d) && object_map.last_object.raw_data_type != Some(DataTypeRaw::Void))
            ==> (r matches Ok(d) && data_vec_len(d) == object_map.total_values),
        (r matches Err(err) && err.kind == TdmsErrorKind::ObjectHasNoRawData)
            <==> object_map.last_object.raw_data_type is None,
        (r matches Err(err) && object_map.last_object.raw_data_type != Some(
            DataTypeRaw::TdmsString,
        )) ==> (r matches Err(err) && (err.kind == TdmsErrorKind::Io || err.kind
            == TdmsErrorKind::NotImplemented || err.kind == TdmsErrorKind::ObjectHasNoRawData)),
        r matches Err(err) ==> (err.kind == TdmsErrorKind::Io || err.kind
            == TdmsErrorKind::FromUtf8 || err.kind == TdmsErrorKind::NotImplemented || err.kind
            == TdmsErrorKind::ObjectHasNoRawData),
{
    let e = if object_map.bigendian {
        Endianness::Big
    } else {
        Endianness::Little
    };
    let rawtype = match object_map.last_object.raw_data_type {
        Some(t) => t,
        None => {
            let rr = Err::<DataTypeVec, TdmsError>(
                TdmsError { kind: TdmsErrorKind::ObjectHasNoRawData },
            );
            proof {
                reveal(load_matches);
            }
            return rr;
        },
    };
    match rawtype {
        DataTypeRaw::Void => {
            let rr = Ok::<DataTypeVec, TdmsError>(DataTypeVec::Void);
            proof {
                reveal(load_matches);
            }
            rr
        },
        DataTypeRaw::I8 => load_channel_i8(object_map, data, e),
        DataTypeRaw::I16 => load_channel_i16(object_map, data, e),
        DataTypeRaw::I32 => load_channel_i32(object_map, data, e),
        DataTypeRaw::I64 => load_channel_i64(object_map, data, e),
        DataTypeRaw::U8 => load_channel_u8(object_map, data, e),
        DataTypeRaw::U16 => load_channel_u16(object_map, data, e),
        DataTypeRaw::U32 => load_channel_u32(object_map, data, e),
        DataTypeRaw::U64 => load_channel_u64(object_map, data, e),
        DataTypeRaw::SingleFloat => load_channel_singlefloat(object_map, data, e),
        DataTypeRaw::DoubleFloat => load_channel_doublefloat(object_map, data, e),
        DataTypeRaw::Boolean => load_channel_boolean(object_map, data, e),
        DataTypeRaw::TimeStamp => load_channel_timestamp(object_map, data, e),
        DataTypeRaw::TdmsString => {
            let rr = match read_string_channel(object_map, data, e) {
                Ok(v) => Ok(DataTypeVec::TdmsString(v)),
                Err(err) => Err(err),
            };
            proof {
                reveal(load_matches);
            }
            rr
        },
        _ => {
            let rr = Err::<DataTypeVec, TdmsError>(
                TdmsError { kind: TdmsErrorKind::NotImplemented },
            );
            proof {
                reveal(load_matches);
            }
            rr
        },
    }
}

/// The end offset of a pair's `k`-th string, read from its offset table.
pub open spec fn str_end(data: Seq<u8>, p: ReadPair, k: int, e: Endianness) -> int {
    word4(data.subrange(p.start_index + 4 * k, p.start_index + 4 * k + 4), e)
}

/// Where a pair's `k`-th string begins inside the payload: at its
/// predecessor's end, the first at the start.
pub open spec fn str_lo(data: Seq<u8>, p: ReadPair, k: int, e: Endianness) -> int {
    if k == 0 {
        0
    } else {
        str_end(data, p, k - 1, e)
    }
}

/// Where a pair's concatenated string payload begins: after the offset
/// table of one four-byte entry per value.
pub open spec fn str_payload(p: ReadPair) -> int {
    p.start_index + 4 * p.no_values
}

/// The bytes of a pair's `k`-th string.
pub open spec fn pair_string_bytes(data: Seq<u8>, p: ReadPair, k: int, e: Endianness) -> Seq<u8> {
    data.subrange(
        str_payload(p) + str_lo(data, p, k, e),
        str_payload(p) + str_end(data, p, k, e),
    )
}

/// The character sequences a pair's block denotes.
pub open spec fn pair_strings(data: Seq<u8>, p: ReadPair, e: Endianness) -> Seq<Seq<char>> {
    Seq::new(
        p.no_values as nat,
        |k: int| vstd::utf8::decode_utf8(pair_string_bytes(data, p, k, e)),
    )
}

/// The character sequences a whole string read plan denotes.
pub open spec fn plan_strings(data: Seq<u8>, ps: Seq<ReadPair>, e: Endianness) -> Seq<Seq<char>>
    decreases ps.len(),
{
    if ps.len() == 0 {
        Seq::empty()
    } else {
        plan_strings(data, ps.drop_last(), e) + pair_strings(data, ps.last(), e)
    }
}

/// A string plan denotes as many values as its pairs count.
pub proof fn lemma_plan_strings_len(data: Seq<u8>, ps: Seq<ReadPair>, e: Endianness)
    ensures
        plan_strings(data, ps, e).len() == sum_values(ps),
    decreases ps.len(),
{
    if ps.len() > 0 {
        lemma_plan_strings_len(data, ps.drop_last(), e);
    }
}

/// Load one string channel. Inside each pair's block the strings are a
/// dense array of four-byte end offsets, then the concatenated UTF-8
/// payload; element `k` spans the payload between its predecessor's end
/// and its own.
#[verifier::rlimit(100)]
fn read_string_channel(object_map: &ObjectMap, data: &Vec<u8>, e: Endianness) -> (r: Result<
    Vec<String>,
    TdmsError,
>)
    requires
        wf_object_map(*object_map),
    ensures
        r matches Ok(v) ==> v@.len() == object_map.total_values && v@.map_values(|s: String| s@)
            == plan_strings(data@, object_map.read_map@, e),
        r matches Err(err) ==> (err.kind == TdmsErrorKind::Io || err.kind
            == TdmsErrorKind::FromUtf8),
{
    let pairs = &object_map.read_map;
    let len64: u64 = data.len() as u64;
    let mut out: Vec<String> = Vec::new();
    let mut i: usize = 0;
    proof {
        assert(pairs@.take(0) =~= Seq::<ReadPair>::empty());
        assert(out@.map_values(|s: String| s@) =~= plan_strings(data@, pairs@.take(0), e));
    }
    while i < pairs.len()
        invariant
            i <= pairs@.len(),
            len64 == data@.len(),
            len64 <= usize::MAX,
            out@.len() == sum_values(pairs@.take(i as int)),
            out@.map_values(|s: String| s@) == plan_strings(data@, pairs@.take(i as int), e),
        decreases pairs@.len() - i,
    {
        let p = pairs[i];
        if p.no_values > usize::MAX as u64 {
            return Err(TdmsError { kind: TdmsErrorKind::Io });
        }
        let count = p.no_values as usize;
        let base = match usize::try_from(p.start_index) {
            Ok(v) => v,
            Err(_) => {
                return Err(TdmsError { kind: TdmsErrorKind::Io });
            },
        };
        let mut ends: Vec<u32> = Vec::new();
        let mut k: usize = 0;
        while k < count
            invariant
                k <= count,
                count == p.no_values,
                base == p.start_index,
                len64 == data@.len(),
                len64 <= usize::MAX,
                ends@.len() == k,
                forall|q: int| 0 <= q < k ==> #[trigger] ends@[q] == str_end(data@, p, q, e),
            decreases count - k,
        {
            let koff = match k.checked_mul(4) {
                Some(v) => v,
                None => {
                    return Err(TdmsError { kind: TdmsErrorKind::Io });
                },
            };
            let pos = match base.checked_add(koff) {
                Some(v) => v,
                None => {
                    return Err(TdmsError { kind: TdmsErrorKind::Io });
                },
            };
            let (v, _) = match read_u32(data, pos, e) {
                Ok(x) => x,
                Err(err) => {
                    return Err(err);
                },
            };
            ends.push(v);
            k = k + 1;
        }
        let table_len = match count.checked_mul(4) {
            Some(v) => v,
            None => {
                return Err(TdmsError { kind: TdmsErrorKind::Io });
            },
        };
        let payload = match base.checked_add(table_len) {
            Some(v) => v,
            None => {
                return Err(TdmsError { kind: TdmsErrorKind::Io });
            },
        };
        let ghost pstrs = pair_strings(data@, p, e);
        let mut prev: u32 = 0;
        let mut k2: usize = 0;
        proof {
            assert(pstrs.take(0) =~= Seq::<Seq<char>>::empty());
        }
        while k2 < count
            invariant
                k2 <= count,
                count == p.no_values,
                payload == str_payload(p),
                len64 == data@.len(),
                len64 <= usize::MAX,
                ends@.len() == count,
                forall|q: int| 0 <= q < count ==> #[trigger] ends@[q] == str_end(data@, p, q, e),
                prev == str_lo(data@, p, k2 as int, e),
                pstrs == pair_strings(data@, p, e),
                i < pairs@.len(),
                p == pairs@[i as int],
                out@.len() == sum_values(pairs@.take(i as int)) + k2,
                out@.map_values(|s: String| s@) == plan_strings(data@, pairs@.take(i as int), e)
                    + pstrs.take(k2 as int),
            decreases count - k2,
        {
            let cur = ends[k2];
            if cur < prev {
                return Err(TdmsError { kind: TdmsErrorKind::Io });
            }
            let lo = match payload.checked_add(prev as usize) {
                Some(v) => v,
                None => {
                    return Err(TdmsError { kind: TdmsErrorKind::Io });
                },
            };
            let n = (cur - prev) as usize;
            let (bytesv, _) = match read_bytes(data, lo, n) {
                Ok(x) => x,
                Err(err) => {
                    return Err(err);
                },
            };
            let sv = match string_from_utf8(bytesv) {
                Ok(x) => x,
                Err(err) => {
                    return Err(err);
                },
            };
            let ghost out0 = out@;
            out.push(sv);
            proof {
                assert(bytesv@ == pair_string_bytes(data@, p, k2 as int, e));
                assert(sv@ == pstrs[k2 as int]);
                assert(pstrs.take(k2 + 1) =~= pstrs.take(k2 as int).push(pstrs[k2 as int]));
                assert(out@.map_values(|s: String| s@) =~= out0.map_values(|s: String| s@).push(
                    sv@,
                ));
            }
            prev = cur;
            k2 = k2 + 1;
        }
        proof {
            assert(pstrs.take(count as int) =~= pstrs);
            assert(pairs@.take(i + 1).drop_last() =~= pairs@.take(i as int));
            assert(pairs@.take(i + 1).last() == p);
        }
        i = i + 1;
    }
    proof {
        assert(pairs@.take(pairs@.len() as int) =~= pairs@);
        lemma_plan_strings_len(data@, pairs@, e);
    }
    Ok(out)
}

} // verus!

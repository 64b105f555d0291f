//! The object and property model: the in-memory record kept per object,
//! its raw-data size information, the captured DAQmx descriptor, and the
//! insertion-ordered property map.

use vstd::prelude::*;

use crate::bytes::{read_u32, read_u64, word4, word8, Endianness};
use crate::ordmap::OrderedRecords;
use crate::tdms_datatypes::{
    is_fixed_prop, lemma_props_end_prefix, lemma_props_end_snoc, lemma_type_code_injective,
    prop_end, prop_value, prop_width, props_end, read_datatype, read_string, string_decode,
    type_code, type_size, DataType, DataTypeRaw,
};
use crate::tdms_error::{TdmsError, TdmsErrorKind};

verus! {

/// One named, typed property of an object.
#[derive(Debug)]
pub struct ObjectProperty {
    pub prop_name: String,
    pub data_type: DataTypeRaw,
    pub value: DataType,
}

/// One DAQmx scaler of a format-changing or digital-line descriptor.
#[derive(Debug)]
pub struct DAQMxScaler {
    pub daqmx_data_type: DataTypeRaw,
    pub daqmx_rawbuff_indx: u32,
    pub daqmx_raw_byte_offset: u32,
    pub sample_format_bitmap: u32,
    pub scale_id: u32,
}

/// A DAQmx raw-data descriptor, captured verbatim and not interpreted.
#[derive(Debug)]
pub struct DAQMxInfo {
    pub formatvec_size: u32,
    pub scalers: Vec<DAQMxScaler>,
    pub widthvec_size: u32,
    pub widthvec: Vec<u32>,
}

/// The position after a property block at `pos` — the four-byte count,
/// then that many properties — or nothing if it does not parse there.
pub open spec fn props_block_end(data: Seq<u8>, pos: int, e: Endianness) -> Option<int> {
    if pos + 4 > data.len() {
        None
    } else {
        props_end(data, pos + 4, e, word4(data.subrange(pos, pos + 4), e) as nat)
    }
}

/// The position after one object record at `pos` — its discriminator and
/// what the discriminator selects: properties only, carried-over size
/// information (which needs a prior record), a DAQmx descriptor, or
/// fresh size information — or nothing if the record does not parse.
pub open spec fn object_end(data: Seq<u8>, pos: int, e: Endianness, prior: bool) -> Option<int> {
    if pos + 4 > data.len() {
        None
    } else {
        let disc = word4(data.subrange(pos, pos + 4), e);
        if disc == 0xFFFF_FFFF {
            props_block_end(data, pos + 4, e)
        } else if disc == 0 {
            if prior {
                props_block_end(data, pos + 4, e)
            } else {
                None
            }
        } else if disc == 0x6912_0000 || disc == 0x6913_0000 {
            match sizeinfo_end(data, pos + 4, e) {
                None => None,
                Some(q1) => match daqmx_end(data, q1, e) {
                    None => None,
                    Some(q2) => props_block_end(data, q2, e),
                },
            }
        } else {
            match sizeinfo_end(data, pos + 4, e) {
                None => None,
                Some(q1) => props_block_end(data, q1, e),
            }
        }
    }
}

/// The record kept per object: its latest raw-data descriptor and its
/// accumulated properties.
#[derive(Debug)]
pub struct TdmsObject {
    pub object_path: String,
    /// The last index-information discriminator read for this object.
    pub index_info_len: u32,
    pub raw_data_type: Option<DataTypeRaw>,
    pub raw_data_dim: Option<u32>,
    pub no_raw_vals: Option<u64>,
    /// The object's byte contribution to one chunk: read from the file for
    /// the string type, computed from the size information otherwise.
    pub no_bytes: u64,
    pub no_properties: u32,
    pub daqmx_info: Option<DAQMxInfo>,
    pub properties: OrderedRecords<ObjectProperty>,
}

/// The position after a raw-data size-information block at `pos` — the
/// type code, dimension and value count, plus the byte total for the
/// string type — or nothing if it does not parse there: truncation, an
/// unknown type code, or a computed byte total past the machine word.
pub open spec fn sizeinfo_end(data: Seq<u8>, pos: int, e: Endianness) -> Option<int> {
    if pos + 4 > data.len() {
        None
    } else {
        let code = word4(data.subrange(pos, pos + 4), e);
        if exists|t: DataTypeRaw| type_code(t) == code {
            let t = choose|t: DataTypeRaw| type_code(t) == code;
            if pos + 16 > data.len() {
                None
            } else if t == DataTypeRaw::TdmsString {
                if pos + 24 <= data.len() {
                    Some(pos + 24)
                } else {
                    None
                }
            } else {
                let dim = word4(data.subrange(pos + 4, pos + 8), e);
                let vals = word8(data.subrange(pos + 8, pos + 16), e);
                if type_size(t) * vals <= u64::MAX && type_size(t) * vals * dim <= u64::MAX {
                    Some(pos + 16)
                } else {
                    None
                }
            }
        } else {
            None
        }
    }
}

/// The record's internal consistency: the property map is well formed,
/// the three size-information fields are present together, and for a
/// fixed-size type `no_bytes` is exactly size x dimension x count.
pub open spec fn wf_object(o: TdmsObject) -> bool {
    &&& o.properties.wf()
    &&& (o.raw_data_type is Some <==> o.raw_data_dim is Some)
    &&& (o.raw_data_type is Some <==> o.no_raw_vals is Some)
    &&& match o.raw_data_type {
        Some(t) => t != DataTypeRaw::TdmsString ==> o.no_bytes == type_size(t)
            * o.raw_data_dim.unwrap() * o.no_raw_vals.unwrap(),
        None => o.no_bytes == 0,
    }
}

impl TdmsObject {
    /// A fresh record for a path first mentioned, before any size
    /// information or properties are read into it.
    pub fn new_default(path: String) -> (r: TdmsObject)
        ensures
            wf_object(r),
            r.object_path == path,
            r.raw_data_type is None,
            r.no_bytes == 0,
            r.properties.keys() =~= Seq::<Seq<char>>::empty(),
            r.properties.values() =~= Seq::<ObjectProperty>::empty(),
    {
        TdmsObject {
            object_path: path,
            index_info_len: 0,
            raw_data_type: None,
            raw_data_dim: None,
            no_raw_vals: None,
            no_bytes: 0,
            no_properties: 0,
            daqmx_info: None,
            properties: OrderedRecords::new(),
        }
    }

    /// Read the size-information triple — type code, dimension, value
    /// count — and, for the string type only, the eight-byte total size;
    /// then recompute `no_bytes`.
    pub fn read_sizeinfo(&mut self, data: &Vec<u8>, pos: usize, e: Endianness) -> (r: Result<
        usize,
        TdmsError,
    >)
        requires
            wf_object(*old(self)),
        ensures
            wf_object(*final(self)),
            final(self).object_path == old(self).object_path,
            final(self).properties == old(self).properties,
            final(self).no_properties == old(self).no_properties,
            final(self).daqmx_info == old(self).daqmx_info,
            final(self).index_info_len == old(self).index_info_len,
            r matches Ok(p) ==> ({
                let t = final(self).raw_data_type.unwrap();
                &&& final(self).raw_data_type is Some
                &&& type_code(t) == word4(data@.subrange(pos as int, pos + 4), e)
                &&& final(self).raw_data_dim == Some(
                    word4(data@.subrange(pos + 4, pos + 8), e) as u32,
                )
                &&& final(self).no_raw_vals == Some(
                    word8(data@.subrange(pos + 8, pos + 16), e) as u64,
                )
                &&& (t == DataTypeRaw::TdmsString ==> final(self).no_bytes == word8(
                    data@.subrange(pos + 16, pos + 24),
                    e,
                ) && p == pos + 24)
                &&& (t != DataTypeRaw::TdmsString ==> p == pos + 16)
            }),
            r is Ok <==> sizeinfo_end(data@, pos as int, e) is Some,
            r matches Ok(p) ==> sizeinfo_end(data@, pos as int, e) == Some(p as int),
            r matches Err(err) ==> (err.kind == TdmsErrorKind::Io || err.kind
                == TdmsErrorKind::RawDataTypeNotFound),
    {
        let (code, p1) = match read_u32(data, pos, e) {
            Ok(x) => x,
            Err(err) => {
                return Err(err);
            },
        };
        let raw_data_type = match DataTypeRaw::from_u32(code) {
            Ok(t) => t,
            Err(err) => {
                return Err(err);
            },
        };
        proof {
            let tc = choose|t: DataTypeRaw| type_code(t) == code;
            lemma_type_code_injective(tc, raw_data_type);
        }
        let (dim, p2) = match read_u32(data, p1, e) {
            Ok(x) => x,
            Err(err) => {
                return Err(err);
            },
        };
        let (no_vals, p3) = match read_u64(data, p2, e) {
            Ok(x) => x,
            Err(err) => {
                return Err(err);
            },
        };
        let mut end: usize = p3;
        if let DataTypeRaw::TdmsString = raw_data_type {
            let (total, p4) = match read_u64(data, p3, e) {
                Ok(x) => x,
                Err(err) => {
                    return Err(err);
                },
            };
            self.no_bytes = total;
            end = p4;
        } else {
            let sz = match raw_data_type.size() {
                Ok(s) => s,
                Err(err) => {
                    return Err(err);
                },
            };
            let a = match sz.checked_mul(no_vals) {
                Some(a) => a,
                None => {
                    return Err(TdmsError { kind: TdmsErrorKind::Io });
                },
            };
            let b = match a.checked_mul(dim as u64) {
                Some(b) => b,
                None => {
                    return Err(TdmsError { kind: TdmsErrorKind::Io });
                },
            };
            assert(b == type_size(raw_data_type) * (dim as u64) * (no_vals as u64))
                by (nonlinear_arith)
                requires
                    b == (type_size(raw_data_type) as u64 * no_vals) * dim as u64,
                    type_size(raw_data_type) >= 0,
            ;
            self.no_bytes = b;
        }
        self.raw_data_type = Some(raw_data_type);
        self.raw_data_dim = Some(dim);
        self.no_raw_vals = Some(no_vals);
        Ok(end)
    }

    /// Read the DAQmx descriptor: the format-scaler vector, then the data
    /// width vector. It is captured whole and left uninterpreted.
    pub fn read_daqmxinfo(&mut self, data: &Vec<u8>, pos: usize, e: Endianness) -> (r: Result<
        usize,
        TdmsError,
    >)
        requires
            wf_object(*old(self)),
        ensures
            wf_object(*final(self)),
            final(self).object_path == old(self).object_path,
            final(self).properties == old(self).properties,
            final(self).no_properties == old(self).no_properties,
            final(self).index_info_len == old(self).index_info_len,
            final(self).raw_data_type == old(self).raw_data_type,
            final(self).raw_data_dim == old(self).raw_data_dim,
            final(self).no_raw_vals == old(self).no_raw_vals,
            final(self).no_bytes == old(self).no_bytes,
            r matches Ok(p) ==> ({
                let info = final(self).daqmx_info.unwrap();
                let n = word4(data@.subrange(pos as int, pos + 4), e);
                let base2 = pos + 4 + 20 * n;
                let m = word4(data@.subrange(base2, base2 + 4), e);
                &&& final(self).daqmx_info is Some
                &&& info.formatvec_size == n
                &&& info.scalers@.len() == n
                &&& (forall|q: int|
                    0 <= q < n ==> scaler_matches(
                        #[trigger] info.scalers@[q],
                        data@,
                        pos + 4 + 20 * q,
                        e,
                    ))
                &&& info.widthvec_size == m
                &&& info.widthvec@.len() == m
                &&& (forall|q: int|
                    0 <= q < m ==> #[trigger] info.widthvec@[q] == word4(
                        data@.subrange(base2 + 4 + 4 * q, base2 + 8 + 4 * q),
                        e,
                    ))
                &&& p == base2 + 4 + 4 * m
            }),
            r is Ok <==> daqmx_end(data@, pos as int, e) is Some,
            r matches Ok(p) ==> daqmx_end(data@, pos as int, e) == Some(p as int),
            r matches Err(err) ==> (err.kind == TdmsErrorKind::Io || err.kind
                == TdmsErrorKind::RawDataTypeNotFound),
    {
        let (formatvec_size, p1) = match read_u32(data, pos, e) {
            Ok(x) => x,
            Err(err) => {
                return Err(err);
            },
        };
        let mut scalers: Vec<DAQMxScaler> = Vec::new();
        let mut cursor: usize = p1;
        let mut i: u32 = 0;
        while i < formatvec_size
            invariant
                wf_object(*self),
                self == old(self),
                pos + 4 <= data@.len(),
                formatvec_size == word4(data@.subrange(pos as int, pos + 4), e),
                p1 == pos + 4,
                i <= formatvec_size,
                scalers@.len() == i,
                cursor == pos + 4 + 20 * i,
                forall|q: int| 0 <= q < i ==> #[trigger] scaler_ok(data@, pos + 4 + 20 * q, e),
                forall|q: int|
                    0 <= q < i ==> scaler_matches(
                        #[trigger] scalers@[q],
                        data@,
                        pos + 4 + 20 * q,
                        e,
                    ),
            decreases formatvec_size - i,
        {
            let (scaler, p) = match DAQMxScaler::new(data, cursor, e) {
                Ok(x) => x,
                Err(err) => {
                    proof {
                        assert(!scaler_ok(data@, pos + 4 + 20 * (i as int), e));
                        assert(daqmx_end(data@, pos as int, e) is None);
                    }
                    return Err(err);
                },
            };
            scalers.push(scaler);
            cursor = p;
            i = i + 1;
        }
        let ghost base2 = cursor as int;
        let (widthvec_size, p2) = match read_u32(data, cursor, e) {
            Ok(x) => x,
            Err(err) => {
                return Err(err);
            },
        };
        cursor = p2;
        let mut widthvec: Vec<u32> = Vec::new();
        let mut j: u32 = 0;
        while j < widthvec_size
            invariant
                wf_object(*self),
                self == old(self),
                pos + 4 <= data@.len(),
                formatvec_size == word4(data@.subrange(pos as int, pos + 4), e),
                forall|q: int|
                    0 <= q < formatvec_size ==> #[trigger] scaler_ok(data@, pos + 4 + 20 * q, e),
                base2 == pos + 4 + 20 * formatvec_size,
                base2 + 4 <= data@.len(),
                widthvec_size == word4(data@.subrange(base2, base2 + 4), e),
                j <= widthvec_size,
                widthvec@.len() == j,
                cursor == base2 + 4 + 4 * j,
                cursor <= data@.len(),
                forall|q: int|
                    0 <= q < j ==> #[trigger] widthvec@[q] == word4(
                        data@.subrange(base2 + 4 + 4 * q, base2 + 8 + 4 * q),
                        e,
                    ),
            decreases widthvec_size - j,
        {
            let (w, p) = match read_u32(data, cursor, e) {
                Ok(x) => x,
                Err(err) => {
                    proof {
                        assert(base2 + 4 + 4 * (widthvec_size as int) > data@.len());
                        assert(daqmx_end(data@, pos as int, e) is None);
                    }
                    return Err(err);
                },
            };
            widthvec.push(w);
            cursor = p;
            j = j + 1;
        }
        proof {
            assert(cursor == base2 + 4 + 4 * (widthvec_size as int));
            assert(cursor <= data@.len());
            assert(daqmx_end(data@, pos as int, e) == Some(cursor as int));
        }
        self.daqmx_info = Some(
            DAQMxInfo { formatvec_size, scalers, widthvec_size, widthvec },
        );
        Ok(cursor)
    }

    /// Insert one property, overwriting in place a property of the same
    /// name and appending a new name at the end.
    pub fn insert_property(&mut self, prop: ObjectProperty)
        requires
            wf_object(*old(self)),
        ensures
            wf_object(*final(self)),
            final(self).object_path == old(self).object_path,
            final(self).no_properties == old(self).no_properties,
            final(self).daqmx_info == old(self).daqmx_info,
            final(self).index_info_len == old(self).index_info_len,
            final(self).raw_data_type == old(self).raw_data_type,
            final(self).raw_data_dim == old(self).raw_data_dim,
            final(self).no_raw_vals == old(self).no_raw_vals,
            final(self).no_bytes == old(self).no_bytes,
            ({
                let ks = old(self).properties.keys();
                let vs = old(self).properties.values();
                let nks = final(self).properties.keys();
                let nvs = final(self).properties.values();
                let j = crate::ordmap::key_position(ks, prop.prop_name@);
                &&& (j == -1 ==> nks =~= ks.push(prop.prop_name@) && nvs =~= vs.push(prop))
                &&& (j != -1 ==> nks =~= ks && nvs =~= vs.update(j, prop))
            }),
    {
        let pos = self.properties.index_of(prop.prop_name.as_str());
        match pos {
            Some(i) => {
                self.properties.set_at(i, prop);
            },
            None => {
                self.properties.push_new(prop.prop_name.clone(), prop);
            },
        }
    }

    /// Read the property count and that many properties, later names
    /// overwriting earlier ones.
    pub fn update_properties(&mut self, data: &Vec<u8>, pos: usize, e: Endianness) -> (r: Result<
        usize,
        TdmsError,
    >)
        requires
            wf_object(*old(self)),
        ensures
            wf_object(*final(self)),
            final(self).object_path == old(self).object_path,
            final(self).daqmx_info == old(self).daqmx_info,
            final(self).index_info_len == old(self).index_info_len,
            final(self).raw_data_type == old(self).raw_data_type,
            final(self).raw_data_dim == old(self).raw_data_dim,
            final(self).no_raw_vals == old(self).no_raw_vals,
            final(self).no_bytes == old(self).no_bytes,
            r matches Ok(p) ==> pos + 4 <= data@.len() && final(self).no_properties == word4(
                data@.subrange(pos as int, pos + 4),
                e,
            ),
            (r matches Ok(p) && word4(data@.subrange(pos as int, pos + 4), e) == 0) ==> (
            r matches Ok(p) && p == pos + 4 && final(self).properties == old(self).properties),
            r is Ok <==> (pos + 4 <= data@.len() && props_end(
                data@,
                pos + 4,
                e,
                word4(data@.subrange(pos as int, pos + 4), e) as nat,
            ) is Some),
            r matches Ok(p) ==> props_end(
                data@,
                pos + 4,
                e,
                word4(data@.subrange(pos as int, pos + 4), e) as nat,
            ) == Some(p as int),
            r matches Ok(p) ==> (exists|parsed: Seq<ObjectProperty>|
                parsed.len() == word4(data@.subrange(pos as int, pos + 4), e) && props_parsed(
                    parsed,
                    data@,
                    pos + 4,
                    e,
                ) && fold_props(
                    old(self).properties.keys(),
                    old(self).properties.values(),
                    parsed,
                ) == (final(self).properties.keys(), final(self).properties.values())),
            r matches Err(err) ==> (err.kind == TdmsErrorKind::Io || err.kind
                == TdmsErrorKind::FromUtf8 || err.kind == TdmsErrorKind::RawDataTypeNotFound
                || err.kind == TdmsErrorKind::NotImplemented),
    {
        let (count, p0) = match read_u32(data, pos, e) {
            Ok(x) => x,
            Err(err) => {
                return Err(err);
            },
        };
        self.no_properties = count;
        let mut cursor: usize = p0;
        let mut i: u32 = 0;
        let ghost mut parsed: Seq<ObjectProperty> = Seq::empty();
        while i < count
            invariant
                pos + 4 <= data@.len(),
                count == word4(data@.subrange(pos as int, pos + 4), e),
                p0 == pos + 4,
                i <= count,
                i == 0 ==> cursor == pos + 4 && self.properties == old(self).properties,
                self.no_properties == count,
                props_end(data@, p0 as int, e, i as nat) == Some(cursor as int),
                parsed.len() == i,
                props_parsed(parsed, data@, p0 as int, e),
                fold_props(old(self).properties.keys(), old(self).properties.values(), parsed)
                    == (self.properties.keys(), self.properties.values()),
                wf_object(*self),
                self.object_path == old(self).object_path,
                self.daqmx_info == old(self).daqmx_info,
                self.index_info_len == old(self).index_info_len,
                self.raw_data_type == old(self).raw_data_type,
                self.raw_data_dim == old(self).raw_data_dim,
                self.no_raw_vals == old(self).no_raw_vals,
                self.no_bytes == old(self).no_bytes,
            decreases count - i,
        {
            let (prop, p) = match ObjectProperty::read_property(data, cursor, e) {
                Ok(x) => x,
                Err(err) => {
                    proof {
                        lemma_props_end_snoc(data@, p0 as int, e, i as nat);
                        if props_end(data@, p0 as int, e, count as nat) is Some {
                            lemma_props_end_prefix(
                                data@,
                                p0 as int,
                                e,
                                count as nat,
                                (i + 1) as nat,
                            );
                            assert(false);
                        }
                    }
                    return Err(err);
                },
            };
            let ghost gprop = prop;
            let ghost ks_cur = self.properties.keys();
            let ghost vs_cur = self.properties.values();
            self.insert_property(prop);
            proof {
                lemma_fold_props_snoc(
                    old(self).properties.keys(),
                    old(self).properties.values(),
                    parsed,
                    gprop,
                );
                assert(self.properties.keys() =~= insert_prop_keys(ks_cur, gprop.prop_name@));
                assert(self.properties.values() =~= insert_prop_vals(ks_cur, vs_cur, gprop));
                parsed = parsed.push(gprop);
                assert(parsed[i as int] == gprop);
                assert(props_end(data@, p0 as int, e, i as nat).unwrap() == cursor as int);
                assert forall|k: int|
                    0 <= k < parsed.len() implies prop_matches(
                    #[trigger] parsed[k],
                    data@,
                    props_end(data@, p0 as int, e, k as nat).unwrap(),
                    e,
                ) by {
                    if k < i {
                        assert(parsed[k] == parsed.drop_last()[k]);
                    }
                }
                lemma_props_end_snoc(data@, p0 as int, e, i as nat);
            }
            cursor = p;
            i = i + 1;
        }
        proof {
            if count > 0 {
                assert(props_end(data@, p0 as int, e, count as nat) == Some(cursor as int));
            }
        }
        Ok(cursor)
    }
}

/// Whether one twenty-byte scaler record parses at `pos`: it lies inside
/// the buffer and its type code is in the registry.
pub open spec fn scaler_ok(data: Seq<u8>, pos: int, e: Endianness) -> bool {
    &&& pos + 20 <= data.len()
    &&& exists|t: DataTypeRaw| type_code(t) == word4(data.subrange(pos, pos + 4), e)
}

/// The position after a DAQmx descriptor at `pos` — the scaler vector,
/// then the width vector — or nothing if it does not parse there.
pub open spec fn daqmx_end(data: Seq<u8>, pos: int, e: Endianness) -> Option<int> {
    if pos + 4 > data.len() {
        None
    } else {
        let n = word4(data.subrange(pos, pos + 4), e);
        if forall|k: int| 0 <= k < n ==> #[trigger] scaler_ok(data, pos + 4 + 20 * k, e) {
            let q = pos + 4 + 20 * n;
            if q + 4 > data.len() {
                None
            } else {
                let m = word4(data.subrange(q, q + 4), e);
                if q + 4 + 4 * m <= data.len() {
                    Some(q + 4 + 4 * m)
                } else {
                    None
                }
            }
        } else {
            None
        }
    }
}

/// A scaler record equals the five words at a position: its type code,
/// raw-buffer index, raw byte offset, sample-format bitmap and scale
/// identifier, in that order.
pub open spec fn scaler_matches(sc: DAQMxScaler, data: Seq<u8>, at: int, e: Endianness) -> bool {
    &&& type_code(sc.daqmx_data_type) == word4(data.subrange(at, at + 4), e)
    &&& sc.daqmx_rawbuff_indx == word4(data.subrange(at + 4, at + 8), e)
    &&& sc.daqmx_raw_byte_offset == word4(data.subrange(at + 8, at + 12), e)
    &&& sc.sample_format_bitmap == word4(data.subrange(at + 12, at + 16), e)
    &&& sc.scale_id == word4(data.subrange(at + 16, at + 20), e)
}

impl DAQMxScaler {
    /// Read one twenty-byte scaler record.
    pub fn new(data: &Vec<u8>, pos: usize, e: Endianness) -> (r: Result<
        (DAQMxScaler, usize),
        TdmsError,
    >)
        ensures
            r is Ok <==> scaler_ok(data@, pos as int, e),
            r matches Ok(x) ==> x.1 == pos + 20 && scaler_matches(x.0, data@, pos as int, e),
            r matches Err(err) ==> (err.kind == TdmsErrorKind::Io || err.kind
                == TdmsErrorKind::RawDataTypeNotFound),
    {
        let (code, p1) = match read_u32(data, pos, e) {
            Ok(x) => x,
            Err(err) => {
                return Err(err);
            },
        };
        let daqmx_data_type = match DataTypeRaw::from_u32(code) {
            Ok(t) => t,
            Err(err) => {
                return Err(err);
            },
        };
        let (daqmx_rawbuff_indx, p2) = match read_u32(data, p1, e) {
            Ok(x) => x,
            Err(err) => {
                return Err(err);
            },
        };
        let (daqmx_raw_byte_offset, p3) = match read_u32(data, p2, e) {
            Ok(x) => x,
            Err(err) => {
                return Err(err);
            },
        };
        let (sample_format_bitmap, p4) = match read_u32(data, p3, e) {
            Ok(x) => x,
            Err(err) => {
                return Err(err);
            },
        };
        let (scale_id, p5) = match read_u32(data, p4, e) {
            Ok(x) => x,
            Err(err) => {
                return Err(err);
            },
        };
        Ok(
            (
                DAQMxScaler {
                    daqmx_data_type,
                    daqmx_rawbuff_indx,
                    daqmx_raw_byte_offset,
                    sample_format_bitmap,
                    scale_id,
                },
                p5,
            ),
        )
    }
}

/// A decoded property against its bytes: the name is the decoded
/// length-prefixed string at `pos`, the type is the registry entry for
/// the following code word, and the value is that type's decoding of
/// what follows.
pub open spec fn prop_matches(prop: ObjectProperty, data: Seq<u8>, pos: int, e: Endianness) -> bool {
    let name = string_decode(data, pos, e);
    &&& name is Ok
    &&& prop.prop_name@ == name.unwrap().0
    &&& ({
        let code_at = name.unwrap().1;
        &&& code_at + 4 <= data.len()
        &&& type_code(prop.data_type) == word4(data.subrange(code_at, code_at + 4), e)
        &&& (is_fixed_prop(prop.data_type) ==> prop.value == prop_value(
            data,
            code_at + 4,
            e,
            prop.data_type,
        ))
        &&& (prop.data_type == DataTypeRaw::TdmsString ==> (string_decode(
            data,
            code_at + 4,
            e,
        ) matches Ok(sv) && (prop.value matches DataType::TdmsString(q) && q@ == sv.0)))
        &&& (is_fixed_prop(prop.data_type) || prop.data_type == DataTypeRaw::TdmsString)
    })
}

/// What inserting one property does to the key order: a new name is
/// appended, a present one keeps its place.
pub open spec fn insert_prop_keys(ks: Seq<Seq<char>>, name: Seq<char>) -> Seq<Seq<char>> {
    if crate::ordmap::key_position(ks, name) == -1 {
        ks.push(name)
    } else {
        ks
    }
}

/// What inserting one property does to the stored records: a new name's
/// record is appended, a present name's record is overwritten in place.
pub open spec fn insert_prop_vals(
    ks: Seq<Seq<char>>,
    vs: Seq<ObjectProperty>,
    prop: ObjectProperty,
) -> Seq<ObjectProperty> {
    let j = crate::ordmap::key_position(ks, prop.prop_name@);
    if j == -1 {
        vs.push(prop)
    } else {
        vs.update(j, prop)
    }
}

/// The property map after inserting a sequence of properties in order,
/// later names overwriting earlier ones.
pub open spec fn fold_props(
    ks: Seq<Seq<char>>,
    vs: Seq<ObjectProperty>,
    parsed: Seq<ObjectProperty>,
) -> (Seq<Seq<char>>, Seq<ObjectProperty>)
    decreases parsed.len(),
{
    if parsed.len() == 0 {
        (ks, vs)
    } else {
        fold_props(
            insert_prop_keys(ks, parsed[0].prop_name@),
            insert_prop_vals(ks, vs, parsed[0]),
            parsed.skip(1),
        )
    }
}

/// One more property folds in at the end.
pub proof fn lemma_fold_props_snoc(
    ks: Seq<Seq<char>>,
    vs: Seq<ObjectProperty>,
    parsed: Seq<ObjectProperty>,
    prop: ObjectProperty,
)
    ensures
        fold_props(ks, vs, parsed.push(prop)) == (
            insert_prop_keys(fold_props(ks, vs, parsed).0, prop.prop_name@),
            insert_prop_vals(fold_props(ks, vs, parsed).0, fold_props(ks, vs, parsed).1, prop),
        ),
    decreases parsed.len(),
{
    if parsed.len() == 0 {
        assert(parsed.push(prop)[0] == prop);
        let rest = parsed.push(prop).skip(1);
        assert(rest.len() == 0);
        let ik = insert_prop_keys(ks, prop.prop_name@);
        let iv = insert_prop_vals(ks, vs, prop);
        assert(fold_props(ks, vs, parsed.push(prop)) == fold_props(ik, iv, rest));
        assert(fold_props(ik, iv, rest) == (ik, iv));
        assert(fold_props(ks, vs, parsed) == (ks, vs));
    } else {
        assert(parsed.push(prop)[0] == parsed[0]);
        assert(parsed.push(prop).skip(1) =~= parsed.skip(1).push(prop));
        let ik = insert_prop_keys(ks, parsed[0].prop_name@);
        let iv = insert_prop_vals(ks, vs, parsed[0]);
        assert(fold_props(ks, vs, parsed.push(prop)) == fold_props(
            ik,
            iv,
            parsed.skip(1).push(prop),
        ));
        lemma_fold_props_snoc(ik, iv, parsed.skip(1), prop);
        assert(fold_props(ks, vs, parsed) == fold_props(ik, iv, parsed.skip(1)));
    }
}

/// A sequence of decoded properties against the chain of their byte
/// positions: the `k`-th entry matches the bytes of the `k`-th property.
pub open spec fn props_parsed(
    parsed: Seq<ObjectProperty>,
    data: Seq<u8>,
    pos: int,
    e: Endianness,
) -> bool {
    forall|k: int|
        0 <= k < parsed.len() ==> prop_matches(
            #[trigger] parsed[k],
            data,
            props_end(data, pos, e, k as nat).unwrap(),
            e,
        )
}

impl ObjectProperty {
    /// Read one property: its name, its type code, and its value decoded
    /// by that type.
    pub fn read_property(data: &Vec<u8>, pos: usize, e: Endianness) -> (r: Result<
        (ObjectProperty, usize),
        TdmsError,
    >)
        ensures
            r is Ok <==> prop_end(data@, pos as int, e) is Some,
            r matches Ok(x) ==> prop_matches(x.0, data@, pos as int, e) && prop_end(
                data@,
                pos as int,
                e,
            ) == Some(x.1 as int),
            r matches Err(err) ==> (err.kind == TdmsErrorKind::Io || err.kind
                == TdmsErrorKind::FromUtf8 || err.kind == TdmsErrorKind::RawDataTypeNotFound
                || err.kind == TdmsErrorKind::NotImplemented),
    {
        let (prop_name, p1) = match read_string(data, pos, e) {
            Ok(x) => x,
            Err(err) => {
                return Err(err);
            },
        };
        let (code, p2) = match read_u32(data, p1, e) {
            Ok(x) => x,
            Err(err) => {
                return Err(err);
            },
        };
        let data_type = match DataTypeRaw::from_u32(code) {
            Ok(t) => t,
            Err(err) => {
                return Err(err);
            },
        };
        proof {
            let tc = choose|t: DataTypeRaw| type_code(t) == code;
            lemma_type_code_injective(tc, data_type);
        }
        let (value, p3) = match read_datatype(data, p2, e, data_type) {
            Ok(x) => x,
            Err(err) => {
                return Err(err);
            },
        };
        Ok((ObjectProperty { prop_name, data_type, value }, p3))
    }
}

} // verus!

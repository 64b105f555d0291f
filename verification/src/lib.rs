//! A reader for the TDMS binary measurement-data format.
//!
//! A TDMS file is a sequence of self-describing segments; each contributes
//! metadata (objects and their typed properties) and, optionally, raw sample
//! chunks. Opening a file walks the segments once and builds an index: every
//! object ever mentioned, its latest raw-data descriptor and properties, and
//! the absolute byte extent of every chunk belonging to it. Loading a channel
//! then executes that read plan into one typed vector.
//!
//! The caller hands the file in as plain bytes; nothing here touches the
//! file system.

use vstd::prelude::*;

pub mod bytes;
pub mod loader;
pub mod ordmap;
pub mod tdms_datatypes;
pub mod tdms_error;
pub mod tdms_map;
pub mod tdms_objects;
pub mod timestamps;

pub use loader::{endian_of, plan_values, RawSample};
pub use ordmap::key_position;
pub use tdms_datatypes::{data_vec_len, DataType, DataTypeRaw, DataTypeVec, TocMask, TocProperties};
pub use tdms_error::{TdmsError, TdmsErrorKind};
pub use tdms_map::{
    sum_values, wf_map, wf_object_map, wf_segment, ObjectMap, ReadPair, TdmsMap, TdmsSegment,
};
pub use tdms_objects::TdmsObject;

use loader::read_data_vector;

verus! {

/// An opened TDMS file: the raw bytes and the index built over them.
#[derive(Debug)]
pub struct TdmsFile {
    data: Vec<u8>,
    tdms_map: TdmsMap,
}

impl TdmsFile {
    #[verifier::type_invariant]
    spec fn inv(self) -> bool {
        self.wf()
    }

    /// The index is well formed; `open` establishes this and every
    /// method keeps it.
    pub closed spec fn wf(self) -> bool {
        wf_map(self.tdms_map)
    }

    /// The bytes the file was opened over.
    pub closed spec fn file_bytes(self) -> Seq<u8> {
        self.data@
    }

    /// The indexed object paths, in first-sighting order.
    pub closed spec fn index_keys(self) -> Seq<Seq<char>> {
        self.tdms_map.all_objects.keys()
    }

    /// The indexed object records, in first-sighting order.
    pub closed spec fn index_records(self) -> Seq<ObjectMap> {
        self.tdms_map.all_objects.values()
    }

    /// The segments indexed, in file order.
    pub closed spec fn index_segments(self) -> Seq<TdmsSegment> {
        self.tdms_map.segments@
    }


    /// Whether a path names an indexed object that carries raw data.
    pub open spec fn is_data_key(self, s: Seq<char>) -> bool {
        exists|j: int|
            0 <= j < self.index_keys().len() && #[trigger] self.index_keys()[j] == s
                && self.index_records()[j].last_object.no_bytes > 0
    }

    /// The record of the object at a path.
    pub closed spec fn record_at_key(self, p: Seq<char>) -> ObjectMap {
        self.tdms_map.all_objects.values()[key_position(self.index_keys(), p)]
    }

    /// Open a file given as bytes: walk every segment eagerly and build
    /// the index. An empty input fails with the I/O kind before any
    /// header is read.
    pub fn open(data: Vec<u8>) -> (r: Result<TdmsFile, TdmsError>)
        ensures
            data@.len() == 0 <==> (r matches Err(err) && err.kind == TdmsErrorKind::Io),
            r matches Ok(f) ==> f.file_bytes() == data@ && f.wf(),
            r matches Ok(f) ==> crate::tdms_map::segments_chained(f.index_segments(), data@),
            r matches Err(err) ==> (err.kind == TdmsErrorKind::Io || err.kind
                == TdmsErrorKind::FromUtf8 || err.kind == TdmsErrorKind::RawDataTypeNotFound
                || err.kind == TdmsErrorKind::NotImplemented || err.kind
                == TdmsErrorKind::NoPreviousObject),
    {
        let mut tdms_map = TdmsMap::new();
        match tdms_map.map_segments(&data) {
            Ok(()) => {},
            Err(err) => {
                return Err(err);
            },
        }
        Ok(TdmsFile { data, tdms_map })
    }

    /// Every indexed object path, in first-sighting order.
    pub fn all_objects(&self) -> (r: Vec<String>)
        ensures
            r@.len() == self.index_keys().len(),
            forall|i: int| 0 <= i < r@.len() ==> (#[trigger] r@[i])@ == self.index_keys()[i],
    {
        proof {
            use_type_invariant(&*self);
        }
        self.tdms_map.all_objects.key_strings()
    }

    /// The object paths that carry raw data, in first-sighting order.
    pub fn data_objects(&self) -> (r: Vec<String>)
        ensures
            forall|i: int| 0 <= i < r@.len() ==> self.is_data_key((#[trigger] r@[i])@),
            forall|j: int|
                0 <= j < self.index_keys().len() && (#[trigger] self.index_records()[j]).last_object.no_bytes
                    > 0 ==> exists|i: int| 0 <= i < r@.len() && r@[i]@ == self.index_keys()[j],
            forall|a: int, b: int|
                0 <= a < b < r@.len() ==> key_position(self.index_keys(), (#[trigger] r@[a])@)
                    < key_position(self.index_keys(), (#[trigger] r@[b])@),
            forall|a: int, b: int|
                0 <= a < b < r@.len() ==> (#[trigger] r@[a])@ != (#[trigger] r@[b])@,
    {
        proof {
            use_type_invariant(&*self);
        }
        let keys = self.tdms_map.all_objects.key_strings();
        let mut out: Vec<String> = Vec::new();
        let mut i: usize = 0;
        while i < keys.len()
            invariant
                wf_map(self.tdms_map),
                keys@.len() == self.index_keys().len(),
                forall|q: int|
                    0 <= q < keys@.len() ==> (#[trigger] keys@[q])@ == self.index_keys()[q],
                i <= keys@.len(),
                forall|q: int| 0 <= q < out@.len() ==> self.is_data_key((#[trigger] out@[q])@),
                forall|j: int|
                    0 <= j < i && (#[trigger] self.index_records()[j]).last_object.no_bytes > 0
                        ==> exists|q: int| 0 <= q < out@.len() && out@[q]@ == self.index_keys()[j],
                forall|q: int|
                    0 <= q < out@.len() ==> 0 <= key_position(
                        self.index_keys(),
                        (#[trigger] out@[q])@,
                    ) < i,
                forall|a: int, b: int|
                    0 <= a < b < out@.len() ==> key_position(
                        self.index_keys(),
                        (#[trigger] out@[a])@,
                    ) < key_position(self.index_keys(), (#[trigger] out@[b])@),
            decreases keys@.len() - i,
        {
            let om = self.tdms_map.all_objects.record_at(i);
            let ghost out0 = out@;
            if om.last_object.no_bytes > 0 {
                out.push(keys[i].clone());
            }
            proof {
                let ii = i as int;
                if om.last_object.no_bytes > 0 {
                    crate::ordmap::lemma_key_position(self.index_keys(), keys@[ii]@);
                    let kp = key_position(self.index_keys(), keys@[ii]@);
                    if kp != ii {
                        assert(self.index_keys()[kp] == self.index_keys()[ii]);
                    }
                    assert(key_position(self.index_keys(), out@[out@.len() - 1]@) == ii);
                }
                assert forall|q: int| 0 <= q < out@.len() implies self.is_data_key(
                    (#[trigger] out@[q])@,
                ) by {
                    if q < out0.len() {
                        assert(out@[q] == out0[q]);
                        assert(self.is_data_key(out0[q]@));
                    } else {
                        assert(out@[q]@ == self.index_keys()[ii]
                            && self.index_records()[ii].last_object.no_bytes > 0);
                    }
                }
                assert forall|j: int|
                    0 <= j < i + 1 && (#[trigger] self.index_records()[j]).last_object.no_bytes > 0
                        implies exists|q: int|
                    0 <= q < out@.len() && out@[q]@ == self.index_keys()[j] by {
                    if j < ii {
                        let q0 = choose|q: int|
                            0 <= q < out0.len() && out0[q]@ == self.index_keys()[j];
                        assert(out@[q0] == out0[q0]);
                    } else {
                        let q = out@.len() - 1;
                        assert(out@[q]@ == self.index_keys()[ii]);
                    }
                }
            }
            i = i + 1;
        }
        out
    }

    /// The latest state of the object at a path; absent paths fail with
    /// the channel-not-found kind, and nothing else does.
    pub fn object_properties(&self, path: &str) -> (r: Result<&TdmsObject, TdmsError>)
        ensures
            r matches Ok(o) ==> key_position(self.index_keys(), path@) != -1 && *o
                == self.record_at_key(path@).last_object,
            r matches Err(err) ==> err.kind == TdmsErrorKind::ChannelNotFound && key_position(
                self.index_keys(),
                path@,
            ) == -1,
    {
        proof {
            use_type_invariant(&*self);
        }
        match self.tdms_map.all_objects.index_of(path) {
            Some(i) => Ok(&self.tdms_map.all_objects.record_at(i).last_object),
            None => Err(TdmsError { kind: TdmsErrorKind::ChannelNotFound }),
        }
    }

    /// The read plan of the object at a path.
    pub fn read_plan(&self, path: &str) -> (r: Result<Vec<ReadPair>, TdmsError>)
        ensures
            r matches Ok(v) ==> key_position(self.index_keys(), path@) != -1 && v@
                =~= self.record_at_key(path@).read_map@,
            r matches Err(err) ==> err.kind == TdmsErrorKind::ChannelNotFound && key_position(
                self.index_keys(),
                path@,
            ) == -1,
    {
        proof {
            use_type_invariant(&*self);
        }
        match self.tdms_map.all_objects.index_of(path) {
            Some(i) => {
                let om = self.tdms_map.all_objects.record_at(i);
                let mut v: Vec<ReadPair> = Vec::new();
                let mut k: usize = 0;
                while k < om.read_map.len()
                    invariant
                        k <= om.read_map@.len(),
                        v@ =~= om.read_map@.take(k as int),
                    decreases om.read_map@.len() - k,
                {
                    v.push(om.read_map[k]);
                    proof {
                        assert(v@ =~= om.read_map@.take(k + 1));
                    }
                    k = k + 1;
                }
                proof {
                    assert(om.read_map@.take(om.read_map@.len() as int) =~= om.read_map@);
                }
                Ok(v)
            },
            None => Err(TdmsError { kind: TdmsErrorKind::ChannelNotFound }),
        }
    }

    /// The accumulated byte and value totals of the object at a path.
    pub fn object_totals(&self, path: &str) -> (r: Result<(u64, usize), TdmsError>)
        ensures
            r matches Ok(t) ==> key_position(self.index_keys(), path@) != -1 && t.0
                == self.record_at_key(path@).total_bytes && t.1 == self.record_at_key(
                path@,
            ).total_values,
            r matches Err(err) ==> err.kind == TdmsErrorKind::ChannelNotFound && key_position(
                self.index_keys(),
                path@,
            ) == -1,
    {
        proof {
            use_type_invariant(&*self);
        }
        match self.tdms_map.all_objects.index_of(path) {
            Some(i) => {
                let om = self.tdms_map.all_objects.record_at(i);
                Ok((om.total_bytes, om.total_values))
            },
            None => Err(TdmsError { kind: TdmsErrorKind::ChannelNotFound }),
        }
    }

    /// The segments the index was built from, in file order.
    pub fn segment_list(&self) -> (r: Vec<TdmsSegment>)
        ensures
            r@ =~= self.index_segments(),
    {
        proof {
            use_type_invariant(&*self);
        }
        let mut v: Vec<TdmsSegment> = Vec::new();
        let mut k: usize = 0;
        while k < self.tdms_map.segments.len()
            invariant
                k <= self.index_segments().len(),
                self.index_segments() == self.tdms_map.segments@,
                v@ =~= self.index_segments().take(k as int),
            decreases self.index_segments().len() - k,
        {
            v.push(self.tdms_map.segments[k]);
            proof {
                assert(v@ =~= self.index_segments().take(k + 1));
            }
            k = k + 1;
        }
        proof {
            assert(self.index_segments().take(self.index_segments().len() as int)
                =~= self.index_segments());
        }
        v
    }

    /// Load the raw data of the channel at a path into one typed vector.
    /// An absent path fails with the channel-not-found kind and nothing
    /// else does; a present path loads exactly as its record demands,
    /// type by type.
    pub fn load_data(&self, path: &str) -> (r: Result<DataTypeVec, TdmsError>)
        ensures
            key_position(self.index_keys(), path@) == -1 <==> r == Err::<DataTypeVec, _>(
                TdmsError { kind: TdmsErrorKind::ChannelNotFound },
            ),
            key_position(self.index_keys(), path@) != -1 ==> crate::loader::load_matches(
                self.record_at_key(path@),
                self.file_bytes(),
                r,
            ),
            ({
                let found = key_position(self.index_keys(), path@) != -1;
                let record = self.record_at_key(path@);
                (found && r is Ok && record.last_object.raw_data_type != Some(DataTypeRaw::Void))
                    ==> (r matches Ok(d) && data_vec_len(d) == record.total_values)
            }),
            r matches Err(err) ==> (err.kind == TdmsErrorKind::ChannelNotFound || err.kind
                == TdmsErrorKind::Io || err.kind == TdmsErrorKind::FromUtf8 || err.kind
                == TdmsErrorKind::NotImplemented || err.kind == TdmsErrorKind::ObjectHasNoRawData),
            (r matches Err(err) && err.kind == TdmsErrorKind::ObjectHasNoRawData) <==> (
            key_position(self.index_keys(), path@) != -1 && self.record_at_key(
                path@,
            ).last_object.raw_data_type is None),
            (r matches Err(err) && key_position(self.index_keys(), path@) != -1
                && self.record_at_key(path@).last_object.raw_data_type != Some(
                DataTypeRaw::TdmsString,
            )) ==> (r matches Err(err) && err.kind != TdmsErrorKind::FromUtf8),
    {
        proof {
            use_type_invariant(&*self);
        }
        match self.tdms_map.all_objects.index_of(path) {
            Some(i) => read_data_vector(self.tdms_map.all_objects.record_at(i), &self.data),
            None => Err(TdmsError { kind: TdmsErrorKind::ChannelNotFound }),
        }
    }

    /// Release the file deterministically.
    pub fn close(self) {
    }
}

/// No path is enumerated twice: the index keys are pairwise distinct, so
/// an enumeration in first-sighting order names each object once.
pub proof fn lemma_index_keys_distinct(f: TdmsFile)
    requires
        f.wf(),
    ensures
        forall|i: int, j: int|
            0 <= i < j < f.index_keys().len() ==> f.index_keys()[i] != f.index_keys()[j],
{
}

/// Every channel's plan accounts for its total: the sum of `no_values`
/// over the read plan of an indexed object equals its accumulated
/// `total_values`.
pub proof fn lemma_plan_total(f: TdmsFile, p: Seq<char>)
    requires
        f.wf(),
        key_position(f.index_keys(), p) != -1,
    ensures
        sum_values(f.record_at_key(p).read_map@) == f.record_at_key(p).total_values,
{
    crate::ordmap::lemma_key_position(f.index_keys(), p);
}

/// Chunks never overrun the raw block: for every indexed segment whose
/// offsets are not inverted, the counted chunks cover at most the bytes
/// between the raw-data offset and the next segment.
pub proof fn lemma_chunks_fit(f: TdmsFile, i: int)
    requires
        f.wf(),
        0 <= i < f.index_segments().len(),
        f.index_segments()[i].raw_data_offset <= f.index_segments()[i].next_seg_offset,
    ensures
        f.index_segments()[i].no_chunks * f.index_segments()[i].chunk_size <= f.index_segments()[i].next_seg_offset
            - f.index_segments()[i].raw_data_offset,
{
}

} // verus!

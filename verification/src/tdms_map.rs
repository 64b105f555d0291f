//! The indexer: walking segments, keeping the live-object list, and
//! emitting each object's read plan.

use vstd::prelude::*;

use vstd::arithmetic::div_mod::{lemma_fundamental_div_mod, lemma_mod_bound};

use crate::bytes::{read_u32, read_u64, word4, word8, Endianness};
use crate::ordmap::{key_position, lemma_key_position_push, OrderedRecords};
use crate::tdms_datatypes::{
    has_toc, read_string, string_decode, type_code, DataTypeRaw, TocMask, TocProperties,
};
use crate::tdms_error::{TdmsError, TdmsErrorKind};
use crate::tdms_objects::{wf_object, TdmsObject};

verus! {

/// One entry of a channel's read plan: where a chunk's values of the
/// channel start, how many there are, and — for interleaved chunks — the
/// byte distance from the end of one value to the start of the next.
#[derive(Clone, Copy, Debug, PartialEq, Eq, Structural)]
pub struct ReadPair {
    pub start_index: u64,
    pub no_values: u64,
    pub interleaved: bool,
    pub stride: Option<u64>,
}

/// The sum of `no_values` over a read plan.
pub open spec fn sum_values(ps: Seq<ReadPair>) -> int
    decreases ps.len(),
{
    if ps.len() == 0 {
        0
    } else {
        sum_values(ps.drop_last()) + ps.last().no_values
    }
}

/// Appending a pair adds its `no_values` to the plan's sum.
pub proof fn lemma_sum_values_push(ps: Seq<ReadPair>, p: ReadPair)
    ensures
        sum_values(ps.push(p)) == sum_values(ps) + p.no_values,
{
    assert(ps.push(p).drop_last() =~= ps);
}

/// The record kept per object: its latest state, its read plan, and the
/// accumulated totals of its raw data.
#[derive(Debug)]
pub struct ObjectMap {
    pub last_object: TdmsObject,
    pub read_map: Vec<ReadPair>,
    pub total_bytes: u64,
    pub total_values: usize,
    pub bigendian: bool,
}

/// The record's consistency: the object is well formed and the running
/// value total is exactly the sum of the plan's `no_values`.
pub open spec fn wf_object_map(om: ObjectMap) -> bool {
    &&& wf_object(om.last_object)
    &&& om.total_values == sum_values(om.read_map@)
}

impl ObjectMap {
    /// A fresh record around a fresh object.
    pub fn new_default(path: String) -> (r: ObjectMap)
        ensures
            wf_object_map(r),
            r.last_object.object_path == path,
            r.last_object.raw_data_type is None,
            r.last_object.no_bytes == 0,
            r.read_map@ =~= Seq::<ReadPair>::empty(),
            r.total_values == 0,
            r.total_bytes == 0,
    {
        ObjectMap {
            last_object: TdmsObject::new_default(path),
            read_map: Vec::new(),
            total_bytes: 0,
            total_values: 0,
            bigendian: false,
        }
    }
}

/// One segment's lead-in together with the sizes computed for it.
#[derive(Clone, Copy, Debug, PartialEq, Eq, Structural)]
pub struct TdmsSegment {
    pub file_tag: u32,
    pub toc_mask: TocMask,
    pub version_no: u32,
    pub next_seg_offset: u64,
    pub raw_data_offset: u64,
    pub start_index: u64,
    pub no_chunks: u64,
    pub chunk_size: u64,
    pub channels_size: u64,
}

/// The first byte of the segment's raw block: just past the 28-byte
/// lead-in plus the declared raw-data offset.
pub open spec fn block_lo(s: TdmsSegment) -> int {
    s.start_index + 28 + s.raw_data_offset
}

/// One past the last byte of the segment's raw block, which ends where
/// the next segment begins.
pub open spec fn block_hi(s: TdmsSegment) -> int {
    s.start_index + 28 + s.next_seg_offset
}

/// The segment's computed sizes are consistent: the chunks counted never
/// reach past the declared raw block, and a segment whose offsets are
/// inverted counts no chunks at all.
pub open spec fn wf_segment(s: TdmsSegment) -> bool {
    &&& (s.raw_data_offset <= s.next_seg_offset ==> s.no_chunks * s.chunk_size
        <= s.next_seg_offset - s.raw_data_offset)
    &&& (s.raw_data_offset > s.next_seg_offset ==> s.no_chunks == 0)
}

impl TdmsSegment {
    /// A blank segment at a start offset, before its lead-in is read.
    pub fn new(start_index: u64) -> (r: TdmsSegment)
        ensures
            r.start_index == start_index,
            r.file_tag == 0,
            r.toc_mask.flags == 0,
            r.version_no == 0,
            r.next_seg_offset == 0,
            r.raw_data_offset == 0,
            r.no_chunks == 0,
            r.chunk_size == 0,
            r.channels_size == 0,
            wf_segment(r),
    {
        TdmsSegment {
            file_tag: 0,
            toc_mask: TocMask { flags: 0 },
            version_no: 0,
            next_seg_offset: 0,
            raw_data_offset: 0,
            start_index,
            no_chunks: 0,
            chunk_size: 0,
            channels_size: 0,
        }
    }
}

/// One live object's share of a chunk, resolved to its record position:
/// its byte contribution, its one-sample size, and its value count.
#[derive(Debug)]
pub struct ChunkEntry {
    pub rec_idx: usize,
    pub no_bytes: u64,
    pub sample_size: u64,
    pub no_values: u64,
}

/// The sum of byte contributions over a chunk layout.
pub open spec fn sum_bytes(es: Seq<ChunkEntry>) -> int
    decreases es.len(),
{
    if es.len() == 0 {
        0
    } else {
        sum_bytes(es.drop_last()) + es.last().no_bytes
    }
}

/// The sum of one-sample sizes over a chunk layout.
pub open spec fn sum_samples(es: Seq<ChunkEntry>) -> int
    decreases es.len(),
{
    if es.len() == 0 {
        0
    } else {
        sum_samples(es.drop_last()) + es.last().sample_size
    }
}

/// A prefix of a layout sums to no more than the whole, and sums are
/// never negative; one more entry adds exactly its own contribution.
pub proof fn lemma_sum_prefix(es: Seq<ChunkEntry>, i: int)
    requires
        0 <= i <= es.len(),
    ensures
        0 <= sum_bytes(es.take(i)) <= sum_bytes(es),
        0 <= sum_samples(es.take(i)) <= sum_samples(es),
        i < es.len() ==> sum_bytes(es.take(i + 1)) == sum_bytes(es.take(i)) + es[i].no_bytes,
        i < es.len() ==> sum_samples(es.take(i + 1)) == sum_samples(es.take(i))
            + es[i].sample_size,
    decreases es.len() - i,
{
    if i < es.len() {
        assert(es.take(i + 1).drop_last() =~= es.take(i));
        assert(es.take(i + 1).last() == es[i]);
        lemma_sum_prefix(es, i + 1);
        lemma_sum_nonneg(es.take(i));
    } else {
        assert(es.take(i) =~= es);
        lemma_sum_nonneg(es);
    }
}

/// Layout sums are never negative.
pub proof fn lemma_sum_nonneg(es: Seq<ChunkEntry>)
    ensures
        sum_bytes(es) >= 0,
        sum_samples(es) >= 0,
    decreases es.len(),
{
    if es.len() > 0 {
        lemma_sum_nonneg(es.drop_last());
    }
}

/// A read pair's bytes lie inside a segment's raw block: every pair
/// starts inside the block, and a contiguous pair's whole byte extent
/// stays inside it. An interleaved pair's reads end one stride short of
/// `no_values` rows of the chunk's channels, so its extent stays inside
/// the block whenever those rows fit one chunk.
pub open spec fn pair_in_block(p: ReadPair, nbytes: u64, s: TdmsSegment) -> bool {
    &&& block_lo(s) <= p.start_index
    &&& (!p.interleaved ==> p.start_index + nbytes <= block_hi(s))
    &&& ((p.interleaved && p.no_values > 0 && p.no_values * s.channels_size <= s.chunk_size)
        ==> (match p.stride {
        Some(st) => p.start_index + p.no_values * s.channels_size - st <= block_hi(s),
        None => true,
    }))
}

/// What stays of an object's record while its metadata is re-read: the
/// read plan, the running totals and the endianness flag.
pub open spec fn plan_untouched(o: ObjectMap, n: ObjectMap) -> bool {
    &&& n.read_map@ =~= o.read_map@
    &&& n.total_values == o.total_values
    &&& n.total_bytes == o.total_bytes
    &&& n.bigendian == o.bigendian
}

/// The raw-data descriptor of an object record: its type, dimension,
/// value count and byte contribution.
pub open spec fn descriptor_of(o: TdmsObject) -> (Option<DataTypeRaw>, Option<u32>, Option<u64>, u64) {
    (o.raw_data_type, o.raw_data_dim, o.no_raw_vals, o.no_bytes)
}

/// Whether a list of paths holds one equal to `s`.
fn contains_string(v: &Vec<String>, s: &String) -> (r: bool)
    ensures
        r <==> exists|i: int| 0 <= i < v@.len() && (#[trigger] v@[i])@ == s@,
{
    let mut i: usize = 0;
    while i < v.len()
        invariant
            i <= v@.len(),
            forall|q: int| 0 <= q < i ==> (#[trigger] v@[q])@ != s@,
        decreases v@.len() - i,
    {
        if v[i].eq(s) {
            return true;
        }
        i = i + 1;
    }
    false
}

/// How one object's record may grow while a segment is indexed: the
/// object itself stays as it is, the old plan is kept as a prefix, and
/// every pair added lies inside the segment's raw block.
pub open spec fn pairs_extended(o: ObjectMap, n: ObjectMap, s: TdmsSegment) -> bool {
    &&& n.last_object == o.last_object
    &&& n.read_map@.len() >= o.read_map@.len()
    &&& n.read_map@.take(o.read_map@.len() as int) =~= o.read_map@
    &&& forall|k: int|
        o.read_map@.len() <= k < n.read_map@.len() ==> pair_in_block(
            #[trigger] n.read_map@[k],
            n.last_object.no_bytes,
            s,
        )
}

/// The index under construction: every object ever sighted, the ordered
/// list of objects live in the current chunk layout, and the segments
/// walked so far.
#[derive(Debug)]
pub struct TdmsMap {
    pub segments: Vec<TdmsSegment>,
    pub all_objects: OrderedRecords<ObjectMap>,
    pub live_objects: Vec<String>,
}

/// The whole index is consistent: the object store is well formed, every
/// record and segment is, the live list holds only known paths, and no
/// path twice.
pub open spec fn wf_map(m: TdmsMap) -> bool {
    &&& m.all_objects.wf()
    &&& forall|j: int|
        0 <= j < m.all_objects.values().len() ==> wf_object_map(
            #[trigger] m.all_objects.values()[j],
        )
    &&& forall|j: int| 0 <= j < m.segments@.len() ==> wf_segment(#[trigger] m.segments@[j])
    &&& forall|j: int|
        0 <= j < m.live_objects@.len() ==> key_position(
            m.all_objects.keys(),
            (#[trigger] m.live_objects@[j])@,
        ) != -1
    &&& forall|i: int, j: int|
        0 <= i < j < m.live_objects@.len() ==> (#[trigger] m.live_objects@[i])@ != (
        #[trigger] m.live_objects@[j])@
}

/// The live list after one declared object: a raw-bearing path not yet
/// listed is appended; everything else leaves the list as it is.
pub open spec fn live_push(live: Seq<Seq<char>>, path: Seq<char>, has_raw: bool) -> Seq<
    Seq<char>,
> {
    if has_raw && key_position(live, path) == -1 {
        live.push(path)
    } else {
        live
    }
}

/// The object walk of a metadata block: `n` object records in a row,
/// each a path then a record, threading the known-path list (grown at
/// first sighting) and the live list (grown by raw-bearing paths in
/// declaration order). Nothing if any record fails to parse, including
/// a carry-over for a path never seen.
pub open spec fn objects_walk(
    data: Seq<u8>,
    pos: int,
    e: Endianness,
    keys: Seq<Seq<char>>,
    live: Seq<Seq<char>>,
    n: nat,
) -> Option<(int, Seq<Seq<char>>, Seq<Seq<char>>)>
    decreases n,
{
    if n == 0 {
        Some((pos, keys, live))
    } else {
        match string_decode(data, pos, e) {
            Err(_) => None,
            Ok(nm) => {
                let path = nm.0;
                let p1 = nm.1;
                let prior = key_position(keys, path) != -1;
                match crate::tdms_objects::object_end(data, p1, e, prior) {
                    None => None,
                    Some(q) => {
                        let keys2 = if prior {
                            keys
                        } else {
                            keys.push(path)
                        };
                        let has_raw = word4(data.subrange(p1, p1 + 4), e) != 0xFFFF_FFFF;
                        objects_walk(
                            data,
                            q,
                            e,
                            keys2,
                            live_push(live, path, has_raw),
                            (n - 1) as nat,
                        )
                    },
                }
            },
        }
    }
}

/// One more object extends the walk at its end.
pub proof fn lemma_objects_walk_snoc(
    data: Seq<u8>,
    pos: int,
    e: Endianness,
    keys: Seq<Seq<char>>,
    live: Seq<Seq<char>>,
    n: nat,
)
    ensures
        objects_walk(data, pos, e, keys, live, n + 1) == (match objects_walk(
            data,
            pos,
            e,
            keys,
            live,
            n,
        ) {
            None => None,
            Some(st) => match string_decode(data, st.0, e) {
                Err(_) => None,
                Ok(nm) => {
                    let prior = key_position(st.1, nm.0) != -1;
                    match crate::tdms_objects::object_end(data, nm.1, e, prior) {
                        None => None,
                        Some(q) => Some(
                            (
                                q,
                                if prior {
                                    st.1
                                } else {
                                    st.1.push(nm.0)
                                },
                                live_push(
                                    st.2,
                                    nm.0,
                                    word4(data.subrange(nm.1, nm.1 + 4), e) != 0xFFFF_FFFF,
                                ),
                            ),
                        ),
                    }
                },
            },
        }),
    decreases n,
{
    if n == 0 {
        assert(objects_walk(data, pos, e, keys, live, 0) == Some((pos, keys, live)));
        match string_decode(data, pos, e) {
            Err(_) => {
                assert(objects_walk(data, pos, e, keys, live, 1) is None);
            },
            Ok(nm) => {
                let prior = key_position(keys, nm.0) != -1;
                match crate::tdms_objects::object_end(data, nm.1, e, prior) {
                    None => {
                        assert(objects_walk(data, pos, e, keys, live, 1) is None);
                    },
                    Some(q) => {
                        let keys2 = if prior {
                            keys
                        } else {
                            keys.push(nm.0)
                        };
                        let has_raw = word4(data.subrange(nm.1, nm.1 + 4), e) != 0xFFFF_FFFF;
                        assert(objects_walk(data, pos, e, keys, live, 1) == objects_walk(
                            data,
                            q,
                            e,
                            keys2,
                            live_push(live, nm.0, has_raw),
                            0,
                        ));
                    },
                }
            },
        }
    } else {
        match string_decode(data, pos, e) {
            Err(_) => {
                assert(objects_walk(data, pos, e, keys, live, n + 1) is None);
                assert(objects_walk(data, pos, e, keys, live, n) is None);
            },
            Ok(nm) => {
                let prior = key_position(keys, nm.0) != -1;
                match crate::tdms_objects::object_end(data, nm.1, e, prior) {
                    None => {
                        assert(objects_walk(data, pos, e, keys, live, n + 1) is None);
                        assert(objects_walk(data, pos, e, keys, live, n) is None);
                    },
                    Some(q) => {
                        let keys2 = if prior {
                            keys
                        } else {
                            keys.push(nm.0)
                        };
                        let has_raw = word4(data.subrange(nm.1, nm.1 + 4), e) != 0xFFFF_FFFF;
                        let live2 = live_push(live, nm.0, has_raw);
                        assert(objects_walk(data, pos, e, keys, live, n + 1) == objects_walk(
                            data,
                            q,
                            e,
                            keys2,
                            live2,
                            n,
                        ));
                        assert(objects_walk(data, pos, e, keys, live, n) == objects_walk(
                            data,
                            q,
                            e,
                            keys2,
                            live2,
                            (n - 1) as nat,
                        ));
                        lemma_objects_walk_snoc(data, q, e, keys2, live2, (n - 1) as nat);
                    },
                }
            },
        }
    }
}

/// An object walk that parses whole parses at every prefix.
pub proof fn lemma_objects_walk_prefix(
    data: Seq<u8>,
    pos: int,
    e: Endianness,
    keys: Seq<Seq<char>>,
    live: Seq<Seq<char>>,
    n: nat,
    k: nat,
)
    requires
        k <= n,
        objects_walk(data, pos, e, keys, live, n) is Some,
    ensures
        objects_walk(data, pos, e, keys, live, k) is Some,
    decreases n,
{
    if k > 0 && n > 0 {
        match string_decode(data, pos, e) {
            Err(_) => {},
            Ok(nm) => {
                let prior = key_position(keys, nm.0) != -1;
                match crate::tdms_objects::object_end(data, nm.1, e, prior) {
                    None => {},
                    Some(q) => {
                        let keys2 = if prior {
                            keys
                        } else {
                            keys.push(nm.0)
                        };
                        let has_raw = word4(data.subrange(nm.1, nm.1 + 4), e) != 0xFFFF_FFFF;
                        lemma_objects_walk_prefix(
                            data,
                            q,
                            e,
                            keys2,
                            live_push(live, nm.0, has_raw),
                            (n - 1) as nat,
                            (k - 1) as nat,
                        );
                    },
                }
            },
        }
    }
}

/// One step of the walk: parsing the segment `seg` carried the index
/// from `pre` to `post`. The segment's header fields are the words of
/// its lead-in, its offset is not the sentinel, the object walk of its
/// metadata block carries the key order and the live list from `pre` to
/// `post` (the live list restarted when the roster is replaced), the
/// record of the segment is appended, and its sizes obey the live-sum
/// and chunk-count formulas over `post`.
#[verifier::opaque]
pub open spec fn segment_step(pre: TdmsMap, post: TdmsMap, data: Seq<u8>, seg: TdmsSegment) -> bool {
    let st = seg.start_index as int;
    let e = if has_toc(seg.toc_mask.flags, TocProperties::KTocBigEndian) {
        Endianness::Big
    } else {
        Endianness::Little
    };
    let mcount = word4(data.subrange(st + 28, st + 32), e);
    let live0 = if has_toc(seg.toc_mask.flags, TocProperties::KTocNewObjList) {
        Seq::<Seq<char>>::empty()
    } else {
        pre.live_objects@.map_values(|x: String| x@)
    };
    &&& st < data.len()
    &&& seg.file_tag == word4(data.subrange(st, st + 4), Endianness::Little)
    &&& seg.toc_mask.flags == word4(data.subrange(st + 4, st + 8), Endianness::Little)
    &&& seg.version_no == word4(data.subrange(st + 8, st + 12), e)
    &&& seg.next_seg_offset == word8(data.subrange(st + 12, st + 20), e)
    &&& seg.raw_data_offset == word8(data.subrange(st + 20, st + 28), e)
    &&& seg.next_seg_offset != 0xFFFF_FFFF_FFFF_FFFF
    &&& post.segments@ == pre.segments@.push(seg)
    &&& (objects_walk(data, st + 32, e, pre.all_objects.keys(), live0, mcount as nat)
        matches Some(st2) && st2.1 == post.all_objects.keys() && st2.2
        == post.live_objects@.map_values(|x: String| x@))
    &&& seg.chunk_size == live_chunk_sum(post, post.live_objects@.len() as int)
    &&& seg.channels_size == live_channels_sum(post, post.live_objects@.len() as int)
    &&& seg.no_chunks == (if seg.chunk_size > 0 && seg.raw_data_offset <= seg.next_seg_offset {
        ((seg.next_seg_offset - seg.raw_data_offset) as int) / (seg.chunk_size as int)
    } else {
        0
    })
}

/// A chain of index states folding `segment_step` over a list of
/// recorded segments: state `i` steps to state `i + 1` by parsing
/// segment `i`, starting from `m0`.
pub open spec fn walk_chained(
    states: Seq<TdmsMap>,
    m0: TdmsMap,
    segs: Seq<TdmsSegment>,
    data: Seq<u8>,
) -> bool {
    &&& states.len() == segs.len() + 1
    &&& states[0] == m0
    &&& forall|i: int|
        0 <= i < segs.len() ==> segment_step(states[i], #[trigger] states[i + 1], data, segs[i])
}

/// How the final index may sit past the last chained state: a stopping
/// segment records nothing, but the object records it touched before
/// the stop are kept, so the segment list is unchanged and the key
/// order is only ever extended.
pub open spec fn tail_from(last: TdmsMap, fin: TdmsMap) -> bool {
    &&& fin.segments@ == last.segments@
    &&& fin.all_objects.keys().len() >= last.all_objects.keys().len()
    &&& fin.all_objects.keys().take(last.all_objects.keys().len() as int)
        == last.all_objects.keys()
}

/// Exhibiting one chain of states shows a chain exists.
pub proof fn lemma_chain_exists(states: Seq<TdmsMap>, m0: TdmsMap, fin: TdmsMap, data: Seq<u8>)
    requires
        walk_chained(states, m0, fin.segments@, data),
        tail_from(states[states.len() - 1], fin),
    ensures
        exists|s2: Seq<TdmsMap>|
            #[trigger] walk_chained(s2, m0, fin.segments@, data) && tail_from(
                s2[s2.len() - 1],
                fin,
            ),
{
}

/// Every index sits trivially past itself.
pub proof fn lemma_tail_refl(m: TdmsMap)
    ensures
        tail_from(m, m),
{
    assert(m.all_objects.keys().take(m.all_objects.keys().len() as int) =~= m.all_objects.keys());
}

/// The walked segments against the file bytes: the first segment starts
/// at byte zero and each next one where its predecessor's header said;
/// every start lies inside the file; and each segment's header fields
/// are the words of its lead-in — the file tag and ToC word always
/// little-endian, the remaining three fields in the endianness the ToC
/// word's big-endian flag picks.
pub open spec fn segments_chained(ss: Seq<TdmsSegment>, data: Seq<u8>) -> bool {
    forall|i: int|
        0 <= i < ss.len() ==> ({
            let s = #[trigger] ss[i];
            let st = s.start_index as int;
            let e = if has_toc(s.toc_mask.flags, TocProperties::KTocBigEndian) {
                Endianness::Big
            } else {
                Endianness::Little
            };
            &&& (i == 0 ==> st == 0)
            &&& (i > 0 ==> st == ss[i - 1].start_index + 28 + ss[i - 1].next_seg_offset)
            &&& st < data.len()
            &&& s.file_tag == word4(data.subrange(st, st + 4), Endianness::Little)
            &&& s.toc_mask.flags == word4(data.subrange(st + 4, st + 8), Endianness::Little)
            &&& s.version_no == word4(data.subrange(st + 8, st + 12), e)
            &&& s.next_seg_offset == word8(data.subrange(st + 12, st + 20), e)
            &&& s.raw_data_offset == word8(data.subrange(st + 20, st + 28), e)
            &&& s.next_seg_offset != 0xFFFF_FFFF_FFFF_FFFF
        })
}

/// The byte contribution of the object at a path to one chunk, taken
/// from its latest descriptor; a path without a record contributes
/// nothing.
pub open spec fn record_no_bytes(m: TdmsMap, p: Seq<char>) -> int {
    let j = key_position(m.all_objects.keys(), p);
    if j == -1 {
        0
    } else {
        m.all_objects.values()[j].last_object.no_bytes as int
    }
}

/// The one-sample size of the object at a path: its whole segment byte
/// count for the string type, the fixed size of its type otherwise, and
/// nothing without a raw type.
pub open spec fn record_sample_size(m: TdmsMap, p: Seq<char>) -> int {
    let j = key_position(m.all_objects.keys(), p);
    if j == -1 {
        0
    } else {
        match m.all_objects.values()[j].last_object.raw_data_type {
            None => 0,
            Some(DataTypeRaw::TdmsString) => m.all_objects.values()[j].last_object.no_bytes as int,
            Some(t) => crate::tdms_datatypes::type_size(t),
        }
    }
}

/// The chunk size over the first `n` live objects: the sum of their byte
/// contributions.
pub open spec fn live_chunk_sum(m: TdmsMap, n: int) -> int
    decreases n,
{
    if n <= 0 {
        0
    } else {
        live_chunk_sum(m, n - 1) + record_no_bytes(m, m.live_objects@[n - 1]@)
    }
}

/// The channels size over the first `n` live objects: the sum of their
/// one-sample sizes.
pub open spec fn live_channels_sum(m: TdmsMap, n: int) -> int
    decreases n,
{
    if n <= 0 {
        0
    } else {
        live_channels_sum(m, n - 1) + record_sample_size(m, m.live_objects@[n - 1]@)
    }
}

/// Growing a plan inside a segment's block twice grows it once: the
/// prefix relation and per-pair containment compose.
pub proof fn lemma_pairs_extended_chain(
    a: Seq<ObjectMap>,
    b: Seq<ObjectMap>,
    c: Seq<ObjectMap>,
    s: TdmsSegment,
)
    requires
        a.len() == b.len() == c.len(),
        forall|j: int| 0 <= j < a.len() ==> pairs_extended(a[j], #[trigger] b[j], s),
        forall|j: int| 0 <= j < b.len() ==> pairs_extended(b[j], #[trigger] c[j], s),
    ensures
        forall|j: int| 0 <= j < a.len() ==> pairs_extended(a[j], #[trigger] c[j], s),
{
    assert forall|j: int| 0 <= j < a.len() implies pairs_extended(a[j], #[trigger] c[j], s) by {
        assert(pairs_extended(a[j], b[j], s));
        assert(pairs_extended(b[j], c[j], s));
        assert(c[j].read_map@.take(a[j].read_map@.len() as int) =~= a[j].read_map@) by {
            assert(b[j].read_map@.take(a[j].read_map@.len() as int) =~= a[j].read_map@);
            assert(c[j].read_map@.take(b[j].read_map@.len() as int) =~= b[j].read_map@);
            assert forall|k: int| 0 <= k < a[j].read_map@.len() implies c[j].read_map@[k] == a[
                j
            ].read_map@[k] by {
                assert(b[j].read_map@[k] == b[j].read_map@.take(a[j].read_map@.len() as int)[k]);
                assert(c[j].read_map@[k] == c[j].read_map@.take(b[j].read_map@.len() as int)[k]);
            }
        }
        assert forall|k: int|
            a[j].read_map@.len() <= k < c[j].read_map@.len() implies pair_in_block(
            #[trigger] c[j].read_map@[k],
            c[j].last_object.no_bytes,
            s,
        ) by {
            if k < b[j].read_map@.len() {
                assert(c[j].read_map@[k] == c[j].read_map@.take(b[j].read_map@.len() as int)[k]);
                assert(c[j].read_map@[k] == b[j].read_map@[k]);
            }
        }
    }
}

/// The in-chunk position of a layout entry: the byte contributions of
/// the entries before it for a contiguous chunk, their one-sample sizes
/// for an interleaved one.
pub open spec fn emit_rel(es: Seq<ChunkEntry>, li: int, interleaved: bool) -> int {
    if interleaved {
        sum_samples(es.take(li))
    } else {
        sum_bytes(es.take(li))
    }
}

/// The read pair a segment's chunk `i` yields for a layout entry at
/// in-chunk position `rel`: it starts at the raw block plus the chunks
/// already passed plus the position inside the chunk, counts the entry's
/// values, carries the segment's interleaved flag, and strides over the
/// other channels' one-sample sizes.
pub open spec fn emitted_pair(s: TdmsSegment, entry: ChunkEntry, rel: int, i: int) -> ReadPair {
    ReadPair {
        start_index: (block_lo(s) + i * s.chunk_size + rel) as u64,
        no_values: entry.no_values,
        interleaved: has_toc(s.toc_mask.flags, TocProperties::KTocInterleavedData),
        stride: Some((s.channels_size - entry.sample_size) as u64),
    }
}

/// What emitting a segment's plan does to one record: the object itself
/// stays, the endianness flag is taken from the segment, and — when the
/// entry contributes bytes — exactly one pair per chunk is appended, each
/// the pair the chunk yields, with the totals grown accordingly; an
/// entry without bytes changes nothing but the flag.
#[verifier::opaque]
pub open spec fn emitted_plan(
    o: ObjectMap,
    n: ObjectMap,
    s: TdmsSegment,
    entry: ChunkEntry,
    rel: int,
) -> bool {
    &&& n.last_object == o.last_object
    &&& n.bigendian == has_toc(s.toc_mask.flags, TocProperties::KTocBigEndian)
    &&& (entry.no_bytes > 0 ==> {
        &&& n.read_map@.len() == o.read_map@.len() + s.no_chunks
        &&& n.read_map@.take(o.read_map@.len() as int) =~= o.read_map@
        &&& (forall|i: int|
            0 <= i < s.no_chunks ==> n.read_map@[o.read_map@.len() + i] == emitted_pair(
                s,
                entry,
                rel,
                i,
            ))
        &&& n.total_bytes == o.total_bytes + s.no_chunks * entry.no_bytes
        &&& n.total_values == o.total_values + s.no_chunks * entry.no_values
    })
    &&& (entry.no_bytes == 0 ==> n.read_map@ =~= o.read_map@ && n.total_bytes == o.total_bytes
        && n.total_values == o.total_values)
}

/// Whether a chunk layout holds an entry for record position `j`.
pub open spec fn in_layout(es: Seq<ChunkEntry>, j: int) -> bool {
    exists|li: int| 0 <= li < es.len() && (#[trigger] es[li]).rec_idx == j
}

/// The live sums look only at the live list, the key order and each
/// record's latest object, so emitting a read plan leaves them as they
/// are.
pub proof fn lemma_live_sums_stable(a: TdmsMap, b: TdmsMap, n: int)
    requires
        b.live_objects@ == a.live_objects@,
        b.all_objects.keys() == a.all_objects.keys(),
        b.all_objects.values().len() == a.all_objects.values().len(),
        a.all_objects.keys().len() == a.all_objects.values().len(),
        forall|j: int|
            0 <= j < a.all_objects.values().len() ==> (#[trigger] b.all_objects.values()[j]).last_object
                == a.all_objects.values()[j].last_object,
        0 <= n <= a.live_objects@.len(),
    ensures
        live_chunk_sum(b, n) == live_chunk_sum(a, n),
        live_channels_sum(b, n) == live_channels_sum(a, n),
    decreases n,
{
    if n > 0 {
        lemma_live_sums_stable(a, b, n - 1);
        let p = a.live_objects@[n - 1]@;
        crate::ordmap::lemma_key_position(a.all_objects.keys(), p);
        let j = key_position(a.all_objects.keys(), p);
        if j != -1 {
            assert(b.all_objects.values()[j].last_object == a.all_objects.values()[j].last_object);
        }
    }
}

/// The absolute start of a chunk read: segment start, lead-in, raw-data
/// offset, whole chunks already passed, and the position inside the
/// chunk. `None` when that does not fit the offset arithmetic.
fn pair_start(s: &TdmsSegment, i: u64, rel_pos: u64) -> (r: Option<u64>)
    ensures
        r matches Some(v) ==> v == s.start_index + 28 + s.raw_data_offset + i * s.chunk_size
            + rel_pos,
{
    let a1 = match s.start_index.checked_add(28) {
        Some(v) => v,
        None => {
            return None;
        },
    };
    let a2 = match a1.checked_add(s.raw_data_offset) {
        Some(v) => v,
        None => {
            return None;
        },
    };
    let prod = match i.checked_mul(s.chunk_size) {
        Some(v) => v,
        None => {
            return None;
        },
    };
    let a3 = match a2.checked_add(prod) {
        Some(v) => v,
        None => {
            return None;
        },
    };
    a3.checked_add(rel_pos)
}

impl TdmsMap {
    /// An empty index.
    pub fn new() -> (r: TdmsMap)
        ensures
            wf_map(r),
            r.all_objects.keys() =~= Seq::<Seq<char>>::empty(),
            r.all_objects.values().len() == 0,
            r.segments@ =~= Seq::<TdmsSegment>::empty(),
            r.live_objects@ =~= Seq::<String>::empty(),
    {
        TdmsMap {
            segments: Vec::new(),
            all_objects: OrderedRecords::new(),
            live_objects: Vec::new(),
        }
    }

    /// Read one object record — path already read — and update its entry
    /// in the store: dispatch on the index-information discriminator,
    /// then read the properties. Returns the position after the record
    /// and whether the object carries raw data in this segment.
    #[verifier::rlimit(100)]
    fn update_read_object(&mut self, path: String, data: &Vec<u8>, pos: usize, e: Endianness) -> (r:
        Result<(usize, bool), TdmsError>)
        requires
            old(self).all_objects.wf(),
            forall|q: int|
                0 <= q < old(self).all_objects.values().len() ==> wf_object_map(
                    #[trigger] old(self).all_objects.values()[q],
                ),
        ensures
            r matches Ok(x) ==> ({
                let disc = word4(data@.subrange(pos as int, pos + 4), e);
                let jnew = key_position(final(self).all_objects.keys(), path@);
                let newobj = final(self).all_objects.values()[jnew].last_object;
                let j0 = key_position(old(self).all_objects.keys(), path@);
                &&& pos + 4 <= data@.len()
                &&& newobj.index_info_len == disc
                &&& x.1 == (disc != 0xFFFF_FFFF)
                &&& ((disc == 0xFFFF_FFFF || disc == 0) && j0 != -1 ==> descriptor_of(newobj)
                    == descriptor_of(old(self).all_objects.values()[j0].last_object))
                &&& (disc == 0xFFFF_FFFF && j0 == -1 ==> newobj.raw_data_type is None
                    && newobj.no_bytes == 0)
                &&& (disc == 0 ==> j0 != -1)
                &&& (disc != 0xFFFF_FFFF && disc != 0 ==> ({
                    let t = newobj.raw_data_type.unwrap();
                    &&& newobj.raw_data_type is Some
                    &&& type_code(t) == word4(data@.subrange(pos + 4, pos + 8), e)
                    &&& newobj.raw_data_dim == Some(word4(data@.subrange(pos + 8, pos + 12), e) as u32)
                    &&& newobj.no_raw_vals == Some(
                        word8(data@.subrange(pos + 12, pos + 20), e) as u64,
                    )
                    &&& (t == DataTypeRaw::TdmsString ==> newobj.no_bytes == word8(
                        data@.subrange(pos + 20, pos + 28),
                        e,
                    ))
                }))
                &&& (disc == 0x6912_0000 || disc == 0x6913_0000 ==> newobj.daqmx_info is Some)
            }),
            r is Ok <==> crate::tdms_objects::object_end(
                data@,
                pos as int,
                e,
                key_position(old(self).all_objects.keys(), path@) != -1,
            ) is Some,
            r matches Ok(x) ==> crate::tdms_objects::object_end(
                data@,
                pos as int,
                e,
                key_position(old(self).all_objects.keys(), path@) != -1,
            ) == Some(x.0 as int),
            (pos + 4 <= data@.len() && word4(data@.subrange(pos as int, pos + 4), e) == 0
                && key_position(old(self).all_objects.keys(), path@) == -1) ==> r == Err::<
                (usize, bool),
                _,
            >(TdmsError { kind: TdmsErrorKind::NoPreviousObject }),
            r matches Err(err) && err.kind == TdmsErrorKind::NoPreviousObject ==> (pos + 4
                <= data@.len() && word4(data@.subrange(pos as int, pos + 4), e) == 0
                && key_position(old(self).all_objects.keys(), path@) == -1),
            final(self).segments == old(self).segments,
            final(self).live_objects == old(self).live_objects,
            final(self).all_objects.wf(),
            ({
                let ks = old(self).all_objects.keys();
                let j = key_position(ks, path@);
                &&& (j == -1 ==> final(self).all_objects.keys() =~= ks.push(path@))
                &&& (j != -1 ==> final(self).all_objects.keys() =~= ks)
            }),
            key_position(final(self).all_objects.keys(), path@) != -1,
            forall|q: int|
                0 <= q < old(self).all_objects.values().len() ==> plan_untouched(
                    old(self).all_objects.values()[q],
                    #[trigger] final(self).all_objects.values()[q],
                ),
            forall|q: int|
                0 <= q < final(self).all_objects.values().len() ==> wf_object_map(
                    #[trigger] final(self).all_objects.values()[q],
                ),
            ({
                let oldvs = old(self).all_objects.values();
                let newvs = final(self).all_objects.values();
                forall|q: int|
                    oldvs.len() <= q < newvs.len() ==> (#[trigger] newvs[q]).read_map@.len() == 0
            }),
            r matches Err(err) ==> (err.kind == TdmsErrorKind::Io || err.kind
                == TdmsErrorKind::FromUtf8 || err.kind == TdmsErrorKind::RawDataTypeNotFound
                || err.kind == TdmsErrorKind::NotImplemented || err.kind
                == TdmsErrorKind::NoPreviousObject),
    {
        let ghost ks0 = self.all_objects.keys();
        let prior: bool;
        let j: usize;
        match self.all_objects.index_of(path.as_str()) {
            Some(idx) => {
                prior = true;
                j = idx;
            },
            None => {
                prior = false;
                j = self.all_objects.len();
                let fresh = ObjectMap::new_default(path.clone());
                self.all_objects.push_new(path.clone(), fresh);
                proof {
                    lemma_key_position_push(ks0, path@);
                }
            },
        }
        proof {
            crate::ordmap::lemma_key_position(self.all_objects.keys(), path@);
        }
        let (disc, p1) = match read_u32(data, pos, e) {
            Ok(x) => x,
            Err(err) => {
                return Err(err);
            },
        };
        let om = &mut self.all_objects.records[j];
        om.last_object.index_info_len = disc;
        proof {
            assert(wf_object_map(self.all_objects.values()[j as int]));
            crate::ordmap::lemma_key_position(self.all_objects.keys(), path@);
            let jp = key_position(self.all_objects.keys(), path@);
            if jp != j as int {
                assert(self.all_objects.keys()[jp] == path@);
                assert(self.all_objects.keys()[j as int] == path@);
            }
            assert(key_position(self.all_objects.keys(), path@) == j as int);
        }
        if disc == 0xFFFF_FFFF {
            let p2 = match (&mut self.all_objects.records[j].last_object).update_properties(
                data,
                p1,
                e,
            ) {
                Ok(x) => x,
                Err(err) => {
                    return Err(err);
                },
            };
            Ok((p2, false))
        } else if disc == 0 {
            if !prior {
                return Err(TdmsError { kind: TdmsErrorKind::NoPreviousObject });
            }
            let p2 = match (&mut self.all_objects.records[j].last_object).update_properties(
                data,
                p1,
                e,
            ) {
                Ok(x) => x,
                Err(err) => {
                    return Err(err);
                },
            };
            Ok((p2, true))
        } else if disc == 0x6912_0000 || disc == 0x6913_0000 {
            let p2 = match (&mut self.all_objects.records[j].last_object).read_sizeinfo(
                data,
                p1,
                e,
            ) {
                Ok(x) => x,
                Err(err) => {
                    return Err(err);
                },
            };
            let p3 = match (&mut self.all_objects.records[j].last_object).read_daqmxinfo(
                data,
                p2,
                e,
            ) {
                Ok(x) => x,
                Err(err) => {
                    return Err(err);
                },
            };
            let p4 = match (&mut self.all_objects.records[j].last_object).update_properties(
                data,
                p3,
                e,
            ) {
                Ok(x) => x,
                Err(err) => {
                    return Err(err);
                },
            };
            Ok((p4, true))
        } else {
            let p2 = match (&mut self.all_objects.records[j].last_object).read_sizeinfo(
                data,
                p1,
                e,
            ) {
                Ok(x) => x,
                Err(err) => {
                    return Err(err);
                },
            };
            let p3 = match (&mut self.all_objects.records[j].last_object).update_properties(
                data,
                p2,
                e,
            ) {
                Ok(x) => x,
                Err(err) => {
                    return Err(err);
                },
            };
            Ok((p3, true))
        }
    }

    /// Read one segment at an absolute start offset: the always
    /// little-endian file tag and ToC word pick the endianness for
    /// everything after them.
    fn read_segment(&mut self, data: &Vec<u8>, start_index: u64) -> (r: Result<
        Option<TdmsSegment>,
        TdmsError,
    >)
        requires
            wf_map(*old(self)),
            start_index < data@.len(),
        ensures
            wf_map(*final(self)),
            r matches Ok(Some(seg)) ==> ({
                let st = start_index as int;
                let e2 = if has_toc(seg.toc_mask.flags, TocProperties::KTocBigEndian) {
                    Endianness::Big
                } else {
                    Endianness::Little
                };
                &&& seg.start_index == start_index
                &&& seg.file_tag == word4(data@.subrange(st, st + 4), Endianness::Little)
                &&& seg.toc_mask.flags == word4(data@.subrange(st + 4, st + 8), Endianness::Little)
                &&& seg.version_no == word4(data@.subrange(st + 8, st + 12), e2)
                &&& seg.next_seg_offset == word8(data@.subrange(st + 12, st + 20), e2)
                &&& seg.raw_data_offset == word8(data@.subrange(st + 20, st + 28), e2)
                &&& seg.next_seg_offset != 0xFFFF_FFFF_FFFF_FFFF
                &&& final(self).segments@ == old(self).segments@.push(seg)
                &&& segment_step(*old(self), *final(self), data@, seg)
            }),
            r matches Ok(None) ==> final(self).segments == old(self).segments,
            r is Err ==> final(self).segments == old(self).segments,
            final(self).all_objects.keys().len() >= old(self).all_objects.keys().len(),
            final(self).all_objects.keys().take(old(self).all_objects.keys().len() as int) =~= old(self).all_objects.keys(),
            r matches Err(err) ==> (err.kind == TdmsErrorKind::Io || err.kind
                == TdmsErrorKind::FromUtf8 || err.kind == TdmsErrorKind::RawDataTypeNotFound
                || err.kind == TdmsErrorKind::NotImplemented || err.kind
                == TdmsErrorKind::NoPreviousObject),
    {
        let mut segment = TdmsSegment::new(start_index);
        let pos = match usize::try_from(start_index) {
            Ok(v) => v,
            Err(_) => {
                return Err(TdmsError { kind: TdmsErrorKind::Io });
            },
        };
        let (file_tag, p1) = match read_u32(data, pos, Endianness::Little) {
            Ok(x) => x,
            Err(err) => {
                return Err(err);
            },
        };
        segment.file_tag = file_tag;
        let (flags, _p2) = match read_u32(data, p1, Endianness::Little) {
            Ok(x) => x,
            Err(err) => {
                return Err(err);
            },
        };
        segment.toc_mask = TocMask::from_flags(flags);
        let e = if segment.toc_mask.has_flag(TocProperties::KTocBigEndian) {
            Endianness::Big
        } else {
            Endianness::Little
        };
        let r = self.read_segment_metadata(data, segment, e);
        proof {
            match r {
                Ok(Some(seg)) => {
                    assert(segment_step(*old(self), *self, data@, seg)) by {
                        reveal(segment_step);
                    }
                },
                _ => {},
            }
        }
        r
    }

    /// Walk the file segment by segment, building the index. Truncation
    /// at a segment boundary and the all-ones tail sentinel end the walk
    /// cleanly; every other failure propagates. An empty input fails at
    /// once, before any segment header is seen.
    #[verifier::spinoff_prover]
    #[verifier::rlimit(100)]
    pub fn map_segments(&mut self, data: &Vec<u8>) -> (r: Result<(), TdmsError>)
        requires
            wf_map(*old(self)),
            old(self).segments@.len() == 0,
        ensures
            wf_map(*final(self)),
            segments_chained(final(self).segments@, data@),
            r is Ok ==> exists|states: Seq<TdmsMap>|
                #[trigger] walk_chained(states, *old(self), final(self).segments@, data@)
                    && tail_from(states[states.len() - 1], *final(self)),
            data@.len() == 0 ==> r == Err::<(), _>(TdmsError { kind: TdmsErrorKind::Io }),
            r matches Err(err) ==> (data@.len() == 0 || err.kind == TdmsErrorKind::FromUtf8
                || err.kind == TdmsErrorKind::RawDataTypeNotFound || err.kind
                == TdmsErrorKind::NotImplemented || err.kind == TdmsErrorKind::NoPreviousObject),
    {
        let file_length = data.len() as u64;
        if file_length == 0 {
            return Err(TdmsError { kind: TdmsErrorKind::Io });
        }
        let mut next_segment_address: u64 = 0;
        let ghost mut states: Seq<TdmsMap> = seq![*self];
        while next_segment_address < file_length
            invariant
                wf_map(*self),
                file_length == data@.len(),
                segments_chained(self.segments@, data@),
                walk_chained(states, *old(self), self.segments@, data@),
                states[states.len() - 1] == *self,
                self.segments@.len() == 0 ==> next_segment_address == 0,
                self.segments@.len() > 0 ==> next_segment_address == self.segments@.last().start_index
                    + 28 + self.segments@.last().next_seg_offset,
            decreases file_length - next_segment_address,
        {
            let ghost segs0 = self.segments@;
            let ghost pre_state = *self;
            let segment = match self.read_segment(data, next_segment_address) {
                Ok(Some(segment)) => segment,
                Ok(None) => {
                    proof {
                        assert(self.segments@ == segs0);
                        assert(self.all_objects.keys().take(
                            pre_state.all_objects.keys().len() as int,
                        ) =~= pre_state.all_objects.keys());
                        assert(tail_from(pre_state, *self));
                        assert(states[states.len() - 1] == pre_state);
                        assert(walk_chained(states, *old(self), self.segments@, data@));
                        lemma_chain_exists(states, *old(self), *self, data@);
                    }
                    return Ok(());
                },
                Err(err) => {
                    if err.kind == TdmsErrorKind::Io {
                        proof {
                            assert(self.segments@ == segs0);
                            assert(self.all_objects.keys().take(
                                pre_state.all_objects.keys().len() as int,
                            ) =~= pre_state.all_objects.keys());
                            assert(tail_from(pre_state, *self));
                            assert(states[states.len() - 1] == pre_state);
                            assert(walk_chained(states, *old(self), self.segments@, data@));
                            lemma_chain_exists(states, *old(self), *self, data@);
                        }
                        return Ok(());
                    }
                    return Err(err);
                },
            };
            proof {
                let states0 = states;
                states = states.push(*self);
                assert(segment_step(pre_state, *self, data@, segment));
                assert forall|i: int|
                    0 <= i < self.segments@.len() implies segment_step(
                    states[i],
                    #[trigger] states[i + 1],
                    data@,
                    self.segments@[i],
                ) by {
                    if i < segs0.len() {
                        assert(states[i] == states0[i]);
                        assert(states[i + 1] == states0[i + 1]);
                        assert(self.segments@[i] == segs0[i]);
                    } else {
                        assert(states[i] == pre_state);
                        assert(states[i + 1] == *self);
                        assert(self.segments@[i] == segment);
                    }
                }
                assert(self.segments@ == segs0.push(segment));
                assert forall|q: int|
                    0 <= q < self.segments@.len() implies ({
                    let sq = #[trigger] self.segments@[q];
                    let st = sq.start_index as int;
                    let e2 = if has_toc(sq.toc_mask.flags, TocProperties::KTocBigEndian) {
                        Endianness::Big
                    } else {
                        Endianness::Little
                    };
                    &&& (q == 0 ==> st == 0)
                    &&& (q > 0 ==> st == self.segments@[q - 1].start_index + 28
                        + self.segments@[q - 1].next_seg_offset)
                    &&& st < data@.len()
                    &&& sq.file_tag == word4(data@.subrange(st, st + 4), Endianness::Little)
                    &&& sq.toc_mask.flags == word4(data@.subrange(st + 4, st + 8), Endianness::Little)
                    &&& sq.version_no == word4(data@.subrange(st + 8, st + 12), e2)
                    &&& sq.next_seg_offset == word8(data@.subrange(st + 12, st + 20), e2)
                    &&& sq.raw_data_offset == word8(data@.subrange(st + 20, st + 28), e2)
                    &&& sq.next_seg_offset != 0xFFFF_FFFF_FFFF_FFFF
                }) by {
                    if q < segs0.len() {
                        assert(self.segments@[q] == segs0[q]);
                        if q > 0 {
                            assert(self.segments@[q - 1] == segs0[q - 1]);
                        }
                    } else {
                        assert(self.segments@[q] == segment);
                    }
                }
                assert(segments_chained(self.segments@, data@));
            }
            let a1 = match next_segment_address.checked_add(28) {
                Some(v) => v,
                None => {
                    proof {
                        lemma_tail_refl(*self);
                        lemma_chain_exists(states, *old(self), *self, data@);
                    }
                    return Ok(());
                },
            };
            let na = match a1.checked_add(segment.next_seg_offset) {
                Some(v) => v,
                None => {
                    proof {
                        lemma_tail_refl(*self);
                        lemma_chain_exists(states, *old(self), *self, data@);
                    }
                    return Ok(());
                },
            };
            if na >= file_length {
                proof {
                    lemma_tail_refl(*self);
                    lemma_chain_exists(states, *old(self), *self, data@);
                }
                return Ok(());
            }
            next_segment_address = na;
        }
        proof {
            lemma_tail_refl(*self);
            lemma_chain_exists(states, *old(self), *self, data@);
        }
        Ok(())
    }

    /// Parse one segment's remaining lead-in and metadata block, update
    /// the live list and every mentioned object, compute the segment's
    /// chunk sizes, and emit its read plan. `Ok(None)` is the tail
    /// sentinel: the segment is corrupted and contributes nothing.
    #[verifier::rlimit(100)]
    fn read_segment_metadata(
        &mut self,
        data: &Vec<u8>,
        segment: TdmsSegment,
        e: Endianness,
    ) -> (r: Result<Option<TdmsSegment>, TdmsError>)
        requires
            wf_map(*old(self)),
            segment.start_index < data@.len(),
        ensures
            wf_map(*final(self)),
            r matches Ok(Some(seg)) ==> ({
                let m = *final(self);
                let live_n = m.live_objects@.len() as int;
                let st = segment.start_index as int;
                &&& seg.start_index == segment.start_index
                &&& seg.file_tag == segment.file_tag
                &&& seg.toc_mask == segment.toc_mask
                &&& seg.version_no == word4(data@.subrange(st + 8, st + 12), e)
                &&& seg.next_seg_offset == word8(data@.subrange(st + 12, st + 20), e)
                &&& seg.raw_data_offset == word8(data@.subrange(st + 20, st + 28), e)
                &&& seg.next_seg_offset != 0xFFFF_FFFF_FFFF_FFFF
                &&& seg.chunk_size == live_chunk_sum(m, live_n)
                &&& seg.channels_size == live_channels_sum(m, live_n)
                &&& seg.no_chunks == (if seg.chunk_size > 0 && seg.raw_data_offset
                    <= seg.next_seg_offset {
                    ((seg.next_seg_offset - seg.raw_data_offset) as int) / (seg.chunk_size as int)
                } else {
                    0
                })
                &&& m.segments@ == old(self).segments@.push(seg)
            }),
            r matches Ok(None) ==> *final(self) == *old(self) && word8(
                data@.subrange(segment.start_index + 12, segment.start_index + 20),
                e,
            ) == 0xFFFF_FFFF_FFFF_FFFF,
            r matches Ok(Some(seg)) ==> ({
                let st = segment.start_index as int;
                let mcount = word4(data@.subrange(st + 28, st + 32), e);
                let live0 = if has_toc(segment.toc_mask.flags, TocProperties::KTocNewObjList) {
                    Seq::<Seq<char>>::empty()
                } else {
                    old(self).live_objects@.map_values(|x: String| x@)
                };
                &&& objects_walk(
                    data@,
                    st + 32,
                    e,
                    old(self).all_objects.keys(),
                    live0,
                    mcount as nat,
                ) matches Some(st2)
                &&& st2.1 == final(self).all_objects.keys()
                &&& st2.2 == final(self).live_objects@.map_values(|x: String| x@)
            }),
            r is Err ==> final(self).segments == old(self).segments,
            !has_toc(segment.toc_mask.flags, TocProperties::KTocNewObjList) ==> final(self).live_objects@.len() >= old(self).live_objects@.len(),
            !has_toc(segment.toc_mask.flags, TocProperties::KTocNewObjList) ==> final(self).live_objects@.take(old(self).live_objects@.len() as int) =~= old(self).live_objects@,
            final(self).all_objects.keys().len() >= old(self).all_objects.keys().len(),
            final(self).all_objects.keys().take(old(self).all_objects.keys().len() as int) =~= old(self).all_objects.keys(),
            r matches Err(err) ==> (err.kind == TdmsErrorKind::Io || err.kind
                == TdmsErrorKind::FromUtf8 || err.kind == TdmsErrorKind::RawDataTypeNotFound
                || err.kind == TdmsErrorKind::NotImplemented || err.kind
                == TdmsErrorKind::NoPreviousObject),
    {
        let mut seg = segment;
        let n_data = data.len();
        let pos_base = match usize::try_from(seg.start_index) {
            Ok(v) => v,
            Err(_) => {
                return Err(TdmsError { kind: TdmsErrorKind::Io });
            },
        };
        let pos0 = match pos_base.checked_add(8) {
            Some(v) => v,
            None => {
                return Err(TdmsError { kind: TdmsErrorKind::Io });
            },
        };
        let (version_no, p1) = match read_u32(data, pos0, e) {
            Ok(x) => x,
            Err(err) => {
                return Err(err);
            },
        };
        seg.version_no = version_no;
        let (next_seg_offset, p2) = match read_u64(data, p1, e) {
            Ok(x) => x,
            Err(err) => {
                return Err(err);
            },
        };
        seg.next_seg_offset = next_seg_offset;
        let (raw_data_offset, p3) = match read_u64(data, p2, e) {
            Ok(x) => x,
            Err(err) => {
                return Err(err);
            },
        };
        seg.raw_data_offset = raw_data_offset;
        if next_seg_offset == 0xFFFF_FFFF_FFFF_FFFF {
            return Ok(None);
        }
        if seg.toc_mask.has_flag(TocProperties::KTocNewObjList) {
            self.live_objects = Vec::new();
        }
        let (no_objects, p4) = match read_u32(data, p3, e) {
            Ok(x) => x,
            Err(err) => {
                return Err(err);
            },
        };
        let mut cursor: usize = p4;
        let mut obj_i: u32 = 0;
        let ghost ks_start = self.all_objects.keys();
        let ghost live0 = self.live_objects@.map_values(|x: String| x@);
        while obj_i < no_objects
            invariant
                self.segments == old(self).segments,
                wf_map(*self),
                obj_i <= no_objects,
                p4 == segment.start_index + 32,
                no_objects == word4(
                    data@.subrange(segment.start_index + 28, segment.start_index + 32),
                    e,
                ),
                ks_start == old(self).all_objects.keys(),
                self.all_objects.keys().len() >= ks_start.len(),
                self.all_objects.keys().take(ks_start.len() as int) =~= ks_start,
                live0 == (if has_toc(segment.toc_mask.flags, TocProperties::KTocNewObjList) {
                    Seq::<Seq<char>>::empty()
                } else {
                    old(self).live_objects@.map_values(|x: String| x@)
                }),
                objects_walk(data@, p4 as int, e, ks_start, live0, obj_i as nat) == Some(
                    (
                        cursor as int,
                        self.all_objects.keys(),
                        self.live_objects@.map_values(|x: String| x@),
                    ),
                ),
                !has_toc(segment.toc_mask.flags, TocProperties::KTocNewObjList)
                    ==> self.live_objects@.len() >= old(self).live_objects@.len(),
                !has_toc(segment.toc_mask.flags, TocProperties::KTocNewObjList)
                    ==> self.live_objects@.take(old(self).live_objects@.len() as int) =~= old(self).live_objects@,
            decreases no_objects - obj_i,
        {
            let ghost cur0 = cursor as int;
            let ghost keys_pre = self.all_objects.keys();
            let ghost live_pre = self.live_objects@.map_values(|x: String| x@);
            let (path, c1) = match read_string(data, cursor, e) {
                Ok(x) => x,
                Err(err) => {
                    proof {
                        let lv0 = old(self).live_objects@;
                        let lv1 = self.live_objects@;
                        if !has_toc(segment.toc_mask.flags, TocProperties::KTocNewObjList) {
                            assert(lv1.len() >= lv0.len());
                            assert(lv1.take(lv0.len() as int) =~= lv0);
                        }
                    }
                    return Err(err);
                },
            };
            let ghost ks_before = self.all_objects.keys();
            let (c2, has_raw) = match self.update_read_object(path.clone(), data, c1, e) {
                Ok(x) => x,
                Err(err) => {
                    proof {
                        lemma_key_position_push(ks_before, path@);
                        if !has_toc(segment.toc_mask.flags, TocProperties::KTocNewObjList) {
                            assert(self.live_objects@.len() >= old(self).live_objects@.len());
                            assert(self.live_objects@.take(old(self).live_objects@.len() as int)
                                =~= old(self).live_objects@);
                        }
                    }
                    return Err(err);
                },
            };
            proof {
                lemma_key_position_push(ks_before, path@);
            }
            let ghost keys_post = self.all_objects.keys();
            let in_live = contains_string(&self.live_objects, &path);
            if has_raw && !in_live {
                self.live_objects.push(path);
            }
            proof {
                lemma_objects_walk_snoc(data@, p4 as int, e, ks_start, live0, obj_i as nat);
                let prior = key_position(keys_pre, path@) != -1;
                assert(crate::tdms_objects::object_end(data@, c1 as int, e, prior) == Some(
                    c2 as int,
                ));
                assert(keys_post == if prior {
                    keys_pre
                } else {
                    keys_pre.push(path@)
                });
                let disc = word4(data@.subrange(c1 as int, c1 + 4), e);
                assert(has_raw == (disc != 0xFFFF_FFFF));
                crate::ordmap::lemma_key_position(live_pre, path@);
                assert forall|ii: int| 0 <= ii < live_pre.len() implies live_pre[ii]
                    == (#[trigger] self.live_objects@[ii])@ || has_raw && !in_live by {}
                if has_raw && !in_live {
                    assert(forall|ii: int|
                        0 <= ii < live_pre.len() ==> #[trigger] live_pre[ii] != path@);
                    assert(key_position(live_pre, path@) == -1) by {
                        crate::ordmap::lemma_key_position(live_pre, path@);
                    }
                    assert(self.live_objects@.map_values(|x: String| x@) =~= live_pre.push(
                        path@,
                    ));
                } else {
                    if has_raw {
                        let wi = choose|ii: int|
                            0 <= ii < live_pre.len() && self.live_objects@[ii]@ == path@;
                        assert(live_pre[wi] == path@);
                        assert(key_position(live_pre, path@) != -1);
                    }
                    assert(self.live_objects@.map_values(|x: String| x@) =~= live_pre);
                }
                assert(self.live_objects@.map_values(|x: String| x@) == live_push(
                    live_pre,
                    path@,
                    has_raw,
                ));
                assert(objects_walk(data@, p4 as int, e, ks_start, live0, (obj_i + 1) as nat)
                    == Some(
                    (
                        c2 as int,
                        keys_post,
                        self.live_objects@.map_values(|x: String| x@),
                    ),
                ));
            }
            cursor = c2;
            obj_i = obj_i + 1;
        }
        let ghost walk_end = cursor as int;
        let ghost keys_after = self.all_objects.keys();
        let ghost live_view_after = self.live_objects@.map_values(|x: String| x@);
        let ghost live_after = self.live_objects;
        proof {
            assert(keys_after.len() >= ks_start.len());
            assert(keys_after.take(ks_start.len() as int) =~= ks_start);
        }
        let mut layout: Vec<ChunkEntry> = Vec::new();
        let mut chunk_size: u64 = 0;
        let mut channels_size: u64 = 0;
        let mut li: usize = 0;
        while li < self.live_objects.len()
            invariant
                self.segments == old(self).segments,
                self.live_objects == live_after,
                self.all_objects.keys() == keys_after,
                ks_start == old(self).all_objects.keys(),
                keys_after.len() >= ks_start.len(),
                keys_after.take(ks_start.len() as int) =~= ks_start,
                !has_toc(segment.toc_mask.flags, TocProperties::KTocNewObjList)
                    ==> self.live_objects@.len() >= old(self).live_objects@.len(),
                !has_toc(segment.toc_mask.flags, TocProperties::KTocNewObjList)
                    ==> self.live_objects@.take(old(self).live_objects@.len() as int) =~= old(self).live_objects@,
                wf_map(*self),
                li <= self.live_objects@.len(),
                layout@.len() == li,
                chunk_size == sum_bytes(layout@),
                channels_size == sum_samples(layout@),
                chunk_size == live_chunk_sum(*self, li as int),
                channels_size == live_channels_sum(*self, li as int),
                forall|q: int|
                    0 <= q < layout@.len() ==> (#[trigger] layout@[q]).rec_idx
                        < self.all_objects.values().len(),
                forall|q: int|
                    0 <= q < layout@.len() ==> (#[trigger] layout@[q]).no_bytes
                        == self.all_objects.values()[layout@[q].rec_idx as int].last_object.no_bytes,
                forall|q: int|
                    0 <= q < layout@.len() ==> (#[trigger] layout@[q]).rec_idx == key_position(
                        self.all_objects.keys(),
                        self.live_objects@[q]@,
                    ),
                forall|a: int, b: int|
                    0 <= a < b < layout@.len() ==> (#[trigger] layout@[a]).rec_idx != (
                    #[trigger] layout@[b]).rec_idx,
            decreases self.live_objects@.len() - li,
        {
            let key = &self.live_objects[li];
            let j = match self.all_objects.index_of(key.as_str()) {
                Some(j) => j,
                None => {
                    proof {
                        crate::ordmap::lemma_key_position(self.all_objects.keys(), key@);
                    }
                    return Err(TdmsError { kind: TdmsErrorKind::ChannelNotFound });
                },
            };
            let om = self.all_objects.record_at(j);
            let no_bytes = om.last_object.no_bytes;
            let sample_size: u64 = match om.last_object.raw_data_type {
                None => 0,
                Some(DataTypeRaw::TdmsString) => no_bytes,
                Some(t) => match t.size() {
                    Ok(s) => s,
                    Err(err) => {
                        proof {
                            if !has_toc(segment.toc_mask.flags, TocProperties::KTocNewObjList) {
                                assert(self.live_objects@.len() >= old(self).live_objects@.len());
                                assert(self.live_objects@.take(old(self).live_objects@.len() as int)
                                    =~= old(self).live_objects@);
                            }
                        }
                        return Err(err);
                    },
                },
            };
            let no_values: u64 = match om.last_object.no_raw_vals {
                Some(v) => v,
                None => 0,
            };
            chunk_size = match chunk_size.checked_add(no_bytes) {
                Some(v) => v,
                None => {
                    proof {
                        if !has_toc(segment.toc_mask.flags, TocProperties::KTocNewObjList) {
                            assert(self.live_objects@.len() >= old(self).live_objects@.len());
                            assert(self.live_objects@.take(old(self).live_objects@.len() as int)
                                =~= old(self).live_objects@);
                        }
                    }
                    return Err(TdmsError { kind: TdmsErrorKind::Io });
                },
            };
            channels_size = match channels_size.checked_add(sample_size) {
                Some(v) => v,
                None => {
                    proof {
                        if !has_toc(segment.toc_mask.flags, TocProperties::KTocNewObjList) {
                            assert(self.live_objects@.len() >= old(self).live_objects@.len());
                            assert(self.live_objects@.take(old(self).live_objects@.len() as int)
                                =~= old(self).live_objects@);
                        }
                    }
                    return Err(TdmsError { kind: TdmsErrorKind::Io });
                },
            };
            let entry = ChunkEntry { rec_idx: j, no_bytes, sample_size, no_values };
            let ghost lay0 = layout@;
            layout.push(entry);
            proof {
                assert(layout@.drop_last() =~= lay0);
                assert(no_bytes == record_no_bytes(*self, self.live_objects@[li as int]@));
                assert(sample_size == record_sample_size(*self, self.live_objects@[li as int]@));
                assert forall|a: int, b: int|
                    0 <= a < b < layout@.len() implies (#[trigger] layout@[a]).rec_idx != (
                #[trigger] layout@[b]).rec_idx by {
                    if b == layout@.len() - 1 && layout@[a].rec_idx == layout@[b].rec_idx {
                        let pa = self.live_objects@[a]@;
                        let pb = self.live_objects@[li as int]@;
                        crate::ordmap::lemma_key_position(self.all_objects.keys(), pa);
                        crate::ordmap::lemma_key_position(self.all_objects.keys(), pb);
                        assert(pa != pb);
                        assert(self.all_objects.keys()[layout@[a].rec_idx as int] == pa);
                        assert(self.all_objects.keys()[layout@[b].rec_idx as int] == pb);
                    }
                }
            }
            li = li + 1;
        }
        seg.chunk_size = chunk_size;
        seg.channels_size = channels_size;
        seg.no_chunks = if chunk_size > 0 && raw_data_offset <= next_seg_offset {
            let gap = next_seg_offset - raw_data_offset;
            let q = gap / chunk_size;
            proof {
                lemma_fundamental_div_mod(gap as int, chunk_size as int);
                lemma_mod_bound(gap as int, chunk_size as int);
                assert(q * chunk_size == chunk_size * q) by (nonlinear_arith);
            }
            q
        } else {
            0
        };
        assert(wf_segment(seg));
        let ghost live_n = self.live_objects@.len() as int;
        let ghost pre = *self;
        match self.update_indexes(&seg, &layout) {
            Ok(()) => {},
            Err(err) => {
                return Err(err);
            },
        }
        self.segments.push(seg);
        proof {
            lemma_live_sums_stable(pre, *self, live_n);
            assert(self.all_objects.keys() =~= keys_after);
            assert(self.live_objects@.map_values(|x: String| x@) == live_view_after);
            assert(p4 == segment.start_index + 32);
            assert(ks_start == old(self).all_objects.keys());
            assert(objects_walk(data@, p4 as int, e, ks_start, live0, no_objects as nat) == Some(
                (walk_end, keys_after, live_view_after),
            ));
            assert(objects_walk(
                data@,
                segment.start_index + 32,
                e,
                old(self).all_objects.keys(),
                live0,
                no_objects as nat,
            ) == Some((walk_end, self.all_objects.keys(), self.live_objects@.map_values(|x: String| x@))));
        }
        Ok(Some(seg))
    }

    /// Append one read pair per chunk of the segment to the record at
    /// one position: pair `i` starts at the raw block plus `i` whole
    /// chunks plus the in-chunk position, and the record's totals grow by
    /// one chunk's bytes and values per pair. Nothing else changes.
    #[verifier::rlimit(100)]
    fn emit_entry_pairs(
        &mut self,
        segment: &TdmsSegment,
        rec_idx: usize,
        no_bytes: u64,
        sample_size: u64,
        no_values: u64,
        rel_pos: u64,
    ) -> (r: Result<(), TdmsError>)
        requires
            old(self).all_objects.wf(),
            forall|j: int|
                0 <= j < old(self).all_objects.values().len() ==> wf_object_map(
                    #[trigger] old(self).all_objects.values()[j],
                ),
            wf_segment(*segment),
            rec_idx < old(self).all_objects.values().len(),
            no_bytes == old(self).all_objects.values()[rec_idx as int].last_object.no_bytes,
            no_bytes > 0,
            sample_size <= segment.channels_size,
            !has_toc(segment.toc_mask.flags, TocProperties::KTocInterleavedData) ==> rel_pos
                + no_bytes <= segment.chunk_size,
            has_toc(segment.toc_mask.flags, TocProperties::KTocInterleavedData) ==> rel_pos
                + sample_size <= segment.channels_size,
        ensures
            final(self).segments == old(self).segments,
            final(self).live_objects == old(self).live_objects,
            final(self).all_objects.wf(),
            final(self).all_objects.keys() =~= old(self).all_objects.keys(),
            final(self).all_objects.values().len() == old(self).all_objects.values().len(),
            forall|j: int|
                0 <= j < final(self).all_objects.values().len() ==> wf_object_map(
                    #[trigger] final(self).all_objects.values()[j],
                ),
            forall|j: int|
                0 <= j < final(self).all_objects.values().len() && j != rec_idx
                    ==> final(self).all_objects.values()[j] == old(self).all_objects.values()[j],
            pairs_extended(
                old(self).all_objects.values()[rec_idx as int],
                final(self).all_objects.values()[rec_idx as int],
                *segment,
            ),
            ({
                let o = old(self).all_objects.values()[rec_idx as int];
                let n = final(self).all_objects.values()[rec_idx as int];
                n.bigendian == o.bigendian
            }),
            r is Ok ==> ({
                let o = old(self).all_objects.values()[rec_idx as int];
                let n = final(self).all_objects.values()[rec_idx as int];
                let entry = ChunkEntry { rec_idx, no_bytes, sample_size, no_values };
                &&& n.read_map@.len() == o.read_map@.len() + segment.no_chunks
                &&& n.read_map@.take(o.read_map@.len() as int) =~= o.read_map@
                &&& (forall|i: int|
                    0 <= i < segment.no_chunks ==> n.read_map@[o.read_map@.len() + i]
                        == emitted_pair(*segment, entry, rel_pos as int, i))
                &&& n.total_bytes == o.total_bytes + segment.no_chunks * no_bytes
                &&& n.total_values == o.total_values + segment.no_chunks * no_values
            }),
            r matches Err(err) ==> err.kind == TdmsErrorKind::Io,
    {
        let interleaved = segment.toc_mask.has_flag(TocProperties::KTocInterleavedData);
        let stride_v: u64 = segment.channels_size - sample_size;
        let ghost n_objects = old(self).all_objects.values().len() as int;
        let ghost base = old(self).all_objects.values()[rec_idx as int];
        let ghost entry = ChunkEntry { rec_idx, no_bytes, sample_size, no_values };
        let mut i: u64 = 0;
        while i < segment.no_chunks
            invariant
                i <= segment.no_chunks,
                n_objects == old(self).all_objects.values().len(),
                wf_segment(*segment),
                rec_idx < n_objects,
                no_bytes == base.last_object.no_bytes,
                no_bytes > 0,
                sample_size <= segment.channels_size,
                stride_v == segment.channels_size - sample_size,
                interleaved == has_toc(segment.toc_mask.flags, TocProperties::KTocInterleavedData),
                !interleaved ==> rel_pos + no_bytes <= segment.chunk_size,
                interleaved ==> rel_pos + sample_size <= segment.channels_size,
                base == old(self).all_objects.values()[rec_idx as int],
                entry == (ChunkEntry { rec_idx, no_bytes, sample_size, no_values }),
                self.segments == old(self).segments,
                self.live_objects == old(self).live_objects,
                self.all_objects.wf(),
                self.all_objects.keys() =~= old(self).all_objects.keys(),
                self.all_objects.values().len() == n_objects,
                forall|j: int|
                    0 <= j < n_objects ==> wf_object_map(#[trigger] self.all_objects.values()[j]),
                forall|j: int|
                    0 <= j < n_objects && j != rec_idx ==> #[trigger] self.all_objects.values()[j]
                        == old(self).all_objects.values()[j],
                ({
                    let cur = self.all_objects.values()[rec_idx as int];
                    &&& cur.last_object == base.last_object
                    &&& cur.bigendian == base.bigendian
                    &&& cur.read_map@.len() == base.read_map@.len() + i
                    &&& cur.read_map@.take(base.read_map@.len() as int) =~= base.read_map@
                    &&& (forall|k: int|
                        0 <= k < i ==> cur.read_map@[base.read_map@.len() + k] == emitted_pair(
                            *segment,
                            entry,
                            rel_pos as int,
                            k,
                        ))
                    &&& (forall|k: int|
                        base.read_map@.len() <= k < cur.read_map@.len() ==> pair_in_block(
                            #[trigger] cur.read_map@[k],
                            cur.last_object.no_bytes,
                            *segment,
                        ))
                    &&& cur.total_bytes == base.total_bytes + i * no_bytes
                    &&& cur.total_values == base.total_values + i * no_values
                }),
            decreases segment.no_chunks - i,
        {
            let start = match pair_start(segment, i, rel_pos) {
                Some(v) => v,
                None => {
                    return Err(TdmsError { kind: TdmsErrorKind::Io });
                },
            };
            proof {
                assert((i + 1) * segment.chunk_size <= segment.no_chunks * segment.chunk_size)
                    by (nonlinear_arith)
                    requires
                        i + 1 <= segment.no_chunks,
                        segment.chunk_size >= 0,
                ;
                assert(i * segment.chunk_size + segment.chunk_size == (i + 1)
                    * segment.chunk_size) by (nonlinear_arith);
                if segment.raw_data_offset > segment.next_seg_offset {
                    assert(segment.no_chunks == 0);
                }
                if !interleaved {
                    assert(start + no_bytes <= block_hi(*segment));
                } else if no_values > 0 && no_values * segment.channels_size
                    <= segment.chunk_size {
                    assert(start + no_values * segment.channels_size - (
                    segment.channels_size - sample_size) <= block_hi(*segment)) by {
                        assert(no_values * segment.channels_size == (no_values - 1)
                            * segment.channels_size + segment.channels_size) by (nonlinear_arith);
                        assert(start + no_values * segment.channels_size - (
                        segment.channels_size - sample_size) == start + (no_values - 1)
                            * segment.channels_size + sample_size);
                    }
                }
                assert(i * segment.chunk_size >= 0) by (nonlinear_arith)
                    requires
                        i >= 0,
                        segment.chunk_size >= 0,
                ;
                assert(block_lo(*segment) <= start);
            }
            let pair = ReadPair {
                start_index: start,
                no_values,
                interleaved,
                stride: Some(stride_v),
            };
            proof {
                assert(pair == emitted_pair(*segment, entry, rel_pos as int, i as int));
            }
            let ghost before = self.all_objects.values()[rec_idx as int];
            let cur_tb = self.all_objects.records[rec_idx].total_bytes;
            let cur_tv = self.all_objects.records[rec_idx].total_values;
            let new_tb = match cur_tb.checked_add(no_bytes) {
                Some(v) => v,
                None => {
                    return Err(TdmsError { kind: TdmsErrorKind::Io });
                },
            };
            if no_values > usize::MAX as u64 {
                return Err(TdmsError { kind: TdmsErrorKind::Io });
            }
            let new_tv = match cur_tv.checked_add(no_values as usize) {
                Some(v) => v,
                None => {
                    return Err(TdmsError { kind: TdmsErrorKind::Io });
                },
            };
            let om = &mut self.all_objects.records[rec_idx];
            om.read_map.push(pair);
            om.total_bytes = new_tb;
            om.total_values = new_tv;
            proof {
                lemma_sum_values_push(before.read_map@, pair);
                let cur = self.all_objects.values()[rec_idx as int];
                assert(cur.read_map@ =~= before.read_map@.push(pair));
                assert(wf_object_map(cur));
                assert(cur.read_map@.take(base.read_map@.len() as int) =~= base.read_map@);
                assert forall|k: int|
                    0 <= k < i + 1 implies cur.read_map@[base.read_map@.len() + k] == emitted_pair(
                    *segment,
                    entry,
                    rel_pos as int,
                    k,
                ) by {
                    if k < i {
                        assert(cur.read_map@[base.read_map@.len() + k] == before.read_map@[
                            base.read_map@.len() + k
                        ]);
                    } else {
                        assert(cur.read_map@[base.read_map@.len() + k] == pair);
                    }
                }
                assert forall|k: int|
                    base.read_map@.len() <= k < cur.read_map@.len() implies pair_in_block(
                    #[trigger] cur.read_map@[k],
                    cur.last_object.no_bytes,
                    *segment,
                ) by {
                    if k < before.read_map@.len() {
                        assert(cur.read_map@[k] == before.read_map@[k]);
                    } else {
                        assert(cur.read_map@[k] == pair);
                    }
                }
                assert((i + 1) * no_bytes == i * no_bytes + no_bytes) by (nonlinear_arith);
                assert((i + 1) * no_values == i * no_values + no_values) by (nonlinear_arith);
            }
            i = i + 1;
        }
        proof {
            let o = old(self).all_objects.values()[rec_idx as int];
            let n = self.all_objects.values()[rec_idx as int];
            assert(n.read_map@.take(o.read_map@.len() as int) =~= o.read_map@);
            assert(pairs_extended(o, n, *segment));
        }
        Ok(())
    }

    /// Emit the segment's read plan: walk the chunk layout in live order
    /// with a running in-chunk position, and append one pair per chunk to
    /// every object that contributes bytes, accumulating its totals. On
    /// success every layout entry's record has grown exactly by the pairs
    /// the segment's chunks yield, and records outside the layout are
    /// untouched.
    #[verifier::spinoff_prover]
    #[verifier::rlimit(100)]
    fn update_indexes(&mut self, segment: &TdmsSegment, layout: &Vec<ChunkEntry>) -> (r: Result<
        (),
        TdmsError,
    >)
        requires
            old(self).all_objects.wf(),
            forall|j: int|
                0 <= j < old(self).all_objects.values().len() ==> wf_object_map(
                    #[trigger] old(self).all_objects.values()[j],
                ),
            wf_segment(*segment),
            sum_bytes(layout@) == segment.chunk_size,
            sum_samples(layout@) == segment.channels_size,
            forall|li: int|
                0 <= li < layout@.len() ==> (#[trigger] layout@[li]).rec_idx < old(
                    self,
                ).all_objects.values().len(),
            forall|li: int|
                0 <= li < layout@.len() ==> (#[trigger] layout@[li]).no_bytes == old(
                    self,
                ).all_objects.values()[layout@[li].rec_idx as int].last_object.no_bytes,
            forall|a: int, b: int|
                0 <= a < b < layout@.len() ==> (#[trigger] layout@[a]).rec_idx != (
                #[trigger] layout@[b]).rec_idx,
        ensures
            final(self).segments == old(self).segments,
            final(self).live_objects == old(self).live_objects,
            final(self).all_objects.wf(),
            final(self).all_objects.keys() =~= old(self).all_objects.keys(),
            final(self).all_objects.values().len() == old(self).all_objects.values().len(),
            forall|j: int|
                0 <= j < final(self).all_objects.values().len() ==> wf_object_map(
                    #[trigger] final(self).all_objects.values()[j],
                ),
            forall|j: int|
                0 <= j < final(self).all_objects.values().len() ==> pairs_extended(
                    old(self).all_objects.values()[j],
                    #[trigger] final(self).all_objects.values()[j],
                    *segment,
                ),
            forall|j: int|
                0 <= j < final(self).all_objects.values().len() && !in_layout(layout@, j)
                    ==> final(self).all_objects.values()[j] == old(self).all_objects.values()[j],
            r is Ok ==> forall|li: int|
                0 <= li < layout@.len() ==> emitted_plan(
                    old(self).all_objects.values()[layout@[li].rec_idx as int],
                    final(self).all_objects.values()[(#[trigger] layout@[li]).rec_idx as int],
                    *segment,
                    layout@[li],
                    emit_rel(
                        layout@,
                        li,
                        has_toc(segment.toc_mask.flags, TocProperties::KTocInterleavedData),
                    ),
                ),
            r matches Err(err) ==> err.kind == TdmsErrorKind::Io,
    {
        let interleaved = segment.toc_mask.has_flag(TocProperties::KTocInterleavedData);
        let bigend = segment.toc_mask.has_flag(TocProperties::KTocBigEndian);
        let ghost n_objects = old(self).all_objects.values().len() as int;
        let mut rel_pos: u64 = 0;
        let mut li: usize = 0;
        proof {
            lemma_sum_prefix(layout@, 0);
            assert(layout@.take(0) =~= Seq::<ChunkEntry>::empty());
        }
        while li < layout.len()
            invariant
                li <= layout@.len(),
                n_objects == old(self).all_objects.values().len(),
                wf_segment(*segment),
                sum_bytes(layout@) == segment.chunk_size,
                sum_samples(layout@) == segment.channels_size,
                forall|q: int|
                    0 <= q < layout@.len() ==> (#[trigger] layout@[q]).rec_idx < n_objects,
                forall|q: int|
                    0 <= q < layout@.len() ==> (#[trigger] layout@[q]).no_bytes == old(
                        self,
                    ).all_objects.values()[layout@[q].rec_idx as int].last_object.no_bytes,
                forall|a: int, b: int|
                    0 <= a < b < layout@.len() ==> (#[trigger] layout@[a]).rec_idx != (
                    #[trigger] layout@[b]).rec_idx,
                interleaved == has_toc(segment.toc_mask.flags, TocProperties::KTocInterleavedData),
                bigend == has_toc(segment.toc_mask.flags, TocProperties::KTocBigEndian),
                rel_pos == emit_rel(layout@, li as int, interleaved),
                self.segments == old(self).segments,
                self.live_objects == old(self).live_objects,
                self.all_objects.wf(),
                self.all_objects.keys() =~= old(self).all_objects.keys(),
                self.all_objects.values().len() == n_objects,
                forall|j: int|
                    0 <= j < n_objects ==> wf_object_map(#[trigger] self.all_objects.values()[j]),
                forall|j: int|
                    0 <= j < n_objects ==> pairs_extended(
                        old(self).all_objects.values()[j],
                        #[trigger] self.all_objects.values()[j],
                        *segment,
                    ),
                forall|j: int|
                    0 <= j < n_objects && !in_layout(layout@, j) ==> #[trigger] self.all_objects.values()[j]
                        == old(self).all_objects.values()[j],
                forall|q: int|
                    0 <= q < li ==> emitted_plan(
                        old(self).all_objects.values()[layout@[q].rec_idx as int],
                        self.all_objects.values()[(#[trigger] layout@[q]).rec_idx as int],
                        *segment,
                        layout@[q],
                        emit_rel(layout@, q, interleaved),
                    ),
                forall|q: int|
                    li <= q < layout@.len() ==> self.all_objects.values()[(
                    #[trigger] layout@[q]).rec_idx as int] == old(self).all_objects.values()[layout@[q].rec_idx as int],
            decreases layout@.len() - li,
        {
            proof {
                lemma_sum_prefix(layout@, li as int);
                lemma_sum_prefix(layout@, li + 1);
            }
            let entry_rec_idx = layout[li].rec_idx;
            let entry_no_bytes = layout[li].no_bytes;
            let entry_sample_size = layout[li].sample_size;
            let entry_no_values = layout[li].no_values;
            let ghost vals_at = self.all_objects.values();
            proof {
                assert(vals_at[entry_rec_idx as int] == old(self).all_objects.values()[
                    entry_rec_idx as int
                ]);
            }
            assert(entry_sample_size <= segment.channels_size);
            assert(rel_pos + entry_no_bytes <= segment.chunk_size || interleaved);
            assert(rel_pos + entry_sample_size <= segment.channels_size || !interleaved);
            if entry_no_bytes > 0 {
                match self.emit_entry_pairs(
                    segment,
                    entry_rec_idx,
                    entry_no_bytes,
                    entry_sample_size,
                    entry_no_values,
                    rel_pos,
                ) {
                    Ok(()) => {},
                    Err(err) => {
                        proof {
                            lemma_pairs_extended_chain(
                                old(self).all_objects.values(),
                                vals_at,
                                self.all_objects.values(),
                                *segment,
                            );
                        }
                        return Err(err);
                    },
                }
            }
            let om2 = &mut self.all_objects.records[entry_rec_idx];
            om2.bigendian = bigend;
            proof {
                lemma_pairs_extended_chain(
                    old(self).all_objects.values(),
                    vals_at,
                    self.all_objects.values(),
                    *segment,
                );
                let bb = old(self).all_objects.values()[entry_rec_idx as int];
                let cur = self.all_objects.values()[entry_rec_idx as int];
                assert(wf_object_map(cur));
                if entry_no_bytes == 0 {
                    assert(cur.read_map@ =~= bb.read_map@);
                }
                assert(emitted_plan(
                    bb,
                    cur,
                    *segment,
                    layout@[li as int],
                    emit_rel(layout@, li as int, interleaved),
                )) by {
                    reveal(emitted_plan);
                }
                assert forall|q: int| 0 <= q < li implies emitted_plan(
                    old(self).all_objects.values()[layout@[q].rec_idx as int],
                    self.all_objects.values()[(#[trigger] layout@[q]).rec_idx as int],
                    *segment,
                    layout@[q],
                    emit_rel(layout@, q, interleaved),
                ) by {
                    assert(layout@[q].rec_idx != layout@[li as int].rec_idx);
                    assert(self.all_objects.values()[layout@[q].rec_idx as int] == vals_at[
                        layout@[q].rec_idx as int
                    ]);
                }
                assert forall|q: int|
                    li + 1 <= q < layout@.len() implies self.all_objects.values()[(
                #[trigger] layout@[q]).rec_idx as int] == old(self).all_objects.values()[
                    layout@[q].rec_idx as int
                ] by {
                    assert(layout@[li as int].rec_idx != layout@[q].rec_idx);
                    assert(self.all_objects.values()[layout@[q].rec_idx as int] == vals_at[
                        layout@[q].rec_idx as int
                    ]);
                }
                lemma_sum_prefix(layout@, li as int);
            }
            rel_pos = if interleaved {
                rel_pos + entry_sample_size
            } else {
                rel_pos + entry_no_bytes
            };
            proof {
                assert(layout@.take(li + 1).drop_last() =~= layout@.take(li as int));
            }
            li = li + 1;
        }
        Ok(())
    }
}

} // verus!

use chrono::{Local, LocalResult, TimeZone};
use tdms::timestamps::TimeStamp;
use tdms::{DataType, DataTypeRaw, DataTypeVec, TdmsErrorKind, TdmsFile, TocMask, TocProperties};

const TOC_META: u32 = 0x2;
const TOC_NEWLIST: u32 = 0x4;
const TOC_RAW: u32 = 0x8;
const TOC_INTER: u32 = 0x20;
const TOC_BIG: u32 = 0x40;

fn w32(v: u32, big: bool) -> Vec<u8> {
    if big { v.to_be_bytes().to_vec() } else { v.to_le_bytes().to_vec() }
}

fn w64(v: u64, big: bool) -> Vec<u8> {
    if big { v.to_be_bytes().to_vec() } else { v.to_le_bytes().to_vec() }
}

fn lpstr(s: &str, big: bool) -> Vec<u8> {
    let mut out = w32(s.len() as u32, big);
    out.extend_from_slice(s.as_bytes());
    out
}

fn prop_string(name: &str, value: &str, big: bool) -> Vec<u8> {
    let mut out = lpstr(name, big);
    out.extend(w32(0x20, big));
    out.extend(lpstr(value, big));
    out
}

fn obj_fresh(path: &str, big: bool, type_code: u32, dim: u32, count: u64, props: &[Vec<u8>]) -> Vec<u8> {
    let mut o = lpstr(path, big);
    o.extend(w32(20, big));
    o.extend(w32(type_code, big));
    o.extend(w32(dim, big));
    o.extend(w64(count, big));
    o.extend(w32(props.len() as u32, big));
    for p in props {
        o.extend_from_slice(p);
    }
    o
}

fn obj_fresh_string(path: &str, big: bool, count: u64, total_bytes: u64) -> Vec<u8> {
    let mut o = lpstr(path, big);
    o.extend(w32(28, big));
    o.extend(w32(0x20, big));
    o.extend(w32(1, big));
    o.extend(w64(count, big));
    o.extend(w64(total_bytes, big));
    o.extend(w32(0, big));
    o
}

fn obj_no_raw(path: &str, big: bool, props: &[Vec<u8>]) -> Vec<u8> {
    let mut o = lpstr(path, big);
    o.extend(w32(0xFFFF_FFFF, big));
    o.extend(w32(props.len() as u32, big));
    for p in props {
        o.extend_from_slice(p);
    }
    o
}

fn obj_carry(path: &str, big: bool, props: &[Vec<u8>]) -> Vec<u8> {
    let mut o = lpstr(path, big);
    o.extend(w32(0, big));
    o.extend(w32(props.len() as u32, big));
    for p in props {
        o.extend_from_slice(p);
    }
    o
}

fn segment(toc: u32, big: bool, objects: &[Vec<u8>], raw: &[u8], next_override: Option<u64>) -> Vec<u8> {
    let mut meta = w32(objects.len() as u32, big);
    for o in objects {
        meta.extend_from_slice(o);
    }
    let raw_off = meta.len() as u64;
    let next = next_override.unwrap_or(raw_off + raw.len() as u64);
    let mut out = b"TDSm".to_vec();
    out.extend(w32(toc, false));
    out.extend(w32(4713, big));
    out.extend(w64(next, big));
    out.extend(w64(raw_off, big));
    out.extend(meta);
    out.extend_from_slice(raw);
    out
}

fn doubles_raw(vals: &[f64], big: bool) -> Vec<u8> {
    let mut raw = Vec::new();
    for v in vals {
        if big {
            raw.extend(v.to_be_bytes());
        } else {
            raw.extend(v.to_le_bytes());
        }
    }
    raw
}

fn hello_world_file() -> Vec<u8> {
    let obj = obj_fresh("/'G'/'x'", false, 10, 1, 3, &[]);
    segment(
        TOC_META | TOC_NEWLIST | TOC_RAW,
        false,
        &[obj],
        &doubles_raw(&[1.0, 2.0, 3.0], false),
        None,
    )
}

fn as_doubles(d: &DataTypeVec) -> Vec<f64> {
    match d {
        DataTypeVec::Double(bits) => bits.iter().map(|b| f64::from_bits(*b)).collect(),
        other => panic!("expected a double channel, got {:?}", other),
    }
}

#[test]
fn hello_world_double() {
    let f = TdmsFile::open(hello_world_file()).unwrap();
    assert_eq!(f.all_objects(), vec!["/'G'/'x'".to_string()]);
    assert_eq!(f.data_objects(), vec!["/'G'/'x'".to_string()]);
    let d = f.load_data("/'G'/'x'").unwrap();
    assert_eq!(as_doubles(&d), vec![1.0, 2.0, 3.0]);
}

#[test]
fn additive_second_segment() {
    let mut file = hello_world_file();
    let obj_b = obj_fresh("/'G'/'x'", false, 10, 1, 2, &[]);
    file.extend(segment(
        TOC_META | TOC_RAW,
        false,
        &[obj_b],
        &doubles_raw(&[4.0, 5.0], false),
        None,
    ));
    let f = TdmsFile::open(file).unwrap();
    let d = f.load_data("/'G'/'x'").unwrap();
    assert_eq!(as_doubles(&d), vec![1.0, 2.0, 3.0, 4.0, 5.0]);
}

#[test]
fn big_endian_parity() {
    let obj = obj_fresh("/'G'/'x'", true, 10, 1, 3, &[]);
    let file = segment(
        TOC_META | TOC_NEWLIST | TOC_RAW | TOC_BIG,
        true,
        &[obj],
        &doubles_raw(&[1.0, 2.0, 3.0], true),
        None,
    );
    let f = TdmsFile::open(file).unwrap();
    let d = f.load_data("/'G'/'x'").unwrap();
    assert_eq!(as_doubles(&d), vec![1.0, 2.0, 3.0]);

    let little = TdmsFile::open(hello_world_file()).unwrap();
    assert_eq!(d, little.load_data("/'G'/'x'").unwrap());
}

#[test]
fn interleaved_pair() {
    let a = obj_fresh("a", false, 2, 1, 4, &[]);
    let b = obj_fresh("b", false, 2, 1, 4, &[]);
    let mut raw = Vec::new();
    let avals: [i16; 4] = [1, -2, 3, 4];
    let bvals: [i16; 4] = [10, 20, -30, 40];
    for k in 0..4 {
        raw.extend(avals[k].to_le_bytes());
        raw.extend(bvals[k].to_le_bytes());
    }
    let file = segment(TOC_META | TOC_NEWLIST | TOC_RAW | TOC_INTER, false, &[a, b], &raw, None);
    let f = TdmsFile::open(file).unwrap();
    assert_eq!(f.load_data("a").unwrap(), DataTypeVec::I16(avals.to_vec()));
    assert_eq!(f.load_data("b").unwrap(), DataTypeVec::I16(bvals.to_vec()));
}

#[test]
fn carry_over_discriminator() {
    let mut raw_a = Vec::new();
    for v in [10i32, 20] {
        raw_a.extend(v.to_le_bytes());
    }
    let seg_a = segment(
        TOC_META | TOC_NEWLIST | TOC_RAW,
        false,
        &[obj_fresh("x", false, 3, 1, 2, &[])],
        &raw_a,
        None,
    );
    let mut raw_b = Vec::new();
    for v in [30i32, 40] {
        raw_b.extend(v.to_le_bytes());
    }
    let seg_b = segment(TOC_META | TOC_RAW, false, &[obj_carry("x", false, &[])], &raw_b, None);
    let mut file = seg_a;
    file.extend(seg_b);
    let f = TdmsFile::open(file).unwrap();
    assert_eq!(f.load_data("x").unwrap(), DataTypeVec::I32(vec![10, 20, 30, 40]));
}

#[test]
fn properties_overwrite() {
    let seg_a = segment(
        TOC_META | TOC_NEWLIST,
        false,
        &[obj_no_raw("/'G'/'c'", false, &[prop_string("unit", "V", false)])],
        &[],
        None,
    );
    let seg_b = segment(
        TOC_META,
        false,
        &[obj_no_raw("/'G'/'c'", false, &[prop_string("unit", "mV", false)])],
        &[],
        None,
    );
    let mut file = seg_a;
    file.extend(seg_b);
    let f = TdmsFile::open(file).unwrap();
    let obj = f.object_properties("/'G'/'c'").unwrap();
    assert_eq!(obj.properties.records.len(), 1);
    let p = &obj.properties.records[0];
    assert_eq!(p.prop_name, "unit");
    assert_eq!(p.value, DataType::TdmsString("mV".to_string()));
}

#[test]
fn corrupted_tail() {
    let mut file = hello_world_file();
    let obj_b = obj_fresh("/'G'/'x'", false, 10, 1, 2, &[]);
    file.extend(segment(
        TOC_META | TOC_RAW,
        false,
        &[obj_b],
        &doubles_raw(&[4.0, 5.0], false),
        None,
    ));
    let seg_c = segment(
        TOC_META | TOC_NEWLIST | TOC_RAW,
        false,
        &[obj_fresh("/'G'/'y'", false, 10, 1, 1, &[])],
        &doubles_raw(&[9.0], false),
        None,
    );
    file.extend(seg_c);
    // A fourth segment whose header declares the all-ones sentinel and
    // whose metadata is cut short.
    let mut tail = b"TDSm".to_vec();
    tail.extend(w32(TOC_META | TOC_RAW, false));
    tail.extend(w32(4713, false));
    tail.extend(w64(0xFFFF_FFFF_FFFF_FFFF, false));
    tail.extend(w64(0, false));
    tail.extend(w32(1, false));
    file.extend(tail);
    let f = TdmsFile::open(file).unwrap();
    assert_eq!(
        f.all_objects(),
        vec!["/'G'/'x'".to_string(), "/'G'/'y'".to_string()]
    );
    assert_eq!(as_doubles(&f.load_data("/'G'/'x'").unwrap()), vec![1.0, 2.0, 3.0, 4.0, 5.0]);
    assert_eq!(as_doubles(&f.load_data("/'G'/'y'").unwrap()), vec![9.0]);
}

#[test]
fn sentinel_last_segment_contributes_nothing() {
    let mut file = hello_world_file();
    // A well-formed metadata block under a sentinel next-segment offset:
    // the segment must still contribute nothing.
    let obj = obj_fresh("/'G'/'z'", false, 10, 1, 1, &[]);
    file.extend(segment(
        TOC_META | TOC_NEWLIST | TOC_RAW,
        false,
        &[obj],
        &doubles_raw(&[7.0], false),
        Some(0xFFFF_FFFF_FFFF_FFFF),
    ));
    let f = TdmsFile::open(file).unwrap();
    assert_eq!(f.all_objects(), vec!["/'G'/'x'".to_string()]);
    assert_eq!(as_doubles(&f.load_data("/'G'/'x'").unwrap()), vec![1.0, 2.0, 3.0]);
}

#[test]
fn empty_file_fails_with_io() {
    let err = TdmsFile::open(Vec::new()).unwrap_err();
    assert_eq!(err.kind, TdmsErrorKind::Io);
}

#[test]
fn truncated_mid_metadata_stops_cleanly() {
    let mut file = hello_world_file();
    file.extend(b"TDSm".to_vec());
    file.extend(w32(TOC_META | TOC_RAW, false));
    // Header cut off before the next-segment offset.
    let f = TdmsFile::open(file).unwrap();
    assert_eq!(f.all_objects(), vec!["/'G'/'x'".to_string()]);
}

#[test]
fn open_twice_is_identical() {
    let mut file = hello_world_file();
    file.extend(segment(
        TOC_META | TOC_RAW,
        false,
        &[obj_fresh("/'G'/'x'", false, 10, 1, 2, &[])],
        &doubles_raw(&[4.0, 5.0], false),
        None,
    ));
    let f1 = TdmsFile::open(file.clone()).unwrap();
    let f2 = TdmsFile::open(file).unwrap();
    assert_eq!(f1.all_objects(), f2.all_objects());
    assert_eq!(f1.data_objects(), f2.data_objects());
    assert_eq!(f1.read_plan("/'G'/'x'").unwrap(), f2.read_plan("/'G'/'x'").unwrap());
    assert_eq!(f1.object_totals("/'G'/'x'").unwrap(), f2.object_totals("/'G'/'x'").unwrap());
    assert_eq!(f1.segment_list(), f2.segment_list());
    assert_eq!(f1.load_data("/'G'/'x'").unwrap(), f2.load_data("/'G'/'x'").unwrap());
}

#[test]
fn first_sighting_order_kept() {
    let seg_a = segment(
        TOC_META | TOC_NEWLIST,
        false,
        &[obj_no_raw("/b", false, &[]), obj_no_raw("/a", false, &[])],
        &[],
        None,
    );
    let seg_b = segment(
        TOC_META,
        false,
        &[obj_no_raw("/c", false, &[]), obj_no_raw("/a", false, &[])],
        &[],
        None,
    );
    let mut file = seg_a;
    file.extend(seg_b);
    let f = TdmsFile::open(file).unwrap();
    assert_eq!(
        f.all_objects(),
        vec!["/b".to_string(), "/a".to_string(), "/c".to_string()]
    );
}

#[test]
fn totals_match_loaded_length() {
    let mut file = hello_world_file();
    file.extend(segment(
        TOC_META | TOC_RAW,
        false,
        &[obj_fresh("/'G'/'x'", false, 10, 1, 2, &[])],
        &doubles_raw(&[4.0, 5.0], false),
        None,
    ));
    let f = TdmsFile::open(file).unwrap();
    let (total_bytes, total_values) = f.object_totals("/'G'/'x'").unwrap();
    assert_eq!(total_bytes, 40);
    assert_eq!(total_values, 5);
    assert_eq!(f.load_data("/'G'/'x'").unwrap().len(), total_values);
}

#[test]
fn plan_sums_and_chunk_bounds() {
    let mut file = hello_world_file();
    file.extend(segment(
        TOC_META | TOC_RAW,
        false,
        &[obj_fresh("/'G'/'x'", false, 10, 1, 2, &[])],
        &doubles_raw(&[4.0, 5.0], false),
        None,
    ));
    let f = TdmsFile::open(file).unwrap();
    let plan = f.read_plan("/'G'/'x'").unwrap();
    let (_, total_values) = f.object_totals("/'G'/'x'").unwrap();
    let sum: u64 = plan.iter().map(|p| p.no_values).sum();
    assert_eq!(sum as usize, total_values);
    let segs = f.segment_list();
    assert_eq!(segs.len(), 2);
    for s in &segs {
        if s.chunk_size > 0 {
            assert!(s.no_chunks * s.chunk_size <= s.next_seg_offset - s.raw_data_offset);
        }
    }
    // Each pair lies inside the raw block of the segment that produced it.
    assert_eq!(plan.len(), 2);
    for (p, s) in plan.iter().zip(segs.iter()) {
        let lo = s.start_index + 28 + s.raw_data_offset;
        let hi = s.start_index + 28 + s.next_seg_offset;
        assert!(lo <= p.start_index);
        assert!(p.start_index + p.no_values * 8 <= hi);
    }
}

#[test]
fn unknown_type_code_is_rejected() {
    let obj = obj_fresh("/'G'/'x'", false, 0x77, 1, 1, &[]);
    let file = segment(TOC_META | TOC_NEWLIST | TOC_RAW, false, &[obj], &[0u8; 8], None);
    let err = TdmsFile::open(file).unwrap_err();
    assert_eq!(err.kind, TdmsErrorKind::RawDataTypeNotFound);
}

#[test]
fn carry_over_without_prior_object_fails() {
    let file = segment(
        TOC_META | TOC_NEWLIST | TOC_RAW,
        false,
        &[obj_carry("x", false, &[])],
        &[],
        None,
    );
    let err = TdmsFile::open(file).unwrap_err();
    assert_eq!(err.kind, TdmsErrorKind::NoPreviousObject);
}

#[test]
fn channel_not_found() {
    let f = TdmsFile::open(hello_world_file()).unwrap();
    let err = f.load_data("nope").unwrap_err();
    assert_eq!(err.kind, TdmsErrorKind::ChannelNotFound);
    let err = f.object_properties("nope").unwrap_err();
    assert_eq!(err.kind, TdmsErrorKind::ChannelNotFound);
}

#[test]
fn object_without_raw_data_cannot_load() {
    let file = segment(
        TOC_META | TOC_NEWLIST,
        false,
        &[obj_no_raw("/'G'/'c'", false, &[prop_string("unit", "V", false)])],
        &[],
        None,
    );
    let f = TdmsFile::open(file).unwrap();
    let err = f.load_data("/'G'/'c'").unwrap_err();
    assert_eq!(err.kind, TdmsErrorKind::ObjectHasNoRawData);
}

#[test]
fn invalid_utf8_path_is_rejected() {
    let mut obj = w32(2, false);
    obj.extend_from_slice(&[0xFF, 0xFE]);
    obj.extend(w32(0xFFFF_FFFF, false));
    obj.extend(w32(0, false));
    let file = segment(TOC_META | TOC_NEWLIST, false, &[obj], &[], None);
    let err = TdmsFile::open(file).unwrap_err();
    assert_eq!(err.kind, TdmsErrorKind::FromUtf8);
}

#[test]
fn multibyte_path_is_decoded() {
    let obj = obj_no_raw("/'Grüße'/'µ'", false, &[]);
    let file = segment(TOC_META | TOC_NEWLIST, false, &[obj], &[], None);
    let f = TdmsFile::open(file).unwrap();
    assert_eq!(f.all_objects(), vec!["/'Grüße'/'µ'".to_string()]);
}

#[test]
fn not_implemented_raw_type() {
    let obj = obj_fresh("/'G'/'x'", false, 11, 1, 1, &[]);
    let file = segment(TOC_META | TOC_NEWLIST | TOC_RAW, false, &[obj], &[0u8; 10], None);
    let f = TdmsFile::open(file).unwrap();
    let err = f.load_data("/'G'/'x'").unwrap_err();
    assert_eq!(err.kind, TdmsErrorKind::NotImplemented);
}

#[test]
fn string_channel_load() {
    let mut raw = Vec::new();
    raw.extend(w32(2, false));
    raw.extend(w32(5, false));
    raw.extend_from_slice(b"abcde");
    let obj = obj_fresh_string("s", false, 2, raw.len() as u64);
    let file = segment(TOC_META | TOC_NEWLIST | TOC_RAW, false, &[obj], &raw, None);
    let f = TdmsFile::open(file).unwrap();
    assert_eq!(
        f.load_data("s").unwrap(),
        DataTypeVec::TdmsString(vec!["ab".to_string(), "cde".to_string()])
    );
}

#[test]
fn timestamp_channel_load() {
    let mut raw = Vec::new();
    raw.extend((100i64).to_le_bytes());
    raw.extend((7u64).to_le_bytes());
    let obj = obj_fresh("t", false, 0x44, 1, 1, &[]);
    let file = segment(TOC_META | TOC_NEWLIST | TOC_RAW, false, &[obj], &raw, None);
    let f = TdmsFile::open(file).unwrap();
    match f.load_data("t").unwrap() {
        DataTypeVec::TimeStamp(v) => {
            assert_eq!(v.len(), 1);
            assert_eq!(v[0].epoch, 100);
            assert_eq!(v[0].radix, 7);
        },
        other => panic!("expected a timestamp channel, got {:?}", other),
    }
}

#[test]
fn integer_property_values() {
    let mut p = lpstr("n", false);
    p.extend(w32(3, false));
    p.extend((-5i32).to_le_bytes());
    let obj = obj_no_raw("/'G'/'c'", false, &[p]);
    let file = segment(TOC_META | TOC_NEWLIST, false, &[obj], &[], None);
    let f = TdmsFile::open(file).unwrap();
    let o = f.object_properties("/'G'/'c'").unwrap();
    assert_eq!(o.properties.records[0].value, DataType::I32(-5));
}

#[test]
fn type_registry_codes_and_sizes() {
    assert_eq!(DataTypeRaw::from_u32(10).unwrap(), DataTypeRaw::DoubleFloat);
    assert_eq!(DataTypeRaw::from_u32(0x20).unwrap(), DataTypeRaw::TdmsString);
    assert_eq!(DataTypeRaw::from_u32(0xFFFF_FFFF).unwrap(), DataTypeRaw::DAQmxRawData);
    assert_eq!(
        DataTypeRaw::from_u32(0x123456).unwrap_err().kind,
        TdmsErrorKind::RawDataTypeNotFound
    );
    assert_eq!(DataTypeRaw::DoubleFloat.size().unwrap(), 8);
    assert_eq!(DataTypeRaw::TimeStamp.size().unwrap(), 16);
    assert_eq!(
        DataTypeRaw::TdmsString.size().unwrap_err().kind,
        TdmsErrorKind::StringSizeNotDefined
    );
}

#[test]
fn toc_flags() {
    let m = TocMask::from_flags(TOC_META | TOC_RAW | TOC_BIG);
    assert!(m.has_flag(TocProperties::KTocMetaData));
    assert!(m.has_flag(TocProperties::KTocRawData));
    assert!(m.has_flag(TocProperties::KTocBigEndian));
    assert!(!m.has_flag(TocProperties::KTocNewObjList));
    assert!(!m.has_flag(TocProperties::KTocInterleavedData));
    assert!(!m.has_flag(TocProperties::KTocDAQmxRawData));
}

#[test]
fn civil_time_conversion() {
    // 2082844800 moves the LabVIEW epoch to the UNIX epoch; half of 2^64
    // is half a second.
    let ts = TimeStamp { epoch: 2_082_844_800 + 1_000_000, radix: 1u64 << 63 };
    let got = ts.to_local_time().unwrap();
    match Local.timestamp_opt(1_000_000, 500_000_000) {
        LocalResult::Single(expected) => {
            assert_eq!(got.to_rfc3339(), expected.to_rfc3339());
        },
        _ => panic!("expected a single local time"),
    }
}

#[test]
fn boolean_channel_load() {
    let obj = obj_fresh("flags", false, 0x21, 1, 3, &[]);
    let file = segment(TOC_META | TOC_NEWLIST | TOC_RAW, false, &[obj], &[1u8, 0, 7], None);
    let f = TdmsFile::open(file).unwrap();
    assert_eq!(
        f.load_data("flags").unwrap(),
        DataTypeVec::Boolean(vec![true, false, true])
    );
}

#[test]
fn timestamp_before_the_epoch_floor_is_malformed() {
    let ts = TimeStamp { epoch: i64::MIN, radix: 0 };
    match ts.to_local_time() {
        Err(err) => assert_eq!(err.kind, TdmsErrorKind::MalformedTimestamp),
        Ok(_) => panic!("a timestamp below the epoch floor must be rejected"),
    }
}

#[test]
fn daqmx_property_takes_eight_bytes() {
    // A property typed with the DAQmx raw-data code holds eight bytes;
    // the property after it must decode from the right position.
    let mut p1 = lpstr("raw", false);
    p1.extend(w32(0xFFFF_FFFF, false));
    p1.extend(0x0102_0304_0506_0708u64.to_le_bytes());
    let p2 = prop_string("unit", "V", false);
    let mut obj = lpstr("/'G'/'c'", false);
    obj.extend(w32(0xFFFF_FFFF, false));
    obj.extend(w32(2, false));
    obj.extend_from_slice(&p1);
    obj.extend_from_slice(&p2);
    let file = segment(TOC_META | TOC_NEWLIST, false, &[obj], &[], None);
    let f = TdmsFile::open(file).unwrap();
    let o = f.object_properties("/'G'/'c'").unwrap();
    assert_eq!(o.properties.records.len(), 2);
    assert_eq!(o.properties.records[0].value, DataType::DaqMx(0x0102_0304_0506_0708));
    assert_eq!(o.properties.records[1].value, DataType::TdmsString("V".to_string()));
}

#[test]
fn unknown_width_property_type_is_refused() {
    // A property of a type with no offered encoding must fail loudly
    // rather than shift every later read.
    let mut p = lpstr("x", false);
    p.extend(w32(11, false));
    p.extend(0u16.to_le_bytes());
    let obj = obj_no_raw("/'G'/'c'", false, &[p]);
    let file = segment(TOC_META | TOC_NEWLIST, false, &[obj], &[], None);
    let err = TdmsFile::open(file).unwrap_err();
    assert_eq!(err.kind, TdmsErrorKind::NotImplemented);
}

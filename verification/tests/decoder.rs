use rbufr::catalog::{BUFRTableB, BUFRTableD};
use rbufr::bits::BitInput;
use rbufr::cache::Cache;
use rbufr::decoder::{count_from, missing_mask, Decoder, MAX_DEPTH, MAX_STEPS};
use rbufr::state::State;
use rbufr::walk::Frame;
use rbufr::errors::{Error, ParseReason};
use rbufr::fxy::FXY;
use rbufr::record::{BUFRData, BUFRParsed, Scaled, Value};
use rbufr::tables::{BTableEntry, DTableEntry};

fn bits_to_bytes(pairs: &[(u64, u32)]) -> Vec<u8> {
    let mut bits: Vec<bool> = Vec::new();
    for (value, width) in pairs {
        for k in (0..*width).rev() {
            bits.push((value >> k) & 1 == 1);
        }
    }
    while bits.len() % 8 != 0 {
        bits.push(false);
    }
    let mut bytes = Vec::new();
    for chunk in bits.chunks(8) {
        let mut b = 0u8;
        for bit in chunk {
            b = (b << 1) | (*bit as u8);
        }
        bytes.push(b);
    }
    bytes
}

fn b_entry(x: i32, y: i32, name: &str, unit: &str, scale: i32, reference: i32, width: u32) -> BTableEntry {
    BTableEntry {
        fxy: FXY::new(0, x, y),
        class_name_en: "class".to_string(),
        element_name_en: name.to_string(),
        bufr_unit: unit.to_string(),
        bufr_scale: scale,
        bufr_reference_value: reference,
        bufr_datawidth_bits: width,
        note_en: None,
        note_ids: None,
        status: None,
    }
}

fn d_entry(x: i32, y: i32, chain: Vec<FXY>) -> DTableEntry {
    DTableEntry {
        fxy: FXY::new(3, x, y),
        fxy_chain: chain,
        category: None,
        category_of_sequences_en: None,
        title_en: None,
        subtitle_en: None,
        note_en: None,
        note_ids: None,
        status: None,
    }
}

fn master_b() -> Vec<BTableEntry> {
    vec![
        b_entry(1, 1, "WMO block number", "Numeric", 0, 0, 7),
        b_entry(1, 2, "WMO station number", "Numeric", 0, 0, 10),
        b_entry(2, 1, "Type of station", "code table", 0, 0, 7),
        b_entry(2, 2, "Type of instrumentation", "Code table", 0, 0, 4),
        b_entry(1, 15, "Station or site name", "CCITT IA5", 0, 0, 32),
        b_entry(12, 1, "Temperature", "K", 1, 0, 12),
        b_entry(7, 1, "Height of station", "m", 0, -400, 15),
        b_entry(20, 3, "Present weather", "code table", 0, 0, 9),
        b_entry(31, 1, "Delayed descriptor replication factor", "Numeric", 0, 0, 8),
        b_entry(31, 2, "Extended delayed descriptor replication factor", "Numeric", 0, 0, 16),
        b_entry(4, 1, "Year", "a", 0, 0, 12),
        b_entry(33, 1, "Wide", "Numeric", 0, 0, 64),
        b_entry(33, 2, "Too wide", "Numeric", 0, 0, 65),
        b_entry(33, 3, "Empty", "Numeric", 0, 0, 0),
        b_entry(33, 4, "Scaled counter", "Numeric", 1, 5, 8),
        b_entry(33, 5, "Shifted counter", "Numeric", -2, 0, 8),
    ]
}

fn master_d() -> Vec<DTableEntry> {
    vec![
        d_entry(1, 1, vec![FXY::new(0, 1, 1), FXY::new(0, 1, 2)]),
        d_entry(1, 2, vec![FXY::new(3, 1, 1), FXY::new(0, 12, 1)]),
        d_entry(1, 3, vec![FXY::new(0, 1, 1), FXY::new(3, 1, 3)]),
        d_entry(1, 4, vec![FXY::new(3, 1, 4)]),
        d_entry(1, 5, vec![FXY::new(3, 1, 6), FXY::new(0, 1, 1)]),
        d_entry(1, 6, vec![FXY::new(3, 1, 5)]),
    ]
}

fn decoder() -> Decoder {
    Decoder::new(
        4,
        BUFRTableB::build(master_b()).unwrap(),
        BUFRTableD::build(master_d()).unwrap(),
        None,
        None,
    )
}

fn single(record: &BUFRParsed, i: usize) -> Value {
    match &record.records()[i].values {
        BUFRData::Single(v) => v.clone(),
        other => panic!("entry {} is not single: {:?}", i, other),
    }
}

fn number(record: &BUFRParsed, i: usize) -> Scaled {
    match single(record, i) {
        Value::Number(s) => s,
        other => panic!("entry {} is no number: {:?}", i, other),
    }
}

fn array(record: &BUFRParsed, i: usize) -> Vec<Option<Scaled>> {
    match &record.records()[i].values {
        BUFRData::Array(v) => v.clone(),
        other => panic!("entry {} is no array: {:?}", i, other),
    }
}

fn plain(raw: u64) -> Scaled {
    Scaled { raw, reference: 0, scale: 0 }
}

#[test]
fn decodes_one_element() {
    let dec = decoder();
    let payload = bits_to_bytes(&[(0b0000111, 7)]);
    let record = dec
        .decode_descriptors(&[FXY::new(0, 1, 1)], &payload, MAX_STEPS, MAX_DEPTH)
        .unwrap();
    assert_eq!(record.record_count(), 1);
    assert_eq!(number(&record, 0), plain(7));
    assert_eq!(record.records()[0].name, Some("WMO block number"));
    assert_eq!(record.records()[0].unit, Some("Numeric"));
}

#[test]
fn decodes_all_ones_as_missing() {
    let dec = decoder();
    let payload = bits_to_bytes(&[(0b1111111, 7)]);
    let record = dec
        .decode_descriptors(&[FXY::new(0, 1, 1)], &payload, MAX_STEPS, MAX_DEPTH)
        .unwrap();
    assert_eq!(record.record_count(), 1);
    assert!(single(&record, 0).is_missing());
    assert_eq!(record.records()[0].name, Some("WMO block number"));
}

#[test]
fn missing_is_all_ones_and_nothing_else() {
    let dec = decoder();
    for raw in 0..128u64 {
        let payload = bits_to_bytes(&[(raw, 7)]);
        let record = dec
            .decode_descriptors(&[FXY::new(0, 1, 1)], &payload, MAX_STEPS, MAX_DEPTH)
            .unwrap();
        if raw == 127 {
            assert!(single(&record, 0).is_missing());
        } else {
            assert_eq!(number(&record, 0), plain(raw));
        }
    }
    // 64 bits: missing is the largest value.
    let payload = bits_to_bytes(&[(u64::MAX, 64), (u64::MAX - 1, 64)]);
    let record = dec
        .decode_descriptors(&[FXY::new(0, 33, 1), FXY::new(0, 33, 1)], &payload, MAX_STEPS, MAX_DEPTH)
        .unwrap();
    assert!(single(&record, 0).is_missing());
    assert_eq!(number(&record, 1), plain(u64::MAX - 1));
}

#[test]
fn delayed_replication_reads_its_counter() {
    let dec = decoder();
    let program = [FXY::new(1, 1, 0), FXY::new(0, 31, 1), FXY::new(0, 1, 1)];
    let payload = bits_to_bytes(&[(3, 8), (1, 7), (2, 7), (3, 7)]);
    let record = dec.decode_descriptors(&program, &payload, MAX_STEPS, MAX_DEPTH).unwrap();
    assert_eq!(record.record_count(), 3);
    assert_eq!(number(&record, 0), plain(1));
    assert_eq!(number(&record, 1), plain(2));
    assert_eq!(number(&record, 2), plain(3));
}

#[test]
fn a_counter_of_all_ones_is_a_count() {
    let dec = decoder();
    // The counter 0-31-001 reads 255: not missing, but 255 repetitions.
    let mut pairs: Vec<(u64, u32)> = vec![(255, 8)];
    for i in 0..255u64 {
        pairs.push((i % 100, 7));
    }
    let payload = bits_to_bytes(&pairs);
    let program = [FXY::new(1, 1, 0), FXY::new(0, 31, 1), FXY::new(0, 1, 1)];
    let record = dec.decode_descriptors(&program, &payload, MAX_STEPS, MAX_DEPTH).unwrap();
    // 255 repetitions of one field: compiled into one array.
    assert_eq!(record.record_count(), 1);
    let values = array(&record, 0);
    assert_eq!(values.len(), 255);
    assert_eq!(values[0], Some(plain(0)));
    assert_eq!(values[254], Some(plain(254 % 100)));
    // As an element of its own the counter is a number as well.
    let alone = dec
        .decode_descriptors(&[FXY::new(0, 31, 1)], &[0xFF], MAX_STEPS, MAX_DEPTH)
        .unwrap();
    assert_eq!(number(&alone, 0), plain(255));
}

#[test]
fn zero_repetitions_skip_the_body() {
    let dec = decoder();
    let program = [
        FXY::new(1, 1, 0),
        FXY::new(0, 31, 1),
        FXY::new(0, 1, 1),
        FXY::new(0, 1, 2),
    ];
    let payload = bits_to_bytes(&[(0, 8), (513, 10)]);
    let record = dec.decode_descriptors(&program, &payload, MAX_STEPS, MAX_DEPTH).unwrap();
    assert_eq!(record.record_count(), 1);
    assert_eq!(number(&record, 0), plain(513));
    assert_eq!(record.records()[0].name, Some("WMO station number"));
}

#[test]
fn width_operator_widens_and_is_cleared() {
    let dec = decoder();
    let program = [
        FXY::new(2, 1, 136),
        FXY::new(0, 1, 1),
        FXY::new(2, 1, 0),
        FXY::new(0, 1, 1),
    ];
    let payload = bits_to_bytes(&[(0x7FFF, 15), (0b0000101, 7)]);
    let record = dec.decode_descriptors(&program, &payload, MAX_STEPS, MAX_DEPTH).unwrap();
    assert_eq!(record.record_count(), 2);
    assert!(single(&record, 0).is_missing());
    assert_eq!(number(&record, 1), plain(5));
}

#[test]
fn width_and_scale_operators_pass_tables_and_counters_by() {
    let dec = decoder();
    let program = [
        FXY::new(2, 1, 130),
        FXY::new(2, 2, 129),
        FXY::new(0, 20, 3),
        FXY::new(0, 31, 1),
        FXY::new(0, 2, 1),
        FXY::new(0, 12, 1),
    ];
    let payload = bits_to_bytes(&[(300, 9), (200, 8), (5, 7), (1000, 14)]);
    let record = dec.decode_descriptors(&program, &payload, MAX_STEPS, MAX_DEPTH).unwrap();
    assert_eq!(number(&record, 0), plain(300));
    assert_eq!(number(&record, 1), plain(200));
    assert_eq!(number(&record, 2), plain(5));
    // 12 + (130 - 128) bits, scale 1 + (128 - 129).
    assert_eq!(number(&record, 3), Scaled { raw: 1000, reference: 0, scale: 0 });
}

#[test]
fn exemption_goes_by_the_exact_unit() {
    let dec = decoder();
    // "Code table" with a capital is no exempt unit: the width override
    // applies to 0-02-002.
    let program = [FXY::new(2, 1, 130), FXY::new(0, 2, 2), FXY::new(0, 2, 1)];
    let payload = bits_to_bytes(&[(33, 6), (100, 7)]);
    let record = dec.decode_descriptors(&program, &payload, MAX_STEPS, MAX_DEPTH).unwrap();
    assert_eq!(number(&record, 0), plain(33));
    assert_eq!(number(&record, 1), plain(100));
}

#[test]
fn one_shot_operators_hold_for_one_element() {
    let dec = decoder();
    let program = [
        FXY::new(2, 6, 3),
        FXY::new(0, 1, 1),
        FXY::new(0, 1, 1),
        FXY::new(2, 7, 2),
        FXY::new(0, 7, 1),
        FXY::new(0, 7, 1),
    ];
    // 3 bits, 7 bits, 15 + 20 bits, 15 bits
    let payload = bits_to_bytes(&[(5, 3), (99, 7), (123456, 35), (1000, 15)]);
    let record = dec.decode_descriptors(&program, &payload, MAX_STEPS, MAX_DEPTH).unwrap();
    assert_eq!(number(&record, 0), plain(5));
    assert_eq!(number(&record, 1), plain(99));
    assert_eq!(
        number(&record, 2),
        Scaled { raw: 123456, reference: -40000, scale: 2 }
    );
    assert_eq!(
        number(&record, 3),
        Scaled { raw: 1000, reference: -400, scale: 0 }
    );
}

#[test]
fn one_shot_adjustment_sets_the_scale_override_aside() {
    let dec = decoder();
    // With 2-02 and 2-07 both in force an interpreted element takes the
    // base scale plus Y.
    let program = [FXY::new(2, 2, 130), FXY::new(2, 7, 1), FXY::new(0, 12, 1)];
    let payload = bits_to_bytes(&[(77, 22)]);
    let record = dec.decode_descriptors(&program, &payload, MAX_STEPS, MAX_DEPTH).unwrap();
    assert_eq!(number(&record, 0), Scaled { raw: 77, reference: 0, scale: 2 });
}

#[test]
fn strings_and_string_operators() {
    let dec = decoder();
    let program = [
        FXY::new(0, 1, 15),
        FXY::new(2, 8, 2),
        FXY::new(0, 1, 15),
        FXY::new(2, 8, 0),
        FXY::new(2, 5, 3),
        FXY::new(0, 1, 1),
    ];
    let mut payload = b"OsloUKabc".to_vec();
    payload.push(0b0000_0110);
    let record = dec.decode_descriptors(&program, &payload, MAX_STEPS, MAX_DEPTH).unwrap();
    assert_eq!(record.record_count(), 4);
    assert_eq!(single(&record, 0).as_str(), Some("Oslo"));
    assert_eq!(record.records()[0].unit, Some("CCITT IA5"));
    assert_eq!(single(&record, 1).as_str(), Some("UK"));
    assert_eq!(single(&record, 2).as_str(), Some("abc"));
    assert_eq!(record.records()[2].name, Some(""));
    assert_eq!(record.records()[2].unit, Some("CAITT IA5"));
    assert_eq!(number(&record, 3), plain(3));
}

#[test]
fn sequences_expand_in_order() {
    let dec = decoder();
    let payload = bits_to_bytes(&[(11, 7), (22, 10), (33, 12), (44, 7)]);
    let program = [FXY::new(3, 1, 2), FXY::new(0, 1, 1)];
    let record = dec.decode_descriptors(&program, &payload, MAX_STEPS, MAX_DEPTH).unwrap();
    assert_eq!(record.record_count(), 4);
    assert_eq!(number(&record, 0), plain(11));
    assert_eq!(record.records()[0].name, Some("WMO block number"));
    assert_eq!(number(&record, 1), plain(22));
    assert_eq!(record.records()[1].name, Some("WMO station number"));
    assert_eq!(number(&record, 2), Scaled { raw: 33, reference: 0, scale: 1 });
    assert_eq!(record.records()[2].name, Some("Temperature"));
    assert_eq!(number(&record, 3), plain(44));
}

#[test]
fn sequence_of_two_elements() {
    let dec = decoder();
    let payload = bits_to_bytes(&[(60, 7), (1001, 10)]);
    let record = dec
        .decode_descriptors(&[FXY::new(3, 1, 1)], &payload, MAX_STEPS, MAX_DEPTH)
        .unwrap();
    assert_eq!(record.record_count(), 2);
    assert_eq!(number(&record, 0), plain(60));
    assert_eq!(number(&record, 1), plain(1001));
}

#[test]
fn sixteen_repetitions_are_compiled_into_arrays() {
    let dec = decoder();
    let program = [FXY::new(1, 2, 16), FXY::new(0, 1, 1), FXY::new(0, 2, 1)];
    let mut pairs: Vec<(u64, u32)> = Vec::new();
    for r in 0..16u64 {
        pairs.push((r + 1, 7));
        pairs.push((if r == 5 { 127 } else { 2 * r }, 7));
    }
    let payload = bits_to_bytes(&pairs);
    assert_eq!(payload.len(), 28);
    let record = dec.decode_descriptors(&program, &payload, MAX_STEPS, MAX_DEPTH).unwrap();
    assert_eq!(record.record_count(), 2);
    assert_eq!(record.records()[0].name, Some("WMO block number"));
    assert_eq!(record.records()[0].unit, Some("Numeric"));
    assert_eq!(record.records()[1].name, Some("Type of station"));
    assert_eq!(record.records()[1].unit, Some("code table"));
    let first = array(&record, 0);
    let second = array(&record, 1);
    assert_eq!(first.len(), 16);
    assert_eq!(second.len(), 16);
    for r in 0..16usize {
        assert_eq!(first[r], Some(plain(r as u64 + 1)));
        if r == 5 {
            assert_eq!(second[r], None);
        } else {
            assert_eq!(second[r], Some(plain(2 * r as u64)));
        }
    }
}

#[test]
fn compiled_and_interpreted_values_agree() {
    let dec = decoder();
    let body = [
        FXY::new(2, 1, 131),
        FXY::new(0, 12, 1),
        FXY::new(2, 1, 0),
        FXY::new(2, 6, 5),
        FXY::new(0, 7, 1),
        FXY::new(0, 20, 3),
    ];
    let mut pairs: Vec<(u64, u32)> = Vec::new();
    for r in 0..20u64 {
        pairs.push((if r == 3 { 0x7FFF } else { 1000 + r }, 15));
        pairs.push((if r == 4 { 31 } else { r }, 5));
        pairs.push((if r == 7 { 511 } else { 7 * r }, 9));
    }
    let payload = bits_to_bytes(&pairs);
    // Compiled: one replication of twenty.
    let mut compiled_program = vec![FXY::new(1, 6, 20)];
    compiled_program.extend_from_slice(&body);
    let compiled = dec
        .decode_descriptors(&compiled_program, &payload, MAX_STEPS, MAX_DEPTH)
        .unwrap();
    assert_eq!(compiled.record_count(), 3);
    // Interpreted: two replications of ten.
    let mut interpreted_program = vec![FXY::new(1, 6, 10)];
    interpreted_program.extend_from_slice(&body);
    interpreted_program.push(FXY::new(1, 6, 10));
    interpreted_program.extend_from_slice(&body);
    let interpreted = dec
        .decode_descriptors(&interpreted_program, &payload, MAX_STEPS, MAX_DEPTH)
        .unwrap();
    assert_eq!(interpreted.record_count(), 60);
    for j in 0..3usize {
        let column = array(&compiled, j);
        assert_eq!(column.len(), 20);
        for r in 0..20usize {
            let entry = &interpreted.records()[r * 3 + j];
            assert_eq!(entry.name, compiled.records()[j].name);
            assert_eq!(entry.unit, compiled.records()[j].unit);
            match single(&interpreted, r * 3 + j) {
                Value::Number(s) => assert_eq!(column[r], Some(s)),
                Value::Missing => assert_eq!(column[r], None),
                Value::String(_) => panic!("a string in a numeric body"),
            }
        }
    }
    assert_eq!(array(&compiled, 0)[3], None);
    assert_eq!(array(&compiled, 1)[4], None);
    assert_eq!(array(&compiled, 2)[7], None);
    assert_eq!(
        array(&compiled, 1)[2],
        Some(Scaled { raw: 2, reference: -400, scale: 0 })
    );
}

#[test]
fn bodies_that_are_not_eligible_are_interpreted() {
    let dec = decoder();
    // A string in the body.
    let program = [FXY::new(1, 1, 16), FXY::new(0, 1, 15)];
    let payload: Vec<u8> = (0..64u8).map(|i| b'a' + i % 26).collect();
    let record = dec.decode_descriptors(&program, &payload, MAX_STEPS, MAX_DEPTH).unwrap();
    assert_eq!(record.record_count(), 16);
    assert_eq!(single(&record, 15).as_str(), Some("ijkl"));
    // A sequence in the body.
    let program = [FXY::new(1, 1, 16), FXY::new(3, 1, 1)];
    let mut pairs: Vec<(u64, u32)> = Vec::new();
    for r in 0..16u64 {
        pairs.push((r, 7));
        pairs.push((r + 100, 10));
    }
    let record = dec
        .decode_descriptors(&program, &bits_to_bytes(&pairs), MAX_STEPS, MAX_DEPTH)
        .unwrap();
    assert_eq!(record.record_count(), 32);
    assert_eq!(number(&record, 31), plain(115));
    // A one-shot adjustment left over at the end of the body.
    let program = [FXY::new(1, 2, 16), FXY::new(0, 1, 1), FXY::new(2, 7, 1)];
    let mut pairs: Vec<(u64, u32)> = vec![(1, 7)];
    for r in 1..16u64 {
        pairs.push((r, 17));
    }
    let record = dec
        .decode_descriptors(&program, &bits_to_bytes(&pairs), MAX_STEPS, MAX_DEPTH)
        .unwrap();
    assert_eq!(record.record_count(), 16);
    assert_eq!(number(&record, 0), plain(1));
    assert_eq!(number(&record, 1), Scaled { raw: 1, reference: 0, scale: 1 });
}

#[test]
fn fewer_than_sixteen_repetitions_are_interpreted() {
    let dec = decoder();
    let program = [FXY::new(1, 1, 15), FXY::new(0, 1, 1)];
    let pairs: Vec<(u64, u32)> = (0..15u64).map(|r| (r, 7)).collect();
    let record = dec
        .decode_descriptors(&program, &bits_to_bytes(&pairs), MAX_STEPS, MAX_DEPTH)
        .unwrap();
    assert_eq!(record.record_count(), 15);
    assert_eq!(number(&record, 14), plain(14));
}

#[test]
fn trailing_bits_are_left_alone() {
    let dec = decoder();
    let payload = [0b0000_1110u8, 0xFF, 0xFF, 0xFF];
    let record = dec
        .decode_descriptors(&[FXY::new(0, 1, 1)], &payload, MAX_STEPS, MAX_DEPTH)
        .unwrap();
    assert_eq!(record.record_count(), 1);
    assert_eq!(number(&record, 0), plain(7));
    let empty = dec.decode_descriptors(&[], &payload, MAX_STEPS, MAX_DEPTH).unwrap();
    assert_eq!(empty.record_count(), 0);
}

#[test]
fn local_tables_come_first() {
    let local = vec![b_entry(1, 1, "Local block number", "Numeric", 0, 100, 8)];
    let dec = Decoder::new(
        4,
        BUFRTableB::build(master_b()).unwrap(),
        BUFRTableD::build(master_d()).unwrap(),
        Some(BUFRTableB::build(local).unwrap()),
        Some(BUFRTableD::build(vec![d_entry(1, 1, vec![FXY::new(0, 1, 2)])]).unwrap()),
    );
    let payload = bits_to_bytes(&[(9, 8), (700, 10), (3, 10)]);
    let record = dec
        .decode_descriptors(
            &[FXY::new(0, 1, 1), FXY::new(0, 1, 2), FXY::new(3, 1, 1)],
            &payload,
            MAX_STEPS,
            MAX_DEPTH,
        )
        .unwrap();
    assert_eq!(record.record_count(), 3);
    assert_eq!(number(&record, 0), Scaled { raw: 9, reference: 100, scale: 0 });
    assert_eq!(record.records()[0].name, Some("Local block number"));
    assert_eq!(number(&record, 1), plain(700));
    assert_eq!(record.records()[1].name, Some("WMO station number"));
    assert_eq!(number(&record, 2), plain(3));
}

fn failure(program: &[FXY], payload: &[u8]) -> Error {
    let dec = decoder();
    match dec.decode_descriptors(program, payload, MAX_STEPS, MAX_DEPTH) {
        Ok(_) => panic!("the decode succeeded"),
        Err(e) => e,
    }
}

#[test]
fn every_failure_has_its_error() {
    let zeros = [0u8; 64];
    assert_eq!(
        failure(&[FXY::new(0, 63, 1)], &zeros),
        Error::Parse(ParseReason::UnknownElement(FXY::new(0, 63, 1)))
    );
    assert_eq!(
        failure(&[FXY::new(3, 63, 1)], &zeros),
        Error::Parse(ParseReason::UnknownSequence(FXY::new(3, 63, 1)))
    );
    assert_eq!(
        failure(&[FXY::new(4, 1, 1)], &zeros),
        Error::Parse(ParseReason::InvalidF(4))
    );
    assert_eq!(
        failure(&[FXY::new(-1, 1, 1)], &zeros),
        Error::Parse(ParseReason::InvalidF(-1))
    );
    assert_eq!(
        failure(&[FXY::new(1, 2, 3), FXY::new(0, 1, 1)], &zeros),
        Error::Parse(ParseReason::ProgramTruncated)
    );
    assert_eq!(
        failure(&[FXY::new(1, 1, 0)], &zeros),
        Error::Parse(ParseReason::CounterMissing)
    );
    assert_eq!(
        failure(&[FXY::new(1, 1, 0), FXY::new(2, 1, 0), FXY::new(0, 1, 1)], &zeros),
        Error::Parse(ParseReason::UnknownElement(FXY::new(2, 1, 0)))
    );
    assert_eq!(
        failure(&[FXY::new(1, 1, 0), FXY::new(0, 1, 15), FXY::new(0, 1, 1)], &zeros),
        Error::Parse(ParseReason::CounterNotNumeric)
    );
    assert_eq!(
        failure(&[FXY::new(1, 1, 0), FXY::new(0, 1, 1), FXY::new(0, 1, 1)], &[0xFF; 8]),
        Error::Parse(ParseReason::CounterNotNumeric)
    );
    assert_eq!(
        failure(&[FXY::new(1, -1, 2), FXY::new(0, 1, 1)], &zeros),
        Error::Parse(ParseReason::BadReplication)
    );
    assert_eq!(
        failure(&[FXY::new(0, 33, 2)], &zeros),
        Error::Parse(ParseReason::WidthTooLarge)
    );
    assert_eq!(failure(&[FXY::new(0, 1, 1)], &[]), Error::Underflow);
    assert_eq!(
        failure(&[FXY::new(0, 1, 2), FXY::new(0, 1, 1)], &[0, 0]),
        Error::Underflow
    );
    assert_eq!(failure(&[FXY::new(0, 1, 15)], b"abc"), Error::Underflow);
    assert_eq!(
        failure(&[FXY::new(0, 1, 15)], &[0x41, 0xC0, 0x41, 0x41]),
        Error::InvalidUtf8
    );
    assert_eq!(failure(&[FXY::new(2, 5, 9)], b"too short"[..8].as_ref()), Error::Underflow);
    // In a compiled array the read that fails tells the error.
    assert_eq!(
        failure(&[FXY::new(1, 1, 16), FXY::new(0, 1, 1)], &[0u8; 13]),
        Error::Underflow
    );
    assert_eq!(
        failure(&[FXY::new(1, 2, 16), FXY::new(0, 1, 1), FXY::new(0, 63, 1)], &zeros),
        Error::Parse(ParseReason::UnknownElement(FXY::new(0, 63, 1)))
    );
}

#[test]
fn a_sequence_that_contains_itself_runs_out_of_steps() {
    let dec = decoder();
    let zeros = [0u8; 4096];
    let result = dec.decode_descriptors(&[FXY::new(3, 1, 3)], &zeros, 1_000, MAX_DEPTH);
    assert!(matches!(
        result,
        Err(Error::Parse(ParseReason::ProgramTruncated))
    ));
}

#[test]
fn the_step_budget_counts_every_frame() {
    let dec = decoder();
    let payload = bits_to_bytes(&[(1, 7), (2, 7)]);
    let program = [FXY::new(0, 1, 1), FXY::new(0, 1, 1)];
    // Two elements and the end of the list: three steps.
    assert!(dec.decode_descriptors(&program, &payload, 3, MAX_DEPTH).is_ok());
    assert!(matches!(
        dec.decode_descriptors(&program, &payload, 2, MAX_DEPTH),
        Err(Error::Parse(ParseReason::ProgramTruncated))
    ));
    assert!(dec.decode_descriptors(&[], &payload, 1, MAX_DEPTH).is_ok());
    assert!(dec.decode_descriptors(&[], &payload, 0, MAX_DEPTH).is_err());
}

#[test]
fn counters_are_rounded_down() {
    assert_eq!(count_from(Scaled { raw: 3, reference: 0, scale: 0 }), 3);
    assert_eq!(count_from(Scaled { raw: 37, reference: 5, scale: 1 }), 4);
    assert_eq!(count_from(Scaled { raw: 39, reference: 1, scale: 1 }), 4);
    assert_eq!(count_from(Scaled { raw: 7, reference: 0, scale: -2 }), 700);
    assert_eq!(count_from(Scaled { raw: 3, reference: -5, scale: 0 }), 0);
    assert_eq!(count_from(Scaled { raw: 0, reference: 0, scale: -9 }), 0);
    assert_eq!(count_from(Scaled { raw: 9, reference: 0, scale: 1 }), 0);
    assert_eq!(count_from(Scaled { raw: 1, reference: 0, scale: -30 }), usize::MAX);
    assert_eq!(count_from(Scaled { raw: u64::MAX, reference: 7, scale: 0 }), usize::MAX);
    assert_eq!(count_from(Scaled { raw: 123456, reference: 0, scale: i32::MAX }), 0);
    assert_eq!(count_from(Scaled { raw: 5, reference: 0, scale: i32::MIN }), usize::MAX);
}

#[test]
fn scaled_counters_set_the_count() {
    let dec = decoder();
    // 0-33-004: scale 1, reference 5: raw 25 stands for 3.0.
    let program = [FXY::new(1, 1, 0), FXY::new(0, 33, 4), FXY::new(0, 1, 1)];
    let payload = bits_to_bytes(&[(25, 8), (1, 7), (2, 7), (3, 7)]);
    let record = dec.decode_descriptors(&program, &payload, MAX_STEPS, MAX_DEPTH).unwrap();
    assert_eq!(record.record_count(), 3);
    // 0-33-005: scale -2: raw 1 stands for 100, more than the payload has.
    let program = [FXY::new(1, 1, 0), FXY::new(0, 33, 5), FXY::new(0, 33, 3)];
    let payload = bits_to_bytes(&[(1, 8)]);
    let record = dec.decode_descriptors(&program, &payload, MAX_STEPS, MAX_DEPTH).unwrap();
    // Elements of no bits are always missing; a hundred of them are compiled.
    assert_eq!(record.record_count(), 1);
    assert_eq!(array(&record, 0), vec![None; 100]);
}

#[test]
fn masks_have_all_bits_of_the_width() {
    assert_eq!(missing_mask(0), 0);
    assert_eq!(missing_mask(1), 1);
    assert_eq!(missing_mask(7), 127);
    assert_eq!(missing_mask(15), 0x7FFF);
    assert_eq!(missing_mask(63), u64::MAX >> 1);
    assert_eq!(missing_mask(64), u64::MAX);
    assert_eq!(missing_mask(200), u64::MAX);
}

#[test]
fn a_sequence_of_itself_alone_runs_into_the_depth_bound() {
    let dec = decoder();
    // No bits are read and no budget is used up: the stack alone grows.
    for key in [FXY::new(3, 1, 4), FXY::new(3, 1, 5), FXY::new(3, 1, 6)] {
        let result = dec.decode_descriptors(&[key], &[], MAX_STEPS, MAX_DEPTH);
        assert!(matches!(
            result,
            Err(Error::Parse(ParseReason::ProgramTruncated))
        ));
    }
}

#[test]
fn the_depth_bound_counts_the_frames_on_the_stack() {
    let dec = decoder();
    let payload = bits_to_bytes(&[(11, 7), (22, 10), (33, 12)]);
    // 3-01-002 holds 3-01-001: the program, the two chains and what is
    // left of each make three frames at the deepest.
    let program = [FXY::new(3, 1, 2)];
    assert!(dec.decode_descriptors(&program, &payload, MAX_STEPS, 3).is_ok());
    assert!(matches!(
        dec.decode_descriptors(&program, &payload, MAX_STEPS, 2),
        Err(Error::Parse(ParseReason::ProgramTruncated))
    ));
    assert!(dec.decode_descriptors(&[FXY::new(0, 1, 1)], &payload, MAX_STEPS, 1).is_ok());
    assert!(dec.decode_descriptors(&[FXY::new(0, 1, 1)], &payload, MAX_STEPS, 0).is_err());
    assert!(dec.decode_descriptors(&[], &payload, MAX_STEPS, 1).is_ok());
}

#[test]
fn a_failing_step_leaves_everything_as_it_was() {
    let b = BUFRTableB::build(master_b()).unwrap();
    let d = BUFRTableD::build(master_d()).unwrap();
    let dec = decoder();
    let cache = Cache::new(&b, &d, None, None);
    let payload = bits_to_bytes(&[(0, 3), (20, 8), (5, 7), (0, 32)]);
    let programs: Vec<(Vec<FXY>, Error)> = vec![
        // The counter is read, then the body runs past the program.
        (
            vec![FXY::new(1, 2, 0), FXY::new(0, 31, 1), FXY::new(0, 1, 1)],
            Error::Parse(ParseReason::ProgramTruncated),
        ),
        // The counter is read, then the body does not compile.
        (
            vec![FXY::new(1, 1, 0), FXY::new(0, 31, 1), FXY::new(0, 63, 1)],
            Error::Parse(ParseReason::UnknownElement(FXY::new(0, 63, 1))),
        ),
        (
            vec![FXY::new(1, 1, 0), FXY::new(0, 1, 15), FXY::new(0, 1, 1)],
            Error::Parse(ParseReason::CounterNotNumeric),
        ),
        (vec![FXY::new(1, 1, 0)], Error::Parse(ParseReason::CounterMissing)),
        (
            vec![FXY::new(0, 63, 1)],
            Error::Parse(ParseReason::UnknownElement(FXY::new(0, 63, 1))),
        ),
        (
            vec![FXY::new(3, 63, 1)],
            Error::Parse(ParseReason::UnknownSequence(FXY::new(3, 63, 1))),
        ),
        (vec![FXY::new(7, 1, 1)], Error::Parse(ParseReason::InvalidF(7))),
        (vec![FXY::new(2, 5, 200)], Error::Underflow),
        (vec![FXY::new(0, 33, 1)], Error::Underflow),
    ];
    for (program, expected) in programs {
        let mut data = BitInput::new(&payload);
        assert_eq!(data.get_arbitary_bits(3), Ok(0));
        let mut values = BUFRParsed::new();
        values.push(Value::Missing, "before", "unit");
        let mut state = State::new();
        state.common_scale = Some(130);
        state.common_ref_value = Some(7);
        let mut stack: Vec<Frame> = vec![Frame::Slice { descs: &program, idx: 0 }];
        let result = dec.parse_slice(
            &program[0],
            0,
            &mut values,
            &program,
            &mut stack,
            &cache,
            &mut state,
            &mut data,
        );
        assert_eq!(result, Err(expected));
        assert_eq!(stack.len(), 1);
        assert!(matches!(stack[0], Frame::Slice { idx: 0, .. }));
        assert_eq!(values.record_count(), 1);
        assert_eq!(state.common_scale, Some(130));
        assert_eq!(state.common_ref_value, Some(7));
        assert_eq!(state.temp_operator, None);
        assert_eq!(state.local_data_width, None);
        assert_eq!(data.pointer(), 3);
        assert_eq!(data.get_arbitary_bits(8), Ok(20));
    }
}

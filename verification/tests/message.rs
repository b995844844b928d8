use rbufr::block::BUFRFile;
use rbufr::catalog::{BUFRTableB, BUFRTableD};
use rbufr::decoder::Decoder;
use rbufr::errors::{Error, ParseReason};
use rbufr::fxy::FXY;
use rbufr::parser::{
    find_bufr_offsets, is_gzip, parse_at_offsets, parse_inner, read_message_at_offset,
    MarkerScanner,
};
use rbufr::record::{BUFRData, Scaled, Value};
use rbufr::structs::tools::{parse_descriptors, read_u16, read_u24, skip, skip1, skip2};
use rbufr::tables::DTableEntry;
use rbufr::structs::versions::v2::BUFRMessageV2;
use rbufr::structs::versions::v4::BUFRMessageV4;
use rbufr::structs::versions::{parse_section0, BUFRMessage, MessageVersion, TableInfo};
use rbufr::tables::BTableEntry;

fn u24(n: usize) -> [u8; 3] {
    [(n >> 16) as u8, (n >> 8) as u8, n as u8]
}

fn edition4(descriptors: &[u8], payload: &[u8], optional: Option<&[u8]>, local_use: &[u8]) -> Vec<u8> {
    let mut section1 = Vec::new();
    section1.extend_from_slice(&u24(22 + local_use.len()));
    section1.push(0); // master table
    section1.extend_from_slice(&[0, 74]); // centre
    section1.extend_from_slice(&[1, 2]); // subcentre 258
    section1.push(3); // update sequence
    section1.push(if optional.is_some() { 0x80 } else { 0 });
    section1.push(6); // data category
    section1.push(7);
    section1.push(8);
    section1.push(35); // master table version
    section1.push(2); // local table version
    section1.extend_from_slice(&[0x07, 0xE9]); // 2025
    section1.extend_from_slice(&[12, 17, 9, 30, 59]);
    section1.extend_from_slice(local_use);
    let mut body = section1;
    if let Some(extra) = optional {
        body.extend_from_slice(&u24(4 + extra.len()));
        body.push(0);
        body.extend_from_slice(extra);
    }
    body.extend_from_slice(&u24(7 + descriptors.len()));
    body.push(0);
    body.extend_from_slice(&[0, 1]); // subsets
    body.push(0x80 | 0x40);
    body.extend_from_slice(descriptors);
    body.extend_from_slice(&u24(4 + payload.len()));
    body.push(0);
    body.extend_from_slice(payload);
    body.extend_from_slice(b"7777");
    let mut message = b"BUFR".to_vec();
    message.extend_from_slice(&u24(8 + body.len()));
    message.push(4);
    message.extend_from_slice(&body);
    message
}

fn edition2(descriptors: &[u8], payload: &[u8]) -> Vec<u8> {
    let mut body = Vec::new();
    body.extend_from_slice(&u24(18));
    body.push(0); // master table
    body.push(5); // subcentre
    body.push(98); // centre
    body.push(1); // update sequence
    body.push(0); // no optional section
    body.push(2); // data category
    body.push(3); // data subcategory
    body.push(11); // master table version
    body.push(0); // local table version
    body.extend_from_slice(&[99, 12, 31, 23, 59]);
    body.push(0xAA); // local use
    body.extend_from_slice(&u24(7 + descriptors.len()));
    body.push(0);
    body.extend_from_slice(&[1, 0]); // 256 subsets
    body.push(0x80);
    body.extend_from_slice(descriptors);
    body.extend_from_slice(&u24(4 + payload.len()));
    body.push(0);
    body.extend_from_slice(payload);
    body.extend_from_slice(b"7777");
    let mut message = b"BUFR".to_vec();
    message.extend_from_slice(&u24(8 + body.len()));
    message.push(2);
    message.extend_from_slice(&body);
    message
}

#[test]
fn parses_an_edition_four_message() {
    let bytes = edition4(&[0x01, 0x01, 0xC1, 0x02, 0x99], &[0x0E, 0xFF], None, &[9, 9, 9]);
    let message = BUFRMessageV4::parse(&bytes).unwrap();
    assert_eq!(message.section0.total_length as usize, bytes.len());
    assert_eq!(message.section0.version, 4);
    let ident = &message.section1;
    assert_eq!(ident.length, 25);
    assert_eq!(ident.master_table, 0);
    assert_eq!(ident.centre, 74);
    assert_eq!(ident.subcentre, 258);
    assert_eq!(ident.update_sequence_number, 3);
    assert!(!ident.optional_section_present);
    assert_eq!(ident.data_category, 6);
    assert_eq!(ident.international_data_subcategory, 7);
    assert_eq!(ident.local_subcategory, 8);
    assert_eq!(ident.master_table_version, 35);
    assert_eq!(ident.local_table_version, 2);
    assert_eq!((ident.year, ident.month, ident.day), (2025, 12, 17));
    assert_eq!((ident.hour, ident.minute, ident.second), (9, 30, 59));
    assert_eq!(ident.local_use, vec![9, 9, 9]);
    assert!(message.section2.is_none());
    assert_eq!(message.section3.length, 12);
    assert_eq!(message.section3.number_of_subsets, 1);
    assert!(message.section3.is_observation);
    assert!(message.section3.is_compressed);
    assert_eq!(message.section3.data, vec![0x01, 0x01, 0xC1, 0x02, 0x99]);
    assert_eq!(message.section4.length, 6);
    assert_eq!(message.section4.data, vec![0x0E, 0xFF]);
    assert_eq!(message.ndescs(), 2);
    assert_eq!(
        message.descriptors(),
        Ok(vec![FXY::new(0, 1, 1), FXY::new(3, 1, 2)])
    );
    assert_eq!(message.data_block(), Ok(&[0x0Eu8, 0xFF][..]));
    assert_eq!(message.subsets_count(), 1);
    assert_eq!(
        message.table_info(),
        TableInfo {
            master_table_version: 35,
            local_table_version: 2,
            center_id: 74,
            subcenter_id: 258,
        }
    );
    assert_eq!(message.center_id(), 74);
    assert_eq!(message.subcenter_id(), 258);
    assert_eq!(message.master_table_version(), 35);
    assert_eq!(message.local_table_version(), 2);
}

#[test]
fn passes_over_the_optional_section() {
    let bytes = edition4(&[0x01, 0x01], &[0x0E], Some(&[1, 2, 3, 4, 5]), &[]);
    let message = BUFRMessageV4::parse(&bytes).unwrap();
    assert!(message.section1.optional_section_present);
    let section2 = message.section2.as_ref().unwrap();
    assert_eq!(section2.length, 9);
    assert_eq!(section2.data, vec![1, 2, 3, 4, 5]);
    assert_eq!(message.section3.data, vec![0x01, 0x01]);
    assert_eq!(message.section4.data, vec![0x0E]);
}

#[test]
fn parses_an_edition_two_message() {
    let bytes = edition2(&[0x00, 0x01, 0x41, 0x00], &[1, 2, 3]);
    let message = BUFRMessageV2::parse(&bytes).unwrap();
    let ident = &message.section1;
    assert_eq!(ident.length, 18);
    assert_eq!(ident.subcentre, 5);
    assert_eq!(ident.centre, 98);
    assert_eq!(ident.update_sequence_number, 1);
    assert!(!ident.optional_section_present);
    assert_eq!(ident.data_category, 2);
    assert_eq!(ident.data_subcategory, 3);
    assert_eq!(ident.master_table_version, 11);
    assert_eq!(ident.local_table_version, 0);
    assert_eq!((ident.year, ident.month, ident.day, ident.hour, ident.minute), (99, 12, 31, 23, 59));
    assert_eq!(message.section3.number_of_subsets, 256);
    assert!(message.section3.is_observation);
    assert!(!message.section3.is_compressed);
    assert_eq!(
        message.descriptors(),
        Ok(vec![FXY::new(0, 0, 1), FXY::new(1, 1, 0)])
    );
    assert_eq!(message.section4.data, vec![1, 2, 3]);
    assert_eq!(
        message.table_info(),
        TableInfo {
            master_table_version: 11,
            local_table_version: 0,
            center_id: 98,
            subcenter_id: 5,
        }
    );
}

#[test]
fn section_zero_tells_the_edition() {
    let four = edition4(&[0x01, 0x01], &[0x0E], None, &[]);
    let two = edition2(&[0x01, 0x01], &[0x0E]);
    let (rest, section0) = parse_section0(&four).unwrap();
    assert_eq!(section0.version, 4);
    assert_eq!(section0.total_length as usize, four.len());
    assert_eq!(rest.len(), four.len() - 8);
    let message = BUFRMessage::parse(&four).unwrap();
    assert_eq!(message.version(), 4);
    assert!(matches!(message, BUFRMessage::V4(_)));
    let message = BUFRMessage::parse(&two).unwrap();
    assert_eq!(message.version(), 2);
    assert!(matches!(message, BUFRMessage::V2(_)));
    assert_eq!(message.table_info().center_id, 98);
    assert_eq!(message.descriptors(), Ok(vec![FXY::new(0, 1, 1)]));
    assert_eq!(message.data_block(), Ok(&[0x0Eu8][..]));
    assert_eq!(message.ndescs(), 1);
    assert_eq!(message.subsets_count(), 256);
}

fn fault(bytes: &[u8]) -> Error {
    match BUFRMessage::parse(bytes) {
        Ok(_) => panic!("the message was accepted"),
        Err(e) => e,
    }
}

#[test]
fn rejects_what_is_no_message() {
    let good = edition4(&[0x01, 0x01], &[0x0E], None, &[]);
    assert_eq!(fault(b"BUFX\0\0\x08\x04"), Error::Parse(ParseReason::MissingStartMarker));
    assert_eq!(fault(b""), Error::Parse(ParseReason::MissingStartMarker));
    assert_eq!(fault(b"BUFR\0\0"), Error::Parse(ParseReason::SectionLength));
    let mut other = good.clone();
    other[7] = 3;
    assert_eq!(fault(&other), Error::UnsupportedVersion(3));
    other[7] = 5;
    assert_eq!(fault(&other), Error::UnsupportedVersion(5));
    // Without its end marker.
    let mut open = good.clone();
    let n = open.len();
    open[n - 1] = b'8';
    assert_eq!(fault(&open), Error::Parse(ParseReason::MissingEndMarker));
    assert_eq!(fault(&good[..n - 2]), Error::Parse(ParseReason::MissingEndMarker));
    // Section 1 shorter than its fixed part.
    let mut short = good.clone();
    short[10] = 21;
    assert_eq!(fault(&short), Error::Parse(ParseReason::SectionLength));
    // Section 4 longer than what is left.
    let mut long = good.clone();
    let at = 8 + 22 + 9;
    assert_eq!(&long[at..at + 3], &[0, 0, 5]);
    long[at + 2] = 200;
    assert_eq!(fault(&long), Error::Parse(ParseReason::SectionLength));
    // Section 3 shorter than its fixed part.
    let mut short3 = good.clone();
    short3[8 + 22 + 2] = 6;
    assert_eq!(fault(&short3), Error::Parse(ParseReason::SectionLength));
    // An announced optional section that is not there.
    let mut announced = good.clone();
    announced[8 + 9] = 0x80;
    assert!(matches!(fault(&announced), Error::Parse(_)));
    assert_eq!(fault(&good[..20]), Error::Parse(ParseReason::SectionLength));
}

#[test]
fn descriptors_are_sixteen_bit_words() {
    assert_eq!(parse_descriptors(&[]), Ok(vec![]));
    assert_eq!(parse_descriptors(&[0xFF]), Ok(vec![]));
    assert_eq!(
        parse_descriptors(&[0x00, 0x00, 0x7F, 0x01, 0x88, 0x10, 0xFF, 0xFF, 0x12]),
        Ok(vec![
            FXY::new(0, 0, 0),
            FXY::new(1, 63, 1),
            FXY::new(2, 8, 16),
            FXY::new(3, 63, 255),
        ])
    );
    for d in parse_descriptors(&[0xC1, 0x02]).unwrap() {
        assert_eq!(d.to_u32(), 0xC102);
    }
}

#[test]
fn finds_every_marker() {
    assert_eq!(find_bufr_offsets(b""), Vec::<u64>::new());
    assert_eq!(find_bufr_offsets(b"BUF"), Vec::<u64>::new());
    assert_eq!(find_bufr_offsets(b"BUFR"), vec![0]);
    assert_eq!(find_bufr_offsets(b"xxBUFRBUFRyBUFBUFR"), vec![2, 6, 14]);
    assert_eq!(find_bufr_offsets(b"BBUFRR"), vec![1]);
}

#[test]
fn finds_markers_across_chunks() {
    let input = b"..BUFR....BUFRBUFR..B.U.F.R..BUFR";
    let expected = find_bufr_offsets(input);
    assert_eq!(expected, vec![2, 10, 14, 29]);
    for size in 1..input.len() {
        let mut scanner = MarkerScanner::new();
        for chunk in input.chunks(size) {
            scanner.feed(chunk);
        }
        assert_eq!(scanner.finish(), expected);
    }
    // Chunks of uneven size, some of them empty.
    let mut scanner = MarkerScanner::new();
    scanner.feed(b"..B");
    scanner.feed(b"");
    scanner.feed(b"U");
    scanner.feed(b"FR....BUF");
    scanner.feed(b"RBUFR..B.U.F.R..BUFR");
    assert_eq!(scanner.finish(), expected);
}

#[test]
fn cuts_messages_by_their_declared_length() {
    let first = edition4(&[0x01, 0x01], &[0x0E], None, &[]);
    let second = edition2(&[0x01, 0x01], &[0x1C]);
    let mut input = b"junk".to_vec();
    input.extend_from_slice(&first);
    input.extend_from_slice(b"--");
    input.extend_from_slice(&second);
    let at = 4 + first.len() as u64 + 2;
    assert_eq!(find_bufr_offsets(&input), vec![4, at]);
    assert_eq!(read_message_at_offset(&input, 4), Ok(&first[..]));
    assert_eq!(read_message_at_offset(&input, at), Ok(&second[..]));
    assert_eq!(
        read_message_at_offset(&input[..input.len() - 1], at),
        Err(Error::Parse(ParseReason::Truncated))
    );
    assert_eq!(
        read_message_at_offset(&input, input.len() as u64 - 7),
        Err(Error::Parse(ParseReason::Truncated))
    );
    assert_eq!(
        read_message_at_offset(&input, input.len() as u64 + 1),
        Err(Error::Parse(ParseReason::Truncated))
    );
}

#[test]
fn reads_the_messages_of_an_input() {
    let first = edition4(&[0x01, 0x01], &[0x0E], None, &[]);
    let second = edition2(&[0x01, 0x01], &[0x1C]);
    let mut third = edition4(&[0x01, 0x01], &[0x0E], None, &[]);
    third[7] = 9;
    let mut input = Vec::new();
    input.extend_from_slice(&first);
    input.extend_from_slice(&third);
    input.extend_from_slice(&second);
    input.extend_from_slice(b"BUFR\0\x10\0\x04");
    let file = parse_inner(&input);
    assert_eq!(file.message_count(), 2);
    assert_eq!(file.messages().len(), 2);
    assert_eq!(file.message_at(0).unwrap().message().version(), 4);
    assert_eq!(file.message_at(0).unwrap().offset(), 0);
    assert_eq!(file.message_at(1).unwrap().message().version(), 2);
    assert_eq!(
        file.message_at(1).unwrap().offset(),
        (first.len() + third.len()) as u64
    );
    assert!(file.message_at(2).is_none());
    let rejected = file.rejected();
    assert_eq!(rejected.len(), 2);
    assert_eq!(rejected[0].offset, first.len() as u64);
    assert_eq!(rejected[0].error, Error::UnsupportedVersion(9));
    assert_eq!(rejected[1].offset, (first.len() + third.len() + second.len()) as u64);
    assert_eq!(rejected[1].error, Error::Parse(ParseReason::Truncated));
    let chosen = parse_at_offsets(&input, &vec![(first.len() + third.len()) as u64]);
    assert_eq!(chosen.message_count(), 1);
    assert_eq!(BUFRFile::new().message_count(), 0);
}

#[test]
fn knows_the_magic_number_of_gzip() {
    assert!(is_gzip(&[0x1F, 0x8B]));
    assert!(is_gzip(&[0x1F, 0x8B, 8, 0]));
    assert!(!is_gzip(&[0x1F]));
    assert!(!is_gzip(&[]));
    assert!(!is_gzip(b"BUFR"));
    assert!(!is_gzip(&[0x8B, 0x1F]));
}

#[test]
fn decodes_a_minimal_message() {
    let tables = vec![BTableEntry {
        fxy: FXY::new(0, 1, 1),
        class_name_en: "Identification".to_string(),
        element_name_en: "WMO block number".to_string(),
        bufr_unit: "Numeric".to_string(),
        bufr_scale: 0,
        bufr_reference_value: 0,
        bufr_datawidth_bits: 7,
        note_en: None,
        note_ids: None,
        status: None,
    }];
    let decoder = Decoder::new(
        4,
        BUFRTableB::build(tables).unwrap(),
        BUFRTableD::build(Vec::new()).unwrap(),
        None,
        None,
    );
    let bytes = edition4(&[0x01, 0x01], &[0b0000_1110], None, &[]);
    let file = parse_inner(&bytes);
    assert_eq!(file.message_count(), 1);
    let record = decoder.decode(file.message_at(0).unwrap().message()).unwrap();
    assert_eq!(record.record_count(), 1);
    let entry = &record.records()[0];
    assert_eq!(entry.name, Some("WMO block number"));
    assert_eq!(entry.unit, Some("Numeric"));
    match &entry.values {
        BUFRData::Single(Value::Number(s)) => {
            assert_eq!(*s, Scaled { raw: 7, reference: 0, scale: 0 })
        }
        other => panic!("not a number: {:?}", other),
    }
    let missing = edition4(&[0x01, 0x01], &[0b1111_1110], None, &[]);
    let message = BUFRMessage::parse(&missing).unwrap();
    let record = decoder.decode(&message).unwrap();
    match &record.records()[0].values {
        BUFRData::Single(v) => assert!(v.is_missing()),
        other => panic!("not a single value: {:?}", other),
    }
}

#[test]
fn reads_big_endian_numbers() {
    let bytes = [0x12u8, 0x34, 0x56, 0x78];
    assert_eq!(read_u16(&bytes, 0), 0x1234);
    assert_eq!(read_u16(&bytes, 2), 0x5678);
    assert_eq!(read_u24(&bytes, 0), 0x123456);
    assert_eq!(read_u24(&bytes, 1), 0x345678);
    assert_eq!(skip(&bytes, 3), Ok(&[0x78u8][..]));
    assert_eq!(skip(&bytes, 4), Ok(&[0u8; 0][..]));
    assert_eq!(skip(&bytes, 5), Err(Error::Parse(ParseReason::SectionLength)));
    assert_eq!(skip1(&bytes), Ok(&bytes[1..]));
    assert_eq!(skip2(&bytes), Ok(&bytes[2..]));
    assert_eq!(skip1(&[]), Err(Error::Parse(ParseReason::SectionLength)));
    assert_eq!(skip2(&[1]), Err(Error::Parse(ParseReason::SectionLength)));
}

#[test]
fn a_message_over_a_cyclic_table_is_turned_down() {
    let cyclic = vec![DTableEntry {
        fxy: FXY::new(3, 1, 4),
        fxy_chain: vec![FXY::new(3, 1, 4)],
        category: None,
        category_of_sequences_en: None,
        title_en: None,
        subtitle_en: None,
        note_en: None,
        note_ids: None,
        status: None,
    }];
    let decoder = Decoder::new(
        4,
        BUFRTableB::build(Vec::new()).unwrap(),
        BUFRTableD::build(cyclic).unwrap(),
        None,
        None,
    );
    let bytes = edition4(&[0xC1, 0x04], &[0x0E], None, &[]);
    let message = BUFRMessage::parse(&bytes).unwrap();
    assert!(matches!(
        decoder.decode(&message),
        Err(Error::Parse(ParseReason::ProgramTruncated))
    ));
}

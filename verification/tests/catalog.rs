use rbufr::catalog::{BUFRTableB, BUFRTableD, BUFRTableMPH, CatalogError, Mphf};
use rbufr::fxy::FXY;
use rbufr::header::{check_header, read_vbyte};
use rbufr::tables::{BTableEntry, DTableEntry};

fn element(f: i32, x: i32, y: i32, name: &str, width: u32) -> BTableEntry {
    BTableEntry {
        fxy: FXY::new(f, x, y),
        class_name_en: "class".to_string(),
        element_name_en: name.to_string(),
        bufr_unit: "Numeric".to_string(),
        bufr_scale: 0,
        bufr_reference_value: 0,
        bufr_datawidth_bits: width,
        note_en: None,
        note_ids: None,
        status: None,
    }
}

fn many_elements(n: i32) -> Vec<BTableEntry> {
    let mut entries = Vec::new();
    for i in 0..n {
        entries.push(element(0, i / 256, i % 256, &format!("element {}", i), (i % 64) as u32 + 1));
    }
    entries
}

#[test]
fn every_entry_is_found_under_its_key() {
    let entries = many_elements(700);
    let catalog = BUFRTableB::build(entries.clone()).unwrap();
    assert!(catalog.check());
    for e in &entries {
        let found = catalog.get(&e.fxy).unwrap();
        assert_eq!(found.fxy, e.fxy);
        assert_eq!(found.element_name_en, e.element_name_en);
        assert_eq!(found.bufr_datawidth_bits, e.bufr_datawidth_bits);
    }
}

#[test]
fn foreign_keys_are_not_found() {
    let catalog = BUFRTableB::build(many_elements(300)).unwrap();
    for i in 300..1200 {
        assert!(catalog.get(&FXY::new(0, i / 256, i % 256)).is_none());
    }
    for y in 0..300 {
        assert!(catalog.get(&FXY::new(3, 0, y)).is_none());
        // Whatever the raw lookup returns carries another key.
        if let Some(e) = catalog.lookup(&FXY::new(3, 0, y)) {
            assert_ne!(e.fxy, FXY::new(3, 0, y));
        }
    }
}

#[test]
fn entries_lie_in_hash_order() {
    let entries = many_elements(64);
    let catalog = BUFRTableB::build(entries.clone()).unwrap();
    let all = catalog.get_all_entries();
    assert_eq!(all.len(), 64);
    let mut names: Vec<String> = all.iter().map(|e| e.element_name_en.clone()).collect();
    names.sort();
    let mut expected: Vec<String> = entries.iter().map(|e| e.element_name_en.clone()).collect();
    expected.sort();
    assert_eq!(names, expected);
    // The order is the same for every build from the same entries.
    let again = BUFRTableB::build(entries).unwrap();
    let first: Vec<FXY> = all.iter().map(|e| e.fxy).collect();
    let second: Vec<FXY> = again.get_all_entries().iter().map(|e| e.fxy).collect();
    assert_eq!(first, second);
    for (slot, e) in all.iter().enumerate() {
        assert_eq!(catalog.lookup(&e.fxy).unwrap().fxy, all[slot].fxy);
    }
}

#[test]
fn duplicate_keys_fail_the_build() {
    let mut entries = many_elements(10);
    entries.push(element(0, 0, 3, "again", 9));
    let result = BUFRTableB::build(entries);
    assert!(matches!(result, Err(CatalogError::ConstructionFailed)));
    // The same keys fail every time, and the keys without the double
    // succeed every time.
    for _ in 0..3 {
        let mut entries = many_elements(10);
        entries.push(element(0, 0, 3, "again", 9));
        assert!(matches!(
            BUFRTableB::build(entries),
            Err(CatalogError::ConstructionFailed)
        ));
        assert!(BUFRTableB::build(many_elements(10)).is_ok());
    }
}

#[test]
fn empty_catalog_finds_nothing() {
    let catalog = BUFRTableD::build(Vec::new()).unwrap();
    assert!(catalog.get(&FXY::new(3, 1, 1)).is_none());
    assert_eq!(catalog.get_all_entries().len(), 0);
    assert!(catalog.check());
}

#[test]
fn a_catalog_survives_its_parts() {
    let entries = many_elements(200);
    let catalog = BUFRTableB::build(entries.clone()).unwrap();
    let header = catalog.function_header();
    let stored: Vec<BTableEntry> = catalog
        .get_all_entries()
        .iter()
        .map(|e| (*e).clone())
        .collect();
    let loaded = BUFRTableB::from_parts(&header, stored).unwrap();
    assert!(loaded.check());
    for e in &entries {
        assert_eq!(
            loaded.get(&e.fxy).unwrap().element_name_en,
            e.element_name_en
        );
    }
    assert!(loaded.get(&FXY::new(0, 60, 1)).is_none());
}

#[test]
fn entries_out_of_order_are_not_found_wrongly() {
    let entries = many_elements(50);
    let catalog = BUFRTableB::build(entries.clone()).unwrap();
    let header = catalog.function_header();
    // The entries in source order, not in hash order.
    let loaded = BUFRTableB::from_parts(&header, entries.clone()).unwrap();
    for e in &entries {
        if let Some(found) = loaded.get(&e.fxy) {
            assert_eq!(found.fxy, e.fxy);
        }
    }
}

#[test]
fn truncated_header_is_rejected() {
    let catalog = BUFRTableB::build(many_elements(100)).unwrap();
    let header = catalog.function_header();
    let cut = &header[..header.len() / 2];
    assert!(matches!(
        BUFRTableB::from_parts(cut, Vec::new()),
        Err(CatalogError::BadHeader)
    ));
    assert!(matches!(
        BUFRTableB::from_parts(&[], Vec::new()),
        Err(CatalogError::BadHeader)
    ));
}

#[test]
fn sequences_are_found_with_their_chains() {
    let chain = vec![FXY::new(0, 1, 1), FXY::new(0, 1, 2)];
    let entries = vec![
        DTableEntry {
            fxy: FXY::new(3, 1, 1),
            fxy_chain: chain.clone(),
            category: Some("01".to_string()),
            category_of_sequences_en: None,
            title_en: Some("Identification".to_string()),
            subtitle_en: None,
            note_en: None,
            note_ids: None,
            status: Some("Operational".to_string()),
        },
        DTableEntry {
            fxy: FXY::new(3, 1, 2),
            fxy_chain: vec![FXY::new(3, 1, 1)],
            category: None,
            category_of_sequences_en: None,
            title_en: None,
            subtitle_en: None,
            note_en: None,
            note_ids: None,
            status: None,
        },
    ];
    let catalog: BUFRTableMPH<DTableEntry> = BUFRTableMPH::build(entries).unwrap();
    let found = catalog.get(&FXY::new(3, 1, 1)).unwrap();
    assert_eq!(found.fxy_chain(), &chain[..]);
    assert_eq!(found.title_en(), Some("Identification"));
    assert_eq!(found.category(), Some("01"));
    assert_eq!(found.status(), Some("Operational"));
    assert_eq!(found.note_en(), None);
    assert!(catalog.get(&FXY::new(3, 1, 3)).is_none());
}

#[test]
fn a_function_for_other_keys_does_not_arrange_the_entries() {
    let catalog = BUFRTableB::build(many_elements(40)).unwrap();
    let header = catalog.function_header();
    // The same entries are arranged as before.
    let same = BUFRTableB::arrange(Mphf::read(&header).unwrap(), many_elements(40)).unwrap();
    let first: Vec<FXY> = catalog.get_all_entries().iter().map(|e| e.fxy).collect();
    let second: Vec<FXY> = same.get_all_entries().iter().map(|e| e.fxy).collect();
    assert_eq!(first, second);
    // More entries than the function has slots.
    let more = BUFRTableB::arrange(Mphf::read(&header).unwrap(), many_elements(41));
    assert!(matches!(more, Err(CatalogError::NotPerfect)));
    // Fewer entries: some slot lies outside, unless all keys fall below.
    let mut other = Vec::new();
    for i in 0..40 {
        other.push(element(3, 40, i, "other", 1));
    }
    let third = BUFRTableB::arrange(Mphf::read(&header).unwrap(), other);
    if let Ok(c) = third {
        assert!(c.check());
    }
    assert!(Mphf::read(&header[..1]).is_none());
}

#[test]
fn damaged_headers_do_no_harm() {
    let catalog = BUFRTableB::build(many_elements(120)).unwrap();
    let header = catalog.function_header();
    // Every prefix, and the header with one byte changed at a time.
    for cut in 0..header.len() {
        if let Some(f) = Mphf::read(&header[..cut]) {
            let _ = BUFRTableB::arrange(f, many_elements(3));
        }
    }
    for at in 0..header.len().min(64) {
        for delta in [1u8, 0x80, 0xFF] {
            let mut damaged = header.clone();
            damaged[at] = damaged[at].wrapping_add(delta);
            if let Ok(c) = BUFRTableB::from_parts(&damaged, many_elements(120)) {
                for e in many_elements(130) {
                    if let Some(found) = c.get(&e.fxy) {
                        assert_eq!(found.fxy, e.fxy);
                    }
                }
            }
        }
    }
    for fill in [0u8, 1, 0x7F, 0x80, 0xFF] {
        let _ = Mphf::read(&vec![fill; 64]);
    }
}

#[test]
fn a_header_with_an_empty_level_is_turned_down() {
    // Group size 16, one level of no groups, no words, seed size 4.
    let bytes = [16u8, 1, 0, 4];
    assert!(!check_header(&bytes));
    assert!(Mphf::read(&bytes).is_none());
    assert!(matches!(
        BUFRTableB::from_parts(&bytes, many_elements(3)),
        Err(CatalogError::BadHeader)
    ));
}

#[test]
fn a_header_that_promises_more_than_it_holds_is_turned_down() {
    // A level count near 2^63 in ten bytes.
    let huge = [16u8, 0xFF, 0xFF, 0xFF, 0xFF, 0xFF, 0xFF, 0xFF, 0xFF, 0x7F];
    assert!(!check_header(&huge));
    assert!(Mphf::read(&huge).is_none());
    // One level of 2^40 groups and none of its words.
    let wide = [16u8, 1, 0x80, 0x80, 0x80, 0x80, 0x80, 0x40, 4];
    assert!(!check_header(&wide));
    assert!(Mphf::read(&wide).is_none());
    // Another group size, another seed size, a missing word.
    assert!(!check_header(&[8, 0, 4]));
    assert!(!check_header(&[16, 0, 2]));
    assert!(!check_header(&[16, 0]));
    assert!(!check_header(&[16]));
    assert!(!check_header(&[]));
    let mut one_level = vec![16u8, 1, 4];
    one_level.extend_from_slice(&[0u8; 8]);
    one_level.push(4);
    one_level.extend_from_slice(&[0u8; 8]);
    assert!(check_header(&one_level));
    assert!(!check_header(&one_level[..one_level.len() - 1]));
    // Such a function answers for no key, and no lookup goes astray.
    let catalog = BUFRTableB::from_parts(&one_level, many_elements(4)).unwrap();
    for e in many_elements(300) {
        assert!(catalog.lookup(&e.fxy).is_none());
        assert!(catalog.get(&e.fxy).is_none());
    }
    assert!(!catalog.check());
    // The header of no levels at all.
    assert!(check_header(&[16, 0, 4]));
    let empty = BUFRTableB::from_parts(&[16, 0, 4], Vec::new()).unwrap();
    assert!(empty.get(&FXY::new(0, 1, 1)).is_none());
}

#[test]
fn written_headers_are_consistent() {
    for n in [0, 1, 2, 3, 17, 64, 65, 500, 3000] {
        let catalog = BUFRTableB::build(many_elements(n)).unwrap();
        let header = catalog.function_header();
        assert!(check_header(&header));
        let stored: Vec<BTableEntry> = catalog
            .get_all_entries()
            .iter()
            .map(|e| (*e).clone())
            .collect();
        let loaded = BUFRTableB::from_parts(&header, stored).unwrap();
        assert!(loaded.check());
        for e in many_elements(n + 50) {
            assert_eq!(loaded.get(&e.fxy).is_some(), catalog.get(&e.fxy).is_some());
        }
    }
}

#[test]
fn variable_byte_numbers_are_read() {
    assert_eq!(read_vbyte(&[0], 0), Some((0, 1)));
    assert_eq!(read_vbyte(&[9, 0x7F], 1), Some((127, 2)));
    assert_eq!(read_vbyte(&[0x80, 0x01], 0), Some((128, 2)));
    assert_eq!(read_vbyte(&[0xAC, 0x02], 0), Some((300, 2)));
    assert_eq!(read_vbyte(&[0x80], 0), None);
    assert_eq!(read_vbyte(&[], 0), None);
    assert_eq!(read_vbyte(&[1], 5), None);
    assert_eq!(read_vbyte(&[0xFF; 9], 0), Some((u64::MAX, 9)));
    assert_eq!(read_vbyte(&[0xFF; 8], 0), None);
    assert_eq!(
        read_vbyte(&[0x80, 0x80, 0x80, 0x80, 0x80, 0x80, 0x80, 0x80, 0x01], 0),
        Some((1 << 56, 9))
    );
    assert_eq!(
        read_vbyte(&[0x80, 0x80, 0x80, 0x80, 0x80, 0x80, 0x80, 0x40], 0),
        Some((1 << 55, 8))
    );
}

use rbufr::config::{ConfigurablePattern, FieldMapping, PatternConfig};
use rbufr::pattern::{
    CustomPattern, LocalPattern, TableFilePattern, TableKind, TableMetadata, TableScanner,
    WMOPattern,
};

#[test]
fn test_wmo_pattern() {
    let pattern = WMOPattern::new();

    // Valid WMO patterns
    let meta = pattern.matches("BUFRCREX_TableB_en_35.csv").unwrap();
    assert_eq!(meta.kind, TableKind::B);
    assert_eq!(meta.version, Some(35));
    assert_eq!(meta.language, Some("en".to_string()));
    assert!(!meta.is_local);

    let meta = pattern.matches("BUFR_TableD_en_40.csv").unwrap();
    assert_eq!(meta.kind, TableKind::D);
    assert_eq!(meta.version, Some(40));
    assert!(!meta.is_local);

    // Invalid patterns
    assert!(pattern.matches("BUFRCREX_TableB_35.csv").is_none());
    assert!(pattern.matches("TableB_en_35.csv").is_none());
}

#[test]
fn test_local_pattern() {
    let pattern = LocalPattern::new();

    // Valid local patterns
    let meta = pattern.matches("localtabb_85_20.csv").unwrap();
    assert_eq!(meta.kind, TableKind::B);
    assert_eq!(meta.subcenter, Some(85));
    assert_eq!(meta.version, Some(20));
    assert!(meta.is_local);

    let meta = pattern.matches("localtabd_100_5.csv").unwrap();
    assert_eq!(meta.kind, TableKind::D);
    assert_eq!(meta.subcenter, Some(100));
    assert_eq!(meta.version, Some(5));
    assert!(meta.is_local);

    // Invalid patterns
    assert!(pattern.matches("local_table_85_20.csv").is_none());
    assert!(pattern.matches("localtabb_85.csv").is_none());
}

#[test]
fn test_custom_pattern() {
    let pattern = CustomPattern::new();

    // Valid custom patterns
    let meta = pattern.matches("test_c7_sc85_tableb_v20.csv").unwrap();
    assert_eq!(meta.kind, TableKind::B);
    assert_eq!(meta.center, Some(7));
    assert_eq!(meta.subcenter, Some(85));
    assert_eq!(meta.version, Some(20));
    assert!(meta.is_local);

    let meta = pattern
        .matches("data_center_7_scenter_85_tabled_10.csv")
        .unwrap();
    assert_eq!(meta.kind, TableKind::D);
    assert_eq!(meta.center, Some(7));
    assert_eq!(meta.subcenter, Some(85));
    assert_eq!(meta.version, Some(10));
}

#[test]
fn test_output_name_generation() {
    // WMO table (no subcenter) - Format: BUFR_TableB_{version}
    let meta = TableMetadata {
        kind: TableKind::B,
        version: Some(14),
        subcenter: None,
        center: None,
        language: Some("en".to_string()),
        is_local: false,
        filename: "BUFRCREX_TableB_en_14.csv".to_string(),
    };
    assert_eq!(meta.output_name(), "BUFR_TableB_14");

    // WMO Table D
    let meta = TableMetadata {
        kind: TableKind::D,
        version: Some(40),
        subcenter: None,
        center: None,
        language: Some("en".to_string()),
        is_local: false,
        filename: "BUFR_TableD_en_40.csv".to_string(),
    };
    assert_eq!(meta.output_name(), "BUFR_TableD_40");

    // Local table with subcenter - Format: BUFR_TableB_{subcenter}_{version}
    let meta = TableMetadata {
        kind: TableKind::B,
        version: Some(14),
        subcenter: Some(1),
        center: None,
        language: None,
        is_local: true,
        filename: "localtabb_1_14.csv".to_string(),
    };
    assert_eq!(meta.output_name(), "BUFR_TableB_1_14");

    // Local table with larger subcenter number
    let meta = TableMetadata {
        kind: TableKind::B,
        version: Some(20),
        subcenter: Some(85),
        center: None,
        language: None,
        is_local: true,
        filename: "localtabb_85_20.csv".to_string(),
    };
    assert_eq!(meta.output_name(), "BUFR_TableB_85_20");
}

#[test]
fn test_scanner() {
    let scanner = TableScanner::new();

    // Should match WMO pattern
    let meta = scanner.match_filename("BUFRCREX_TableB_en_35.csv").unwrap();
    assert_eq!(meta.kind, TableKind::B);
    assert!(!meta.is_local);

    // Should match local pattern
    let meta = scanner.match_filename("localtabb_85_20.csv").unwrap();
    assert_eq!(meta.kind, TableKind::B);
    assert!(meta.is_local);

    // Should match custom pattern
    let meta = scanner
        .match_filename("test_c7_sc85_tableb_v20.csv")
        .unwrap();
    assert_eq!(meta.kind, TableKind::B);
    assert!(meta.is_local);
}

#[test]
fn test_configurable_pattern() {
    let config = PatternConfig {
        name: "Test pattern".to_string(),
        regex: r"^test_table([bd])_v(\d+)\.csv$".to_string(),
        glob: "test_table*.csv".to_string(),
        mapping: FieldMapping {
            kind_group: 1,
            version_group: Some(2),
            subcenter_group: None,
            center_group: None,
            language_group: None,
            is_local: true,
        },
    };

    let pattern = ConfigurablePattern::from_config(&config).unwrap();

    let meta = pattern.matches("test_tableb_v20.csv").unwrap();
    assert_eq!(meta.kind, TableKind::B);
    assert_eq!(meta.version, Some(20));
    assert!(meta.is_local);

    let meta = pattern.matches("test_tabled_v15.csv").unwrap();
    assert_eq!(meta.kind, TableKind::D);
    assert_eq!(meta.version, Some(15));
}

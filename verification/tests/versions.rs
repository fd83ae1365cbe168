use std::cmp::Ordering;
use wow_dbd::{
    compare_versions, load_file_from_string, Layout, RawDbdFile, RawDefinition, Version,
    VersionRange,
};

#[test]
fn versions_are_ordered_part_by_part() {
    assert!(Version::new(3, 3, 5, 12340) > Version::new(2, 4, 3, 8606));
    assert!(Version::new(2, 4, 3, 8606) < Version::new(3, 3, 5, 12340));
    assert!(Version::new(1, 255, 255, 65535) < Version::new(2, 0, 0, 0));
    assert!(Version::new(1, 1, 255, 65535) < Version::new(1, 2, 0, 0));
    assert!(Version::new(1, 1, 1, 65535) < Version::new(1, 1, 2, 0));
    assert!(Version::new(1, 1, 1, 1) < Version::new(1, 1, 1, 2));
    assert!(Version::new(1, 1, 1, 1) <= Version::new(1, 1, 1, 1));
    assert!(Version::new(1, 1, 1, 1) >= Version::new(1, 1, 1, 1));
    assert!(!(Version::new(1, 1, 1, 1) < Version::new(1, 1, 1, 1)));
    assert_eq!(
        Version::new(0, 0, 1, 0).partial_cmp(&Version::new(0, 0, 0, 9)),
        Some(Ordering::Greater)
    );
    assert_eq!(
        Version::new(0, 0, 0, 9).partial_cmp(&Version::new(0, 0, 1, 0)),
        Some(Ordering::Less)
    );
    assert_eq!(
        Version::new(4, 3, 2, 1).partial_cmp(&Version::new(4, 3, 2, 1)),
        Some(Ordering::Equal)
    );
    assert_eq!(Version::new(0, 0, 1, 0).cmp(&Version::new(0, 0, 0, 9)), Ordering::Greater);
    assert!(Version::new(1, 2, 3, 4).is_before(&Version::new(1, 2, 3, 5)));
    assert!(!Version::new(1, 2, 3, 5).is_before(&Version::new(1, 2, 3, 5)));
    assert_eq!(Version::default(), Version::new(0, 0, 0, 0));
    let v = Version::new(1, 2, 3, 4);
    assert_eq!((v.major, v.minor, v.patch, v.build), (1, 2, 3, 4));
}

#[test]
fn a_range_holds_both_its_ends() {
    let range = VersionRange::new(Version::new(1, 0, 0, 0), Version::new(2, 0, 0, 0));
    assert!(range.within_range(&Version::new(1, 0, 0, 0)));
    assert!(range.within_range(&Version::new(2, 0, 0, 0)));
    assert!(range.within_range(&Version::new(1, 12, 1, 5875)));
    assert!(!range.within_range(&Version::new(2, 0, 0, 1)));
    assert!(!range.within_range(&Version::new(0, 255, 255, 65535)));
    assert_eq!(range.from, Version::new(1, 0, 0, 0));
    assert_eq!(range.to, Version::new(2, 0, 0, 0));
    assert_eq!(
        VersionRange::default(),
        VersionRange::new(Version::new(0, 0, 0, 0), Version::new(0, 0, 0, 0))
    );
}

#[test]
fn a_range_the_wrong_way_round_holds_nothing() {
    let range = VersionRange::new(Version::new(2, 0, 0, 0), Version::new(1, 0, 0, 0));
    assert!(!range.within_range(&Version::new(1, 0, 0, 0)));
    assert!(!range.within_range(&Version::new(1, 5, 0, 0)));
    assert!(!range.within_range(&Version::new(2, 0, 0, 0)));
}

#[test]
fn a_definition_holds_for_its_ranges_and_its_versions() {
    let ranges = vec![
        VersionRange::new(Version::new(1, 0, 0, 0), Version::new(1, 9, 0, 0)),
        VersionRange::new(Version::new(3, 0, 0, 0), Version::new(3, 9, 0, 0)),
    ];
    let versions = vec![Version::new(2, 0, 0, 1), Version::new(5, 0, 0, 1)];
    assert!(compare_versions(&Version::new(1, 5, 0, 0), &ranges, &versions));
    assert!(compare_versions(&Version::new(3, 9, 0, 0), &ranges, &versions));
    assert!(compare_versions(&Version::new(2, 0, 0, 1), &ranges, &versions));
    assert!(compare_versions(&Version::new(5, 0, 0, 1), &ranges, &versions));
    assert!(!compare_versions(&Version::new(2, 0, 0, 2), &ranges, &versions));
    assert!(!compare_versions(&Version::new(4, 0, 0, 0), &ranges, &versions));
    assert!(!compare_versions(&Version::new(4, 0, 0, 0), &vec![], &vec![]));
}

#[test]
fn a_version_is_looked_up_by_range_and_by_itself() {
    let text = "COLUMNS\nint ID\n\nBUILD 0.6.0.3592\nBUILD 0.5.3.3368-0.5.3.3494\n$id$ID<32>\n";
    let raw = load_file_from_string(text, "Test.dbd").unwrap();
    assert_eq!(raw.definitions.len(), 1);
    assert_eq!(raw.definitions[0].versions, vec![Version::new(0, 6, 0, 3592)]);
    assert_eq!(
        raw.definitions[0].version_ranges,
        vec![VersionRange::new(
            Version::new(0, 5, 3, 3368),
            Version::new(0, 5, 3, 3494)
        )]
    );
    assert_eq!(
        raw.specific_version(&Version::new(0, 5, 3, 3400)),
        Some(&raw.definitions[0])
    );
    assert_eq!(
        raw.specific_version(&Version::new(0, 6, 0, 3592)),
        Some(&raw.definitions[0])
    );
    assert_eq!(raw.specific_version(&Version::new(1, 0, 0, 0)), None);

    let resolved = load_file_from_string(text, "Test.dbd").unwrap().into_proper().unwrap();
    assert_eq!(
        resolved.specific_version(&Version::new(0, 5, 3, 3400)),
        Some(&resolved.definitions[0])
    );
    assert_eq!(
        resolved.specific_version(&Version::new(0, 6, 0, 3592)),
        Some(&resolved.definitions[0])
    );
    assert_eq!(resolved.specific_version(&Version::new(1, 0, 0, 0)), None);
}

#[test]
fn a_range_counts_before_a_version() {
    let v = Version::new(1, 5, 0, 0);
    let mut file = RawDbdFile::empty("Test.dbd".to_string());
    file.add_database(RawDefinition::new(vec![v], vec![], vec![], vec![]));
    file.add_database(RawDefinition::new(
        vec![],
        vec![VersionRange::new(Version::new(1, 0, 0, 0), Version::new(2, 0, 0, 0))],
        vec![],
        vec![],
    ));
    assert_eq!(file.specific_version(&v), Some(&file.definitions[1]));
    assert!(std::ptr::eq(
        file.specific_version(&v).unwrap(),
        &file.definitions[1]
    ));
    let resolved = file.into_proper().unwrap();
    assert!(std::ptr::eq(
        resolved.specific_version(&v).unwrap(),
        &resolved.definitions[1]
    ));
}

#[test]
fn the_first_definition_with_a_range_is_found() {
    let text = "COLUMNS\nint ID\n\nBUILD 1.0.0.5\nID<8>\n\nBUILD 1.0.0.0-1.0.0.9\nID<16>\n\nBUILD 1.0.0.5, 1.0.0.7\nBUILD 1.0.0.4-1.0.0.6\nID<32>\n";
    let raw = load_file_from_string(text, "Test.dbd").unwrap();
    let found = raw.specific_version(&Version::new(1, 0, 0, 5)).unwrap();
    assert_eq!(found.entries[0].integer_width, Some(16));
    let found = raw.specific_version(&Version::new(1, 0, 0, 7)).unwrap();
    assert_eq!(found.entries[0].integer_width, Some(16));
    let resolved = raw.into_proper().unwrap();
    let found = resolved.specific_version(&Version::new(1, 0, 0, 5)).unwrap();
    assert!(std::ptr::eq(found, &resolved.definitions[1]));
    let found = resolved.specific_version(&Version::new(1, 0, 0, 9)).unwrap();
    assert!(std::ptr::eq(found, &resolved.definitions[1]));
    assert_eq!(resolved.specific_version(&Version::new(1, 0, 1, 0)), None);
}

#[test]
fn without_a_range_the_first_listed_version_is_found() {
    let text = "COLUMNS\nint ID\n\nBUILD 3.0.0.1\nID<8>\n\nBUILD 3.0.0.1, 3.0.0.2\nBUILD 1.0.0.0-2.0.0.0\nID<16>\n\nBUILD 3.0.0.2\nID<32>\n";
    let raw = load_file_from_string(text, "Test.dbd").unwrap();
    let found = raw.specific_version(&Version::new(3, 0, 0, 1)).unwrap();
    assert_eq!(found.entries[0].integer_width, Some(8));
    let found = raw.specific_version(&Version::new(3, 0, 0, 2)).unwrap();
    assert_eq!(found.entries[0].integer_width, Some(16));
    let found = raw.specific_version(&Version::new(1, 5, 0, 0)).unwrap();
    assert_eq!(found.entries[0].integer_width, Some(16));
    assert_eq!(raw.specific_version(&Version::new(3, 0, 0, 3)), None);
    let resolved = raw.into_proper().unwrap();
    let found = resolved.specific_version(&Version::new(3, 0, 0, 1)).unwrap();
    assert!(std::ptr::eq(found, &resolved.definitions[0]));
    let found = resolved.specific_version(&Version::new(3, 0, 0, 2)).unwrap();
    assert!(std::ptr::eq(found, &resolved.definitions[1]));
    assert_eq!(resolved.specific_version(&Version::new(2, 0, 0, 1)), None);
}

#[test]
fn a_document_without_definitions_holds_for_no_version() {
    let file = RawDbdFile::empty("Test.dbd".to_string());
    assert_eq!(file.specific_version(&Version::new(1, 0, 0, 0)), None);
}

#[test]
fn versions_and_layouts_are_kept_as_sets() {
    let d = RawDefinition::new(
        vec![
            Version::new(1, 0, 0, 2),
            Version::new(0, 9, 0, 0),
            Version::new(1, 0, 0, 2),
            Version::new(1, 0, 0, 1),
        ],
        vec![],
        vec![Layout::new(7), Layout::new(7), Layout::new(2), Layout::new(0xffff_ffff)],
        vec![],
    );
    assert_eq!(
        d.versions,
        vec![
            Version::new(0, 9, 0, 0),
            Version::new(1, 0, 0, 1),
            Version::new(1, 0, 0, 2)
        ]
    );
    assert_eq!(
        d.layouts,
        vec![Layout::new(2), Layout::new(7), Layout::new(0xffff_ffff)]
    );
    assert_eq!(Layout::default(), Layout::new(0));
    assert_eq!(RawDefinition::default(), RawDefinition::new(vec![], vec![], vec![], vec![]));
    assert_eq!(d.clone(), d);
}

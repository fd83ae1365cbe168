use wow_dbd::{
    load_file_from_string, ConversionError, Definition, Entry, ForeignKey, Layout, RawColumn,
    RawDbdFile, RawDefinition, RawEntry, RawType, Type, Version, VersionRange,
};

fn column(name: &str, ty: RawType, key: bool) -> RawColumn {
    let foreign_key = if key {
        Some(ForeignKey::new("Map".to_string(), "ID".to_string()))
    } else {
        None
    };
    RawColumn::new(name.to_string(), ty, foreign_key, true, None)
}

fn entry(name: &str, width: Option<u8>, array: Option<usize>, unsigned: bool) -> RawEntry {
    RawEntry::new(name.to_string(), None, width, array, unsigned, false, true, false)
}

fn resolve_one(c: RawColumn, e: RawEntry) -> Result<Type, ConversionError> {
    let d = RawDefinition::new(vec![], vec![], vec![], vec![e]);
    d.to_definition(&vec![c]).map(|d| d.entries[0].ty.clone())
}

fn key() -> ForeignKey {
    ForeignKey::new("Map".to_string(), "ID".to_string())
}

#[test]
fn the_four_widths_resolve() {
    let cases = [
        (8, false, Type::Int8),
        (16, false, Type::Int16),
        (32, false, Type::Int32),
        (64, false, Type::Int64),
        (8, true, Type::UInt8),
        (16, true, Type::UInt16),
        (32, true, Type::UInt32),
        (64, true, Type::UInt64),
    ];
    for (width, unsigned, ty) in cases {
        let got = resolve_one(column("A", RawType::Int, false), entry("A", Some(width), None, unsigned));
        assert_eq!(got, Ok(ty));
    }
}

#[test]
fn other_widths_are_refused() {
    for width in [0u8, 1, 7, 9, 24, 31, 33, 63, 65, 128, 255] {
        for unsigned in [false, true] {
            let got = resolve_one(
                column("A", RawType::Int, false),
                entry("A", Some(width), None, unsigned),
            );
            assert_eq!(got, Err(ConversionError::InvalidIntegerWidth(width as usize)));
        }
    }
    let got = resolve_one(column("A", RawType::Int, true), entry("A", Some(24), Some(2), false));
    assert_eq!(got, Err(ConversionError::InvalidIntegerWidth(24)));
}

#[test]
fn an_integer_needs_a_width() {
    let got = resolve_one(column("A", RawType::Int, false), entry("A", None, None, false));
    assert_eq!(got, Err(ConversionError::NoIntegerWidth));
    let got = resolve_one(column("A", RawType::Int, true), entry("A", None, Some(3), true));
    assert_eq!(got, Err(ConversionError::NoIntegerWidth));
}

#[test]
fn other_kinds_need_no_width_and_pass_over_one() {
    for (kind, ty) in [
        (RawType::Float, Type::Float),
        (RawType::LocString, Type::LocString),
        (RawType::String, Type::String),
    ] {
        assert_eq!(
            resolve_one(column("A", kind, false), entry("A", None, None, false)),
            Ok(ty.clone())
        );
        assert_eq!(
            resolve_one(column("A", kind, false), entry("A", Some(24), None, true)),
            Ok(ty.clone())
        );
        assert_eq!(
            resolve_one(column("A", kind, false), entry("A", None, Some(4), false)),
            Ok(Type::Array { ty: Box::new(ty), width: 4 })
        );
    }
}

#[test]
fn only_integers_refer_to_other_tables() {
    assert_eq!(
        resolve_one(column("A", RawType::Float, true), entry("A", None, None, false)),
        Err(ConversionError::FloatAsForeignKey)
    );
    assert_eq!(
        resolve_one(column("A", RawType::LocString, true), entry("A", None, None, false)),
        Err(ConversionError::LocStringAsForeignKey)
    );
    assert_eq!(
        resolve_one(column("A", RawType::String, true), entry("A", None, Some(2), false)),
        Err(ConversionError::StringAsForeignKey)
    );
    for (width, unsigned, ty) in [
        (8, false, Type::Int8),
        (16, true, Type::UInt16),
        (32, false, Type::Int32),
        (64, true, Type::UInt64),
    ] {
        let keyed = Type::ForeignKey { ty: Box::new(ty), key: key() };
        assert_eq!(
            resolve_one(column("A", RawType::Int, true), entry("A", Some(width), None, unsigned)),
            Ok(keyed.clone())
        );
        assert_eq!(
            resolve_one(
                column("A", RawType::Int, true),
                entry("A", Some(width), Some(5), unsigned)
            ),
            Ok(Type::Array { ty: Box::new(keyed), width: 5 })
        );
    }
}

#[test]
fn an_entry_needs_its_column() {
    let got = resolve_one(column("A", RawType::Int, false), entry("B", Some(32), None, false));
    assert_eq!(got, Err(ConversionError::ColumnNotFound("B".to_string())));
    let d = RawDefinition::new(vec![], vec![], vec![], vec![entry("A", Some(32), None, false)]);
    assert_eq!(
        d.to_definition(&vec![]),
        Err(ConversionError::ColumnNotFound("A".to_string()))
    );
}

#[test]
fn an_entry_takes_over_what_its_column_says() {
    let c = RawColumn::new(
        "A".to_string(),
        RawType::Int,
        None,
        false,
        Some("of the column".to_string()),
    );
    let e = RawEntry::new(
        "A".to_string(),
        Some("of the entry".to_string()),
        Some(16),
        None,
        true,
        true,
        false,
        true,
    );
    let versions = vec![Version::new(2, 0, 0, 1), Version::new(1, 0, 0, 1), Version::new(2, 0, 0, 1)];
    let ranges = vec![VersionRange::new(Version::new(3, 0, 0, 0), Version::new(3, 9, 9, 9))];
    let layouts = vec![Layout::new(9), Layout::new(3), Layout::new(9)];
    let d = RawDefinition::new(versions, ranges.clone(), layouts, vec![e]);
    assert_eq!(d.versions, vec![Version::new(1, 0, 0, 1), Version::new(2, 0, 0, 1)]);
    assert_eq!(d.layouts, vec![Layout::new(3), Layout::new(9)]);
    let resolved = d.to_definition(&vec![c]).unwrap();
    assert_eq!(
        resolved,
        Definition {
            versions: vec![Version::new(1, 0, 0, 1), Version::new(2, 0, 0, 1)],
            version_ranges: ranges,
            layouts: vec![Layout::new(3), Layout::new(9)],
            entries: vec![Entry {
                name: "A".to_string(),
                ty: Type::UInt16,
                comment: Some("of the entry".to_string()),
                column_comment: Some("of the column".to_string()),
                verified: false,
                primary_key: true,
                inline: false,
                relation: true,
            }],
        }
    );
}

#[test]
fn the_first_entry_that_fails_gives_the_error() {
    let columns = vec![column("A", RawType::Int, false), column("F", RawType::Float, true)];
    let d = RawDefinition::new(
        vec![],
        vec![],
        vec![],
        vec![
            entry("A", Some(32), None, false),
            entry("A", Some(24), None, false),
            entry("F", None, None, false),
            entry("Missing", None, None, false),
        ],
    );
    assert_eq!(
        d.to_definition(&columns),
        Err(ConversionError::InvalidIntegerWidth(24))
    );
}

#[test]
fn a_document_resolves_as_a_whole_or_not_at_all() {
    let mut file = RawDbdFile::empty("Test.dbd".to_string());
    file.add_column(column("A", RawType::Int, false));
    file.add_column(column("F", RawType::Float, true));
    file.add_database(RawDefinition::new(
        vec![Version::new(1, 0, 0, 1)],
        vec![],
        vec![],
        vec![entry("A", Some(32), None, false)],
    ));
    file.add_database(RawDefinition::new(
        vec![Version::new(2, 0, 0, 1)],
        vec![],
        vec![],
        vec![entry("F", None, None, false), entry("A", None, None, false)],
    ));
    file.add_database(RawDefinition::new(
        vec![],
        vec![],
        vec![],
        vec![entry("Missing", None, None, false)],
    ));
    assert_eq!(file.into_proper(), Err(ConversionError::FloatAsForeignKey));
}

#[test]
fn a_document_resolves_to_its_definitions_without_its_columns() {
    let text = "COLUMNS\nint ID\nint<Map::ID> Parent\nfloat X // along the axis\nstring Unused\n\nBUILD 1.0.0.1\n$id$ID<32>\nParent<u8>[2] // up\nX\n\nBUILD 2.0.0.1\nX[3]\n";
    let file = load_file_from_string(text, "Test.dbd").unwrap().into_proper().unwrap();
    assert_eq!(file.name, "Test.dbd");
    assert_eq!(file.definitions.len(), 2);
    let first = &file.definitions[0].entries;
    assert_eq!(first[0].ty, Type::Int32);
    assert!(first[0].primary_key);
    assert_eq!(
        first[1].ty,
        Type::Array {
            ty: Box::new(Type::ForeignKey {
                ty: Box::new(Type::UInt8),
                key: key()
            }),
            width: 2
        }
    );
    assert_eq!(first[1].comment, Some("up".to_string()));
    assert_eq!(first[1].column_comment, None);
    assert_eq!(first[2].ty, Type::Float);
    assert_eq!(first[2].column_comment, Some("along the axis".to_string()));
    assert_eq!(
        file.definitions[1].entries[0].ty,
        Type::Array { ty: Box::new(Type::Float), width: 3 }
    );
}

#[test]
fn columns_are_found_by_name_and_declared_once() {
    let mut file = RawDbdFile::empty("Test.dbd".to_string());
    assert_eq!(file.find_column(&entry("A", None, None, false)), None);
    file.add_column(column("A", RawType::Int, false));
    file.add_column(column("B", RawType::Float, false));
    file.add_column(column("A", RawType::String, true));
    assert_eq!(file.columns.len(), 2);
    assert_eq!(
        file.find_column(&entry("A", None, None, false)),
        Some(&column("A", RawType::String, true))
    );
    assert_eq!(
        file.find_column(&entry("B", None, None, false)),
        Some(&column("B", RawType::Float, false))
    );
    assert_eq!(file.find_column(&entry("a", None, None, false)), None);
}

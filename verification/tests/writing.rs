use wow_dbd::{
    load_file_from_string, write_to_file, ConversionError, DbdErrorReason, DbdFile, Definition,
    Entry, ForeignKey, Layout, ParseError, RawColumn, RawDbdFile, RawDefinition, RawEntry,
    RawType, Type, Version, VersionRange,
};

const SMALL: &str = "COLUMNS\nint ID\nint<Map::ID> ParentMapID\nstring Directory // reference to a folder\nlocstring Name_lang?\nfloat Scale\nint Unused\n\nLAYOUT 5cd4bfd7, 0000000A\nBUILD 1.0.0.1-1.12.3.6141, 0.6.0.3592\nBUILD 0.5.3.3368\n$id$ID<32>\nParentMapID<u16>[2]\n$noninline,relation$Directory // where it lies\nName_lang\nScale[3]\n\nBUILD 2.0.0.1\n$id,noninline,relation$ID<u64>\nScale\n";

fn resolved(text: &str) -> DbdFile {
    load_file_from_string(text, "Test.dbd").unwrap().into_proper().unwrap()
}

fn comes_back(text: &str) {
    let first = resolved(text);
    let written = write_to_file(&first);
    assert_eq!(resolved(&written), first);
    let raw = load_file_from_string(text, "Test.dbd").unwrap();
    let written = write_to_file(&raw);
    assert_eq!(load_file_from_string(&written, "Test.dbd").unwrap(), raw);
}

#[test]
fn a_document_as_read_is_written_in_full() {
    let raw = load_file_from_string(SMALL, "Small.dbd").unwrap();
    assert_eq!(
        write_to_file(&raw),
        "COLUMNS\nint ID\nint ParentMapID<Map::ID>\nstring Directory // reference to a folder\nlocstring Name_lang?\nfloat Scale\nint Unused\n\nLAYOUT 0000000A, 5CD4BFD7\nBUILD 1.0.0.1-1.12.3.6141, 0.5.3.3368, 0.6.0.3592\n$id$ID<32>\nParentMapID<u16>[2]\n$noninline,relation$Directory // where it lies\nName_lang\nScale[3]\n\nBUILD 2.0.0.1\n$id,noninline,relation$ID<u64>\nScale\n\n"
    );
}

#[test]
fn a_resolved_document_is_written_with_the_columns_it_uses() {
    let file = resolved(SMALL);
    assert_eq!(
        write_to_file(&file),
        "COLUMNS\nint ID\nint ParentMapID<Map::ID>\nstring Directory // reference to a folder\nlocstring Name_lang?\nfloat Scale\n\nLAYOUT 0000000A, 5CD4BFD7\nBUILD 1.0.0.1-1.12.3.6141, 0.5.3.3368, 0.6.0.3592\n$id$ID<32>\nParentMapID<u16>[2]\n$noninline,relation$Directory // where it lies\nName_lang\nScale[3]\n\nBUILD 2.0.0.1\n$id,noninline,relation$ID<u64>\nScale\n\n"
    );
}

#[test]
fn documents_can_be_copied() {
    let raw = load_file_from_string(SMALL, "Small.dbd").unwrap();
    assert_eq!(raw.clone(), raw);
    let file = raw.into_proper().unwrap();
    assert_eq!(file.clone(), file);
}

#[test]
fn an_empty_document_is_written_as_its_header() {
    let raw = RawDbdFile::empty("Empty.dbd".to_string());
    assert_eq!(write_to_file(&raw), "COLUMNS\n\n");
    let file = DbdFile { name: "Empty.dbd".to_string(), definitions: vec![] };
    assert_eq!(write_to_file(&file), "COLUMNS\n\n");
    assert_eq!(file.to_raw(), raw);
}

#[test]
fn a_resolved_document_stands_for_one_as_read() {
    let file = DbdFile {
        name: "Test.dbd".to_string(),
        definitions: vec![Definition {
            versions: vec![Version::new(1, 2, 3, 4)],
            version_ranges: vec![],
            layouts: vec![Layout::new(255)],
            entries: vec![
                Entry {
                    name: "A".to_string(),
                    ty: Type::Array {
                        ty: Box::new(Type::ForeignKey {
                            ty: Box::new(Type::UInt32),
                            key: ForeignKey::new("T".to_string(), "C".to_string()),
                        }),
                        width: 4,
                    },
                    comment: Some("entry".to_string()),
                    column_comment: Some("column".to_string()),
                    verified: false,
                    primary_key: false,
                    inline: true,
                    relation: true,
                },
                Entry {
                    name: "B".to_string(),
                    ty: Type::LocString,
                    comment: None,
                    column_comment: None,
                    verified: true,
                    primary_key: false,
                    inline: true,
                    relation: false,
                },
            ],
        }],
    };
    let raw = file.to_raw();
    assert_eq!(
        raw.columns,
        vec![
            RawColumn::new(
                "A".to_string(),
                RawType::Int,
                Some(ForeignKey::new("T".to_string(), "C".to_string())),
                false,
                Some("column".to_string())
            ),
            RawColumn::new("B".to_string(), RawType::LocString, None, true, None),
        ]
    );
    assert_eq!(
        raw.definitions,
        vec![RawDefinition::new(
            vec![Version::new(1, 2, 3, 4)],
            vec![],
            vec![Layout::new(255)],
            vec![
                RawEntry::new(
                    "A".to_string(),
                    Some("entry".to_string()),
                    Some(32),
                    Some(4),
                    true,
                    false,
                    true,
                    true
                ),
                RawEntry::new("B".to_string(), None, None, None, false, false, true, false),
            ]
        )]
    );
    assert_eq!(
        write_to_file(&file),
        "COLUMNS\nint A<T::C>? // column\nlocstring B\n\nLAYOUT 000000FF\nBUILD 1.2.3.4\n$relation$A<u32>[4] // entry\nB\n\n"
    );
    assert_eq!(raw.into_proper(), Ok(file));
}

#[test]
fn what_is_written_reads_as_what_was_written() {
    comes_back(SMALL);
    comes_back("");
    comes_back("COLUMNS\n");
    comes_back("COLUMNS\nint ID\n");
    comes_back("COLUMNS\nint ID\n\nID<8>\n");
    comes_back("COLUMNS\nint ID\n\nLAYOUT 1\nID<8>\n\nLAYOUT 2\n\nBUILD 1.0.0.1 - 1.0.0.2\n");
    comes_back("COLUMNS\r\nint   ID   //  spaced  \r\nfloat\tX?//tight\r\n\r\n  BUILD 1.0.0.1 ,1.0.0.0\r\n $ id , relation $ ID <u8> [ // odd\r\nX[2] trailing\r\n");
}

#[test]
fn names_that_look_like_something_else_come_back() {
    let text = "COLUMNS\nfloat ?\nfloat BUILD\nstring LAYOUT\nlocstring COMMENT\nfloat $x\nfloat a b\nint<a:b::c::d> k<:::>\n\nBUILD 1.0.0.1\n<32>\nBUILD<32>\nLAYOUT[2]\nCOMMENT<8>\n$$$x\na b\n$id$k<u8>\n";
    let raw = load_file_from_string(text, "Test.dbd").unwrap();
    let names: Vec<&str> = raw.definitions[0].entries.iter().map(|e| e.name.as_str()).collect();
    assert_eq!(names, vec!["", "BUILD", "LAYOUT", "COMMENT", "$x", "a b", "k"]);
    let file = resolved(text);
    assert_eq!(
        write_to_file(&file),
        "COLUMNS\nfloat ?\nfloat BUILD\nstring LAYOUT\nlocstring COMMENT\nfloat $x\nfloat a b\nint k<:::>\n\nBUILD 1.0.0.1\n$$\n$$BUILD\n$$LAYOUT[2]\n$$COMMENT\n$$$x\na b\n$id$k<u8>\n\n"
    );
    comes_back(text);
}

#[test]
fn text_beyond_ascii_comes_back() {
    comes_back("COLUMNS\nint Größe<Maß::Länge> // die Länge — in Metern\n\nBUILD 1.0.0.1\n$id$Größe<32> // größer\n");
}

#[test]
fn values_have_a_text() {
    assert_eq!(RawType::Int.to_string(), "int");
    assert_eq!(RawType::Float.to_string(), "float");
    assert_eq!(RawType::LocString.to_string(), "locstring");
    assert_eq!(RawType::String.to_string(), "string");
    assert_eq!(
        ForeignKey::new("Map".to_string(), "ID".to_string()).to_string(),
        "<Map::ID>"
    );
    assert_eq!(Version::new(3, 3, 5, 12340).to_string(), "3.3.5.12340");
    assert_eq!(Version::new(0, 0, 0, 0).to_string(), "0.0.0.0");
    assert_eq!(Version::new(255, 255, 255, 65535).to_string(), "255.255.255.65535");
    assert_eq!(Layout::new(0).to_string(), "0");
    assert_eq!(Layout::new(0x5CD4BFD7).to_string(), "1557446615");
    assert_eq!(Layout::new(u32::MAX).to_string(), "4294967295");
    let range = VersionRange::new(Version::new(1, 0, 0, 1), Version::new(1, 0, 0, 2));
    assert_eq!(
        format!("{}-{}", range.from.to_string(), range.to.to_string()),
        "1.0.0.1-1.0.0.2"
    );
}

#[test]
fn failures_have_a_text() {
    assert_eq!(
        DbdErrorReason::NoSpaceInColumn.to_string(),
        "no space to separate column name and type"
    );
    assert_eq!(
        DbdErrorReason::NoDoubleColonInForeignKey.to_string(),
        "no '::' inside foreign key '<' and '>' brackets"
    );
    assert_eq!(
        DbdErrorReason::NoClosingForeignKeyAngleBracket.to_string(),
        "no matching '>' for opening '<' in foreign key"
    );
    assert_eq!(
        DbdErrorReason::NoClosingAnnotationDollarSign.to_string(),
        "no matching '$' for opening '$' in annotations"
    );
    assert_eq!(
        DbdErrorReason::NoClosingArraySizeSquareBracket.to_string(),
        "no matching ']' for opening '[' in array"
    );
    assert_eq!(
        DbdErrorReason::NoClosingIntegerSizeAngleBracket.to_string(),
        "no matching '>' for opening '<' in integer size"
    );
    assert_eq!(
        DbdErrorReason::InvalidLayout("xyz".to_string()).to_string(),
        "invalid hex string for layout: 'xyz'"
    );
    assert_eq!(
        DbdErrorReason::InvalidIntegerSizeNumber("24x".to_string()).to_string(),
        "invalid integer size: '24x'"
    );
    assert_eq!(
        DbdErrorReason::InvalidArraySizeNumber("".to_string()).to_string(),
        "invalid array size: ''"
    );
    assert_eq!(
        DbdErrorReason::InvalidType("integer".to_string()).to_string(),
        "invalid type name: 'integer'"
    );
    assert_eq!(
        DbdErrorReason::InvalidBuild("1.2.3".to_string()).to_string(),
        "invalid build format: '1.2.3'"
    );
    let e = ParseError {
        column: 12,
        line: 0,
        reason: DbdErrorReason::InvalidBuild("ü".to_string()),
    };
    assert_eq!(e.to_string(), "Column 12, line 0: invalid build format: 'ü'");
    assert_eq!(e.clone(), e);
    assert_eq!(
        ConversionError::InvalidIntegerWidth(24).to_string(),
        "invalid integer size '24'"
    );
    assert_eq!(
        ConversionError::NoIntegerWidth.to_string(),
        "no integer width for integer"
    );
    assert_eq!(
        ConversionError::ColumnNotFound("Name".to_string()).to_string(),
        "column not found 'Name'"
    );
    assert_eq!(
        ConversionError::LocStringAsForeignKey.to_string(),
        "LocString type is set as foreign key"
    );
    assert_eq!(
        ConversionError::StringAsForeignKey.to_string(),
        "String type is set as foreign key"
    );
    assert_eq!(
        ConversionError::FloatAsForeignKey.to_string(),
        "Float type is set as foreign key"
    );
    let e = ConversionError::ColumnNotFound("Name".to_string());
    assert_eq!(e.clone(), e);
}

use wow_dbd::{
    line_and_column_to_str, load_file_from_string, parse_file, DbdErrorReason, ForeignKey,
    Layout, ParseError, RawColumn, RawEntry, RawType, Version, VersionRange,
};

fn fails(text: &str) -> ParseError {
    load_file_from_string(text, "Test.dbd").unwrap_err()
}

fn entry(name: &str) -> RawEntry {
    RawEntry::new(name.to_string(), None, None, None, false, false, true, false)
}

#[test]
fn a_small_document_is_read() {
    let text = "COLUMNS\nint ID\nint<Map::ID> ParentMapID\nstring Directory // reference to a folder\nlocstring Name_lang?\nfloat Scale\n\nLAYOUT 5cd4bfd7, 0000000A\nBUILD 1.0.0.1-1.12.3.6141, 0.6.0.3592\nBUILD 0.5.3.3368\n$id$ID<32>\nParentMapID<u16>[2]\n$noninline,relation$Directory // where it lies\nName_lang\nScale[3]\n";
    let file = load_file_from_string(text, "Small.dbd").unwrap();
    assert_eq!(file.name, "Small.dbd");
    assert_eq!(
        file.columns,
        vec![
            RawColumn::new("ID".to_string(), RawType::Int, None, true, None),
            RawColumn::new(
                "ParentMapID".to_string(),
                RawType::Int,
                Some(ForeignKey::new("Map".to_string(), "ID".to_string())),
                true,
                None
            ),
            RawColumn::new(
                "Directory".to_string(),
                RawType::String,
                None,
                true,
                Some("reference to a folder".to_string())
            ),
            RawColumn::new("Name_lang".to_string(), RawType::LocString, None, false, None),
            RawColumn::new("Scale".to_string(), RawType::Float, None, true, None),
        ]
    );
    assert_eq!(file.definitions.len(), 1);
    let d = &file.definitions[0];
    assert_eq!(
        d.versions,
        vec![Version::new(0, 5, 3, 3368), Version::new(0, 6, 0, 3592)]
    );
    assert_eq!(
        d.version_ranges,
        vec![VersionRange::new(
            Version::new(1, 0, 0, 1),
            Version::new(1, 12, 3, 6141)
        )]
    );
    assert_eq!(d.layouts, vec![Layout::new(0xA), Layout::new(0x5CD4BFD7)]);
    assert_eq!(
        d.entries,
        vec![
            RawEntry::new("ID".to_string(), None, Some(32), None, false, true, true, false),
            RawEntry::new(
                "ParentMapID".to_string(),
                None,
                Some(16),
                Some(2),
                true,
                false,
                true,
                false
            ),
            RawEntry::new(
                "Directory".to_string(),
                Some("where it lies".to_string()),
                None,
                None,
                false,
                false,
                false,
                true
            ),
            entry("Name_lang"),
            RawEntry::new("Scale".to_string(), None, None, Some(3), false, false, true, false),
        ]
    );
}

#[test]
fn parse_file_takes_the_name_as_it_is() {
    let file = parse_file("COLUMNS\n", "Empty.dbd".to_string()).unwrap();
    assert_eq!(file.name, "Empty.dbd");
    assert!(file.columns.is_empty());
    assert!(file.definitions.is_empty());
}

#[test]
fn an_empty_text_is_an_empty_document() {
    let file = load_file_from_string("", "Empty.dbd").unwrap();
    assert!(file.columns.is_empty());
    assert!(file.definitions.is_empty());
}

#[test]
fn the_header_line_is_not_looked_at() {
    let file = load_file_from_string("anything at all\nint ID\n", "Test.dbd").unwrap();
    assert_eq!(file.columns.len(), 1);
    assert_eq!(file.columns[0].name, "ID");
}

#[test]
fn a_foreign_key_may_follow_the_name_or_the_kind() {
    let file =
        load_file_from_string("COLUMNS\nint A<T::C>\nint<T::C> B\nint<X::Y> D<T::C>?\n", "Test.dbd")
            .unwrap();
    let key = Some(ForeignKey::new("T".to_string(), "C".to_string()));
    assert_eq!(
        file.columns,
        vec![
            RawColumn::new("A".to_string(), RawType::Int, key.clone(), true, None),
            RawColumn::new("B".to_string(), RawType::Int, key.clone(), true, None),
            RawColumn::new("D".to_string(), RawType::Int, key, false, None),
        ]
    );
}

#[test]
fn a_column_declared_twice_is_the_later_one() {
    let text = "COLUMNS\nint ID // the first\nstring Name\nfloat<A::B> ID?\n";
    let file = load_file_from_string(text, "Test.dbd").unwrap();
    assert_eq!(file.columns.len(), 2);
    let seen = file.find_column(&entry("ID")).unwrap();
    assert_eq!(seen.ty, RawType::Float);
    assert!(!seen.verified);
    assert_eq!(seen.comment, None);
    assert_eq!(
        seen.foreign_key,
        Some(ForeignKey::new("A".to_string(), "B".to_string()))
    );
    assert!(file
        .columns
        .iter()
        .all(|c| c.comment != Some("the first".to_string())));
    assert_eq!(file.find_column(&entry("Name")).unwrap().ty, RawType::String);
    assert_eq!(file.find_column(&entry("Other")), None);
}

#[test]
fn blank_lines_set_definitions_apart() {
    let text = "COLUMNS\nint ID\n\n\nBUILD 1.0.0.1\nID<8>\n   \n\t\nBUILD 2.0.0.1\nID<16>\n\n";
    let file = load_file_from_string(text, "Test.dbd").unwrap();
    assert_eq!(file.definitions.len(), 2);
    assert_eq!(file.definitions[0].versions, vec![Version::new(1, 0, 0, 1)]);
    assert_eq!(file.definitions[0].entries[0].integer_width, Some(8));
    assert_eq!(file.definitions[1].versions, vec![Version::new(2, 0, 0, 1)]);
    assert_eq!(file.definitions[1].entries[0].integer_width, Some(16));
}

#[test]
fn carriage_returns_are_blanks() {
    let text = "COLUMNS\r\nint ID\r\n\r\nBUILD 1.0.0.1\r\n$id$ID<32>\r\n";
    let file = load_file_from_string(text, "Test.dbd").unwrap();
    assert_eq!(file.columns[0].name, "ID");
    assert_eq!(file.definitions.len(), 1);
    assert_eq!(file.definitions[0].entries[0].name, "ID");
    assert!(file.definitions[0].entries[0].primary_key);
}

#[test]
fn remarks_are_passed_over() {
    let text = "COLUMNS\nint ID\n\nCOMMENT only in the first client\nBUILD 1.0.0.1\nCOMMENT\nID<32>\n";
    let file = load_file_from_string(text, "Test.dbd").unwrap();
    assert_eq!(file.definitions.len(), 1);
    assert_eq!(file.definitions[0].entries.len(), 1);
}

#[test]
fn tags_are_read_and_unknown_tags_passed_over() {
    let text = "COLUMNS\nint ID\n\n$id$A\n$noninline$B\n$relation$C\n$ relation , id $D\n$unknown$E\n$$F\nG\n";
    let file = load_file_from_string(text, "Test.dbd").unwrap();
    let e = &file.definitions[0].entries;
    let flags: Vec<(bool, bool, bool)> = e
        .iter()
        .map(|e| (e.primary_key, e.inline, e.relation))
        .collect();
    assert_eq!(
        flags,
        vec![
            (true, true, false),
            (false, false, false),
            (false, true, true),
            (true, true, true),
            (false, true, false),
            (false, true, false),
            (false, true, false),
        ]
    );
    let tagged: Vec<bool> = e.iter().map(|e| e.has_any_tag()).collect();
    assert_eq!(tagged, vec![true, true, true, true, false, false, false]);
    assert_eq!(e[3].name, "D");
    assert_eq!(e[5].name, "F");
}

#[test]
fn widths_and_lengths_are_read() {
    let text = "COLUMNS\nint ID\n\nA<8>\nB<u64>\nC[12]\nD<255>[18446744073709551615]\nE <16> // spaced\n";
    let file = load_file_from_string(text, "Test.dbd").unwrap();
    let e = &file.definitions[0].entries;
    assert_eq!((e[0].integer_width, e[0].unsigned, e[0].array_size), (Some(8), false, None));
    assert_eq!((e[1].integer_width, e[1].unsigned, e[1].array_size), (Some(64), true, None));
    assert_eq!((e[2].integer_width, e[2].unsigned, e[2].array_size), (None, false, Some(12)));
    assert_eq!(
        (e[3].integer_width, e[3].array_size),
        (Some(255), Some(18446744073709551615))
    );
    assert_eq!(e[4].name, "E");
    assert_eq!(e[4].integer_width, Some(16));
    assert_eq!(e[4].comment, Some("spaced".to_string()));
}

#[test]
fn builds_at_their_limits() {
    let text = "COLUMNS\n\nBUILD 255.255.255.65535, 0.0.0.0, 007.1.1.1\n";
    let file = load_file_from_string(text, "Test.dbd").unwrap();
    assert_eq!(
        file.definitions[0].versions,
        vec![
            Version::new(0, 0, 0, 0),
            Version::new(7, 1, 1, 1),
            Version::new(255, 255, 255, 65535)
        ]
    );
    for bad in ["256.0.0.0", "0.256.0.0", "0.0.256.0", "0.0.0.65536", "1.2.3", "1.2.3.4.5", "1..2.3", "1.2.3.4-", "a.b.c.d", "+1.2.3.4"] {
        let e = fails(&format!("COLUMNS\n\nBUILD {}\n", bad));
        assert_eq!(e.reason, DbdErrorReason::InvalidBuild(bad.to_string()));
        assert_eq!((e.line, e.column), (2, 6));
    }
    let e = fails("COLUMNS\n\nBUILD\n");
    assert_eq!(e.reason, DbdErrorReason::InvalidBuild("".to_string()));
    assert_eq!((e.line, e.column), (2, 5));
    let e = fails("COLUMNS\n\nBUILD 1.0.0.1,\n");
    assert_eq!(e.reason, DbdErrorReason::InvalidBuild("".to_string()));
    assert_eq!((e.line, e.column), (2, 14));
}

#[test]
fn versions_are_a_set_and_ranges_a_list() {
    let text = "COLUMNS\n\nBUILD 2.0.0.1, 1.0.0.1, 2.0.0.1\nBUILD 3.0.0.1-4.0.0.1, 1.0.0.1 - 2.0.0.1\nBUILD 3.0.0.1-4.0.0.1\n";
    let file = load_file_from_string(text, "Test.dbd").unwrap();
    let d = &file.definitions[0];
    assert_eq!(d.versions, vec![Version::new(1, 0, 0, 1), Version::new(2, 0, 0, 1)]);
    let first = VersionRange::new(Version::new(3, 0, 0, 1), Version::new(4, 0, 0, 1));
    let second = VersionRange::new(Version::new(1, 0, 0, 1), Version::new(2, 0, 0, 1));
    assert_eq!(d.version_ranges, vec![first, second, first]);
}

#[test]
fn layouts_are_hexadecimal_numbers_of_32_bits() {
    let text = "COLUMNS\n\nLAYOUT FFFFFFFF, 0, ff, 00000000ff, AbC\n";
    let file = load_file_from_string(text, "Test.dbd").unwrap();
    assert_eq!(
        file.definitions[0].layouts,
        vec![
            Layout::new(0),
            Layout::new(0xff),
            Layout::new(0xabc),
            Layout::new(0xffff_ffff)
        ]
    );
    let e = fails("COLUMNS\n\nLAYOUT 12345678,  100000000\n");
    assert_eq!(e.reason, DbdErrorReason::InvalidLayout("100000000".to_string()));
    assert_eq!((e.line, e.column), (2, 18));
    let e = fails("COLUMNS\n\n  LAYOUT 12G4\n");
    assert_eq!(e.reason, DbdErrorReason::InvalidLayout("12G4".to_string()));
    assert_eq!((e.line, e.column), (2, 9));
}

#[test]
fn a_column_without_a_blank_is_refused_where_it_stands() {
    let text = "COLUMNS\nint ID\nstringDirectory\nfloat X\n";
    let e = fails(text);
    assert_eq!(e.reason, DbdErrorReason::NoSpaceInColumn);
    assert_eq!((e.line, e.column), (2, 0));
    assert_eq!(
        line_and_column_to_str(text, e.line, e.column),
        Some("stringDirectory\nfloat X\n")
    );
    assert_eq!(e.start_str_at(text), Some("stringDirectory\nfloat X\n"));

    let text = "COLUMNS\n   stringDirectory // no name\n";
    let e = fails(text);
    assert_eq!(e.reason, DbdErrorReason::NoSpaceInColumn);
    assert_eq!((e.line, e.column), (1, 3));
    assert_eq!(
        line_and_column_to_str(text, e.line, e.column),
        Some("stringDirectory // no name\n")
    );
}

#[test]
fn an_unknown_kind_is_refused() {
    let e = fails("COLUMNS\n integer ID\n");
    assert_eq!(e.reason, DbdErrorReason::InvalidType("integer".to_string()));
    assert_eq!((e.line, e.column), (1, 1));
    let e = fails("COLUMNS\nInt<A::B> ID\n");
    assert_eq!(e.reason, DbdErrorReason::InvalidType("Int".to_string()));
    assert_eq!((e.line, e.column), (1, 0));
}

#[test]
fn a_foreign_key_needs_its_marks() {
    let e = fails("COLUMNS\nint<MapID> X\n");
    assert_eq!(e.reason, DbdErrorReason::NoDoubleColonInForeignKey);
    assert_eq!((e.line, e.column), (1, 3));
    let e = fails("COLUMNS\nint<Map::ID X\n");
    assert_eq!(e.reason, DbdErrorReason::NoClosingForeignKeyAngleBracket);
    assert_eq!((e.line, e.column), (1, 3));
    let e = fails("COLUMNS\nint X<Map::ID\n");
    assert_eq!(e.reason, DbdErrorReason::NoClosingForeignKeyAngleBracket);
    assert_eq!((e.line, e.column), (1, 5));
    let e = fails("COLUMNS\nint  X<Map:ID>?\n");
    assert_eq!(e.reason, DbdErrorReason::NoDoubleColonInForeignKey);
    assert_eq!((e.line, e.column), (1, 6));
}

#[test]
fn an_entry_needs_its_marks() {
    let e = fails("COLUMNS\n\n$id ID<32>\n");
    assert_eq!(e.reason, DbdErrorReason::NoClosingAnnotationDollarSign);
    assert_eq!((e.line, e.column), (2, 0));
    let e = fails("COLUMNS\n\nID<32\n");
    assert_eq!(e.reason, DbdErrorReason::NoClosingIntegerSizeAngleBracket);
    assert_eq!((e.line, e.column), (2, 2));
    let e = fails("COLUMNS\n\n$id$ID<32>[4\n");
    assert_eq!(e.reason, DbdErrorReason::NoClosingArraySizeSquareBracket);
    assert_eq!((e.line, e.column), (2, 10));
}

#[test]
fn widths_and_lengths_are_numbers() {
    for bad in ["abc", "256", "", "u", "-8", "8 ", "u 8", "0x10"] {
        let e = fails(&format!("COLUMNS\n\nID<{}>\n", bad));
        assert_eq!(e.reason, DbdErrorReason::InvalidIntegerSizeNumber(bad.to_string()));
        assert_eq!((e.line, e.column), (2, 3));
    }
    for bad in ["x", "", "18446744073709551616", "1.5", " 2"] {
        let e = fails(&format!("COLUMNS\n\nID<32>[{}]\n", bad));
        assert_eq!(e.reason, DbdErrorReason::InvalidArraySizeNumber(bad.to_string()));
        assert_eq!((e.line, e.column), (2, 7));
    }
}

#[test]
fn the_first_failure_is_the_one_reported() {
    let text = "COLUMNS\nint ID\n\nBUILD 1.0.0.1\nID<x>\nBUILD nothing\n";
    let e = fails(text);
    assert_eq!(e.reason, DbdErrorReason::InvalidIntegerSizeNumber("x".to_string()));
    assert_eq!(e.line, 4);
}

#[test]
fn text_beyond_ascii_is_cut_at_characters() {
    let text = "COLUMNS\nint Größe // die Länge\n\n$id$Größe<ü>\n";
    let e = fails(text);
    assert_eq!(e.reason, DbdErrorReason::InvalidIntegerSizeNumber("ü".to_string()));
    assert_eq!((e.line, e.column), (3, 12));
    assert_eq!(line_and_column_to_str(text, e.line, e.column), Some("ü>\n"));
    let file = load_file_from_string("COLUMNS\nint Größe // die Länge\n", "Test.dbd").unwrap();
    assert_eq!(file.columns[0].name, "Größe");
    assert_eq!(file.columns[0].comment, Some("die Länge".to_string()));
}

#[test]
fn places_in_a_text() {
    let text = "one\ntwo\n\nfour";
    assert_eq!(line_and_column_to_str(text, 0, 0), Some("one\ntwo\n\nfour"));
    assert_eq!(line_and_column_to_str(text, 0, 2), Some("e\ntwo\n\nfour"));
    assert_eq!(line_and_column_to_str(text, 1, 3), Some("\n\nfour"));
    assert_eq!(line_and_column_to_str(text, 2, 0), Some("\nfour"));
    assert_eq!(line_and_column_to_str(text, 3, 4), Some(""));
    assert_eq!(line_and_column_to_str(text, 4, 0), None);
    assert_eq!(line_and_column_to_str("", 1, 7), None);
    assert_eq!(line_and_column_to_str(text, 3, 5), None);
    assert_eq!(line_and_column_to_str(text, 0, 14), None);
    assert_eq!(line_and_column_to_str("a\u{fc}", 0, 1), Some("\u{fc}"));
    assert_eq!(line_and_column_to_str("a\u{fc}", 0, 2), None);
    assert_eq!(line_and_column_to_str("a\u{fc}", 0, 3), Some(""));
    assert_eq!(line_and_column_to_str("a\u{fc}", 0, 4), None);
    let e = ParseError {
        column: 1,
        line: 3,
        reason: DbdErrorReason::NoSpaceInColumn,
    };
    assert_eq!(e.start_str_at(text), Some("our"));
}

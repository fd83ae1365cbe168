use wow_dbd::{
    line_and_column_to_str, load_file_from_string, write_to_file, DbdErrorReason, RawDbdFile,
    Version,
};

const MAP_CONTENTS: &str = "COLUMNS
int ID
string Directory // reference to World\\Map\\ [...]
int InstanceType // Integer 0: none, 1: party, 2: raid, 3: pvp, 4: arena, >=5: none (official from \"IsInInstance()\")
int PVP // 0 and 1 only
int IsInMap
locstring MapName_lang
int MinLevel
int MaxLevel
int MaxPlayers
int Field_0_7_0_3694_006
int Field_0_7_0_3694_007
int Field_0_7_0_3694_008
int<AreaTable::ID> AreaTableID
locstring MapDescription0_lang // Horde
locstring MapDescription1_lang // Alliance
int<LoadingScreens::ID> LoadingScreenID
int RaidOffset
int Field_0_7_0_3694_015
int Field_0_7_0_3694_016
float MinimapIconScale
locstring RequiredText_lang
locstring Heroic_lang
locstring EmptyText2_lang
int<Map::ID> CorpseMapID
float Corpse
int ResetTimeRaid
int ResetTimeHeroic
int Unk0?
int TimeOfDayOverride
int ExpansionID
int Flags
int MaxPlayers2?

BUILD 0.5.3.3368
ID<32>
Directory
PVP<32>
IsInMap<32>
MapName_lang

BUILD 0.6.0.3592, 0.7.0.3694, 0.7.1.3702, 0.7.6.3712
BUILD 0.8.0.3734-0.12.0.3988
ID<32>
Directory
InstanceType<32>
PVP<32>
MapName_lang
MinLevel<32>
MaxLevel<32>
MaxPlayers<32>
Field_0_7_0_3694_006<32>
Field_0_7_0_3694_007<32>
Field_0_7_0_3694_008<32>

BUILD 1.0.0.3980-1.12.3.6141
$id$ID<32>
Directory
InstanceType<32>
PVP<32>
MapName_lang
MinLevel<32>
MaxLevel<32>
MaxPlayers<32>
Field_0_7_0_3694_006<32>
Field_0_7_0_3694_007<32>
Field_0_7_0_3694_008<32>
AreaTableID<32>
MapDescription0_lang
MapDescription1_lang
LoadingScreenID<32>
RaidOffset<32>
Field_0_7_0_3694_015<32>
Field_0_7_0_3694_016<32>

BUILD 2.0.0.5610-2.4.3.8606
$id$ID<32>
Directory
InstanceType<32>
PVP<32>
MapName_lang
MinLevel<32>
MaxLevel<32>
MaxPlayers<32>
Field_0_7_0_3694_006<32>
Field_0_7_0_3694_007<32>
Field_0_7_0_3694_008<32>
AreaTableID<32>
MapDescription0_lang
MapDescription1_lang
LoadingScreenID<32>
RaidOffset<32>
Field_0_7_0_3694_015<32>
Field_0_7_0_3694_016<32>
RequiredText_lang
Heroic_lang
EmptyText2_lang
CorpseMapID<32>
Corpse[2]
ResetTimeRaid<32>
ResetTimeHeroic<32>
Unk0<32>
TimeOfDayOverride<32>
ExpansionID<32>

LAYOUT 5CD4BFD7, 8A8C3F0E
BUILD 3.0.1.8303-3.3.5.12340
COMMENT the client of the third expansion
$id$ID<32>
Directory
InstanceType<32>
Flags<u32>
PVP<32>
MapName_lang
AreaTableID<32>
MapDescription0_lang
MapDescription1_lang
LoadingScreenID<32>
MinimapIconScale
CorpseMapID<32>
Corpse[2]
TimeOfDayOverride<32>
ExpansionID<32>
RaidOffset<32>
MaxPlayers2<32>
";

#[test]
fn test_write() {
    let f = load_file_from_string(MAP_CONTENTS, "Map.dbd").unwrap();
    println!("{}", write_to_file(&f));
}

#[test]
fn find_version() {
    let f = load_file_from_string(MAP_CONTENTS, "Map.dbd").unwrap();
    let wrath = f.specific_version(&Version::new(3, 3, 5, 12340));
    assert!(wrath.is_some());

    let tbc = f.specific_version(&Version::new(2, 4, 3, 8606));
    assert!(tbc.is_some());
}

#[test]
fn line_and_column_to_string() {
    const CONTENTS: &str = "COLUMNS
int ID
string Directory // reference to World\\Map\\ [...]
locstring MapName_lang
int InstanceType // Integer 0: none, 1: party, 2: raid, 3: pvp, 4: arena, >=5: none (official from \"IsInInstance()\")
int Unk0?
int<Map::ID> ParentMapID

BUILD 0.6.0.3592
BUILD 0.5.3.3368, 0.5.3.3494
BUILD 0.5.s.3368-0.5.0.3592
$id$ID<32>
Directory
PVP<32>
IsInMap<32>
MapName_lang
";

    let contents = load_file_from_string(CONTENTS, "Contents.dbd");
    match contents {
        Ok(_) => panic!(),
        Err(e) => {
            println!("{}", line_and_column_to_str(CONTENTS, e.line, e.column).unwrap());
        }
    }
}

#[test]
fn parse_one() {
    load_file_from_string(MAP_CONTENTS, "Contents.dbd").unwrap();
}

fn all_documents() -> Vec<RawDbdFile> {
    vec![
        load_file_from_string(MAP_CONTENTS, "Map.dbd").unwrap(),
        load_file_from_string(
            "COLUMNS\nint ID\nfloat X\n\nBUILD 1.0.0.1\n$id$ID<u16>\nX[3]\n",
            "Small.dbd",
        )
        .unwrap(),
    ]
}

#[test]
fn assert_no_unexpected_integer_sizes() {
    let files = all_documents();

    for file in files {
        for f in &file.definitions {
            for e in &f.entries {
                file.find_column(e).unwrap();
                if let Some(v) = e.integer_width {
                    assert!(v == 8 || v == 16 || v == 32 || v == 64);
                }
            }
            f.to_definition(&file.columns).unwrap();
        }

        file.into_proper().unwrap();
    }
}

#[test]
fn the_failing_line_is_found_again() {
    const CONTENTS: &str = "COLUMNS\nint ID\n\nBUILD 0.6.0.3592\nBUILD 0.5.s.3368-0.5.0.3592\n$id$ID<32>\n";
    let e = load_file_from_string(CONTENTS, "Contents.dbd").unwrap_err();
    assert_eq!(e.line, 4);
    assert_eq!(e.column, 6);
    assert_eq!(
        e.reason,
        DbdErrorReason::InvalidBuild("0.5.s.3368-0.5.0.3592".to_string())
    );
    assert_eq!(
        line_and_column_to_str(CONTENTS, e.line, e.column),
        Some("0.5.s.3368-0.5.0.3592\n$id$ID<32>\n")
    );
    assert_eq!(e.start_str_at(CONTENTS), Some("0.5.s.3368-0.5.0.3592\n$id$ID<32>\n"));
}

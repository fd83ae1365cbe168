//! The text of a document, stated over views.
//!
//! The text is canonical: one header line, the columns, a blank line, then
//! each definition with its layouts, its builds and its entries, each
//! followed by a blank line. Reading the text gives the document back.
use crate::file::{DbdFileView, DefinitionView, RawDbdFileView, RawDefinitionView};
use crate::grammar::{has_keyword, Build, DOLLAR};
use crate::number::{dec_text, hex_text};
use crate::resolve::declare;
use crate::text::utf8;
use crate::types::{
    EntryView, ForeignKeyView, Layout, RawColumnView, RawEntryView, RawType, TypeView,
};
use crate::version::{Version, VersionRange};
use vstd::prelude::*;

verus! {

/// The keyword of a storage kind.
pub open spec fn kind_word(ty: RawType) -> Seq<u8> {
    match ty {
        RawType::Int => utf8("int"@),
        RawType::Float => utf8("float"@),
        RawType::LocString => utf8("locstring"@),
        RawType::String => utf8("string"@),
    }
}

/// `<table::column>`.
pub open spec fn key_text(key: ForeignKeyView) -> Seq<u8> {
    utf8("<"@) + key.database + utf8("::"@) + key.column + utf8(">"@)
}

pub open spec fn opt_key_text(key: Option<ForeignKeyView>) -> Seq<u8> {
    match key {
        Some(key) => key_text(key),
        None => Seq::empty(),
    }
}

/// ` // comment`, or nothing.
pub open spec fn comment_text(comment: Option<Seq<u8>>) -> Seq<u8> {
    match comment {
        Some(c) => utf8(" // "@) + c,
        None => Seq::empty(),
    }
}

/// The line of a column: `kind name<table::column>? // comment`.
pub open spec fn column_text(c: RawColumnView) -> Seq<u8> {
    kind_word(c.ty) + utf8(" "@) + c.name + opt_key_text(c.foreign_key) + (if c.verified {
        Seq::empty()
    } else {
        utf8("?"@)
    }) + comment_text(c.comment)
}

/// An entry of this name needs a block of tags even if it has no tag: its
/// line would else be blank, start a block of tags, or start with a
/// keyword.
#[verifier::opaque]
pub open spec fn needs_block(name: Seq<u8>) -> bool {
    ||| name.len() == 0
    ||| name[0] == DOLLAR
    ||| has_keyword(name, utf8("COMMENT"@))
    ||| has_keyword(name, utf8("LAYOUT"@))
    ||| has_keyword(name, utf8("BUILD"@))
}

/// The tags of an entry with commas between them.
pub open spec fn tag_words(primary_key: bool, noninline: bool, relation: bool) -> Seq<u8> {
    (if primary_key {
        utf8("id"@) + (if noninline || relation {
            utf8(","@)
        } else {
            Seq::empty()
        })
    } else {
        Seq::empty()
    }) + (if noninline {
        utf8("noninline"@) + (if relation {
            utf8(","@)
        } else {
            Seq::empty()
        })
    } else {
        Seq::empty()
    }) + (if relation {
        utf8("relation"@)
    } else {
        Seq::empty()
    })
}

/// `$tags$`, or nothing where the entry has no tag and needs no block.
pub open spec fn tags_text(e: RawEntryView) -> Seq<u8> {
    if e.has_any_tag() || needs_block(e.name) {
        utf8("$"@) + tag_words(e.primary_key, !e.inline, e.relation) + utf8("$"@)
    } else {
        Seq::empty()
    }
}

/// `<width>`, with a `u` before an unsigned width, or nothing.
pub open spec fn width_text(width: Option<u8>, unsigned: bool) -> Seq<u8> {
    match width {
        Some(w) => utf8("<"@) + (if unsigned {
            utf8("u"@)
        } else {
            Seq::empty()
        }) + dec_text(w as nat) + utf8(">"@),
        None => Seq::empty(),
    }
}

/// `[length]`, or nothing.
pub open spec fn array_text(length: Option<usize>) -> Seq<u8> {
    match length {
        Some(n) => utf8("["@) + dec_text(n as nat) + utf8("]"@),
        None => Seq::empty(),
    }
}

/// The line of an entry: `$tags$name<width>[length] // comment`.
pub open spec fn entry_text(e: RawEntryView) -> Seq<u8> {
    tags_text(e) + e.name + width_text(e.integer_width, e.unsigned) + array_text(e.array_size)
        + comment_text(e.comment)
}

/// `major.minor.patch.build`.
pub open spec fn version_text(v: Version) -> Seq<u8> {
    dec_text(v.major as nat) + utf8("."@) + dec_text(v.minor as nat) + utf8("."@) + dec_text(
        v.patch as nat,
    ) + utf8("."@) + dec_text(v.build as nat)
}

/// A version, or two with a dash between them.
pub open spec fn build_text(b: Build) -> Seq<u8> {
    match b {
        Build::Exact(v) => version_text(v),
        Build::Range(r) => version_text(r.from) + utf8("-"@) + version_text(r.to),
    }
}

/// A layout as eight hexadecimal digits.
pub open spec fn layout_text(l: Layout) -> Seq<u8> {
    hex_text(l.inner as nat, 8)
}

/// The builds of a definition in the order of their line: the ranges, then
/// the versions.
pub open spec fn builds_of(ranges: Seq<VersionRange>, versions: Seq<Version>) -> Seq<Build> {
    ranges.map_values(|r: VersionRange| Build::Range(r)) + versions.map_values(
        |v: Version| Build::Exact(v),
    )
}

/// Builds with `, ` between them.
pub open spec fn builds_text(builds: Seq<Build>) -> Seq<u8>
    decreases builds.len(),
{
    if builds.len() == 0 {
        Seq::empty()
    } else if builds.len() == 1 {
        build_text(builds[0])
    } else {
        builds_text(builds.drop_last()) + utf8(", "@) + build_text(builds.last())
    }
}

/// Layouts with `, ` between them.
pub open spec fn layouts_text(layouts: Seq<Layout>) -> Seq<u8>
    decreases layouts.len(),
{
    if layouts.len() == 0 {
        Seq::empty()
    } else if layouts.len() == 1 {
        layout_text(layouts[0])
    } else {
        layouts_text(layouts.drop_last()) + utf8(", "@) + layout_text(layouts.last())
    }
}

/// The lines of the entries, each with its line feed.
pub open spec fn entries_text(entries: Seq<RawEntryView>) -> Seq<u8>
    decreases entries.len(),
{
    if entries.len() == 0 {
        Seq::empty()
    } else {
        entries_text(entries.drop_last()) + entry_text(entries.last()) + utf8("\n"@)
    }
}

/// The lines of the columns, each with its line feed.
pub open spec fn columns_text(columns: Seq<RawColumnView>) -> Seq<u8>
    decreases columns.len(),
{
    if columns.len() == 0 {
        Seq::empty()
    } else {
        columns_text(columns.drop_last()) + column_text(columns.last()) + utf8("\n"@)
    }
}

/// The `LAYOUT` line of a definition, if it has layouts.
pub open spec fn layout_line(layouts: Seq<Layout>) -> Seq<u8> {
    if layouts.len() == 0 {
        Seq::empty()
    } else {
        utf8("LAYOUT "@) + layouts_text(layouts) + utf8("\n"@)
    }
}

/// The `BUILD` line of a definition, if it has builds.
pub open spec fn build_line(ranges: Seq<VersionRange>, versions: Seq<Version>) -> Seq<u8> {
    if ranges.len() == 0 && versions.len() == 0 {
        Seq::empty()
    } else {
        utf8("BUILD "@) + builds_text(builds_of(ranges, versions)) + utf8("\n"@)
    }
}

/// The lines of a definition and the blank line that ends it.
pub open spec fn definition_text(d: RawDefinitionView) -> Seq<u8> {
    layout_line(d.layouts) + build_line(d.version_ranges, d.versions) + entries_text(d.entries)
        + utf8("\n"@)
}

/// The lines of the definitions.
pub open spec fn definitions_text(definitions: Seq<RawDefinitionView>) -> Seq<u8>
    decreases definitions.len(),
{
    if definitions.len() == 0 {
        Seq::empty()
    } else {
        definitions_text(definitions.drop_last()) + definition_text(definitions.last())
    }
}

/// The text of a document.
pub open spec fn document_text(f: RawDbdFileView) -> Seq<u8> {
    utf8("COLUMNS\n"@) + columns_text(f.columns) + utf8("\n"@) + definitions_text(f.definitions)
}

/// `ty` without the array around it.
pub open spec fn element_type(ty: TypeView) -> TypeView {
    match ty {
        TypeView::Array { ty, .. } => *ty,
        _ => ty,
    }
}

/// The length of the array that `ty` is.
pub open spec fn array_length(ty: TypeView) -> Option<usize> {
    match ty {
        TypeView::Array { width, .. } => Some(width),
        _ => None,
    }
}

/// The foreign key of `ty`.
pub open spec fn key_of(ty: TypeView) -> Option<ForeignKeyView> {
    match element_type(ty) {
        TypeView::ForeignKey { key, .. } => Some(key),
        _ => None,
    }
}

/// `ty` without the array and the foreign key around it.
pub open spec fn scalar_type(ty: TypeView) -> TypeView {
    match element_type(ty) {
        TypeView::ForeignKey { ty, .. } => *ty,
        other => other,
    }
}

/// The storage kind of the column of an entry of type `ty`.
pub open spec fn storage_of(ty: TypeView) -> RawType {
    match scalar_type(ty) {
        TypeView::Float => RawType::Float,
        TypeView::LocString => RawType::LocString,
        TypeView::String => RawType::String,
        _ => RawType::Int,
    }
}

/// The width of an entry of type `ty`.
pub open spec fn width_of(ty: TypeView) -> Option<u8> {
    match scalar_type(ty) {
        TypeView::Int8 | TypeView::UInt8 => Some(8u8),
        TypeView::Int16 | TypeView::UInt16 => Some(16u8),
        TypeView::Int32 | TypeView::UInt32 => Some(32u8),
        TypeView::Int64 | TypeView::UInt64 => Some(64u8),
        _ => None,
    }
}

/// Whether an entry of type `ty` is unsigned.
pub open spec fn unsigned_of(ty: TypeView) -> bool {
    match scalar_type(ty) {
        TypeView::UInt8 | TypeView::UInt16 | TypeView::UInt32 | TypeView::UInt64 => true,
        _ => false,
    }
}

/// `ty` is a type that resolving gives: a scalar, inside a foreign key if
/// it is an integer and refers to a table, inside an array or not.
pub open spec fn is_regular(ty: TypeView) -> bool {
    &&& !(scalar_type(ty) is Array)
    &&& !(scalar_type(ty) is ForeignKey)
    &&& key_of(ty) is Some ==> storage_of(ty) == RawType::Int
}

/// The column that a resolved entry was resolved against.
pub open spec fn column_of(e: EntryView) -> RawColumnView {
    RawColumnView {
        name: e.name,
        ty: storage_of(e.ty),
        foreign_key: key_of(e.ty),
        verified: e.verified,
        comment: e.column_comment,
    }
}

/// The entry that resolves to `e` against `column_of(e)`.
pub open spec fn raw_entry_of(e: EntryView) -> RawEntryView {
    RawEntryView {
        name: e.name,
        comment: e.comment,
        integer_width: width_of(e.ty),
        array_size: array_length(e.ty),
        unsigned: unsigned_of(e.ty),
        primary_key: e.primary_key,
        inline: e.inline,
        relation: e.relation,
    }
}

/// The entries that resolve to `entries`.
pub open spec fn raw_entries_of(entries: Seq<EntryView>) -> Seq<RawEntryView> {
    entries.map_values(|e: EntryView| raw_entry_of(e))
}

/// The definition that resolves to `d`.
pub open spec fn raw_definition_of(d: DefinitionView) -> RawDefinitionView {
    RawDefinitionView {
        versions: d.versions,
        version_ranges: d.version_ranges,
        layouts: d.layouts,
        entries: raw_entries_of(d.entries),
    }
}

/// `columns` with the columns of `entries` declared, first to last.
pub open spec fn with_columns_of(columns: Seq<RawColumnView>, entries: Seq<EntryView>) -> Seq<
    RawColumnView,
>
    decreases entries.len(),
{
    if entries.len() == 0 {
        columns
    } else {
        declare(with_columns_of(columns, entries.drop_last()), column_of(entries.last()))
    }
}

/// The columns of all entries of `definitions`, in the order in which
/// they are first used.
pub open spec fn columns_of(definitions: Seq<DefinitionView>) -> Seq<RawColumnView>
    decreases definitions.len(),
{
    if definitions.len() == 0 {
        Seq::empty()
    } else {
        with_columns_of(columns_of(definitions.drop_last()), definitions.last().entries)
    }
}

/// The document that resolves to `f`: each entry as a use of a column, and
/// the columns that the entries use.
pub open spec fn unresolve(f: DbdFileView) -> RawDbdFileView {
    RawDbdFileView {
        name: f.name,
        columns: columns_of(f.definitions),
        definitions: f.definitions.map_values(|d: DefinitionView| raw_definition_of(d)),
    }
}

} // verus!

//! The documents that reading gives.
//!
//! What is read from a text is well formed in a way that makes it the only
//! document with its written text: names and comments are trimmed and hold
//! none of the marks that would end them.
use crate::file::{RawDbdFileView, RawDefinitionView};
use crate::grammar::{
    is_empty_definition, COLON, GREATER, LESS, LINE_FEED, QUESTION, SLASH, SQUARE_OPEN,
};
use crate::ordered::ascending;
use crate::resolve::distinct_names;
use crate::text::{free_of, is_trimmed, Pat};
use crate::types::{ForeignKeyView, RawColumnView, RawEntryView};
use vstd::prelude::*;

verus! {

/// `s` can stand in a line before the comment: it has no line feed and no
/// `//`.
pub open spec fn is_plain(s: Seq<u8>) -> bool {
    free_of(s, Pat::Byte(LINE_FEED)) && free_of(s, Pat::Pair(SLASH, SLASH))
}

/// A comment is trimmed and has no line feed.
pub open spec fn comment_ok(comment: Option<Seq<u8>>) -> bool {
    match comment {
        Some(c) => is_trimmed(c) && free_of(c, Pat::Byte(LINE_FEED)),
        None => true,
    }
}

/// Table and column of a foreign key have no `>`, and the table has no
/// `::` and does not end in a colon.
pub open spec fn key_ok(key: ForeignKeyView) -> bool {
    &&& is_plain(key.database)
    &&& is_plain(key.column)
    &&& free_of(key.database, Pat::Byte(GREATER))
    &&& free_of(key.column, Pat::Byte(GREATER))
    &&& free_of(key.database, Pat::Pair(COLON, COLON))
    &&& key.database.len() > 0 ==> key.database.last() != COLON
}

pub open spec fn opt_key_ok(key: Option<ForeignKeyView>) -> bool {
    match key {
        Some(k) => key_ok(k),
        None => true,
    }
}

/// The name of a column is trimmed and has no `<`. A verified column
/// without a foreign key has a name, which does not end in `?`.
pub open spec fn column_ok(c: RawColumnView) -> bool {
    &&& is_plain(c.name)
    &&& is_trimmed(c.name)
    &&& free_of(c.name, Pat::Byte(LESS))
    &&& opt_key_ok(c.foreign_key)
    &&& comment_ok(c.comment)
    &&& (c.foreign_key is None && c.verified) ==> c.name.len() > 0 && c.name.last() != QUESTION
}

/// The name of an entry is trimmed and has no `<` and no `[`. Only an
/// entry with a width is unsigned.
pub open spec fn entry_ok(e: RawEntryView) -> bool {
    &&& is_plain(e.name)
    &&& is_trimmed(e.name)
    &&& free_of(e.name, Pat::Either(LESS, SQUARE_OPEN))
    &&& comment_ok(e.comment)
    &&& e.unsigned ==> e.integer_width is Some
}

pub open spec fn entries_ok(entries: Seq<RawEntryView>) -> bool {
    forall|i: int| 0 <= i < entries.len() ==> entry_ok(#[trigger] entries[i])
}

pub open spec fn columns_ok(columns: Seq<RawColumnView>) -> bool {
    forall|i: int| 0 <= i < columns.len() ==> column_ok(#[trigger] columns[i])
}

/// Versions and layouts ascend, the entries are well formed, and the
/// definition is not empty.
pub open spec fn definition_ok(d: RawDefinitionView) -> bool {
    &&& ascending(d.versions)
    &&& ascending(d.layouts)
    &&& entries_ok(d.entries)
    &&& !is_empty_definition(d)
}

pub open spec fn definitions_ok(definitions: Seq<RawDefinitionView>) -> bool {
    forall|i: int| 0 <= i < definitions.len() ==> definition_ok(#[trigger] definitions[i])
}

/// A document as reading gives it.
pub open spec fn file_ok(f: RawDbdFileView) -> bool {
    &&& distinct_names(f.columns)
    &&& columns_ok(f.columns)
    &&& definitions_ok(f.definitions)
}

} // verus!

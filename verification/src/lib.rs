//! Reader, resolver and writer for `.dbd` table definitions.
//!
//! A `.dbd` document describes one database table whose layout differs from
//! one client build to the next:
//!
//! ```text
//! COLUMNS
//! int ID
//! int ParentMapID<Map::ID>
//! string Directory // where the files lie
//! locstring MapName_lang?
//!
//! LAYOUT 5CD4BFD7
//! BUILD 3.0.1.8303-3.3.5.12340, 4.0.0.11927
//! $id$ID<32>
//! Directory
//! ParentMapID<u16>[2]
//! MapName_lang
//! ```
//!
//! The header declares the columns of the table. Each block after it is a
//! definition: the builds that it holds for, and the entries of the table in
//! those builds, each a use of a column.
//!
//! [`load_file_from_string`] reads a document into a [`RawDbdFile`], which
//! holds what the text says. [`RawDbdFile::into_proper`] resolves it into a
//! [`DbdFile`], in which every entry has the [`Type`] that its column and its
//! own width and array length give. [`write_to_file`] writes either as
//! text. `specific_version` finds the definition that holds for a build: the
//! first with a range that the build lies in, or, if there is no such range in
//! the document, the first that lists the build.
//!
//! # What is proved
//!
//! Every function states what it returns over the bytes of the text and
//! over views of the model, in which texts are sequences of bytes:
//!
//! - [`grammar`] says what a text is read as, [`parser`] reads it;
//! - [`resolve`] says what a document resolves to, [`file`] resolves it;
//! - [`written`] says what the text of a document is, [`writer`] writes it;
//! - [`laws`] proves that a document that was read and resolved, then
//!   written, reads and resolves as the same document. The steps of the
//!   proof are in [`canon`], [`parsed`], [`inverse`] and [`roundtrip`].
use vstd::prelude::*;
use vstd::string::StringExecFns;

pub mod canon;
pub mod display;
pub mod error;
pub mod file;
pub mod grammar;
pub mod inverse;
pub mod laws;
pub mod locate;
pub mod number;
pub mod ordered;
pub mod parsed;
pub mod parser;
pub mod resolve;
pub mod roundtrip;
pub mod text;
pub mod types;
pub mod version;
pub mod words;
pub mod writer;
pub mod written;

pub use error::{ConversionError, DbdErrorReason, ParseError};
pub use file::{compare_versions, DbdFile, Definition, RawDbdFile, RawDefinition};
pub use parser::parse_file;
pub use types::{Entry, ForeignKey, Layout, RawColumn, RawEntry, RawType, Type};
pub use version::{Version, VersionRange};
pub use writer::{write_to_file, Document};

verus! {

/// Reads the document that `contents` holds. `name` is the name of its
/// file, such as `Map.dbd`.
///
/// The result is the document as read. [`RawDbdFile::into_proper`] resolves
/// it.
pub fn load_file_from_string(contents: &str, name: &str) -> (r: Result<RawDbdFile, ParseError>)
    ensures
        match r {
            Ok(file) => {
                &&& grammar::parse_document(text::utf8(contents@), name@) is Ok
                &&& grammar::parse_document(text::utf8(contents@), name@)->Ok_0 == file@
                &&& canon::file_ok(file@)
            },
            Err(e) => {
                &&& grammar::parse_document(text::utf8(contents@), name@) is Err
                &&& grammar::parse_document(text::utf8(contents@), name@)->Err_0 == e@
                &&& locate::has_place(text::utf8(contents@), e.line as nat, e.column as nat)
            },
        },
{
    parse_file(contents, String::from_str(name))
}

/// The text of `contents` from byte `column` of line `line` to the end, or
/// nothing if `contents` has no such place. Lines are counted from zero.
///
/// Together with a [`ParseError`] this shows the text that could not be
/// read.
pub fn line_and_column_to_str(contents: &str, line: usize, column: usize) -> (r: Option<&str>)
    ensures
        match r {
            Some(s) => locate::text_at(text::utf8(contents@), line as nat, column as nat) == Some(
                text::utf8(s@),
            ),
            None => locate::text_at(text::utf8(contents@), line as nat, column as nat) is None,
        },
{
    locate::text_after(contents, line, column)
}

} // verus!

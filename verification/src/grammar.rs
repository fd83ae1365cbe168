//! The grammar of a document, stated over the bytes of its text.
//!
//! A document is read line by line; lines end at a line feed. The first
//! line is the header of the column block and is not looked at. Each line
//! after it declares a column, up to the first blank line. What follows are
//! definitions, set apart by blank lines. In a definition a line is a list
//! of layouts (`LAYOUT`), a list of builds (`BUILD`), a remark (`COMMENT`,
//! skipped) or an entry.
//!
//! On every line the text from the first `//` on is a comment. Blanks around
//! the text before it, and around the comment, do not count.
//!
//! ```text
//! column  := kind [key] blank+ name [key] ['?'] ['//' comment]
//! key     := '<' table '::' column '>'
//! entry   := ['$' tag {',' tag} '$'] name ['<' ['u'] digits '>'] ['[' digits ']'] ['//' comment]
//! builds  := 'BUILD' build {',' build}
//! build   := version | version '-' version
//! version := digits '.' digits '.' digits '.' digits
//! layouts := 'LAYOUT' hex {',' hex}
//! ```
//!
//! The kind of a column is `int`, `float`, `locstring` or `string`. The tags
//! of an entry are `id` (primary key), `noninline` and `relation`; other
//! tags are passed over. Blanks are spaces, tabs and carriage returns.
//!
//! Reading fails at the first line that does not fit, with the number of
//! the line, counted from zero, the byte offset within the line of the text
//! that does not fit, and the reason.
use crate::error::{ParseErrorView, ReasonView};
use crate::file::{RawDbdFileView, RawDefinitionView};
use crate::number::{parse_dec, parse_hex};
use crate::ordered::with_item;
use crate::resolve::declare;
use crate::text::{all_blank, first_hit, is_blank, solid_start, trim, utf8, Pat};
use crate::types::{ForeignKeyView, Layout, RawColumnView, RawEntryView, RawType};
use crate::version::{Version, VersionRange};
use vstd::prelude::*;

verus! {

// The marks that set the parts of a text apart.
pub const LINE_FEED: u8 = 0x0a;

pub const DOLLAR: u8 = 0x24;

pub const COMMA: u8 = 0x2c;

pub const DASH: u8 = 0x2d;

pub const DOT: u8 = 0x2e;

pub const SLASH: u8 = 0x2f;

pub const COLON: u8 = 0x3a;

pub const LESS: u8 = 0x3c;

pub const GREATER: u8 = 0x3e;

pub const QUESTION: u8 = 0x3f;

pub const SQUARE_OPEN: u8 = 0x5b;

pub const SQUARE_CLOSE: u8 = 0x5d;

pub const SMALL_U: u8 = 0x75;

/// A failure on one line: the byte offset within the line and the reason.
pub struct LineError {
    pub column: int,
    pub reason: ReasonView,
}

/// Where the comment of a line starts: at its first `//`, or at its end.
pub open spec fn comment_start(line: Seq<u8>) -> int {
    first_hit(line, Pat::Pair(SLASH, SLASH))
}

/// The comment of a line: the text after the first `//`, trimmed.
pub open spec fn line_comment(line: Seq<u8>) -> Option<Seq<u8>> {
    let k = comment_start(line);
    if k < line.len() {
        Some(trim(line.subrange(k + 2, line.len() as int)))
    } else {
        None
    }
}

/// The line up to its comment.
pub open spec fn line_head(line: Seq<u8>) -> Seq<u8> {
    line.subrange(0, comment_start(line))
}

/// What a line declares: its text up to the comment, trimmed.
pub open spec fn line_decl(line: Seq<u8>) -> Seq<u8> {
    trim(line_head(line))
}

/// The offset within the line at which `line_decl` starts.
pub open spec fn line_base(line: Seq<u8>) -> int {
    solid_start(line_head(line))
}

/// A token without its foreign key, and the key. `off` is the offset of the
/// token within its line. What follows the closing bracket is not looked
/// at.
#[verifier::opaque]
pub open spec fn split_key(token: Seq<u8>, off: int) -> Result<
    (Seq<u8>, Option<ForeignKeyView>),
    LineError,
> {
    let open = first_hit(token, Pat::Byte(LESS));
    if open == token.len() {
        Ok((token, None))
    } else {
        let after = token.subrange(open + 1, token.len() as int);
        let close = first_hit(after, Pat::Byte(GREATER));
        if close == after.len() {
            Err(
                LineError {
                    column: off + open,
                    reason: ReasonView::NoClosingForeignKeyAngleBracket,
                },
            )
        } else {
            let inner = after.subrange(0, close);
            let sep = first_hit(inner, Pat::Pair(COLON, COLON));
            if sep == inner.len() {
                Err(LineError { column: off + open, reason: ReasonView::NoDoubleColonInForeignKey })
            } else {
                Ok(
                    (
                        token.subrange(0, open),
                        Some(
                            ForeignKeyView {
                                database: inner.subrange(0, sep),
                                column: inner.subrange(sep + 2, inner.len() as int),
                            },
                        ),
                    ),
                )
            }
        }
    }
}

/// The storage kind that a word names.
pub open spec fn storage_kind(word: Seq<u8>) -> Option<RawType> {
    if word == utf8("int"@) {
        Some(RawType::Int)
    } else if word == utf8("float"@) {
        Some(RawType::Float)
    } else if word == utf8("locstring"@) {
        Some(RawType::LocString)
    } else if word == utf8("string"@) {
        Some(RawType::String)
    } else {
        None
    }
}

/// The column that a line declares.
///
/// The kind is the text up to the first blank, the name what follows it. A
/// foreign key may follow the name or the kind; the one after the name
/// counts where both are there. A `?` at the end marks the column as not
/// verified.
#[verifier::opaque]
pub open spec fn parse_column(line: Seq<u8>) -> Result<RawColumnView, LineError> {
    let base = line_base(line);
    let decl = line_decl(line);
    let gap = first_hit(decl, Pat::Blank);
    if gap == decl.len() {
        Err(LineError { column: base, reason: ReasonView::NoSpaceInColumn })
    } else {
        let tail = decl.subrange(gap, decl.len() as int);
        let rest = trim(tail);
        match split_key(decl.subrange(0, gap), base) {
            Err(e) => Err(e),
            Ok((word, kind_key)) => match storage_kind(word) {
                None => Err(LineError { column: base, reason: ReasonView::InvalidType(word) }),
                Some(ty) => {
                    let unverified = rest.len() > 0 && rest.last() == QUESTION;
                    let named = if unverified {
                        rest.drop_last()
                    } else {
                        rest
                    };
                    match split_key(named, base + gap + solid_start(tail)) {
                        Err(e) => Err(e),
                        Ok((name, name_key)) => Ok(
                            RawColumnView {
                                name: trim(name),
                                ty,
                                foreign_key: if name_key is Some {
                                    name_key
                                } else {
                                    kind_key
                                },
                                verified: !unverified,
                                comment: line_comment(line),
                            },
                        ),
                    }
                },
            },
        }
    }
}

/// `word` is one of the tags, which are set apart by commas. Blanks around
/// a tag do not count.
pub open spec fn has_tag(tags: Seq<u8>, word: Seq<u8>) -> bool
    decreases tags.len(),
{
    let k = first_hit(tags, Pat::Byte(COMMA));
    trim(tags.subrange(0, k)) == word || (0 <= k < tags.len() && has_tag(
        tags.subrange(k + 1, tags.len() as int),
        word,
    ))
}

/// The width of an entry, read from the text after its name: the width,
/// whether it is unsigned, and how many bytes were read. `off` is the
/// offset of `tail` within its line.
#[verifier::opaque]
pub open spec fn parse_width(tail: Seq<u8>, off: int) -> Result<
    (Option<u8>, bool, int),
    LineError,
> {
    if tail.len() > 0 && tail[0] == LESS {
        let after = tail.subrange(1, tail.len() as int);
        let close = first_hit(after, Pat::Byte(GREATER));
        if close == after.len() {
            Err(LineError { column: off, reason: ReasonView::NoClosingIntegerSizeAngleBracket })
        } else {
            let inner = after.subrange(0, close);
            let unsigned = inner.len() > 0 && inner[0] == SMALL_U;
            let digits = if unsigned {
                inner.drop_first()
            } else {
                inner
            };
            match parse_dec(digits, 255) {
                None => Err(
                    LineError {
                        column: off + 1,
                        reason: ReasonView::InvalidIntegerSizeNumber(inner),
                    },
                ),
                Some(width) => Ok((Some(width as u8), unsigned, close + 2)),
            }
        }
    } else {
        Ok((None, false, 0))
    }
}

/// The array length of an entry, read from the text after its width.
/// `off` is the offset of `tail` within its line. What follows the closing
/// bracket is not looked at.
#[verifier::opaque]
pub open spec fn parse_array(tail: Seq<u8>, off: int) -> Result<Option<usize>, LineError> {
    if tail.len() > 0 && tail[0] == SQUARE_OPEN {
        let after = tail.subrange(1, tail.len() as int);
        let close = first_hit(after, Pat::Byte(SQUARE_CLOSE));
        if close == after.len() {
            Err(LineError { column: off, reason: ReasonView::NoClosingArraySizeSquareBracket })
        } else {
            let inner = after.subrange(0, close);
            match parse_dec(inner, usize::MAX as nat) {
                None => Err(
                    LineError {
                        column: off + 1,
                        reason: ReasonView::InvalidArraySizeNumber(inner),
                    },
                ),
                Some(length) => Ok(Some(length as usize)),
            }
        }
    } else {
        Ok(None)
    }
}

/// The tags of a declaration and the offset at which what follows them
/// starts. There is none if the block of tags is not closed.
#[verifier::opaque]
pub open spec fn tag_block(decl: Seq<u8>) -> Option<(Seq<u8>, int)> {
    if decl.len() > 0 && decl[0] == DOLLAR {
        let after = decl.subrange(1, decl.len() as int);
        let close = first_hit(after, Pat::Byte(DOLLAR));
        if close == after.len() {
            None
        } else {
            Some((after.subrange(0, close), close + 2))
        }
    } else {
        Some((Seq::empty(), 0))
    }
}

/// What an entry says after its tags.
pub struct Shape {
    pub name: Seq<u8>,
    pub integer_width: Option<u8>,
    pub unsigned: bool,
    pub array_size: Option<usize>,
}

/// The name, width and array length of an entry. The name ends at the
/// first `<` or `[`. `off` is the offset of `body` within its line.
#[verifier::opaque]
pub open spec fn parse_shape(body: Seq<u8>, off: int) -> Result<Shape, LineError> {
    let name_end = first_hit(body, Pat::Either(LESS, SQUARE_OPEN));
    let tail = body.subrange(name_end, body.len() as int);
    match parse_width(tail, off + name_end) {
        Err(e) => Err(e),
        Ok((integer_width, unsigned, used)) => match parse_array(
            tail.subrange(used, tail.len() as int),
            off + name_end + used,
        ) {
            Err(e) => Err(e),
            Ok(array_size) => Ok(
                Shape {
                    name: trim(body.subrange(0, name_end)),
                    integer_width,
                    unsigned,
                    array_size,
                },
            ),
        },
    }
}

/// The entry that a line declares.
///
/// The tags `id`, `noninline` and `relation` make the entry a primary key,
/// not inline, and a relation; other tags are passed over.
#[verifier::opaque]
pub open spec fn parse_entry(line: Seq<u8>) -> Result<RawEntryView, LineError> {
    let base = line_base(line);
    let decl = line_decl(line);
    match tag_block(decl) {
        None => Err(
            LineError { column: base, reason: ReasonView::NoClosingAnnotationDollarSign },
        ),
        Some((tags, start)) => match parse_shape(
            decl.subrange(start, decl.len() as int),
            base + start,
        ) {
            Err(e) => Err(e),
            Ok(shape) => Ok(
                RawEntryView {
                    name: shape.name,
                    comment: line_comment(line),
                    integer_width: shape.integer_width,
                    array_size: shape.array_size,
                    unsigned: shape.unsigned,
                    primary_key: has_tag(tags, utf8("id"@)),
                    inline: !has_tag(tags, utf8("noninline"@)),
                    relation: has_tag(tags, utf8("relation"@)),
                },
            ),
        },
    }
}

/// A version: four decimal numbers with dots between them. The first three
/// are at most 255, the last at most 65535.
#[verifier::opaque]
pub open spec fn parse_version(token: Seq<u8>) -> Option<Version> {
    let d1 = first_hit(token, Pat::Byte(DOT));
    let r1 = token.subrange(d1 + 1, token.len() as int);
    let d2 = first_hit(r1, Pat::Byte(DOT));
    let r2 = r1.subrange(d2 + 1, r1.len() as int);
    let d3 = first_hit(r2, Pat::Byte(DOT));
    let r3 = r2.subrange(d3 + 1, r2.len() as int);
    if d1 < token.len() && d2 < r1.len() && d3 < r2.len() {
        let major = parse_dec(token.subrange(0, d1), 255);
        let minor = parse_dec(r1.subrange(0, d2), 255);
        let patch = parse_dec(r2.subrange(0, d3), 255);
        let build = parse_dec(r3, 65535);
        if major is Some && minor is Some && patch is Some && build is Some {
            Some(
                Version {
                    major: major->Some_0 as u8,
                    minor: minor->Some_0 as u8,
                    patch: patch->Some_0 as u8,
                    build: build->Some_0 as u16,
                },
            )
        } else {
            None
        }
    } else {
        None
    }
}

/// One item of a list of builds.
#[derive(Clone, Copy, Debug, PartialEq, Eq)]
pub enum Build {
    Exact(Version),
    Range(VersionRange),
}

/// An item of a list of builds: a version, or two with a dash between
/// them.
#[verifier::opaque]
pub open spec fn parse_build(item: Seq<u8>) -> Option<Build> {
    let dash = first_hit(item, Pat::Byte(DASH));
    if dash == item.len() {
        match parse_version(item) {
            Some(v) => Some(Build::Exact(v)),
            None => None,
        }
    } else {
        let from = parse_version(trim(item.subrange(0, dash)));
        let to = parse_version(trim(item.subrange(dash + 1, item.len() as int)));
        if from is Some && to is Some {
            Some(Build::Range(VersionRange { from: from->Some_0, to: to->Some_0 }))
        } else {
            None
        }
    }
}

/// `definition` with one more build: a version joins the set of versions,
/// a range is added after the ranges that are there.
pub open spec fn add_build(definition: RawDefinitionView, build: Build) -> RawDefinitionView {
    match build {
        Build::Exact(v) => RawDefinitionView {
            versions: with_item(definition.versions, v),
            ..definition
        },
        Build::Range(r) => RawDefinitionView {
            version_ranges: definition.version_ranges.push(r),
            ..definition
        },
    }
}

/// `definition` with one more layout in its set of layouts.
pub open spec fn add_layout(definition: RawDefinitionView, layout: Layout) -> RawDefinitionView {
    RawDefinitionView { layouts: with_item(definition.layouts, layout), ..definition }
}

/// `definition` with the builds of a list added, which are set apart by
/// commas. `off` is the offset of the list within its line.
pub open spec fn parse_builds(list: Seq<u8>, off: int, definition: RawDefinitionView) -> Result<
    RawDefinitionView,
    LineError,
>
    decreases list.len(),
{
    let k = first_hit(list, Pat::Byte(COMMA));
    let piece = list.subrange(0, k);
    match parse_build(trim(piece)) {
        None => Err(
            LineError {
                column: off + solid_start(piece),
                reason: ReasonView::InvalidBuild(trim(piece)),
            },
        ),
        Some(build) => if 0 <= k < list.len() {
            parse_builds(
                list.subrange(k + 1, list.len() as int),
                off + k + 1,
                add_build(definition, build),
            )
        } else {
            Ok(add_build(definition, build))
        },
    }
}

/// `definition` with the layouts of a list added, which are hexadecimal
/// numbers of 32 bits, set apart by commas. `off` is the offset of the list
/// within its line.
pub open spec fn parse_layouts(list: Seq<u8>, off: int, definition: RawDefinitionView) -> Result<
    RawDefinitionView,
    LineError,
>
    decreases list.len(),
{
    let k = first_hit(list, Pat::Byte(COMMA));
    let piece = list.subrange(0, k);
    match parse_hex(trim(piece), u32::MAX as nat) {
        None => Err(
            LineError {
                column: off + solid_start(piece),
                reason: ReasonView::InvalidLayout(trim(piece)),
            },
        ),
        Some(value) => if 0 <= k < list.len() {
            parse_layouts(
                list.subrange(k + 1, list.len() as int),
                off + k + 1,
                add_layout(definition, Layout { inner: value as u32 }),
            )
        } else {
            Ok(add_layout(definition, Layout { inner: value as u32 }))
        },
    }
}

/// `decl` starts with the keyword `word`, which ends there or is followed
/// by a blank.
pub open spec fn has_keyword(decl: Seq<u8>, word: Seq<u8>) -> bool {
    &&& decl.len() >= word.len()
    &&& decl.subrange(0, word.len() as int) == word
    &&& (decl.len() == word.len() || is_blank(decl[word.len() as int]))
}

/// The part of a document that a line belongs to.
#[derive(Clone, Copy, Debug, PartialEq, Eq)]
pub enum Section {
    Header,
    Columns,
    Definitions,
}

/// What has been read of a document.
pub struct Progress {
    pub section: Section,
    pub columns: Seq<RawColumnView>,
    pub definitions: Seq<RawDefinitionView>,
    /// The definition that the lines read last belong to.
    pub current: RawDefinitionView,
}

pub open spec fn empty_definition() -> RawDefinitionView {
    RawDefinitionView {
        versions: Seq::empty(),
        version_ranges: Seq::empty(),
        layouts: Seq::empty(),
        entries: Seq::empty(),
    }
}

pub open spec fn is_empty_definition(d: RawDefinitionView) -> bool {
    d.versions.len() == 0 && d.version_ranges.len() == 0 && d.layouts.len() == 0
        && d.entries.len() == 0
}

/// Nothing read yet.
pub open spec fn start() -> Progress {
    Progress {
        section: Section::Header,
        columns: Seq::empty(),
        definitions: Seq::empty(),
        current: empty_definition(),
    }
}

/// The definition in progress joins the others, unless nothing was read
/// for it.
pub open spec fn close_definition(p: Progress) -> Progress {
    if is_empty_definition(p.current) {
        p
    } else {
        Progress {
            definitions: p.definitions.push(p.current),
            current: empty_definition(),
            ..p
        }
    }
}

/// What follows the keyword `word` in `decl`.
pub open spec fn after_keyword(decl: Seq<u8>, word: Seq<u8>) -> Seq<u8> {
    decl.subrange(word.len() as int, decl.len() as int)
}

/// The step that a line of the definitions makes.
pub open spec fn definition_line(p: Progress, line: Seq<u8>) -> Result<Progress, LineError> {
    let decl = line_decl(line);
    let base = line_base(line);
    let layout = utf8("LAYOUT"@);
    let build = utf8("BUILD"@);
    if all_blank(line) {
        Ok(close_definition(p))
    } else if has_keyword(decl, utf8("COMMENT"@)) {
        Ok(p)
    } else if has_keyword(decl, layout) {
        match parse_layouts(after_keyword(decl, layout), base + layout.len(), p.current) {
            Err(e) => Err(e),
            Ok(current) => Ok(Progress { current, ..p }),
        }
    } else if has_keyword(decl, build) {
        match parse_builds(after_keyword(decl, build), base + build.len(), p.current) {
            Err(e) => Err(e),
            Ok(current) => Ok(Progress { current, ..p }),
        }
    } else {
        match parse_entry(line) {
            Err(e) => Err(e),
            Ok(entry) => Ok(
                Progress {
                    current: RawDefinitionView {
                        entries: p.current.entries.push(entry),
                        ..p.current
                    },
                    ..p
                },
            ),
        }
    }
}

/// The step that one line makes.
pub open spec fn step(p: Progress, line: Seq<u8>) -> Result<Progress, LineError> {
    match p.section {
        Section::Header => Ok(Progress { section: Section::Columns, ..p }),
        Section::Columns => if all_blank(line) {
            Ok(Progress { section: Section::Definitions, ..p })
        } else {
            match parse_column(line) {
                Err(e) => Err(e),
                Ok(column) => Ok(Progress { columns: declare(p.columns, column), ..p }),
            }
        },
        Section::Definitions => definition_line(p, line),
    }
}

/// The steps of all lines of `text`, the first of which is line `line`.
pub open spec fn parse_lines(text: Seq<u8>, line: int, p: Progress) -> Result<
    Progress,
    ParseErrorView,
>
    decreases text.len(),
{
    let k = first_hit(text, Pat::Byte(LINE_FEED));
    match step(p, text.subrange(0, k)) {
        Err(e) => Err(ParseErrorView { column: e.column, line, reason: e.reason }),
        Ok(next) => if 0 <= k < text.len() {
            parse_lines(text.subrange(k + 1, text.len() as int), line + 1, next)
        } else {
            Ok(next)
        },
    }
}

/// The document that `text` holds, under the name `name`, or the first
/// failure in it.
pub open spec fn parse_document(text: Seq<u8>, name: Seq<char>) -> Result<
    RawDbdFileView,
    ParseErrorView,
> {
    match parse_lines(text, 0, start()) {
        Err(e) => Err(e),
        Ok(p) => Ok(
            RawDbdFileView {
                name,
                columns: close_definition(p).columns,
                definitions: close_definition(p).definitions,
            },
        ),
    }
}

} // verus!

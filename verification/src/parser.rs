//! Reading a document.
use crate::canon::file_ok;
use crate::error::{DbdErrorReason, ParseError};
use crate::file::{RawDbdFile, RawDefinition};
use crate::grammar::{
    after_keyword, close_definition, comment_start, definition_line, has_keyword, has_tag,
    line_base, line_comment, line_decl, parse_array, parse_build, parse_builds, parse_column,
    parse_document, parse_entry, parse_layouts, parse_lines, parse_shape, parse_version,
    parse_width, split_key, start, step, storage_kind, tag_block, Build, LineError, Progress,
    Section, Shape, COLON, COMMA, DASH, DOLLAR, DOT, GREATER, LESS, LINE_FEED, QUESTION, SLASH,
    SMALL_U, SQUARE_CLOSE, SQUARE_OPEN,
};
use crate::locate::{after_first_line, has_place, skip_lines};
use crate::number::{read_dec, read_hex};
use crate::ordered::add_item;
use crate::parsed::lemma_read_document_ok;
use crate::text::{
    cut_ok, find_in, first_hit, lemma_cut_is_boundary, lemma_trim, same_bytes, substr, trim,
    trim_in, utf8, Pat,
};
use crate::types::{
    lemma_views_push, opt_key, opt_utf8, ForeignKey, ForeignKeyView, Layout, RawColumn, RawEntry,
    RawType,
};
use crate::version::{Version, VersionRange};
use vstd::prelude::*;
use vstd::slice::slice_subrange;
use vstd::string::{StringExecFns, StringSliceAdditionalSpecFns};
use vstd::utf8::{encode_utf8_valid_utf8, valid_utf8_split};

verus! {

/// A failure as the functions that read a line report it: the offset within
/// the line and the reason.
pub open spec fn fault(f: (usize, DbdErrorReason)) -> LineError {
    LineError { column: f.0 as int, reason: f.1@ }
}

/// The bytes `lo` to `hi` of `line` as a text of their own.
fn owned(line: &str, lo: usize, hi: usize) -> (r: String)
    requires
        lo <= hi <= utf8(line@).len(),
        cut_ok(utf8(line@), lo as int),
        cut_ok(utf8(line@), hi as int),
    ensures
        utf8(r@) == utf8(line@).subrange(lo as int, hi as int),
{
    String::from_str(substr(line, lo, hi))
}

/// Splits a line: where its declaration starts and ends, and its comment.
fn head_of(line: &str) -> (r: (usize, usize, Option<String>))
    ensures
        r.0 == line_base(utf8(line@)),
        r.0 <= r.1 <= comment_start(utf8(line@)) <= utf8(line@).len(),
        utf8(line@).subrange(r.0 as int, r.1 as int) == line_decl(utf8(line@)),
        opt_utf8(r.2) == line_comment(utf8(line@)),
        cut_ok(utf8(line@), r.0 as int),
        cut_ok(utf8(line@), r.1 as int),
{
    let bytes = line.as_bytes();
    let ghost text = utf8(line@);
    let n = bytes.len();
    let c = find_in(bytes, 0, n, Pat::Pair(SLASH, SLASH));
    assert(text.subrange(0, n as int) =~= text);
    let (a, e) = trim_in(bytes, 0, c);
    let comment = if c < n {
        assert(text[c as int] == SLASH && text[c + 1] == SLASH);
        let (ca, ce) = trim_in(bytes, c + 2, n);
        Some(owned(line, c + 2 + ca, c + 2 + ce))
    } else {
        None
    };
    (a, e, comment)
}

/// Reads the foreign key of the token that spans the bytes `lo` to `hi` of
/// `line`. Gives where the token ends without the key, and the key.
#[verifier::rlimit(30)]
fn read_key(line: &str, lo: usize, hi: usize) -> (r: Result<
    (usize, Option<ForeignKey>),
    (usize, DbdErrorReason),
>)
    requires
        lo <= hi <= utf8(line@).len(),
        cut_ok(utf8(line@), lo as int),
        cut_ok(utf8(line@), hi as int),
    ensures
        match r {
            Ok((end, key)) => {
                &&& lo <= end <= hi
                &&& cut_ok(utf8(line@), end as int)
                &&& split_key(utf8(line@).subrange(lo as int, hi as int), lo as int) == Ok::<
                    (Seq<u8>, Option<ForeignKeyView>),
                    LineError,
                >((utf8(line@).subrange(lo as int, end as int), opt_key(key)))
            },
            Err(f) => {
                &&& cut_ok(utf8(line@), f.0 as int)
                &&& split_key(utf8(line@).subrange(lo as int, hi as int), lo as int) == Err::<
                    (Seq<u8>, Option<ForeignKeyView>),
                    LineError,
                >(fault(f))
            },
        },
{
    reveal(split_key);
    let bytes = line.as_bytes();
    let ghost text = utf8(line@);
    let ghost token = text.subrange(lo as int, hi as int);
    let open = find_in(bytes, lo, hi, Pat::Byte(LESS));
    if open == hi - lo {
        return Ok((hi, None));
    }
    let a = lo + open + 1;
    assert(token[open as int] == text[lo + open]);
    let ghost after = token.subrange(open + 1, token.len() as int);
    assert(after =~= text.subrange(a as int, hi as int));
    let close = find_in(bytes, a, hi, Pat::Byte(GREATER));
    if close == hi - a {
        return Err((lo + open, DbdErrorReason::NoClosingForeignKeyAngleBracket));
    }
    assert(after[close as int] == text[a + close]);
    let ghost inner = after.subrange(0, close as int);
    assert(inner =~= text.subrange(a as int, a + close));
    let sep = find_in(bytes, a, a + close, Pat::Pair(COLON, COLON));
    if sep == close {
        return Err((lo + open, DbdErrorReason::NoDoubleColonInForeignKey));
    }
    assert(inner[sep as int] == text[a + sep]);
    assert(inner[sep + 1] == text[a + sep + 1]);
    let database = owned(line, a, a + sep);
    let column = owned(line, a + sep + 2, a + close);
    proof {
        assert(inner.subrange(0, sep as int) =~= text.subrange(a as int, a + sep));
        assert(inner.subrange(sep + 2, inner.len() as int) =~= text.subrange(
            a + sep + 2,
            a + close,
        ));
        assert(token.subrange(0, open as int) =~= text.subrange(lo as int, lo + open));
    }
    Ok((lo + open, Some(ForeignKey { database, column })))
}

/// The storage kind that the bytes `lo` to `hi` name.
fn kind_of(bytes: &[u8], lo: usize, hi: usize) -> (r: Option<RawType>)
    requires
        lo <= hi <= bytes@.len(),
    ensures
        r == storage_kind(bytes@.subrange(lo as int, hi as int)),
{
    let word = slice_subrange(bytes, lo, hi);
    if same_bytes(word, "int".as_bytes()) {
        Some(RawType::Int)
    } else if same_bytes(word, "float".as_bytes()) {
        Some(RawType::Float)
    } else if same_bytes(word, "locstring".as_bytes()) {
        Some(RawType::LocString)
    } else if same_bytes(word, "string".as_bytes()) {
        Some(RawType::String)
    } else {
        None
    }
}

/// Reads the line of a column.
pub fn read_column(line: &str) -> (r: Result<RawColumn, (usize, DbdErrorReason)>)
    ensures
        match r {
            Ok(c) => parse_column(utf8(line@)) is Ok && parse_column(utf8(line@))->Ok_0 == c@,
            Err(f) => {
                &&& parse_column(utf8(line@)) is Err
                &&& parse_column(utf8(line@))->Err_0 == fault(f)
                &&& cut_ok(utf8(line@), f.0 as int)
            },
        },
{
    reveal(parse_column);
    let bytes = line.as_bytes();
    let ghost text = utf8(line@);
    let (base, end, comment) = head_of(line);
    let ghost decl = line_decl(text);
    let gap = find_in(bytes, base, end, Pat::Blank);
    if gap == end - base {
        return Err((base, DbdErrorReason::NoSpaceInColumn));
    }
    let g = base + gap;
    assert(decl[gap as int] == text[g as int]);
    assert(decl.subrange(0, gap as int) =~= text.subrange(base as int, g as int));
    let (word_end, kind_key) = match read_key(line, base, g) {
        Ok(found) => found,
        Err(f) => {
            return Err(f);
        },
    };
    let ty = match kind_of(bytes, base, word_end) {
        Some(ty) => ty,
        None => {
            return Err((base, DbdErrorReason::InvalidType(owned(line, base, word_end))));
        },
    };
    let ghost tail = decl.subrange(gap as int, decl.len() as int);
    assert(tail =~= text.subrange(g as int, end as int));
    let (ra, re) = trim_in(bytes, g, end);
    let rest_lo = g + ra;
    let rest_hi = g + re;
    let ghost rest = trim(tail);
    let unverified = rest_hi > rest_lo && bytes[rest_hi - 1] == QUESTION;
    let named_hi = if unverified {
        rest_hi - 1
    } else {
        rest_hi
    };
    proof {
        if rest.len() > 0 {
            assert(rest.last() == text[rest_hi - 1]);
        }
        let named = if unverified {
            rest.drop_last()
        } else {
            rest
        };
        assert(named =~= text.subrange(rest_lo as int, named_hi as int));
    }
    let (name_end, name_key) = match read_key(line, rest_lo, named_hi) {
        Ok(found) => found,
        Err(f) => {
            return Err(f);
        },
    };
    let (na, ne) = trim_in(bytes, rest_lo, name_end);
    let name = owned(line, rest_lo + na, rest_lo + ne);
    let foreign_key = match name_key {
        Some(k) => Some(k),
        None => kind_key,
    };
    Ok(RawColumn { name, ty, foreign_key, verified: !unverified, comment })
}

/// Whether `word` is one of the tags that span the bytes `lo` to `hi`.
fn find_tag(bytes: &[u8], lo: usize, hi: usize, word: &str) -> (r: bool)
    requires
        lo <= hi <= bytes@.len(),
    ensures
        r == has_tag(bytes@.subrange(lo as int, hi as int), utf8(word@)),
{
    let ghost tags = bytes@.subrange(lo as int, hi as int);
    let mut pos: usize = lo;
    assert(bytes@.subrange(lo as int, hi as int) =~= tags);
    loop
        invariant_except_break
            lo <= pos <= hi <= bytes@.len(),
            tags == bytes@.subrange(lo as int, hi as int),
            has_tag(tags, utf8(word@)) == has_tag(
                bytes@.subrange(pos as int, hi as int),
                utf8(word@),
            ),
        ensures
            lo <= pos <= hi,
            has_tag(tags, utf8(word@)),
        decreases hi - pos,
    {
        let ghost rest = bytes@.subrange(pos as int, hi as int);
        let k = find_in(bytes, pos, hi, Pat::Byte(COMMA));
        let (a, e) = trim_in(bytes, pos, pos + k);
        proof {
            assert(rest.subrange(0, k as int) =~= bytes@.subrange(pos as int, pos + k));
            if pos + k < hi {
                assert(rest.subrange(k + 1, rest.len() as int) =~= bytes@.subrange(
                    pos + k + 1,
                    hi as int,
                ));
            }
        }
        if same_bytes(slice_subrange(bytes, pos + a, pos + e), word.as_bytes()) {
            break ;
        }
        if pos + k == hi {
            return false;
        }
        pos = pos + k + 1;
    }
    true
}

/// Reads the width that may start at byte `lo` of `line`: the width,
/// whether it is unsigned, and where what follows it starts.
fn read_width(line: &str, lo: usize, hi: usize) -> (r: Result<
    (Option<u8>, bool, usize),
    (usize, DbdErrorReason),
>)
    requires
        lo <= hi <= utf8(line@).len(),
        cut_ok(utf8(line@), lo as int),
        cut_ok(utf8(line@), hi as int),
    ensures
        match r {
            Ok((width, unsigned, next)) => {
                &&& lo <= next <= hi
                &&& cut_ok(utf8(line@), next as int)
                &&& parse_width(utf8(line@).subrange(lo as int, hi as int), lo as int) is Ok
                &&& parse_width(utf8(line@).subrange(lo as int, hi as int), lo as int)->Ok_0 == (
                    width,
                    unsigned,
                    next - lo,
                )
            },
            Err(f) => {
                &&& cut_ok(utf8(line@), f.0 as int)
                &&& parse_width(utf8(line@).subrange(lo as int, hi as int), lo as int) is Err
                &&& parse_width(utf8(line@).subrange(lo as int, hi as int), lo as int)->Err_0
                    == fault(f)
            },
        },
{
    reveal(parse_width);
    let bytes = line.as_bytes();
    let ghost text = utf8(line@);
    let ghost tail = text.subrange(lo as int, hi as int);
    if lo == hi || bytes[lo] != LESS {
        return Ok((None, false, lo));
    }
    let a = lo + 1;
    let ghost after = tail.subrange(1, tail.len() as int);
    assert(after =~= text.subrange(a as int, hi as int));
    let close = find_in(bytes, a, hi, Pat::Byte(GREATER));
    if close == hi - a {
        return Err((lo, DbdErrorReason::NoClosingIntegerSizeAngleBracket));
    }
    assert(after[close as int] == text[a + close]);
    let ghost inner = after.subrange(0, close as int);
    assert(inner =~= text.subrange(a as int, a + close));
    let unsigned = close > 0 && bytes[a] == SMALL_U;
    let d = if unsigned {
        a + 1
    } else {
        a
    };
    proof {
        if close > 0 {
            assert(inner[0] == text[a as int]);
        }
        let digits = if unsigned {
            inner.drop_first()
        } else {
            inner
        };
        assert(digits =~= text.subrange(d as int, a + close));
    }
    match read_dec(slice_subrange(bytes, d, a + close), 255) {
        Some(v) => Ok((Some(v as u8), unsigned, a + close + 1)),
        None => Err((a, DbdErrorReason::InvalidIntegerSizeNumber(owned(line, a, a + close)))),
    }
}

/// Reads the array length that may start at byte `lo` of `line`.
fn read_array(line: &str, lo: usize, hi: usize) -> (r: Result<
    Option<usize>,
    (usize, DbdErrorReason),
>)
    requires
        lo <= hi <= utf8(line@).len(),
        cut_ok(utf8(line@), lo as int),
        cut_ok(utf8(line@), hi as int),
    ensures
        match r {
            Ok(length) => {
                &&& parse_array(utf8(line@).subrange(lo as int, hi as int), lo as int) is Ok
                &&& parse_array(utf8(line@).subrange(lo as int, hi as int), lo as int)->Ok_0
                    == length
            },
            Err(f) => {
                &&& cut_ok(utf8(line@), f.0 as int)
                &&& parse_array(utf8(line@).subrange(lo as int, hi as int), lo as int) is Err
                &&& parse_array(utf8(line@).subrange(lo as int, hi as int), lo as int)->Err_0
                    == fault(f)
            },
        },
{
    reveal(parse_array);
    let bytes = line.as_bytes();
    let ghost text = utf8(line@);
    let ghost tail = text.subrange(lo as int, hi as int);
    if lo == hi || bytes[lo] != SQUARE_OPEN {
        return Ok(None);
    }
    let a = lo + 1;
    let ghost after = tail.subrange(1, tail.len() as int);
    assert(after =~= text.subrange(a as int, hi as int));
    let close = find_in(bytes, a, hi, Pat::Byte(SQUARE_CLOSE));
    if close == hi - a {
        return Err((lo, DbdErrorReason::NoClosingArraySizeSquareBracket));
    }
    assert(after[close as int] == text[a + close]);
    let ghost inner = after.subrange(0, close as int);
    assert(inner =~= text.subrange(a as int, a + close));
    match read_dec(slice_subrange(bytes, a, a + close), usize::MAX as u64) {
        Some(v) => Ok(Some(v as usize)),
        None => Err((a, DbdErrorReason::InvalidArraySizeNumber(owned(line, a, a + close)))),
    }
}

/// The tags of an entry.
struct Tags {
    primary_key: bool,
    noninline: bool,
    relation: bool,
}

/// Reads the tags of the declaration that spans the bytes `lo` to `hi` of
/// a line, and where what follows them starts. There is none if the block
/// of tags is not closed.
fn read_tags(bytes: &[u8], lo: usize, hi: usize) -> (r: Option<(Tags, usize)>)
    requires
        lo <= hi <= bytes@.len(),
        cut_ok(bytes@, lo as int),
        cut_ok(bytes@, hi as int),
    ensures
        match r {
            None => tag_block(bytes@.subrange(lo as int, hi as int)) is None,
            Some((tags, start)) => {
                let block = tag_block(bytes@.subrange(lo as int, hi as int));
                &&& block is Some
                &&& block->Some_0.1 == start - lo
                &&& lo <= start <= hi
                &&& cut_ok(bytes@, start as int)
                &&& tags.primary_key == has_tag(block->Some_0.0, utf8("id"@))
                &&& tags.noninline == has_tag(block->Some_0.0, utf8("noninline"@))
                &&& tags.relation == has_tag(block->Some_0.0, utf8("relation"@))
            },
        },
{
    reveal(tag_block);
    let ghost decl = bytes@.subrange(lo as int, hi as int);
    if lo == hi || bytes[lo] != DOLLAR {
        let ghost none = Seq::<u8>::empty();
        proof {
            lemma_trim(none);
            assert(none.subrange(0, first_hit(none, Pat::Byte(COMMA))) =~= none);
            reveal_strlit("id");
            reveal_strlit("noninline");
            reveal_strlit("relation");
            vstd::utf8::is_ascii_chars_encode_utf8("id"@);
            vstd::utf8::is_ascii_chars_encode_utf8("noninline"@);
            vstd::utf8::is_ascii_chars_encode_utf8("relation"@);
        }
        return Some((Tags { primary_key: false, noninline: false, relation: false }, lo));
    }
    let a = lo + 1;
    let ghost after = decl.subrange(1, decl.len() as int);
    assert(after =~= bytes@.subrange(a as int, hi as int));
    let close = find_in(bytes, a, hi, Pat::Byte(DOLLAR));
    if close == hi - a {
        return None;
    }
    assert(after[close as int] == bytes@[a + close]);
    assert(after.subrange(0, close as int) =~= bytes@.subrange(a as int, a + close));
    let primary_key = find_tag(bytes, a, a + close, "id");
    let noninline = find_tag(bytes, a, a + close, "noninline");
    let relation = find_tag(bytes, a, a + close, "relation");
    Some((Tags { primary_key, noninline, relation }, a + close + 1))
}

/// What an entry says after its tags, as read.
struct EntryShape {
    name: String,
    integer_width: Option<u8>,
    unsigned: bool,
    array_size: Option<usize>,
}

impl View for EntryShape {
    type V = Shape;

    closed spec fn view(&self) -> Shape {
        Shape {
            name: utf8(self.name@),
            integer_width: self.integer_width,
            unsigned: self.unsigned,
            array_size: self.array_size,
        }
    }
}

/// Reads name, width and array length of the entry whose text spans the
/// bytes `lo` to `hi` of `line`.
fn read_shape(line: &str, lo: usize, hi: usize) -> (r: Result<EntryShape, (usize, DbdErrorReason)>)
    requires
        lo <= hi <= utf8(line@).len(),
        cut_ok(utf8(line@), lo as int),
        cut_ok(utf8(line@), hi as int),
    ensures
        match r {
            Ok(shape) => {
                &&& parse_shape(utf8(line@).subrange(lo as int, hi as int), lo as int) is Ok
                &&& parse_shape(utf8(line@).subrange(lo as int, hi as int), lo as int)->Ok_0
                    == shape@
            },
            Err(f) => {
                &&& cut_ok(utf8(line@), f.0 as int)
                &&& parse_shape(utf8(line@).subrange(lo as int, hi as int), lo as int) is Err
                &&& parse_shape(utf8(line@).subrange(lo as int, hi as int), lo as int)->Err_0
                    == fault(f)
            },
        },
{
    reveal(parse_shape);
    let bytes = line.as_bytes();
    let ghost text = utf8(line@);
    let ghost body = text.subrange(lo as int, hi as int);
    let name_len = find_in(bytes, lo, hi, Pat::Either(LESS, SQUARE_OPEN));
    let name_end = lo + name_len;
    proof {
        if name_len < hi - lo {
            assert(body[name_len as int] == text[name_end as int]);
        }
        assert(body.subrange(0, name_len as int) =~= text.subrange(lo as int, name_end as int));
        assert(body.subrange(name_len as int, body.len() as int) =~= text.subrange(
            name_end as int,
            hi as int,
        ));
    }
    let (integer_width, unsigned, next) = match read_width(line, name_end, hi) {
        Ok(found) => found,
        Err(f) => {
            return Err(f);
        },
    };
    proof {
        let tail = text.subrange(name_end as int, hi as int);
        assert(tail.subrange(next - name_end, tail.len() as int) =~= text.subrange(
            next as int,
            hi as int,
        ));
    }
    let array_size = match read_array(line, next, hi) {
        Ok(found) => found,
        Err(f) => {
            return Err(f);
        },
    };
    let (na, ne) = trim_in(bytes, lo, name_end);
    let name = owned(line, lo + na, lo + ne);
    Ok(EntryShape { name, integer_width, unsigned, array_size })
}

/// Reads the line of an entry.
pub fn read_entry(line: &str) -> (r: Result<RawEntry, (usize, DbdErrorReason)>)
    ensures
        match r {
            Ok(e) => parse_entry(utf8(line@)) is Ok && parse_entry(utf8(line@))->Ok_0 == e@,
            Err(f) => {
                &&& parse_entry(utf8(line@)) is Err
                &&& parse_entry(utf8(line@))->Err_0 == fault(f)
                &&& cut_ok(utf8(line@), f.0 as int)
            },
        },
{
    reveal(parse_entry);
    let bytes = line.as_bytes();
    let ghost text = utf8(line@);
    let (base, end, comment) = head_of(line);
    let ghost decl = line_decl(text);
    let (tags, start) = match read_tags(bytes, base, end) {
        Some(found) => found,
        None => {
            return Err((base, DbdErrorReason::NoClosingAnnotationDollarSign));
        },
    };
    assert(decl.subrange(start - base, decl.len() as int) =~= text.subrange(
        start as int,
        end as int,
    ));
    let shape = match read_shape(line, start, end) {
        Ok(shape) => shape,
        Err(f) => {
            return Err(f);
        },
    };
    Ok(
        RawEntry {
            name: shape.name,
            comment,
            integer_width: shape.integer_width,
            array_size: shape.array_size,
            unsigned: shape.unsigned,
            primary_key: tags.primary_key,
            inline: !tags.noninline,
            relation: tags.relation,
        },
    )
}

/// Reads the version that spans the bytes `lo` to `hi`.
fn read_version(bytes: &[u8], lo: usize, hi: usize) -> (r: Option<Version>)
    requires
        lo <= hi <= bytes@.len(),
    ensures
        r == parse_version(bytes@.subrange(lo as int, hi as int)),
{
    reveal(parse_version);
    let ghost token = bytes@.subrange(lo as int, hi as int);
    let d1 = find_in(bytes, lo, hi, Pat::Byte(DOT));
    if d1 == hi - lo {
        return None;
    }
    let a1 = lo + d1 + 1;
    let ghost r1 = token.subrange(d1 + 1, token.len() as int);
    assert(r1 =~= bytes@.subrange(a1 as int, hi as int));
    let d2 = find_in(bytes, a1, hi, Pat::Byte(DOT));
    if d2 == hi - a1 {
        return None;
    }
    let a2 = a1 + d2 + 1;
    let ghost r2 = r1.subrange(d2 + 1, r1.len() as int);
    assert(r2 =~= bytes@.subrange(a2 as int, hi as int));
    let d3 = find_in(bytes, a2, hi, Pat::Byte(DOT));
    if d3 == hi - a2 {
        return None;
    }
    let a3 = a2 + d3 + 1;
    proof {
        assert(r2.subrange(d3 + 1, r2.len() as int) =~= bytes@.subrange(a3 as int, hi as int));
        assert(token.subrange(0, d1 as int) =~= bytes@.subrange(lo as int, lo + d1));
        assert(r1.subrange(0, d2 as int) =~= bytes@.subrange(a1 as int, a1 + d2));
        assert(r2.subrange(0, d3 as int) =~= bytes@.subrange(a2 as int, a2 + d3));
    }
    let major = read_dec(slice_subrange(bytes, lo, lo + d1), 255);
    let minor = read_dec(slice_subrange(bytes, a1, a1 + d2), 255);
    let patch = read_dec(slice_subrange(bytes, a2, a2 + d3), 255);
    let build = read_dec(slice_subrange(bytes, a3, hi), 65535);
    match (major, minor, patch, build) {
        (Some(major), Some(minor), Some(patch), Some(build)) => Some(
            Version {
                major: major as u8,
                minor: minor as u8,
                patch: patch as u8,
                build: build as u16,
            },
        ),
        _ => None,
    }
}

/// Reads the build that spans the bytes `lo` to `hi`.
fn read_build(bytes: &[u8], lo: usize, hi: usize) -> (r: Option<Build>)
    requires
        lo <= hi <= bytes@.len(),
    ensures
        r == parse_build(bytes@.subrange(lo as int, hi as int)),
{
    reveal(parse_build);
    let ghost item = bytes@.subrange(lo as int, hi as int);
    let dash = find_in(bytes, lo, hi, Pat::Byte(DASH));
    if dash == hi - lo {
        return match read_version(bytes, lo, hi) {
            Some(v) => Some(Build::Exact(v)),
            None => None,
        };
    }
    let m = lo + dash;
    proof {
        assert(item.subrange(0, dash as int) =~= bytes@.subrange(lo as int, m as int));
        assert(item.subrange(dash + 1, item.len() as int) =~= bytes@.subrange(m + 1, hi as int));
    }
    let (fa, fe) = trim_in(bytes, lo, m);
    let (ta, te) = trim_in(bytes, m + 1, hi);
    let from = read_version(bytes, lo + fa, lo + fe);
    let to = read_version(bytes, m + 1 + ta, m + 1 + te);
    match (from, to) {
        (Some(from), Some(to)) => Some(Build::Range(VersionRange { from, to })),
        _ => None,
    }
}

/// Adds the builds of the list that spans the bytes `lo` to `hi` of `line`
/// to `definition`.
fn read_builds(line: &str, lo: usize, hi: usize, definition: RawDefinition) -> (r: Result<
    RawDefinition,
    (usize, DbdErrorReason),
>)
    requires
        lo <= hi <= utf8(line@).len(),
        cut_ok(utf8(line@), lo as int),
        cut_ok(utf8(line@), hi as int),
    ensures
        match r {
            Ok(d) => {
                let parsed = parse_builds(
                    utf8(line@).subrange(lo as int, hi as int),
                    lo as int,
                    definition@,
                );
                parsed is Ok && parsed->Ok_0 == d@
            },
            Err(f) => {
                let parsed = parse_builds(
                    utf8(line@).subrange(lo as int, hi as int),
                    lo as int,
                    definition@,
                );
                parsed is Err && parsed->Err_0 == fault(f) && cut_ok(utf8(line@), f.0 as int)
            },
        },
{
    let bytes = line.as_bytes();
    let ghost text = utf8(line@);
    let ghost given = definition@;
    let ghost whole = parse_builds(text.subrange(lo as int, hi as int), lo as int, given);
    let mut out = definition;
    let mut pos: usize = lo;
    loop
        invariant_except_break
            lo <= pos <= hi <= text.len(),
            text == utf8(line@),
            text == bytes@,
            cut_ok(text, pos as int),
            cut_ok(text, hi as int),
            whole == parse_builds(text.subrange(pos as int, hi as int), pos as int, out@),
        invariant
            given == definition@,
            whole == parse_builds(text.subrange(lo as int, hi as int), lo as int, given),
        ensures
            whole is Ok && whole->Ok_0 == out@,
        decreases hi - pos,
    {
        let ghost list = text.subrange(pos as int, hi as int);
        let k = find_in(bytes, pos, hi, Pat::Byte(COMMA));
        proof {
            assert(list.subrange(0, k as int) =~= text.subrange(pos as int, pos + k));
            if pos + k < hi {
                assert(list[k as int] == text[pos + k]);
                assert(list.subrange(k + 1, list.len() as int) =~= text.subrange(
                    pos + k + 1,
                    hi as int,
                ));
            }
        }
        let (a, e) = trim_in(bytes, pos, pos + k);
        match read_build(bytes, pos + a, pos + e) {
            None => {
                return Err((pos + a, DbdErrorReason::InvalidBuild(owned(line, pos + a, pos + e))));
            },
            Some(Build::Exact(v)) => {
                add_item(&mut out.versions, v);
            },
            Some(Build::Range(r)) => {
                out.version_ranges.push(r);
            },
        }
        if pos + k == hi {
            break ;
        }
        pos = pos + k + 1;
    }
    Ok(out)
}

/// Adds the layouts of the list that spans the bytes `lo` to `hi` of
/// `line` to `definition`.
fn read_layouts(line: &str, lo: usize, hi: usize, definition: RawDefinition) -> (r: Result<
    RawDefinition,
    (usize, DbdErrorReason),
>)
    requires
        lo <= hi <= utf8(line@).len(),
        cut_ok(utf8(line@), lo as int),
        cut_ok(utf8(line@), hi as int),
    ensures
        match r {
            Ok(d) => {
                let parsed = parse_layouts(
                    utf8(line@).subrange(lo as int, hi as int),
                    lo as int,
                    definition@,
                );
                parsed is Ok && parsed->Ok_0 == d@
            },
            Err(f) => {
                let parsed = parse_layouts(
                    utf8(line@).subrange(lo as int, hi as int),
                    lo as int,
                    definition@,
                );
                parsed is Err && parsed->Err_0 == fault(f) && cut_ok(utf8(line@), f.0 as int)
            },
        },
{
    let bytes = line.as_bytes();
    let ghost text = utf8(line@);
    let ghost given = definition@;
    let ghost whole = parse_layouts(text.subrange(lo as int, hi as int), lo as int, given);
    let mut out = definition;
    let mut pos: usize = lo;
    loop
        invariant_except_break
            lo <= pos <= hi <= text.len(),
            text == utf8(line@),
            text == bytes@,
            cut_ok(text, pos as int),
            cut_ok(text, hi as int),
            whole == parse_layouts(text.subrange(pos as int, hi as int), pos as int, out@),
        invariant
            given == definition@,
            whole == parse_layouts(text.subrange(lo as int, hi as int), lo as int, given),
        ensures
            whole is Ok && whole->Ok_0 == out@,
        decreases hi - pos,
    {
        let ghost list = text.subrange(pos as int, hi as int);
        let k = find_in(bytes, pos, hi, Pat::Byte(COMMA));
        proof {
            assert(list.subrange(0, k as int) =~= text.subrange(pos as int, pos + k));
            if pos + k < hi {
                assert(list[k as int] == text[pos + k]);
                assert(list.subrange(k + 1, list.len() as int) =~= text.subrange(
                    pos + k + 1,
                    hi as int,
                ));
            }
        }
        let (a, e) = trim_in(bytes, pos, pos + k);
        match read_hex(slice_subrange(bytes, pos + a, pos + e), u32::MAX as u64) {
            None => {
                return Err((pos + a, DbdErrorReason::InvalidLayout(owned(line, pos + a, pos + e))));
            },
            Some(value) => {
                add_item(&mut out.layouts, Layout { inner: value as u32 });
            },
        }
        if pos + k == hi {
            break ;
        }
        pos = pos + k + 1;
    }
    Ok(out)
}

/// What has been read of a document.
struct Reading {
    section: Section,
    file: RawDbdFile,
    /// The definition that the lines read last belong to.
    current: RawDefinition,
}

impl View for Reading {
    type V = Progress;

    closed spec fn view(&self) -> Progress {
        Progress {
            section: self.section,
            columns: self.file@.columns,
            definitions: self.file@.definitions,
            current: self.current@,
        }
    }
}

/// Whether the declaration that spans the bytes `lo` to `hi` starts with
/// the keyword `word`.
pub(crate) fn has_word(bytes: &[u8], lo: usize, hi: usize, word: &str) -> (r: bool)
    requires
        lo <= hi <= bytes@.len(),
        cut_ok(bytes@, hi as int),
    ensures
        r == has_keyword(bytes@.subrange(lo as int, hi as int), utf8(word@)),
        r ==> lo + utf8(word@).len() <= hi && cut_ok(bytes@, lo + utf8(word@).len()),
{
    let w = word.as_bytes();
    let ghost decl = bytes@.subrange(lo as int, hi as int);
    if hi - lo < w.len() {
        return false;
    }
    proof {
        assert(decl.subrange(0, w@.len() as int) =~= bytes@.subrange(lo as int, lo + w@.len()));
        if hi - lo > w@.len() {
            assert(decl[w@.len() as int] == bytes@[lo + w@.len()]);
        }
    }
    same_bytes(slice_subrange(bytes, lo, lo + w.len()), w) && (hi - lo == w.len() || {
        let b = bytes[lo + w.len()];
        b == 0x20 || b == 0x09 || b == 0x0d
    })
}

/// The definition in progress joins the others, unless nothing was read
/// for it.
fn close_current(reading: Reading) -> (out: Reading)
    ensures
        out@ == close_definition(reading@),
        out.file.name == reading.file.name,
{
    let Reading { section, file, current } = reading;
    if current.versions.len() == 0 && current.version_ranges.len() == 0 && current.layouts.len()
        == 0 && current.entries.len() == 0 {
        return Reading { section, file, current };
    }
    let mut file = file;
    file.add_database(current);
    let fresh = RawDefinition::default();
    proof {
        assert(fresh@.versions =~= Seq::empty());
        assert(fresh@.version_ranges =~= Seq::empty());
        assert(fresh@.layouts =~= Seq::empty());
        assert(fresh@.entries =~= Seq::empty());
    }
    Reading { section, file, current: fresh }
}

/// Takes in a line of the definitions.
fn read_definition_line(line: &str, reading: Reading) -> (r: Result<
    Reading,
    (usize, DbdErrorReason),
>)
    ensures
        match r {
            Ok(next) => {
                &&& definition_line(reading@, utf8(line@)) is Ok
                &&& definition_line(reading@, utf8(line@))->Ok_0 == next@
                &&& next.file.name == reading.file.name
            },
            Err(f) => {
                &&& definition_line(reading@, utf8(line@)) is Err
                &&& definition_line(reading@, utf8(line@))->Err_0 == fault(f)
                &&& cut_ok(utf8(line@), f.0 as int)
            },
        },
{
    let bytes = line.as_bytes();
    let ghost text = utf8(line@);
    let n = bytes.len();
    assert(text.subrange(0, n as int) =~= text);
    let (blank_from, blank_to) = trim_in(bytes, 0, n);
    proof {
        lemma_trim(text);
    }
    if blank_from == blank_to {
        return Ok(close_current(reading));
    }
    let c = find_in(bytes, 0, n, Pat::Pair(SLASH, SLASH));
    let (base, end) = trim_in(bytes, 0, c);
    if has_word(bytes, base, end, "COMMENT") {
        return Ok(reading);
    }
    let Reading { section, file, current } = reading;
    if has_word(bytes, base, end, "LAYOUT") {
        let from = base + "LAYOUT".as_bytes().len();
        proof {
            let decl = line_decl(text);
            assert(after_keyword(decl, utf8("LAYOUT"@)) =~= text.subrange(from as int, end as int));
        }
        match read_layouts(line, from, end, current) {
            Ok(current) => Ok(Reading { section, file, current }),
            Err(f) => Err(f),
        }
    } else if has_word(bytes, base, end, "BUILD") {
        let from = base + "BUILD".as_bytes().len();
        proof {
            let decl = line_decl(text);
            assert(after_keyword(decl, utf8("BUILD"@)) =~= text.subrange(from as int, end as int));
        }
        match read_builds(line, from, end, current) {
            Ok(current) => Ok(Reading { section, file, current }),
            Err(f) => Err(f),
        }
    } else {
        match read_entry(line) {
            Ok(entry) => {
                let mut current = current;
                proof {
                    lemma_views_push(current.entries@, entry);
                }
                current.entries.push(entry);
                Ok(Reading { section, file, current })
            },
            Err(f) => Err(f),
        }
    }
}

/// Takes in one line.
fn read_line(line: &str, reading: Reading) -> (r: Result<Reading, (usize, DbdErrorReason)>)
    ensures
        match r {
            Ok(next) => {
                &&& step(reading@, utf8(line@)) is Ok
                &&& step(reading@, utf8(line@))->Ok_0 == next@
                &&& next.file.name == reading.file.name
            },
            Err(f) => {
                &&& step(reading@, utf8(line@)) is Err
                &&& step(reading@, utf8(line@))->Err_0 == fault(f)
                &&& cut_ok(utf8(line@), f.0 as int)
            },
        },
{
    match reading.section {
        Section::Header => Ok(
            Reading { section: Section::Columns, file: reading.file, current: reading.current },
        ),
        Section::Columns => {
            let bytes = line.as_bytes();
            let n = bytes.len();
            assert(utf8(line@).subrange(0, n as int) =~= utf8(line@));
            let (blank_from, blank_to) = trim_in(bytes, 0, n);
            proof {
                lemma_trim(utf8(line@));
            }
            if blank_from == blank_to {
                return Ok(
                    Reading {
                        section: Section::Definitions,
                        file: reading.file,
                        current: reading.current,
                    },
                );
            }
            match read_column(line) {
                Ok(column) => {
                    let mut file = reading.file;
                    file.add_column(column);
                    Ok(Reading { section: Section::Columns, file, current: reading.current })
                },
                Err(f) => Err(f),
            }
        },
        Section::Definitions => read_definition_line(line, reading),
    }
}

/// Reads a document. `name` becomes the name of the result.
///
/// The result is the document that the grammar finds in `contents`, or the
/// first failure, whose line and column name a place in `contents`.
pub fn parse_file(contents: &str, name: String) -> (r: Result<RawDbdFile, ParseError>)
    ensures
        match r {
            Ok(file) => {
                &&& parse_document(utf8(contents@), name@) is Ok
                &&& parse_document(utf8(contents@), name@)->Ok_0 == file@
                &&& file_ok(file@)
            },
            Err(e) => {
                &&& parse_document(utf8(contents@), name@) is Err
                &&& parse_document(utf8(contents@), name@)->Err_0 == e@
                &&& has_place(utf8(contents@), e.line as nat, e.column as nat)
            },
        },
{
    proof {
        if parse_document(utf8(contents@), name@) is Ok {
            lemma_read_document_ok(utf8(contents@), name@);
        }
    }
    let bytes = contents.as_bytes();
    let ghost text = utf8(contents@);
    let n = bytes.len();
    let first = Reading {
        section: Section::Header,
        file: RawDbdFile::empty(name),
        current: RawDefinition::default(),
    };
    proof {
        assert(first@.columns =~= Seq::empty());
        assert(first@.definitions =~= Seq::empty());
        assert(first@.current.versions =~= Seq::empty());
        assert(first@.current.version_ranges =~= Seq::empty());
        assert(first@.current.layouts =~= Seq::empty());
        assert(first@.current.entries =~= Seq::empty());
        assert(first@ == start());
        assert(text.subrange(0, n as int) =~= text);
        encode_utf8_valid_utf8(contents@);
    }
    let mut reading = first;
    let mut pos: usize = 0;
    let mut line_no: usize = 0;
    loop
        invariant_except_break
            pos <= n,
            line_no <= pos,
            cut_ok(text, pos as int),
            parse_lines(text, 0, start()) == parse_lines(
                text.subrange(pos as int, n as int),
                line_no as int,
                reading@,
            ),
            skip_lines(text, line_no as nat) == Some(text.subrange(pos as int, n as int)),
        invariant
            n == text.len(),
            text == bytes@,
            text == utf8(contents@),
            vstd::utf8::valid_utf8(text),
            reading.file.name@ == name@,
        ensures
            parse_lines(text, 0, start()) is Ok,
            parse_lines(text, 0, start())->Ok_0 == reading@,
        decreases n - pos,
    {
        let ghost rest = text.subrange(pos as int, n as int);
        let k = find_in(bytes, pos, n, Pat::Byte(LINE_FEED));
        proof {
            if pos + k < n {
                assert(rest[k as int] == text[pos + k]);
                assert(rest.subrange(k + 1, rest.len() as int) =~= text.subrange(
                    pos + k + 1,
                    n as int,
                ));
            }
            assert(rest.subrange(0, k as int) =~= text.subrange(pos as int, pos + k));
        }
        let line = substr(contents, pos, pos + k);
        match read_line(line, reading) {
            Ok(next) => {
                reading = next;
            },
            Err(f) => {
                proof {
                    let here = utf8(line@);
                    let column = f.0 as int;
                    lemma_cut_is_boundary(text, pos as int);
                    valid_utf8_split(text, pos as int);
                    if 0 < column < k {
                        assert(here[column] == rest[column]);
                        assert(here[column - 1] == rest[column - 1]);
                    }
                    if column == k && k > 0 {
                        assert(here[column - 1] == rest[column - 1]);
                    }
                    assert(cut_ok(rest, column));
                    lemma_cut_is_boundary(rest, column);
                }
                return Err(ParseError { column: f.0, line: line_no, reason: f.1 });
            },
        }
        if pos + k == n {
            break ;
        }
        proof {
            assert(skip_lines(text, (line_no + 1) as nat) == after_first_line(rest));
        }
        pos = pos + k + 1;
        line_no += 1;
    }
    let done = close_current(reading);
    Ok(done.file)
}

} // verus!

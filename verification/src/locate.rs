//! From a line and a column back to the text.
use crate::grammar::LINE_FEED;
use crate::text::{cut_ok, find_in, first_hit, lemma_cut_is_boundary, utf8, Pat};
use vstd::prelude::*;
use vstd::string::StringSliceAdditionalSpecFns;
use vstd::utf8::{encode_utf8_valid_utf8, is_char_boundary};

verus! {

/// `text` without its first line, if a line feed ends that line.
pub open spec fn after_first_line(text: Seq<u8>) -> Option<Seq<u8>> {
    let k = first_hit(text, Pat::Byte(LINE_FEED));
    if 0 <= k < text.len() {
        Some(text.subrange(k + 1, text.len() as int))
    } else {
        None
    }
}

/// `text` without its first `lines` lines. There is none if `text` has
/// fewer line feeds than that.
pub open spec fn skip_lines(text: Seq<u8>, lines: nat) -> Option<Seq<u8>>
    decreases lines,
{
    if lines == 0 {
        Some(text)
    } else {
        match skip_lines(text, (lines - 1) as nat) {
            None => None,
            Some(rest) => after_first_line(rest),
        }
    }
}

/// `text` has a line `line`, counted from zero, byte `column` lies within
/// what starts at that line, and no character is cut in two there.
pub open spec fn has_place(text: Seq<u8>, line: nat, column: nat) -> bool {
    match skip_lines(text, line) {
        None => false,
        Some(rest) => column <= rest.len() && is_char_boundary(rest, column as int),
    }
}

/// The text from byte `column` of line `line` to the end, if there is such
/// a place.
pub open spec fn text_at(text: Seq<u8>, line: nat, column: nat) -> Option<Seq<u8>> {
    if has_place(text, line, column) {
        let rest = skip_lines(text, line)->Some_0;
        Some(rest.subrange(column as int, rest.len() as int))
    } else {
        None
    }
}

pub proof fn lemma_skip_lines_runs_out(text: Seq<u8>, lines: nat, more: nat)
    requires
        skip_lines(text, lines) is None,
        lines <= more,
    ensures
        skip_lines(text, more) is None,
    decreases more,
{
    if lines < more {
        lemma_skip_lines_runs_out(text, lines, (more - 1) as nat);
    }
}

/// The text of `contents` from byte `column` of line `line` to the end, or
/// nothing if there is no such place.
pub fn text_after(contents: &str, line: usize, column: usize) -> (r: Option<&str>)
    ensures
        match r {
            Some(s) => text_at(utf8(contents@), line as nat, column as nat) == Some(utf8(s@)),
            None => text_at(utf8(contents@), line as nat, column as nat) is None,
        },
{
    let bytes = contents.as_bytes();
    let ghost text = utf8(contents@);
    let n = bytes.len();
    let mut pos: usize = 0;
    let mut i: usize = 0;
    assert(text.subrange(0, n as int) =~= text);
    while i < line
        invariant
            i <= line,
            pos <= n,
            n == text.len(),
            text == bytes@,
            text == utf8(contents@),
            cut_ok(text, pos as int),
            skip_lines(text, i as nat) == Some(text.subrange(pos as int, n as int)),
        decreases line - i,
    {
        let k = find_in(bytes, pos, n, Pat::Byte(LINE_FEED));
        if k == n - pos {
            proof {
                assert(skip_lines(text, (i + 1) as nat) is None);
                lemma_skip_lines_runs_out(text, (i + 1) as nat, line as nat);
            }
            return None;
        }
        proof {
            let rest = text.subrange(pos as int, n as int);
            assert(rest.subrange(k + 1, rest.len() as int) =~= text.subrange(
                pos + k + 1,
                n as int,
            ));
            assert(rest[k as int] == text[pos + k]);
            assert(skip_lines(text, (i + 1) as nat) == after_first_line(rest));
        }
        pos = pos + k + 1;
        i += 1;
    }
    proof {
        encode_utf8_valid_utf8(contents@);
        lemma_cut_is_boundary(text, pos as int);
    }
    let (_, rest) = contents.split_at(pos);
    if column > rest.len() || !rest.is_char_boundary(column) {
        return None;
    }
    let (_, tail) = rest.split_at(column);
    Some(tail)
}

} // verus!

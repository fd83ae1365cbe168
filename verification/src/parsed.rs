//! What is read is well formed.
use crate::canon::{
    column_ok, columns_ok, comment_ok, definition_ok, definitions_ok, entries_ok, entry_ok, file_ok,
    is_plain, opt_key_ok,
};
use crate::file::RawDefinitionView;
use crate::grammar::{
    add_build, add_layout, after_keyword, close_definition, comment_start, definition_line,
    empty_definition, has_keyword, is_empty_definition, line_base, line_comment, line_decl,
    line_head, parse_build, parse_builds, parse_column, parse_document, parse_entry, parse_layouts,
    parse_lines, parse_shape, parse_width, split_key, start, step, tag_block, Build, Progress,
    Section, COLON, COMMA, DOLLAR, GREATER, LESS, LINE_FEED, QUESTION, SLASH, SQUARE_OPEN,
};
use crate::number::parse_hex;
use crate::ordered::{ascending, lemma_with_item};
use crate::resolve::{declare, distinct_names, lemma_column_index, lemma_declare};
use crate::text::{
    all_blank, first_hit, free_of, hit, is_trimmed, lemma_before_first_hit, lemma_first_hit,
    lemma_free_sub, lemma_trim, lemma_trim_free, lemma_trim_trimmed, solid_start, trim, utf8, Pat,
};
use crate::types::{Layout, RawColumnView};
use vstd::prelude::*;

verus! {

/// Text cut out of plain text and trimmed is plain and trimmed.
proof fn lemma_plain_part(s: Seq<u8>, from: int, to: int)
    requires
        is_plain(s),
        0 <= from <= to <= s.len(),
    ensures
        is_plain(s.subrange(from, to)),
        is_plain(trim(s.subrange(from, to))),
        is_trimmed(trim(s.subrange(from, to))),
{
    let part = s.subrange(from, to);
    lemma_free_sub(s, Pat::Byte(LINE_FEED), from, to);
    lemma_free_sub(s, Pat::Pair(SLASH, SLASH), from, to);
    lemma_trim_free(part, Pat::Byte(LINE_FEED));
    lemma_trim_free(part, Pat::Pair(SLASH, SLASH));
    lemma_trim(part);
}

/// The parts of a line without line feed: what it declares is plain, its
/// comment is trimmed.
pub proof fn lemma_line_read(line: Seq<u8>)
    requires
        free_of(line, Pat::Byte(LINE_FEED)),
    ensures
        is_plain(line_decl(line)),
        is_trimmed(line_decl(line)),
        comment_ok(line_comment(line)),
{
    let pair = Pat::Pair(SLASH, SLASH);
    let lf = Pat::Byte(LINE_FEED);
    lemma_first_hit(line, pair);
    let k = comment_start(line);
    let head = line_head(line);
    lemma_before_first_hit(line, pair);
    lemma_free_sub(line, lf, 0, k);
    lemma_trim_free(head, lf);
    lemma_trim_free(head, pair);
    lemma_trim(head);
    if k < line.len() {
        let rest = line.subrange(k + 2, line.len() as int);
        lemma_free_sub(line, lf, k + 2, line.len() as int);
        lemma_trim_free(rest, lf);
        lemma_trim(rest);
    }
}

/// A name and a key that were told apart are well formed.
pub proof fn lemma_key_read(token: Seq<u8>, off: int)
    requires
        is_plain(token),
        split_key(token, off) is Ok,
    ensures
        ({
            let (name, key) = split_key(token, off)->Ok_0;
            &&& opt_key_ok(key)
            &&& name == token.subrange(0, name.len() as int)
            &&& name.len() <= token.len()
            &&& free_of(name, Pat::Byte(LESS))
            &&& key is None ==> name == token
        }),
{
    reveal(split_key);
    let less = Pat::Byte(LESS);
    let greater = Pat::Byte(GREATER);
    let colons = Pat::Pair(COLON, COLON);
    lemma_first_hit(token, less);
    lemma_before_first_hit(token, less);
    let open = first_hit(token, less);
    if open == token.len() {
        assert(token.subrange(0, open) =~= token);
    } else {
        let after = token.subrange(open + 1, token.len() as int);
        lemma_first_hit(after, greater);
        lemma_before_first_hit(after, greater);
        let close = first_hit(after, greater);
        let inner = after.subrange(0, close);
        lemma_first_hit(inner, colons);
        lemma_before_first_hit(inner, colons);
        let sep = first_hit(inner, colons);
        let db = inner.subrange(0, sep);
        let col = inner.subrange(sep + 2, inner.len() as int);
        lemma_plain_part(token, open + 1, token.len() as int);
        lemma_plain_part(after, 0, close);
        lemma_plain_part(inner, 0, sep);
        lemma_plain_part(inner, sep + 2, inner.len() as int);
        lemma_free_sub(inner, greater, 0, sep);
        lemma_free_sub(inner, greater, sep + 2, inner.len() as int);
        if db.len() > 0 && db.last() == COLON {
            assert(inner[sep - 1] == db[sep - 1]);
            assert(hit(inner, sep - 1, colons));
        }
        let name = token.subrange(0, open);
        assert(name.subrange(0, name.len() as int) =~= name);
        assert(token.subrange(0, name.len() as int) =~= name);
    }
}

/// The column that a line declares is well formed.
pub proof fn lemma_column_read(line: Seq<u8>)
    requires
        free_of(line, Pat::Byte(LINE_FEED)),
        parse_column(line) is Ok,
    ensures
        column_ok(parse_column(line)->Ok_0),
{
    reveal(parse_column);
    lemma_line_read(line);
    let decl = line_decl(line);
    lemma_first_hit(decl, Pat::Blank);
    let gap = first_hit(decl, Pat::Blank);
    let tail = decl.subrange(gap, decl.len() as int);
    let rest = trim(tail);
    lemma_plain_part(decl, 0, gap);
    lemma_plain_part(decl, gap, decl.len() as int);
    lemma_trim(tail);
    // What follows the blank is not blank: the declaration is trimmed.
    assert(rest.len() > 0) by {
        assert(tail.last() == decl.last());
        if rest.len() == 0 {
            assert(all_blank(tail));
        }
    }
    let kind = decl.subrange(0, gap);
    lemma_key_read(kind, line_base(line));
    let unverified = rest.last() == QUESTION;
    let named = if unverified {
        rest.drop_last()
    } else {
        rest
    };
    assert(is_plain(named)) by {
        if unverified {
            lemma_plain_part(rest, 0, rest.len() - 1);
        }
    }
    let off = line_base(line) + gap + solid_start(tail);
    lemma_key_read(named, off);
    let (name_raw, name_key) = split_key(named, off)->Ok_0;
    lemma_plain_part(named, 0, name_raw.len() as int);
    lemma_trim_free(name_raw, Pat::Byte(LESS));
    let c = parse_column(line)->Ok_0;
    if c.foreign_key is None && c.verified {
        assert(name_raw == rest);
        lemma_trim_trimmed(rest);
    }
}

/// The entry that a line declares is well formed.
pub proof fn lemma_entry_read(line: Seq<u8>)
    requires
        free_of(line, Pat::Byte(LINE_FEED)),
        parse_entry(line) is Ok,
    ensures
        entry_ok(parse_entry(line)->Ok_0),
{
    reveal(parse_entry);
    reveal(tag_block);
    reveal(parse_shape);
    reveal(parse_width);
    lemma_line_read(line);
    let decl = line_decl(line);
    let (tags, start) = tag_block(decl)->Some_0;
    if decl.len() > 0 {
        lemma_first_hit(decl.subrange(1, decl.len() as int), Pat::Byte(DOLLAR));
    }
    let body = decl.subrange(start, decl.len() as int);
    lemma_plain_part(decl, start, decl.len() as int);
    let either = Pat::Either(LESS, SQUARE_OPEN);
    lemma_first_hit(body, either);
    lemma_before_first_hit(body, either);
    let name_end = first_hit(body, either);
    lemma_plain_part(body, 0, name_end);
    lemma_trim_free(body.subrange(0, name_end), either);
}

/// The definition in progress is well formed but may be empty.
pub open spec fn current_ok(d: RawDefinitionView) -> bool {
    ascending(d.versions) && ascending(d.layouts) && entries_ok(d.entries)
}

/// What has been read is well formed.
pub open spec fn progress_ok(p: Progress) -> bool {
    &&& distinct_names(p.columns)
    &&& columns_ok(p.columns)
    &&& definitions_ok(p.definitions)
    &&& current_ok(p.current)
}

/// A list of builds leaves a definition well formed, and not empty.
pub proof fn lemma_builds_read(list: Seq<u8>, off: int, d: RawDefinitionView)
    requires
        current_ok(d),
        parse_builds(list, off, d) is Ok,
    ensures
        current_ok(parse_builds(list, off, d)->Ok_0),
        !is_empty_definition(parse_builds(list, off, d)->Ok_0),
    decreases list.len(),
{
    let k = first_hit(list, Pat::Byte(COMMA));
    lemma_first_hit(list, Pat::Byte(COMMA));
    let piece = list.subrange(0, k);
    let build = parse_build(trim(piece))->Some_0;
    let next = add_build(d, build);
    match build {
        Build::Exact(v) => {
            lemma_with_item(d.versions, v);
            assert(next.versions.contains(v));
        },
        Build::Range(r) => {
            assert(next.version_ranges.len() > 0);
        },
    }
    if 0 <= k < list.len() {
        lemma_builds_read(list.subrange(k + 1, list.len() as int), off + k + 1, next);
    }
}

/// A list of layouts leaves a definition well formed, and not empty.
pub proof fn lemma_layouts_read(list: Seq<u8>, off: int, d: RawDefinitionView)
    requires
        current_ok(d),
        parse_layouts(list, off, d) is Ok,
    ensures
        current_ok(parse_layouts(list, off, d)->Ok_0),
        !is_empty_definition(parse_layouts(list, off, d)->Ok_0),
    decreases list.len(),
{
    let k = first_hit(list, Pat::Byte(COMMA));
    lemma_first_hit(list, Pat::Byte(COMMA));
    let piece = list.subrange(0, k);
    let value = parse_hex(trim(piece), u32::MAX as nat)->Some_0;
    let layout = Layout { inner: value as u32 };
    let next = add_layout(d, layout);
    lemma_with_item(d.layouts, layout);
    assert(next.layouts.contains(layout));
    if 0 <= k < list.len() {
        lemma_layouts_read(list.subrange(k + 1, list.len() as int), off + k + 1, next);
    }
}

/// Declaring a well-formed column keeps the columns well formed.
pub proof fn lemma_declare_ok(columns: Seq<RawColumnView>, c: RawColumnView)
    requires
        distinct_names(columns),
        columns_ok(columns),
        column_ok(c),
    ensures
        distinct_names(declare(columns, c)),
        columns_ok(declare(columns, c)),
{
    lemma_declare(columns, c);
    lemma_column_index(columns, c.name);
    let after = declare(columns, c);
    assert forall|i: int| 0 <= i < after.len() implies column_ok(#[trigger] after[i]) by {
        if i < columns.len() && after[i] != c {
            assert(after[i] == columns[i]);
        }
    }
}

/// A step on a line without line feed keeps what has been read well
/// formed.
pub proof fn lemma_step_ok(p: Progress, line: Seq<u8>)
    requires
        progress_ok(p),
        free_of(line, Pat::Byte(LINE_FEED)),
        step(p, line) is Ok,
    ensures
        progress_ok(step(p, line)->Ok_0),
{
    let q = step(p, line)->Ok_0;
    match p.section {
        Section::Header => {},
        Section::Columns => {
            if !all_blank(line) {
                lemma_column_read(line);
                lemma_declare_ok(p.columns, parse_column(line)->Ok_0);
            }
        },
        Section::Definitions => {
            lemma_definition_line_ok(p, line);
        },
    }
}

/// A line of the definitions keeps what has been read well formed.
proof fn lemma_definition_line_ok(p: Progress, line: Seq<u8>)
    requires
        progress_ok(p),
        free_of(line, Pat::Byte(LINE_FEED)),
        definition_line(p, line) is Ok,
    ensures
        progress_ok(definition_line(p, line)->Ok_0),
{
    let decl = line_decl(line);
    let base = line_base(line);
    let layout = utf8("LAYOUT"@);
    let build = utf8("BUILD"@);
    if all_blank(line) {
        lemma_close_ok(p);
    } else if has_keyword(decl, utf8("COMMENT"@)) {
    } else if has_keyword(decl, layout) {
        lemma_layouts_read(
            after_keyword(decl, layout),
            base + layout.len(),
            p.current,
        );
    } else if has_keyword(decl, build) {
        lemma_builds_read(
            after_keyword(decl, build),
            base + build.len(),
            p.current,
        );
    } else {
        lemma_entry_read(line);
        let e = parse_entry(line)->Ok_0;
        let entries = p.current.entries.push(e);
        assert forall|i: int| 0 <= i < entries.len() implies entry_ok(#[trigger] entries[i]) by {
            if i < p.current.entries.len() {
                assert(entries[i] == p.current.entries[i]);
            }
        }
    }
}

/// Ending the definition in progress keeps what has been read well formed.
pub proof fn lemma_close_ok(p: Progress)
    requires
        progress_ok(p),
    ensures
        progress_ok(close_definition(p)),
        close_definition(p).current == empty_definition(),
{
    let q = close_definition(p);
    if is_empty_definition(p.current) {
        assert(p.current.versions =~= Seq::empty());
        assert(p.current.version_ranges =~= Seq::empty());
        assert(p.current.layouts =~= Seq::empty());
        assert(p.current.entries =~= Seq::empty());
    } else {
        assert forall|i: int| 0 <= i < q.definitions.len() implies definition_ok(
            #[trigger] q.definitions[i],
        ) by {
            if i < p.definitions.len() {
                assert(q.definitions[i] == p.definitions[i]);
            }
        }
    }
}

/// Reading lines keeps what has been read well formed.
pub proof fn lemma_lines_ok(text: Seq<u8>, line: int, p: Progress)
    requires
        progress_ok(p),
        parse_lines(text, line, p) is Ok,
    ensures
        progress_ok(parse_lines(text, line, p)->Ok_0),
    decreases text.len(),
{
    let lf = Pat::Byte(LINE_FEED);
    lemma_first_hit(text, lf);
    lemma_before_first_hit(text, lf);
    let k = first_hit(text, lf);
    let first = text.subrange(0, k);
    lemma_step_ok(p, first);
    let next = step(p, first)->Ok_0;
    if 0 <= k < text.len() {
        lemma_lines_ok(text.subrange(k + 1, text.len() as int), line + 1, next);
    }
}

/// The document that a text is read as is well formed.
pub proof fn lemma_read_document_ok(text: Seq<u8>, name: Seq<char>)
    requires
        parse_document(text, name) is Ok,
    ensures
        file_ok(parse_document(text, name)->Ok_0),
{
    let p = start();
    assert(progress_ok(p));
    lemma_lines_ok(text, 0, p);
    lemma_close_ok(parse_lines(text, 0, p)->Ok_0);
}

} // verus!

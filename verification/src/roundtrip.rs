//! Writing a document and reading the text gives the document back.
use crate::canon::{
    column_ok, columns_ok, definition_ok, definitions_ok, entries_ok, entry_ok, file_ok,
};
use crate::error::ParseErrorView;
use crate::file::{RawDbdFileView, RawDefinitionView};
use crate::grammar::{
    after_keyword, close_definition, empty_definition, has_keyword, line_base, line_decl,
    parse_document, parse_lines, start, step, Build, Progress, Section, LINE_FEED, SLASH,
};
use crate::inverse::{
    is_line_mark, lemma_build_written, lemma_builds_written, lemma_column_written,
    lemma_entry_written, lemma_item_free, lemma_keywords_are_words, lemma_layout_written,
    lemma_layouts_written, lemma_line_parts, list_tail, with_builds, with_layouts,
};
use crate::ordered::{lemma_with_items_ascending, with_items, Ranked};
use crate::resolve::{declare, distinct_names, lemma_column_index_is};
use crate::text::{
    all_blank, first_hit, free_of, is_alnum, is_trimmed, is_word, lemma_first_hit,
    lemma_first_hit_seam, lemma_free_concat, lemma_word_free, utf8, Pat,
};
use crate::types::{Layout, RawColumnView, RawEntryView};
use crate::version::{Version, VersionRange};
use crate::words::{
    lemma_build_start, lemma_build_word, lemma_header, lemma_layout_start, lemma_layout_word,
    lemma_line_feed, lemma_list_mark,
};
use crate::written::{
    build_line, build_text, builds_of, builds_text, column_text, columns_text, comment_text,
    definition_text, definitions_text, document_text, entries_text, entry_text, layout_line,
    layout_text, layouts_text,
};
use vstd::prelude::*;

verus! {

/// What reading `text` makes of `p`, if it does not fail.
pub open spec fn reads(text: Seq<u8>, p: Progress) -> Option<Progress> {
    match parse_lines(text, 0, p) {
        Ok(q) => Some(q),
        Err(_) => None,
    }
}

/// What a step makes of `p`, if it does not fail.
pub open spec fn steps(p: Progress, line: Seq<u8>) -> Option<Progress> {
    match step(p, line) {
        Ok(q) => Some(q),
        Err(_) => None,
    }
}

/// The number of the first line does not change what is read.
pub proof fn lemma_line_numbers(text: Seq<u8>, n: int, m: int, p: Progress)
    ensures
        parse_lines(text, n, p) is Ok <==> parse_lines(text, m, p) is Ok,
        parse_lines(text, n, p) is Ok ==> parse_lines(text, n, p)->Ok_0 == parse_lines(
            text,
            m,
            p,
        )->Ok_0,
    decreases text.len(),
{
    let k = first_hit(text, Pat::Byte(LINE_FEED));
    lemma_first_hit(text, Pat::Byte(LINE_FEED));
    match step(p, text.subrange(0, k)) {
        Err(_) => {},
        Ok(next) => {
            if k < text.len() {
                lemma_line_numbers(text.subrange(k + 1, text.len() as int), n + 1, m + 1, next);
            }
        },
    }
}

/// Reading a line and what follows it: the step of the line, then the
/// rest.
pub proof fn lemma_reads_line(line: Seq<u8>, rest: Seq<u8>, p: Progress)
    requires
        free_of(line, Pat::Byte(LINE_FEED)),
    ensures
        reads(line + seq![LINE_FEED] + rest, p) == match steps(p, line) {
            Some(next) => reads(rest, next),
            None => None,
        },
{
    let text = line + seq![LINE_FEED] + rest;
    let tail = seq![LINE_FEED] + rest;
    assert(text =~= line + tail);
    lemma_first_hit_seam(line, tail, Pat::Byte(LINE_FEED));
    assert(text.subrange(0, line.len() as int) =~= line);
    assert(text.subrange(line.len() as int + 1, text.len() as int) =~= rest);
    match step(p, line) {
        Err(_) => {},
        Ok(next) => {
            lemma_line_numbers(rest, 1, 0, next);
        },
    }
}

/// Reading the empty text is the step of an empty line.
pub proof fn lemma_reads_end(p: Progress)
    ensures
        reads(Seq::empty(), p) == steps(p, Seq::empty()),
{
    let text = Seq::<u8>::empty();
    assert(first_hit(text, Pat::Byte(LINE_FEED)) == 0);
    assert(text.subrange(0, 0) =~= text);
}

/// A line that starts with a keyword and a blank.
proof fn lemma_keyword_line(word: Seq<u8>, list: Seq<u8>)
    ensures
        has_keyword(word + seq![0x20u8] + list, word),
        after_keyword(word + seq![0x20u8] + list, word) == seq![0x20u8] + list,
{
    let line = word + seq![0x20u8] + list;
    assert(line.subrange(0, word.len() as int) =~= word);
    assert(line[word.len() as int] == 0x20u8);
    assert(line.subrange(word.len() as int, line.len() as int) =~= seq![0x20u8] + list);
}

/// A line that starts otherwise than a keyword does not start with it.
proof fn lemma_other_keyword(line: Seq<u8>, word: Seq<u8>)
    requires
        word.len() > 0,
        line.len() > 0,
        line[0] != word[0],
    ensures
        !has_keyword(line, word),
{
    if has_keyword(line, word) {
        assert(line.subrange(0, word.len() as int)[0] == word[0]);
    }
}

/// Written lists have no line feed and no `//`, and start and end with a
/// letter or digit.
pub proof fn lemma_layouts_text(layouts: Seq<Layout>, p: Pat)
    requires
        is_line_mark(p),
        layouts.len() > 0,
    ensures
        free_of(layouts_text(layouts), p),
        layouts_text(layouts).len() > 0,
        is_alnum(layouts_text(layouts).last()),
    decreases layouts.len(),
{
    let item = layout_text(layouts.last());
    lemma_layout_written(layouts.last());
    lemma_item_free(item, p);
    if layouts.len() > 1 {
        lemma_list_mark();
        let init = layouts_text(layouts.drop_last());
        let mark = seq![0x2cu8, 0x20u8];
        lemma_layouts_text(layouts.drop_last(), p);
        assert(free_of(mark, p));
        lemma_free_concat(init, mark, p);
        assert((init + mark).last() == 0x20u8);
        lemma_free_concat(init + mark, item, p);
        assert((init + mark + item).last() == item.last());
    }
}

pub proof fn lemma_builds_text(builds: Seq<Build>, p: Pat)
    requires
        is_line_mark(p),
        builds.len() > 0,
    ensures
        free_of(builds_text(builds), p),
        builds_text(builds).len() > 0,
        is_alnum(builds_text(builds).last()),
    decreases builds.len(),
{
    let item = build_text(builds.last());
    lemma_build_written(builds.last());
    lemma_item_free(item, p);
    if builds.len() > 1 {
        lemma_list_mark();
        let init = builds_text(builds.drop_last());
        let mark = seq![0x2cu8, 0x20u8];
        lemma_builds_text(builds.drop_last(), p);
        assert(free_of(mark, p));
        lemma_free_concat(init, mark, p);
        assert((init + mark).last() == 0x20u8);
        lemma_free_concat(init + mark, item, p);
        assert((init + mark + item).last() == item.last());
    }
}

/// A line made of a keyword, a blank and a list is its own declaration.
proof fn lemma_list_line(word: Seq<u8>, list: Seq<u8>)
    requires
        is_word(word),
        word.len() > 0,
        list.len() > 0,
        is_alnum(list.last()),
        free_of(list, Pat::Byte(LINE_FEED)),
        free_of(list, Pat::Pair(SLASH, SLASH)),
    ensures
        line_decl(word + seq![0x20u8] + list) == word + seq![0x20u8] + list,
        line_base(word + seq![0x20u8] + list) == 0,
        !all_blank(word + seq![0x20u8] + list),
        free_of(word + seq![0x20u8] + list, Pat::Byte(LINE_FEED)),
        (word + seq![0x20u8] + list)[0] == word[0],
{
    let blank = seq![0x20u8];
    let line = word + blank + list;
    let lf = Pat::Byte(LINE_FEED);
    let pair = Pat::Pair(SLASH, SLASH);
    lemma_word_free(word, lf);
    lemma_word_free(word, pair);
    assert(free_of(blank, lf));
    assert(free_of(blank, pair));
    lemma_free_concat(word, blank, lf);
    lemma_free_concat(word + blank, list, lf);
    lemma_free_concat(word, blank, pair);
    assert((word + blank).last() == 0x20u8);
    lemma_free_concat(word + blank, list, pair);
    assert(line[0] == word[0]);
    assert(line.last() == list.last());
    assert(is_alnum(word[0]));
    assert(is_trimmed(line));
    lemma_line_parts(line, None);
    assert(line + comment_text(None) =~= line);
}

/// The `LAYOUT` line of a definition adds its layouts.
pub proof fn lemma_layout_line_read(p: Progress, layouts: Seq<Layout>)
    requires
        p.section is Definitions,
        layouts.len() > 0,
    ensures
        free_of(utf8("LAYOUT "@) + layouts_text(layouts), Pat::Byte(LINE_FEED)),
        steps(p, utf8("LAYOUT "@) + layouts_text(layouts)) == Some(
            Progress { current: with_layouts(p.current, layouts), ..p },
        ),
{
    lemma_layout_start();
    lemma_layout_word();
    lemma_keywords_are_words();
    let word = utf8("LAYOUT"@);
    let list = layouts_text(layouts);
    let blank = seq![0x20u8];
    let line = utf8("LAYOUT "@) + list;
    assert(line =~= word + blank + list);
    lemma_layouts_text(layouts, Pat::Byte(LINE_FEED));
    lemma_layouts_text(layouts, Pat::Pair(SLASH, SLASH));
    lemma_list_line(word, list);
    lemma_keyword_line(word, list);
    lemma_other_keyword(line, utf8("COMMENT"@));
    assert(all_blank(blank));
    assert(blank + list =~= blank + list + list_tail(None));
    lemma_layouts_written(blank, layouts, None, 6, p.current);
}

/// The `BUILD` line of a definition adds its builds.
pub proof fn lemma_build_line_read(p: Progress, builds: Seq<Build>)
    requires
        p.section is Definitions,
        builds.len() > 0,
    ensures
        free_of(utf8("BUILD "@) + builds_text(builds), Pat::Byte(LINE_FEED)),
        steps(p, utf8("BUILD "@) + builds_text(builds)) == Some(
            Progress { current: with_builds(p.current, builds), ..p },
        ),
{
    lemma_build_start();
    lemma_build_word();
    lemma_keywords_are_words();
    let word = utf8("BUILD"@);
    let list = builds_text(builds);
    let blank = seq![0x20u8];
    let line = utf8("BUILD "@) + list;
    assert(line =~= word + blank + list);
    lemma_builds_text(builds, Pat::Byte(LINE_FEED));
    lemma_builds_text(builds, Pat::Pair(SLASH, SLASH));
    lemma_list_line(word, list);
    lemma_keyword_line(word, list);
    lemma_other_keyword(line, utf8("COMMENT"@));
    lemma_other_keyword(line, utf8("LAYOUT"@));
    assert(all_blank(blank));
    assert(blank + list =~= blank + list + list_tail(None));
    lemma_builds_written(blank, builds, None, 5, p.current);
}

/// The line of an entry adds the entry.
pub proof fn lemma_entry_line_read(p: Progress, e: RawEntryView)
    requires
        p.section is Definitions,
        entry_ok(e),
    ensures
        free_of(entry_text(e), Pat::Byte(LINE_FEED)),
        steps(p, entry_text(e)) == Some(
            Progress {
                current: RawDefinitionView { entries: p.current.entries.push(e), ..p.current },
                ..p
            },
        ),
{
    lemma_entry_written(e);
}

/// The line of a column declares the column.
pub proof fn lemma_column_line_read(p: Progress, c: RawColumnView)
    requires
        p.section is Columns,
        column_ok(c),
    ensures
        free_of(column_text(c), Pat::Byte(LINE_FEED)),
        steps(p, column_text(c)) == Some(Progress { columns: declare(p.columns, c), ..p }),
{
    lemma_column_written(c);
}

/// Adding layouts changes the layouts of a definition and nothing else.
pub proof fn lemma_with_layouts(definition: RawDefinitionView, layouts: Seq<Layout>)
    ensures
        with_layouts(definition, layouts) == (RawDefinitionView {
            layouts: with_items(definition.layouts, layouts),
            ..definition
        }),
    decreases layouts.len(),
{
    if layouts.len() > 0 {
        lemma_with_layouts(definition, layouts.drop_last());
    }
}

/// Adding builds appends the ranges and adds the versions to the set of
/// versions.
pub proof fn lemma_with_builds(
    definition: RawDefinitionView,
    ranges: Seq<VersionRange>,
    versions: Seq<Version>,
)
    ensures
        with_builds(definition, builds_of(ranges, versions)) == (RawDefinitionView {
            versions: with_items(definition.versions, versions),
            version_ranges: definition.version_ranges + ranges,
            ..definition
        }),
    decreases versions.len(), ranges.len(),
{
    let builds = builds_of(ranges, versions);
    if versions.len() > 0 {
        let init = versions.drop_last();
        lemma_with_builds(definition, ranges, init);
        assert(builds.drop_last() =~= builds_of(ranges, init));
        assert(builds.last() == Build::Exact(versions.last()));
    } else if ranges.len() > 0 {
        let init = ranges.drop_last();
        lemma_with_builds(definition, init, versions);
        assert(builds.drop_last() =~= builds_of(init, versions));
        assert(builds.last() == Build::Range(ranges.last()));
        assert(definition.version_ranges + ranges =~= (definition.version_ranges + init).push(
            ranges.last(),
        ));
    } else {
        assert(builds =~= Seq::<Build>::empty());
        assert(definition.version_ranges + ranges =~= definition.version_ranges);
    }
}

/// Reading the `LAYOUT` line of a definition, if it has one.
pub proof fn lemma_layout_stage(p: Progress, d: RawDefinitionView, rest: Seq<u8>)
    requires
        p.section is Definitions,
    ensures
        reads(layout_line(d.layouts) + rest, p) == reads(
            rest,
            Progress { current: with_layouts(p.current, d.layouts), ..p },
        ),
{
    if d.layouts.len() == 0 {
        assert(layout_line(d.layouts) + rest =~= rest);
    } else {
        lemma_line_feed();
        let line = utf8("LAYOUT "@) + layouts_text(d.layouts);
        assert(layout_line(d.layouts) + rest =~= line + seq![LINE_FEED] + rest);
        lemma_layout_line_read(p, d.layouts);
        lemma_reads_line(line, rest, p);
    }
}

/// Reading the `BUILD` line of a definition, if it has one.
pub proof fn lemma_build_stage(p: Progress, d: RawDefinitionView, rest: Seq<u8>)
    requires
        p.section is Definitions,
    ensures
        reads(build_line(d.version_ranges, d.versions) + rest, p) == reads(
            rest,
            Progress {
                current: with_builds(p.current, builds_of(d.version_ranges, d.versions)),
                ..p
            },
        ),
{
    let builds = builds_of(d.version_ranges, d.versions);
    if d.version_ranges.len() == 0 && d.versions.len() == 0 {
        assert(build_line(d.version_ranges, d.versions) + rest =~= rest);
        assert(builds =~= Seq::<Build>::empty());
    } else {
        lemma_line_feed();
        let line = utf8("BUILD "@) + builds_text(builds);
        assert(build_line(d.version_ranges, d.versions) + rest =~= line + seq![LINE_FEED] + rest);
        lemma_build_line_read(p, builds);
        lemma_reads_line(line, rest, p);
    }
}

/// Reading the lines of entries adds the entries to the definition in
/// progress.
pub proof fn lemma_entries_read(p: Progress, entries: Seq<RawEntryView>, rest: Seq<u8>)
    requires
        p.section is Definitions,
        entries_ok(entries),
    ensures
        reads(entries_text(entries) + rest, p) == reads(
            rest,
            Progress {
                current: RawDefinitionView {
                    entries: p.current.entries + entries,
                    ..p.current
                },
                ..p
            },
        ),
    decreases entries.len(),
{
    if entries.len() == 0 {
        assert(entries_text(entries) + rest =~= rest);
        assert(p.current.entries + entries =~= p.current.entries);
    } else {
        lemma_line_feed();
        let init = entries.drop_last();
        let last = entries.last();
        let line = entry_text(last);
        let tail = line + seq![LINE_FEED] + rest;
        assert(entries_text(entries) + rest =~= entries_text(init) + tail);
        assert(entries_ok(init)) by {
            assert forall|i: int| 0 <= i < init.len() implies entry_ok(#[trigger] init[i]) by {
                assert(init[i] == entries[i]);
            }
        }
        lemma_entries_read(p, init, tail);
        let q = Progress {
            current: RawDefinitionView { entries: p.current.entries + init, ..p.current },
            ..p
        };
        assert(entry_ok(entries[entries.len() - 1]));
        lemma_entry_line_read(q, last);
        lemma_reads_line(line, rest, q);
        assert((p.current.entries + init).push(last) =~= p.current.entries + entries);
    }
}

/// Reading a blank line among the definitions ends the definition in
/// progress.
pub proof fn lemma_blank_line_read(p: Progress, rest: Seq<u8>)
    requires
        p.section is Definitions,
    ensures
        reads(utf8("\n"@) + rest, p) == reads(rest, close_definition(p)),
{
    lemma_line_feed();
    let none = Seq::<u8>::empty();
    assert(utf8("\n"@) + rest =~= none + seq![LINE_FEED] + rest);
    assert(all_blank(none));
    lemma_reads_line(none, rest, p);
}

/// Reading the lines of a definition adds the definition.
#[verifier::rlimit(30)]
pub proof fn lemma_definition_read(p: Progress, d: RawDefinitionView, rest: Seq<u8>)
    requires
        p.section is Definitions,
        p.current == empty_definition(),
        definition_ok(d),
    ensures
        reads(definition_text(d) + rest, p) == reads(
            rest,
            Progress { definitions: p.definitions.push(d), ..p },
        ),
{
    let tail3 = utf8("\n"@) + rest;
    let tail2 = entries_text(d.entries) + tail3;
    let tail1 = build_line(d.version_ranges, d.versions) + tail2;
    assert(definition_text(d) + rest =~= layout_line(d.layouts) + tail1);
    lemma_layout_stage(p, d, tail1);
    let laid = Progress { current: with_layouts(p.current, d.layouts), ..p };
    lemma_with_layouts(p.current, d.layouts);
    lemma_with_items_ascending(d.layouts);
    lemma_build_stage(laid, d, tail2);
    let built = Progress {
        current: with_builds(laid.current, builds_of(d.version_ranges, d.versions)),
        ..laid
    };
    lemma_with_builds(laid.current, d.version_ranges, d.versions);
    lemma_with_items_ascending(d.versions);
    assert(Seq::<VersionRange>::empty() + d.version_ranges =~= d.version_ranges);
    lemma_entries_read(built, d.entries, tail3);
    let filled = Progress {
        current: RawDefinitionView { entries: built.current.entries + d.entries, ..built.current },
        ..built
    };
    assert(Seq::<RawEntryView>::empty() + d.entries =~= d.entries);
    assert(filled.current == d);
    lemma_blank_line_read(filled, rest);
}

/// Reading the lines of definitions adds the definitions.
pub proof fn lemma_definitions_read(
    p: Progress,
    definitions: Seq<RawDefinitionView>,
    rest: Seq<u8>,
)
    requires
        p.section is Definitions,
        p.current == empty_definition(),
        definitions_ok(definitions),
    ensures
        reads(definitions_text(definitions) + rest, p) == reads(
            rest,
            Progress { definitions: p.definitions + definitions, ..p },
        ),
    decreases definitions.len(),
{
    if definitions.len() == 0 {
        assert(definitions_text(definitions) + rest =~= rest);
        assert(p.definitions + definitions =~= p.definitions);
    } else {
        let init = definitions.drop_last();
        let last = definitions.last();
        let tail = definition_text(last) + rest;
        assert(definitions_text(definitions) + rest =~= definitions_text(init) + tail);
        assert(definitions_ok(init)) by {
            assert forall|i: int| 0 <= i < init.len() implies definition_ok(
                #[trigger] init[i],
            ) by {
                assert(init[i] == definitions[i]);
            }
        }
        lemma_definitions_read(p, init, tail);
        let q = Progress { definitions: p.definitions + init, ..p };
        assert(definition_ok(definitions[definitions.len() - 1]));
        lemma_definition_read(q, last, rest);
        assert((p.definitions + init).push(last) =~= p.definitions + definitions);
    }
}

/// `columns` with each of `more` declared, first to last.
pub open spec fn declare_all(columns: Seq<RawColumnView>, more: Seq<RawColumnView>) -> Seq<
    RawColumnView,
>
    decreases more.len(),
{
    if more.len() == 0 {
        columns
    } else {
        declare(declare_all(columns, more.drop_last()), more.last())
    }
}

/// Columns of distinct names, declared one after the other, stand in the
/// order in which they were declared.
pub proof fn lemma_declare_all(columns: Seq<RawColumnView>)
    requires
        distinct_names(columns),
    ensures
        declare_all(Seq::empty(), columns) == columns,
    decreases columns.len(),
{
    if columns.len() > 0 {
        let init = columns.drop_last();
        let last = columns.last();
        lemma_declare_all(init);
        lemma_column_index_is(init, last.name, init.len() as int);
        assert(init.push(last) =~= columns);
    }
}

/// Reading the lines of columns declares the columns.
pub proof fn lemma_columns_read(p: Progress, columns: Seq<RawColumnView>, rest: Seq<u8>)
    requires
        p.section is Columns,
        columns_ok(columns),
    ensures
        reads(columns_text(columns) + rest, p) == reads(
            rest,
            Progress { columns: declare_all(p.columns, columns), ..p },
        ),
    decreases columns.len(),
{
    if columns.len() == 0 {
        assert(columns_text(columns) + rest =~= rest);
    } else {
        lemma_line_feed();
        let init = columns.drop_last();
        let last = columns.last();
        let line = column_text(last);
        let tail = line + seq![LINE_FEED] + rest;
        assert(columns_text(columns) + rest =~= columns_text(init) + tail);
        assert(columns_ok(init)) by {
            assert forall|i: int| 0 <= i < init.len() implies column_ok(#[trigger] init[i]) by {
                assert(init[i] == columns[i]);
            }
        }
        lemma_columns_read(p, init, tail);
        let q = Progress { columns: declare_all(p.columns, init), ..p };
        assert(column_ok(columns[columns.len() - 1]));
        lemma_column_line_read(q, last);
        lemma_reads_line(line, rest, q);
    }
}

/// The text of a well-formed document reads as that document.
#[verifier::rlimit(30)]
pub proof fn lemma_written_document_reads(f: RawDbdFileView)
    requires
        file_ok(f),
    ensures
        parse_document(document_text(f), f.name) == Ok::<
            RawDbdFileView,
            ParseErrorView,
        >(f),
{
    lemma_header();
    lemma_line_feed();
    let header = seq![0x43u8, 0x4fu8, 0x4cu8, 0x55u8, 0x4du8, 0x4eu8, 0x53u8];
    let none = Seq::<u8>::empty();
    let tail3 = definitions_text(f.definitions) + none;
    let tail2 = none + seq![LINE_FEED] + tail3;
    let tail1 = columns_text(f.columns) + tail2;
    let text = document_text(f);
    assert(text =~= header + seq![LINE_FEED] + tail1);
    assert(free_of(header, Pat::Byte(LINE_FEED)));
    let begun = start();
    lemma_reads_line(header, tail1, begun);
    let heading = Progress { section: Section::Columns, ..begun };
    lemma_columns_read(heading, f.columns, tail2);
    lemma_declare_all(f.columns);
    let declared = Progress { columns: f.columns, ..heading };
    assert(all_blank(none));
    lemma_reads_line(none, tail3, declared);
    let defining = Progress { section: Section::Definitions, ..declared };
    lemma_definitions_read(defining, f.definitions, none);
    assert(Seq::<RawDefinitionView>::empty() + f.definitions =~= f.definitions);
    let done = Progress { definitions: f.definitions, ..defining };
    lemma_reads_end(done);
    assert(reads(text, begun) == Some(done));
}

} // verus!

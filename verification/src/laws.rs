//! The law of the round trip: a document that was read and resolved, then
//! written, reads and resolves as the same document.
use crate::canon::{column_ok, definition_ok, definitions_ok, entries_ok, entry_ok, file_ok};
use crate::error::{ConversionErrorView, ReasonView};
use crate::file::{DbdFileView, DefinitionView, RawDbdFileView, RawDefinitionView};
use crate::grammar::{
    line_base, line_decl, parse_column, parse_document, parse_lines, step, LineError, Progress,
    LINE_FEED,
};
use crate::ordered::ascending;
use crate::parsed::lemma_read_document_ok;
use crate::resolve::{
    arrayed_type, base_type, column_index, declare, distinct_names, entry_type, keyed_type,
    lemma_column_index, lemma_declare, lemma_resolve_entries_ok, lookup, resolve_definitions,
    resolve_entries, resolve_entry, resolve_file,
};
use crate::roundtrip::lemma_written_document_reads;
use crate::text::{first_hit, free_of, lemma_free_first_hit, Pat};
use crate::types::{EntryView, RawColumnView, RawEntryView, TypeView};
use crate::written::{
    array_length, column_of, columns_of, document_text, element_type, is_regular, key_of,
    raw_definition_of, raw_entries_of, raw_entry_of, scalar_type, storage_of, unresolve,
    unsigned_of, width_of, with_columns_of,
};
use vstd::prelude::*;

verus! {

/// A resolved entry fits the columns: they hold its column under its name,
/// its type is one that resolving gives, and the entry it came from is well
/// formed.
pub open spec fn fits(columns: Seq<RawColumnView>, e: EntryView) -> bool {
    &&& lookup(columns, e.name) == Some(column_of(e))
    &&& is_regular(e.ty)
    &&& entry_ok(raw_entry_of(e))
}

pub open spec fn all_fit(columns: Seq<RawColumnView>, entries: Seq<EntryView>) -> bool {
    forall|j: int| 0 <= j < entries.len() ==> fits(columns, #[trigger] entries[j])
}

/// A resolved definition fits the columns.
pub open spec fn definition_fits(columns: Seq<RawColumnView>, d: DefinitionView) -> bool {
    &&& ascending(d.versions)
    &&& ascending(d.layouts)
    &&& !(d.versions.len() == 0 && d.version_ranges.len() == 0 && d.layouts.len() == 0
        && d.entries.len() == 0)
    &&& all_fit(columns, d.entries)
}

pub open spec fn all_definitions_fit(
    columns: Seq<RawColumnView>,
    definitions: Seq<DefinitionView>,
) -> bool {
    forall|i: int|
        0 <= i < definitions.len() ==> definition_fits(columns, #[trigger] definitions[i])
}

/// The type that resolving gives is regular, and tells the kind and key of
/// the column and the width and array length of the entry.
pub proof fn lemma_entry_type(column: RawColumnView, entry: RawEntryView)
    requires
        entry_type(column, entry) is Ok,
    ensures
        ({
            let ty = entry_type(column, entry)->Ok_0;
            &&& is_regular(ty)
            &&& storage_of(ty) == column.ty
            &&& key_of(ty) == column.foreign_key
            &&& array_length(ty) == entry.array_size
            &&& unsigned_of(ty) ==> width_of(ty) is Some
        }),
{
}

/// A regular type is the type of the entry and the column that it tells.
pub proof fn lemma_type_back(e: EntryView)
    requires
        is_regular(e.ty),
    ensures
        entry_type(column_of(e), raw_entry_of(e)) == Ok::<TypeView, ConversionErrorView>(e.ty),
{
    let scalar = scalar_type(e.ty);
    let element = element_type(e.ty);
    let column = column_of(e);
    let raw = raw_entry_of(e);
    assert(base_type(column, raw) == Ok::<TypeView, ConversionErrorView>(scalar));
    assert(keyed_type(scalar, column.foreign_key) == Ok::<TypeView, ConversionErrorView>(
        element,
    ));
    assert(arrayed_type(element, raw.array_size) == e.ty);
}

/// What an entry resolves to fits the columns it was resolved against.
pub proof fn lemma_resolved_entry_fits(columns: Seq<RawColumnView>, entry: RawEntryView)
    requires
        entry_ok(entry),
        resolve_entry(columns, entry) is Ok,
    ensures
        fits(columns, resolve_entry(columns, entry)->Ok_0),
{
    lemma_column_index(columns, entry.name);
    let column = lookup(columns, entry.name)->Some_0;
    lemma_entry_type(column, entry);
}

/// An entry that fits the columns is what the entry it came from resolves
/// to.
pub proof fn lemma_entry_resolves_back(columns: Seq<RawColumnView>, e: EntryView)
    requires
        fits(columns, e),
    ensures
        resolve_entry(columns, raw_entry_of(e)) == Ok::<EntryView, ConversionErrorView>(e),
{
    lemma_type_back(e);
}

pub proof fn lemma_resolved_entries_fit(columns: Seq<RawColumnView>, entries: Seq<RawEntryView>)
    requires
        entries_ok(entries),
        resolve_entries(columns, entries) is Ok,
    ensures
        resolve_entries(columns, entries)->Ok_0.len() == entries.len(),
        all_fit(columns, resolve_entries(columns, entries)->Ok_0),
    decreases entries.len(),
{
    if entries.len() > 0 {
        let init = entries.drop_last();
        assert(entries_ok(init)) by {
            assert forall|i: int| 0 <= i < init.len() implies entry_ok(#[trigger] init[i]) by {
                assert(init[i] == entries[i]);
            }
        }
        lemma_resolved_entries_fit(columns, init);
        assert(entry_ok(entries[entries.len() - 1]));
        lemma_resolved_entry_fits(columns, entries.last());
        let done = resolve_entries(columns, init)->Ok_0;
        let all = resolve_entries(columns, entries)->Ok_0;
        assert forall|j: int| 0 <= j < all.len() implies fits(columns, #[trigger] all[j]) by {
            if j < done.len() {
                assert(all[j] == done[j]);
            }
        }
    }
}

pub proof fn lemma_resolved_definitions_fit(
    columns: Seq<RawColumnView>,
    definitions: Seq<RawDefinitionView>,
)
    requires
        definitions_ok(definitions),
        resolve_definitions(columns, definitions) is Ok,
    ensures
        all_definitions_fit(columns, resolve_definitions(columns, definitions)->Ok_0),
    decreases definitions.len(),
{
    if definitions.len() > 0 {
        let init = definitions.drop_last();
        let last = definitions.last();
        assert(definitions_ok(init)) by {
            assert forall|i: int| 0 <= i < init.len() implies definition_ok(
                #[trigger] init[i],
            ) by {
                assert(init[i] == definitions[i]);
            }
        }
        lemma_resolved_definitions_fit(columns, init);
        assert(definition_ok(definitions[definitions.len() - 1]));
        lemma_resolved_entries_fit(columns, last.entries);
        let done = resolve_definitions(columns, init)->Ok_0;
        let all = resolve_definitions(columns, definitions)->Ok_0;
        assert forall|i: int| 0 <= i < all.len() implies definition_fits(
            columns,
            #[trigger] all[i],
        ) by {
            if i < done.len() {
                assert(all[i] == done[i]);
            }
        }
    }
}

pub proof fn lemma_entries_resolve_back(columns: Seq<RawColumnView>, entries: Seq<EntryView>)
    requires
        all_fit(columns, entries),
    ensures
        resolve_entries(columns, raw_entries_of(entries)) == Ok::<
            Seq<EntryView>,
            ConversionErrorView,
        >(entries),
    decreases entries.len(),
{
    let raw = raw_entries_of(entries);
    if entries.len() == 0 {
        assert(entries =~= Seq::empty());
    } else {
        let init = entries.drop_last();
        assert(all_fit(columns, init)) by {
            assert forall|j: int| 0 <= j < init.len() implies fits(columns, #[trigger] init[j]) by {
                assert(init[j] == entries[j]);
            }
        }
        lemma_entries_resolve_back(columns, init);
        assert(raw.drop_last() =~= raw_entries_of(init));
        assert(fits(columns, entries[entries.len() - 1]));
        lemma_entry_resolves_back(columns, entries.last());
        assert(init.push(entries.last()) =~= entries);
    }
}

pub proof fn lemma_definitions_resolve_back(
    columns: Seq<RawColumnView>,
    definitions: Seq<DefinitionView>,
)
    requires
        all_definitions_fit(columns, definitions),
    ensures
        resolve_definitions(
            columns,
            definitions.map_values(|d: DefinitionView| raw_definition_of(d)),
        ) == Ok::<Seq<DefinitionView>, ConversionErrorView>(definitions),
    decreases definitions.len(),
{
    let raw = definitions.map_values(|d: DefinitionView| raw_definition_of(d));
    if definitions.len() == 0 {
        assert(definitions =~= Seq::empty());
    } else {
        let init = definitions.drop_last();
        let last = definitions.last();
        assert(all_definitions_fit(columns, init)) by {
            assert forall|i: int| 0 <= i < init.len() implies definition_fits(
                columns,
                #[trigger] init[i],
            ) by {
                assert(init[i] == definitions[i]);
            }
        }
        lemma_definitions_resolve_back(columns, init);
        assert(raw.drop_last() =~= init.map_values(|d: DefinitionView| raw_definition_of(d)));
        assert(definition_fits(columns, definitions[definitions.len() - 1]));
        lemma_entries_resolve_back(columns, last.entries);
        assert(init.push(last) =~= definitions);
    }
}

/// Each of `used` is the column that `columns` holds under its name.
pub open spec fn drawn_from(columns: Seq<RawColumnView>, used: Seq<RawColumnView>) -> bool {
    forall|i: int|
        0 <= i < used.len() ==> lookup(columns, (#[trigger] used[i]).name) == Some(used[i])
}

/// What `used` holds under a name, `more` holds under it too.
pub open spec fn keeps(used: Seq<RawColumnView>, more: Seq<RawColumnView>) -> bool {
    forall|name: Seq<u8>|
        lookup(used, name) is Some ==> #[trigger] lookup(more, name) == lookup(used, name)
}

/// Declaring a column of `columns` among columns drawn from `columns`
/// changes nothing that was there.
pub proof fn lemma_declare_drawn(
    columns: Seq<RawColumnView>,
    used: Seq<RawColumnView>,
    c: RawColumnView,
)
    requires
        drawn_from(columns, used),
        distinct_names(used),
        lookup(columns, c.name) == Some(c),
    ensures
        drawn_from(columns, declare(used, c)),
        distinct_names(declare(used, c)),
        keeps(used, declare(used, c)),
        lookup(declare(used, c), c.name) == Some(c),
{
    lemma_declare(used, c);
    lemma_column_index(used, c.name);
    let more = declare(used, c);
    let at = column_index(used, c.name);
    assert forall|i: int| 0 <= i < more.len() implies lookup(
        columns,
        (#[trigger] more[i]).name,
    ) == Some(more[i]) by {
        if i < used.len() && i != at {
            assert(more[i] == used[i]);
        }
    }
    assert forall|name: Seq<u8>| lookup(used, name) is Some implies #[trigger] lookup(
        more,
        name,
    ) == lookup(used, name) by {
        if name == c.name {
            assert(used[at].name == c.name);
            assert(lookup(columns, used[at].name) == Some(used[at]));
        }
    }
}

/// The columns of entries that fit `columns`, declared among columns drawn
/// from `columns`: each entry finds its column, and nothing that was there
/// changes.
pub proof fn lemma_with_columns_of(
    columns: Seq<RawColumnView>,
    used: Seq<RawColumnView>,
    entries: Seq<EntryView>,
)
    requires
        drawn_from(columns, used),
        distinct_names(used),
        all_fit(columns, entries),
    ensures
        drawn_from(columns, with_columns_of(used, entries)),
        distinct_names(with_columns_of(used, entries)),
        keeps(used, with_columns_of(used, entries)),
        all_fit(with_columns_of(used, entries), entries),
    decreases entries.len(),
{
    if entries.len() > 0 {
        let init = entries.drop_last();
        let last = entries.last();
        assert(all_fit(columns, init)) by {
            assert forall|j: int| 0 <= j < init.len() implies fits(columns, #[trigger] init[j]) by {
                assert(init[j] == entries[j]);
            }
        }
        lemma_with_columns_of(columns, used, init);
        let mid = with_columns_of(used, init);
        assert(fits(columns, entries[entries.len() - 1]));
        lemma_declare_drawn(columns, mid, column_of(last));
        let more = declare(mid, column_of(last));
        assert forall|name: Seq<u8>| lookup(used, name) is Some implies #[trigger] lookup(
            more,
            name,
        ) == lookup(used, name) by {
            assert(lookup(mid, name) == lookup(used, name));
        }
        assert forall|j: int| 0 <= j < entries.len() implies fits(more, #[trigger] entries[j]) by {
            if j < init.len() {
                assert(fits(mid, init[j]));
                assert(lookup(more, init[j].name) == lookup(mid, init[j].name));
            }
        }
    }
}

/// Entries that fit columns fit more columns that keep what was there.
pub proof fn lemma_fit_kept(
    used: Seq<RawColumnView>,
    more: Seq<RawColumnView>,
    definitions: Seq<DefinitionView>,
)
    requires
        all_definitions_fit(used, definitions),
        keeps(used, more),
    ensures
        all_definitions_fit(more, definitions),
{
    assert forall|i: int| 0 <= i < definitions.len() implies definition_fits(
        more,
        #[trigger] definitions[i],
    ) by {
        let d = definitions[i];
        assert(definition_fits(used, d));
        assert forall|j: int| 0 <= j < d.entries.len() implies fits(
            more,
            #[trigger] d.entries[j],
        ) by {
            assert(fits(used, d.entries[j]));
            assert(lookup(more, d.entries[j].name) == lookup(used, d.entries[j].name));
        }
    }
}

/// The columns of definitions that fit `columns`: they are drawn from
/// `columns`, and the definitions fit them.
pub proof fn lemma_columns_of(columns: Seq<RawColumnView>, definitions: Seq<DefinitionView>)
    requires
        all_definitions_fit(columns, definitions),
    ensures
        drawn_from(columns, columns_of(definitions)),
        distinct_names(columns_of(definitions)),
        all_definitions_fit(columns_of(definitions), definitions),
    decreases definitions.len(),
{
    if definitions.len() > 0 {
        let init = definitions.drop_last();
        let last = definitions.last();
        assert(all_definitions_fit(columns, init)) by {
            assert forall|i: int| 0 <= i < init.len() implies definition_fits(
                columns,
                #[trigger] init[i],
            ) by {
                assert(init[i] == definitions[i]);
            }
        }
        lemma_columns_of(columns, init);
        let used = columns_of(init);
        assert(definition_fits(columns, definitions[definitions.len() - 1]));
        lemma_with_columns_of(columns, used, last.entries);
        let more = with_columns_of(used, last.entries);
        lemma_fit_kept(used, more, init);
        assert forall|i: int| 0 <= i < definitions.len() implies definition_fits(
            more,
            #[trigger] definitions[i],
        ) by {
            if i < init.len() {
                assert(definitions[i] == init[i]);
            }
        }
    }
}

/// The document that a resolved document is written from is well formed,
/// and resolves to the resolved document.
pub proof fn lemma_unresolve(f: RawDbdFileView)
    requires
        file_ok(f),
        resolve_file(f) is Ok,
    ensures
        file_ok(unresolve(resolve_file(f)->Ok_0)),
        resolve_file(unresolve(resolve_file(f)->Ok_0)) == resolve_file(f),
{
    let r = resolve_file(f)->Ok_0;
    let raw = unresolve(r);
    lemma_resolved_definitions_fit(f.columns, f.definitions);
    lemma_columns_of(f.columns, r.definitions);
    lemma_definitions_resolve_back(raw.columns, r.definitions);
    assert forall|i: int| 0 <= i < raw.columns.len() implies column_ok(
        #[trigger] raw.columns[i],
    ) by {
        let c = raw.columns[i];
        lemma_column_index(f.columns, c.name);
        assert(lookup(f.columns, c.name) == Some(c));
        assert(column_ok(f.columns[column_index(f.columns, c.name)]));
    }
    assert forall|i: int| 0 <= i < raw.definitions.len() implies definition_ok(
        #[trigger] raw.definitions[i],
    ) by {
        let d = r.definitions[i];
        assert(definition_fits(raw.columns, d));
        let entries = raw_entries_of(d.entries);
        assert forall|j: int| 0 <= j < entries.len() implies entry_ok(#[trigger] entries[j]) by {
            assert(fits(raw.columns, d.entries[j]));
        }
    }
}

/// What is read from a text, written and read again, is what was read.
pub proof fn lemma_read_written_read(text: Seq<u8>, name: Seq<char>)
    requires
        parse_document(text, name) is Ok,
    ensures
        parse_document(document_text(parse_document(text, name)->Ok_0), name) == parse_document(
            text,
            name,
        ),
{
    let f = parse_document(text, name)->Ok_0;
    lemma_read_document_ok(text, name);
    lemma_written_document_reads(f);
}

/// The round trip: a text that reads and resolves as a document gives,
/// when that document is written, a text that reads and resolves as the
/// same document.
pub proof fn lemma_round_trip(text: Seq<u8>, name: Seq<char>)
    requires
        parse_document(text, name) is Ok,
        resolve_file(parse_document(text, name)->Ok_0) is Ok,
    ensures
        ({
            let resolved = resolve_file(parse_document(text, name)->Ok_0)->Ok_0;
            let written = document_text(unresolve(resolved));
            &&& parse_document(written, name) is Ok
            &&& resolve_file(parse_document(written, name)->Ok_0) == Ok::<
                DbdFileView,
                ConversionErrorView,
            >(resolved)
        }),
{
    let f = parse_document(text, name)->Ok_0;
    let resolved = resolve_file(f)->Ok_0;
    lemma_read_document_ok(text, name);
    lemma_unresolve(f);
    lemma_written_document_reads(unresolve(resolved));
}

/// A column whose declaration has no blank between kind and name is
/// refused, at the offset at which the declaration starts.
pub proof fn lemma_column_needs_blank(line: Seq<u8>)
    requires
        free_of(line_decl(line), Pat::Blank),
    ensures
        parse_column(line) == Err::<RawColumnView, LineError>(
            LineError { column: line_base(line), reason: ReasonView::NoSpaceInColumn },
        ),
{
    reveal(parse_column);
    lemma_free_first_hit(line_decl(line), Pat::Blank);
}

/// A failure on a line of the columns is the failure of the document, at
/// that line.
pub proof fn lemma_failure_is_located(text: Seq<u8>, line: int, p: Progress)
    requires
        step(p, text.subrange(0, first_hit(text, Pat::Byte(LINE_FEED)))) is Err,
    ensures
        parse_lines(text, line, p) is Err,
        parse_lines(text, line, p)->Err_0.line == line,
        parse_lines(text, line, p)->Err_0.column == step(
            p,
            text.subrange(0, first_hit(text, Pat::Byte(LINE_FEED))),
        )->Err_0.column,
        parse_lines(text, line, p)->Err_0.reason == step(
            p,
            text.subrange(0, first_hit(text, Pat::Byte(LINE_FEED))),
        )->Err_0.reason,
{
}

/// Resolving keeps the definitions in their order, each with its versions,
/// ranges and layouts: a version is looked up in a resolved document as in
/// the document as read.
pub proof fn lemma_resolving_keeps_builds(
    columns: Seq<RawColumnView>,
    definitions: Seq<RawDefinitionView>,
)
    requires
        resolve_definitions(columns, definitions) is Ok,
    ensures
        resolve_definitions(columns, definitions)->Ok_0.len() == definitions.len(),
        forall|i: int|
            0 <= i < definitions.len() ==> {
                let resolved = #[trigger] resolve_definitions(columns, definitions)->Ok_0[i];
                &&& resolved.versions == definitions[i].versions
                &&& resolved.version_ranges == definitions[i].version_ranges
                &&& resolved.layouts == definitions[i].layouts
                &&& resolved.entries.len() == definitions[i].entries.len()
            },
    decreases definitions.len(),
{
    if definitions.len() > 0 {
        lemma_resolving_keeps_builds(columns, definitions.drop_last());
        lemma_resolve_entries_ok(columns, definitions.last().entries);
    }
}

} // verus!

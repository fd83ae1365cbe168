//! How a document that was read is resolved, stated over views.
//!
//! Resolving merges what the header declares of a column into each entry
//! that uses the column. It fails on the first entry that cannot be
//! resolved, in the order of the document.
use crate::error::ConversionErrorView;
use crate::file::{DbdFileView, DefinitionView, RawDbdFileView, RawDefinitionView};
use crate::types::{EntryView, ForeignKeyView, RawColumnView, RawEntryView, RawType, TypeView};
use vstd::prelude::*;

verus! {

/// The first position at or after `from` of a column called `name`, or the
/// number of columns.
pub open spec fn column_index_from(columns: Seq<RawColumnView>, name: Seq<u8>, from: int) -> int
    decreases columns.len() - from,
{
    if from < 0 || from >= columns.len() {
        columns.len() as int
    } else if columns[from].name == name {
        from
    } else {
        column_index_from(columns, name, from + 1)
    }
}

/// The position of the column called `name`, or the number of columns if
/// there is none.
pub open spec fn column_index(columns: Seq<RawColumnView>, name: Seq<u8>) -> int {
    column_index_from(columns, name, 0)
}

/// The column called `name`.
pub open spec fn lookup(columns: Seq<RawColumnView>, name: Seq<u8>) -> Option<RawColumnView> {
    let i = column_index(columns, name);
    if i < columns.len() {
        Some(columns[i])
    } else {
        None
    }
}

/// No two columns have the same name.
pub open spec fn distinct_names(columns: Seq<RawColumnView>) -> bool {
    forall|i: int, j: int| 0 <= i < j < columns.len() ==> columns[i].name != columns[j].name
}

/// `columns` after `column` is declared: a column of the same name is
/// replaced where it stands, a new one is added at the end.
pub open spec fn declare(columns: Seq<RawColumnView>, column: RawColumnView) -> Seq<
    RawColumnView,
> {
    let i = column_index(columns, column.name);
    if i < columns.len() {
        columns.update(i, column)
    } else {
        columns.push(column)
    }
}

pub proof fn lemma_column_index_from(columns: Seq<RawColumnView>, name: Seq<u8>, from: int)
    requires
        0 <= from <= columns.len(),
    ensures
        from <= column_index_from(columns, name, from) <= columns.len(),
        forall|i: int|
            from <= i < column_index_from(columns, name, from) ==> columns[i].name != name,
        column_index_from(columns, name, from) < columns.len() ==> columns[column_index_from(
            columns,
            name,
            from,
        )].name == name,
    decreases columns.len() - from,
{
    if from < columns.len() && columns[from].name != name {
        lemma_column_index_from(columns, name, from + 1);
    }
}

/// What `column_index` returns: no column before it has the name, and the
/// column at it has, unless it is the number of columns.
pub proof fn lemma_column_index(columns: Seq<RawColumnView>, name: Seq<u8>)
    ensures
        0 <= column_index(columns, name) <= columns.len(),
        forall|i: int| 0 <= i < column_index(columns, name) ==> columns[i].name != name,
        column_index(columns, name) < columns.len() ==> columns[column_index(
            columns,
            name,
        )].name == name,
{
    lemma_column_index_from(columns, name, 0);
}

pub proof fn lemma_column_index_is(columns: Seq<RawColumnView>, name: Seq<u8>, k: int)
    requires
        0 <= k <= columns.len(),
        forall|i: int| 0 <= i < k ==> columns[i].name != name,
        k < columns.len() ==> columns[k].name == name,
    ensures
        column_index(columns, name) == k,
{
    lemma_column_index(columns, name);
}

/// Declaring a column makes it the one found under its name and leaves
/// every other name as it was: of two declarations of one name only the
/// later can be seen. Names stay distinct.
pub proof fn lemma_declare(columns: Seq<RawColumnView>, column: RawColumnView)
    ensures
        lookup(declare(columns, column), column.name) == Some(column),
        forall|name: Seq<u8>|
            name != column.name ==> lookup(declare(columns, column), name) == lookup(
                columns,
                name,
            ),
        distinct_names(columns) ==> distinct_names(declare(columns, column)),
{
    lemma_column_index(columns, column.name);
    let i = column_index(columns, column.name);
    let after = declare(columns, column);
    lemma_column_index_is(after, column.name, i);
    assert forall|name: Seq<u8>| name != column.name implies lookup(after, name) == lookup(
        columns,
        name,
    ) by {
        lemma_column_index(columns, name);
        let k = column_index(columns, name);
        if k < columns.len() {
            assert(after[k].name == name);
            lemma_column_index_is(after, name, k);
        } else {
            lemma_column_index_is(after, name, after.len() as int);
        }
    }
}

/// The integer type of a width and a sign, for the widths 8, 16, 32 and 64.
pub open spec fn int_type(width: u8, unsigned: bool) -> Option<TypeView> {
    if width == 8 {
        Some(if unsigned { TypeView::UInt8 } else { TypeView::Int8 })
    } else if width == 16 {
        Some(if unsigned { TypeView::UInt16 } else { TypeView::Int16 })
    } else if width == 32 {
        Some(if unsigned { TypeView::UInt32 } else { TypeView::Int32 })
    } else if width == 64 {
        Some(if unsigned { TypeView::UInt64 } else { TypeView::Int64 })
    } else {
        None
    }
}

/// The type that the column's storage kind and the entry's width give.
/// Width and sign of an entry are not looked at unless the column holds
/// integers.
pub open spec fn base_type(column: RawColumnView, entry: RawEntryView) -> Result<
    TypeView,
    ConversionErrorView,
> {
    match column.ty {
        RawType::Int => match entry.integer_width {
            None => Err(ConversionErrorView::NoIntegerWidth),
            Some(w) => match int_type(w, entry.unsigned) {
                Some(t) => Ok(t),
                None => Err(ConversionErrorView::InvalidIntegerWidth(w as usize)),
            },
        },
        RawType::Float => Ok(TypeView::Float),
        RawType::LocString => Ok(TypeView::LocString),
        RawType::String => Ok(TypeView::String),
    }
}

/// `ty` as the type of a column that may refer to another table. Only
/// integers can refer.
pub open spec fn keyed_type(ty: TypeView, key: Option<ForeignKeyView>) -> Result<
    TypeView,
    ConversionErrorView,
> {
    match key {
        None => Ok(ty),
        Some(key) => match ty {
            TypeView::Float => Err(ConversionErrorView::FloatAsForeignKey),
            TypeView::LocString => Err(ConversionErrorView::LocStringAsForeignKey),
            TypeView::String => Err(ConversionErrorView::StringAsForeignKey),
            _ => Ok(TypeView::ForeignKey { ty: Box::new(ty), key }),
        },
    }
}

/// `ty`, or an array of it where a length is given.
pub open spec fn arrayed_type(ty: TypeView, array_size: Option<usize>) -> TypeView {
    match array_size {
        None => ty,
        Some(width) => TypeView::Array { ty: Box::new(ty), width },
    }
}

/// The type of an entry that uses `column`.
pub open spec fn entry_type(column: RawColumnView, entry: RawEntryView) -> Result<
    TypeView,
    ConversionErrorView,
> {
    match base_type(column, entry) {
        Err(e) => Err(e),
        Ok(base) => match keyed_type(base, column.foreign_key) {
            Err(e) => Err(e),
            Ok(keyed) => Ok(arrayed_type(keyed, entry.array_size)),
        },
    }
}

/// One entry, resolved against the columns of its document.
pub open spec fn resolve_entry(columns: Seq<RawColumnView>, entry: RawEntryView) -> Result<
    EntryView,
    ConversionErrorView,
> {
    match lookup(columns, entry.name) {
        None => Err(ConversionErrorView::ColumnNotFound(entry.name)),
        Some(column) => match entry_type(column, entry) {
            Err(e) => Err(e),
            Ok(ty) => Ok(
                EntryView {
                    name: entry.name,
                    ty,
                    comment: entry.comment,
                    column_comment: column.comment,
                    verified: column.verified,
                    primary_key: entry.primary_key,
                    inline: entry.inline,
                    relation: entry.relation,
                },
            ),
        },
    }
}

/// The entries resolved in order, or the error of the first that fails.
pub open spec fn resolve_entries(columns: Seq<RawColumnView>, entries: Seq<RawEntryView>) -> Result<
    Seq<EntryView>,
    ConversionErrorView,
>
    decreases entries.len(),
{
    if entries.len() == 0 {
        Ok(Seq::empty())
    } else {
        match resolve_entries(columns, entries.drop_last()) {
            Err(e) => Err(e),
            Ok(done) => match resolve_entry(columns, entries.last()) {
                Err(e) => Err(e),
                Ok(entry) => Ok(done.push(entry)),
            },
        }
    }
}

/// One definition, resolved: its versions, ranges and layouts are kept.
pub open spec fn resolve_definition(
    columns: Seq<RawColumnView>,
    definition: RawDefinitionView,
) -> Result<DefinitionView, ConversionErrorView> {
    match resolve_entries(columns, definition.entries) {
        Err(e) => Err(e),
        Ok(entries) => Ok(
            DefinitionView {
                versions: definition.versions,
                version_ranges: definition.version_ranges,
                layouts: definition.layouts,
                entries,
            },
        ),
    }
}

/// The definitions resolved in order, or the error of the first that fails.
pub open spec fn resolve_definitions(
    columns: Seq<RawColumnView>,
    definitions: Seq<RawDefinitionView>,
) -> Result<Seq<DefinitionView>, ConversionErrorView>
    decreases definitions.len(),
{
    if definitions.len() == 0 {
        Ok(Seq::empty())
    } else {
        match resolve_definitions(columns, definitions.drop_last()) {
            Err(e) => Err(e),
            Ok(done) => match resolve_definition(columns, definitions.last()) {
                Err(e) => Err(e),
                Ok(definition) => Ok(done.push(definition)),
            },
        }
    }
}

/// A whole document, resolved. The columns are used up: the result has
/// none.
pub open spec fn resolve_file(file: RawDbdFileView) -> Result<DbdFileView, ConversionErrorView> {
    match resolve_definitions(file.columns, file.definitions) {
        Err(e) => Err(e),
        Ok(definitions) => Ok(DbdFileView { name: file.name, definitions }),
    }
}

/// An error among the first `k` entries is the error of all of them.
pub proof fn lemma_resolve_entries_fails(
    columns: Seq<RawColumnView>,
    entries: Seq<RawEntryView>,
    k: int,
)
    requires
        0 <= k <= entries.len(),
        resolve_entries(columns, entries.subrange(0, k)) is Err,
    ensures
        resolve_entries(columns, entries) == resolve_entries(columns, entries.subrange(0, k)),
    decreases entries.len() - k,
{
    if k < entries.len() {
        assert(entries.subrange(0, k + 1).drop_last() =~= entries.subrange(0, k));
        lemma_resolve_entries_fails(columns, entries, k + 1);
    } else {
        assert(entries.subrange(0, k) =~= entries);
    }
}

/// An error among the first `k` definitions is the error of all of them.
pub proof fn lemma_resolve_definitions_fails(
    columns: Seq<RawColumnView>,
    definitions: Seq<RawDefinitionView>,
    k: int,
)
    requires
        0 <= k <= definitions.len(),
        resolve_definitions(columns, definitions.subrange(0, k)) is Err,
    ensures
        resolve_definitions(columns, definitions) == resolve_definitions(
            columns,
            definitions.subrange(0, k),
        ),
    decreases definitions.len() - k,
{
    if k < definitions.len() {
        assert(definitions.subrange(0, k + 1).drop_last() =~= definitions.subrange(0, k));
        lemma_resolve_definitions_fails(columns, definitions, k + 1);
    } else {
        assert(definitions.subrange(0, k) =~= definitions);
    }
}

/// Entries resolve one by one: where all succeed the result holds each
/// resolved entry at its place.
pub proof fn lemma_resolve_entries_ok(columns: Seq<RawColumnView>, entries: Seq<RawEntryView>)
    requires
        resolve_entries(columns, entries) is Ok,
    ensures
        resolve_entries(columns, entries)->Ok_0.len() == entries.len(),
        forall|i: int|
            0 <= i < entries.len() ==> resolve_entry(columns, entries[i]) == Ok::<
                EntryView,
                ConversionErrorView,
            >(#[trigger] resolve_entries(columns, entries)->Ok_0[i]),
    decreases entries.len(),
{
    if entries.len() > 0 {
        lemma_resolve_entries_ok(columns, entries.drop_last());
    }
}

/// Where the entries do not resolve, the error is that of the first entry
/// that fails: every entry before it resolves.
pub proof fn lemma_resolve_entries_err(columns: Seq<RawColumnView>, entries: Seq<RawEntryView>)
    requires
        resolve_entries(columns, entries) is Err,
    ensures
        exists|k: int|
            {
                &&& 0 <= k < entries.len()
                &&& #[trigger] resolve_entry(columns, entries[k]) == Err::<
                    EntryView,
                    ConversionErrorView,
                >(resolve_entries(columns, entries)->Err_0)
                &&& forall|j: int| 0 <= j < k ==> resolve_entry(columns, entries[j]) is Ok
            },
    decreases entries.len(),
{
    let init = entries.drop_last();
    if resolve_entries(columns, init) is Err {
        lemma_resolve_entries_err(columns, init);
        let k = choose|k: int|
            {
                &&& 0 <= k < init.len()
                &&& #[trigger] resolve_entry(columns, init[k]) == Err::<
                    EntryView,
                    ConversionErrorView,
                >(resolve_entries(columns, init)->Err_0)
                &&& forall|j: int| 0 <= j < k ==> resolve_entry(columns, init[j]) is Ok
            };
        assert(entries[k] == init[k]);
        assert forall|j: int| 0 <= j < k implies resolve_entry(columns, entries[j]) is Ok by {
            assert(entries[j] == init[j]);
        }
    } else {
        lemma_resolve_entries_ok(columns, init);
        let k = entries.len() - 1;
        let done = resolve_entries(columns, init)->Ok_0;
        assert(resolve_entry(columns, entries[k]) is Err);
        assert forall|j: int| 0 <= j < k implies resolve_entry(columns, entries[j]) is Ok by {
            assert(entries[j] == init[j]);
            assert(resolve_entry(columns, init[j]) == Ok::<EntryView, ConversionErrorView>(
                done[j],
            ));
        }
    }
}

/// Where the definitions do not resolve, the error is that of the first
/// definition that fails: every definition before it resolves.
pub proof fn lemma_resolve_definitions_err(
    columns: Seq<RawColumnView>,
    definitions: Seq<RawDefinitionView>,
)
    requires
        resolve_definitions(columns, definitions) is Err,
    ensures
        exists|k: int|
            {
                &&& 0 <= k < definitions.len()
                &&& #[trigger] resolve_definition(columns, definitions[k]) == Err::<
                    DefinitionView,
                    ConversionErrorView,
                >(resolve_definitions(columns, definitions)->Err_0)
                &&& forall|j: int|
                    0 <= j < k ==> resolve_definition(columns, definitions[j]) is Ok
            },
    decreases definitions.len(),
{
    let init = definitions.drop_last();
    if resolve_definitions(columns, init) is Err {
        lemma_resolve_definitions_err(columns, init);
        let k = choose|k: int|
            {
                &&& 0 <= k < init.len()
                &&& #[trigger] resolve_definition(columns, init[k]) == Err::<
                    DefinitionView,
                    ConversionErrorView,
                >(resolve_definitions(columns, init)->Err_0)
                &&& forall|j: int| 0 <= j < k ==> resolve_definition(columns, init[j]) is Ok
            };
        assert(definitions[k] == init[k]);
        assert forall|j: int| 0 <= j < k implies resolve_definition(
            columns,
            definitions[j],
        ) is Ok by {
            assert(definitions[j] == init[j]);
        }
    } else {
        lemma_resolve_definitions_ok(columns, init);
        let k = definitions.len() - 1;
        let done = resolve_definitions(columns, init)->Ok_0;
        assert(resolve_definition(columns, definitions[k]) is Err);
        assert forall|j: int| 0 <= j < k implies resolve_definition(
            columns,
            definitions[j],
        ) is Ok by {
            assert(definitions[j] == init[j]);
            assert(resolve_definition(columns, init[j]) == Ok::<
                DefinitionView,
                ConversionErrorView,
            >(done[j]));
        }
    }
}

/// Definitions resolve one by one: where all succeed the result holds each
/// resolved definition at its place.
pub proof fn lemma_resolve_definitions_ok(
    columns: Seq<RawColumnView>,
    definitions: Seq<RawDefinitionView>,
)
    requires
        resolve_definitions(columns, definitions) is Ok,
    ensures
        resolve_definitions(columns, definitions)->Ok_0.len() == definitions.len(),
        forall|i: int|
            0 <= i < definitions.len() ==> resolve_definition(columns, definitions[i]) == Ok::<
                DefinitionView,
                ConversionErrorView,
            >(#[trigger] resolve_definitions(columns, definitions)->Ok_0[i]),
    decreases definitions.len(),
{
    if definitions.len() > 0 {
        lemma_resolve_definitions_ok(columns, definitions.drop_last());
    }
}

/// On a column of integers a width of 8, 16, 32 or 64 resolves, signed or
/// not, with or without a foreign key and an array length. Any other width
/// is refused and named in the error.
pub proof fn lemma_integer_widths(
    columns: Seq<RawColumnView>,
    entry: RawEntryView,
    width: u8,
)
    requires
        lookup(columns, entry.name) is Some,
        lookup(columns, entry.name)->Some_0.ty == RawType::Int,
        entry.integer_width == Some(width),
    ensures
        (width == 8 || width == 16 || width == 32 || width == 64) ==> resolve_entry(
            columns,
            entry,
        ) is Ok,
        !(width == 8 || width == 16 || width == 32 || width == 64) ==> resolve_entry(
            columns,
            entry,
        ) == Err::<EntryView, ConversionErrorView>(
            ConversionErrorView::InvalidIntegerWidth(width as usize),
        ),
{
}

/// A column that refers to another table must hold integers: a float, a
/// localised string or a string with a foreign key is refused with the
/// error of its kind. An integer of a valid width becomes a foreign key
/// type around that integer, inside an array where a length is given.
pub proof fn lemma_foreign_key_kinds(columns: Seq<RawColumnView>, entry: RawEntryView)
    requires
        lookup(columns, entry.name) is Some,
        lookup(columns, entry.name)->Some_0.foreign_key is Some,
    ensures
        ({
            let column = lookup(columns, entry.name)->Some_0;
            let key = column.foreign_key->Some_0;
            let resolved = resolve_entry(columns, entry);
            &&& column.ty == RawType::Float ==> resolved == Err::<EntryView, ConversionErrorView>(
                ConversionErrorView::FloatAsForeignKey,
            )
            &&& column.ty == RawType::LocString ==> resolved == Err::<
                EntryView,
                ConversionErrorView,
            >(ConversionErrorView::LocStringAsForeignKey)
            &&& column.ty == RawType::String ==> resolved == Err::<EntryView, ConversionErrorView>(
                ConversionErrorView::StringAsForeignKey,
            )
            &&& (column.ty == RawType::Int && entry.integer_width is Some && int_type(
                entry.integer_width->Some_0,
                entry.unsigned,
            ) is Some) ==> {
                let inner = int_type(entry.integer_width->Some_0, entry.unsigned)->Some_0;
                &&& resolved is Ok
                &&& resolved->Ok_0.ty == arrayed_type(
                    TypeView::ForeignKey { ty: Box::new(inner), key },
                    entry.array_size,
                )
            }
        }),
{
}

} // verus!

//! Definitions and whole documents, as read and resolved.
use crate::error::{ConversionError, ConversionErrorView};
use crate::ordered::{ascending, collect_items, lemma_with_items, with_items};
use crate::resolve::{
    base_type, column_index, declare, distinct_names, entry_type, int_type, keyed_type,
    lemma_column_index, lemma_column_index_is, lemma_declare, lemma_resolve_definitions_fails,
    lemma_resolve_entries_fails, lookup, resolve_definition, resolve_definitions, resolve_entries,
    resolve_file,
};
use crate::text::{lemma_utf8_injective, utf8};
use crate::types::{
    copy_text, lemma_views_push, views, Entry, EntryView, ForeignKey, Layout, RawColumn,
    RawColumnView, RawEntry, RawEntryView, RawType, Type, TypeView,
};
use crate::version::{Version, VersionRange};
use vstd::prelude::*;

verus! {

/// One variant of a table as read: the builds it holds for and the entries
/// it is made of. `versions` and `layouts` are sets, kept ascending.
#[derive(Debug, PartialOrd, Ord, PartialEq, Eq, Hash)]
pub struct RawDefinition {
    pub versions: Vec<Version>,
    pub version_ranges: Vec<VersionRange>,
    pub layouts: Vec<Layout>,
    pub entries: Vec<RawEntry>,
}

/// A [`RawDefinition`] with its texts as bytes.
pub struct RawDefinitionView {
    pub versions: Seq<Version>,
    pub version_ranges: Seq<VersionRange>,
    pub layouts: Seq<Layout>,
    pub entries: Seq<RawEntryView>,
}

impl RawDefinitionView {
    /// Versions and layouts ascend, so each is there once.
    pub open spec fn well_formed(self) -> bool {
        ascending(self.versions) && ascending(self.layouts)
    }
}

impl View for RawDefinition {
    type V = RawDefinitionView;

    open spec fn view(&self) -> RawDefinitionView {
        RawDefinitionView {
            versions: self.versions@,
            version_ranges: self.version_ranges@,
            layouts: self.layouts@,
            entries: views(self.entries@),
        }
    }
}

/// One variant of a table, resolved.
#[derive(Debug, PartialOrd, Ord, PartialEq, Eq, Hash)]
pub struct Definition {
    pub versions: Vec<Version>,
    pub version_ranges: Vec<VersionRange>,
    pub layouts: Vec<Layout>,
    pub entries: Vec<Entry>,
}

/// A [`Definition`] with its texts as bytes.
pub struct DefinitionView {
    pub versions: Seq<Version>,
    pub version_ranges: Seq<VersionRange>,
    pub layouts: Seq<Layout>,
    pub entries: Seq<EntryView>,
}

impl DefinitionView {
    /// Versions and layouts ascend, so each is there once.
    pub open spec fn well_formed(self) -> bool {
        ascending(self.versions) && ascending(self.layouts)
    }
}

impl View for Definition {
    type V = DefinitionView;

    open spec fn view(&self) -> DefinitionView {
        DefinitionView {
            versions: self.versions@,
            version_ranges: self.version_ranges@,
            layouts: self.layouts@,
            entries: views(self.entries@),
        }
    }
}

/// A copy of a vector of plain values.
pub fn copy_items<T: Copy>(items: &Vec<T>) -> (r: Vec<T>)
    ensures
        r@ == items@,
{
    let mut r: Vec<T> = Vec::with_capacity(items.len());
    let mut i: usize = 0;
    while i < items.len()
        invariant
            i <= items@.len(),
            r@ == items@.subrange(0, i as int),
        decreases items@.len() - i,
    {
        r.push(items[i]);
        assert(items@.subrange(0, i + 1) =~= items@.subrange(0, i as int).push(items@[i as int]));
        i += 1;
    }
    assert(items@.subrange(0, items@.len() as int) =~= items@);
    r
}

impl Default for RawDefinition {
    fn default() -> (r: Self)
        ensures
            r.versions@.len() == 0,
            r.version_ranges@.len() == 0,
            r.layouts@.len() == 0,
            r.entries@.len() == 0,
    {
        RawDefinition {
            versions: Vec::new(),
            version_ranges: Vec::new(),
            layouts: Vec::new(),
            entries: Vec::new(),
        }
    }
}

impl Default for Definition {
    fn default() -> (r: Self)
        ensures
            r.versions@.len() == 0,
            r.version_ranges@.len() == 0,
            r.layouts@.len() == 0,
            r.entries@.len() == 0,
    {
        Definition {
            versions: Vec::new(),
            version_ranges: Vec::new(),
            layouts: Vec::new(),
            entries: Vec::new(),
        }
    }
}

impl Clone for RawDefinition {
    fn clone(&self) -> (r: Self)
        ensures
            r@ == self@,
    {
        let mut entries: Vec<RawEntry> = Vec::with_capacity(self.entries.len());
        let mut i: usize = 0;
        while i < self.entries.len()
            invariant
                i <= self.entries@.len(),
                entries@ == self.entries@.subrange(0, i as int),
            decreases self.entries@.len() - i,
        {
            entries.push(self.entries[i].clone());
            assert(self.entries@.subrange(0, i + 1) =~= self.entries@.subrange(0, i as int).push(
                self.entries@[i as int],
            ));
            i += 1;
        }
        assert(self.entries@.subrange(0, self.entries@.len() as int) =~= self.entries@);
        RawDefinition {
            versions: copy_items(&self.versions),
            version_ranges: copy_items(&self.version_ranges),
            layouts: copy_items(&self.layouts),
            entries,
        }
    }
}

impl Clone for Definition {
    fn clone(&self) -> (r: Self)
        ensures
            r@ == self@,
    {
        let mut entries: Vec<Entry> = Vec::with_capacity(self.entries.len());
        let mut i: usize = 0;
        while i < self.entries.len()
            invariant
                i <= self.entries@.len(),
                entries@ == self.entries@.subrange(0, i as int),
            decreases self.entries@.len() - i,
        {
            entries.push(self.entries[i].clone());
            assert(self.entries@.subrange(0, i + 1) =~= self.entries@.subrange(0, i as int).push(
                self.entries@[i as int],
            ));
            i += 1;
        }
        assert(self.entries@.subrange(0, self.entries@.len() as int) =~= self.entries@);
        Definition {
            versions: copy_items(&self.versions),
            version_ranges: copy_items(&self.version_ranges),
            layouts: copy_items(&self.layouts),
            entries,
        }
    }
}

/// The position in `columns` of the column called `name`, or their number.
pub fn column_position(columns: &Vec<RawColumn>, name: &String) -> (i: usize)
    ensures
        i == column_index(views(columns@), utf8(name@)),
        i <= columns@.len(),
{
    let ghost cols = views(columns@);
    let mut i: usize = 0;
    while i < columns.len()
        invariant
            i <= columns@.len(),
            cols == views(columns@),
            forall|j: int| 0 <= j < i ==> cols[j].name != utf8(name@),
        decreases columns@.len() - i,
    {
        if columns[i].name == *name {
            proof {
                lemma_column_index_is(cols, utf8(name@), i as int);
            }
            return i;
        }
        proof {
            if cols[i as int].name == utf8(name@) {
                lemma_utf8_injective(columns@[i as int].name@, name@);
            }
        }
        i += 1;
    }
    proof {
        lemma_column_index_is(cols, utf8(name@), i as int);
    }
    i
}

/// The integer type of a width and a sign.
fn integer_type(width: u8, unsigned: bool) -> (r: Option<Type>)
    ensures
        match r {
            Some(t) => int_type(width, unsigned) == Some(t@),
            None => int_type(width, unsigned) is None,
        },
{
    if width == 8 {
        Some(if unsigned { Type::UInt8 } else { Type::Int8 })
    } else if width == 16 {
        Some(if unsigned { Type::UInt16 } else { Type::Int16 })
    } else if width == 32 {
        Some(if unsigned { Type::UInt32 } else { Type::Int32 })
    } else if width == 64 {
        Some(if unsigned { Type::UInt64 } else { Type::Int64 })
    } else {
        None
    }
}

/// The type of `entry` as a use of `column`.
pub fn type_of_entry(column: &RawColumn, entry: &RawEntry) -> (r: Result<Type, ConversionError>)
    ensures
        match r {
            Ok(t) => entry_type(column@, entry@) == Ok::<TypeView, ConversionErrorView>(t@),
            Err(e) => entry_type(column@, entry@) == Err::<TypeView, ConversionErrorView>(e@),
        },
{
    let base = match column.ty {
        RawType::Int => match entry.integer_width {
            None => {
                return Err(ConversionError::NoIntegerWidth);
            },
            Some(v) => match integer_type(v, entry.unsigned) {
                Some(t) => t,
                None => {
                    return Err(ConversionError::InvalidIntegerWidth(v as usize));
                },
            },
        },
        RawType::Float => Type::Float,
        RawType::LocString => Type::LocString,
        RawType::String => Type::String,
    };
    assert(base_type(column@, entry@) == Ok::<TypeView, ConversionErrorView>(base@));
    let keyed = match &column.foreign_key {
        None => base,
        Some(foreign_key) => match column.ty {
            RawType::Int => {
                let keyed = Type::ForeignKey { ty: Box::new(base), key: foreign_key.clone() };
                assert(keyed@ == TypeView::ForeignKey {
                    ty: Box::new(base@),
                    key: foreign_key@,
                });
                keyed
            },
            RawType::Float => {
                return Err(ConversionError::FloatAsForeignKey);
            },
            RawType::LocString => {
                return Err(ConversionError::LocStringAsForeignKey);
            },
            RawType::String => {
                return Err(ConversionError::StringAsForeignKey);
            },
        },
    };
    assert(keyed_type(base_type(column@, entry@)->Ok_0, column@.foreign_key) == Ok::<
        TypeView,
        ConversionErrorView,
    >(keyed@));
    match entry.array_size {
        None => Ok(keyed),
        Some(width) => {
            let arrayed = Type::Array { ty: Box::new(keyed), width };
            assert(arrayed@ == TypeView::Array { ty: Box::new(keyed@), width });
            Ok(arrayed)
        },
    }
}

impl RawDefinition {
    /// A definition of these parts. Versions and layouts are taken as sets:
    /// each is kept once, in ascending order.
    pub fn new(
        versions: Vec<Version>,
        version_ranges: Vec<VersionRange>,
        layouts: Vec<Layout>,
        entries: Vec<RawEntry>,
    ) -> (r: Self)
        ensures
            r.versions@ == with_items(Seq::empty(), versions@),
            r.version_ranges == version_ranges,
            r.layouts@ == with_items(Seq::empty(), layouts@),
            r.entries == entries,
            r@.well_formed(),
    {
        proof {
            lemma_with_items(Seq::<Version>::empty(), versions@);
            lemma_with_items(Seq::<Layout>::empty(), layouts@);
        }
        Self {
            versions: collect_items(&versions),
            version_ranges,
            layouts: collect_items(&layouts),
            entries,
        }
    }

    /// Resolves the definition against the columns of its document.
    pub fn to_definition(&self, columns: &Vec<RawColumn>) -> (r: Result<
        Definition,
        ConversionError,
    >)
        ensures
            match r {
                Ok(d) => resolve_definition(views(columns@), self@) == Ok::<
                    DefinitionView,
                    ConversionErrorView,
                >(d@),
                Err(e) => resolve_definition(views(columns@), self@) == Err::<
                    DefinitionView,
                    ConversionErrorView,
                >(e@),
            },
    {
        let ghost cols = views(columns@);
        let ghost raw = views(self.entries@);
        let mut entries: Vec<Entry> = Vec::with_capacity(self.entries.len());
        let mut i: usize = 0;
        assert(views(entries@) =~= Seq::empty());
        assert(raw.subrange(0, 0) =~= Seq::empty());
        while i < self.entries.len()
            invariant
                i <= self.entries@.len(),
                cols == views(columns@),
                raw == views(self.entries@),
                resolve_entries(cols, raw.subrange(0, i as int)) == Ok::<
                    Seq<EntryView>,
                    ConversionErrorView,
                >(views(entries@)),
            decreases self.entries@.len() - i,
        {
            let entry = &self.entries[i];
            let ghost next = raw.subrange(0, i + 1);
            proof {
                assert(next.drop_last() =~= raw.subrange(0, i as int));
                assert(next.last() == entry@);
                lemma_column_index(cols, entry@.name);
            }
            let at = column_position(columns, &entry.name);
            if at >= columns.len() {
                proof {
                    lemma_resolve_entries_fails(cols, raw, i + 1);
                }
                return Err(ConversionError::ColumnNotFound(entry.name.clone()));
            }
            let column = &columns[at];
            assert(lookup(cols, entry@.name) == Some(column@));
            let ty = match type_of_entry(column, entry) {
                Ok(ty) => ty,
                Err(e) => {
                    proof {
                        lemma_resolve_entries_fails(cols, raw, i + 1);
                    }
                    return Err(e);
                },
            };
            let resolved = Entry {
                name: entry.name.clone(),
                ty,
                comment: copy_text(&entry.comment),
                column_comment: copy_text(&column.comment),
                verified: column.verified,
                primary_key: entry.primary_key,
                inline: entry.inline,
                relation: entry.relation,
            };
            proof {
                lemma_views_push(entries@, resolved);
            }
            entries.push(resolved);
            i += 1;
        }
        assert(raw.subrange(0, i as int) =~= raw);
        Ok(
            Definition {
                versions: copy_items(&self.versions),
                version_ranges: copy_items(&self.version_ranges),
                layouts: copy_items(&self.layouts),
                entries,
            },
        )
    }
}

/// `version` lies in one of the ranges.
pub open spec fn in_ranges(version_ranges: Seq<VersionRange>, version: Version) -> bool {
    exists|i: int| 0 <= i < version_ranges.len() && version_ranges[i].contains(version)
}

/// `version` lies in one of the ranges or is one of the versions.
pub open spec fn covers(
    version_ranges: Seq<VersionRange>,
    versions: Seq<Version>,
    version: Version,
) -> bool {
    in_ranges(version_ranges, version) || versions.contains(version)
}

/// Whether `version` lies in one of the ranges.
pub fn in_a_range(version: &Version, version_ranges: &Vec<VersionRange>) -> (r: bool)
    ensures
        r == in_ranges(version_ranges@, *version),
{
    let mut i: usize = 0;
    while i < version_ranges.len()
        invariant
            i <= version_ranges@.len(),
            forall|j: int| 0 <= j < i ==> !version_ranges@[j].contains(*version),
        decreases version_ranges@.len() - i,
    {
        if version_ranges[i].within_range(version) {
            return true;
        }
        i += 1;
    }
    false
}

/// Whether `version` is one of the versions.
pub fn is_listed(version: &Version, versions: &Vec<Version>) -> (r: bool)
    ensures
        r == versions@.contains(*version),
{
    let mut k: usize = 0;
    while k < versions.len()
        invariant
            k <= versions@.len(),
            forall|j: int| 0 <= j < k ==> versions@[j] != *version,
        decreases versions@.len() - k,
    {
        if versions[k] == *version {
            return true;
        }
        k += 1;
    }
    false
}

/// Whether a definition with these ranges and versions holds for `version`.
pub fn compare_versions(
    version: &Version,
    version_ranges: &Vec<VersionRange>,
    versions: &Vec<Version>,
) -> (r: bool)
    ensures
        r == covers(version_ranges@, versions@, *version),
{
    in_a_range(version, version_ranges) || is_listed(version, versions)
}

/// What is looked at of a definition when a version is looked up.
pub trait Scoped {
    /// The ranges of builds that the definition holds for.
    spec fn scope_ranges(&self) -> Seq<VersionRange>;

    /// The builds that the definition holds for.
    spec fn scope_versions(&self) -> Seq<Version>;

    /// Whether `version` lies in one of the ranges.
    fn has_range_for(&self, version: &Version) -> (r: bool)
        ensures
            r == in_ranges(self.scope_ranges(), *version),
    ;

    /// Whether `version` is one of the versions.
    fn has_version(&self, version: &Version) -> (r: bool)
        ensures
            r == self.scope_versions().contains(*version),
    ;
}

impl Scoped for RawDefinition {
    open spec fn scope_ranges(&self) -> Seq<VersionRange> {
        self.version_ranges@
    }

    open spec fn scope_versions(&self) -> Seq<Version> {
        self.versions@
    }

    fn has_range_for(&self, version: &Version) -> (r: bool) {
        in_a_range(version, &self.version_ranges)
    }

    fn has_version(&self, version: &Version) -> (r: bool) {
        is_listed(version, &self.versions)
    }
}

impl Scoped for Definition {
    open spec fn scope_ranges(&self) -> Seq<VersionRange> {
        self.version_ranges@
    }

    open spec fn scope_versions(&self) -> Seq<Version> {
        self.versions@
    }

    fn has_range_for(&self, version: &Version) -> (r: bool) {
        in_a_range(version, &self.version_ranges)
    }

    fn has_version(&self, version: &Version) -> (r: bool) {
        is_listed(version, &self.versions)
    }
}

/// Some definition has a range that `version` lies in.
pub open spec fn some_range_holds<D: Scoped>(definitions: Seq<D>, version: Version) -> bool {
    exists|k: int| 0 <= k < definitions.len() && in_ranges(definitions[k].scope_ranges(), version)
}

/// The definition at place `i` is the one that holds for `version`.
///
/// A range counts before a version: where any definition has a range that
/// `version` lies in, the first such definition holds. Only where no
/// definition has such a range, the first definition that has `version`
/// among its versions holds.
pub open spec fn holds_at<D: Scoped>(definitions: Seq<D>, version: Version, i: int) -> bool {
    &&& 0 <= i < definitions.len()
    &&& if some_range_holds(definitions, version) {
        &&& in_ranges(definitions[i].scope_ranges(), version)
        &&& forall|j: int| 0 <= j < i ==> !in_ranges(definitions[j].scope_ranges(), version)
    } else {
        &&& definitions[i].scope_versions().contains(version)
        &&& forall|j: int| 0 <= j < i ==> !definitions[j].scope_versions().contains(version)
    }
}

/// No definition holds for `version`, by a range or by a version.
pub open spec fn none_holds<D: Scoped>(definitions: Seq<D>, version: Version) -> bool {
    forall|j: int|
        0 <= j < definitions.len() ==> !covers(
            definitions[j].scope_ranges(),
            definitions[j].scope_versions(),
            version,
        )
}

/// At most one place holds for a version.
pub proof fn lemma_holds_at_one_place<D: Scoped>(
    definitions: Seq<D>,
    version: Version,
    i: int,
    j: int,
)
    requires
        holds_at(definitions, version, i),
        holds_at(definitions, version, j),
    ensures
        i == j,
{
}

/// A range counts before a version: where the definition at place `k` has
/// a range that `version` lies in, the definition that holds has such a
/// range too and does not come after it, whatever versions the definitions
/// before it list.
pub proof fn lemma_range_counts_first<D: Scoped>(
    definitions: Seq<D>,
    version: Version,
    i: int,
    k: int,
)
    requires
        holds_at(definitions, version, i),
        0 <= k < definitions.len(),
        in_ranges(definitions[k].scope_ranges(), version),
    ensures
        i <= k,
        in_ranges(definitions[i].scope_ranges(), version),
{
}

/// The place of the definition that holds for `version`.
pub fn find_definition<D: Scoped>(definitions: &Vec<D>, version: &Version) -> (r: Option<usize>)
    ensures
        match r {
            Some(i) => holds_at(definitions@, *version, i as int),
            None => none_holds(definitions@, *version),
        },
{
    let mut i: usize = 0;
    while i < definitions.len()
        invariant
            i <= definitions@.len(),
            forall|j: int| 0 <= j < i ==> !in_ranges(definitions@[j].scope_ranges(), *version),
        decreases definitions@.len() - i,
    {
        if definitions[i].has_range_for(version) {
            return Some(i);
        }
        i += 1;
    }
    let mut k: usize = 0;
    while k < definitions.len()
        invariant
            k <= definitions@.len(),
            !some_range_holds(definitions@, *version),
            forall|j: int| 0 <= j < k ==> !definitions@[j].scope_versions().contains(*version),
        decreases definitions@.len() - k,
    {
        if definitions[k].has_version(version) {
            return Some(k);
        }
        k += 1;
    }
    None
}

/// A document as read: the columns that its header declares, by name, and
/// its definitions in the order of the text.
#[derive(Debug, PartialEq, Eq)]
pub struct RawDbdFile {
    pub name: String,
    pub columns: Vec<RawColumn>,
    pub definitions: Vec<RawDefinition>,
}

/// A [`RawDbdFile`] with its texts as bytes.
pub struct RawDbdFileView {
    pub name: Seq<char>,
    pub columns: Seq<RawColumnView>,
    pub definitions: Seq<RawDefinitionView>,
}

impl RawDbdFileView {
    /// No column name is declared twice, and every definition is well
    /// formed.
    pub open spec fn well_formed(self) -> bool {
        &&& distinct_names(self.columns)
        &&& forall|i: int| 0 <= i < self.definitions.len() ==> self.definitions[i].well_formed()
    }
}

impl View for RawDbdFile {
    type V = RawDbdFileView;

    open spec fn view(&self) -> RawDbdFileView {
        RawDbdFileView {
            name: self.name@,
            columns: views(self.columns@),
            definitions: views(self.definitions@),
        }
    }
}

/// A resolved document.
#[derive(Debug, PartialOrd, Ord, PartialEq, Eq, Hash)]
pub struct DbdFile {
    pub name: String,
    pub definitions: Vec<Definition>,
}

/// A [`DbdFile`] with its texts as bytes.
pub struct DbdFileView {
    pub name: Seq<char>,
    pub definitions: Seq<DefinitionView>,
}

impl View for DbdFile {
    type V = DbdFileView;

    open spec fn view(&self) -> DbdFileView {
        DbdFileView { name: self.name@, definitions: views(self.definitions@) }
    }
}

impl Clone for RawDbdFile {
    fn clone(&self) -> (r: Self)
        ensures
            r@ == self@,
    {
        let columns = self.columns.clone();
        let definitions = self.definitions.clone();
        assert(views(columns@) =~= views(self.columns@));
        assert(views(definitions@) =~= views(self.definitions@));
        RawDbdFile { name: self.name.clone(), columns, definitions }
    }
}

impl Clone for DbdFile {
    fn clone(&self) -> (r: Self)
        ensures
            r@ == self@,
    {
        let definitions = self.definitions.clone();
        assert(views(definitions@) =~= views(self.definitions@));
        DbdFile { name: self.name.clone(), definitions }
    }
}

impl RawDbdFile {
    /// The definition that holds for `version`.
    ///
    /// A range counts before a version. If any definition has a range
    /// that `version` lies in, the first such definition, in the order of
    /// the document, is the result. Only if no definition has such a
    /// range, the result is the first definition that has `version`
    /// among its versions. There is none if neither is found.
    pub fn specific_version(&self, version: &Version) -> (r: Option<&RawDefinition>)
        ensures
            match r {
                Some(d) => exists|i: int|
                    {
                        &&& 0 <= i < self.definitions@.len()
                        &&& *d == self.definitions@[i]
                        &&& if exists|k: int|
                            0 <= k < self.definitions@.len() && in_ranges(
                                self.definitions@[k].version_ranges@,
                                *version,
                            ) {
                            &&& in_ranges(self.definitions@[i].version_ranges@, *version)
                            &&& forall|j: int|
                                0 <= j < i ==> !in_ranges(
                                    self.definitions@[j].version_ranges@,
                                    *version,
                                )
                        } else {
                            &&& self.definitions@[i].versions@.contains(*version)
                            &&& forall|j: int|
                                0 <= j < i ==> !self.definitions@[j].versions@.contains(*version)
                        }
                    },
                None => forall|j: int|
                    0 <= j < self.definitions@.len() ==> !covers(
                        self.definitions@[j].version_ranges@,
                        self.definitions@[j].versions@,
                        *version,
                    ),
            },
    {
        match find_definition(&self.definitions, version) {
            Some(i) => {
                proof {
                    if some_range_holds(self.definitions@, *version) {
                        let k = choose|k: int|
                            0 <= k < self.definitions@.len() && in_ranges(
                                self.definitions@[k].scope_ranges(),
                                *version,
                            );
                        assert(in_ranges(self.definitions@[k].version_ranges@, *version));
                    } else {
                        assert forall|k: int| 0 <= k < self.definitions@.len() implies !in_ranges(
                            self.definitions@[k].version_ranges@,
                            *version,
                        ) by {
                            assert(!in_ranges(self.definitions@[k].scope_ranges(), *version));
                        }
                    }
                }
                Some(&self.definitions[i])
            },
            None => None,
        }
    }

    /// Resolves the document. It fails as a whole on the first entry, in
    /// the order of the text, that cannot be resolved.
    pub fn into_proper(self) -> (r: Result<DbdFile, ConversionError>)
        ensures
            match r {
                Ok(f) => resolve_file(self@) == Ok::<DbdFileView, ConversionErrorView>(f@),
                Err(e) => resolve_file(self@) == Err::<DbdFileView, ConversionErrorView>(e@),
            },
    {
        let ghost cols = views(self.columns@);
        let ghost raw = views(self.definitions@);
        let mut definitions: Vec<Definition> = Vec::with_capacity(self.definitions.len());
        let mut i: usize = 0;
        assert(views(definitions@) =~= Seq::empty());
        assert(raw.subrange(0, 0) =~= Seq::empty());
        while i < self.definitions.len()
            invariant
                i <= self.definitions@.len(),
                cols == views(self.columns@),
                raw == views(self.definitions@),
                resolve_definitions(cols, raw.subrange(0, i as int)) == Ok::<
                    Seq<DefinitionView>,
                    ConversionErrorView,
                >(views(definitions@)),
            decreases self.definitions@.len() - i,
        {
            let ghost next = raw.subrange(0, i + 1);
            proof {
                assert(next.drop_last() =~= raw.subrange(0, i as int));
                assert(next.last() == self.definitions@[i as int]@);
            }
            match self.definitions[i].to_definition(&self.columns) {
                Ok(d) => {
                    proof {
                        lemma_views_push(definitions@, d);
                    }
                    definitions.push(d);
                },
                Err(e) => {
                    proof {
                        lemma_resolve_definitions_fails(cols, raw, i + 1);
                    }
                    return Err(e);
                },
            }
            i += 1;
        }
        assert(raw.subrange(0, i as int) =~= raw);
        Ok(DbdFile { name: self.name, definitions })
    }

    /// The column that `entry` uses.
    pub fn find_column(&self, entry: &RawEntry) -> (r: Option<&RawColumn>)
        ensures
            match r {
                Some(c) => lookup(self@.columns, entry@.name) == Some(c@) && self.columns@.contains(
                    *c,
                ),
                None => lookup(self@.columns, entry@.name) is None,
            },
    {
        let at = column_position(&self.columns, &entry.name);
        if at < self.columns.len() {
            Some(&self.columns[at])
        } else {
            None
        }
    }

    /// A document without columns and definitions.
    pub fn empty(name: String) -> (r: Self)
        ensures
            r.name == name,
            r.columns@.len() == 0,
            r.definitions@.len() == 0,
            r@.well_formed(),
    {
        Self { name, columns: Vec::new(), definitions: Vec::new() }
    }

    /// Declares a column. A column of the same name that was declared
    /// before is replaced: the later declaration is the one that counts.
    pub fn add_column(&mut self, column: RawColumn)
        ensures
            final(self)@.columns == declare(old(self)@.columns, column@),
            final(self).name == old(self).name,
            final(self).definitions == old(self).definitions,
            old(self)@.well_formed() ==> final(self)@.well_formed(),
    {
        let ghost before = self@;
        let ghost added = column@;
        proof {
            lemma_declare(before.columns, added);
        }
        let at = column_position(&self.columns, &column.name);
        if at < self.columns.len() {
            self.columns[at] = column;
            assert(views(self.columns@) =~= before.columns.update(at as int, added));
        } else {
            proof {
                lemma_views_push(self.columns@, column);
            }
            self.columns.push(column);
        }
        assert(self@.definitions == before.definitions);
        assert(self@.columns == declare(before.columns, added));
    }

    /// Adds a definition after those that are there.
    pub fn add_database(&mut self, definition: RawDefinition)
        ensures
            final(self)@.definitions == old(self)@.definitions.push(definition@),
            final(self).definitions@ == old(self).definitions@.push(definition),
            final(self).name == old(self).name,
            final(self).columns == old(self).columns,
            old(self)@.well_formed() && definition@.well_formed() ==> final(self)@.well_formed(),
    {
        let ghost before = self@;
        let ghost added = definition@;
        proof {
            lemma_views_push(self.definitions@, definition);
        }
        self.definitions.push(definition);
        proof {
            let after = self@.definitions;
            assert(after == before.definitions.push(added));
            if before.well_formed() && added.well_formed() {
                assert forall|i: int| 0 <= i < after.len() implies after[i].well_formed() by {
                    if i < before.definitions.len() {
                        assert(after[i] == before.definitions[i]);
                    }
                }
            }
        }
    }
}

impl DbdFile {
    /// The definition that holds for `version`.
    ///
    /// A range counts before a version. If any definition has a range
    /// that `version` lies in, the first such definition, in the order of
    /// the document, is the result. Only if no definition has such a
    /// range, the result is the first definition that has `version`
    /// among its versions. There is none if neither is found.
    pub fn specific_version(&self, version: &Version) -> (r: Option<&Definition>)
        ensures
            match r {
                Some(d) => exists|i: int|
                    {
                        &&& 0 <= i < self.definitions@.len()
                        &&& *d == self.definitions@[i]
                        &&& if exists|k: int|
                            0 <= k < self.definitions@.len() && in_ranges(
                                self.definitions@[k].version_ranges@,
                                *version,
                            ) {
                            &&& in_ranges(self.definitions@[i].version_ranges@, *version)
                            &&& forall|j: int|
                                0 <= j < i ==> !in_ranges(
                                    self.definitions@[j].version_ranges@,
                                    *version,
                                )
                        } else {
                            &&& self.definitions@[i].versions@.contains(*version)
                            &&& forall|j: int|
                                0 <= j < i ==> !self.definitions@[j].versions@.contains(*version)
                        }
                    },
                None => forall|j: int|
                    0 <= j < self.definitions@.len() ==> !covers(
                        self.definitions@[j].version_ranges@,
                        self.definitions@[j].versions@,
                        *version,
                    ),
            },
    {
        match find_definition(&self.definitions, version) {
            Some(i) => {
                proof {
                    if some_range_holds(self.definitions@, *version) {
                        let k = choose|k: int|
                            0 <= k < self.definitions@.len() && in_ranges(
                                self.definitions@[k].scope_ranges(),
                                *version,
                            );
                        assert(in_ranges(self.definitions@[k].version_ranges@, *version));
                    } else {
                        assert forall|k: int| 0 <= k < self.definitions@.len() implies !in_ranges(
                            self.definitions@[k].version_ranges@,
                            *version,
                        ) by {
                            assert(!in_ranges(self.definitions@[k].scope_ranges(), *version));
                        }
                    }
                }
                Some(&self.definitions[i])
            },
            None => None,
        }
    }
}

} // verus!

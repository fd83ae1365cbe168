//! The two tiers of the model: a document as it was read, and resolved.
use crate::ordered::Ranked;
use crate::text::utf8;
use crate::version::Version;
use vstd::prelude::*;

verus! {

/// The bytes of an optional text.
pub open spec fn opt_utf8(s: Option<String>) -> Option<Seq<u8>> {
    match s {
        Some(s) => Some(utf8(s@)),
        None => None,
    }
}

/// The views of the items of a sequence.
pub open spec fn views<T: View>(s: Seq<T>) -> Seq<T::V> {
    s.map_values(|x: T| x@)
}

pub proof fn lemma_views_push<T: View>(s: Seq<T>, x: T)
    ensures
        views(s.push(x)) == views(s).push(x@),
{
    assert(views(s.push(x)) =~= views(s).push(x@));
}

/// A copy of an optional text.
pub fn copy_text(s: &Option<String>) -> (r: Option<String>)
    ensures
        r == *s,
{
    match s {
        Some(s) => Some(s.clone()),
        None => None,
    }
}

/// The storage kind that a column is declared with.
#[derive(Debug, Clone, Copy, PartialOrd, Ord, PartialEq, Eq, Structural, Hash)]
pub enum RawType {
    Int,
    Float,
    LocString,
    String,
}

/// The table and column that a column refers to. The names are kept as
/// written; the table is not looked up.
#[derive(Debug, PartialOrd, Ord, PartialEq, Eq, Hash)]
pub struct ForeignKey {
    pub database: String,
    pub column: String,
}

/// A [`ForeignKey`] with its texts as bytes.
pub struct ForeignKeyView {
    pub database: Seq<u8>,
    pub column: Seq<u8>,
}

impl View for ForeignKey {
    type V = ForeignKeyView;

    open spec fn view(&self) -> ForeignKeyView {
        ForeignKeyView { database: utf8(self.database@), column: utf8(self.column@) }
    }
}

impl Clone for ForeignKey {
    fn clone(&self) -> (r: Self)
        ensures
            r == *self,
    {
        ForeignKey { database: self.database.clone(), column: self.column.clone() }
    }
}

impl ForeignKey {
    pub fn new(database: String, column: String) -> (r: Self)
        ensures
            r.database == database,
            r.column == column,
    {
        Self { database, column }
    }
}

/// The view of an optional foreign key.
pub open spec fn opt_key(k: Option<ForeignKey>) -> Option<ForeignKeyView> {
    match k {
        Some(k) => Some(k@),
        None => None,
    }
}

/// A column as the header of a document declares it.
#[derive(Debug, PartialOrd, Ord, PartialEq, Eq, Hash)]
pub struct RawColumn {
    pub name: String,
    pub ty: RawType,
    pub foreign_key: Option<ForeignKey>,
    pub verified: bool,
    pub comment: Option<String>,
}

/// A [`RawColumn`] with its texts as bytes.
pub struct RawColumnView {
    pub name: Seq<u8>,
    pub ty: RawType,
    pub foreign_key: Option<ForeignKeyView>,
    pub verified: bool,
    pub comment: Option<Seq<u8>>,
}

impl View for RawColumn {
    type V = RawColumnView;

    open spec fn view(&self) -> RawColumnView {
        RawColumnView {
            name: utf8(self.name@),
            ty: self.ty,
            foreign_key: opt_key(self.foreign_key),
            verified: self.verified,
            comment: opt_utf8(self.comment),
        }
    }
}

impl Clone for RawColumn {
    fn clone(&self) -> (r: Self)
        ensures
            r == *self,
    {
        RawColumn {
            name: self.name.clone(),
            ty: self.ty,
            foreign_key: match &self.foreign_key {
                Some(k) => Some(k.clone()),
                None => None,
            },
            verified: self.verified,
            comment: copy_text(&self.comment),
        }
    }
}

impl RawColumn {
    pub fn new(
        name: String,
        ty: RawType,
        foreign_key: Option<ForeignKey>,
        verified: bool,
        comment: Option<String>,
    ) -> (r: Self)
        ensures
            r.name == name,
            r.ty == ty,
            r.foreign_key == foreign_key,
            r.verified == verified,
            r.comment == comment,
    {
        Self { name, ty, foreign_key, verified, comment }
    }
}

/// The fingerprint of a binary layout. It stands for nothing but itself.
#[derive(Debug, Clone, Copy, PartialOrd, Ord, PartialEq, Eq, Structural, Hash)]
pub struct Layout {
    pub inner: u32,
}

impl Layout {
    pub fn new(value: u32) -> (r: Self)
        ensures
            r.inner == value,
    {
        Self { inner: value }
    }
}

impl Default for Layout {
    fn default() -> (r: Self)
        ensures
            r.inner == 0,
    {
        Layout { inner: 0 }
    }
}

impl Ranked for Layout {
    open spec fn rank(&self) -> int {
        self.inner as int
    }

    proof fn lemma_rank_injective(a: Self, b: Self) {
    }

    fn ranks_below(&self, other: &Self) -> (r: bool) {
        self.inner < other.inner
    }
}

impl Ranked for Version {
    open spec fn rank(&self) -> int {
        ((self.major as int * 256 + self.minor as int) * 256 + self.patch as int) * 65536
            + self.build as int
    }

    proof fn lemma_rank_injective(a: Self, b: Self) {
    }

    fn ranks_below(&self, other: &Self) -> (r: bool) {
        self.is_before(other)
    }
}

/// Versions rank as they are ordered.
pub proof fn lemma_version_rank(a: Version, b: Version)
    ensures
        a.precedes(b) <==> a.rank() < b.rank(),
{
}

/// One use of a column in a definition.
#[derive(Debug, PartialOrd, Ord, PartialEq, Eq, Hash)]
pub struct RawEntry {
    pub name: String,
    pub comment: Option<String>,
    pub integer_width: Option<u8>,
    pub array_size: Option<usize>,
    pub unsigned: bool,
    pub primary_key: bool,
    pub inline: bool,
    pub relation: bool,
}

/// A [`RawEntry`] with its texts as bytes.
pub struct RawEntryView {
    pub name: Seq<u8>,
    pub comment: Option<Seq<u8>>,
    pub integer_width: Option<u8>,
    pub array_size: Option<usize>,
    pub unsigned: bool,
    pub primary_key: bool,
    pub inline: bool,
    pub relation: bool,
}

impl RawEntryView {
    /// The entry is a primary key, is not inline, or is a relation.
    pub open spec fn has_any_tag(self) -> bool {
        self.primary_key || !self.inline || self.relation
    }
}

impl View for RawEntry {
    type V = RawEntryView;

    open spec fn view(&self) -> RawEntryView {
        RawEntryView {
            name: utf8(self.name@),
            comment: opt_utf8(self.comment),
            integer_width: self.integer_width,
            array_size: self.array_size,
            unsigned: self.unsigned,
            primary_key: self.primary_key,
            inline: self.inline,
            relation: self.relation,
        }
    }
}

impl Clone for RawEntry {
    fn clone(&self) -> (r: Self)
        ensures
            r == *self,
    {
        RawEntry {
            name: self.name.clone(),
            comment: copy_text(&self.comment),
            integer_width: self.integer_width,
            array_size: self.array_size,
            unsigned: self.unsigned,
            primary_key: self.primary_key,
            inline: self.inline,
            relation: self.relation,
        }
    }
}

impl RawEntry {
    pub fn new(
        name: String,
        comment: Option<String>,
        integer_width: Option<u8>,
        array_size: Option<usize>,
        unsigned: bool,
        primary_key: bool,
        inline: bool,
        relation: bool,
    ) -> (r: Self)
        ensures
            r.name == name,
            r.comment == comment,
            r.integer_width == integer_width,
            r.array_size == array_size,
            r.unsigned == unsigned,
            r.primary_key == primary_key,
            r.inline == inline,
            r.relation == relation,
    {
        Self {
            name,
            comment,
            integer_width,
            unsigned,
            array_size,
            primary_key,
            inline,
            relation,
        }
    }

    pub fn has_any_tag(&self) -> (r: bool)
        ensures
            r == self@.has_any_tag(),
            r == (self.primary_key || !self.inline || self.relation),
    {
        self.primary_key || !self.inline || self.relation
    }
}

/// The type of a resolved entry.
#[derive(Debug, PartialOrd, Ord, PartialEq, Eq, Hash)]
pub enum Type {
    Int8,
    Int16,
    Int32,
    Int64,
    UInt8,
    UInt16,
    UInt32,
    UInt64,
    Float,
    LocString,
    String,
    ForeignKey { ty: Box<Type>, key: ForeignKey },
    Array { ty: Box<Type>, width: usize },
}

/// A [`Type`] with its texts as bytes.
pub enum TypeView {
    Int8,
    Int16,
    Int32,
    Int64,
    UInt8,
    UInt16,
    UInt32,
    UInt64,
    Float,
    LocString,
    String,
    ForeignKey { ty: Box<TypeView>, key: ForeignKeyView },
    Array { ty: Box<TypeView>, width: usize },
}

impl View for Type {
    type V = TypeView;

    open spec fn view(&self) -> TypeView
        decreases self,
    {
        match self {
            Type::Int8 => TypeView::Int8,
            Type::Int16 => TypeView::Int16,
            Type::Int32 => TypeView::Int32,
            Type::Int64 => TypeView::Int64,
            Type::UInt8 => TypeView::UInt8,
            Type::UInt16 => TypeView::UInt16,
            Type::UInt32 => TypeView::UInt32,
            Type::UInt64 => TypeView::UInt64,
            Type::Float => TypeView::Float,
            Type::LocString => TypeView::LocString,
            Type::String => TypeView::String,
            Type::ForeignKey { ty, key } => TypeView::ForeignKey {
                ty: Box::new((**ty).view()),
                key: key@,
            },
            Type::Array { ty, width } => TypeView::Array {
                ty: Box::new((**ty).view()),
                width: *width,
            },
        }
    }
}

impl Clone for Type {
    fn clone(&self) -> (r: Self)
        ensures
            r == *self,
        decreases self,
    {
        match self {
            Type::Int8 => Type::Int8,
            Type::Int16 => Type::Int16,
            Type::Int32 => Type::Int32,
            Type::Int64 => Type::Int64,
            Type::UInt8 => Type::UInt8,
            Type::UInt16 => Type::UInt16,
            Type::UInt32 => Type::UInt32,
            Type::UInt64 => Type::UInt64,
            Type::Float => Type::Float,
            Type::LocString => Type::LocString,
            Type::String => Type::String,
            Type::ForeignKey { ty, key } => Type::ForeignKey {
                ty: Box::new((&**ty).clone()),
                key: key.clone(),
            },
            Type::Array { ty, width } => Type::Array {
                ty: Box::new((&**ty).clone()),
                width: *width,
            },
        }
    }
}

/// A resolved entry: a use of a column with the column's declaration merged
/// into it.
#[derive(Debug, PartialOrd, Ord, PartialEq, Eq, Hash)]
pub struct Entry {
    pub name: String,
    pub ty: Type,
    pub comment: Option<String>,
    pub column_comment: Option<String>,
    pub verified: bool,
    pub primary_key: bool,
    pub inline: bool,
    pub relation: bool,
}

/// An [`Entry`] with its texts as bytes.
pub struct EntryView {
    pub name: Seq<u8>,
    pub ty: TypeView,
    pub comment: Option<Seq<u8>>,
    pub column_comment: Option<Seq<u8>>,
    pub verified: bool,
    pub primary_key: bool,
    pub inline: bool,
    pub relation: bool,
}

impl View for Entry {
    type V = EntryView;

    open spec fn view(&self) -> EntryView {
        EntryView {
            name: utf8(self.name@),
            ty: self.ty@,
            comment: opt_utf8(self.comment),
            column_comment: opt_utf8(self.column_comment),
            verified: self.verified,
            primary_key: self.primary_key,
            inline: self.inline,
            relation: self.relation,
        }
    }
}

impl Clone for Entry {
    fn clone(&self) -> (r: Self)
        ensures
            r == *self,
    {
        Entry {
            name: self.name.clone(),
            ty: self.ty.clone(),
            comment: copy_text(&self.comment),
            column_comment: copy_text(&self.column_comment),
            verified: self.verified,
            primary_key: self.primary_key,
            inline: self.inline,
            relation: self.relation,
        }
    }
}

} // verus!

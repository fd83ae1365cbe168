//! Values as text for people to read.
use crate::error::{
    ConversionError, ConversionErrorView, DbdErrorReason, ParseError, ParseErrorView, ReasonView,
};
use crate::number::{dec_text, put, put_dec};
use crate::text::utf8;
use crate::types::{ForeignKey, Layout, RawType};
use crate::version::Version;
use crate::written::{key_text, kind_word, version_text};
use vstd::prelude::*;

verus! {

/// What a reason says.
pub open spec fn reason_text(r: ReasonView) -> Seq<u8> {
    match r {
        ReasonView::NoSpaceInColumn => utf8("no space to separate column name and type"@),
        ReasonView::NoDoubleColonInForeignKey => utf8(
            "no '::' inside foreign key '<' and '>' brackets"@,
        ),
        ReasonView::NoClosingForeignKeyAngleBracket => utf8(
            "no matching '>' for opening '<' in foreign key"@,
        ),
        ReasonView::NoClosingAnnotationDollarSign => utf8(
            "no matching '$' for opening '$' in annotations"@,
        ),
        ReasonView::NoClosingIntegerSizeAngleBracket => utf8(
            "no matching '>' for opening '<' in integer size"@,
        ),
        ReasonView::InvalidIntegerSizeNumber(s) => utf8("invalid integer size: '"@) + s + utf8(
            "'"@,
        ),
        ReasonView::NoClosingArraySizeSquareBracket => utf8(
            "no matching ']' for opening '[' in array"@,
        ),
        ReasonView::InvalidArraySizeNumber(s) => utf8("invalid array size: '"@) + s + utf8("'"@),
        ReasonView::InvalidLayout(s) => utf8("invalid hex string for layout: '"@) + s + utf8(
            "'"@,
        ),
        ReasonView::InvalidBuild(s) => utf8("invalid build format: '"@) + s + utf8("'"@),
        ReasonView::InvalidType(s) => utf8("invalid type name: '"@) + s + utf8("'"@),
    }
}

/// What a failure to read says: the place, then the reason.
pub open spec fn parse_error_text(e: ParseErrorView) -> Seq<u8> {
    utf8("Column "@) + dec_text(e.column as nat) + utf8(", line "@) + dec_text(e.line as nat)
        + utf8(": "@) + reason_text(e.reason)
}

/// What a failure to resolve says.
pub open spec fn conversion_text(e: ConversionErrorView) -> Seq<u8> {
    match e {
        ConversionErrorView::InvalidIntegerWidth(w) => utf8("invalid integer size '"@) + dec_text(
            w as nat,
        ) + utf8("'"@),
        ConversionErrorView::NoIntegerWidth => utf8("no integer width for integer"@),
        ConversionErrorView::ColumnNotFound(s) => utf8("column not found '"@) + s + utf8("'"@),
        ConversionErrorView::LocStringAsForeignKey => utf8(
            "LocString type is set as foreign key"@,
        ),
        ConversionErrorView::StringAsForeignKey => utf8("String type is set as foreign key"@),
        ConversionErrorView::FloatAsForeignKey => utf8("Float type is set as foreign key"@),
    }
}

fn quoted(before: &str, s: &String) -> (r: String)
    ensures
        utf8(r@) == utf8(before@) + utf8(s@) + utf8("'"@),
{
    let mut out = String::new();
    assert(utf8(out@) =~= Seq::<u8>::empty());
    put(&mut out, before);
    put(&mut out, s.as_str());
    put(&mut out, "'");
    assert(utf8(out@) =~= utf8(before@) + utf8(s@) + utf8("'"@));
    out
}

fn plain(s: &str) -> (r: String)
    ensures
        utf8(r@) == utf8(s@),
{
    let mut out = String::new();
    assert(utf8(out@) =~= Seq::<u8>::empty());
    put(&mut out, s);
    assert(utf8(out@) =~= utf8(s@));
    out
}

impl DbdErrorReason {
    /// The reason in words.
    pub fn to_string(&self) -> (r: String)
        ensures
            utf8(r@) == reason_text(self@),
    {
        match self {
            DbdErrorReason::NoSpaceInColumn => plain("no space to separate column name and type"),
            DbdErrorReason::NoDoubleColonInForeignKey => plain(
                "no '::' inside foreign key '<' and '>' brackets",
            ),
            DbdErrorReason::NoClosingForeignKeyAngleBracket => plain(
                "no matching '>' for opening '<' in foreign key",
            ),
            DbdErrorReason::NoClosingAnnotationDollarSign => plain(
                "no matching '$' for opening '$' in annotations",
            ),
            DbdErrorReason::NoClosingIntegerSizeAngleBracket => plain(
                "no matching '>' for opening '<' in integer size",
            ),
            DbdErrorReason::InvalidIntegerSizeNumber(s) => quoted("invalid integer size: '", s),
            DbdErrorReason::NoClosingArraySizeSquareBracket => plain(
                "no matching ']' for opening '[' in array",
            ),
            DbdErrorReason::InvalidArraySizeNumber(s) => quoted("invalid array size: '", s),
            DbdErrorReason::InvalidLayout(s) => quoted("invalid hex string for layout: '", s),
            DbdErrorReason::InvalidBuild(s) => quoted("invalid build format: '", s),
            DbdErrorReason::InvalidType(s) => quoted("invalid type name: '", s),
        }
    }
}

impl ParseError {
    /// The place and the reason in words.
    pub fn to_string(&self) -> (r: String)
        ensures
            utf8(r@) == parse_error_text(self@),
    {
        let mut out = String::new();
        assert(utf8(out@) =~= Seq::<u8>::empty());
        put(&mut out, "Column ");
        put_dec(&mut out, self.column as u64);
        put(&mut out, ", line ");
        put_dec(&mut out, self.line as u64);
        put(&mut out, ": ");
        let reason = self.reason.to_string();
        put(&mut out, reason.as_str());
        assert(utf8(out@) =~= parse_error_text(self@));
        out
    }
}

impl ConversionError {
    /// The failure in words.
    pub fn to_string(&self) -> (r: String)
        ensures
            utf8(r@) == conversion_text(self@),
    {
        match self {
            ConversionError::InvalidIntegerWidth(w) => {
                let mut out = String::new();
                assert(utf8(out@) =~= Seq::<u8>::empty());
                put(&mut out, "invalid integer size '");
                put_dec(&mut out, *w as u64);
                put(&mut out, "'");
                assert(utf8(out@) =~= conversion_text(self@));
                out
            },
            ConversionError::NoIntegerWidth => plain("no integer width for integer"),
            ConversionError::ColumnNotFound(s) => quoted("column not found '", s),
            ConversionError::LocStringAsForeignKey => plain("LocString type is set as foreign key"),
            ConversionError::StringAsForeignKey => plain("String type is set as foreign key"),
            ConversionError::FloatAsForeignKey => plain("Float type is set as foreign key"),
        }
    }
}

impl RawType {
    /// The keyword of the storage kind.
    pub fn to_string(&self) -> (r: String)
        ensures
            utf8(r@) == kind_word(*self),
    {
        match self {
            RawType::Int => plain("int"),
            RawType::Float => plain("float"),
            RawType::LocString => plain("locstring"),
            RawType::String => plain("string"),
        }
    }
}

impl ForeignKey {
    /// `<table::column>`.
    pub fn to_string(&self) -> (r: String)
        ensures
            utf8(r@) == key_text(self@),
    {
        let mut out = String::new();
        assert(utf8(out@) =~= Seq::<u8>::empty());
        put(&mut out, "<");
        put(&mut out, self.database.as_str());
        put(&mut out, "::");
        put(&mut out, self.column.as_str());
        put(&mut out, ">");
        assert(utf8(out@) =~= key_text(self@));
        out
    }
}

impl Version {
    /// `major.minor.patch.build`.
    pub fn to_string(&self) -> (r: String)
        ensures
            utf8(r@) == version_text(*self),
    {
        let mut out = String::new();
        assert(utf8(out@) =~= Seq::<u8>::empty());
        put_dec(&mut out, self.major as u64);
        put(&mut out, ".");
        put_dec(&mut out, self.minor as u64);
        put(&mut out, ".");
        put_dec(&mut out, self.patch as u64);
        put(&mut out, ".");
        put_dec(&mut out, self.build as u64);
        assert(utf8(out@) =~= version_text(*self));
        out
    }
}

impl Layout {
    /// The fingerprint as a decimal number.
    pub fn to_string(&self) -> (r: String)
        ensures
            utf8(r@) == dec_text(self.inner as nat),
    {
        let mut out = String::new();
        assert(utf8(out@) =~= Seq::<u8>::empty());
        put_dec(&mut out, self.inner as u64);
        assert(utf8(out@) =~= dec_text(self.inner as nat));
        out
    }
}

} // verus!

//! Errors of reading and of resolving a document.
use crate::locate::{text_after, text_at};
use crate::text::utf8;
use vstd::prelude::*;

verus! {

/// Why a document could not be read.
#[derive(Debug, PartialOrd, Ord, PartialEq, Eq, Hash)]
pub enum DbdErrorReason {
    NoSpaceInColumn,
    NoDoubleColonInForeignKey,
    NoClosingForeignKeyAngleBracket,
    NoClosingAnnotationDollarSign,
    NoClosingIntegerSizeAngleBracket,
    InvalidIntegerSizeNumber(String),
    NoClosingArraySizeSquareBracket,
    InvalidArraySizeNumber(String),
    InvalidLayout(String),
    InvalidBuild(String),
    InvalidType(String),
}

/// A [`DbdErrorReason`] with its texts as bytes.
pub enum ReasonView {
    NoSpaceInColumn,
    NoDoubleColonInForeignKey,
    NoClosingForeignKeyAngleBracket,
    NoClosingAnnotationDollarSign,
    NoClosingIntegerSizeAngleBracket,
    InvalidIntegerSizeNumber(Seq<u8>),
    NoClosingArraySizeSquareBracket,
    InvalidArraySizeNumber(Seq<u8>),
    InvalidLayout(Seq<u8>),
    InvalidBuild(Seq<u8>),
    InvalidType(Seq<u8>),
}

impl View for DbdErrorReason {
    type V = ReasonView;

    open spec fn view(&self) -> ReasonView {
        match self {
            DbdErrorReason::NoSpaceInColumn => ReasonView::NoSpaceInColumn,
            DbdErrorReason::NoDoubleColonInForeignKey => ReasonView::NoDoubleColonInForeignKey,
            DbdErrorReason::NoClosingForeignKeyAngleBracket =>
                ReasonView::NoClosingForeignKeyAngleBracket,
            DbdErrorReason::NoClosingAnnotationDollarSign =>
                ReasonView::NoClosingAnnotationDollarSign,
            DbdErrorReason::NoClosingIntegerSizeAngleBracket =>
                ReasonView::NoClosingIntegerSizeAngleBracket,
            DbdErrorReason::InvalidIntegerSizeNumber(s) => ReasonView::InvalidIntegerSizeNumber(
                utf8(s@),
            ),
            DbdErrorReason::NoClosingArraySizeSquareBracket =>
                ReasonView::NoClosingArraySizeSquareBracket,
            DbdErrorReason::InvalidArraySizeNumber(s) => ReasonView::InvalidArraySizeNumber(
                utf8(s@),
            ),
            DbdErrorReason::InvalidLayout(s) => ReasonView::InvalidLayout(utf8(s@)),
            DbdErrorReason::InvalidBuild(s) => ReasonView::InvalidBuild(utf8(s@)),
            DbdErrorReason::InvalidType(s) => ReasonView::InvalidType(utf8(s@)),
        }
    }
}

impl Clone for DbdErrorReason {
    fn clone(&self) -> (r: Self)
        ensures
            r == *self,
    {
        match self {
            DbdErrorReason::NoSpaceInColumn => DbdErrorReason::NoSpaceInColumn,
            DbdErrorReason::NoDoubleColonInForeignKey => DbdErrorReason::NoDoubleColonInForeignKey,
            DbdErrorReason::NoClosingForeignKeyAngleBracket =>
                DbdErrorReason::NoClosingForeignKeyAngleBracket,
            DbdErrorReason::NoClosingAnnotationDollarSign =>
                DbdErrorReason::NoClosingAnnotationDollarSign,
            DbdErrorReason::NoClosingIntegerSizeAngleBracket =>
                DbdErrorReason::NoClosingIntegerSizeAngleBracket,
            DbdErrorReason::InvalidIntegerSizeNumber(s) => DbdErrorReason::InvalidIntegerSizeNumber(
                s.clone(),
            ),
            DbdErrorReason::NoClosingArraySizeSquareBracket =>
                DbdErrorReason::NoClosingArraySizeSquareBracket,
            DbdErrorReason::InvalidArraySizeNumber(s) => DbdErrorReason::InvalidArraySizeNumber(
                s.clone(),
            ),
            DbdErrorReason::InvalidLayout(s) => DbdErrorReason::InvalidLayout(s.clone()),
            DbdErrorReason::InvalidBuild(s) => DbdErrorReason::InvalidBuild(s.clone()),
            DbdErrorReason::InvalidType(s) => DbdErrorReason::InvalidType(s.clone()),
        }
    }
}

/// A failure to read a document, with the place of the text that caused it:
/// the line, counted from zero, and the byte offset within that line.
#[derive(Debug, PartialOrd, Ord, PartialEq, Eq, Hash)]
pub struct ParseError {
    pub column: usize,
    pub line: usize,
    pub reason: DbdErrorReason,
}

/// A [`ParseError`] with its texts as bytes.
pub struct ParseErrorView {
    pub column: int,
    pub line: int,
    pub reason: ReasonView,
}

impl View for ParseError {
    type V = ParseErrorView;

    open spec fn view(&self) -> ParseErrorView {
        ParseErrorView {
            column: self.column as int,
            line: self.line as int,
            reason: self.reason@,
        }
    }
}

impl Clone for ParseError {
    fn clone(&self) -> (r: Self)
        ensures
            r == *self,
    {
        ParseError { column: self.column, line: self.line, reason: self.reason.clone() }
    }
}

impl ParseError {
    pub fn new(column: usize, line: usize, reason: DbdErrorReason) -> (e: Self)
        ensures
            e.column == column,
            e.line == line,
            e.reason == reason,
    {
        Self { column, line, reason }
    }

    /// The text of `contents` from the place of the error to the end, or
    /// nothing if `contents` has no such place.
    pub fn start_str_at<'a>(&self, contents: &'a str) -> (r: Option<&'a str>)
        ensures
            match r {
                Some(s) => text_at(utf8(contents@), self.line as nat, self.column as nat) == Some(
                    utf8(s@),
                ),
                None => text_at(utf8(contents@), self.line as nat, self.column as nat) is None,
            },
    {
        text_after(contents, self.line, self.column)
    }
}

/// Why a document that was read could not be resolved.
#[derive(Debug, PartialOrd, Ord, PartialEq, Eq, Hash)]
pub enum ConversionError {
    InvalidIntegerWidth(usize),
    NoIntegerWidth,
    ColumnNotFound(String),
    LocStringAsForeignKey,
    StringAsForeignKey,
    FloatAsForeignKey,
}

/// A [`ConversionError`] with its text as bytes.
pub enum ConversionErrorView {
    InvalidIntegerWidth(usize),
    NoIntegerWidth,
    ColumnNotFound(Seq<u8>),
    LocStringAsForeignKey,
    StringAsForeignKey,
    FloatAsForeignKey,
}

impl View for ConversionError {
    type V = ConversionErrorView;

    open spec fn view(&self) -> ConversionErrorView {
        match self {
            ConversionError::InvalidIntegerWidth(w) => ConversionErrorView::InvalidIntegerWidth(*w),
            ConversionError::NoIntegerWidth => ConversionErrorView::NoIntegerWidth,
            ConversionError::ColumnNotFound(s) => ConversionErrorView::ColumnNotFound(utf8(s@)),
            ConversionError::LocStringAsForeignKey => ConversionErrorView::LocStringAsForeignKey,
            ConversionError::StringAsForeignKey => ConversionErrorView::StringAsForeignKey,
            ConversionError::FloatAsForeignKey => ConversionErrorView::FloatAsForeignKey,
        }
    }
}

impl Clone for ConversionError {
    fn clone(&self) -> (r: Self)
        ensures
            r == *self,
    {
        match self {
            ConversionError::InvalidIntegerWidth(w) => ConversionError::InvalidIntegerWidth(*w),
            ConversionError::NoIntegerWidth => ConversionError::NoIntegerWidth,
            ConversionError::ColumnNotFound(s) => ConversionError::ColumnNotFound(s.clone()),
            ConversionError::LocStringAsForeignKey => ConversionError::LocStringAsForeignKey,
            ConversionError::StringAsForeignKey => ConversionError::StringAsForeignKey,
            ConversionError::FloatAsForeignKey => ConversionError::FloatAsForeignKey,
        }
    }
}

} // verus!

//! Client versions and inclusive ranges of them.
use std::cmp::Ordering;
use vstd::prelude::*;
use vstd::std_specs::cmp::PartialOrdSpec;

verus! {

/// A client build: `major.minor.patch.build`.
///
/// Versions are ordered lexicographically by major, minor, patch and build.
#[derive(Debug, Copy, Clone, Hash, PartialEq, Eq, Structural, Ord)]
pub struct Version {
    pub major: u8,
    pub minor: u8,
    pub patch: u8,
    pub build: u16,
}

impl Version {
    /// `self` comes strictly before `other`.
    pub open spec fn precedes(self, other: Version) -> bool {
        ||| self.major < other.major
        ||| self.major == other.major && self.minor < other.minor
        ||| self.major == other.major && self.minor == other.minor && self.patch < other.patch
        ||| self.major == other.major && self.minor == other.minor && self.patch == other.patch
            && self.build < other.build
    }

    /// `self` comes before `other` or equals it.
    pub open spec fn at_most(self, other: Version) -> bool {
        self == other || self.precedes(other)
    }

    pub fn new(major: u8, minor: u8, patch: u8, build: u16) -> (v: Self)
        ensures
            v.major == major,
            v.minor == minor,
            v.patch == patch,
            v.build == build,
    {
        Self { major, minor, patch, build }
    }

    /// Strict order test, the executable form of [`Version::precedes`].
    pub fn is_before(&self, other: &Version) -> (r: bool)
        ensures
            r == self.precedes(*other),
    {
        if self.major != other.major {
            self.major < other.major
        } else if self.minor != other.minor {
            self.minor < other.minor
        } else if self.patch != other.patch {
            self.patch < other.patch
        } else {
            self.build < other.build
        }
    }
}

impl Default for Version {
    fn default() -> (v: Self)
        ensures
            v == (Version { major: 0, minor: 0, patch: 0, build: 0 }),
    {
        Version { major: 0, minor: 0, patch: 0, build: 0 }
    }
}

impl PartialOrd for Version {
    fn partial_cmp(&self, other: &Self) -> (r: Option<Ordering>) {
        if self.is_before(other) {
            Some(Ordering::Less)
        } else if *self == *other {
            Some(Ordering::Equal)
        } else {
            Some(Ordering::Greater)
        }
    }
}

impl vstd::std_specs::cmp::PartialOrdSpecImpl for Version {
    open spec fn obeys_partial_cmp_spec() -> bool {
        true
    }

    open spec fn partial_cmp_spec(&self, other: &Self) -> Option<Ordering> {
        if self.precedes(*other) {
            Some(Ordering::Less)
        } else if *self == *other {
            Some(Ordering::Equal)
        } else {
            Some(Ordering::Greater)
        }
    }
}

/// The order on versions is strict and total: of two versions exactly one
/// of "before", "equal" and "after" holds.
pub proof fn lemma_version_order_total(a: Version, b: Version)
    ensures
        a.precedes(b) || a == b || b.precedes(a),
        !(a.precedes(b) && b.precedes(a)),
        !(a.precedes(b) && a == b),
{
}

/// The order on versions is transitive.
pub proof fn lemma_version_order_transitive(a: Version, b: Version, c: Version)
    requires
        a.precedes(b),
        b.precedes(c),
    ensures
        a.precedes(c),
{
}

/// `<` on versions is the lexicographic order on
/// `(major, minor, patch, build)`.
pub proof fn lemma_version_less_is_lexicographic(a: Version, b: Version)
    ensures
        (a.partial_cmp_spec(&b) == Some(Ordering::Less)) <==> a.precedes(b),
        (a.partial_cmp_spec(&b) == Some(Ordering::Equal)) <==> a == b,
        (a.partial_cmp_spec(&b) == Some(Ordering::Greater)) <==> b.precedes(a),
        a.precedes(b) <==> {
            ||| a.major < b.major
            ||| a.major == b.major && a.minor < b.minor
            ||| a.major == b.major && a.minor == b.minor && a.patch < b.patch
            ||| a.major == b.major && a.minor == b.minor && a.patch == b.patch && a.build
                < b.build
        },
{
}

/// An inclusive range of versions. A range whose `from` lies after its `to`
/// is accepted and contains no version.
#[derive(Debug, Copy, Clone, Hash, PartialEq, Eq, Structural, PartialOrd, Ord)]
pub struct VersionRange {
    pub from: Version,
    pub to: Version,
}

impl VersionRange {
    /// `version` lies between `from` and `to`, both included.
    pub open spec fn contains(self, version: Version) -> bool {
        self.from.at_most(version) && version.at_most(self.to)
    }

    pub fn new(from: Version, to: Version) -> (r: Self)
        ensures
            r.from == from,
            r.to == to,
    {
        Self { from, to }
    }

    pub fn within_range(&self, version: &Version) -> (r: bool)
        ensures
            r == self.contains(*version),
    {
        self.from <= *version && self.to >= *version
    }
}

impl Default for VersionRange {
    fn default() -> (r: Self)
        ensures
            r.from == (Version { major: 0, minor: 0, patch: 0, build: 0 }),
            r.to == (Version { major: 0, minor: 0, patch: 0, build: 0 }),
    {
        VersionRange { from: Version::default(), to: Version::default() }
    }
}

/// A range whose bounds are out of order contains nothing.
pub proof fn lemma_inverted_range_is_empty(range: VersionRange, version: Version)
    requires
        range.to.precedes(range.from),
    ensures
        !range.contains(version),
{
}

} // verus!

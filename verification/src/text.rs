//! Text as bytes: searching, trimming and cutting UTF-8 text.
//!
//! The grammar of a document is stated over the UTF-8 bytes of its text.
//! Every delimiter is an ASCII byte, so text is only ever cut next to an
//! ASCII byte, which is always a character boundary.
use vstd::prelude::*;
use vstd::string::StringSliceAdditionalSpecFns;
use vstd::utf8::*;

verus! {

/// The UTF-8 bytes of a string.
pub open spec fn utf8(s: Seq<char>) -> Seq<u8> {
    encode_utf8(s)
}

/// Blank bytes: space, tab and carriage return.
pub open spec fn is_blank(b: u8) -> bool {
    b == 0x20 || b == 0x09 || b == 0x0d
}

/// What a search looks for at one position.
#[derive(Clone, Copy, Debug, PartialEq, Eq)]
pub enum Pat {
    /// This byte.
    Byte(u8),
    /// One of these two bytes.
    Either(u8, u8),
    /// These two bytes in a row.
    Pair(u8, u8),
    /// A blank byte.
    Blank,
    /// A byte that is not blank.
    Solid,
}

/// The pattern `p` is found in `s` at position `i`.
pub open spec fn hit(s: Seq<u8>, i: int, p: Pat) -> bool {
    0 <= i < s.len() && match p {
        Pat::Byte(b) => s[i] == b,
        Pat::Either(a, b) => s[i] == a || s[i] == b,
        Pat::Pair(a, b) => i + 1 < s.len() && s[i] == a && s[i + 1] == b,
        Pat::Blank => is_blank(s[i]),
        Pat::Solid => !is_blank(s[i]),
    }
}

/// The first position at or after `from` where `p` is found, or the length
/// of `s` if there is none.
pub open spec fn first_hit_from(s: Seq<u8>, p: Pat, from: int) -> int
    decreases s.len() - from,
{
    if from < 0 || from >= s.len() {
        s.len() as int
    } else if hit(s, from, p) {
        from
    } else {
        first_hit_from(s, p, from + 1)
    }
}

/// The first position where `p` is found in `s`, or the length of `s`.
pub open spec fn first_hit(s: Seq<u8>, p: Pat) -> int {
    first_hit_from(s, p, 0)
}

/// `p` is found nowhere in `s`.
pub open spec fn free_of(s: Seq<u8>, p: Pat) -> bool {
    forall|i: int| 0 <= i < s.len() ==> !hit(s, i, p)
}

pub proof fn lemma_first_hit_from(s: Seq<u8>, p: Pat, from: int)
    requires
        0 <= from <= s.len(),
    ensures
        from <= first_hit_from(s, p, from) <= s.len(),
        forall|i: int| from <= i < first_hit_from(s, p, from) ==> !hit(s, i, p),
        first_hit_from(s, p, from) < s.len() ==> hit(s, first_hit_from(s, p, from), p),
    decreases s.len() - from,
{
    if from < s.len() && !hit(s, from, p) {
        lemma_first_hit_from(s, p, from + 1);
    }
}

/// What `first_hit` returns: nothing is found before it, and the pattern is
/// found at it unless it is the length.
pub proof fn lemma_first_hit(s: Seq<u8>, p: Pat)
    ensures
        0 <= first_hit(s, p) <= s.len(),
        forall|i: int| 0 <= i < first_hit(s, p) ==> !hit(s, i, p),
        first_hit(s, p) < s.len() ==> hit(s, first_hit(s, p), p),
        free_of(s, p) <==> first_hit(s, p) == s.len(),
{
    lemma_first_hit_from(s, p, 0);
}

/// A position with nothing found before it and the pattern found at it (or
/// the length) is the one `first_hit` returns.
pub proof fn lemma_first_hit_is(s: Seq<u8>, p: Pat, k: int)
    requires
        0 <= k <= s.len(),
        forall|i: int| 0 <= i < k ==> !hit(s, i, p),
        k < s.len() ==> hit(s, k, p),
    ensures
        first_hit(s, p) == k,
{
    lemma_first_hit(s, p);
}

/// The end of `s` once trailing blanks are dropped.
pub open spec fn solid_end(s: Seq<u8>) -> int
    decreases s.len(),
{
    if s.len() > 0 && is_blank(s.last()) {
        solid_end(s.drop_last())
    } else {
        s.len() as int
    }
}

pub proof fn lemma_solid_end(s: Seq<u8>)
    ensures
        0 <= solid_end(s) <= s.len(),
        forall|i: int| solid_end(s) <= i < s.len() ==> is_blank(s[i]),
        solid_end(s) > 0 ==> !is_blank(s[solid_end(s) - 1]),
    decreases s.len(),
{
    if s.len() > 0 && is_blank(s.last()) {
        let t = s.drop_last();
        lemma_solid_end(t);
        assert forall|i: int| solid_end(s) <= i < s.len() implies is_blank(s[i]) by {
            if i < t.len() {
                assert(t[i] == s[i]);
            }
        }
    }
}

pub proof fn lemma_solid_end_is(s: Seq<u8>, e: int)
    requires
        0 <= e <= s.len(),
        forall|i: int| e <= i < s.len() ==> is_blank(s[i]),
        e > 0 ==> !is_blank(s[e - 1]),
    ensures
        solid_end(s) == e,
{
    lemma_solid_end(s);
}

/// Where the text of `s` starts once blanks at both ends are dropped. It
/// equals `solid_end(s)` when `s` holds blanks only.
pub open spec fn solid_start(s: Seq<u8>) -> int {
    first_hit(s.subrange(0, solid_end(s)), Pat::Solid)
}

/// `s` without the blanks at its two ends.
pub open spec fn trim(s: Seq<u8>) -> Seq<u8> {
    s.subrange(solid_start(s), solid_end(s))
}

/// `s` neither starts nor ends with a blank.
pub open spec fn is_trimmed(s: Seq<u8>) -> bool {
    s.len() > 0 ==> !is_blank(s[0]) && !is_blank(s.last())
}

/// `s` holds blanks only.
pub open spec fn all_blank(s: Seq<u8>) -> bool {
    forall|i: int| 0 <= i < s.len() ==> is_blank(s[i])
}

pub proof fn lemma_trim(s: Seq<u8>)
    ensures
        0 <= solid_start(s) <= solid_end(s) <= s.len(),
        is_trimmed(trim(s)),
        forall|i: int| 0 <= i < solid_start(s) ==> is_blank(s[i]),
        forall|i: int| solid_end(s) <= i < s.len() ==> is_blank(s[i]),
        solid_start(s) < solid_end(s) ==> !is_blank(s[solid_start(s)]) && !is_blank(
            s[solid_end(s) - 1],
        ),
        all_blank(s) <==> trim(s).len() == 0,
{
    lemma_solid_end(s);
    let t = s.subrange(0, solid_end(s));
    lemma_first_hit(t, Pat::Solid);
    let a = solid_start(s);
    assert forall|i: int| 0 <= i < a implies is_blank(s[i]) by {
        assert(!hit(t, i, Pat::Solid));
        assert(t[i] == s[i]);
    }
    if a < solid_end(s) {
        assert(hit(t, a, Pat::Solid));
    }
    if trim(s).len() == 0 {
        assert forall|i: int| 0 <= i < s.len() implies is_blank(s[i]) by {}
    }
}

/// Text that is already trimmed, with blanks put around it, trims back to
/// itself.
pub proof fn lemma_trim_padded(left: Seq<u8>, s: Seq<u8>, right: Seq<u8>)
    requires
        all_blank(left),
        all_blank(right),
        is_trimmed(s),
    ensures
        trim(left + s + right) == s,
        s.len() > 0 ==> solid_start(left + s + right) == left.len(),
{
    let w = left + s + right;
    if s.len() == 0 {
        assert(all_blank(w));
        lemma_trim(w);
        assert(trim(w) =~= s);
    } else {
        let e = left.len() + s.len();
        assert(w[e - 1] == s.last());
        lemma_solid_end_is(w, e as int);
        let t = w.subrange(0, e as int);
        assert(t[left.len() as int] == s[0]);
        assert forall|i: int| 0 <= i < left.len() implies !hit(t, i, Pat::Solid) by {
            assert(t[i] == left[i]);
        }
        lemma_first_hit_is(t, Pat::Solid, left.len() as int);
        assert(trim(w) =~= s);
    }
}

pub proof fn lemma_trim_trimmed(s: Seq<u8>)
    requires
        is_trimmed(s),
    ensures
        trim(s) == s,
        s.len() > 0 ==> solid_start(s) == 0,
        solid_end(s) == s.len(),
{
    let e = Seq::<u8>::empty();
    lemma_trim_padded(e, s, e);
    assert(e + s + e =~= s);
    lemma_solid_end(s);
}

/// A position of `bytes` next to an ASCII byte, or at one of its ends.
pub open spec fn cut_ok(bytes: Seq<u8>, i: int) -> bool {
    0 <= i <= bytes.len() && (i == 0 || i == bytes.len() || bytes[i] < 0x80 || bytes[i - 1]
        < 0x80)
}

proof fn lemma_boundary_after_ascii(bytes: Seq<u8>, i: int)
    requires
        valid_utf8(bytes),
        0 <= i < bytes.len(),
        bytes[i] < 0x80,
    ensures
        is_char_boundary(bytes, i + 1),
    decreases bytes.len(),
{
    reveal_with_fuel(is_char_boundary, 3);
    reveal_with_fuel(valid_utf8, 2);
    is_char_boundary_iff_not_is_continuation_byte(bytes, i);
    let rest = pop_first_scalar(bytes);
    let l = length_of_first_scalar(bytes);
    if i == 0 {
        assert(l == 1);
        assert(is_char_boundary(rest, 0));
    } else {
        assert(is_char_boundary(rest, i - l));
        assert(i - l >= 0);
        assert(rest[i - l] == bytes[i]);
        lemma_boundary_after_ascii(rest, i - l);
    }
}

/// In valid UTF-8 a position next to an ASCII byte, or at an end, is a
/// character boundary.
pub proof fn lemma_cut_is_boundary(bytes: Seq<u8>, i: int)
    requires
        valid_utf8(bytes),
        cut_ok(bytes, i),
    ensures
        is_char_boundary(bytes, i),
{
    is_char_boundary_start_end_of_seq(bytes);
    if i == 0 || i == bytes.len() {
    } else if bytes[i] < 0x80 {
        is_char_boundary_iff_not_is_continuation_byte(bytes, i);
    } else {
        lemma_boundary_after_ascii(bytes, i - 1);
    }
}

/// Encoding distributes over concatenation.
pub proof fn lemma_utf8_concat(a: Seq<char>, b: Seq<char>)
    ensures
        utf8(a + b) == utf8(a) + utf8(b),
    decreases a.len(),
{
    if a.len() == 0 {
        assert(a + b =~= b);
        assert(utf8(a) + utf8(b) =~= utf8(b));
    } else {
        lemma_utf8_concat(a.drop_first(), b);
        assert((a + b).drop_first() =~= a.drop_first() + b);
        assert(utf8(a + b) =~= utf8(a) + utf8(b));
    }
}

/// Two strings with the same bytes are the same string.
pub proof fn lemma_utf8_injective(a: Seq<char>, b: Seq<char>)
    requires
        utf8(a) == utf8(b),
    ensures
        a == b,
{
    encode_utf8_decode_utf8(a);
    encode_utf8_decode_utf8(b);
}

/// The bytes of `s` from `from` up to `to`, as text.
pub fn substr<'a>(s: &'a str, from: usize, to: usize) -> (r: &'a str)
    requires
        from <= to <= utf8(s@).len(),
        cut_ok(utf8(s@), from as int),
        cut_ok(utf8(s@), to as int),
    ensures
        utf8(r@) == utf8(s@).subrange(from as int, to as int),
{
    proof {
        encode_utf8_valid_utf8(s@);
        lemma_cut_is_boundary(utf8(s@), to as int);
    }
    let (head, _) = s.split_at(to);
    proof {
        encode_utf8_valid_utf8(head@);
        assert(cut_ok(utf8(head@), from as int));
        lemma_cut_is_boundary(utf8(head@), from as int);
    }
    let (_, r) = head.split_at(from);
    assert(utf8(r@) =~= utf8(s@).subrange(from as int, to as int));
    r
}

fn is_blank_byte(b: u8) -> (r: bool)
    ensures
        r == is_blank(b),
{
    b == 0x20 || b == 0x09 || b == 0x0d
}

/// Searches `bytes[from..to]` for `p`: the position of the first hit within
/// that range, counted from `from`, or the length of the range.
pub fn find_in(bytes: &[u8], from: usize, to: usize, p: Pat) -> (k: usize)
    requires
        from <= to <= bytes@.len(),
    ensures
        k == first_hit(bytes@.subrange(from as int, to as int), p),
        k <= to - from,
        k < to - from ==> hit(bytes@.subrange(from as int, to as int), k as int, p),
        forall|j: int| 0 <= j < k ==> !hit(bytes@.subrange(from as int, to as int), j, p),
{
    let ghost s = bytes@.subrange(from as int, to as int);
    let mut i: usize = from;
    while i < to
        invariant
            from <= i <= to <= bytes@.len(),
            s == bytes@.subrange(from as int, to as int),
            forall|j: int| 0 <= j < i - from ==> !hit(s, j, p),
        decreases to - i,
    {
        let found = match p {
            Pat::Byte(b) => bytes[i] == b,
            Pat::Either(a, b) => bytes[i] == a || bytes[i] == b,
            Pat::Pair(a, b) => i + 1 < to && bytes[i] == a && bytes[i + 1] == b,
            Pat::Blank => is_blank_byte(bytes[i]),
            Pat::Solid => !is_blank_byte(bytes[i]),
        };
        assert(found == hit(s, i - from, p)) by {
            assert(s[i - from] == bytes@[i as int]);
            if i + 1 < to {
                assert(s[i - from + 1] == bytes@[i + 1]);
            }
        }
        if found {
            proof {
                lemma_first_hit_is(s, p, (i - from) as int);
            }
            return i - from;
        }
        i += 1;
    }
    proof {
        lemma_first_hit_is(s, p, (to - from) as int);
    }
    to - from
}

/// The range of `bytes[from..to]` that is left when the blanks at its two
/// ends are dropped, counted from `from`.
pub fn trim_in(bytes: &[u8], from: usize, to: usize) -> (r: (usize, usize))
    requires
        from <= to <= bytes@.len(),
    ensures
        r.0 == solid_start(bytes@.subrange(from as int, to as int)),
        r.1 == solid_end(bytes@.subrange(from as int, to as int)),
        r.0 <= r.1 <= to - from,
        bytes@.subrange(from + r.0, from + r.1) == trim(bytes@.subrange(from as int, to as int)),
        cut_ok(bytes@, from as int) ==> cut_ok(bytes@, from + r.0),
        cut_ok(bytes@, to as int) ==> cut_ok(bytes@, from + r.1),
{
    let ghost s = bytes@.subrange(from as int, to as int);
    let mut e: usize = to;
    while e > from && is_blank_byte(bytes[e - 1])
        invariant
            from <= e <= to <= bytes@.len(),
            s == bytes@.subrange(from as int, to as int),
            forall|j: int| e - from <= j < to - from ==> is_blank(s[j]),
        decreases e,
    {
        e -= 1;
    }
    proof {
        if e > from {
            assert(s[e - from - 1] == bytes@[e - 1]);
        }
        lemma_solid_end_is(s, (e - from) as int);
        assert(s.subrange(0, e - from) =~= bytes@.subrange(from as int, e as int));
        lemma_trim(s);
    }
    let a = find_in(bytes, from, e, Pat::Solid);
    proof {
        assert(bytes@.subrange(from + a, e as int) =~= trim(s));
        if a > 0 {
            assert(s[a - 1] == bytes@[from + a - 1]);
        }
        if e < to {
            assert(s[e - from] == bytes@[e as int]);
        }
    }
    (a, e - from)
}

/// Whether two byte strings are equal.
pub fn same_bytes(a: &[u8], b: &[u8]) -> (r: bool)
    ensures
        r == (a@ == b@),
{
    if a.len() != b.len() {
        return false;
    }
    let mut i: usize = 0;
    while i < a.len()
        invariant
            i <= a@.len(),
            a@.len() == b@.len(),
            forall|j: int| 0 <= j < i ==> a@[j] == b@[j],
        decreases a@.len() - i,
    {
        if a[i] != b[i] {
            return false;
        }
        i += 1;
    }
    assert(a@ =~= b@);
    true
}

/// Letters and digits.
pub open spec fn is_alnum(b: u8) -> bool {
    0x30 <= b <= 0x39 || 0x41 <= b <= 0x5a || 0x61 <= b <= 0x7a
}

/// `s` is made of letters and digits.
pub open spec fn is_word(s: Seq<u8>) -> bool {
    forall|i: int| 0 <= i < s.len() ==> is_alnum(#[trigger] s[i])
}

/// `p` cannot be found in letters and digits.
pub open spec fn is_mark(p: Pat) -> bool {
    match p {
        Pat::Byte(b) => !is_alnum(b),
        Pat::Either(a, b) => !is_alnum(a) && !is_alnum(b),
        Pat::Pair(a, _) => !is_alnum(a),
        Pat::Blank => true,
        Pat::Solid => false,
    }
}

/// The first byte that `p` looks for cannot be `b`.
pub open spec fn starts_other(p: Pat, b: u8) -> bool {
    match p {
        Pat::Byte(x) => x != b,
        Pat::Either(x, y) => x != b && y != b,
        Pat::Pair(x, _) => x != b,
        Pat::Blank => !is_blank(b),
        Pat::Solid => is_blank(b),
    }
}

/// The last byte that `p` looks for cannot be `b`.
pub open spec fn ends_other(p: Pat, b: u8) -> bool {
    match p {
        Pat::Pair(_, y) => y != b,
        _ => starts_other(p, b),
    }
}

pub proof fn lemma_word_free(s: Seq<u8>, p: Pat)
    requires
        is_word(s),
        is_mark(p),
    ensures
        free_of(s, p),
        first_hit(s, p) == s.len(),
{
    assert forall|i: int| 0 <= i < s.len() implies !hit(s, i, p) by {
        assert(is_alnum(s[i]));
    }
    lemma_first_hit(s, p);
}

pub proof fn lemma_free_first_hit(s: Seq<u8>, p: Pat)
    requires
        free_of(s, p),
    ensures
        first_hit(s, p) == s.len(),
{
    lemma_first_hit(s, p);
}

/// A part of text without `p` is without `p`.
pub proof fn lemma_free_sub(s: Seq<u8>, p: Pat, from: int, to: int)
    requires
        free_of(s, p),
        0 <= from <= to <= s.len(),
    ensures
        free_of(s.subrange(from, to), p),
{
    let t = s.subrange(from, to);
    assert forall|i: int| 0 <= i < t.len() implies !hit(t, i, p) by {
        assert(!hit(s, from + i, p));
        assert(t[i] == s[from + i]);
        if i + 1 < t.len() {
            assert(t[i + 1] == s[from + i + 1]);
        }
    }
}

/// Two texts without `p`, put together, are without `p`, unless `p` lies
/// across the seam.
pub proof fn lemma_free_concat(a: Seq<u8>, b: Seq<u8>, p: Pat)
    requires
        free_of(a, p),
        free_of(b, p),
        p is Pair ==> a.len() == 0 || b.len() == 0 || starts_other(p, a.last()) || ends_other(
            p,
            b[0],
        ),
    ensures
        free_of(a + b, p),
{
    let t = a + b;
    assert forall|i: int| 0 <= i < t.len() implies !hit(t, i, p) by {
        if i < a.len() {
            assert(!hit(a, i, p));
            assert(t[i] == a[i]);
            if i + 1 < a.len() {
                assert(t[i + 1] == a[i + 1]);
            } else if i + 1 < t.len() {
                assert(t[i + 1] == b[0]);
            }
        } else {
            assert(!hit(b, i - a.len(), p));
            assert(t[i] == b[i - a.len()]);
            if i + 1 < t.len() {
                assert(t[i + 1] == b[i + 1 - a.len()]);
            }
        }
    }
}

/// Text without `p` followed by text that starts with `p`: `p` is first
/// found at the seam.
pub proof fn lemma_first_hit_seam(a: Seq<u8>, b: Seq<u8>, p: Pat)
    requires
        free_of(a, p),
        hit(b, 0, p),
        p is Pair ==> a.len() == 0 || starts_other(p, a.last()) || ends_other(p, b[0]),
    ensures
        first_hit(a + b, p) == a.len(),
{
    let t = a + b;
    assert forall|i: int| 0 <= i < a.len() implies !hit(t, i, p) by {
        assert(!hit(a, i, p));
        assert(t[i] == a[i]);
        if i + 1 < a.len() {
            assert(t[i + 1] == a[i + 1]);
        } else {
            assert(t[i + 1] == b[0]);
        }
    }
    assert(t[a.len() as int] == b[0]);
    if b.len() > 1 {
        assert(t[a.len() as int + 1] == b[1]);
    }
    lemma_first_hit_is(t, p, a.len() as int);
}

/// What the first hit says of the text before it.
pub proof fn lemma_before_first_hit(s: Seq<u8>, p: Pat)
    ensures
        free_of(s.subrange(0, first_hit(s, p)), p),
{
    lemma_first_hit(s, p);
    let k = first_hit(s, p);
    let t = s.subrange(0, k);
    assert forall|i: int| 0 <= i < t.len() implies !hit(t, i, p) by {
        assert(!hit(s, i, p));
        assert(t[i] == s[i]);
        if i + 1 < t.len() {
            assert(t[i + 1] == s[i + 1]);
        }
    }
}

/// Trimming keeps text without `p` without `p`, and trimmed text trimmed.
pub proof fn lemma_trim_free(s: Seq<u8>, p: Pat)
    requires
        free_of(s, p),
    ensures
        free_of(trim(s), p),
{
    lemma_trim(s);
    lemma_free_sub(s, p, solid_start(s), solid_end(s));
}

} // verus!

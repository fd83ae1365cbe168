//! Numbers as text: decimal and hexadecimal, read and written.
use crate::text::{lemma_utf8_concat, utf8};
use vstd::prelude::*;
use vstd::string::StringExecFns;
use vstd::utf8::{is_ascii_chars, is_ascii_chars_encode_utf8};

verus! {

/// The bytes of a text of ASCII characters are its characters.
pub proof fn lemma_ascii_bytes(chars: Seq<char>, bytes: Seq<u8>)
    requires
        chars.len() == bytes.len(),
        is_ascii_chars(chars),
        forall|i: int| 0 <= i < chars.len() ==> chars[i] as u8 == bytes[i],
    ensures
        utf8(chars) == bytes,
{
    is_ascii_chars_encode_utf8(chars);
    assert(utf8(chars) =~= bytes);
}

/// Appends `piece` to `out`.
pub fn put(out: &mut String, piece: &str)
    ensures
        utf8(final(out)@) == utf8(old(out)@) + utf8(piece@),
{
    proof {
        lemma_utf8_concat(out@, piece@);
    }
    out.append(piece);
}

/// What the digit `b` counts for, in base 16. A byte that is no digit
/// counts for nothing.
pub open spec fn digit_value(b: u8) -> nat {
    if 0x30 <= b <= 0x39 {
        (b - 0x30) as nat
    } else if 0x41 <= b <= 0x46 {
        (b - 0x41 + 10) as nat
    } else if 0x61 <= b <= 0x66 {
        (b - 0x61 + 10) as nat
    } else {
        0
    }
}

/// `b` is one of `0` to `9`.
pub open spec fn is_dec_digit(b: u8) -> bool {
    0x30 <= b <= 0x39
}

/// `b` is one of `0` to `9`, `a` to `f` or `A` to `F`.
pub open spec fn is_hex_digit(b: u8) -> bool {
    0x30 <= b <= 0x39 || 0x41 <= b <= 0x46 || 0x61 <= b <= 0x66
}

pub open spec fn all_dec(s: Seq<u8>) -> bool {
    forall|i: int| 0 <= i < s.len() ==> is_dec_digit(s[i])
}

pub open spec fn all_hex(s: Seq<u8>) -> bool {
    forall|i: int| 0 <= i < s.len() ==> is_hex_digit(s[i])
}

/// The number that the digits of `s` write in base ten.
pub open spec fn dec_value(s: Seq<u8>) -> nat
    decreases s.len(),
{
    if s.len() == 0 {
        0
    } else {
        dec_value(s.drop_last()) * 10 + digit_value(s.last())
    }
}

/// The number that the digits of `s` write in base sixteen.
pub open spec fn hex_value(s: Seq<u8>) -> nat
    decreases s.len(),
{
    if s.len() == 0 {
        0
    } else {
        hex_value(s.drop_last()) * 16 + digit_value(s.last())
    }
}

/// A decimal number of at most `max`: one digit or more, nothing else.
pub open spec fn parse_dec(s: Seq<u8>, max: nat) -> Option<nat> {
    if s.len() > 0 && all_dec(s) && dec_value(s) <= max {
        Some(dec_value(s))
    } else {
        None
    }
}

/// A hexadecimal number of at most `max`: one digit or more, in either
/// case, nothing else.
pub open spec fn parse_hex(s: Seq<u8>, max: nat) -> Option<nat> {
    if s.len() > 0 && all_hex(s) && hex_value(s) <= max {
        Some(hex_value(s))
    } else {
        None
    }
}

/// The digit for `d`: `0` to `9`, then `A` to `F`.
pub open spec fn digit_char(d: nat) -> u8 {
    if d < 10 {
        (0x30 + d) as u8
    } else {
        (0x41 + d - 10) as u8
    }
}

/// `n` in base ten, without leading zeros.
pub open spec fn dec_text(n: nat) -> Seq<u8>
    decreases n,
{
    if n < 10 {
        seq![digit_char(n)]
    } else {
        dec_text(n / 10).push(digit_char(n % 10))
    }
}

/// The last `width` digits of `n` in base sixteen, in upper case.
pub open spec fn hex_text(n: nat, width: nat) -> Seq<u8>
    decreases width,
{
    if width == 0 {
        Seq::empty()
    } else {
        hex_text(n / 16, (width - 1) as nat).push(digit_char(n % 16))
    }
}

/// Sixteen to the power of `k`.
pub open spec fn pow16(k: nat) -> nat
    decreases k,
{
    if k == 0 {
        1
    } else {
        16 * pow16((k - 1) as nat)
    }
}

pub proof fn lemma_dec_value_grows(s: Seq<u8>, k: int)
    requires
        0 <= k <= s.len(),
    ensures
        dec_value(s.subrange(0, k)) <= dec_value(s),
    decreases s.len() - k,
{
    if k < s.len() {
        assert(s.subrange(0, k + 1).drop_last() =~= s.subrange(0, k));
        lemma_dec_value_grows(s, k + 1);
    } else {
        assert(s.subrange(0, k) =~= s);
    }
}

pub proof fn lemma_hex_value_grows(s: Seq<u8>, k: int)
    requires
        0 <= k <= s.len(),
    ensures
        hex_value(s.subrange(0, k)) <= hex_value(s),
    decreases s.len() - k,
{
    if k < s.len() {
        assert(s.subrange(0, k + 1).drop_last() =~= s.subrange(0, k));
        lemma_hex_value_grows(s, k + 1);
    } else {
        assert(s.subrange(0, k) =~= s);
    }
}

/// A number written in base ten reads back as itself.
pub proof fn lemma_dec_text(n: nat)
    ensures
        dec_text(n).len() > 0,
        all_dec(dec_text(n)),
        dec_value(dec_text(n)) == n,
        forall|max: nat| n <= max ==> parse_dec(dec_text(n), max) == Some(n),
    decreases n,
{
    if n < 10 {
        assert(dec_text(n).drop_last() =~= Seq::<u8>::empty());
        assert(dec_value(dec_text(n).drop_last()) == 0);
    } else {
        lemma_dec_text(n / 10);
        assert(dec_text(n).drop_last() =~= dec_text(n / 10));
    }
}

/// A number written in base sixteen with enough digits reads back as
/// itself.
pub proof fn lemma_hex_text(n: nat, width: nat)
    requires
        n < pow16(width),
    ensures
        hex_text(n, width).len() == width,
        all_hex(hex_text(n, width)),
        hex_value(hex_text(n, width)) == n,
    decreases width,
{
    if width > 0 {
        lemma_hex_text(n / 16, (width - 1) as nat);
        assert(hex_text(n, width).drop_last() =~= hex_text(n / 16, (width - 1) as nat));
    }
}

fn digit_str(d: u8) -> (r: &'static str)
    requires
        d < 16,
    ensures
        utf8(r@) == seq![digit_char(d as nat)],
{
    proof {
        reveal_strlit("0");
        reveal_strlit("1");
        reveal_strlit("2");
        reveal_strlit("3");
        reveal_strlit("4");
        reveal_strlit("5");
        reveal_strlit("6");
        reveal_strlit("7");
        reveal_strlit("8");
        reveal_strlit("9");
        reveal_strlit("A");
        reveal_strlit("B");
        reveal_strlit("C");
        reveal_strlit("D");
        reveal_strlit("E");
        reveal_strlit("F");
    }
    let r = match d {
        0 => "0",
        1 => "1",
        2 => "2",
        3 => "3",
        4 => "4",
        5 => "5",
        6 => "6",
        7 => "7",
        8 => "8",
        9 => "9",
        10 => "A",
        11 => "B",
        12 => "C",
        13 => "D",
        14 => "E",
        _ => "F",
    };
    proof {
        lemma_ascii_bytes(r@, seq![digit_char(d as nat)]);
    }
    r
}

/// Appends `n` in base ten.
pub fn put_dec(out: &mut String, n: u64)
    ensures
        utf8(final(out)@) == utf8(old(out)@) + dec_text(n as nat),
    decreases n,
{
    if n >= 10 {
        put_dec(out, n / 10);
    }
    let ghost before = utf8(out@);
    put(out, digit_str((n % 10) as u8));
    proof {
        let d = seq![digit_char((n % 10) as nat)];
        if n >= 10 {
            assert(before + d =~= utf8(old(out)@) + dec_text((n / 10) as nat).push(
                digit_char((n % 10) as nat),
            ));
        } else {
            assert(before + d =~= utf8(old(out)@) + dec_text(n as nat));
        }
    }
}

/// Appends the last `width` digits of `n` in base sixteen.
pub fn put_hex(out: &mut String, n: u32, width: u8)
    ensures
        utf8(final(out)@) == utf8(old(out)@) + hex_text(n as nat, width as nat),
    decreases width,
{
    if width == 0 {
        assert(utf8(out@) + hex_text(n as nat, 0) =~= utf8(out@));
        return ;
    }
    put_hex(out, n / 16, width - 1);
    let ghost before = utf8(out@);
    put(out, digit_str((n % 16) as u8));
    proof {
        let d = seq![digit_char((n % 16) as nat)];
        assert(before + d =~= utf8(old(out)@) + hex_text((n / 16) as nat, (width - 1) as nat).push(
            digit_char((n % 16) as nat),
        ));
    }
}

/// Reads a decimal number of at most `max`.
pub fn read_dec(s: &[u8], max: u64) -> (r: Option<u64>)
    ensures
        match r {
            Some(v) => parse_dec(s@, max as nat) == Some(v as nat),
            None => parse_dec(s@, max as nat) is None,
        },
{
    if s.len() == 0 {
        return None;
    }
    let mut acc: u64 = 0;
    let mut i: usize = 0;
    assert(s@.subrange(0, 0) =~= Seq::<u8>::empty());
    while i < s.len()
        invariant
            i <= s@.len(),
            all_dec(s@.subrange(0, i as int)),
            acc == dec_value(s@.subrange(0, i as int)),
            acc <= max,
        decreases s@.len() - i,
    {
        let b = s[i];
        if b < 0x30 || b > 0x39 {
            assert(!is_dec_digit(s@[i as int]));
            return None;
        }
        let d = (b - 0x30) as u64;
        let ghost next = s@.subrange(0, i + 1);
        proof {
            assert(next.drop_last() =~= s@.subrange(0, i as int));
            assert(next.last() == b);
            assert(dec_value(next) == acc * 10 + d);
        }
        if acc > max / 10 || (acc == max / 10 && d > max % 10) {
            proof {
                lemma_dec_value_grows(s@, i + 1);
            }
            return None;
        }
        acc = acc * 10 + d;
        assert forall|j: int| 0 <= j < next.len() implies is_dec_digit(next[j]) by {
            if j < i {
                assert(s@.subrange(0, i as int)[j] == next[j]);
            }
        }
        i += 1;
    }
    assert(s@.subrange(0, i as int) =~= s@);
    Some(acc)
}

/// Reads a hexadecimal number of at most `max`.
pub fn read_hex(s: &[u8], max: u64) -> (r: Option<u64>)
    ensures
        match r {
            Some(v) => parse_hex(s@, max as nat) == Some(v as nat),
            None => parse_hex(s@, max as nat) is None,
        },
{
    if s.len() == 0 {
        return None;
    }
    let mut acc: u64 = 0;
    let mut i: usize = 0;
    assert(s@.subrange(0, 0) =~= Seq::<u8>::empty());
    while i < s.len()
        invariant
            i <= s@.len(),
            all_hex(s@.subrange(0, i as int)),
            acc == hex_value(s@.subrange(0, i as int)),
            acc <= max,
        decreases s@.len() - i,
    {
        let b = s[i];
        let d: u64 = if 0x30 <= b && b <= 0x39 {
            (b - 0x30) as u64
        } else if 0x41 <= b && b <= 0x46 {
            (b - 0x41 + 10) as u64
        } else if 0x61 <= b && b <= 0x66 {
            (b - 0x61 + 10) as u64
        } else {
            assert(!is_hex_digit(s@[i as int]));
            return None;
        };
        let ghost next = s@.subrange(0, i + 1);
        proof {
            assert(next.drop_last() =~= s@.subrange(0, i as int));
            assert(next.last() == b);
            assert(hex_value(next) == acc * 16 + d);
        }
        if acc > max / 16 || (acc == max / 16 && d > max % 16) {
            proof {
                lemma_hex_value_grows(s@, i + 1);
            }
            return None;
        }
        acc = acc * 16 + d;
        assert forall|j: int| 0 <= j < next.len() implies is_hex_digit(next[j]) by {
            if j < i {
                assert(s@.subrange(0, i as int)[j] == next[j]);
            }
        }
        i += 1;
    }
    assert(s@.subrange(0, i as int) =~= s@);
    Some(acc)
}

} // verus!

//! Reading what was written: line by line, the grammar finds in the text
//! of a well-formed document what the text was written from.
use crate::canon::{column_ok, comment_ok, entry_ok, opt_key_ok};
use crate::file::RawDefinitionView;
use crate::grammar::{
    add_build, add_layout, comment_start, has_keyword, has_tag, line_base, line_comment, line_decl,
    line_head, parse_array, parse_build, parse_builds, parse_column, parse_entry, parse_layouts,
    parse_shape, parse_version, parse_width, split_key, storage_kind, tag_block, Build, LineError,
    Shape, COLON, COMMA, DASH, DOLLAR, DOT, GREATER, LESS, LINE_FEED, QUESTION, SLASH, SMALL_U,
    SQUARE_CLOSE, SQUARE_OPEN,
};
use crate::number::{
    dec_text, is_dec_digit, is_hex_digit, lemma_dec_text, lemma_hex_text, parse_hex, pow16,
};
use crate::text::{
    all_blank, first_hit, free_of, hit, is_alnum, is_blank, is_trimmed, is_word,
    lemma_first_hit_seam, lemma_free_concat, lemma_free_first_hit, lemma_trim_padded,
    lemma_trim_trimmed, lemma_word_free, solid_start, trim, utf8, Pat,
};
use crate::types::{ForeignKeyView, Layout, RawColumnView, RawEntryView, RawType};
use crate::version::Version;
use crate::words::{
    lemma_dash, lemma_dollar, lemma_dot, lemma_keywords, lemma_kinds, lemma_list_mark, lemma_marks,
    lemma_tags,
};
use crate::written::{
    array_text, build_text, builds_text, column_text, comment_text, entry_text, key_text, kind_word,
    layout_text, layouts_text, needs_block, opt_key_text, tag_words, tags_text, version_text,
    width_text,
};
use vstd::prelude::*;

verus! {

/// A line made of a trimmed text and a comment falls apart into the two.
pub proof fn lemma_line_parts(head: Seq<u8>, comment: Option<Seq<u8>>)
    requires
        free_of(head, Pat::Pair(SLASH, SLASH)),
        is_trimmed(head),
        comment_ok(comment),
    ensures
        line_decl(head + comment_text(comment)) == head,
        line_comment(head + comment_text(comment)) == comment,
        head.len() > 0 ==> line_base(head + comment_text(comment)) == 0,
        head.len() > 0 ==> !all_blank(head + comment_text(comment)),
{
    lemma_marks();
    let line = head + comment_text(comment);
    let pair = Pat::Pair(SLASH, SLASH);
    let none = Seq::<u8>::empty();
    if head.len() > 0 {
        assert(line[0] == head[0]);
    }
    match comment {
        None => {
            assert(line =~= head);
            lemma_free_first_hit(head, pair);
            assert(line_head(line) =~= head);
            lemma_trim_trimmed(head);
        },
        Some(c) => {
            let blank = seq![0x20u8];
            let a = head + blank;
            let b = seq![0x2fu8, 0x2fu8, 0x20u8] + c;
            assert(line =~= a + b);
            assert(free_of(blank, pair));
            lemma_free_concat(head, blank, pair);
            assert(a.last() == 0x20u8);
            lemma_first_hit_seam(a, b, pair);
            assert(line_head(line) =~= none + head + blank);
            assert(all_blank(none));
            assert(all_blank(blank));
            lemma_trim_padded(none, head, blank);
            let k = comment_start(line);
            assert(line.subrange(k + 2, line.len() as int) =~= blank + c + none);
            lemma_trim_padded(blank, c, none);
        },
    }
}

/// A name and a foreign key that were written one after the other are
/// told apart.
pub proof fn lemma_key_written(name: Seq<u8>, key: Option<ForeignKeyView>, off: int)
    requires
        free_of(name, Pat::Byte(LESS)),
        opt_key_ok(key),
    ensures
        split_key(name + opt_key_text(key), off) is Ok,
        split_key(name + opt_key_text(key), off)->Ok_0 == (name, key),
{
    reveal(split_key);
    lemma_marks();
    let token = name + opt_key_text(key);
    match key {
        None => {
            assert(token =~= name);
            lemma_free_first_hit(name, Pat::Byte(LESS));
        },
        Some(k) => {
            let db = k.database;
            let col = k.column;
            let colons = seq![COLON, COLON];
            let inner = db + colons + col;
            let close = seq![GREATER];
            let text = seq![LESS] + inner + close;
            assert(key_text(k) =~= text);
            lemma_first_hit_seam(name, text, Pat::Byte(LESS));
            let open = name.len() as int;
            let after = token.subrange(open + 1, token.len() as int);
            assert(after =~= inner + close);
            assert(free_of(colons, Pat::Byte(GREATER)));
            lemma_free_concat(db, colons, Pat::Byte(GREATER));
            lemma_free_concat(db + colons, col, Pat::Byte(GREATER));
            lemma_first_hit_seam(inner, close, Pat::Byte(GREATER));
            assert(after.subrange(0, inner.len() as int) =~= inner);
            let tail = colons + col;
            assert(inner =~= db + tail);
            assert(tail[0] == COLON && tail[1] == COLON);
            lemma_first_hit_seam(db, tail, Pat::Pair(COLON, COLON));
            assert(inner.subrange(0, db.len() as int) =~= db);
            assert(inner.subrange(db.len() as int + 2, inner.len() as int) =~= col);
            assert(token.subrange(0, open) =~= name);
        },
    }
}

/// The keywords of the storage kinds are words, each its own.
pub proof fn lemma_kind_word(ty: RawType)
    ensures
        is_word(kind_word(ty)),
        kind_word(ty).len() > 0,
        storage_kind(kind_word(ty)) == Some(ty),
{
    lemma_kinds();
    let w = kind_word(ty);
    assert(utf8("int"@).len() == 3);
    assert(utf8("float"@).len() == 5);
    assert(utf8("locstring"@).len() == 9);
    assert(utf8("string"@).len() == 6);
    assert(is_word(utf8("int"@)));
    assert(is_word(utf8("float"@)));
    assert(is_word(utf8("locstring"@)));
    assert(is_word(utf8("string"@)));
}

/// One of the two marks that no part of a line before its comment holds.
pub open spec fn is_line_mark(p: Pat) -> bool {
    p == Pat::Byte(LINE_FEED) || p == Pat::Pair(SLASH, SLASH)
}

/// A written foreign key has no line feed and no `//`.
pub proof fn lemma_key_text_plain(key: Option<ForeignKeyView>, p: Pat)
    requires
        opt_key_ok(key),
        is_line_mark(p),
    ensures
        free_of(opt_key_text(key), p),
{
    lemma_marks();
    match key {
        None => {},
        Some(k) => {
            let open = seq![LESS];
            let colons = seq![COLON, COLON];
            let close = seq![GREATER];
            assert(free_of(open, p));
            assert(free_of(colons, p));
            assert(free_of(close, p));
            lemma_free_concat(open, k.database, p);
            lemma_free_concat(open + k.database, colons, p);
            lemma_free_concat(open + k.database + colons, k.column, p);
            lemma_free_concat(open + k.database + colons + k.column, close, p);
        },
    }
}

/// What a written column holds between its kind and its comment.
pub open spec fn column_rest(c: RawColumnView) -> Seq<u8> {
    c.name + opt_key_text(c.foreign_key) + (if c.verified {
        Seq::empty()
    } else {
        utf8("?"@)
    })
}

pub proof fn lemma_column_rest(c: RawColumnView)
    requires
        column_ok(c),
    ensures
        column_rest(c).len() > 0,
        is_trimmed(column_rest(c)),
        free_of(column_rest(c), Pat::Byte(LINE_FEED)),
        free_of(column_rest(c), Pat::Pair(SLASH, SLASH)),
        (column_rest(c).last() == QUESTION) == !c.verified,
        c.verified ==> column_rest(c) == c.name + opt_key_text(c.foreign_key),
        !c.verified ==> column_rest(c).drop_last() == c.name + opt_key_text(c.foreign_key),
{
    lemma_marks();
    let kt = opt_key_text(c.foreign_key);
    let q = if c.verified {
        Seq::<u8>::empty()
    } else {
        utf8("?"@)
    };
    let named = c.name + kt;
    let rest = column_rest(c);
    assert(rest =~= named + q);
    if c.foreign_key is Some {
        let k = c.foreign_key->Some_0;
        assert(kt =~= seq![LESS] + (k.database + seq![COLON, COLON] + k.column) + seq![GREATER]);
        assert(kt[0] == LESS);
        assert(kt.last() == GREATER);
    } else {
        assert(kt =~= Seq::<u8>::empty());
    }
    assert(rest.len() > 0);
    assert(is_trimmed(rest)) by {
        if c.name.len() > 0 {
            assert(rest[0] == c.name[0]);
        } else if kt.len() > 0 {
            assert(rest[0] == kt[0]);
        }
        if q.len() > 0 {
            assert(rest.last() == QUESTION);
        } else if kt.len() > 0 {
            assert(rest.last() == kt.last());
        } else {
            assert(rest.last() == c.name.last());
        }
    }
    if c.verified {
        assert(rest =~= named);
        if kt.len() > 0 {
            assert(rest.last() == kt.last());
        } else {
            assert(rest.last() == c.name.last());
        }
    } else {
        assert(rest.drop_last() =~= named);
    }
    let lf = Pat::Byte(LINE_FEED);
    let pair = Pat::Pair(SLASH, SLASH);
    lemma_key_text_plain(c.foreign_key, lf);
    lemma_key_text_plain(c.foreign_key, pair);
    assert(free_of(q, lf));
    assert(free_of(q, pair));
    lemma_free_concat(c.name, kt, lf);
    lemma_free_concat(named, q, lf);
    assert(free_of(named, pair)) by {
        if kt.len() > 0 {
            assert(kt[0] == LESS);
        }
        lemma_free_concat(c.name, kt, pair);
    }
    assert(free_of(named + q, pair)) by {
        if q.len() > 0 {
            assert(q[0] == QUESTION);
        }
        lemma_free_concat(named, q, pair);
    }
}

/// The line of a well-formed column reads as that column.
#[verifier::rlimit(30)]
pub proof fn lemma_column_written(c: RawColumnView)
    requires
        column_ok(c),
    ensures
        parse_column(column_text(c)) is Ok,
        parse_column(column_text(c))->Ok_0 == c,
        !all_blank(column_text(c)),
        free_of(column_text(c), Pat::Byte(LINE_FEED)),
{
    lemma_marks();
    lemma_kind_word(c.ty);
    lemma_column_rest(c);
    let kind = kind_word(c.ty);
    let sp = seq![0x20u8];
    let rest = column_rest(c);
    let head = kind + sp + rest;
    let line = column_text(c);
    let none = Seq::<u8>::empty();
    let lf = Pat::Byte(LINE_FEED);
    let pair = Pat::Pair(SLASH, SLASH);
    assert(line =~= head + comment_text(c.comment));
    // The text before the comment.
    lemma_word_free(kind, lf);
    lemma_word_free(kind, pair);
    lemma_word_free(kind, Pat::Blank);
    lemma_word_free(kind, Pat::Byte(LESS));
    assert(free_of(sp, lf));
    assert(free_of(sp, pair));
    lemma_free_concat(kind, sp, lf);
    lemma_free_concat(kind + sp, rest, lf);
    lemma_free_concat(kind, sp, pair);
    assert((kind + sp).last() == 0x20u8);
    lemma_free_concat(kind + sp, rest, pair);
    assert(head[0] == kind[0]);
    assert(head.last() == rest.last());
    assert(is_trimmed(head));
    lemma_line_parts(head, c.comment);
    // The line feed of the comment.
    assert(free_of(line, lf)) by {
        let ct = comment_text(c.comment);
        match c.comment {
            None => {},
            Some(text) => {
                let lead = seq![0x20u8, 0x2fu8, 0x2fu8, 0x20u8];
                assert(free_of(lead, lf));
                lemma_free_concat(lead, text, lf);
            },
        }
        lemma_free_concat(head, ct, lf);
    }
    // The kind.
    let tail = sp + rest;
    assert(head =~= kind + tail);
    assert(hit(tail, 0, Pat::Blank));
    lemma_first_hit_seam(kind, tail, Pat::Blank);
    let gap = kind.len() as int;
    assert(head.subrange(0, gap) =~= kind + opt_key_text(None));
    lemma_key_written(kind, None, 0);
    // The name.
    assert(head.subrange(gap, head.len() as int) =~= sp + rest + none);
    assert(all_blank(sp));
    assert(all_blank(none));
    lemma_trim_padded(sp, rest, none);
    let named = c.name + opt_key_text(c.foreign_key);
    lemma_key_written(c.name, c.foreign_key, gap + 1);
    lemma_trim_trimmed(c.name);
    reveal(parse_column);
    assert(line_decl(line) == head);
    assert(first_hit(head, Pat::Blank) == gap);
    assert(trim(head.subrange(gap, head.len() as int)) == rest);
    assert(solid_start(head.subrange(gap, head.len() as int)) == 1);
}

/// A tag that is alone is the only tag.
pub proof fn lemma_has_tag_last(w: Seq<u8>, word: Seq<u8>)
    requires
        free_of(w, Pat::Byte(COMMA)),
        is_trimmed(w),
    ensures
        has_tag(w, word) == (w == word),
{
    lemma_free_first_hit(w, Pat::Byte(COMMA));
    assert(w.subrange(0, w.len() as int) =~= w);
    lemma_trim_trimmed(w);
}

/// A tag before a comma is one of the tags, as are those after the comma.
pub proof fn lemma_has_tag_more(w: Seq<u8>, rest: Seq<u8>, word: Seq<u8>)
    requires
        free_of(w, Pat::Byte(COMMA)),
        is_trimmed(w),
    ensures
        has_tag(w + seq![COMMA] + rest, word) == (w == word || has_tag(rest, word)),
{
    let tags = w + seq![COMMA] + rest;
    let tail = seq![COMMA] + rest;
    assert(tags =~= w + tail);
    lemma_first_hit_seam(w, tail, Pat::Byte(COMMA));
    assert(tags.subrange(0, w.len() as int) =~= w);
    assert(tags.subrange(w.len() as int + 1, tags.len() as int) =~= rest);
    lemma_trim_trimmed(w);
}

/// The written tags are read as the tags that were written.
pub proof fn lemma_tag_words(primary_key: bool, noninline: bool, relation: bool)
    ensures
        has_tag(tag_words(primary_key, noninline, relation), utf8("id"@)) == primary_key,
        has_tag(tag_words(primary_key, noninline, relation), utf8("noninline"@)) == noninline,
        has_tag(tag_words(primary_key, noninline, relation), utf8("relation"@)) == relation,
        free_of(tag_words(primary_key, noninline, relation), Pat::Byte(DOLLAR)),
        free_of(tag_words(primary_key, noninline, relation), Pat::Byte(LINE_FEED)),
        free_of(tag_words(primary_key, noninline, relation), Pat::Pair(SLASH, SLASH)),
{
    lemma_tags();
    lemma_marks();
    let id = utf8("id"@);
    let ni = utf8("noninline"@);
    let rel = utf8("relation"@);
    let none = Seq::<u8>::empty();
    let comma = seq![COMMA];
    let words = tag_words(primary_key, noninline, relation);
    assert(id.len() == 2 && ni.len() == 9 && rel.len() == 8);
    assert(is_word(id) && is_word(ni) && is_word(rel));
    assert(is_word(none));
    lemma_word_free(id, Pat::Byte(COMMA));
    lemma_word_free(ni, Pat::Byte(COMMA));
    lemma_word_free(rel, Pat::Byte(COMMA));
    lemma_word_free(none, Pat::Byte(COMMA));
    let third = if relation {
        rel
    } else {
        none
    };
    let second = if noninline {
        if relation {
            ni + comma + rel
        } else {
            ni
        }
    } else {
        third
    };
    let first = if primary_key {
        if noninline || relation {
            id + comma + second
        } else {
            id
        }
    } else {
        second
    };
    assert(words =~= first);
    assert forall|word: Seq<u8>| word.len() > 0 implies (has_tag(third, word) == (relation && word
        == rel)) && (has_tag(second, word) == ((noninline && word == ni) || (relation && word
        == rel))) && (has_tag(first, word) == ((primary_key && word == id) || (noninline && word
        == ni) || (relation && word == rel))) by {
        lemma_has_tag_last(rel, word);
        lemma_has_tag_last(none, word);
        lemma_has_tag_last(ni, word);
        lemma_has_tag_more(ni, rel, word);
        lemma_has_tag_last(id, word);
        lemma_has_tag_more(id, second, word);
    }
    let marks = seq![Pat::Byte(DOLLAR), Pat::Byte(LINE_FEED), Pat::Pair(SLASH, SLASH)];
    assert forall|i: int| 0 <= i < 3 implies free_of(words, #[trigger] marks[i]) by {
        let p = marks[i];
        lemma_word_free(id, p);
        lemma_word_free(ni, p);
        lemma_word_free(rel, p);
        lemma_word_free(none, p);
        assert(free_of(comma, p));
        lemma_free_concat(ni, comma, p);
        lemma_free_concat(ni + comma, rel, p);
        lemma_free_concat(id, comma, p);
        lemma_free_concat(id + comma, second, p);
        assert(id + comma + second =~= (id + comma) + second);
    }
    assert(free_of(words, marks[0]));
    assert(free_of(words, marks[1]));
    assert(free_of(words, marks[2]));
}

/// A written number is a word of digits.
pub proof fn lemma_dec_word(n: nat)
    ensures
        is_word(dec_text(n)),
        dec_text(n).len() > 0,
        is_dec_digit(dec_text(n)[0]),
{
    lemma_dec_text(n);
    let s = dec_text(n);
    assert forall|i: int| 0 <= i < s.len() implies is_alnum(#[trigger] s[i]) by {
        assert(is_dec_digit(s[i]));
    }
}

/// A written width reads as that width.
pub proof fn lemma_width_written(width: Option<u8>, unsigned: bool, more: Seq<u8>, off: int)
    requires
        unsigned ==> width is Some,
        more.len() > 0 ==> more[0] != LESS,
    ensures
        parse_width(width_text(width, unsigned) + more, off) is Ok,
        parse_width(width_text(width, unsigned) + more, off)->Ok_0 == (
            width,
            unsigned,
            width_text(width, unsigned).len() as int,
        ),
{
    reveal(parse_width);
    lemma_marks();
    let text = width_text(width, unsigned);
    let tail = text + more;
    match width {
        None => {
            assert(tail =~= more);
        },
        Some(w) => {
            let u = if unsigned {
                seq![SMALL_U]
            } else {
                Seq::<u8>::empty()
            };
            let digits = dec_text(w as nat);
            lemma_dec_word(w as nat);
            lemma_dec_text(w as nat);
            let inner = u + digits;
            let close = seq![GREATER] + more;
            assert(text =~= seq![LESS] + inner + seq![GREATER]);
            assert(tail[0] == LESS);
            let after = tail.subrange(1, tail.len() as int);
            assert(after =~= inner + close);
            assert(is_word(inner));
            lemma_word_free(inner, Pat::Byte(GREATER));
            lemma_first_hit_seam(inner, close, Pat::Byte(GREATER));
            assert(after.subrange(0, inner.len() as int) =~= inner);
            if unsigned {
                assert(inner[0] == SMALL_U);
                assert(inner.drop_first() =~= digits);
            } else {
                assert(inner =~= digits);
                assert(inner[0] != SMALL_U);
            }
        },
    }
}

/// A written array length reads as that length.
pub proof fn lemma_array_written(length: Option<usize>, off: int)
    ensures
        parse_array(array_text(length), off) is Ok,
        parse_array(array_text(length), off)->Ok_0 == length,
{
    reveal(parse_array);
    lemma_marks();
    let tail = array_text(length);
    match length {
        None => {},
        Some(n) => {
            let digits = dec_text(n as nat);
            lemma_dec_word(n as nat);
            lemma_dec_text(n as nat);
            let close = seq![SQUARE_CLOSE];
            assert(tail =~= seq![SQUARE_OPEN] + digits + close);
            assert(tail[0] == SQUARE_OPEN);
            let after = tail.subrange(1, tail.len() as int);
            assert(after =~= digits + close);
            lemma_word_free(digits, Pat::Byte(SQUARE_CLOSE));
            lemma_first_hit_seam(digits, close, Pat::Byte(SQUARE_CLOSE));
            assert(after.subrange(0, digits.len() as int) =~= digits);
        },
    }
}

/// What a written entry holds after its tags and before its comment.
pub open spec fn entry_body(e: RawEntryView) -> Seq<u8> {
    e.name + width_text(e.integer_width, e.unsigned) + array_text(e.array_size)
}

/// Width and array length are written with marks and digits only: they
/// hold no blank, no line feed, no `//` and no `$`, and start with their
/// bracket.
pub proof fn lemma_suffix_text(width: Option<u8>, unsigned: bool, length: Option<usize>, p: Pat)
    requires
        is_line_mark(p) || p == Pat::Byte(DOLLAR),
    ensures
        free_of(width_text(width, unsigned) + array_text(length), p),
        ({
            let s = width_text(width, unsigned) + array_text(length);
            s.len() > 0 ==> (s[0] == LESS || s[0] == SQUARE_OPEN) && (s.last() == GREATER
                || s.last() == SQUARE_CLOSE)
        }),
        array_text(length).len() > 0 ==> array_text(length)[0] == SQUARE_OPEN,
{
    lemma_marks();
    let w = width_text(width, unsigned);
    let a = array_text(length);
    match width {
        None => {},
        Some(v) => {
            let u = if unsigned {
                seq![SMALL_U]
            } else {
                Seq::<u8>::empty()
            };
            let digits = dec_text(v as nat);
            lemma_dec_word(v as nat);
            assert(is_word(u + digits));
            lemma_word_free(u + digits, p);
            assert(free_of(seq![LESS], p));
            assert(free_of(seq![GREATER], p));
            lemma_free_concat(seq![LESS], u + digits, p);
            lemma_free_concat(seq![LESS] + (u + digits), seq![GREATER], p);
            assert(w =~= seq![LESS] + (u + digits) + seq![GREATER]);
        },
    }
    match length {
        None => {},
        Some(n) => {
            let digits = dec_text(n as nat);
            lemma_dec_word(n as nat);
            lemma_word_free(digits, p);
            assert(free_of(seq![SQUARE_OPEN], p));
            assert(free_of(seq![SQUARE_CLOSE], p));
            lemma_free_concat(seq![SQUARE_OPEN], digits, p);
            lemma_free_concat(seq![SQUARE_OPEN] + digits, seq![SQUARE_CLOSE], p);
            assert(a =~= seq![SQUARE_OPEN] + digits + seq![SQUARE_CLOSE]);
        },
    }
    if w.len() > 0 && a.len() > 0 {
        assert(w.last() == GREATER);
    }
    lemma_free_concat(w, a, p);
    let s = w + a;
    if s.len() > 0 {
        if w.len() > 0 {
            assert(s[0] == w[0]);
        } else {
            assert(s[0] == a[0]);
        }
        if a.len() > 0 {
            assert(s.last() == a.last());
        } else {
            assert(s.last() == w.last());
        }
    }
}

/// Name, width and array length that were written one after the other
/// are told apart.
pub proof fn lemma_shape_written(e: RawEntryView, off: int)
    requires
        entry_ok(e),
    ensures
        parse_shape(entry_body(e), off) is Ok,
        parse_shape(entry_body(e), off)->Ok_0 == (Shape {
            name: e.name,
            integer_width: e.integer_width,
            unsigned: e.unsigned,
            array_size: e.array_size,
        }),
{
    reveal(parse_shape);
    let w = width_text(e.integer_width, e.unsigned);
    let a = array_text(e.array_size);
    let suffix = w + a;
    let body = entry_body(e);
    let either = Pat::Either(LESS, SQUARE_OPEN);
    assert(body =~= e.name + suffix);
    lemma_suffix_text(e.integer_width, e.unsigned, e.array_size, Pat::Byte(LINE_FEED));
    if suffix.len() > 0 {
        lemma_first_hit_seam(e.name, suffix, either);
    } else {
        assert(body =~= e.name);
        lemma_free_first_hit(e.name, either);
    }
    let name_end = e.name.len() as int;
    assert(body.subrange(0, name_end) =~= e.name);
    assert(body.subrange(name_end, body.len() as int) =~= suffix);
    lemma_trim_trimmed(e.name);
    lemma_width_written(e.integer_width, e.unsigned, a, off + name_end);
    assert(suffix.subrange(w.len() as int, suffix.len() as int) =~= a);
    lemma_array_written(e.array_size, off + name_end + w.len());
}

/// A declaration that does not start with a keyword does not start with
/// it when a bracket follows.
pub proof fn lemma_keyword_suffix(name: Seq<u8>, suffix: Seq<u8>, word: Seq<u8>)
    requires
        !has_keyword(name, word),
        is_word(word),
        suffix.len() > 0 ==> suffix[0] == LESS || suffix[0] == SQUARE_OPEN,
    ensures
        !has_keyword(name + suffix, word),
{
    let decl = name + suffix;
    if has_keyword(decl, word) {
        let n = word.len() as int;
        let start = decl.subrange(0, n);
        if name.len() > n {
            assert(name.subrange(0, n) =~= start);
            assert(decl[n] == name[n]);
        } else if name.len() == n {
            assert(name =~= start);
            assert(name.subrange(0, n) =~= name);
        } else {
            let at = name.len() as int;
            assert(start[at] == decl[at]);
            assert(decl[at] == suffix[0]);
            assert(is_alnum(word[at]));
        }
    }
}

/// What a written entry holds before its comment.
pub open spec fn entry_head(e: RawEntryView) -> Seq<u8> {
    tags_text(e) + entry_body(e)
}

/// Tags, a name and what follows the name make up a text that is
/// trimmed, not empty, and has no line feed and no `//`.
pub proof fn lemma_head_pieces(tags: Seq<u8>, name: Seq<u8>, suffix: Seq<u8>, p: Pat)
    requires
        is_line_mark(p),
        free_of(tags, p),
        free_of(name, p),
        free_of(suffix, p),
        is_trimmed(name),
        tags.len() > 0 ==> tags[0] == DOLLAR && tags.last() == DOLLAR,
        suffix.len() > 0 ==> (suffix[0] == LESS || suffix[0] == SQUARE_OPEN) && (suffix.last()
            == GREATER || suffix.last() == SQUARE_CLOSE),
        tags.len() == 0 ==> name.len() > 0,
    ensures
        (tags + (name + suffix)).len() > 0,
        is_trimmed(tags + (name + suffix)),
        free_of(tags + (name + suffix), p),
{
    let body = name + suffix;
    let head = tags + body;
    lemma_free_concat(name, suffix, p);
    lemma_free_concat(tags, body, p);
    if tags.len() > 0 {
        assert(head[0] == tags[0]);
    } else {
        assert(head[0] == name[0]);
    }
    if suffix.len() > 0 {
        assert(head.last() == suffix.last());
    } else if name.len() > 0 {
        assert(head.last() == name.last());
    } else {
        assert(head.last() == tags.last());
    }
}

/// The block of tags of a written entry.
pub proof fn lemma_tags_text(e: RawEntryView)
    ensures
        (e.has_any_tag() || needs_block(e.name)) ==> tags_text(e) == seq![DOLLAR] + tag_words(
            e.primary_key,
            !e.inline,
            e.relation,
        ) + seq![DOLLAR],
        !(e.has_any_tag() || needs_block(e.name)) ==> tags_text(e) == Seq::<u8>::empty()
            && e.name.len() > 0 && e.name[0] != DOLLAR,
        free_of(tags_text(e), Pat::Byte(LINE_FEED)),
        free_of(tags_text(e), Pat::Pair(SLASH, SLASH)),
        tags_text(e).len() > 0 ==> tags_text(e)[0] == DOLLAR && tags_text(e).last() == DOLLAR,
{
    reveal(needs_block);
    lemma_dollar();
    let lf = Pat::Byte(LINE_FEED);
    let pair = Pat::Pair(SLASH, SLASH);
    let words = tag_words(e.primary_key, !e.inline, e.relation);
    let dollar = seq![DOLLAR];
    lemma_tag_words(e.primary_key, !e.inline, e.relation);
    assert(free_of(dollar, lf));
    assert(free_of(dollar, pair));
    lemma_free_concat(dollar, words, lf);
    lemma_free_concat(dollar + words, dollar, lf);
    lemma_free_concat(dollar, words, pair);
    lemma_free_concat(dollar + words, dollar, pair);
    if e.has_any_tag() || needs_block(e.name) {
        let tags = dollar + words + dollar;
        assert(tags[0] == DOLLAR);
        assert(tags.last() == DOLLAR);
    }
}

/// The text of an entry before its comment is trimmed, not empty, and has
/// no line feed and no `//`.
pub proof fn lemma_entry_head(e: RawEntryView)
    requires
        entry_ok(e),
    ensures
        entry_head(e).len() > 0,
        is_trimmed(entry_head(e)),
        free_of(entry_head(e), Pat::Byte(LINE_FEED)),
        free_of(entry_head(e), Pat::Pair(SLASH, SLASH)),
        entry_text(e) == entry_head(e) + comment_text(e.comment),
        (e.has_any_tag() || needs_block(e.name)) ==> entry_head(e)[0] == DOLLAR && entry_head(e)
            == seq![DOLLAR] + tag_words(e.primary_key, !e.inline, e.relation) + seq![DOLLAR]
            + entry_body(e),
        !(e.has_any_tag() || needs_block(e.name)) ==> entry_head(e) == entry_body(e)
            && e.name.len() > 0 && entry_head(e)[0] == e.name[0] && e.name[0] != DOLLAR,
{
    let lf = Pat::Byte(LINE_FEED);
    let pair = Pat::Pair(SLASH, SLASH);
    let tags = tags_text(e);
    let suffix = width_text(e.integer_width, e.unsigned) + array_text(e.array_size);
    let body = entry_body(e);
    let head = entry_head(e);
    assert(entry_text(e) =~= head + comment_text(e.comment));
    assert(body =~= e.name + suffix);
    lemma_tags_text(e);
    lemma_suffix_text(e.integer_width, e.unsigned, e.array_size, lf);
    lemma_suffix_text(e.integer_width, e.unsigned, e.array_size, pair);
    lemma_head_pieces(tags, e.name, suffix, lf);
    lemma_head_pieces(tags, e.name, suffix, pair);
    if tags.len() > 0 {
        assert(head[0] == tags[0]);
    } else {
        assert(head =~= body);
        assert(head[0] == e.name[0]);
    }
}

/// The keywords that start a line are words.
pub proof fn lemma_keywords_are_words()
    ensures
        is_word(utf8("COMMENT"@)),
        is_word(utf8("LAYOUT"@)),
        is_word(utf8("BUILD"@)),
        utf8("COMMENT"@).len() == 7,
        utf8("LAYOUT"@).len() == 6,
        utf8("BUILD"@).len() == 5,
        utf8("COMMENT"@)[0] == 0x43,
        utf8("LAYOUT"@)[0] == 0x4c,
        utf8("BUILD"@)[0] == 0x42,
{
    lemma_keywords();
}

/// The text of an entry does not start with the keyword `word`.
pub proof fn lemma_entry_keyword(e: RawEntryView, word: Seq<u8>)
    requires
        entry_ok(e),
        is_word(word),
        word.len() > 0,
        !(e.has_any_tag() || needs_block(e.name)) ==> !has_keyword(e.name, word),
    ensures
        !has_keyword(entry_head(e), word),
{
    lemma_entry_head(e);
    let head = entry_head(e);
    let suffix = width_text(e.integer_width, e.unsigned) + array_text(e.array_size);
    if e.has_any_tag() || needs_block(e.name) {
        if has_keyword(head, word) {
            assert(head.subrange(0, word.len() as int)[0] == word[0]);
            assert(is_alnum(word[0]));
        }
    } else {
        lemma_suffix_text(e.integer_width, e.unsigned, e.array_size, Pat::Byte(LINE_FEED));
        assert(head =~= e.name + suffix);
        lemma_keyword_suffix(e.name, suffix, word);
    }
}

/// The text of an entry does not start with a keyword.
pub proof fn lemma_entry_keywords(e: RawEntryView)
    requires
        entry_ok(e),
    ensures
        !has_keyword(entry_head(e), utf8("COMMENT"@)),
        !has_keyword(entry_head(e), utf8("LAYOUT"@)),
        !has_keyword(entry_head(e), utf8("BUILD"@)),
{
    lemma_keywords_are_words();
    reveal(needs_block);
    lemma_entry_keyword(e, utf8("COMMENT"@));
    lemma_entry_keyword(e, utf8("LAYOUT"@));
    lemma_entry_keyword(e, utf8("BUILD"@));
}

/// The tags of a written entry are found, and the rest after them.
pub proof fn lemma_entry_tags(e: RawEntryView)
    requires
        entry_ok(e),
    ensures
        tag_block(entry_head(e)) is Some,
        ({
            let (tags, start) = tag_block(entry_head(e))->Some_0;
            &&& entry_head(e).subrange(start, entry_head(e).len() as int) == entry_body(e)
            &&& has_tag(tags, utf8("id"@)) == e.primary_key
            &&& has_tag(tags, utf8("noninline"@)) == !e.inline
            &&& has_tag(tags, utf8("relation"@)) == e.relation
        }),
{
    lemma_entry_head(e);
    let blocked = e.has_any_tag() || needs_block(e.name);
    let words = tag_words(e.primary_key, !e.inline, e.relation);
    lemma_tag_words(e.primary_key, !e.inline, e.relation);
    lemma_tag_block(blocked, words, entry_body(e));
    if !blocked {
        assert(words =~= Seq::<u8>::empty()) by {
            assert(!e.primary_key && e.inline && !e.relation);
        }
    }
}

/// A block of tags before a body is told apart from the body.
pub proof fn lemma_tag_block(blocked: bool, words: Seq<u8>, body: Seq<u8>)
    requires
        free_of(words, Pat::Byte(DOLLAR)),
        !blocked ==> body.len() > 0 && body[0] != DOLLAR,
    ensures
        ({
            let head = if blocked {
                seq![DOLLAR] + words + seq![DOLLAR] + body
            } else {
                body
            };
            &&& tag_block(head) is Some
            &&& tag_block(head)->Some_0.0 == (if blocked {
                words
            } else {
                Seq::<u8>::empty()
            })
            &&& head.subrange(tag_block(head)->Some_0.1, head.len() as int) == body
        }),
{
    reveal(tag_block);
    let dollar = seq![DOLLAR];
    if blocked {
        let head = dollar + words + dollar + body;
        let after = head.subrange(1, head.len() as int);
        let rest = dollar + body;
        assert(head[0] == DOLLAR);
        assert(after =~= words + rest);
        lemma_first_hit_seam(words, rest, Pat::Byte(DOLLAR));
        assert(after.subrange(0, words.len() as int) =~= words);
        assert(head.subrange(words.len() as int + 2, head.len() as int) =~= body);
    } else {
        assert(body.subrange(0, body.len() as int) =~= body);
    }
}

/// The line of a well-formed entry reads as that entry, and is taken for
/// the line of an entry.
pub proof fn lemma_entry_written(e: RawEntryView)
    requires
        entry_ok(e),
    ensures
        parse_entry(entry_text(e)) is Ok,
        parse_entry(entry_text(e))->Ok_0 == e,
        !all_blank(entry_text(e)),
        free_of(entry_text(e), Pat::Byte(LINE_FEED)),
        !has_keyword(line_decl(entry_text(e)), utf8("COMMENT"@)),
        !has_keyword(line_decl(entry_text(e)), utf8("LAYOUT"@)),
        !has_keyword(line_decl(entry_text(e)), utf8("BUILD"@)),
{
    let lf = Pat::Byte(LINE_FEED);
    let head = entry_head(e);
    let line = entry_text(e);
    lemma_entry_head(e);
    lemma_entry_keywords(e);
    lemma_entry_tags(e);
    lemma_line_parts(head, e.comment);
    assert(free_of(line, lf)) by {
        lemma_marks();
        let ct = comment_text(e.comment);
        match e.comment {
            None => {},
            Some(text) => {
                let lead = seq![0x20u8, 0x2fu8, 0x2fu8, 0x20u8];
                assert(free_of(lead, lf));
                lemma_free_concat(lead, text, lf);
            },
        }
        lemma_free_concat(head, ct, lf);
    }
    let start = tag_block(head)->Some_0.1;
    lemma_shape_written(e, line_base(line) + start);
    reveal(parse_entry);
}

/// `s` is made of digits, letters, dots and dashes, and neither starts nor
/// ends with a dot or a dash.
pub open spec fn is_item(s: Seq<u8>) -> bool {
    &&& s.len() > 0
    &&& is_alnum(s[0])
    &&& is_alnum(s.last())
    &&& forall|i: int|
        0 <= i < s.len() ==> is_alnum(#[trigger] s[i]) || s[i] == DOT || s[i]
            == DASH
}

/// One of the marks that no item of a list holds.
pub open spec fn is_list_mark(p: Pat) -> bool {
    p == Pat::Byte(COMMA) || p == Pat::Blank || is_line_mark(p)
}

pub proof fn lemma_item_free(s: Seq<u8>, p: Pat)
    requires
        is_item(s),
        is_list_mark(p),
    ensures
        free_of(s, p),
        is_trimmed(s),
{
    assert forall|i: int| 0 <= i < s.len() implies !hit(s, i, p) by {
        assert(is_alnum(s[i]) || s[i] == DOT || s[i] == DASH);
    }
}

/// Two items with a dot or a dash between them are an item.
pub proof fn lemma_item_join(a: Seq<u8>, mark: u8, b: Seq<u8>)
    requires
        is_item(a),
        is_item(b),
        mark == DOT || mark == DASH,
    ensures
        is_item(a + seq![mark] + b),
{
    let s = a + seq![mark] + b;
    assert(s[0] == a[0]);
    assert(s.last() == b.last());
    assert forall|i: int| 0 <= i < s.len() implies is_alnum(#[trigger] s[i]) || s[i]
        == DOT || s[i] == DASH by {
        if i < a.len() {
            assert(s[i] == a[i]);
        } else if i > a.len() {
            assert(s[i] == b[i - a.len() - 1]);
        }
    }
}

/// A written number is an item without dots and dashes.
pub proof fn lemma_dec_item(n: nat)
    ensures
        is_item(dec_text(n)),
        is_word(dec_text(n)),
{
    lemma_dec_word(n);
    lemma_dec_text(n);
    let s = dec_text(n);
    assert(is_dec_digit(s.last()));
}

/// A number before a dot is found before the dot.
proof fn lemma_dotted(number: Seq<u8>, rest: Seq<u8>)
    requires
        is_word(number),
    ensures
        first_hit(number + seq![DOT] + rest, Pat::Byte(DOT)) == number.len(),
        (number + seq![DOT] + rest).subrange(0, number.len() as int) == number,
        (number + seq![DOT] + rest).subrange(
            number.len() as int + 1,
            (number + seq![DOT] + rest).len() as int,
        ) == rest,
{
    let s = number + seq![DOT] + rest;
    let tail = seq![DOT] + rest;
    assert(s =~= number + tail);
    lemma_word_free(number, Pat::Byte(DOT));
    lemma_first_hit_seam(number, tail, Pat::Byte(DOT));
    assert(s.subrange(0, number.len() as int) =~= number);
    assert(s.subrange(number.len() as int + 1, s.len() as int) =~= rest);
}

/// Two texts without dashes with a dot between them have no dash.
proof fn lemma_dotted_free(a: Seq<u8>, b: Seq<u8>)
    requires
        free_of(a, Pat::Byte(DASH)),
        free_of(b, Pat::Byte(DASH)),
    ensures
        free_of(a + seq![DOT] + b, Pat::Byte(DASH)),
{
    let dot = seq![DOT];
    assert(free_of(dot, Pat::Byte(DASH)));
    lemma_free_concat(a, dot, Pat::Byte(DASH));
    lemma_free_concat(a + dot, b, Pat::Byte(DASH));
}

/// The four numbers of a version with dots between them.
pub open spec fn dotted(a: Seq<u8>, b: Seq<u8>, c: Seq<u8>, d: Seq<u8>) -> Seq<u8> {
    a + seq![DOT] + (b + seq![DOT] + (c + seq![DOT] + d))
}

/// Four written numbers with dots between them are an item without a
/// dash.
proof fn lemma_dotted_item(a: Seq<u8>, b: Seq<u8>, c: Seq<u8>, d: Seq<u8>)
    requires
        is_item(a) && is_word(a),
        is_item(b) && is_word(b),
        is_item(c) && is_word(c),
        is_item(d) && is_word(d),
    ensures
        is_item(dotted(a, b, c, d)),
        free_of(dotted(a, b, c, d), Pat::Byte(DASH)),
{
    let tail = c + seq![DOT] + d;
    let mid = b + seq![DOT] + tail;
    lemma_item_join(c, DOT, d);
    lemma_item_join(b, DOT, tail);
    lemma_item_join(a, DOT, mid);
    lemma_word_free(a, Pat::Byte(DASH));
    lemma_word_free(b, Pat::Byte(DASH));
    lemma_word_free(c, Pat::Byte(DASH));
    lemma_word_free(d, Pat::Byte(DASH));
    lemma_dotted_free(c, d);
    lemma_dotted_free(b, tail);
    lemma_dotted_free(a, mid);
}

/// The text of a version is its four numbers with dots between them.
proof fn lemma_version_text(v: Version)
    ensures
        version_text(v) == dotted(
            dec_text(v.major as nat),
            dec_text(v.minor as nat),
            dec_text(v.patch as nat),
            dec_text(v.build as nat),
        ),
{
    lemma_dot();
    let a = dec_text(v.major as nat);
    let b = dec_text(v.minor as nat);
    let c = dec_text(v.patch as nat);
    let d = dec_text(v.build as nat);
    assert(version_text(v) =~= dotted(a, b, c, d));
}

/// A written version reads as that version.
#[verifier::rlimit(30)]
pub proof fn lemma_version_written(v: Version)
    ensures
        parse_version(version_text(v)) == Some(v),
        is_item(version_text(v)),
        free_of(version_text(v), Pat::Byte(DASH)),
{
    let a = dec_text(v.major as nat);
    let b = dec_text(v.minor as nat);
    let c = dec_text(v.patch as nat);
    let d = dec_text(v.build as nat);
    let tail = c + seq![DOT] + d;
    let mid = b + seq![DOT] + tail;
    lemma_version_text(v);
    lemma_dec_item(v.major as nat);
    lemma_dec_item(v.minor as nat);
    lemma_dec_item(v.patch as nat);
    lemma_dec_item(v.build as nat);
    lemma_dotted_item(a, b, c, d);
    lemma_dec_text(v.major as nat);
    lemma_dec_text(v.minor as nat);
    lemma_dec_text(v.patch as nat);
    lemma_dec_text(v.build as nat);
    lemma_dotted(a, mid);
    lemma_dotted(b, tail);
    lemma_dotted(c, d);
    reveal(parse_version);
}

/// A written build reads as that build.
pub proof fn lemma_build_written(b: Build)
    ensures
        parse_build(build_text(b)) == Some(b),
        is_item(build_text(b)),
{
    reveal(parse_build);
    lemma_dash();
    match b {
        Build::Exact(v) => {
            lemma_version_written(v);
            lemma_free_first_hit(version_text(v), Pat::Byte(DASH));
        },
        Build::Range(r) => {
            let from = version_text(r.from);
            let to = version_text(r.to);
            let dash = seq![DASH];
            let text = from + dash + to;
            let tail = dash + to;
            lemma_version_written(r.from);
            lemma_version_written(r.to);
            assert(build_text(b) =~= text);
            assert(text =~= from + tail);
            lemma_first_hit_seam(from, tail, Pat::Byte(DASH));
            assert(text.subrange(0, from.len() as int) =~= from);
            assert(text.subrange(from.len() as int + 1, text.len() as int) =~= to);
            lemma_item_free(from, Pat::Blank);
            lemma_item_free(to, Pat::Blank);
            lemma_trim_trimmed(from);
            lemma_trim_trimmed(to);
            lemma_item_join(from, DASH, to);
        },
    }
}

/// A written layout reads as that layout.
pub proof fn lemma_layout_written(l: Layout)
    ensures
        parse_hex(layout_text(l), u32::MAX as nat) == Some(l.inner as nat),
        is_item(layout_text(l)),
{
    reveal_with_fuel(pow16, 9);
    lemma_hex_text(l.inner as nat, 8);
    let s = layout_text(l);
    assert forall|i: int| 0 <= i < s.len() implies is_alnum(#[trigger] s[i]) by {
        assert(is_hex_digit(s[i]));
    }
    assert(is_hex_digit(s[0]));
    assert(is_hex_digit(s.last()));
}

/// `definition` with `builds` added, first to last.
pub open spec fn with_builds(definition: RawDefinitionView, builds: Seq<Build>) -> RawDefinitionView
    decreases builds.len(),
{
    if builds.len() == 0 {
        definition
    } else {
        add_build(with_builds(definition, builds.drop_last()), builds.last())
    }
}

/// `definition` with `layouts` added, first to last.
pub open spec fn with_layouts(
    definition: RawDefinitionView,
    layouts: Seq<Layout>,
) -> RawDefinitionView
    decreases layouts.len(),
{
    if layouts.len() == 0 {
        definition
    } else {
        add_layout(with_layouts(definition, layouts.drop_last()), layouts.last())
    }
}

/// What is left of a list after its first items: nothing, or a comma and
/// more items.
pub open spec fn list_tail(more: Option<Seq<u8>>) -> Seq<u8> {
    match more {
        Some(m) => seq![COMMA] + m,
        None => Seq::empty(),
    }
}

/// An item of a list, with blanks before it, is found up to the comma
/// that follows it or the end of the list.
proof fn lemma_list_item(pad: Seq<u8>, item: Seq<u8>, more: Option<Seq<u8>>)
    requires
        all_blank(pad),
        is_item(item),
    ensures
        ({
            let list = pad + item + list_tail(more);
            let k = first_hit(list, Pat::Byte(COMMA));
            &&& k == pad.len() + item.len()
            &&& trim(list.subrange(0, k)) == item
            &&& more is None ==> k == list.len()
            &&& more is Some ==> k < list.len() && list.subrange(k + 1, list.len() as int)
                == more->Some_0
        }),
{
    let comma = Pat::Byte(COMMA);
    let front = pad + item;
    let tail = list_tail(more);
    let list = front + tail;
    let none = Seq::<u8>::empty();
    lemma_item_free(item, comma);
    assert(free_of(pad, comma)) by {
        assert forall|i: int| 0 <= i < pad.len() implies !hit(pad, i, comma) by {
            assert(is_blank(pad[i]));
        }
    }
    lemma_free_concat(pad, item, comma);
    match more {
        None => {
            assert(list =~= front);
            lemma_free_first_hit(front, comma);
        },
        Some(m) => {
            lemma_first_hit_seam(front, tail, comma);
            assert(list.subrange(front.len() as int + 1, list.len() as int) =~= m);
        },
    }
    assert(list.subrange(0, front.len() as int) =~= pad + item + none);
    assert(all_blank(none));
    lemma_trim_padded(pad, item, none);
}

/// One written build, with blanks before it, is read as that build.
proof fn lemma_builds_step(
    pad: Seq<u8>,
    b: Build,
    more: Option<Seq<u8>>,
    off: int,
    definition: RawDefinitionView,
)
    requires
        all_blank(pad),
    ensures
        ({
            let list = pad + build_text(b) + list_tail(more);
            let after = add_build(definition, b);
            match more {
                None => parse_builds(list, off, definition) == Ok::<RawDefinitionView, LineError>(
                    after,
                ),
                Some(m) => parse_builds(list, off, definition) == parse_builds(
                    m,
                    off + pad.len() + build_text(b).len() + 1,
                    after,
                ),
            }
        }),
{
    lemma_build_written(b);
    lemma_list_item(pad, build_text(b), more);
}

/// One written layout, with blanks before it, is read as that layout.
proof fn lemma_layouts_step(
    pad: Seq<u8>,
    l: Layout,
    more: Option<Seq<u8>>,
    off: int,
    definition: RawDefinitionView,
)
    requires
        all_blank(pad),
    ensures
        ({
            let list = pad + layout_text(l) + list_tail(more);
            let after = add_layout(definition, l);
            match more {
                None => parse_layouts(list, off, definition) == Ok::<RawDefinitionView, LineError>(
                    after,
                ),
                Some(m) => parse_layouts(list, off, definition) == parse_layouts(
                    m,
                    off + pad.len() + layout_text(l).len() + 1,
                    after,
                ),
            }
        }),
{
    lemma_layout_written(l);
    lemma_list_item(pad, layout_text(l), more);
}

/// The written builds, with blanks before them, are read as those builds.
pub proof fn lemma_builds_written(
    pad: Seq<u8>,
    builds: Seq<Build>,
    more: Option<Seq<u8>>,
    off: int,
    definition: RawDefinitionView,
)
    requires
        all_blank(pad),
        builds.len() > 0,
    ensures
        ({
            let list = pad + builds_text(builds) + list_tail(more);
            let after = with_builds(definition, builds);
            match more {
                None => parse_builds(list, off, definition) == Ok::<RawDefinitionView, LineError>(
                    after,
                ),
                Some(m) => parse_builds(list, off, definition) == parse_builds(
                    m,
                    off + pad.len() + builds_text(builds).len() + 1,
                    after,
                ),
            }
        }),
    decreases builds.len(),
{
    let text = builds_text(builds);
    let last = builds.last();
    let item = build_text(last);
    if builds.len() == 1 {
        assert(builds.drop_last() =~= Seq::<Build>::empty());
        assert(with_builds(definition, builds.drop_last()) == definition);
        lemma_builds_step(pad, last, more, off, definition);
    } else {
        lemma_list_mark();
        let init = builds.drop_last();
        let blank = seq![0x20u8];
        let rest = blank + item + list_tail(more);
        let list = pad + text + list_tail(more);
        assert(text =~= builds_text(init) + seq![COMMA, 0x20u8] + item);
        assert(list =~= pad + builds_text(init) + list_tail(Some(rest)));
        lemma_builds_written(pad, init, Some(rest), off, definition);
        assert(all_blank(blank));
        lemma_builds_step(
            blank,
            last,
            more,
            off + pad.len() + builds_text(init).len() + 1,
            with_builds(definition, init),
        );
    }
}

/// The written layouts, with blanks before them, are read as those
/// layouts.
pub proof fn lemma_layouts_written(
    pad: Seq<u8>,
    layouts: Seq<Layout>,
    more: Option<Seq<u8>>,
    off: int,
    definition: RawDefinitionView,
)
    requires
        all_blank(pad),
        layouts.len() > 0,
    ensures
        ({
            let list = pad + layouts_text(layouts) + list_tail(more);
            let after = with_layouts(definition, layouts);
            match more {
                None => parse_layouts(list, off, definition) == Ok::<RawDefinitionView, LineError>(
                    after,
                ),
                Some(m) => parse_layouts(list, off, definition) == parse_layouts(
                    m,
                    off + pad.len() + layouts_text(layouts).len() + 1,
                    after,
                ),
            }
        }),
    decreases layouts.len(),
{
    let text = layouts_text(layouts);
    let last = layouts.last();
    let item = layout_text(last);
    if layouts.len() == 1 {
        assert(layouts.drop_last() =~= Seq::<Layout>::empty());
        assert(with_layouts(definition, layouts.drop_last()) == definition);
        lemma_layouts_step(pad, last, more, off, definition);
    } else {
        lemma_list_mark();
        let init = layouts.drop_last();
        let blank = seq![0x20u8];
        let rest = blank + item + list_tail(more);
        let list = pad + text + list_tail(more);
        assert(text =~= layouts_text(init) + seq![COMMA, 0x20u8] + item);
        assert(list =~= pad + layouts_text(init) + list_tail(Some(rest)));
        lemma_layouts_written(pad, init, Some(rest), off, definition);
        assert(all_blank(blank));
        lemma_layouts_step(
            blank,
            last,
            more,
            off + pad.len() + layouts_text(init).len() + 1,
            with_layouts(definition, init),
        );
    }
}

} // verus!

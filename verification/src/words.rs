//! The bytes of the words and marks of the grammar.
use crate::number::lemma_ascii_bytes;
use crate::text::utf8;
use vstd::prelude::*;

verus! {

/// The bytes of `int`.
pub proof fn lemma_kind_int()
    ensures
        utf8("int"@) == seq![0x69u8, 0x6eu8, 0x74u8],
{
    reveal_strlit("int");
    lemma_ascii_bytes("int"@, seq![0x69u8, 0x6eu8, 0x74u8]);
}

/// The bytes of `float`.
pub proof fn lemma_kind_float()
    ensures
        utf8("float"@) == seq![0x66u8, 0x6cu8, 0x6fu8, 0x61u8, 0x74u8],
{
    reveal_strlit("float");
    lemma_ascii_bytes("float"@, seq![0x66u8, 0x6cu8, 0x6fu8, 0x61u8, 0x74u8]);
}

/// The bytes of `locstring`.
pub proof fn lemma_kind_locstring()
    ensures
        utf8("locstring"@) == seq![
            0x6cu8, 0x6fu8, 0x63u8, 0x73u8, 0x74u8, 0x72u8, 0x69u8, 0x6eu8, 0x67u8,
        ],
{
    reveal_strlit("locstring");
    lemma_ascii_bytes("locstring"@, seq![
        0x6cu8, 0x6fu8, 0x63u8, 0x73u8, 0x74u8, 0x72u8, 0x69u8, 0x6eu8, 0x67u8,
    ]);
}

/// The bytes of `string`.
pub proof fn lemma_kind_string()
    ensures
        utf8("string"@) == seq![0x73u8, 0x74u8, 0x72u8, 0x69u8, 0x6eu8, 0x67u8],
{
    reveal_strlit("string");
    lemma_ascii_bytes("string"@, seq![0x73u8, 0x74u8, 0x72u8, 0x69u8, 0x6eu8, 0x67u8]);
}

/// The bytes of `<`.
pub proof fn lemma_less()
    ensures
        utf8("<"@) == seq![0x3cu8],
{
    reveal_strlit("<");
    lemma_ascii_bytes("<"@, seq![0x3cu8]);
}

/// The bytes of `::`.
pub proof fn lemma_colons()
    ensures
        utf8("::"@) == seq![0x3au8, 0x3au8],
{
    reveal_strlit("::");
    lemma_ascii_bytes("::"@, seq![0x3au8, 0x3au8]);
}

/// The bytes of `>`.
pub proof fn lemma_greater()
    ensures
        utf8(">"@) == seq![0x3eu8],
{
    reveal_strlit(">");
    lemma_ascii_bytes(">"@, seq![0x3eu8]);
}

/// The bytes of ` // `.
pub proof fn lemma_comment_mark()
    ensures
        utf8(" // "@) == seq![0x20u8, 0x2fu8, 0x2fu8, 0x20u8],
{
    reveal_strlit(" // ");
    lemma_ascii_bytes(" // "@, seq![0x20u8, 0x2fu8, 0x2fu8, 0x20u8]);
}

/// The bytes of ` `.
pub proof fn lemma_space()
    ensures
        utf8(" "@) == seq![0x20u8],
{
    reveal_strlit(" ");
    lemma_ascii_bytes(" "@, seq![0x20u8]);
}

/// The bytes of `?`.
pub proof fn lemma_question()
    ensures
        utf8("?"@) == seq![0x3fu8],
{
    reveal_strlit("?");
    lemma_ascii_bytes("?"@, seq![0x3fu8]);
}

/// The bytes of `$`.
pub proof fn lemma_dollar()
    ensures
        utf8("$"@) == seq![0x24u8],
{
    reveal_strlit("$");
    lemma_ascii_bytes("$"@, seq![0x24u8]);
}

/// The bytes of `id`.
pub proof fn lemma_tag_id()
    ensures
        utf8("id"@) == seq![0x69u8, 0x64u8],
{
    reveal_strlit("id");
    lemma_ascii_bytes("id"@, seq![0x69u8, 0x64u8]);
}

/// The bytes of `noninline`.
pub proof fn lemma_tag_noninline()
    ensures
        utf8("noninline"@) == seq![
            0x6eu8, 0x6fu8, 0x6eu8, 0x69u8, 0x6eu8, 0x6cu8, 0x69u8, 0x6eu8, 0x65u8,
        ],
{
    reveal_strlit("noninline");
    lemma_ascii_bytes("noninline"@, seq![
        0x6eu8, 0x6fu8, 0x6eu8, 0x69u8, 0x6eu8, 0x6cu8, 0x69u8, 0x6eu8, 0x65u8,
    ]);
}

/// The bytes of `relation`.
pub proof fn lemma_tag_relation()
    ensures
        utf8("relation"@) == seq![0x72u8, 0x65u8, 0x6cu8, 0x61u8, 0x74u8, 0x69u8, 0x6fu8, 0x6eu8],
{
    reveal_strlit("relation");
    lemma_ascii_bytes("relation"@, seq![
        0x72u8, 0x65u8, 0x6cu8, 0x61u8, 0x74u8, 0x69u8, 0x6fu8, 0x6eu8,
    ]);
}

/// The bytes of `,`.
pub proof fn lemma_comma()
    ensures
        utf8(","@) == seq![0x2cu8],
{
    reveal_strlit(",");
    lemma_ascii_bytes(","@, seq![0x2cu8]);
}

/// The bytes of `u`.
pub proof fn lemma_small_u()
    ensures
        utf8("u"@) == seq![0x75u8],
{
    reveal_strlit("u");
    lemma_ascii_bytes("u"@, seq![0x75u8]);
}

/// The bytes of `[`.
pub proof fn lemma_square_open()
    ensures
        utf8("["@) == seq![0x5bu8],
{
    reveal_strlit("[");
    lemma_ascii_bytes("["@, seq![0x5bu8]);
}

/// The bytes of `]`.
pub proof fn lemma_square_close()
    ensures
        utf8("]"@) == seq![0x5du8],
{
    reveal_strlit("]");
    lemma_ascii_bytes("]"@, seq![0x5du8]);
}

/// The bytes of `.`.
pub proof fn lemma_dot()
    ensures
        utf8("."@) == seq![0x2eu8],
{
    reveal_strlit(".");
    lemma_ascii_bytes("."@, seq![0x2eu8]);
}

/// The bytes of `-`.
pub proof fn lemma_dash()
    ensures
        utf8("-"@) == seq![0x2du8],
{
    reveal_strlit("-");
    lemma_ascii_bytes("-"@, seq![0x2du8]);
}

/// The bytes of `, `.
pub proof fn lemma_list_mark()
    ensures
        utf8(", "@) == seq![0x2cu8, 0x20u8],
{
    reveal_strlit(", ");
    lemma_ascii_bytes(", "@, seq![0x2cu8, 0x20u8]);
}

/// The bytes of `\\n`.
pub proof fn lemma_line_feed()
    ensures
        utf8("\n"@) == seq![0x0au8],
{
    reveal_strlit("\n");
    lemma_ascii_bytes("\n"@, seq![0x0au8]);
}

/// The bytes of `LAYOUT `.
pub proof fn lemma_layout_start()
    ensures
        utf8("LAYOUT "@) == seq![0x4cu8, 0x41u8, 0x59u8, 0x4fu8, 0x55u8, 0x54u8, 0x20u8],
{
    reveal_strlit("LAYOUT ");
    lemma_ascii_bytes("LAYOUT "@, seq![0x4cu8, 0x41u8, 0x59u8, 0x4fu8, 0x55u8, 0x54u8, 0x20u8]);
}

/// The bytes of `BUILD `.
pub proof fn lemma_build_start()
    ensures
        utf8("BUILD "@) == seq![0x42u8, 0x55u8, 0x49u8, 0x4cu8, 0x44u8, 0x20u8],
{
    reveal_strlit("BUILD ");
    lemma_ascii_bytes("BUILD "@, seq![0x42u8, 0x55u8, 0x49u8, 0x4cu8, 0x44u8, 0x20u8]);
}

/// The bytes of `COLUMNS\\n`.
pub proof fn lemma_header()
    ensures
        utf8("COLUMNS\n"@) == seq![0x43u8, 0x4fu8, 0x4cu8, 0x55u8, 0x4du8, 0x4eu8, 0x53u8, 0x0au8],
{
    reveal_strlit("COLUMNS\n");
    lemma_ascii_bytes("COLUMNS\n"@, seq![
        0x43u8, 0x4fu8, 0x4cu8, 0x55u8, 0x4du8, 0x4eu8, 0x53u8, 0x0au8,
    ]);
}

/// The bytes of `COMMENT`.
pub proof fn lemma_comment_word()
    ensures
        utf8("COMMENT"@) == seq![0x43u8, 0x4fu8, 0x4du8, 0x4du8, 0x45u8, 0x4eu8, 0x54u8],
{
    reveal_strlit("COMMENT");
    lemma_ascii_bytes("COMMENT"@, seq![0x43u8, 0x4fu8, 0x4du8, 0x4du8, 0x45u8, 0x4eu8, 0x54u8]);
}

/// The bytes of `LAYOUT`.
pub proof fn lemma_layout_word()
    ensures
        utf8("LAYOUT"@) == seq![0x4cu8, 0x41u8, 0x59u8, 0x4fu8, 0x55u8, 0x54u8],
{
    reveal_strlit("LAYOUT");
    lemma_ascii_bytes("LAYOUT"@, seq![0x4cu8, 0x41u8, 0x59u8, 0x4fu8, 0x55u8, 0x54u8]);
}

/// The bytes of `BUILD`.
pub proof fn lemma_build_word()
    ensures
        utf8("BUILD"@) == seq![0x42u8, 0x55u8, 0x49u8, 0x4cu8, 0x44u8],
{
    reveal_strlit("BUILD");
    lemma_ascii_bytes("BUILD"@, seq![0x42u8, 0x55u8, 0x49u8, 0x4cu8, 0x44u8]);
}

/// The bytes of the keywords of the storage kinds.
pub proof fn lemma_kinds()
    ensures
        utf8("int"@) == seq![0x69u8, 0x6eu8, 0x74u8],
        utf8("float"@) == seq![0x66u8, 0x6cu8, 0x6fu8, 0x61u8, 0x74u8],
        utf8("locstring"@) == seq![
            0x6cu8, 0x6fu8, 0x63u8, 0x73u8, 0x74u8, 0x72u8, 0x69u8, 0x6eu8, 0x67u8,
        ],
        utf8("string"@) == seq![0x73u8, 0x74u8, 0x72u8, 0x69u8, 0x6eu8, 0x67u8],
{
    lemma_kind_int();
    lemma_kind_float();
    lemma_kind_locstring();
    lemma_kind_string();
}

/// The bytes of the marks that set the parts of a line apart.
pub proof fn lemma_marks()
    ensures
        utf8("<"@) == seq![0x3cu8],
        utf8("::"@) == seq![0x3au8, 0x3au8],
        utf8(">"@) == seq![0x3eu8],
        utf8(" // "@) == seq![0x20u8, 0x2fu8, 0x2fu8, 0x20u8],
        utf8(" "@) == seq![0x20u8],
        utf8("?"@) == seq![0x3fu8],
        utf8("$"@) == seq![0x24u8],
        utf8(","@) == seq![0x2cu8],
        utf8("u"@) == seq![0x75u8],
        utf8("["@) == seq![0x5bu8],
        utf8("]"@) == seq![0x5du8],
        utf8("."@) == seq![0x2eu8],
        utf8("-"@) == seq![0x2du8],
        utf8(", "@) == seq![0x2cu8, 0x20u8],
        utf8("\n"@) == seq![0x0au8],
{
    lemma_less();
    lemma_colons();
    lemma_greater();
    lemma_comment_mark();
    lemma_space();
    lemma_question();
    lemma_dollar();
    lemma_comma();
    lemma_small_u();
    lemma_square_open();
    lemma_square_close();
    lemma_dot();
    lemma_dash();
    lemma_list_mark();
    lemma_line_feed();
}

/// The bytes of the tags.
pub proof fn lemma_tags()
    ensures
        utf8("id"@) == seq![0x69u8, 0x64u8],
        utf8("noninline"@) == seq![
            0x6eu8, 0x6fu8, 0x6eu8, 0x69u8, 0x6eu8, 0x6cu8, 0x69u8, 0x6eu8, 0x65u8,
        ],
        utf8("relation"@) == seq![0x72u8, 0x65u8, 0x6cu8, 0x61u8, 0x74u8, 0x69u8, 0x6fu8, 0x6eu8],
{
    lemma_tag_id();
    lemma_tag_noninline();
    lemma_tag_relation();
}

/// The bytes of the keywords that start a line.
pub proof fn lemma_keywords()
    ensures
        utf8("LAYOUT "@) == seq![0x4cu8, 0x41u8, 0x59u8, 0x4fu8, 0x55u8, 0x54u8, 0x20u8],
        utf8("BUILD "@) == seq![0x42u8, 0x55u8, 0x49u8, 0x4cu8, 0x44u8, 0x20u8],
        utf8("COLUMNS\n"@) == seq![0x43u8, 0x4fu8, 0x4cu8, 0x55u8, 0x4du8, 0x4eu8, 0x53u8, 0x0au8],
        utf8("COMMENT"@) == seq![0x43u8, 0x4fu8, 0x4du8, 0x4du8, 0x45u8, 0x4eu8, 0x54u8],
        utf8("LAYOUT"@) == seq![0x4cu8, 0x41u8, 0x59u8, 0x4fu8, 0x55u8, 0x54u8],
        utf8("BUILD"@) == seq![0x42u8, 0x55u8, 0x49u8, 0x4cu8, 0x44u8],
{
    lemma_layout_start();
    lemma_build_start();
    lemma_header();
    lemma_comment_word();
    lemma_layout_word();
    lemma_build_word();
}

} // verus!

//! Writing a document.
use crate::file::{copy_items, DbdFile, Definition, DefinitionView, RawDbdFile, RawDefinition};
use crate::grammar::{Build, DOLLAR};
use crate::number::{put, put_dec, put_hex};
use crate::parser::has_word;
use crate::text::utf8;
use crate::types::{
    copy_text, lemma_views_push, opt_key, opt_utf8, views, Entry, ForeignKey, Layout, RawColumn,
    RawEntry, RawType, Type,
};
use crate::version::{Version, VersionRange};
use crate::written::{
    array_length, array_text, build_line, build_text, builds_of, builds_text, column_of,
    column_text, columns_of, columns_text, comment_text, definition_text, definitions_text,
    document_text, element_type, entries_text, entry_text, key_of, key_text, kind_word, layout_line,
    layout_text, layouts_text, needs_block, opt_key_text, raw_definition_of, raw_entries_of,
    raw_entry_of, scalar_type, storage_of, tag_words, tags_text, unresolve, unsigned_of,
    version_text, width_of, width_text, with_columns_of,
};
use vstd::prelude::*;
use vstd::string::StringSliceAdditionalSpecFns;

verus! {

/// What can be written as the text of a document.
pub trait Document {
    /// The bytes of the text.
    spec fn text(&self) -> Seq<u8>;

    /// The text.
    fn write(&self) -> (s: String)
        ensures
            utf8(s@) == self.text(),
    ;
}

fn put_comment(out: &mut String, comment: &Option<String>)
    ensures
        utf8(final(out)@) == utf8(old(out)@) + comment_text(opt_utf8(*comment)),
{
    match comment {
        Some(c) => {
            put(out, " // ");
            put(out, c.as_str());
            assert(utf8(out@) =~= utf8(old(out)@) + (utf8(" // "@) + utf8(c@)));
        },
        None => {
            assert(utf8(out@) =~= utf8(old(out)@) + Seq::<u8>::empty());
        },
    }
}

fn put_key(out: &mut String, key: &Option<ForeignKey>)
    ensures
        utf8(final(out)@) == utf8(old(out)@) + opt_key_text(opt_key(*key)),
{
    match key {
        Some(k) => {
            put(out, "<");
            put(out, k.database.as_str());
            put(out, "::");
            put(out, k.column.as_str());
            put(out, ">");
            assert(utf8(out@) =~= utf8(old(out)@) + key_text(k@));
        },
        None => {
            assert(utf8(out@) =~= utf8(old(out)@) + Seq::<u8>::empty());
        },
    }
}

fn kind_str(ty: RawType) -> (r: &'static str)
    ensures
        utf8(r@) == kind_word(ty),
{
    match ty {
        RawType::Int => "int",
        RawType::Float => "float",
        RawType::LocString => "locstring",
        RawType::String => "string",
    }
}

fn put_column(out: &mut String, c: &RawColumn)
    ensures
        utf8(final(out)@) == utf8(old(out)@) + column_text(c@),
{
    put(out, kind_str(c.ty));
    put(out, " ");
    put(out, c.name.as_str());
    put_key(out, &c.foreign_key);
    let ghost mark = if c.verified {
        Seq::<u8>::empty()
    } else {
        utf8("?"@)
    };
    let ghost before = utf8(out@);
    if !c.verified {
        put(out, "?");
    }
    assert(utf8(out@) =~= before + mark);
    put_comment(out, &c.comment);
    assert(utf8(out@) =~= utf8(old(out)@) + column_text(c@));
}

/// Whether an entry of this name gets a block of tags in any case.
fn block_needed(name: &String) -> (r: bool)
    ensures
        r == needs_block(utf8(name@)),
{
    reveal(needs_block);
    let bytes = name.as_str().as_bytes();
    let n = bytes.len();
    assert(bytes@.subrange(0, n as int) =~= bytes@);
    n == 0 || bytes[0] == DOLLAR || has_word(bytes, 0, n, "COMMENT") || has_word(
        bytes,
        0,
        n,
        "LAYOUT",
    ) || has_word(bytes, 0, n, "BUILD")
}

#[verifier::rlimit(30)]
fn put_tags(out: &mut String, e: &RawEntry)
    ensures
        utf8(final(out)@) == utf8(old(out)@) + tags_text(e@),
{
    if !(e.has_any_tag() || block_needed(&e.name)) {
        assert(utf8(out@) =~= utf8(old(out)@) + Seq::<u8>::empty());
        return ;
    }
    let noninline = !e.inline;
    put(out, "$");
    let ghost s0 = utf8(out@);
    if e.primary_key {
        put(out, "id");
        if noninline || e.relation {
            put(out, ",");
        }
    }
    let ghost s1 = utf8(out@);
    if noninline {
        put(out, "noninline");
        if e.relation {
            put(out, ",");
        }
    }
    let ghost s2 = utf8(out@);
    if e.relation {
        put(out, "relation");
    }
    let ghost s3 = utf8(out@);
    put(out, "$");
    proof {
        let words = tag_words(e.primary_key, noninline, e.relation);
        assert(s3 =~= s0 + words);
        assert(utf8(out@) =~= utf8(old(out)@) + (utf8("$"@) + words + utf8("$"@)));
    }
}

fn put_width(out: &mut String, width: Option<u8>, unsigned: bool)
    ensures
        utf8(final(out)@) == utf8(old(out)@) + width_text(width, unsigned),
{
    match width {
        Some(w) => {
            put(out, "<");
            let ghost s0 = utf8(out@);
            if unsigned {
                put(out, "u");
            }
            let ghost mark = if unsigned {
                utf8("u"@)
            } else {
                Seq::<u8>::empty()
            };
            assert(utf8(out@) =~= s0 + mark);
            put_dec(out, w as u64);
            put(out, ">");
            assert(utf8(out@) =~= utf8(old(out)@) + width_text(width, unsigned));
        },
        None => {
            assert(utf8(out@) =~= utf8(old(out)@) + Seq::<u8>::empty());
        },
    }
}

fn put_array(out: &mut String, length: Option<usize>)
    ensures
        utf8(final(out)@) == utf8(old(out)@) + array_text(length),
{
    match length {
        Some(n) => {
            put(out, "[");
            put_dec(out, n as u64);
            put(out, "]");
            assert(utf8(out@) =~= utf8(old(out)@) + array_text(length));
        },
        None => {
            assert(utf8(out@) =~= utf8(old(out)@) + Seq::<u8>::empty());
        },
    }
}

fn put_entry(out: &mut String, e: &RawEntry)
    ensures
        utf8(final(out)@) == utf8(old(out)@) + entry_text(e@),
{
    put_tags(out, e);
    put(out, e.name.as_str());
    put_width(out, e.integer_width, e.unsigned);
    put_array(out, e.array_size);
    put_comment(out, &e.comment);
    assert(utf8(out@) =~= utf8(old(out)@) + entry_text(e@));
}

fn put_version(out: &mut String, v: &Version)
    ensures
        utf8(final(out)@) == utf8(old(out)@) + version_text(*v),
{
    put_dec(out, v.major as u64);
    put(out, ".");
    put_dec(out, v.minor as u64);
    put(out, ".");
    put_dec(out, v.patch as u64);
    put(out, ".");
    put_dec(out, v.build as u64);
    assert(utf8(out@) =~= utf8(old(out)@) + version_text(*v));
}

fn put_build(out: &mut String, b: Build)
    ensures
        utf8(final(out)@) == utf8(old(out)@) + build_text(b),
{
    match b {
        Build::Exact(v) => {
            put_version(out, &v);
        },
        Build::Range(r) => {
            put_version(out, &r.from);
            put(out, "-");
            put_version(out, &r.to);
            assert(utf8(out@) =~= utf8(old(out)@) + build_text(b));
        },
    }
}

/// Appends the `BUILD` line of a definition.
fn put_build_line(out: &mut String, ranges: &Vec<VersionRange>, versions: &Vec<Version>)
    ensures
        utf8(final(out)@) == utf8(old(out)@) + build_line(ranges@, versions@),
{
    let ghost items = builds_of(ranges@, versions@);
    let ghost start = utf8(out@);
    if ranges.len() == 0 && versions.len() == 0 {
        assert(utf8(out@) =~= start + Seq::<u8>::empty());
        return ;
    }
    put(out, "BUILD ");
    let ghost head = utf8(out@);
    let mut i: usize = 0;
    assert(items.subrange(0, 0) =~= Seq::<Build>::empty());
    assert(head =~= head + builds_text(items.subrange(0, 0)));
    while i < ranges.len()
        invariant
            i <= ranges@.len(),
            items == builds_of(ranges@, versions@),
            utf8(out@) == head + builds_text(items.subrange(0, i as int)),
        decreases ranges@.len() - i,
    {
        let b = Build::Range(ranges[i]);
        assert(b == items[i as int]);
        let ghost done = items.subrange(0, i as int);
        let ghost next = items.subrange(0, i + 1);
        assert(next.drop_last() =~= done);
        if i > 0 {
            put(out, ", ");
        }
        put_build(out, b);
        proof {
            if i > 0 {
                assert(utf8(out@) =~= head + (builds_text(done) + utf8(", "@) + build_text(b)));
            } else {
                assert(builds_text(done) =~= Seq::<u8>::empty());
                assert(utf8(out@) =~= head + build_text(b));
            }
        }
        i += 1;
    }
    let mut k: usize = 0;
    while k < versions.len()
        invariant
            k <= versions@.len(),
            i == ranges@.len(),
            items == builds_of(ranges@, versions@),
            utf8(out@) == head + builds_text(items.subrange(0, i + k)),
        decreases versions@.len() - k,
    {
        let b = Build::Exact(versions[k]);
        assert(b == items[i + k]);
        let ghost done = items.subrange(0, i + k);
        let ghost next = items.subrange(0, i + k + 1);
        assert(next.drop_last() =~= done);
        if i > 0 || k > 0 {
            put(out, ", ");
        }
        put_build(out, b);
        proof {
            if i > 0 || k > 0 {
                assert(utf8(out@) =~= head + (builds_text(done) + utf8(", "@) + build_text(b)));
            } else {
                assert(builds_text(done) =~= Seq::<u8>::empty());
                assert(utf8(out@) =~= head + build_text(b));
            }
        }
        k += 1;
    }
    assert(items.subrange(0, i + k) =~= items);
    put(out, "\n");
    assert(utf8(out@) =~= start + (utf8("BUILD "@) + builds_text(items) + utf8("\n"@)));
}

/// Appends the `LAYOUT` line of a definition.
fn put_layout_line(out: &mut String, layouts: &Vec<Layout>)
    ensures
        utf8(final(out)@) == utf8(old(out)@) + layout_line(layouts@),
{
    let ghost start = utf8(out@);
    if layouts.len() == 0 {
        assert(utf8(out@) =~= start + Seq::<u8>::empty());
        return ;
    }
    put(out, "LAYOUT ");
    let ghost head = utf8(out@);
    let mut i: usize = 0;
    assert(layouts@.subrange(0, 0) =~= Seq::<Layout>::empty());
    assert(head =~= head + layouts_text(layouts@.subrange(0, 0)));
    while i < layouts.len()
        invariant
            i <= layouts@.len(),
            utf8(out@) == head + layouts_text(layouts@.subrange(0, i as int)),
        decreases layouts@.len() - i,
    {
        let ghost done = layouts@.subrange(0, i as int);
        let ghost next = layouts@.subrange(0, i + 1);
        assert(next.drop_last() =~= done);
        if i > 0 {
            put(out, ", ");
        }
        put_hex(out, layouts[i].inner, 8);
        proof {
            let l = layout_text(layouts@[i as int]);
            if i > 0 {
                assert(utf8(out@) =~= head + (layouts_text(done) + utf8(", "@) + l));
            } else {
                assert(layouts_text(done) =~= Seq::<u8>::empty());
                assert(utf8(out@) =~= head + l);
            }
        }
        i += 1;
    }
    assert(layouts@.subrange(0, layouts@.len() as int) =~= layouts@);
    put(out, "\n");
    assert(utf8(out@) =~= start + (utf8("LAYOUT "@) + layouts_text(layouts@) + utf8("\n"@)));
}

fn put_definition(out: &mut String, d: &RawDefinition)
    ensures
        utf8(final(out)@) == utf8(old(out)@) + definition_text(d@),
{
    let ghost start = utf8(out@);
    put_layout_line(out, &d.layouts);
    put_build_line(out, &d.version_ranges, &d.versions);
    let ghost head = utf8(out@);
    assert(head =~= start + (layout_line(d@.layouts) + build_line(
        d@.version_ranges,
        d@.versions,
    )));
    let ghost entries = views(d.entries@);
    let mut i: usize = 0;
    assert(entries.subrange(0, 0) =~= Seq::empty());
    assert(head =~= head + entries_text(entries.subrange(0, 0)));
    while i < d.entries.len()
        invariant
            i <= d.entries@.len(),
            entries == views(d.entries@),
            utf8(out@) == head + entries_text(entries.subrange(0, i as int)),
        decreases d.entries@.len() - i,
    {
        let ghost done = entries.subrange(0, i as int);
        let ghost next = entries.subrange(0, i + 1);
        assert(next.drop_last() =~= done);
        put_entry(out, &d.entries[i]);
        put(out, "\n");
        assert(utf8(out@) =~= head + (entries_text(done) + entry_text(entries[i as int]) + utf8(
            "\n"@,
        )));
        i += 1;
    }
    assert(entries.subrange(0, entries.len() as int) =~= entries);
    put(out, "\n");
    assert(utf8(out@) =~= start + definition_text(d@));
}

impl Document for RawDbdFile {
    open spec fn text(&self) -> Seq<u8> {
        document_text(self@)
    }

    fn write(&self) -> (s: String) {
        let mut out = String::new();
        put(&mut out, "COLUMNS\n");
        let ghost head = utf8(out@);
        assert(utf8(Seq::<char>::empty()) =~= Seq::<u8>::empty());
        assert(head =~= utf8("COLUMNS\n"@));
        let ghost columns = views(self.columns@);
        let mut i: usize = 0;
        assert(columns.subrange(0, 0) =~= Seq::empty());
        assert(head =~= head + columns_text(columns.subrange(0, 0)));
        while i < self.columns.len()
            invariant
                i <= self.columns@.len(),
                columns == views(self.columns@),
                utf8(out@) == head + columns_text(columns.subrange(0, i as int)),
            decreases self.columns@.len() - i,
        {
            let ghost done = columns.subrange(0, i as int);
            let ghost next = columns.subrange(0, i + 1);
            assert(next.drop_last() =~= done);
            put_column(&mut out, &self.columns[i]);
            put(&mut out, "\n");
            assert(utf8(out@) =~= head + (columns_text(done) + column_text(columns[i as int])
                + utf8("\n"@)));
            i += 1;
        }
        assert(columns.subrange(0, columns.len() as int) =~= columns);
        put(&mut out, "\n");
        let ghost middle = utf8(out@);
        let ghost definitions = views(self.definitions@);
        let mut k: usize = 0;
        assert(definitions.subrange(0, 0) =~= Seq::empty());
        assert(middle =~= middle + definitions_text(definitions.subrange(0, 0)));
        while k < self.definitions.len()
            invariant
                k <= self.definitions@.len(),
                definitions == views(self.definitions@),
                utf8(out@) == middle + definitions_text(definitions.subrange(0, k as int)),
            decreases self.definitions@.len() - k,
        {
            let ghost done = definitions.subrange(0, k as int);
            let ghost next = definitions.subrange(0, k + 1);
            assert(next.drop_last() =~= done);
            put_definition(&mut out, &self.definitions[k]);
            assert(utf8(out@) =~= middle + (definitions_text(done) + definition_text(
                definitions[k as int],
            )));
            k += 1;
        }
        assert(definitions.subrange(0, definitions.len() as int) =~= definitions);
        assert(utf8(out@) =~= document_text(self@));
        out
    }
}

/// The column and the use of it that a resolved entry stands for.
fn raw_parts(e: &Entry) -> (r: (RawColumn, RawEntry))
    ensures
        r.0@ == column_of(e@),
        r.1@ == raw_entry_of(e@),
{
    let (element, array_size) = match &e.ty {
        Type::Array { ty, width } => (&**ty, Some(*width)),
        other => (other, None),
    };
    assert(element@ == element_type(e.ty@));
    assert(array_size == array_length(e.ty@));
    let (scalar, key) = match element {
        Type::ForeignKey { ty, key } => (&**ty, Some(key.clone())),
        other => (other, None),
    };
    assert(scalar@ == scalar_type(e.ty@));
    assert(opt_key(key) == key_of(e.ty@));
    let (kind, width, unsigned) = match scalar {
        Type::Int8 => (RawType::Int, Some(8u8), false),
        Type::Int16 => (RawType::Int, Some(16u8), false),
        Type::Int32 => (RawType::Int, Some(32u8), false),
        Type::Int64 => (RawType::Int, Some(64u8), false),
        Type::UInt8 => (RawType::Int, Some(8u8), true),
        Type::UInt16 => (RawType::Int, Some(16u8), true),
        Type::UInt32 => (RawType::Int, Some(32u8), true),
        Type::UInt64 => (RawType::Int, Some(64u8), true),
        Type::Float => (RawType::Float, None, false),
        Type::LocString => (RawType::LocString, None, false),
        Type::String => (RawType::String, None, false),
        Type::ForeignKey { .. } => (RawType::Int, None, false),
        Type::Array { .. } => (RawType::Int, None, false),
    };
    assert(kind == storage_of(e.ty@));
    assert(width == width_of(e.ty@));
    assert(unsigned == unsigned_of(e.ty@));
    (
        RawColumn {
            name: e.name.clone(),
            ty: kind,
            foreign_key: key,
            verified: e.verified,
            comment: copy_text(&e.column_comment),
        },
        RawEntry {
            name: e.name.clone(),
            comment: copy_text(&e.comment),
            integer_width: width,
            array_size,
            unsigned,
            primary_key: e.primary_key,
            inline: e.inline,
            relation: e.relation,
        },
    )
}

/// Adds to `file` the definition that resolves to `d`, and the columns
/// that its entries use.
fn add_raw_definition(file: &mut RawDbdFile, d: &Definition)
    ensures
        final(file)@.columns == with_columns_of(old(file)@.columns, d@.entries),
        final(file)@.definitions == old(file)@.definitions.push(raw_definition_of(d@)),
        final(file).name == old(file).name,
{
    let ghost resolved = views(d.entries@);
    let ghost columns = file@.columns;
    let mut entries: Vec<RawEntry> = Vec::with_capacity(d.entries.len());
    let mut i: usize = 0;
    assert(resolved.subrange(0, 0) =~= Seq::empty());
    assert(views(entries@) =~= raw_entries_of(resolved.subrange(0, 0)));
    while i < d.entries.len()
        invariant
            i <= d.entries@.len(),
            resolved == views(d.entries@),
            views(entries@) == raw_entries_of(resolved.subrange(0, i as int)),
            file@.columns == with_columns_of(columns, resolved.subrange(0, i as int)),
            file@.definitions == old(file)@.definitions,
            file.name == old(file).name,
        decreases d.entries@.len() - i,
    {
        let ghost done = resolved.subrange(0, i as int);
        let ghost next = resolved.subrange(0, i + 1);
        assert(next.drop_last() =~= done);
        let (column, entry) = raw_parts(&d.entries[i]);
        file.add_column(column);
        proof {
            lemma_views_push(entries@, entry);
            assert(raw_entries_of(next) =~= raw_entries_of(done).push(raw_entry_of(next.last())));
        }
        entries.push(entry);
        i += 1;
    }
    assert(resolved.subrange(0, i as int) =~= resolved);
    let raw = RawDefinition {
        versions: copy_items(&d.versions),
        version_ranges: copy_items(&d.version_ranges),
        layouts: copy_items(&d.layouts),
        entries,
    };
    file.add_database(raw);
}

impl DbdFile {
    /// The document that resolves to this one: each entry as a use of a
    /// column, and the columns that the entries use, in the order in which
    /// they are first used.
    pub fn to_raw(&self) -> (r: RawDbdFile)
        ensures
            r@ == unresolve(self@),
    {
        let mut file = RawDbdFile::empty(self.name.clone());
        let ghost resolved = views(self.definitions@);
        let mut i: usize = 0;
        assert(resolved.subrange(0, 0) =~= Seq::empty());
        assert(file@.columns =~= columns_of(resolved.subrange(0, 0)));
        assert(file@.definitions =~= resolved.subrange(0, 0).map_values(
            |d: DefinitionView| raw_definition_of(d),
        ));
        while i < self.definitions.len()
            invariant
                i <= self.definitions@.len(),
                resolved == views(self.definitions@),
                file.name@ == self.name@,
                file@.columns == columns_of(resolved.subrange(0, i as int)),
                file@.definitions == resolved.subrange(0, i as int).map_values(
                    |d: DefinitionView| raw_definition_of(d),
                ),
            decreases self.definitions@.len() - i,
        {
            let ghost done = resolved.subrange(0, i as int);
            let ghost next = resolved.subrange(0, i + 1);
            assert(next.drop_last() =~= done);
            add_raw_definition(&mut file, &self.definitions[i]);
            assert(file@.definitions =~= next.map_values(
                |d: DefinitionView| raw_definition_of(d),
            ));
            i += 1;
        }
        assert(resolved.subrange(0, i as int) =~= resolved);
        file
    }
}

impl Document for DbdFile {
    open spec fn text(&self) -> Seq<u8> {
        document_text(unresolve(self@))
    }

    fn write(&self) -> (s: String) {
        self.to_raw().write()
    }
}

/// The text of a document, as read or resolved. Reading the text gives the
/// document back.
pub fn write_to_file<D: Document>(file: &D) -> (s: String)
    ensures
        utf8(s@) == file.text(),
{
    file.write()
}

} // verus!

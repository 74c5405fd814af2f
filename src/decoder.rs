//! The decoder object of the generated client: one function per type that
//! answers carry.
use vstd::prelude::*;
use vstd::string::*;
use crate::schema::{CustomTypeKind, EnumKind, EnumField, UnitField, StructField, TupleField, strip_raw};
use crate::naming::{IdentMap, lookup, views};
use crate::reach::{mentions, kind_mentions, variant_mentions};
use crate::typescript::{codec, fmt_ty, all_named, repr_literal, repr_method, enum_repr_value, enum_repr_ty,
    enum_tags, tags_from, decimal, fmt_u128, tuple_codec, fmt_tuple};
use crate::doc::{doc_comment, write_doc_comments};
use crate::interface::{lemma_concat_push, concat_all, kind_named};

verus! {

/// `switch (num)` over the cases, failing on any other tag.
pub open spec fn switch_block(ident: Seq<char>, items: Seq<char>) -> Seq<char> {
    "switch (num) {\n"@ + items + "default: throw use.enumErr(\""@ + ident + "\", num);\n}\n"@
}

pub open spec fn struct_reads(fields: Seq<StructField>, names: Seq<(String, String)>) -> Seq<char> {
    concat_all(fields.map_values(|f: StructField|
        doc_comment(f.doc@) + strip_raw(f.name.0@) + ": "@ + codec(f.ty, "struct"@, names) + "(),\n"@))
}

pub open spec fn tuple_reads(fields: Seq<TupleField>, names: Seq<(String, String)>) -> Seq<char> {
    concat_all(fields.map(|i: int, f: TupleField|
        doc_comment(f.doc@) + " "@ + decimal(i as nat) + ": "@ + codec(f.ty, "struct"@, names) + "(),\n"@))
}

pub open spec fn variant_reads(kind: EnumKind, names: Seq<(String, String)>) -> Seq<char> {
    match kind {
        EnumKind::Unit => Seq::empty(),
        EnumKind::Struct(fs) => struct_reads(fs@, names),
        EnumKind::Tuple(fs) => tuple_reads(fs@, names),
    }
}

pub open spec fn unit_cases(ident: Seq<char>, fields: Seq<UnitField>) -> Seq<char> {
    concat_all(fields.map_values(|f: UnitField|
        "case "@ + repr_literal(f.value) + ": return "@ + ident + "."@ + strip_raw(f.name.0@) + ";\n"@))
}

pub open spec fn enum_cases(fields: Seq<EnumField>, tags: Seq<Seq<char>>, names: Seq<(String, String)>) -> Seq<char> {
    concat_all(fields.map(|i: int, v: EnumField|
        "case "@ + tags[i] + ": return {\ntype: \""@ + strip_raw(v.name.0@) + "\",\n"@
            + variant_reads(v.kind, names) + "};\n"@))
}

/// How the tag of an enum is read: by its declared width, or as a short
/// length when it has none.
pub open spec fn enum_header(first: EnumField) -> Seq<char> {
    match first.index {
        None => "const num = d.len_u15();\n"@,
        Some(r) => "const num = d."@ + repr_method(r) + "();\n"@,
    }
}

pub open spec fn decoder_body(ident: Seq<char>, kind: CustomTypeKind, names: Seq<(String, String)>) -> Seq<char> {
    match kind {
        CustomTypeKind::Unit(u) => "const num = d."@ + repr_method(u.fields@[0].value) + "();\n"@
            + switch_block(ident, unit_cases(ident, u.fields@)),
        CustomTypeKind::Enum(c) => enum_header(c.fields@[0])
            + switch_block(ident, enum_cases(c.fields@, tags_from(c.fields@, 0, 0), names)),
        CustomTypeKind::Struct(c) => "return {\n"@ + struct_reads(c.fields@, names) + "}\n"@,
        CustomTypeKind::Tuple(c) => "return "@ + tuple_codec(c.fields@, "struct"@, names) + "();\n"@,
    }
}

/// The decoder function of the type named `ident`.
pub open spec fn decoder_fn(ident: Seq<char>, kind: CustomTypeKind, names: Seq<(String, String)>) -> Seq<char> {
    ident + "(d: use.Decoder): "@ + ident + " {\n"@ + decoder_body(ident, kind, names) + "},\n"@
}

/// An enum or C-like enum has a first variant to take its width from; an
/// enum has fewer variants than its tag count can reach.
pub open spec fn kind_decodable(kind: CustomTypeKind) -> bool {
    match kind {
        CustomTypeKind::Unit(u) => u.fields@.len() > 0,
        CustomTypeKind::Enum(c) => 0 < c.fields@.len() < 0x1_0000_0000,
        _ => true,
    }
}

fn struct_reads_text(fields: &Vec<StructField>, ident_map: &IdentMap) -> (r: String)
    requires
        forall|i: int| 0 <= i < fields@.len() ==> all_named(#[trigger] fields@[i].ty, ident_map.entries()),
    ensures
        r@ == struct_reads(fields@, ident_map.entries()),
{
    let ghost names = ident_map.entries();
    let ghost g = |f: StructField| doc_comment(f.doc@) + strip_raw(f.name.0@) + ": "@ + codec(f.ty, "struct"@, names) + "(),\n"@;
    let mut out = String::new();
    let mut i: usize = 0;
    while i < fields.len()
        invariant
            i <= fields@.len(),
            names == ident_map.entries(),
            forall|j: int| 0 <= j < fields@.len() ==> all_named(#[trigger] fields@[j].ty, names),
            g == |f: StructField| doc_comment(f.doc@) + strip_raw(f.name.0@) + ": "@ + codec(f.ty, "struct"@, names) + "(),\n"@,
            out@ == concat_all(fields@.subrange(0, i as int).map_values(g)),
        decreases fields@.len() - i,
    {
        let f = &fields[i];
        out.append(write_doc_comments(f.doc.as_str()).as_str());
        out.append(f.name.unraw());
        out.append(": ");
        out.append(fmt_ty(&f.ty, "struct", ident_map).as_str());
        out.append("(),\n");
        proof {
            assert(fields@.subrange(0, i + 1).map_values(g) =~= fields@.subrange(0, i as int).map_values(g).push(g(fields@[i as int])));
            lemma_concat_push(fields@.subrange(0, i as int).map_values(g), g(fields@[i as int]));
        }
        i = i + 1;
    }
    assert(fields@.subrange(0, fields@.len() as int) =~= fields@);
    out
}

fn tuple_reads_text(fields: &Vec<TupleField>, ident_map: &IdentMap) -> (r: String)
    requires
        forall|i: int| 0 <= i < fields@.len() ==> all_named(#[trigger] fields@[i].ty, ident_map.entries()),
    ensures
        r@ == tuple_reads(fields@, ident_map.entries()),
{
    let ghost names = ident_map.entries();
    let ghost g = |i: int, f: TupleField| doc_comment(f.doc@) + " "@ + decimal(i as nat) + ": "@ + codec(f.ty, "struct"@, names) + "(),\n"@;
    let mut out = String::new();
    let mut i: usize = 0;
    while i < fields.len()
        invariant
            i <= fields@.len(),
            names == ident_map.entries(),
            forall|j: int| 0 <= j < fields@.len() ==> all_named(#[trigger] fields@[j].ty, names),
            g == |i: int, f: TupleField| doc_comment(f.doc@) + " "@ + decimal(i as nat) + ": "@ + codec(f.ty, "struct"@, names) + "(),\n"@,
            out@ == concat_all(fields@.subrange(0, i as int).map(g)),
        decreases fields@.len() - i,
    {
        let f = &fields[i];
        out.append(write_doc_comments(f.doc.as_str()).as_str());
        out.append(" ");
        out.append(fmt_u128(i as u128).as_str());
        out.append(": ");
        out.append(fmt_ty(&f.ty, "struct", ident_map).as_str());
        out.append("(),\n");
        proof {
            assert(fields@.subrange(0, i + 1).map(g) =~= fields@.subrange(0, i as int).map(g).push(g(i as int, fields@[i as int])));
            lemma_concat_push(fields@.subrange(0, i as int).map(g), g(i as int, fields@[i as int]));
        }
        i = i + 1;
    }
    assert(fields@.subrange(0, fields@.len() as int) =~= fields@);
    out
}

fn variant_reads_text(kind: &EnumKind, ident_map: &IdentMap) -> (r: String)
    requires
        forall|p: Seq<char>| #[trigger] variant_mentions(*kind, p) ==> lookup(ident_map.entries(), p) is Some,
    ensures
        r@ == variant_reads(*kind, ident_map.entries()),
{
    let ghost names = ident_map.entries();
    match kind {
        EnumKind::Unit => String::new(),
        EnumKind::Struct(fs) => {
            proof {
                assert forall|p: Seq<char>| #[trigger] crate::reach::struct_fields_mention(fs@, p) implies lookup(names, p) is Some by {
                    assert(variant_mentions(*kind, p));
                }
                lemma_struct_named(fs@, names);
            }
            struct_reads_text(fs, ident_map)
        },
        EnumKind::Tuple(fs) => {
            proof {
                assert forall|p: Seq<char>| #[trigger] crate::reach::tuple_fields_mention(fs@, p) implies lookup(names, p) is Some by {
                    assert(variant_mentions(*kind, p));
                }
                lemma_tuple_named(fs@, names);
            }
            tuple_reads_text(fs, ident_map)
        },
    }
}

pub proof fn lemma_struct_named(fs: Seq<StructField>, names: Seq<(String, String)>)
    requires
        forall|p: Seq<char>| #[trigger] crate::reach::struct_fields_mention(fs, p) ==> lookup(names, p) is Some,
    ensures
        forall|i: int| 0 <= i < fs.len() ==> all_named(#[trigger] fs[i].ty, names),
{
    assert forall|i: int| 0 <= i < fs.len() implies all_named(#[trigger] fs[i].ty, names) by {
        assert forall|p: Seq<char>| #[trigger] mentions(fs[i].ty, p) implies lookup(names, p) is Some by {
            assert(crate::reach::struct_fields_mention(fs, p));
        }
    }
}

pub proof fn lemma_tuple_named(fs: Seq<TupleField>, names: Seq<(String, String)>)
    requires
        forall|p: Seq<char>| #[trigger] crate::reach::tuple_fields_mention(fs, p) ==> lookup(names, p) is Some,
    ensures
        forall|i: int| 0 <= i < fs.len() ==> all_named(#[trigger] fs[i].ty, names),
{
    assert forall|i: int| 0 <= i < fs.len() implies all_named(#[trigger] fs[i].ty, names) by {
        assert forall|p: Seq<char>| #[trigger] mentions(fs[i].ty, p) implies lookup(names, p) is Some by {
            assert(crate::reach::tuple_fields_mention(fs, p));
        }
    }
}

fn unit_cases_text(ident: &str, fields: &Vec<UnitField>) -> (r: String)
    ensures
        r@ == unit_cases(ident@, fields@),
{
    let ghost g = |f: UnitField| "case "@ + repr_literal(f.value) + ": return "@ + ident@ + "."@ + strip_raw(f.name.0@) + ";\n"@;
    let mut out = String::new();
    let mut i: usize = 0;
    while i < fields.len()
        invariant
            i <= fields@.len(),
            g == |f: UnitField| "case "@ + repr_literal(f.value) + ": return "@ + ident@ + "."@ + strip_raw(f.name.0@) + ";\n"@,
            out@ == concat_all(fields@.subrange(0, i as int).map_values(g)),
        decreases fields@.len() - i,
    {
        let f = &fields[i];
        out.append("case ");
        out.append(enum_repr_value(&f.value).as_str());
        out.append(": return ");
        out.append(ident);
        out.append(".");
        out.append(f.name.unraw());
        out.append(";\n");
        proof {
            assert(fields@.subrange(0, i + 1).map_values(g) =~= fields@.subrange(0, i as int).map_values(g).push(g(fields@[i as int])));
            lemma_concat_push(fields@.subrange(0, i as int).map_values(g), g(fields@[i as int]));
        }
        i = i + 1;
    }
    assert(fields@.subrange(0, fields@.len() as int) =~= fields@);
    out
}

fn enum_cases_text(fields: &Vec<EnumField>, ident_map: &IdentMap) -> (r: String)
    requires
        fields@.len() < 0x1_0000_0000,
        forall|i: int, p: Seq<char>| 0 <= i < fields@.len() && #[trigger] variant_mentions(fields@[i].kind, p)
            ==> lookup(ident_map.entries(), p) is Some,
    ensures
        r@ == enum_cases(fields@, tags_from(fields@, 0, 0), ident_map.entries()),
{
    let ghost names = ident_map.entries();
    let tags = enum_tags(fields);
    let ghost tv = tags_from(fields@, 0, 0);
    let ghost g = |i: int, v: EnumField| "case "@ + tv[i] + ": return {\ntype: \""@ + strip_raw(v.name.0@) + "\",\n"@
        + variant_reads(v.kind, names) + "};\n"@;
    let mut out = String::new();
    let mut i: usize = 0;
    proof { lemma_tags_len(fields@, 0, 0); }
    while i < fields.len()
        invariant
            i <= fields@.len(),
            names == ident_map.entries(),
            views(tags@) == tv,
            tv.len() == fields@.len(),
            forall|j: int, p: Seq<char>| 0 <= j < fields@.len() && #[trigger] variant_mentions(fields@[j].kind, p)
                ==> lookup(names, p) is Some,
            g == |i: int, v: EnumField| "case "@ + tv[i] + ": return {\ntype: \""@ + strip_raw(v.name.0@) + "\",\n"@
                + variant_reads(v.kind, names) + "};\n"@,
            out@ == concat_all(fields@.subrange(0, i as int).map(g)),
        decreases fields@.len() - i,
    {
        let v = &fields[i];
        let inner = variant_reads_text(&v.kind, ident_map);
        out.append("case ");
        out.append(tags[i].as_str());
        out.append(": return {\ntype: \"");
        out.append(v.name.unraw());
        out.append("\",\n");
        out.append(inner.as_str());
        out.append("};\n");
        proof {
            assert(tv[i as int] == tags@[i as int]@);
            assert(fields@.subrange(0, i + 1).map(g) =~= fields@.subrange(0, i as int).map(g).push(g(i as int, fields@[i as int])));
            lemma_concat_push(fields@.subrange(0, i as int).map(g), g(i as int, fields@[i as int]));
        }
        i = i + 1;
    }
    assert(fields@.subrange(0, fields@.len() as int) =~= fields@);
    out
}

pub proof fn lemma_tags_len(fields: Seq<EnumField>, i: int, next: int)
    requires
        0 <= i <= fields.len(),
    ensures
        tags_from(fields, i, next).len() == fields.len() - i,
    decreases fields.len() - i,
{
    if i < fields.len() {
        match fields[i].index {
            Some(r) => lemma_tags_len(fields, i + 1, r.value() + 1),
            None => lemma_tags_len(fields, i + 1, next + 1),
        }
    }
}

fn switch_text(ident: &str, items: &str) -> (r: String)
    ensures
        r@ == switch_block(ident@, items@),
{
    let mut out = String::from_str("switch (num) {\n");
    out.append(items);
    out.append("default: throw use.enumErr(\"");
    out.append(ident);
    out.append("\", num);\n}\n");
    out
}

/// The decoder function of the type at `path`.
pub fn write_decoder(ident: &str, kind: &CustomTypeKind, ident_map: &IdentMap) -> (r: String)
    requires
        kind_named(*kind, ident_map.entries()),
        kind_decodable(*kind),
    ensures
        r@ == decoder_fn(ident@, *kind, ident_map.entries()),
{
    let ghost names = ident_map.entries();
    let mut out = String::from_str(ident);
    out.append("(d: use.Decoder): ");
    out.append(ident);
    out.append(" {\n");
    match kind {
        CustomTypeKind::Unit(u) => {
            out.append("const num = d.");
            out.append(enum_repr_ty(u.enum_repr()));
            out.append("();\n");
            out.append(switch_text(ident, unit_cases_text(ident, &u.fields).as_str()).as_str());
        },
        CustomTypeKind::Enum(c) => {
            proof {
                assert forall|i: int, p: Seq<char>| 0 <= i < c.fields@.len() && #[trigger] variant_mentions(c.fields@[i].kind, p)
                    implies lookup(names, p) is Some by {
                    assert(kind_mentions(*kind, p));
                }
            }
            match c.enum_repr() {
                None => out.append("const num = d.len_u15();\n"),
                Some(r) => {
                    out.append("const num = d.");
                    out.append(enum_repr_ty(r));
                    out.append("();\n");
                },
            }
            out.append(switch_text(ident, enum_cases_text(&c.fields, ident_map).as_str()).as_str());
        },
        CustomTypeKind::Struct(c) => {
            proof {
                assert forall|p: Seq<char>| #[trigger] crate::reach::struct_fields_mention(c.fields@, p) implies lookup(names, p) is Some by {
                    assert(kind_mentions(*kind, p));
                }
                lemma_struct_named(c.fields@, names);
            }
            out.append("return {\n");
            out.append(struct_reads_text(&c.fields, ident_map).as_str());
            out.append("}\n");
        },
        CustomTypeKind::Tuple(c) => {
            proof {
                assert forall|p: Seq<char>| #[trigger] crate::reach::tuple_fields_mention(c.fields@, p) implies lookup(names, p) is Some by {
                    assert(kind_mentions(*kind, p));
                }
                lemma_tuple_named(c.fields@, names);
            }
            out.append("return ");
            out.append(fmt_tuple(&c.fields, "struct", ident_map).as_str());
            out.append("();\n");
        },
    }
    out.append("},\n");
    out
}

} // verus!

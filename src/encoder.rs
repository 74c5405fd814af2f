//! The encoder object of the generated client: one function per type that
//! requests carry.
use vstd::prelude::*;
use vstd::string::*;
use crate::schema::{CustomTypeKind, EnumKind, EnumField, UnitField, StructField, TupleField, strip_raw};
use crate::naming::{IdentMap, lookup, views};
use crate::reach::{kind_mentions, variant_mentions};
use crate::typescript::{codec, fmt_ty, all_named, repr_literal, repr_method, enum_repr_value, enum_repr_ty,
    enum_tags, tags_from, decimal, fmt_u128, tuple_codec, fmt_tuple};
use crate::interface::{lemma_concat_push, concat_all, kind_named};
use crate::decoder::{lemma_struct_named, lemma_tuple_named, lemma_tags_len};

verus! {

pub open spec fn unit_writes(ident: Seq<char>, fields: Seq<UnitField>) -> Seq<char> {
    concat_all(fields.map_values(|f: UnitField|
        "case "@ + ident + "."@ + strip_raw(f.name.0@) + ": return d."@ + repr_method(f.value) + "("@
            + repr_literal(f.value) + ");\n"@))
}

pub open spec fn struct_writes(fields: Seq<StructField>, names: Seq<(String, String)>) -> Seq<char> {
    concat_all(fields.map_values(|f: StructField|
        codec(f.ty, "extern"@, names) + "(z."@ + strip_raw(f.name.0@) + ");\n"@))
}

pub open spec fn tuple_writes(fields: Seq<TupleField>, names: Seq<(String, String)>) -> Seq<char> {
    concat_all(fields.map(|i: int, f: TupleField|
        codec(f.ty, "extern"@, names) + "(z["@ + decimal(i as nat) + "]);\n"@))
}

pub open spec fn variant_writes(kind: EnumKind, names: Seq<(String, String)>) -> Seq<char> {
    match kind {
        EnumKind::Unit => Seq::empty(),
        EnumKind::Struct(fs) => struct_writes(fs@, names),
        EnumKind::Tuple(fs) => tuple_writes(fs@, names),
    }
}

/// The writer method for a variant's tag.
pub open spec fn tag_method(v: EnumField) -> Seq<char> {
    match v.index {
        Some(r) => repr_method(r),
        None => "len_u15"@,
    }
}

pub open spec fn enum_writes(fields: Seq<EnumField>, tags: Seq<Seq<char>>, names: Seq<(String, String)>) -> Seq<char> {
    concat_all(fields.map(|i: int, v: EnumField|
        "case \""@ + strip_raw(v.name.0@) + "\": d."@ + tag_method(v) + "("@ + tags[i] + ");\n"@
            + variant_writes(v.kind, names) + "break;\n"@))
}

pub open spec fn encoder_body(ident: Seq<char>, kind: CustomTypeKind, names: Seq<(String, String)>) -> Seq<char> {
    match kind {
        CustomTypeKind::Unit(u) => "switch (z) {\n"@ + unit_writes(ident, u.fields@) + "}\n"@,
        CustomTypeKind::Enum(c) => "switch (z.type) {\n"@
            + enum_writes(c.fields@, tags_from(c.fields@, 0, 0), names) + "}\n"@,
        CustomTypeKind::Struct(c) => struct_writes(c.fields@, names),
        CustomTypeKind::Tuple(c) => "return "@ + tuple_codec(c.fields@, "extern"@, names) + "(z);\n"@,
    }
}

/// The encoder function of the type named `ident`.
pub open spec fn encoder_fn(ident: Seq<char>, kind: CustomTypeKind, names: Seq<(String, String)>) -> Seq<char> {
    ident + "(d: use.BufWriter, z: "@ + ident + ") {\n"@ + encoder_body(ident, kind, names) + "},\n"@
}

/// An enum has fewer variants than its tag count can reach.
pub open spec fn kind_encodable(kind: CustomTypeKind) -> bool {
    kind matches CustomTypeKind::Enum(c) ==> c.fields@.len() < 0x1_0000_0000
}

fn unit_writes_text(ident: &str, fields: &Vec<UnitField>) -> (r: String)
    ensures
        r@ == unit_writes(ident@, fields@),
{
    let ghost g = |f: UnitField| "case "@ + ident@ + "."@ + strip_raw(f.name.0@) + ": return d."@ + repr_method(f.value) + "("@
        + repr_literal(f.value) + ");\n"@;
    let mut out = String::new();
    let mut i: usize = 0;
    while i < fields.len()
        invariant
            i <= fields@.len(),
            g == |f: UnitField| "case "@ + ident@ + "."@ + strip_raw(f.name.0@) + ": return d."@ + repr_method(f.value) + "("@
                + repr_literal(f.value) + ");\n"@,
            out@ == concat_all(fields@.subrange(0, i as int).map_values(g)),
        decreases fields@.len() - i,
    {
        let f = &fields[i];
        out.append("case ");
        out.append(ident);
        out.append(".");
        out.append(f.name.unraw());
        out.append(": return d.");
        out.append(enum_repr_ty(&f.value));
        out.append("(");
        out.append(enum_repr_value(&f.value).as_str());
        out.append(");\n");
        proof {
            assert(fields@.subrange(0, i + 1).map_values(g) =~= fields@.subrange(0, i as int).map_values(g).push(g(fields@[i as int])));
            lemma_concat_push(fields@.subrange(0, i as int).map_values(g), g(fields@[i as int]));
        }
        i = i + 1;
    }
    assert(fields@.subrange(0, fields@.len() as int) =~= fields@);
    out
}

fn struct_writes_text(fields: &Vec<StructField>, ident_map: &IdentMap) -> (r: String)
    requires
        forall|i: int| 0 <= i < fields@.len() ==> all_named(#[trigger] fields@[i].ty, ident_map.entries()),
    ensures
        r@ == struct_writes(fields@, ident_map.entries()),
{
    let ghost names = ident_map.entries();
    let ghost g = |f: StructField| codec(f.ty, "extern"@, names) + "(z."@ + strip_raw(f.name.0@) + ");\n"@;
    let mut out = String::new();
    let mut i: usize = 0;
    while i < fields.len()
        invariant
            i <= fields@.len(),
            names == ident_map.entries(),
            forall|j: int| 0 <= j < fields@.len() ==> all_named(#[trigger] fields@[j].ty, names),
            g == |f: StructField| codec(f.ty, "extern"@, names) + "(z."@ + strip_raw(f.name.0@) + ");\n"@,
            out@ == concat_all(fields@.subrange(0, i as int).map_values(g)),
        decreases fields@.len() - i,
    {
        let f = &fields[i];
        out.append(fmt_ty(&f.ty, "extern", ident_map).as_str());
        out.append("(z.");
        out.append(f.name.unraw());
        out.append(");\n");
        proof {
            assert(fields@.subrange(0, i + 1).map_values(g) =~= fields@.subrange(0, i as int).map_values(g).push(g(fields@[i as int])));
            lemma_concat_push(fields@.subrange(0, i as int).map_values(g), g(fields@[i as int]));
        }
        i = i + 1;
    }
    assert(fields@.subrange(0, fields@.len() as int) =~= fields@);
    out
}

fn tuple_writes_text(fields: &Vec<TupleField>, ident_map: &IdentMap) -> (r: String)
    requires
        forall|i: int| 0 <= i < fields@.len() ==> all_named(#[trigger] fields@[i].ty, ident_map.entries()),
    ensures
        r@ == tuple_writes(fields@, ident_map.entries()),
{
    let ghost names = ident_map.entries();
    let ghost g = |i: int, f: TupleField| codec(f.ty, "extern"@, names) + "(z["@ + decimal(i as nat) + "]);\n"@;
    let mut out = String::new();
    let mut i: usize = 0;
    while i < fields.len()
        invariant
            i <= fields@.len(),
            names == ident_map.entries(),
            forall|j: int| 0 <= j < fields@.len() ==> all_named(#[trigger] fields@[j].ty, names),
            g == |i: int, f: TupleField| codec(f.ty, "extern"@, names) + "(z["@ + decimal(i as nat) + "]);\n"@,
            out@ == concat_all(fields@.subrange(0, i as int).map(g)),
        decreases fields@.len() - i,
    {
        out.append(fmt_ty(&fields[i].ty, "extern", ident_map).as_str());
        out.append("(z[");
        out.append(fmt_u128(i as u128).as_str());
        out.append("]);\n");
        proof {
            assert(fields@.subrange(0, i + 1).map(g) =~= fields@.subrange(0, i as int).map(g).push(g(i as int, fields@[i as int])));
            lemma_concat_push(fields@.subrange(0, i as int).map(g), g(i as int, fields@[i as int]));
        }
        i = i + 1;
    }
    assert(fields@.subrange(0, fields@.len() as int) =~= fields@);
    out
}

fn variant_writes_text(kind: &EnumKind, ident_map: &IdentMap) -> (r: String)
    requires
        forall|p: Seq<char>| #[trigger] variant_mentions(*kind, p) ==> lookup(ident_map.entries(), p) is Some,
    ensures
        r@ == variant_writes(*kind, ident_map.entries()),
{
    let ghost names = ident_map.entries();
    match kind {
        EnumKind::Unit => String::new(),
        EnumKind::Struct(fs) => {
            proof {
                assert forall|p: Seq<char>| #[trigger] crate::reach::struct_fields_mention(fs@, p) implies lookup(names, p) is Some by {
                    assert(variant_mentions(*kind, p));
                }
                lemma_struct_named(fs@, names);
            }
            struct_writes_text(fs, ident_map)
        },
        EnumKind::Tuple(fs) => {
            proof {
                assert forall|p: Seq<char>| #[trigger] crate::reach::tuple_fields_mention(fs@, p) implies lookup(names, p) is Some by {
                    assert(variant_mentions(*kind, p));
                }
                lemma_tuple_named(fs@, names);
            }
            tuple_writes_text(fs, ident_map)
        },
    }
}

fn enum_writes_text(fields: &Vec<EnumField>, ident_map: &IdentMap) -> (r: String)
    requires
        fields@.len() < 0x1_0000_0000,
        forall|i: int, p: Seq<char>| 0 <= i < fields@.len() && #[trigger] variant_mentions(fields@[i].kind, p)
            ==> lookup(ident_map.entries(), p) is Some,
    ensures
        r@ == enum_writes(fields@, tags_from(fields@, 0, 0), ident_map.entries()),
{
    let ghost names = ident_map.entries();
    let tags = enum_tags(fields);
    let ghost tv = tags_from(fields@, 0, 0);
    let ghost g = |i: int, v: EnumField| "case \""@ + strip_raw(v.name.0@) + "\": d."@ + tag_method(v) + "("@ + tv[i] + ");\n"@
        + variant_writes(v.kind, names) + "break;\n"@;
    let mut out = String::new();
    let mut i: usize = 0;
    proof { lemma_tags_len(fields@, 0, 0); }
    while i < fields.len()
        invariant
            i <= fields@.len(),
            names == ident_map.entries(),
            views(tags@) == tv,
            tv.len() == fields@.len(),
            forall|j: int, p: Seq<char>| 0 <= j < fields@.len() && #[trigger] variant_mentions(fields@[j].kind, p)
                ==> lookup(names, p) is Some,
            g == |i: int, v: EnumField| "case \""@ + strip_raw(v.name.0@) + "\": d."@ + tag_method(v) + "("@ + tv[i] + ");\n"@
                + variant_writes(v.kind, names) + "break;\n"@,
            out@ == concat_all(fields@.subrange(0, i as int).map(g)),
        decreases fields@.len() - i,
    {
        let v = &fields[i];
        let inner = variant_writes_text(&v.kind, ident_map);
        out.append("case \"");
        out.append(v.name.unraw());
        out.append("\": d.");
        match &v.index {
            Some(r) => out.append(enum_repr_ty(r)),
            None => out.append("len_u15"),
        }
        out.append("(");
        out.append(tags[i].as_str());
        out.append(");\n");
        out.append(inner.as_str());
        out.append("break;\n");
        proof {
            assert(tv[i as int] == tags@[i as int]@);
            assert(fields@.subrange(0, i + 1).map(g) =~= fields@.subrange(0, i as int).map(g).push(g(i as int, fields@[i as int])));
            lemma_concat_push(fields@.subrange(0, i as int).map(g), g(i as int, fields@[i as int]));
        }
        i = i + 1;
    }
    assert(fields@.subrange(0, fields@.len() as int) =~= fields@);
    out
}

/// The encoder function of the type named `ident`.
pub fn write_encoder(ident: &str, kind: &CustomTypeKind, ident_map: &IdentMap) -> (r: String)
    requires
        kind_named(*kind, ident_map.entries()),
        kind_encodable(*kind),
    ensures
        r@ == encoder_fn(ident@, *kind, ident_map.entries()),
{
    let ghost names = ident_map.entries();
    let mut out = String::from_str(ident);
    out.append("(d: use.BufWriter, z: ");
    out.append(ident);
    out.append(") {\n");
    match kind {
        CustomTypeKind::Unit(u) => {
            out.append("switch (z) {\n");
            out.append(unit_writes_text(ident, &u.fields).as_str());
            out.append("}\n");
        },
        CustomTypeKind::Enum(c) => {
            proof {
                assert forall|i: int, p: Seq<char>| 0 <= i < c.fields@.len() && #[trigger] variant_mentions(c.fields@[i].kind, p)
                    implies lookup(names, p) is Some by {
                    assert(kind_mentions(*kind, p));
                }
            }
            out.append("switch (z.type) {\n");
            out.append(enum_writes_text(&c.fields, ident_map).as_str());
            out.append("}\n");
        },
        CustomTypeKind::Struct(c) => {
            proof {
                assert forall|p: Seq<char>| #[trigger] crate::reach::struct_fields_mention(c.fields@, p) implies lookup(names, p) is Some by {
                    assert(kind_mentions(*kind, p));
                }
                lemma_struct_named(c.fields@, names);
            }
            out.append(struct_writes_text(&c.fields, ident_map).as_str());
        },
        CustomTypeKind::Tuple(c) => {
            proof {
                assert forall|p: Seq<char>| #[trigger] crate::reach::tuple_fields_mention(c.fields@, p) implies lookup(names, p) is Some by {
                    assert(kind_mentions(*kind, p));
                }
                lemma_tuple_named(c.fields@, names);
            }
            out.append("return ");
            out.append(fmt_tuple(&c.fields, "extern", ident_map).as_str());
            out.append("(z);\n");
        },
    }
    out.append("},\n");
    out
}

} // verus!

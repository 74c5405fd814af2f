//! The type declarations of the generated client, one per user-declared type.
use vstd::prelude::*;
use vstd::string::*;
use crate::schema::{CustomTypeKind, EnumKind, EnumRepr, EnumField, UnitField, StructField, TupleField, strip_raw};
use crate::naming::{IdentMap, lookup, join_spec};
use crate::reach::{kind_mentions, mentions, variant_mentions};
use crate::typescript::{js_ty, fmt_js_ty, all_named, repr_literal, enum_repr_value, decimal, fmt_u128};
use crate::doc::{doc_comment, write_doc_comments};

verus! {

/// The pieces one after another.
pub open spec fn concat_all(items: Seq<Seq<char>>) -> Seq<char>
    decreases items.len(),
{
    if items.len() == 0 { Seq::empty() } else { concat_all(items.drop_last()) + items.last() }
}

/// One entry of an object literal or interface: its docs, then
/// `name: value,` on a line.
pub open spec fn map_item(doc: Seq<char>, name: Seq<char>, value: Seq<char>) -> Seq<char> {
    doc_comment(doc) + name + ": "@ + value + ",\n"@
}

pub open spec fn unit_items(fields: Seq<UnitField>) -> Seq<char> {
    concat_all(fields.map_values(|f: UnitField| map_item(f.doc@, strip_raw(f.name.0@), repr_literal(f.value))))
}

pub open spec fn struct_items(fields: Seq<StructField>, names: Seq<(String, String)>) -> Seq<char> {
    concat_all(fields.map_values(|f: StructField| map_item(f.doc@, strip_raw(f.name.0@), js_ty(f.ty, names))))
}

pub open spec fn tuple_types(fields: Seq<TupleField>, names: Seq<(String, String)>) -> Seq<char> {
    join_spec(fields.map_values(|f: TupleField| js_ty(f.ty, names)), ", "@)
}

/// The fields of an enum variant as TypeScript object members.
pub open spec fn variant_fields(kind: EnumKind, names: Seq<(String, String)>) -> Seq<char> {
    match kind {
        EnumKind::Unit => Seq::empty(),
        EnumKind::Struct(fs) => join_spec(
            fs@.map_values(|f: StructField| strip_raw(f.name.0@) + ": "@ + js_ty(f.ty, names)), ", "@),
        EnumKind::Tuple(fs) => join_spec(
            fs@.map_values(|f: TupleField| js_ty(f.ty, names)).map(|i: int, t: Seq<char>| decimal(i as nat) + ": "@ + t),
            ", "@),
    }
}

pub open spec fn variant_lines(fields: Seq<EnumField>, names: Seq<(String, String)>) -> Seq<char> {
    concat_all(fields.map_values(|v: EnumField|
        "| { type: \""@ + strip_raw(v.name.0@) + "\", "@ + variant_fields(v.kind, names) + "}\n"@))
}

/// The TypeScript type of a C-like enum's discriminant.
pub open spec fn unit_js_ty(r: EnumRepr) -> Seq<char> {
    match r {
        EnumRepr::u8(_) | EnumRepr::u16(_) | EnumRepr::u32(_) | EnumRepr::i8(_) | EnumRepr::i16(_)
        | EnumRepr::i32(_) => "number"@,
        EnumRepr::usize(_) | EnumRepr::isize(_) => if usize::BITS <= 32 { "number"@ } else { "bigint"@ },
        _ => "bigint"@,
    }
}

/// The declaration of a user type named `ident`: a C-like enum becomes a
/// constant object and a type; a struct an interface; a tuple struct a tuple
/// type; an enum a union of tagged object types.
pub open spec fn type_decl(ident: Seq<char>, kind: CustomTypeKind, names: Seq<(String, String)>) -> Seq<char> {
    match kind {
        CustomTypeKind::Unit(u) => doc_comment(u.doc@) + "export const "@ + ident + " = "@ + "{\n"@
            + unit_items(u.fields@) + "}\n"@ + "export type "@ + ident + " = "@ + unit_js_ty(u.fields@[0].value) + ";\n"@,
        CustomTypeKind::Struct(c) => doc_comment(c.doc@) + "export interface "@ + ident + " "@ + "{\n"@
            + struct_items(c.fields@, names) + "}\n"@,
        CustomTypeKind::Tuple(c) => doc_comment(c.doc@) + "export type "@ + ident + " = ["@
            + tuple_types(c.fields@, names) + "];\n"@,
        CustomTypeKind::Enum(c) => doc_comment(c.doc@) + "export type "@ + ident + " =\n"@
            + variant_lines(c.fields@, names),
    }
}

/// Every path that the kind's fields refer to has an identifier.
pub open spec fn kind_named(kind: CustomTypeKind, names: Seq<(String, String)>) -> bool {
    forall|p: Seq<char>| #[trigger] kind_mentions(kind, p) ==> lookup(names, p) is Some
}

/// A C-like enum has at least one variant, whose discriminant gives the width.
pub open spec fn kind_complete(kind: CustomTypeKind) -> bool {
    kind matches CustomTypeKind::Unit(u) ==> u.fields@.len() > 0
}

/// Appending a piece to the list appends it to the text.
pub proof fn lemma_concat_push(items: Seq<Seq<char>>, x: Seq<char>)
    ensures
        concat_all(items.push(x)) == concat_all(items) + x,
{
    assert(items.push(x).drop_last() =~= items);
}

proof fn lemma_join_push(items: Seq<Seq<char>>, x: Seq<char>, sep: Seq<char>)
    ensures
        join_spec(items.push(x), sep) == if items.len() == 0 { x } else { join_spec(items, sep) + sep + x },
{
    assert(items.push(x).drop_last() =~= items);
}

fn unit_items_text(fields: &Vec<UnitField>) -> (r: String)
    ensures
        r@ == unit_items(fields@),
{
    let mut out = String::new();
    let mut i: usize = 0;
    while i < fields.len()
        invariant
            i <= fields@.len(),
            out@ == unit_items(fields@.subrange(0, i as int)),
        decreases fields@.len() - i,
    {
        let f = &fields[i];
        out.append(write_doc_comments(f.doc.as_str()).as_str());
        out.append(f.name.unraw());
        out.append(": ");
        out.append(enum_repr_value(&f.value).as_str());
        out.append(",\n");
        proof {
            let g = |f: UnitField| map_item(f.doc@, strip_raw(f.name.0@), repr_literal(f.value));
            assert(fields@.subrange(0, i + 1).map_values(g) =~= fields@.subrange(0, i as int).map_values(g).push(g(fields@[i as int])));
            lemma_concat_push(fields@.subrange(0, i as int).map_values(g), g(fields@[i as int]));
        }
        i = i + 1;
    }
    assert(fields@.subrange(0, fields@.len() as int) =~= fields@);
    out
}

fn struct_items_text(fields: &Vec<StructField>, ident_map: &IdentMap) -> (r: String)
    requires
        forall|i: int| 0 <= i < fields@.len() ==> all_named(#[trigger] fields@[i].ty, ident_map.entries()),
    ensures
        r@ == struct_items(fields@, ident_map.entries()),
{
    let ghost names = ident_map.entries();
    let mut out = String::new();
    let mut i: usize = 0;
    while i < fields.len()
        invariant
            i <= fields@.len(),
            names == ident_map.entries(),
            forall|j: int| 0 <= j < fields@.len() ==> all_named(#[trigger] fields@[j].ty, names),
            out@ == struct_items(fields@.subrange(0, i as int), names),
        decreases fields@.len() - i,
    {
        let f = &fields[i];
        out.append(write_doc_comments(f.doc.as_str()).as_str());
        out.append(f.name.unraw());
        out.append(": ");
        out.append(fmt_js_ty(&f.ty, ident_map).as_str());
        out.append(",\n");
        proof {
            let g = |f: StructField| map_item(f.doc@, strip_raw(f.name.0@), js_ty(f.ty, names));
            assert(fields@.subrange(0, i + 1).map_values(g) =~= fields@.subrange(0, i as int).map_values(g).push(g(fields@[i as int])));
            lemma_concat_push(fields@.subrange(0, i as int).map_values(g), g(fields@[i as int]));
        }
        i = i + 1;
    }
    assert(fields@.subrange(0, fields@.len() as int) =~= fields@);
    out
}

fn tuple_types_text(fields: &Vec<TupleField>, ident_map: &IdentMap) -> (r: String)
    requires
        forall|i: int| 0 <= i < fields@.len() ==> all_named(#[trigger] fields@[i].ty, ident_map.entries()),
    ensures
        r@ == tuple_types(fields@, ident_map.entries()),
{
    let ghost names = ident_map.entries();
    let mut out = String::new();
    let mut i: usize = 0;
    while i < fields.len()
        invariant
            i <= fields@.len(),
            names == ident_map.entries(),
            forall|j: int| 0 <= j < fields@.len() ==> all_named(#[trigger] fields@[j].ty, names),
            out@ == tuple_types(fields@.subrange(0, i as int), names),
        decreases fields@.len() - i,
    {
        let t = fmt_js_ty(&fields[i].ty, ident_map);
        if i > 0 {
            out.append(", ");
        } else {
            assert(out@ =~= Seq::<char>::empty());
        }
        out.append(t.as_str());
        proof {
            let g = |f: TupleField| js_ty(f.ty, names);
            assert(fields@.subrange(0, i + 1).map_values(g) =~= fields@.subrange(0, i as int).map_values(g).push(g(fields@[i as int])));
            lemma_join_push(fields@.subrange(0, i as int).map_values(g), g(fields@[i as int]), ", "@);
        }
        i = i + 1;
    }
    assert(fields@.subrange(0, fields@.len() as int) =~= fields@);
    out
}


fn variant_fields_text(kind: &EnumKind, ident_map: &IdentMap) -> (r: String)
    requires
        forall|p: Seq<char>| #[trigger] variant_mentions(*kind, p) ==> lookup(ident_map.entries(), p) is Some,
    ensures
        r@ == variant_fields(*kind, ident_map.entries()),
{
    let ghost names = ident_map.entries();
    let mut out = String::new();
    match kind {
        EnumKind::Unit => {},
        EnumKind::Struct(fs) => {
            let ghost g = |f: StructField| strip_raw(f.name.0@) + ": "@ + js_ty(f.ty, names);
            let mut i: usize = 0;
            while i < fs.len()
                invariant
                    i <= fs@.len(),
                    names == ident_map.entries(),
                    *kind == EnumKind::Struct(*fs),
                    forall|p: Seq<char>| #[trigger] variant_mentions(*kind, p) ==> lookup(names, p) is Some,
                    g == |f: StructField| strip_raw(f.name.0@) + ": "@ + js_ty(f.ty, names),
                    out@ == join_spec(fs@.subrange(0, i as int).map_values(g), ", "@),
                decreases fs@.len() - i,
            {
                proof {
                    assert forall|p: Seq<char>| #[trigger] mentions(fs@[i as int].ty, p) implies lookup(names, p) is Some by {
                        assert(variant_mentions(*kind, p));
                    }
                }
                let t = fmt_js_ty(&fs[i].ty, ident_map);
                if i > 0 {
                    out.append(", ");
                } else {
                    assert(out@ =~= Seq::<char>::empty());
                }
                out.append(fs[i].name.unraw());
                out.append(": ");
                out.append(t.as_str());
                proof {
                    assert(fs@.subrange(0, i + 1).map_values(g) =~= fs@.subrange(0, i as int).map_values(g).push(g(fs@[i as int])));
                    lemma_join_push(fs@.subrange(0, i as int).map_values(g), g(fs@[i as int]), ", "@);
                }
                i = i + 1;
            }
            assert(fs@.subrange(0, fs@.len() as int) =~= fs@);
        },
        EnumKind::Tuple(fs) => {
            let ghost g = |f: TupleField| js_ty(f.ty, names);
            let ghost h = |i: int, t: Seq<char>| decimal(i as nat) + ": "@ + t;
            let mut i: usize = 0;
            while i < fs.len()
                invariant
                    i <= fs@.len(),
                    names == ident_map.entries(),
                    *kind == EnumKind::Tuple(*fs),
                    forall|p: Seq<char>| #[trigger] variant_mentions(*kind, p) ==> lookup(names, p) is Some,
                    g == |f: TupleField| js_ty(f.ty, names),
                    h == |i: int, t: Seq<char>| decimal(i as nat) + ": "@ + t,
                    out@ == join_spec(fs@.subrange(0, i as int).map_values(g).map(h), ", "@),
                decreases fs@.len() - i,
            {
                proof {
                    assert forall|p: Seq<char>| #[trigger] mentions(fs@[i as int].ty, p) implies lookup(names, p) is Some by {
                        assert(variant_mentions(*kind, p));
                    }
                }
                let t = fmt_js_ty(&fs[i].ty, ident_map);
                if i > 0 {
                    out.append(", ");
                } else {
                    assert(out@ =~= Seq::<char>::empty());
                }
                out.append(fmt_u128(i as u128).as_str());
                out.append(": ");
                out.append(t.as_str());
                proof {
                    assert(fs@.subrange(0, i + 1).map_values(g).map(h) =~= fs@.subrange(0, i as int).map_values(g).map(h).push(h(i as int, g(fs@[i as int]))));
                    lemma_join_push(fs@.subrange(0, i as int).map_values(g).map(h), h(i as int, g(fs@[i as int])), ", "@);
                }
                i = i + 1;
            }
            assert(fs@.subrange(0, fs@.len() as int) =~= fs@);
        },
    }
    out
}

fn variant_lines_text(fields: &Vec<EnumField>, ident_map: &IdentMap) -> (r: String)
    requires
        forall|i: int, p: Seq<char>| 0 <= i < fields@.len() && #[trigger] variant_mentions(fields@[i].kind, p)
            ==> lookup(ident_map.entries(), p) is Some,
    ensures
        r@ == variant_lines(fields@, ident_map.entries()),
{
    let ghost names = ident_map.entries();
    let ghost g = |v: EnumField| "| { type: \""@ + strip_raw(v.name.0@) + "\", "@ + variant_fields(v.kind, names) + "}\n"@;
    let mut out = String::new();
    let mut i: usize = 0;
    while i < fields.len()
        invariant
            i <= fields@.len(),
            names == ident_map.entries(),
            forall|j: int, p: Seq<char>| 0 <= j < fields@.len() && #[trigger] variant_mentions(fields@[j].kind, p)
                ==> lookup(names, p) is Some,
            g == |v: EnumField| "| { type: \""@ + strip_raw(v.name.0@) + "\", "@ + variant_fields(v.kind, names) + "}\n"@,
            out@ == concat_all(fields@.subrange(0, i as int).map_values(g)),
        decreases fields@.len() - i,
    {
        let v = &fields[i];
        let inner = variant_fields_text(&v.kind, ident_map);
        out.append("| { type: \"");
        out.append(v.name.unraw());
        out.append("\", ");
        out.append(inner.as_str());
        out.append("}\n");
        proof {
            assert(fields@.subrange(0, i + 1).map_values(g) =~= fields@.subrange(0, i as int).map_values(g).push(g(fields@[i as int])));
            lemma_concat_push(fields@.subrange(0, i as int).map_values(g), g(fields@[i as int]));
        }
        i = i + 1;
    }
    assert(fields@.subrange(0, fields@.len() as int) =~= fields@);
    out
}

fn unit_js_ty_text(r: &EnumRepr) -> (s: &'static str)
    ensures
        s@ == unit_js_ty(*r),
{
    match *r {
        EnumRepr::u8(_) | EnumRepr::u16(_) | EnumRepr::u32(_) | EnumRepr::i8(_) | EnumRepr::i16(_)
        | EnumRepr::i32(_) => "number",
        EnumRepr::usize(_) | EnumRepr::isize(_) => if usize::BITS <= 32 { "number" } else { "bigint" },
        _ => "bigint",
    }
}

/// The declaration of the user type at `path` in the generated client.
pub fn gen_type(ident_map: &IdentMap, path: &str, kind: &CustomTypeKind) -> (r: String)
    requires
        lookup(ident_map.entries(), path@) is Some,
        kind_named(*kind, ident_map.entries()),
        kind_complete(*kind),
    ensures
        r@ == type_decl(lookup(ident_map.entries(), path@)->Some_0, *kind, ident_map.entries()),
{
    let ghost names = ident_map.entries();
    let ident = match ident_map.get(path) {
        Some(id) => id.clone(),
        None => String::new(),
    };
    match kind {
        CustomTypeKind::Unit(u) => {
            let mut out = write_doc_comments(u.doc.as_str());
            out.append("export const ");
            out.append(ident.as_str());
            out.append(" = ");
            out.append("{\n");
            out.append(unit_items_text(&u.fields).as_str());
            out.append("}\n");
            out.append("export type ");
            out.append(ident.as_str());
            out.append(" = ");
            out.append(unit_js_ty_text(&u.fields[0].value));
            out.append(";\n");
            out
        },
        CustomTypeKind::Struct(c) => {
            proof {
                assert forall|i: int| 0 <= i < c.fields@.len() implies all_named(#[trigger] c.fields@[i].ty, names) by {
                    assert forall|p: Seq<char>| #[trigger] mentions(c.fields@[i].ty, p) implies lookup(names, p) is Some by {
                        assert(kind_mentions(*kind, p));
                    }
                }
            }
            let mut out = write_doc_comments(c.doc.as_str());
            out.append("export interface ");
            out.append(ident.as_str());
            out.append(" ");
            out.append("{\n");
            out.append(struct_items_text(&c.fields, ident_map).as_str());
            out.append("}\n");
            out
        },
        CustomTypeKind::Tuple(c) => {
            proof {
                assert forall|i: int| 0 <= i < c.fields@.len() implies all_named(#[trigger] c.fields@[i].ty, names) by {
                    assert forall|p: Seq<char>| #[trigger] mentions(c.fields@[i].ty, p) implies lookup(names, p) is Some by {
                        assert(kind_mentions(*kind, p));
                    }
                }
            }
            let mut out = write_doc_comments(c.doc.as_str());
            out.append("export type ");
            out.append(ident.as_str());
            out.append(" = [");
            out.append(tuple_types_text(&c.fields, ident_map).as_str());
            out.append("];\n");
            out
        },
        CustomTypeKind::Enum(c) => {
            proof {
                assert forall|i: int, p: Seq<char>| 0 <= i < c.fields@.len() && #[trigger] variant_mentions(c.fields@[i].kind, p)
                    implies lookup(names, p) is Some by {
                    assert(kind_mentions(*kind, p));
                }
            }
            let mut out = write_doc_comments(c.doc.as_str());
            out.append("export type ");
            out.append(ident.as_str());
            out.append(" =\n");
            out.append(variant_lines_text(&c.fields, ident_map).as_str());
            out
        },
    }
}

} // verus!

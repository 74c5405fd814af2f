use frpc::doc::write_doc_comments;
use frpc::interface::gen_type;
use frpc::message::{Func, FuncOutput, TypeDef};
use frpc::naming::IdentMap;
use frpc::reach::CodeGen;
use frpc::registry::CostomTypes;
use frpc::schema::{CustomType, CustomTypeKind, EnumField, EnumKind, EnumRepr, MapVariant, SetVariant, StructField, TupleField, Ty, UnitField};
use frpc::typescript::{decode_data, enum_repr_ty, enum_repr_value, enum_tags, fmt_i128, fmt_js_ty, fmt_tuple, fmt_ty};

fn cat(parts: &[&str]) -> String {
    parts.concat()
}

fn ident_map(paths: &[&str]) -> IdentMap {
    IdentMap::new(&paths.iter().map(|p| p.to_string()).collect()).unwrap()
}

fn sample_tuple() -> Ty {
    Ty::Tuple(vec![
        Ty::Option(Box::new(Ty::bool)),
        Ty::Result(Box::new((Ty::CustomType("::path::ident".into()), Ty::String))),
        Ty::MapOf {
            variant: MapVariant::BTreeMap,
            ty: Box::new((Ty::String, Ty::SetOf { variant: SetVariant::BTreeSet, ty: Box::new(Ty::u8) })),
        },
    ])
}

#[test]
fn codec_expression_of_nested_tuple() {
    let map = ident_map(&["::path::ident"]);
    assert_eq!(
        fmt_ty(&sample_tuple(), "This", &map),
        "d.tuple(d.option(d.bool),d.result(This.Ident.bind(0, d), d.str),d.map(d.str, d.buf('u8')),)"
    );
}

#[test]
fn codec_expression_of_arrays_and_numbers() {
    let map = ident_map(&[]);
    assert_eq!(fmt_ty(&Ty::Array { ty: Box::new(Ty::u8), len: 32 }, "s", &map), "d.fixed_buf('u8', 32)");
    assert_eq!(fmt_ty(&Ty::Array { ty: Box::new(Ty::u16), len: 3 }, "s", &map), "d.fixed_arr(d.num('U', 16), 3)");
    assert_eq!(fmt_ty(&Ty::SetOf { variant: SetVariant::Vec, ty: Box::new(Ty::i64) }, "s", &map), "d.arr(d.num('I', 64))");
    assert_eq!(fmt_ty(&Ty::Tuple(vec![]), "s", &map), "d.null");
}

#[test]
fn typescript_types() {
    let map = ident_map(&["::path::ident"]);
    assert_eq!(
        fmt_js_ty(&sample_tuple(), &map),
        "[use.Option<boolean>, use.Result<Ident, string>, Map<string, Uint8Array>]"
    );
    assert_eq!(fmt_js_ty(&Ty::Tuple(vec![]), &map), "null");
    assert_eq!(fmt_js_ty(&Ty::SetOf { variant: SetVariant::Vec, ty: Box::new(Ty::u64) }, &map), "Array<bigint>");
}

#[test]
fn empty_tuple_decodes_from_nothing() {
    let map = ident_map(&["a::B"]);
    assert_eq!(decode_data(&Ty::Tuple(vec![]), &map), "");
    assert_eq!(decode_data(&Ty::CustomType("a::B".into()), &map), "struct.B(d)");
    assert_eq!(decode_data(&Ty::u8, &map), "d.u8()");
    let fields = vec![TupleField::new("", Ty::u8), TupleField::new("", Ty::String)];
    assert_eq!(fmt_tuple(&fields, "extern", &map), "d.tuple(d.u8,d.str,)");
}

#[test]
fn discriminants_continue_after_explicit_ones() {
    let fields = vec![
        EnumField::new("", "A", None, EnumKind::Unit),
        EnumField::new("", "B", Some(EnumRepr::i8(40)), EnumKind::Unit),
        EnumField::new("", "C", None, EnumKind::Unit),
        EnumField::new("", "D", Some(EnumRepr::u64(7)), EnumKind::Unit),
        EnumField::new("", "E", None, EnumKind::Unit),
    ];
    assert_eq!(enum_tags(&fields), vec!["0", "40", "41", "7n", "8"]);
    assert_eq!(enum_repr_value(&EnumRepr::i32(-5)), "-5");
    assert_eq!(enum_repr_ty(&EnumRepr::u16(0)), "num('U', 16)");
    assert_eq!(fmt_i128(-120), "-120");
}

#[test]
fn doc_comments() {
    assert_eq!(write_doc_comments(""), "");
    assert_eq!(write_doc_comments("  one\r\ntwo \n"), "/**\n * one\n * two\n */\n");
}

#[test]
fn declarations_per_kind() {
    let map = ident_map(&["m::Color", "m::Point", "m::Pair", "m::Shape"]);
    let unit = CustomTypeKind::Unit(CustomType::new("", vec![
        UnitField::new("", "Red", EnumRepr::u8(0)),
        UnitField::new("", "Blue", EnumRepr::u8(1)),
    ]));
    assert_eq!(gen_type(&map, "m::Color", &unit),
        "export const Color = {\nRed: 0,\nBlue: 1,\n}\nexport type Color = number;\n");
    let st = CustomTypeKind::Struct(CustomType::new("A point.", vec![
        StructField::new("", "x", Ty::i32),
        StructField::new("", "r#type", Ty::String),
    ]));
    assert_eq!(gen_type(&map, "m::Point", &st),
        "/**\n * A point.\n */\nexport interface Point {\nx: number,\ntype: string,\n}\n");
    let tu = CustomTypeKind::Tuple(CustomType::new("", vec![
        TupleField::new("", Ty::u64),
        TupleField::new("", Ty::CustomType("m::Point".into())),
    ]));
    assert_eq!(gen_type(&map, "m::Pair", &tu), "export type Pair = [bigint, Point];\n");
    let en = CustomTypeKind::Enum(CustomType::new("", vec![
        EnumField::new("", "Empty", None, EnumKind::Unit),
        EnumField::new("", "Circle", None, EnumKind::Struct(vec![StructField::new("", "r", Ty::u8)])),
        EnumField::new("", "Line", None, EnumKind::Tuple(vec![TupleField::new("", Ty::u8), TupleField::new("", Ty::bool)])),
    ]));
    assert_eq!(gen_type(&map, "m::Shape", &en),
        "export type Shape =\n| { type: \"Empty\", }\n| { type: \"Circle\", r: number}\n| { type: \"Line\", 0: number, 1: boolean}\n");
}

#[test]
fn reachability_passes() {
    let mut c = CostomTypes::new();
    c.register("m::Leaf".to_string(), CustomTypeKind::Unit(CustomType::new("", vec![UnitField::new("", "A", EnumRepr::u8(0))])));
    c.register("m::Arg".to_string(), CustomTypeKind::Struct(CustomType::new("", vec![
        StructField::new("", "leaf", Ty::Option(Box::new(Ty::CustomType("m::Leaf".into())))),
    ])));
    c.register("m::Out".to_string(), CustomTypeKind::Tuple(CustomType::new("", vec![TupleField::new("", Ty::u8)])));
    c.register("m::Unused".to_string(), CustomTypeKind::Tuple(CustomType::new("", vec![])));
    let funcs = vec![
        Func::new(1, "f", Ty::Tuple(vec![Ty::Tuple(vec![]), Ty::CustomType("m::Arg".into())]), FuncOutput::Unary(Ty::CustomType("m::Out".into())), ""),
        Func::new(2, "g", Ty::Tuple(vec![Ty::u8]), FuncOutput::ServerStream { yield_ty: Ty::u8, return_ty: Ty::Tuple(vec![Ty::CustomType("m::Leaf".into())]) }, ""),
    ];
    assert_eq!(funcs[0].args.len(), 1);
    let def = TypeDef::new("Svc", c, funcs, "docs");
    assert!(def.is_closed());
    let gen = CodeGen::from(&def);
    assert_eq!(gen.input_paths, vec!["m::Arg", "m::Leaf"]);
    assert_eq!(gen.output_paths, vec!["m::Out", "m::Leaf"]);
    assert_eq!(def.find_func(2), Some(1));
    assert_eq!(def.find_func(3), None);
}

#[test]
fn whole_client_file() {
    let mut c = CostomTypes::new();
    c.register("m::Point".to_string(), CustomTypeKind::Struct(CustomType::new("", vec![StructField::new("", "x", Ty::i32)])));
    let funcs = vec![
        Func::new(1, "get", Ty::Tuple(vec![Ty::CustomType("m::Point".into())]), FuncOutput::Unary(Ty::u8), ""),
        Func::new(2, "events", Ty::Tuple(vec![Ty::u8]),
            FuncOutput::ServerStream { yield_ty: Ty::CustomType("m::Point".into()), return_ty: Ty::Tuple(vec![]) }, ""),
    ];
    let def = TypeDef::new("Svc", c, funcs, "");
    assert!(def.is_closed());
    let gen = CodeGen::from(&def);
    let expected = cat(&[
        "import * as use from './databuf.lib'\n",
        "export interface Point {\nx: number,\n}\n",
        "let struct = {\n", "Point(d: use.Decoder): Point {\n", "return {\n", "x: d.num('I', 32)(),\n", "}\n", "},\n", "}\n",
        "let extern = {\n", "Point(d: use.BufWriter, z: Point) {\n", "d.num('I', 32)(z.x);\n", "},\n", "}\n",
        "export default class Self {\n", "constructor(private rpc: use.RpcTransport) {}\n",
        "static close(this: Self) { this.rpc.close() }\n",
        "get(_0: Point, ) {\n", "return use.make_call(this.rpc, \"unary\", 1,\n", "d => {\n", "extern.Point(d, _0);\n", "},\n",
        "async data => {\n", "let _buf = await data\n", "let d = use.Decoder.from(_buf);\n", "return d.u8()\n", "},\n", ")\n", "}\n",
        "events(_0: number, ) {\n", "return use.make_call(this.rpc, \"sse\", 2,\n", "d => {\n", "d.u8(_0);\n", "},\n",
        "async function* (s) {\n", "while (true) {\n", "let { value, done } = await s.next();\n", "let d = use.Decoder.from(value);\n",
        "if (done) {\n", "return \n", "}\n", "yield struct.Point(d)\n", "}\n", "}\n", ")\n", "}\n",
        "}\n",
    ]);
    assert_eq!(gen.typescript(false).unwrap(), expected);
    assert!(gen.typescript(true).unwrap().starts_with("import * as use from './databuf.lib.ts'\n"));
}

#[test]
fn client_needs_every_type_registered_and_ready() {
    let funcs = vec![Func::new(1, "get", Ty::Tuple(vec![Ty::CustomType("m::Missing".into())]), FuncOutput::Unary(Ty::u8), "")];
    let def = TypeDef::new("Svc", CostomTypes::new(), funcs, "");
    assert!(!def.is_closed());

    let mut c = CostomTypes::new();
    c.register("m::Never".to_string(), CustomTypeKind::Unit(CustomType::new("", vec![])));
    let funcs = vec![Func::new(1, "get", Ty::Tuple(vec![]), FuncOutput::Unary(Ty::CustomType("m::Never".into())), "")];
    let def = TypeDef::new("Svc", c, funcs, "");
    assert!(def.is_closed());
    assert!(CodeGen::from(&def).typescript(false).is_none());
}

#[test]
fn decoders_and_encoders_of_enums() {
    let map = ident_map(&["m::E", "m::C"]);
    let en = CustomTypeKind::Enum(CustomType::new("", vec![
        EnumField::new("", "A", None, EnumKind::Unit),
        EnumField::new("", "B", None, EnumKind::Tuple(vec![TupleField::new("", Ty::bool)])),
    ]));
    assert_eq!(frpc::decoder::write_decoder("E", &en, &map), cat(&[
        "E(d: use.Decoder): E {\n", "const num = d.len_u15();\n", "switch (num) {\n",
        "case 0: return {\ntype: \"A\",\n};\n", "case 1: return {\ntype: \"B\",\n 0: d.bool(),\n};\n",
        "default: throw use.enumErr(\"E\", num);\n}\n", "},\n"]));
    assert_eq!(frpc::encoder::write_encoder("E", &en, &map), cat(&[
        "E(d: use.BufWriter, z: E) {\n", "switch (z.type) {\n",
        "case \"A\": d.len_u15(0);\n", "break;\n", "case \"B\": d.len_u15(1);\n", "d.bool(z[0]);\n", "break;\n",
        "}\n", "},\n"]));
    let unit = CustomTypeKind::Unit(CustomType::new("", vec![UnitField::new("", "X", EnumRepr::u64(3))]));
    assert_eq!(frpc::decoder::write_decoder("C", &unit, &map), cat(&[
        "C(d: use.Decoder): C {\n", "const num = d.num('U', 64)();\n", "switch (num) {\n",
        "case 3n: return C.X;\n", "default: throw use.enumErr(\"C\", num);\n}\n", "},\n"]));
    assert_eq!(frpc::encoder::write_encoder("C", &unit, &map), cat(&[
        "C(d: use.BufWriter, z: C) {\n", "switch (z) {\n", "case C.X: return d.num('U', 64)(3n);\n", "}\n", "},\n"]));
    assert_eq!(frpc::stub::flatten_name("a::b::c"), "a_b_c");
}

//! The stub class of the generated client: one method per RPC function.
use vstd::prelude::*;
use vstd::string::*;
use crate::schema::{Ty, strip_raw};
use crate::message::{Func, FuncOutput, TypeDef};
use crate::naming::{IdentMap, lookup};
use crate::reach::mentions;
use crate::typescript::{codec, fmt_ty, js_ty, fmt_js_ty, all_named, decimal, fmt_u128, decode_expr, decode_data};
use crate::doc::{doc_comment, write_doc_comments};
use crate::interface::{concat_all, lemma_concat_push};
use crate::check_names::ty_named;

verus! {

/// `s` with each `::` replaced by `_`, read left to right.
pub open spec fn flat_name(s: Seq<char>) -> Seq<char>
    decreases s.len(),
{
    if s.len() >= 2 && s[0] == ':' && s[1] == ':' {
        seq!['_'] + flat_name(s.subrange(2, s.len() as int))
    } else if s.len() > 0 {
        seq![s[0]] + flat_name(s.drop_first())
    } else {
        Seq::empty()
    }
}

pub fn flatten_name(s: &str) -> (r: String)
    ensures
        r@ == flat_name(s@),
{
    let n = s.unicode_len();
    let mut out = String::new();
    let mut i: usize = 0;
    proof { assert(s@.subrange(0, n as int) =~= s@); }
    while i < n
        invariant
            n == s@.len(),
            i <= n,
            out@ + flat_name(s@.subrange(i as int, n as int)) == flat_name(s@),
        decreases n - i,
    {
        let ghost rest = s@.subrange(i as int, n as int);
        if i + 1 < n && s.get_char(i) == ':' && s.get_char(i + 1) == ':' {
            proof {
                reveal_strlit("_");
                assert(rest.subrange(2, rest.len() as int) =~= s@.subrange(i + 2, n as int));
            }
            out.append("_");
            proof { assert(out@ + flat_name(s@.subrange(i + 2, n as int)) =~= flat_name(s@)); }
            i = i + 2;
        } else {
            let c = s.substring_char(i, i + 1);
            proof { assert(rest.drop_first() =~= s@.subrange(i + 1, n as int)); }
            out.append(c);
            proof {
                assert(c@ =~= seq![rest[0]]);
                assert(out@ + flat_name(s@.subrange(i + 1, n as int)) =~= flat_name(s@));
            }
            i = i + 1;
        }
    }
    proof { assert(out@ =~= out@ + flat_name(Seq::<char>::empty())); }
    out
}

/// The parameter list: `_0: T0, _1: T1, ` and so on.
pub open spec fn params(args: Seq<Ty>, names: Seq<(String, String)>) -> Seq<char> {
    concat_all(args.map(|i: int, t: Ty| "_"@ + decimal(i as nat) + ": "@ + js_ty(t, names) + ", "@))
}

/// The statement that writes argument `i`.
pub open spec fn arg_write(i: int, t: Ty, names: Seq<(String, String)>) -> Seq<char> {
    match t {
        Ty::CustomType(p) => "extern."@ + lookup(names, p@)->Some_0 + "(d, _"@ + decimal(i as nat) + ");\n"@,
        _ => codec(t, "extern"@, names) + "(_"@ + decimal(i as nat) + ");\n"@,
    }
}

pub open spec fn arg_writes(args: Seq<Ty>, names: Seq<(String, String)>) -> Seq<char> {
    concat_all(args.map(|i: int, t: Ty| arg_write(i, t, names)))
}

/// How the answer is read: one value, or a stream of yielded values ended by
/// the returned one.
pub open spec fn answer(out: FuncOutput, names: Seq<(String, String)>) -> Seq<char> {
    match out {
        FuncOutput::Unary(r) => "async data => {\n"@ + "let _buf = await data\n"@
            + (if r.spec_is_empty_tuple() {
                Seq::empty()
            } else {
                "let d = use.Decoder.from(_buf);\n"@ + "return "@ + decode_expr(r, names) + "\n"@
            }) + "},\n"@,
        FuncOutput::ServerStream { yield_ty, return_ty } => "async function* (s) {\n"@ + "while (true) {\n"@
            + "let { value, done } = await s.next();\n"@ + "let d = use.Decoder.from(value);\n"@ + "if (done) {\n"@
            + "return "@ + decode_expr(return_ty, names) + "\n"@ + "}\n"@ + "yield "@ + decode_expr(yield_ty, names)
            + "\n"@ + "}\n"@ + "}\n"@,
    }
}

pub open spec fn call_kind(out: FuncOutput) -> Seq<char> {
    match out {
        FuncOutput::Unary(_) => "\"unary\""@,
        FuncOutput::ServerStream { .. } => "\"sse\""@,
    }
}

/// The method of the stub class for one function.
pub open spec fn func_stub(f: Func, names: Seq<(String, String)>) -> Seq<char> {
    doc_comment(f.docs@) + flat_name(strip_raw(f.ident.0@)) + "("@ + params(f.args@, names) + ") {\n"@
        + "return use.make_call(this.rpc, "@ + call_kind(f.output) + ", "@ + decimal(f.index as nat) + ",\n"@
        + "d => {\n"@ + arg_writes(f.args@, names) + "},\n"@ + answer(f.output, names) + ")\n"@ + "}\n"@
}

/// The stub class of a service.
pub open spec fn stub_class(def: TypeDef, names: Seq<(String, String)>) -> Seq<char> {
    doc_comment(def.docs@) + "export default class Self {\n"@ + "constructor(private rpc: use.RpcTransport) {}\n"@
        + "static close(this: Self) { this.rpc.close() }\n"@
        + concat_all(def.funcs@.map_values(|f: Func| func_stub(f, names))) + "}\n"@
}

/// Every type that a function's arguments and answer refer to has an identifier.
pub open spec fn func_named(f: Func, names: Seq<(String, String)>) -> bool {
    &&& forall|a: int| 0 <= a < f.args@.len() ==> all_named(#[trigger] f.args@[a], names)
    &&& match f.output {
        FuncOutput::Unary(r) => all_named(r, names),
        FuncOutput::ServerStream { yield_ty, return_ty } => all_named(yield_ty, names) && all_named(return_ty, names),
    }
}

pub fn func_is_named(f: &Func, ident_map: &IdentMap) -> (r: bool)
    ensures
        r == func_named(*f, ident_map.entries()),
{
    let mut a: usize = 0;
    while a < f.args.len()
        invariant
            a <= f.args@.len(),
            forall|j: int| 0 <= j < a ==> all_named(#[trigger] f.args@[j], ident_map.entries()),
        decreases f.args@.len() - a,
    {
        if !ty_named(&f.args[a], ident_map) {
            return false;
        }
        a = a + 1;
    }
    match &f.output {
        FuncOutput::Unary(r) => ty_named(r, ident_map),
        FuncOutput::ServerStream { yield_ty, return_ty } => ty_named(yield_ty, ident_map) && ty_named(return_ty, ident_map),
    }
}

fn params_text(args: &Vec<Ty>, ident_map: &IdentMap) -> (r: String)
    requires
        forall|a: int| 0 <= a < args@.len() ==> all_named(#[trigger] args@[a], ident_map.entries()),
    ensures
        r@ == params(args@, ident_map.entries()),
{
    let ghost names = ident_map.entries();
    let ghost g = |i: int, t: Ty| "_"@ + decimal(i as nat) + ": "@ + js_ty(t, names) + ", "@;
    let mut out = String::new();
    let mut i: usize = 0;
    while i < args.len()
        invariant
            i <= args@.len(),
            names == ident_map.entries(),
            forall|a: int| 0 <= a < args@.len() ==> all_named(#[trigger] args@[a], names),
            g == |i: int, t: Ty| "_"@ + decimal(i as nat) + ": "@ + js_ty(t, names) + ", "@,
            out@ == concat_all(args@.subrange(0, i as int).map(g)),
        decreases args@.len() - i,
    {
        out.append("_");
        out.append(fmt_u128(i as u128).as_str());
        out.append(": ");
        out.append(fmt_js_ty(&args[i], ident_map).as_str());
        out.append(", ");
        proof {
            assert(args@.subrange(0, i + 1).map(g) =~= args@.subrange(0, i as int).map(g).push(g(i as int, args@[i as int])));
            lemma_concat_push(args@.subrange(0, i as int).map(g), g(i as int, args@[i as int]));
        }
        i = i + 1;
    }
    assert(args@.subrange(0, args@.len() as int) =~= args@);
    out
}

fn arg_writes_text(args: &Vec<Ty>, ident_map: &IdentMap) -> (r: String)
    requires
        forall|a: int| 0 <= a < args@.len() ==> all_named(#[trigger] args@[a], ident_map.entries()),
    ensures
        r@ == arg_writes(args@, ident_map.entries()),
{
    let ghost names = ident_map.entries();
    let ghost g = |i: int, t: Ty| arg_write(i, t, names);
    let mut out = String::new();
    let mut i: usize = 0;
    while i < args.len()
        invariant
            i <= args@.len(),
            names == ident_map.entries(),
            forall|a: int| 0 <= a < args@.len() ==> all_named(#[trigger] args@[a], names),
            g == |i: int, t: Ty| arg_write(i, t, names),
            out@ == concat_all(args@.subrange(0, i as int).map(g)),
        decreases args@.len() - i,
    {
        match &args[i] {
            Ty::CustomType(p) => {
                proof { assert(mentions(args@[i as int], p@)); }
                out.append("extern.");
                match ident_map.get(p.as_str()) {
                    Some(id) => out.append(id.as_str()),
                    None => {},
                }
                out.append("(d, _");
            },
            _ => {
                out.append(fmt_ty(&args[i], "extern", ident_map).as_str());
                out.append("(_");
            },
        }
        out.append(fmt_u128(i as u128).as_str());
        out.append(");\n");
        proof {
            assert(args@.subrange(0, i + 1).map(g) =~= args@.subrange(0, i as int).map(g).push(g(i as int, args@[i as int])));
            lemma_concat_push(args@.subrange(0, i as int).map(g), g(i as int, args@[i as int]));
        }
        i = i + 1;
    }
    assert(args@.subrange(0, args@.len() as int) =~= args@);
    out
}

fn answer_text(out: &FuncOutput, ident_map: &IdentMap) -> (r: String)
    requires
        match *out {
            FuncOutput::Unary(r) => all_named(r, ident_map.entries()),
            FuncOutput::ServerStream { yield_ty, return_ty } => all_named(yield_ty, ident_map.entries())
                && all_named(return_ty, ident_map.entries()),
        },
    ensures
        r@ == answer(*out, ident_map.entries()),
{
    match out {
        FuncOutput::Unary(r) => {
            let mut s = String::from_str("async data => {\n");
            s.append("let _buf = await data\n");
            if !r.is_empty_tuple() {
                s.append("let d = use.Decoder.from(_buf);\n");
                s.append("return ");
                s.append(decode_data(r, ident_map).as_str());
                s.append("\n");
            } else {
                assert(s@ =~= s@ + Seq::<char>::empty());
            }
            s.append("},\n");
            s
        },
        FuncOutput::ServerStream { yield_ty, return_ty } => {
            let mut s = String::from_str("async function* (s) {\n");
            s.append("while (true) {\n");
            s.append("let { value, done } = await s.next();\n");
            s.append("let d = use.Decoder.from(value);\n");
            s.append("if (done) {\n");
            s.append("return ");
            s.append(decode_data(return_ty, ident_map).as_str());
            s.append("\n");
            s.append("}\n");
            s.append("yield ");
            s.append(decode_data(yield_ty, ident_map).as_str());
            s.append("\n");
            s.append("}\n");
            s.append("}\n");
            s
        },
    }
}

/// The stub method of one function.
pub fn write_func_stub(f: &Func, ident_map: &IdentMap) -> (r: String)
    requires
        func_named(*f, ident_map.entries()),
    ensures
        r@ == func_stub(*f, ident_map.entries()),
{
    let mut s = write_doc_comments(f.docs.as_str());
    s.append(flatten_name(f.ident.unraw()).as_str());
    s.append("(");
    s.append(params_text(&f.args, ident_map).as_str());
    s.append(") {\n");
    s.append("return use.make_call(this.rpc, ");
    match &f.output {
        FuncOutput::Unary(_) => s.append("\"unary\""),
        FuncOutput::ServerStream { .. } => s.append("\"sse\""),
    }
    s.append(", ");
    s.append(fmt_u128(f.index as u128).as_str());
    s.append(",\n");
    s.append("d => {\n");
    s.append(arg_writes_text(&f.args, ident_map).as_str());
    s.append("},\n");
    s.append(answer_text(&f.output, ident_map).as_str());
    s.append(")\n");
    s.append("}\n");
    s
}

/// The stub class of a service whose functions' types all have identifiers.
pub fn write_stub(def: &TypeDef, ident_map: &IdentMap) -> (r: String)
    requires
        forall|i: int| 0 <= i < def.funcs@.len() ==> func_named(#[trigger] def.funcs@[i], ident_map.entries()),
    ensures
        r@ == stub_class(*def, ident_map.entries()),
{
    let ghost names = ident_map.entries();
    let ghost g = |f: Func| func_stub(f, names);
    let mut s = write_doc_comments(def.docs.as_str());
    s.append("export default class Self {\n");
    s.append("constructor(private rpc: use.RpcTransport) {}\n");
    s.append("static close(this: Self) { this.rpc.close() }\n");
    let ghost head = s@;
    let mut body = String::new();
    let mut i: usize = 0;
    while i < def.funcs.len()
        invariant
            i <= def.funcs@.len(),
            names == ident_map.entries(),
            forall|j: int| 0 <= j < def.funcs@.len() ==> func_named(#[trigger] def.funcs@[j], names),
            g == |f: Func| func_stub(f, names),
            body@ == concat_all(def.funcs@.subrange(0, i as int).map_values(g)),
        decreases def.funcs@.len() - i,
    {
        body.append(write_func_stub(&def.funcs[i], ident_map).as_str());
        proof {
            assert(def.funcs@.subrange(0, i + 1).map_values(g) =~= def.funcs@.subrange(0, i as int).map_values(g).push(g(def.funcs@[i as int])));
            lemma_concat_push(def.funcs@.subrange(0, i as int).map_values(g), g(def.funcs@[i as int]));
        }
        i = i + 1;
    }
    assert(def.funcs@.subrange(0, def.funcs@.len() as int) =~= def.funcs@);
    s.append(body.as_str());
    s.append("}\n");
    s
}

} // verus!

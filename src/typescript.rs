//! Text of the generated TypeScript client: the type each wire shape takes
//! there, and the codec expression that reads or writes it.
use vstd::prelude::*;
use vstd::string::*;
use crate::schema::{Ty, EnumRepr, EnumField, TupleField};
use crate::naming::{IdentMap, lookup};

verus! {

/// The digit character of `d`.
pub open spec fn digit_char(d: nat) -> char {
    if d == 0 { '0' } else if d == 1 { '1' } else if d == 2 { '2' } else if d == 3 { '3' }
    else if d == 4 { '4' } else if d == 5 { '5' } else if d == 6 { '6' } else if d == 7 { '7' }
    else if d == 8 { '8' } else { '9' }
}

/// `n` written in decimal.
pub open spec fn decimal(n: nat) -> Seq<char>
    decreases n,
{
    if n < 10 {
        seq![digit_char(n)]
    } else {
        decimal(n / 10) + seq![digit_char(n % 10)]
    }
}

/// `v` written in decimal, with a `-` when it is negative.
pub open spec fn signed_decimal(v: int) -> Seq<char> {
    if v < 0 { seq!['-'] + decimal((-v) as nat) } else { decimal(v as nat) }
}

fn digit_str(d: u128) -> (r: &'static str)
    requires
        d < 10,
    ensures
        r@ == seq![digit_char(d as nat)],
{
    proof {
        reveal_strlit("0"); reveal_strlit("1"); reveal_strlit("2"); reveal_strlit("3"); reveal_strlit("4");
        reveal_strlit("5"); reveal_strlit("6"); reveal_strlit("7"); reveal_strlit("8"); reveal_strlit("9");
    }
    if d == 0 { "0" } else if d == 1 { "1" } else if d == 2 { "2" } else if d == 3 { "3" }
    else if d == 4 { "4" } else if d == 5 { "5" } else if d == 6 { "6" } else if d == 7 { "7" }
    else if d == 8 { "8" } else { "9" }
}

/// Writes `n` in decimal.
pub fn fmt_u128(n: u128) -> (r: String)
    ensures
        r@ == decimal(n as nat),
    decreases n,
{
    if n < 10 {
        String::from_str(digit_str(n))
    } else {
        let mut s = fmt_u128(n / 10);
        s.append(digit_str(n % 10));
        s
    }
}

/// Writes `v` in decimal, with a `-` when it is negative.
pub fn fmt_i128(v: i128) -> (r: String)
    requires
        v > i128::MIN,
    ensures
        r@ == signed_decimal(v as int),
{
    if v < 0 {
        let mut s = String::from_str("-");
        proof { reveal_strlit("-"); }
        s.append(fmt_u128((-v) as u128).as_str());
        s
    } else {
        fmt_u128(v as u128)
    }
}

/// `a`, `b` and `c` one after another.
fn concat3(a: &str, b: &str, c: &str) -> (r: String)
    ensures
        r@ == a@ + b@ + c@,
{
    let mut s = String::from_str(a);
    s.append(b);
    s.append(c);
    s
}

/// `a` to `e` one after another.
fn concat5(a: &str, b: &str, c: &str, d: &str, e: &str) -> (r: String)
    ensures
        r@ == a@ + b@ + c@ + d@ + e@,
{
    let mut s = String::from_str(a);
    s.append(b);
    s.append(c);
    s.append(d);
    s.append(e);
    s
}

/// Whether a discriminant is 64 bits wide on this platform, and so a
/// `bigint` in TypeScript.
pub open spec fn is_wide(r: EnumRepr) -> bool {
    match r {
        EnumRepr::u64(_) | EnumRepr::i64(_) => true,
        EnumRepr::usize(_) | EnumRepr::isize(_) => usize::BITS >= 64,
        _ => false,
    }
}

/// A discriminant as a TypeScript literal: a `bigint` literal, with `n`,
/// where it is 64 bits wide.
pub open spec fn repr_literal(r: EnumRepr) -> Seq<char> {
    if is_wide(r) { signed_decimal(r.value()) + "n"@ } else { signed_decimal(r.value()) }
}

pub fn enum_repr_value(r: &EnumRepr) -> (s: String)
    ensures
        s@ == repr_literal(*r),
{
    let v: i128 = match *r {
        EnumRepr::u8(v) => v as i128,
        EnumRepr::u16(v) => v as i128,
        EnumRepr::u32(v) => v as i128,
        EnumRepr::u64(v) => v as i128,
        EnumRepr::usize(v) => v as i128,
        EnumRepr::i8(v) => v as i128,
        EnumRepr::i16(v) => v as i128,
        EnumRepr::i32(v) => v as i128,
        EnumRepr::i64(v) => v as i128,
        EnumRepr::isize(v) => v as i128,
    };
    let wide = match *r {
        EnumRepr::u64(_) | EnumRepr::i64(_) => true,
        EnumRepr::usize(_) | EnumRepr::isize(_) => usize::BITS >= 64,
        _ => false,
    };
    let mut s = fmt_i128(v);
    if wide {
        s.append("n");
    }
    s
}

/// The reader or writer method for a discriminant's width.
pub open spec fn repr_method(r: EnumRepr) -> Seq<char> {
    match r {
        EnumRepr::u8(_) => "u8"@,
        EnumRepr::i8(_) => "i8"@,
        EnumRepr::u16(_) => "num('U', 16)"@,
        EnumRepr::u32(_) => "num('U', 32)"@,
        EnumRepr::u64(_) => "num('U', 64)"@,
        EnumRepr::i16(_) => "num('I', 16)"@,
        EnumRepr::i32(_) => "num('I', 32)"@,
        EnumRepr::i64(_) => "num('I', 64)"@,
        EnumRepr::usize(_) => if usize::BITS == 64 { "num('U', 64)"@ } else { "num('U', 32)"@ },
        EnumRepr::isize(_) => if usize::BITS == 64 { "num('I', 64)"@ } else { "num('I', 32)"@ },
    }
}

pub fn enum_repr_ty(r: &EnumRepr) -> (s: &'static str)
    ensures
        s@ == repr_method(*r),
{
    match *r {
        EnumRepr::u8(_) => "u8",
        EnumRepr::i8(_) => "i8",
        EnumRepr::u16(_) => "num('U', 16)",
        EnumRepr::u32(_) => "num('U', 32)",
        EnumRepr::u64(_) => "num('U', 64)",
        EnumRepr::i16(_) => "num('I', 16)",
        EnumRepr::i32(_) => "num('I', 32)",
        EnumRepr::i64(_) => "num('I', 64)",
        EnumRepr::usize(_) => if usize::BITS == 64 { "num('U', 64)" } else { "num('U', 32)" },
        EnumRepr::isize(_) => if usize::BITS == 64 { "num('I', 64)" } else { "num('I', 32)" },
    }
}

/// The tags of an enum's variants from the `i`-th on, when the next implicit
/// tag would be `next`: an explicit discriminant is written as it is and the
/// count goes on from it; an implicit one takes the count.
pub open spec fn tags_from(fields: Seq<EnumField>, i: int, next: int) -> Seq<Seq<char>>
    decreases fields.len() - i,
{
    if i >= fields.len() {
        Seq::empty()
    } else {
        match fields[i].index {
            Some(r) => seq![repr_literal(r)] + tags_from(fields, i + 1, r.value() + 1),
            None => seq![signed_decimal(next)] + tags_from(fields, i + 1, next + 1),
        }
    }
}

/// The tag of each variant, in declaration order.
pub fn enum_tags(fields: &Vec<EnumField>) -> (r: Vec<String>)
    requires
        fields@.len() < 0x1_0000_0000,
    ensures
        crate::naming::views(r@) == tags_from(fields@, 0, 0),
{
    let mut out: Vec<String> = Vec::new();
    let mut next: i128 = 0;
    let mut i: usize = 0;
    while i < fields.len()
        invariant
            i <= fields@.len(),
            fields@.len() < 0x1_0000_0000,
            -0x8000_0000_0000_0000 <= next <= 0x1_0000_0000_0000_0000 + i,
            crate::naming::views(out@) + tags_from(fields@, i as int, next as int) == tags_from(fields@, 0, 0),
        decreases fields@.len() - i,
    {
        let ghost before = out@;
        let ghost old_next = next;
        match &fields[i].index {
            Some(r) => {
                out.push(enum_repr_value(r));
                next = match *r {
                    EnumRepr::u8(v) => v as i128,
                    EnumRepr::u16(v) => v as i128,
                    EnumRepr::u32(v) => v as i128,
                    EnumRepr::u64(v) => v as i128,
                    EnumRepr::usize(v) => v as i128,
                    EnumRepr::i8(v) => v as i128,
                    EnumRepr::i16(v) => v as i128,
                    EnumRepr::i32(v) => v as i128,
                    EnumRepr::i64(v) => v as i128,
                    EnumRepr::isize(v) => v as i128,
                } + 1;
            },
            None => {
                out.push(fmt_i128(next));
                next = next + 1;
            },
        }
        proof {
            assert(crate::naming::views(out@) =~= crate::naming::views(before).push(out@.last()@));
            assert(tags_from(fields@, i as int, old_next as int) == seq![out@.last()@] + tags_from(fields@, i + 1, next as int));
            assert(crate::naming::views(out@) + tags_from(fields@, i + 1, next as int)
                =~= crate::naming::views(before) + tags_from(fields@, i as int, old_next as int));
        }
        i = i + 1;
    }
    proof {
        assert(tags_from(fields@, i as int, next as int) =~= Seq::<Seq<char>>::empty());
        assert(crate::naming::views(out@) =~= crate::naming::views(out@) + Seq::<Seq<char>>::empty());
    }
    out
}


/// Whether every path that `ty` refers to has an identifier.
pub open spec fn all_named(ty: Ty, names: Seq<(String, String)>) -> bool {
    forall|p: Seq<char>| #[trigger] crate::reach::mentions(ty, p) ==> lookup(names, p) is Some
}

/// The TypeScript type of a wire shape.
pub open spec fn js_ty(ty: Ty, names: Seq<(String, String)>) -> Seq<char>
    decreases ty, 0int,
{
    match ty {
        Ty::u8 | Ty::u16 | Ty::u32 | Ty::i8 | Ty::i16 | Ty::i32 | Ty::Float32 | Ty::Float64 => "number"@,
        Ty::u64 | Ty::i64 | Ty::u128 | Ty::i128 => "bigint"@,
        Ty::bool => "boolean"@,
        Ty::String => "string"@,
        Ty::Array { ty: t, .. } | Ty::SetOf { ty: t, .. } => match *t {
            Ty::u8 => "Uint8Array"@,
            Ty::i8 => "Int8Array"@,
            Ty::Float32 => "Float32Array"@,
            Ty::Float64 => "Float64Array"@,
            _ => "Array<"@ + js_ty(*t, names) + ">"@,
        },
        Ty::Option(t) => "use.Option<"@ + js_ty(*t, names) + ">"@,
        Ty::Result(b) => "use.Result<"@ + js_ty(b.0, names) + ", "@ + js_ty(b.1, names) + ">"@,
        Ty::MapOf { ty: b, .. } => "Map<"@ + js_ty(b.0, names) + ", "@ + js_ty(b.1, names) + ">"@,
        Ty::Tuple(v) => if v.len() == 0 {
            "null"@
        } else {
            "["@ + js_tys(v, v.len() as int, names) + "]"@
        },
        Ty::CustomType(p) => lookup(names, p@)->Some_0,
    }
}

/// The TypeScript types of the first `k` shapes, separated by `, `.
pub open spec fn js_tys(v: Vec<Ty>, k: int, names: Seq<(String, String)>) -> Seq<char>
    decreases v, k,
{
    if k <= 0 || k > v.len() {
        Seq::empty()
    } else if k == 1 {
        js_ty(v[0], names)
    } else {
        js_tys(v, k - 1, names) + ", "@ + js_ty(v[k - 1], names)
    }
}

/// The TypeScript type of `ty`; every path it refers to must have an identifier.
pub fn fmt_js_ty(ty: &Ty, ident_map: &IdentMap) -> (r: String)
    requires
        all_named(*ty, ident_map.entries()),
    ensures
        r@ == js_ty(*ty, ident_map.entries()),
    decreases *ty,
{
    let ghost names = ident_map.entries();
    match ty {
        Ty::u8 | Ty::u16 | Ty::u32 | Ty::i8 | Ty::i16 | Ty::i32 | Ty::Float32 | Ty::Float64 => String::from_str("number"),
        Ty::u64 | Ty::i64 | Ty::u128 | Ty::i128 => String::from_str("bigint"),
        Ty::bool => String::from_str("boolean"),
        Ty::String => String::from_str("string"),
        Ty::Array { ty: t, .. } | Ty::SetOf { ty: t, .. } => match **t {
            Ty::u8 => String::from_str("Uint8Array"),
            Ty::i8 => String::from_str("Int8Array"),
            Ty::Float32 => String::from_str("Float32Array"),
            Ty::Float64 => String::from_str("Float64Array"),
            _ => {
                proof { assert forall|p: Seq<char>| #[trigger] crate::reach::mentions(**t, p) implies lookup(names, p) is Some by {
                    assert(crate::reach::mentions(*ty, p));
                } }
                concat3("Array<", fmt_js_ty(t, ident_map).as_str(), ">")
            },
        },
        Ty::Option(t) => {
            proof { assert forall|p: Seq<char>| #[trigger] crate::reach::mentions(**t, p) implies lookup(names, p) is Some by {
                assert(crate::reach::mentions(*ty, p));
            } }
            concat3("use.Option<", fmt_js_ty(t, ident_map).as_str(), ">")
        },
        Ty::Result(b) => {
            proof { lemma_named_pair(*ty, b.0, b.1, names); }
            let a = fmt_js_ty(&b.0, ident_map);
            let c = fmt_js_ty(&b.1, ident_map);
            concat5("use.Result<", a.as_str(), ", ", c.as_str(), ">")
        },
        Ty::MapOf { ty: b, .. } => {
            proof { lemma_named_pair(*ty, b.0, b.1, names); }
            let a = fmt_js_ty(&b.0, ident_map);
            let c = fmt_js_ty(&b.1, ident_map);
            concat5("Map<", a.as_str(), ", ", c.as_str(), ">")
        },
        Ty::Tuple(v) => {
            if v.len() == 0 {
                String::from_str("null")
            } else {
                let mut inner = String::new();
                let mut i: usize = 0;
                while i < v.len()
                    invariant
                        i <= v@.len(),
                        names == ident_map.entries(),
                        *ty == Ty::Tuple(*v),
                        all_named(*ty, names),
                        inner@ == js_tys(*v, i as int, names),
                    decreases v@.len() - i,
                {
                    proof {
                        assert(decreases_to!(*ty => ty->Tuple_0));
                        assert(decreases_to!(*v => v[i as int]));
                        assert forall|p: Seq<char>| #[trigger] crate::reach::mentions(v[i as int], p) implies lookup(names, p) is Some by {
                            assert(crate::reach::mentions(*ty, p));
                        }
                    }
                    let e = fmt_js_ty(&v[i], ident_map);
                    if i > 0 {
                        inner.append(", ");
                    } else {
                        assert(inner@ =~= Seq::<char>::empty());
                    }
                    inner.append(e.as_str());
                    i = i + 1;
                }
                concat3("[", inner.as_str(), "]")
            }
        },
        Ty::CustomType(p) => {
            proof { assert(crate::reach::mentions(*ty, p@)); }
            match ident_map.get(p.as_str()) {
                Some(id) => id.clone(),
                None => String::new(),
            }
        },
    }
}

proof fn lemma_named_pair(outer: Ty, a: Ty, b: Ty, names: Seq<(String, String)>)
    requires
        all_named(outer, names),
        forall|p: Seq<char>| #[trigger] crate::reach::mentions(a, p) ==> crate::reach::mentions(outer, p),
        forall|p: Seq<char>| #[trigger] crate::reach::mentions(b, p) ==> crate::reach::mentions(outer, p),
    ensures
        all_named(a, names),
        all_named(b, names),
{
    assert forall|p: Seq<char>| #[trigger] crate::reach::mentions(a, p) implies lookup(names, p) is Some by {
        assert(crate::reach::mentions(outer, p));
    }
    assert forall|p: Seq<char>| #[trigger] crate::reach::mentions(b, p) implies lookup(names, p) is Some by {
        assert(crate::reach::mentions(outer, p));
    }
}


/// The client codec expression for a wire shape: a reader, or a writer when
/// `scope` is that of the encoders; a user type goes through its function in
/// `scope`.
pub open spec fn codec(ty: Ty, scope: Seq<char>, names: Seq<(String, String)>) -> Seq<char>
    decreases ty, 0int,
{
    match ty {
        Ty::u8 => "d.u8"@,
        Ty::u16 => "d.num('U', 16)"@,
        Ty::u32 => "d.num('U', 32)"@,
        Ty::u64 => "d.num('U', 64)"@,
        Ty::u128 => "d.num('U', 128)"@,
        Ty::i8 => "d.i8"@,
        Ty::i16 => "d.num('I', 16)"@,
        Ty::i32 => "d.num('I', 32)"@,
        Ty::i64 => "d.num('I', 64)"@,
        Ty::i128 => "d.num('I', 128)"@,
        Ty::Float32 => "d.f32"@,
        Ty::Float64 => "d.f64"@,
        Ty::bool => "d.bool"@,
        Ty::String => "d.str"@,
        Ty::Option(t) => "d.option("@ + codec(*t, scope, names) + ")"@,
        Ty::Result(b) => "d.result("@ + codec(b.0, scope, names) + ", "@ + codec(b.1, scope, names) + ")"@,
        Ty::Tuple(v) => if v.len() == 0 {
            "d.null"@
        } else {
            "d.tuple("@ + codecs(v, v.len() as int, scope, names) + ")"@
        },
        Ty::Array { len, ty: t } => match *t {
            Ty::u8 => "d.fixed_buf('u8', "@ + decimal(len as nat) + ")"@,
            Ty::i8 => "d.fixed_buf('i8', "@ + decimal(len as nat) + ")"@,
            Ty::Float32 => "d.fixed_buf('f32', "@ + decimal(len as nat) + ")"@,
            Ty::Float64 => "d.fixed_buf('f64', "@ + decimal(len as nat) + ")"@,
            _ => "d.fixed_arr("@ + codec(*t, scope, names) + ", "@ + decimal(len as nat) + ")"@,
        },
        Ty::SetOf { ty: t, .. } => match *t {
            Ty::u8 => "d.buf('u8')"@,
            Ty::i8 => "d.buf('i8')"@,
            Ty::Float32 => "d.buf('f32')"@,
            Ty::Float64 => "d.buf('f64')"@,
            _ => "d.arr("@ + codec(*t, scope, names) + ")"@,
        },
        Ty::MapOf { ty: b, .. } => "d.map("@ + codec(b.0, scope, names) + ", "@ + codec(b.1, scope, names) + ")"@,
        Ty::CustomType(p) => scope + "."@ + lookup(names, p@)->Some_0 + ".bind(0, d)"@,
    }
}

/// The codec expressions of the first `k` shapes, each followed by `,`.
pub open spec fn codecs(v: Vec<Ty>, k: int, scope: Seq<char>, names: Seq<(String, String)>) -> Seq<char>
    decreases v, k,
{
    if k <= 0 || k > v.len() {
        Seq::empty()
    } else {
        codecs(v, k - 1, scope, names) + codec(v[k - 1], scope, names) + ","@
    }
}

/// The codec expression of `ty`; every path it refers to must have an identifier.
pub fn fmt_ty(ty: &Ty, scope: &str, ident_map: &IdentMap) -> (r: String)
    requires
        all_named(*ty, ident_map.entries()),
    ensures
        r@ == codec(*ty, scope@, ident_map.entries()),
    decreases *ty,
{
    let ghost names = ident_map.entries();
    match ty {
        Ty::u8 => String::from_str("d.u8"),
        Ty::u16 => String::from_str("d.num('U', 16)"),
        Ty::u32 => String::from_str("d.num('U', 32)"),
        Ty::u64 => String::from_str("d.num('U', 64)"),
        Ty::u128 => String::from_str("d.num('U', 128)"),
        Ty::i8 => String::from_str("d.i8"),
        Ty::i16 => String::from_str("d.num('I', 16)"),
        Ty::i32 => String::from_str("d.num('I', 32)"),
        Ty::i64 => String::from_str("d.num('I', 64)"),
        Ty::i128 => String::from_str("d.num('I', 128)"),
        Ty::Float32 => String::from_str("d.f32"),
        Ty::Float64 => String::from_str("d.f64"),
        Ty::bool => String::from_str("d.bool"),
        Ty::String => String::from_str("d.str"),
        Ty::Option(t) => {
            proof { assert forall|p: Seq<char>| #[trigger] crate::reach::mentions(**t, p) implies lookup(names, p) is Some by {
                assert(crate::reach::mentions(*ty, p));
            } }
            concat3("d.option(", fmt_ty(t, scope, ident_map).as_str(), ")")
        },
        Ty::Result(b) => {
            proof { lemma_named_pair(*ty, b.0, b.1, names); }
            let a = fmt_ty(&b.0, scope, ident_map);
            let c = fmt_ty(&b.1, scope, ident_map);
            concat5("d.result(", a.as_str(), ", ", c.as_str(), ")")
        },
        Ty::MapOf { ty: b, .. } => {
            proof { lemma_named_pair(*ty, b.0, b.1, names); }
            let a = fmt_ty(&b.0, scope, ident_map);
            let c = fmt_ty(&b.1, scope, ident_map);
            concat5("d.map(", a.as_str(), ", ", c.as_str(), ")")
        },
        Ty::Array { len, ty: t } => match **t {
            Ty::u8 => concat3("d.fixed_buf('u8', ", fmt_u128(*len as u128).as_str(), ")"),
            Ty::i8 => concat3("d.fixed_buf('i8', ", fmt_u128(*len as u128).as_str(), ")"),
            Ty::Float32 => concat3("d.fixed_buf('f32', ", fmt_u128(*len as u128).as_str(), ")"),
            Ty::Float64 => concat3("d.fixed_buf('f64', ", fmt_u128(*len as u128).as_str(), ")"),
            _ => {
                proof { assert forall|p: Seq<char>| #[trigger] crate::reach::mentions(**t, p) implies lookup(names, p) is Some by {
                    assert(crate::reach::mentions(*ty, p));
                } }
                let e = fmt_ty(t, scope, ident_map);
                concat5("d.fixed_arr(", e.as_str(), ", ", fmt_u128(*len as u128).as_str(), ")")
            },
        },
        Ty::SetOf { ty: t, .. } => match **t {
            Ty::u8 => String::from_str("d.buf('u8')"),
            Ty::i8 => String::from_str("d.buf('i8')"),
            Ty::Float32 => String::from_str("d.buf('f32')"),
            Ty::Float64 => String::from_str("d.buf('f64')"),
            _ => {
                proof { assert forall|p: Seq<char>| #[trigger] crate::reach::mentions(**t, p) implies lookup(names, p) is Some by {
                    assert(crate::reach::mentions(*ty, p));
                } }
                concat3("d.arr(", fmt_ty(t, scope, ident_map).as_str(), ")")
            },
        },
        Ty::Tuple(v) => {
            if v.len() == 0 {
                String::from_str("d.null")
            } else {
                let mut inner = String::new();
                let mut i: usize = 0;
                while i < v.len()
                    invariant
                        i <= v@.len(),
                        names == ident_map.entries(),
                        *ty == Ty::Tuple(*v),
                        all_named(*ty, names),
                        inner@ == codecs(*v, i as int, scope@, names),
                    decreases v@.len() - i,
                {
                    proof {
                        assert(decreases_to!(*ty => ty->Tuple_0));
                        assert(decreases_to!(*v => v[i as int]));
                        assert forall|p: Seq<char>| #[trigger] crate::reach::mentions(v[i as int], p) implies lookup(names, p) is Some by {
                            assert(crate::reach::mentions(*ty, p));
                        }
                    }
                    let e = fmt_ty(&v[i], scope, ident_map);
                    inner.append(e.as_str());
                    inner.append(",");
                    i = i + 1;
                }
                concat3("d.tuple(", inner.as_str(), ")")
            }
        },
        Ty::CustomType(p) => {
            proof { assert(crate::reach::mentions(*ty, p@)); }
            let id = match ident_map.get(p.as_str()) {
                Some(id) => id.clone(),
                None => String::new(),
            };
            let mut s = String::from_str(scope);
            s.append(".");
            s.append(id.as_str());
            s.append(".bind(0, d)");
            s
        },
    }
}

/// The codec of a tuple struct's fields: `d.tuple(` then each field's codec
/// followed by `,`, then `)`.
pub open spec fn tuple_codec(fields: Seq<TupleField>, scope: Seq<char>, names: Seq<(String, String)>) -> Seq<char> {
    "d.tuple("@ + field_codecs(fields, fields.len() as int, scope, names) + ")"@
}

pub open spec fn field_codecs(fields: Seq<TupleField>, k: int, scope: Seq<char>, names: Seq<(String, String)>) -> Seq<char>
    decreases k,
{
    if k <= 0 || k > fields.len() {
        Seq::empty()
    } else {
        field_codecs(fields, k - 1, scope, names) + codec(fields[k - 1].ty, scope, names) + ","@
    }
}

pub fn fmt_tuple(fields: &Vec<TupleField>, scope: &str, ident_map: &IdentMap) -> (r: String)
    requires
        forall|i: int| 0 <= i < fields@.len() ==> all_named(#[trigger] fields@[i].ty, ident_map.entries()),
    ensures
        r@ == tuple_codec(fields@, scope@, ident_map.entries()),
{
    let mut inner = String::new();
    let mut i: usize = 0;
    while i < fields.len()
        invariant
            i <= fields@.len(),
            forall|j: int| 0 <= j < fields@.len() ==> all_named(#[trigger] fields@[j].ty, ident_map.entries()),
            inner@ == field_codecs(fields@, i as int, scope@, ident_map.entries()),
        decreases fields@.len() - i,
    {
        let e = fmt_ty(&fields[i].ty, scope, ident_map);
        inner.append(e.as_str());
        inner.append(",");
        i = i + 1;
    }
    concat3("d.tuple(", inner.as_str(), ")")
}

/// The client expression that decodes a returned value from `d`: nothing for
/// the empty tuple, which takes no bytes and leaves the decoder untouched; a
/// user type's decoder function; otherwise the reader applied.
pub open spec fn decode_expr(ty: Ty, names: Seq<(String, String)>) -> Seq<char> {
    if ty.spec_is_empty_tuple() {
        Seq::empty()
    } else {
        match ty {
            Ty::CustomType(p) => "struct."@ + lookup(names, p@)->Some_0 + "(d)"@,
            _ => codec(ty, "struct"@, names) + "()"@,
        }
    }
}

pub fn decode_data(ty: &Ty, ident_map: &IdentMap) -> (r: String)
    requires
        all_named(*ty, ident_map.entries()),
    ensures
        r@ == decode_expr(*ty, ident_map.entries()),
        ty.spec_is_empty_tuple() ==> r@.len() == 0,
{
    if ty.is_empty_tuple() {
        return String::new();
    }
    match ty {
        Ty::CustomType(p) => {
            proof { assert(crate::reach::mentions(*ty, p@)); }
            let id = match ident_map.get(p.as_str()) {
                Some(id) => id.clone(),
                None => String::new(),
            };
            concat3("struct.", id.as_str(), "(d)")
        },
        _ => {
            let mut e = fmt_ty(ty, "struct", ident_map);
            e.append("()");
            e
        },
    }
}

} // verus!

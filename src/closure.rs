//! Whether every path that a service's types refer to is registered.
use vstd::prelude::*;
use crate::schema::{Ty, CustomTypeKind, EnumKind, StructField, TupleField};
use crate::registry::CostomTypes;
use crate::message::{FuncOutput, TypeDef};
use crate::reach::{mentions, kind_mentions, variant_mentions, struct_fields_mention, tuple_fields_mention,
    ty_registered, kind_registered, registry_closed, output_registered, def_closed};

verus! {

/// Whether every path that `ty` refers to is registered.
pub fn ty_is_registered(ty: &Ty, reg: &CostomTypes) -> (r: bool)
    requires
        reg.wf(),
    ensures
        r == ty_registered(*reg, *ty),
    decreases *ty,
{
    let ghost names = *reg;
    match ty {
        Ty::Option(t) => {
            let r = ty_is_registered(t, reg);
            proof { lemma_registered_via(*ty, **t, names); }
            r
        },
        Ty::Array { ty: t, .. } => {
            let r = ty_is_registered(t, reg);
            proof { lemma_registered_via(*ty, **t, names); }
            r
        },
        Ty::SetOf { ty: t, .. } => {
            let r = ty_is_registered(t, reg);
            proof { lemma_registered_via(*ty, **t, names); }
            r
        },
        Ty::Result(b) => {
            let r = ty_is_registered(&b.0, reg) && ty_is_registered(&b.1, reg);
            proof { lemma_registered_pair_iff(*ty, b.0, b.1, names); }
            r
        },
        Ty::MapOf { ty: b, .. } => {
            let r = ty_is_registered(&b.0, reg) && ty_is_registered(&b.1, reg);
            proof { lemma_registered_pair_iff(*ty, b.0, b.1, names); }
            r
        },
        Ty::Tuple(v) => {
            let mut i: usize = 0;
            while i < v.len()
                invariant
                    i <= v@.len(),
                    *ty == Ty::Tuple(*v),
                    names == *reg,
                    reg.wf(),
                    forall|j: int| 0 <= j < i ==> ty_registered(names, #[trigger] v@[j]),
                decreases v@.len() - i,
            {
                proof {
                    assert(decreases_to!(*ty => ty->Tuple_0));
                    assert(decreases_to!(*v => v[i as int]));
                }
                if !ty_is_registered(&v[i], reg) {
                    proof {
                        let p = choose|p: Seq<char>| #[trigger] mentions(v@[i as int], p) && !names@.contains_key(p);
                        assert(mentions(*ty, p));
                    }
                    return false;
                }
                i = i + 1;
            }
            proof {
                assert forall|p: Seq<char>| #[trigger] mentions(*ty, p) implies names@.contains_key(p) by {
                    let j = choose|j: int| 0 <= j < v.len() && mentions(#[trigger] v[j], p);
                    assert(ty_registered(names, v@[j]));
                }
            }
            true
        },
        Ty::CustomType(p) => {
            let r = reg.contains(p.as_str());
            proof {
                if !r {
                    assert(mentions(*ty, p@));
                }
            }
            r
        },
        _ => {
            proof {
                assert forall|p: Seq<char>| #[trigger] mentions(*ty, p) implies names@.contains_key(p) by {}
            }
            true
        },
    }
}

proof fn lemma_registered_via(outer: Ty, inner: Ty, names: CostomTypes)
    requires
        forall|p: Seq<char>| #[trigger] mentions(outer, p) == mentions(inner, p),
    ensures
        ty_registered(names, outer) == ty_registered(names, inner),
{
    if ty_registered(names, inner) {
        assert forall|p: Seq<char>| #[trigger] mentions(outer, p) implies names@.contains_key(p) by {
            assert(mentions(inner, p));
        }
    }
    if ty_registered(names, outer) {
        assert forall|p: Seq<char>| #[trigger] mentions(inner, p) implies names@.contains_key(p) by {
            assert(mentions(outer, p));
        }
    }
}

proof fn lemma_registered_pair_iff(outer: Ty, a: Ty, b: Ty, names: CostomTypes)
    requires
        forall|p: Seq<char>| #[trigger] mentions(outer, p) == (mentions(a, p) || mentions(b, p)),
    ensures
        ty_registered(names, outer) == (ty_registered(names, a) && ty_registered(names, b)),
{
    if ty_registered(names, a) && ty_registered(names, b) {
        assert forall|p: Seq<char>| #[trigger] mentions(outer, p) implies names@.contains_key(p) by {
            if mentions(a, p) {} else { assert(mentions(b, p)); }
        }
    }
    if ty_registered(names, outer) {
        assert forall|p: Seq<char>| #[trigger] mentions(a, p) implies names@.contains_key(p) by {
            assert(mentions(outer, p));
        }
        assert forall|p: Seq<char>| #[trigger] mentions(b, p) implies names@.contains_key(p) by {
            assert(mentions(outer, p));
        }
    }
}

fn struct_fields_registered(fs: &Vec<StructField>, reg: &CostomTypes) -> (r: bool)
    requires
        reg.wf(),
    ensures
        r == forall|p: Seq<char>| #[trigger] struct_fields_mention(fs@, p) ==> reg@.contains_key(p),
{
    let ghost names = *reg;
    let mut i: usize = 0;
    while i < fs.len()
        invariant
            i <= fs@.len(),
            names == *reg,
            reg.wf(),
            forall|j: int| 0 <= j < i ==> ty_registered(names, #[trigger] fs@[j].ty),
        decreases fs@.len() - i,
    {
        if !ty_is_registered(&fs[i].ty, reg) {
            proof {
                let p = choose|p: Seq<char>| #[trigger] mentions(fs@[i as int].ty, p) && !names@.contains_key(p);
                assert(struct_fields_mention(fs@, p));
            }
            return false;
        }
        i = i + 1;
    }
    proof {
        assert forall|p: Seq<char>| #[trigger] struct_fields_mention(fs@, p) implies names@.contains_key(p) by {
            let j = choose|j: int| 0 <= j < fs@.len() && mentions(#[trigger] fs@[j].ty, p);
            assert(ty_registered(names, fs@[j].ty));
        }
    }
    true
}

fn tuple_fields_registered(fs: &Vec<TupleField>, reg: &CostomTypes) -> (r: bool)
    requires
        reg.wf(),
    ensures
        r == forall|p: Seq<char>| #[trigger] tuple_fields_mention(fs@, p) ==> reg@.contains_key(p),
{
    let ghost names = *reg;
    let mut i: usize = 0;
    while i < fs.len()
        invariant
            i <= fs@.len(),
            names == *reg,
            reg.wf(),
            forall|j: int| 0 <= j < i ==> ty_registered(names, #[trigger] fs@[j].ty),
        decreases fs@.len() - i,
    {
        if !ty_is_registered(&fs[i].ty, reg) {
            proof {
                let p = choose|p: Seq<char>| #[trigger] mentions(fs@[i as int].ty, p) && !names@.contains_key(p);
                assert(tuple_fields_mention(fs@, p));
            }
            return false;
        }
        i = i + 1;
    }
    proof {
        assert forall|p: Seq<char>| #[trigger] tuple_fields_mention(fs@, p) implies names@.contains_key(p) by {
            let j = choose|j: int| 0 <= j < fs@.len() && mentions(#[trigger] fs@[j].ty, p);
            assert(ty_registered(names, fs@[j].ty));
        }
    }
    true
}

/// Whether every path that the fields of `kind` refer to is registered.
pub fn kind_is_registered(kind: &CustomTypeKind, reg: &CostomTypes) -> (r: bool)
    requires
        reg.wf(),
    ensures
        r == kind_registered(*reg, *kind),
{
    let ghost names = *reg;
    match kind {
        CustomTypeKind::Unit(_) => {
            proof {
                assert forall|p: Seq<char>| #[trigger] kind_mentions(*kind, p) implies names@.contains_key(p) by {}
            }
            true
        },
        CustomTypeKind::Struct(c) => {
            let r = struct_fields_registered(&c.fields, reg);
            proof {
                if r {
                    assert forall|p: Seq<char>| #[trigger] kind_mentions(*kind, p) implies names@.contains_key(p) by {
                        assert(struct_fields_mention(c.fields@, p));
                    }
                } else {
                    let p = choose|p: Seq<char>| #[trigger] struct_fields_mention(c.fields@, p) && !names@.contains_key(p);
                    assert(kind_mentions(*kind, p));
                }
            }
            r
        },
        CustomTypeKind::Tuple(c) => {
            let r = tuple_fields_registered(&c.fields, reg);
            proof {
                if r {
                    assert forall|p: Seq<char>| #[trigger] kind_mentions(*kind, p) implies names@.contains_key(p) by {
                        assert(tuple_fields_mention(c.fields@, p));
                    }
                } else {
                    let p = choose|p: Seq<char>| #[trigger] tuple_fields_mention(c.fields@, p) && !names@.contains_key(p);
                    assert(kind_mentions(*kind, p));
                }
            }
            r
        },
        CustomTypeKind::Enum(c) => {
            let mut i: usize = 0;
            while i < c.fields.len()
                invariant
                    i <= c.fields@.len(),
                    names == *reg,
                    reg.wf(),
                    *kind == CustomTypeKind::Enum(*c),
                    forall|j: int, p: Seq<char>| 0 <= j < i && #[trigger] variant_mentions(c.fields@[j].kind, p)
                        ==> names@.contains_key(p),
                decreases c.fields@.len() - i,
            {
                match &c.fields[i].kind {
                    EnumKind::Unit => {},
                    EnumKind::Struct(fs) => {
                        if !struct_fields_registered(fs, reg) {
                            proof {
                                let p = choose|p: Seq<char>| #[trigger] struct_fields_mention(fs@, p) && !names@.contains_key(p);
                                assert(variant_mentions(c.fields@[i as int].kind, p));
                                assert(kind_mentions(*kind, p));
                            }
                            return false;
                        }
                    },
                    EnumKind::Tuple(fs) => {
                        if !tuple_fields_registered(fs, reg) {
                            proof {
                                let p = choose|p: Seq<char>| #[trigger] tuple_fields_mention(fs@, p) && !names@.contains_key(p);
                                assert(variant_mentions(c.fields@[i as int].kind, p));
                                assert(kind_mentions(*kind, p));
                            }
                            return false;
                        }
                    },
                }
                i = i + 1;
            }
            proof {
                assert forall|p: Seq<char>| #[trigger] kind_mentions(*kind, p) implies names@.contains_key(p) by {
                    let j = choose|j: int| 0 <= j < c.fields@.len() && variant_mentions(#[trigger] c.fields@[j].kind, p);
                }
            }
            true
        },
    }
}


/// Whether the answer's types refer only to registered paths.
fn output_is_registered(out: &FuncOutput, reg: &CostomTypes) -> (r: bool)
    requires
        reg.wf(),
    ensures
        r == output_registered(*reg, *out),
{
    match out {
        FuncOutput::Unary(t) => ty_is_registered(t, reg),
        FuncOutput::ServerStream { yield_ty, return_ty } => ty_is_registered(yield_ty, reg) && ty_is_registered(return_ty, reg),
    }
}

impl TypeDef {
    /// Whether every path that the registered types and the functions refer
    /// to is registered, as the client generator needs.
    pub fn is_closed(&self) -> (r: bool)
        requires
            self.costom_types.wf(),
        ensures
            r == def_closed(*self),
    {
        let reg = &self.costom_types;
        let mut i: usize = 0;
        while i < reg.len()
            invariant
                *reg == self.costom_types,
                reg.wf(),
                i <= reg.entries().len(),
                forall|j: int| 0 <= j < i ==> kind_registered(*reg, #[trigger] reg.entries()[j].1),
            decreases reg.entries().len() - i,
        {
            let (_, kind) = reg.entry(i);
            if !kind_is_registered(kind, reg) {
                proof {
                    reg.lemma_view_at(i as int);
                    let q = reg.entries()[i as int].0@;
                    assert(reg@.contains_key(q));
                    assert(!registry_closed(*reg));
                }
                return false;
            }
            i = i + 1;
        }
        proof {
            assert forall|q: Seq<char>| #[trigger] reg@.contains_key(q) implies kind_registered(*reg, reg@[q]) by {
                let k = choose|k: int| 0 <= k < reg.entries().len() && reg.entries()[k].0@ == q;
                reg.lemma_view_at(k);
                assert(kind_registered(*reg, reg.entries()[k].1));
            }
        }
        let mut f: usize = 0;
        while f < self.funcs.len()
            invariant
                *reg == self.costom_types,
                reg.wf(),
                registry_closed(*reg),
                f <= self.funcs@.len(),
                forall|g: int, a: int| 0 <= g < f && 0 <= a < self.funcs@[g].args@.len()
                    ==> ty_registered(*reg, #[trigger] self.funcs@[g].args@[a]),
                forall|g: int| 0 <= g < f ==> output_registered(*reg, #[trigger] self.funcs@[g].output),
            decreases self.funcs@.len() - f,
        {
            let func = &self.funcs[f];
            let mut a: usize = 0;
            while a < func.args.len()
                invariant
                    reg.wf(),
                    *reg == self.costom_types,
                    f < self.funcs@.len(),
                    *func == self.funcs@[f as int],
                    a <= func.args@.len(),
                    forall|b: int| 0 <= b < a ==> ty_registered(*reg, #[trigger] func.args@[b]),
                decreases func.args@.len() - a,
            {
                if !ty_is_registered(&func.args[a], reg) {
                    proof {
                        assert(a < self.funcs@[f as int].args@.len());
                        assert(!ty_registered(self.costom_types, self.funcs@[f as int].args@[a as int]));
                        assert(!def_closed(*self));
                    }
                    return false;
                }
                a = a + 1;
            }
            if !output_is_registered(&func.output, reg) {
                proof { assert(!output_registered(*reg, self.funcs@[f as int].output)); }
                return false;
            }
            f = f + 1;
        }
        true
    }
}

} // verus!

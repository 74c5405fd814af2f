//! Whether every type a shape or a declaration refers to has an identifier.
use vstd::prelude::*;
use crate::schema::{Ty, CustomTypeKind, EnumKind, StructField, TupleField};
use crate::naming::{IdentMap, lookup};
use crate::reach::{mentions, kind_mentions, variant_mentions, struct_fields_mention, tuple_fields_mention};
use crate::typescript::all_named;
use crate::interface::kind_named;

verus! {

/// Whether every path that `ty` refers to has an identifier.
pub fn ty_named(ty: &Ty, ident_map: &IdentMap) -> (r: bool)
    ensures
        r == all_named(*ty, ident_map.entries()),
    decreases *ty,
{
    let ghost names = ident_map.entries();
    match ty {
        Ty::Option(t) => {
            let r = ty_named(t, ident_map);
            proof { lemma_named_via(*ty, **t, names); }
            r
        },
        Ty::Array { ty: t, .. } => {
            let r = ty_named(t, ident_map);
            proof { lemma_named_via(*ty, **t, names); }
            r
        },
        Ty::SetOf { ty: t, .. } => {
            let r = ty_named(t, ident_map);
            proof { lemma_named_via(*ty, **t, names); }
            r
        },
        Ty::Result(b) => {
            let r = ty_named(&b.0, ident_map) && ty_named(&b.1, ident_map);
            proof { lemma_named_pair_iff(*ty, b.0, b.1, names); }
            r
        },
        Ty::MapOf { ty: b, .. } => {
            let r = ty_named(&b.0, ident_map) && ty_named(&b.1, ident_map);
            proof { lemma_named_pair_iff(*ty, b.0, b.1, names); }
            r
        },
        Ty::Tuple(v) => {
            let mut i: usize = 0;
            while i < v.len()
                invariant
                    i <= v@.len(),
                    *ty == Ty::Tuple(*v),
                    names == ident_map.entries(),
                    forall|j: int| 0 <= j < i ==> all_named(#[trigger] v@[j], names),
                decreases v@.len() - i,
            {
                proof {
                    assert(decreases_to!(*ty => ty->Tuple_0));
                    assert(decreases_to!(*v => v[i as int]));
                }
                if !ty_named(&v[i], ident_map) {
                    proof {
                        let p = choose|p: Seq<char>| #[trigger] mentions(v@[i as int], p) && lookup(names, p) is None;
                        assert(mentions(*ty, p));
                    }
                    return false;
                }
                i = i + 1;
            }
            proof {
                assert forall|p: Seq<char>| #[trigger] mentions(*ty, p) implies lookup(names, p) is Some by {
                    let j = choose|j: int| 0 <= j < v.len() && mentions(#[trigger] v[j], p);
                    assert(all_named(v@[j], names));
                }
            }
            true
        },
        Ty::CustomType(p) => {
            let r = ident_map.get(p.as_str()).is_some();
            proof {
                if !r {
                    assert(mentions(*ty, p@));
                }
            }
            r
        },
        _ => {
            proof {
                assert forall|p: Seq<char>| #[trigger] mentions(*ty, p) implies lookup(names, p) is Some by {}
            }
            true
        },
    }
}

proof fn lemma_named_via(outer: Ty, inner: Ty, names: Seq<(String, String)>)
    requires
        forall|p: Seq<char>| #[trigger] mentions(outer, p) == mentions(inner, p),
    ensures
        all_named(outer, names) == all_named(inner, names),
{
    if all_named(inner, names) {
        assert forall|p: Seq<char>| #[trigger] mentions(outer, p) implies lookup(names, p) is Some by {
            assert(mentions(inner, p));
        }
    }
    if all_named(outer, names) {
        assert forall|p: Seq<char>| #[trigger] mentions(inner, p) implies lookup(names, p) is Some by {
            assert(mentions(outer, p));
        }
    }
}

proof fn lemma_named_pair_iff(outer: Ty, a: Ty, b: Ty, names: Seq<(String, String)>)
    requires
        forall|p: Seq<char>| #[trigger] mentions(outer, p) == (mentions(a, p) || mentions(b, p)),
    ensures
        all_named(outer, names) == (all_named(a, names) && all_named(b, names)),
{
    if all_named(a, names) && all_named(b, names) {
        assert forall|p: Seq<char>| #[trigger] mentions(outer, p) implies lookup(names, p) is Some by {
            if mentions(a, p) {} else { assert(mentions(b, p)); }
        }
    }
    if all_named(outer, names) {
        assert forall|p: Seq<char>| #[trigger] mentions(a, p) implies lookup(names, p) is Some by {
            assert(mentions(outer, p));
        }
        assert forall|p: Seq<char>| #[trigger] mentions(b, p) implies lookup(names, p) is Some by {
            assert(mentions(outer, p));
        }
    }
}

fn struct_fields_named(fs: &Vec<StructField>, ident_map: &IdentMap) -> (r: bool)
    ensures
        r == forall|p: Seq<char>| #[trigger] struct_fields_mention(fs@, p) ==> lookup(ident_map.entries(), p) is Some,
{
    let ghost names = ident_map.entries();
    let mut i: usize = 0;
    while i < fs.len()
        invariant
            i <= fs@.len(),
            names == ident_map.entries(),
            forall|j: int| 0 <= j < i ==> all_named(#[trigger] fs@[j].ty, names),
        decreases fs@.len() - i,
    {
        if !ty_named(&fs[i].ty, ident_map) {
            proof {
                let p = choose|p: Seq<char>| #[trigger] mentions(fs@[i as int].ty, p) && lookup(names, p) is None;
                assert(struct_fields_mention(fs@, p));
            }
            return false;
        }
        i = i + 1;
    }
    proof {
        assert forall|p: Seq<char>| #[trigger] struct_fields_mention(fs@, p) implies lookup(names, p) is Some by {
            let j = choose|j: int| 0 <= j < fs@.len() && mentions(#[trigger] fs@[j].ty, p);
            assert(all_named(fs@[j].ty, names));
        }
    }
    true
}

fn tuple_fields_named(fs: &Vec<TupleField>, ident_map: &IdentMap) -> (r: bool)
    ensures
        r == forall|p: Seq<char>| #[trigger] tuple_fields_mention(fs@, p) ==> lookup(ident_map.entries(), p) is Some,
{
    let ghost names = ident_map.entries();
    let mut i: usize = 0;
    while i < fs.len()
        invariant
            i <= fs@.len(),
            names == ident_map.entries(),
            forall|j: int| 0 <= j < i ==> all_named(#[trigger] fs@[j].ty, names),
        decreases fs@.len() - i,
    {
        if !ty_named(&fs[i].ty, ident_map) {
            proof {
                let p = choose|p: Seq<char>| #[trigger] mentions(fs@[i as int].ty, p) && lookup(names, p) is None;
                assert(tuple_fields_mention(fs@, p));
            }
            return false;
        }
        i = i + 1;
    }
    proof {
        assert forall|p: Seq<char>| #[trigger] tuple_fields_mention(fs@, p) implies lookup(names, p) is Some by {
            let j = choose|j: int| 0 <= j < fs@.len() && mentions(#[trigger] fs@[j].ty, p);
            assert(all_named(fs@[j].ty, names));
        }
    }
    true
}

/// Whether every path that the fields of `kind` refer to has an identifier.
pub fn kind_is_named(kind: &CustomTypeKind, ident_map: &IdentMap) -> (r: bool)
    ensures
        r == kind_named(*kind, ident_map.entries()),
{
    let ghost names = ident_map.entries();
    match kind {
        CustomTypeKind::Unit(_) => {
            proof {
                assert forall|p: Seq<char>| #[trigger] kind_mentions(*kind, p) implies lookup(names, p) is Some by {}
            }
            true
        },
        CustomTypeKind::Struct(c) => {
            let r = struct_fields_named(&c.fields, ident_map);
            proof {
                if r {
                    assert forall|p: Seq<char>| #[trigger] kind_mentions(*kind, p) implies lookup(names, p) is Some by {
                        assert(struct_fields_mention(c.fields@, p));
                    }
                } else {
                    let p = choose|p: Seq<char>| #[trigger] struct_fields_mention(c.fields@, p) && lookup(names, p) is None;
                    assert(kind_mentions(*kind, p));
                }
            }
            r
        },
        CustomTypeKind::Tuple(c) => {
            let r = tuple_fields_named(&c.fields, ident_map);
            proof {
                if r {
                    assert forall|p: Seq<char>| #[trigger] kind_mentions(*kind, p) implies lookup(names, p) is Some by {
                        assert(tuple_fields_mention(c.fields@, p));
                    }
                } else {
                    let p = choose|p: Seq<char>| #[trigger] tuple_fields_mention(c.fields@, p) && lookup(names, p) is None;
                    assert(kind_mentions(*kind, p));
                }
            }
            r
        },
        CustomTypeKind::Enum(c) => {
            let mut i: usize = 0;
            while i < c.fields.len()
                invariant
                    i <= c.fields@.len(),
                    names == ident_map.entries(),
                    *kind == CustomTypeKind::Enum(*c),
                    forall|j: int, p: Seq<char>| 0 <= j < i && #[trigger] variant_mentions(c.fields@[j].kind, p)
                        ==> lookup(names, p) is Some,
                decreases c.fields@.len() - i,
            {
                match &c.fields[i].kind {
                    EnumKind::Unit => {},
                    EnumKind::Struct(fs) => {
                        if !struct_fields_named(fs, ident_map) {
                            proof {
                                let p = choose|p: Seq<char>| #[trigger] struct_fields_mention(fs@, p) && lookup(names, p) is None;
                                assert(variant_mentions(c.fields@[i as int].kind, p));
                                assert(kind_mentions(*kind, p));
                            }
                            return false;
                        }
                    },
                    EnumKind::Tuple(fs) => {
                        if !tuple_fields_named(fs, ident_map) {
                            proof {
                                let p = choose|p: Seq<char>| #[trigger] tuple_fields_mention(fs@, p) && lookup(names, p) is None;
                                assert(variant_mentions(c.fields@[i as int].kind, p));
                                assert(kind_mentions(*kind, p));
                            }
                            return false;
                        }
                    },
                }
                i = i + 1;
            }
            proof {
                assert forall|p: Seq<char>| #[trigger] kind_mentions(*kind, p) implies lookup(names, p) is Some by {
                    let j = choose|j: int| 0 <= j < c.fields@.len() && variant_mentions(#[trigger] c.fields@[j].kind, p);
                }
            }
            true
        },
    }
}

} // verus!

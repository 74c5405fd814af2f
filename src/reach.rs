//! Which user-declared types a set of signatures reaches, in the order a
//! depth-first walk meets them.
use vstd::prelude::*;
use vstd::seq_lib::*;
use vstd::set_lib::*;
use crate::schema::{Ty, CustomTypeKind, EnumKind, EnumField, StructField, TupleField};
use crate::registry::CostomTypes;
use crate::message::{Func, TypeDef, FuncOutput};

verus! {

broadcast use vstd::seq_lib::group_seq_properties;

/// Whether `ty` refers to the path `p`, directly or through containers.
pub open spec fn mentions(ty: Ty, p: Seq<char>) -> bool
    decreases ty,
{
    match ty {
        Ty::Option(t) => mentions(*t, p),
        Ty::Result(b) => mentions(b.0, p) || mentions(b.1, p),
        Ty::Tuple(v) => exists|i: int| 0 <= i < v.len() && mentions(#[trigger] v[i], p),
        Ty::Array { ty, .. } => mentions(*ty, p),
        Ty::SetOf { ty, .. } => mentions(*ty, p),
        Ty::MapOf { ty, .. } => mentions(ty.0, p) || mentions(ty.1, p),
        Ty::CustomType(s) => s@ == p,
        _ => false,
    }
}

pub open spec fn struct_fields_mention(fs: Seq<StructField>, p: Seq<char>) -> bool {
    exists|i: int| 0 <= i < fs.len() && mentions(#[trigger] fs[i].ty, p)
}

pub open spec fn tuple_fields_mention(fs: Seq<TupleField>, p: Seq<char>) -> bool {
    exists|i: int| 0 <= i < fs.len() && mentions(#[trigger] fs[i].ty, p)
}

pub open spec fn variant_mentions(k: EnumKind, p: Seq<char>) -> bool {
    match k {
        EnumKind::Unit => false,
        EnumKind::Struct(fs) => struct_fields_mention(fs@, p),
        EnumKind::Tuple(fs) => tuple_fields_mention(fs@, p),
    }
}

/// Whether a field of the kind refers to `p`.
pub open spec fn kind_mentions(k: CustomTypeKind, p: Seq<char>) -> bool {
    match k {
        CustomTypeKind::Unit(_) => false,
        CustomTypeKind::Enum(c) => exists|i: int| 0 <= i < c.fields@.len() && variant_mentions(#[trigger] c.fields@[i].kind, p),
        CustomTypeKind::Tuple(c) => tuple_fields_mention(c.fields@, p),
        CustomTypeKind::Struct(c) => struct_fields_mention(c.fields@, p),
    }
}

pub open spec fn pview(paths: Seq<String>) -> Seq<Seq<char>> {
    paths.map_values(|s: String| s@)
}

/// Every path that `ty` refers to is registered.
pub open spec fn ty_registered(reg: CostomTypes, ty: Ty) -> bool {
    forall|p: Seq<char>| #[trigger] mentions(ty, p) ==> reg@.contains_key(p)
}

/// Every path that the fields of `k` refer to is registered.
pub open spec fn kind_registered(reg: CostomTypes, k: CustomTypeKind) -> bool {
    forall|p: Seq<char>| #[trigger] kind_mentions(k, p) ==> reg@.contains_key(p)
}

/// The registry is closed under the references its types hold: a reference
/// to an unregistered path is an error in how the types were built.
pub open spec fn registry_closed(reg: CostomTypes) -> bool {
    forall|q: Seq<char>| #[trigger] reg@.contains_key(q) ==> kind_registered(reg, reg@[q])
}

/// Every registered path that `ty` refers to is listed.
pub open spec fn covers(reg: CostomTypes, ps: Seq<Seq<char>>, ty: Ty) -> bool {
    forall|p: Seq<char>| reg@.contains_key(p) && #[trigger] mentions(ty, p) ==> ps.contains(p)
}

/// Every registered path that the fields of `q`'s kind refer to is listed.
pub open spec fn expanded(reg: CostomTypes, ps: Seq<Seq<char>>, q: Seq<char>) -> bool {
    forall|p: Seq<char>| reg@.contains_key(p) && #[trigger] kind_mentions(reg@[q], p) ==> ps.contains(p)
}

/// `b` lists what `a` lists, in the same order, then perhaps more.
pub open spec fn extends(a: Seq<Seq<char>>, b: Seq<Seq<char>>) -> bool {
    a.len() <= b.len() && b.subrange(0, a.len() as int) == a
}

proof fn lemma_extends_contains(a: Seq<Seq<char>>, b: Seq<Seq<char>>, p: Seq<char>)
    requires
        extends(a, b),
        a.contains(p),
    ensures
        b.contains(p),
{
    let i = choose|i: int| 0 <= i < a.len() && a[i] == p;
    assert(b[i] == b.subrange(0, a.len() as int)[i]);
}

proof fn lemma_extends_trans(a: Seq<Seq<char>>, b: Seq<Seq<char>>, c: Seq<Seq<char>>)
    requires
        extends(a, b),
        extends(b, c),
    ensures
        extends(a, c),
{
    assert(c.subrange(0, a.len() as int) =~= c.subrange(0, b.len() as int).subrange(0, a.len() as int));
}

/// Whether `p` is reached from kind `k` in at most `n` further steps
/// through registered types.
pub open spec fn kind_reaches(reg: CostomTypes, k: CustomTypeKind, p: Seq<char>, n: nat) -> bool
    decreases n,
{
    kind_mentions(k, p) || (n > 0 && exists|q: Seq<char>| #[trigger] kind_mentions(k, q) && reg@.contains_key(q)
        && kind_reaches(reg, reg@[q], p, (n - 1) as nat))
}

/// Whether `p` is reached from what `m` refers to: referred to directly, or
/// by the fields of a registered type so reached.
pub open spec fn via(reg: CostomTypes, m: spec_fn(Seq<char>) -> bool, p: Seq<char>) -> bool {
    m(p) || exists|q: Seq<char>, n: nat| m(q) && reg@.contains_key(q) && #[trigger] kind_reaches(reg, reg@[q], p, n)
}

/// Every path listed after `a`'s end in `b` is reached from what `m` refers to.
pub open spec fn fresh_via(reg: CostomTypes, m: spec_fn(Seq<char>) -> bool, a: Seq<Seq<char>>, b: Seq<Seq<char>>) -> bool {
    forall|k: int| a.len() <= k < b.len() ==> via(reg, m, #[trigger] b[k])
}

/// Whether one of the types refers to `q`.
pub open spec fn tys_mention(tys: Seq<Ty>, q: Seq<char>) -> bool {
    exists|j: int| 0 <= j < tys.len() && mentions(#[trigger] tys[j], q)
}

proof fn lemma_fresh_mono(reg: CostomTypes, m1: spec_fn(Seq<char>) -> bool, m2: spec_fn(Seq<char>) -> bool,
    a: Seq<Seq<char>>, b: Seq<Seq<char>>)
    requires
        fresh_via(reg, m1, a, b),
        forall|q: Seq<char>| #[trigger] m1(q) ==> m2(q),
    ensures
        fresh_via(reg, m2, a, b),
{
    assert forall|k: int| a.len() <= k < b.len() implies via(reg, m2, #[trigger] b[k]) by {
        let p = b[k];
        assert(via(reg, m1, p));
        if !m1(p) {
            let (q, n) = choose|q: Seq<char>, n: nat| m1(q) && reg@.contains_key(q) && #[trigger] kind_reaches(reg, reg@[q], p, n);
            assert(m2(q));
        }
    }
}

proof fn lemma_fresh_grown(reg: CostomTypes, m_small: spec_fn(Seq<char>) -> bool, m_big: spec_fn(Seq<char>) -> bool,
    start: Seq<Seq<char>>, before: Seq<Seq<char>>, after: Seq<Seq<char>>)
    requires
        extends(start, before),
        extends(before, after),
        fresh_via(reg, m_big, start, before),
        fresh_via(reg, m_small, before, after),
        forall|q: Seq<char>| #[trigger] m_small(q) ==> m_big(q),
    ensures
        fresh_via(reg, m_big, start, after),
{
    lemma_fresh_mono(reg, m_small, m_big, before, after);
    assert forall|k: int| start.len() <= k < after.len() implies via(reg, m_big, #[trigger] after[k]) by {
        if k < before.len() {
            assert(after.subrange(0, before.len() as int)[k] == after[k]);
            assert(via(reg, m_big, before[k]));
        }
    }
}

/// What the kind of a reached registered type reaches is reached too.
proof fn lemma_fresh_step(reg: CostomTypes, m: spec_fn(Seq<char>) -> bool, s: Seq<char>, a: Seq<Seq<char>>, b: Seq<Seq<char>>)
    requires
        m(s),
        reg@.contains_key(s),
        fresh_via(reg, |q: Seq<char>| kind_mentions(reg@[s], q), a, b),
    ensures
        fresh_via(reg, m, a, b),
{
    assert forall|k: int| a.len() <= k < b.len() implies via(reg, m, #[trigger] b[k]) by {
        let p = b[k];
        let km = |q: Seq<char>| kind_mentions(reg@[s], q);
        assert(via(reg, km, p));
        if kind_mentions(reg@[s], p) {
            assert(kind_reaches(reg, reg@[s], p, 0));
        } else {
            let (q, n) = choose|q: Seq<char>, n: nat| km(q) && reg@.contains_key(q) && #[trigger] kind_reaches(reg, reg@[q], p, n);
            assert(kind_reaches(reg, reg@[s], p, n + 1));
        }
    }
}

/// The list after walking `ty` from list `l`: containers are walked into, and
/// a registered path not listed yet is appended, then the fields of its kind
/// are walked, depth first, in declaration order.
pub open spec fn walk_ty(reg: CostomTypes, l: Seq<Seq<char>>, ty: Ty) -> Seq<Seq<char>>
    decreases reg.entries().len() - l.len(), 0int, ty, 0int,
{
    match ty {
        Ty::Option(t) => walk_ty(reg, l, *t),
        Ty::Array { ty: t, .. } => walk_ty(reg, l, *t),
        Ty::SetOf { ty: t, .. } => walk_ty(reg, l, *t),
        Ty::Result(b) => {
            let l1 = walk_ty(reg, l, b.0);
            if l.len() <= l1.len() <= reg.entries().len() { walk_ty(reg, l1, b.1) } else { l1 }
        },
        Ty::MapOf { ty: b, .. } => {
            let l1 = walk_ty(reg, l, b.0);
            if l.len() <= l1.len() <= reg.entries().len() { walk_ty(reg, l1, b.1) } else { l1 }
        },
        Ty::Tuple(v) => walk_tys(reg, l, v, 0),
        Ty::CustomType(s) => if l.contains(s@) || !reg@.contains_key(s@) || l.len() >= reg.entries().len() {
            l
        } else {
            walk_kind(reg, l.push(s@), reg@[s@])
        },
        _ => l,
    }
}

/// The list after walking the types of `v` from the `i`-th on.
pub open spec fn walk_tys(reg: CostomTypes, l: Seq<Seq<char>>, v: Vec<Ty>, i: int) -> Seq<Seq<char>>
    decreases reg.entries().len() - l.len(), 0int, v, v.len() - i,
{
    if i < 0 || i >= v.len() {
        l
    } else {
        let l1 = walk_ty(reg, l, v[i]);
        if l.len() <= l1.len() <= reg.entries().len() { walk_tys(reg, l1, v, i + 1) } else { l1 }
    }
}

/// The list after walking the field types of a kind.
pub open spec fn walk_kind(reg: CostomTypes, l: Seq<Seq<char>>, k: CustomTypeKind) -> Seq<Seq<char>>
    decreases reg.entries().len() - l.len(), 3int, k, 0int,
{
    match k {
        CustomTypeKind::Unit(_) => l,
        CustomTypeKind::Struct(c) => walk_sfields(reg, l, c.fields, 0),
        CustomTypeKind::Tuple(c) => walk_tfields(reg, l, c.fields, 0),
        CustomTypeKind::Enum(c) => walk_variants(reg, l, c.fields, 0),
    }
}

pub open spec fn walk_variants(reg: CostomTypes, l: Seq<Seq<char>>, vs: Vec<EnumField>, i: int) -> Seq<Seq<char>>
    decreases reg.entries().len() - l.len(), 2int, vs, vs.len() - i,
{
    if i < 0 || i >= vs.len() {
        l
    } else {
        let l1 = match vs[i].kind {
            EnumKind::Unit => l,
            EnumKind::Struct(fs) => walk_sfields(reg, l, fs, 0),
            EnumKind::Tuple(fs) => walk_tfields(reg, l, fs, 0),
        };
        if l.len() <= l1.len() <= reg.entries().len() { walk_variants(reg, l1, vs, i + 1) } else { l1 }
    }
}

pub open spec fn walk_sfields(reg: CostomTypes, l: Seq<Seq<char>>, fs: Vec<StructField>, i: int) -> Seq<Seq<char>>
    decreases reg.entries().len() - l.len(), 1int, fs, fs.len() - i,
{
    if i < 0 || i >= fs.len() {
        l
    } else {
        let l1 = walk_ty(reg, l, fs[i].ty);
        if l.len() <= l1.len() <= reg.entries().len() { walk_sfields(reg, l1, fs, i + 1) } else { l1 }
    }
}

pub open spec fn walk_tfields(reg: CostomTypes, l: Seq<Seq<char>>, fs: Vec<TupleField>, i: int) -> Seq<Seq<char>>
    decreases reg.entries().len() - l.len(), 1int, fs, fs.len() - i,
{
    if i < 0 || i >= fs.len() {
        l
    } else {
        let l1 = walk_ty(reg, l, fs[i].ty);
        if l.len() <= l1.len() <= reg.entries().len() { walk_tfields(reg, l1, fs, i + 1) } else { l1 }
    }
}

/// A list of distinct registered paths is no longer than the registry.
proof fn lemma_paths_bound(reg: CostomTypes, ps: Seq<Seq<char>>)
    requires
        reg.wf(),
        ps.no_duplicates(),
        forall|i: int| 0 <= i < ps.len() ==> reg@.contains_key(#[trigger] ps[i]),
    ensures
        ps.len() <= reg.entries().len(),
{
    let keys = reg.paths();
    assert forall|p: Seq<char>| ps.to_set().contains(p) implies keys.to_set().contains(p) by {
        let i = choose|i: int| 0 <= i < ps.len() && ps[i] == p;
        assert(reg@.contains_key(ps[i]));
        let k = choose|k: int| 0 <= k < reg.entries().len() && reg.entries()[k].0@ == p;
        assert(keys[k] == p);
    }
    ps.unique_seq_to_set();
    keys.lemma_cardinality_of_set();
    lemma_len_subset(ps.to_set(), keys.to_set());
}

/// The walk: the registry it reads and the paths met so far.
pub struct Path<'a> {
    pub costom_types: &'a CostomTypes,
    pub paths: Vec<String>,
}

impl<'a> Path<'a> {
    pub closed spec fn registry(&self) -> CostomTypes {
        *self.costom_types
    }

    pub open spec fn listed(&self) -> Seq<Seq<char>> {
        pview(self.paths@)
    }

    /// The paths are distinct and registered.
    pub open spec fn wf(&self) -> bool {
        &&& self.registry().wf()
        &&& self.listed().no_duplicates()
        &&& forall|i: int| 0 <= i < self.listed().len() ==> self.registry()@.contains_key(#[trigger] self.listed()[i])
    }

    pub open spec fn budget(&self) -> int {
        self.registry().entries().len() - self.paths@.len()
    }

    pub fn new(costom_types: &'a CostomTypes) -> (r: Self)
        requires
            costom_types.wf(),
        ensures
            r.registry() == *costom_types,
            r.paths@.len() == 0,
            r.wf(),
    {
        let r = Path { paths: Vec::new(), costom_types };
        assert(r.listed() =~= Seq::<Seq<char>>::empty());
        r
    }

    fn is_listed(&self, s: &String) -> (r: bool)
        ensures
            r == self.listed().contains(s@),
    {
        let mut i: usize = 0;
        while i < self.paths.len()
            invariant
                i <= self.paths@.len(),
                forall|j: int| 0 <= j < i ==> self.listed()[j] != s@,
            decreases self.paths@.len() - i,
        {
            if self.paths[i] == *s {
                assert(self.listed()[i as int] == s@);
                return true;
            }
            i = i + 1;
        }
        false
    }

    /// Walks a list of types in order.
    pub fn add_tys(&mut self, tys: &Vec<Ty>)
        requires
            old(self).wf(),
            registry_closed(old(self).registry()),
            forall|i: int| 0 <= i < tys@.len() ==> ty_registered(old(self).registry(), #[trigger] tys@[i]),
        ensures
            final(self).registry() == old(self).registry(),
            final(self).wf(),
            extends(old(self).listed(), final(self).listed()),
            forall|i: int| 0 <= i < tys@.len() ==> covers(final(self).registry(), final(self).listed(), #[trigger] tys@[i]),
            forall|k: int| old(self).listed().len() <= k < final(self).listed().len() ==>
                expanded(final(self).registry(), final(self).listed(), #[trigger] final(self).listed()[k]),
            fresh_via(final(self).registry(), |q: Seq<char>| tys_mention(tys@, q), old(self).listed(), final(self).listed()),
            final(self).listed() == walk_tys(old(self).registry(), old(self).listed(), *tys, 0),
        decreases old(self).budget(), 0int, *tys,
    {
        let ghost start = self.listed();
        proof { assert(start.subrange(0, start.len() as int) =~= start); }
        let mut i: usize = 0;
        while i < tys.len()
            invariant
                i <= tys@.len(),
                self.registry() == old(self).registry(),
                registry_closed(old(self).registry()),
                self.wf(),
                start == old(self).listed(),
                extends(start, self.listed()),
                self.budget() <= old(self).budget(),
                forall|j: int| 0 <= j < i ==> covers(self.registry(), self.listed(), #[trigger] tys@[j]),
                forall|k: int| start.len() <= k < self.listed().len() ==>
                    expanded(self.registry(), self.listed(), #[trigger] self.listed()[k]),
                fresh_via(self.registry(), |q: Seq<char>| tys_mention(tys@, q), start, self.listed()),
                forall|j: int| 0 <= j < tys@.len() ==> ty_registered(old(self).registry(), #[trigger] tys@[j]),
                walk_tys(self.registry(), start, *tys, 0) == walk_tys(self.registry(), self.listed(), *tys, i as int),
            decreases tys@.len() - i,
        {
            let ghost before = self.listed();
            proof {
                lemma_paths_bound(self.registry(), self.listed());
                assert(decreases_to!(*tys => tys@[i as int]));
                assert(ty_registered(old(self).registry(), tys@[i as int]));
            }
            self.add_ty(&tys[i]);
            proof {
                self.lemma_grown(before, start, tys@.subrange(0, i as int));
                assert forall|q: Seq<char>| #[trigger] mentions(tys@[i as int], q) implies tys_mention(tys@, q) by {}
                lemma_fresh_grown(self.registry(), |q: Seq<char>| mentions(tys@[i as int], q),
                    |q: Seq<char>| tys_mention(tys@, q), start, before, self.listed());
                lemma_paths_bound(self.registry(), self.listed());
            }
            i = i + 1;
        }
    }

    proof fn lemma_covers_via(&self, outer: Ty, inner: Ty)
        requires
            covers(self.registry(), self.listed(), inner),
            forall|p: Seq<char>| #[trigger] mentions(outer, p) ==> mentions(inner, p),
        ensures
            covers(self.registry(), self.listed(), outer),
    {
        assert forall|p: Seq<char>| self.registry()@.contains_key(p) && #[trigger] mentions(outer, p)
            implies self.listed().contains(p) by {
            assert(mentions(inner, p));
        }
    }

    proof fn lemma_covers_pair(&self, outer: Ty, a: Ty, b: Ty)
        requires
            covers(self.registry(), self.listed(), a),
            covers(self.registry(), self.listed(), b),
            forall|p: Seq<char>| #[trigger] mentions(outer, p) ==> mentions(a, p) || mentions(b, p),
        ensures
            covers(self.registry(), self.listed(), outer),
    {
        assert forall|p: Seq<char>| self.registry()@.contains_key(p) && #[trigger] mentions(outer, p)
            implies self.listed().contains(p) by {
            if mentions(a, p) {
            } else {
                assert(mentions(b, p));
            }
        }
    }

    /// What was covered or expanded stays so as the list grows.
    proof fn lemma_grown(&self, before: Seq<Seq<char>>, start: Seq<Seq<char>>, done: Seq<Ty>)
        requires
            extends(start, before),
            extends(before, self.listed()),
            forall|j: int| 0 <= j < done.len() ==> covers(self.registry(), before, #[trigger] done[j]),
            forall|k: int| start.len() <= k < before.len() ==> expanded(self.registry(), before, #[trigger] before[k]),
        ensures
            extends(start, self.listed()),
            forall|j: int| 0 <= j < done.len() ==> covers(self.registry(), self.listed(), #[trigger] done[j]),
            forall|k: int| start.len() <= k < before.len() ==>
                expanded(self.registry(), self.listed(), #[trigger] self.listed()[k]),
    {
        lemma_extends_trans(start, before, self.listed());
        assert forall|j: int| 0 <= j < done.len() implies covers(self.registry(), self.listed(), #[trigger] done[j]) by {
            assert forall|p: Seq<char>| self.registry()@.contains_key(p) && #[trigger] mentions(done[j], p) implies self.listed().contains(p) by {
                lemma_extends_contains(before, self.listed(), p);
            }
        }
        assert forall|k: int| start.len() <= k < before.len() implies
            expanded(self.registry(), self.listed(), #[trigger] self.listed()[k]) by {
            assert(self.listed()[k] == before[k]) by {
                assert(self.listed().subrange(0, before.len() as int)[k] == self.listed()[k]);
            }
            assert forall|p: Seq<char>| self.registry()@.contains_key(p) && #[trigger] kind_mentions(self.registry()@[self.listed()[k]], p)
                implies self.listed().contains(p) by {
                lemma_extends_contains(before, self.listed(), p);
            }
        }
    }

    /// Walks one type: containers are walked into, and a registered path that
    /// is not listed yet is listed, then the fields of its kind are walked.
    pub fn add_ty(&mut self, ty: &Ty)
        requires
            old(self).wf(),
            registry_closed(old(self).registry()),
            ty_registered(old(self).registry(), *ty),
        ensures
            final(self).registry() == old(self).registry(),
            final(self).wf(),
            extends(old(self).listed(), final(self).listed()),
            covers(final(self).registry(), final(self).listed(), *ty),
            forall|k: int| old(self).listed().len() <= k < final(self).listed().len() ==>
                expanded(final(self).registry(), final(self).listed(), #[trigger] final(self).listed()[k]),
            fresh_via(final(self).registry(), |q: Seq<char>| mentions(*ty, q), old(self).listed(), final(self).listed()),
            final(self).listed() == walk_ty(old(self).registry(), old(self).listed(), *ty),
        decreases old(self).budget(), 0int, *ty,
    {
        let ghost start = self.listed();
        proof {
            lemma_paths_bound(self.registry(), self.listed());
            assert(start.subrange(0, start.len() as int) =~= start);
        }
        match ty {
            Ty::Option(t) => {
                proof { assert forall|p: Seq<char>| #[trigger] mentions(**t, p) implies self.registry()@.contains_key(p) by { assert(mentions(*ty, p)); } }
                self.add_ty(t);
                proof {
                    self.lemma_covers_via(*ty, **t);
                    lemma_fresh_mono(self.registry(), |q: Seq<char>| mentions(**t, q), |q: Seq<char>| mentions(*ty, q), start, self.listed());
                }
            },
            Ty::Array { ty: t, .. } => {
                proof { assert forall|p: Seq<char>| #[trigger] mentions(**t, p) implies self.registry()@.contains_key(p) by { assert(mentions(*ty, p)); } }
                self.add_ty(t);
                proof {
                    self.lemma_covers_via(*ty, **t);
                    lemma_fresh_mono(self.registry(), |q: Seq<char>| mentions(**t, q), |q: Seq<char>| mentions(*ty, q), start, self.listed());
                }
            },
            Ty::SetOf { ty: t, .. } => {
                proof { assert forall|p: Seq<char>| #[trigger] mentions(**t, p) implies self.registry()@.contains_key(p) by { assert(mentions(*ty, p)); } }
                self.add_ty(t);
                proof {
                    self.lemma_covers_via(*ty, **t);
                    lemma_fresh_mono(self.registry(), |q: Seq<char>| mentions(**t, q), |q: Seq<char>| mentions(*ty, q), start, self.listed());
                }
            },
            Ty::Result(b) => {
                proof { assert forall|p: Seq<char>| #[trigger] mentions(b.0, p) implies self.registry()@.contains_key(p) by { assert(mentions(*ty, p)); } }
                proof { assert forall|p: Seq<char>| #[trigger] mentions(b.1, p) implies self.registry()@.contains_key(p) by { assert(mentions(*ty, p)); } }
                self.add_ty(&b.0);
                let ghost mid = self.listed();
                proof {
                    lemma_paths_bound(self.registry(), self.listed());
                    assert(decreases_to!(*ty => ty->Result_0));
                    assert(decreases_to!(ty->Result_0 => ty->Result_0.1));
                }
                self.add_ty(&b.1);
                proof {
                    self.lemma_grown(mid, start, seq![b.0]);
                    assert(covers(self.registry(), self.listed(), seq![b.0][0]));
                    self.lemma_covers_pair(*ty, b.0, b.1);
                    lemma_fresh_mono(self.registry(), |q: Seq<char>| mentions(b.0, q), |q: Seq<char>| mentions(*ty, q), start, mid);
                    lemma_fresh_grown(self.registry(), |q: Seq<char>| mentions(b.1, q), |q: Seq<char>| mentions(*ty, q), start, mid, self.listed());
                    lemma_paths_bound(self.registry(), mid);
                }
            },
            Ty::MapOf { ty: b, .. } => {
                proof { assert forall|p: Seq<char>| #[trigger] mentions(b.0, p) implies self.registry()@.contains_key(p) by { assert(mentions(*ty, p)); } }
                proof { assert forall|p: Seq<char>| #[trigger] mentions(b.1, p) implies self.registry()@.contains_key(p) by { assert(mentions(*ty, p)); } }
                self.add_ty(&b.0);
                let ghost mid = self.listed();
                proof {
                    lemma_paths_bound(self.registry(), self.listed());
                    assert(decreases_to!(*ty => ty->MapOf_ty));
                    assert(decreases_to!(ty->MapOf_ty => ty->MapOf_ty.1));
                }
                self.add_ty(&b.1);
                proof {
                    self.lemma_grown(mid, start, seq![b.0]);
                    assert(covers(self.registry(), self.listed(), seq![b.0][0]));
                    self.lemma_covers_pair(*ty, b.0, b.1);
                    lemma_fresh_mono(self.registry(), |q: Seq<char>| mentions(b.0, q), |q: Seq<char>| mentions(*ty, q), start, mid);
                    lemma_fresh_grown(self.registry(), |q: Seq<char>| mentions(b.1, q), |q: Seq<char>| mentions(*ty, q), start, mid, self.listed());
                    lemma_paths_bound(self.registry(), mid);
                }
            },
            Ty::Tuple(tys) => {
                proof {
                    assert(decreases_to!(*ty => ty->Tuple_0));
                    assert forall|i: int| 0 <= i < tys@.len() implies ty_registered(self.registry(), #[trigger] tys@[i]) by {
                        assert forall|p: Seq<char>| #[trigger] mentions(tys@[i], p) implies self.registry()@.contains_key(p) by {
                            assert(mentions(*ty, p));
                        }
                    }
                }
                self.add_tys(tys);
                proof {
                    assert forall|p: Seq<char>| self.registry()@.contains_key(p) && #[trigger] mentions(*ty, p)
                        implies self.listed().contains(p) by {
                        let i = choose|i: int| 0 <= i < tys.len() && mentions(#[trigger] tys[i], p);
                        assert(covers(self.registry(), self.listed(), tys@[i]));
                    }
                    lemma_fresh_mono(self.registry(), |q: Seq<char>| tys_mention(tys@, q), |q: Seq<char>| mentions(*ty, q), start, self.listed());
                }
            },
            Ty::CustomType(s) => {
                if self.is_listed(s) {
                    return;
                }
                let kind = match self.costom_types.get(s.as_str()) {
                    Some(k) => k,
                    None => {
                        proof { assert(mentions(*ty, s@)); }
                        return;
                    },
                };
                self.paths.push(s.clone());
                proof {
                    assert(self.listed() =~= start.push(s@));
                    assert(self.listed().subrange(0, start.len() as int) =~= start);
                    assert forall|i: int, j: int| 0 <= i < j < self.listed().len() implies self.listed()[i] != self.listed()[j] by {
                        if j == start.len() {
                            assert(start.contains(self.listed()[i]));
                        }
                    }
                    lemma_paths_bound(self.registry(), self.listed());
                }
                let ghost pushed = self.listed();
                proof {
                    assert(mentions(*ty, s@));
                    assert(via(self.registry(), |q: Seq<char>| mentions(*ty, q), pushed[start.len() as int]));
                }
                proof { assert(self.registry()@.contains_key(s@)); }
                self.add_kind(kind);
                proof {
                    lemma_fresh_step(self.registry(), |q: Seq<char>| mentions(*ty, q), s@, pushed, self.listed());
                    lemma_fresh_grown(self.registry(), |q: Seq<char>| mentions(*ty, q), |q: Seq<char>| mentions(*ty, q),
                        start, pushed, self.listed());
                    assert(pushed[start.len() as int] == s@);
                    lemma_extends_trans(start, pushed, self.listed());
                    lemma_extends_contains(pushed, self.listed(), s@);
                    assert(self.listed()[start.len() as int] == s@) by {
                        assert(self.listed().subrange(0, pushed.len() as int)[start.len() as int] == self.listed()[start.len() as int]);
                    }
                }
            },
            _ => {},
        }
    }

    /// Walks the field types of a kind.
    fn add_kind(&mut self, kind: &CustomTypeKind)
        requires
            old(self).wf(),
            registry_closed(old(self).registry()),
            kind_registered(old(self).registry(), *kind),
        ensures
            final(self).registry() == old(self).registry(),
            final(self).wf(),
            extends(old(self).listed(), final(self).listed()),
            forall|p: Seq<char>| final(self).registry()@.contains_key(p) && #[trigger] kind_mentions(*kind, p)
                ==> final(self).listed().contains(p),
            forall|k: int| old(self).listed().len() <= k < final(self).listed().len() ==>
                expanded(final(self).registry(), final(self).listed(), #[trigger] final(self).listed()[k]),
            fresh_via(final(self).registry(), |q: Seq<char>| kind_mentions(*kind, q), old(self).listed(), final(self).listed()),
            final(self).listed() == walk_kind(old(self).registry(), old(self).listed(), *kind),
        decreases old(self).budget(), 2int, *kind,
    {
        proof { assert(self.listed().subrange(0, self.listed().len() as int) =~= self.listed()); }
        match kind {
            CustomTypeKind::Unit(_) => {},
            CustomTypeKind::Tuple(c) => {
                proof {
                    assert forall|p: Seq<char>| #[trigger] tuple_fields_mention(c.fields@, p) implies self.registry()@.contains_key(p) by {
                        assert(kind_mentions(*kind, p));
                    }
                }
                self.add_tuple_fields(&c.fields);
                proof {
                    lemma_fresh_mono(self.registry(), |q: Seq<char>| tuple_fields_mention(c.fields@, q),
                        |q: Seq<char>| kind_mentions(*kind, q), old(self).listed(), self.listed());
                }
            },
            CustomTypeKind::Struct(c) => {
                proof {
                    assert forall|p: Seq<char>| #[trigger] struct_fields_mention(c.fields@, p) implies self.registry()@.contains_key(p) by {
                        assert(kind_mentions(*kind, p));
                    }
                }
                self.add_struct_fields(&c.fields);
                proof {
                    lemma_fresh_mono(self.registry(), |q: Seq<char>| struct_fields_mention(c.fields@, q),
                        |q: Seq<char>| kind_mentions(*kind, q), old(self).listed(), self.listed());
                }
            },
            CustomTypeKind::Enum(c) => {
                let ghost start = self.listed();
                proof { assert(start.subrange(0, start.len() as int) =~= start); }
                let mut i: usize = 0;
                while i < c.fields.len()
                    invariant
                        i <= c.fields@.len(),
                        self.registry() == old(self).registry(),
                        registry_closed(old(self).registry()),
                        kind_registered(old(self).registry(), *kind),
                        self.wf(),
                        start == old(self).listed(),
                        extends(start, self.listed()),
                        self.budget() <= old(self).budget(),
                        forall|j: int, p: Seq<char>| 0 <= j < i && self.registry()@.contains_key(p)
                            && #[trigger] variant_mentions(c.fields@[j].kind, p) ==> self.listed().contains(p),
                        forall|k: int| start.len() <= k < self.listed().len() ==>
                            expanded(self.registry(), self.listed(), #[trigger] self.listed()[k]),
                        *kind == CustomTypeKind::Enum(*c),
                        fresh_via(self.registry(), |q: Seq<char>| kind_mentions(*kind, q), start, self.listed()),
                        walk_variants(self.registry(), start, c.fields, 0) == walk_variants(self.registry(), self.listed(), c.fields, i as int),
                    decreases c.fields@.len() - i,
                {
                    let ghost before = self.listed();
                    proof {
                        assert(before.subrange(0, before.len() as int) =~= before);
                        lemma_paths_bound(self.registry(), self.listed());
                    }
                    match &c.fields[i].kind {
                        EnumKind::Unit => {},
                        EnumKind::Struct(fs) => {
                            proof {
                                assert forall|p: Seq<char>| #[trigger] struct_fields_mention(fs@, p) implies self.registry()@.contains_key(p) by {
                                    assert(variant_mentions(c.fields@[i as int].kind, p));
                                    assert(kind_mentions(*kind, p));
                                }
                            }
                            self.add_struct_fields(fs);
                            proof {
                                assert forall|q: Seq<char>| #[trigger] struct_fields_mention(fs@, q) implies kind_mentions(*kind, q) by {
                                    assert(variant_mentions(c.fields@[i as int].kind, q));
                                }
                                lemma_fresh_grown(self.registry(), |q: Seq<char>| struct_fields_mention(fs@, q),
                                    |q: Seq<char>| kind_mentions(*kind, q), start, before, self.listed());
                            }
                        },
                        EnumKind::Tuple(fs) => {
                            proof {
                                assert forall|p: Seq<char>| #[trigger] tuple_fields_mention(fs@, p) implies self.registry()@.contains_key(p) by {
                                    assert(variant_mentions(c.fields@[i as int].kind, p));
                                    assert(kind_mentions(*kind, p));
                                }
                            }
                            self.add_tuple_fields(fs);
                            proof {
                                assert forall|q: Seq<char>| #[trigger] tuple_fields_mention(fs@, q) implies kind_mentions(*kind, q) by {
                                    assert(variant_mentions(c.fields@[i as int].kind, q));
                                }
                                lemma_fresh_grown(self.registry(), |q: Seq<char>| tuple_fields_mention(fs@, q),
                                    |q: Seq<char>| kind_mentions(*kind, q), start, before, self.listed());
                            }
                        },
                    }
                    proof {
                        lemma_paths_bound(self.registry(), self.listed());
                        self.lemma_grown(before, start, Seq::<Ty>::empty());
                        assert forall|j: int, p: Seq<char>| 0 <= j < i + 1 && self.registry()@.contains_key(p)
                            && #[trigger] variant_mentions(c.fields@[j].kind, p) implies self.listed().contains(p) by {
                            if j < i {
                                lemma_extends_contains(before, self.listed(), p);
                            }
                        }
                    }
                    i = i + 1;
                }
            },
        }
    }

    fn add_struct_fields(&mut self, fs: &Vec<StructField>)
        requires
            old(self).wf(),
            registry_closed(old(self).registry()),
            forall|p: Seq<char>| #[trigger] struct_fields_mention(fs@, p) ==> old(self).registry()@.contains_key(p),
        ensures
            final(self).registry() == old(self).registry(),
            final(self).wf(),
            extends(old(self).listed(), final(self).listed()),
            forall|p: Seq<char>| final(self).registry()@.contains_key(p) && #[trigger] struct_fields_mention(fs@, p)
                ==> final(self).listed().contains(p),
            forall|k: int| old(self).listed().len() <= k < final(self).listed().len() ==>
                expanded(final(self).registry(), final(self).listed(), #[trigger] final(self).listed()[k]),
            fresh_via(final(self).registry(), |q: Seq<char>| struct_fields_mention(fs@, q), old(self).listed(), final(self).listed()),
            final(self).listed() == walk_sfields(old(self).registry(), old(self).listed(), *fs, 0),
        decreases old(self).budget(), 1int, *fs,
    {
        let ghost start = self.listed();
        proof { assert(start.subrange(0, start.len() as int) =~= start); }
        let mut i: usize = 0;
        while i < fs.len()
            invariant
                i <= fs@.len(),
                self.registry() == old(self).registry(),
                registry_closed(old(self).registry()),
                self.wf(),
                start == old(self).listed(),
                extends(start, self.listed()),
                self.budget() <= old(self).budget(),
                forall|j: int| 0 <= j < i ==> covers(self.registry(), self.listed(), #[trigger] fs@[j].ty),
                forall|k: int| start.len() <= k < self.listed().len() ==>
                    expanded(self.registry(), self.listed(), #[trigger] self.listed()[k]),
                fresh_via(self.registry(), |q: Seq<char>| struct_fields_mention(fs@, q), start, self.listed()),
                forall|p: Seq<char>| #[trigger] struct_fields_mention(fs@, p) ==> old(self).registry()@.contains_key(p),
                walk_sfields(self.registry(), start, *fs, 0) == walk_sfields(self.registry(), self.listed(), *fs, i as int),
            decreases fs@.len() - i,
        {
            let ghost before = self.listed();
            proof {
                lemma_paths_bound(self.registry(), self.listed());
            }
            proof {
                assert forall|p: Seq<char>| #[trigger] mentions(fs@[i as int].ty, p) implies self.registry()@.contains_key(p) by {
                    assert(struct_fields_mention(fs@, p));
                }
            }
            self.add_ty(&fs[i].ty);
            proof {
                assert forall|q: Seq<char>| #[trigger] mentions(fs@[i as int].ty, q) implies struct_fields_mention(fs@, q) by {}
                lemma_fresh_grown(self.registry(), |q: Seq<char>| mentions(fs@[i as int].ty, q),
                    |q: Seq<char>| struct_fields_mention(fs@, q), start, before, self.listed());
                lemma_paths_bound(self.registry(), self.listed());
                let done = fs@.subrange(0, i as int).map_values(|f: StructField| f.ty);
                assert forall|j: int| 0 <= j < done.len() implies covers(self.registry(), before, #[trigger] done[j]) by {
                    assert(done[j] == fs@[j].ty);
                }
                self.lemma_grown(before, start, done);
                assert forall|j: int| 0 <= j < i + 1 implies covers(self.registry(), self.listed(), #[trigger] fs@[j].ty) by {
                    if j < i {
                        assert(done[j] == fs@[j].ty);
                    }
                }
            }
            i = i + 1;
        }
        proof {
            assert forall|p: Seq<char>| self.registry()@.contains_key(p) && #[trigger] struct_fields_mention(fs@, p)
                implies self.listed().contains(p) by {
                let j = choose|j: int| 0 <= j < fs@.len() && mentions(#[trigger] fs@[j].ty, p);
                assert(covers(self.registry(), self.listed(), fs@[j].ty));
            }
        }
    }

    fn add_tuple_fields(&mut self, fs: &Vec<TupleField>)
        requires
            old(self).wf(),
            registry_closed(old(self).registry()),
            forall|p: Seq<char>| #[trigger] tuple_fields_mention(fs@, p) ==> old(self).registry()@.contains_key(p),
        ensures
            final(self).registry() == old(self).registry(),
            final(self).wf(),
            extends(old(self).listed(), final(self).listed()),
            forall|p: Seq<char>| final(self).registry()@.contains_key(p) && #[trigger] tuple_fields_mention(fs@, p)
                ==> final(self).listed().contains(p),
            forall|k: int| old(self).listed().len() <= k < final(self).listed().len() ==>
                expanded(final(self).registry(), final(self).listed(), #[trigger] final(self).listed()[k]),
            fresh_via(final(self).registry(), |q: Seq<char>| tuple_fields_mention(fs@, q), old(self).listed(), final(self).listed()),
            final(self).listed() == walk_tfields(old(self).registry(), old(self).listed(), *fs, 0),
        decreases old(self).budget(), 1int, *fs,
    {
        let ghost start = self.listed();
        proof { assert(start.subrange(0, start.len() as int) =~= start); }
        let mut i: usize = 0;
        while i < fs.len()
            invariant
                i <= fs@.len(),
                self.registry() == old(self).registry(),
                registry_closed(old(self).registry()),
                self.wf(),
                start == old(self).listed(),
                extends(start, self.listed()),
                self.budget() <= old(self).budget(),
                forall|j: int| 0 <= j < i ==> covers(self.registry(), self.listed(), #[trigger] fs@[j].ty),
                forall|k: int| start.len() <= k < self.listed().len() ==>
                    expanded(self.registry(), self.listed(), #[trigger] self.listed()[k]),
                fresh_via(self.registry(), |q: Seq<char>| tuple_fields_mention(fs@, q), start, self.listed()),
                forall|p: Seq<char>| #[trigger] tuple_fields_mention(fs@, p) ==> old(self).registry()@.contains_key(p),
                walk_tfields(self.registry(), start, *fs, 0) == walk_tfields(self.registry(), self.listed(), *fs, i as int),
            decreases fs@.len() - i,
        {
            let ghost before = self.listed();
            proof {
                lemma_paths_bound(self.registry(), self.listed());
            }
            proof {
                assert forall|p: Seq<char>| #[trigger] mentions(fs@[i as int].ty, p) implies self.registry()@.contains_key(p) by {
                    assert(tuple_fields_mention(fs@, p));
                }
            }
            self.add_ty(&fs[i].ty);
            proof {
                assert forall|q: Seq<char>| #[trigger] mentions(fs@[i as int].ty, q) implies tuple_fields_mention(fs@, q) by {}
                lemma_fresh_grown(self.registry(), |q: Seq<char>| mentions(fs@[i as int].ty, q),
                    |q: Seq<char>| tuple_fields_mention(fs@, q), start, before, self.listed());
                lemma_paths_bound(self.registry(), self.listed());
                let done = fs@.subrange(0, i as int).map_values(|f: TupleField| f.ty);
                assert forall|j: int| 0 <= j < done.len() implies covers(self.registry(), before, #[trigger] done[j]) by {
                    assert(done[j] == fs@[j].ty);
                }
                self.lemma_grown(before, start, done);
                assert forall|j: int| 0 <= j < i + 1 implies covers(self.registry(), self.listed(), #[trigger] fs@[j].ty) by {
                    if j < i {
                        assert(done[j] == fs@[j].ty);
                    }
                }
            }
            i = i + 1;
        }
        proof {
            assert forall|p: Seq<char>| self.registry()@.contains_key(p) && #[trigger] tuple_fields_mention(fs@, p)
                implies self.listed().contains(p) by {
                let j = choose|j: int| 0 <= j < fs@.len() && mentions(#[trigger] fs@[j].ty, p);
                assert(covers(self.registry(), self.listed(), fs@[j].ty));
            }
        }
    }
}


/// The types a function's answer carries.
pub open spec fn output_mentions(out: FuncOutput, p: Seq<char>) -> bool {
    match out {
        FuncOutput::Unary(t) => mentions(t, p),
        FuncOutput::ServerStream { yield_ty, return_ty } => mentions(yield_ty, p) || mentions(return_ty, p),
    }
}

/// Whether some function's arguments refer to `q`.
pub open spec fn args_mention(funcs: Seq<Func>, q: Seq<char>) -> bool {
    exists|f: int| 0 <= f < funcs.len() && #[trigger] tys_mention(funcs[f].args@, q)
}

/// Whether some function's answer refers to `q`.
pub open spec fn outputs_mention(funcs: Seq<Func>, q: Seq<char>) -> bool {
    exists|f: int| 0 <= f < funcs.len() && #[trigger] output_mentions(funcs[f].output, q)
}

/// The list after walking the arguments of the functions from the `f`-th on.
pub open spec fn walk_args(reg: CostomTypes, l: Seq<Seq<char>>, funcs: Seq<Func>, f: int) -> Seq<Seq<char>>
    decreases funcs.len() - f,
{
    if f < 0 || f >= funcs.len() {
        l
    } else {
        walk_args(reg, walk_tys(reg, l, funcs[f].args, 0), funcs, f + 1)
    }
}

/// The list after walking what a function answers: its result, or the
/// yielded then the returned type.
pub open spec fn walk_output(reg: CostomTypes, l: Seq<Seq<char>>, out: FuncOutput) -> Seq<Seq<char>> {
    match out {
        FuncOutput::Unary(t) => walk_ty(reg, l, t),
        FuncOutput::ServerStream { yield_ty, return_ty } => walk_ty(reg, walk_ty(reg, l, yield_ty), return_ty),
    }
}

/// The list after walking the answers of the functions from the `f`-th on.
pub open spec fn walk_outputs(reg: CostomTypes, l: Seq<Seq<char>>, funcs: Seq<Func>, f: int) -> Seq<Seq<char>>
    decreases funcs.len() - f,
{
    if f < 0 || f >= funcs.len() {
        l
    } else {
        walk_outputs(reg, walk_output(reg, l, funcs[f].output), funcs, f + 1)
    }
}

/// The types of a function's answer are registered.
pub open spec fn output_registered(reg: CostomTypes, out: FuncOutput) -> bool {
    match out {
        FuncOutput::Unary(t) => ty_registered(reg, t),
        FuncOutput::ServerStream { yield_ty, return_ty } => ty_registered(reg, yield_ty) && ty_registered(reg, return_ty),
    }
}

/// The service's registry is closed, and every type its functions use refers
/// only to registered paths.
pub open spec fn def_closed(def: TypeDef) -> bool {
    &&& registry_closed(def.costom_types)
    &&& forall|f: int, a: int| 0 <= f < def.funcs@.len() && 0 <= a < def.funcs@[f].args@.len()
        ==> ty_registered(def.costom_types, #[trigger] def.funcs@[f].args@[a])
    &&& forall|f: int| 0 <= f < def.funcs@.len() ==> output_registered(def.costom_types, #[trigger] def.funcs@[f].output)
}

/// A service with the two lists the client generator needs: the types its
/// requests carry, which get encoders, and the types its answers carry, which
/// get decoders.
pub struct CodeGen<'a> {
    pub type_def: &'a TypeDef,
    pub input_paths: Vec<String>,
    pub output_paths: Vec<String>,
}

impl<'a> CodeGen<'a> {
    /// Walks the arguments of every function for the input list, and the
    /// yielded, returned and unary result types for the output list. Each
    /// list holds distinct registered paths, every registered path that a
    /// walked type reaches, and every registered path that a listed type's
    /// fields refer to.
    pub fn from(type_def: &'a TypeDef) -> (r: Self)
        requires
            type_def.costom_types.wf(),
            def_closed(*type_def),
        ensures
            r.type_def == type_def,
            r.wf(),
            pview(r.input_paths@).no_duplicates(),
            pview(r.output_paths@).no_duplicates(),
            forall|i: int| 0 <= i < r.input_paths@.len() ==> type_def.costom_types@.contains_key(#[trigger] r.input_paths@[i]@),
            forall|i: int| 0 <= i < r.output_paths@.len() ==> type_def.costom_types@.contains_key(#[trigger] r.output_paths@[i]@),
            forall|f: int, a: int, p: Seq<char>| 0 <= f < type_def.funcs@.len() && 0 <= a < type_def.funcs@[f].args@.len()
                && type_def.costom_types@.contains_key(p) && #[trigger] mentions(type_def.funcs@[f].args@[a], p)
                ==> pview(r.input_paths@).contains(p),
            forall|f: int, p: Seq<char>| 0 <= f < type_def.funcs@.len()
                && type_def.costom_types@.contains_key(p) && #[trigger] output_mentions(type_def.funcs@[f].output, p)
                ==> pview(r.output_paths@).contains(p),
            forall|k: int| 0 <= k < r.input_paths@.len() ==>
                expanded(type_def.costom_types, pview(r.input_paths@), #[trigger] r.input_paths@[k]@),
            forall|k: int| 0 <= k < r.output_paths@.len() ==>
                expanded(type_def.costom_types, pview(r.output_paths@), #[trigger] r.output_paths@[k]@),
            pview(r.input_paths@) == walk_args(type_def.costom_types, Seq::empty(), type_def.funcs@, 0),
            pview(r.output_paths@) == walk_outputs(type_def.costom_types, Seq::empty(), type_def.funcs@, 0),
            forall|k: int| 0 <= k < r.input_paths@.len() ==>
                via(type_def.costom_types, |q: Seq<char>| args_mention(type_def.funcs@, q), #[trigger] r.input_paths@[k]@),
            forall|k: int| 0 <= k < r.output_paths@.len() ==>
                via(type_def.costom_types, |q: Seq<char>| outputs_mention(type_def.funcs@, q), #[trigger] r.output_paths@[k]@),
    {
        let mut input = Path::new(&type_def.costom_types);
        let mut output = Path::new(&type_def.costom_types);
        let mut f: usize = 0;
        proof {
            assert(input.listed() =~= Seq::<Seq<char>>::empty());
            assert(output.listed() =~= Seq::<Seq<char>>::empty());
        }
        while f < type_def.funcs.len()
            invariant
                f <= type_def.funcs@.len(),
                input.registry() == type_def.costom_types,
                output.registry() == type_def.costom_types,
                def_closed(*type_def),
                input.wf(),
                output.wf(),
                forall|g: int, a: int, p: Seq<char>| 0 <= g < f && 0 <= a < type_def.funcs@[g].args@.len()
                    && type_def.costom_types@.contains_key(p) && #[trigger] mentions(type_def.funcs@[g].args@[a], p)
                    ==> input.listed().contains(p),
                forall|g: int, p: Seq<char>| 0 <= g < f
                    && type_def.costom_types@.contains_key(p) && #[trigger] output_mentions(type_def.funcs@[g].output, p)
                    ==> output.listed().contains(p),
                forall|k: int| 0 <= k < input.listed().len() ==>
                    expanded(type_def.costom_types, input.listed(), #[trigger] input.listed()[k]),
                forall|k: int| 0 <= k < output.listed().len() ==>
                    expanded(type_def.costom_types, output.listed(), #[trigger] output.listed()[k]),
                fresh_via(type_def.costom_types, |q: Seq<char>| args_mention(type_def.funcs@, q), Seq::empty(), input.listed()),
                fresh_via(type_def.costom_types, |q: Seq<char>| outputs_mention(type_def.funcs@, q), Seq::empty(), output.listed()),
                walk_args(type_def.costom_types, Seq::empty(), type_def.funcs@, 0)
                    == walk_args(type_def.costom_types, input.listed(), type_def.funcs@, f as int),
                walk_outputs(type_def.costom_types, Seq::empty(), type_def.funcs@, 0)
                    == walk_outputs(type_def.costom_types, output.listed(), type_def.funcs@, f as int),
            decreases type_def.funcs@.len() - f,
        {
            let func = &type_def.funcs[f];
            let ghost in_before = input.listed();
            proof {
                assert forall|a: int| 0 <= a < func.args@.len() implies ty_registered(input.registry(), #[trigger] func.args@[a]) by {
                    assert(ty_registered(type_def.costom_types, type_def.funcs@[f as int].args@[a]));
                }
                assert(output_registered(type_def.costom_types, type_def.funcs@[f as int].output));
            }
            input.add_tys(&func.args);
            proof {
                assert(in_before.subrange(0, 0) =~= Seq::<Seq<char>>::empty());
                assert forall|q: Seq<char>| #[trigger] tys_mention(func.args@, q) implies args_mention(type_def.funcs@, q) by {
                    assert(tys_mention(type_def.funcs@[f as int].args@, q));
                }
                lemma_fresh_grown(type_def.costom_types, |q: Seq<char>| tys_mention(func.args@, q),
                    |q: Seq<char>| args_mention(type_def.funcs@, q), Seq::empty(), in_before, input.listed());
                assert(in_before.subrange(0, 0) =~= Seq::<Seq<char>>::empty());
                input.lemma_grown(in_before, Seq::empty(), Seq::<Ty>::empty());
                assert forall|g: int, a: int, p: Seq<char>| 0 <= g < f + 1 && 0 <= a < type_def.funcs@[g].args@.len()
                    && type_def.costom_types@.contains_key(p) && #[trigger] mentions(type_def.funcs@[g].args@[a], p)
                    implies input.listed().contains(p) by {
                    if g < f {
                        lemma_extends_contains(in_before, input.listed(), p);
                    } else {
                        assert(covers(input.registry(), input.listed(), func.args@[a]));
                    }
                }
            }
            let ghost out_before = output.listed();
            match &func.output {
                FuncOutput::Unary(t) => {
                    output.add_ty(t);
                    proof {
                        assert forall|q: Seq<char>| #[trigger] mentions(*t, q) implies outputs_mention(type_def.funcs@, q) by {
                            assert(output_mentions(type_def.funcs@[f as int].output, q));
                        }
                        assert(out_before.subrange(0, 0) =~= Seq::<Seq<char>>::empty());
                        lemma_fresh_grown(type_def.costom_types, |q: Seq<char>| mentions(*t, q),
                            |q: Seq<char>| outputs_mention(type_def.funcs@, q), Seq::empty(), out_before, output.listed());
                    }
                },
                FuncOutput::ServerStream { yield_ty, return_ty } => {
                    output.add_ty(yield_ty);
                    let ghost mid = output.listed();
                    output.add_ty(return_ty);
                    proof {
                        output.lemma_grown(mid, out_before, seq![*yield_ty]);
                        assert(covers(output.registry(), output.listed(), seq![*yield_ty][0]));
                        assert forall|q: Seq<char>| #[trigger] mentions(*yield_ty, q) implies outputs_mention(type_def.funcs@, q) by {
                            assert(output_mentions(type_def.funcs@[f as int].output, q));
                        }
                        assert forall|q: Seq<char>| #[trigger] mentions(*return_ty, q) implies outputs_mention(type_def.funcs@, q) by {
                            assert(output_mentions(type_def.funcs@[f as int].output, q));
                        }
                        assert(out_before.subrange(0, 0) =~= Seq::<Seq<char>>::empty());
                        lemma_fresh_grown(type_def.costom_types, |q: Seq<char>| mentions(*yield_ty, q),
                            |q: Seq<char>| outputs_mention(type_def.funcs@, q), Seq::empty(), out_before, mid);
                        assert(mid.subrange(0, 0) =~= Seq::<Seq<char>>::empty());
                        lemma_fresh_grown(type_def.costom_types, |q: Seq<char>| mentions(*return_ty, q),
                            |q: Seq<char>| outputs_mention(type_def.funcs@, q), Seq::empty(), mid, output.listed());
                    }
                },
            }
            proof {
                assert(out_before.subrange(0, 0) =~= Seq::<Seq<char>>::empty());
                output.lemma_grown(out_before, Seq::empty(), Seq::<Ty>::empty());
                assert forall|g: int, p: Seq<char>| 0 <= g < f + 1
                    && type_def.costom_types@.contains_key(p) && #[trigger] output_mentions(type_def.funcs@[g].output, p)
                    implies output.listed().contains(p) by {
                    if g < f {
                        lemma_extends_contains(out_before, output.listed(), p);
                    }
                }
            }
            f = f + 1;
        }
        proof {
            assert(pview(input.paths@) == input.listed());
            assert(pview(output.paths@) == output.listed());
            assert forall|i: int| 0 <= i < input.paths@.len() implies type_def.costom_types@.contains_key(#[trigger] input.paths@[i]@) by {
                assert(input.listed()[i] == input.paths@[i]@);
            }
            assert forall|i: int| 0 <= i < output.paths@.len() implies type_def.costom_types@.contains_key(#[trigger] output.paths@[i]@) by {
                assert(output.listed()[i] == output.paths@[i]@);
            }
            assert forall|k: int| 0 <= k < input.paths@.len() implies
                expanded(type_def.costom_types, pview(input.paths@), #[trigger] input.paths@[k]@) by {
                assert(input.listed()[k] == input.paths@[k]@);
            }
            assert forall|k: int| 0 <= k < output.paths@.len() implies
                expanded(type_def.costom_types, pview(output.paths@), #[trigger] output.paths@[k]@) by {
                assert(output.listed()[k] == output.paths@[k]@);
            }
            assert forall|k: int| 0 <= k < input.paths@.len() implies
                via(type_def.costom_types, |q: Seq<char>| args_mention(type_def.funcs@, q), #[trigger] input.paths@[k]@) by {
                assert(input.listed()[k] == input.paths@[k]@);
            }
            assert forall|k: int| 0 <= k < output.paths@.len() implies
                via(type_def.costom_types, |q: Seq<char>| outputs_mention(type_def.funcs@, q), #[trigger] output.paths@[k]@) by {
                assert(output.listed()[k] == output.paths@[k]@);
            }
        }
        CodeGen { type_def, input_paths: input.paths, output_paths: output.paths }
    }
}

} // verus!

//! The schema of Rust types: which `Ty` each type has on the wire.
use vstd::prelude::*;
use crate::schema::{Ty, SetVariant, MapVariant};
use crate::registry::{CostomTypes, lemma_submap_trans};
use std::collections::{BTreeMap, BTreeSet, HashMap, HashSet, VecDeque};

verus! {

/// A type with a wire shape. Computing it may register the user-declared
/// types that it refers to, and changes no entry that is there.
pub trait TypeId {
    fn ty(c: &mut CostomTypes) -> (r: Ty)
        requires
            old(c).wf(),
        ensures
            final(c).wf(),
            old(c)@.submap_of(final(c)@);
}

impl TypeId for u8 {
    fn ty(c: &mut CostomTypes) -> (r: Ty)
        ensures r == Ty::u8, *final(c) == *old(c),
    { Ty::u8 }
}

impl TypeId for u16 {
    fn ty(c: &mut CostomTypes) -> (r: Ty)
        ensures r == Ty::u16, *final(c) == *old(c),
    { Ty::u16 }
}

impl TypeId for u32 {
    fn ty(c: &mut CostomTypes) -> (r: Ty)
        ensures r == Ty::u32, *final(c) == *old(c),
    { Ty::u32 }
}

impl TypeId for u64 {
    fn ty(c: &mut CostomTypes) -> (r: Ty)
        ensures r == Ty::u64, *final(c) == *old(c),
    { Ty::u64 }
}

impl TypeId for u128 {
    fn ty(c: &mut CostomTypes) -> (r: Ty)
        ensures r == Ty::u128, *final(c) == *old(c),
    { Ty::u128 }
}

impl TypeId for i8 {
    fn ty(c: &mut CostomTypes) -> (r: Ty)
        ensures r == Ty::i8, *final(c) == *old(c),
    { Ty::i8 }
}

impl TypeId for i16 {
    fn ty(c: &mut CostomTypes) -> (r: Ty)
        ensures r == Ty::i16, *final(c) == *old(c),
    { Ty::i16 }
}

impl TypeId for i32 {
    fn ty(c: &mut CostomTypes) -> (r: Ty)
        ensures r == Ty::i32, *final(c) == *old(c),
    { Ty::i32 }
}

impl TypeId for i64 {
    fn ty(c: &mut CostomTypes) -> (r: Ty)
        ensures r == Ty::i64, *final(c) == *old(c),
    { Ty::i64 }
}

impl TypeId for i128 {
    fn ty(c: &mut CostomTypes) -> (r: Ty)
        ensures r == Ty::i128, *final(c) == *old(c),
    { Ty::i128 }
}

impl TypeId for bool {
    fn ty(c: &mut CostomTypes) -> (r: Ty)
        ensures r == Ty::bool, *final(c) == *old(c),
    { Ty::bool }
}

impl TypeId for String {
    fn ty(c: &mut CostomTypes) -> (r: Ty)
        ensures r == Ty::String, *final(c) == *old(c),
    { Ty::String }
}

impl TypeId for usize {
    /// A `usize` travels as the fixed-width integer of the platform's width.
    fn ty(c: &mut CostomTypes) -> (r: Ty)
        ensures
            usize::BITS == 64 ==> r == Ty::u64,
            usize::BITS == 32 ==> r == Ty::u32,
            *final(c) == *old(c),
    {
        if usize::BITS == 64 {
            Ty::u64
        } else if usize::BITS == 32 {
            Ty::u32
        } else {
            Ty::u16
        }
    }
}

impl TypeId for isize {
    /// An `isize` travels as the fixed-width integer of the platform's width.
    fn ty(c: &mut CostomTypes) -> (r: Ty)
        ensures
            isize::BITS == 64 ==> r == Ty::i64,
            isize::BITS == 32 ==> r == Ty::i32,
            *final(c) == *old(c),
    {
        if isize::BITS == 64 {
            Ty::i64
        } else if isize::BITS == 32 {
            Ty::i32
        } else {
            Ty::i16
        }
    }
}

impl TypeId for () {
    fn ty(c: &mut CostomTypes) -> (r: Ty)
        ensures r.spec_is_empty_tuple(), *final(c) == *old(c),
    { Ty::Tuple(Vec::new()) }
}

impl<T: TypeId> TypeId for Option<T> {
    fn ty(c: &mut CostomTypes) -> (r: Ty)
        ensures r is Option,
    {
        Ty::Option(Box::new(T::ty(c)))
    }
}

impl<T: TypeId, E: TypeId> TypeId for Result<T, E> {
    fn ty(c: &mut CostomTypes) -> (r: Ty)
        ensures r is Result,
    {
        let ghost c0 = *c;
        let ok = T::ty(c);
        let ghost c1 = *c;
        let err = E::ty(c);
        proof { lemma_submap_trans(c0@, c1@, c@); }
        Ty::Result(Box::new((ok, err)))
    }
}

impl<T: TypeId> TypeId for Box<T> {
    fn ty(c: &mut CostomTypes) -> (r: Ty) {
        T::ty(c)
    }
}

impl<T: TypeId, const N: usize> TypeId for [T; N] {
    fn ty(c: &mut CostomTypes) -> (r: Ty)
        ensures r matches Ty::Array { len, .. } && len == N,
    {
        Ty::Array { ty: Box::new(T::ty(c)), len: N }
    }
}

impl<T1: TypeId> TypeId for (T1,) {
    fn ty(c: &mut CostomTypes) -> (r: Ty)
        ensures r matches Ty::Tuple(tys) && tys@.len() == 1,
    {
        let a = T1::ty(c);
        let mut tys = Vec::new();
        tys.push(a);
        Ty::Tuple(tys)
    }
}

impl<T1: TypeId, T2: TypeId> TypeId for (T1, T2) {
    fn ty(c: &mut CostomTypes) -> (r: Ty)
        ensures r matches Ty::Tuple(tys) && tys@.len() == 2,
    {
        let ghost c0 = *c;
        let a = T1::ty(c);
        let ghost c1 = *c;
        let b = T2::ty(c);
        proof { lemma_submap_trans(c0@, c1@, c@); }
        let mut tys = Vec::new();
        tys.push(a);
        tys.push(b);
        Ty::Tuple(tys)
    }
}

impl<T1: TypeId, T2: TypeId, T3: TypeId> TypeId for (T1, T2, T3) {
    fn ty(c: &mut CostomTypes) -> (r: Ty)
        ensures r matches Ty::Tuple(tys) && tys@.len() == 3,
    {
        let ghost c0 = *c;
        let a = T1::ty(c);
        let ghost c1 = *c;
        let b = T2::ty(c);
        let ghost c2 = *c;
        let d = T3::ty(c);
        proof {
            lemma_submap_trans(c0@, c1@, c2@);
            lemma_submap_trans(c0@, c2@, c@);
        }
        let mut tys = Vec::new();
        tys.push(a);
        tys.push(b);
        tys.push(d);
        Ty::Tuple(tys)
    }
}

impl<T: TypeId> TypeId for Vec<T> {
    fn ty(c: &mut CostomTypes) -> (r: Ty)
        ensures r matches Ty::SetOf { variant, .. } && variant == SetVariant::Vec,
    {
        Ty::SetOf { variant: SetVariant::Vec, ty: Box::new(T::ty(c)) }
    }
}

impl<T: TypeId> TypeId for VecDeque<T> {
    fn ty(c: &mut CostomTypes) -> (r: Ty)
        ensures r matches Ty::SetOf { variant, .. } && variant == SetVariant::VecDeque,
    {
        Ty::SetOf { variant: SetVariant::VecDeque, ty: Box::new(T::ty(c)) }
    }
}

impl<T: TypeId> TypeId for BTreeSet<T> {
    fn ty(c: &mut CostomTypes) -> (r: Ty)
        ensures r matches Ty::SetOf { variant, .. } && variant == SetVariant::BTreeSet,
    {
        Ty::SetOf { variant: SetVariant::BTreeSet, ty: Box::new(T::ty(c)) }
    }
}

impl<T: TypeId> TypeId for HashSet<T> {
    fn ty(c: &mut CostomTypes) -> (r: Ty)
        ensures r matches Ty::SetOf { variant, .. } && variant == SetVariant::HashSet,
    {
        Ty::SetOf { variant: SetVariant::HashSet, ty: Box::new(T::ty(c)) }
    }
}

impl<K: TypeId, V: TypeId> TypeId for BTreeMap<K, V> {
    fn ty(c: &mut CostomTypes) -> (r: Ty)
        ensures r matches Ty::MapOf { variant, .. } && variant == MapVariant::BTreeMap,
    {
        let ghost c0 = *c;
        let k = K::ty(c);
        let ghost c1 = *c;
        let v = V::ty(c);
        proof { lemma_submap_trans(c0@, c1@, c@); }
        Ty::MapOf { variant: MapVariant::BTreeMap, ty: Box::new((k, v)) }
    }
}

impl<K: TypeId, V: TypeId> TypeId for HashMap<K, V> {
    fn ty(c: &mut CostomTypes) -> (r: Ty)
        ensures r matches Ty::MapOf { variant, .. } && variant == MapVariant::HashMap,
    {
        let ghost c0 = *c;
        let k = K::ty(c);
        let ghost c1 = *c;
        let v = V::ty(c);
        proof { lemma_submap_trans(c0@, c1@, c@); }
        Ty::MapOf { variant: MapVariant::HashMap, ty: Box::new((k, v)) }
    }
}


/// The state shared by the calls of a service. A handler takes it first; it
/// is not sent over the wire, so its shape is the empty tuple, which a
/// function's description leaves out.
#[derive(Debug, Default, Clone, Copy)]
pub struct State<T>(pub T);

impl<T> TypeId for State<T> {
    fn ty(c: &mut CostomTypes) -> (r: Ty)
        ensures r.spec_is_empty_tuple(), *final(c) == *old(c),
    {
        Ty::Tuple(Vec::new())
    }
}

} // verus!

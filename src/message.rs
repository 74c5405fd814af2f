//! The description of a service: its functions and the types they use.
use vstd::prelude::*;
use vstd::string::*;
use crate::schema::{Ident, Ty};
use crate::registry::CostomTypes;

verus! {

/// What a function returns.
#[derive(Debug)]
pub enum FuncOutput {
    /// One value.
    Unary(Ty),
    /// A stream of values, then one last value.
    ServerStream { yield_ty: Ty, return_ty: Ty },
}

/// One RPC function.
#[derive(Debug)]
pub struct Func {
    pub docs: String,
    /// The id that requests name it by.
    pub index: u16,
    pub ident: Ident,
    pub args: Vec<Ty>,
    pub output: FuncOutput,
}

/// A service: its name, docs, the types it uses, and its functions.
#[derive(Debug)]
pub struct TypeDef {
    pub name: Ident,
    pub docs: String,
    pub costom_types: CostomTypes,
    pub funcs: Vec<Func>,
}

impl TypeDef {
    pub fn new(name: &str, costom_types: CostomTypes, funcs: Vec<Func>, docs: &str) -> (r: Self)
        ensures
            r.name.0@ == name@,
            r.costom_types == costom_types,
            r.funcs == funcs,
            r.docs@ == docs@,
    {
        TypeDef {
            name: Ident(String::from_str(name)),
            costom_types,
            funcs,
            docs: String::from_str(docs),
        }
    }

    /// The position of the function that `id` names, if there is one; the
    /// first, should two share it.
    pub fn find_func(&self, id: u16) -> (r: Option<usize>)
        ensures
            r matches Some(i) ==> i < self.funcs@.len() && self.funcs@[i as int].index == id
                && forall|j: int| 0 <= j < i ==> (#[trigger] self.funcs@[j]).index != id,
            r is None ==> forall|j: int| 0 <= j < self.funcs@.len() ==> (#[trigger] self.funcs@[j]).index != id,
    {
        let mut i: usize = 0;
        while i < self.funcs.len()
            invariant
                i <= self.funcs@.len(),
                forall|j: int| 0 <= j < i ==> (#[trigger] self.funcs@[j]).index != id,
            decreases self.funcs@.len() - i,
        {
            if self.funcs[i].index == id {
                return Some(i);
            }
            i = i + 1;
        }
        None
    }
}

impl Func {
    /// A function's description from its signature: `args` is the tuple of
    /// its parameters. A leading empty tuple stands for the shared state,
    /// which the client does not send, and is left out.
    pub fn new(index: u16, ident: &str, args: Ty, output: FuncOutput, docs: &str) -> (r: Self)
        requires
            args is Tuple,
        ensures
            r.index == index,
            r.ident.0@ == ident@,
            r.docs@ == docs@,
            r.output == output,
            ({
                let tys = args->Tuple_0@;
                if tys.len() > 0 && tys[0].spec_is_empty_tuple() {
                    r.args@ == tys.drop_first()
                } else {
                    r.args@ == tys
                }
            }),
    {
        let mut tys = match args {
            Ty::Tuple(tys) => tys,
            _ => Vec::new(),
        };
        if tys.len() > 0 && tys[0].is_empty_tuple() {
            tys.remove(0);
        }
        Func { docs: String::from_str(docs), index, ident: Ident(String::from_str(ident)), args: tys, output }
    }
}

} // verus!

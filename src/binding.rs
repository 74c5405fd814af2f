//! The whole generated client file: type declarations, decoders, encoders
//! and the stub class.
use vstd::prelude::*;
use vstd::string::*;
use crate::schema::CustomTypeKind;
use crate::registry::CostomTypes;
use crate::message::TypeDef;
use crate::naming::{IdentMap, lookup, identifiers, views, ascending_of, ident_in};
use crate::reach::CodeGen;
use crate::interface::{lemma_concat_push, concat_all, type_decl, kind_named, kind_complete, gen_type};
use crate::decoder::{decoder_fn, kind_decodable, write_decoder};
use crate::encoder::{encoder_fn, kind_encodable, write_encoder};
use crate::stub::{stub_class, func_named, func_is_named, write_stub};
use crate::check_names::kind_is_named;

verus! {

/// A registered type that the client can be generated for: it has an
/// identifier, so do the types its fields refer to, and an enum has at least
/// one variant and fewer than 2^32.
pub open spec fn type_ready(path: Seq<char>, kind: CustomTypeKind, names: Seq<(String, String)>) -> bool {
    &&& lookup(names, path) is Some
    &&& kind_named(kind, names)
    &&& kind_complete(kind)
    &&& kind_decodable(kind)
    &&& kind_encodable(kind)
}

/// Every registered type is ready, and every function's types have identifiers.
pub open spec fn ready(def: TypeDef, names: Seq<(String, String)>) -> bool {
    &&& forall|i: int| 0 <= i < def.costom_types.entries().len() ==>
        type_ready((#[trigger] def.costom_types.entries()[i]).0@, def.costom_types.entries()[i].1, names)
    &&& forall|i: int| 0 <= i < def.funcs@.len() ==> func_named(#[trigger] def.funcs@[i], names)
}

pub open spec fn types_text(reg: CostomTypes, names: Seq<(String, String)>) -> Seq<char> {
    concat_all(reg.entries().map_values(|e: (String, CustomTypeKind)| type_decl(lookup(names, e.0@)->Some_0, e.1, names)))
}

pub open spec fn decoders_text(reg: CostomTypes, paths: Seq<String>, names: Seq<(String, String)>) -> Seq<char> {
    "let struct = {\n"@ + concat_all(paths.map_values(|p: String| decoder_fn(lookup(names, p@)->Some_0, reg@[p@], names)))
        + "}\n"@
}

pub open spec fn encoders_text(reg: CostomTypes, paths: Seq<String>, names: Seq<(String, String)>) -> Seq<char> {
    "let extern = {\n"@ + concat_all(paths.map_values(|p: String| encoder_fn(lookup(names, p@)->Some_0, reg@[p@], names)))
        + "}\n"@
}

/// The client's code: the declaration of every registered type in order of
/// path, decoders for the types answers reach, encoders for the types
/// requests reach, then the stub class.
pub open spec fn client_text(def: TypeDef, input: Seq<String>, output: Seq<String>, names: Seq<(String, String)>) -> Seq<char> {
    types_text(def.costom_types, names) + decoders_text(def.costom_types, output, names)
        + encoders_text(def.costom_types, input, names) + stub_class(def, names)
}

/// `names` gives each path, in order, the identifier that naming the paths
/// gives it.
pub open spec fn names_for(paths: Seq<Seq<char>>, names: Seq<(String, String)>) -> bool {
    &&& identifiers(ascending_of(paths.to_set())) is Some
    &&& names.len() == paths.len()
    &&& forall|j: int| 0 <= j < names.len() ==> (#[trigger] names[j]).0@ == paths[j]
        && ident_in(paths.to_set(), paths[j]) == Some(names[j].1@)
}

/// The first line of the client file, which imports the runtime.
pub open spec fn import_line(preserve_import_extension: bool) -> Seq<char> {
    "import * as use from './databuf.lib"@ + (if preserve_import_extension { ".ts"@ } else { ""@ })
        + "'\n"@
}

/// Whether the client can be generated with these identifiers.
pub fn is_ready(def: &TypeDef, ident_map: &IdentMap) -> (r: bool)
    requires
        def.costom_types.wf(),
    ensures
        r == ready(*def, ident_map.entries()),
{
    let ghost names = ident_map.entries();
    let reg = &def.costom_types;
    let mut i: usize = 0;
    while i < reg.len()
        invariant
            i <= reg.entries().len(),
            names == ident_map.entries(),
            *reg == def.costom_types,
            forall|j: int| 0 <= j < i ==> type_ready((#[trigger] reg.entries()[j]).0@, reg.entries()[j].1, names),
        decreases reg.entries().len() - i,
    {
        let (path, kind) = reg.entry(i);
        let shaped = match kind {
            CustomTypeKind::Unit(u) => u.fields.len() > 0,
            CustomTypeKind::Enum(c) => 0 < c.fields.len() && (c.fields.len() as u64) < 0x1_0000_0000,
            _ => true,
        };
        let named = ident_map.get(path.as_str()).is_some();
        let fields_named = kind_is_named(kind, ident_map);
        if !named || !fields_named || !shaped {
            proof {
                assert(!type_ready(reg.entries()[i as int].0@, reg.entries()[i as int].1, names));
            }
            return false;
        }
        i = i + 1;
    }
    let mut f: usize = 0;
    while f < def.funcs.len()
        invariant
            f <= def.funcs@.len(),
            names == ident_map.entries(),
            *reg == def.costom_types,
            forall|j: int| 0 <= j < reg.entries().len() ==> type_ready((#[trigger] reg.entries()[j]).0@, reg.entries()[j].1, names),
            forall|j: int| 0 <= j < f ==> func_named(#[trigger] def.funcs@[j], names),
        decreases def.funcs@.len() - f,
    {
        if !func_is_named(&def.funcs[f], ident_map) {
            proof { assert(!func_named(def.funcs@[f as int], names)); }
            return false;
        }
        f = f + 1;
    }
    true
}

fn kind_of<'a>(reg: &'a CostomTypes, path: &String, Ghost(names): Ghost<Seq<(String, String)>>) -> (r: &'a CustomTypeKind)
    requires
        reg.wf(),
        reg@.contains_key(path@),
        forall|i: int| 0 <= i < reg.entries().len() ==>
            type_ready((#[trigger] reg.entries()[i]).0@, reg.entries()[i].1, names),
    ensures
        *r == reg@[path@],
        type_ready(path@, *r, names),
{
    proof {
        let k = choose|k: int| 0 <= k < reg.entries().len() && reg.entries()[k].0@ == path@;
        reg.lemma_view_at(k);
    }
    match reg.get(path.as_str()) {
        Some(k) => k,
        None => {
            proof { assert(false); }
            reg.entry(0).1
        },
    }
}


fn types_part(def: &TypeDef, ident_map: &IdentMap) -> (r: String)
    requires
        def.costom_types.wf(),
        ready(*def, ident_map.entries()),
    ensures
        r@ == types_text(def.costom_types, ident_map.entries()),
{
    let ghost names = ident_map.entries();
    let reg = &def.costom_types;
    let mut out = String::new();
    let ghost g = |e: (String, CustomTypeKind)| type_decl(lookup(names, e.0@)->Some_0, e.1, names);
    let mut i: usize = 0;
    while i < reg.len()
        invariant
            i <= reg.entries().len(),
            names == ident_map.entries(),
            *reg == def.costom_types,
            ready(*def, names),
            g == |e: (String, CustomTypeKind)| type_decl(lookup(names, e.0@)->Some_0, e.1, names),
            out@ == concat_all(reg.entries().subrange(0, i as int).map_values(g)),
        decreases reg.entries().len() - i,
    {
        let (path, kind) = reg.entry(i);
        proof { assert(type_ready(reg.entries()[i as int].0@, reg.entries()[i as int].1, names)); }
        out.append(gen_type(ident_map, path.as_str(), kind).as_str());
        proof {
            assert(reg.entries().subrange(0, i + 1).map_values(g) =~= reg.entries().subrange(0, i as int).map_values(g).push(g(reg.entries()[i as int])));
            lemma_concat_push(reg.entries().subrange(0, i as int).map_values(g), g(reg.entries()[i as int]));
        }
        i = i + 1;
    }
    assert(reg.entries().subrange(0, reg.entries().len() as int) =~= reg.entries());
    out
}

fn decoders_part(reg: &CostomTypes, paths: &Vec<String>, def: &TypeDef, ident_map: &IdentMap) -> (r: String)
    requires
        *reg == def.costom_types,
        reg.wf(),
        ready(*def, ident_map.entries()),
        forall|i: int| 0 <= i < paths@.len() ==> reg@.contains_key(#[trigger] paths@[i]@),
    ensures
        r@ == decoders_text(*reg, paths@, ident_map.entries()),
{
    let ghost names = ident_map.entries();
    let mut dec = String::from_str("let struct = {\n");
    let ghost gd = |p: String| decoder_fn(lookup(names, p@)->Some_0, reg@[p@], names);
    let mut i: usize = 0;
    while i < paths.len()
        invariant
            i <= paths@.len(),
            names == ident_map.entries(),
            *reg == def.costom_types,
            reg.wf(),
            ready(*def, names),
            forall|j: int| 0 <= j < paths@.len() ==> reg@.contains_key(#[trigger] paths@[j]@),
            gd == |p: String| decoder_fn(lookup(names, p@)->Some_0, reg@[p@], names),
            dec@ == "let struct = {\n"@ + concat_all(paths@.subrange(0, i as int).map_values(gd)),
        decreases paths@.len() - i,
    {
        let kind = kind_of(reg, &paths[i], Ghost(names));
        let ident = match ident_map.get(paths[i].as_str()) {
            Some(id) => id.clone(),
            None => String::new(),
        };
        dec.append(write_decoder(ident.as_str(), kind, ident_map).as_str());
        proof {
            assert(paths@.subrange(0, i + 1).map_values(gd) =~= paths@.subrange(0, i as int).map_values(gd).push(gd(paths@[i as int])));
            lemma_concat_push(paths@.subrange(0, i as int).map_values(gd), gd(paths@[i as int]));
        }
        i = i + 1;
    }
    assert(paths@.subrange(0, paths@.len() as int) =~= paths@);
    dec.append("}\n");
    dec
}

fn encoders_part(reg: &CostomTypes, paths: &Vec<String>, def: &TypeDef, ident_map: &IdentMap) -> (r: String)
    requires
        *reg == def.costom_types,
        reg.wf(),
        ready(*def, ident_map.entries()),
        forall|i: int| 0 <= i < paths@.len() ==> reg@.contains_key(#[trigger] paths@[i]@),
    ensures
        r@ == encoders_text(*reg, paths@, ident_map.entries()),
{
    let ghost names = ident_map.entries();
    let mut enc = String::from_str("let extern = {\n");
    let ghost ge = |p: String| encoder_fn(lookup(names, p@)->Some_0, reg@[p@], names);
    let mut i: usize = 0;
    while i < paths.len()
        invariant
            i <= paths@.len(),
            names == ident_map.entries(),
            *reg == def.costom_types,
            reg.wf(),
            ready(*def, names),
            forall|j: int| 0 <= j < paths@.len() ==> reg@.contains_key(#[trigger] paths@[j]@),
            ge == |p: String| encoder_fn(lookup(names, p@)->Some_0, reg@[p@], names),
            enc@ == "let extern = {\n"@ + concat_all(paths@.subrange(0, i as int).map_values(ge)),
        decreases paths@.len() - i,
    {
        let kind = kind_of(reg, &paths[i], Ghost(names));
        let ident = match ident_map.get(paths[i].as_str()) {
            Some(id) => id.clone(),
            None => String::new(),
        };
        enc.append(write_encoder(ident.as_str(), kind, ident_map).as_str());
        proof {
            assert(paths@.subrange(0, i + 1).map_values(ge) =~= paths@.subrange(0, i as int).map_values(ge).push(ge(paths@[i as int])));
            lemma_concat_push(paths@.subrange(0, i as int).map_values(ge), ge(paths@[i as int]));
        }
        i = i + 1;
    }
    assert(paths@.subrange(0, paths@.len() as int) =~= paths@);
    enc.append("}\n");
    enc
}

/// The registered paths, in ascending order.
pub fn registry_paths(reg: &CostomTypes) -> (r: Vec<String>)
    ensures
        views(r@) == reg.paths(),
{
    let mut paths: Vec<String> = Vec::new();
    let mut i: usize = 0;
    while i < reg.len()
        invariant
            i <= reg.entries().len(),
            views(paths@) == reg.paths().subrange(0, i as int),
        decreases reg.entries().len() - i,
    {
        let p = reg.entry(i).0.clone();
        let ghost before = paths@;
        let ghost pv = p@;
        paths.push(p);
        proof {
            assert(reg.paths()[i as int] == reg.entries()[i as int].0@);
            assert(views(paths@) =~= views(before).push(pv));
            assert(reg.paths().subrange(0, i + 1) =~= reg.paths().subrange(0, i as int).push(reg.paths()[i as int]));
        }
        i = i + 1;
    }
    proof { assert(reg.paths().subrange(0, reg.entries().len() as int) =~= reg.paths()); }
    paths
}

impl<'a> CodeGen<'a> {
    /// The lists hold registered paths of a well-formed registry.
    pub open spec fn wf(&self) -> bool {
        &&& self.type_def.costom_types.wf()
        &&& forall|i: int| 0 <= i < self.input_paths@.len() ==> self.type_def.costom_types@.contains_key(#[trigger] self.input_paths@[i]@)
        &&& forall|i: int| 0 <= i < self.output_paths@.len() ==> self.type_def.costom_types@.contains_key(#[trigger] self.output_paths@[i]@)
    }

    /// The client's code with these identifiers; `None` where some type is
    /// not ready for it.
    pub fn typescript_with(&self, ident_map: &IdentMap) -> (r: Option<String>)
        requires
            self.wf(),
        ensures
            r is Some <==> ready(*self.type_def, ident_map.entries()),
            r matches Some(t) ==> t@ == client_text(*self.type_def, self.input_paths@, self.output_paths@, ident_map.entries()),
    {
        let ghost names = ident_map.entries();
        let def = self.type_def;
        if !is_ready(def, ident_map) {
            return None;
        }
        let reg = &def.costom_types;
        let mut out = types_part(def, ident_map);
        let dec = decoders_part(reg, &self.output_paths, def, ident_map);
        let enc = encoders_part(reg, &self.input_paths, def, ident_map);
        out.append(dec.as_str());
        out.append(enc.as_str());
        out.append(write_stub(def, ident_map).as_str());
        Some(out)
    }

    /// The client file: the import of the runtime, with or without its `.ts`
    /// extension, then the client's code, with the identifiers that naming
    /// the registered paths gives; `None` where naming fails or some type is
    /// not ready.
    pub fn typescript(&self, preserve_import_extension: bool) -> (r: Option<String>)
        requires
            self.wf(),
        ensures
            identifiers(ascending_of(self.type_def.costom_types.paths().to_set())) is None ==> r is None,
            r is None ==> identifiers(ascending_of(self.type_def.costom_types.paths().to_set())) is None
                || exists|names: Seq<(String, String)>| names_for(self.type_def.costom_types.paths(), names)
                    && !ready(*self.type_def, names),
            r matches Some(t) ==> exists|names: Seq<(String, String)>| {
                &&& names_for(self.type_def.costom_types.paths(), names)
                &&& ready(*self.type_def, names)
                &&& t@ == import_line(preserve_import_extension)
                    + client_text(*self.type_def, self.input_paths@, self.output_paths@, names)
            },
    {
        let reg = &self.type_def.costom_types;
        let paths = registry_paths(reg);
        let ident_map = match IdentMap::new(&paths) {
            Some(m) => m,
            None => return None,
        };
        proof {
            let names = ident_map.entries();
            assert forall|j: int| 0 <= j < names.len() implies (#[trigger] names[j]).0@ == reg.paths()[j]
                && ident_in(reg.paths().to_set(), reg.paths()[j]) == Some(names[j].1@) by {
                assert(views(paths@)[j] == paths@[j]@);
            }
            assert(names_for(reg.paths(), names));
        }
        match self.typescript_with(&ident_map) {
            None => None,
            Some(body) => {
                let mut file = String::from_str("import * as use from './databuf.lib");
                if preserve_import_extension {
                    file.append(".ts");
                } else {
                    proof { reveal_strlit(""); }
                    assert(file@ =~= file@ + ""@);
                }
                file.append("'\n");
                file.append(body.as_str());
                Some(file)
            },
        }
    }
}

} // verus!

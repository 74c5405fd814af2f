//! The type schema: the shapes that values take on the wire, and the registry of
//! user-declared types that both the server's codec and the generated clients read.
use vstd::prelude::*;
use vstd::string::*;

verus! {

/// The container that a sequence-shaped type was declared with.
#[derive(Clone, Copy, Debug, PartialEq, Eq, Structural)]
pub enum SetVariant {
    BTreeSet,
    HashSet,
    BinaryHeap,
    LinkedList,
    VecDeque,
    Vec,
}

/// The container that a map-shaped type was declared with.
#[derive(Clone, Copy, Debug, PartialEq, Eq, Structural)]
pub enum MapVariant {
    HashMap,
    BTreeMap,
}

/// The shape of a value on the wire.
#[allow(non_camel_case_types)]
#[allow(inconsistent_fields)]
#[derive(Debug)]
pub enum Ty {
    u8,
    u16,
    u32,
    u64,
    u128,
    i8,
    i16,
    i32,
    i64,
    i128,
    Float32,
    Float64,
    bool,
    String,
    Option(Box<Ty>),
    Result(Box<(Ty, Ty)>),
    Tuple(Vec<Ty>),
    Array { ty: Box<Ty>, len: usize },
    SetOf { variant: SetVariant, ty: Box<Ty> },
    MapOf { variant: MapVariant, ty: Box<(Ty, Ty)> },
    /// A user-declared type, referred to by its canonical path.
    CustomType(String),
}

impl Ty {
    pub open spec fn spec_is_empty_tuple(&self) -> bool {
        match self {
            Ty::Tuple(tys) => tys@.len() == 0,
            _ => false,
        }
    }

    /// Whether this is the empty tuple, which takes no bytes on the wire.
    pub fn is_empty_tuple(&self) -> (r: bool)
        ensures
            r == self.spec_is_empty_tuple(),
    {
        match self {
            Ty::Tuple(tys) => tys.len() == 0,
            _ => false,
        }
    }
}

/// The width and signedness of an enum's discriminant, with its value.
#[allow(non_camel_case_types)]
#[derive(Clone, Copy, Debug)]
pub enum EnumRepr {
    u8(u8),
    u16(u16),
    u32(u32),
    u64(u64),
    usize(usize),
    i8(i8),
    i16(i16),
    i32(i32),
    i64(i64),
    isize(isize),
}

impl EnumRepr {
    /// The discriminant's value.
    pub open spec fn value(self) -> int {
        match self {
            EnumRepr::u8(v) => v as int,
            EnumRepr::u16(v) => v as int,
            EnumRepr::u32(v) => v as int,
            EnumRepr::u64(v) => v as int,
            EnumRepr::usize(v) => v as int,
            EnumRepr::i8(v) => v as int,
            EnumRepr::i16(v) => v as int,
            EnumRepr::i32(v) => v as int,
            EnumRepr::i64(v) => v as int,
            EnumRepr::isize(v) => v as int,
        }
    }
}

/// A name as it was declared; a raw identifier keeps its `r#` prefix.
#[derive(Debug, Default)]
pub struct Ident(pub String);

/// `s` with every leading `r#` removed.
pub open spec fn strip_raw(s: Seq<char>) -> Seq<char>
    decreases s.len(),
{
    if s.len() >= 2 && s[0] == 'r' && s[1] == '#' {
        strip_raw(s.subrange(2, s.len() as int))
    } else {
        s
    }
}

pub open spec fn starts_raw(s: Seq<char>) -> bool {
    s.len() >= 2 && s[0] == 'r' && s[1] == '#'
}

impl Ident {
    /// Whether the name was written as a raw identifier (`r#type`).
    pub fn is_raw_str_literal(&self) -> (r: bool)
        ensures
            r == starts_raw(self.0@),
    {
        starts_with_raw(self.0.as_str())
    }

    /// The name without its raw-identifier prefix.
    pub fn unraw(&self) -> (r: &str)
        ensures
            r@ == strip_raw(self.0@),
    {
        strip_raw_prefix(self.0.as_str())
    }
}

pub fn starts_with_raw(s: &str) -> (r: bool)
    ensures
        r == starts_raw(s@),
{
    let n = s.unicode_len();
    n >= 2 && s.get_char(0) == 'r' && s.get_char(1) == '#'
}

/// Removes every leading `r#` from `s`.
pub fn strip_raw_prefix(s: &str) -> (r: &str)
    ensures
        r@ == strip_raw(s@),
{
    let mut cur = s;
    while starts_with_raw(cur)
        invariant
            strip_raw(cur@) == strip_raw(s@),
        decreases cur@.len(),
    {
        let n = cur.unicode_len();
        cur = cur.substring_char(2, n);
    }
    cur
}

/// Any user-declared type: `struct`, `enum`, tuple struct.
#[derive(Debug)]
pub struct CustomType<Field> {
    pub doc: String,
    pub fields: Vec<Field>,
}

/// A variant of a C-like enum, with its discriminant.
#[derive(Debug)]
pub struct UnitField {
    pub doc: String,
    pub name: Ident,
    pub value: EnumRepr,
}

/// A variant of an enum that may carry data.
#[derive(Debug)]
pub struct EnumField {
    pub doc: String,
    pub name: Ident,
    pub kind: EnumKind,
    pub index: Option<EnumRepr>,
}

/// What an enum variant carries.
#[derive(Debug)]
pub enum EnumKind {
    Unit,
    Struct(Vec<StructField>),
    Tuple(Vec<TupleField>),
}

/// A named field.
#[derive(Debug)]
pub struct StructField {
    pub doc: String,
    pub name: Ident,
    pub ty: Ty,
}

/// A positional field.
#[derive(Debug)]
pub struct TupleField {
    pub doc: String,
    pub ty: Ty,
}

/// The four shapes a user-declared type can take.
#[derive(Debug)]
pub enum CustomTypeKind {
    Unit(CustomType<UnitField>),
    Enum(CustomType<EnumField>),
    Tuple(CustomType<TupleField>),
    Struct(CustomType<StructField>),
}

impl CustomType<UnitField> {
    /// The discriminant of the first variant, which gives the enum's width.
    pub fn enum_repr(&self) -> (r: &EnumRepr)
        requires
            self.fields@.len() > 0,
        ensures
            *r == self.fields@[0].value,
    {
        &self.fields[0].value
    }
}

impl CustomType<EnumField> {
    /// The explicit discriminant of the first variant, if it has one.
    pub fn enum_repr(&self) -> (r: Option<&EnumRepr>)
        requires
            self.fields@.len() > 0,
        ensures
            r is Some <==> self.fields@[0].index is Some,
            r is Some ==> *r->Some_0 == self.fields@[0].index->Some_0,
    {
        self.fields[0].index.as_ref()
    }
}

impl<Field> CustomType<Field> {
    pub fn new(doc: &str, fields: Vec<Field>) -> (r: Self)
        ensures
            r.doc@ == doc@,
            r.fields == fields,
    {
        CustomType { doc: String::from_str(doc), fields }
    }
}

impl UnitField {
    pub fn new(doc: &str, name: &str, value: EnumRepr) -> (r: Self)
        ensures
            r.doc@ == doc@,
            r.name.0@ == name@,
            r.value == value,
    {
        UnitField { doc: String::from_str(doc), name: Ident(String::from_str(name)), value }
    }
}

impl EnumField {
    pub fn new(doc: &str, name: &str, index: Option<EnumRepr>, kind: EnumKind) -> (r: Self)
        ensures
            r.doc@ == doc@,
            r.name.0@ == name@,
            r.index == index,
            r.kind == kind,
    {
        EnumField { doc: String::from_str(doc), name: Ident(String::from_str(name)), kind, index }
    }
}

impl StructField {
    pub fn new(doc: &str, name: &str, ty: Ty) -> (r: Self)
        ensures
            r.doc@ == doc@,
            r.name.0@ == name@,
            r.ty == ty,
    {
        StructField { doc: String::from_str(doc), name: Ident(String::from_str(name)), ty }
    }
}

impl TupleField {
    pub fn new(doc: &str, ty: Ty) -> (r: Self)
        ensures
            r.doc@ == doc@,
            r.ty == ty,
    {
        TupleField { doc: String::from_str(doc), ty }
    }
}

pub open spec fn is_placeholder(k: CustomTypeKind) -> bool {
    &&& k is Unit
    &&& k->Unit_0.doc@.len() == 0
    &&& k->Unit_0.fields@.len() == 0
}

impl Default for CustomTypeKind {
    /// The placeholder kind: a unit enum with no variants and no docs.
    fn default() -> (r: Self)
        ensures
            is_placeholder(r),
    {
        CustomTypeKind::Unit(CustomType { doc: String::new(), fields: Vec::new() })
    }
}

} // verus!

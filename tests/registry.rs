use frpc::registry::{BuildKind, CostomTypes};
use frpc::schema::{CustomType, CustomTypeKind, EnumKind, EnumField, EnumRepr, StructField, Ty, TupleField, UnitField, Ident};
use frpc::type_id::TypeId;

struct Node;

struct NodeKind;

impl BuildKind for NodeKind {
    fn build(self, path: &str, c: &mut CostomTypes) -> CustomTypeKind {
        match c.get(path) {
            Some(CustomTypeKind::Unit(u)) => assert!(u.doc.is_empty() && u.fields.is_empty()),
            _ => panic!("the placeholder is not in place"),
        }
        let next = <Option<Box<Node>> as TypeId>::ty(c);
        CustomTypeKind::Struct(CustomType::new("", vec![
            StructField::new("", "value", <u32 as TypeId>::ty(c)),
            StructField::new("", "next", next),
        ]))
    }
}

impl TypeId for Node {
    fn ty(c: &mut CostomTypes) -> Ty {
        c.register("tests::Node".to_string(), NodeKind)
    }
}

fn unit_kind() -> CustomTypeKind {
    CustomTypeKind::Unit(CustomType::new("", vec![UnitField::new("", "A", EnumRepr::u8(0))]))
}

#[test]
fn self_referential_type_registers_once() {
    let mut c = CostomTypes::new();
    let ty = <Node as TypeId>::ty(&mut c);
    assert!(matches!(&ty, Ty::CustomType(p) if p == "tests::Node"));
    assert_eq!(c.len(), 1);
    match c.get("tests::Node") {
        Some(CustomTypeKind::Struct(s)) => {
            assert_eq!(s.fields.len(), 2);
            match &s.fields[1].ty {
                Ty::Option(inner) => assert!(matches!(&**inner, Ty::CustomType(p) if p == "tests::Node")),
                _ => panic!("expected an option"),
            }
        }
        _ => panic!("expected the struct to replace the placeholder"),
    }
}

#[test]
fn registering_twice_keeps_the_first() {
    let mut c = CostomTypes::new();
    c.register("a::X".to_string(), unit_kind());
    let again = c.register("a::X".to_string(), CustomTypeKind::Tuple(CustomType::new("other", vec![])));
    assert!(matches!(&again, Ty::CustomType(p) if p == "a::X"));
    assert_eq!(c.len(), 1);
    assert!(matches!(c.get("a::X"), Some(CustomTypeKind::Unit(_))));
}

#[test]
fn paths_are_kept_in_ascending_order() {
    let mut c = CostomTypes::new();
    for p in ["m::Zeta", "m::Alpha", "a::Mid", "m::Alpha"] {
        c.register(p.to_string(), unit_kind());
    }
    assert_eq!(c.len(), 3);
    let keys: Vec<String> = (0..c.len()).map(|i| c.entry(i).0.clone()).collect();
    assert_eq!(keys, vec!["a::Mid", "m::Alpha", "m::Zeta"]);
    assert!(c.contains("m::Zeta"));
    assert!(!c.contains("m::Beta"));
}

#[test]
fn container_shapes() {
    let mut c = CostomTypes::new();
    let t = <(u8, Vec<String>, std::collections::BTreeMap<u16, bool>) as TypeId>::ty(&mut c);
    match t {
        Ty::Tuple(v) => {
            assert_eq!(v.len(), 3);
            assert!(matches!(v[0], Ty::u8));
            assert!(matches!(&v[1], Ty::SetOf { variant: frpc::schema::SetVariant::Vec, ty } if matches!(**ty, Ty::String)));
            assert!(matches!(&v[2], Ty::MapOf { variant: frpc::schema::MapVariant::BTreeMap, .. }));
        }
        _ => panic!("expected a tuple"),
    }
    assert!(<() as TypeId>::ty(&mut c).is_empty_tuple());
    assert!(matches!(<[u8; 4] as TypeId>::ty(&mut c), Ty::Array { len: 4, .. }));
    assert!(!Ty::Tuple(vec![Ty::u8]).is_empty_tuple());
}

#[test]
fn field_constructors_and_enum_repr() {
    let u = CustomType::new("doc", vec![UnitField::new("", "A", EnumRepr::i16(-3))]);
    assert!(matches!(u.enum_repr(), EnumRepr::i16(-3)));
    let e = CustomType::new("", vec![EnumField::new("", "r#type", None, EnumKind::Tuple(vec![TupleField::new("", Ty::u8)]))]);
    assert!(e.enum_repr().is_none());
    assert!(e.fields[0].name.is_raw_str_literal());
    assert_eq!(e.fields[0].name.unraw(), "type");
    assert!(!Ident("plain".to_string()).is_raw_str_literal());
    assert_eq!(Ident("r#r#x".to_string()).unraw(), "x");
}

use frpc::naming::{join, path_segments, uppercase_first, IdentMap};

fn names(paths: &[&str]) -> Option<Vec<String>> {
    let paths: Vec<String> = paths.iter().map(|p| p.to_string()).collect();
    let map = IdentMap::new(&paths)?;
    Some(paths.iter().map(|p| map.get(p).unwrap().clone()).collect())
}

#[test]
fn shorter_paths_claim_the_simple_name() {
    let got = names(&["crate::b::Foo", "a::Foo", "x::Bar"]).unwrap();
    assert_eq!(got, vec!["B_Foo", "Foo", "Bar"]);
}

#[test]
fn ties_go_in_path_order() {
    let got = names(&["c::foo", "a::foo", "b::foo"]).unwrap();
    assert_eq!(got, vec!["C_Foo", "Foo", "B_Foo"]);
}

#[test]
fn identifiers_depend_on_the_set_alone() {
    assert_eq!(names(&["a::X", "b::X"]).unwrap(), vec!["X", "B_X"]);
    assert_eq!(names(&["b::X", "a::X"]).unwrap(), vec!["B_X", "X"]);
    assert_eq!(names(&["b::X", "a::X", "b::X"]).unwrap(), vec!["B_X", "X", "B_X"]);
}

#[test]
fn identifiers_are_distinct_and_stable() {
    let paths = ["m::a::Item", "m::b::Item", "n::a::Item", "Item", "z::r#type"];
    let first = names(&paths).unwrap();
    let second = names(&paths).unwrap();
    assert_eq!(first, second);
    for i in 0..first.len() {
        for j in 0..first.len() {
            if i != j {
                assert_ne!(first[i], first[j]);
            }
        }
    }
    assert_eq!(first, vec!["A_Item", "B_Item", "N_A_Item", "Item", "Type"]);
}

#[test]
fn running_out_of_segments_fails() {
    assert!(names(&["X", "x"]).is_none());
}

#[test]
fn segments_split_and_unraw() {
    assert_eq!(path_segments("a::r#type::B"), vec!["a", "type", "B"]);
    assert_eq!(path_segments("::x"), vec!["", "x"]);
    assert_eq!(path_segments(""), vec![""]);
}

#[test]
fn uppercase_and_join() {
    assert_eq!(uppercase_first("foo"), "Foo");
    assert_eq!(uppercase_first("ßa"), "SSa");
    assert_eq!(uppercase_first(""), "");
    let parts = vec!["a".to_string(), "b".to_string(), "c".to_string()];
    assert_eq!(join(&parts, ", "), "a, b, c");
    assert_eq!(join(&vec![], ", "), "");
}

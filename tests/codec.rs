use databuf::{Decode, Encode};
use std::collections::{BTreeMap, BTreeSet};

const CONFIG: u16 = databuf::config::num::LEB128 | databuf::config::len::BEU30;

fn round_trip<T: Encode + for<'de> Decode<'de> + PartialEq + std::fmt::Debug>(v: T) {
    let bytes = v.to_bytes::<CONFIG>();
    assert_eq!(T::from_bytes::<CONFIG>(&bytes).unwrap(), v);
}

#[test]
fn nested_values_round_trip() {
    round_trip(Some(Some("x".to_string())));
    round_trip::<Result<String, String>>(Err("no".into()));
    round_trip((1u8, -2i32, u128::MAX, true));
    round_trip([Some(1u16), None, Some(3)]);
    let tags: BTreeSet<i8> = [1, -1, 5].into_iter().collect();
    let scores: BTreeMap<String, Option<u64>> = [("a".to_string(), Some(9)), ("b".to_string(), None)].into_iter().collect();
    let outcome: Result<(u8, ()), String> = Ok((3, ()));
    round_trip(("b".to_string(), tags, scores, [1u16, 2, 3], vec![vec![(-7i64, false)], vec![]], outcome));
}

#[test]
fn empty_tuple_takes_no_bytes() {
    assert!(().to_bytes::<CONFIG>().is_empty());
    let bytes: [u8; 2] = [5, 6];
    let mut cursor: &[u8] = &bytes;
    <()>::decode::<CONFIG>(&mut cursor).unwrap();
    assert_eq!(cursor, &[5, 6]);
}

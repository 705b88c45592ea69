use git_global::macros::hash_num::invert_map;
use std::collections::HashMap;

#[test]
fn invert_map_turns_the_map_around() {
    let mut m: HashMap<u64, u64> = HashMap::new();
    m.insert(1, 10);
    m.insert(2, 20);
    let inv = invert_map(m);
    assert_eq!(inv.len(), 2);
    assert_eq!(inv.get(&10), Some(&1));
    assert_eq!(inv.get(&20), Some(&2));
}

#[test]
fn invert_map_keeps_one_key_per_value() {
    let mut m: HashMap<u64, u64> = HashMap::new();
    m.insert(1, 7);
    m.insert(2, 7);
    let inv = invert_map(m);
    assert_eq!(inv.len(), 1);
    let k = *inv.get(&7).unwrap();
    assert!(k == 1 || k == 2);
}

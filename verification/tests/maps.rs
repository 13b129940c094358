use cargo_vet::stable_map::StableMap;

fn names(map: &StableMap<String, u32>) -> Vec<(String, u32)> {
    let mut out = Vec::new();
    for i in 0..map.len() {
        out.push((map.key_at(i).clone(), *map.value_at(i)));
    }
    out
}

#[test]
fn keys_keep_their_order() {
    let mut map: StableMap<String, u32> = StableMap::new();
    assert_eq!(map.len(), 0);
    map.insert("b".to_string(), 1);
    map.insert("a".to_string(), 2);
    map.insert("c".to_string(), 3);
    map.insert("a".to_string(), 4);
    assert_eq!(
        names(&map),
        vec![("b".to_string(), 1), ("a".to_string(), 4), ("c".to_string(), 3)]
    );
    assert_eq!(map.get(&"a".to_string()), Some(&4));
    assert_eq!(map.get(&"d".to_string()), None);
    assert_eq!(map.find(&"c".to_string()), Some(2));
    assert_eq!(map.find(&"".to_string()), None);
    assert_eq!(map.replace_at(0, 7), 1);
    assert_eq!(map.get(&"b".to_string()), Some(&7));
}

#[test]
fn lists_grow_at_the_end() {
    let mut map: StableMap<String, Vec<u32>> = StableMap::new();
    map.push_at("x".to_string(), 1);
    map.push_at("y".to_string(), 2);
    map.push_at("x".to_string(), 3);
    assert_eq!(map.len(), 2);
    assert_eq!(map.key_at(0), "x");
    assert_eq!(map.value_at(0), &vec![1, 3]);
    assert_eq!(map.value_at(1), &vec![2]);
}

use linked_hash_map::LinkedHashMap;
use linkedhashmap_literal::literal::{from_pairs_str_str, from_pairs_str_u64, from_pairs_u64_str};
use linkedhashmap_literal::s;

#[test]
fn linkedhashmap() {
    let hm: LinkedHashMap<String, String> = from_pairs_str_str(vec![(s("a"), s("b"))]);
    let mut expected = LinkedHashMap::new();
    expected.insert(s("a"), s("b"));
    assert_eq!(hm, expected);
}

#[test]
fn string_helper_copies_the_text() {
    let owned = s("hello");
    assert_eq!(owned, String::from("hello"));
    assert_eq!(s(""), String::new());
}

#[test]
fn empty_invocation_has_no_entries() {
    let hm: LinkedHashMap<String, String> = from_pairs_str_str(vec![]);
    assert_eq!(hm.len(), 0);
    assert!(hm.is_empty());
}

#[test]
fn unique_keys_iterate_in_source_order() {
    let hm = from_pairs_str_str(vec![(s("a"), s("1")), (s("c"), s("3")), (s("b"), s("2"))]);
    assert_eq!(hm.len(), 3);
    let got: Vec<(String, String)> = hm.iter().map(|(k, v)| (k.clone(), v.clone())).collect();
    assert_eq!(got, vec![(s("a"), s("1")), (s("c"), s("3")), (s("b"), s("2"))]);
}

#[test]
fn equal_contents_iterate_in_their_own_insertion_orders() {
    let m1 = from_pairs_u64_str(vec![(1, s("x")), (2, s("y"))]);
    let m2 = from_pairs_u64_str(vec![(2, s("y")), (1, s("x"))]);
    // The two maps agree key by key...
    assert_eq!(m1.len(), m2.len());
    assert_eq!(m1.get(&1), m2.get(&1));
    assert_eq!(m1.get(&2), m2.get(&2));
    // ...but each iterates in its own insertion order: first inserted first.
    let o1: Vec<u64> = m1.iter().map(|(k, _)| *k).collect();
    let o2: Vec<u64> = m2.iter().map(|(k, _)| *k).collect();
    assert_eq!(o1, vec![1, 2]);
    assert_eq!(o2, vec![2, 1]);
    assert_ne!(o1, o2);
}

#[test]
fn duplicate_key_keeps_one_entry_with_last_value() {
    let hm = from_pairs_str_u64(vec![(s("k"), 1), (s("k"), 2)]);
    assert_eq!(hm.len(), 1);
    assert_eq!(hm.get("k"), Some(&2));
}

#[test]
fn reinserted_key_moves_to_the_back() {
    let hm = from_pairs_str_u64(vec![(s("k"), 1), (s("z"), 5), (s("k"), 2)]);
    assert_eq!(hm.len(), 2);
    let got: Vec<(String, u64)> = hm.iter().map(|(k, v)| (k.clone(), *v)).collect();
    assert_eq!(got, vec![(s("z"), 5), (s("k"), 2)]);
}

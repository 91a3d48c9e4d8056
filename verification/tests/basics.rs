use std::collections::BTreeSet;
use std::rc::Rc;

use stellar_quorum_analyzer::index_set::copy_indices;
use stellar_quorum_analyzer::ordered::indices_of;
use stellar_quorum_analyzer::index_set::same_indices;
use stellar_quorum_analyzer::keys::key_order;
use stellar_quorum_analyzer::keys::KeyOrder;
use stellar_quorum_analyzer::fbas::Qset;
use stellar_quorum_analyzer::fbas::Vertex;
use stellar_quorum_analyzer::fbas_analyze::FbasLitsWrapper;
use stellar_quorum_analyzer::literals::Literal;
use stellar_quorum_analyzer::quorum_set::InternalScpQuorumSet;
use stellar_quorum_analyzer::quorum_set::QuorumSetMap;

fn flat(threshold: u32, validators: &[&str]) -> InternalScpQuorumSet {
    InternalScpQuorumSet {
        threshold,
        validators: validators.iter().map(|v| v.to_string()).collect(),
        inner_sets: vec![],
    }
}

fn nested(inner_sets: Vec<InternalScpQuorumSet>) -> InternalScpQuorumSet {
    InternalScpQuorumSet { threshold: 1, validators: vec!["x".to_string()], inner_sets }
}

#[test]
fn keys_are_ordered_by_their_bytes() {
    assert_eq!(key_order("", ""), KeyOrder::Same);
    assert_eq!(key_order("", "a"), KeyOrder::Before);
    assert_eq!(key_order("a", ""), KeyOrder::After);
    assert_eq!(key_order("abc", "abd"), KeyOrder::Before);
    assert_eq!(key_order("abc", "ab"), KeyOrder::After);
    assert_eq!(key_order("B", "a"), KeyOrder::Before);
    assert_eq!(key_order("GA", "GA"), KeyOrder::Same);
    // as std orders strings
    for (a, b) in [("z", "é"), ("é", "z"), ("é", "日"), ("日本", "日"), ("a\u{10000}", "a\u{ffff}")] {
        let expected = match a.cmp(b) {
            std::cmp::Ordering::Less => KeyOrder::Before,
            std::cmp::Ordering::Equal => KeyOrder::Same,
            std::cmp::Ordering::Greater => KeyOrder::After,
        };
        assert_eq!(key_order(a, b), expected);
    }
}

#[test]
fn the_map_keeps_its_keys_in_order() {
    let mut map = QuorumSetMap::new();
    assert_eq!(map.len(), 0);
    for (i, name) in ["m", "b", "z", "a", "q"].iter().enumerate() {
        map.insert(name.to_string(), Rc::new(flat(i as u32, &[name]))).unwrap();
    }
    assert_eq!(map.len(), 5);
    let keys: Vec<String> = (0..5).map(|i| map.key_at(i).clone()).collect();
    assert_eq!(keys, vec!["a", "b", "m", "q", "z"]);
    let thresholds: Vec<u32> = (0..5).map(|i| map.set_at(i).threshold).collect();
    assert_eq!(thresholds, vec![3, 1, 0, 4, 2]);
    assert_eq!(map.position("a"), Some(0));
    assert_eq!(map.position("q"), Some(3));
    assert_eq!(map.position("z"), Some(4));
    assert_eq!(map.position("c"), None);
    assert_eq!(map.position(""), None);
    assert_eq!(map.position("zz"), None);
    assert_eq!(map.get("m"), Some(&flat(0, &["m"])));
    assert_eq!(map.get("n"), None);
}

#[test]
fn heights_and_footprints() {
    let leaf = flat(1, &["a", "b"]);
    assert!(leaf.height_within(1));
    assert!(!leaf.height_within(0));
    assert_eq!(leaf.footprint_within(100), Some(4));
    assert_eq!(leaf.footprint_within(4), Some(4));
    assert_eq!(leaf.footprint_within(3), None);
    assert_eq!(leaf.footprint_within(0), None);

    let tree = nested(vec![leaf.clone(), nested(vec![leaf.clone()]), flat(0, &[])]);
    assert!(tree.height_within(3));
    assert!(tree.height_within(4));
    assert!(!tree.height_within(2));
    // 3 for the set itself, 4 and 7 and 2 for its inner sets
    assert_eq!(tree.footprint_within(16), Some(16));
    assert_eq!(tree.footprint_within(15), None);
    assert_eq!(tree.footprint_within(usize::MAX), Some(16));

    let mut map = QuorumSetMap::new();
    map.insert("a".to_string(), Rc::new(leaf.clone())).unwrap();
    map.insert("b".to_string(), Rc::new(tree.clone())).unwrap();
    assert_eq!(map.footprint_within(20), Some(20));
    assert_eq!(map.footprint_within(19), None);
    assert_eq!(QuorumSetMap::new().footprint_within(0), Some(0));
    assert_eq!(tree.clone(), tree);
}

#[test]
fn index_sets_come_out_increasing() {
    let mut set: BTreeSet<usize> = BTreeSet::new();
    for x in [5, 1, 9, 5, 3, 1, 0, 9] {
        set.insert(x);
    }
    let v = indices_of(&set);
    assert_eq!(v, vec![0, 1, 3, 5, 9]);
    set.insert(usize::MAX);
    assert_eq!(indices_of(&set), vec![0, 1, 3, 5, 9, usize::MAX]);
    assert_eq!(indices_of(&BTreeSet::new()), Vec::<usize>::new());
    assert_eq!(copy_indices(&v), v);
    assert!(same_indices(&v, &copy_indices(&v)));
    assert!(!same_indices(&vec![1, 2], &vec![1, 3]));
    assert!(!same_indices(&vec![1, 2], &vec![1]));
    assert!(same_indices(&vec![], &vec![]));
}

#[test]
fn thresholds_and_literals() {
    assert_eq!(Vertex::Validator("v".to_string()).get_threshold(), 1);
    let qset = Qset { threshold: 7, validators: BTreeSet::from([0]), inner_qsets: BTreeSet::new() };
    assert_eq!(Vertex::QSet(qset).get_threshold(), 7);
    assert_eq!(Qset::default().threshold, 0);

    let lits = FbasLitsWrapper::new(10);
    assert_eq!(lits.vertex_count, 10);
    assert_eq!(lits.in_quorum_a(3), Literal { var: 3, positive: true });
    assert_eq!(lits.in_quorum_b(3), Literal { var: 13, positive: true });
    assert_eq!(lits.in_quorum(false, 9), Literal { var: 9, positive: true });
    assert_eq!(lits.in_quorum(true, 9), Literal { var: 19, positive: true });
    assert_eq!(lits.in_quorum_b(3).not(), Literal { var: 13, positive: false });
    assert_eq!(lits.in_quorum_b(3).not().not(), lits.in_quorum_b(3));
}

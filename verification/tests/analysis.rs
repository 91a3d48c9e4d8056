use std::rc::Rc;

use batsat::callbacks::AsyncInterrupt;
use stellar_quorum_analyzer::combos::all_combinations;
use stellar_quorum_analyzer::error::FbasError;
use stellar_quorum_analyzer::fbas::Fbas;
use stellar_quorum_analyzer::fbas_analyze::status_of;
use stellar_quorum_analyzer::fbas_analyze::FbasAnalyzer;
use stellar_quorum_analyzer::fbas_analyze::SolveStatus;
use stellar_quorum_analyzer::quorum_set::InternalScpQuorumSet;
use stellar_quorum_analyzer::quorum_set::QuorumSetMap;
use stellar_quorum_analyzer::sat::SolveOutcome;

fn flat(threshold: u32, validators: &[&str]) -> InternalScpQuorumSet {
    InternalScpQuorumSet {
        threshold,
        validators: validators.iter().map(|v| v.to_string()).collect(),
        inner_sets: vec![],
    }
}

fn analyzer_for(entries: Vec<(&str, InternalScpQuorumSet)>) -> FbasAnalyzer {
    let mut map = QuorumSetMap::new();
    for (name, qset) in entries {
        map.insert(name.to_string(), Rc::new(qset)).unwrap();
    }
    let fbas = Fbas::from_quorum_set_map(&map).unwrap();
    FbasAnalyzer::from_fbas(fbas, AsyncInterrupt::default()).unwrap()
}

fn names(list: &[&str]) -> Vec<String> {
    list.iter().map(|v| v.to_string()).collect()
}

#[test]
fn single_validator_has_no_split() {
    let mut analyzer = analyzer_for(vec![("v1", flat(1, &["v1"]))]);
    assert_eq!(analyzer.solve(), SolveStatus::UNSAT);
    assert_eq!(analyzer.get_potential_split().unwrap(), (vec![], vec![]));
}

#[test]
fn two_self_sufficient_validators_split() {
    let mut analyzer = analyzer_for(vec![("v1", flat(1, &["v1"])), ("v2", flat(1, &["v2"]))]);
    let status = analyzer.solve();
    assert!(
        status == SolveStatus::SAT((vec![0], vec![1]))
            || status == SolveStatus::SAT((vec![1], vec![0]))
    );
    let (a, b) = analyzer.get_potential_split().unwrap();
    assert!(
        (a == names(&["v1"]) && b == names(&["v2"])) || (a == names(&["v2"]) && b == names(&["v1"]))
    );
}

#[test]
fn two_validators_that_need_each_other_intersect() {
    let mut analyzer = analyzer_for(vec![("v1", flat(1, &["v2"])), ("v2", flat(1, &["v1"]))]);
    assert_eq!(analyzer.solve(), SolveStatus::UNSAT);
}

#[test]
fn majority_network_intersects() {
    let all = ["a", "b", "c", "d"];
    let mut analyzer = analyzer_for(all.iter().map(|v| (*v, flat(3, &all))).collect());
    assert_eq!(analyzer.solve(), SolveStatus::UNSAT);
}

#[test]
fn half_network_splits_into_two_quorums() {
    let all = ["a", "b", "c", "d"];
    let mut analyzer = analyzer_for(all.iter().map(|v| (*v, flat(2, &all))).collect());
    match analyzer.solve() {
        SolveStatus::SAT((a, b)) => {
            assert!(a.len() >= 2 && b.len() >= 2);
            assert!(a.iter().all(|v| !b.contains(v)));
            assert!(a.iter().chain(b.iter()).all(|v| *v < 4));
        }
        other => panic!("expected a split, got {:?}", other),
    }
    let (a, b) = analyzer.get_potential_split().unwrap();
    assert_eq!(a.len() + b.len(), 4);
}

#[test]
fn solve_is_repeatable() {
    let all = ["a", "b", "c", "d"];
    let mut analyzer = analyzer_for(all.iter().map(|v| (*v, flat(2, &all))).collect());
    let first = analyzer.solve();
    let second = analyzer.solve();
    assert_eq!(first, second);
    let mut other = analyzer_for(all.iter().map(|v| (*v, flat(3, &all))).collect());
    assert_eq!(other.solve(), SolveStatus::UNSAT);
    assert_eq!(other.solve(), SolveStatus::UNSAT);
}

#[test]
fn no_witness_before_solving() {
    let analyzer = analyzer_for(vec![("v1", flat(1, &["v1"])), ("v2", flat(1, &["v2"]))]);
    assert_eq!(analyzer.get_potential_split().unwrap(), (vec![], vec![]));
}

#[test]
fn empty_network_has_no_split() {
    let mut analyzer = analyzer_for(vec![]);
    assert_eq!(analyzer.solve(), SolveStatus::UNSAT);
}

#[test]
fn threshold_above_members_blocks_the_validator() {
    // v2 asks for two members but names one: it can be in no quorum.
    let mut analyzer = analyzer_for(vec![("v1", flat(1, &["v1"])), ("v2", flat(2, &["v2"]))]);
    assert_eq!(analyzer.solve(), SolveStatus::UNSAT);
}

#[test]
fn nested_sets_count_as_members() {
    // Two organisations of three validators each; everyone asks for both
    // organisations, each by majority: all quorums intersect.
    let org1 = ["a1", "a2", "a3"];
    let org2 = ["b1", "b2", "b3"];
    let qset = |t: u32| InternalScpQuorumSet {
        threshold: t,
        validators: vec![],
        inner_sets: vec![flat(2, &org1), flat(2, &org2)],
    };
    let everyone: Vec<&str> = org1.iter().chain(org2.iter()).copied().collect();
    let mut both = analyzer_for(everyone.iter().map(|v| (*v, qset(2))).collect());
    assert_eq!(both.solve(), SolveStatus::UNSAT);
    // With one organisation enough, two majorities of different
    // organisations are disjoint quorums.
    let mut either = analyzer_for(everyone.iter().map(|v| (*v, qset(1))).collect());
    match either.solve() {
        SolveStatus::SAT((a, b)) => {
            assert!(!a.is_empty() && !b.is_empty());
            assert!(a.iter().all(|v| !b.contains(v)));
        }
        other => panic!("expected a split, got {:?}", other),
    }
}

#[test]
fn too_deep_quorum_set_is_refused() {
    let mut qset = flat(1, &["v1"]);
    for _ in 0..3 {
        qset = InternalScpQuorumSet { threshold: 1, validators: vec![], inner_sets: vec![qset] };
    }
    let mut map = QuorumSetMap::new();
    map.insert("v1".to_string(), Rc::new(qset)).unwrap();
    let fbas = Fbas::from_quorum_set_map(&map).unwrap();
    assert_eq!(fbas.vertex_count(), 5);

    let mut deep = flat(1, &["v1"]);
    for _ in 0..4 {
        deep = InternalScpQuorumSet { threshold: 1, validators: vec![], inner_sets: vec![deep] };
    }
    let mut map = QuorumSetMap::new();
    map.insert("v1".to_string(), Rc::new(deep)).unwrap();
    assert!(matches!(Fbas::from_quorum_set_map(&map), Err(FbasError::QuorumSetTooDeep)));
}

#[test]
fn duplicate_validator_is_refused() {
    let mut map = QuorumSetMap::new();
    map.insert("v1".to_string(), Rc::new(flat(1, &["v1"]))).unwrap();
    assert_eq!(
        map.insert("v1".to_string(), Rc::new(flat(2, &["v1"]))),
        Err(FbasError::DuplicateValidator("v1".to_string()))
    );
    assert_eq!(map.len(), 1);
    assert_eq!(map.get("v1").unwrap().threshold, 1);
}

#[test]
fn equal_quorum_sets_share_a_vertex() {
    let all = ["c", "a", "b"];
    let mut map = QuorumSetMap::new();
    map.insert("c".to_string(), Rc::new(flat(2, &all))).unwrap();
    map.insert("a".to_string(), Rc::new(flat(2, &["b", "a", "c", "a"]))).unwrap();
    map.insert("b".to_string(), Rc::new(flat(3, &all))).unwrap();
    let fbas = Fbas::from_quorum_set_map(&map).unwrap();
    // three validators and two distinct quorum sets
    assert_eq!(fbas.vertex_count(), 5);
    assert_eq!(fbas.get_validator(0), Some(&"a".to_string()));
    assert_eq!(fbas.get_validator(1), Some(&"b".to_string()));
    assert_eq!(fbas.get_validator(2), Some(&"c".to_string()));
    assert_eq!(fbas.get_validator(3), None);
    assert_eq!(fbas.neighbors(0), vec![3]);
    assert_eq!(fbas.neighbors(1), vec![4]);
    assert_eq!(fbas.neighbors(2), vec![3]);
    assert_eq!(fbas.neighbors(3), vec![2, 1, 0]);
    assert_eq!(fbas.node_threshold(0), Some(1));
    assert_eq!(fbas.node_threshold(3), Some(2));
    assert_eq!(fbas.node_threshold(4), Some(3));
    assert_eq!(fbas.node_threshold(5), None);
}

#[test]
fn unknown_validators_are_dropped() {
    let mut map = QuorumSetMap::new();
    map.insert("v1".to_string(), Rc::new(flat(1, &["v1", "ghost"]))).unwrap();
    let fbas = Fbas::from_quorum_set_map(&map).unwrap();
    assert_eq!(fbas.vertex_count(), 2);
    assert_eq!(fbas.neighbors(1), vec![0]);
    assert!(matches!(fbas.try_get_validator_string(1), Err(FbasError::InternalError(_))));
    assert_eq!(fbas.try_get_validator_string(0), Ok("v1".to_string()));
}

#[test]
fn construction_is_deterministic() {
    let build = || {
        let mut map = QuorumSetMap::new();
        for (name, qset) in [
            ("z", flat(1, &["x", "z"])),
            ("x", flat(2, &["x", "y", "z"])),
            ("y", flat(1, &["x", "z"])),
        ] {
            map.insert(name.to_string(), Rc::new(qset)).unwrap();
        }
        Fbas::from_quorum_set_map(&map).unwrap()
    };
    let first = build();
    let second = build();
    assert_eq!(first.vertex_count(), second.vertex_count());
    for i in 0..first.vertex_count() {
        assert_eq!(first.neighbors(i), second.neighbors(i));
        assert_eq!(first.node_threshold(i), second.node_threshold(i));
        assert_eq!(first.get_validator(i), second.get_validator(i));
    }
    assert_eq!(first.validator_nodes(), &vec![0, 1, 2]);
}

#[test]
fn combinations_come_in_lexicographic_order() {
    assert_eq!(
        all_combinations(vec![1, 2, 3, 4], 3),
        vec![vec![1, 2, 3], vec![1, 2, 4], vec![1, 3, 4], vec![2, 3, 4]]
    );
    assert_eq!(all_combinations(vec![7, 5], 1), vec![vec![7], vec![5]]);
    assert_eq!(all_combinations(vec![7, 5], 0), vec![Vec::<usize>::new()]);
    assert_eq!(all_combinations(vec![], 0), vec![Vec::<usize>::new()]);
    assert_eq!(all_combinations(vec![7, 5], 3), Vec::<Vec<usize>>::new());
    assert_eq!(all_combinations(vec![], 1), Vec::<Vec<usize>>::new());
    assert_eq!(all_combinations(vec![], usize::MAX), Vec::<Vec<usize>>::new());
    assert_eq!(all_combinations(vec![7, 5], usize::MAX), Vec::<Vec<usize>>::new());
    assert_eq!(all_combinations(vec![7, 5], 2), vec![vec![7, 5]]);
    assert_eq!(all_combinations(vec![2, 2, 9], 2), vec![vec![2, 2], vec![2, 9], vec![2, 9]]);
}

#[test]
fn status_of_a_model() {
    let mut map = QuorumSetMap::new();
    for name in ["a", "b", "c"] {
        map.insert(name.to_string(), Rc::new(flat(1, &[name]))).unwrap();
    }
    let fbas = Fbas::from_quorum_set_map(&map).unwrap();
    assert_eq!(fbas.vertex_count(), 6);
    // six vertices: variables 0..6 for quorum A, 6..12 for quorum B
    let mut model = vec![false; 12];
    model[0] = true;
    model[2] = true;
    model[3] = true;
    model[7] = true;
    model[10] = true;
    assert_eq!(status_of(SolveOutcome::Sat, &fbas, &model), SolveStatus::SAT((vec![0, 2], vec![1])));
    assert_eq!(status_of(SolveOutcome::Unsat, &fbas, &model), SolveStatus::UNSAT);
    assert_eq!(status_of(SolveOutcome::Unknown, &fbas, &model), SolveStatus::UNKNOWN);
    // a model that is too short puts nobody where it does not reach
    assert_eq!(
        status_of(SolveOutcome::Sat, &fbas, &vec![true; 7]),
        SolveStatus::SAT((vec![0, 1, 2], vec![0]))
    );
    assert_eq!(SolveStatus::default(), SolveStatus::UNKNOWN);
    assert_eq!(Fbas::default().vertex_count(), 0);
}

#[test]
fn the_validators_passed_over_are_named() {
    let mut map = QuorumSetMap::new();
    map.insert(
        "b".to_string(),
        Rc::new(InternalScpQuorumSet {
            threshold: 1,
            validators: vec!["ghost".to_string(), "a".to_string(), "ghost".to_string()],
            inner_sets: vec![
                flat(1, &["b", "x"]),
                InternalScpQuorumSet {
                    threshold: 1,
                    validators: vec!["y".to_string()],
                    inner_sets: vec![flat(1, &["z", "a"])],
                },
            ],
        }),
    )
    .unwrap();
    map.insert("a".to_string(), Rc::new(flat(1, &["a", "w", "b"]))).unwrap();
    // in the order of the keys, the validators of a set before its inner sets
    assert_eq!(map.unknown_validators(), vec!["w", "ghost", "ghost", "x", "y", "z"]);
    let fbas = Fbas::from_quorum_set_map(&map).unwrap();
    assert_eq!(fbas.node_threshold(0), Some(1));

    let mut all_known = QuorumSetMap::new();
    all_known.insert("a".to_string(), Rc::new(flat(1, &["a"]))).unwrap();
    assert_eq!(all_known.unknown_validators(), Vec::<String>::new());
    assert_eq!(QuorumSetMap::new().unknown_validators(), Vec::<String>::new());
}

#[test]
fn a_quorum_set_is_shared_with_the_map() {
    let shared = Rc::new(flat(2, &["a", "b"]));
    let mut map = QuorumSetMap::new();
    map.insert("a".to_string(), Rc::clone(&shared)).unwrap();
    map.insert("b".to_string(), Rc::clone(&shared)).unwrap();
    assert_eq!(Rc::strong_count(&shared), 3);
    assert!(std::ptr::eq(map.get("a").unwrap(), &*shared));
    assert!(std::ptr::eq(map.get("a").unwrap(), map.get("b").unwrap()));
    let fbas = Fbas::from_quorum_set_map(&map).unwrap();
    assert_eq!(fbas.vertex_count(), 3);
    assert_eq!(Rc::strong_count(&shared), 3);
}

use batsat::callbacks::AsyncInterrupt;
use stellar_quorum_analyzer::error::FbasError;
use stellar_quorum_analyzer::fbas::Fbas;
use stellar_quorum_analyzer::fbas_analyze::FbasAnalyzer;
use stellar_quorum_analyzer::fbas_analyze::SolveStatus;
use stellar_quorum_analyzer::quorum_set::InternalScpQuorumSet;
use stellar_quorum_analyzer::wire::quorum_set_map_from_buf;
use stellar_quorum_analyzer::wire::undeclared_nodes;
use stellar_quorum_analyzer::wire::WireQuorumSet;
use stellar_xdr::curr::Limits;
use stellar_xdr::curr::NodeId;
use stellar_xdr::curr::PublicKey;
use stellar_xdr::curr::ScpQuorumSet;
use stellar_xdr::curr::Uint256;
use stellar_xdr::curr::WriteXdr;

fn key(seed: u8) -> [u8; 32] {
    let mut bytes = [0u8; 32];
    for (i, b) in bytes.iter_mut().enumerate() {
        *b = seed.wrapping_mul(31).wrapping_add(i as u8);
    }
    bytes
}

fn strkey(bytes: [u8; 32]) -> String {
    stellar_strkey::ed25519::PublicKey(bytes).to_string().as_str().to_string()
}

fn node_id(bytes: [u8; 32]) -> NodeId {
    NodeId(PublicKey::PublicKeyTypeEd25519(Uint256(bytes)))
}

fn node_xdr(bytes: [u8; 32]) -> Vec<u8> {
    node_id(bytes).to_xdr(Limits::none()).unwrap()
}

fn scp(threshold: u32, validators: &[[u8; 32]], inner_sets: Vec<ScpQuorumSet>) -> ScpQuorumSet {
    ScpQuorumSet {
        threshold,
        validators: validators.iter().map(|k| node_id(*k)).collect::<Vec<_>>().try_into().unwrap(),
        inner_sets: inner_sets.try_into().unwrap(),
    }
}

fn scp_xdr(q: &ScpQuorumSet) -> Vec<u8> {
    q.to_xdr(Limits::none()).unwrap()
}

#[test]
fn strkey_of_the_zero_key() {
    let w = WireQuorumSet { threshold: 1, validators: vec![[0u8; 32]], inner_sets: vec![] };
    let q = InternalScpQuorumSet::from_wire(&w);
    assert_eq!(
        q.validators,
        vec!["GAAAAAAAAAAAAAAAAAAAAAAAAAAAAAAAAAAAAAAAAAAAAAAAAAAAAWHF".to_string()]
    );
    assert_eq!(q.threshold, 1);
    assert!(q.inner_sets.is_empty());
}

#[test]
fn from_wire_copies_every_level() {
    let w = WireQuorumSet {
        threshold: 2,
        validators: vec![key(1), key(2)],
        inner_sets: vec![
            WireQuorumSet { threshold: 1, validators: vec![key(3)], inner_sets: vec![] },
            WireQuorumSet {
                threshold: 7,
                validators: vec![],
                inner_sets: vec![WireQuorumSet {
                    threshold: 9,
                    validators: vec![key(4), key(4)],
                    inner_sets: vec![],
                }],
            },
        ],
    };
    let expected = InternalScpQuorumSet {
        threshold: 2,
        validators: vec![strkey(key(1)), strkey(key(2))],
        inner_sets: vec![
            InternalScpQuorumSet {
                threshold: 1,
                validators: vec![strkey(key(3))],
                inner_sets: vec![],
            },
            InternalScpQuorumSet {
                threshold: 7,
                validators: vec![],
                inner_sets: vec![InternalScpQuorumSet {
                    threshold: 9,
                    validators: vec![strkey(key(4)), strkey(key(4))],
                    inner_sets: vec![],
                }],
            },
        ],
    };
    assert_eq!(InternalScpQuorumSet::from_wire(&w), expected);
}

#[test]
fn decoded_quorum_set_keeps_what_was_encoded() {
    let inner = scp(2, &[key(5), key(6), key(7)], vec![]);
    let outer = scp(3, &[key(8), key(9)], vec![inner.clone(), scp(1, &[key(10)], vec![])]);
    let converted = InternalScpQuorumSet::from(outer.clone());
    assert_eq!(converted.threshold, 3);
    assert_eq!(converted.validators, vec![strkey(key(8)), strkey(key(9))]);
    assert_eq!(converted.inner_sets.len(), 2);
    assert_eq!(converted.inner_sets[0].threshold, 2);
    assert_eq!(
        converted.inner_sets[0].validators,
        vec![strkey(key(5)), strkey(key(6)), strkey(key(7))]
    );
    assert_eq!(converted.inner_sets[1].validators, vec![strkey(key(10))]);

    // through the wire format and back
    let nodes = vec![node_xdr(key(8))];
    let sets = vec![scp_xdr(&outer)];
    let map = quorum_set_map_from_buf(&nodes, &sets).unwrap();
    assert_eq!(map.len(), 1);
    assert_eq!(map.get(&strkey(key(8))), Some(&converted));
}

#[test]
fn records_with_empty_quorum_sets_are_passed_over() {
    let nodes = vec![node_xdr(key(1)), node_xdr(key(2)), node_xdr(key(3))];
    let sets = vec![scp_xdr(&scp(1, &[key(1)], vec![])), vec![], scp_xdr(&scp(1, &[key(3)], vec![]))];
    let map = quorum_set_map_from_buf(&nodes, &sets).unwrap();
    assert_eq!(map.len(), 2);
    assert!(map.get(&strkey(key(2))).is_none());
    assert_eq!(map.get(&strkey(key(1))).unwrap().validators, vec![strkey(key(1))]);
}

#[test]
fn malformed_records_are_decode_errors() {
    let good_node = node_xdr(key(1));
    let good_set = scp_xdr(&scp(1, &[key(1)], vec![]));
    let mut long_node = good_node.clone();
    long_node.push(0);
    for (nodes, sets) in [
        (vec![vec![1u8, 2, 3]], vec![good_set.clone()]),
        (vec![long_node], vec![good_set.clone()]),
        (vec![good_node.clone()], vec![vec![0u8, 0, 0]]),
        (vec![good_node.clone()], vec![good_set[..good_set.len() - 1].to_vec()]),
        (vec![vec![]], vec![vec![]]),
    ] {
        assert!(matches!(
            quorum_set_map_from_buf(&nodes, &sets),
            Err(FbasError::XdrDecodeError(_))
        ));
        assert!(matches!(
            Fbas::from_quorum_set_map_buf(&nodes, &sets),
            Err(FbasError::XdrDecodeError(_))
        ));
    }
}

#[test]
fn a_node_with_two_quorum_sets_is_a_duplicate() {
    let nodes = vec![node_xdr(key(1)), node_xdr(key(2)), node_xdr(key(1))];
    let set = scp_xdr(&scp(1, &[key(1)], vec![]));
    let sets = vec![set.clone(), set.clone(), set.clone()];
    assert_eq!(
        quorum_set_map_from_buf(&nodes, &sets).err(),
        Some(FbasError::DuplicateValidator(strkey(key(1))))
    );
    // the second record of the node is passed over when it is empty
    let sets = vec![set.clone(), set.clone(), vec![]];
    assert_eq!(quorum_set_map_from_buf(&nodes, &sets).unwrap().len(), 2);
}

#[test]
fn analysis_from_records() {
    let keys = [key(1), key(2), key(3), key(4)];
    let nodes: Vec<Vec<u8>> = keys.iter().map(|k| node_xdr(*k)).collect();
    let majority: Vec<Vec<u8>> = keys.iter().map(|_| scp_xdr(&scp(3, &keys, vec![]))).collect();
    let mut analyzer =
        FbasAnalyzer::from_quorum_set_map_buf(&nodes, &majority, AsyncInterrupt::default()).unwrap();
    assert_eq!(analyzer.solve(), SolveStatus::UNSAT);

    let half: Vec<Vec<u8>> = keys.iter().map(|_| scp_xdr(&scp(2, &keys, vec![]))).collect();
    let mut analyzer =
        FbasAnalyzer::from_quorum_set_map_buf(&nodes, &half, AsyncInterrupt::default()).unwrap();
    assert!(matches!(analyzer.solve(), SolveStatus::SAT(_)));
    let (a, b) = analyzer.get_potential_split().unwrap();
    let mut all: Vec<String> = a.iter().chain(b.iter()).cloned().collect();
    all.sort();
    let mut expected: Vec<String> = keys.iter().map(|k| strkey(*k)).collect();
    expected.sort();
    assert_eq!(all, expected);
}

#[test]
fn too_deep_records_are_refused() {
    let mut q = scp(1, &[key(1)], vec![]);
    for _ in 0..4 {
        q = scp(1, &[], vec![q]);
    }
    let nodes = vec![node_xdr(key(1))];
    let sets = vec![scp_xdr(&q)];
    assert!(matches!(
        Fbas::from_quorum_set_map_buf(&nodes, &sets),
        Err(FbasError::QuorumSetTooDeep)
    ));
}

#[test]
fn nodes_without_a_quorum_set_are_named() {
    let set = scp_xdr(&scp(1, &[key(1)], vec![]));
    let nodes = vec![node_xdr(key(1)), node_xdr(key(2)), vec![9u8], node_xdr(key(3)), node_xdr(key(2))];
    let sets = vec![set.clone(), vec![], vec![], vec![], vec![]];
    assert_eq!(undeclared_nodes(&nodes, &sets), vec![strkey(key(2)), strkey(key(3)), strkey(key(2))]);
    let sets = vec![set.clone(), set.clone(), set.clone(), set.clone(), set.clone()];
    assert_eq!(undeclared_nodes(&nodes, &sets), Vec::<String>::new());
    assert_eq!(undeclared_nodes(&vec![], &vec![]), Vec::<String>::new());
}

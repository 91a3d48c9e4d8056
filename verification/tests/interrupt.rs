use std::rc::Rc;

use batsat::callbacks::AsyncInterrupt;
use stellar_quorum_analyzer::fbas::Fbas;
use stellar_quorum_analyzer::fbas_analyze::FbasAnalyzer;
use stellar_quorum_analyzer::fbas_analyze::SolveStatus;
use stellar_quorum_analyzer::quorum_set::InternalScpQuorumSet;
use stellar_quorum_analyzer::quorum_set::QuorumSetMap;

/// A network of `orgs` organisations of three validators each, in which
/// every validator asks for `top` organisations.
fn network(orgs: usize, top: u32) -> Fbas {
    let name = |org: usize, i: usize| format!("validator-{:02}-{}", org, i);
    let inner: Vec<InternalScpQuorumSet> = (0..orgs)
        .map(|org| InternalScpQuorumSet {
            threshold: 2,
            validators: (0..3).map(|i| name(org, i)).collect(),
            inner_sets: vec![],
        })
        .collect();
    let mut map = QuorumSetMap::new();
    for org in 0..orgs {
        for i in 0..3 {
            let qset = InternalScpQuorumSet {
                threshold: top,
                validators: vec![],
                inner_sets: inner.clone(),
            };
            map.insert(name(org, i), Rc::new(qset)).unwrap();
        }
    }
    Fbas::from_quorum_set_map(&map).unwrap()
}

#[test]
fn an_interrupt_before_the_search_is_forgotten() {
    let cb = AsyncInterrupt::default();
    let handle = cb.get_handle();
    let mut analyzer = FbasAnalyzer::from_fbas(network(4, 3), cb).unwrap();
    handle.interrupt_async();
    assert_eq!(analyzer.solve(), SolveStatus::UNSAT);
}

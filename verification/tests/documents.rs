use batsat::callbacks::AsyncInterrupt;
use stellar_quorum_analyzer::document::Json;
use stellar_quorum_analyzer::document::JsonMember;
use stellar_quorum_analyzer::error::FbasError;
use stellar_quorum_analyzer::fbas::Fbas;
use stellar_quorum_analyzer::fbas_analyze::FbasAnalyzer;
use stellar_quorum_analyzer::fbas_analyze::SolveStatus;
use stellar_quorum_analyzer::json_parser::parse_internal_quorum_set;
use stellar_quorum_analyzer::json_parser::parse_stellarbeats_internal_quorum_set;
use stellar_quorum_analyzer::json_parser::quorum_set_map_from_json_text;
use stellar_quorum_analyzer::json_parser::quorum_set_map_from_json_value;
use stellar_quorum_analyzer::json_parser::try_parse_quorum_set_map_from_json_regular;
use stellar_quorum_analyzer::json_parser::try_parse_quorum_set_map_from_stellarbeats_json;
use stellar_quorum_analyzer::quorum_set::InternalScpQuorumSet;

fn strkey(seed: u8) -> String {
    let mut bytes = [0u8; 32];
    for (i, b) in bytes.iter_mut().enumerate() {
        *b = seed.wrapping_mul(17).wrapping_add(i as u8);
    }
    stellar_strkey::ed25519::PublicKey(bytes).to_string().as_str().to_string()
}

fn checked(key: &str) -> String {
    stellar_strkey::ed25519::PublicKey::from_string(key).unwrap().to_string().as_str().to_string()
}

fn quoted(keys: &[String]) -> String {
    keys.iter().map(|k| format!("\"{}\"", k)).collect::<Vec<_>>().join(",")
}

/// A network of organisations of three validators each, in the regular
/// dialect: every validator asks for `top` of the organisations, and
/// within an organisation for two of the three.
fn regular_network(orgs: &[Vec<String>], top: u32) -> String {
    let inner: Vec<String> =
        orgs.iter().map(|org| format!("{{\"t\":2,\"v\":[{}]}}", quoted(org))).collect();
    let qset = format!("{{\"t\":{},\"v\":[{}]}}", top, inner.join(","));
    let nodes: Vec<String> = orgs
        .iter()
        .flatten()
        .map(|key| format!("{{\"node\":\"{}\",\"qset\":{},\"comment\":null}}", key, qset))
        .collect();
    format!("{{\"nodes\":[{}]}}", nodes.join(","))
}

/// The same kind of network in the stellarbeats dialect.
fn stellarbeats_network(orgs: &[Vec<String>], top: u32) -> String {
    let inner: Vec<String> = orgs
        .iter()
        .map(|org| {
            format!(
                "{{\"threshold\":2,\"validators\":[{}],\"innerQuorumSets\":[]}}",
                quoted(org)
            )
        })
        .collect();
    let qset = format!(
        "{{\"threshold\":{},\"validators\":[],\"innerQuorumSets\":[{}]}}",
        top,
        inner.join(",")
    );
    let nodes: Vec<String> = orgs
        .iter()
        .flatten()
        .map(|key| format!("{{\"publicKey\":\"{}\",\"name\":\"x\",\"quorumSet\":{}}}", key, qset))
        .collect();
    format!("[{}]", nodes.join(","))
}

fn organisations(first: Vec<String>, count: u8) -> Vec<Vec<String>> {
    let mut orgs = vec![first];
    for org in 1..count {
        orgs.push((0..3).map(|i| strkey(org * 3 + i)).collect());
    }
    orgs
}

// The documents of the next two tests are a network of six organisations
// whose validators ask for three of them, and a network of seven
// organisations whose validators ask for five.

#[test]
fn test_parse_quorum_set_map_from_json() {
    let first = vec![
        "GARHWC6Y4WNGLKCAC7SCFFLEV5GKTKB2AHVIA6C7SU5WLJTDW5W3MPHX".to_string(),
        "GCJIDPIMNOJU4PASPDEHKLQWG2KAM45NNAUEQVY33XMYGAMSYICOK4H4".to_string(),
        "GDRTHCOC6K6GAT3LNO7L2PQZHM7E3JDUHHSNRKSTH53A2AHBM6WZOUOC".to_string(),
    ];
    let orgs = organisations(first, 6);
    // every validator of the six organisations asks for all of the first three
    let inner: Vec<String> =
        orgs[..3].iter().map(|org| format!("{{\"t\":2,\"v\":[{}]}}", quoted(org))).collect();
    let qset = format!("{{\"t\":3,\"v\":[{}]}}", inner.join(","));
    let nodes: Vec<String> = orgs
        .iter()
        .flatten()
        .map(|key| format!("{{\"node\":\"{}\",\"qset\":{}}}", key, qset))
        .collect();
    let document = format!("{{\"nodes\":[{}]}}", nodes.join(","));

    let quorum_map = quorum_set_map_from_json_text(&document).unwrap();
    assert_eq!(quorum_map.len(), 18);

    // Test parsing of a specific node's quorum set
    let test_node_id = checked("GARHWC6Y4WNGLKCAC7SCFFLEV5GKTKB2AHVIA6C7SU5WLJTDW5W3MPHX");

    let test_qset = quorum_map.get(&test_node_id).unwrap();
    assert_eq!(test_qset.threshold, 3);
    assert_eq!(test_qset.inner_sets.len(), 3);

    // Verify first inner set in detail
    let first_inner = &test_qset.inner_sets[0];
    assert_eq!(first_inner.threshold, 2);
    assert_eq!(first_inner.validators.len(), 3);

    // Check specific validator IDs in first inner set
    let expected_validators = [
        "GARHWC6Y4WNGLKCAC7SCFFLEV5GKTKB2AHVIA6C7SU5WLJTDW5W3MPHX",
        "GCJIDPIMNOJU4PASPDEHKLQWG2KAM45NNAUEQVY33XMYGAMSYICOK4H4",
        "GDRTHCOC6K6GAT3LNO7L2PQZHM7E3JDUHHSNRKSTH53A2AHBM6WZOUOC",
    ];

    for (i, expected_key) in expected_validators.iter().enumerate() {
        assert_eq!(&first_inner.validators[i], expected_key);
    }
}

#[test]
fn test_parse_quorum_set_map_from_stellarbeats_json() {
    let first = vec![
        "GAAV2GCVFLNN522ORUYFV33E76VPC22E72S75AQ6MBR5V45Z5DWVPWEU".to_string(),
        "GD6SZQV3WEJUH352NTVLKEV2JM2RH266VPEM7EH5QLLI7ZZAALMLNUVN".to_string(),
        strkey(200),
    ];
    let orgs = organisations(first, 7);
    let quorum_map = quorum_set_map_from_json_text(&stellarbeats_network(&orgs, 5)).unwrap();

    // Test parsing of a specific node's quorum set
    let test_node_id = checked("GD6SZQV3WEJUH352NTVLKEV2JM2RH266VPEM7EH5QLLI7ZZAALMLNUVN");

    let test_qset = quorum_map.get(&test_node_id).unwrap();
    assert_eq!(test_qset.threshold, 5);
    assert!(test_qset.validators.is_empty());
    assert_eq!(test_qset.inner_sets.len(), 7);

    // Verify first inner set
    let first_inner = &test_qset.inner_sets[0];
    assert_eq!(first_inner.threshold, 2);
    assert_eq!(first_inner.validators.len(), 3);
    assert!(first_inner.inner_sets.is_empty());

    // Check specific validator in first inner set
    let expected_validator = "GAAV2GCVFLNN522ORUYFV33E76VPC22E72S75AQ6MBR5V45Z5DWVPWEU";
    assert_eq!(&first_inner.validators[0], expected_validator);
}

#[test]
fn top_tier_configuration_intersects() {
    let orgs = organisations((0..3).map(strkey).collect(), 7);
    let mut analyzer =
        FbasAnalyzer::from_json_text(&stellarbeats_network(&orgs, 5), AsyncInterrupt::default())
            .unwrap();
    assert_eq!(analyzer.solve(), SolveStatus::UNSAT);
    assert_eq!(analyzer.get_potential_split().unwrap(), (vec![], vec![]));
}

#[test]
fn six_organisations_that_ask_for_three_split() {
    let orgs = organisations((0..3).map(strkey).collect(), 6);
    let text = regular_network(&orgs, 3);
    let fbas = Fbas::from_json_text(&text).unwrap();
    // 18 validators, six organisations and the one set that all declare
    assert_eq!(fbas.vertex_count(), 25);
    let mut analyzer = FbasAnalyzer::from_json_text(&text, AsyncInterrupt::default()).unwrap();
    let (a, b) = match analyzer.solve() {
        SolveStatus::SAT(witness) => witness,
        other => panic!("expected a split, got {:?}", other),
    };
    assert!(!a.is_empty() && !b.is_empty());
    assert!(a.iter().all(|v| !b.contains(v)));
    // each side holds two validators of at least three organisations
    for side in [&a, &b] {
        let satisfied = (0..6)
            .filter(|org| {
                fbas.neighbors(18 + org).iter().filter(|v| side.contains(v)).count() >= 2
            })
            .count();
        assert!(satisfied >= 3);
        for v in side.iter() {
            assert_eq!(fbas.neighbors(*v), vec![24]);
        }
    }
    let (names_a, names_b) = analyzer.get_potential_split().unwrap();
    assert_eq!(names_a.len(), a.len());
    assert_eq!(names_b.len(), b.len());
    for (name, v) in names_a.iter().zip(a.iter()) {
        assert_eq!(fbas.get_validator(*v), Some(name));
    }
}

#[test]
fn regular_dialect_tells_validators_from_inner_sets() {
    let long = strkey(1);
    let text = format!(
        "{{\"t\": 2, \"extra\": true, \"v\": [\"{}\", {{\"t\": 1, \"v\": []}}, \"{}\"]}}",
        long,
        strkey(2)
    );
    let doc = format!("{{\"nodes\":[{{\"node\":\"n1\",\"qset\":{}}}]}}", text);
    let map = quorum_set_map_from_json_text(&doc).unwrap();
    assert_eq!(
        map.get("n1"),
        Some(&InternalScpQuorumSet {
            threshold: 2,
            validators: vec![long, strkey(2)],
            inner_sets: vec![InternalScpQuorumSet {
                threshold: 1,
                validators: vec![],
                inner_sets: vec![]
            }],
        })
    );
}

#[test]
fn malformed_documents_are_parse_errors() {
    let key = strkey(1);
    let documents = [
        "".to_string(),
        "{".to_string(),
        "17".to_string(),
        "\"text\"".to_string(),
        "{}".to_string(),
        "{\"nodes\": {}}".to_string(),
        "{\"nodes\": [17]}".to_string(),
        "{\"nodes\": [{\"qset\": {\"t\": 1, \"v\": []}}]}".to_string(),
        "{\"nodes\": [{\"node\": 5, \"qset\": {\"t\": 1, \"v\": []}}]}".to_string(),
        "{\"nodes\": [{\"node\": \"a\"}]}".to_string(),
        "{\"nodes\": [{\"node\": \"a\", \"qset\": {\"v\": []}}]}".to_string(),
        "{\"nodes\": [{\"node\": \"a\", \"qset\": {\"t\": -1, \"v\": []}}]}".to_string(),
        "{\"nodes\": [{\"node\": \"a\", \"qset\": {\"t\": 4294967296, \"v\": []}}]}".to_string(),
        "{\"nodes\": [{\"node\": \"a\", \"qset\": {\"t\": \"1\", \"v\": []}}]}".to_string(),
        "{\"nodes\": [{\"node\": \"a\", \"qset\": {\"t\": 1}}]}".to_string(),
        "{\"nodes\": [{\"node\": \"a\", \"qset\": {\"t\": 1, \"v\": {}}}]}".to_string(),
        "{\"nodes\": [{\"node\": \"a\", \"qset\": {\"t\": 1, \"v\": [1]}}]}".to_string(),
        "{\"nodes\": [{\"node\": \"a\", \"qset\": {\"t\": 1, \"v\": [{\"v\": []}]}}]}".to_string(),
        "{\"nodes\": [{\"node\": \"a\", \"qset\": {\"t\": 1, \"v\": [true]}}]}".to_string(),
        format!(
            "{{\"nodes\": [{{\"node\": \"a\", \"qset\": {{\"t\": 1, \"v\": [\"{}\", {{\"t\": 1, \"v\": [null]}}]}}}}]}}",
            key
        ),
        "[17]".to_string(),
        "[{\"quorumSet\": {\"threshold\": 1, \"validators\": [], \"innerQuorumSets\": []}}]"
            .to_string(),
        "[{\"publicKey\": \"a\"}]".to_string(),
        "[{\"publicKey\": \"a\", \"quorumSet\": {\"validators\": [], \"innerQuorumSets\": []}}]"
            .to_string(),
        "[{\"publicKey\": \"a\", \"quorumSet\": {\"threshold\": 1, \"innerQuorumSets\": []}}]"
            .to_string(),
        "[{\"publicKey\": \"a\", \"quorumSet\": {\"threshold\": 1, \"validators\": []}}]"
            .to_string(),
        "[{\"publicKey\": \"a\", \"quorumSet\": {\"threshold\": 1, \"validators\": [1], \"innerQuorumSets\": []}}]"
            .to_string(),
        "[{\"publicKey\": \"a\", \"quorumSet\": {\"threshold\": 1, \"validators\": [], \"innerQuorumSets\": [1]}}]"
            .to_string(),
    ];
    for document in documents.iter() {
        assert!(
            matches!(quorum_set_map_from_json_text(document), Err(FbasError::ParseError(_))),
            "{}",
            document
        );
        assert!(matches!(Fbas::from_json_text(document), Err(FbasError::ParseError(_))));
    }
}

#[test]
fn regular_dialect_takes_validators_of_any_length() {
    let doc = "{\"nodes\": [{\"node\": \"n\", \"qset\": {\"t\":1,\"v\":[\"a\"]}}]}";
    let map = quorum_set_map_from_json_text(doc).unwrap();
    assert_eq!(
        map.get("n"),
        Some(&InternalScpQuorumSet {
            threshold: 1,
            validators: vec!["a".to_string()],
            inner_sets: vec![]
        })
    );
    // thirty bytes, thirty-one bytes, and one inner set between them
    let thirty = "a".repeat(30);
    let more = "b".repeat(31);
    let doc = format!(
        "{{\"nodes\": [{{\"node\": \"n\", \"qset\": {{\"t\":2,\"v\":[\"{}\", {{\"t\":1,\"v\":[\"c\"]}}, \"{}\"]}}}}]}}",
        thirty, more
    );
    let map = quorum_set_map_from_json_text(&doc).unwrap();
    assert_eq!(
        map.get("n"),
        Some(&InternalScpQuorumSet {
            threshold: 2,
            validators: vec![thirty, more],
            inner_sets: vec![InternalScpQuorumSet {
                threshold: 1,
                validators: vec!["c".to_string()],
                inner_sets: vec![]
            }],
        })
    );
    // such a network is analysed like any other
    let doc = "{\"nodes\": [{\"node\": \"a\", \"qset\": {\"t\":1,\"v\":[\"a\"]}}, {\"node\": \"b\", \"qset\": {\"t\":1,\"v\":[\"b\"]}}]}";
    let mut analyzer = FbasAnalyzer::from_json_text(doc, AsyncInterrupt::default()).unwrap();
    assert!(matches!(analyzer.solve(), SolveStatus::SAT(_)));
}

#[test]
fn stellarbeats_dialect_takes_short_texts() {
    let doc = "[{\"publicKey\": \"a\", \"quorumSet\": {\"threshold\": 1, \"validators\": [\"a\", \"b\"], \"innerQuorumSets\": [{\"threshold\": 0, \"validators\": [], \"innerQuorumSets\": []}]}}]";
    let map = quorum_set_map_from_json_text(doc).unwrap();
    assert_eq!(
        map.get("a"),
        Some(&InternalScpQuorumSet {
            threshold: 1,
            validators: vec!["a".to_string(), "b".to_string()],
            inner_sets: vec![InternalScpQuorumSet {
                threshold: 0,
                validators: vec![],
                inner_sets: vec![]
            }],
        })
    );
}

#[test]
fn a_node_that_is_declared_twice_is_a_duplicate() {
    let doc = "[{\"publicKey\": \"a\", \"quorumSet\": {\"threshold\": 1, \"validators\": [], \"innerQuorumSets\": []}}, {\"publicKey\": \"a\", \"quorumSet\": {\"threshold\": 2, \"validators\": [], \"innerQuorumSets\": []}}]";
    assert_eq!(
        quorum_set_map_from_json_text(doc).err(),
        Some(FbasError::DuplicateValidator("a".to_string()))
    );
    let doc = "{\"nodes\": [{\"node\": \"a\", \"qset\": {\"t\": 1, \"v\": []}}, {\"node\": \"b\", \"qset\": {\"t\": 1, \"v\": []}}, {\"node\": \"a\", \"qset\": {\"t\": 1, \"v\": []}}]}";
    assert_eq!(
        quorum_set_map_from_json_text(doc).err(),
        Some(FbasError::DuplicateValidator("a".to_string()))
    );
    // a node whose quorum set is malformed fails before its key is looked at
    let doc = "{\"nodes\": [{\"node\": \"a\", \"qset\": {\"t\": 1, \"v\": []}}, {\"node\": \"a\", \"qset\": {}}]}";
    assert!(matches!(quorum_set_map_from_json_text(doc), Err(FbasError::ParseError(_))));
}

fn text(s: &str) -> Json {
    Json::String(s.to_string())
}

fn object(members: Vec<(&str, Json)>) -> Json {
    Json::Object(
        members
            .into_iter()
            .map(|(name, value)| JsonMember { name: name.to_string(), value })
            .collect(),
    )
}

#[test]
fn quorum_sets_of_both_dialects_from_trees() {
    let regular = object(vec![
        ("v", Json::Array(vec![text("x"), object(vec![("t", Json::Number(Some(1))), ("v", Json::Array(vec![]))])])),
        ("t", Json::Number(Some(2))),
    ]);
    let expected = InternalScpQuorumSet {
        threshold: 2,
        validators: vec!["x".to_string()],
        inner_sets: vec![InternalScpQuorumSet { threshold: 1, validators: vec![], inner_sets: vec![] }],
    };
    assert_eq!(parse_internal_quorum_set(&regular), Ok(expected.clone()));
    // a validator is a text in either form
    let short = object(vec![
        ("t", Json::Number(Some(1))),
        ("v", Json::Array(vec![Json::Short("x".to_string()), text("y")])),
    ]);
    assert_eq!(
        parse_internal_quorum_set(&short),
        Ok(InternalScpQuorumSet {
            threshold: 1,
            validators: vec!["x".to_string(), "y".to_string()],
            inner_sets: vec![],
        })
    );
    // a number that is no u32, an entry that is no text, and an object
    // without a threshold
    for bad in [
        object(vec![("t", Json::Number(None)), ("v", Json::Array(vec![]))]),
        object(vec![("t", Json::Number(Some(1))), ("v", Json::Array(vec![Json::Null]))]),
        object(vec![("t", Json::Number(Some(1))), ("v", Json::Array(vec![object(vec![])]))]),
        Json::Null,
        Json::Array(vec![]),
    ] {
        assert!(matches!(parse_internal_quorum_set(&bad), Err(FbasError::ParseError(_))));
    }

    let beats = object(vec![
        ("threshold", Json::Number(Some(2))),
        ("validators", Json::Array(vec![Json::Short("x".to_string())])),
        (
            "innerQuorumSets",
            Json::Array(vec![object(vec![
                ("threshold", Json::Number(Some(1))),
                ("validators", Json::Array(vec![])),
                ("innerQuorumSets", Json::Array(vec![])),
            ])]),
        ),
    ]);
    assert_eq!(parse_stellarbeats_internal_quorum_set(&beats), Ok(expected));
    assert!(matches!(
        parse_stellarbeats_internal_quorum_set(&regular),
        Err(FbasError::ParseError(_))
    ));
}

#[test]
fn documents_of_both_dialects_from_trees() {
    let qset = object(vec![("t", Json::Number(Some(1))), ("v", Json::Array(vec![]))]);
    let root = object(vec![(
        "nodes",
        Json::Array(vec![object(vec![("node", Json::Short("a".to_string())), ("qset", qset)])]),
    )]);
    assert_eq!(try_parse_quorum_set_map_from_json_regular(&root).unwrap().len(), 1);
    assert_eq!(quorum_set_map_from_json_value(&root).unwrap().len(), 1);

    let qset = object(vec![
        ("threshold", Json::Number(Some(1))),
        ("validators", Json::Array(vec![])),
        ("innerQuorumSets", Json::Array(vec![])),
    ]);
    let nodes = vec![object(vec![("publicKey", text("a")), ("quorumSet", qset)])];
    assert_eq!(try_parse_quorum_set_map_from_stellarbeats_json(&nodes).unwrap().len(), 1);
    assert_eq!(quorum_set_map_from_json_value(&Json::Array(nodes)).unwrap().len(), 1);
    assert!(matches!(
        quorum_set_map_from_json_value(&Json::Boolean(true)),
        Err(FbasError::ParseError(_))
    ));
    assert_eq!(object(vec![("a", Json::Null)]).get("a").map(|j| j.as_u32()), Some(None));
    assert!(object(vec![("a", Json::Null)]).get("b").is_none());
    assert_eq!(Json::Short("s".to_string()).as_str(), Some(&"s".to_string()));
    assert_eq!(Json::Number(Some(7)).as_u32(), Some(7));
}

//! The two JSON dialects in which the quorum sets of a network are
//! written down.
//!
//! The regular dialect is an object `{"nodes": [{"node": key, "qset":
//! qset}, ..]}` in which a quorum set is `{"t": threshold, "v": [key or
//! qset, ..]}`. The stellarbeats dialect is an array `[{"publicKey": key,
//! "quorumSet": qset}, ..]` in which a quorum set is `{"threshold": ..,
//! "validators": [key, ..], "innerQuorumSets": [qset, ..]}`. Members
//! that a dialect does not name are passed over.

use crate::document::json_error_text;
use crate::document::json_parse;
use crate::document::json_text;
use crate::document::json_tree;
use crate::document::Json;
use crate::error::FbasError;
use crate::fbas::Fbas;
use crate::quorum_set::InternalScpQuorumSet;
use crate::quorum_set::QuorumSetMap;
use crate::quorum_set::QuorumSetTree;
use std::rc::Rc;
use vstd::prelude::*;

verus! {

/// The validators and the inner sets among the first `n` entries of the
/// member `v` of a quorum set of the regular dialect. An entry is a
/// validator if it is a text, of any length, and an inner set if it is an
/// object with a member `t`; nothing else is an entry.
pub open spec fn regular_entries(j: Json, n: nat) -> Option<(Seq<Seq<char>>, Seq<QuorumSetTree>)>
    decreases j, n,
{
    let items = j.at("v"@).items();
    if n == 0 {
        Some((Seq::empty(), Seq::empty()))
    } else if n > items.len() {
        None
    } else {
        match regular_entries(j, (n - 1) as nat) {
            None => None,
            Some((validators, inner_sets)) => {
                let item = items[n - 1];
                if item.is_text() {
                    Some((validators.push(item.text()), inner_sets))
                } else if item is Object && item.has("t"@) {
                    match regular_quorum_set(item) {
                        Some(tree) => Some((validators, inner_sets.push(tree))),
                        None => None,
                    }
                } else {
                    None
                }
            },
        }
    }
}

/// The quorum set that a value of the regular dialect denotes, if it
/// denotes one.
pub open spec fn regular_quorum_set(j: Json) -> Option<QuorumSetTree>
    decreases j, j.at("v"@).items().len() + 1,
{
    match j.at("t"@).number() {
        None => None,
        Some(threshold) => if j.at("v"@) is Array {
            match regular_entries(j, j.at("v"@).items().len()) {
                Some((validators, inner_sets)) => Some(
                    QuorumSetTree { threshold, validators, inner_sets },
                ),
                None => None,
            }
        } else {
            None
        },
    }
}

/// The texts of the first `n` items, if all of them are texts.
pub open spec fn beats_validators(items: Seq<Json>, n: nat) -> Option<Seq<Seq<char>>>
    decreases n,
{
    if n == 0 {
        Some(Seq::empty())
    } else if n > items.len() {
        None
    } else {
        match beats_validators(items, (n - 1) as nat) {
            None => None,
            Some(validators) => if items[n - 1].is_text() {
                Some(validators.push(items[n - 1].text()))
            } else {
                None
            },
        }
    }
}

/// The first `n` inner sets of a quorum set of the stellarbeats dialect.
pub open spec fn beats_inner_sets(j: Json, n: nat) -> Option<Seq<QuorumSetTree>>
    decreases j, n,
{
    let items = j.at("innerQuorumSets"@).items();
    if n == 0 {
        Some(Seq::empty())
    } else if n > items.len() {
        None
    } else {
        match beats_inner_sets(j, (n - 1) as nat) {
            None => None,
            Some(inner_sets) => match beats_quorum_set(items[n - 1]) {
                Some(tree) => Some(inner_sets.push(tree)),
                None => None,
            },
        }
    }
}

/// The quorum set that a value of the stellarbeats dialect denotes, if it
/// denotes one.
pub open spec fn beats_quorum_set(j: Json) -> Option<QuorumSetTree>
    decreases j, j.at("innerQuorumSets"@).items().len() + 1,
{
    match j.at("threshold"@).number() {
        None => None,
        Some(threshold) => if j.at("validators"@) is Array && j.at("innerQuorumSets"@) is Array {
            match (
                beats_validators(j.at("validators"@).items(), j.at("validators"@).items().len()),
                beats_inner_sets(j, j.at("innerQuorumSets"@).items().len()),
            ) {
                (Some(validators), Some(inner_sets)) => Some(
                    QuorumSetTree { threshold, validators, inner_sets },
                ),
                _ => None,
            }
        } else {
            None
        },
    }
}

/// What a document gives: the quorum sets by validator, unless it is
/// malformed or names a validator for the second time.
pub enum Parsed {
    Sets(Map<Seq<char>, QuorumSetTree>),
    Malformed,
    Duplicate(Seq<char>),
}

/// The name of the member that holds a node's key.
pub open spec fn key_member(beats: bool) -> Seq<char> {
    if beats {
        "publicKey"@
    } else {
        "node"@
    }
}

/// The name of the member that holds a node's quorum set.
pub open spec fn set_member(beats: bool) -> Seq<char> {
    if beats {
        "quorumSet"@
    } else {
        "qset"@
    }
}

/// The quorum set that a value denotes in the given dialect.
pub open spec fn dialect_quorum_set(j: Json, beats: bool) -> Option<QuorumSetTree> {
    if beats {
        beats_quorum_set(j)
    } else {
        regular_quorum_set(j)
    }
}

/// What the first `n` nodes give. The nodes are taken in turn: each must
/// be an object with a text as its key and a quorum set of the dialect.
pub open spec fn parsed_nodes(nodes: Seq<Json>, n: nat, beats: bool) -> Parsed
    decreases n,
{
    if n == 0 {
        Parsed::Sets(Map::empty())
    } else {
        match parsed_nodes(nodes, (n - 1) as nat, beats) {
            Parsed::Sets(m) => {
                let node = nodes[n - 1];
                let key = node.at(key_member(beats));
                if !(node is Object) || !key.is_text() {
                    Parsed::Malformed
                } else {
                    match dialect_quorum_set(node.at(set_member(beats)), beats) {
                        None => Parsed::Malformed,
                        Some(tree) => if m.dom().contains(key.text()) {
                            Parsed::Duplicate(key.text())
                        } else {
                            Parsed::Sets(m.insert(key.text(), tree))
                        },
                    }
                }
            },
            other => other,
        }
    }
}

/// What a document gives: an object is read in the regular dialect, an
/// array in the stellarbeats dialect.
pub open spec fn parsed_document(root: Json) -> Parsed {
    match root {
        Json::Object(_) => if root.at("nodes"@) is Array {
            parsed_nodes(root.at("nodes"@).items(), root.at("nodes"@).items().len(), false)
        } else {
            Parsed::Malformed
        },
        Json::Array(nodes) => parsed_nodes(nodes@, nodes@.len(), true),
        _ => Parsed::Malformed,
    }
}

/// What a text gives.
pub open spec fn parsed_text(text: Seq<char>) -> Parsed {
    match json_text(text) {
        None => Parsed::Malformed,
        Some(root) => parsed_document(root),
    }
}

/// `r` hands over what was parsed.
pub open spec fn delivered(p: Parsed, r: Result<QuorumSetMap, FbasError>) -> bool {
    match p {
        Parsed::Sets(m) => r matches Ok(qsm) && qsm.wf() && qsm.trees() == m,
        Parsed::Malformed => r matches Err(FbasError::ParseError(_)),
        Parsed::Duplicate(name) => r matches Err(FbasError::DuplicateValidator(k)) && k@ == name,
    }
}

/// `r` hands over the quorum set `t`, or an error in its place.
pub open spec fn delivered_set(t: Option<QuorumSetTree>, r: Result<
    InternalScpQuorumSet,
    FbasError,
>) -> bool {
    match t {
        Some(tree) => r matches Ok(q) && q@ == tree,
        None => r matches Err(FbasError::ParseError(_)),
    }
}

/// The views of texts.
pub open spec fn texts(v: Seq<String>) -> Seq<Seq<char>> {
    Seq::new(v.len(), |i: int| v[i]@)
}

/// The trees of quorum sets.
pub open spec fn trees(v: Seq<InternalScpQuorumSet>) -> Seq<QuorumSetTree> {
    Seq::new(v.len(), |i: int| v[i]@)
}

/// A quorum set holds the texts of its validators and the trees of its
/// inner sets.
pub proof fn lemma_tree(q: InternalScpQuorumSet)
    ensures
        q@ == (QuorumSetTree {
            threshold: q.threshold,
            validators: texts(q.validators@),
            inner_sets: trees(q.inner_sets@),
        }),
{
    assert(q@.validators =~= texts(q.validators@));
    assert(q@.inner_sets =~= trees(q.inner_sets@));
}

/// An error of the parser, with its description.
fn malformed(reason: &str) -> (e: FbasError)
    ensures
        e matches FbasError::ParseError(message) && message@ == reason@,
{
    FbasError::ParseError(reason.to_owned())
}

/// What is said of a node without a text as its key: the name of the
/// member that the dialect keeps the key in, and what is wrong with it.
pub open spec fn missing_key_text(beats: bool) -> Seq<char> {
    if beats {
        "publicKey field missing or not a string"@
    } else {
        "node field missing or not a string"@
    }
}

/// The error for a node without a text as its key.
fn missing_key(beats: bool) -> (e: FbasError)
    ensures
        e matches FbasError::ParseError(message) && message@ == missing_key_text(beats),
{
    if beats {
        malformed("publicKey field missing or not a string")
    } else {
        malformed("node field missing or not a string")
    }
}

/// Once an entry has failed, the entries after it change nothing.
pub proof fn lemma_regular_entries_stay(j: Json, n: nat, k: nat)
    requires
        n <= k,
        regular_entries(j, n) is None,
    ensures
        regular_entries(j, k) is None,
    decreases k,
{
    if n < k {
        lemma_regular_entries_stay(j, n, (k - 1) as nat);
    }
}

/// Once a validator has failed, the validators after it change nothing.
pub proof fn lemma_beats_validators_stay(items: Seq<Json>, n: nat, k: nat)
    requires
        n <= k,
        beats_validators(items, n) is None,
    ensures
        beats_validators(items, k) is None,
    decreases k,
{
    if n < k {
        lemma_beats_validators_stay(items, n, (k - 1) as nat);
    }
}

/// Once an inner set has failed, the inner sets after it change nothing.
pub proof fn lemma_beats_inner_sets_stay(j: Json, n: nat, k: nat)
    requires
        n <= k,
        beats_inner_sets(j, n) is None,
    ensures
        beats_inner_sets(j, k) is None,
    decreases k,
{
    if n < k {
        lemma_beats_inner_sets_stay(j, n, (k - 1) as nat);
    }
}

/// Once a node has failed, the nodes after it change nothing.
pub proof fn lemma_parsed_nodes_stay(nodes: Seq<Json>, n: nat, k: nat, beats: bool)
    requires
        n <= k,
    ensures
        !(parsed_nodes(nodes, n, beats) is Sets) ==> parsed_nodes(nodes, k, beats) == parsed_nodes(
            nodes,
            n,
            beats,
        ),
    decreases k,
{
    if n < k {
        lemma_parsed_nodes_stay(nodes, n, (k - 1) as nat, beats);
    }
}

/// Reads a quorum set of the regular dialect.
pub fn parse_internal_quorum_set(json_qset: &Json) -> (r: Result<InternalScpQuorumSet, FbasError>)
    ensures
        delivered_set(regular_quorum_set(*json_qset), r),
    decreases json_qset,
{
    let threshold = match json_qset.get("t") {
        Some(t) => match t.as_u32() {
            Some(threshold) => threshold,
            None => {
                return Err(malformed("threshold field missing or not a number"));
            },
        },
        None => {
            return Err(malformed("threshold field missing or not a number"));
        },
    };
    let v = match json_qset.get("v") {
        Some(Json::Array(v)) => v,
        _ => {
            return Err(malformed("v field missing or not an array"));
        },
    };
    let mut validators: Vec<String> = Vec::new();
    let mut inner_sets: Vec<InternalScpQuorumSet> = Vec::new();
    let mut i: usize = 0;
    while i < v.len()
        invariant
            i <= v@.len(),
            json_qset.at("v"@).items() == v@,
            json_qset.at("v"@) is Array,
            json_qset.has("v"@),
            regular_entries(*json_qset, i as nat) == Some((texts(validators@), trees(inner_sets@))),
        decreases v@.len() - i,
    {
        let item = &v[i];
        match item {
            Json::String(validator) => {
                validators.push(validator.clone());
                proof {
                    let (before, _) = regular_entries(*json_qset, i as nat).unwrap();
                    assert(texts(validators@) =~= before.push(item.text()));
                }
            },
            Json::Short(validator) => {
                validators.push(validator.clone());
                proof {
                    let (before, _) = regular_entries(*json_qset, i as nat).unwrap();
                    assert(texts(validators@) =~= before.push(item.text()));
                }
            },
            Json::Object(_) => {
                if item.get("t").is_some() {
                    match parse_internal_quorum_set(item) {
                        Ok(inner) => {
                            inner_sets.push(inner);
                            proof {
                                let (_, before) = regular_entries(*json_qset, i as nat).unwrap();
                                assert(trees(inner_sets@) =~= before.push(inner@));
                            }
                        },
                        Err(e) => {
                            proof {
                                lemma_regular_entries_stay(
                                    *json_qset,
                                    (i + 1) as nat,
                                    v@.len() as nat,
                                );
                            }
                            return Err(e);
                        },
                    }
                } else {
                    proof {
                        lemma_regular_entries_stay(*json_qset, (i + 1) as nat, v@.len() as nat);
                    }
                    return Err(
                        malformed(
                            "validator entry must be either a string (PublicKey) or an object (QuorumSet)",
                        ),
                    );
                }
            },
            _ => {
                proof {
                    lemma_regular_entries_stay(*json_qset, (i + 1) as nat, v@.len() as nat);
                }
                return Err(
                    malformed(
                        "validator entry must be either a string (PublicKey) or an object (QuorumSet)",
                    ),
                );
            },
        }
        i = i + 1;
    }
    let q = InternalScpQuorumSet { threshold, validators, inner_sets };
    proof {
        lemma_tree(q);
    }
    Ok(q)
}

/// Reads a quorum set of the stellarbeats dialect.
pub fn parse_stellarbeats_internal_quorum_set(json_qset: &Json) -> (r: Result<
    InternalScpQuorumSet,
    FbasError,
>)
    ensures
        delivered_set(beats_quorum_set(*json_qset), r),
    decreases json_qset,
{
    let threshold = match json_qset.get("threshold") {
        Some(t) => match t.as_u32() {
            Some(threshold) => threshold,
            None => {
                return Err(malformed("threshold field missing or not a number"));
            },
        },
        None => {
            return Err(malformed("threshold field missing or not a number"));
        },
    };
    let mut validators: Vec<String> = Vec::new();
    let mut inner_sets: Vec<InternalScpQuorumSet> = Vec::new();

    match json_qset.get("validators") {
        Some(Json::Array(validator_arr)) => {
            let mut i: usize = 0;
            while i < validator_arr.len()
                invariant
                    i <= validator_arr@.len(),
                    json_qset.at("validators"@).items() == validator_arr@,
                    beats_validators(validator_arr@, i as nat) == Some(texts(validators@)),
                decreases validator_arr@.len() - i,
            {
                match validator_arr[i].as_str() {
                    Some(validator_str) => {
                        validators.push(validator_str.clone());
                        proof {
                            assert(texts(validators@) =~= beats_validators(
                                validator_arr@,
                                i as nat,
                            )->0.push(validator_arr@[i as int].text()));
                        }
                    },
                    None => {
                        proof {
                            lemma_beats_validators_stay(
                                validator_arr@,
                                (i + 1) as nat,
                                validator_arr@.len() as nat,
                            );
                        }
                        return Err(malformed("validator entry must be a string"));
                    },
                }
                i = i + 1;
            }
        },
        _ => {
            return Err(malformed("validators field missing or not an array"));
        },
    }

    match json_qset.get("innerQuorumSets") {
        Some(Json::Array(inner_arr)) => {
            let mut i: usize = 0;
            while i < inner_arr.len()
                invariant
                    i <= inner_arr@.len(),
                    json_qset.at("innerQuorumSets"@).items() == inner_arr@,
                    json_qset.has("innerQuorumSets"@),
                    beats_inner_sets(*json_qset, i as nat) == Some(trees(inner_sets@)),
                decreases inner_arr@.len() - i,
            {
                match parse_stellarbeats_internal_quorum_set(&inner_arr[i]) {
                    Ok(inner) => {
                        inner_sets.push(inner);
                        proof {
                            assert(trees(inner_sets@) =~= beats_inner_sets(
                                *json_qset,
                                i as nat,
                            )->0.push(inner@));
                        }
                    },
                    Err(e) => {
                        proof {
                            lemma_beats_inner_sets_stay(
                                *json_qset,
                                (i + 1) as nat,
                                inner_arr@.len() as nat,
                            );
                        }
                        return Err(e);
                    },
                }
                i = i + 1;
            }
        },
        _ => {
            return Err(malformed("innerQuorumSets field missing or not an array"));
        },
    }

    let q = InternalScpQuorumSet { threshold, validators, inner_sets };
    proof {
        lemma_tree(q);
    }
    Ok(q)
}

/// Reads the nodes of a document in one of the dialects.
fn parse_nodes(nodes: &Vec<Json>, beats: bool) -> (r: Result<QuorumSetMap, FbasError>)
    ensures
        delivered(parsed_nodes(nodes@, nodes@.len(), beats), r),
{
    let mut quorum_map = QuorumSetMap::new();
    let mut i: usize = 0;
    proof {
        assert(quorum_map.trees() =~= Map::<Seq<char>, QuorumSetTree>::empty());
    }
    while i < nodes.len()
        invariant
            i <= nodes@.len(),
            quorum_map.wf(),
            parsed_nodes(nodes@, i as nat, beats) == Parsed::Sets(quorum_map.trees()),
        decreases nodes@.len() - i,
    {
        let node = &nodes[i];
        proof {
            lemma_parsed_nodes_stay(nodes@, (i + 1) as nat, nodes@.len() as nat, beats);
        }
        match node {
            Json::Object(_) => {},
            _ => {
                return Err(malformed("node is not an object"));
            },
        }
        let key = if beats {
            node.get("publicKey")
        } else {
            node.get("node")
        };
        let public_key = match key {
            Some(k) => match k.as_str() {
                Some(text) => text.clone(),
                None => {
                    return Err(missing_key(beats));
                },
            },
            None => {
                return Err(missing_key(beats));
            },
        };
        let parsed = if beats {
            match node.get("quorumSet") {
                Some(set) => parse_stellarbeats_internal_quorum_set(set),
                None => parse_stellarbeats_internal_quorum_set(&Json::Null),
            }
        } else {
            match node.get("qset") {
                Some(set) => parse_internal_quorum_set(set),
                None => parse_internal_quorum_set(&Json::Null),
            }
        };
        let qset = match parsed {
            Ok(qset) => qset,
            Err(e) => {
                return Err(e);
            },
        };
        let ghost before = quorum_map;
        let ghost tree = qset@;
        match quorum_map.insert(public_key, Rc::new(qset)) {
            Ok(_) => {
                proof {
                    assert(quorum_map.trees() =~= before.trees().insert(public_key@, tree));
                }
            },
            Err(e) => {
                return Err(e);
            },
        }
        i = i + 1;
    }
    Ok(quorum_map)
}

/// Reads a document of the regular dialect.
pub fn try_parse_quorum_set_map_from_json_regular(root: &Json) -> (r: Result<
    QuorumSetMap,
    FbasError,
>)
    requires
        root is Object,
    ensures
        delivered(parsed_document(*root), r),
{
    match root.get("nodes") {
        Some(Json::Array(nodes)) => parse_nodes(nodes, false),
        _ => Err(malformed("nodes field missing or not an array")),
    }
}

/// Reads a document of the stellarbeats dialect.
pub fn try_parse_quorum_set_map_from_stellarbeats_json(nodes: &Vec<Json>) -> (r: Result<
    QuorumSetMap,
    FbasError,
>)
    ensures
        delivered(parsed_nodes(nodes@, nodes@.len(), true), r),
{
    parse_nodes(nodes, true)
}

/// Reads a document: an object in the regular dialect, an array in the
/// stellarbeats dialect.
pub fn quorum_set_map_from_json_value(root: &Json) -> (r: Result<QuorumSetMap, FbasError>)
    ensures
        delivered(parsed_document(*root), r),
{
    match root {
        Json::Object(_) => try_parse_quorum_set_map_from_json_regular(root),
        Json::Array(nodes) => try_parse_quorum_set_map_from_stellarbeats_json(nodes),
        _ => Err(malformed("root is neither an object nor an array")),
    }
}

/// Reads the text of a document.
pub fn quorum_set_map_from_json_text(text: &str) -> (r: Result<QuorumSetMap, FbasError>)
    ensures
        delivered(parsed_text(text@), r),
{
    match json_parse(text) {
        Ok(value) => {
            let root = json_tree(&value);
            quorum_set_map_from_json_value(&root)
        },
        Err(e) => Err(FbasError::ParseError(json_error_text(&e))),
    }
}

impl Fbas {
    /// Builds the trust graph of the network that a JSON text describes.
    pub fn from_json_text(text: &str) -> (r: Result<Fbas, FbasError>)
        ensures
            Fbas::read_from_json(text@, r),
    {
        match quorum_set_map_from_json_text(text) {
            Ok(quorum_set_map) => {
                let r = Fbas::from_quorum_set_map(&quorum_set_map);
                proof {
                    let qsm = Ok::<QuorumSetMap, FbasError>(quorum_set_map);
                    assert(delivered(parsed_text(text@), qsm));
                }
                r
            },
            Err(e) => {
                proof {
                    let qsm = Err::<QuorumSetMap, FbasError>(e);
                    assert(delivered(parsed_text(text@), qsm));
                }
                Err(e)
            },
        }
    }

    /// `r` is what reading the text and building the graph gives: the
    /// error of the reading, or what building the graph of the map gives.
    pub open spec fn read_from_json(text: Seq<char>, r: Result<Fbas, FbasError>) -> bool {
        exists|qsm: Result<QuorumSetMap, FbasError>| #[trigger]
            delivered(parsed_text(text), qsm) && match qsm {
                Ok(map) => Fbas::built(map, r),
                Err(e) => r == Err::<Fbas, FbasError>(e),
            }
    }
}

} // verus!

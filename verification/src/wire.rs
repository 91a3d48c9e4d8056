//! Quorum-set records in the wire format: XDR, decoded by `stellar_xdr`,
//! with validators rendered as strkeys by `stellar_strkey`.

use crate::error::FbasError;
use crate::fbas::Fbas;
use crate::quorum_set::name_views;
use crate::quorum_set::InternalScpQuorumSet;
use crate::quorum_set::QuorumSetMap;
use stellar_xdr::curr::Error;
use stellar_xdr::curr::Limits;
use stellar_xdr::curr::NodeId;
use stellar_xdr::curr::PublicKey;
use stellar_xdr::curr::ReadXdr;
use stellar_xdr::curr::ScpQuorumSet;
use std::rc::Rc;
use vstd::prelude::*;

verus! {

/// `stellar_xdr::curr::Error`, the error of the decoder.
#[verifier::external_type_specification]
#[verifier::external_body]
pub struct ExXdrError(Error);

/// `stellar_xdr::curr::ScpQuorumSet`, a quorum set as the decoder hands it
/// out.
#[verifier::external_type_specification]
#[verifier::external_body]
pub struct ExScpQuorumSet(ScpQuorumSet);

/// A quorum set as the wire format holds it: validators are ed25519
/// public keys.
#[derive(Debug)]
pub struct WireQuorumSet {
    pub threshold: u32,
    pub validators: Vec<[u8; 32]>,
    pub inner_sets: Vec<WireQuorumSet>,
}

/// The strkey of an ed25519 public key: the text that `stellar_strkey`
/// renders it as.
pub uninterp spec fn strkey_text(key: Seq<u8>) -> Seq<char>;

/// The ed25519 key of the node id that the bytes decode to, if they are
/// the XDR of a node id.
pub uninterp spec fn xdr_node_id(bytes: Seq<u8>) -> Option<Seq<u8>>;

/// The quorum set that the bytes decode to, if they are the XDR of a
/// quorum set.
pub uninterp spec fn xdr_quorum_set(bytes: Seq<u8>) -> Option<WireQuorumSet>;

/// What a decoded quorum set holds.
pub uninterp spec fn quorum_set_content(q: ScpQuorumSet) -> WireQuorumSet;

/// `stellar_strkey::ed25519::PublicKey::to_string`: the strkey of a key.
#[verifier::external_body]
pub(crate) fn strkey_encode(key: &[u8; 32]) -> (s: String)
    ensures
        s@ == strkey_text(key@),
{
    stellar_strkey::ed25519::PublicKey(*key).to_string().as_str().to_string()
}

/// `NodeId::from_xdr` without limits: the ed25519 key of the node id that
/// the bytes hold, or the decoder's error.
#[verifier::external_body]
pub(crate) fn decode_node_id(buf: &[u8]) -> (r: Result<[u8; 32], Error>)
    ensures
        match r {
            Ok(key) => xdr_node_id(buf@) == Some(key@),
            Err(_) => xdr_node_id(buf@) is None,
        },
{
    NodeId::from_xdr(buf, Limits::none()).map(
        |node| match node.0 {
            PublicKey::PublicKeyTypeEd25519(key) => key.0,
        },
    )
}

/// `ScpQuorumSet::from_xdr` without limits: the quorum set that the bytes
/// hold, or the decoder's error.
#[verifier::external_body]
pub(crate) fn decode_quorum_set(buf: &[u8]) -> (r: Result<ScpQuorumSet, Error>)
    ensures
        match r {
            Ok(q) => xdr_quorum_set(buf@) == Some(quorum_set_content(q)),
            Err(_) => xdr_quorum_set(buf@) is None,
        },
{
    ScpQuorumSet::from_xdr(buf, Limits::none())
}

/// Copies the fields of a decoded `ScpQuorumSet`, level by level: the
/// threshold, the ed25519 key of each validator, and the inner sets.
#[verifier::external_body]
pub(crate) fn wire_quorum_set(q: &ScpQuorumSet) -> (w: WireQuorumSet)
    ensures
        w == quorum_set_content(*q),
{
    WireQuorumSet {
        threshold: q.threshold,
        validators: q.validators.iter().map(
            |node| match &node.0 {
                PublicKey::PublicKeyTypeEd25519(key) => key.0,
            },
        ).collect(),
        inner_sets: q.inner_sets.iter().map(wire_quorum_set).collect(),
    }
}

/// `Display` of `stellar_xdr::curr::Error`: the decoder's description of
/// an error. Nothing is claimed of the text.
#[verifier::external_body]
pub(crate) fn xdr_error_text(e: &Error) -> (s: String) {
    e.to_string()
}

/// `q` is `w` with each validator rendered as its strkey.
pub open spec fn rendered(w: WireQuorumSet, q: InternalScpQuorumSet) -> bool
    decreases w,
{
    &&& q.threshold == w.threshold
    &&& q.validators@.len() == w.validators@.len()
    &&& forall|i: int|
        0 <= i < w.validators@.len() ==> (#[trigger] q.validators@[i])@ == strkey_text(
            w.validators@[i]@,
        )
    &&& q.inner_sets@.len() == w.inner_sets@.len()
    &&& forall|i: int|
        0 <= i < w.inner_sets@.len() ==> rendered(
            w.inner_sets@[i],
            #[trigger] q.inner_sets@[i],
        )
}

/// What the first `n` records give: the quorum sets by validator, unless a
/// record cannot be decoded or names a validator for the second time.
pub enum Records {
    Sets(Map<Seq<char>, WireQuorumSet>),
    Undecodable,
    Duplicate(Seq<char>),
}

/// The records are taken in turn. The node id is decoded first. A record
/// with an empty quorum set stands for a validator of which nothing is
/// known, and is passed over; any other quorum set is decoded and entered
/// under the strkey of the node.
pub open spec fn records_upto(nodes: Seq<Vec<u8>>, sets: Seq<Vec<u8>>, n: nat) -> Records
    decreases n,
{
    if n == 0 {
        Records::Sets(Map::empty())
    } else {
        match records_upto(nodes, sets, (n - 1) as nat) {
            Records::Sets(m) => match xdr_node_id(nodes[n - 1]@) {
                None => Records::Undecodable,
                Some(key) => if sets[n - 1]@.len() == 0 {
                    Records::Sets(m)
                } else {
                    match xdr_quorum_set(sets[n - 1]@) {
                        None => Records::Undecodable,
                        Some(w) => if m.dom().contains(strkey_text(key)) {
                            Records::Duplicate(strkey_text(key))
                        } else {
                            Records::Sets(m.insert(strkey_text(key), w))
                        },
                    }
                },
            },
            other => other,
        }
    }
}

/// The map holds, for each validator of `m`, its quorum set with the
/// validators rendered as strkeys.
pub open spec fn holds_sets(qsm: QuorumSetMap, m: Map<Seq<char>, WireQuorumSet>) -> bool {
    &&& qsm.wf()
    &&& qsm@.dom() == m.dom()
    &&& forall|k: Seq<char>| #[trigger] m.dom().contains(k) ==> rendered(m[k], qsm@[k])
}

/// `r` is what the records give as a map of quorum sets.
pub open spec fn decoded(nodes: Seq<Vec<u8>>, sets: Seq<Vec<u8>>, r: Result<
    QuorumSetMap,
    FbasError,
>) -> bool {
    match records_upto(nodes, sets, nodes.len()) {
        Records::Sets(m) => r matches Ok(qsm) && holds_sets(qsm, m),
        Records::Undecodable => r matches Err(FbasError::XdrDecodeError(_)),
        Records::Duplicate(name) => r matches Err(FbasError::DuplicateValidator(k)) && k@ == name,
    }
}

impl InternalScpQuorumSet {
    /// The quorum set of the library for one of the wire format: the same
    /// set, with each validator rendered as its strkey.
    pub fn from_wire(w: &WireQuorumSet) -> (q: InternalScpQuorumSet)
        ensures
            rendered(*w, q),
        decreases w,
    {
        let mut validators: Vec<String> = Vec::new();
        let mut i: usize = 0;
        while i < w.validators.len()
            invariant
                i <= w.validators@.len(),
                validators@.len() == i,
                forall|k: int|
                    0 <= k < i ==> (#[trigger] validators@[k])@ == strkey_text(w.validators@[k]@),
            decreases w.validators@.len() - i,
        {
            validators.push(strkey_encode(&w.validators[i]));
            i = i + 1;
        }
        let mut inner_sets: Vec<InternalScpQuorumSet> = Vec::new();
        let mut j: usize = 0;
        while j < w.inner_sets.len()
            invariant
                j <= w.inner_sets@.len(),
                inner_sets@.len() == j,
                forall|k: int|
                    0 <= k < j ==> rendered(w.inner_sets@[k], #[trigger] inner_sets@[k]),
            decreases w.inner_sets@.len() - j,
        {
            inner_sets.push(InternalScpQuorumSet::from_wire(&w.inner_sets[j]));
            j = j + 1;
        }
        InternalScpQuorumSet { threshold: w.threshold, validators, inner_sets }
    }
}

impl From<ScpQuorumSet> for InternalScpQuorumSet {
    /// The quorum set of the library for a decoded one: the same set, with
    /// each validator rendered as its strkey.
    fn from(qset: ScpQuorumSet) -> (q: InternalScpQuorumSet)
        ensures
            rendered(quorum_set_content(qset), q),
    {
        let w = wire_quorum_set(&qset);
        InternalScpQuorumSet::from_wire(&w)
    }
}

impl vstd::std_specs::convert::FromSpecImpl<ScpQuorumSet> for InternalScpQuorumSet {
    open spec fn obeys_from_spec() -> bool {
        false
    }

    open spec fn from_spec(v: ScpQuorumSet) -> InternalScpQuorumSet {
        arbitrary()
    }
}

/// Decodes the records of a network: `nodes[i]` is the XDR of a node id
/// and `quorum_set[i]` the XDR of its quorum set, or empty where the
/// validator is known but its quorum set is not.
pub fn quorum_set_map_from_buf(nodes: &Vec<Vec<u8>>, quorum_set: &Vec<Vec<u8>>) -> (r: Result<
    QuorumSetMap,
    FbasError,
>)
    requires
        nodes@.len() == quorum_set@.len(),
    ensures
        decoded(nodes@, quorum_set@, r),
{
    let mut quorum_set_map = QuorumSetMap::new();
    let ghost mut m: Map<Seq<char>, WireQuorumSet> = Map::empty();
    let mut i: usize = 0;
    while i < nodes.len()
        invariant
            nodes@.len() == quorum_set@.len(),
            i <= nodes@.len(),
            records_upto(nodes@, quorum_set@, i as nat) == Records::Sets(m),
            holds_sets(quorum_set_map, m),
        decreases nodes@.len() - i,
    {
        let key = match decode_node_id(nodes[i].as_slice()) {
            Ok(key) => key,
            Err(e) => {
                proof {
                    lemma_records_stay(nodes@, quorum_set@, (i + 1) as nat, nodes@.len());
                }
                return Err(FbasError::XdrDecodeError(xdr_error_text(&e)));
            },
        };
        let node_str = strkey_encode(&key);
        if !quorum_set[i].is_empty() {
            let qset = match decode_quorum_set(quorum_set[i].as_slice()) {
                Ok(qset) => qset,
                Err(e) => {
                    proof {
                        lemma_records_stay(nodes@, quorum_set@, (i + 1) as nat, nodes@.len());
                    }
                    return Err(FbasError::XdrDecodeError(xdr_error_text(&e)));
                },
            };
            let ghost w = quorum_set_content(qset);
            let ghost before = quorum_set_map;
            let internal: InternalScpQuorumSet = InternalScpQuorumSet::from(qset);
            match quorum_set_map.insert(node_str, Rc::new(internal)) {
                Ok(_) => {
                    proof {
                        let name = strkey_text(key@);
                        assert forall|k: Seq<char>| #[trigger]
                            m.insert(name, w).dom().contains(k) implies rendered(
                            m.insert(name, w)[k],
                            quorum_set_map@[k],
                        ) by {
                            if k != name {
                                assert(m.dom().contains(k));
                            }
                        }
                        m = m.insert(name, w);
                    }
                },
                Err(e) => {
                    proof {
                        lemma_records_stay(nodes@, quorum_set@, (i + 1) as nat, nodes@.len());
                    }
                    return Err(e);
                },
            }
        }
        i = i + 1;
    }
    Ok(quorum_set_map)
}

/// The strkeys of those among the first `n` nodes whose record holds no
/// quorum set, in order. A node that cannot be decoded has no strkey and
/// is left out.
pub open spec fn undeclared_upto(nodes: Seq<Vec<u8>>, sets: Seq<Vec<u8>>, n: nat) -> Seq<Seq<char>>
    decreases n,
{
    if n == 0 {
        Seq::empty()
    } else {
        let rest = undeclared_upto(nodes, sets, (n - 1) as nat);
        match xdr_node_id(nodes[n - 1]@) {
            Some(key) => if sets[n - 1]@.len() == 0 {
                rest.push(strkey_text(key))
            } else {
                rest
            },
            None => rest,
        }
    }
}

/// The validators that are known but declare no quorum set: the strkeys
/// of the nodes whose record holds an empty quorum set. The graph builder
/// passes them over.
pub fn undeclared_nodes(nodes: &Vec<Vec<u8>>, quorum_set: &Vec<Vec<u8>>) -> (r: Vec<String>)
    requires
        nodes@.len() == quorum_set@.len(),
    ensures
        name_views(r@) == undeclared_upto(nodes@, quorum_set@, nodes@.len()),
{
    let mut r: Vec<String> = Vec::new();
    let mut i: usize = 0;
    proof {
        assert(name_views(r@) =~= undeclared_upto(nodes@, quorum_set@, 0));
    }
    while i < nodes.len()
        invariant
            nodes@.len() == quorum_set@.len(),
            i <= nodes@.len(),
            name_views(r@) == undeclared_upto(nodes@, quorum_set@, i as nat),
        decreases nodes@.len() - i,
    {
        if quorum_set[i].is_empty() {
            match decode_node_id(nodes[i].as_slice()) {
                Ok(key) => {
                    let name = strkey_encode(&key);
                    proof {
                        assert(name_views(r@.push(name)) =~= undeclared_upto(
                            nodes@,
                            quorum_set@,
                            (i + 1) as nat,
                        ));
                    }
                    r.push(name);
                },
                Err(_) => {},
            }
        }
        i = i + 1;
    }
    r
}

/// Once a record has failed, the records after it change nothing.
pub proof fn lemma_records_stay(nodes: Seq<Vec<u8>>, sets: Seq<Vec<u8>>, n: nat, k: nat)
    requires
        n <= k,
        !(records_upto(nodes, sets, n) is Sets),
    ensures
        records_upto(nodes, sets, k) == records_upto(nodes, sets, n),
    decreases k,
{
    if n < k {
        lemma_records_stay(nodes, sets, n, (k - 1) as nat);
    }
}

impl Fbas {
    /// `r` is what decoding the records and building the graph gives: the
    /// error of the decoding, or what building the graph of the map gives.
    pub open spec fn read_from_buf(nodes: Seq<Vec<u8>>, sets: Seq<Vec<u8>>, r: Result<
        Fbas,
        FbasError,
    >) -> bool {
        exists|qsm: Result<QuorumSetMap, FbasError>| #[trigger]
            decoded(nodes, sets, qsm) && match qsm {
                Ok(map) => Fbas::built(map, r),
                Err(e) => r == Err::<Fbas, FbasError>(e),
            }
    }

    /// Builds the trust graph of the network that the records describe.
    pub fn from_quorum_set_map_buf(nodes: &Vec<Vec<u8>>, quorum_set: &Vec<Vec<u8>>) -> (r: Result<
        Fbas,
        FbasError,
    >)
        requires
            nodes@.len() == quorum_set@.len(),
        ensures
            Fbas::read_from_buf(nodes@, quorum_set@, r),
    {
        let decoded_map = quorum_set_map_from_buf(nodes, quorum_set);
        match decoded_map {
            Ok(quorum_set_map) => {
                let r = Fbas::from_quorum_set_map(&quorum_set_map);
                proof {
                    let qsm = Ok::<QuorumSetMap, FbasError>(quorum_set_map);
                    assert(decoded(nodes@, quorum_set@, qsm));
                }
                r
            },
            Err(e) => {
                proof {
                    let qsm = Err::<QuorumSetMap, FbasError>(e);
                    assert(decoded(nodes@, quorum_set@, qsm));
                }
                Err(e)
            },
        }
    }
}

} // verus!

//! What the quorum-set vertices of a built graph are: the distinct quorum
//! sets that the validators declare, at any level, each once.

use crate::error::FbasError;
use crate::fbas::build;
use crate::fbas::build_upto;
use crate::fbas::intern;
use crate::fbas::intern_inner;
use crate::fbas::known_indices;
use crate::fbas::validator_vertices;
use crate::fbas::Fbas;
use crate::fbas::QsetView;
use crate::fbas::VertexView;
use crate::index_set::insert_sorted;
use crate::keys::keys_increasing;
use crate::keys::lemma_key_lt_asymmetric;
use crate::quorum_set::InternalScpQuorumSet;
use crate::quorum_set::QuorumSetMap;
use vstd::prelude::*;

verus! {

/// `ext` begins with `vs`.
pub open spec fn is_prefix(vs: Seq<VertexView>, ext: Seq<VertexView>) -> bool {
    vs.len() <= ext.len() && forall|i: int| 0 <= i < vs.len() ==> ext[i] == vs[i]
}

/// The vertices of the first `n` inner sets of `q`, as a set of indices.
pub open spec fn inner_indices(
    vs: Seq<VertexView>,
    keys: Seq<Seq<char>>,
    q: InternalScpQuorumSet,
    n: nat,
) -> Seq<usize>
    decreases q, n,
{
    if n == 0 || n > q.inner_sets@.len() {
        Seq::empty()
    } else {
        insert_sorted(
            inner_indices(vs, keys, q, (n - 1) as nat),
            vertex_of(vs, keys, q.inner_sets@[n - 1]),
        )
    }
}

/// The quorum set that `q` is in the graph: its threshold, the vertices
/// of its validators as far as they are known, and the vertices of its
/// inner sets.
pub open spec fn canonical_key(vs: Seq<VertexView>, keys: Seq<Seq<char>>, q: InternalScpQuorumSet) -> QsetView
    decreases q, q.inner_sets@.len() + 1,
{
    QsetView {
        threshold: q.threshold,
        validators: known_indices(keys, q.validators@, q.validators@.len()),
        inner_qsets: inner_indices(vs, keys, q, q.inner_sets@.len()),
    }
}

/// The vertex that stands for `q`, where there is one.
pub open spec fn vertex_of(vs: Seq<VertexView>, keys: Seq<Seq<char>>, q: InternalScpQuorumSet) -> usize
    decreases q, q.inner_sets@.len() + 2,
{
    vs.index_of(VertexView::QSet(canonical_key(vs, keys, q))) as usize
}

/// `q` and all the sets below it have their vertices.
pub open spec fn interned(vs: Seq<VertexView>, keys: Seq<Seq<char>>, q: InternalScpQuorumSet) -> bool
    decreases q,
{
    &&& vs.contains(VertexView::QSet(canonical_key(vs, keys, q)))
    &&& forall|k: int|
        0 <= k < q.inner_sets@.len() ==> interned(vs, keys, #[trigger] q.inner_sets@[k])
}

/// `s` is `q` or one of the sets below it.
pub open spec fn below(q: InternalScpQuorumSet, s: InternalScpQuorumSet) -> bool
    decreases q,
{
    s == q || exists|k: int|
        0 <= k < q.inner_sets@.len() && below(#[trigger] q.inner_sets@[k], s)
}

/// The vertex `v` stands for the quorum set `s`.
pub open spec fn stands_for(
    vs: Seq<VertexView>,
    keys: Seq<Seq<char>>,
    s: InternalScpQuorumSet,
    v: VertexView,
) -> bool {
    interned(vs, keys, s) && v == VertexView::QSet(canonical_key(vs, keys, s))
}

/// The vertex `v` stands for `q` or for a set below it.
pub open spec fn made_for(
    vs: Seq<VertexView>,
    keys: Seq<Seq<char>>,
    q: InternalScpQuorumSet,
    v: VertexView,
) -> bool {
    exists|s: InternalScpQuorumSet| below(q, s) && #[trigger] stands_for(vs, keys, s, v)
}

/// The vertex `v` stands for a set at or below one of the first `n` inner
/// sets of `q`.
pub open spec fn made_for_inner(
    vs: Seq<VertexView>,
    keys: Seq<Seq<char>>,
    q: InternalScpQuorumSet,
    n: nat,
    v: VertexView,
) -> bool {
    exists|k: int| 0 <= k < n && k < q.inner_sets@.len() && made_for(vs, keys, #[trigger] q.inner_sets@[k], v)
}

/// The vertex `v` stands for a set that one of the first `n` validators
/// declares, at some level.
pub open spec fn made_for_entry(
    vs: Seq<VertexView>,
    keys: Seq<Seq<char>>,
    sets: Seq<InternalScpQuorumSet>,
    n: nat,
    v: VertexView,
) -> bool {
    exists|e: int| 0 <= e < n && e < sets.len() && made_for(vs, keys, #[trigger] sets[e], v)
}

/// In a longer sequence without duplicates a vertex keeps its index.
pub proof fn lemma_index_stable(vs: Seq<VertexView>, ext: Seq<VertexView>, v: VertexView)
    requires
        is_prefix(vs, ext),
        ext.no_duplicates(),
        vs.contains(v),
    ensures
        ext.contains(v),
        ext.index_of(v) == vs.index_of(v),
        0 <= vs.index_of(v) < vs.len(),
{
    let j = vs.index_of(v);
    assert(ext[j] == v);
}

/// The vertices of inner sets that are interned stay the same in a longer
/// sequence.
pub proof fn lemma_inner_indices_stable(
    vs: Seq<VertexView>,
    ext: Seq<VertexView>,
    keys: Seq<Seq<char>>,
    q: InternalScpQuorumSet,
    n: nat,
)
    requires
        is_prefix(vs, ext),
        ext.no_duplicates(),
        n <= q.inner_sets@.len(),
        forall|k: int| 0 <= k < n ==> interned(vs, keys, #[trigger] q.inner_sets@[k]),
    ensures
        inner_indices(ext, keys, q, n) == inner_indices(vs, keys, q, n),
    decreases q, n,
{
    if n > 0 {
        lemma_inner_indices_stable(vs, ext, keys, q, (n - 1) as nat);
        lemma_stable(vs, ext, keys, q.inner_sets@[n - 1]);
    }
}

/// A quorum set that is interned stays so in a longer sequence, with the
/// same vertex.
pub proof fn lemma_stable(
    vs: Seq<VertexView>,
    ext: Seq<VertexView>,
    keys: Seq<Seq<char>>,
    s: InternalScpQuorumSet,
)
    requires
        is_prefix(vs, ext),
        ext.no_duplicates(),
        interned(vs, keys, s),
    ensures
        interned(ext, keys, s),
        canonical_key(ext, keys, s) == canonical_key(vs, keys, s),
        vertex_of(ext, keys, s) == vertex_of(vs, keys, s),
        vertex_of(vs, keys, s) < vs.len(),
    decreases s, s.inner_sets@.len() + 1,
{
    lemma_inner_indices_stable(vs, ext, keys, s, s.inner_sets@.len());
    lemma_index_stable(vs, ext, VertexView::QSet(canonical_key(vs, keys, s)));
    assert forall|k: int| 0 <= k < s.inner_sets@.len() implies interned(
        ext,
        keys,
        #[trigger] s.inner_sets@[k],
    ) by {
        lemma_stable(vs, ext, keys, s.inner_sets@[k]);
    }
}

/// A vertex that stands for a set at or below `q` does so in a longer
/// sequence.
pub proof fn lemma_made_for_stable(
    vs: Seq<VertexView>,
    ext: Seq<VertexView>,
    keys: Seq<Seq<char>>,
    q: InternalScpQuorumSet,
    v: VertexView,
)
    requires
        is_prefix(vs, ext),
        ext.no_duplicates(),
        made_for(vs, keys, q, v),
    ensures
        made_for(ext, keys, q, v),
{
    let s = choose|s: InternalScpQuorumSet| below(q, s) && #[trigger] stands_for(vs, keys, s, v);
    lemma_stable(vs, ext, keys, s);
    assert(stands_for(ext, keys, s, v));
}

/// What interning the first `n` inner sets of `q` does to the vertices.
pub proof fn lemma_intern_inner(
    vs: Seq<VertexView>,
    keys: Seq<Seq<char>>,
    q: InternalScpQuorumSet,
    n: nat,
)
    requires
        vs.no_duplicates(),
        n <= q.inner_sets@.len(),
    ensures
        ({
            let (ext, inner) = intern_inner(vs, keys, q, n);
            &&& is_prefix(vs, ext)
            &&& ext.no_duplicates()
            &&& forall|k: int| 0 <= k < n ==> interned(ext, keys, #[trigger] q.inner_sets@[k])
            &&& inner == inner_indices(ext, keys, q, n)
            &&& forall|i: int|
                vs.len() <= i < ext.len() ==> made_for_inner(ext, keys, q, n, #[trigger] ext[i])
        }),
    decreases q, n,
{
    if n > 0 {
        let (vs1, acc) = intern_inner(vs, keys, q, (n - 1) as nat);
        let last = q.inner_sets@[n - 1];
        let (vs2, i) = intern(vs1, keys, last);
        lemma_intern_inner(vs, keys, q, (n - 1) as nat);
        lemma_intern(vs1, keys, last);
        lemma_inner_indices_stable(vs1, vs2, keys, q, (n - 1) as nat);
        assert forall|k: int| 0 <= k < n implies interned(vs2, keys, #[trigger] q.inner_sets@[k]) by {
            if k < n - 1 {
                lemma_stable(vs1, vs2, keys, q.inner_sets@[k]);
            }
        }
        assert forall|j: int| vs.len() <= j < vs2.len() implies made_for_inner(
            vs2,
            keys,
            q,
            n,
            #[trigger] vs2[j],
        ) by {
            if j < vs1.len() {
                assert(made_for_inner(vs1, keys, q, (n - 1) as nat, vs1[j]));
                let k = choose|k: int|
                    0 <= k < n - 1 && k < q.inner_sets@.len() && made_for(
                        vs1,
                        keys,
                        #[trigger] q.inner_sets@[k],
                        vs1[j],
                    );
                lemma_made_for_stable(vs1, vs2, keys, q.inner_sets@[k], vs1[j]);
            } else {
                assert(made_for(vs2, keys, q.inner_sets@[n - 1], vs2[j]));
            }
        }
    }
}

/// What interning `q` does to the vertices: those that were there stay,
/// `q` and the sets below it have their vertices, and every vertex that
/// is new stands for one of these sets.
pub proof fn lemma_intern(vs: Seq<VertexView>, keys: Seq<Seq<char>>, q: InternalScpQuorumSet)
    requires
        vs.no_duplicates(),
    ensures
        ({
            let (ext, idx) = intern(vs, keys, q);
            &&& is_prefix(vs, ext)
            &&& ext.no_duplicates()
            &&& interned(ext, keys, q)
            &&& vertex_of(ext, keys, q) == idx
            &&& forall|i: int| vs.len() <= i < ext.len() ==> made_for(ext, keys, q, #[trigger] ext[i])
        }),
    decreases q, q.inner_sets@.len() + 1,
{
    let n = q.inner_sets@.len();
    let (vs1, inner) = intern_inner(vs, keys, q, n);
    lemma_intern_inner(vs, keys, q, n);
    let v = VertexView::QSet(
        QsetView {
            threshold: q.threshold,
            validators: known_indices(keys, q.validators@, q.validators@.len()),
            inner_qsets: inner,
        },
    );
    assert(v == VertexView::QSet(canonical_key(vs1, keys, q)));
    let (ext, idx) = intern(vs, keys, q);
    if vs1.contains(v) {
        assert(ext == vs1);
        assert forall|i: int| vs.len() <= i < ext.len() implies made_for(
            ext,
            keys,
            q,
            #[trigger] ext[i],
        ) by {
            lemma_made_for_lifts(ext, keys, q, ext[i]);
        }
    } else {
        assert(ext == vs1.push(v));
        assert(is_prefix(vs1, ext));
        lemma_inner_indices_stable(vs1, ext, keys, q, n);
        assert(ext[vs1.len() as int] == v);
        assert forall|k: int| 0 <= k < n implies interned(ext, keys, #[trigger] q.inner_sets@[k]) by {
            lemma_stable(vs1, ext, keys, q.inner_sets@[k]);
        }
        assert(stands_for(ext, keys, q, v));
        assert forall|i: int| vs.len() <= i < ext.len() implies made_for(
            ext,
            keys,
            q,
            #[trigger] ext[i],
        ) by {
            if i < vs1.len() {
                assert(made_for_inner(vs1, keys, q, n, vs1[i]));
                let k = choose|k: int|
                    0 <= k < n && k < q.inner_sets@.len() && made_for(
                        vs1,
                        keys,
                        #[trigger] q.inner_sets@[k],
                        vs1[i],
                    );
                lemma_made_for_stable(vs1, ext, keys, q.inner_sets@[k], vs1[i]);
                assert(made_for_inner(ext, keys, q, n, ext[i]));
                lemma_made_for_lifts(ext, keys, q, ext[i]);
            } else {
                assert(below(q, q));
            }
        }
    }
}

/// A vertex that stands for a set at or below an inner set of `q` stands
/// for a set below `q`.
pub proof fn lemma_made_for_lifts(
    vs: Seq<VertexView>,
    keys: Seq<Seq<char>>,
    q: InternalScpQuorumSet,
    v: VertexView,
)
    requires
        made_for_inner(vs, keys, q, q.inner_sets@.len(), v),
    ensures
        made_for(vs, keys, q, v),
{
    let k = choose|k: int|
        0 <= k < q.inner_sets@.len() && k < q.inner_sets@.len() && made_for(
            vs,
            keys,
            #[trigger] q.inner_sets@[k],
            v,
        );
    let s = choose|s: InternalScpQuorumSet|
        below(q.inner_sets@[k], s) && #[trigger] stands_for(vs, keys, s, v);
    assert(below(q, s));
    assert(stands_for(vs, keys, s, v));
}

/// The vertices of validators with different names are different.
pub proof fn lemma_validator_vertices(keys: Seq<Seq<char>>)
    requires
        keys_increasing(keys),
    ensures
        validator_vertices(keys).no_duplicates(),
{
    let vs = validator_vertices(keys);
    assert forall|i: int, j: int| 0 <= i < vs.len() && 0 <= j < vs.len() && i != j implies vs[i]
        != vs[j] by {
        if i < j {
            lemma_key_lt_asymmetric(keys[i], keys[j]);
        } else {
            lemma_key_lt_asymmetric(keys[j], keys[i]);
        }
    }
}

/// What building the graph does: the quorum sets of the validators, and
/// the sets below them, have their vertices, and every vertex after those
/// of the validators stands for one of these sets.
pub proof fn lemma_build(keys: Seq<Seq<char>>, sets: Seq<InternalScpQuorumSet>, n: nat)
    requires
        keys_increasing(keys),
        n <= sets.len(),
    ensures
        ({
            let vs = build_upto(keys, sets, n).vertices;
            &&& is_prefix(validator_vertices(keys), vs)
            &&& vs.no_duplicates()
            &&& forall|e: int| 0 <= e < n ==> interned(vs, keys, #[trigger] sets[e])
            &&& forall|i: int|
                keys.len() <= i < vs.len() ==> made_for_entry(vs, keys, sets, n, #[trigger] vs[i])
        }),
    decreases n,
{
    lemma_validator_vertices(keys);
    if n > 0 {
        let vs1 = build_upto(keys, sets, (n - 1) as nat).vertices;
        let (vs2, r) = intern(vs1, keys, sets[n - 1]);
        lemma_build(keys, sets, (n - 1) as nat);
        lemma_intern(vs1, keys, sets[n - 1]);
        assert forall|e: int| 0 <= e < n implies interned(vs2, keys, #[trigger] sets[e]) by {
            if e < n - 1 {
                lemma_stable(vs1, vs2, keys, sets[e]);
            }
        }
        assert forall|i: int| keys.len() <= i < vs2.len() implies made_for_entry(
            vs2,
            keys,
            sets,
            n,
            #[trigger] vs2[i],
        ) by {
            if i < vs1.len() {
                assert(made_for_entry(vs1, keys, sets, (n - 1) as nat, vs1[i]));
                let e = choose|e: int|
                    0 <= e < n - 1 && e < sets.len() && made_for(vs1, keys, #[trigger] sets[e], vs1[i]);
                lemma_made_for_stable(vs1, vs2, keys, sets[e], vs1[i]);
            } else {
                assert(made_for(vs2, keys, sets[n - 1], vs2[i]));
            }
        }
    }
}

/// Where a quorum set is interned, so is every set below it.
pub proof fn lemma_interned_below(
    vs: Seq<VertexView>,
    keys: Seq<Seq<char>>,
    q: InternalScpQuorumSet,
    s: InternalScpQuorumSet,
)
    requires
        interned(vs, keys, q),
        below(q, s),
    ensures
        interned(vs, keys, s),
    decreases q,
{
    if s != q {
        let k = choose|k: int| 0 <= k < q.inner_sets@.len() && below(#[trigger] q.inner_sets@[k], s);
        lemma_interned_below(vs, keys, q.inner_sets@[k], s);
    }
}

/// `s` is a quorum set that a validator of the map declares, at some
/// level.
pub open spec fn declared(qsm: QuorumSetMap, s: InternalScpQuorumSet) -> bool {
    exists|e: int| 0 <= e < qsm.sets().len() && below(#[trigger] qsm.sets()[e], s)
}

/// Interning is canonical. In the graph of a map every quorum set that a
/// validator declares, at any level, has its vertex; every vertex after
/// those of the validators stands for such a set; and no two vertices
/// stand for the same. So the graph has as many quorum-set vertices as the
/// validators declare distinct quorum sets.
pub proof fn lemma_vertices_are_the_declared_sets(qsm: QuorumSetMap, fbas: Fbas)
    requires
        qsm.wf(),
        Fbas::built(qsm, Ok::<Fbas, FbasError>(fbas)),
    ensures
        forall|s: InternalScpQuorumSet| #[trigger]
            declared(qsm, s) ==> fbas.vertices().contains(
                VertexView::QSet(canonical_key(fbas.vertices(), qsm.keys(), s)),
            ),
        forall|i: int|
            fbas.validator_count() <= i < fbas.vertices().len() ==> exists|s: InternalScpQuorumSet|
                declared(qsm, s) && (#[trigger] fbas.vertices()[i]) == VertexView::QSet(
                    canonical_key(fbas.vertices(), qsm.keys(), s),
                ),
        fbas.vertices().no_duplicates(),
        Set::new(
            |v: VertexView|
                exists|s: InternalScpQuorumSet|
                    declared(qsm, s) && v == VertexView::QSet(
                        canonical_key(fbas.vertices(), qsm.keys(), s),
                    ),
        ).len() == fbas.vertices().len() - fbas.validator_count(),
{
    let keys = qsm.keys();
    let sets = qsm.sets();
    let vs = fbas.vertices();
    let count = fbas.validator_count();
    lemma_build(keys, sets, sets.len());
    assert(vs == build(keys, sets).vertices);
    assert(count == keys.len());
    assert forall|s: InternalScpQuorumSet| #[trigger] declared(qsm, s) implies vs.contains(
        VertexView::QSet(canonical_key(vs, keys, s)),
    ) by {
        let e = choose|e: int| 0 <= e < sets.len() && below(#[trigger] sets[e], s);
        lemma_interned_below(vs, keys, sets[e], s);
    }
    assert forall|i: int| count <= i < vs.len() implies exists|s: InternalScpQuorumSet|
        declared(qsm, s) && (#[trigger] vs[i]) == VertexView::QSet(
            canonical_key(vs, keys, s),
        ) by {
        assert(made_for_entry(vs, keys, sets, sets.len(), vs[i]));
        let e = choose|e: int|
            0 <= e < sets.len() && e < sets.len() && made_for(vs, keys, #[trigger] sets[e], vs[i]);
        let s = choose|s: InternalScpQuorumSet|
            below(sets[e], s) && #[trigger] stands_for(vs, keys, s, vs[i]);
        assert(below(sets[e], s));
        assert(declared(qsm, s));
    }
    let tail = vs.skip(count as int);
    let wanted = Set::new(
        |v: VertexView|
            exists|s: InternalScpQuorumSet|
                declared(qsm, s) && v == VertexView::QSet(canonical_key(vs, keys, s)),
    );
    assert forall|v: VertexView| tail.to_set().contains(v) <==> wanted.contains(v) by {
        if tail.contains(v) {
            let i = tail.index_of(v);
            assert(vs[count + i] == v);
        }
        if wanted.contains(v) {
            let s = choose|s: InternalScpQuorumSet|
                declared(qsm, s) && v == VertexView::QSet(canonical_key(vs, keys, s));
            assert(vs.contains(v));
            let i = vs.index_of(v);
            if i < count {
                assert(validator_vertices(keys)[i] is Validator);
            }
            assert(tail[i - count] == v);
        }
    }
    assert(tail.to_set() =~= wanted);
    assert(tail.no_duplicates());
    tail.unique_seq_to_set();
}

} // verus!

//! The order in which validator identifiers are kept: byte-wise
//! lexicographic order of their UTF-8 encoding.

use vstd::prelude::*;
use vstd::utf8::*;

verus! {

/// `a` is smaller than `b` because of position `i`: they agree before `i`,
/// and there `a` has ended or holds the smaller byte.
pub open spec fn bytes_lt_at(a: Seq<u8>, b: Seq<u8>, i: int) -> bool {
    &&& 0 <= i <= a.len()
    &&& i < b.len()
    &&& forall|k: int| 0 <= k < i ==> a[k] == b[k]
    &&& (i == a.len() || a[i] < b[i])
}

/// Strict lexicographic order on byte strings.
pub open spec fn bytes_lt(a: Seq<u8>, b: Seq<u8>) -> bool {
    exists|i: int| bytes_lt_at(a, b, i)
}

/// Strict order on identifiers: the order of their UTF-8 encodings.
pub open spec fn key_lt(a: Seq<char>, b: Seq<char>) -> bool {
    bytes_lt(encode_utf8(a), encode_utf8(b))
}

/// The keys of `s` are strictly increasing.
pub open spec fn keys_increasing(s: Seq<Seq<char>>) -> bool {
    forall|i: int, j: int| 0 <= i < j < s.len() ==> key_lt(s[i], s[j])
}

/// No identifier is smaller than itself.
pub proof fn lemma_key_lt_irreflexive(a: Seq<char>)
    ensures
        !key_lt(a, a),
{
    let x = encode_utf8(a);
    if bytes_lt(x, x) {
        let i = choose|i: int| bytes_lt_at(x, x, i);
        assert(bytes_lt_at(x, x, i));
    }
}

/// The order on identifiers is transitive.
pub proof fn lemma_key_lt_transitive(a: Seq<char>, b: Seq<char>, c: Seq<char>)
    requires
        key_lt(a, b),
        key_lt(b, c),
    ensures
        key_lt(a, c),
{
    let x = encode_utf8(a);
    let y = encode_utf8(b);
    let z = encode_utf8(c);
    let i = choose|i: int| bytes_lt_at(x, y, i);
    let j = choose|j: int| bytes_lt_at(y, z, j);
    assert(bytes_lt_at(x, y, i));
    assert(bytes_lt_at(y, z, j));
    let k = if i <= j { i } else { j };
    assert(bytes_lt_at(x, z, k));
}

/// Of two identifiers at most one is smaller than the other.
pub proof fn lemma_key_lt_asymmetric(a: Seq<char>, b: Seq<char>)
    requires
        key_lt(a, b),
    ensures
        !key_lt(b, a),
        a != b,
{
    if key_lt(b, a) {
        lemma_key_lt_transitive(a, b, a);
    }
    lemma_key_lt_irreflexive(a);
}

/// How one identifier stands to another in the order.
#[derive(Clone, Copy, Debug, PartialEq, Eq, Structural)]
pub enum KeyOrder {
    Before,
    Same,
    After,
}

/// Compares two identifiers.
pub fn key_order(a: &str, b: &str) -> (r: KeyOrder)
    ensures
        r == KeyOrder::Before <==> key_lt(a@, b@),
        r == KeyOrder::Same <==> a@ == b@,
        r == KeyOrder::After <==> key_lt(b@, a@),
{
    let x = a.as_bytes();
    let y = b.as_bytes();
    let mut i: usize = 0;
    let mut r = KeyOrder::Same;
    loop
        invariant_except_break
            i <= x@.len(),
            i <= y@.len(),
            forall|k: int| 0 <= k < i ==> x@[k] == y@[k],
        invariant
            x@ == encode_utf8(a@),
            y@ == encode_utf8(b@),
        ensures
            r == KeyOrder::Before ==> key_lt(a@, b@),
            r == KeyOrder::Same ==> a@ == b@,
            r == KeyOrder::After ==> key_lt(b@, a@),
        decreases x@.len() - i,
    {
        if i >= x.len() {
            if i < y.len() {
                assert(bytes_lt_at(x@, y@, i as int));
                r = KeyOrder::Before;
                break;
            }
            proof {
                assert(x@ =~= y@);
                encode_utf8_decode_utf8(a@);
                encode_utf8_decode_utf8(b@);
            }
            r = KeyOrder::Same;
            break;
        }
        if i >= y.len() {
            assert(bytes_lt_at(y@, x@, i as int));
            r = KeyOrder::After;
            break;
        }
        if x[i] < y[i] {
            assert(bytes_lt_at(x@, y@, i as int));
            r = KeyOrder::Before;
            break;
        }
        if x[i] > y[i] {
            assert(bytes_lt_at(y@, x@, i as int));
            r = KeyOrder::After;
            break;
        }
        i = i + 1;
    }
    proof {
        if key_lt(a@, b@) {
            lemma_key_lt_asymmetric(a@, b@);
        }
        if key_lt(b@, a@) {
            lemma_key_lt_asymmetric(b@, a@);
        }
    }
    r
}

} // verus!

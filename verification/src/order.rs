//! The order in which candidate passwords are tried: the lexicographic order
//! of their UTF-8 bytes.

use vstd::prelude::*;
use vstd::utf8::*;

verus! {

/// `a` and `b` hold the same bytes at every position below `k`.
pub open spec fn agree_below(a: Seq<u8>, b: Seq<u8>, k: int) -> bool {
    &&& 0 <= k <= a.len()
    &&& k <= b.len()
    &&& forall|i: int| 0 <= i < k ==> a[i] == b[i]
}

/// `a` comes strictly before `b`: where the two stop agreeing, `a` has ended
/// or holds the smaller byte.
pub open spec fn bytes_before(a: Seq<u8>, b: Seq<u8>) -> bool {
    exists|k: int| #[trigger] agree_below(a, b, k) && k < b.len() && (k == a.len() || a[k] < b[k])
}

/// The password `p` is tried before the password `q`.
pub open spec fn precedes(p: Seq<char>, q: Seq<char>) -> bool {
    bytes_before(encode_utf8(p), encode_utf8(q))
}

/// Every element of `s` precedes all that follow it, so `s` is sorted and
/// holds nothing twice.
pub open spec fn ascending(s: Seq<Seq<char>>) -> bool {
    forall|i: int, j: int| 0 <= i < j < s.len() ==> precedes(#[trigger] s[i], #[trigger] s[j])
}

/// How one byte string lies relative to another.
#[derive(Clone, Copy, Debug, PartialEq, Eq, Structural)]
pub enum Place {
    Before,
    Same,
    After,
}

/// No byte string comes before itself.
pub proof fn lemma_bytes_before_irreflexive(a: Seq<u8>)
    ensures
        !bytes_before(a, a),
{
}

/// If `a` comes before `b` and `b` before `c`, then `a` comes before `c`.
pub proof fn lemma_bytes_before_transitive(a: Seq<u8>, b: Seq<u8>, c: Seq<u8>)
    requires
        bytes_before(a, b),
        bytes_before(b, c),
    ensures
        bytes_before(a, c),
{
    let k1 = choose|k: int| #[trigger] agree_below(a, b, k) && k < b.len() && (k == a.len() || a[k] < b[k]);
    let k2 = choose|k: int| #[trigger] agree_below(b, c, k) && k < c.len() && (k == b.len() || b[k] < c[k]);
    let k = if k1 <= k2 { k1 } else { k2 };
    assert(agree_below(a, c, k));
}

/// Of two different byte strings one comes before the other.
pub proof fn lemma_bytes_before_total(a: Seq<u8>, b: Seq<u8>)
    ensures
        a == b || bytes_before(a, b) || bytes_before(b, a),
{
    if a != b {
        lemma_first_difference(a, b, 0);
    }
}

/// Two byte strings that agree below `k` are equal, or one comes before the
/// other.
proof fn lemma_first_difference(a: Seq<u8>, b: Seq<u8>, k: int)
    requires
        agree_below(a, b, k),
    ensures
        a == b || bytes_before(a, b) || bytes_before(b, a),
    decreases a.len() - k,
{
    if k == a.len() {
        if k == b.len() {
            assert(a =~= b);
        } else {
            assert(agree_below(a, b, k));
        }
    } else if k == b.len() {
        assert(agree_below(b, a, k));
    } else if a[k] == b[k] {
        assert(agree_below(a, b, k + 1));
        lemma_first_difference(a, b, k + 1);
    } else if a[k] < b[k] {
        assert(agree_below(a, b, k));
    } else {
        assert(agree_below(b, a, k));
    }
}

/// Different passwords have different keys.
pub proof fn lemma_key_injective(p: Seq<char>, q: Seq<char>)
    requires
        encode_utf8(p) == encode_utf8(q),
    ensures
        p == q,
{
    encode_utf8_decode_utf8(p);
    encode_utf8_decode_utf8(q);
}

/// Only the empty password has the empty key.
pub proof fn lemma_key_empty(p: Seq<char>)
    ensures
        encode_utf8(p).len() == 0 <==> p.len() == 0,
{
    if p.len() > 0 {
        assert(encode_scalar(p[0] as u32).len() > 0);
    }
}

/// The empty password precedes every other, and none precedes it.
pub proof fn lemma_empty_first(p: Seq<char>)
    ensures
        p.len() > 0 ==> precedes(Seq::empty(), p),
        !precedes(p, Seq::empty()),
{
    lemma_key_empty(p);
    lemma_key_empty(Seq::empty());
    if p.len() > 0 {
        assert(agree_below(encode_utf8(Seq::<char>::empty()), encode_utf8(p), 0));
    }
}

/// No password precedes itself.
pub proof fn lemma_precedes_irreflexive(p: Seq<char>)
    ensures
        !precedes(p, p),
{
}

/// If `p` precedes `q` and `q` precedes `r`, then `p` precedes `r`.
pub proof fn lemma_precedes_transitive(p: Seq<char>, q: Seq<char>, r: Seq<char>)
    requires
        precedes(p, q),
        precedes(q, r),
    ensures
        precedes(p, r),
{
    lemma_bytes_before_transitive(encode_utf8(p), encode_utf8(q), encode_utf8(r));
}

/// Compares two byte strings in lexicographic order.
pub fn compare_bytes(a: &[u8], b: &[u8]) -> (place: Place)
    ensures
        place == Place::Before <==> bytes_before(a@, b@),
        place == Place::Same <==> a@ == b@,
        place == Place::After <==> bytes_before(b@, a@),
{
    let mut i: usize = 0;
    while i < a.len() && i < b.len()
        invariant
            agree_below(a@, b@, i as int),
            agree_below(b@, a@, i as int),
        decreases a.len() - i,
    {
        if a[i] < b[i] {
            proof {
                lemma_only_before(a@, b@, i as int);
            }
            return Place::Before;
        }
        if a[i] > b[i] {
            proof {
                lemma_only_before(b@, a@, i as int);
            }
            return Place::After;
        }
        i = i + 1;
    }
    if i < b.len() {
        proof {
            lemma_only_before(a@, b@, i as int);
        }
        Place::Before
    } else if i < a.len() {
        proof {
            lemma_only_before(b@, a@, i as int);
        }
        Place::After
    } else {
        proof {
            assert(a@ =~= b@);
            lemma_bytes_before_irreflexive(a@);
        }
        Place::Same
    }
}

/// A place where `a` ends or holds the smaller byte, below which the two
/// agree, shows that `a` comes before `b`, is different from it and does not
/// come after it.
proof fn lemma_only_before(a: Seq<u8>, b: Seq<u8>, k: int)
    requires
        agree_below(a, b, k),
        k < b.len(),
        k == a.len() || a[k] < b[k],
    ensures
        bytes_before(a, b),
        a != b,
        !bytes_before(b, a),
{
    if bytes_before(b, a) {
        lemma_bytes_before_transitive(a, b, a);
        lemma_bytes_before_irreflexive(a);
    }
}

} // verus!

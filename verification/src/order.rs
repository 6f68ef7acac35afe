//! Lexicographic byte order, the order in which entry names are kept.

use vstd::prelude::*;

verus! {

/// `a` and `b` hold the same bytes before position `k`.
pub open spec fn agree_before(a: Seq<u8>, b: Seq<u8>, k: int) -> bool {
    forall|i: int| 0 <= i < k ==> #[trigger] a[i] == b[i]
}

/// Position `k` is where `a` first sorts below `b`: either `a` ends there
/// while `b` goes on, or the byte of `a` there is the smaller one.
pub open spec fn diverge_at(a: Seq<u8>, b: Seq<u8>, k: int) -> bool {
    &&& 0 <= k <= a.len()
    &&& k <= b.len()
    &&& agree_before(a, b, k)
    &&& ((k == a.len() && k < b.len()) || (k < a.len() && k < b.len() && a[k] < b[k]))
}

/// `a` sorts strictly before `b` in lexicographic byte order.
pub open spec fn bytes_lt(a: Seq<u8>, b: Seq<u8>) -> bool {
    exists|k: int| #[trigger] diverge_at(a, b, k)
}

proof fn lemma_diverge_same_point(a: Seq<u8>, b: Seq<u8>, c: Seq<u8>, k1: int, k2: int)
    requires
        diverge_at(a, b, k1),
        diverge_at(b, c, k2),
    ensures
        diverge_at(a, c, if k1 <= k2 { k1 } else { k2 }),
{
    if k1 < k2 {
        assert(b[k1] == c[k1]);
    } else if k2 < k1 {
        assert(a[k2] == b[k2]);
    }
}

/// No sequence sorts before itself.
pub proof fn lemma_bytes_lt_irreflexive(a: Seq<u8>)
    ensures
        !bytes_lt(a, a),
{
}

/// Lexicographic byte order is transitive.
pub proof fn lemma_bytes_lt_transitive(a: Seq<u8>, b: Seq<u8>, c: Seq<u8>)
    requires
        bytes_lt(a, b),
        bytes_lt(b, c),
    ensures
        bytes_lt(a, c),
{
    let k1 = choose|k: int| diverge_at(a, b, k);
    let k2 = choose|k: int| diverge_at(b, c, k);
    lemma_diverge_same_point(a, b, c, k1, k2);
}

/// Lexicographic byte order is asymmetric.
pub proof fn lemma_bytes_lt_asymmetric(a: Seq<u8>, b: Seq<u8>)
    requires
        bytes_lt(a, b),
    ensures
        !bytes_lt(b, a),
{
    if bytes_lt(b, a) {
        lemma_bytes_lt_transitive(a, b, a);
    }
}

proof fn lemma_diverge_shift(a: Seq<u8>, b: Seq<u8>, k: int)
    requires
        a.len() > 0,
        b.len() > 0,
        a[0] == b[0],
        diverge_at(a.drop_first(), b.drop_first(), k),
    ensures
        diverge_at(a, b, k + 1),
{
    assert forall|i: int| 0 <= i < k + 1 implies #[trigger] a[i] == b[i] by {
        if i > 0 {
            assert(a.drop_first()[i - 1] == b.drop_first()[i - 1]);
        }
    }
}

/// Two different sequences are ordered one way or the other.
pub proof fn lemma_bytes_lt_total(a: Seq<u8>, b: Seq<u8>)
    requires
        a != b,
    ensures
        bytes_lt(a, b) || bytes_lt(b, a),
    decreases a.len(),
{
    if a.len() == 0 {
        assert(b.len() > 0) by {
            if b.len() == 0 {
                assert(a =~= b);
            }
        }
        assert(diverge_at(a, b, 0));
    } else if b.len() == 0 {
        assert(diverge_at(b, a, 0));
    } else if a[0] < b[0] {
        assert(diverge_at(a, b, 0));
    } else if b[0] < a[0] {
        assert(diverge_at(b, a, 0));
    } else {
        assert(a.drop_first() != b.drop_first()) by {
            if a.drop_first() == b.drop_first() {
                assert(a =~= seq![a[0]] + a.drop_first());
                assert(b =~= seq![b[0]] + b.drop_first());
            }
        }
        lemma_bytes_lt_total(a.drop_first(), b.drop_first());
        if bytes_lt(a.drop_first(), b.drop_first()) {
            let k = choose|k: int| diverge_at(a.drop_first(), b.drop_first(), k);
            lemma_diverge_shift(a, b, k);
        } else {
            let k = choose|k: int| diverge_at(b.drop_first(), a.drop_first(), k);
            lemma_diverge_shift(b, a, k);
        }
    }
}

/// Sorting at or below is transitive: if `b` is not below `a` and `c` is
/// not below `b`, then `c` is not below `a`.
pub proof fn lemma_bytes_le_transitive(a: Seq<u8>, b: Seq<u8>, c: Seq<u8>)
    requires
        !bytes_lt(b, a),
        !bytes_lt(c, b),
    ensures
        !bytes_lt(c, a),
{
    if a != b && b != c {
        lemma_bytes_lt_total(a, b);
        lemma_bytes_lt_total(b, c);
        lemma_bytes_lt_transitive(a, b, c);
        lemma_bytes_lt_asymmetric(a, c);
    }
}

/// Compares two byte strings in lexicographic order.
pub fn bytes_less(a: &[u8], b: &[u8]) -> (r: bool)
    ensures
        r == bytes_lt(a@, b@),
{
    let mut i: usize = 0;
    while i < a.len() && i < b.len()
        invariant
            i <= a@.len(),
            i <= b@.len(),
            agree_before(a@, b@, i as int),
        decreases a@.len() - i,
    {
        if a[i] != b[i] {
            let r = a[i] < b[i];
            proof {
                if r {
                    assert(diverge_at(a@, b@, i as int));
                } else {
                    assert(diverge_at(b@, a@, i as int));
                    lemma_bytes_lt_asymmetric(b@, a@);
                }
            }
            return r;
        }
        i = i + 1;
    }
    let r = a.len() < b.len();
    proof {
        if r {
            assert(diverge_at(a@, b@, i as int));
        } else if b@.len() < a@.len() {
            assert(diverge_at(b@, a@, i as int));
            lemma_bytes_lt_asymmetric(b@, a@);
        } else {
            assert(a@ =~= b@);
        }
    }
    r
}

/// Tells whether two byte strings are equal.
pub fn bytes_equal(a: &[u8], b: &[u8]) -> (r: bool)
    ensures
        r == (a@ == b@),
{
    if a.len() != b.len() {
        return false;
    }
    let mut i: usize = 0;
    while i < a.len()
        invariant
            a@.len() == b@.len(),
            i <= a@.len(),
            agree_before(a@, b@, i as int),
        decreases a@.len() - i,
    {
        if a[i] != b[i] {
            return false;
        }
        i = i + 1;
    }
    assert(a@ =~= b@);
    true
}

} // verus!

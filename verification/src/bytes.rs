//! Byte strings: equality, copying and the lexicographic order.

use vstd::prelude::*;

verus! {

/// `a` sorts strictly before `b` in lexicographic byte order: at the first
/// index where they differ `a` holds the smaller byte, or `a` is a proper
/// prefix of `b`.
pub open spec fn bytes_lt(a: Seq<u8>, b: Seq<u8>) -> bool {
    exists|i: int| #[trigger] lt_at(a, b, i)
}

/// `a` and `b` agree before index `i`, and `i` is where `a` sorts first.
pub open spec fn lt_at(a: Seq<u8>, b: Seq<u8>, i: int) -> bool {
    &&& 0 <= i <= a.len()
    &&& i <= b.len()
    &&& forall|j: int| 0 <= j < i ==> a[j] == b[j]
    &&& (i == a.len() && i < b.len()) || (i < a.len() && i < b.len() && a[i] < b[i])
}

/// No byte string sorts before itself.
pub proof fn lemma_bytes_lt_irreflexive(a: Seq<u8>)
    ensures
        !bytes_lt(a, a),
{
}

/// The lexicographic order is transitive.
pub proof fn lemma_bytes_lt_transitive(a: Seq<u8>, b: Seq<u8>, c: Seq<u8>)
    requires
        bytes_lt(a, b),
        bytes_lt(b, c),
    ensures
        bytes_lt(a, c),
{
    let i = choose|i: int| #[trigger] lt_at(a, b, i);
    let k = choose|k: int| #[trigger] lt_at(b, c, k);
    if i <= k {
        assert(lt_at(a, c, i));
    } else {
        assert(lt_at(a, c, k));
    }
}

/// The outcome of comparing two byte strings.
#[derive(Clone, Copy, Debug, PartialEq, Eq)]
pub enum ByteOrder {
    Less,
    Equal,
    Greater,
}

/// Compares `a` with `b` in lexicographic byte order.
pub fn compare_bytes(a: &[u8], b: &[u8]) -> (r: ByteOrder)
    ensures
        r == ByteOrder::Less <==> bytes_lt(a@, b@),
        r == ByteOrder::Equal <==> a@ == b@,
        r == ByteOrder::Greater <==> bytes_lt(b@, a@),
{
    let n = if a.len() < b.len() { a.len() } else { b.len() };
    let mut i: usize = 0;
    while i < n && a[i] == b[i]
        invariant
            n <= a.len(),
            n <= b.len(),
            n == a.len() || n == b.len(),
            i <= n,
            forall|j: int| 0 <= j < i ==> a@[j] == b@[j],
        decreases n - i,
    {
        i = i + 1;
    }
    proof {
        lemma_bytes_lt_irreflexive(a@);
        lemma_bytes_lt_irreflexive(b@);
    }
    if i < n {
        if a[i] < b[i] {
            assert(lt_at(a@, b@, i as int));
            assert(!bytes_lt(b@, a@)) by {
                if bytes_lt(b@, a@) {
                    lemma_bytes_lt_transitive(a@, b@, a@);
                }
            }
            assert(a@ != b@) by {
                if a@ == b@ {}
            }
            ByteOrder::Less
        } else {
            assert(lt_at(b@, a@, i as int));
            assert(!bytes_lt(a@, b@)) by {
                if bytes_lt(a@, b@) {
                    lemma_bytes_lt_transitive(b@, a@, b@);
                }
            }
            assert(a@ != b@) by {
                if a@ == b@ {}
            }
            ByteOrder::Greater
        }
    } else if a.len() < b.len() {
        assert(lt_at(a@, b@, i as int));
        assert(!bytes_lt(b@, a@)) by {
            if bytes_lt(b@, a@) {
                lemma_bytes_lt_transitive(a@, b@, a@);
            }
        }
        ByteOrder::Less
    } else if b.len() < a.len() {
        assert(lt_at(b@, a@, i as int));
        assert(!bytes_lt(a@, b@)) by {
            if bytes_lt(a@, b@) {
                lemma_bytes_lt_transitive(b@, a@, b@);
            }
        }
        ByteOrder::Greater
    } else {
        assert(a@ =~= b@);
        ByteOrder::Equal
    }
}

/// Whether two byte strings hold the same bytes.
pub fn bytes_equal(a: &[u8], b: &[u8]) -> (r: bool)
    ensures
        r == (a@ == b@),
{
    if a.len() != b.len() {
        return false;
    }
    let mut i: usize = 0;
    while i < a.len()
        invariant
            a.len() == b.len(),
            i <= a.len(),
            forall|j: int| 0 <= j < i ==> a@[j] == b@[j],
        decreases a.len() - i,
    {
        if a[i] != b[i] {
            return false;
        }
        i = i + 1;
    }
    assert(a@ =~= b@);
    true
}

/// A fresh vector holding the same bytes as `a`.
pub fn copy_bytes(a: &[u8]) -> (r: Vec<u8>)
    ensures
        r@ == a@,
{
    let mut r: Vec<u8> = Vec::new();
    let mut i: usize = 0;
    while i < a.len()
        invariant
            i <= a.len(),
            r@ == a@.subrange(0, i as int),
        decreases a.len() - i,
    {
        r.push(a[i]);
        i = i + 1;
    }
    assert(r@ =~= a@);
    r
}

} // verus!

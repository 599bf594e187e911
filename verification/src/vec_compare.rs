//! Order-insensitive comparison of collections of byte vectors.

use vstd::prelude::*;

verus! {

use vstd::multiset::Multiset;
use vstd::seq_lib::group_to_multiset_ensures;

/// The byte sequences held by a sequence of byte vectors.
pub open spec fn byte_views(s: Seq<Vec<u8>>) -> Seq<Seq<u8>> {
    Seq::new(s.len(), |i: int| s[i]@)
}

/// Exact byte equality of two vectors.
fn vecs_equal(x: &Vec<u8>, y: &Vec<u8>) -> (r: bool)
    ensures
        r == (x@ == y@),
{
    if x.len() != y.len() {
        return false;
    }
    let n = x.len();
    let mut i: usize = 0;
    while i < n
        invariant
            i <= n,
            n == x@.len() == y@.len(),
            forall|j: int| 0 <= j < i ==> x@[j] == y@[j],
        decreases n - i,
    {
        if x[i] != y[i] {
            return false;
        }
        i += 1;
    }
    proof {
        assert(x@ =~= y@);
    }
    true
}

/// Removing one copy of a value both multisets hold preserves whether the
/// two are equal.
proof fn lemma_multiset_remove_iff<T>(m1: Multiset<T>, m2: Multiset<T>, x: T)
    requires
        m1.count(x) > 0,
        m2.count(x) > 0,
    ensures
        (m1 == m2) <==> (m1.remove(x) == m2.remove(x)),
{
    broadcast use vstd::multiset::group_multiset_axioms;

    if m1.remove(x) == m2.remove(x) {
        assert forall|y: T| m1.count(y) == m2.count(y) by {
            assert(m1.remove(x).count(y) == m2.remove(x).count(y));
            if y == x {
                assert(Multiset::singleton(x).count(x) == 1);
            } else {
                assert(Multiset::singleton(x).count(y) == 0);
            }
        }
        assert(m1 =~= m2);
    }
}

/// Whether `a` and `b` hold the same byte vectors as multisets: equal up to
/// reordering, with multiplicity. Checks the ordered case first, then
/// matches and removes element by element.
#[verifier::loop_isolation(false)]
pub fn compare_unordered_byte_vecs(a: &[Vec<u8>], b: Vec<Vec<u8>>) -> (r: bool)
    ensures
        r == (byte_views(a@).to_multiset() == byte_views(b@).to_multiset()),
{
    broadcast use group_to_multiset_ensures;
    // Quick check
    if a.len() != b.len() {
        proof {
            assert(byte_views(a@).to_multiset().len() != byte_views(b@).to_multiset().len());
        }
        return false;
    }
    let n = a.len();
    // check if they are the same ordered
    let mut same_ordered = true;
    let mut i: usize = 0;
    while i < n
        invariant
            i <= n,
            same_ordered ==> forall|j: int| 0 <= j < i ==> a@[j]@ == b@[j]@,
        decreases n - i,
    {
        if !vecs_equal(&a[i], &b[i]) {
            same_ordered = false;
        }
        i += 1;
    }
    if same_ordered {
        proof {
            assert(byte_views(a@) =~= byte_views(b@));
        }
        return true;
    }
    // Now check if they are out of order: match and remove one element of
    // `b` for each element of `a`.
    let mut rest = b;
    let ghost b0_ms = byte_views(rest@).to_multiset();
    proof {
        assert(byte_views(a@).subrange(0, n as int) =~= byte_views(a@));
    }
    let mut i: usize = 0;
    while i < n
        invariant
            i <= n,
            rest@.len() == n - i,
            (byte_views(a@).to_multiset() == b0_ms) <==> (byte_views(a@).subrange(
                i as int,
                n as int,
            ).to_multiset() == byte_views(rest@).to_multiset()),
        decreases n - i,
    {
        let ghost x = a@[i as int]@;
        let ghost suffix = byte_views(a@).subrange(i as int, n as int);
        let ghost rest_views = byte_views(rest@);
        // find a matching element of `rest`
        let m = rest.len();
        let mut j: usize = 0;
        let mut found = false;
        while j < m && !found
            invariant
                j <= m,
                found ==> j < m && rest@[j as int]@ == x,
                !found ==> forall|k: int| 0 <= k < j ==> rest@[k]@ != x,
            decreases m - j, (if found { 0int } else { 1int }),
        {
            if vecs_equal(&a[i], &rest[j]) {
                found = true;
            } else {
                j += 1;
            }
        }
        if !found {
            proof {
                // the element stands in the left suffix but not in `rest`
                assert(suffix[0] == x);
                assert(suffix.contains(x));
                assert forall|k: int| 0 <= k < rest_views.len() implies rest_views[k] != x by {
                    assert(rest@[k]@ != x);
                }
                assert(!rest_views.contains(x));
                assert(suffix.to_multiset().count(x) > 0);
                assert(rest_views.to_multiset().count(x) == 0);
                assert(suffix.to_multiset() != rest_views.to_multiset());
            }
            return false;
        }
        let _ = rest.remove(j);
        i += 1;
        proof {
            assert(rest_views[j as int] == x);
            assert(rest_views.contains(x));
            assert(rest_views.to_multiset().count(x) > 0);
            assert(byte_views(rest@) =~= rest_views.remove(j as int));
            assert(byte_views(rest@).to_multiset() =~= rest_views.to_multiset().remove(x));
            let suffix2 = byte_views(a@).subrange(i as int, n as int);
            assert(suffix2 =~= suffix.remove(0));
            assert(suffix2.to_multiset() =~= suffix.to_multiset().remove(x));
            assert(suffix.to_multiset().count(x) > 0);
            lemma_multiset_remove_iff(suffix.to_multiset(), rest_views.to_multiset(), x);
        }
    }
    proof {
        assert(byte_views(a@).subrange(n as int, n as int) =~= Seq::<Seq<u8>>::empty());
        assert(byte_views(rest@) =~= Seq::<Seq<u8>>::empty());
    }
    true
}

} // verus!

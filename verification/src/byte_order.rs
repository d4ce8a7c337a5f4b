//! The order of byte strings that Rust's slice comparison uses, and sorting
//! by it.
use vstd::prelude::*;

verus! {

/// Lexicographic order on byte strings; a proper prefix comes first.
pub open spec fn bytes_lt(a: Seq<u8>, b: Seq<u8>) -> bool
    decreases a.len(),
{
    if b.len() == 0 {
        false
    } else if a.len() == 0 {
        true
    } else if a[0] < b[0] {
        true
    } else if a[0] == b[0] {
        bytes_lt(a.drop_first(), b.drop_first())
    } else {
        false
    }
}

pub proof fn lemma_bytes_lt_irreflexive(a: Seq<u8>)
    ensures
        !bytes_lt(a, a),
    decreases a.len(),
{
    if a.len() > 0 {
        lemma_bytes_lt_irreflexive(a.drop_first());
    }
}

pub proof fn lemma_bytes_lt_transitive(a: Seq<u8>, b: Seq<u8>, c: Seq<u8>)
    requires
        bytes_lt(a, b),
        bytes_lt(b, c),
    ensures
        bytes_lt(a, c),
    decreases a.len(),
{
    if a.len() > 0 && a[0] == b[0] && b[0] == c[0] {
        lemma_bytes_lt_transitive(a.drop_first(), b.drop_first(), c.drop_first());
    }
}

pub proof fn lemma_bytes_lt_total(a: Seq<u8>, b: Seq<u8>)
    ensures
        a == b || bytes_lt(a, b) || bytes_lt(b, a),
    decreases a.len(),
{
    if a.len() == 0 || b.len() == 0 {
        if a.len() == 0 && b.len() == 0 {
            assert(a =~= b);
        }
    } else if a[0] == b[0] {
        lemma_bytes_lt_total(a.drop_first(), b.drop_first());
        if a.drop_first() == b.drop_first() {
            assert(a =~= seq![a[0]] + a.drop_first());
            assert(b =~= seq![b[0]] + b.drop_first());
        }
    }
}

/// Whether `a` comes before `b`.
pub fn bytes_less(a: &[u8], b: &[u8]) -> (r: bool)
    ensures
        r == bytes_lt(a@, b@),
{
    let mut i: usize = 0;
    assert(a@.skip(0) =~= a@);
    assert(b@.skip(0) =~= b@);
    while i < a.len() && i < b.len()
        invariant
            i <= a@.len(),
            i <= b@.len(),
            bytes_lt(a@, b@) == bytes_lt(a@.skip(i as int), b@.skip(i as int)),
        decreases a@.len() - i,
    {
        assert(a@.skip(i as int).drop_first() =~= a@.skip(i + 1));
        assert(b@.skip(i as int).drop_first() =~= b@.skip(i + 1));
        if a[i] < b[i] {
            return true;
        }
        if a[i] > b[i] {
            return false;
        }
        i = i + 1;
    }
    i < b.len()
}

/// Whether no element is followed by one that comes before it.
pub open spec fn sorted_bytes(s: Seq<Seq<u8>>) -> bool {
    forall|i: int, j: int| 0 <= i < j < s.len() ==> !bytes_lt(#[trigger] s[j], #[trigger] s[i])
}

/// The views of 32-byte digests.
pub open spec fn digests_view(v: Seq<[u8; 32]>) -> Seq<Seq<u8>> {
    v.map_values(|d: [u8; 32]| d@)
}

/// The digests sorted in ascending byte order, as `sort_unstable` leaves them.
pub fn sort_digests(v: Vec<[u8; 32]>) -> (out: Vec<[u8; 32]>)
    ensures
        sorted_bytes(digests_view(out@)),
        digests_view(out@).to_multiset() == digests_view(v@).to_multiset(),
{
    let mut out: Vec<[u8; 32]> = Vec::new();
    let mut k: usize = 0;
    proof {
        assert(digests_view(out@) =~= Seq::<Seq<u8>>::empty());
        assert(digests_view(v@.take(0)) =~= Seq::<Seq<u8>>::empty());
    }
    while k < v.len()
        invariant
            k <= v@.len(),
            sorted_bytes(digests_view(out@)),
            digests_view(out@).to_multiset() == digests_view(v@.take(k as int)).to_multiset(),
        decreases v@.len() - k,
    {
        let x = v[k];
        let ghost s = digests_view(out@);
        let mut p: usize = 0;
        while p < out.len() && !bytes_less(x.as_slice(), out[p].as_slice())
            invariant
                p <= out@.len(),
                s == digests_view(out@),
                forall|i: int| 0 <= i < p ==> !bytes_lt(x@, #[trigger] s[i]),
            decreases out@.len() - p,
        {
            p = p + 1;
        }
        out.insert(p, x);
        proof {
            let t = digests_view(out@);
            assert(t =~= s.insert(p as int, x@));
            assert forall|i: int, j: int| 0 <= i < j < t.len() implies !bytes_lt(
                #[trigger] t[j],
                #[trigger] t[i],
            ) by {
                if i < p && j == p {
                } else if i == p && j > p {
                    if bytes_lt(t[j], x@) {
                        if p < s.len() {
                            assert(bytes_lt(x@, s[p as int]));
                            lemma_bytes_lt_transitive(t[j], x@, s[p as int]);
                            if j - 1 > p {
                                assert(!bytes_lt(s[j - 1], s[p as int]));
                            } else {
                                lemma_bytes_lt_irreflexive(s[p as int]);
                            }
                        }
                    }
                } else if i < p && j > p {
                    assert(!bytes_lt(s[j - 1], s[i]));
                } else if i > p {
                    assert(!bytes_lt(s[j - 1], s[i - 1]));
                } else {
                    assert(!bytes_lt(s[j], s[i]));
                }
            }
            vstd::seq_lib::to_multiset_insert(s, p as int, x@);
            vstd::seq_lib::to_multiset_build(digests_view(v@.take(k as int)), x@);
            assert(digests_view(v@.take(k + 1)) =~= digests_view(v@.take(k as int)).push(x@));
        }
        k = k + 1;
    }
    assert(v@.take(v@.len() as int) =~= v@);
    out
}

/// Sorting decides the order completely: two sorted sequences with the same
/// elements (counted with multiplicity) are the same sequence.
pub proof fn lemma_sorted_unique(a: Seq<Seq<u8>>, b: Seq<Seq<u8>>)
    requires
        sorted_bytes(a),
        sorted_bytes(b),
        a.to_multiset() == b.to_multiset(),
    ensures
        a == b,
    decreases a.len(),
{
    broadcast use vstd::multiset::group_multiset_axioms;
    broadcast use vstd::seq_lib::group_to_multiset_ensures;

    a.to_multiset_ensures();
    b.to_multiset_ensures();
    if a.len() == 0 {
        if b.len() > 0 {
            assert(b.to_multiset().count(b[0]) > 0);
        }
        assert(a =~= b);
        return;
    }
    if b.len() == 0 {
        assert(a.to_multiset().count(a[0]) > 0);
        return;
    }
    let x = a[0];
    let y = b[0];
    assert(b.to_multiset().count(x) > 0);
    assert(b.contains(x));
    let k = choose|k: int| 0 <= k < b.len() && b[k] == x;
    assert(!bytes_lt(b[k], b[0])) by {
        if k > 0 {
        } else {
            lemma_bytes_lt_irreflexive(b[0]);
        }
    }
    assert(a.to_multiset().count(y) > 0);
    assert(a.contains(y));
    let j = choose|j: int| 0 <= j < a.len() && a[j] == y;
    assert(!bytes_lt(a[j], a[0])) by {
        if j > 0 {
        } else {
            lemma_bytes_lt_irreflexive(a[0]);
        }
    }
    lemma_bytes_lt_total(x, y);
    assert(x == y);
    let a1 = a.drop_first();
    let b1 = b.drop_first();
    assert(a =~= seq![x] + a1);
    assert(b =~= seq![x] + b1);
    vstd::seq_lib::lemma_multiset_commutative(seq![x], a1);
    vstd::seq_lib::lemma_multiset_commutative(seq![x], b1);
    assert(a1.to_multiset() =~= b1.to_multiset()) by {
        assert forall|v: Seq<u8>| a1.to_multiset().count(v) == b1.to_multiset().count(v) by {
            assert(a.to_multiset() == (seq![x] + a1).to_multiset());
            assert(b.to_multiset() == (seq![x] + b1).to_multiset());
            assert((seq![x] + a1).to_multiset().count(v) == seq![x].to_multiset().count(v)
                + a1.to_multiset().count(v));
            assert((seq![x] + b1).to_multiset().count(v) == seq![x].to_multiset().count(v)
                + b1.to_multiset().count(v));
            assert(a.to_multiset().count(v) == b.to_multiset().count(v));
        }
    }
    lemma_sorted_unique(a1, b1);
}

} // verus!

//! Set-with-identity-key semantics over sequences: membership is decided by
//! a derived key, and inserting an element whose key is already present
//! replaces the old element. This is the model behind the collection's three
//! entity sets and their merge.
use vstd::prelude::*;

verus! {

/// Whether some element of `s` has key `k` under the projection `kf`.
pub open spec fn has_key<A, K>(s: Seq<A>, kf: spec_fn(A) -> K, k: K) -> bool {
    exists|i: int| 0 <= i < s.len() && kf(#[trigger] s[i]) == k
}

/// The first index of `s` whose element has key `k`; meaningful only when
/// `has_key(s, kf, k)` holds.
pub open spec fn key_index<A, K>(s: Seq<A>, kf: spec_fn(A) -> K, k: K) -> int
    decreases s.len(),
{
    if s.len() == 0 {
        0
    } else if kf(s[0]) == k {
        0
    } else {
        1 + key_index(s.drop_first(), kf, k)
    }
}

/// The last index of `s` whose element has key `k`; meaningful only when
/// `has_key(s, kf, k)` holds.
pub open spec fn last_key_index<A, K>(s: Seq<A>, kf: spec_fn(A) -> K, k: K) -> int
    decreases s.len(),
{
    if s.len() == 0 {
        0
    } else if kf(s.last()) == k {
        s.len() - 1
    } else {
        last_key_index(s.drop_last(), kf, k)
    }
}

/// No two elements of `s` share a key: the well-formedness of an entity set.
pub open spec fn unique_keys<A, K>(s: Seq<A>, kf: spec_fn(A) -> K) -> bool {
    forall|i: int, j: int| 0 <= i < j < s.len() ==> kf(#[trigger] s[i]) != kf(#[trigger] s[j])
}

/// One merge step: `a` replaces the element that shares its key, or is
/// appended when no element does.
pub open spec fn replace_one<A, K>(s: Seq<A>, kf: spec_fn(A) -> K, a: A) -> Seq<A> {
    if has_key(s, kf, kf(a)) {
        s.update(key_index(s, kf, kf(a)), a)
    } else {
        s.push(a)
    }
}

/// Merging a whole batch, in order: each element replaces by key or is
/// appended. The merger never removes an element.
pub open spec fn merge_seq<A, K>(s: Seq<A>, kf: spec_fn(A) -> K, b: Seq<A>) -> Seq<A>
    decreases b.len(),
{
    if b.len() == 0 {
        s
    } else {
        replace_one(merge_seq(s, kf, b.drop_last()), kf, b.last())
    }
}

/// When `s` has an element with key `k`, `key_index` points at the first one.
pub proof fn lemma_key_index<A, K>(s: Seq<A>, kf: spec_fn(A) -> K, k: K)
    requires
        has_key(s, kf, k),
    ensures
        0 <= key_index(s, kf, k) < s.len(),
        kf(s[key_index(s, kf, k)]) == k,
        forall|j: int| 0 <= j < key_index(s, kf, k) ==> kf(#[trigger] s[j]) != k,
    decreases s.len(),
{
    if s.len() > 0 && kf(s[0]) != k {
        assert(has_key(s.drop_first(), kf, k)) by {
            let i = choose|i: int| 0 <= i < s.len() && kf(s[i]) == k;
            assert(kf(s.drop_first()[i - 1]) == k);
        }
        lemma_key_index(s.drop_first(), kf, k);
        assert forall|j: int| 0 <= j < key_index(s, kf, k) implies kf(#[trigger] s[j]) != k by {
            if j > 0 {
                assert(s.drop_first()[j - 1] == s[j]);
            }
        }
    }
}

/// When `s` has an element with key `k`, `last_key_index` points at the last
/// one.
pub proof fn lemma_last_key_index<A, K>(s: Seq<A>, kf: spec_fn(A) -> K, k: K)
    requires
        has_key(s, kf, k),
    ensures
        0 <= last_key_index(s, kf, k) < s.len(),
        kf(s[last_key_index(s, kf, k)]) == k,
        forall|j: int| last_key_index(s, kf, k) < j < s.len() ==> kf(#[trigger] s[j]) != k,
    decreases s.len(),
{
    if s.len() > 0 && kf(s.last()) != k {
        assert(has_key(s.drop_last(), kf, k)) by {
            let i = choose|i: int| 0 <= i < s.len() && kf(s[i]) == k;
            assert(kf(s.drop_last()[i]) == k);
        }
        lemma_last_key_index(s.drop_last(), kf, k);
        assert(s.drop_last()[last_key_index(s.drop_last(), kf, k)] == s[last_key_index(s, kf, k)]);
        assert forall|j: int| last_key_index(s, kf, k) < j < s.len() implies kf(#[trigger] s[j])
            != k by {
            if j < s.len() - 1 {
                assert(s.drop_last()[j] == s[j]);
            }
        }
    }
}

/// One merge step keeps the keys of a set unique.
pub proof fn lemma_replace_one_unique<A, K>(s: Seq<A>, kf: spec_fn(A) -> K, a: A)
    requires
        unique_keys(s, kf),
    ensures
        unique_keys(replace_one(s, kf, a), kf),
{
    if has_key(s, kf, kf(a)) {
        lemma_key_index(s, kf, kf(a));
    } else {
        let r = s.push(a);
        assert forall|i: int, j: int| 0 <= i < j < r.len() implies kf(#[trigger] r[i]) != kf(
            #[trigger] r[j],
        ) by {
            if j == s.len() {
                assert(!(kf(s[i]) == kf(a)));
            }
        }
    }
}

/// What one merge step holds: the new element, and every old element whose
/// key differs from the new one.
pub proof fn lemma_replace_one_membership<A, K>(s: Seq<A>, kf: spec_fn(A) -> K, a: A, x: A)
    requires
        unique_keys(s, kf),
    ensures
        replace_one(s, kf, a).contains(x) <==> (x == a || (s.contains(x) && kf(x) != kf(a))),
{
    let r = replace_one(s, kf, a);
    if has_key(s, kf, kf(a)) {
        let ki = key_index(s, kf, kf(a));
        lemma_key_index(s, kf, kf(a));
        if r.contains(x) {
            let i = choose|i: int| 0 <= i < r.len() && r[i] == x;
            if i != ki {
                assert(s[i] == x);
            }
        }
        if x == a {
            assert(r[ki] == x);
        } else if s.contains(x) && kf(x) != kf(a) {
            let i = choose|i: int| 0 <= i < s.len() && s[i] == x;
            assert(r[i] == x);
        }
    } else {
        if r.contains(x) {
            let i = choose|i: int| 0 <= i < r.len() && r[i] == x;
            if i < s.len() {
                assert(s[i] == x);
                assert(!(kf(s[i]) == kf(a)));
            }
        }
        if x == a {
            assert(r[s.len() as int] == x);
        } else if s.contains(x) && kf(x) != kf(a) {
            let i = choose|i: int| 0 <= i < s.len() && s[i] == x;
            assert(r[i] == x);
        }
    }
}

/// What a merged set holds: for a key the batch carries, exactly the batch's
/// last element with that key; for every other key, what the old set held.
pub proof fn lemma_merge_membership<A, K>(s: Seq<A>, kf: spec_fn(A) -> K, b: Seq<A>)
    requires
        unique_keys(s, kf),
    ensures
        unique_keys(merge_seq(s, kf, b), kf),
        forall|x: A|
            #![trigger merge_seq(s, kf, b).contains(x)]
            merge_seq(s, kf, b).contains(x) <==> (if has_key(b, kf, kf(x)) {
                x == b[last_key_index(b, kf, kf(x))]
            } else {
                s.contains(x)
            }),
    decreases b.len(),
{
    if b.len() == 0 {
    } else {
        let b0 = b.drop_last();
        let a = b.last();
        let m0 = merge_seq(s, kf, b0);
        lemma_merge_membership(s, kf, b0);
        lemma_replace_one_unique(m0, kf, a);
        let m = merge_seq(s, kf, b);
        assert forall|x: A|
            m.contains(x) <==> (if has_key(b, kf, kf(x)) {
                x == b[last_key_index(b, kf, kf(x))]
            } else {
                s.contains(x)
            }) by {
            let k = kf(x);
            lemma_replace_one_membership(m0, kf, a, x);
            assert(m == replace_one(m0, kf, a));
            assert(m0.contains(x) <==> (if has_key(b0, kf, kf(x)) {
                x == b0[last_key_index(b0, kf, kf(x))]
            } else {
                s.contains(x)
            }));
            if k == kf(a) {
                assert(kf(b[b.len() - 1]) == k);
                assert(has_key(b, kf, k));
                assert(last_key_index(b, kf, k) == b.len() - 1);
            } else {
                assert(has_key(b0, kf, k) ==> has_key(b, kf, k)) by {
                    if has_key(b0, kf, k) {
                        let i = choose|i: int| 0 <= i < b0.len() && kf(b0[i]) == k;
                        assert(kf(b[i]) == k);
                    }
                }
                assert(has_key(b, kf, k) ==> has_key(b0, kf, k)) by {
                    if has_key(b, kf, k) {
                        let i = choose|i: int| 0 <= i < b.len() && kf(b[i]) == k;
                        assert(i < b.len() - 1);
                        assert(kf(b0[i]) == k);
                    }
                }
                if has_key(b, kf, k) {
                    assert(last_key_index(b, kf, k) == last_key_index(b0, kf, k));
                    lemma_last_key_index(b0, kf, k);
                    assert(b[last_key_index(b0, kf, k)] == b0[last_key_index(b0, kf, k)]);
                }
            }
        }
    }
}

/// Merging the same batch twice yields the same set as merging it once.
pub proof fn lemma_merge_seq_idempotent<A, K>(s: Seq<A>, kf: spec_fn(A) -> K, b: Seq<A>)
    requires
        unique_keys(s, kf),
    ensures
        forall|x: A|
            merge_seq(merge_seq(s, kf, b), kf, b).contains(x) <==> merge_seq(
                s,
                kf,
                b,
            ).contains(x),
{
    let m1 = merge_seq(s, kf, b);
    lemma_merge_membership(s, kf, b);
    lemma_merge_membership(m1, kf, b);
}

} // verus!

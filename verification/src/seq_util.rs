//! Display index lists: membership, removal and the facts about them.
use vstd::prelude::*;

verus! {

/// `s` with every occurrence of `x` removed, order kept.
pub open spec fn seq_without(s: Seq<i32>, x: i32) -> Seq<i32> {
    s.filter(|y: i32| y != x)
}

/// Whether `v` holds `x`.
pub fn vec_contains_i32(v: &Vec<i32>, x: i32) -> (r: bool)
    ensures
        r == v@.contains(x),
{
    let mut i: usize = 0;
    while i < v.len()
        invariant
            i <= v.len(),
            forall|j: int| 0 <= j < i ==> v@[j] != x,
        decreases v.len() - i,
    {
        if v[i] == x {
            assert(v@[i as int] == x);
            return true;
        }
        i = i + 1;
    }
    false
}

/// A copy of `v` without any occurrence of `x`, order kept.
pub fn vec_without_i32(v: &Vec<i32>, x: i32) -> (r: Vec<i32>)
    ensures
        r@ == seq_without(v@, x),
{
    let mut out: Vec<i32> = Vec::new();
    let mut i: usize = 0;
    while i < v.len()
        invariant
            i <= v.len(),
            out@ == seq_without(v@.take(i as int), x),
        decreases v.len() - i,
    {
        if v[i] != x {
            out.push(v[i]);
        }
        proof {
            reveal_with_fuel(Seq::filter, 1);
            assert(v@.take(i + 1).drop_last() =~= v@.take(i as int));
            assert(v@.take(i + 1).last() == v@[i as int]);
        }
        i = i + 1;
    }
    proof {
        assert(v@.take(v.len() as int) =~= v@);
    }
    out
}

/// Appending a new index keeps the indices distinct.
pub(crate) proof fn lemma_push_no_duplicates(s: Seq<i32>, x: i32)
    requires
        s.no_duplicates(),
        !s.contains(x),
    ensures
        s.push(x).no_duplicates(),
{
    assert forall|i: int, j: int| 0 <= i < s.push(x).len() && 0 <= j < s.push(x).len() && i != j
        implies s.push(x)[i] != s.push(x)[j] by {
        if i == s.len() {
            assert(s.contains(s[j]));
        } else if j == s.len() {
            assert(s.contains(s[i]));
        }
    }
}

/// Removing an index keeps the others distinct and adds none.
pub(crate) proof fn lemma_without_no_duplicates(s: Seq<i32>, x: i32)
    ensures
        s.no_duplicates() ==> seq_without(s, x).no_duplicates(),
        forall|y: i32| seq_without(s, x).contains(y) ==> s.contains(y),
    decreases s.len(),
{
    reveal_with_fuel(Seq::filter, 1);
    if s.len() > 0 {
        let t = s.drop_last();
        lemma_without_no_duplicates(t, x);
        assert(seq_without(s, x) == if s.last() != x {
            seq_without(t, x).push(s.last())
        } else {
            seq_without(t, x)
        });
        assert forall|y: i32| t.contains(y) implies s.contains(y) by {
            let k = choose|k: int| 0 <= k < t.len() && t[k] == y;
            assert(s[k] == y);
        }
        if s.no_duplicates() {
            assert(t.no_duplicates());
            if s.last() != x {
                assert(!t.contains(s.last())) by {
                    if t.contains(s.last()) {
                        let k = choose|k: int| 0 <= k < t.len() && t[k] == s.last();
                        assert(s[k] == s[s.len() - 1]);
                    }
                }
                lemma_push_no_duplicates(seq_without(t, x), s.last());
            }
        }
        assert forall|y: i32| seq_without(s, x).contains(y) implies s.contains(y) by {
            if seq_without(t, x).contains(y) {
                assert(t.contains(y));
            } else {
                assert(s[s.len() - 1] == y);
            }
        }
    }
}

/// Removing an index that is absent changes nothing.
pub(crate) proof fn lemma_seq_without_absent(s: Seq<i32>, x: i32)
    requires
        !s.contains(x),
    ensures
        seq_without(s, x) == s,
    decreases s.len(),
{
    reveal_with_fuel(Seq::filter, 1);
    if s.len() > 0 {
        let t = s.drop_last();
        assert(!t.contains(x)) by {
            if t.contains(x) {
                let k = choose|k: int| 0 <= k < t.len() && t[k] == x;
                assert(s[k] == x);
            }
        }
        lemma_seq_without_absent(t, x);
        assert(s.last() != x) by {
            assert(s[s.len() - 1] == s.last());
        }
        assert(t.push(s.last()) =~= s);
    }
}

/// After removing `x`, `x` is absent and every other index is kept.
pub(crate) proof fn lemma_seq_without_facts(s: Seq<i32>, x: i32)
    ensures
        !seq_without(s, x).contains(x),
        forall|y: i32| y != x ==> (seq_without(s, x).contains(y) <==> s.contains(y)),
    decreases s.len(),
{
    reveal_with_fuel(Seq::filter, 1);
    if s.len() > 0 {
        let t = s.drop_last();
        lemma_seq_without_facts(t, x);
        assert forall|y: i32| y != x implies (seq_without(s, x).contains(y) <==> s.contains(y)) by {
            if s.contains(y) {
                let k = choose|k: int| 0 <= k < s.len() && s[k] == y;
                if k < t.len() {
                    assert(t[k] == y);
                    assert(seq_without(t, x).contains(y));
                    let m = choose|m: int| 0 <= m < seq_without(t, x).len() && seq_without(t, x)[m] == y;
                    if s.last() != x {
                        assert(seq_without(s, x)[m] == y);
                    }
                } else {
                    assert(seq_without(s, x).last() == y);
                }
            }
            if seq_without(s, x).contains(y) {
                let m = choose|m: int| 0 <= m < seq_without(s, x).len() && seq_without(s, x)[m] == y;
                if s.last() != x && m == seq_without(s, x).len() - 1 {
                    assert(s[s.len() - 1] == y);
                } else {
                    assert(seq_without(t, x)[m] == y);
                    assert(t.contains(y));
                    let k = choose|k: int| 0 <= k < t.len() && t[k] == y;
                    assert(s[k] == y);
                }
            }
        }
        if seq_without(s, x).contains(x) {
            let m = choose|m: int| 0 <= m < seq_without(s, x).len() && seq_without(s, x)[m] == x;
            if s.last() != x && m == seq_without(s, x).len() - 1 {
            } else {
                assert(seq_without(t, x)[m] == x);
            }
        }
    }
}

} // verus!

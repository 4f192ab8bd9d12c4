use vstd::prelude::*;
use crate::text::{
    key_less, key_less_exec, lemma_key_less_total, lemma_key_less_transitive, strictly_ascending,
};

verus! {

/// Adds `k` to a strictly ascending list of keys: the list stays strictly
/// ascending and holds the keys it held before, and `k`.
pub fn insert_key(keys: &mut Vec<String>, k: String)
    requires
        strictly_ascending(old(keys).deep_view()),
    ensures
        strictly_ascending(final(keys).deep_view()),
        final(keys).deep_view().to_set() == old(keys).deep_view().to_set().insert(k@),
{
    let ghost before = keys.deep_view();
    let mut p: usize = 0;
    while p < keys.len() && key_less_exec(keys[p].as_str(), k.as_str())
        invariant
            p <= keys.len(),
            keys.deep_view() == before,
            forall|i: int| 0 <= i < p ==> key_less(#[trigger] before[i], k@),
        decreases keys.len() - p,
    {
        p = p + 1;
    }
    if p < keys.len() && keys[p] == k {
        assert(before[p as int] == k@);
        assert(before.to_set().insert(k@) =~= before.to_set());
        return;
    }
    let ghost kv = k@;
    if p < keys.len() {
        proof {
            lemma_key_less_total(before[p as int], kv);
        }
    }
    keys.insert(p, k);
    let ghost after = keys.deep_view();
    assert(after =~= before.subrange(0, p as int).push(kv) + before.subrange(p as int, before.len() as int));
    assert forall|i: int, j: int| 0 <= i < j < after.len() implies key_less(
        #[trigger] after[i],
        #[trigger] after[j],
    ) by {
        if j < p {
        } else if j == p {
        } else if i < p {
            assert(after[j] == before[j - 1]);
            assert(key_less(kv, before[p as int]));
            if j - 1 > p {
                lemma_key_less_transitive(kv, before[p as int], before[j - 1]);
            }
            lemma_key_less_transitive(before[i], kv, before[j - 1]);
        } else if i == p {
            assert(key_less(kv, before[p as int]));
            if j - 1 > p {
                lemma_key_less_transitive(kv, before[p as int], before[j - 1]);
            }
        } else {
            assert(after[i] == before[i - 1]);
            assert(after[j] == before[j - 1]);
        }
    }
    assert forall|x: Seq<char>| after.to_set().contains(x) <==> before.to_set().insert(
        kv,
    ).contains(x) by {
        if after.to_set().contains(x) {
            let i = choose|i: int| 0 <= i < after.len() && after[i] == x;
            if i < p {
                assert(before[i] == x);
            } else if i > p {
                assert(before[i - 1] == x);
            }
        }
        if before.to_set().contains(x) {
            let i = choose|i: int| 0 <= i < before.len() && before[i] == x;
            if i < p {
                assert(after[i] == x);
            } else {
                assert(after[i + 1] == x);
            }
        }
        if x == kv {
            assert(after[p as int] == x);
        }
    }
    assert(after.to_set() =~= before.to_set().insert(kv));
}

} // verus!

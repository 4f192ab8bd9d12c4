use vstd::prelude::*;
use crate::stream_state::{
    last_records, lemma_last_records_push, lists_keys_of, next_mode, Mode, StreamModel,
};
use crate::text::{
    key_less, lemma_key_less_irreflexive, lemma_key_less_transitive, strictly_ascending,
};

verus! {

/// A fresh state that accepts the records `rs`, in order, is well formed and
/// has accepted exactly `rs`.
pub proof fn lemma_fresh_state_after_lines(limit: nat, rs: Seq<Seq<char>>)
    requires
        limit > 0,
    ensures
        StreamModel::initial(limit).after_lines(rs).wf(),
        StreamModel::initial(limit).after_lines(rs).history == rs,
        StreamModel::initial(limit).after_lines(rs).limit == limit,
    decreases rs.len(),
{
    if rs.len() > 0 {
        lemma_fresh_state_after_lines(limit, rs.drop_last());
        let prev = StreamModel::initial(limit).after_lines(rs.drop_last());
        lemma_last_records_push(prev.history, rs.last(), limit);
        assert(rs.drop_last().push(rs.last()) =~= rs);
    } else {
        assert(rs =~= Seq::<Seq<char>>::empty());
        assert(last_records(rs, limit) =~= Seq::<Seq<char>>::empty());
    }
}

/// In every well-formed state, after `k` records were accepted by any mix of
/// calls, the buffer holds `min(k, limit)` records.
pub proof fn lemma_buffer_bounded(s: StreamModel)
    requires
        s.wf(),
    ensures
        s.buffer.len() == if s.history.len() < s.limit {
            s.history.len()
        } else {
            s.limit
        },
{
}

/// In every well-formed state, once `k >= limit` records `r0 .. r(k-1)` were
/// accepted, the buffer is exactly `r(k-limit) .. r(k-1)`, oldest first.
pub proof fn lemma_fifo_eviction(s: StreamModel)
    requires
        s.wf(),
        s.history.len() >= s.limit,
    ensures
        s.buffer == s.history.subrange(s.history.len() - s.limit, s.history.len() as int),
{
    if s.history.len() == s.limit {
        assert(s.history.subrange(0, s.history.len() as int) == s.history.subrange(
            s.history.len() - s.limit,
            s.history.len() as int,
        ));
    }
}

/// In every well-formed state the line ordinal is the number of records accepted.
pub proof fn lemma_ordinal_counts_records(s: StreamModel)
    requires
        s.wf(),
    ensures
        s.line_count == s.history.len(),
{
}

/// From tail mode `'z'` leads to key selection, and a further `'z'` back to tail
/// mode; any other character keeps the mode.
pub proof fn lemma_mode_toggle(s: StreamModel, c: char)
    ensures
        s.mode == Mode::TailLog ==> s.after_key('z').mode == Mode::KeySelector,
        s.mode == Mode::TailLog ==> s.after_key('z').after_key('z').mode == Mode::TailLog,
        s.mode == Mode::KeySelector ==> s.after_key('z').mode == Mode::TailLog,
        c != 'z' ==> s.after_key(c).mode == s.mode,
        next_mode(next_mode(s.mode, 'z'), 'z') == s.mode,
{
}

proof fn lemma_ascending_head_unique(a: Seq<Seq<char>>)
    requires
        strictly_ascending(a),
        a.len() > 0,
    ensures
        !a.drop_first().contains(a[0]),
        a.drop_first().to_set() == a.to_set().remove(a[0]),
{
    if a.drop_first().contains(a[0]) {
        let i = choose|i: int| 0 <= i < a.drop_first().len() && a.drop_first()[i] == a[0];
        assert(key_less(a[0], a[i + 1]));
        lemma_key_less_irreflexive(a[0]);
    }
    assert forall|x: Seq<char>| a.drop_first().to_set().contains(x) <==> a.to_set().remove(
        a[0],
    ).contains(x) by {
        if a.to_set().contains(x) && x != a[0] {
            let i = choose|i: int| 0 <= i < a.len() && a[i] == x;
            assert(a.drop_first()[i - 1] == x);
        }
        if a.drop_first().to_set().contains(x) {
            let i = choose|i: int| 0 <= i < a.drop_first().len() && a.drop_first()[i] == x;
            assert(a[i + 1] == x);
        }
    }
    assert(a.drop_first().to_set() =~= a.to_set().remove(a[0]));
}

proof fn lemma_ascending_unique(a: Seq<Seq<char>>, b: Seq<Seq<char>>)
    requires
        strictly_ascending(a),
        strictly_ascending(b),
        a.to_set() == b.to_set(),
    ensures
        a == b,
    decreases a.len(),
{
    if a.len() == 0 {
        if b.len() > 0 {
            assert(b.to_set().contains(b[0]));
        }
        assert(a =~= b);
    } else {
        assert(a.to_set().contains(a[0]));
        assert(b.len() > 0);
        assert(b.to_set().contains(b[0]));
        let j = choose|j: int| 0 <= j < b.len() && b[j] == a[0];
        let i = choose|i: int| 0 <= i < a.len() && a[i] == b[0];
        if j > 0 {
            assert(key_less(b[0], b[j]));
            if i > 0 {
                assert(key_less(a[0], a[i]));
                lemma_key_less_transitive(a[0], a[i], a[0]);
            }
            lemma_key_less_irreflexive(a[0]);
        }
        lemma_ascending_head_unique(a);
        lemma_ascending_head_unique(b);
        lemma_ascending_unique(a.drop_first(), b.drop_first());
        assert(a =~= seq![a[0]] + a.drop_first());
        assert(b =~= seq![b[0]] + b.drop_first());
    }
}

/// The key list that the key selector shows is determined by the buffer: two
/// ascending lists of the buffer's keys are the same list.
pub proof fn lemma_key_list_unique(ks1: Seq<Seq<char>>, ks2: Seq<Seq<char>>, buffer: Seq<Seq<char>>)
    requires
        lists_keys_of(ks1, buffer),
        lists_keys_of(ks2, buffer),
    ensures
        ks1 == ks2,
{
    lemma_ascending_unique(ks1, ks2);
}

} // verus!

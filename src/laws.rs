use vstd::prelude::*;

use crate::detector::{accepted, fresh, rejection, run, step, valid, verdict, WindowState};
use crate::errors::ReplayError;
use crate::mask::shifted;

verus! {

/// Submitting one more number runs one more step.
proof fn lemma_run_take(s: WindowState, seqs: Seq<usize>, i: int)
    requires
        0 <= i < seqs.len(),
    ensures
        run(s, seqs.take(i + 1)) == step(run(s, seqs.take(i)), seqs[i]),
{
    assert(seqs.take(i + 1).drop_last() =~= seqs.take(i));
}

/// A step keeps the ceiling, the width and the invariant.
proof fn lemma_step_valid(s: WindowState, seq: usize)
    requires
        valid(s),
    ensures
        valid(step(s, seq)),
        step(s, seq).max_seq == s.max_seq,
        step(s, seq).window_size == s.window_size,
        s.latest_seq <= step(s, seq).latest_seq,
{
}

/// Along a strictly increasing run from a fresh state, the newest accepted
/// number is the last one submitted.
proof fn lemma_increasing_run(max_seq: usize, window_size: usize, seqs: Seq<usize>, i: int)
    requires
        window_size > 0,
        0 <= i <= seqs.len(),
        forall|a: int, b: int| 0 <= a < b < seqs.len() ==> seqs[a] < seqs[b],
        forall|a: int| 0 <= a < seqs.len() ==> seqs[a] <= max_seq,
    ensures
        run(fresh(max_seq, window_size), seqs.take(i)).max_seq == max_seq,
        run(fresh(max_seq, window_size), seqs.take(i)).window_size == window_size,
        valid(run(fresh(max_seq, window_size), seqs.take(i))),
        i == 0 ==> run(fresh(max_seq, window_size), seqs.take(i)) == fresh(max_seq, window_size),
        i > 0 ==> run(fresh(max_seq, window_size), seqs.take(i)).latest_seq == seqs[i - 1],
    decreases i,
{
    let s0 = fresh(max_seq, window_size);
    if i == 0 {
        assert(seqs.take(0) =~= Seq::<usize>::empty());
    } else {
        lemma_increasing_run(max_seq, window_size, seqs, i - 1);
        lemma_run_take(s0, seqs, i - 1);
        let prev = run(s0, seqs.take(i - 1));
        lemma_step_valid(prev, seqs[i - 1]);
        if i - 1 > 0 {
            assert(seqs[i - 2] < seqs[i - 1]);
        }
    }
}

/// Sequence numbers submitted in strictly increasing order to a fresh
/// detector with a non-empty window, none above the ceiling, are all
/// accepted and each is reported as the newest.
pub proof fn lemma_increasing_all_newest(max_seq: usize, window_size: usize, seqs: Seq<usize>)
    requires
        window_size > 0,
        forall|a: int, b: int| 0 <= a < b < seqs.len() ==> seqs[a] < seqs[b],
        forall|a: int| 0 <= a < seqs.len() ==> seqs[a] <= max_seq,
    ensures
        forall|i: int|
            0 <= i < seqs.len() ==> verdict(#[trigger] run(fresh(max_seq, window_size), seqs.take(i)), seqs[i])
                == Ok::<bool, ReplayError>(true),
{
    assert forall|i: int| 0 <= i < seqs.len() implies verdict(
        #[trigger] run(fresh(max_seq, window_size), seqs.take(i)),
        seqs[i],
    ) == Ok::<bool, ReplayError>(true) by {
        lemma_increasing_run(max_seq, window_size, seqs, i);
        if i > 0 {
            assert(seqs[i - 1] < seqs[i]);
        }
    }
}

/// What a run keeps of a number accepted before it: the number is never
/// above the newest, and while it is still inside the window it stays
/// recorded.
proof fn lemma_seen_kept(s: WindowState, seq: usize, between: Seq<usize>)
    requires
        valid(s),
        seq <= s.max_seq,
        seq <= s.latest_seq,
        s.latest_seq - seq < s.window_size ==> s.flags[s.latest_seq - seq],
    ensures
        valid(run(s, between)),
        run(s, between).max_seq == s.max_seq,
        run(s, between).window_size == s.window_size,
        seq <= run(s, between).latest_seq,
        run(s, between).latest_seq - seq < s.window_size ==> run(s, between).flags[run(
            s,
            between,
        ).latest_seq - seq],
    decreases between.len(),
{
    if between.len() > 0 {
        let x = between.last();
        lemma_seen_kept(s, seq, between.drop_last());
        let t = run(s, between.drop_last());
        lemma_step_valid(t, x);
        if rejection(t, x) is None && x > t.latest_seq {
            let d = x - t.latest_seq;
            let off = t.latest_seq - seq;
            let sh = shifted(t.flags, d);
            if off + d < s.window_size {
                assert(sh[off + d] == t.flags[off]);
            }
        }
    }
}

/// A number submitted again after being accepted is reported as a
/// duplicate, whatever was submitted in between, as long as it is still
/// inside the window behind the newest accepted number.
pub proof fn lemma_resubmit_duplicate(s: WindowState, seq: usize, between: Seq<usize>)
    requires
        valid(s),
        rejection(s, seq) is None,
        run(step(s, seq), between).latest_seq - seq < s.window_size,
    ensures
        verdict(run(step(s, seq), between), seq) == Err::<bool, ReplayError>(
            ReplayError::Duplicated(seq),
        ),
{
    let t = step(s, seq);
    assert(t == accepted(s, seq));
    if seq > s.latest_seq {
        assert(shifted(s.flags, seq - s.latest_seq).len() == s.flags.len());
    }
    lemma_step_valid(s, seq);
    lemma_seen_kept(t, seq, between);
}

} // verus!

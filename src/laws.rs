//! Properties of the queue that relate several operations.

use crate::model::Track;
use crate::queue::{
    insertion_point, lemma_inserted_order, lemma_without_marked_tracks, lemma_without_position, marks,
    renumbered, shifted, step_of, unmarked, QueueView,
};
use vstd::prelude::*;

verus! {

/// In a well-formed queue every track is played at exactly one step, and
/// the current position is the position played at the current step.
pub proof fn lemma_order_is_permutation(q: QueueView)
    requires
        q.wf(),
    ensures
        forall|k: usize| (k as int) < q.len() ==> #[trigger] q.order.contains(k),
        forall|o1: int, o2: int|
            0 <= o1 < q.order.len() && 0 <= o2 < q.order.len() && q.order[o1] == q.order[o2] ==> o1 == o2,
        forall|o: int| 0 <= o < q.order.len() ==> (#[trigger] q.order[o] as int) < q.len(),
        q.has_current() ==> q.current_position() == q.order[q.offset as int],
{
}

/// Turning shuffling on and then off again leaves the current track as it
/// was, whatever order the shuffle drew.
pub proof fn lemma_shuffle_toggle_keeps_current(before: QueueView, shuffled: QueueView)
    requires
        before.wf(),
        before.shuffled_on(shuffled),
    ensures
        shuffled.unshuffled().current_track() == before.current_track(),
{
    let after = shuffled.unshuffled();
    if shuffled.has_current() {
        let p = shuffled.current_position();
        assert(after.order[p as int] == p);
    }
}

/// Removing no positions changes nothing, in particular not the tracks or
/// the current track installed by a replacement just before.
pub proof fn lemma_remove_nothing(q: QueueView)
    requires
        q.wf(),
    ensures
        q.without_marked(marks(Seq::<u32>::empty(), q.len()), q.len()) == q,
        !marks(Seq::<u32>::empty(), q.len()).contains(true),
{
    let m = marks(Seq::<u32>::empty(), q.len());
    crate::queue::lemma_without_unmarked(q, m, q.len());
}

/// Appending tracks leaves the current track current.
pub proof fn lemma_append_keeps_current(q: QueueView, new: QueueView, tracks: Seq<Track>)
    requires
        q.wf(),
        new.wf(),
        q.append_rel(new, tracks),
    ensures
        q.has_current() ==> new.current_track() == q.current_track(),
{
    if q.has_current() {
        let c = q.offset as int;
        let e = q.extended_order(q.len(), q.len() + tracks.len());
        assert(e[c] == q.order[c]);
        assert(new.order[c] == e[c]);
        assert(new.tracks[q.order[c] as int] == q.tracks[q.order[c] as int]);
    }
}

/// Inserting tracks keeps every step with its track: a step before the
/// insertion step stays where it is, a later one moves on by the number of
/// tracks inserted.
pub proof fn lemma_insert_keeps_steps(q: QueueView, position: nat, tracks: Seq<Track>)
    requires
        q.wf(),
        q.len() + tracks.len() <= usize::MAX,
    ensures
        forall|i: int|
            0 <= i < q.len() ==> {
                let ins = q.inserted(position, tracks);
                let j = if i < q.insertion_step(position) {
                    i
                } else {
                    i + tracks.len()
                };
                ins.tracks[ins.order[j] as int] == q.tracks[#[trigger] q.order[i] as int]
            },
{
    let n = q.len();
    let m = tracks.len();
    let at = insertion_point(position, n);
    let qs = q.insertion_step(position);
    let ins = q.inserted(position, tracks);
    lemma_inserted_order(q.order, n, at, m, qs as int);
    assert forall|i: int| 0 <= i < n implies {
        let j = if i < qs { i } else { i + m };
        ins.tracks[ins.order[j] as int] == q.tracks[#[trigger] q.order[i] as int]
    } by {
        let j = if i < qs { i } else { i + m };
        let x = q.order[i];
        assert(ins.order[j] == shifted(x, at, m));
        if x >= at {
            assert(ins.tracks[x + m] == q.tracks[x as int]);
        } else {
            assert(ins.tracks[x as int] == q.tracks[x as int]);
        }
    }
}

/// Removing a track keeps every other step with its track; the steps after
/// the removed one move up by one.
pub proof fn lemma_remove_keeps_steps(q: QueueView, pos: nat)
    requires
        q.wf(),
        pos < q.len(),
    ensures
        forall|i: int|
            0 <= i < q.len() && i != step_of(q.order, pos) ==> {
                let r = q.without_position(pos);
                let j = if i < step_of(q.order, pos) {
                    i
                } else {
                    i - 1
                };
                r.tracks[r.order[j] as int] == q.tracks[#[trigger] q.order[i] as int]
            },
{
    lemma_without_position(q, pos);
    let o = step_of(q.order, pos);
    let r = q.without_position(pos);
    assert forall|i: int| 0 <= i < q.len() && i != o implies {
        let j = if i < o { i } else { i - 1 };
        r.tracks[r.order[j] as int] == q.tracks[#[trigger] q.order[i] as int]
    } by {
        let j = if i < o { i } else { i - 1 };
        let x = q.order[i];
        assert(q.order.remove(o)[j] == x);
        assert(x != pos);
        assert(r.order[j] == renumbered(x, pos));
        if x > pos {
            assert(r.tracks[x - 1] == q.tracks[x as int]);
        } else {
            assert(r.tracks[x as int] == q.tracks[x as int]);
        }
    }
}

/// Removing the current track makes the track of the following step
/// current, or leaves no current track when it was the last step.
pub proof fn lemma_remove_current_moves_on(q: QueueView)
    requires
        q.wf(),
        q.has_current(),
    ensures
        q.offset + 1 < q.len() ==> q.without_position(q.current_position()).current_track() == Some(
            q.tracks[q.order[q.offset + 1int] as int],
        ),
        q.offset + 1 == q.len() ==> q.without_position(q.current_position()).current_track() is None,
{
    let pos = q.current_position();
    lemma_without_position(q, pos);
    lemma_remove_keeps_steps(q, pos);
    let o = step_of(q.order, pos);
    assert(q.order[o] == q.order[q.offset as int]);
    assert(o == q.offset);
}

/// How many of the first `k` marks are set.
pub open spec fn count_marked(marked: Seq<bool>, k: nat) -> nat
    decreases k,
{
    if k == 0 {
        0
    } else {
        count_marked(marked, (k - 1) as nat) + if marked[k - 1] {
            1nat
        } else {
            0nat
        }
    }
}

proof fn lemma_count_marked_agree(a: Seq<bool>, b: Seq<bool>, k: nat)
    requires
        forall|x: int| 0 <= x < k ==> a[x] == b[x],
    ensures
        count_marked(a, k) == count_marked(b, k),
    decreases k,
{
    if k > 0 {
        lemma_count_marked_agree(a, b, (k - 1) as nat);
    }
}

proof fn lemma_unmarked_len(t: Seq<Track>, marked: Seq<bool>)
    requires
        t.len() <= marked.len(),
    ensures
        unmarked(t, marked).len() + count_marked(marked, t.len()) == t.len(),
    decreases t.len(),
{
    if t.len() > 0 {
        lemma_unmarked_len(t.drop_last(), marked);
    }
}

proof fn lemma_count_marks(positions: Seq<u32>, n: nat)
    requires
        positions.no_duplicates(),
        forall|j: int| 0 <= j < positions.len() ==> (positions[j] as int) < n,
    ensures
        count_marked(marks(positions, n), n) == positions.len(),
    decreases n,
{
    let m = marks(positions, n);
    if n == 0 {
        if positions.len() > 0 {
            assert((positions[0] as int) < 0);
        }
    } else {
        let top = (n - 1) as nat;
        if m[top as int] {
            let j = choose|j: int| 0 <= j < positions.len() && positions[j] as int == top;
            let rest = positions.remove(j);
            assert forall|i: int, k: int| 0 <= i < rest.len() && 0 <= k < rest.len() && i != k implies rest[i]
                != rest[k] by {
                let si = if i < j { i } else { i + 1 };
                let sk = if k < j { k } else { k + 1 };
                assert(rest[i] == positions[si] && rest[k] == positions[sk]);
            }
            assert forall|i: int| 0 <= i < rest.len() implies (#[trigger] rest[i] as int) < top by {
                let si = if i < j { i } else { i + 1 };
                assert(rest[i] == positions[si]);
                assert(si != j);
            }
            lemma_count_marks(rest, top);
            let m2 = marks(rest, top);
            assert forall|x: int| 0 <= x < top implies m[x] == m2[x] by {
                if m[x] {
                    let j2 = choose|j2: int| 0 <= j2 < positions.len() && positions[j2] as int == x;
                    assert(j2 != j);
                    let i2 = if j2 < j { j2 } else { j2 - 1 };
                    assert(rest[i2] as int == x);
                }
                if m2[x] {
                    let i3 = choose|i3: int| 0 <= i3 < rest.len() && rest[i3] as int == x;
                    let j3 = if i3 < j { i3 } else { i3 + 1 };
                    assert(positions[j3] as int == x);
                }
            }
            lemma_count_marked_agree(m, m2, top);
        } else {
            assert forall|i: int| 0 <= i < positions.len() implies (#[trigger] positions[i] as int) < top by {
                if positions[i] as int == top {
                    assert(m[top as int]);
                }
            }
            lemma_count_marks(positions, top);
            lemma_count_marked_agree(m, marks(positions, top), top);
        }
    }
}

/// Removing `k` distinct positions of the queue shortens it by `k`.
pub proof fn lemma_remove_count(q: QueueView, positions: Seq<u32>)
    requires
        q.wf(),
        positions.no_duplicates(),
        forall|j: int| 0 <= j < positions.len() ==> (positions[j] as int) < q.len(),
    ensures
        q.without_marked(marks(positions, q.len()), q.len()).len() == q.len() - positions.len(),
{
    let n = q.len();
    let m = marks(positions, n);
    lemma_without_marked_tracks(q, m, n);
    assert(q.tracks.subrange(0, n as int) =~= q.tracks);
    lemma_unmarked_len(q.tracks, m);
    lemma_count_marks(positions, n);
}

} // verus!

//! The shuffle- and repeat-aware playback queue.
//!
//! Tracks are kept in insertion order (a track's index is its *position*);
//! `play_order` lists positions in the order they are played, and
//! `current_offset` is the current *step* in that order.

use crate::model::Track;
use rand::seq::SliceRandom;
use vstd::prelude::*;

verus! {

broadcast use vstd::seq_lib::group_to_multiset_ensures;

/// The abstract state of a [`QueueManager`].
pub struct QueueView {
    pub tracks: Seq<Track>,
    pub order: Seq<usize>,
    pub offset: nat,
    pub repeat: bool,
    pub shuffle: bool,
}

/// `order` lists every position below `n` exactly once.
pub open spec fn is_order_of(order: Seq<usize>, n: nat) -> bool {
    &&& order.len() == n
    &&& forall|i: int| 0 <= i < order.len() ==> (#[trigger] order[i] as int) < n
    &&& order.no_duplicates()
    &&& forall|k: usize| (k as int) < n ==> #[trigger] order.contains(k)
}

/// The order `0, 1, ..., n - 1`.
pub open spec fn identity(n: nat) -> Seq<usize> {
    Seq::new(n, |i: int| i as usize)
}

/// `b` agrees with `a` outside `lo..hi` and holds the same elements inside it.
pub open spec fn permuted_within(a: Seq<usize>, b: Seq<usize>, lo: int, hi: int) -> bool {
    &&& b.len() == a.len()
    &&& forall|i: int| 0 <= i < a.len() && !(lo <= i < hi) ==> #[trigger] b[i] == a[i]
    &&& b.subrange(lo, hi).to_multiset() == a.subrange(lo, hi).to_multiset()
}

/// The first step after `offset` in a queue of `len` steps (`len` if none).
pub open spec fn step_after(offset: nat, len: nat) -> int {
    if offset + 1 <= len { offset + 1 as int } else { len as int }
}

/// A position after the track at `pos` has been removed.
pub open spec fn renumbered(x: usize, pos: nat) -> usize {
    if x > pos { (x - 1) as usize } else { x }
}

/// Where tracks inserted after `position` go in a queue of `n` tracks.
pub open spec fn insertion_point(position: nat, n: nat) -> nat {
    if position < n { position + 1 } else { n }
}

/// A position after `m` tracks have been inserted at `at`.
pub open spec fn shifted(x: usize, at: nat, m: nat) -> usize {
    if x >= at { (x + m) as usize } else { x }
}

/// `order` with positions shifted for `m` tracks inserted at `at`, and the
/// new positions `at..at + m` played from step `q` on.
pub open spec fn inserted_order(order: Seq<usize>, at: nat, m: nat, q: int) -> Seq<usize> {
    let sh = order.map_values(|x: usize| shifted(x, at, m));
    sh.subrange(0, q) + Seq::new(m, |i: int| (at + i) as usize) + sh.subrange(q, order.len() as int)
}

/// The tracks of `t` at unmarked positions, in order.
pub open spec fn unmarked(t: Seq<Track>, marked: Seq<bool>) -> Seq<Track>
    decreases t.len(),
{
    if t.len() == 0 {
        t
    } else {
        let rest = unmarked(t.drop_last(), marked);
        if marked[t.len() - 1] {
            rest
        } else {
            rest.push(t.last())
        }
    }
}

/// Marks, for each position below `n`, whether it is among the first `i`
/// entries of `positions`.
pub open spec fn marks_upto(positions: Seq<u32>, i: int, n: nat) -> Seq<bool> {
    Seq::new(n, |x: int| exists|j: int| 0 <= j < i && positions[j] as int == x)
}

/// Marks, for each position below `n`, whether `positions` lists it.
pub open spec fn marks(positions: Seq<u32>, n: nat) -> Seq<bool> {
    marks_upto(positions, positions.len() as int, n)
}

/// The step at which `order` plays position `pos`.
pub open spec fn step_of(order: Seq<usize>, pos: nat) -> int {
    choose|o: int| 0 <= o < order.len() && order[o] == pos
}

impl QueueView {
    pub open spec fn wf(self) -> bool {
        &&& is_order_of(self.order, self.tracks.len())
        &&& self.offset <= self.tracks.len()
        &&& self.tracks.len() <= usize::MAX
    }

    pub open spec fn len(self) -> nat {
        self.tracks.len()
    }

    pub open spec fn has_current(self) -> bool {
        self.offset < self.order.len()
    }

    /// The position played at the current step, `0` when there is none.
    pub open spec fn current_position(self) -> nat {
        if self.has_current() {
            self.order[self.offset as int] as nat
        } else {
            0
        }
    }

    pub open spec fn current_track(self) -> Option<Track> {
        if self.has_current() && self.current_position() < self.tracks.len() {
            Some(self.tracks[self.current_position() as int])
        } else {
            None
        }
    }

    pub open spec fn with_offset(self, offset: nat) -> QueueView {
        QueueView { offset, ..self }
    }

    pub open spec fn with_order(self, order: Seq<usize>) -> QueueView {
        QueueView { order, ..self }
    }

    /// `new` is this queue with the order permuted within `lo..hi`.
    pub open spec fn reordered(self, new: QueueView, lo: int, hi: int) -> bool {
        &&& new == self.with_order(new.order)
        &&& permuted_within(self.order, new.order, lo, hi)
    }

    /// What may come of turning shuffling on: the steps before and after the
    /// current one are permuted among themselves, the current step stays.
    pub open spec fn shuffled_on(self, new: QueueView) -> bool {
        let c = self.offset as int;
        let n = self.order.len() as int;
        &&& new.tracks == self.tracks
        &&& new.offset == self.offset
        &&& new.repeat == self.repeat
        &&& new.shuffle
        &&& new.order.len() == n
        &&& new.wf()
        &&& c < n ==> {
            &&& new.order[c] == self.order[c]
            &&& new.order.subrange(0, c).to_multiset() == self.order.subrange(0, c).to_multiset()
            &&& new.order.subrange(c + 1, n).to_multiset() == self.order.subrange(c + 1, n).to_multiset()
        }
        &&& c >= n ==> new.order.to_multiset() == self.order.to_multiset()
    }

    /// The queue with shuffling off: plain order, same current track.
    pub open spec fn unshuffled(self) -> QueueView {
        QueueView {
            order: identity(self.tracks.len()),
            offset: if self.has_current() { self.current_position() } else { self.offset },
            shuffle: false,
            ..self
        }
    }

    /// The queue without the track at `pos`: the steps after its step move
    /// up by one, positions above it move down by one, and the current step
    /// keeps pointing at the same step of play.
    pub open spec fn without_position(self, pos: nat) -> QueueView {
        let o = step_of(self.order, pos);
        QueueView {
            tracks: self.tracks.remove(pos as int),
            order: self.order.remove(o).map_values(|x: usize| renumbered(x, pos)),
            offset: if o < self.offset { (self.offset - 1) as nat } else { self.offset },
            ..self
        }
    }

    /// Removes the marked positions below `k`, the highest first, so that
    /// every mark refers to a position of the queue before any removal.
    pub open spec fn without_marked(self, marked: Seq<bool>, k: nat) -> QueueView
        decreases k,
    {
        if k == 0 {
            self
        } else {
            let q = if marked[k - 1] { self.without_position((k - 1) as nat) } else { self };
            q.without_marked(marked, (k - 1) as nat)
        }
    }

    /// The queue with `new_tracks` inserted right after `position` (at the
    /// end when there is no such position). Positions from the insertion
    /// point on move up, every step keeps its track, and the new positions
    /// are played right where they stand (at the end of play when
    /// shuffling). The current step follows its track. When there is no
    /// current step (the offset is at the end of play), the offset stays,
    /// so the step it points at, if any new one, becomes current.
    pub open spec fn inserted(self, position: nat, new_tracks: Seq<Track>) -> QueueView {
        let n = self.len();
        let m = new_tracks.len();
        let at = insertion_point(position, n);
        let q = self.insertion_step(position);
        QueueView {
            tracks: self.tracks.subrange(0, at as int) + new_tracks + self.tracks.subrange(at as int, n as int),
            order: inserted_order(self.order, at, m, q as int),
            offset: if self.has_current() && q <= self.offset {
                self.offset + m
            } else {
                self.offset
            },
            ..self
        }
    }

    /// What moving to the next step does and returns.
    pub open spec fn next_rel(self, new: QueueView, r: Option<Track>) -> bool {
        &&& self.offset + 1 < self.len() ==> {
            &&& new == self.with_offset(self.offset + 1)
            &&& r == new.current_track()
            &&& r is Some
        }
        &&& self.offset + 1 >= self.len() && self.repeat && self.len() > 0
            ==> {
            &&& self.with_offset(0).reordered(new, 0, self.len() as int)
            &&& !self.shuffle ==> new.order == self.order
            &&& r == new.current_track()
            &&& r is Some
        }
        &&& self.offset + 1 >= self.len() && !(self.repeat && self.len() > 0)
            ==> new == self && r is None
    }

    /// What moving back one step does and returns.
    pub open spec fn prev_rel(self, new: QueueView, r: Option<Track>) -> bool {
        &&& self.offset > 0 ==> {
            &&& new == self.with_offset((self.offset - 1) as nat)
            &&& r == new.current_track()
            &&& r is Some
        }
        &&& self.offset == 0 ==> new == self && r is None
    }

    /// What jumping to the track at `position` does and returns.
    pub open spec fn set_current_rel(self, new: QueueView, position: nat, r: bool) -> bool {
        &&& r == ((position as int) < self.len())
        &&& !r ==> new == self
        &&& r ==> {
            &&& new.tracks == self.tracks
            &&& new.repeat == self.repeat
            &&& new.shuffle == self.shuffle
            &&& new.has_current()
            &&& new.current_position() == position
            &&& new.current_track() == Some(self.tracks[position as int])
        }
        &&& r && !self.shuffle ==> new.order == self.order
        &&& r && self.shuffle ==> new.offset == 0
    }

    /// What replacing the tracks does and returns.
    pub open spec fn replace_rel(self, new: QueueView, tracks: Seq<Track>, r: Option<Track>) -> bool {
        &&& new.tracks == tracks
        &&& new.offset == 0
        &&& new.repeat == self.repeat
        &&& new.shuffle == self.shuffle
        &&& !self.shuffle ==> new.order == identity(tracks.len())
        &&& r == new.current_track()
        &&& r is Some <==> tracks.len() > 0
    }

    /// What appending tracks does.
    pub open spec fn append_rel(self, new: QueueView, tracks: Seq<Track>) -> bool {
        &&& new.tracks == self.tracks + tracks
        &&& new.offset == self.offset
        &&& new.repeat == self.repeat
        &&& new.shuffle == self.shuffle
        &&& !self.shuffle ==> new.order == self.extended_order(
            self.len(),
            self.len() + tracks.len()
        )
        &&& self.shuffle ==> permuted_within(
            self.extended_order(self.len(), self.len() + tracks.len()),
            new.order,
            step_after(self.offset, self.len() + tracks.len()),
            (self.len() + tracks.len()) as int
        )
        &&& self.has_current() || tracks.len() > 0 ==> new.has_current()
    }

    /// What removing the tracks at `positions` does and returns.
    pub open spec fn remove_rel(self, new: QueueView, positions: Seq<u32>, r: Option<Track>) -> bool {
        &&& (exists|j: int| 0 <= j < positions.len() && (positions[j] as int) >= self.len())
            ==> new == self && r is None
        &&& (forall|j: int| 0 <= j < positions.len() ==> (positions[j] as int) < self.len())
            ==> {
            &&& new == self.without_marked(
                marks(positions, self.len()),
                self.len(),
            )
            &&& new.tracks == unmarked(self.tracks, marks(positions, self.len()))
            &&& r == if self.has_current() && marks(positions, self.len())[self.current_position() as int] {
                new.current_track()
            } else {
                None
            }
        }
    }

    /// What inserting tracks after `position` does.
    pub open spec fn insert_rel(self, new: QueueView, position: nat, tracks: Seq<Track>) -> bool {
        &&& self.len() == 0 ==> {
            &&& new.tracks == tracks
            &&& new.offset == 0
            &&& new.repeat == self.repeat
            &&& new.shuffle == self.shuffle
            &&& !self.shuffle ==> new.order == identity(tracks.len())
        }
        &&& self.len() > 0 && !self.shuffle ==> new == self.inserted(
            position,
            tracks
        )
        &&& self.len() > 0 && self.shuffle ==> ({
            let ins = self.inserted(position, tracks);
            ins.reordered(new, step_after(ins.offset, ins.len()), ins.len() as int)
        })
        &&& self.has_current() ==> new.current_track() == self.current_track()
        &&& self.len() + tracks.len() > 0 && (self.has_current() || tracks.len() > 0) ==> new.has_current()
        &&& self.shuffle ==> new.offset == self.offset
    }

    /// What queueing tracks to play next does.
    pub open spec fn queue_rel(self, new: QueueView, tracks: Seq<Track>) -> bool {
        &&& self.len() == 0 ==> {
            &&& new.tracks == tracks
            &&& new.offset == 0
            &&& new.repeat == self.repeat
            &&& new.shuffle == self.shuffle
            &&& !self.shuffle ==> new.order == identity(tracks.len())
        }
        &&& self.len() > 0 && !self.shuffle ==> new == self.inserted(
            self.current_position(),
            tracks
        )
        &&& self.len() > 0 && self.shuffle ==> ({
            let ins = self.inserted(self.current_position(), tracks);
            ins.reordered(new, step_after(ins.offset, ins.len()), ins.len() as int)
        })
        &&& self.has_current() ==> new.current_track() == self.current_track()
        &&& self.len() + tracks.len() > 0 && (self.has_current() || tracks.len() > 0) ==> new.has_current()
        &&& self.shuffle ==> new.offset == self.offset
    }

    /// What clearing the queue does and returns.
    pub open spec fn clear_rel(self, new: QueueView, exclude_current: bool, r: bool) -> bool {
        &&& r == !exclude_current
        &&& new.offset == 0
        &&& new.repeat == self.repeat
        &&& new.shuffle == self.shuffle
        &&& new.tracks == if exclude_current && self.current_track() is Some {
            seq![self.current_track()->0]
        } else {
            Seq::<Track>::empty()
        }
    }

    /// The step from which tracks inserted after `position` are played: at
    /// the end of play when shuffling, else where they stand.
    pub open spec fn insertion_step(self, position: nat) -> nat {
        if self.shuffle {
            self.len()
        } else {
            insertion_point(position, self.len())
        }
    }

    /// `order` followed by the positions `lo..hi`.
    pub open spec fn extended_order(self, lo: nat, hi: nat) -> Seq<usize> {
        self.order + Seq::new((hi - lo) as nat, |i: int| (lo + i) as usize)
    }
}

/// Relies on rand's `SliceRandom::shuffle` with `thread_rng`: it permutes
/// `v[lo..hi]` in place by swaps and leaves the rest of `v` alone.
#[verifier::external_body]
fn shuffle_range(v: &mut Vec<usize>, lo: usize, hi: usize)
    requires
        lo <= hi <= old(v)@.len(),
    ensures
        permuted_within(old(v)@, final(v)@, lo as int, hi as int),
{
    v[lo..hi].shuffle(&mut rand::thread_rng());
}

pub proof fn permuted_within_refl(a: Seq<usize>, lo: int, hi: int)
    ensures
        permuted_within(a, a, lo, hi),
{
}

/// Permuting a range of an order keeps it an order of the same positions.
pub proof fn lemma_permuted_order(a: Seq<usize>, b: Seq<usize>, lo: int, hi: int, n: nat)
    requires
        is_order_of(a, n),
        0 <= lo <= hi <= a.len(),
        permuted_within(a, b, lo, hi),
    ensures
        is_order_of(b, n),
{
    let sa = a.subrange(lo, hi);
    let sb = b.subrange(lo, hi);
    assert forall|i: int| lo <= i < hi implies exists|j: int| lo <= j < hi && a[j] == #[trigger] b[i] by {
        assert(sb[i - lo] == b[i]);
        assert(sb.contains(b[i]));
        assert(sa.to_multiset().count(b[i]) > 0);
        assert(sa.contains(b[i]));
        let j = choose|j: int| 0 <= j < sa.len() && sa[j] == b[i];
        assert(a[j + lo] == b[i]);
    }
    assert forall|i: int| 0 <= i < b.len() implies (#[trigger] b[i] as int) < n by {
        if lo <= i < hi {
            let j = choose|j: int| lo <= j < hi && a[j] == b[i];
        }
    }
    assert forall|k: usize| (k as int) < n implies #[trigger] b.contains(k) by {
        assert(a.contains(k));
        let j = choose|j: int| 0 <= j < a.len() && a[j] == k;
        if lo <= j < hi {
            assert(sa[j - lo] == a[j]);
            assert(sa.contains(k));
            assert(sb.to_multiset().count(k) > 0);
            assert(sb.contains(k));
            let i = choose|i: int| 0 <= i < sb.len() && sb[i] == k;
            assert(b[i + lo] == k);
        } else {
            assert(b[j] == k);
        }
    }
    assert(sa.no_duplicates()) by {
        assert forall|i: int, j: int| 0 <= i < sa.len() && 0 <= j < sa.len() && i != j implies sa[i] != sa[j] by {
            assert(sa[i] == a[i + lo] && sa[j] == a[j + lo]);
        }
    }
    sa.lemma_multiset_has_no_duplicates();
    sb.lemma_multiset_has_no_duplicates_conv();
    assert forall|i: int, j: int| 0 <= i < b.len() && 0 <= j < b.len() && i != j implies b[i] != b[j] by {
        if lo <= i < hi && lo <= j < hi {
            assert(sb[i - lo] == b[i] && sb[j - lo] == b[j]);
        } else if lo <= i < hi {
            let i2 = choose|j2: int| lo <= j2 < hi && a[j2] == b[i];
        } else if lo <= j < hi {
            let j2 = choose|j2: int| lo <= j2 < hi && a[j2] == b[j];
        }
    }
}


#[verifier::external_type_specification]
#[verifier::external_body]
pub struct ExInstant(std::time::Instant);

/// Relies on `Instant::now`: the moment of the call.
pub assume_specification[ std::time::Instant::now ]() -> std::time::Instant;

/// Relies on `Instant::elapsed`: the time passed since the instant.
pub assume_specification[ std::time::Instant::elapsed ](t: &std::time::Instant) -> std::time::Duration;

/// Relies on `Duration::as_secs`: the whole seconds of a duration.
pub assume_specification[ std::time::Duration::as_secs ](d: &std::time::Duration) -> u64;

/// A point-in-time copy of the queue handed to clients.
#[derive(Clone, Debug, PartialEq, Eq)]
pub struct Queue {
    /// Seconds since the queue was created.
    pub timestamp: u64,
    pub current_position: u32,
    pub tracks: Vec<Track>,
}

/// The playback queue.
#[derive(Debug)]
pub struct QueueManager {
    created_at: std::time::Instant,
    current_offset: usize,
    play_order: Vec<usize>,
    tracks: Vec<Track>,
    pub repeat: bool,
    pub shuffle: bool,
}

impl View for QueueManager {
    type V = QueueView;

    closed spec fn view(&self) -> QueueView {
        QueueView {
            tracks: self.tracks@,
            order: self.play_order@,
            offset: self.current_offset as nat,
            repeat: self.repeat,
            shuffle: self.shuffle,
        }
    }
}

/// A vector holding `0, 1, ..., n - 1`.
fn identity_order(n: usize) -> (r: Vec<usize>)
    ensures
        r@ == identity(n as nat),
{
    let mut r: Vec<usize> = Vec::new();
    let mut i: usize = 0;
    while i < n
        invariant
            i <= n,
            r@ == identity(i as nat),
        decreases n - i,
    {
        r.push(i);
        i = i + 1;
        assert(r@ =~= identity(i as nat));
    }
    r
}

/// Copies of the given tracks, in order.
fn copy_tracks(ts: &[Track]) -> (r: Vec<Track>)
    ensures
        r@ == ts@,
{
    let mut r: Vec<Track> = Vec::new();
    let mut i: usize = 0;
    while i < ts.len()
        invariant
            i <= ts@.len(),
            r@ == ts@.subrange(0, i as int),
        decreases ts@.len() - i,
    {
        r.push(ts[i].duplicate());
        i = i + 1;
        assert(r@ =~= ts@.subrange(0, i as int));
    }
    assert(r@ =~= ts@);
    r
}

pub proof fn lemma_identity_is_order(n: nat)
    requires
        n <= usize::MAX,
    ensures
        is_order_of(identity(n), n),
{
    let s = identity(n);
    assert forall|k: usize| (k as int) < n implies #[trigger] s.contains(k) by {
        assert(s[k as int] == k);
    }
}

/// Swapping two steps keeps an order an order.
pub proof fn lemma_swap_order(a: Seq<usize>, i: int, j: int, n: nat)
    requires
        is_order_of(a, n),
        0 <= i < a.len(),
        0 <= j < a.len(),
    ensures
        is_order_of(a.update(i, a[j]).update(j, a[i]), n),
{
    let b = a.update(i, a[j]).update(j, a[i]);
    assert forall|t: int| 0 <= t < b.len() implies (#[trigger] b[t] as int) < n by {
        if t == j {} else if t == i {} else { assert(b[t] == a[t]); }
    }
    assert forall|k: usize| (k as int) < n implies #[trigger] b.contains(k) by {
        assert(a.contains(k));
        let t = choose|t: int| 0 <= t < a.len() && a[t] == k;
        if t == i {
            assert(b[j] == k);
        } else if t == j {
            assert(b[i] == k);
        } else {
            assert(b[t] == k);
        }
    }
    assert forall|x: int, y: int| 0 <= x < b.len() && 0 <= y < b.len() && x != y implies b[x] != b[y] by {
        let sx = if x == j { i } else if x == i { j } else { x };
        let sy = if y == j { i } else if y == i { j } else { y };
        assert(b[x] == a[sx] && b[y] == a[sy]);
    }
}

/// An order followed by the next positions is an order of the longer queue.
pub proof fn lemma_extended_order(a: Seq<usize>, n: nat, m: nat)
    requires
        is_order_of(a, n),
        n + m <= usize::MAX,
    ensures
        is_order_of(a + Seq::new(m, |i: int| (n + i) as usize), n + m),
{
    let e = Seq::new(m, |i: int| (n + i) as usize);
    let b = a + e;
    assert forall|t: int| 0 <= t < b.len() implies (#[trigger] b[t] as int) < n + m by {
        if t < a.len() { assert(b[t] == a[t]); } else { assert(b[t] == e[t - n]); }
    }
    assert forall|k: usize| (k as int) < n + m implies #[trigger] b.contains(k) by {
        if (k as int) < n {
            assert(a.contains(k));
            let t = choose|t: int| 0 <= t < a.len() && a[t] == k;
            assert(b[t] == k);
        } else {
            assert(b[k as int] == e[k - n]);
        }
    }
    assert forall|x: int, y: int| 0 <= x < b.len() && 0 <= y < b.len() && x != y implies b[x] != b[y] by {
        if x < n && y < n {
            assert(b[x] == a[x] && b[y] == a[y]);
        } else if x >= n && y >= n {
            assert(b[x] == e[x - n] && b[y] == e[y - n]);
        } else if x < n {
            assert(b[x] == a[x] && b[y] == e[y - n]);
        } else {
            assert(b[y] == a[y] && b[x] == e[x - n]);
        }
    }
}

/// Removing a track keeps the queue well formed.
pub proof fn lemma_without_position(q: QueueView, pos: nat)
    requires
        q.wf(),
        pos < q.len(),
    ensures
        q.without_position(pos).wf(),
        q.order[step_of(q.order, pos)] == pos,
        0 <= step_of(q.order, pos) < q.order.len(),
{
    let a = q.order;
    let n = q.len();
    assert(a.contains(pos as usize));
    let w = choose|t: int| 0 <= t < a.len() && a[t] == pos as usize;
    assert(0 <= w < a.len() && a[w] == pos);
    let o = step_of(a, pos);
    assert(0 <= o < a.len() && a[o] == pos);
    let b0 = a.remove(o);
    let b = b0.map_values(|x: usize| renumbered(x, pos));
    assert(b == q.without_position(pos).order);
    assert forall|t: int| 0 <= t < b0.len() implies #[trigger] b0[t] != pos && b0[t] < n by {
        if t < o { assert(b0[t] == a[t]); } else { assert(b0[t] == a[t + 1]); }
    }
    assert forall|t: int| 0 <= t < b.len() implies (#[trigger] b[t] as int) < n - 1 by {
        assert(b0[t] != pos && b0[t] < n);
    }
    assert forall|k: usize| (k as int) < n - 1 implies #[trigger] b.contains(k) by {
        let v: usize = if (k as int) < pos { k } else { (k + 1) as usize };
        assert(a.contains(v));
        let t = choose|t: int| 0 <= t < a.len() && a[t] == v;
        assert(t != o);
        let t0 = if t < o { t } else { t - 1 };
        assert(b0[t0] == v);
        assert(b[t0] == k);
    }
    assert forall|x: int, y: int| 0 <= x < b.len() && 0 <= y < b.len() && x != y implies b[x] != b[y] by {
        let sx = if x < o { x } else { x + 1 };
        let sy = if y < o { y } else { y + 1 };
        assert(b0[x] == a[sx] && b0[y] == a[sy]);
        assert(b0[x] != pos && b0[y] != pos);
    }
}

/// Removing unmarked positions changes nothing.
pub proof fn lemma_without_unmarked(q: QueueView, marked: Seq<bool>, k: nat)
    requires
        k <= marked.len(),
        forall|x: int| 0 <= x < k ==> !marked[x],
    ensures
        q.without_marked(marked, k) == q,
    decreases k,
{
    if k > 0 {
        lemma_without_unmarked(q, marked, (k - 1) as nat);
    }
}

/// Inserting positions keeps an order an order.
pub proof fn lemma_inserted_order(a: Seq<usize>, n: nat, at: nat, m: nat, q: int)
    requires
        is_order_of(a, n),
        at <= n,
        0 <= q <= n,
        n + m <= usize::MAX,
    ensures
        is_order_of(inserted_order(a, at, m, q), n + m),
        forall|t: int| 0 <= t < q ==> #[trigger] inserted_order(a, at, m, q)[t] == shifted(a[t], at, m),
        forall|t: int| q <= t < n ==> #[trigger] inserted_order(a, at, m, q)[t + m] == shifted(a[t], at, m),
{
    let sh = a.map_values(|x: usize| shifted(x, at, m));
    let blk = Seq::new(m, |i: int| (at + i) as usize);
    let b = inserted_order(a, at, m, q);
    assert(b.len() == n + m);
    assert forall|t: int| 0 <= t < b.len() implies #[trigger] b[t] == (if t < q {
        sh[t]
    } else if t < q + m {
        blk[t - q]
    } else {
        sh[t - m]
    }) by {}
    assert forall|t: int| 0 <= t < b.len() implies (#[trigger] b[t] as int) < n + m by {
        if t < q {
            assert(a[t] < n);
        } else if t < q + m {
        } else {
            assert(a[t - m] < n);
        }
    }
    assert forall|k: usize| (k as int) < n + m implies #[trigger] b.contains(k) by {
        if (k as int) < at || (k as int) >= at + m {
            let v: usize = if (k as int) < at { k } else { (k - m) as usize };
            assert(a.contains(v));
            let t = choose|t: int| 0 <= t < a.len() && a[t] == v;
            assert(sh[t] == k);
            if t < q {
                assert(b[t] == k);
            } else {
                assert(b[t + m] == k);
            }
        } else {
            assert(b[q + k - at] == k);
        }
    }
    assert forall|x: int, y: int| 0 <= x < b.len() && 0 <= y < b.len() && x != y implies b[x] != b[y] by {
        let in_x = q <= x < q + m;
        let in_y = q <= y < q + m;
        if !in_x && !in_y {
            let sx = if x < q { x } else { x - m };
            let sy = if y < q { y } else { y - m };
            assert(a[sx] != a[sy]);
        } else if !in_x {
            let sx = if x < q { x } else { x - m };
            assert(b[x] == shifted(a[sx], at, m));
        } else if !in_y {
            let sy = if y < q { y } else { y - m };
            assert(b[y] == shifted(a[sy], at, m));
        }
    }
}

/// Inserting tracks keeps the queue well formed and the current track
/// current.
pub proof fn lemma_inserted(q: QueueView, position: nat, new_tracks: Seq<Track>)
    requires
        q.wf(),
        q.len() + new_tracks.len() <= usize::MAX,
    ensures
        q.inserted(position, new_tracks).wf(),
        q.has_current() ==> q.inserted(position, new_tracks).current_track() == q.current_track(),
        q.has_current() || new_tracks.len() > 0 ==> q.inserted(position, new_tracks).has_current(),
        q.shuffle ==> q.inserted(position, new_tracks).offset == q.offset,
{
    let n = q.len();
    let m = new_tracks.len();
    let at = insertion_point(position, n);
    let qs: nat = if q.shuffle { n } else { at };
    let r = q.inserted(position, new_tracks);
    lemma_inserted_order(q.order, n, at, m, qs as int);
    assert(r.tracks.len() == n + m);
    if q.has_current() {
        let c = q.offset as int;
        let x = q.order[c];
        assert(r.order[r.offset as int] == shifted(x, at, m));
        if x >= at {
            assert(r.tracks[x + m] == q.tracks[x as int]);
        } else {
            assert(r.tracks[x as int] == q.tracks[x as int]);
        }
    }
}

/// Removing the marked positions below `k` leaves the unmarked tracks below
/// `k`, followed by the tracks from `k` on.
pub proof fn lemma_without_marked_tracks(q: QueueView, marked: Seq<bool>, k: nat)
    requires
        k <= q.len(),
        k <= marked.len(),
    ensures
        q.without_marked(marked, k).tracks == unmarked(q.tracks.subrange(0, k as int), marked)
            + q.tracks.subrange(k as int, q.len() as int),
    decreases k,
{
    if k > 0 {
        let q1 = if marked[k - 1] { q.without_position((k - 1) as nat) } else { q };
        lemma_without_marked_tracks(q1, marked, (k - 1) as nat);
        let lower = q.tracks.subrange(0, k as int);
        assert(lower.drop_last() =~= q.tracks.subrange(0, k - 1));
        assert(q1.tracks.subrange(0, k - 1) =~= q.tracks.subrange(0, k - 1));
        if marked[k - 1] {
            assert(q1.tracks.subrange(k - 1, q1.tracks.len() as int) =~= q.tracks.subrange(
                k as int,
                q.len() as int,
            ));
        } else {
            assert(unmarked(lower, marked) == unmarked(lower.drop_last(), marked).push(q.tracks[k - 1]));
            assert(unmarked(q.tracks.subrange(0, k - 1), marked) + q.tracks.subrange(k - 1, q.len() as int)
                =~= unmarked(q.tracks.subrange(0, k - 1), marked).push(q.tracks[k - 1])
                + q.tracks.subrange(k as int, q.len() as int));
        }
    }
}

impl QueueManager {
    pub fn new() -> (r: QueueManager)
        ensures
            r@.wf(),
            r@.tracks.len() == 0,
            r@.offset == 0,
            !r@.repeat,
            !r@.shuffle,
    {
        let r = QueueManager {
            created_at: std::time::Instant::now(),
            current_offset: 0,
            play_order: Vec::new(),
            tracks: Vec::new(),
            repeat: false,
            shuffle: false,
        };
        proof { lemma_identity_is_order(0); assert(r.play_order@ =~= identity(0)); }
        r
    }

    /// The position played at the current step, `0` when there is none.
    pub fn current_position(&self) -> (r: usize)
        requires
            self@.wf(),
        ensures
            r == self@.current_position(),
    {
        if self.current_offset < self.play_order.len() {
            self.play_order[self.current_offset]
        } else {
            0
        }
    }

    pub fn current_track(&self) -> (r: Option<Track>)
        requires
            self@.wf(),
        ensures
            r == self@.current_track(),
    {
        if self.current_offset < self.play_order.len() {
            let pos = self.play_order[self.current_offset];
            Some(self.tracks[pos].duplicate())
        } else {
            None
        }
    }

    /// Permutes the whole play order.
    pub fn shuffle_all(&mut self)
        requires
            old(self)@.wf(),
        ensures
            final(self)@.wf(),
            old(self)@.reordered(final(self)@, 0, old(self)@.order.len() as int),
    {
        let n = self.play_order.len();
        shuffle_range(&mut self.play_order, 0, n);
        proof { lemma_permuted_order(old(self)@.order, self@.order, 0, n as int, self@.tracks.len()); }
    }

    /// Permutes the steps before `pos`.
    pub fn shuffle_before(&mut self, pos: usize)
        requires
            old(self)@.wf(),
            pos <= old(self)@.order.len(),
        ensures
            final(self)@.wf(),
            old(self)@.reordered(final(self)@, 0, pos as int),
    {
        shuffle_range(&mut self.play_order, 0, pos);
        proof { lemma_permuted_order(old(self)@.order, self@.order, 0, pos as int, self@.tracks.len()); }
    }

    /// Permutes the steps after `pos`.
    pub fn shuffle_behind(&mut self, pos: usize)
        requires
            old(self)@.wf(),
            pos < old(self)@.order.len(),
        ensures
            final(self)@.wf(),
            old(self)@.reordered(final(self)@, pos + 1, old(self)@.order.len() as int),
    {
        let n = self.play_order.len();
        shuffle_range(&mut self.play_order, pos + 1, n);
        proof { lemma_permuted_order(old(self)@.order, self@.order, pos + 1, n as int, self@.tracks.len()); }
    }

    /// Permutes the steps from `lo` on.
    fn shuffle_from(&mut self, lo: usize)
        requires
            old(self)@.wf(),
            lo <= old(self)@.order.len(),
        ensures
            final(self)@.wf(),
            old(self)@.reordered(final(self)@, lo as int, old(self)@.order.len() as int),
    {
        let n = self.play_order.len();
        shuffle_range(&mut self.play_order, lo, n);
        proof { lemma_permuted_order(old(self)@.order, self@.order, lo as int, n as int, self@.tracks.len()); }
    }

    /// Turns shuffling on, keeping the current step where it is.
    pub fn shuffle_on(&mut self)
        requires
            old(self)@.wf(),
        ensures
            old(self)@.shuffled_on(final(self)@),
            final(self)@.current_track() == old(self)@.current_track(),
    {
        self.shuffle = true;
        let c = self.current_offset;
        let n = self.play_order.len();
        let ghost a = self@.order;
        if c < n {
            self.shuffle_before(c);
            let ghost b = self@.order;
            self.shuffle_behind(c);
            proof {
                assert(b.subrange(c + 1, n as int) =~= a.subrange(c + 1, n as int));
                assert(self@.order.subrange(0, c as int) =~= b.subrange(0, c as int));
            }
        } else {
            self.shuffle_all();
            proof {
                assert(a.subrange(0, n as int) =~= a);
                assert(self@.order.subrange(0, n as int) =~= self@.order);
            }
        }
    }

    /// Turns shuffling off: plain order, the current track stays current.
    pub fn shuffle_off(&mut self)
        requires
            old(self)@.wf(),
        ensures
            final(self)@ == old(self)@.unshuffled(),
            final(self)@.wf(),
            final(self)@.current_track() == old(self)@.current_track(),
    {
        self.shuffle = false;
        if self.current_offset < self.play_order.len() {
            self.current_offset = self.play_order[self.current_offset];
        }
        self.play_order = identity_order(self.tracks.len());
        proof {
            lemma_identity_is_order(self@.tracks.len());
        }
    }

    /// Moves to the next step. At the end, wraps to the first step when
    /// repeating (drawing a new order first when shuffling), else reports
    /// that the queue is exhausted and stays where it is.
    pub fn next_track(&mut self) -> (r: Option<Track>)
        requires
            old(self)@.wf(),
        ensures
            final(self)@.wf(),
            old(self)@.next_rel(final(self)@, r),

    {
        let len = self.tracks.len();
        if len > 0 && self.current_offset < len - 1 {
            self.current_offset = self.current_offset + 1;
            self.current_track()
        } else if self.repeat && len > 0 {
            self.current_offset = 0;
            if self.shuffle {
                self.shuffle_all();
            } else {
                proof { permuted_within_refl(self@.order, 0, len as int); }
            }
            self.current_track()
        } else {
            None
        }
    }

    /// Moves back one step, if there is one before the current.
    pub fn prev_track(&mut self) -> (r: Option<Track>)
        requires
            old(self)@.wf(),
        ensures
            final(self)@.wf(),
            old(self)@.prev_rel(final(self)@, r),

    {
        if 0 < self.current_offset {
            self.current_offset = self.current_offset - 1;
            self.current_track()
        } else {
            None
        }
    }

    /// The step at which position `pos` is played.
    fn find_step(&self, pos: usize) -> (o: usize)
        requires
            self@.wf(),
            pos < self@.len(),
        ensures
            o < self@.len(),
            self@.order[o as int] == pos,
    {
        let ghost k = pos;
        assert(self@.order.contains(k));
        let mut i: usize = 0;
        while i < self.play_order.len()
            invariant
                self@.wf(),
                pos < self@.len(),
                i <= self@.order.len(),
                forall|j: int| 0 <= j < i ==> self@.order[j] != pos,
            decreases self@.order.len() - i,
        {
            if self.play_order[i] == pos {
                return i;
            }
            i = i + 1;
        }
        i
    }

    /// Jumps to the track at `position`. When shuffling, a new order is drawn
    /// and the track becomes its first step. Fails, changing nothing, when
    /// there is no such track.
    pub fn set_current_position(&mut self, position: u32) -> (r: bool)
        requires
            old(self)@.wf(),
        ensures
            final(self)@.wf(),
            old(self)@.set_current_rel(final(self)@, position as nat, r),

    {
        let pos = position as usize;
        if pos < self.tracks.len() {
            if self.shuffle {
                self.shuffle_all();
            }
            let o = self.find_step(pos);
            if self.shuffle {
                let first = self.play_order[0];
                let ghost a = self@.order;
                self.play_order.set(0, pos);
                self.play_order.set(o, first);
                proof {
                    lemma_swap_order(a, 0, o as int, self@.tracks.len());
                    assert(self@.order =~= a.update(0, a[o as int]).update(o as int, a[0]));
                }
                self.current_offset = 0;
            } else {
                self.current_offset = o;
            }
            true
        } else {
            false
        }
    }

    /// Replaces the queue's tracks; the first step becomes current.
    pub fn replace_with_tracks(&mut self, tracks: &[Track]) -> (r: Option<Track>)
        requires
            old(self)@.wf(),
        ensures
            final(self)@.wf(),
            old(self)@.replace_rel(final(self)@, tracks@, r),

    {
        self.current_offset = 0;
        self.tracks = copy_tracks(tracks);
        self.play_order = identity_order(tracks.len());
        proof { lemma_identity_is_order(tracks@.len()); }
        if self.shuffle {
            self.shuffle_all();
        }
        self.current_track()
    }

    /// Adds tracks at the end of the queue. When shuffling, the steps after
    /// the current one are drawn anew; the steps up to the current one stay.
    pub fn append_tracks(&mut self, tracks: &[Track])
        requires
            old(self)@.wf(),
            old(self)@.len() + tracks@.len() <= usize::MAX,
        ensures
            final(self)@.wf(),
            old(self)@.append_rel(final(self)@, tracks@),

    {
        let n = self.tracks.len();
        let m = tracks.len();
        let ghost e = self@.extended_order(n as nat, (n + m) as nat);
        let mut i: usize = 0;
        while i < m
            invariant
                self@.offset == old(self)@.offset,
                self@.repeat == old(self)@.repeat,
                self@.shuffle == old(self)@.shuffle,
                old(self)@.wf(),
                self@.len() == n,
                n + m <= usize::MAX,
                i <= m,
                self@.order.len() == n + i,
                self@.order == e.subrange(0, n + i),
                e == old(self)@.extended_order(n as nat, (n + m) as nat),
                self@.tracks == old(self)@.tracks,
                old(self)@.order.len() == n,
            decreases m - i,
        {
            self.play_order.push(n + i);
            i = i + 1;
            assert(self@.order =~= e.subrange(0, n + i));
        }
        let added = copy_tracks(tracks);
        let mut added = added;
        self.tracks.append(&mut added);
        assert(self@.order =~= e);
        proof {
            lemma_extended_order(old(self)@.order, n as nat, m as nat);
            assert(e =~= old(self)@.order + Seq::new(m as nat, |i: int| (n + i) as usize));
        }
        if self.shuffle {
            let c = self.current_offset;
            let lo = if c < n + m { c + 1 } else { n + m };
            self.shuffle_from(lo);
        }
    }

    /// Removes the track at `pos`.
    fn remove_position(&mut self, pos: usize)
        requires
            old(self)@.wf(),
            pos < old(self)@.len(),
        ensures
            final(self)@ == old(self)@.without_position(pos as nat),
            final(self)@.wf(),
    {
        proof { lemma_without_position(self@, pos as nat); }
        let o = self.find_step(pos);
        let ghost a = self@.order;
        proof {
            let o2 = step_of(a, pos as nat);
            assert(a[o2] == a[o as int]);
            assert(o2 == o as int);
        }
        if o < self.current_offset {
            self.current_offset = self.current_offset - 1;
        }
        self.tracks.remove(pos);
        self.play_order.remove(o);
        let ghost b0 = self@.order;
        let ghost before = self@;
        let mut i: usize = 0;
        while i < self.play_order.len()
            invariant
                self@ == before.with_order(self@.order),
                0 <= o < a.len(),
                b0 == a.remove(o as int),
                self@.order.len() == b0.len(),
                i <= b0.len(),
                forall|t: int| 0 <= t < i ==> self@.order[t] == renumbered(#[trigger] b0[t], pos as nat),
                forall|t: int| i <= t < b0.len() ==> self@.order[t] == b0[t],
            decreases b0.len() - i,
        {
            let x = self.play_order[i];
            if x > pos {
                self.play_order.set(i, x - 1);
            }
            i = i + 1;
        }
        proof {
            assert(self@.order =~= b0.map_values(|x: usize| renumbered(x, pos as nat)));
        }
    }

    /// Removes the tracks at the given positions, all of which refer to the
    /// queue as it was before the call. When one of them was the current
    /// track, returns the track that is current afterwards (the one that
    /// followed it in play), else `None`. When a position is out of range,
    /// nothing changes and `None` is returned.
    pub fn remove_tracks(&mut self, positions: &[u32]) -> (r: Option<Track>)
        requires
            old(self)@.wf(),
        ensures
            final(self)@.wf(),
            old(self)@.remove_rel(final(self)@, positions@, r),

    {
        let n = self.tracks.len();
        let mut j: usize = 0;
        while j < positions.len()
            invariant
                self@ == old(self)@,
                old(self)@.wf(),
                j <= positions@.len(),
                n == old(self)@.len(),
                forall|t: int| 0 <= t < j ==> (positions@[t] as int) < n,
            decreases positions@.len() - j,
        {
            if positions[j] as usize >= n {
                return None;
            }
            j = j + 1;
        }
        let mut marked: Vec<bool> = Vec::new();
        let mut x: usize = 0;
        while x < n
            invariant
                self@ == old(self)@,
                x <= n,
                marked@ =~= Seq::new(x as nat, |y: int| false),
            decreases n - x,
        {
            marked.push(false);
            x = x + 1;
        }
        assert(marked@ =~= marks_upto(positions@, 0, n as nat));
        j = 0;
        while j < positions.len()
            invariant
                self@ == old(self)@,
                n == old(self)@.len(),
                j <= positions@.len(),
                forall|t: int| 0 <= t < positions@.len() ==> (positions@[t] as int) < n,
                marked@ == marks_upto(positions@, j as int, n as nat),
            decreases positions@.len() - j,
        {
            let p = positions[j] as usize;
            marked.set(p, true);
            proof {
                let next = marks_upto(positions@, j + 1, n as nat);
                assert forall|y: int| 0 <= y < n implies marked@[y] == #[trigger] next[y] by {
                    if y == p {
                        assert(positions@[j as int] as int == y);
                    } else {
                        if next[y] {
                            let t = choose|t: int| 0 <= t < j + 1 && positions@[t] as int == y;
                            assert(t < j);
                        }
                    }
                }
                assert(marked@ =~= next);
            }
            j = j + 1;
        }
        assert(marked@ == marks(positions@, n as nat));
        let play_next = self.current_offset < self.play_order.len() && marked[self.current_position()];
        let mut k: usize = n;
        while k > 0
            invariant
                k <= n,
                n == old(self)@.len(),
                marked@.len() == n,
                self@.wf(),
                self@.len() >= k,
                self@.without_marked(marked@, k as nat) == old(self)@.without_marked(marked@, n as nat),
            decreases k,
        {
            k = k - 1;
            if marked[k] {
                self.remove_position(k);
            }
        }
        proof {
            lemma_without_marked_tracks(old(self)@, marked@, n as nat);
            assert(old(self)@.tracks.subrange(0, n as int) =~= old(self)@.tracks);
            assert(old(self)@.tracks.subrange(n as int, n as int) =~= Seq::<Track>::empty());
            assert(unmarked(old(self)@.tracks, marked@) + Seq::<Track>::empty() =~= unmarked(old(self)@.tracks, marked@));
        }
        if play_next {
            self.current_track()
        } else {
            None
        }
    }

    /// Inserts tracks right after `position` (see [`QueueView::inserted`]);
    /// into an empty queue, as [`QueueManager::replace_with_tracks`] does.
    /// When shuffling, the steps after the current one are drawn anew.
    fn insert_after(&mut self, position: usize, tracks: &[Track])
        requires
            old(self)@.wf(),
            old(self)@.len() + tracks@.len() <= usize::MAX,
        ensures
            final(self)@.wf(),
            old(self)@.len() == 0 ==> {
                &&& final(self)@.tracks == tracks@
                &&& final(self)@.offset == 0
                &&& final(self)@.repeat == old(self)@.repeat
                &&& final(self)@.shuffle == old(self)@.shuffle
                &&& !old(self)@.shuffle ==> final(self)@.order == identity(tracks@.len())
            },
            old(self)@.len() > 0 && !old(self)@.shuffle ==> final(self)@ == old(self)@.inserted(
                position as nat,
                tracks@,
            ),
            old(self)@.len() > 0 && old(self)@.shuffle ==> ({
                let ins = old(self)@.inserted(position as nat, tracks@);
                ins.reordered(final(self)@, step_after(ins.offset, ins.len()), ins.len() as int)
            }),
    {
        let n = self.tracks.len();
        if n == 0 {
            self.replace_with_tracks(tracks);
            return;
        }
        let m = tracks.len();
        let at = if position < n { position + 1 } else { n };
        let q = if self.shuffle { n } else { at };
        let ghost target = old(self)@.inserted(position as nat, tracks@);
        proof {
            lemma_inserted(old(self)@, position as nat, tracks@);
            lemma_inserted_order(old(self)@.order, n as nat, at as nat, m as nat, q as int);
        }
        let ghost want = target.order;
        let mut order: Vec<usize> = Vec::new();
        let mut t: usize = 0;
        while t < q
            invariant
                self@ == old(self)@,
                old(self)@.wf(),
                want.len() == n + m,
                n == self@.len(),
                q <= n,
                at <= n,
                n + m <= usize::MAX,
                t <= q,
                want == inserted_order(self@.order, at as nat, m as nat, q as int),
                order@ == want.subrange(0, t as int),
                forall|i: int| 0 <= i < q ==> #[trigger] want[i] == shifted(self@.order[i], at as nat, m as nat),
            decreases q - t,
        {
            let x = self.play_order[t];
            order.push(if x >= at { x + m } else { x });
            t = t + 1;
            assert(order@ =~= want.subrange(0, t as int));
        }
        let mut i: usize = 0;
        while i < m
            invariant
                self@ == old(self)@,
                old(self)@.wf(),
                want.len() == n + m,
                n == self@.len(),
                q <= n,
                at <= n,
                n + m <= usize::MAX,
                i <= m,
                want == inserted_order(self@.order, at as nat, m as nat, q as int),
                order@ == want.subrange(0, q + i),
            decreases m - i,
        {
            order.push(at + i);
            i = i + 1;
            assert(order@ =~= want.subrange(0, q + i));
        }
        let mut t: usize = q;
        while t < n
            invariant
                self@ == old(self)@,
                old(self)@.wf(),
                want.len() == n + m,
                n == self@.len(),
                q <= n,
                at <= n,
                n + m <= usize::MAX,
                q <= t <= n,
                want == inserted_order(self@.order, at as nat, m as nat, q as int),
                order@ == want.subrange(0, t + m),
                forall|i: int| q <= i < n ==> #[trigger] want[i + m] == shifted(self@.order[i], at as nat, m as nat),
            decreases n - t,
        {
            let x = self.play_order[t];
            order.push(if x >= at { x + m } else { x });
            t = t + 1;
            assert(order@ =~= want.subrange(0, t + m));
        }
        assert(order@ =~= want);
        let mut tail = self.tracks.split_off(at);
        let mut added = copy_tracks(tracks);
        self.tracks.append(&mut added);
        self.tracks.append(&mut tail);
        self.play_order = order;
        if self.current_offset < n && q <= self.current_offset {
            self.current_offset = self.current_offset + m;
        }
        assert(self@.tracks =~= target.tracks);
        assert(self@ == target);
        if self.shuffle {
            let c = self.current_offset;
            let lo = if c < n + m { c + 1 } else { n + m };
            self.shuffle_from(lo);
        }
    }

    /// Inserts tracks right after `position`; see
    /// [`QueueManager::insert_after`].
    pub fn insert_tracks(&mut self, position: u32, tracks: &[Track])
        requires
            old(self)@.wf(),
            old(self)@.len() + tracks@.len() <= usize::MAX,
        ensures
            final(self)@.wf(),
            old(self)@.insert_rel(final(self)@, position as nat, tracks@),

    {
        proof { lemma_inserted(self@, position as nat, tracks@); }
        self.insert_after(position as usize, tracks);
    }

    /// Inserts tracks to be played right after the current one.
    pub fn queue_tracks(&mut self, tracks: &[Track])
        requires
            old(self)@.wf(),
            old(self)@.len() + tracks@.len() <= usize::MAX,
        ensures
            final(self)@.wf(),
            old(self)@.queue_rel(final(self)@, tracks@),

    {
        proof { lemma_inserted(self@, self@.current_position(), tracks@); }
        let pos = self.current_position();
        self.insert_after(pos, tracks);
    }

    /// Empties the queue. With `exclude_current`, the current track (if
    /// any) stays as the only one. Returns whether playback should stop.
    pub fn clear(&mut self, exclude_current: bool) -> (r: bool)
        requires
            old(self)@.wf(),
        ensures
            final(self)@.wf(),
            old(self)@.clear_rel(final(self)@, exclude_current, r),

    {
        let current = self.current_track();
        self.current_offset = 0;
        self.tracks.clear();
        self.play_order.clear();
        if exclude_current {
            if let Some(track) = current {
                self.tracks.push(track);
                self.play_order.push(0);
                assert(self@.order =~= identity(1));
                proof { lemma_identity_is_order(1); }
            }
        }
        proof { lemma_identity_is_order(0); assert(self@.order.len() > 0 || self@.order =~= identity(0)); }
        !exclude_current
    }

    /// The tracks in insertion order.
    pub fn tracks(&self) -> (r: &[Track])
        ensures
            r@ == self@.tracks,
    {
        self.tracks.as_slice()
    }

    /// The positions in the order they are played.
    pub fn play_order(&self) -> (r: &[usize])
        ensures
            r@ == self@.order,
    {
        self.play_order.as_slice()
    }

    /// The current step of play.
    pub fn current_offset(&self) -> (r: usize)
        ensures
            r == self@.offset,
    {
        self.current_offset
    }

    pub fn is_shuffle(&self) -> (r: bool)
        ensures
            r == self@.shuffle,
    {
        self.shuffle
    }

    pub fn is_repeat(&self) -> (r: bool)
        ensures
            r == self@.repeat,
    {
        self.repeat
    }

    pub fn set_repeat(&mut self, repeat: bool)
        ensures
            final(self)@ == (QueueView { repeat, ..old(self)@ }),
    {
        self.repeat = repeat;
    }

    /// The number of tracks in the queue.
    pub fn len(&self) -> (r: usize)
        ensures
            r == self@.len(),
    {
        self.tracks.len()
    }

    /// A snapshot of the queue for clients.
    pub fn snapshot(&self) -> (r: Queue)
        requires
            self@.wf(),
        ensures
            r.current_position == self@.current_position() as u32,
            r.tracks@ == self@.tracks,
    {
        let elapsed = self.created_at.elapsed();
        Queue {
            timestamp: elapsed.as_secs(),
            current_position: self.current_position() as u32,
            tracks: copy_tracks(self.tracks.as_slice()),
        }
    }
}

} // verus!

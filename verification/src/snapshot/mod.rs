//! Snapshot storage for rollback: a bounded history of per-frame snapshots, newest first.

pub mod id_map;
pub mod rollback;
pub mod rollback_entity_map;
pub mod component_snapshot;
pub mod checksum;
pub mod entity;
pub mod strategy;
pub mod resource_snapshot;
pub mod childof_snapshot;
pub mod despawn;

use std::collections::VecDeque;
use std::marker::PhantomData;
use vstd::prelude::*;

verus! {

/// Default snapshot depth, matching the default rollback frame rate.
pub const DEFAULT_FPS: usize = 60;

/// Half of the `u32` range: two frames further apart than this are taken to have wrapped
/// around the `i32` frame counter.
pub const WRAP_THRESHOLD: u32 = 0x7fff_ffff;

/// Keeps track of the current frame the rollback simulation is in.
#[derive(Debug, Clone, Copy, PartialEq, Eq, Structural, PartialOrd, Ord, Hash)]
pub struct RollbackFrameCount(pub i32);

/// The most recently confirmed frame. Any information for frames stored before this point can
/// be safely discarded.
#[derive(Debug, Clone, Copy, PartialEq, Eq, Structural, PartialOrd, Ord, Hash)]
pub struct ConfirmedFrameCount(pub i32);

impl Default for RollbackFrameCount {
    /// Frame 0.
    fn default() -> (r: Self)
        ensures
            r.0 == 0,
    {
        RollbackFrameCount(0)
    }
}

impl Default for ConfirmedFrameCount {
    /// Frame 0.
    fn default() -> (r: Self)
        ensures
            r.0 == 0,
    {
        ConfirmedFrameCount(0)
    }
}

impl From<RollbackFrameCount> for i32 {
    /// The frame number held.
    fn from(value: RollbackFrameCount) -> (r: i32) {
        value.0
    }
}

impl vstd::std_specs::convert::FromSpecImpl<RollbackFrameCount> for i32 {
    open spec fn obeys_from_spec() -> bool {
        true
    }

    open spec fn from_spec(v: RollbackFrameCount) -> i32 {
        v.0
    }
}

impl From<ConfirmedFrameCount> for i32 {
    /// The frame number held.
    fn from(value: ConfirmedFrameCount) -> (r: i32) {
        value.0
    }
}

impl vstd::std_specs::convert::FromSpecImpl<ConfirmedFrameCount> for i32 {
    open spec fn obeys_from_spec() -> bool {
        true
    }

    open spec fn from_spec(v: ConfirmedFrameCount) -> i32 {
        v.0
    }
}

impl RollbackFrameCount {
    /// The frame number held.
    pub fn frame(&self) -> (r: i32)
        ensures
            r == self.0,
    {
        self.0
    }
}

impl ConfirmedFrameCount {
    /// The frame number held.
    pub fn frame(&self) -> (r: i32)
        ensures
            r == self.0,
    {
        self.0
    }
}

/// The distance between two frame numbers, `|a - b|`.
pub open spec fn spec_frame_distance(a: i32, b: i32) -> int {
    if a >= b {
        a - b
    } else {
        b - a
    }
}

/// `current` is the same frame as `frame`, or a later one, on the wrapping `i32` frame clock:
/// frames further apart than half the `u32` range are taken to have wrapped around.
pub open spec fn frame_at_or_after(current: i32, frame: i32) -> bool {
    let wrapped = spec_frame_distance(current, frame) > WRAP_THRESHOLD;
    (current >= frame && !wrapped) || (frame >= current && wrapped)
}

/// `a` is strictly earlier than `b` on the wrapping frame clock.
pub open spec fn frame_before(a: i32, b: i32) -> bool {
    !frame_at_or_after(a, b)
}

/// Computes `|a - b|` without overflow.
pub fn frame_distance(a: i32, b: i32) -> (r: u32)
    ensures
        r == spec_frame_distance(a, b),
{
    let d: i64 = if a >= b {
        a as i64 - b as i64
    } else {
        b as i64 - a as i64
    };
    d as u32
}

/// Decides whether the stored `current` frame is the same as, or after, `frame`.
pub fn is_frame_at_or_after(current: i32, frame: i32) -> (r: bool)
    ensures
        r == frame_at_or_after(current, frame),
{
    let wrapped = frame_distance(current, frame) > WRAP_THRESHOLD;
    let current_after_frame = current >= frame && !wrapped;
    let current_after_frame_wrapped = frame >= current && wrapped;
    current_after_frame || current_after_frame_wrapped
}

/// The number of leading frames of `frames` (newest first) that are at or after `frame`: the
/// snapshots that a push of `frame` discards.
pub open spec fn newer_prefix_len(frames: Seq<i32>, frame: i32) -> nat
    decreases frames.len(),
{
    if frames.len() > 0 && frame_at_or_after(frames[0], frame) {
        1 + newer_prefix_len(frames.drop_first(), frame)
    } else {
        0
    }
}

/// The position of the first (newest) occurrence of `frame` in `frames`, or `frames.len()` when
/// there is none.
pub open spec fn first_position(frames: Seq<i32>, frame: i32) -> nat
    decreases frames.len(),
{
    if frames.len() == 0 {
        0
    } else if frames[0] == frame {
        0
    } else {
        1 + first_position(frames.drop_first(), frame)
    }
}

/// Number of frames from the front (newest) kept by a confirmation of `confirmed`: frames are
/// dropped from the back while they are earlier than `confirmed`.
pub open spec fn confirmed_len(frames: Seq<i32>, confirmed: i32) -> nat
    decreases frames.len(),
{
    if frames.len() > 0 && frames.last() < confirmed {
        confirmed_len(frames.drop_last(), confirmed)
    } else {
        frames.len()
    }
}

/// The queue after a push: the `discarded` newest entries are dropped, `item` becomes the
/// newest, and the oldest entries beyond `depth` are evicted.
pub open spec fn pushed<T>(old: Seq<T>, discarded: nat, item: T, depth: nat) -> Seq<T> {
    let s = seq![item] + old.skip(discarded as int);
    if s.len() > depth {
        s.take(depth as int)
    } else {
        s
    }
}

/// A pushed queue is determined by its own newest entry: whatever was pushed sits at the front
/// when anything is kept at all.
pub proof fn lemma_pushed_head<T>(old: Seq<T>, discarded: nat, item: T, depth: nat)
    ensures
        pushed(old, discarded, item, depth) == pushed(
            old,
            discarded,
            pushed(old, discarded, item, depth)[0],
            depth,
        ),
{
    let p = pushed(old, discarded, item, depth);
    if depth > 0 {
        assert(p[0] == item);
    } else {
        assert(p =~= pushed(old, discarded, p[0], depth));
    }
}

/// Adjacent frames are in strictly decreasing order on the wrapping frame clock: the front is
/// the newest frame.
pub open spec fn newest_first(frames: Seq<i32>) -> bool {
    forall|i: int| 0 <= i < frames.len() - 1 ==> #[trigger] frame_before(frames[i + 1], frames[i])
}

/// What `peek` finds for `frame` among the parallel queues `frames` and `snapshots`.
pub open spec fn peek_spec<T>(frames: Seq<i32>, snapshots: Seq<T>, frame: i32) -> Option<T> {
    let p = first_position(frames, frame);
    if p < frames.len() {
        Some(snapshots[p as int])
    } else {
        None
    }
}

pub proof fn lemma_newer_prefix_len(frames: Seq<i32>, frame: i32)
    ensures
        newer_prefix_len(frames, frame) <= frames.len(),
        forall|i: int|
            0 <= i < newer_prefix_len(frames, frame) ==> frame_at_or_after(
                #[trigger] frames[i],
                frame,
            ),
        newer_prefix_len(frames, frame) < frames.len() ==> !frame_at_or_after(
            frames[newer_prefix_len(frames, frame) as int],
            frame,
        ),
    decreases frames.len(),
{
    if frames.len() > 0 && frame_at_or_after(frames[0], frame) {
        lemma_newer_prefix_len(frames.drop_first(), frame);
        assert forall|i: int| 0 <= i < newer_prefix_len(frames, frame) implies frame_at_or_after(
            #[trigger] frames[i],
            frame,
        ) by {
            if i > 0 {
                assert(frames[i] == frames.drop_first()[i - 1]);
            }
        }
    }
}

pub proof fn lemma_first_position(frames: Seq<i32>, frame: i32)
    ensures
        first_position(frames, frame) <= frames.len(),
        first_position(frames, frame) < frames.len() ==> frames[first_position(frames, frame) as int]
            == frame,
        forall|j: int| 0 <= j < first_position(frames, frame) ==> #[trigger] frames[j] != frame,
        first_position(frames, frame) == frames.len() <==> !frames.contains(frame),
    decreases frames.len(),
{
    if frames.len() > 0 && frames[0] != frame {
        lemma_first_position(frames.drop_first(), frame);
        assert forall|j: int| 0 <= j < first_position(frames, frame) implies #[trigger] frames[j]
            != frame by {
            if j > 0 {
                assert(frames[j] == frames.drop_first()[j - 1]);
            }
        }
        if frames.contains(frame) {
            let k = choose|k: int| 0 <= k < frames.len() && frames[k] == frame;
            assert(frames.drop_first()[k - 1] == frame);
        }
        if frames.drop_first().contains(frame) {
            let k = choose|k: int| 0 <= k < frames.drop_first().len() && frames.drop_first()[k] == frame;
            assert(frames[k + 1] == frame);
        }
    }
    if frames.len() > 0 && frames[0] == frame {
        assert(frames.contains(frame));
    }
}

pub proof fn lemma_confirmed_len(frames: Seq<i32>, confirmed: i32)
    ensures
        confirmed_len(frames, confirmed) <= frames.len(),
        forall|i: int|
            confirmed_len(frames, confirmed) <= i < frames.len() ==> #[trigger] frames[i]
                < confirmed,
        confirmed_len(frames, confirmed) > 0 ==> frames[confirmed_len(frames, confirmed) - 1]
            >= confirmed,
    decreases frames.len(),
{
    if frames.len() > 0 && frames.last() < confirmed {
        lemma_confirmed_len(frames.drop_last(), confirmed);
        assert forall|i: int|
            confirmed_len(frames, confirmed) <= i < frames.len() implies #[trigger] frames[i]
            < confirmed by {
            if i < frames.len() - 1 {
                assert(frames[i] == frames.drop_last()[i]);
            }
        }
    }
}

/// Collection of snapshots for a type `For`, stored as `As`, paired with the frame each was
/// taken on. Both queues hold the newest entry at the front and the oldest at the back.
pub struct GgrsSnapshots<For, As> {
    snapshots: VecDeque<As>,
    frames: VecDeque<i32>,
    depth: usize,
    _phantom: PhantomData<For>,
}

/// The capacity of a queue: how many items it holds before it must reallocate.
#[verifier::external_body]
fn queue_capacity<T>(queue: &VecDeque<T>) -> usize {
    queue.capacity()
}

impl<For, As> GgrsSnapshots<For, As> {
    /// The stored frames, newest first.
    pub closed spec fn frames(&self) -> Seq<i32> {
        self.frames@
    }

    /// The stored snapshots, newest first, in step with `frames()`.
    pub closed spec fn snapshots(&self) -> Seq<As> {
        self.snapshots@
    }

    /// The maximum amount of snapshots kept after a push.
    pub closed spec fn spec_depth(&self) -> nat {
        self.depth as nat
    }

    /// Both queues are in step, and the frames are ordered newest first.
    pub open spec fn well_formed(&self) -> bool {
        &&& self.frames().len() == self.snapshots().len()
        &&& newest_first(self.frames())
    }

    /// An empty storage with the default depth.
    pub fn new() -> (r: Self)
        ensures
            r.well_formed(),
            r.frames() == Seq::<i32>::empty(),
            r.snapshots() == Seq::<As>::empty(),
            r.spec_depth() == DEFAULT_FPS,
    {
        GgrsSnapshots {
            snapshots: VecDeque::new(),
            frames: VecDeque::new(),
            depth: DEFAULT_FPS,
            _phantom: PhantomData,
        }
    }

    /// Updates the capacity of this storage to the provided depth. Stored snapshots are kept;
    /// room for `depth` of them is reserved ahead of time.
    pub fn set_depth(&mut self, depth: usize) -> (r: &mut Self)
        requires
            old(self).well_formed(),
        ensures
            r.well_formed(),
            r.spec_depth() == depth,
            r.frames() == old(self).frames(),
            r.snapshots() == old(self).snapshots(),
            *final(self) == *final(r),
    {
        self.depth = depth;
        let snapshots_capacity = queue_capacity(&self.snapshots);
        if snapshots_capacity < self.depth {
            let additional = self.depth - snapshots_capacity;
            self.snapshots.reserve(additional);
        }
        let frames_capacity = queue_capacity(&self.frames);
        if frames_capacity < self.depth {
            let additional = self.depth - frames_capacity;
            self.frames.reserve(additional);
        }
        self
    }

    /// Get the current capacity of this snapshot storage.
    pub fn depth(&self) -> (r: usize)
        ensures
            r == self.spec_depth(),
    {
        self.depth
    }

    /// Push a new snapshot for the provided frame. Stored snapshots for the same or later frames
    /// (on the wrapping frame clock) are discarded first, and the oldest snapshots beyond the
    /// depth are evicted afterwards.
    pub fn push(&mut self, frame: i32, snapshot: As) -> (r: &mut Self)
        requires
            old(self).well_formed(),
        ensures
            r.well_formed(),
            r.spec_depth() == old(self).spec_depth(),
            r.frames() == pushed(
                old(self).frames(),
                newer_prefix_len(old(self).frames(), frame),
                frame,
                old(self).spec_depth(),
            ),
            r.snapshots() == pushed(
                old(self).snapshots(),
                newer_prefix_len(old(self).frames(), frame),
                snapshot,
                old(self).spec_depth(),
            ),
            *final(self) == *final(r),
    {
        let ghost old_frames = self.frames@;
        let ghost old_snapshots = self.snapshots@;
        let ghost k = newer_prefix_len(old_frames, frame);
        proof {
            lemma_newer_prefix_len(old_frames, frame);
        }
        let initial_len = self.frames.len();
        let mut popped: usize = 0;
        loop
            invariant
                old_frames.len() == initial_len,
                old_frames.len() == old_snapshots.len(),
                newest_first(old_frames),
                k == newer_prefix_len(old_frames, frame),
                k <= old_frames.len(),
                forall|i: int| 0 <= i < k ==> frame_at_or_after(#[trigger] old_frames[i], frame),
                k < old_frames.len() ==> !frame_at_or_after(old_frames[k as int], frame),
                popped <= k,
                self.frames@ == old_frames.skip(popped as int),
                self.snapshots@ == old_snapshots.skip(popped as int),
                self.depth == old(self).depth,
            ensures
                popped == k,
                self.frames@ == old_frames.skip(k as int),
                self.snapshots@ == old_snapshots.skip(k as int),
                self.depth == old(self).depth,
            decreases old_frames.len() - popped,
        {
            if self.frames.len() == 0 {
                break;
            }
            let current = self.frames[0];
            assert(current == old_frames[popped as int]);
            if is_frame_at_or_after(current, frame) {
                self.snapshots.pop_front().unwrap();
                self.frames.pop_front().unwrap();
                popped = popped + 1;
                assert(self.frames@ =~= old_frames.skip(popped as int));
                assert(self.snapshots@ =~= old_snapshots.skip(popped as int));
            } else {
                break;
            }
        }
        self.snapshots.push_front(snapshot);
        self.frames.push_front(frame);
        let ghost full_frames = self.frames@;
        let ghost full_snapshots = self.snapshots@;
        assert(full_frames =~= seq![frame] + old_frames.skip(k as int));
        assert(full_snapshots =~= seq![snapshot] + old_snapshots.skip(k as int));
        assert(newest_first(full_frames)) by {
            assert forall|i: int| 0 <= i < full_frames.len() - 1 implies #[trigger] frame_before(
                full_frames[i + 1],
                full_frames[i],
            ) by {
                if i > 0 {
                    assert(full_frames[i] == old_frames[k + i - 1]);
                    assert(full_frames[i + 1] == old_frames[k + i]);
                    assert(frame_before(old_frames[(k + i - 1) + 1], old_frames[k + i - 1]));
                } else {
                    assert(full_frames[1] == old_frames[k as int]);
                }
            }
        }
        while self.snapshots.len() > self.depth
            invariant
                self.frames@.len() == self.snapshots@.len(),
                self.frames@.len() <= full_frames.len(),
                full_snapshots.len() == full_frames.len(),
                self.frames@ == full_frames.take(self.frames@.len() as int),
                self.snapshots@ == full_snapshots.take(self.frames@.len() as int),
                full_frames.len() > self.depth ==> self.frames@.len() >= self.depth,
                full_frames.len() <= self.depth ==> self.frames@.len() == full_frames.len(),
                newest_first(full_frames),
                self.depth == old(self).depth,
            decreases self.snapshots@.len(),
        {
            self.snapshots.pop_back().unwrap();
            self.frames.pop_back().unwrap();
            assert(self.frames@ =~= full_frames.take(self.frames@.len() as int));
            assert(self.snapshots@ =~= full_snapshots.take(self.frames@.len() as int));
        }
        assert(self.frames@ =~= pushed(old_frames, k, frame, self.depth as nat));
        assert(self.snapshots@ =~= pushed(old_snapshots, k, snapshot, self.depth as nat));
        assert(newest_first(self.frames@)) by {
            assert forall|i: int| 0 <= i < self.frames@.len() - 1 implies #[trigger] frame_before(
                self.frames@[i + 1],
                self.frames@[i],
            ) by {
                assert(self.frames@[i] == full_frames[i]);
                assert(self.frames@[i + 1] == full_frames[i + 1]);
            }
        }
        self
    }
}


impl<For, As> GgrsSnapshots<For, As> {
    /// Confirms a snapshot as being stable across clients. Snapshots from before this point
    /// are discarded from the back (oldest end) as no longer required.
    pub fn confirm(&mut self, confirmed_frame: i32) -> (r: &mut Self)
        requires
            old(self).well_formed(),
        ensures
            r.well_formed(),
            r.spec_depth() == old(self).spec_depth(),
            r.frames() == old(self).frames().take(
                confirmed_len(old(self).frames(), confirmed_frame) as int,
            ),
            r.snapshots() == old(self).snapshots().take(
                confirmed_len(old(self).frames(), confirmed_frame) as int,
            ),
            *final(self) == *final(r),
    {
        let ghost old_frames = self.frames@;
        let ghost old_snapshots = self.snapshots@;
        while self.frames.len() > 0 && self.frames[self.frames.len() - 1] < confirmed_frame
            invariant
                old_frames.len() == old_snapshots.len(),
                newest_first(old_frames),
                self.frames@.len() <= old_frames.len(),
                self.frames@.len() == self.snapshots@.len(),
                self.frames@ == old_frames.take(self.frames@.len() as int),
                self.snapshots@ == old_snapshots.take(self.frames@.len() as int),
                confirmed_len(old_frames, confirmed_frame) == confirmed_len(
                    self.frames@,
                    confirmed_frame,
                ),
                self.depth == old(self).depth,
            decreases self.frames@.len(),
        {
            let ghost before = self.frames@;
            self.snapshots.pop_back().unwrap();
            self.frames.pop_back().unwrap();
            assert(self.frames@ =~= before.drop_last());
            assert(self.frames@ =~= old_frames.take(self.frames@.len() as int));
            assert(self.snapshots@ =~= old_snapshots.take(self.frames@.len() as int));
        }
        assert(newest_first(self.frames@)) by {
            assert forall|i: int| 0 <= i < self.frames@.len() - 1 implies #[trigger] frame_before(
                self.frames@[i + 1],
                self.frames@[i],
            ) by {
                assert(self.frames@[i] == old_frames[i]);
                assert(self.frames@[i + 1] == old_frames[i + 1]);
            }
        }
        self
    }

    /// Rolls back to the provided frame, discarding snapshots taken after the rollback point,
    /// so that the newest stored snapshot is the one taken on `frame`.
    pub fn rollback(&mut self, frame: i32) -> (r: &mut Self)
        requires
            old(self).well_formed(),
            old(self).frames().contains(frame),
        ensures
            r.well_formed(),
            r.spec_depth() == old(self).spec_depth(),
            r.frames() == old(self).frames().skip(
                first_position(old(self).frames(), frame) as int,
            ),
            r.snapshots() == old(self).snapshots().skip(
                first_position(old(self).frames(), frame) as int,
            ),
            r.frames().len() > 0,
            r.frames()[0] == frame,
            *final(self) == *final(r),
    {
        let ghost old_frames = self.frames@;
        let ghost old_snapshots = self.snapshots@;
        let ghost p = first_position(old_frames, frame);
        proof {
            lemma_first_position(old_frames, frame);
        }
        let initial_len = self.frames.len();
        let mut popped: usize = 0;
        while self.frames[0] != frame
            invariant
                old_frames.len() == old_snapshots.len(),
                old_frames.len() == initial_len,
                newest_first(old_frames),
                p < old_frames.len(),
                old_frames[p as int] == frame,
                forall|j: int| 0 <= j < p ==> #[trigger] old_frames[j] != frame,
                popped <= p,
                self.frames@ == old_frames.skip(popped as int),
                self.snapshots@ == old_snapshots.skip(popped as int),
                self.depth == old(self).depth,
            decreases old_frames.len() - popped,
        {
            assert(self.frames@[0] == old_frames[popped as int]);
            self.snapshots.pop_front().unwrap();
            self.frames.pop_front().unwrap();
            popped = popped + 1;
            assert(self.frames@ =~= old_frames.skip(popped as int));
            assert(self.snapshots@ =~= old_snapshots.skip(popped as int));
        }
        assert(self.frames@[0] == old_frames[popped as int]);
        assert(popped == p);
        assert(newest_first(self.frames@)) by {
            assert forall|i: int| 0 <= i < self.frames@.len() - 1 implies #[trigger] frame_before(
                self.frames@[i + 1],
                self.frames@[i],
            ) by {
                assert(self.frames@[i] == old_frames[p + i]);
                assert(self.frames@[i + 1] == old_frames[(p + i) + 1]);
            }
        }
        self
    }

    /// Rolls back to `frame` as `rollback` does when a snapshot for `frame` is stored, and
    /// otherwise leaves the storage unchanged and reports the missing frame.
    pub fn try_rollback(&mut self, frame: i32) -> (r: Result<(), MissingSnapshot>)
        requires
            old(self).well_formed(),
        ensures
            final(self).well_formed(),
            final(self).spec_depth() == old(self).spec_depth(),
            r is Ok <==> old(self).frames().contains(frame),
            r is Ok ==> final(self).frames() == old(self).frames().skip(
                first_position(old(self).frames(), frame) as int,
            ) && final(self).snapshots() == old(self).snapshots().skip(
                first_position(old(self).frames(), frame) as int,
            ),
            r is Err ==> *final(self) == *old(self) && r == Err::<(), MissingSnapshot>(
                MissingSnapshot { frame },
            ),
    {
        if self.contains_frame(frame) {
            self.rollback(frame);
            Ok(())
        } else {
            Err(MissingSnapshot { frame })
        }
    }

    /// Whether a snapshot for `frame` is stored.
    pub fn contains_frame(&self, frame: i32) -> (r: bool)
        ensures
            r == self.frames().contains(frame),
    {
        let n = self.frames.len();
        let mut i: usize = 0;
        while i < n
            invariant
                n == self.frames@.len(),
                i <= n,
                forall|j: int| 0 <= j < i ==> #[trigger] self.frames@[j] != frame,
            decreases n - i,
        {
            if self.frames[i] == frame {
                return true;
            }
            i = i + 1;
        }
        false
    }

    /// Get the current (newest) snapshot. Use `rollback(frame)` to first select a frame to roll
    /// back to.
    pub fn get(&self) -> (r: &As)
        requires
            self.well_formed(),
            self.frames().len() > 0,
        ensures
            *r == self.snapshots()[0],
    {
        &self.snapshots[0]
    }

    /// Get the snapshot stored for a particular frame, if there is one (the newest such).
    pub fn peek(&self, frame: i32) -> (r: Option<&As>)
        requires
            self.well_formed(),
        ensures
            match r {
                Some(s) => peek_spec(self.frames(), self.snapshots(), frame) == Some(*s),
                None => peek_spec(self.frames(), self.snapshots(), frame) is None,
            },
    {
        proof {
            lemma_first_position(self.frames@, frame);
        }
        let n = self.frames.len();
        let mut i: usize = 0;
        while i < n
            invariant
                n == self.frames@.len(),
                n == self.snapshots@.len(),
                i <= n,
                forall|j: int| 0 <= j < i ==> #[trigger] self.frames@[j] != frame,
                first_position(self.frames@, frame) <= n,
                first_position(self.frames@, frame) < n ==> self.frames@[first_position(
                    self.frames@,
                    frame,
                ) as int] == frame,
                forall|j: int|
                    0 <= j < first_position(self.frames@, frame) ==> #[trigger] self.frames@[j]
                        != frame,
            decreases n - i,
        {
            if self.frames[i] == frame {
                assert(i == first_position(self.frames@, frame));
                return Some(&self.snapshots[i]);
            }
            i = i + 1;
        }
        None
    }

    /// Confirms the provided [`ConfirmedFrameCount`], if there is one, discarding older
    /// snapshots; without one the storage is left unchanged.
    pub fn discard_old_snapshots(&mut self, confirmed_frame: Option<&ConfirmedFrameCount>)
        requires
            old(self).well_formed(),
        ensures
            final(self).well_formed(),
            final(self).spec_depth() == old(self).spec_depth(),
            match confirmed_frame {
                Some(c) => final(self).frames() == old(self).frames().take(
                    confirmed_len(old(self).frames(), c.0) as int,
                ) && final(self).snapshots() == old(self).snapshots().take(
                    confirmed_len(old(self).frames(), c.0) as int,
                ),
                None => *final(self) == *old(self),
            },
    {
        match confirmed_frame {
            Some(confirmed) => {
                self.confirm(confirmed.0);
            },
            None => {},
        }
    }

    /// Syncs the snapshot depth to the [`MaxPredictionWindow`], if there is one, so that
    /// snapshots are never evicted before they may be needed.
    pub fn sync_depth(&mut self, max_prediction: Option<&MaxPredictionWindow>)
        requires
            old(self).well_formed(),
        ensures
            final(self).well_formed(),
            final(self).frames() == old(self).frames(),
            final(self).snapshots() == old(self).snapshots(),
            match max_prediction {
                Some(m) => final(self).spec_depth() == m.0,
                None => *final(self) == *old(self),
            },
    {
        match max_prediction {
            Some(max_prediction) => {
                self.set_depth(max_prediction.0);
            },
            None => {},
        }
    }
}

impl<For, As> Default for GgrsSnapshots<For, As> {
    /// An empty storage whose depth is the default frame rate; it is synced to the
    /// [`MaxPredictionWindow`] before every save.
    fn default() -> (r: Self)
        ensures
            r.well_formed(),
            r.frames() == Seq::<i32>::empty(),
            r.snapshots() == Seq::<As>::empty(),
            r.spec_depth() == DEFAULT_FPS,
    {
        Self::new()
    }
}

/// The maximum prediction window of the running session.
pub struct MaxPredictionWindow(pub usize);

/// Reported when a rollback is requested to a frame with no stored snapshot.
#[derive(Debug, Clone, Copy, PartialEq, Eq, Structural)]
pub struct MissingSnapshot {
    /// The frame that was requested.
    pub frame: i32,
}


/// A push of `frame` with a depth of at least one makes its snapshot the one found for
/// `frame`, and the newest one stored.
pub proof fn law_push_then_peek<T>(
    frames: Seq<i32>,
    snapshots: Seq<T>,
    frame: i32,
    snapshot: T,
    depth: nat,
)
    requires
        frames.len() == snapshots.len(),
        depth > 0,
    ensures
        ({
            let k = newer_prefix_len(frames, frame);
            let new_frames = pushed(frames, k, frame, depth);
            let new_snapshots = pushed(snapshots, k, snapshot, depth);
            &&& peek_spec(new_frames, new_snapshots, frame) == Some(snapshot)
            &&& new_frames[0] == frame
            &&& new_snapshots[0] == snapshot
        }),
{
    let k = newer_prefix_len(frames, frame);
    lemma_newer_prefix_len(frames, frame);
    let new_frames = pushed(frames, k, frame, depth);
    assert(new_frames[0] == frame);
    assert(first_position(new_frames, frame) == 0);
}

/// After a push, no more snapshots than the depth are stored.
pub proof fn law_push_within_depth<T>(frames: Seq<i32>, items: Seq<T>, frame: i32, item: T, depth: nat)
    requires
        frames.len() == items.len(),
    ensures
        pushed(items, newer_prefix_len(frames, frame), item, depth).len() <= depth,
{
    lemma_newer_prefix_len(frames, frame);
}

/// A push keeps the stored history that is older than the pushed frame, in order and up to
/// the depth, and discards every stored frame at or after it: what follows the pushed snapshot
/// is exactly the older entries that fit.
pub proof fn law_push_keeps_older_history<T>(
    frames: Seq<i32>,
    items: Seq<T>,
    frame: i32,
    item: T,
    depth: nat,
)
    requires
        frames.len() == items.len(),
        newest_first(frames),
        depth > 0,
    ensures
        ({
            let k = newer_prefix_len(frames, frame);
            let new_frames = pushed(frames, k, frame, depth);
            let new_items = pushed(items, k, item, depth);
            &&& forall|i: int|
                0 <= i < k ==> frame_at_or_after(#[trigger] frames[i], frame)
            &&& forall|i: int|
                1 <= i < new_frames.len() ==> new_frames[i] == frames[k + i - 1] && new_items[i]
                    == items[k + i - 1]
            &&& new_frames.len() == if frames.len() - k + 1 > depth {
                depth as int
            } else {
                frames.len() - k + 1
            }
            &&& new_frames.len() > 1 ==> frame_before(new_frames[1], frame)
        }),
{
    lemma_newer_prefix_len(frames, frame);
}

/// Rolling back to a stored frame leaves, as the newest snapshot, exactly the snapshot that
/// `peek` found for that frame beforehand.
pub proof fn law_rollback_then_get<T>(frames: Seq<i32>, snapshots: Seq<T>, frame: i32)
    requires
        frames.len() == snapshots.len(),
        frames.contains(frame),
    ensures
        ({
            let p = first_position(frames, frame) as int;
            &&& frames.skip(p)[0] == frame
            &&& peek_spec(frames, snapshots, frame) == Some(snapshots.skip(p)[0])
            &&& peek_spec(frames.skip(p), snapshots.skip(p), frame) == peek_spec(
                frames,
                snapshots,
                frame,
            )
        }),
{
    lemma_first_position(frames, frame);
    let p = first_position(frames, frame) as int;
    assert(frames.skip(p)[0] == frame);
    assert(first_position(frames.skip(p), frame) == 0);
}

/// Confirming a frame only discards snapshots of earlier frames: every stored frame at or after
/// the confirmed one is still found, with the same snapshot, and every discarded frame was
/// earlier than the confirmed one.
pub proof fn law_confirm_keeps_confirmed<T>(
    frames: Seq<i32>,
    snapshots: Seq<T>,
    confirmed: i32,
    frame: i32,
)
    requires
        frames.len() == snapshots.len(),
    ensures
        ({
            let m = confirmed_len(frames, confirmed) as int;
            &&& frames.contains(frame) && frame >= confirmed ==> peek_spec(
                frames.take(m),
                snapshots.take(m),
                frame,
            ) == peek_spec(frames, snapshots, frame)
            &&& forall|i: int| m <= i < frames.len() ==> #[trigger] frames[i] < confirmed
        }),
{
    lemma_confirmed_len(frames, confirmed);
    lemma_first_position(frames, frame);
    let m = confirmed_len(frames, confirmed) as int;
    if frames.contains(frame) && frame >= confirmed {
        let p = first_position(frames, frame) as int;
        assert(p < m) by {
            if p >= m {
                assert(frames[p] < confirmed);
            }
        }
        lemma_first_position(frames.take(m), frame);
        let q = first_position(frames.take(m), frame) as int;
        assert(frames.take(m)[p] == frame);
        assert(frames.take(m).contains(frame));
        assert(q == p) by {
            if q < p {
                assert(frames[q] == frames.take(m)[q]);
            } else if q > p {
                assert(frames.take(m)[p] == frame);
            }
        }
    }
}

} // verus!

//! Frame-local state that follows rollbacks: a system keeps one value per frame it ran on, and
//! after a rollback it reads the value that was current at the frame it was rolled back to.

use vstd::prelude::*;

verus! {

/// The number of rollbacks that have happened so far (the rollback generation).
pub struct Rollbacks(pub usize);

/// The frame that the most recent rollback returned to.
pub struct LastRollback(pub i32);

/// The rollback counters a frame-local value is read against.
pub struct LocalContext {
    /// The current rollback generation.
    pub rollbacks: usize,
    /// The frame the most recent rollback returned to.
    pub last_rollback: i32,
    /// The frame being simulated.
    pub current_frame: i32,
    /// The most recently confirmed frame.
    pub confirmed_frame: i32,
}

/// One saved value: the frame and rollback generation it was written in.
pub struct LocalState<T> {
    /// The rollback generation the value was written in.
    pub rollback_generation: usize,
    /// The frame the value was written on.
    pub frame: i32,
    /// The value.
    pub data: T,
}

/// Why no saved value can be read for the current frame.
#[derive(Debug, Clone, Copy, PartialEq, Eq, Structural)]
pub enum LocalStateError {
    /// A value from two or more rollback generations ago was reached: the system did not run
    /// on every frame.
    OldSnapshot,
    /// No saved value is valid for the current frame.
    NoValidSnapshot,
}

/// A saved value from the generation before the current one is still valid only if it was
/// written before the frame the last rollback returned to.
pub open spec fn state_is_valid<T>(s: LocalState<T>, ctx: LocalContext) -> bool {
    s.rollback_generation == ctx.rollbacks || (s.rollback_generation + 1 == ctx.rollbacks
        && s.frame < ctx.last_rollback)
}

/// A saved value is from the current or the previous generation.
pub open spec fn state_is_recent<T>(s: LocalState<T>, ctx: LocalContext) -> bool {
    s.rollback_generation == ctx.rollbacks || s.rollback_generation + 1 == ctx.rollbacks
}

/// Entry `i` is visited by the search: it is not after the current frame, and its generation
/// is not lower than that of the entry before it.
pub open spec fn scannable<T>(states: Seq<LocalState<T>>, current_frame: i32, i: int) -> bool {
    &&& states[i].frame <= current_frame
    &&& i > 0 ==> states[i].rollback_generation >= states[i - 1].rollback_generation
}

/// The end of the run of visited entries starting at `i`.
pub open spec fn scan_end<T>(states: Seq<LocalState<T>>, current_frame: i32, i: int) -> int
    decreases states.len() - i,
{
    if i < 0 || i >= states.len() || !scannable(states, current_frame, i) {
        i
    } else {
        scan_end(states, current_frame, i + 1)
    }
}

/// The last valid entry among the first `k`, or `-1` if there is none.
pub open spec fn last_valid<T>(states: Seq<LocalState<T>>, ctx: LocalContext, k: int) -> int
    decreases k,
{
    if k <= 0 {
        -1
    } else if state_is_valid(states[k - 1], ctx) {
        k - 1
    } else {
        last_valid(states, ctx, k - 1)
    }
}

/// The index of the saved value that best fits the current frame: among the entries visited
/// from the front, the last valid one. Reaching an entry from an older generation is an error.
pub open spec fn snapshot_index_spec<T>(states: Seq<LocalState<T>>, ctx: LocalContext) -> Result<
    int,
    LocalStateError,
> {
    let end = scan_end(states, ctx.current_frame, 0);
    if exists|j: int| 0 <= j < end && !state_is_recent(#[trigger] states[j], ctx) {
        Err(LocalStateError::OldSnapshot)
    } else if last_valid(states, ctx, end) < 0 {
        Err(LocalStateError::NoValidSnapshot)
    } else {
        Ok(last_valid(states, ctx, end))
    }
}

/// The number of leading entries written on or before `confirmed_frame`, counted from `i`.
pub open spec fn confirmed_end<T>(states: Seq<LocalState<T>>, confirmed_frame: i32, i: int) -> int
    decreases states.len() - i,
{
    if i < 0 || i >= states.len() || states[i].frame > confirmed_frame {
        i
    } else {
        confirmed_end(states, confirmed_frame, i + 1)
    }
}

/// The entries left once all but the last of the leading confirmed entries are dropped.
pub open spec fn discard_confirmed_spec<T>(states: Seq<LocalState<T>>, confirmed_frame: i32) -> Seq<
    LocalState<T>,
> {
    let c = confirmed_end(states, confirmed_frame, 0);
    if c > 0 {
        states.skip(c - 1)
    } else {
        states
    }
}

proof fn lemma_scan_end<T>(states: Seq<LocalState<T>>, current_frame: i32, i: int)
    requires
        0 <= i <= states.len(),
    ensures
        i <= scan_end(states, current_frame, i) <= states.len(),
        forall|j: int|
            i <= j < scan_end(states, current_frame, i) ==> scannable(states, current_frame, j),
        scan_end(states, current_frame, i) < states.len() ==> !scannable(
            states,
            current_frame,
            scan_end(states, current_frame, i),
        ),
    decreases states.len() - i,
{
    if i < states.len() && scannable(states, current_frame, i) {
        lemma_scan_end(states, current_frame, i + 1);
    }
}

proof fn lemma_last_valid<T>(states: Seq<LocalState<T>>, ctx: LocalContext, k: int)
    ensures
        -1 <= last_valid(states, ctx, k) < k || (k <= 0 && last_valid(states, ctx, k) == -1),
        last_valid(states, ctx, k) >= 0 ==> state_is_valid(states[last_valid(states, ctx, k)], ctx),
        forall|j: int|
            last_valid(states, ctx, k) < j < k ==> !state_is_valid(#[trigger] states[j], ctx),
    decreases k,
{
    if k > 0 && !state_is_valid(states[k - 1], ctx) {
        lemma_last_valid(states, ctx, k - 1);
    }
}

proof fn lemma_confirmed_end<T>(states: Seq<LocalState<T>>, confirmed_frame: i32, i: int)
    requires
        0 <= i <= states.len(),
    ensures
        i <= confirmed_end(states, confirmed_frame, i) <= states.len(),
        forall|j: int|
            i <= j < confirmed_end(states, confirmed_frame, i) ==> #[trigger] states[j].frame
                <= confirmed_frame,
        confirmed_end(states, confirmed_frame, i) < states.len() ==> states[confirmed_end(
            states,
            confirmed_frame,
            i,
        )].frame > confirmed_frame,
    decreases states.len() - i,
{
    if i < states.len() && states[i].frame <= confirmed_frame {
        lemma_confirmed_end(states, confirmed_frame, i + 1);
    }
}

/// The saved values after `value` is written for the current frame into `d`, whose best fit for
/// the current frame is entry `i`: the entries after `i` are dropped, and the value replaces the
/// data of entry `i` when it was written on the current frame, or is saved after it, for the
/// current frame and generation, when it was not.
pub open spec fn after_write<T>(d: Seq<LocalState<T>>, ctx: LocalContext, value: T) -> Seq<
    LocalState<T>,
> {
    let i = snapshot_index_spec(d, ctx)->Ok_0;
    let kept = d.take(i + 1);
    if kept[i].frame == ctx.current_frame {
        kept.update(i, LocalState { data: value, ..kept[i] })
    } else {
        kept.push(
            LocalState { rollback_generation: ctx.rollbacks, frame: ctx.current_frame, data: value },
        )
    }
}

proof fn lemma_scan_end_full<T>(states: Seq<LocalState<T>>, current_frame: i32, i: int)
    requires
        0 <= i <= states.len(),
        forall|j: int| i <= j < states.len() ==> scannable(states, current_frame, j),
    ensures
        scan_end(states, current_frame, i) == states.len(),
    decreases states.len() - i,
{
    if i < states.len() {
        lemma_scan_end_full(states, current_frame, i + 1);
    }
}

/// Reading right after a write, with the same counters, gives back the value written: the
/// written entry is the newest saved value and the best fit for the current frame.
pub proof fn law_read_after_write<T>(d: Seq<LocalState<T>>, ctx: LocalContext, value: T)
    requires
        snapshot_index_spec(d, ctx) is Ok,
    ensures
        ({
            let a = after_write(d, ctx, value);
            &&& a.len() > 0
            &&& snapshot_index_spec(a, ctx) == Ok::<int, LocalStateError>(a.len() - 1)
            &&& a[a.len() - 1].data == value
        }),
{
    lemma_snapshot_index_in_bounds(d, ctx);
    lemma_scan_end(d, ctx.current_frame, 0);
    let end = scan_end(d, ctx.current_frame, 0);
    lemma_last_valid(d, ctx, end);
    let i = snapshot_index_spec(d, ctx)->Ok_0;
    let a = after_write(d, ctx, value);
    assert(forall|j: int| 0 <= j < end ==> state_is_recent(#[trigger] d[j], ctx));
    assert forall|j: int| 0 <= j < a.len() implies scannable(a, ctx.current_frame, j)
        && state_is_recent(#[trigger] a[j], ctx) by {
        if j <= i {
            assert(scannable(d, ctx.current_frame, j));
            assert(state_is_recent(d[j], ctx));
            if j > 0 {
                assert(a[j - 1].rollback_generation == d[j - 1].rollback_generation);
            }
        } else {
            assert(state_is_recent(d[i], ctx));
        }
    }
    lemma_scan_end_full(a, ctx.current_frame, 0);
    assert(state_is_valid(a[a.len() - 1], ctx));
}

/// The saved values were written on strictly increasing frames, oldest first.
pub open spec fn frames_increasing<T>(states: Seq<LocalState<T>>) -> bool {
    forall|i: int, j: int| 0 <= i < j < states.len() ==> #[trigger] states[i].frame < #[trigger] states[j].frame
}

/// At most one saved value, the first, was written on or before `confirmed_frame`.
pub open spec fn one_confirmed<T>(states: Seq<LocalState<T>>, confirmed_frame: i32) -> bool {
    forall|j: int| 1 <= j < states.len() ==> #[trigger] states[j].frame > confirmed_frame
}

/// Dropping the older confirmed values keeps the frames increasing and leaves at most one
/// value written on or before the confirmed frame.
pub proof fn lemma_discard_confirmed<T>(states: Seq<LocalState<T>>, confirmed_frame: i32)
    requires
        frames_increasing(states),
    ensures
        frames_increasing(discard_confirmed_spec(states, confirmed_frame)),
        one_confirmed(discard_confirmed_spec(states, confirmed_frame), confirmed_frame),
{
    lemma_confirmed_end(states, confirmed_frame, 0);
    let c = confirmed_end(states, confirmed_frame, 0);
    let d = discard_confirmed_spec(states, confirmed_frame);
    if c > 0 {
        assert forall|i: int, j: int| 0 <= i < j < d.len() implies #[trigger] d[i].frame
            < #[trigger] d[j].frame by {
            assert(d[i] == states[c - 1 + i]);
            assert(d[j] == states[c - 1 + j]);
        }
        assert forall|j: int| 1 <= j < d.len() implies #[trigger] d[j].frame > confirmed_frame by {
            assert(d[j] == states[c - 1 + j]);
            if c - 1 + j > c {
                assert(states[c].frame < states[c - 1 + j].frame);
            }
        }
    } else {
        assert forall|j: int| 1 <= j < d.len() implies #[trigger] d[j].frame > confirmed_frame by {
            assert(states[0].frame < states[j].frame);
        }
    }
}

/// Writing a value keeps the frames increasing, whatever the value; and when the current
/// frame is after the confirmed one, it keeps at most one value on or before the confirmed
/// frame.
pub proof fn lemma_after_write_frames<T>(d: Seq<LocalState<T>>, ctx: LocalContext)
    requires
        snapshot_index_spec(d, ctx) is Ok,
        frames_increasing(d),
    ensures
        forall|v: T| frames_increasing(#[trigger] after_write(d, ctx, v)),
        one_confirmed(d, ctx.confirmed_frame) && ctx.current_frame > ctx.confirmed_frame
            ==> forall|v: T| one_confirmed(#[trigger] after_write(d, ctx, v), ctx.confirmed_frame),
{
    lemma_snapshot_index_in_bounds(d, ctx);
    lemma_scan_end(d, ctx.current_frame, 0);
    lemma_last_valid(d, ctx, scan_end(d, ctx.current_frame, 0));
    let i = snapshot_index_spec(d, ctx)->Ok_0;
    assert(scannable(d, ctx.current_frame, i));
    assert forall|v: T| frames_increasing(#[trigger] after_write(d, ctx, v)) by {
        let a = after_write(d, ctx, v);
        assert forall|x: int, y: int| 0 <= x < y < a.len() implies #[trigger] a[x].frame
            < #[trigger] a[y].frame by {
            if y <= i {
                assert(a[x].frame == d[x].frame);
                assert(a[y].frame == d[y].frame);
            } else {
                assert(a[x].frame == d[x].frame);
                if x < i {
                    assert(d[x].frame < d[i].frame);
                }
            }
        }
    }
    if one_confirmed(d, ctx.confirmed_frame) && ctx.current_frame > ctx.confirmed_frame {
        assert forall|v: T| one_confirmed(#[trigger] after_write(d, ctx, v), ctx.confirmed_frame) by {
            let a = after_write(d, ctx, v);
            assert forall|j: int| 1 <= j < a.len() implies #[trigger] a[j].frame > ctx.confirmed_frame by {
                if j <= i {
                    assert(a[j].frame == d[j].frame);
                }
            }
        }
    }
}

/// Once a value is written for a frame after the confirmed one, at most one saved value lies on
/// or before the confirmed frame, so the saved values never outgrow the frames not yet
/// confirmed; and the saved frames stay increasing.
pub proof fn law_write_keeps_one_confirmed<T>(
    states: Seq<LocalState<T>>,
    ctx: LocalContext,
    value: T,
)
    requires
        frames_increasing(states),
        snapshot_index_spec(discard_confirmed_spec(states, ctx.confirmed_frame), ctx) is Ok,
        ctx.current_frame > ctx.confirmed_frame,
    ensures
        ({
            let a = after_write(discard_confirmed_spec(states, ctx.confirmed_frame), ctx, value);
            &&& frames_increasing(a)
            &&& one_confirmed(a, ctx.confirmed_frame)
        }),
{
    lemma_discard_confirmed(states, ctx.confirmed_frame);
    lemma_after_write_frames(discard_confirmed_spec(states, ctx.confirmed_frame), ctx);
}

proof fn lemma_snapshot_index_in_bounds<T>(states: Seq<LocalState<T>>, ctx: LocalContext)
    ensures
        snapshot_index_spec(states, ctx) is Ok ==> 0 <= snapshot_index_spec(states, ctx)->Ok_0
            < states.len(),
{
    lemma_scan_end(states, ctx.current_frame, 0);
    lemma_last_valid(states, ctx, scan_end(states, ctx.current_frame, 0));
}

/// Decides whether a saved value is from the current or the previous generation.
fn is_recent<T>(s: &LocalState<T>, ctx: &LocalContext) -> (r: bool)
    ensures
        r == state_is_recent(*s, *ctx),
{
    s.rollback_generation == ctx.rollbacks || (s.rollback_generation < ctx.rollbacks
        && ctx.rollbacks - s.rollback_generation == 1)
}

/// Per-system storage of a frame-local value: the values written, oldest first, each with the
/// frame and rollback generation it was written in.
pub struct GgrsLocal<T> {
    states: Vec<LocalState<T>>,
}

impl<T> GgrsLocal<T> {
    /// The saved values, oldest first.
    pub closed spec fn states(&self) -> Seq<LocalState<T>> {
        self.states@
    }

    /// Storage holding only `initial`, saved before the first frame (frame `-1`, generation 0),
    /// since the first frame has frame count 0.
    /// The saved values were written on strictly increasing frames.
    pub open spec fn well_formed(&self) -> bool {
        frames_increasing(self.states())
    }

    pub fn new(initial: T) -> (r: Self)
        ensures
            r.well_formed(),
            r.states() == seq![LocalState { rollback_generation: 0, frame: -1i32, data: initial }],
    {
        let mut states = Vec::new();
        states.push(LocalState { rollback_generation: 0, frame: -1, data: initial });
        GgrsLocal { states }
    }

    /// The number of saved values.
    pub fn len(&self) -> (r: usize)
        ensures
            r == self.states().len(),
    {
        self.states.len()
    }

    /// Gets the index of the saved value that is the best fit for the current frame.
    pub fn snapshot_index(&self, ctx: &LocalContext) -> (r: Result<usize, LocalStateError>)
        ensures
            match r {
                Ok(i) => snapshot_index_spec(self.states(), *ctx) == Ok::<int, LocalStateError>(
                    i as int,
                ),
                Err(e) => snapshot_index_spec(self.states(), *ctx) == Err::<int, LocalStateError>(
                    e,
                ),
            },
    {
        let ghost s = self.states@;
        let ghost end = scan_end(s, ctx.current_frame, 0);
        proof {
            lemma_scan_end(s, ctx.current_frame, 0);
        }
        let n = self.states.len();
        let mut best: Option<usize> = None;
        let mut best_gen: usize = 0;
        let mut i: usize = 0;
        while i < n
            invariant_except_break
                s == self.states@,
                n == s.len(),
                i <= end,
                end == scan_end(s, ctx.current_frame, 0),
                0 <= end <= n,
                forall|j: int| 0 <= j < end ==> scannable(s, ctx.current_frame, j),
                end < n ==> !scannable(s, ctx.current_frame, end),
                i > 0 ==> best_gen == s[i - 1].rollback_generation,
                i == 0 ==> best_gen == 0,
                forall|j: int| 0 <= j < i ==> state_is_recent(#[trigger] s[j], *ctx),
                best == (if last_valid(s, *ctx, i as int) >= 0 {
                    Some(last_valid(s, *ctx, i as int) as usize)
                } else {
                    None::<usize>
                }),
            ensures
                s == self.states@,
                end == scan_end(s, ctx.current_frame, 0),
                i == end,
                forall|j: int| 0 <= j < end ==> state_is_recent(#[trigger] s[j], *ctx),
                best == (if last_valid(s, *ctx, end) >= 0 {
                    Some(last_valid(s, *ctx, end) as usize)
                } else {
                    None::<usize>
                }),
            decreases n - i,
        {
            let snapshot = &self.states[i];
            if snapshot.frame > ctx.current_frame {
                assert(!scannable(s, ctx.current_frame, i as int));
                break;
            }
            if snapshot.rollback_generation < best_gen {
                assert(!scannable(s, ctx.current_frame, i as int));
                break;
            }
            assert(scannable(s, ctx.current_frame, i as int));
            proof {
                lemma_last_valid(s, *ctx, i as int);
            }
            best_gen = snapshot.rollback_generation;
            if !is_recent(snapshot, ctx) {
                assert(!state_is_recent(s[i as int], *ctx));
                return Err(LocalStateError::OldSnapshot);
            }
            let valid = snapshot.rollback_generation == ctx.rollbacks || snapshot.frame
                < ctx.last_rollback;
            if valid {
                best = Some(i);
            }
            i = i + 1;
        }
        proof {
            lemma_last_valid(s, *ctx, end);
        }
        match best {
            Some(index) => Ok(index),
            None => Err(LocalStateError::NoValidSnapshot),
        }
    }

    /// The saved value that is the best fit for the current frame.
    pub fn get(&self, ctx: &LocalContext) -> (r: &T)
        requires
            snapshot_index_spec(self.states(), *ctx) is Ok,
        ensures
            *r == self.states()[snapshot_index_spec(self.states(), *ctx)->Ok_0].data,
    {
        proof {
            lemma_snapshot_index_in_bounds(self.states@, *ctx);
        }
        match self.snapshot_index(ctx) {
            Ok(i) => &self.states[i].data,
            Err(_) => {
                proof {
                    assert(false);
                }
                &self.states[0].data
            },
        }
    }

    /// Drops all but the last of the leading saved values written on or before
    /// `confirmed_frame`: an older value can never be read again.
    pub fn discard_confirmed(&mut self, confirmed_frame: i32)
        ensures
            final(self).states() == discard_confirmed_spec(old(self).states(), confirmed_frame),
            old(self).well_formed() ==> final(self).well_formed() && one_confirmed(
                final(self).states(),
                confirmed_frame,
            ),
    {
        let ghost s = self.states@;
        proof {
            if frames_increasing(s) {
                lemma_discard_confirmed(s, confirmed_frame);
            }
            lemma_confirmed_end(s, confirmed_frame, 0);
        }
        let n = self.states.len();
        let mut count: usize = 0;
        while count < n && self.states[count].frame <= confirmed_frame
            invariant
                s == self.states@,
                n == s.len(),
                count <= confirmed_end(s, confirmed_frame, 0),
                confirmed_end(s, confirmed_frame, 0) <= n,
                forall|j: int|
                    0 <= j < confirmed_end(s, confirmed_frame, 0) ==> #[trigger] s[j].frame
                        <= confirmed_frame,
                confirmed_end(s, confirmed_frame, 0) < n ==> s[confirmed_end(
                    s,
                    confirmed_frame,
                    0,
                )].frame > confirmed_frame,
            decreases n - count,
        {
            count = count + 1;
        }
        if count > 0 {
            let rest = self.states.split_off(count - 1);
            self.states = rest;
            assert(self.states@ =~= s.skip(count - 1));
        }
    }
}

impl<T: Clone> GgrsLocal<T> {
    /// The value to write for the current frame. Values that can no longer be read are dropped
    /// first (see `discard_confirmed`), then the values after the best fit for the current frame,
    /// which were mis-predictions. If the best fit was written on another frame, a copy of it is
    /// saved for the current frame, in the current generation, and that copy is returned.
    pub fn get_mut(&mut self, ctx: &LocalContext) -> (r: &mut T)
        requires
            snapshot_index_spec(discard_confirmed_spec(old(self).states(), ctx.confirmed_frame), *ctx) is Ok,
        ensures
            ({
                let d = discard_confirmed_spec(old(self).states(), ctx.confirmed_frame);
                let i = snapshot_index_spec(d, *ctx)->Ok_0;
                &&& final(self).states() == after_write(d, *ctx, *final(r))
                &&& d[i].frame == ctx.current_frame ==> *r == d[i].data
                &&& d[i].frame != ctx.current_frame ==> cloned::<T>(d[i].data, *r)
            }),
            old(self).well_formed() ==> final(self).well_formed(),
            old(self).well_formed() && ctx.current_frame > ctx.confirmed_frame ==> one_confirmed(
                final(self).states(),
                ctx.confirmed_frame,
            ),
    {
        self.discard_confirmed(ctx.confirmed_frame);
        proof {
            lemma_snapshot_index_in_bounds(self.states@, *ctx);
            if old(self).well_formed() {
                lemma_discard_confirmed(old(self).states(), ctx.confirmed_frame);
                lemma_after_write_frames(self.states@, *ctx);
            }
        }
        let i = match self.snapshot_index(ctx) {
            Ok(i) => i,
            Err(_) => {
                proof {
                    assert(false);
                }
                0
            },
        };
        let n = self.states.len();
        assert(i < n);
        self.states.truncate(i + 1);
        let mut index = i;
        if self.states[i].frame != ctx.current_frame {
            let data = self.states[i].data.clone();
            self.states.push(
                LocalState { rollback_generation: ctx.rollbacks, frame: ctx.current_frame, data },
            );
            index = self.states.len() - 1;
        }
        &mut self.states[index].data
    }
}

} // verus!

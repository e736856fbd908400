//! Frame animations, and the state machine that switches between them when
//! a named event is fed to it.

use vstd::prelude::*;
use crate::geometry::Rect;

verus! {

/// The sum of the frame durations.
pub open spec fn total_time(times: Seq<usize>) -> int
    decreases times.len(),
{
    if times.len() == 0 {
        0
    } else {
        total_time(times.drop_last()) + times.last()
    }
}

/// The time that has passed when frame `i` begins.
pub open spec fn elapsed_before(times: Seq<usize>, i: int) -> int {
    total_time(times.take(i))
}

/// The first frame at or after `i` whose beginning is not before `phase`,
/// and frame 0 where there is none.
pub open spec fn first_reached(times: Seq<usize>, phase: int, i: int) -> int
    decreases times.len() - i,
{
    if i < 0 || i >= times.len() {
        0
    } else if phase <= elapsed_before(times, i) {
        i
    } else {
        first_reached(times, phase, i + 1)
    }
}

/// The time before a frame grows by that frame's own duration.
pub proof fn lemma_elapsed_step(times: Seq<usize>, i: int)
    requires
        0 <= i < times.len(),
    ensures
        elapsed_before(times, i + 1) == elapsed_before(times, i) + times[i],
        elapsed_before(times, 0) == 0,
        elapsed_before(times, times.len() as int) == total_time(times),
{
    assert(times.take(i + 1).drop_last() =~= times.take(i));
    assert(times.take(times.len() as int) =~= times);
}

/// No frame begins after the animation has ended.
pub proof fn lemma_elapsed_bounded(times: Seq<usize>, i: int)
    requires
        0 <= i <= times.len(),
    ensures
        0 <= elapsed_before(times, i) <= total_time(times),
    decreases times.len() - i,
{
    if i < times.len() {
        lemma_elapsed_step(times, i);
        lemma_elapsed_bounded(times, i + 1);
        lemma_total_nonnegative(times.take(i));
    } else {
        assert(times.take(i) =~= times);
        lemma_total_nonnegative(times);
    }
}

proof fn lemma_total_nonnegative(times: Seq<usize>)
    ensures
        0 <= total_time(times),
    decreases times.len(),
{
    if times.len() > 0 {
        lemma_total_nonnegative(times.drop_last());
    }
}

/// A sequence of frames, each a region of a sprite sheet shown for a
/// number of ticks.
pub struct Animation {
    frame_rects: Vec<Rect>,
    frame_times: Vec<usize>,
    total_time: usize,
    loops: bool,
}

impl Animation {
    #[verifier::type_invariant]
    spec fn consistent(self) -> bool {
        &&& self.frame_rects.len() == self.frame_times.len()
        &&& self.total_time == total_time(self.frame_times@)
    }

    /// The regions of the sprite sheet, one per frame.
    pub closed spec fn frames(self) -> Seq<Rect> {
        self.frame_rects@
    }

    /// The duration of each frame, in ticks.
    pub closed spec fn times(self) -> Seq<usize> {
        self.frame_times@
    }

    /// Whether the animation starts over when it has ended.
    pub closed spec fn loops(self) -> bool {
        self.loops
    }

    /// The point of the animation that is shown at `now`: for a looping
    /// animation the time since `start_time`, reduced by the total
    /// duration; otherwise `now` itself.
    pub open spec fn phase(self, start_time: usize, now: usize) -> int {
        if self.loops() {
            (now - start_time) % total_time(self.times())
        } else {
            now as int
        }
    }

    /// The number of the frame that is shown at `now`.
    pub open spec fn frame_index(self, start_time: usize, now: usize) -> int {
        first_reached(self.times(), self.phase(start_time, now), 0)
    }

    /// Whether a frame can be asked for at any time from `start_time` on.
    pub open spec fn playable(self) -> bool {
        &&& self.frames().len() > 0
        &&& self.frames().len() == self.times().len()
        &&& self.loops() ==> total_time(self.times()) > 0
    }

    /// An animation of the given frames, each shown for its time.
    pub fn new(frame_rects: Vec<Rect>, frame_times: Vec<usize>, loops: bool) -> (animation: Self)
        requires
            frame_rects.len() == frame_times.len(),
            total_time(frame_times@) <= usize::MAX,
        ensures
            animation.frames() == frame_rects@,
            animation.times() == frame_times@,
            animation.loops() == loops,
    {
        let mut total: usize = 0;
        let mut i: usize = 0;
        while i < frame_times.len()
            invariant
                i <= frame_times.len(),
                total == elapsed_before(frame_times@, i as int),
                total_time(frame_times@) <= usize::MAX,
            decreases frame_times.len() - i,
        {
            proof {
                lemma_elapsed_step(frame_times@, i as int);
                lemma_elapsed_bounded(frame_times@, i + 1);
            }
            total = total + frame_times[i];
            i += 1;
        }
        proof {
            if frame_times.len() > 0 {
                lemma_elapsed_step(frame_times@, 0);
            } else {
                assert(frame_times@.take(0) =~= frame_times@);
            }
        }
        Animation { frame_rects, frame_times, total_time: total, loops }
    }

    /// Whether the animation starts over when it has ended.
    pub fn is_looping(&self) -> (loops: bool)
        ensures
            loops == self.loops(),
    {
        self.loops
    }

    /// The region of the sprite sheet to show at `now` for an animation
    /// that was started at `start_time`.
    pub fn current_frame(&self, start_time: usize, now: usize) -> (frame: Rect)
        requires
            self.playable(),
            self.loops() ==> start_time <= now,
        ensures
            0 <= self.frame_index(start_time, now) < self.frames().len(),
            frame == self.frames()[self.frame_index(start_time, now)],
    {
        proof {
            use_type_invariant(self);
        }
        let phase: usize = if self.loops {
            (now - start_time) % self.total_time
        } else {
            now
        };
        let mut frame_index: usize = 0;
        let mut elapsed: usize = 0;
        let mut i: usize = 0;
        while i < self.frame_times.len()
            invariant_except_break
                i <= self.frame_times.len(),
                elapsed == elapsed_before(self.frame_times@, i as int),
                self.total_time == total_time(self.frame_times@),
                first_reached(self.frame_times@, phase as int, 0) == first_reached(
                    self.frame_times@,
                    phase as int,
                    i as int,
                ),
                frame_index == 0,
            ensures
                frame_index == first_reached(self.frame_times@, phase as int, 0),
                frame_index < self.frame_times.len() || frame_index == 0,
            decreases self.frame_times.len() - i,
        {
            if phase <= elapsed {
                frame_index = i;
                break ;
            }
            proof {
                lemma_elapsed_step(self.frame_times@, i as int);
                lemma_elapsed_bounded(self.frame_times@, i + 1);
            }
            elapsed = elapsed + self.frame_times[i];
            i += 1;
        }
        self.frame_rects[frame_index]
    }
}

/// The state that the first arc at or after `i` leads to, among the arcs
/// that leave `state` on `event`; nothing where there is no such arc.
pub open spec fn transition_target(
    table: Seq<(usize, usize, String)>,
    state: usize,
    event: Seq<char>,
    i: int,
) -> Option<usize>
    decreases table.len() - i,
{
    if i < 0 || i >= table.len() {
        None
    } else if table[i].0 == state && table[i].2@ == event {
        Some(table[i].1)
    } else {
        transition_target(table, state, event, i + 1)
    }
}

/// A set of animations, one of them current, with arcs `(from, to, event)`
/// between them. Feeding an event follows the first arc that leaves the
/// current animation on that event and restarts the clock; an event with no
/// such arc is ignored.
pub struct AnimationSM {
    animations: Vec<Animation>,
    transitions: Vec<(usize, usize, String)>,
    start_time: usize,
    current: usize,
}

impl AnimationSM {
    #[verifier::type_invariant]
    spec fn consistent(self) -> bool {
        Self::well_formed(self.animations@, self.transitions@, self.current)
    }

    /// The current animation exists, every animation can be played, and
    /// every arc leads to an animation.
    pub open spec fn well_formed(
        animations: Seq<Animation>,
        table: Seq<(usize, usize, String)>,
        state: usize,
    ) -> bool {
        &&& state < animations.len()
        &&& forall|i: int| 0 <= i < animations.len() ==> (#[trigger] animations[i]).playable()
        &&& forall|j: int| 0 <= j < table.len() ==> (#[trigger] table[j]).1 < animations.len()
    }

    /// The animations, by state number.
    pub closed spec fn animations(self) -> Seq<Animation> {
        self.animations@
    }

    /// The arcs, in the order in which they are tried.
    pub closed spec fn table(self) -> Seq<(usize, usize, String)> {
        self.transitions@
    }

    /// The number of the current animation.
    pub closed spec fn state(self) -> usize {
        self.current
    }

    /// The tick at which the current animation was started.
    pub closed spec fn started(self) -> usize {
        self.start_time
    }

    /// The machine after `event` was fed to it at `now`.
    pub closed spec fn after(self, event: Seq<char>, now: usize) -> AnimationSM {
        match transition_target(self.transitions@, self.current, event, 0) {
            Some(to) => AnimationSM { current: to, start_time: now, ..self },
            None => self,
        }
    }

    /// What feeding an event changes: the state and the clock where an arc
    /// is followed, nothing otherwise.
    pub proof fn lemma_after(self, event: Seq<char>, now: usize)
        ensures
            self.after(event, now).animations() == self.animations(),
            self.after(event, now).table() == self.table(),
            match transition_target(self.table(), self.state(), event, 0) {
                Some(to) => self.after(event, now).state() == to && self.after(
                    event,
                    now,
                ).started() == now,
                None => self.after(event, now) == self,
            },
    {
    }

    /// A machine that begins at `start_time` in the state `initial`.
    pub fn new(
        animations: Vec<Animation>,
        transitions: Vec<(usize, usize, String)>,
        start_time: usize,
        initial: usize,
    ) -> (machine: Self)
        requires
            Self::well_formed(animations@, transitions@, initial),
        ensures
            machine.animations() == animations@,
            machine.table() == transitions@,
            machine.state() == initial,
            machine.started() == start_time,
    {
        AnimationSM { animations, transitions, start_time, current: initial }
    }

    /// Feeds an event to the machine.
    pub fn input(&mut self, event: &str, now: usize)
        ensures
            *final(self) == old(self).after(event@, now),
    {
        proof {
            use_type_invariant(&*self);
        }
        let mut i: usize = 0;
        while i < self.transitions.len()
            invariant
                i <= self.transitions.len(),
                *self == *old(self),
                Self::well_formed(self.animations@, self.transitions@, self.current),
                transition_target(self.transitions@, self.current, event@, 0) == transition_target(
                    self.transitions@,
                    self.current,
                    event@,
                    i as int,
                ),
            decreases self.transitions.len() - i,
        {
            if self.transitions[i].0 == self.current && same_text(&self.transitions[i].2, event) {
                let to: usize = self.transitions[i].1;
                self.current = to;
                self.start_time = now;
                return ;
            }
            i += 1;
        }
    }

    /// The number of the current animation.
    pub fn current_state(&self) -> (state: usize)
        ensures
            state == self.state(),
            state < self.animations().len(),
    {
        proof {
            use_type_invariant(self);
        }
        self.current
    }

    /// Whether a frame can be asked for at `now`: a looping animation shows
    /// nothing before it was started.
    pub open spec fn shows_at(self, now: usize) -> bool {
        self.animations()[self.state() as int].loops() ==> self.started() <= now
    }

    /// The region of the sprite sheet that is shown at `now`: the frame
    /// of the current animation that is due.
    pub open spec fn frame_at(self, now: usize) -> Rect {
        let current = self.animations()[self.state() as int];
        current.frames()[current.frame_index(self.started(), now)]
    }

    /// Computes [`AnimationSM::shows_at`].
    pub fn can_show(&self, now: usize) -> (shows: bool)
        ensures
            shows == self.shows_at(now),
    {
        proof {
            use_type_invariant(self);
        }
        !self.animations[self.current].is_looping() || self.start_time <= now
    }

    /// The region of the sprite sheet to show at `now`.
    pub fn current_frame(&self, now: usize) -> (frame: Rect)
        requires
            self.shows_at(now),
        ensures
            frame == self.frame_at(now),
    {
        proof {
            use_type_invariant(self);
        }
        self.animations[self.current].current_frame(self.start_time, now)
    }
}

fn same_text(a: &String, b: &str) -> (same: bool)
    ensures
        same == (a@ == b@),
{
    let owned: String = b.to_owned();
    *a == owned
}

} // verus!

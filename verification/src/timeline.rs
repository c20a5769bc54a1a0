//! A recorded game that can be played forwards and backwards, step by step
//! or by jumping to a time: each snake's moves and the apples eaten and
//! placed at each step.

use std::collections::HashMap;
use vstd::prelude::*;
use crate::math::{Direction, Point, Size};
use crate::points::{copy_points, insert_point, no_dups, remove_point};
use crate::snake::Snake;

verus! {

broadcast use vstd::std_specs::hash::group_hash_axioms;

/// What one step did to a snake: its new head, and the tail cell it left
/// behind if it did not grow.
#[derive(Debug, Clone, Copy, PartialEq, Eq, Structural)]
pub struct GameTimelineSnakeStep {
    pub tail: Option<Point>,
    pub head: Point,
    pub direction: Direction,
}

/// The body after playing `step` forwards: the new head in front, and the
/// last cell gone unless the snake grew.
pub open spec fn step_forward(points: Seq<Point>, step: GameTimelineSnakeStep) -> Seq<Point> {
    let p = seq![step.head] + points;
    if step.tail is Some {
        p.drop_last()
    } else {
        p
    }
}

/// The body after playing `step` backwards: the left tail cell back, and the
/// head gone.
pub open spec fn step_backward(points: Seq<Point>, step: GameTimelineSnakeStep) -> Seq<Point> {
    let p = match step.tail {
        Some(t) => points.push(t),
        None => points,
    };
    if p.len() == 0 {
        p
    } else {
        p.drop_first()
    }
}

/// Whether playing `step` backwards undoes it on `points`: the step left
/// behind the body's own last cell, if it left one.
pub open spec fn step_invertible(points: Seq<Point>, step: GameTimelineSnakeStep) -> bool {
    step.tail is None || points.len() == 0 || points.last() == step.tail->0
}

/// A snake's body after the first `t` of `steps` from `start`.
pub open spec fn snake_state_at(start: Seq<Point>, steps: Seq<GameTimelineSnakeStep>, t: nat) -> Seq<Point>
    decreases t,
{
    if t == 0 {
        start
    } else {
        let prev = snake_state_at(start, steps, (t - 1) as nat);
        if t - 1 < steps.len() {
            step_forward(prev, steps[t - 1])
        } else {
            prev
        }
    }
}

/// A snake's recording: its body at the start and at the end, its steps, and
/// its body at the current time.
pub ghost struct SnakeTimelineView {
    pub start: Seq<Point>,
    pub end: Seq<Point>,
    pub steps: Seq<GameTimelineSnakeStep>,
    pub current: Seq<Point>,
    pub user_id: Option<Seq<char>>,
}

impl SnakeTimelineView {
    pub open spec fn with_current(self, current: Seq<Point>) -> SnakeTimelineView {
        SnakeTimelineView {
            start: self.start,
            end: self.end,
            steps: self.steps,
            current,
            user_id: self.user_id,
        }
    }

    /// Playing step `time` forwards, if the snake made one.
    pub open spec fn forward(self, time: int) -> SnakeTimelineView {
        if 0 <= time < self.steps.len() {
            self.with_current(step_forward(self.current, self.steps[time]))
        } else {
            self
        }
    }

    /// Playing step `time` backwards, if the snake made one.
    pub open spec fn backward(self, time: int) -> SnakeTimelineView {
        if 0 <= time < self.steps.len() {
            self.with_current(step_backward(self.current, self.steps[time]))
        } else {
            self
        }
    }

    /// The body after the first `t` steps from the start.
    pub open spec fn state_at(self, t: nat) -> Seq<Point> {
        snake_state_at(self.start, self.steps, t)
    }

    /// Every step can be played backwards from the body it was played on.
    pub open spec fn reversible(self) -> bool {
        forall|t: nat|
            t < self.steps.len() ==> step_invertible(
                #[trigger] snake_state_at(self.start, self.steps, t),
                self.steps[t as int],
            )
    }

    /// The recording is consistent with `length` steps: the end is the body
    /// after all steps, every step can be undone, and the current body is
    /// the one at `time`.
    pub open spec fn consistent(self, length: nat, time: nat) -> bool {
        &&& self.reversible()
        &&& self.end == self.state_at(length)
        &&& self.current == self.state_at(time)
    }
}

/// What one step did to the apples.
#[derive(Debug, Clone)]
pub struct GameTimelineAppleStep {
    pub removed: Vec<Point>,
    pub added: Vec<Point>,
}

/// The apples after playing a step forwards: the eaten ones gone, the new
/// ones placed.
pub open spec fn apples_forward(s: Set<Point>, removed: Seq<Point>, added: Seq<Point>) -> Set<Point> {
    s.difference(removed.to_set()).union(added.to_set())
}

/// The apples after playing a step backwards: the placed ones gone, the
/// eaten ones back.
pub open spec fn apples_backward(s: Set<Point>, removed: Seq<Point>, added: Seq<Point>) -> Set<Point> {
    s.difference(added.to_set()).union(removed.to_set())
}

/// Whether playing a step backwards undoes it on `s`: every eaten apple was
/// there and no placed apple was already there.
pub open spec fn apples_invertible(s: Set<Point>, removed: Seq<Point>, added: Seq<Point>) -> bool {
    &&& removed.to_set().subset_of(s)
    &&& s.difference(removed.to_set()).disjoint(added.to_set())
}

/// The apples after the first `t` steps from `start`.
pub open spec fn apples_state_at(
    start: Set<Point>,
    steps: Map<usize, (Seq<Point>, Seq<Point>)>,
    t: nat,
) -> Set<Point>
    decreases t,
{
    if t == 0 {
        start
    } else {
        let prev = apples_state_at(start, steps, (t - 1) as nat);
        if t - 1 <= usize::MAX && steps.contains_key((t - 1) as usize) {
            apples_forward(prev, steps[(t - 1) as usize].0, steps[(t - 1) as usize].1)
        } else {
            prev
        }
    }
}

/// The apples' recording: at the start, at the end, the steps that changed
/// them by time (eaten, then placed), and at the current time.
pub ghost struct ApplesTimelineView {
    pub start: Set<Point>,
    pub end: Set<Point>,
    pub steps: Map<usize, (Seq<Point>, Seq<Point>)>,
    pub current: Set<Point>,
}

impl ApplesTimelineView {
    pub open spec fn with_current(self, current: Set<Point>) -> ApplesTimelineView {
        ApplesTimelineView { start: self.start, end: self.end, steps: self.steps, current }
    }

    pub open spec fn forward(self, time: int) -> ApplesTimelineView {
        if 0 <= time <= usize::MAX && self.steps.contains_key(time as usize) {
            let (r, a) = self.steps[time as usize];
            self.with_current(apples_forward(self.current, r, a))
        } else {
            self
        }
    }

    pub open spec fn backward(self, time: int) -> ApplesTimelineView {
        if 0 <= time <= usize::MAX && self.steps.contains_key(time as usize) {
            let (r, a) = self.steps[time as usize];
            self.with_current(apples_backward(self.current, r, a))
        } else {
            self
        }
    }

    /// The apples after the first `t` steps from the start.
    pub open spec fn state_at(self, t: nat) -> Set<Point> {
        apples_state_at(self.start, self.steps, t)
    }

    pub open spec fn reversible(self) -> bool {
        forall|t: usize| #[trigger]
            self.steps.contains_key(t) ==> apples_invertible(
                self.state_at(t as nat),
                self.steps[t].0,
                self.steps[t].1,
            )
    }

    pub open spec fn consistent(self, length: nat, time: nat) -> bool {
        &&& self.reversible()
        &&& self.end == self.state_at(length)
        &&& self.current == self.state_at(time)
    }
}

/// A whole recording: its number of steps, the grid, each snake's and the
/// apples' recordings, and the current time.
pub ghost struct TimelineView {
    pub length: nat,
    pub width: i32,
    pub height: i32,
    pub snakes: Seq<SnakeTimelineView>,
    pub apples: ApplesTimelineView,
    pub time: nat,
}

impl TimelineView {
    pub open spec fn with_state(
        self,
        snakes: Seq<SnakeTimelineView>,
        apples: ApplesTimelineView,
        time: nat,
    ) -> TimelineView {
        TimelineView {
            length: self.length,
            width: self.width,
            height: self.height,
            snakes,
            apples,
            time,
        }
    }

    /// One step forwards, unless at the end.
    pub open spec fn forward(self) -> TimelineView {
        if self.time >= self.length {
            self
        } else {
            self.with_state(
                self.snakes.map_values(|s: SnakeTimelineView| s.forward(self.time as int)),
                self.apples.forward(self.time as int),
                self.time + 1,
            )
        }
    }

    /// One step backwards, unless at the start.
    pub open spec fn backward(self) -> TimelineView {
        if self.time == 0 {
            self
        } else {
            self.with_state(
                self.snakes.map_values(|s: SnakeTimelineView| s.backward(self.time - 1)),
                self.apples.backward(self.time - 1),
                (self.time - 1) as nat,
            )
        }
    }

    pub open spec fn goto_start(self) -> TimelineView {
        self.with_state(
            self.snakes.map_values(|s: SnakeTimelineView| s.with_current(s.start)),
            self.apples.with_current(self.apples.start),
            0,
        )
    }

    pub open spec fn goto_end(self) -> TimelineView {
        self.with_state(
            self.snakes.map_values(|s: SnakeTimelineView| s.with_current(s.end)),
            self.apples.with_current(self.apples.end),
            self.length,
        )
    }

    pub open spec fn forward_n(self, n: nat) -> TimelineView
        decreases n,
    {
        if n == 0 {
            self
        } else {
            self.forward_n((n - 1) as nat).forward()
        }
    }

    pub open spec fn backward_n(self, n: nat) -> TimelineView
        decreases n,
    {
        if n == 0 {
            self
        } else {
            self.backward_n((n - 1) as nat).backward()
        }
    }

    /// The time that a requested time stands for: negative or unrepresentable
    /// requests mean 0, and no time lies past the end.
    pub open spec fn target(self, time: i64) -> nat {
        let t: nat = if time < 0 || time > usize::MAX {
            0
        } else {
            time as nat
        };
        if t > self.length {
            self.length
        } else {
            t
        }
    }

    /// Jumping to a requested time: first to the start or the end when that
    /// is closer, then step by step.
    pub open spec fn skip_to(self, time: i64) -> TimelineView {
        let target = self.target(time);
        let dst_to_time: nat = if self.time >= target {
            (self.time - target) as nat
        } else {
            (target - self.time) as nat
        };
        let dst_to_end: nat = (self.length - target) as nat;
        let v = if target < dst_to_time {
            self.goto_start()
        } else if dst_to_end < dst_to_time {
            self.goto_end()
        } else {
            self
        };
        if target > v.time {
            v.forward_n((target - v.time) as nat)
        } else {
            v.backward_n((v.time - target) as nat)
        }
    }

    /// Every recording agrees with the steps and the current time.
    pub open spec fn consistent(self) -> bool {
        &&& self.time <= self.length
        &&& forall|i: int| 0 <= i < self.snakes.len() ==> (#[trigger] self.snakes[i]).consistent(self.length, self.time)
        &&& self.apples.consistent(self.length, self.time)
    }

    /// The state that the recordings give for time `t`.
    pub open spec fn at_time(self, t: nat) -> TimelineView {
        self.with_state(
            self.snakes.map_values(|s: SnakeTimelineView| s.with_current(s.state_at(t))),
            self.apples.with_current(self.apples.state_at(t)),
            t,
        )
    }
}

/// A snake's recording.
#[derive(Debug)]
pub struct GameTimelineSnake {
    start: Snake,
    end: Snake,
    steps: Vec<GameTimelineSnakeStep>,
    current: Snake,
    user_id: Option<String>,
}

pub open spec fn opt_string_view(s: Option<String>) -> Option<Seq<char>> {
    match s {
        Some(x) => Some(x@),
        None => None,
    }
}

fn copy_user_id(s: &Option<String>) -> (r: Option<String>)
    ensures
        opt_string_view(r) == opt_string_view(*s),
{
    match s {
        Some(x) => Some(x.clone()),
        None => None,
    }
}

impl View for GameTimelineSnake {
    type V = SnakeTimelineView;

    closed spec fn view(&self) -> SnakeTimelineView {
        SnakeTimelineView {
            start: self.start@,
            end: self.end@,
            steps: self.steps@,
            current: self.current@,
            user_id: opt_string_view(self.user_id),
        }
    }
}

impl GameTimelineSnake {
    /// Plays step `time` forwards, if the snake made one.
    pub fn forward(&mut self, time: usize)
        ensures
            final(self)@ == old(self)@.forward(time as int),
    {
        if time < self.steps.len() {
            let step = self.steps[time];
            self.current.push_head(step.head);
            if step.tail.is_some() {
                self.current.pop_tail();
            }
        }
    }

    /// Plays step `time` backwards, if the snake made one.
    pub fn backward(&mut self, time: usize)
        ensures
            final(self)@ == old(self)@.backward(time as int),
    {
        if time < self.steps.len() {
            let step = self.steps[time];
            if let Some(tail) = step.tail {
                self.current.push_tail(tail);
            }
            self.current.pop_head();
        }
    }

    pub fn goto_start(&mut self)
        ensures
            final(self)@ == old(self)@.with_current(old(self)@.start),
    {
        self.current = self.start.copy();
    }

    pub fn goto_end(&mut self)
        ensures
            final(self)@ == old(self)@.with_current(old(self)@.end),
    {
        self.current = self.end.copy();
    }

    /// The direction of step `time`, if the snake made one.
    pub fn get_direction(&self, time: usize) -> (d: Option<Direction>)
        ensures
            d == (if time < self@.steps.len() {
                Some(self@.steps[time as int].direction)
            } else {
                None
            }),
    {
        if time < self.steps.len() {
            Some(self.steps[time].direction)
        } else {
            None
        }
    }

    /// The snake is alive until one past its last step.
    pub fn is_alive(&self, time: usize) -> (b: bool)
        ensures
            b == (time <= self@.steps.len()),
    {
        time <= self.steps.len()
    }
}

/// The apples' recording.
#[derive(Debug)]
pub struct GameTimelineApples {
    start: Vec<Point>,
    end: Vec<Point>,
    steps: HashMap<usize, GameTimelineAppleStep>,
    current: Vec<Point>,
}

pub open spec fn apple_steps_view(m: Map<usize, GameTimelineAppleStep>) -> Map<usize, (Seq<Point>, Seq<Point>)> {
    m.map_values(|st: GameTimelineAppleStep| (st.removed@, st.added@))
}

impl View for GameTimelineApples {
    type V = ApplesTimelineView;

    closed spec fn view(&self) -> ApplesTimelineView {
        ApplesTimelineView {
            start: self.start@.to_set(),
            end: self.end@.to_set(),
            steps: apple_steps_view(self.steps@),
            current: self.current@.to_set(),
        }
    }
}

impl GameTimelineApples {
    #[verifier::type_invariant]
    closed spec fn inv(self) -> bool {
        &&& no_dups(self.start@)
        &&& no_dups(self.end@)
        &&& no_dups(self.current@)
    }

    pub fn forward(&mut self, time: usize)
        ensures
            final(self)@ == old(self)@.forward(time as int),
    {
        proof {
            use_type_invariant(&*self);
        }
        let ghost s0 = self.current@.to_set();
        let mut cur: Vec<Point> = Vec::new();
        std::mem::swap(&mut cur, &mut self.current);
        match self.steps.get(&time) {
            Some(step) => {
                let mut i: usize = 0;
                while i < step.removed.len()
                    invariant
                        no_dups(cur@),
                        0 <= i <= step.removed@.len(),
                        cur@.to_set() == s0.difference(step.removed@.take(i as int).to_set()),
                    decreases step.removed@.len() - i,
                {
                    remove_point(&mut cur, step.removed[i]);
                    proof {
                        let r = step.removed@;
                        assert(r.take(i + 1).to_set() =~= r.take(i as int).to_set().insert(r[i as int])) by {
                            assert(r.take(i + 1) =~= r.take(i as int).push(r[i as int]));
                            r.take(i as int).lemma_push_to_set_commute(r[i as int]);
                        }
                        assert(cur@.to_set() =~= s0.difference(r.take(i + 1).to_set()));
                    }
                    i = i + 1;
                }
                proof {
                    assert(step.removed@.take(step.removed@.len() as int) =~= step.removed@);
                }
                let ghost s1 = cur@.to_set();
                let mut j: usize = 0;
                while j < step.added.len()
                    invariant
                        no_dups(cur@),
                        0 <= j <= step.added@.len(),
                        cur@.to_set() == s1.union(step.added@.take(j as int).to_set()),
                    decreases step.added@.len() - j,
                {
                    insert_point(&mut cur, step.added[j]);
                    proof {
                        let a = step.added@;
                        assert(a.take(j + 1).to_set() =~= a.take(j as int).to_set().insert(a[j as int])) by {
                            assert(a.take(j + 1) =~= a.take(j as int).push(a[j as int]));
                            a.take(j as int).lemma_push_to_set_commute(a[j as int]);
                        }
                        assert(cur@.to_set() =~= s1.union(a.take(j + 1).to_set()));
                    }
                    j = j + 1;
                }
                proof {
                    assert(step.added@.take(step.added@.len() as int) =~= step.added@);
                }
            },
            None => {},
        }
        self.current = cur;
    }

    pub fn backward(&mut self, time: usize)
        ensures
            final(self)@ == old(self)@.backward(time as int),
    {
        proof {
            use_type_invariant(&*self);
        }
        let ghost s0 = self.current@.to_set();
        let mut cur: Vec<Point> = Vec::new();
        std::mem::swap(&mut cur, &mut self.current);
        match self.steps.get(&time) {
            Some(step) => {
                let mut i: usize = 0;
                while i < step.added.len()
                    invariant
                        no_dups(cur@),
                        0 <= i <= step.added@.len(),
                        cur@.to_set() == s0.difference(step.added@.take(i as int).to_set()),
                    decreases step.added@.len() - i,
                {
                    remove_point(&mut cur, step.added[i]);
                    proof {
                        let r = step.added@;
                        assert(r.take(i + 1).to_set() =~= r.take(i as int).to_set().insert(r[i as int])) by {
                            assert(r.take(i + 1) =~= r.take(i as int).push(r[i as int]));
                            r.take(i as int).lemma_push_to_set_commute(r[i as int]);
                        }
                        assert(cur@.to_set() =~= s0.difference(r.take(i + 1).to_set()));
                    }
                    i = i + 1;
                }
                proof {
                    assert(step.added@.take(step.added@.len() as int) =~= step.added@);
                }
                let ghost s1 = cur@.to_set();
                let mut j: usize = 0;
                while j < step.removed.len()
                    invariant
                        no_dups(cur@),
                        0 <= j <= step.removed@.len(),
                        cur@.to_set() == s1.union(step.removed@.take(j as int).to_set()),
                    decreases step.removed@.len() - j,
                {
                    insert_point(&mut cur, step.removed[j]);
                    proof {
                        let a = step.removed@;
                        assert(a.take(j + 1).to_set() =~= a.take(j as int).to_set().insert(a[j as int])) by {
                            assert(a.take(j + 1) =~= a.take(j as int).push(a[j as int]));
                            a.take(j as int).lemma_push_to_set_commute(a[j as int]);
                        }
                        assert(cur@.to_set() =~= s1.union(a.take(j + 1).to_set()));
                    }
                    j = j + 1;
                }
                proof {
                    assert(step.removed@.take(step.removed@.len() as int) =~= step.removed@);
                }
            },
            None => {},
        }
        self.current = cur;
    }

    pub fn goto_start(&mut self)
        ensures
            final(self)@ == old(self)@.with_current(old(self)@.start),
    {
        proof {
            use_type_invariant(&*self);
        }
        self.current = copy_points(&self.start);
    }

    pub fn goto_end(&mut self)
        ensures
            final(self)@ == old(self)@.with_current(old(self)@.end),
    {
        proof {
            use_type_invariant(&*self);
        }
        self.current = copy_points(&self.end);
    }
}

/// A snake as the viewer draws it at some time.
#[derive(Debug, Clone)]
pub struct GameSnake {
    pub points: Vec<Point>,
    pub is_alive: bool,
    pub direction: Option<Direction>,
    pub user_id: Option<String>,
}

impl GameSnake {
    pub fn create(
        points: Vec<Point>,
        is_alive: bool,
        direction: Option<Direction>,
        user_id: Option<String>,
    ) -> (g: GameSnake)
        ensures
            g.points@ == points@,
            g.is_alive == is_alive,
            g.direction == direction,
            opt_string_view(g.user_id) == opt_string_view(user_id),
    {
        GameSnake { points, is_alive, direction, user_id }
    }

    pub fn points(&self) -> (p: Vec<Point>)
        ensures
            p@ == self.points@,
    {
        copy_points(&self.points)
    }
}

/// How the viewer draws snake `s` at time `time`.
pub open spec fn spec_drawn(s: SnakeTimelineView, time: nat, g: GameSnake) -> bool {
    &&& g.points@ == s.current
    &&& g.is_alive == (time <= s.steps.len())
    &&& g.direction == (if time < s.steps.len() {
        Some(s.steps[time as int].direction)
    } else {
        None
    })
    &&& opt_string_view(g.user_id) == s.user_id
}

/// A recorded game, positioned at a time between 0 and its length.
#[derive(Debug)]
pub struct GameTimeline {
    length: usize,
    width: i32,
    height: i32,
    snakes: Vec<GameTimelineSnake>,
    apples: GameTimelineApples,
    time: usize,
}

impl View for GameTimeline {
    type V = TimelineView;

    closed spec fn view(&self) -> TimelineView {
        TimelineView {
            length: self.length as nat,
            width: self.width,
            height: self.height,
            snakes: self.snakes@.map_values(|s: GameTimelineSnake| s@),
            apples: self.apples@,
            time: self.time as nat,
        }
    }
}

impl GameTimeline {
    /// Plays the next step, unless at the end; says whether it did.
    pub fn forward(&mut self) -> (moved: bool)
        ensures
            moved == (old(self)@.time < old(self)@.length),
            final(self)@ == old(self)@.forward(),
    {
        if self.time >= self.length {
            return false;
        }
        let ghost s0 = self.snakes@;
        let t = self.time;
        let mut i: usize = 0;
        while i < self.snakes.len()
            invariant
                self.snakes@.len() == s0.len(),
                0 <= i <= s0.len(),
                self.apples == old(self).apples,
                self.length == old(self).length,
                self.width == old(self).width,
                self.height == old(self).height,
                self.time == old(self).time,
                forall|j: int| 0 <= j < i ==> (#[trigger] self.snakes@[j])@ == s0[j]@.forward(t as int),
                forall|j: int| i <= j < s0.len() ==> (#[trigger] self.snakes@[j]) == s0[j],
            decreases s0.len() - i,
        {
            self.snakes[i].forward(t);
            i = i + 1;
        }
        self.apples.forward(t);
        self.time = t + 1;
        proof {
            assert(self@.snakes =~= old(self)@.snakes.map_values(
                |s: SnakeTimelineView| s.forward(t as int),
            ));
        }
        true
    }

    /// Takes back the last step, unless at the start; says whether it did.
    pub fn backward(&mut self) -> (moved: bool)
        ensures
            moved == (old(self)@.time > 0),
            final(self)@ == old(self)@.backward(),
    {
        if self.time == 0 {
            return false;
        }
        let t = self.time - 1;
        let ghost s0 = self.snakes@;
        let mut i: usize = 0;
        while i < self.snakes.len()
            invariant
                self.snakes@.len() == s0.len(),
                0 <= i <= s0.len(),
                self.apples == old(self).apples,
                self.length == old(self).length,
                self.width == old(self).width,
                self.height == old(self).height,
                self.time == old(self).time,
                forall|j: int| 0 <= j < i ==> (#[trigger] self.snakes@[j])@ == s0[j]@.backward(t as int),
                forall|j: int| i <= j < s0.len() ==> (#[trigger] self.snakes@[j]) == s0[j],
            decreases s0.len() - i,
        {
            self.snakes[i].backward(t);
            i = i + 1;
        }
        self.apples.backward(t);
        self.time = t;
        proof {
            assert(self@.snakes =~= old(self)@.snakes.map_values(
                |s: SnakeTimelineView| s.backward(t as int),
            ));
        }
        true
    }

    pub fn goto_start(&mut self)
        ensures
            final(self)@ == old(self)@.goto_start(),
    {
        let ghost s0 = self.snakes@;
        let mut i: usize = 0;
        while i < self.snakes.len()
            invariant
                self.snakes@.len() == s0.len(),
                0 <= i <= s0.len(),
                self.apples == old(self).apples,
                self.length == old(self).length,
                self.width == old(self).width,
                self.height == old(self).height,
                self.time == old(self).time,
                forall|j: int| 0 <= j < i ==> (#[trigger] self.snakes@[j])@ == s0[j]@.with_current(s0[j]@.start),
                forall|j: int| i <= j < s0.len() ==> (#[trigger] self.snakes@[j]) == s0[j],
            decreases s0.len() - i,
        {
            self.snakes[i].goto_start();
            i = i + 1;
        }
        self.apples.goto_start();
        self.time = 0;
        proof {
            assert(self@.snakes =~= old(self)@.snakes.map_values(
                |s: SnakeTimelineView| s.with_current(s.start),
            ));
        }
    }

    pub fn goto_end(&mut self)
        ensures
            final(self)@ == old(self)@.goto_end(),
    {
        let ghost s0 = self.snakes@;
        let mut i: usize = 0;
        while i < self.snakes.len()
            invariant
                self.snakes@.len() == s0.len(),
                0 <= i <= s0.len(),
                self.apples == old(self).apples,
                self.length == old(self).length,
                self.width == old(self).width,
                self.height == old(self).height,
                self.time == old(self).time,
                forall|j: int| 0 <= j < i ==> (#[trigger] self.snakes@[j])@ == s0[j]@.with_current(s0[j]@.end),
                forall|j: int| i <= j < s0.len() ==> (#[trigger] self.snakes@[j]) == s0[j],
            decreases s0.len() - i,
        {
            self.snakes[i].goto_end();
            i = i + 1;
        }
        self.apples.goto_end();
        self.time = self.length;
        proof {
            assert(self@.snakes =~= old(self)@.snakes.map_values(
                |s: SnakeTimelineView| s.with_current(s.end),
            ));
        }
    }

    /// Moves to the requested time (clamped to the recording), jumping to
    /// the start or the end first when that is closer.
    pub fn skip_to(&mut self, time: i64)
        ensures
            final(self)@ == old(self)@.skip_to(time),
            final(self)@.time == old(self)@.target(time),
            time < 0 ==> final(self)@.time == 0,
            0 <= time <= usize::MAX ==> final(self)@.time == (if time <= old(self)@.length {
                time as int
            } else {
                old(self)@.length as int
            }),
            final(self)@.length == old(self)@.length,
    {
        proof {
            lemma_jump_time(old(self)@, time);
        }
        let ghost v0 = self@;
        let raw: usize = if time < 0 {
            0
        } else if time as u128 <= usize::MAX as u128 {
            time as usize
        } else {
            0
        };
        let target: usize = if raw > self.length {
            self.length
        } else {
            raw
        };
        assert(target == v0.target(time));
        let dst_to_time: usize = if self.time >= target {
            self.time - target
        } else {
            target - self.time
        };
        let dst_to_end: usize = self.length - target;
        if target < dst_to_time {
            self.goto_start();
        } else if dst_to_end < dst_to_time {
            self.goto_end();
        }
        let ghost v1 = self@;
        if target > self.time {
            while target > self.time
                invariant
                    v1.time <= self@.time <= target,
                    target <= v1.length,
                    self@ == v1.forward_n((self@.time - v1.time) as nat),
                    self@.length == v1.length,
                decreases target - self@.time,
            {
                let ghost k = (self@.time - v1.time) as nat;
                proof {
                    lemma_forward_n_keeps_length(v1, k);
                }
                self.forward();
                proof {
                    assert(v1.forward_n(k + 1) == v1.forward_n(k).forward());
                    assert(self@.time - v1.time == k + 1);
                }
            }
        } else if target < self.time {
            while target < self.time
                invariant
                    target <= self@.time <= v1.time,
                    self@ == v1.backward_n((v1.time - self@.time) as nat),
                    self@.length == v1.length,
                decreases self@.time - target,
            {
                proof {
                    lemma_backward_n_keeps_length(v1, (v1.time - self@.time) as nat);
                }
                self.backward();
            }
        }
    }

    /// The snakes as drawn at the current time.
    pub fn get_snakes(&self) -> (v: Vec<GameSnake>)
        ensures
            v@.len() == self@.snakes.len(),
            forall|i: int| 0 <= i < v@.len() ==> spec_drawn(self@.snakes[i], self@.time, #[trigger] v@[i]),
    {
        Self::convert_snakes(self.time, &self.snakes)
    }

    /// The snakes as drawn one step later (the current ones at the end).
    pub fn get_next_snakes(&self) -> (v: Vec<GameSnake>)
        ensures
            self@.time >= self@.length ==> v@.len() == self@.snakes.len() && forall|i: int|
                0 <= i < v@.len() ==> spec_drawn(self@.snakes[i], self@.time, #[trigger] v@[i]),
            self@.time < self@.length ==> v@.len() == self@.snakes.len() && forall|i: int|
                0 <= i < v@.len() ==> spec_drawn(
                    self@.snakes[i].forward(self@.time as int),
                    self@.time + 1,
                    #[trigger] v@[i],
                ),
    {
        if self.time >= self.length {
            return self.get_snakes();
        }
        let t = self.time;
        let mut out: Vec<GameSnake> = Vec::new();
        let mut i: usize = 0;
        while i < self.snakes.len()
            invariant
                t == self.time,
                t < self.length,
                0 <= i <= self.snakes@.len(),
                out@.len() == i,
                forall|j: int|
                    0 <= j < i ==> spec_drawn(
                        self.snakes@[j]@.forward(t as int),
                        (t + 1) as nat,
                        #[trigger] out@[j],
                    ),
            decreases self.snakes@.len() - i,
        {
            let snake = &self.snakes[i];
            let mut next = snake.current.copy();
            if t < snake.steps.len() {
                let step = snake.steps[t];
                next.push_head(step.head);
                if step.tail.is_some() {
                    next.pop_tail();
                }
            }
            out.push(
                GameSnake::create(
                    next.points,
                    snake.is_alive(t + 1),
                    snake.get_direction(t + 1),
                    copy_user_id(&snake.user_id),
                ),
            );
            i = i + 1;
        }
        out
    }

    fn convert_snakes(time: usize, snakes: &Vec<GameTimelineSnake>) -> (v: Vec<GameSnake>)
        ensures
            v@.len() == snakes@.len(),
            forall|i: int| 0 <= i < v@.len() ==> spec_drawn(snakes@[i]@, time as nat, #[trigger] v@[i]),
    {
        let mut out: Vec<GameSnake> = Vec::new();
        let mut i: usize = 0;
        while i < snakes.len()
            invariant
                0 <= i <= snakes@.len(),
                out@.len() == i,
                forall|j: int| 0 <= j < i ==> spec_drawn(snakes@[j]@, time as nat, #[trigger] out@[j]),
            decreases snakes@.len() - i,
        {
            let snake = &snakes[i];
            out.push(
                GameSnake::create(
                    copy_points(snake.current.points()),
                    snake.is_alive(time),
                    snake.get_direction(time),
                    copy_user_id(&snake.user_id),
                ),
            );
            i = i + 1;
        }
        out
    }

    /// The apples at the current time, each once.
    pub fn get_apples(&self) -> (v: Vec<Point>)
        ensures
            v@.to_set() == self@.apples.current,
            no_dups(v@),
    {
        proof {
            use_type_invariant(&self.apples);
        }
        copy_points(&self.apples.current)
    }

    pub fn get_time(&self) -> (t: u64)
        ensures
            t == self@.time,
    {
        self.time as u64
    }

    pub fn get_length(&self) -> (l: u64)
        ensures
            l == self@.length,
    {
        self.length as u64
    }

    pub fn get_width(&self) -> (w: i32)
        ensures
            w == self@.width,
    {
        self.width
    }

    pub fn get_height(&self) -> (h: i32)
        ensures
            h == self@.height,
    {
        self.height
    }
}

proof fn lemma_forward_n_keeps_length(v: TimelineView, n: nat)
    ensures
        v.forward_n(n).length == v.length,
        v.time + n <= v.length ==> v.forward_n(n).time == v.time + n,
    decreases n,
{
    if n > 0 {
        lemma_forward_n_keeps_length(v, (n - 1) as nat);
    }
}

proof fn lemma_backward_n_keeps_length(v: TimelineView, n: nat)
    ensures
        v.backward_n(n).length == v.length,
        n <= v.time ==> v.backward_n(n).time == v.time - n,
    decreases n,
{
    if n > 0 {
        lemma_backward_n_keeps_length(v, (n - 1) as nat);
    }
}

/// The step that turns body `prev` into body `next` with a move in `d`: the
/// new head, and the old tail cell if the tail moved.
pub open spec fn recorded_step(prev: Seq<Point>, next: Seq<Point>, d: Direction) -> GameTimelineSnakeStep {
    GameTimelineSnakeStep {
        tail: if prev.last() == next.last() {
            None
        } else {
            Some(prev.last())
        },
        head: next[0],
        direction: d,
    }
}

/// `next` is `prev` after a snake's move: a new head in front, and the last
/// cell gone unless the snake grew; a body holds no cell twice.
pub open spec fn proper_move(prev: Seq<Point>, next: Seq<Point>) -> bool {
    &&& prev.len() > 0
    &&& no_dups(prev)
    &&& next.len() > 0
    &&& {
        ||| next == seq![next[0]] + prev
        ||| (next == seq![next[0]] + prev.drop_last() && (prev.len() >= 2 || next[0] != prev[0]))
    }
}

/// A recorded proper move replays to the same body, and playing it
/// backwards gives the body before it.
pub proof fn lemma_recorded_move_replays(prev: Seq<Point>, next: Seq<Point>, d: Direction)
    requires
        proper_move(prev, next),
    ensures
        step_forward(prev, recorded_step(prev, next, d)) == next,
        step_invertible(prev, recorded_step(prev, next, d)),
        step_backward(next, recorded_step(prev, next, d)) == prev,
{
    let step = recorded_step(prev, next, d);
    let h = next[0];
    if next == seq![h] + prev {
        assert(next.last() == prev.last());
        assert(step_forward(prev, step) =~= next);
        assert(step_backward(next, step) =~= prev);
    } else {
        assert(next == seq![h] + prev.drop_last());
        if prev.len() >= 2 {
            assert(next.last() == prev[prev.len() - 2]);
            assert(prev[prev.len() - 2] != prev[prev.len() - 1]);
        } else {
            assert(next.last() == h);
        }
        assert(step.tail == Some(prev.last()));
        assert(step_forward(prev, step) =~= next);
        assert(step_backward(next, step) =~= prev);
    }
}

/// A snake's recording in progress: its first body, its latest body, its
/// steps so far.
pub ghost struct SnakeRecordingView {
    pub start: Seq<Point>,
    pub current: Seq<Point>,
    pub steps: Seq<GameTimelineSnakeStep>,
    pub user_id: Option<Seq<char>>,
}

impl SnakeRecordingView {
    /// The steps replay from the first body to the latest one, and each of
    /// them can be played backwards from the body it was played on.
    pub open spec fn replays(self) -> bool {
        &&& snake_state_at(self.start, self.steps, self.steps.len()) == self.current
        &&& forall|t: nat|
            t < self.steps.len() ==> step_invertible(
                #[trigger] snake_state_at(self.start, self.steps, t),
                self.steps[t as int],
            )
    }
}

/// Adding a step leaves the bodies before it as they were.
proof fn lemma_state_at_push(
    start: Seq<Point>,
    steps: Seq<GameTimelineSnakeStep>,
    step: GameTimelineSnakeStep,
    t: nat,
)
    requires
        t <= steps.len(),
    ensures
        snake_state_at(start, steps.push(step), t) == snake_state_at(start, steps, t),
    decreases t,
{
    if t > 0 {
        lemma_state_at_push(start, steps, step, (t - 1) as nat);
        assert(steps.push(step)[t - 1] == steps[t - 1]);
    }
}

/// Recording a proper move keeps a recording that replays replaying: the
/// new step turns the latest body into the recorded one and can be undone.
pub proof fn lemma_record_keeps_replay(r: SnakeRecordingView, next: Seq<Point>, d: Direction)
    requires
        r.replays(),
        proper_move(r.current, next),
    ensures
        (SnakeRecordingView {
            start: r.start,
            current: next,
            steps: r.steps.push(recorded_step(r.current, next, d)),
            user_id: r.user_id,
        }).replays(),
{
    let st = recorded_step(r.current, next, d);
    let steps = r.steps.push(st);
    let n = r.steps.len();
    lemma_recorded_move_replays(r.current, next, d);
    lemma_state_at_push(r.start, r.steps, st, n);
    assert(snake_state_at(r.start, steps, n + 1) == step_forward(snake_state_at(r.start, steps, n), steps[n as int]));
    assert forall|t: nat| t < steps.len() implies step_invertible(
        #[trigger] snake_state_at(r.start, steps, t),
        steps[t as int],
    ) by {
        lemma_state_at_push(r.start, r.steps, st, t);
        if t < n {
            assert(steps[t as int] == r.steps[t as int]);
        }
    }
}

/// Records one snake's steps.
#[derive(Debug)]
pub struct GameTimelineSnakeBuilder {
    start: Snake,
    current: Snake,
    steps: Vec<GameTimelineSnakeStep>,
    user_id: Option<String>,
}

impl View for GameTimelineSnakeBuilder {
    type V = SnakeRecordingView;

    closed spec fn view(&self) -> SnakeRecordingView {
        SnakeRecordingView {
            start: self.start@,
            current: self.current@,
            steps: self.steps@,
            user_id: opt_string_view(self.user_id),
        }
    }
}

impl GameTimelineSnakeBuilder {
    pub fn new(snake: Snake, user_id: Option<String>) -> (b: Self)
        ensures
            b@.start == snake@,
            b@.current == snake@,
            b@.steps == Seq::<GameTimelineSnakeStep>::empty(),
            b@.user_id == opt_string_view(user_id),
    {
        Self { start: snake.copy(), current: snake, steps: Vec::new(), user_id }
    }

    /// Records the snake's body after its move in `direction`.
    pub fn record(&mut self, snake: &Snake, direction: Direction)
        requires
            old(self)@.current.len() > 0,
            snake@.len() > 0,
        ensures
            final(self)@ == (SnakeRecordingView {
                start: old(self)@.start,
                current: snake@,
                steps: old(self)@.steps.push(recorded_step(old(self)@.current, snake@, direction)),
                user_id: old(self)@.user_id,
            }),
    {
        let tail: Point = self.current.tail();
        let step = if tail == snake.tail() {
            GameTimelineSnakeStep { tail: None, head: snake.head(), direction }
        } else {
            GameTimelineSnakeStep { head: snake.head(), tail: Some(tail), direction }
        };
        self.steps.push(step);
        self.current = snake.copy();
    }

    /// The finished recording, positioned at its start.
    pub fn build(self) -> (s: GameTimelineSnake)
        ensures
            s@ == (SnakeTimelineView {
                start: self@.start,
                end: self@.current,
                steps: self@.steps,
                current: self@.start,
                user_id: self@.user_id,
            }),
    {
        GameTimelineSnake {
            start: self.start.copy(),
            end: self.current,
            steps: self.steps,
            current: self.start,
            user_id: self.user_id,
        }
    }
}

/// A whole recording in progress.
pub ghost struct TimelineRecordingView {
    pub snakes: Seq<SnakeRecordingView>,
    pub start_apples: Set<Point>,
    pub apples: Map<usize, (Seq<Point>, Seq<Point>)>,
    pub index: nat,
}

impl TimelineRecordingView {
    /// Every recorded apple step lies before the current step and can be
    /// played backwards from the apples it was played on.
    pub open spec fn apples_replay(self) -> bool {
        forall|t: usize| #[trigger]
            self.apples.contains_key(t) ==> t < self.index && apples_invertible(
                apples_state_at(self.start_apples, self.apples, t as nat),
                self.apples[t].0,
                self.apples[t].1,
            )
    }

    /// Every snake's recording replays and has no more steps than the
    /// recording, and the apple steps replay.
    pub open spec fn replays(self) -> bool {
        &&& forall|i: int|
            0 <= i < self.snakes.len() ==> (#[trigger] self.snakes[i]).replays() && self.snakes[i].steps.len()
                <= self.index
        &&& self.apples_replay()
    }
}

/// Recording a step of the apples leaves the apples before it as they were.
proof fn lemma_apples_state_at_insert(
    start: Set<Point>,
    steps: Map<usize, (Seq<Point>, Seq<Point>)>,
    k: usize,
    x: (Seq<Point>, Seq<Point>),
    t: nat,
)
    requires
        t <= k,
    ensures
        apples_state_at(start, steps.insert(k, x), t) == apples_state_at(start, steps, t),
    decreases t,
{
    if t > 0 {
        lemma_apples_state_at_insert(start, steps, k, x, (t - 1) as nat);
        let u = (t - 1) as usize;
        assert(steps.insert(k, x).contains_key(u) == steps.contains_key(u));
        if steps.contains_key(u) {
            assert(steps.insert(k, x)[u] == steps[u]);
        }
    }
}

/// Recording an apple step that can be undone keeps the apple steps
/// replaying.
pub proof fn lemma_record_apples_keeps_replay(r: TimelineRecordingView, removed: Seq<Point>, added: Seq<Point>)
    requires
        r.apples_replay(),
        r.index < usize::MAX,
        apples_invertible(apples_state_at(r.start_apples, r.apples, r.index), removed, added),
    ensures
        (TimelineRecordingView {
            apples: if added.len() > 0 || removed.len() > 0 {
                r.apples.insert(r.index as usize, (removed, added))
            } else {
                r.apples
            },
            index: r.index + 1,
            ..r
        }).apples_replay(),
{
    if added.len() > 0 || removed.len() > 0 {
        let k = r.index as usize;
        let m = r.apples.insert(k, (removed, added));
        assert forall|t: usize| #[trigger] m.contains_key(t) implies t < r.index + 1 && apples_invertible(
            apples_state_at(r.start_apples, m, t as nat),
            m[t].0,
            m[t].1,
        ) by {
            lemma_apples_state_at_insert(r.start_apples, r.apples, k, (removed, added), t as nat);
            if t != k {
                assert(r.apples.contains_key(t));
            }
        }
    }
}

/// Records a game step by step.
#[derive(Debug)]
pub struct GameTimelineBuilder {
    snakes: Vec<GameTimelineSnakeBuilder>,
    start_apples: Vec<Point>,
    apples: HashMap<usize, GameTimelineAppleStep>,
    index: usize,
}

impl View for GameTimelineBuilder {
    type V = TimelineRecordingView;

    closed spec fn view(&self) -> TimelineRecordingView {
        TimelineRecordingView {
            snakes: self.snakes@.map_values(|b: GameTimelineSnakeBuilder| b@),
            start_apples: self.start_apples@.to_set(),
            apples: apple_steps_view(self.apples@),
            index: self.index as nat,
        }
    }
}

impl GameTimelineBuilder {
    #[verifier::type_invariant]
    closed spec fn inv(self) -> bool {
        no_dups(self.start_apples@)
    }

    /// Starts recording from the given snakes (with their players' ids, by
    /// position) and apples.
    pub fn new(snakes: &Vec<Snake>, ids: Vec<Option<String>>, apples: Vec<Point>) -> (b: Self)
        requires
            ids@.len() >= snakes@.len(),
            no_dups(apples@),
        ensures
            b@.snakes.len() == snakes@.len(),
            forall|i: int|
                0 <= i < snakes@.len() ==> (#[trigger] b@.snakes[i]) == (SnakeRecordingView {
                    start: snakes@[i]@,
                    current: snakes@[i]@,
                    steps: Seq::<GameTimelineSnakeStep>::empty(),
                    user_id: opt_string_view(ids@[i]),
                }),
            b@.start_apples == apples@.to_set(),
            b@.apples == Map::<usize, (Seq<Point>, Seq<Point>)>::empty(),
            b@.index == 0,
            b@.replays(),
    {
        let mut builders: Vec<GameTimelineSnakeBuilder> = Vec::new();
        let mut i: usize = 0;
        while i < snakes.len()
            invariant
                ids@.len() >= snakes@.len(),
                0 <= i <= snakes@.len(),
                builders@.len() == i,
                forall|j: int|
                    0 <= j < i ==> (#[trigger] builders@[j])@ == (SnakeRecordingView {
                        start: snakes@[j]@,
                        current: snakes@[j]@,
                        steps: Seq::<GameTimelineSnakeStep>::empty(),
                        user_id: opt_string_view(ids@[j]),
                    }),
            decreases snakes@.len() - i,
        {
            builders.push(GameTimelineSnakeBuilder::new(snakes[i].copy(), copy_user_id(&ids[i])));
            i = i + 1;
        }
        let b = Self { snakes: builders, start_apples: apples, apples: HashMap::new(), index: 0 };
        proof {
            assert(apple_steps_view(b.apples@) =~= Map::<usize, (Seq<Point>, Seq<Point>)>::empty());
        }
        b
    }

    /// Records the body of snake number `index` after its move in
    /// `direction`; an index without a snake is ignored.
    pub fn record_snake(&mut self, index: usize, snake: &Snake, direction: Direction)
        requires
            snake@.len() > 0,
            index < old(self)@.snakes.len() ==> old(self)@.snakes[index as int].current.len() > 0,
        ensures
            index < old(self)@.snakes.len() ==> final(self)@ == (TimelineRecordingView {
                snakes: old(self)@.snakes.update(
                    index as int,
                    SnakeRecordingView {
                        start: old(self)@.snakes[index as int].start,
                        current: snake@,
                        steps: old(self)@.snakes[index as int].steps.push(
                            recorded_step(old(self)@.snakes[index as int].current, snake@, direction),
                        ),
                        user_id: old(self)@.snakes[index as int].user_id,
                    },
                ),
                ..old(self)@
            }),
            index >= old(self)@.snakes.len() ==> final(self)@ == old(self)@,
    {
        proof {
            use_type_invariant(&*self);
        }
        if index < self.snakes.len() {
            let mut v: Vec<GameTimelineSnakeBuilder> = Vec::new();
            std::mem::swap(&mut v, &mut self.snakes);
            v[index].record(snake, direction);
            self.snakes = v;
            proof {
                assert(self@.snakes =~= old(self)@.snakes.update(
                    index as int,
                    SnakeRecordingView {
                        start: old(self)@.snakes[index as int].start,
                        current: snake@,
                        steps: old(self)@.snakes[index as int].steps.push(
                            recorded_step(old(self)@.snakes[index as int].current, snake@, direction),
                        ),
                        user_id: old(self)@.snakes[index as int].user_id,
                    },
                ));
            }
        }
    }

    /// Records which apples the current step placed and ate (if any) and
    /// moves on to the next step.
    pub fn record_apples(&mut self, added: Vec<Point>, removed: Vec<Point>)
        requires
            old(self)@.index < usize::MAX,
        ensures
            final(self)@.snakes == old(self)@.snakes,
            final(self)@.start_apples == old(self)@.start_apples,
            final(self)@.index == old(self)@.index + 1,
            final(self)@.apples == (if added@.len() > 0 || removed@.len() > 0 {
                old(self)@.apples.insert(old(self)@.index as usize, (removed@, added@))
            } else {
                old(self)@.apples
            }),
    {
        proof {
            use_type_invariant(&*self);
        }
        if added.len() > 0 || removed.len() > 0 {
            let ghost a = added@;
            let ghost r = removed@;
            let mut m: HashMap<usize, GameTimelineAppleStep> = HashMap::new();
            std::mem::swap(&mut m, &mut self.apples);
            m.insert(self.index, GameTimelineAppleStep { added, removed });
            self.apples = m;
            proof {
                assert(apple_steps_view(self.apples@) =~= apple_steps_view(old(self).apples@).insert(
                    old(self).index,
                    (r, a),
                ));
            }
        }
        self.index = self.index + 1;
    }

    /// The finished recording with the grid's size and the apples at the
    /// end, positioned at its start.
    pub fn build(self, size: Size, apples: Vec<Point>) -> (t: GameTimeline)
        requires
            no_dups(apples@),
        ensures
            t@.length == self@.index,
            t@.width == size.width,
            t@.height == size.height,
            t@.time == 0,
            t@.snakes.len() == self@.snakes.len(),
            forall|i: int|
                0 <= i < self@.snakes.len() ==> (#[trigger] t@.snakes[i]) == (SnakeTimelineView {
                    start: self@.snakes[i].start,
                    end: self@.snakes[i].current,
                    steps: self@.snakes[i].steps,
                    current: self@.snakes[i].start,
                    user_id: self@.snakes[i].user_id,
                }),
            t@.apples == (ApplesTimelineView {
                start: self@.start_apples,
                end: apples@.to_set(),
                steps: self@.apples,
                current: self@.start_apples,
            }),
            self@.replays() && apples@.to_set() == apples_state_at(
                self@.start_apples,
                self@.apples,
                self@.index,
            ) ==> t@.consistent(),
    {
        proof {
            use_type_invariant(&self);
        }
        let ghost v = self@;
        let GameTimelineBuilder { snakes, start_apples, apples: steps, index } = self;
        let mut built: Vec<GameTimelineSnake> = Vec::new();
        let mut rest = snakes;
        let ghost all = rest@;
        let mut i: usize = 0;
        let n = rest.len();
        let mut rev: Vec<GameTimelineSnakeBuilder> = Vec::new();
        while rest.len() > 0
            invariant
                rev@.len() + rest@.len() == all.len(),
                forall|j: int| 0 <= j < rest@.len() ==> #[trigger] rest@[j] == all[j],
                forall|j: int| 0 <= j < rev@.len() ==> #[trigger] rev@[j] == all[all.len() - 1 - j],
            decreases rest@.len(),
        {
            let b = rest.pop().unwrap();
            rev.push(b);
        }
        while rev.len() > 0
            invariant
                i + rev@.len() == all.len(),
                i == built@.len(),
                n == all.len(),
                forall|j: int| 0 <= j < rev@.len() ==> #[trigger] rev@[j] == all[all.len() - 1 - j],
                forall|j: int|
                    0 <= j < i ==> (#[trigger] built@[j])@ == (SnakeTimelineView {
                        start: all[j]@.start,
                        end: all[j]@.current,
                        steps: all[j]@.steps,
                        current: all[j]@.start,
                        user_id: all[j]@.user_id,
                    }),
            decreases rev@.len(),
        {
            let b = rev.pop().unwrap();
            built.push(b.build());
            i = i + 1;
        }
        let start_copy = copy_points(&start_apples);
        let t = GameTimeline {
            length: index,
            width: size.width,
            height: size.height,
            snakes: built,
            apples: GameTimelineApples { start: start_copy, end: apples, steps, current: start_apples },
            time: 0,
        };
        proof {
            assert(v.snakes =~= all.map_values(|b: GameTimelineSnakeBuilder| b@));
            if v.replays() && apples@.to_set() == apples_state_at(v.start_apples, v.apples, v.index) {
                let tv = t@;
                assert forall|i: int| 0 <= i < tv.snakes.len() implies (#[trigger] tv.snakes[i]).consistent(
                    tv.length,
                    tv.time,
                ) by {
                    let r = v.snakes[i];
                    assert(r.replays());
                    lemma_state_after_steps(r.start, r.steps, r.steps.len(), tv.length);
                }
            }
        }
        t
    }
}

/// Playing a snake's step backwards undoes playing it forwards, when the
/// step left behind the body's own last cell.
pub proof fn lemma_step_roundtrip(points: Seq<Point>, step: GameTimelineSnakeStep)
    requires
        step_invertible(points, step),
    ensures
        step_backward(step_forward(points, step), step) == points,
{
    let f = step_forward(points, step);
    if step.tail is Some && points.len() > 0 {
        assert(f =~= seq![step.head] + points.drop_last());
        assert(step_backward(f, step) =~= points);
    } else if step.tail is Some {
        assert(step_backward(f, step) =~= points);
    } else {
        assert(step_backward(f, step) =~= points);
    }
}

/// Playing an apple step backwards undoes playing it forwards, when every
/// eaten apple was there and no placed apple was.
pub proof fn lemma_apples_roundtrip(s: Set<Point>, removed: Seq<Point>, added: Seq<Point>)
    requires
        apples_invertible(s, removed, added),
    ensures
        apples_backward(apples_forward(s, removed, added), removed, added) == s,
{
    assert(apples_backward(apples_forward(s, removed, added), removed, added) =~= s);
}

proof fn lemma_snake_forward_consistent(s: SnakeTimelineView, length: nat, t: nat)
    requires
        s.consistent(length, t),
        t < length,
    ensures
        s.forward(t as int).consistent(length, t + 1),
{
    assert(s.state_at(t + 1) == (if t < s.steps.len() {
        step_forward(s.state_at(t), s.steps[t as int])
    } else {
        s.state_at(t)
    }));
}

proof fn lemma_snake_backward_consistent(s: SnakeTimelineView, length: nat, t: nat)
    requires
        s.consistent(length, t),
        t > 0,
    ensures
        s.backward(t - 1).consistent(length, (t - 1) as nat),
{
    let u = (t - 1) as nat;
    assert(s.state_at(t) == (if u < s.steps.len() {
        step_forward(s.state_at(u), s.steps[u as int])
    } else {
        s.state_at(u)
    }));
    if u < s.steps.len() {
        assert(step_invertible(s.state_at(u), s.steps[u as int]));
        lemma_step_roundtrip(s.state_at(u), s.steps[u as int]);
    }
}

proof fn lemma_apples_forward_consistent(a: ApplesTimelineView, length: nat, t: nat)
    requires
        a.consistent(length, t),
        t < length,
    ensures
        a.forward(t as int).consistent(length, t + 1),
{
    assert(a.state_at(t + 1) == (if t <= usize::MAX && a.steps.contains_key(t as usize) {
        apples_forward(a.state_at(t), a.steps[t as usize].0, a.steps[t as usize].1)
    } else {
        a.state_at(t)
    }));
}

proof fn lemma_apples_backward_consistent(a: ApplesTimelineView, length: nat, t: nat)
    requires
        a.consistent(length, t),
        t > 0,
    ensures
        a.backward(t - 1).consistent(length, (t - 1) as nat),
{
    let u = (t - 1) as nat;
    assert(a.state_at(t) == (if u <= usize::MAX && a.steps.contains_key(u as usize) {
        apples_forward(a.state_at(u), a.steps[u as usize].0, a.steps[u as usize].1)
    } else {
        a.state_at(u)
    }));
    if u <= usize::MAX && a.steps.contains_key(u as usize) {
        let k = u as usize;
        assert(a.steps.contains_key(k));
        assert(apples_invertible(a.state_at(k as nat), a.steps[k].0, a.steps[k].1));
        lemma_apples_roundtrip(a.state_at(u), a.steps[k].0, a.steps[k].1);
    }
}

/// Stepping forwards or backwards and jumping to the start or the end keep a
/// consistent recording consistent, with the time moved accordingly.
pub proof fn lemma_moves_keep_consistency(v: TimelineView)
    requires
        v.consistent(),
    ensures
        v.forward().consistent(),
        v.backward().consistent(),
        v.goto_start().consistent(),
        v.goto_end().consistent(),
        v.forward().time == (if v.time < v.length { v.time + 1 } else { v.time }),
        v.backward().time == (if v.time > 0 { v.time - 1 } else { 0 }),
        v.goto_start().time == 0,
        v.goto_end().time == v.length,
{
    if v.time < v.length {
        let f = v.forward();
        assert forall|i: int| 0 <= i < f.snakes.len() implies (#[trigger] f.snakes[i]).consistent(f.length, f.time) by {
            lemma_snake_forward_consistent(v.snakes[i], v.length, v.time);
        }
        lemma_apples_forward_consistent(v.apples, v.length, v.time);
    }
    if v.time > 0 {
        let b = v.backward();
        assert forall|i: int| 0 <= i < b.snakes.len() implies (#[trigger] b.snakes[i]).consistent(b.length, b.time) by {
            lemma_snake_backward_consistent(v.snakes[i], v.length, v.time);
        }
        lemma_apples_backward_consistent(v.apples, v.length, v.time);
    }
    let gs = v.goto_start();
    assert forall|i: int| 0 <= i < gs.snakes.len() implies (#[trigger] gs.snakes[i]).consistent(gs.length, gs.time) by {
        assert(v.snakes[i].consistent(v.length, v.time));
    }
    let ge = v.goto_end();
    assert forall|i: int| 0 <= i < ge.snakes.len() implies (#[trigger] ge.snakes[i]).consistent(ge.length, ge.time) by {
        assert(v.snakes[i].consistent(v.length, v.time));
    }
}

/// On a consistent recording, a step forwards followed by a step backwards
/// returns to the same state.
pub proof fn lemma_forward_then_backward(v: TimelineView)
    requires
        v.consistent(),
        v.time < v.length,
    ensures
        v.forward().backward() == v,
{
    lemma_moves_keep_consistency(v);
    let f = v.forward();
    let b = f.backward();
    assert forall|i: int| 0 <= i < v.snakes.len() implies #[trigger] b.snakes[i] == v.snakes[i] by {
        let s = v.snakes[i];
        if v.time < s.steps.len() {
            assert(step_invertible(s.state_at(v.time), s.steps[v.time as int]));
            lemma_step_roundtrip(s.current, s.steps[v.time as int]);
        }
        assert(b.snakes[i].current =~= v.snakes[i].current);
    }
    assert(b.snakes =~= v.snakes);
    if v.time <= usize::MAX && v.apples.steps.contains_key(v.time as usize) {
        let k = v.time as usize;
        assert(apples_invertible(v.apples.state_at(k as nat), v.apples.steps[k].0, v.apples.steps[k].1));
        lemma_apples_roundtrip(v.apples.current, v.apples.steps[k].0, v.apples.steps[k].1);
    }
    assert(b.apples == v.apples);
}

/// On a consistent recording, a step backwards followed by a step forwards
/// returns to the same state.
pub proof fn lemma_backward_then_forward(v: TimelineView)
    requires
        v.consistent(),
        v.time > 0,
    ensures
        v.backward().forward() == v,
{
    lemma_moves_keep_consistency(v);
    let b = v.backward();
    let f = b.forward();
    let u = (v.time - 1) as nat;
    assert forall|i: int| 0 <= i < v.snakes.len() implies #[trigger] f.snakes[i] == v.snakes[i] by {
        let s = v.snakes[i];
        assert(b.snakes[i].consistent(b.length, b.time));
        assert(s.state_at(v.time) == (if u < s.steps.len() {
            step_forward(s.state_at(u), s.steps[u as int])
        } else {
            s.state_at(u)
        }));
        assert(f.snakes[i].current =~= v.snakes[i].current);
    }
    assert(f.snakes =~= v.snakes);
    assert(b.apples.consistent(b.length, b.time));
    assert(v.apples.state_at(v.time) == (if u <= usize::MAX && v.apples.steps.contains_key(u as usize) {
        apples_forward(v.apples.state_at(u), v.apples.steps[u as usize].0, v.apples.steps[u as usize].1)
    } else {
        v.apples.state_at(u)
    }));
    assert(f.apples == v.apples);
}

proof fn lemma_forward_n_consistent(v: TimelineView, n: nat)
    requires
        v.consistent(),
        v.time + n <= v.length,
    ensures
        v.forward_n(n).consistent(),
        v.forward_n(n).time == v.time + n,
        v.forward_n(n).length == v.length,
    decreases n,
{
    if n > 0 {
        lemma_forward_n_consistent(v, (n - 1) as nat);
        lemma_moves_keep_consistency(v.forward_n((n - 1) as nat));
    }
}

proof fn lemma_backward_n_consistent(v: TimelineView, n: nat)
    requires
        v.consistent(),
        n <= v.time,
    ensures
        v.backward_n(n).consistent(),
        v.backward_n(n).time == v.time - n,
        v.backward_n(n).length == v.length,
    decreases n,
{
    if n > 0 {
        lemma_backward_n_consistent(v, (n - 1) as nat);
        lemma_moves_keep_consistency(v.backward_n((n - 1) as nat));
    }
}

/// Jumping to a time lands on the requested time itself, whatever time the
/// viewer was at: a request from 0 to the recording's length is reached
/// exactly, a later one reaches the end, and a negative one the start. Two
/// viewers of recordings of the same length land on the same time.
pub proof fn lemma_jump_time(v: TimelineView, time: i64)
    ensures
        v.skip_to(time).length == v.length,
        time < 0 ==> v.skip_to(time).time == 0,
        0 <= time <= usize::MAX && time <= v.length ==> v.skip_to(time).time == time,
        v.length < time <= usize::MAX ==> v.skip_to(time).time == v.length,
        forall|w: TimelineView| #[trigger] w.length == v.length ==> w.skip_to(time).time == v.skip_to(time).time,
{
    assert forall|w: TimelineView| #[trigger] w.length == v.length implies w.skip_to(time).time == w.target(time)
        && w.skip_to(time).length == w.length by {
        lemma_jump_lands_on_target(w, time);
    }
    lemma_jump_lands_on_target(v, time);
}

proof fn lemma_jump_lands_on_target(v: TimelineView, time: i64)
    ensures
        v.skip_to(time).time == v.target(time),
        v.skip_to(time).length == v.length,
{
    let target = v.target(time);
    let dst_to_time: nat = if v.time >= target {
        (v.time - target) as nat
    } else {
        (target - v.time) as nat
    };
    let dst_to_end: nat = (v.length - target) as nat;
    let w = if target < dst_to_time {
        v.goto_start()
    } else if dst_to_end < dst_to_time {
        v.goto_end()
    } else {
        v
    };
    if target > w.time {
        lemma_forward_n_keeps_length(w, (target - w.time) as nat);
    } else {
        lemma_backward_n_keeps_length(w, (w.time - target) as nat);
    }
}

/// Jumping to a time on a consistent recording lands exactly on the
/// requested time (clamped to the recording) and stays consistent, so every
/// snake and the apples are as the steps up to that time make them.
pub proof fn lemma_skip_to_lands(v: TimelineView, time: i64)
    requires
        v.consistent(),
    ensures
        v.skip_to(time).consistent(),
        v.skip_to(time).time == v.target(time),
        v.skip_to(time).length == v.length,
{
    lemma_moves_keep_consistency(v);
    let target = v.target(time);
    let dst_to_time: nat = if v.time >= target {
        (v.time - target) as nat
    } else {
        (target - v.time) as nat
    };
    let dst_to_end: nat = (v.length - target) as nat;
    let w = if target < dst_to_time {
        v.goto_start()
    } else if dst_to_end < dst_to_time {
        v.goto_end()
    } else {
        v
    };
    assert(w.consistent());
    if target > w.time {
        lemma_forward_n_consistent(w, (target - w.time) as nat);
    } else {
        lemma_backward_n_consistent(w, (w.time - target) as nat);
    }
}

/// The steps recorded for a snake whose bodies were `bodies`, moving in
/// `dirs`.
pub open spec fn recorded_steps(bodies: Seq<Seq<Point>>, dirs: Seq<Direction>) -> Seq<GameTimelineSnakeStep> {
    Seq::new(dirs.len(), |t: int| recorded_step(bodies[t], bodies[t + 1], dirs[t]))
}

/// Replaying a recording of proper moves gives back every recorded body,
/// and the recording, positioned at its start, is consistent for any length
/// that covers its steps: it can be played forwards and backwards.
pub proof fn lemma_recording_replays(
    bodies: Seq<Seq<Point>>,
    dirs: Seq<Direction>,
    length: nat,
    user_id: Option<Seq<char>>,
)
    requires
        bodies.len() == dirs.len() + 1,
        forall|t: int| 0 <= t < dirs.len() ==> proper_move(#[trigger] bodies[t], bodies[t + 1]),
        length >= dirs.len(),
    ensures
        forall|t: nat|
            t <= dirs.len() ==> #[trigger] snake_state_at(bodies[0], recorded_steps(bodies, dirs), t)
                == bodies[t as int],
        (SnakeTimelineView {
            start: bodies[0],
            end: bodies.last(),
            steps: recorded_steps(bodies, dirs),
            current: bodies[0],
            user_id,
        }).consistent(length, 0),
{
    let steps = recorded_steps(bodies, dirs);
    assert forall|t: nat| t <= dirs.len() implies #[trigger] snake_state_at(bodies[0], steps, t) == bodies[t as int] by {
        lemma_recording_prefix(bodies, dirs, t);
    }
    let v = SnakeTimelineView {
        start: bodies[0],
        end: bodies.last(),
        steps,
        current: bodies[0],
        user_id,
    };
    assert forall|t: nat| t < steps.len() implies step_invertible(
        #[trigger] snake_state_at(v.start, v.steps, t),
        v.steps[t as int],
    ) by {
        lemma_recording_prefix(bodies, dirs, t);
        lemma_recorded_move_replays(bodies[t as int], bodies[t as int + 1], dirs[t as int]);
    }
    lemma_recording_prefix(bodies, dirs, dirs.len());
    lemma_state_after_steps(bodies[0], steps, dirs.len(), length);
}

proof fn lemma_recording_prefix(bodies: Seq<Seq<Point>>, dirs: Seq<Direction>, t: nat)
    requires
        bodies.len() == dirs.len() + 1,
        forall|i: int| 0 <= i < dirs.len() ==> proper_move(#[trigger] bodies[i], bodies[i + 1]),
        t <= dirs.len(),
    ensures
        snake_state_at(bodies[0], recorded_steps(bodies, dirs), t) == bodies[t as int],
    decreases t,
{
    if t > 0 {
        let u = (t - 1) as nat;
        lemma_recording_prefix(bodies, dirs, u);
        lemma_recorded_move_replays(bodies[u as int], bodies[t as int], dirs[u as int]);
    }
}

/// Past the last step a snake's body no longer changes.
proof fn lemma_state_after_steps(start: Seq<Point>, steps: Seq<GameTimelineSnakeStep>, n: nat, t: nat)
    requires
        n == steps.len(),
        n <= t,
    ensures
        snake_state_at(start, steps, t) == snake_state_at(start, steps, n),
    decreases t,
{
    if t > n {
        lemma_state_after_steps(start, steps, n, (t - 1) as nat);
    }
}

} // verus!

use vstd::prelude::*;

verus! {

/// The time from one frame to the next, a thirtieth of a second to the
/// nanosecond.
pub const FRAME_INTERVAL_NANOS: u64 = 33_333_333;

/// What the frame source answered when it was asked for the next frame.
#[derive(Clone, Copy, Debug, PartialEq, Eq, Structural)]
pub enum Fetched {
    /// A frame was decoded.
    Frame,
    /// The stream has no more frames.
    EndOfStream,
    /// The next frame could not be decoded.
    DecodeFailure,
}

/// What the caller does after a fetch.
#[derive(Clone, Copy, Debug, PartialEq, Eq, Structural)]
pub enum Action {
    /// Render the frame and write it out, then go on with the next iteration.
    Emit,
    /// Leave the loop: nothing more is slept for, fetched or written.
    Stop,
}

/// What a scheduler holds. Times are in nanoseconds on a clock that never
/// runs backwards, counted from an origin of the caller's choice.
pub struct SchedulerView {
    /// The time at which the loop began.
    pub start: nat,
    /// The time from one deadline to the next.
    pub interval: nat,
    /// The number of iterations begun so far.
    pub iterations: nat,
    /// The time before which the next iteration does not fetch.
    pub next_deadline: nat,
    /// The number of frames handed on for emission so far.
    pub emitted: nat,
    /// False once the loop has ended.
    pub running: bool,
}

/// The time at which a wait for `deadline` that begins at `now` ends: at the
/// deadline, or at once where the deadline has passed.
pub open spec fn wake_time(deadline: int, now: int) -> int {
    if now < deadline {
        deadline
    } else {
        now
    }
}

impl SchedulerView {
    /// The deadline lies a whole number of intervals after the start, one for
    /// each iteration begun, and every iteration but the one that ended the
    /// loop has emitted a frame.
    pub open spec fn wf(self) -> bool {
        &&& self.next_deadline == self.start + self.iterations * self.interval
        &&& self.emitted <= self.iterations
        &&& self.running ==> self.emitted == self.iterations
    }

    /// The state in which a loop that starts at `now` begins.
    pub open spec fn initial(now: nat, interval: nat) -> SchedulerView {
        SchedulerView {
            start: now,
            interval,
            iterations: 0,
            next_deadline: now,
            emitted: 0,
            running: true,
        }
    }

    /// True when the next deadline and the next count of iterations fit in 64 bits.
    pub open spec fn can_advance(self) -> bool {
        self.next_deadline + self.interval <= u64::MAX && self.iterations < u64::MAX
    }

    /// How long to block at time `now` before the next fetch: until the
    /// deadline, not at all where the deadline has passed, and never once the
    /// loop has ended.
    pub open spec fn delay(self, now: int) -> Option<int> {
        if self.running {
            Some(wake_time(self.next_deadline as int, now) - now)
        } else {
            None
        }
    }

    /// The state after an iteration in which the source answered `fetched`:
    /// the deadline moves on by one interval, whatever the time is, and the
    /// loop ends unless a frame came. A loop that has ended stays as it is.
    pub open spec fn step(self, fetched: Fetched) -> SchedulerView {
        if self.running {
            SchedulerView {
                iterations: self.iterations + 1,
                next_deadline: self.next_deadline + self.interval,
                emitted: if fetched is Frame {
                    self.emitted + 1
                } else {
                    self.emitted
                },
                running: fetched is Frame,
                ..self
            }
        } else {
            self
        }
    }

    /// What the caller is told to do in that iteration.
    pub open spec fn action(self, fetched: Fetched) -> Action {
        if self.running && fetched is Frame {
            Action::Emit
        } else {
            Action::Stop
        }
    }

    /// The state after the loop was told to stop.
    pub open spec fn stopped(self) -> SchedulerView {
        SchedulerView { running: false, ..self }
    }

    /// The state after one iteration for each of `fetches`, in their order.
    pub open spec fn run(self, fetches: Seq<Fetched>) -> SchedulerView
        decreases fetches.len(),
    {
        if fetches.len() == 0 {
            self
        } else {
            self.run(fetches.drop_last()).step(fetches.last())
        }
    }
}

/// The pacing loop as a state machine: it keeps the one deadline, says how
/// long to block before each fetch, and decides after each fetch whether the
/// loop goes on.
#[derive(Clone, Copy, Debug)]
pub struct Scheduler {
    start: u64,
    interval: u64,
    iterations: u64,
    next_deadline: u64,
    emitted: u64,
    running: bool,
}

impl View for Scheduler {
    type V = SchedulerView;

    closed spec fn view(&self) -> SchedulerView {
        SchedulerView {
            start: self.start as nat,
            interval: self.interval as nat,
            iterations: self.iterations as nat,
            next_deadline: self.next_deadline as nat,
            emitted: self.emitted as nat,
            running: self.running,
        }
    }
}

impl Scheduler {
    #[verifier::type_invariant]
    spec fn inv(self) -> bool {
        self@.wf()
    }

    /// Begins a loop at time `now`: the first deadline is `now` itself.
    pub fn new(now: u64, interval: u64) -> (scheduler: Scheduler)
        ensures
            scheduler@ == SchedulerView::initial(now as nat, interval as nat),
            scheduler@.wf(),
    {
        assert(0 * (interval as nat) == 0) by (nonlinear_arith);
        Scheduler { start: now, interval, iterations: 0, next_deadline: now, emitted: 0, running: true }
    }

    /// The time before which the next iteration does not fetch.
    pub fn next_deadline(&self) -> (t: u64)
        ensures
            self@.wf(),
            t == self@.next_deadline,
            t == self@.start + self@.iterations * self@.interval,
    {
        proof {
            use_type_invariant(self);
        }
        self.next_deadline
    }

    /// The time from one deadline to the next.
    pub fn interval(&self) -> (t: u64)
        ensures
            t == self@.interval,
    {
        self.interval
    }

    /// The number of iterations begun so far.
    pub fn iterations(&self) -> (n: u64)
        ensures
            n == self@.iterations,
    {
        self.iterations
    }

    /// The number of frames handed on for emission so far.
    pub fn emitted(&self) -> (n: u64)
        ensures
            n == self@.emitted,
    {
        self.emitted
    }

    /// False once the loop has ended.
    pub fn is_running(&self) -> (b: bool)
        ensures
            b == self@.running,
    {
        self.running
    }

    /// True when `on_fetch` can move the deadline on without leaving 64 bits.
    pub fn can_advance(&self) -> (b: bool)
        ensures
            b == self@.can_advance(),
    {
        self.next_deadline <= u64::MAX - self.interval && self.iterations < u64::MAX
    }

    /// How long to block at time `now` before the next fetch.
    pub fn delay(&self, now: u64) -> (d: Option<u64>)
        ensures
            d is Some <==> self@.running,
            d is Some ==> self@.delay(now as int) == Some(d->Some_0 as int),
            d is Some ==> now + d->Some_0 == wake_time(self@.next_deadline as int, now as int),
    {
        if !self.running {
            None
        } else if now < self.next_deadline {
            Some(self.next_deadline - now)
        } else {
            Some(0)
        }
    }

    /// Ends one iteration: moves the deadline on by the interval and says
    /// what to do with what the source answered. After the loop has ended the
    /// answer is always to stop, and nothing changes.
    pub fn on_fetch(&mut self, fetched: Fetched) -> (action: Action)
        requires
            old(self)@.running ==> old(self)@.can_advance(),
        ensures
            final(self)@ == old(self)@.step(fetched),
            action == old(self)@.action(fetched),
            final(self)@.wf(),
    {
        proof {
            use_type_invariant(&*self);
        }
        if !self.running {
            return Action::Stop;
        }
        let ghost before = self@;
        assert((before.iterations + 1) * before.interval == before.iterations * before.interval
            + before.interval) by (nonlinear_arith);
        let frame_came = match fetched {
            Fetched::Frame => true,
            _ => false,
        };
        *self = Scheduler {
            start: self.start,
            interval: self.interval,
            iterations: self.iterations + 1,
            next_deadline: self.next_deadline + self.interval,
            emitted: if frame_came {
                self.emitted + 1
            } else {
                self.emitted
            },
            running: frame_came,
        };
        if frame_came {
            Action::Emit
        } else {
            Action::Stop
        }
    }

    /// Ends the loop from outside: the next call of `delay` gives none, and
    /// the next call of `on_fetch` says to stop.
    pub fn stop(&mut self)
        ensures
            final(self)@ == old(self)@.stopped(),
            final(self)@.wf(),
    {
        proof {
            use_type_invariant(&*self);
        }
        *self = Scheduler {
            start: self.start,
            interval: self.interval,
            iterations: self.iterations,
            next_deadline: self.next_deadline,
            emitted: self.emitted,
            running: false,
        };
    }
}

/// The answers of a source that has a frame each time it is asked, `n` times.
pub open spec fn frames(n: int) -> Seq<Fetched> {
    Seq::new(n as nat, |i: int| Fetched::Frame)
}

/// The time at which iteration `i` of a loop stops blocking and emits its
/// frame, on a clock that nothing moves but the loop itself. The loop begins
/// in state `s` at the time of its deadline; every fetch gives a frame;
/// `costs[k]` is the time that iteration `k` takes after it has stopped
/// blocking. Iteration `i` begins when iteration `i - 1` is done, in the state
/// that `i` fetches have led to, and blocks for as long as that state says.
pub open spec fn emission_at(s: SchedulerView, costs: Seq<int>, i: int) -> int
    decreases i,
{
    let now = if i <= 0 {
        s.next_deadline as int
    } else {
        emission_at(s, costs, i - 1) + costs[i - 1]
    };
    match s.run(frames(i)).delay(now) {
        Some(blocked) => now + blocked,
        None => now,
    }
}

/// An iteration keeps the deadline a whole number of intervals after the start.
pub proof fn lemma_step_keeps_schedule(s: SchedulerView, fetched: Fetched)
    requires
        s.wf(),
    ensures
        s.step(fetched).wf(),
        s.step(fetched).start == s.start,
        s.step(fetched).interval == s.interval,
{
    assert((s.iterations + 1) * s.interval == s.iterations * s.interval + s.interval)
        by (nonlinear_arith);
}

/// Whatever the source answers, and whenever, the deadline of every state
/// that a loop reaches lies a whole number of intervals after the start: one
/// interval for each iteration begun.
pub proof fn lemma_run_keeps_schedule(s: SchedulerView, fetches: Seq<Fetched>)
    requires
        s.wf(),
    ensures
        s.run(fetches).wf(),
        s.run(fetches).start == s.start,
        s.run(fetches).interval == s.interval,
        s.run(fetches).next_deadline == s.start + s.run(fetches).iterations * s.interval,
    decreases fetches.len(),
{
    if fetches.len() > 0 {
        lemma_run_keeps_schedule(s, fetches.drop_last());
        lemma_step_keeps_schedule(s.run(fetches.drop_last()), fetches.last());
    }
}

/// While frames come the loop goes on: each iteration emits one frame and
/// moves the deadline on by one interval.
pub proof fn lemma_run_of_frames(s: SchedulerView, fetches: Seq<Fetched>)
    requires
        s.running,
        forall|i: int| 0 <= i < fetches.len() ==> (#[trigger] fetches[i]) is Frame,
    ensures
        s.run(fetches).running,
        s.run(fetches).start == s.start,
        s.run(fetches).interval == s.interval,
        s.run(fetches).iterations == s.iterations + fetches.len(),
        s.run(fetches).emitted == s.emitted + fetches.len(),
        s.run(fetches).next_deadline == s.next_deadline + fetches.len() * s.interval,
    decreases fetches.len(),
{
    if fetches.len() > 0 {
        let head = fetches.drop_last();
        lemma_run_of_frames(s, head);
        assert(fetches.last() == fetches[fetches.len() - 1]);
        let n = fetches.len();
        let m = head.len();
        let step = s.interval;
        assert(n * step == m * step + step) by (nonlinear_arith)
            requires
                n == m + 1,
        ;
    } else {
        assert(0 * (s.interval as int) == 0) by (nonlinear_arith);
    }
}

/// A loop that has ended stays as it is: it asks for no more blocking, and
/// answers every fetch with the order to stop.
pub proof fn lemma_stopped_is_final(s: SchedulerView, fetches: Seq<Fetched>)
    requires
        !s.running,
    ensures
        s.run(fetches) == s,
        forall|now: int| (#[trigger] s.delay(now)) is None,
        forall|fetched: Fetched| #[trigger] s.action(fetched) == Action::Stop,
    decreases fetches.len(),
{
    if fetches.len() > 0 {
        lemma_stopped_is_final(s, fetches.drop_last());
    }
}

/// When the source first answers without a frame in iteration `k`, counted
/// from one, the loop ends there: `k - 1` frames have been emitted, `k`
/// iterations have begun, and whatever the source answers afterwards changes
/// nothing.
pub proof fn lemma_stops_at_first_failure(s: SchedulerView, fetches: Seq<Fetched>, k: int)
    requires
        s.running,
        1 <= k <= fetches.len(),
        forall|i: int| 0 <= i < k - 1 ==> (#[trigger] fetches[i]) is Frame,
        !(fetches[k - 1] is Frame),
    ensures
        !s.run(fetches).running,
        s.run(fetches).start == s.start,
        s.run(fetches).interval == s.interval,
        s.run(fetches).emitted == s.emitted + k - 1,
        s.run(fetches).iterations == s.iterations + k,
        s.run(fetches).next_deadline == s.next_deadline + k * s.interval,
        s.run(fetches) == s.run(fetches.take(k)),
    decreases fetches.len(),
{
    if fetches.len() == k {
        let head = fetches.drop_last();
        assert(fetches.take(k) =~= fetches);
        assert forall|i: int| 0 <= i < head.len() implies (#[trigger] head[i]) is Frame by {
            assert(head[i] == fetches[i]);
        }
        lemma_run_of_frames(s, head);
        let step = s.interval as int;
        assert(head.len() == k - 1);
        assert((k - 1) * step + step == k * step) by (nonlinear_arith);
    } else {
        let head = fetches.drop_last();
        assert(head[k - 1] == fetches[k - 1]);
        assert forall|i: int| 0 <= i < k - 1 implies (#[trigger] head[i]) is Frame by {
            assert(head[i] == fetches[i]);
        }
        lemma_stops_at_first_failure(s, head, k);
        assert(head.take(k) =~= fetches.take(k));
    }
}

/// After `i` frames the loop runs on, and waits for the deadline that lies
/// `i` intervals after the one it began with.
pub proof fn lemma_deadline_after_frames(s: SchedulerView, i: int)
    requires
        s.running,
        0 <= i,
    ensures
        s.run(frames(i)).running,
        s.run(frames(i)).next_deadline == s.next_deadline + i * s.interval,
        s.run(frames(i)).emitted == s.emitted + i,
{
    lemma_run_of_frames(s, frames(i));
}

/// Iteration `i` emits at its deadline, or as soon as the iteration before it
/// is done where that is later: never before the deadline, and without
/// blocking once the deadline has passed.
pub proof fn lemma_emission_time(s: SchedulerView, costs: Seq<int>, i: int)
    requires
        s.running,
        0 <= i,
    ensures
        emission_at(s, costs, i) >= s.next_deadline + i * s.interval,
        i == 0 ==> emission_at(s, costs, i) == s.next_deadline,
        i > 0 ==> emission_at(s, costs, i) == wake_time(
            s.next_deadline + i * s.interval,
            emission_at(s, costs, i - 1) + costs[i - 1],
        ),
{
    lemma_deadline_after_frames(s, i);
    if i == 0 {
        assert(0 * (s.interval as int) == 0) by (nonlinear_arith);
    }
}

/// Lateness does not add up. Once a frame is emitted at its deadline, every
/// later frame is emitted at its own deadline too, as long as no iteration in
/// between takes more than one interval. From the start of the loop this
/// holds of every frame: with work that takes no time, frame `i` is emitted
/// exactly `i` intervals after the start.
pub proof fn lemma_emission_on_schedule(s: SchedulerView, costs: Seq<int>, from: int, i: int)
    requires
        s.running,
        0 <= from <= i,
        from > 0 ==> emission_at(s, costs, from) == s.next_deadline + from * s.interval,
        forall|k: int| from <= k < i ==> 0 <= #[trigger] costs[k] <= s.interval,
    ensures
        emission_at(s, costs, i) == s.next_deadline + i * s.interval,
    decreases i - from,
{
    lemma_emission_time(s, costs, i);
    if from < i {
        lemma_emission_on_schedule(s, costs, from, i - 1);
        assert(0 <= costs[i - 1] <= s.interval);
        let step = s.interval as int;
        assert((i - 1) * step + step == i * step) by (nonlinear_arith);
    } else if i == 0 {
        assert(0 * (s.interval as int) == 0) by (nonlinear_arith);
    }
}

} // verus!

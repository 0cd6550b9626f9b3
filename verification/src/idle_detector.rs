//! The moments in which the user is free: at the machine, with nothing heavy in
//! the foreground, for long enough.

use vstd::prelude::*;
use crate::clock::{elapsed_nanos, has_lasted, lasted, MonotonicClock};
use crate::config::IdleDetectionConfig;
use crate::text::{eq_ignore_ascii_case, same_ignoring_ascii_case};

verus! {

/// How far the detector has come.
#[derive(Debug, Clone, Copy, PartialEq, Eq, Structural)]
pub enum State {
    /// The user is not free.
    Blocked,
    /// The user has been free since this reading of the monotonic clock, not yet
    /// long enough.
    Debouncing(u64),
    /// The free moment was announced and goes on.
    Fired,
}

/// What the system says at one moment.
#[derive(Debug)]
pub struct Sample {
    /// The milliseconds since the last input.
    pub last_input_ms: u64,
    /// Whether the foreground window covers the screen.
    pub fullscreen: bool,
    /// The name of the foreground process, if there is such a process. A process
    /// that is not known has the empty name.
    pub foreground: Option<String>,
}

impl Sample {
    /// There was input within the presence threshold.
    pub open spec fn present(self, config: IdleDetectionConfig) -> bool {
        self.last_input_ms < config.presence_threshold_seconds * 1000
    }

    /// The foreground process is on the denylist, whatever the case of its letters.
    pub open spec fn denied(self, config: IdleDetectionConfig) -> bool {
        self.foreground matches Some(name) && on_denylist(config, name@)
    }

    /// The foreground window covers the screen or belongs to a denied process.
    pub open spec fn heavy(self, config: IdleDetectionConfig) -> bool {
        self.fullscreen || self.denied(config)
    }

    /// The user is present, and nothing heavy is in the foreground.
    pub open spec fn free(self, config: IdleDetectionConfig) -> bool {
        self.present(config) && !self.heavy(config)
    }

    /// The name of the foreground process, empty where there is none.
    pub open spec fn name(self) -> Seq<char> {
        match self.foreground {
            Some(name) => name@,
            None => Seq::empty(),
        }
    }
}

/// The process name is on the denylist, whatever the case of its letters.
pub open spec fn on_denylist(config: IdleDetectionConfig, name: Seq<char>) -> bool {
    exists|i: int|
        0 <= i < config.heavy_process_denylist@.len() && same_ignoring_ascii_case(
            name,
            #[trigger] config.heavy_process_denylist@[i]@,
        )
}

/// Whether the process name is on the denylist, whatever the case of its letters.
pub fn is_on_denylist(config: &IdleDetectionConfig, name: &str) -> (r: bool)
    ensures
        r == on_denylist(*config, name@),
{
    let list = &config.heavy_process_denylist;
    let mut i: usize = 0;
    while i < list.len()
        invariant
            list@ == config.heavy_process_denylist@,
            i <= list@.len(),
            forall|j: int| 0 <= j < i ==> !same_ignoring_ascii_case(name@, #[trigger] list@[j]@),
        decreases list@.len() - i,
    {
        if eq_ignore_ascii_case(name, list[i].as_str()) {
            assert(same_ignoring_ascii_case(name@, config.heavy_process_denylist@[i as int]@));
            return true;
        }
        i += 1;
    }
    false
}

/// The state after a poll at `now`, and whether the poll announces a free moment.
pub open spec fn polled(state: State, debounce_seconds: int, free: bool, now: u64) -> (
    State,
    bool,
) {
    match state {
        State::Blocked => (
            if free {
                State::Debouncing(now)
            } else {
                State::Blocked
            },
            false,
        ),
        State::Debouncing(since) => if !free {
            (State::Blocked, false)
        } else if has_lasted(since, now, debounce_seconds) {
            (State::Fired, true)
        } else {
            (State::Debouncing(since), false)
        },
        State::Fired => (
            if free {
                State::Fired
            } else {
                State::Blocked
            },
            false,
        ),
    }
}

/// What a detector knows: its settings and how far it has come.
pub struct DetectorState {
    pub config: IdleDetectionConfig,
    pub state: State,
}

/// Announces free moments.
pub struct IdleDetector {
    config: IdleDetectionConfig,
    state: State,
    clock: MonotonicClock,
}

impl View for IdleDetector {
    type V = DetectorState;

    closed spec fn view(&self) -> DetectorState {
        DetectorState { config: self.config, state: self.state }
    }
}

impl IdleDetector {
    /// A detector that takes the user for not free.
    pub fn new(config: IdleDetectionConfig) -> (r: Self)
        ensures
            r@ == (DetectorState { config, state: State::Blocked }),
    {
        IdleDetector { config, state: State::Blocked, clock: MonotonicClock::start() }
    }

    /// Looks at a sample, by the clock. To be called once per second. Whether a
    /// free moment begins is told exactly once, after the debounce span.
    pub fn poll(&mut self, sample: &Sample) -> (r: bool)
        requires
            old(self)@.config.threshold_fits(),
        ensures
            final(self)@.config == old(self)@.config,
            exists|now: u64|
                (final(self)@.state, r) == #[trigger] polled(
                    old(self)@.state,
                    old(self)@.config.debounce_seconds as int,
                    sample.free(old(self)@.config),
                    now,
                ),
    {
        let now = self.clock.now();
        self.poll_at(sample, now)
    }

    /// Looks at a sample when the monotonic clock shows `now`.
    pub fn poll_at(&mut self, sample: &Sample, now: u64) -> (r: bool)
        requires
            old(self)@.config.threshold_fits(),
        ensures
            final(self)@.config == old(self)@.config,
            (final(self)@.state, r) == polled(
                old(self)@.state,
                old(self)@.config.debounce_seconds as int,
                sample.free(old(self)@.config),
                now,
            ),
    {
        let free = self.is_free(sample);
        let (next, fired) = match self.state {
            State::Blocked => {
                let next = if free {
                    State::Debouncing(now)
                } else {
                    State::Blocked
                };
                (next, false)
            },
            State::Debouncing(since) => {
                if !free {
                    (State::Blocked, false)
                } else if lasted(since, now, self.config.debounce_seconds) {
                    (State::Fired, true)
                } else {
                    (State::Debouncing(since), false)
                }
            },
            State::Fired => {
                let next = if free {
                    State::Fired
                } else {
                    State::Blocked
                };
                (next, false)
            },
        };
        self.state = next;
        fired
    }

    /// Whether there was input within the presence threshold.
    pub fn is_user_present(&self, sample: &Sample) -> (r: bool)
        requires
            self@.config.threshold_fits(),
        ensures
            r == sample.present(self@.config),
    {
        sample.last_input_ms < self.config.presence_threshold_seconds * 1000
    }

    /// Whether the foreground window covers the screen or belongs to a denied
    /// process.
    pub fn is_heavy_app_foreground(&self, sample: &Sample) -> (r: bool)
        ensures
            r == sample.heavy(self@.config),
    {
        if sample.fullscreen {
            return true;
        }
        match &sample.foreground {
            Some(name) => is_on_denylist(&self.config, name.as_str()),
            None => false,
        }
    }

    /// The milliseconds since the last input, the name of the foreground process,
    /// and whether its window covers the screen.
    pub fn diagnostics(&self, sample: &Sample) -> (r: (u64, String, bool))
        ensures
            r.0 == sample.last_input_ms,
            r.1@ == sample.name(),
            r.2 == sample.fullscreen,
    {
        let name = match &sample.foreground {
            Some(name) => name.clone(),
            None => String::new(),
        };
        (sample.last_input_ms, name, sample.fullscreen)
    }

    /// Whether a free moment was announced and goes on. Tabs that are queued
    /// meanwhile need not wait for the next one.
    pub fn is_free_moment_active(&self) -> (r: bool)
        ensures
            r == (self@.state is Fired),
    {
        match self.state {
            State::Fired => true,
            _ => false,
        }
    }

    /// How long the user has been free without the free moment being announced, in
    /// nanoseconds, by the clock.
    pub fn debounce_elapsed(&self) -> (r: Option<u64>)
        ensures
            r is Some <==> self@.state is Debouncing,
            self@.state matches State::Debouncing(since) ==> exists|now: u64|
                r == Some(#[trigger] elapsed_nanos(since, now) as u64),
    {
        let now = self.clock.now();
        self.debounce_elapsed_at(now)
    }

    /// How long the user has been free without the free moment being announced, in
    /// nanoseconds, when the monotonic clock shows `now`.
    pub fn debounce_elapsed_at(&self, now: u64) -> (r: Option<u64>)
        ensures
            r == (match self@.state {
                State::Debouncing(since) => Some(elapsed_nanos(since, now) as u64),
                _ => None,
            }),
    {
        match self.state {
            State::Debouncing(since) => Some(now.saturating_sub(since)),
            _ => None,
        }
    }

    /// Whether the user is present and nothing heavy is in the foreground.
    fn is_free(&self, sample: &Sample) -> (r: bool)
        requires
            self@.config.threshold_fits(),
        ensures
            r == sample.free(self@.config),
    {
        self.is_user_present(sample) && !self.is_heavy_app_foreground(sample)
    }
}

/// The milliseconds from the last input, by the tick of that input and the current
/// tick. Where the last input is not known, it counts as just now.
pub fn last_input_elapsed_ms(last_input: Option<u32>, tick_now: u64) -> (r: u64)
    ensures
        r == (match last_input {
            Some(tick) => if tick_now >= tick {
                (tick_now - tick) as u64
            } else {
                0
            },
            None => 0,
        }),
{
    match last_input {
        Some(tick) => tick_now.saturating_sub(tick as u64),
        None => 0,
    }
}

/// A rectangle on the screen.
#[derive(Debug, Clone, Copy)]
pub struct WindowRect {
    pub left: i32,
    pub top: i32,
    pub right: i32,
    pub bottom: i32,
}

/// Whether the foreground window, if there is one, is at least as wide and as high
/// as the screen.
pub fn foreground_is_fullscreen(window: Option<WindowRect>, width: i32, height: i32) -> (r: bool)
    requires
        window matches Some(rect) ==> i32::MIN <= rect.right - rect.left <= i32::MAX && i32::MIN
            <= rect.bottom - rect.top <= i32::MAX,
    ensures
        r == (window matches Some(rect) && rect.right - rect.left >= width && rect.bottom
            - rect.top >= height),
{
    match window {
        Some(rect) => rect.right - rect.left >= width && rect.bottom - rect.top >= height,
        None => false,
    }
}

/// The process of the foreground window, if there is one: zero stands for no
/// window and for no process.
pub fn foreground_pid(window: isize, pid: u32) -> (r: Option<u32>)
    ensures
        r == (if window == 0 || pid == 0 {
            None::<u32>
        } else {
            Some(pid)
        }),
{
    if window == 0 || pid == 0 {
        None
    } else {
        Some(pid)
    }
}

/// One poll: whether the user is free, and the monotonic clock.
pub struct Poll {
    pub free: bool,
    pub now: u64,
}

/// The state after the polls.
pub open spec fn state_after(start: State, debounce_seconds: int, polls: Seq<Poll>) -> State
    decreases polls.len(),
{
    if polls.len() == 0 {
        start
    } else {
        polled(
            state_after(start, debounce_seconds, polls.drop_last()),
            debounce_seconds,
            polls.last().free,
            polls.last().now,
        ).0
    }
}

/// Whether the poll at position `k` announces a free moment.
pub open spec fn fires(start: State, debounce_seconds: int, polls: Seq<Poll>, k: int) -> bool {
    polled(
        state_after(start, debounce_seconds, polls.take(k)),
        debounce_seconds,
        polls[k].free,
        polls[k].now,
    ).1
}

/// At poll `k` the debounce span has passed since the first poll.
pub open spec fn settled(polls: Seq<Poll>, debounce_seconds: int, k: int) -> bool {
    0 < k && has_lasted(polls[0].now, polls[k].now, debounce_seconds)
}

/// While the user stays free, the free moment is announced exactly once: at the
/// first poll at which the debounce span has passed since the user became free.
pub proof fn law_announced_once_while_free(polls: Seq<Poll>, debounce_seconds: int, k: int)
    requires
        forall|i: int| 0 <= i < polls.len() ==> (#[trigger] polls[i]).free,
        0 <= k < polls.len(),
    ensures
        fires(State::Blocked, debounce_seconds, polls, k) <==> settled(polls, debounce_seconds, k)
            && forall|i: int| 0 <= i < k ==> !#[trigger] settled(polls, debounce_seconds, i),
{
    lemma_state_while_free(polls, debounce_seconds, k);
}

proof fn lemma_state_while_free(polls: Seq<Poll>, debounce_seconds: int, k: int)
    requires
        forall|i: int| 0 <= i < polls.len() ==> (#[trigger] polls[i]).free,
        0 <= k <= polls.len(),
    ensures
        state_after(State::Blocked, debounce_seconds, polls.take(k)) == if k == 0 {
            State::Blocked
        } else if exists|i: int| 0 <= i < k && #[trigger] settled(polls, debounce_seconds, i) {
            State::Fired
        } else {
            State::Debouncing(polls[0].now)
        },
    decreases k,
{
    if k > 0 {
        lemma_state_while_free(polls, debounce_seconds, k - 1);
        assert(polls.take(k).drop_last() =~= polls.take(k - 1));
        assert(polls.take(k).last() == polls[k - 1]);
        if k > 1 {
            if exists|i: int| 0 <= i < k - 1 && #[trigger] settled(polls, debounce_seconds, i) {
                let i = choose|i: int|
                    0 <= i < k - 1 && #[trigger] settled(polls, debounce_seconds, i);
                assert(settled(polls, debounce_seconds, i));
            } else if settled(polls, debounce_seconds, k - 1) {
            } else {
                assert forall|i: int| 0 <= i < k implies !#[trigger] settled(
                    polls,
                    debounce_seconds,
                    i,
                ) by {
                    if i < k - 1 {
                        assert(!settled(polls, debounce_seconds, i));
                    }
                }
            }
        } else {
            assert(!settled(polls, debounce_seconds, 0));
        }
    }
}

/// A poll that finds the user not free announces nothing and starts over.
pub proof fn law_a_blocked_poll_starts_over(state: State, debounce_seconds: int, now: u64)
    ensures
        polled(state, debounce_seconds, false, now) == (State::Blocked, false),
{
}

/// Between two announcements the user was found not free at least once.
pub proof fn law_announcements_are_parted_by_a_blocked_poll(
    start: State,
    polls: Seq<Poll>,
    debounce_seconds: int,
    i: int,
    j: int,
)
    requires
        0 <= i < j < polls.len(),
        fires(start, debounce_seconds, polls, i),
        fires(start, debounce_seconds, polls, j),
    ensures
        exists|k: int| i < k < j && !(#[trigger] polls[k]).free,
{
    if forall|k: int| i < k < j ==> (#[trigger] polls[k]).free {
        lemma_stays_fired(start, polls, debounce_seconds, i, j);
    }
}

proof fn lemma_stays_fired(
    start: State,
    polls: Seq<Poll>,
    debounce_seconds: int,
    i: int,
    j: int,
)
    requires
        0 <= i < j <= polls.len(),
        fires(start, debounce_seconds, polls, i),
        forall|k: int| i < k < j ==> (#[trigger] polls[k]).free,
    ensures
        state_after(start, debounce_seconds, polls.take(j)) is Fired,
    decreases j,
{
    assert(polls.take(j).drop_last() =~= polls.take(j - 1));
    assert(polls.take(j).last() == polls[j - 1]);
    if j > i + 1 {
        lemma_stays_fired(start, polls, debounce_seconds, i, j - 1);
    }
}

}

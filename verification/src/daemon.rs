//! What the daemon does about what happens: messages from the extension, ticks of
//! its timers, and answers of the user.
//!
//! A turn says what to send, what to show, and what to ask the store next. The
//! store's reply comes back through `Daemon::resume`, until there is nothing more
//! to ask.

use vstd::prelude::*;
use crate::clock::{MonotonicClock, UtcTime};
use crate::config::{Config, IdleDetectionConfig, LlmConfig};
use crate::idle_detector::{polled, DetectorState, IdleDetector, Sample, State};
use crate::messages::{DaemonCommand, ExtensionMessage};
use crate::presenter::{PresenterAction, RecapEntry, RecapPayload};
use crate::tab_store::{
    leftover_text, leftover_threshold_at, ArchivalReason, PendingTab, StoreReply, StoreRequest,
};
use crate::tab_tracker::{
    after_message, resumes_to, sweeps_to, Job, JobView, Progress, ProgressView, TabTracker,
    TrackerState,
};

verus! {

/// The tabs that were put away for a reason, in order.
pub open spec fn of_reason(tabs: Seq<PendingTab>, reason: ArchivalReason) -> Seq<PendingTab>
    decreases tabs.len(),
{
    if tabs.len() == 0 {
        tabs
    } else if tabs.last().reason == reason {
        of_reason(tabs.drop_last(), reason).push(tabs.last())
    } else {
        of_reason(tabs.drop_last(), reason)
    }
}

/// The reasons for which tabs were put away, each once, in the order in which they
/// first appear.
pub open spec fn reasons(tabs: Seq<PendingTab>) -> Seq<ArchivalReason>
    decreases tabs.len(),
{
    if tabs.len() == 0 {
        Seq::empty()
    } else {
        let front = reasons(tabs.drop_last());
        if front.contains(tabs.last().reason) {
            front
        } else {
            front.push(tabs.last().reason)
        }
    }
}

/// The entry shows the tab: its address, and its title if it has one.
pub open spec fn shows(entry: RecapEntry, tab: PendingTab) -> bool {
    &&& entry.url == tab.url
    &&& match tab.title {
        Some(title) => entry.title == title,
        None => entry.title@.len() == 0,
    }
}

/// The recap tells of the tabs, which were put away for the reason.
pub open spec fn tells_of(
    recap: RecapPayload,
    reason: ArchivalReason,
    tabs: Seq<PendingTab>,
    llm: LlmConfig,
) -> bool {
    &&& recap.reason@ == reason.name()
    &&& recap.tab_count == tabs.len()
    &&& recap.entries@.len() == tabs.len()
    &&& forall|i: int| 0 <= i < tabs.len() ==> shows(#[trigger] recap.entries@[i], tabs[i])
    &&& recap.ollama_url == llm.ollama_url
    &&& recap.ollama_model == llm.ollama_model
}

/// The recaps tell of the tabs, one recap for each reason.
pub open spec fn recap(recaps: Seq<RecapPayload>, tabs: Seq<PendingTab>, llm: LlmConfig) -> bool {
    &&& recaps.len() == reasons(tabs).len()
    &&& forall|i: int|
        0 <= i < recaps.len() ==> tells_of(
            #[trigger] recaps[i],
            reasons(tabs)[i],
            of_reason(tabs, reasons(tabs)[i]),
            llm,
        )
}

/// The name of a reason.
pub fn reason_str(r: ArchivalReason) -> (s: String)
    ensures
        s@ == r.name(),
{
    r.as_str().to_string()
}

/// The recap of the tabs that were put away for a reason.
fn recap_of(tabs: &Vec<PendingTab>, reason: ArchivalReason, llm: &LlmConfig) -> (r: RecapPayload)
    ensures
        tells_of(r, reason, of_reason(tabs@, reason), *llm),
{
    let mut entries: Vec<RecapEntry> = Vec::new();
    let mut i: usize = 0;
    assert(tabs@.take(0) =~= Seq::empty());
    while i < tabs.len()
        invariant
            i <= tabs@.len(),
            entries@.len() == of_reason(tabs@.take(i as int), reason).len(),
            forall|k: int|
                0 <= k < entries@.len() ==> shows(
                    #[trigger] entries@[k],
                    of_reason(tabs@.take(i as int), reason)[k],
                ),
        decreases tabs@.len() - i,
    {
        let tab = &tabs[i];
        proof {
            assert(tabs@.take(i + 1).drop_last() =~= tabs@.take(i as int));
            assert(tabs@.take(i + 1).last() == tab);
        }
        if tab.reason == reason {
            let title = match &tab.title {
                Some(title) => title.clone(),
                None => String::new(),
            };
            entries.push(RecapEntry { title, url: tab.url.clone() });
        }
        i += 1;
    }
    assert(tabs@.take(i as int) =~= tabs@);
    RecapPayload {
        reason: reason_str(reason),
        tab_count: entries.len(),
        entries,
        ollama_url: llm.ollama_url.clone(),
        ollama_model: llm.ollama_model.clone(),
    }
}

/// Whether the reason is among those given.
fn is_among(reason: ArchivalReason, given: &Vec<ArchivalReason>) -> (r: bool)
    ensures
        r == given@.contains(reason),
{
    let mut i: usize = 0;
    while i < given.len()
        invariant
            i <= given@.len(),
            forall|k: int| 0 <= k < i ==> given@[k] != reason,
        decreases given@.len() - i,
    {
        if given[i] == reason {
            return true;
        }
        i += 1;
    }
    false
}

/// The recaps of the tabs that were put away, one for each reason.
pub fn recaps_of(tabs: &Vec<PendingTab>, llm: &LlmConfig) -> (r: Vec<RecapPayload>)
    ensures
        recap(r@, tabs@, *llm),
{
    let mut found: Vec<ArchivalReason> = Vec::new();
    let mut i: usize = 0;
    assert(tabs@.take(0) =~= Seq::empty());
    while i < tabs.len()
        invariant
            i <= tabs@.len(),
            found@ == reasons(tabs@.take(i as int)),
        decreases tabs@.len() - i,
    {
        let reason = tabs[i].reason;
        proof {
            assert(tabs@.take(i + 1).drop_last() =~= tabs@.take(i as int));
            assert(tabs@.take(i + 1).last().reason == reason);
        }
        if !is_among(reason, &found) {
            found.push(reason);
        }
        i += 1;
    }
    assert(tabs@.take(i as int) =~= tabs@);
    let mut recaps: Vec<RecapPayload> = Vec::new();
    let mut k: usize = 0;
    while k < found.len()
        invariant
            found@ == reasons(tabs@),
            k <= found@.len(),
            recaps@.len() == k,
            forall|j: int|
                0 <= j < k ==> tells_of(
                    #[trigger] recaps@[j],
                    found@[j],
                    of_reason(tabs@, found@[j]),
                    *llm,
                ),
        decreases found@.len() - k,
    {
        recaps.push(recap_of(tabs, found[k], llm));
        k += 1;
    }
    recaps
}

/// Something that happens.
#[derive(Debug)]
pub enum Event {
    /// The extension sent a message.
    Message(ExtensionMessage),
    /// The extension is gone.
    Disconnected,
    /// It is time for a detection sweep.
    SweepTick,
    /// It is time to look whether the user is free.
    IdleTick(Sample),
    /// The user answered a dialog.
    UserAction(PresenterAction),
}

/// What the daemon is doing while it waits for the store.
#[derive(Debug)]
pub enum Stage {
    Message(Job),
    Sweep(Job),
    /// Counting the queue after a sweep.
    Count,
    Flush(Job),
    /// Taking what earlier sessions left in the queue.
    Leftover,
    /// Archiving the leftover tab at `at`.
    Archive { tabs: Vec<PendingTab>, at: usize },
}

/// A call that failed.
#[derive(Debug, Clone, Copy, PartialEq, Eq, Structural)]
pub enum Call {
    Message,
    Sweep,
    Flush,
    Startup,
}

/// What the daemon does next.
#[derive(Debug)]
pub enum Next {
    /// Wait for something to happen.
    Wait,
    /// Ask the store, and resume with its reply.
    Ask { request: StoreRequest, stage: Stage },
    /// Shut down.
    Exit,
}

/// What the daemon does about something that happened.
#[derive(Debug)]
pub struct Turn {
    /// To be sent to the extension, first.
    pub commands: Vec<DaemonCommand>,
    /// To be shown to the user, after that.
    pub recaps: Vec<RecapPayload>,
    /// The call that failed, to be reported.
    pub failed: Option<Call>,
    pub next: Next,
}

/// The contents of a `Stage`.
pub enum StageView {
    Message(JobView),
    Sweep(JobView),
    Count,
    Flush(JobView),
    Leftover,
    Archive { tabs: Seq<PendingTab>, at: int },
}

/// The contents of a `Next`.
pub enum NextView {
    Wait,
    Ask { request: StoreRequest, stage: StageView },
    Exit,
}

/// The contents of a `Turn`.
pub struct TurnView {
    pub commands: Seq<DaemonCommand>,
    pub recaps: Seq<RecapPayload>,
    pub failed: Option<Call>,
    pub next: NextView,
}

impl View for Stage {
    type V = StageView;

    open spec fn view(&self) -> StageView {
        match self {
            Stage::Message(job) => StageView::Message(job@),
            Stage::Sweep(job) => StageView::Sweep(job@),
            Stage::Count => StageView::Count,
            Stage::Flush(job) => StageView::Flush(job@),
            Stage::Leftover => StageView::Leftover,
            Stage::Archive { tabs, at } => StageView::Archive { tabs: tabs@, at: *at as int },
        }
    }
}

impl View for Next {
    type V = NextView;

    open spec fn view(&self) -> NextView {
        match self {
            Next::Wait => NextView::Wait,
            Next::Ask { request, stage } => NextView::Ask { request: *request, stage: stage@ },
            Next::Exit => NextView::Exit,
        }
    }
}

impl View for Turn {
    type V = TurnView;

    open spec fn view(&self) -> TurnView {
        TurnView {
            commands: self.commands@,
            recaps: self.recaps@,
            failed: self.failed,
            next: self.next@,
        }
    }
}

impl StageView {
    /// What is still to do is valid.
    pub open spec fn valid(self) -> bool {
        match self {
            StageView::Message(job) => job.valid(),
            StageView::Sweep(job) => job.valid(),
            StageView::Flush(job) => job.valid(),
            StageView::Archive { tabs, at } => 0 <= at < tabs.len(),
            _ => true,
        }
    }
}

impl TurnView {
    /// Nothing is sent or shown; what comes next is given.
    pub open spec fn quiet(next: NextView) -> TurnView {
        TurnView { commands: Seq::empty(), recaps: Seq::empty(), failed: None, next }
    }

    /// What is still to do is valid.
    pub open spec fn valid(self) -> bool {
        self.next matches NextView::Ask { stage, .. } ==> stage.valid()
    }
}

/// Flushing the queue begins.
pub open spec fn flush_begins() -> NextView {
    NextView::Ask { request: StoreRequest::TakeAllPending, stage: StageView::Flush(JobView::Take) }
}

/// What follows a sweep: in a free moment the queue is counted.
pub open spec fn after_sweep(free: bool) -> NextView {
    if free {
        NextView::Ask { request: StoreRequest::CountPending, stage: StageView::Count }
    } else {
        NextView::Wait
    }
}

/// What the daemon does as a call of the tracker goes on: it asks the store for the
/// call; once the call is finished, it sends the commands and shows the recaps of
/// the tabs that were flushed; a call that failed is reported.
pub open spec fn settles(
    call: Call,
    p: ProgressView,
    free: bool,
    llm: LlmConfig,
    turn: TurnView,
) -> bool {
    match p {
        ProgressView::Ask { request, job } => turn == TurnView::quiet(
            NextView::Ask {
                request,
                stage: match call {
                    Call::Message => StageView::Message(job),
                    Call::Sweep => StageView::Sweep(job),
                    _ => StageView::Flush(job),
                },
            },
        ),
        ProgressView::Finished { commands, flushed } => {
            &&& turn.commands == commands
            &&& recap(turn.recaps, flushed, llm)
            &&& turn.failed is None
            &&& turn.next == if call is Sweep {
                after_sweep(free)
            } else {
                NextView::Wait
            }
        },
        ProgressView::Failed => {
            &&& turn.commands == Seq::<DaemonCommand>::empty()
            &&& turn.recaps == Seq::<RecapPayload>::empty()
            &&& turn.failed == Some(call)
            &&& turn.next == if call is Sweep {
                after_sweep(free)
            } else {
                NextView::Wait
            }
        },
    }
}

/// What a daemon knows.
pub struct DaemonState {
    pub tracker: TrackerState,
    pub detector: DetectorState,
    pub llm: LlmConfig,
}

impl DaemonState {
    /// The configured spans of time can be counted.
    pub open spec fn valid(self) -> bool {
        &&& self.tracker.config.rabbit_hole.spans_fit()
        &&& self.detector.config.threshold_fits()
    }

    /// A free moment goes on.
    pub open spec fn free(self) -> bool {
        self.detector.state is Fired
    }

    /// The daemon with another state of the tracker.
    pub open spec fn with_tracker(self, tracker: TrackerState) -> DaemonState {
        DaemonState { tracker, ..self }
    }
}

/// The daemon goes from one state to another about a message, when the clocks show
/// the given times.
pub open spec fn takes_message(
    from: DaemonState,
    msg: ExtensionMessage,
    now: u64,
    utc: UtcTime,
    to: DaemonState,
    turn: TurnView,
) -> bool {
    let (tracker, p) = after_message(from.tracker, msg, now, utc);
    to == from.with_tracker(tracker) && settles(Call::Message, p, from.free(), from.llm, turn)
}

/// The daemon goes from one state to another as a sweep begins, with the tabs in
/// the given order, when the clocks show the given times, and as far as `p`.
pub open spec fn starts_sweep(
    from: DaemonState,
    order: Seq<i64>,
    now: u64,
    utc: UtcTime,
    p: ProgressView,
    to: DaemonState,
    turn: TurnView,
) -> bool {
    &&& order.no_duplicates()
    &&& order.to_set() == from.tracker.tabs.dom()
    &&& sweeps_to(from.tracker, order, 0, now, utc, (to.tracker, p))
    &&& to == from.with_tracker(to.tracker)
    &&& settles(Call::Sweep, p, from.free(), from.llm, turn)
}

/// The daemon goes from one state to another about a look at whether the user is
/// free, when the clock shows the given time.
pub open spec fn looks(
    from: DaemonState,
    sample: Sample,
    now: u64,
    to: DaemonState,
    turn: TurnView,
) -> bool {
    let (state, fired) = polled(
        from.detector.state,
        from.detector.config.debounce_seconds as int,
        sample.free(from.detector.config),
        now,
    );
    &&& to == (DaemonState { detector: DetectorState { state, ..from.detector }, ..from })
    &&& turn == TurnView::quiet(
        if fired {
            flush_begins()
        } else {
            NextView::Wait
        },
    )
}

/// The daemon goes from one state to another as the tracker resumes a job, when the
/// clocks show the given times, and as far as `p`.
pub open spec fn resumes(
    from: DaemonState,
    call: Call,
    job: JobView,
    reply: StoreReply,
    now: u64,
    utc: UtcTime,
    p: ProgressView,
    to: DaemonState,
    turn: TurnView,
) -> bool {
    &&& resumes_to(from.tracker, job, reply, now, utc, (to.tracker, p))
    &&& to == from.with_tracker(to.tracker)
    &&& settles(call, p, from.free(), from.llm, turn)
}

/// What the daemon can do about something that happens when the clocks show the
/// given times.
pub open spec fn reacts_at(
    from: DaemonState,
    event: Event,
    now: u64,
    utc: UtcTime,
    to: DaemonState,
    turn: TurnView,
) -> bool {
    match event {
        Event::Message(msg) => takes_message(from, msg, now, utc, to, turn),
        Event::Disconnected => to == from && turn == TurnView::quiet(NextView::Exit),
        Event::SweepTick => exists|order: Seq<i64>, p: ProgressView| #[trigger]
            starts_sweep(from, order, now, utc, p, to, turn),
        Event::IdleTick(sample) => looks(from, sample, now, to, turn),
        Event::UserAction(PresenterAction::ReopenUrls(urls)) => to == from && turn == (TurnView {
            commands: seq![DaemonCommand::ReopenUrls { urls }],
            ..TurnView::quiet(NextView::Wait)
        }),
    }
}

/// What the daemon can do about something that happens.
pub open spec fn reacts(from: DaemonState, event: Event, to: DaemonState, turn: TurnView) -> bool {
    exists|now: u64, utc: UtcTime|
        utc.valid() && #[trigger] reacts_at(from, event, now, utc, to, turn)
}

/// What the daemon can do about a reply of the store when the clocks show the given
/// times.
pub open spec fn continues_at(
    from: DaemonState,
    stage: StageView,
    reply: StoreReply,
    now: u64,
    utc: UtcTime,
    to: DaemonState,
    turn: TurnView,
) -> bool {
    match stage {
        StageView::Message(job) => exists|p: ProgressView| #[trigger]
            resumes(from, Call::Message, job, reply, now, utc, p, to, turn),
        StageView::Sweep(job) => exists|p: ProgressView| #[trigger]
            resumes(from, Call::Sweep, job, reply, now, utc, p, to, turn),
        StageView::Flush(job) => exists|p: ProgressView| #[trigger]
            resumes(from, Call::Flush, job, reply, now, utc, p, to, turn),
        StageView::Count => to == from && turn == TurnView::quiet(
            if reply matches StoreReply::Count(n) && n > 0 {
                flush_begins()
            } else {
                NextView::Wait
            },
        ),
        StageView::Leftover => to == from && match reply {
            StoreReply::Tabs(tabs) => archives(tabs@, 0, utc, from.llm, turn),
            _ => turn == (TurnView {
                failed: Some(Call::Startup),
                ..TurnView::quiet(NextView::Wait)
            }),
        },
        StageView::Archive { tabs, at } => to == from && archives(
            tabs,
            at + 1,
            utc,
            from.llm,
            turn,
        ),
    }
}

/// What the daemon can do about a reply of the store.
pub open spec fn continues(
    from: DaemonState,
    stage: StageView,
    reply: StoreReply,
    to: DaemonState,
    turn: TurnView,
) -> bool {
    exists|now: u64, utc: UtcTime|
        utc.valid() && #[trigger] continues_at(from, stage, reply, now, utc, to, turn)
}

/// What the daemon does about the leftover tabs from `at` on: each is archived,
/// whether or not that succeeds, and at the end their recaps are shown.
pub open spec fn archives(
    tabs: Seq<PendingTab>,
    at: int,
    utc: UtcTime,
    llm: LlmConfig,
    turn: TurnView,
) -> bool {
    if at < tabs.len() {
        turn == TurnView::quiet(
            NextView::Ask {
                request: StoreRequest::ArchiveTab(tabs[at].archived_at(utc)),
                stage: StageView::Archive { tabs, at },
            },
        )
    } else {
        &&& turn.commands == Seq::<DaemonCommand>::empty()
        &&& recap(turn.recaps, tabs, llm)
        &&& turn.failed is None
        &&& turn.next == NextView::Wait
    }
}

/// A turn in which nothing is sent or shown.
fn quiet(next: Next) -> (r: Turn)
    ensures
        r@ == TurnView::quiet(next@),
{
    Turn { commands: Vec::new(), recaps: Vec::new(), failed: None, next }
}

/// What the daemon knows of the tabs, the user and the language model.
pub struct Daemon {
    tracker: TabTracker,
    detector: IdleDetector,
    llm: LlmConfig,
    clock: MonotonicClock,
}

impl View for Daemon {
    type V = DaemonState;

    closed spec fn view(&self) -> DaemonState {
        DaemonState { tracker: self.tracker@, detector: self.detector@, llm: self.llm }
    }
}

impl Daemon {
    /// A daemon that knows no tab and takes the user for not free. The settings of
    /// its parts are given apart.
    pub fn new(config: Config, idle: IdleDetectionConfig, llm: LlmConfig) -> (r: Self)
        requires
            config.rabbit_hole.spans_fit(),
            idle.threshold_fits(),
        ensures
            r@ == (DaemonState {
                tracker: TrackerState { tabs: Map::empty(), config },
                detector: DetectorState { config: idle, state: State::Blocked },
                llm,
            }),
            r@.valid(),
    {
        Daemon {
            tracker: TabTracker::new(config),
            detector: IdleDetector::new(idle),
            llm,
            clock: MonotonicClock::start(),
        }
    }

    /// What comes first, by the clock: the store is asked for the tabs that earlier
    /// sessions left in the queue more than eight hours ago.
    pub fn startup(&self) -> (r: Turn)
        ensures
            exists|now: UtcTime| now.valid() && #[trigger] starts_up(now, r@),
            r@.valid(),
    {
        let now = UtcTime::now();
        self.startup_at(now)
    }

    /// What comes first when the calendar shows `now`.
    pub fn startup_at(&self, now: UtcTime) -> (r: Turn)
        requires
            now.subsec() < 1_000_000_000,
        ensures
            starts_up(now, r@),
            r@.valid(),
    {
        let threshold = leftover_threshold_at(now, 8);
        quiet(
            Next::Ask {
                request: StoreRequest::TakeLeftoverPending { threshold },
                stage: Stage::Leftover,
            },
        )
    }

    /// What the daemon does about something that happens, by the clocks.
    pub fn on_event(&mut self, event: Event) -> (r: Turn)
        requires
            old(self)@.valid(),
        ensures
            reacts(old(self)@, event, final(self)@, r@),
            r@.valid(),
            final(self)@.valid(),
    {
        let now = self.clock.now();
        let utc = UtcTime::now();
        self.on_event_at(event, now, utc)
    }

    /// What the daemon does about something that happens when the monotonic clock
    /// shows `now` and the calendar `utc`.
    pub fn on_event_at(&mut self, event: Event, now: u64, utc: UtcTime) -> (r: Turn)
        requires
            old(self)@.valid(),
        ensures
            reacts_at(old(self)@, event, now, utc, final(self)@, r@),
            r@.valid(),
            final(self)@.valid(),
    {
        match event {
            Event::Message(msg) => {
                let progress = self.tracker.handle_message_at(msg, now, utc);
                self.settle(Call::Message, progress)
            },
            Event::Disconnected => quiet(Next::Exit),
            Event::SweepTick => {
                let progress = self.tracker.check_candidates_at(now, utc);
                let ghost p = progress@;
                let turn = self.settle(Call::Sweep, progress);
                proof {
                    let order = choose|order: Seq<i64>|
                        order.no_duplicates() && order.to_set() == old(self)@.tracker.tabs.dom()
                            && #[trigger] sweeps_to(
                            old(self)@.tracker,
                            order,
                            0,
                            now,
                            utc,
                            (self@.tracker, p),
                        );
                    assert(starts_sweep(old(self)@, order, now, utc, p, self@, turn@));
                }
                turn
            },
            Event::IdleTick(sample) => {
                if self.detector.poll_at(&sample, now) {
                    self.begin_flush()
                } else {
                    quiet(Next::Wait)
                }
            },
            Event::UserAction(PresenterAction::ReopenUrls(urls)) => {
                let commands = vec![DaemonCommand::ReopenUrls { urls }];
                assert(commands@ =~= seq![DaemonCommand::ReopenUrls { urls }]);
                Turn { commands, recaps: Vec::new(), failed: None, next: Next::Wait }
            },
        }
    }

    /// What the daemon does about a reply of the store, by the clocks.
    pub fn resume(&mut self, stage: Stage, reply: StoreReply) -> (r: Turn)
        requires
            old(self)@.valid(),
            stage@.valid(),
        ensures
            continues(old(self)@, stage@, reply, final(self)@, r@),
            r@.valid(),
            final(self)@.valid(),
    {
        let now = self.clock.now();
        let utc = UtcTime::now();
        self.resume_at(stage, reply, now, utc)
    }

    /// What the daemon does about a reply of the store when the monotonic clock
    /// shows `now` and the calendar `utc`.
    pub fn resume_at(&mut self, stage: Stage, reply: StoreReply, now: u64, utc: UtcTime) -> (r:
        Turn)
        requires
            old(self)@.valid(),
            stage@.valid(),
        ensures
            continues_at(old(self)@, stage@, reply, now, utc, final(self)@, r@),
            r@.valid(),
            final(self)@.valid(),
    {
        match stage {
            Stage::Message(job) => self.resume_call(Call::Message, job, reply, now, utc),
            Stage::Sweep(job) => self.resume_call(Call::Sweep, job, reply, now, utc),
            Stage::Flush(job) => self.resume_call(Call::Flush, job, reply, now, utc),
            Stage::Count => {
                let waiting = match reply {
                    StoreReply::Count(n) => n > 0,
                    _ => false,
                };
                if waiting {
                    self.begin_flush()
                } else {
                    quiet(Next::Wait)
                }
            },
            Stage::Leftover => match reply {
                StoreReply::Tabs(tabs) => self.archive_from(tabs, 0, utc),
                _ => Turn {
                    commands: Vec::new(),
                    recaps: Vec::new(),
                    failed: Some(Call::Startup),
                    next: Next::Wait,
                },
            },
            Stage::Archive { tabs, at } => {
                assert(at < tabs.len());
                self.archive_from(tabs, at + 1, utc)
            },
        }
    }

    /// Resumes a call of the tracker.
    fn resume_call(&mut self, call: Call, job: Job, reply: StoreReply, now: u64, utc: UtcTime) -> (r:
        Turn)
        requires
            old(self)@.valid(),
            job@.valid(),
            call is Message || call is Sweep || call is Flush,
        ensures
            exists|p: ProgressView| #[trigger]
                resumes(old(self)@, call, job@, reply, now, utc, p, final(self)@, r@),
            r@.valid(),
            final(self)@.valid(),
    {
        let progress = self.tracker.resume_at(job, reply, now, utc);
        let ghost p = progress@;
        let turn = self.settle(call, progress);
        assert(resumes(old(self)@, call, job@, reply, now, utc, p, self@, turn@));
        turn
    }

    /// What the daemon does as a call of the tracker goes on.
    fn settle(&self, call: Call, progress: Progress) -> (r: Turn)
        requires
            progress@.valid(),
            call is Message || call is Sweep || call is Flush,
        ensures
            settles(call, progress@, self@.free(), self@.llm, r@),
            r@.valid(),
    {
        match progress {
            Progress::Ask { request, job } => {
                let stage = match call {
                    Call::Message => Stage::Message(job),
                    Call::Sweep => Stage::Sweep(job),
                    _ => Stage::Flush(job),
                };
                quiet(Next::Ask { request, stage })
            },
            Progress::Finished(Ok(output)) => {
                let recaps = recaps_of(&output.flushed, &self.llm);
                let next = self.after_call(call);
                Turn { commands: output.commands, recaps, failed: None, next }
            },
            Progress::Finished(Err(_)) => {
                let next = self.after_call(call);
                Turn { commands: Vec::new(), recaps: Vec::new(), failed: Some(call), next }
            },
        }
    }

    /// What follows a call: after a sweep in a free moment the queue is counted.
    fn after_call(&self, call: Call) -> (r: Next)
        ensures
            r@ == (if call is Sweep {
                after_sweep(self@.free())
            } else {
                NextView::Wait
            }),
    {
        let sweep = match call {
            Call::Sweep => true,
            _ => false,
        };
        if sweep && self.detector.is_free_moment_active() {
            Next::Ask { request: StoreRequest::CountPending, stage: Stage::Count }
        } else {
            Next::Wait
        }
    }

    /// The flush of the queue begins.
    fn begin_flush(&self) -> (r: Turn)
        ensures
            r@ == TurnView::quiet(flush_begins()),
    {
        match self.tracker.flush_pending() {
            Progress::Ask { request, job } => quiet(
                Next::Ask { request, stage: Stage::Flush(job) },
            ),
            Progress::Finished(_) => quiet(Next::Wait),
        }
    }

    /// Archives the leftover tab at `at`; once all are archived, shows their
    /// recaps.
    fn archive_from(&self, tabs: Vec<PendingTab>, at: usize, utc: UtcTime) -> (r: Turn)
        requires
            at <= tabs@.len(),
        ensures
            archives(tabs@, at as int, utc, self@.llm, r@),
            r@.valid(),
    {
        if at < tabs.len() {
            let request = StoreRequest::ArchiveTab(tabs[at].archive(utc));
            quiet(Next::Ask { request, stage: Stage::Archive { tabs, at } })
        } else {
            let recaps = recaps_of(&tabs, &self.llm);
            Turn { commands: Vec::new(), recaps, failed: None, next: Next::Wait }
        }
    }
}

/// The store is asked for the tabs that were detected more than eight hours before
/// `now`.
pub open spec fn starts_up(now: UtcTime, turn: TurnView) -> bool {
    &&& turn.next matches NextView::Ask { request, stage } && stage is Leftover && (
    request matches StoreRequest::TakeLeftoverPending { threshold } && threshold@ == leftover_text(
        now,
        8,
    ))
    &&& turn == TurnView::quiet(turn.next)
}

}

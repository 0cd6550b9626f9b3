//! What the daemon sends, shows and asks in each turn.

use vstd::prelude::*;
use crate::clock::{rfc3339_text, UtcTime, MIN_SECONDS};
use crate::config::{Config, IdleDetectionConfig, LlmConfig};
use crate::daemon::{
    continues_at, of_reason, reacts_at, reasons, recap, resumes, shows, starts_sweep, starts_up,
    tells_of, Call, Daemon, DaemonState, Event, NextView, StageView, TurnView,
};
use crate::idle_detector::{Sample, State};
use crate::idle_laws::{law_what_a_poll_does, passed};
use crate::messages::{DaemonCommand, ExtensionMessage};
use crate::presenter::{PresenterAction, RecapEntry, RecapPayload};
use crate::tab_store::{ArchivalReason, PendingTab, StoreReply, StoreRequest};
use crate::message_laws::is_entry_of;
use crate::tab_tracker::{after_message, resumes_to, sweeps_to, JobView, ProgressView};

verus! {

/// The turn does about a call of the tracker what the call has come to: what the call
/// asks is asked, and nothing is sent meanwhile; what a finished call hands back to be
/// sent is sent, all of it and nothing else, and the tabs that it flushed are told of; a
/// call that failed is reported, and nothing is sent. A message or a flush that is over is
/// followed by nothing.
pub open spec fn follows(call: Call, p: ProgressView, llm: LlmConfig, turn: TurnView) -> bool {
    &&& p matches ProgressView::Ask { request, job } ==> {
        &&& turn.commands.len() == 0
        &&& turn.recaps.len() == 0
        &&& turn.failed is None
        &&& turn.next matches NextView::Ask { request: asked, stage } && asked == request && {
            &&& call is Message ==> stage == StageView::Message(job)
            &&& call is Sweep ==> stage == StageView::Sweep(job)
            &&& call is Flush ==> stage == StageView::Flush(job)
        }
    }
    &&& p matches ProgressView::Finished { commands, flushed } ==> {
        &&& turn.commands == commands
        &&& turn.failed is None
        &&& flushed.len() == 0 ==> turn.recaps.len() == 0
        &&& flushed.len() > 0 ==> turn.recaps.len() > 0
        &&& recap(turn.recaps, flushed, llm)
    }
    &&& p is Failed ==> {
        &&& turn.commands.len() == 0
        &&& turn.recaps.len() == 0
        &&& turn.failed == Some(call)
    }
    &&& !(p is Ask) && !(call is Sweep) ==> turn.next is Wait
}

proof fn lemma_no_recaps(tabs: Seq<PendingTab>)
    ensures
        tabs.len() == 0 <==> reasons(tabs).len() == 0,
        tabs.len() > 0 ==> reasons(tabs)[0] == tabs[0].reason,
    decreases tabs.len(),
{
    if tabs.len() > 0 {
        let front = tabs.drop_last();
        lemma_no_recaps(front);
        if front.len() > 0 {
            assert(front[0] == tabs[0]);
            assert(reasons(tabs)[0] == reasons(front)[0]);
        } else {
            assert(tabs.last() == tabs[0]);
            assert(reasons(tabs)[0] == tabs[0].reason);
        }
    }
}

/// What the tracker hands back about a message is what the daemon sends.
pub proof fn law_what_a_message_leads_to(
    from: DaemonState,
    msg: ExtensionMessage,
    now: u64,
    utc: UtcTime,
    to: DaemonState,
    turn: TurnView,
)
    requires
        reacts_at(from, Event::Message(msg), now, utc, to, turn),
    ensures
        to.tracker == after_message(from.tracker, msg, now, utc).0,
        follows(Call::Message, after_message(from.tracker, msg, now, utc).1, from.llm, turn),
        to.detector == from.detector,
        to.llm == from.llm,
{
    let p = after_message(from.tracker, msg, now, utc).1;
    if let ProgressView::Finished { commands, flushed } = p {
        lemma_no_recaps(flushed);
    }
}

/// The stage in which the daemon waits for the store about a job of the tracker.
pub open spec fn stage_of(call: Call, job: JobView) -> StageView {
    match call {
        Call::Message => StageView::Message(job),
        Call::Sweep => StageView::Sweep(job),
        _ => StageView::Flush(job),
    }
}

/// Whatever the tracker hands back once the store has replied, about a message as well as
/// a sweep or a flush, is what the daemon sends.
pub proof fn law_what_a_reply_leads_to(
    from: DaemonState,
    call: Call,
    job: JobView,
    reply: StoreReply,
    now: u64,
    utc: UtcTime,
    to: DaemonState,
    turn: TurnView,
)
    requires
        call != Call::Startup,
        continues_at(from, stage_of(call, job), reply, now, utc, to, turn),
    ensures
        exists|p: ProgressView| #[trigger]
            resumes_to(from.tracker, job, reply, now, utc, (to.tracker, p)) && follows(
                call,
                p,
                from.llm,
                turn,
            ),
        to.detector == from.detector,
        to.llm == from.llm,
{
    let p = choose|p: ProgressView| #[trigger]
        resumes(from, call, job, reply, now, utc, p, to, turn);
    assert(resumes(from, call, job, reply, now, utc, p, to, turn));
    if let ProgressView::Finished { commands, flushed } = p {
        lemma_no_recaps(flushed);
    }
    assert(resumes_to(from.tracker, job, reply, now, utc, (to.tracker, p)));
}

/// Once the content of a tab is archived, the extension is told to close that tab and
/// nothing else. Where it could not be archived, that is reported, and nothing is told.
pub proof fn law_an_archived_tab_is_closed_in_the_browser(
    from: DaemonState,
    tab_id: i64,
    reply: StoreReply,
    now: u64,
    utc: UtcTime,
    to: DaemonState,
    turn: TurnView,
)
    requires
        continues_at(
            from,
            StageView::Message(JobView::Content { tab_id }),
            reply,
            now,
            utc,
            to,
            turn,
        ),
    ensures
        !(reply is Failed) ==> turn.commands.len() == 1 && turn.commands[0] == (
        DaemonCommand::CloseTab { tab_id }) && turn.recaps.len() == 0 && turn.failed is None,
        reply is Failed ==> turn.commands.len() == 0 && turn.failed == Some(Call::Message)
            && to.tracker == from.tracker,
        turn.next is Wait,
{
    let p = choose|p: ProgressView| #[trigger]
        resumes(
            from,
            Call::Message,
            JobView::Content { tab_id },
            reply,
            now,
            utc,
            p,
            to,
            turn,
        );
    assert(resumes(from, Call::Message, JobView::Content { tab_id }, reply, now, utc, p, to, turn));
    if let ProgressView::Finished { commands, flushed } = p {
        lemma_no_recaps(flushed);
    }
}

/// A look at whether the user is free begins a flush of the queue exactly if it announces
/// a free moment: the user is free and has been watched as free for the whole span.
/// Nothing is sent or shown, and the tabs stay as they are.
pub proof fn law_a_free_moment_begins_a_flush(
    from: DaemonState,
    sample: Sample,
    now: u64,
    utc: UtcTime,
    to: DaemonState,
    turn: TurnView,
)
    requires
        reacts_at(from, Event::IdleTick(sample), now, utc, to, turn),
    ensures
        ({
            let announced = sample.free(from.detector.config) && (
            from.detector.state matches State::Debouncing(since) && passed(since, now)
                >= from.detector.config.debounce_seconds * 1_000_000_000);
            &&& announced ==> turn.next == (NextView::Ask {
                request: StoreRequest::TakeAllPending,
                stage: StageView::Flush(JobView::Take),
            }) && to.detector.state is Fired
            &&& !announced ==> turn.next is Wait
        }),
        !sample.free(from.detector.config) ==> to.detector.state is Blocked,
        to.tracker == from.tracker,
        to.llm == from.llm,
        to.detector.config == from.detector.config,
        turn.commands.len() == 0,
        turn.recaps.len() == 0,
        turn.failed is None,
{
    law_what_a_poll_does(
        from.detector.state,
        from.detector.config.debounce_seconds as int,
        sample.free(from.detector.config),
        now,
    );
}

/// A sweep that is over, with or without a failure, is followed in a free moment by
/// counting the queue, and at any other time by nothing. It sends nothing.
pub proof fn law_what_follows_a_sweep(
    from: DaemonState,
    job: JobView,
    reply: StoreReply,
    now: u64,
    utc: UtcTime,
    to: DaemonState,
    turn: TurnView,
)
    requires
        job is WatchLater || job is RabbitHole,
        continues_at(from, StageView::Sweep(job), reply, now, utc, to, turn),
        !(turn.next matches NextView::Ask { stage, .. } && stage is Sweep),
    ensures
        from.detector.state is Fired ==> turn.next == (NextView::Ask {
            request: StoreRequest::CountPending,
            stage: StageView::Count,
        }),
        !(from.detector.state is Fired) ==> turn.next is Wait,
        turn.commands.len() == 0,
        turn.recaps.len() == 0,
{
    let p = choose|p: ProgressView| #[trigger]
        resumes(from, Call::Sweep, job, reply, now, utc, p, to, turn);
    assert(resumes(from, Call::Sweep, job, reply, now, utc, p, to, turn));
    if let ProgressView::Finished { commands, flushed } = p {
        lemma_no_recaps(flushed);
    }
}

/// The same of a sweep that is over at once.
pub proof fn law_what_follows_a_sweep_that_finds_nothing(
    from: DaemonState,
    now: u64,
    utc: UtcTime,
    to: DaemonState,
    turn: TurnView,
)
    requires
        reacts_at(from, Event::SweepTick, now, utc, to, turn),
        !(turn.next matches NextView::Ask { stage, .. } && stage is Sweep),
    ensures
        from.detector.state is Fired ==> turn.next == (NextView::Ask {
            request: StoreRequest::CountPending,
            stage: StageView::Count,
        }),
        !(from.detector.state is Fired) ==> turn.next is Wait,
        turn.commands.len() == 0,
        turn.recaps.len() == 0,
        to.detector == from.detector,
        to.llm == from.llm,
{
    let (order, p) = choose|order: Seq<i64>, p: ProgressView| #[trigger]
        starts_sweep(from, order, now, utc, p, to, turn);
    assert(starts_sweep(from, order, now, utc, p, to, turn));
    if let ProgressView::Finished { commands, flushed } = p {
        lemma_no_recaps(flushed);
    }
}

/// A queue that was counted is flushed exactly if it holds anything.
pub proof fn law_a_counted_queue_is_flushed_unless_empty(
    from: DaemonState,
    reply: StoreReply,
    now: u64,
    utc: UtcTime,
    to: DaemonState,
    turn: TurnView,
)
    requires
        continues_at(from, StageView::Count, reply, now, utc, to, turn),
    ensures
        (reply matches StoreReply::Count(n) && n > 0) ==> turn.next == (NextView::Ask {
            request: StoreRequest::TakeAllPending,
            stage: StageView::Flush(JobView::Take),
        }),
        !(reply matches StoreReply::Count(n) && n > 0) ==> turn.next is Wait,
        to == from,
        turn.commands.len() == 0,
        turn.recaps.len() == 0,
        turn.failed is None,
{
}

/// A user who wants tabs opened again has exactly those addresses sent.
pub proof fn law_the_user_has_tabs_reopened(
    from: DaemonState,
    urls: Vec<String>,
    now: u64,
    utc: UtcTime,
    to: DaemonState,
    turn: TurnView,
)
    requires
        reacts_at(
            from,
            Event::UserAction(PresenterAction::ReopenUrls(urls)),
            now,
            utc,
            to,
            turn,
        ),
    ensures
        to == from,
        turn.commands.len() == 1,
        turn.commands[0] == (DaemonCommand::ReopenUrls { urls }),
        turn.recaps.len() == 0,
        turn.failed is None,
        turn.next is Wait,
{
}

/// At startup the store is asked for what was detected before the time that lies eight
/// hours, or 28800 seconds, back. Nothing is sent or shown.
pub proof fn law_startup_asks_for_what_is_eight_hours_old(now: UtcTime, turn: TurnView)
    requires
        starts_up(now, turn),
        MIN_SECONDS <= now.seconds() - 28_800,
    ensures
        turn.next matches NextView::Ask { request, stage } && stage is Leftover && (
        request matches StoreRequest::TakeLeftoverPending { threshold } && threshold@
            == rfc3339_text((now.seconds() - 28_800) as i64, now.subsec())),
        turn.commands.len() == 0,
        turn.recaps.len() == 0,
        turn.failed is None,
{
    UtcTime::lemma_parts(now, (now.seconds() - 28_800) as i64, now.subsec());
}

/// The entry has the address of the tab, and its title; no title where it has none.
pub open spec fn is_entry_for(entry: RecapEntry, tab: PendingTab) -> bool {
    &&& entry.url == tab.url
    &&& tab.title is Some ==> entry.title == tab.title->0
    &&& tab.title is None ==> entry.title@.len() == 0
}

/// The positions, in order, of all tabs that were put away for the reason.
pub open spec fn picks(tabs: Seq<PendingTab>, reason: ArchivalReason, at: Seq<int>) -> bool {
    &&& forall|k: int|
        0 <= k < at.len() ==> 0 <= #[trigger] at[k] < tabs.len() && tabs[at[k]].reason == reason
    &&& forall|k: int, l: int| 0 <= k < l < at.len() ==> #[trigger] at[k] < #[trigger] at[l]
    &&& forall|i: int|
        0 <= i < tabs.len() && (#[trigger] tabs[i]).reason == reason ==> at.contains(i)
}

proof fn lemma_picks(tabs: Seq<PendingTab>, reason: ArchivalReason) -> (at: Seq<int>)
    ensures
        picks(tabs, reason, at),
        at.len() == of_reason(tabs, reason).len(),
        forall|k: int| 0 <= k < at.len() ==> of_reason(tabs, reason)[k] == tabs[#[trigger] at[k]],
    decreases tabs.len(),
{
    if tabs.len() == 0 {
        Seq::empty()
    } else {
        let front = tabs.drop_last();
        let before = lemma_picks(front, reason);
        let last = tabs.len() - 1;
        let at = if tabs.last().reason == reason {
            before.push(last)
        } else {
            before
        };
        assert forall|k: int| 0 <= k < at.len() implies 0 <= #[trigger] at[k] < tabs.len()
            && tabs[at[k]].reason == reason && of_reason(tabs, reason)[k] == tabs[at[k]] by {
            if k < before.len() {
                assert(at[k] == before[k]);
                assert(front[before[k]] == tabs[before[k]]);
            }
        }
        assert forall|i: int| 0 <= i < tabs.len() && (#[trigger] tabs[i]).reason
            == reason implies at.contains(i) by {
            if i < last {
                assert(front[i] == tabs[i]);
                let k = choose|k: int| 0 <= k < before.len() && before[k] == i;
                assert(at[k] == i);
            } else {
                assert(at[before.len() as int] == i);
            }
        }
        assert forall|k: int, l: int| 0 <= k < l < at.len() implies #[trigger] at[k]
            < #[trigger] at[l] by {
            assert(at[k] == before[k]);
            if l < before.len() {
                assert(at[l] == before[l]);
            }
        }
        at
    }
}

/// The recap tells, in order, of all tabs that were put away for the reason, and of no
/// other: as many as it says, each with its address and title.
pub open spec fn recaps_all(
    recap: RecapPayload,
    tabs: Seq<PendingTab>,
    reason: ArchivalReason,
) -> bool {
    exists|at: Seq<int>|
        #[trigger] picks(tabs, reason, at) && recap.tab_count == at.len() && recap.entries@.len()
            == at.len() && forall|k: int|
            0 <= k < at.len() ==> is_entry_for(recap.entries@[k], tabs[#[trigger] at[k]])
}

/// Each recap names one reason, in the words of the store, and tells in order of all tabs
/// that were put away for it and of no other. It knows the server and the model. The
/// first one is about the reason of the first tab, there is none without a tab, and no tab
/// is without a recap.
pub proof fn law_what_the_recaps_tell(
    recaps: Seq<RecapPayload>,
    tabs: Seq<PendingTab>,
    llm: LlmConfig,
)
    requires
        recap(recaps, tabs, llm),
    ensures
        forall|c: int|
            0 <= c < recaps.len() ==> ((#[trigger] recaps[c]).reason@ == "watch_later"@
                && recaps_all(recaps[c], tabs, ArchivalReason::WatchLater)) || (recaps[c].reason@
                == "rabbit_hole"@ && recaps_all(recaps[c], tabs, ArchivalReason::RabbitHole)),
        forall|c: int|
            0 <= c < recaps.len() ==> (#[trigger] recaps[c]).entries@.len() > 0
                && recaps[c].ollama_url == llm.ollama_url && recaps[c].ollama_model
                == llm.ollama_model,
        tabs.len() > 0 ==> recaps.len() > 0 && recaps[0].reason@ == (if tabs[0].reason is WatchLater {
            "watch_later"@
        } else {
            "rabbit_hole"@
        }),
        tabs.len() == 0 ==> recaps.len() == 0,
        forall|i: int|
            0 <= i < tabs.len() ==> exists|c: int|
                0 <= c < recaps.len() && (#[trigger] recaps[c]).reason@ == (if (
                #[trigger] tabs[i]).reason is WatchLater {
                    "watch_later"@
                } else {
                    "rabbit_hole"@
                }),
{
    let rs = reasons(tabs);
    lemma_no_recaps(tabs);
    assert forall|c: int| 0 <= c < recaps.len() implies recaps_all(
        #[trigger] recaps[c],
        tabs,
        rs[c],
    ) && recaps[c].reason@ == rs[c].name() && recaps[c].entries@.len() > 0 by {
        assert(tells_of(recaps[c], rs[c], of_reason(tabs, rs[c]), llm));
        let at = lemma_picks(tabs, rs[c]);
        assert forall|k: int| 0 <= k < at.len() implies is_entry_for(
            recaps[c].entries@[k],
            tabs[#[trigger] at[k]],
        ) by {
            assert(shows(recaps[c].entries@[k], of_reason(tabs, rs[c])[k]));
        }
        assert(picks(tabs, rs[c], at));
        lemma_reason_occurs(tabs, c);
    }
    assert forall|i: int| 0 <= i < tabs.len() implies exists|c: int|
        0 <= c < recaps.len() && (#[trigger] recaps[c]).reason@ == (if (
        #[trigger] tabs[i]).reason is WatchLater {
            "watch_later"@
        } else {
            "rabbit_hole"@
        }) by {
        lemma_reason_is_named(tabs, i);
        let c = choose|c: int| 0 <= c < rs.len() && rs[c] == tabs[i].reason;
        assert(recaps[c].reason@ == rs[c].name());
    }
    if tabs.len() > 0 {
        assert(recaps[0].reason@ == rs[0].name());
    }
}

proof fn lemma_reason_occurs(tabs: Seq<PendingTab>, c: int)
    requires
        0 <= c < reasons(tabs).len(),
    ensures
        of_reason(tabs, reasons(tabs)[c]).len() > 0,
    decreases tabs.len(),
{
    let front = tabs.drop_last();
    if c < reasons(front).len() {
        lemma_reason_occurs(front, c);
    }
}

proof fn lemma_reason_is_named(tabs: Seq<PendingTab>, i: int)
    requires
        0 <= i < tabs.len(),
    ensures
        reasons(tabs).contains(tabs[i].reason),
    decreases tabs.len(),
{
    let front = tabs.drop_last();
    let before = reasons(front);
    if i < front.len() {
        lemma_reason_is_named(front, i);
        assert(front[i] == tabs[i]);
        let k = choose|k: int| 0 <= k < before.len() && before[k] == tabs[i].reason;
        assert(reasons(tabs)[k] == tabs[i].reason);
    } else if !before.contains(tabs.last().reason) {
        assert(reasons(tabs)[before.len() as int] == tabs[i].reason);
    }
}

/// A sweep that begins asks the store what the tracker asks, and nothing is sent.
pub proof fn law_what_a_sweep_tick_leads_to(
    from: DaemonState,
    now: u64,
    utc: UtcTime,
    to: DaemonState,
    turn: TurnView,
)
    requires
        reacts_at(from, Event::SweepTick, now, utc, to, turn),
    ensures
        exists|order: Seq<i64>, p: ProgressView|
            order.no_duplicates() && order.to_set() == from.tracker.tabs.dom()
                && #[trigger] sweeps_to(from.tracker, order, 0, now, utc, (to.tracker, p))
                && follows(Call::Sweep, p, from.llm, turn),
        to.detector == from.detector,
        to.llm == from.llm,
{
    let (order, p) = choose|order: Seq<i64>, p: ProgressView| #[trigger]
        starts_sweep(from, order, now, utc, p, to, turn);
    assert(starts_sweep(from, order, now, utc, p, to, turn));
    if let ProgressView::Finished { commands, flushed } = p {
        lemma_no_recaps(flushed);
    }
    assert(sweeps_to(from.tracker, order, 0, now, utc, (to.tracker, p)));
}

/// What is left over of earlier sessions: the first such tab is archived as it was queued,
/// with recaps at once where there is none, and where it cannot be taken, that is reported.
/// Nothing is sent.
pub proof fn law_what_becomes_of_the_leftovers(
    from: DaemonState,
    reply: StoreReply,
    now: u64,
    utc: UtcTime,
    to: DaemonState,
    turn: TurnView,
)
    requires
        continues_at(from, StageView::Leftover, reply, now, utc, to, turn),
    ensures
        to == from,
        turn.commands.len() == 0,
        reply matches StoreReply::Tabs(tabs) ==> {
            &&& turn.failed is None
            &&& tabs@.len() == 0 ==> turn.next is Wait && turn.recaps.len() == 0
            &&& tabs@.len() > 0 ==> turn.recaps.len() == 0 && (turn.next matches NextView::Ask {
                request,
                stage,
            } && stage == (StageView::Archive { tabs: tabs@, at: 0 }) && (
            request matches StoreRequest::ArchiveTab(entry) && is_entry_of(entry, tabs@[0])
                && entry.closed_at == utc))
        },
        !(reply is Tabs) ==> turn.failed == Some(Call::Startup) && turn.next is Wait
            && turn.recaps.len() == 0,
{
    if let StoreReply::Tabs(tabs) = reply {
        lemma_no_recaps(tabs@);
    }
}

/// One leftover tab after the other is archived as it was queued, whatever the store
/// answers; after the last one their recaps are shown. Nothing is sent.
pub proof fn law_the_leftovers_are_archived_in_turn(
    from: DaemonState,
    tabs: Seq<PendingTab>,
    at: int,
    reply: StoreReply,
    now: u64,
    utc: UtcTime,
    to: DaemonState,
    turn: TurnView,
)
    requires
        0 <= at < tabs.len(),
        continues_at(from, StageView::Archive { tabs, at }, reply, now, utc, to, turn),
    ensures
        to == from,
        turn.commands.len() == 0,
        turn.failed is None,
        at + 1 < tabs.len() ==> (turn.next matches NextView::Ask { request, stage } && stage == (
        StageView::Archive { tabs, at: at + 1 }) && (request matches StoreRequest::ArchiveTab(
            entry,
        ) && is_entry_of(entry, tabs[at + 1]) && entry.closed_at == utc)),
        at + 1 == tabs.len() ==> turn.next is Wait && recap(turn.recaps, tabs, from.llm),
{
}

/// A new daemon knows no tab and takes the user for not free; each of its parts has the
/// settings that were given for it.
pub proof fn law_a_new_daemon(
    config: Config,
    idle: IdleDetectionConfig,
    llm: LlmConfig,
    daemon: Daemon,
)
    requires
        call_ensures(Daemon::new, (config, idle, llm), daemon),
    ensures
        forall|id: i64| !#[trigger] daemon@.tracker.tabs.contains_key(id),
        daemon@.tracker.config == config,
        daemon@.detector.config == idle,
        daemon@.detector.state is Blocked,
        daemon@.llm == llm,
{
}

}

//! What holds of everything that the daemon does.

use vstd::prelude::*;
use crate::clock::UtcTime;
use crate::config::LlmConfig;
use crate::daemon::{
    archives, continues, continues_at, of_reason, reacts, reasons, recap, resumes, shows, Call, DaemonState,
    Event, NextView, StageView, TurnView,
};
use crate::messages::DaemonCommand;
use crate::presenter::RecapPayload;
use crate::tab_store::{ArchivalReason, PendingTab, StoreReply, StoreRequest};
use crate::tab_tracker::{flushing, JobView, ProgressView, TabStatus, TrackerState};

verus! {

/// The turn counts the queue or begins to flush it.
pub open spec fn goes_for_the_queue(turn: TurnView) -> bool {
    turn.next matches NextView::Ask { stage, .. } && (stage is Count || stage == StageView::Flush(
        JobView::Take,
    ))
}

/// The queue is counted or flushed only in a free moment, as far as something that
/// happens leads to it.
pub proof fn law_events_flush_only_in_a_free_moment(
    from: DaemonState,
    event: Event,
    to: DaemonState,
    turn: TurnView,
)
    requires
        reacts(from, event, to, turn),
        goes_for_the_queue(turn),
    ensures
        to.free(),
{
}

/// The queue is counted or flushed only in a free moment, as far as a reply of the
/// store leads to it. The queue was being counted only in a free moment.
pub proof fn law_replies_flush_only_in_a_free_moment(
    from: DaemonState,
    stage: StageView,
    reply: StoreReply,
    to: DaemonState,
    turn: TurnView,
)
    requires
        continues(from, stage, reply, to, turn),
        stage is Count ==> from.free(),
        goes_for_the_queue(turn),
    ensures
        to.free(),
{
    let (now, utc) = choose|now: u64, utc: UtcTime|
        utc.valid() && #[trigger] continues_at(from, stage, reply, now, utc, to, turn);
    if let StageView::Flush(job) = stage {
        let p = choose|p: ProgressView| #[trigger]
            resumes(from, Call::Flush, job, reply, now, utc, p, to, turn);
        if let JobView::Take = job {
            if let StoreReply::Tabs(tabs) = reply {
                lemma_flushing_asks_for_the_flush(from.tracker, tabs@, 0, Seq::empty(), utc);
            }
        }
        if let JobView::Flush { tabs, at, commands } = job {
            let id = tabs[at].tab_id;
            let sent = if from.tracker.tabs.contains_key(id) {
                commands.push(DaemonCommand::CloseTab { tab_id: id })
            } else {
                commands
            };
            lemma_flushing_asks_for_the_flush(
                from.tracker.with_status(id, TabStatus::Closed),
                tabs,
                at + 1,
                sent,
                utc,
            );
        }
    }
}

proof fn lemma_flushing_asks_for_the_flush(
    s: TrackerState,
    tabs: Seq<PendingTab>,
    from: int,
    commands: Seq<DaemonCommand>,
    utc: UtcTime,
)
    ensures
        flushing(s, tabs, from, commands, utc).1 matches ProgressView::Ask { job, .. }
            ==> job is Flush,
    decreases tabs.len() - from,
{
    if from < tabs.len() {
        let tab = tabs[from];
        if s.tabs.contains_key(tab.tab_id) && !tab.is_video {
            lemma_flushing_asks_for_the_flush(
                s.with_status(
                    tab.tab_id,
                    TabStatus::AwaitingContent { reason: tab.reason, cluster_id: tab.cluster_id },
                ),
                tabs,
                from + 1,
                commands.push(DaemonCommand::RequestContent { tab_id: tab.tab_id }),
                utc,
            );
        }
    }
}

/// The daemon shuts down when the extension is gone, and only then.
pub proof fn law_the_daemon_exits_when_disconnected(
    from: DaemonState,
    event: Event,
    to: DaemonState,
    turn: TurnView,
)
    requires
        reacts(from, event, to, turn),
    ensures
        turn.next is Exit <==> event is Disconnected,
{
}

/// The daemon never shuts down over a reply of the store.
pub proof fn law_no_reply_ends_the_daemon(
    from: DaemonState,
    stage: StageView,
    reply: StoreReply,
    to: DaemonState,
    turn: TurnView,
)
    requires
        continues(from, stage, reply, to, turn),
    ensures
        !(turn.next is Exit),
{
}

/// How many tabs the recaps tell of.
pub open spec fn total(recaps: Seq<RecapPayload>) -> int
    decreases recaps.len(),
{
    if recaps.len() == 0 {
        0
    } else {
        total(recaps.drop_last()) + recaps.last().tab_count
    }
}

proof fn lemma_reasons(tabs: Seq<PendingTab>)
    ensures
        reasons(tabs).no_duplicates(),
        forall|r: ArchivalReason| #[trigger]
            reasons(tabs).contains(r) <==> of_reason(tabs, r).len() > 0,
        of_reason(tabs, ArchivalReason::WatchLater).len() + of_reason(
            tabs,
            ArchivalReason::RabbitHole,
        ).len() == tabs.len(),
        forall|tab: PendingTab| #[trigger]
            tabs.contains(tab) ==> of_reason(tabs, tab.reason).contains(tab),
    decreases tabs.len(),
{
    broadcast use vstd::seq_lib::group_seq_properties;

    if tabs.len() > 0 {
        let front = tabs.drop_last();
        lemma_reasons(front);
        assert(front.push(tabs.last()) =~= tabs);
        assert forall|r: ArchivalReason| #[trigger] reasons(tabs).contains(r) <==> of_reason(
            tabs,
            r,
        ).len() > 0 by {
            assert(reasons(front).contains(r) <==> of_reason(front, r).len() > 0);
        }
        assert forall|tab: PendingTab| #[trigger] tabs.contains(tab) implies of_reason(
            tabs,
            tab.reason,
        ).contains(tab) by {
            if front.contains(tab) {
                assert(of_reason(front, tab.reason).contains(tab));
            } else {
                assert(tab == tabs.last());
            }
        }
    }
}

/// Every tab that was put away stands in a recap, the recaps together tell of as
/// many tabs as were put away, and no two recaps have the same reason.
pub proof fn law_recaps_tell_of_every_tab(
    recaps: Seq<RecapPayload>,
    tabs: Seq<PendingTab>,
    llm: LlmConfig,
)
    requires
        recap(recaps, tabs, llm),
    ensures
        total(recaps) == tabs.len(),
        forall|tab: PendingTab| #[trigger]
            tabs.contains(tab) ==> exists|c: int, k: int|
                0 <= c < recaps.len() && 0 <= k < recaps[c].entries@.len() && shows(
                    #[trigger] recaps[c].entries@[k],
                    tab,
                ) && recaps[c].reason@ == tab.reason.name(),
        forall|i: int, j: int|
            0 <= i < j < recaps.len() ==> (#[trigger] recaps[i]).reason@ != (
            #[trigger] recaps[j]).reason@,
{
    lemma_reasons(tabs);
    let rs = reasons(tabs);
    let wl = ArchivalReason::WatchLater;
    let rh = ArchivalReason::RabbitHole;
    assert(rs.contains(wl) <==> of_reason(tabs, wl).len() > 0);
    assert(rs.contains(rh) <==> of_reason(tabs, rh).len() > 0);
    assert(rs.len() <= 2) by {
        if rs.len() > 2 {
            assert(rs[0] != rs[1] && rs[1] != rs[2] && rs[0] != rs[2]);
        }
    }
    assert(total(recaps) == tabs.len()) by {
        reveal_with_fuel(total, 3);
        if rs.len() == 2 {
            assert(rs[0] != rs[1]);
            assert(recaps.drop_last()[0] == recaps[0]);
            assert(recaps.drop_last().drop_last().len() == 0);
            assert(recaps[0].tab_count == of_reason(tabs, rs[0]).len());
            assert(recaps[1].tab_count == of_reason(tabs, rs[1]).len());
        } else if rs.len() == 1 {
            assert(recaps[0].tab_count == of_reason(tabs, rs[0]).len());
            assert(recaps.drop_last().len() == 0);
            assert(rs.contains(rs[0]));
            if rs[0] == wl {
                assert(!rs.contains(rh));
            } else {
                assert(!rs.contains(wl));
            }
        } else {
            assert(!rs.contains(wl) && !rs.contains(rh));
        }
    }
    assert forall|tab: PendingTab| #[trigger] tabs.contains(tab) implies exists|c: int, k: int|
        0 <= c < recaps.len() && 0 <= k < recaps[c].entries@.len() && shows(
            #[trigger] recaps[c].entries@[k],
            tab,
        ) && recaps[c].reason@ == tab.reason.name() by {
        let same = of_reason(tabs, tab.reason);
        assert(same.contains(tab));
        let k = choose|k: int| 0 <= k < same.len() && same[k] == tab;
        assert(rs.contains(tab.reason));
        let c = choose|c: int| 0 <= c < rs.len() && rs[c] == tab.reason;
        assert(shows(recaps[c].entries@[k], same[k]));
    }
    assert forall|i: int, j: int| 0 <= i < j < recaps.len() implies (
    #[trigger] recaps[i]).reason@ != (#[trigger] recaps[j]).reason@ by {
        assert(rs[i] != rs[j]);
        rs[i].law_named_after_itself();
        rs[j].law_named_after_itself();
    }
}

/// The store answers what a turn asks, which leads to the other turn and leaves the
/// daemon as it is.
pub open spec fn answered(
    state: DaemonState,
    turn: TurnView,
    reply: StoreReply,
    following: TurnView,
) -> bool {
    turn.next matches NextView::Ask { stage, .. } && continues(
        state,
        stage,
        reply,
        state,
        following,
    )
}

/// At startup every leftover tab is archived, in order, whether or not the ones
/// before it could be; after the last one their recaps are shown.
pub proof fn law_startup_archives_every_leftover_tab(
    state: DaemonState,
    tabs: Vec<PendingTab>,
    turns: Seq<TurnView>,
    replies: Seq<StoreReply>,
    i: int,
)
    requires
        turns.len() == tabs@.len() + 1,
        replies.len() == tabs@.len(),
        continues(state, StageView::Leftover, StoreReply::Tabs(tabs), state, turns[0]),
        forall|k: int|
            0 <= k < replies.len() ==> answered(
                state,
                turns[k],
                #[trigger] replies[k],
                turns[k + 1],
            ),
        0 <= i <= tabs@.len(),
    ensures
        exists|utc: UtcTime| #[trigger] archives(tabs@, i, utc, state.llm, turns[i]),
        i < tabs@.len() ==> (turns[i].next matches NextView::Ask {
            request: StoreRequest::ArchiveTab(entry),
            ..
        } && entry == tabs@[i].archived_at(entry.closed_at)),
        i == tabs@.len() ==> recap(turns[i].recaps, tabs@, state.llm) && turns[i].next is Wait,
    decreases i,
{
    if i > 0 {
        law_startup_archives_every_leftover_tab(state, tabs, turns, replies, i - 1);
        let utc = choose|utc: UtcTime| #[trigger]
            archives(tabs@, i - 1, utc, state.llm, turns[i - 1]);
        assert(archives(tabs@, i - 1, utc, state.llm, turns[i - 1]));
        let reply = replies[i - 1];
        assert(answered(state, turns[i - 1], reply, turns[i - 1 + 1]));
        let stage = StageView::Archive { tabs: tabs@, at: i - 1 };
        let (now, utc) = choose|now: u64, utc: UtcTime|
            utc.valid() && #[trigger] continues_at(state, stage, reply, now, utc, state, turns[i]);
        assert(archives(tabs@, i, utc, state.llm, turns[i]));
    } else {
        let (now, utc) = choose|now: u64, utc: UtcTime|
            utc.valid() && #[trigger] continues_at(
                state,
                StageView::Leftover,
                StoreReply::Tabs(tabs),
                now,
                utc,
                state,
                turns[0],
            );
        assert(archives(tabs@, 0, utc, state.llm, turns[0]));
    }
}

}

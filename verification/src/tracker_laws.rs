//! What holds of the tracker and the store together.
//!
//! The store is modelled by the contents of its two tables and by what each
//! request does to them. A run is a call of the tracker with all of its exchanges
//! with the store.

use vstd::prelude::*;
use crate::clock::UtcTime;
use crate::cluster_laws::law_abandoned_clusters_are_large_stale_and_disjoint;
use crate::clusters::abandoned;
use crate::messages::{DaemonCommand, ExtensionMessage};
use crate::tab_store::{ArchivalReason, ArchivedTab, PendingTab, StoreReply, StoreRequest};
use crate::tab_tracker::{
    after_message, flushing, is_random_uuid, putting_off, queued, queueing, rabbit_holes_resumed,
    resumes_to, sweeps_to, swept, watch_later_resumed, JobView, ProgressView, Queued, TabInfo,
    TabStatus, TrackerState,
};
use crate::text::text_before;

verus! {

/// The contents of the store's tables.
#[verifier::ext_equal]
pub struct Tables {
    pub pending: Seq<PendingTab>,
    pub archived: Seq<ArchivedTab>,
}

/// No two of the tabs have the same id.
pub open spec fn ids_differ(tabs: Seq<PendingTab>) -> bool {
    forall|i: int, j: int|
        0 <= i < j < tabs.len() ==> (#[trigger] tabs[i]).tab_id != (#[trigger] tabs[j]).tab_id
}

/// One of the tabs has this id.
pub open spec fn has_id(tabs: Seq<PendingTab>, id: i64) -> bool {
    exists|i: int| 0 <= i < tabs.len() && (#[trigger] tabs[i]).tab_id == id
}

/// The tabs that do not have this id.
pub open spec fn without_id(tabs: Seq<PendingTab>, id: i64) -> Seq<PendingTab>
    decreases tabs.len(),
{
    if tabs.len() == 0 {
        tabs
    } else if tabs.last().tab_id == id {
        without_id(tabs.drop_last(), id)
    } else {
        without_id(tabs.drop_last(), id).push(tabs.last())
    }
}

/// The tabs whose stored detection time comes before the text, or does not.
pub open spec fn by_detection(tabs: Seq<PendingTab>, threshold: Seq<char>, before: bool) -> Seq<
    PendingTab,
>
    decreases tabs.len(),
{
    if tabs.len() == 0 {
        tabs
    } else if text_before(tabs.last().detected_at.rfc3339(), threshold) == before {
        by_detection(tabs.drop_last(), threshold, before).push(tabs.last())
    } else {
        by_detection(tabs.drop_last(), threshold, before)
    }
}

/// Whether the store can answer a request with this reply, and what its tables
/// hold then. A request that fails changes nothing.
pub open spec fn carries_out(
    before: Tables,
    request: StoreRequest,
    reply: StoreReply,
    after: Tables,
) -> bool {
    if reply is Failed {
        after == before
    } else {
        match request {
            StoreRequest::InsertPending(tab) => reply is Done && after == if has_id(
                before.pending,
                tab.tab_id,
            ) {
                before
            } else {
                Tables { pending: before.pending.push(tab), ..before }
            },
            StoreRequest::RemovePending(id) => reply is Done && after == (Tables {
                pending: without_id(before.pending, id),
                ..before
            }),
            StoreRequest::ArchiveTab(tab) => reply is Done && after == (Tables {
                archived: before.archived.push(tab),
                ..before
            }),
            StoreRequest::TakeAllPending => {
                &&& reply matches StoreReply::Tabs(tabs) && tabs@ == before.pending
                &&& after == (Tables { pending: Seq::empty(), ..before })
            },
            StoreRequest::TakeLeftoverPending { threshold } => {
                &&& reply matches StoreReply::Tabs(tabs) && tabs@ == by_detection(
                    before.pending,
                    threshold@,
                    true,
                )
                &&& after == (Tables {
                    pending: by_detection(before.pending, threshold@, false),
                    ..before
                })
            },
            StoreRequest::CountPending => {
                &&& reply matches StoreReply::Count(n) && n == before.pending.len()
                &&& after == before
            },
        }
    }
}

proof fn lemma_without_id(tabs: Seq<PendingTab>, id: i64)
    ensures
        ids_differ(tabs) ==> ids_differ(without_id(tabs, id)),
        forall|other: i64| #[trigger]
            has_id(without_id(tabs, id), other) <==> other != id && has_id(tabs, other),
    decreases tabs.len(),
{
    if tabs.len() > 0 {
        let front = tabs.drop_last();
        let rest = without_id(front, id);
        lemma_without_id(front, id);
        lemma_has_id_push(front, tabs.last());
        assert(front.push(tabs.last()) =~= tabs);
        lemma_has_id_push(rest, tabs.last());
        assert forall|other: i64| #[trigger]
            has_id(without_id(tabs, id), other) <==> other != id && has_id(tabs, other) by {
            assert(has_id(rest, other) <==> other != id && has_id(front, other));
            assert(has_id(rest.push(tabs.last()), other) <==> has_id(rest, other)
                || tabs.last().tab_id == other);
            assert(has_id(front.push(tabs.last()), other) <==> has_id(front, other)
                || tabs.last().tab_id == other);
        }
        if ids_differ(tabs) {
            assert(ids_differ(front)) by {
                assert forall|i: int, j: int| 0 <= i < j < front.len() implies (
                #[trigger] front[i]).tab_id != (#[trigger] front[j]).tab_id by {
                    assert(tabs[i] == front[i] && tabs[j] == front[j]);
                }
            }
            if tabs.last().tab_id != id {
                assert(!has_id(front, tabs.last().tab_id)) by {
                    if has_id(front, tabs.last().tab_id) {
                        let i = choose|i: int|
                            0 <= i < front.len() && (#[trigger] front[i]).tab_id
                                == tabs.last().tab_id;
                        assert(tabs[i].tab_id == tabs[tabs.len() - 1].tab_id);
                    }
                }
                assert(!has_id(rest, tabs.last().tab_id));
                lemma_ids_differ_push(rest, tabs.last());
            }
        }
    }
}

pub(crate) proof fn lemma_has_id_push(tabs: Seq<PendingTab>, tab: PendingTab)
    ensures
        forall|id: i64| #[trigger]
            has_id(tabs.push(tab), id) <==> has_id(tabs, id) || tab.tab_id == id,
{
    let more = tabs.push(tab);
    assert forall|id: i64| #[trigger]
        has_id(more, id) <==> has_id(tabs, id) || tab.tab_id == id by {
        if has_id(more, id) {
            let i = choose|i: int| 0 <= i < more.len() && (#[trigger] more[i]).tab_id == id;
            if i < tabs.len() {
                assert(tabs[i].tab_id == id);
            }
        }
        if has_id(tabs, id) {
            let i = choose|i: int| 0 <= i < tabs.len() && (#[trigger] tabs[i]).tab_id == id;
            assert(more[i].tab_id == id);
        }
        assert(more[tabs.len() as int] == tab);
    }
}

proof fn lemma_ids_differ_push(tabs: Seq<PendingTab>, tab: PendingTab)
    requires
        ids_differ(tabs),
        !has_id(tabs, tab.tab_id),
    ensures
        ids_differ(tabs.push(tab)),
{
    let more = tabs.push(tab);
    assert forall|i: int, j: int| 0 <= i < j < more.len() implies (#[trigger] more[i]).tab_id != (
    #[trigger] more[j]).tab_id by {
        assert(more[i] == tabs[i]);
        if j < tabs.len() {
            assert(more[j] == tabs[j]);
        }
    }
}

/// The tab is waiting in the queue, by what the tracker knows.
pub open spec fn waits(s: TrackerState, id: i64) -> bool {
    s.tabs.contains_key(id) && s.tabs[id].status is Pending
}

/// The tab was taken from the queue and is still to be put away.
pub open spec fn on_its_way(p: ProgressView, id: i64) -> bool {
    p matches ProgressView::Ask { job: JobView::Flush { tabs, at, .. }, .. } && has_id(
        tabs.skip(at),
        id,
    )
}

/// The request is the one that the job waits for.
pub open spec fn belongs(request: StoreRequest, job: JobView) -> bool {
    match job {
        JobView::Rescue { tab_id } => request == StoreRequest::RemovePending(tab_id),
        JobView::Forget { tab_id } => request == StoreRequest::RemovePending(tab_id),
        JobView::Content { .. } => request is ArchiveTab,
        JobView::WatchLater { order, at } => request matches StoreRequest::InsertPending(tab)
            && tab.tab_id == order[at],
        JobView::RabbitHole { queue, at } => request matches StoreRequest::InsertPending(tab)
            && tab.tab_id == queue[at].tab_id,
        JobView::Take => request is TakeAllPending,
        JobView::Flush { tabs, at, .. } => request matches StoreRequest::ArchiveTab(tab)
            && tab.tab_id == tabs[at].tab_id,
    }
}

/// Every tab is filed under its own id.
pub open spec fn filed_by_id(s: TrackerState) -> bool {
    forall|id: i64| #[trigger] s.tabs.contains_key(id) ==> s.tabs[id].tab_id == id
}

/// The tracker and the store agree: every tab is filed under its own id, no tab is
/// queued twice, and every tab that the tracker takes for queued is in the queue
/// or on its way out of it.
pub open spec fn agree(s: TrackerState, t: Tables, p: ProgressView) -> bool {
    &&& filed_by_id(s)
    &&& ids_differ(t.pending)
    &&& forall|id: i64| #[trigger] waits(s, id) ==> has_id(t.pending, id) || on_its_way(p, id)
    &&& p.valid()
    &&& p matches ProgressView::Ask { request, job } ==> belongs(request, job)
    &&& p matches ProgressView::Ask { job: JobView::Flush { tabs, .. }, .. } ==> ids_differ(tabs)
}

/// A tracker that knows no tab agrees with any store whose queue holds no tab
/// twice.
pub proof fn law_new_tracker_agrees(s: TrackerState, t: Tables)
    requires
        s.tabs == Map::<i64, TabInfo>::empty(),
        ids_differ(t.pending),
    ensures
        agree(s, t, ProgressView::nothing()),
{
}

pub(crate) proof fn lemma_next_put_off(s: TrackerState, order: Seq<i64>, from: int, now: u64)
    requires
        0 <= from <= order.len(),
    ensures
        from <= s.next_put_off(order, from, now) <= order.len(),
        s.next_put_off(order, from, now) < order.len() ==> s.is_put_off(
            order[s.next_put_off(order, from, now)],
            now,
        ),
        forall|k: int|
            from <= k < s.next_put_off(order, from, now) ==> !s.is_put_off(#[trigger] order[k], now),
    decreases order.len() - from,
{
    if from < order.len() && !s.is_put_off(order[from], now) {
        lemma_next_put_off(s, order, from + 1, now);
    }
}

pub(crate) proof fn lemma_next_queued(s: TrackerState, queue: Seq<Queued>, from: int)
    requires
        0 <= from <= queue.len(),
    ensures
        from <= s.next_queued(queue, from) <= queue.len(),
        s.next_queued(queue, from) < queue.len() ==> s.is_active(
            queue[s.next_queued(queue, from)].tab_id,
        ),
        forall|k: int|
            from <= k < s.next_queued(queue, from) ==> !s.is_active(#[trigger] queue[k].tab_id),
    decreases queue.len() - from,
{
    if from < queue.len() && !s.is_active(queue[from].tab_id) {
        lemma_next_queued(s, queue, from + 1);
    }
}

/// A message from the extension keeps the tracker and the store in agreement.
pub proof fn law_message_keeps_agreement(
    s: TrackerState,
    t: Tables,
    msg: ExtensionMessage,
    now: u64,
    utc: UtcTime,
)
    requires
        agree(s, t, ProgressView::nothing()),
    ensures
        ({
            let (end, p) = after_message(s, msg, now, utc);
            agree(end, t, p)
        }),
{
    let (end, p) = after_message(s, msg, now, utc);
    assert forall|id: i64| #[trigger] waits(end, id) implies has_id(t.pending, id) by {
        assert(waits(s, id));
    }
}

proof fn lemma_queueing_agrees(s: TrackerState, t: Tables, queue: Seq<Queued>, from: int, utc: UtcTime)
    requires
        agree(s, t, ProgressView::nothing()),
        0 <= from <= queue.len(),
    ensures
        ({
            let (end, p) = swept(s, queueing(s, queue, from, utc));
            agree(end, t, p)
        }),
{
    lemma_next_queued(s, queue, from);
    let (end, p) = swept(s, queueing(s, queue, from, utc));
    assert forall|id: i64| #[trigger] waits(end, id) implies has_id(t.pending, id) by {
        assert(waits(s, id));
    }
}

proof fn lemma_sweep_agrees(
    s: TrackerState,
    t: Tables,
    order: Seq<i64>,
    from: int,
    now: u64,
    utc: UtcTime,
    end: (TrackerState, ProgressView),
)
    requires
        agree(s, t, ProgressView::nothing()),
        0 <= from <= order.len(),
        order.no_duplicates(),
        sweeps_to(s, order, from, now, utc, end),
    ensures
        agree(end.0, t, end.1),
{
    lemma_next_put_off(s, order, from, now);
    let at = s.next_put_off(order, from, now);
    if at < order.len() {
        assert forall|id: i64| #[trigger] waits(end.0, id) implies has_id(t.pending, id) by {
            assert(waits(s, id));
        }
    } else {
        let clusters = abandoned(s.members(order), now, s.config.rabbit_hole);
        let ids = choose|ids: Seq<String>|
            ids.len() == clusters.len() && (forall|i: int|
                0 <= i < ids.len() ==> is_random_uuid(#[trigger] ids[i]@)) && end == swept(
                s,
                #[trigger] queueing(s, queued(clusters, ids), 0, utc),
            );
        lemma_queueing_agrees(s, t, queued(clusters, ids), 0, utc);
    }
}

/// A sweep that starts keeps the tracker and the store in agreement.
pub proof fn law_sweep_keeps_agreement(
    s: TrackerState,
    t: Tables,
    order: Seq<i64>,
    now: u64,
    utc: UtcTime,
    end: (TrackerState, ProgressView),
)
    requires
        agree(s, t, ProgressView::nothing()),
        order.no_duplicates(),
        sweeps_to(s, order, 0, now, utc, end),
    ensures
        agree(end.0, t, end.1),
{
    lemma_sweep_agrees(s, t, order, 0, now, utc, end);
}

proof fn lemma_flushing_agrees(
    s: TrackerState,
    t: Tables,
    tabs: Seq<PendingTab>,
    from: int,
    commands: Seq<DaemonCommand>,
    utc: UtcTime,
)
    requires
        filed_by_id(s),
        ids_differ(t.pending),
        ids_differ(tabs),
        0 <= from <= tabs.len(),
        forall|id: i64| #[trigger]
            waits(s, id) ==> has_id(t.pending, id) || has_id(tabs.skip(from), id),
    ensures
        ({
            let (end, p) = flushing(s, tabs, from, commands, utc);
            agree(end, t, p)
        }),
    decreases tabs.len() - from,
{
    let (end, p) = flushing(s, tabs, from, commands, utc);
    if from >= tabs.len() {
        assert forall|id: i64| #[trigger] waits(end, id) implies has_id(t.pending, id) by {
            assert(waits(s, id));
        }
    } else {
        let tab = tabs[from];
        lemma_has_id_skip(tabs, from);
        if s.tabs.contains_key(tab.tab_id) && !tab.is_video {
            let next = s.with_status(
                tab.tab_id,
                TabStatus::AwaitingContent {
                    reason: tab.reason,
                    cluster_id: tab.cluster_id,
                },
            );
            assert forall|id: i64| #[trigger] waits(next, id) implies has_id(t.pending, id)
                || has_id(tabs.skip(from + 1), id) by {
                assert(waits(s, id));
                assert(has_id(tabs.skip(from), id) ==> id == tab.tab_id || has_id(
                    tabs.skip(from + 1),
                    id,
                ));
            }
            lemma_flushing_agrees(
                next,
                t,
                tabs,
                from + 1,
                commands.push(DaemonCommand::RequestContent { tab_id: tab.tab_id }),
                utc,
            );
        }
    }
}

proof fn lemma_has_id_skip(tabs: Seq<PendingTab>, at: int)
    requires
        0 <= at < tabs.len(),
    ensures
        forall|id: i64| #[trigger]
            has_id(tabs.skip(at), id) ==> id == tabs[at].tab_id || has_id(tabs.skip(at + 1), id),
{
    let now = tabs.skip(at);
    let next = tabs.skip(at + 1);
    assert forall|id: i64| #[trigger] has_id(now, id) implies id == tabs[at].tab_id || has_id(
        next,
        id,
    ) by {
        let i = choose|i: int| 0 <= i < now.len() && (#[trigger] now[i]).tab_id == id;
        if i > 0 {
            assert(next[i - 1].tab_id == id);
        }
    }
}

/// A flush that starts keeps the tracker and the store in agreement.
pub proof fn law_flush_keeps_agreement(s: TrackerState, t: Tables)
    requires
        agree(s, t, ProgressView::nothing()),
    ensures
        agree(
            s,
            t,
            ProgressView::Ask { request: StoreRequest::TakeAllPending, job: JobView::Take },
        ),
{
}

/// Every answer of the store keeps the tracker and the store in agreement, but for
/// a failure in the middle of a flush: the tabs that were taken and not yet put
/// away are then in no queue.
pub proof fn law_answer_keeps_agreement(
    s: TrackerState,
    t: Tables,
    request: StoreRequest,
    job: JobView,
    reply: StoreReply,
    now: u64,
    utc: UtcTime,
    after: Tables,
    end: (TrackerState, ProgressView),
)
    requires
        agree(s, t, ProgressView::Ask { request, job }),
        carries_out(t, request, reply, after),
        resumes_to(s, job, reply, now, utc, end),
        !(job is Flush && reply is Failed),
    ensures
        agree(end.0, after, end.1),
{
    let p = ProgressView::Ask { request, job };
    if let StoreRequest::InsertPending(tab) = request {
        lemma_has_id_push(t.pending, tab);
        if !has_id(t.pending, tab.tab_id) {
            lemma_ids_differ_push(t.pending, tab);
        }
    }
    if let StoreRequest::RemovePending(id) = request {
        lemma_without_id(t.pending, id);
    }
    assert(ids_differ(after.pending));
    if reply is Failed {
        assert forall|id: i64| #[trigger] waits(end.0, id) implies has_id(after.pending, id) by {
            assert(waits(s, id));
            assert(!on_its_way(p, id));
        }
    } else {
        match job {
            JobView::WatchLater { order, at } => {
                let next = s.with_status(
                    order[at],
                    TabStatus::Pending {
                        reason: ArchivalReason::WatchLater,
                        cluster_id: None,
                    },
                );
                assert forall|id: i64| #[trigger] waits(next, id) implies has_id(
                    after.pending,
                    id,
                ) by {
                    assert(id == order[at] || waits(s, id));
                    assert(!on_its_way(p, id));
                }
                lemma_sweep_agrees(next, after, order, at + 1, now, utc, end);
            },
            JobView::RabbitHole { queue, at } => {
                let next = s.with_status(
                    queue[at].tab_id,
                    TabStatus::Pending {
                        reason: ArchivalReason::RabbitHole,
                        cluster_id: Some(queue[at].cluster_id),
                    },
                );
                assert forall|id: i64| #[trigger] waits(next, id) implies has_id(
                    after.pending,
                    id,
                ) by {
                    assert(id == queue[at].tab_id || waits(s, id));
                    assert(!on_its_way(p, id));
                }
                lemma_queueing_agrees(next, after, queue, at + 1, utc);
            },
            JobView::Take => {
                let tabs = reply->Tabs_0@;
                assert(tabs.skip(0) =~= tabs);
                assert forall|id: i64| #[trigger] waits(s, id) implies has_id(
                    after.pending,
                    id,
                ) || has_id(tabs.skip(0), id) by {
                    assert(!on_its_way(p, id));
                }
                if tabs.len() > 0 {
                    lemma_flushing_agrees(s, after, tabs, 0, Seq::empty(), utc);
                }
            },
            JobView::Flush { tabs, at, commands } => {
                let id = tabs[at].tab_id;
                let next = s.with_status(id, TabStatus::Closed);
                lemma_has_id_skip(tabs, at);
                assert forall|other: i64| #[trigger] waits(next, other) implies has_id(
                    after.pending,
                    other,
                ) || has_id(tabs.skip(at + 1), other) by {
                    assert(waits(s, other));
                    assert(other != id);
                    assert(has_id(tabs.skip(at), other) ==> has_id(tabs.skip(at + 1), other));
                }
                lemma_flushing_agrees(
                    next,
                    after,
                    tabs,
                    at + 1,
                    if s.tabs.contains_key(id) {
                        commands.push(DaemonCommand::CloseTab { tab_id: id })
                    } else {
                        commands
                    },
                    utc,
                );
            },
            _ => {
                assert forall|id: i64| #[trigger] waits(end.0, id) implies has_id(
                    after.pending,
                    id,
                ) by {
                    assert(waits(s, id));
                    assert(!on_its_way(p, id));
                }
            },
        }
    }
}

/// The tracker, the store and the call at one moment of a run.
pub struct Moment {
    pub state: TrackerState,
    pub tables: Tables,
    pub progress: ProgressView,
}

/// An answer of the store, and the clocks when it comes.
pub struct Answer {
    pub reply: StoreReply,
    pub now: u64,
    pub utc: UtcTime,
}

/// The store answers what the call asks at one moment, which leads to the other.
pub open spec fn proceeds(from: Moment, answer: Answer, to: Moment) -> bool {
    from.progress matches ProgressView::Ask { request, job } && carries_out(
        from.tables,
        request,
        answer.reply,
        to.tables,
    ) && resumes_to(
        from.state,
        job,
        answer.reply,
        answer.now,
        answer.utc,
        (to.state, to.progress),
    )
}

/// The moments of a run in which the store gave these answers.
pub open spec fn run(moments: Seq<Moment>, answers: Seq<Answer>) -> bool {
    &&& moments.len() == answers.len() + 1
    &&& forall|i: int|
        0 <= i < answers.len() ==> proceeds(moments[i], #[trigger] answers[i], moments[i + 1])
}

/// The store answers what a step of a sweep asks at one moment, which leads to the
/// other. A whole sweep goes on to its next step and to its end; the looking for
/// watch-later candidates, or for clusters, taken by itself does not.
pub open spec fn step_proceeds(whole: bool, from: Moment, answer: Answer, to: Moment) -> bool {
    if whole {
        proceeds(from, answer, to)
    } else {
        from.progress matches ProgressView::Ask { request, job } && carries_out(
            from.tables,
            request,
            answer.reply,
            to.tables,
        ) && match job {
            JobView::WatchLater { order, at } => (to.state, to.progress) == watch_later_resumed(
                from.state,
                order,
                at,
                answer.reply,
                answer.now,
                answer.utc,
            ),
            JobView::RabbitHole { queue, at } => (to.state, to.progress) == rabbit_holes_resumed(
                from.state,
                queue,
                at,
                answer.reply,
                answer.utc,
            ),
            _ => false,
        }
    }
}

/// The moments of a sweep, or of one of its steps, in which the store gave these
/// answers.
pub open spec fn step_run(whole: bool, moments: Seq<Moment>, answers: Seq<Answer>) -> bool {
    &&& moments.len() == answers.len() + 1
    &&& forall|i: int|
        0 <= i < answers.len() ==> step_proceeds(
            whole,
            moments[i],
            #[trigger] answers[i],
            moments[i + 1],
        )
}

pub(crate) proof fn lemma_whole_run(moments: Seq<Moment>, answers: Seq<Answer>)
    requires
        run(moments, answers),
    ensures
        step_run(true, moments, answers),
{
    assert forall|i: int| 0 <= i < answers.len() implies step_proceeds(
        true,
        moments[i],
        #[trigger] answers[i],
        moments[i + 1],
    ) by {
        assert(proceeds(moments[i], answers[i], moments[i + 1]));
    }
}

/// The state that a step which comes as far as `p` leaves behind: at the end of a
/// whole sweep the closed tabs are forgotten.
pub open spec fn step_leaves(whole: bool, s: TrackerState, p: ProgressView) -> (
    TrackerState,
    ProgressView,
) {
    if whole {
        swept(s, p)
    } else {
        (s, p)
    }
}

/// The store did not fail.
pub open spec fn all_answered(answers: Seq<Answer>) -> bool {
    forall|i: int| 0 <= i < answers.len() ==> !((#[trigger] answers[i]).reply is Failed)
}

/// What is sent to the extension for the flushed tabs: an open video is closed, of
/// another open tab the content is requested, and nothing is sent for a tab that
/// is no longer open.
pub open spec fn commands_for(s: TrackerState, rows: Seq<PendingTab>) -> Seq<DaemonCommand>
    decreases rows.len(),
{
    if rows.len() == 0 {
        Seq::empty()
    } else {
        let sent = commands_for(s, rows.drop_last());
        let row = rows.last();
        if !s.tabs.contains_key(row.tab_id) {
            sent
        } else if row.is_video {
            sent.push(DaemonCommand::CloseTab { tab_id: row.tab_id })
        } else {
            sent.push(DaemonCommand::RequestContent { tab_id: row.tab_id })
        }
    }
}

/// What the tracker knows once the tabs are flushed: an open video is closed,
/// another open tab awaits its content, and nothing else changes.
pub open spec fn flushed_state(s: TrackerState, rows: Seq<PendingTab>) -> TrackerState
    decreases rows.len(),
{
    if rows.len() == 0 {
        s
    } else {
        let row = rows.last();
        flushed_state(s, rows.drop_last()).with_status(
            row.tab_id,
            if row.is_video {
                TabStatus::Closed
            } else {
                TabStatus::AwaitingContent { reason: row.reason, cluster_id: row.cluster_id }
            },
        )
    }
}

/// The flushed tabs that are archived at once: the videos, and those that are no
/// longer open.
pub open spec fn archived_at_once(s: TrackerState, rows: Seq<PendingTab>) -> Seq<PendingTab>
    decreases rows.len(),
{
    if rows.len() == 0 {
        rows
    } else {
        let before = archived_at_once(s, rows.drop_last());
        let row = rows.last();
        if s.tabs.contains_key(row.tab_id) && !row.is_video {
            before
        } else {
            before.push(row)
        }
    }
}

/// The archive entries are those of the tabs, one for one, without content.
pub open spec fn entries_of(entries: Seq<ArchivedTab>, rows: Seq<PendingTab>) -> bool {
    &&& entries.len() == rows.len()
    &&& forall|k: int|
        0 <= k < rows.len() ==> #[trigger] entries[k] == rows[k].archived_at(entries[k].closed_at)
}

/// The archive holds what it held before, and after that the entries of the tabs.
pub open spec fn archive_grew(
    before: Seq<ArchivedTab>,
    after: Seq<ArchivedTab>,
    rows: Seq<PendingTab>,
) -> bool {
    &&& before.len() <= after.len()
    &&& after.take(before.len() as int) == before
    &&& entries_of(after.skip(before.len() as int), rows)
}

/// How a flush that began at `s` and `t` stands.
spec fn flush_stands(s: TrackerState, t: Tables, m: Moment) -> bool {
    &&& m.tables.pending == Seq::<PendingTab>::empty()
    &&& match m.progress {
        ProgressView::Ask { request, job: JobView::Flush { tabs, at, commands } } => {
            &&& tabs == t.pending
            &&& 0 <= at < tabs.len()
            &&& request matches StoreRequest::ArchiveTab(entry) && entry == tabs[at].archived_at(
                entry.closed_at,
            )
            &&& tabs[at].is_video || !s.tabs.contains_key(tabs[at].tab_id)
            &&& commands == commands_for(s, tabs.take(at))
            &&& m.state == flushed_state(s, tabs.take(at))
            &&& archive_grew(
                t.archived,
                m.tables.archived,
                archived_at_once(s, tabs.take(at)),
            )
        },
        ProgressView::Finished { commands, flushed } => {
            &&& flushed == t.pending
            &&& commands == commands_for(s, t.pending)
            &&& m.state == flushed_state(s, t.pending).without_closed()
            &&& archive_grew(t.archived, m.tables.archived, archived_at_once(s, t.pending))
        },
        _ => false,
    }
}

proof fn lemma_flushed_dom(s: TrackerState, rows: Seq<PendingTab>)
    ensures
        flushed_state(s, rows).tabs.dom() == s.tabs.dom(),
        flushed_state(s, rows).config == s.config,
    decreases rows.len(),
{
    if rows.len() > 0 {
        lemma_flushed_dom(s, rows.drop_last());
        let before = flushed_state(s, rows.drop_last());
        let id = rows.last().tab_id;
        assert(before.tabs.contains_key(id) ==> before.tabs.dom().insert(id)
            =~= before.tabs.dom());
    }
}

proof fn lemma_flushing_stands(
    s: TrackerState,
    t: Tables,
    from: int,
    commands: Seq<DaemonCommand>,
    utc: UtcTime,
    state: TrackerState,
    tables: Tables,
)
    requires
        0 <= from <= t.pending.len(),
        commands == commands_for(s, t.pending.take(from)),
        state == flushed_state(s, t.pending.take(from)),
        tables.pending == Seq::<PendingTab>::empty(),
        archive_grew(t.archived, tables.archived, archived_at_once(s, t.pending.take(from))),
    ensures
        ({
            let (end, progress) = flushing(state, t.pending, from, commands, utc);
            flush_stands(s, t, Moment { state: end, tables, progress })
        }),
    decreases t.pending.len() - from,
{
    let tabs = t.pending;
    if from >= tabs.len() {
        assert(tabs.take(from) =~= tabs);
    } else {
        let tab = tabs[from];
        let more = tabs.take(from + 1);
        assert(more.drop_last() =~= tabs.take(from));
        assert(more.last() == tab);
        lemma_flushed_dom(s, tabs.take(from));
        assert(state.tabs.contains_key(tab.tab_id) == s.tabs.contains_key(tab.tab_id)) by {
            assert(state.tabs.dom().contains(tab.tab_id) == s.tabs.dom().contains(tab.tab_id));
        }
        if state.tabs.contains_key(tab.tab_id) && !tab.is_video {
            lemma_flushing_stands(
                s,
                t,
                from + 1,
                commands.push(DaemonCommand::RequestContent { tab_id: tab.tab_id }),
                utc,
                state.with_status(
                    tab.tab_id,
                    TabStatus::AwaitingContent { reason: tab.reason, cluster_id: tab.cluster_id },
                ),
                tables,
            );
        }
    }
}

proof fn lemma_archive_grew_push(
    before: Seq<ArchivedTab>,
    after: Seq<ArchivedTab>,
    rows: Seq<PendingTab>,
    entry: ArchivedTab,
    row: PendingTab,
)
    requires
        archive_grew(before, after, rows),
        entry == row.archived_at(entry.closed_at),
    ensures
        archive_grew(before, after.push(entry), rows.push(row)),
{
    let n = before.len() as int;
    let more = after.push(entry);
    assert(more.take(n) =~= after.take(n));
    assert(more.skip(n) =~= after.skip(n).push(entry));
    let entries = more.skip(n);
    assert forall|k: int| 0 <= k < rows.push(row).len() implies #[trigger] entries[k]
        == rows.push(row)[k].archived_at(entries[k].closed_at) by {
        if k < rows.len() {
            assert(entries[k] == after.skip(n)[k]);
        }
    }
}

proof fn lemma_flush_goes_on(s: TrackerState, t: Tables, from: Moment, answer: Answer, to: Moment)
    requires
        flush_stands(s, t, from),
        proceeds(from, answer, to),
        !(answer.reply is Failed),
    ensures
        flush_stands(s, t, to),
{
    if let ProgressView::Ask { request, job: JobView::Flush { tabs, at, commands } } =
        from.progress {
        if let StoreRequest::ArchiveTab(entry) = request {
            let tab = tabs[at];
            let more = tabs.take(at + 1);
            assert(more.drop_last() =~= tabs.take(at));
            assert(more.last() == tab);
            lemma_flushed_dom(s, tabs.take(at));
            assert(from.state.tabs.contains_key(tab.tab_id) == s.tabs.contains_key(tab.tab_id))
                by {
                assert(from.state.tabs.dom().contains(tab.tab_id) == s.tabs.dom().contains(
                    tab.tab_id,
                ));
            }
            lemma_archive_grew_push(
                t.archived,
                from.tables.archived,
                archived_at_once(s, tabs.take(at)),
                entry,
                tab,
            );
            let sent = if s.tabs.contains_key(tab.tab_id) {
                commands.push(DaemonCommand::CloseTab { tab_id: tab.tab_id })
            } else {
                commands
            };
            assert(from.state.with_status(tab.tab_id, TabStatus::Closed) == flushed_state(s, more));
            lemma_flushing_stands(
                s,
                t,
                at + 1,
                sent,
                answer.utc,
                flushed_state(s, more),
                to.tables,
            );
        }
    }
}

/// A flush during which the store does not fail puts every queued tab away: the
/// queue is empty after it; the videos, and the tabs that are no longer open, are
/// archived in the order of the queue; of the other tabs the content is requested,
/// and they await it; and the flushed tabs are handed back.
pub proof fn law_flush_puts_every_queued_tab_away(moments: Seq<Moment>, answers: Seq<Answer>)
    requires
        run(moments, answers),
        all_answered(answers),
        moments[0].progress == (ProgressView::Ask {
            request: StoreRequest::TakeAllPending,
            job: JobView::Take,
        }),
        !(moments.last().progress is Ask),
    ensures
        ({
            let (s, t) = (moments[0].state, moments[0].tables);
            let end = moments.last();
            &&& end.progress == (ProgressView::Finished {
                commands: commands_for(s, t.pending),
                flushed: t.pending,
            })
            &&& end.tables.pending == Seq::<PendingTab>::empty()
            &&& archive_grew(t.archived, end.tables.archived, archived_at_once(s, t.pending))
            &&& end.state == if t.pending.len() == 0 {
                s
            } else {
                flushed_state(s, t.pending).without_closed()
            }
        }),
{
    let (s, t) = (moments[0].state, moments[0].tables);
    assert(answers.len() > 0);
    let first = answers[0];
    assert(proceeds(moments[0], first, moments[1]));
    assert(archive_grew(t.archived, t.archived, Seq::empty())) by {
        assert(t.archived.take(t.archived.len() as int) =~= t.archived);
        assert(t.archived.skip(t.archived.len() as int) =~= Seq::empty());
    }
    assert(t.pending.take(0) =~= Seq::empty());
    if t.pending.len() > 0 {
        lemma_flushing_stands(s, t, 0, Seq::empty(), first.utc, s, moments[1].tables);
        assert(flush_stands(s, t, moments[1]));
        lemma_flush_run(s, t, moments, answers, answers.len() as int);
    } else {
        assert(t.pending =~= Seq::empty());
        assert(moments[1].progress == ProgressView::nothing());
        if answers.len() > 1 {
            assert(proceeds(moments[1], answers[1], moments[2]));
        }
    }
}

proof fn lemma_flush_run(
    s: TrackerState,
    t: Tables,
    moments: Seq<Moment>,
    answers: Seq<Answer>,
    n: int,
)
    requires
        run(moments, answers),
        all_answered(answers),
        1 <= n <= answers.len(),
        flush_stands(s, t, moments[1]),
    ensures
        flush_stands(s, t, moments[n]),
    decreases n,
{
    if n > 1 {
        lemma_flush_run(s, t, moments, answers, n - 1);
        assert(proceeds(moments[n - 1], answers[n - 1], moments[n - 1 + 1]));
        lemma_flush_goes_on(s, t, moments[n - 1], answers[n - 1], moments[n]);
    }
}

proof fn lemma_flushed_tab(s: TrackerState, rows: Seq<PendingTab>, id: i64)
    requires
        ids_differ(rows),
    ensures
        !has_id(rows, id) ==> flushed_state(s, rows).tabs[id] == s.tabs[id],
        forall|k: int|
            0 <= k < rows.len() && (#[trigger] rows[k]).tab_id == id && s.tabs.contains_key(id)
                ==> flushed_state(s, rows).tabs[id] == s.tabs[id].with_status(
                if rows[k].is_video {
                    TabStatus::Closed
                } else {
                    TabStatus::AwaitingContent {
                        reason: rows[k].reason,
                        cluster_id: rows[k].cluster_id,
                    }
                },
            ),
    decreases rows.len(),
{
    if rows.len() > 0 {
        let front = rows.drop_last();
        assert(ids_differ(front)) by {
            assert forall|i: int, j: int| 0 <= i < j < front.len() implies (
            #[trigger] front[i]).tab_id != (#[trigger] front[j]).tab_id by {
                assert(rows[i] == front[i] && rows[j] == front[j]);
            }
        }
        lemma_flushed_tab(s, front, id);
        lemma_flushed_dom(s, front);
        lemma_has_id_push(front, rows.last());
        assert(front.push(rows.last()) =~= rows);
        assert(has_id(rows, id) <==> has_id(front, id) || rows.last().tab_id == id);
        assert(flushed_state(s, front).tabs.contains_key(rows.last().tab_id)
            == s.tabs.contains_key(rows.last().tab_id)) by {
            assert(flushed_state(s, front).tabs.dom().contains(rows.last().tab_id)
                == s.tabs.dom().contains(rows.last().tab_id));
        }
        assert forall|k: int|
            0 <= k < rows.len() && (#[trigger] rows[k]).tab_id == id && s.tabs.contains_key(
                id,
            ) implies flushed_state(s, rows).tabs[id] == s.tabs[id].with_status(
            if rows[k].is_video {
                TabStatus::Closed
            } else {
                TabStatus::AwaitingContent { reason: rows[k].reason, cluster_id: rows[k].cluster_id }
            },
        ) by {
            if k < front.len() {
                assert(front[k] == rows[k]);
                assert(rows[k].tab_id != rows[rows.len() - 1].tab_id);
            } else {
                assert(!has_id(front, id)) by {
                    if has_id(front, id) {
                        let i = choose|i: int|
                            0 <= i < front.len() && (#[trigger] front[i]).tab_id == id;
                        assert(rows[i].tab_id != rows[rows.len() - 1].tab_id);
                    }
                }
            }
        }
    }
}

/// After a flush during which the store does not fail, no tab waits in the queue
/// any more, by what the tracker knows. A flush that found tabs in the queue also
/// leaves no closed tab behind, and every tab that was not queued is as it was.
pub proof fn law_no_tab_waits_after_a_flush(moments: Seq<Moment>, answers: Seq<Answer>, id: i64)
    requires
        run(moments, answers),
        all_answered(answers),
        moments[0].progress == (ProgressView::Ask {
            request: StoreRequest::TakeAllPending,
            job: JobView::Take,
        }),
        !(moments.last().progress is Ask),
        agree(moments[0].state, moments[0].tables, moments[0].progress),
    ensures
        ({
            let s = moments[0].state;
            let rows = moments[0].tables.pending;
            let end = moments.last().state;
            &&& !waits(end, id)
            &&& rows.len() > 0 && end.tabs.contains_key(id) ==> !(end.tabs[id].status is Closed)
            &&& !has_id(rows, id) && s.tabs.contains_key(id) && !(s.tabs[id].status is Closed)
                ==> end.tabs.contains_key(id) && end.tabs[id] == s.tabs[id]
        }),
{
    let (s, t) = (moments[0].state, moments[0].tables);
    law_flush_puts_every_queued_tab_away(moments, answers);
    lemma_flushed_dom(s, t.pending);
    lemma_flushed_tab(s, t.pending, id);
    let flushed = flushed_state(s, t.pending);
    assert(flushed.tabs.contains_key(id) == s.tabs.contains_key(id)) by {
        assert(flushed.tabs.dom().contains(id) == s.tabs.dom().contains(id));
    }
    assert(waits(s, id) ==> has_id(t.pending, id));
    if has_id(t.pending, id) {
        let k = choose|k: int| 0 <= k < t.pending.len() && (#[trigger] t.pending[k]).tab_id == id;
        assert(t.pending[k].tab_id == id);
    }
}

/// After a flush during which the store does not fail, a flushed tab that is open
/// and no video awaits its content, under the reason and the cluster it was queued
/// with. A flushed video is forgotten.
pub proof fn law_flushed_tab_awaits_content_or_is_gone(
    moments: Seq<Moment>,
    answers: Seq<Answer>,
    k: int,
)
    requires
        run(moments, answers),
        all_answered(answers),
        moments[0].progress == (ProgressView::Ask {
            request: StoreRequest::TakeAllPending,
            job: JobView::Take,
        }),
        !(moments.last().progress is Ask),
        ids_differ(moments[0].tables.pending),
        0 <= k < moments[0].tables.pending.len(),
    ensures
        ({
            let s = moments[0].state;
            let row = moments[0].tables.pending[k];
            let end = moments.last().state;
            if s.tabs.contains_key(row.tab_id) && !row.is_video {
                end.tabs.contains_key(row.tab_id) && end.tabs[row.tab_id]
                    == s.tabs[row.tab_id].with_status(
                    TabStatus::AwaitingContent { reason: row.reason, cluster_id: row.cluster_id },
                )
            } else {
                !end.tabs.contains_key(row.tab_id)
            }
        }),
{
    let (s, t) = (moments[0].state, moments[0].tables);
    let id = t.pending[k].tab_id;
    law_flush_puts_every_queued_tab_away(moments, answers);
    lemma_flushed_dom(s, t.pending);
    lemma_flushed_tab(s, t.pending, id);
    let flushed = flushed_state(s, t.pending);
    assert(flushed.tabs.contains_key(id) == s.tabs.contains_key(id)) by {
        assert(flushed.tabs.dom().contains(id) == s.tabs.dom().contains(id));
    }
}

/// What the tracker knows once the tabs of a queue are queued: those that were
/// active wait as part of their cluster, and nothing else changes.
pub open spec fn queued_state(s: TrackerState, queue: Seq<Queued>) -> TrackerState
    decreases queue.len(),
{
    if queue.len() == 0 {
        s
    } else {
        let before = queued_state(s, queue.drop_last());
        let tab = queue.last();
        if before.is_active(tab.tab_id) {
            before.with_status(
                tab.tab_id,
                TabStatus::Pending {
                    reason: ArchivalReason::RabbitHole,
                    cluster_id: Some(tab.cluster_id),
                },
            )
        } else {
            before
        }
    }
}

/// How the queueing of clusters that began at `s` stands.
spec fn queueing_stands(whole: bool, s: TrackerState, queue: Seq<Queued>, m: Moment) -> bool {
    match m.progress {
        ProgressView::Ask { job: JobView::RabbitHole { queue: q, at }, .. } => {
            &&& q == queue
            &&& 0 <= at < queue.len()
            &&& m.state == queued_state(s, queue.take(at))
            &&& m.state.is_active(queue[at].tab_id)
        },
        ProgressView::Finished { .. } => {
            &&& m.progress == ProgressView::nothing()
            &&& (m.state, m.progress) == step_leaves(whole, queued_state(s, queue), m.progress)
        },
        _ => false,
    }
}

proof fn lemma_queueing_stands(
    whole: bool,
    s: TrackerState,
    queue: Seq<Queued>,
    from: int,
    utc: UtcTime,
    state: TrackerState,
    tables: Tables,
)
    requires
        0 <= from <= queue.len(),
        state == queued_state(s, queue.take(from)),
    ensures
        ({
            let (end, progress) = step_leaves(whole, state, queueing(state, queue, from, utc));
            queueing_stands(whole, s, queue, Moment { state: end, tables, progress })
        }),
    decreases queue.len() - from,
{
    if from >= queue.len() {
        assert(queue.take(from) =~= queue);
    } else if !state.is_active(queue[from].tab_id) {
        let more = queue.take(from + 1);
        assert(more.drop_last() =~= queue.take(from));
        assert(more.last() == queue[from]);
        lemma_queueing_stands(whole, s, queue, from + 1, utc, state, tables);
    }
}

proof fn lemma_queueing_run(
    whole: bool,
    s: TrackerState,
    queue: Seq<Queued>,
    moments: Seq<Moment>,
    answers: Seq<Answer>,
    n: int,
)
    requires
        step_run(whole, moments, answers),
        all_answered(answers),
        0 <= n <= answers.len(),
        queueing_stands(whole, s, queue, moments[0]),
    ensures
        queueing_stands(whole, s, queue, moments[n]),
    decreases n,
{
    if n > 0 {
        lemma_queueing_run(whole, s, queue, moments, answers, n - 1);
        let from = moments[n - 1];
        let answer = answers[n - 1];
        assert(step_proceeds(whole, moments[n - 1], answers[n - 1], moments[n - 1 + 1]));
        if let ProgressView::Ask { job: JobView::RabbitHole { queue: q, at }, .. } =
            from.progress {
            let more = queue.take(at + 1);
            assert(more.drop_last() =~= queue.take(at));
            assert(more.last() == queue[at]);
            lemma_queueing_stands(
                whole,
                s,
                queue,
                at + 1,
                answer.utc,
                queued_state(s, more),
                moments[n].tables,
            );
        }
    }
}

/// The queueing of clusters, during which the store does not fail, queues every
/// active tab of the clusters, each under the id of its cluster. It changes no other
/// tab, and hands nothing back. As the last step of a whole sweep it is followed by
/// the sweep's end, at which the closed tabs are forgotten; by itself it forgets no
/// tab.
pub proof fn law_sweep_queues_the_clusters(
    whole: bool,
    s: TrackerState,
    queue: Seq<Queued>,
    utc: UtcTime,
    moments: Seq<Moment>,
    answers: Seq<Answer>,
)
    requires
        step_run(whole, moments, answers),
        all_answered(answers),
        (moments[0].state, moments[0].progress) == step_leaves(
            whole,
            s,
            queueing(s, queue, 0, utc),
        ),
        !(moments.last().progress is Ask),
    ensures
        moments.last().progress == ProgressView::nothing(),
        moments.last().state == if whole {
            queued_state(s, queue).without_closed()
        } else {
            queued_state(s, queue)
        },
{
    assert(queue.take(0) =~= Seq::empty());
    lemma_queueing_stands(whole, s, queue, 0, utc, s, moments[0].tables);
    lemma_queueing_run(whole, s, queue, moments, answers, answers.len() as int);
}

/// How a sweep, or the looking for watch-later candidates by itself, that began at
/// `s` when the clock showed `since` stands.
spec fn sweep_stands(
    whole: bool,
    s: TrackerState,
    order: Seq<i64>,
    since: u64,
    m: Moment,
) -> bool {
    match m.progress {
        ProgressView::Ask { job: JobView::WatchLater { order: o, at }, .. } => {
            &&& o == order
            &&& 0 <= at < order.len()
            &&& m.state.config == s.config
            &&& forall|k: int|
                0 <= k < at && s.is_put_off(#[trigger] order[k], since) ==> waits(
                    m.state,
                    order[k],
                )
            &&& forall|k: int|
                at <= k < order.len() ==> m.state.tabs.contains_key(#[trigger] order[k])
                    == s.tabs.contains_key(order[k]) && m.state.tabs[order[k]] == s.tabs[order[k]]
        },
        ProgressView::Ask { job: JobView::RabbitHole { queue, at }, .. } => {
            &&& whole
            &&& 0 <= at < queue.len()
            &&& m.state.is_active(queue[at].tab_id)
            &&& forall|k: int|
                0 <= k < order.len() && s.is_put_off(#[trigger] order[k], since) ==> waits(
                    m.state,
                    order[k],
                )
        },
        ProgressView::Finished { .. } => {
            &&& m.progress == ProgressView::nothing()
            &&& forall|k: int|
                0 <= k < order.len() && s.is_put_off(#[trigger] order[k], since) ==> waits(
                    m.state,
                    order[k],
                )
            &&& whole ==> forall|id: i64| #[trigger]
                m.state.tabs.contains_key(id) ==> !(m.state.tabs[id].status is Closed)
        },
        _ => false,
    }
}

proof fn lemma_sweep_stands_queueing(
    s: TrackerState,
    order: Seq<i64>,
    since: u64,
    state: TrackerState,
    queue: Seq<Queued>,
    from: int,
    utc: UtcTime,
    tables: Tables,
)
    requires
        0 <= from <= queue.len(),
        forall|k: int|
            0 <= k < order.len() && s.is_put_off(#[trigger] order[k], since) ==> waits(
                state,
                order[k],
            ),
    ensures
        ({
            let (end, progress) = swept(state, queueing(state, queue, from, utc));
            sweep_stands(true, s, order, since, Moment { state: end, tables, progress })
        }),
{
    lemma_next_queued(state, queue, from);
}

proof fn lemma_sweep_stands(
    whole: bool,
    s: TrackerState,
    order: Seq<i64>,
    since: u64,
    state: TrackerState,
    from: int,
    now: u64,
    utc: UtcTime,
    to: Moment,
)
    requires
        since <= now,
        0 <= from <= order.len(),
        state.config == s.config,
        forall|k: int|
            0 <= k < from && s.is_put_off(#[trigger] order[k], since) ==> waits(state, order[k]),
        forall|k: int|
            from <= k < order.len() ==> state.tabs.contains_key(#[trigger] order[k])
                == s.tabs.contains_key(order[k]) && state.tabs[order[k]] == s.tabs[order[k]],
        if whole {
            sweeps_to(state, order, from, now, utc, (to.state, to.progress))
        } else {
            (to.state, to.progress) == (state, putting_off(state, order, from, now, utc))
        },
    ensures
        sweep_stands(whole, s, order, since, to),
{
    lemma_next_put_off(state, order, from, now);
    let at = state.next_put_off(order, from, now);
    assert forall|k: int| from <= k < at implies !s.is_put_off(#[trigger] order[k], since) by {
        assert(!state.is_put_off(order[k], now));
    }
    if whole && at >= order.len() {
        let clusters = abandoned(state.members(order), now, state.config.rabbit_hole);
        let ids = choose|ids: Seq<String>|
            ids.len() == clusters.len() && (forall|i: int|
                0 <= i < ids.len() ==> is_random_uuid(#[trigger] ids[i]@)) && (
            to.state,
            to.progress,
        ) == swept(state, #[trigger] queueing(state, queued(clusters, ids), 0, utc));
        assert((to.state, to.progress) == swept(
            state,
            queueing(state, queued(clusters, ids), 0, utc),
        ));
        lemma_sweep_stands_queueing(
            s,
            order,
            since,
            state,
            queued(clusters, ids),
            0,
            utc,
            to.tables,
        );
    }
}

proof fn lemma_sweep_goes_on(
    whole: bool,
    s: TrackerState,
    order: Seq<i64>,
    since: u64,
    from: Moment,
    answer: Answer,
    to: Moment,
)
    requires
        order.no_duplicates(),
        sweep_stands(whole, s, order, since, from),
        step_proceeds(whole, from, answer, to),
        !(answer.reply is Failed),
        since <= answer.now,
    ensures
        sweep_stands(whole, s, order, since, to),
{
    match from.progress {
        ProgressView::Ask { job: JobView::WatchLater { order: o, at }, .. } => {
            let state = from.state.with_status(
                order[at],
                TabStatus::Pending { reason: ArchivalReason::WatchLater, cluster_id: None },
            );
            assert forall|k: int|
                0 <= k < at + 1 && s.is_put_off(#[trigger] order[k], since) implies waits(
                state,
                order[k],
            ) by {
                if k < at {
                    assert(waits(from.state, order[k]));
                    assert(order[k] != order[at]);
                }
            }
            assert forall|k: int| at + 1 <= k < order.len() implies state.tabs.contains_key(
                #[trigger] order[k],
            ) == s.tabs.contains_key(order[k]) && state.tabs[order[k]] == s.tabs[order[k]] by {
                assert(order[k] != order[at]);
            }
            lemma_sweep_stands(whole, s, order, since, state, at + 1, answer.now, answer.utc, to);
        },
        ProgressView::Ask { job: JobView::RabbitHole { queue, at }, .. } => {
            let state = from.state.with_status(
                queue[at].tab_id,
                TabStatus::Pending {
                    reason: ArchivalReason::RabbitHole,
                    cluster_id: Some(queue[at].cluster_id),
                },
            );
            assert forall|k: int|
                0 <= k < order.len() && s.is_put_off(#[trigger] order[k], since) implies waits(
                state,
                order[k],
            ) by {
                assert(waits(from.state, order[k]));
            }
            lemma_sweep_stands_queueing(
                s,
                order,
                since,
                state,
                queue,
                at + 1,
                answer.utc,
                to.tables,
            );
        },
        _ => {},
    }
}

proof fn lemma_sweep_run(
    whole: bool,
    s: TrackerState,
    order: Seq<i64>,
    since: u64,
    moments: Seq<Moment>,
    answers: Seq<Answer>,
    n: int,
)
    requires
        step_run(whole, moments, answers),
        all_answered(answers),
        forall|i: int| 0 <= i < answers.len() ==> since <= (#[trigger] answers[i]).now,
        order.no_duplicates(),
        0 <= n <= answers.len(),
        sweep_stands(whole, s, order, since, moments[0]),
    ensures
        sweep_stands(whole, s, order, since, moments[n]),
    decreases n,
{
    if n > 0 {
        lemma_sweep_run(whole, s, order, since, moments, answers, n - 1);
        assert(step_proceeds(whole, moments[n - 1], answers[n - 1], moments[n - 1 + 1]));
        lemma_sweep_goes_on(whole, s, order, since, moments[n - 1], answers[n - 1], moments[n]);
    }
}

/// A sweep during which the store does not fail queues every tab that was a
/// watch-later candidate when it began, forgets the closed tabs, and hands back
/// neither commands nor tabs: closing is left to the flush. The clock does not run
/// backwards.
pub proof fn law_sweep_queues_every_candidate(
    s: TrackerState,
    order: Seq<i64>,
    since: u64,
    utc: UtcTime,
    moments: Seq<Moment>,
    answers: Seq<Answer>,
)
    requires
        run(moments, answers),
        all_answered(answers),
        forall|i: int| 0 <= i < answers.len() ==> since <= (#[trigger] answers[i]).now,
        order.no_duplicates(),
        order.to_set() == s.tabs.dom(),
        sweeps_to(s, order, 0, since, utc, (moments[0].state, moments[0].progress)),
        !(moments.last().progress is Ask),
    ensures
        moments.last().progress == ProgressView::nothing(),
        forall|id: i64| #[trigger] s.is_put_off(id, since) ==> waits(moments.last().state, id),
        forall|id: i64| #[trigger]
            moments.last().state.tabs.contains_key(id) ==> !(
            moments.last().state.tabs[id].status is Closed),
{
    lemma_whole_run(moments, answers);
    lemma_sweep_stands(true, s, order, since, s, 0, since, utc, moments[0]);
    lemma_sweep_run(true, s, order, since, moments, answers, answers.len() as int);
    assert forall|id: i64| #[trigger] s.is_put_off(id, since) implies waits(
        moments.last().state,
        id,
    ) by {
        assert(order.to_set().contains(id));
        let k = choose|k: int| 0 <= k < order.len() && order[k] == id;
        assert(s.is_put_off(order[k], since));
    }
}

/// The looking for watch-later candidates, taken by itself and without a failure of
/// the store, queues every tab that was a candidate when it began, and hands nothing
/// back. The clock does not run backwards.
pub proof fn law_putting_off_queues_every_candidate(
    s: TrackerState,
    order: Seq<i64>,
    since: u64,
    utc: UtcTime,
    moments: Seq<Moment>,
    answers: Seq<Answer>,
)
    requires
        step_run(false, moments, answers),
        all_answered(answers),
        forall|i: int| 0 <= i < answers.len() ==> since <= (#[trigger] answers[i]).now,
        order.no_duplicates(),
        order.to_set() == s.tabs.dom(),
        moments[0].state == s,
        moments[0].progress == putting_off(s, order, 0, since, utc),
        !(moments.last().progress is Ask),
    ensures
        moments.last().progress == ProgressView::nothing(),
        forall|id: i64| #[trigger] s.is_put_off(id, since) ==> waits(moments.last().state, id),
{
    lemma_sweep_stands(false, s, order, since, s, 0, since, utc, moments[0]);
    lemma_sweep_run(false, s, order, since, moments, answers, answers.len() as int);
    assert forall|id: i64| #[trigger] s.is_put_off(id, since) implies waits(
        moments.last().state,
        id,
    ) by {
        assert(order.to_set().contains(id));
        let k = choose|k: int| 0 <= k < order.len() && order[k] == id;
        assert(s.is_put_off(order[k], since));
    }
}

/// The tab stands in the cluster whose id it is queued under.
pub open spec fn queued_for(clusters: Seq<Seq<i64>>, ids: Seq<String>, q: Queued) -> bool {
    exists|c: int|
        0 <= c < clusters.len() && #[trigger] clusters[c].contains(q.tab_id) && q.cluster_id
            == ids[c]
}

/// The queue holds the tabs of the clusters, each under the id of its cluster, and
/// nothing else.
pub proof fn law_queue_holds_the_clusters(clusters: Seq<Seq<i64>>, ids: Seq<String>)
    requires
        ids.len() >= clusters.len(),
    ensures
        forall|c: int, tab_id: i64|
            0 <= c < clusters.len() && #[trigger] clusters[c].contains(tab_id) ==> queued(
                clusters,
                ids,
            ).contains(Queued { tab_id, cluster_id: ids[c] }),
        forall|k: int|
            0 <= k < queued(clusters, ids).len() ==> queued_for(
                clusters,
                ids,
                #[trigger] queued(clusters, ids)[k],
            ),
    decreases clusters.len(),
{
    if clusters.len() > 0 {
        let front = clusters.drop_last();
        let n = clusters.len() - 1;
        law_queue_holds_the_clusters(front, ids);
        let before = queued(front, ids);
        let tagged = |tab_id: i64| Queued { tab_id, cluster_id: ids[n] };
        let added = clusters.last().map_values(tagged);
        let queue = queued(clusters, ids);
        assert(queue == before + added);
        assert forall|c: int, tab_id: i64|
            0 <= c < clusters.len() && #[trigger] clusters[c].contains(
                tab_id,
            ) implies queue.contains(Queued { tab_id, cluster_id: ids[c] }) by {
            let wanted = Queued { tab_id, cluster_id: ids[c] };
            if c < n {
                assert(front[c].contains(tab_id));
                let k = choose|k: int| 0 <= k < before.len() && before[k] == wanted;
                assert(queue[k] == wanted);
            } else {
                let k = choose|k: int| 0 <= k < clusters[c].len() && clusters[c][k] == tab_id;
                assert(added[k] == wanted);
                assert(queue[before.len() + k] == wanted);
            }
        }
        assert forall|k: int| 0 <= k < queue.len() implies queued_for(
            clusters,
            ids,
            #[trigger] queue[k],
        ) by {
            if k < before.len() {
                assert(queue[k] == before[k]);
                assert(queued_for(front, ids, before[k]));
                let c = choose|c: int|
                    0 <= c < front.len() && #[trigger] front[c].contains(before[k].tab_id)
                        && before[k].cluster_id == ids[c];
                assert(clusters[c].contains(queue[k].tab_id));
            } else {
                assert(queue[k] == added[k - before.len()]);
                assert(clusters.last()[k - before.len()] == queue[k].tab_id);
                assert(clusters[n].contains(queue[k].tab_id));
            }
        }
    }
}

pub(crate) proof fn lemma_queued_status(s: TrackerState, queue: Seq<Queued>, id: i64, cluster_id: String)
    requires
        s.is_active(id),
        forall|k: int|
            0 <= k < queue.len() && (#[trigger] queue[k]).tab_id == id ==> queue[k].cluster_id
                == cluster_id,
    ensures
        queued_state(s, queue).tabs.contains_key(id),
        queued_state(s, queue).tabs[id] == if exists|k: int|
            0 <= k < queue.len() && (#[trigger] queue[k]).tab_id == id {
            s.tabs[id].with_status(
                TabStatus::Pending {
                    reason: ArchivalReason::RabbitHole,
                    cluster_id: Some(cluster_id),
                },
            )
        } else {
            s.tabs[id]
        },
    decreases queue.len(),
{
    if queue.len() > 0 {
        let front = queue.drop_last();
        assert forall|k: int|
            0 <= k < front.len() && (#[trigger] front[k]).tab_id == id implies front[k].cluster_id
            == cluster_id by {
            assert(queue[k] == front[k]);
        }
        lemma_queued_status(s, front, id, cluster_id);
        assert(queue[queue.len() - 1] == queue.last());
        if exists|k: int| 0 <= k < front.len() && (#[trigger] front[k]).tab_id == id {
            let k = choose|k: int| 0 <= k < front.len() && (#[trigger] front[k]).tab_id == id;
            assert(queue[k].tab_id == id);
        } else if queue.last().tab_id != id {
            assert forall|k: int| 0 <= k < queue.len() implies (#[trigger] queue[k]).tab_id
                != id by {
                if k < front.len() {
                    assert(front[k] == queue[k]);
                }
            }
        }
    }
}

pub(crate) proof fn lemma_members_are_active(s: TrackerState, order: Seq<i64>, i: int)
    requires
        0 <= i < s.members(order).len(),
    ensures
        s.is_active(s.members(order)[i].id),
        s.members(order)[i] == s.tabs[s.members(order)[i].id].member(s.members(order)[i].id),
    decreases order.len(),
{
    if order.len() > 0 {
        let front = s.members(order.drop_last());
        if i < front.len() {
            lemma_members_are_active(s, order.drop_last(), i);
        }
    }
}

/// The queueing of clusters, during which the store does not fail, queues every tab
/// of every abandoned cluster, all tabs of one cluster under the same id, as the last
/// step of a whole sweep and by itself.
pub proof fn law_abandoned_clusters_are_queued(
    whole: bool,
    s: TrackerState,
    order: Seq<i64>,
    now: u64,
    utc: UtcTime,
    ids: Seq<String>,
    moments: Seq<Moment>,
    answers: Seq<Answer>,
    c: int,
    id: i64,
)
    requires
        ({
            let clusters = abandoned(s.members(order), now, s.config.rabbit_hole);
            &&& ids.len() == clusters.len()
            &&& (moments[0].state, moments[0].progress) == step_leaves(
                whole,
                s,
                queueing(s, queued(clusters, ids), 0, utc),
            )
            &&& 0 <= c < clusters.len()
            &&& clusters[c].contains(id)
        }),
        step_run(whole, moments, answers),
        all_answered(answers),
        !(moments.last().progress is Ask),
    ensures
        moments.last().state.tabs.contains_key(id),
        moments.last().state.tabs[id] == s.tabs[id].with_status(
            TabStatus::Pending { reason: ArchivalReason::RabbitHole, cluster_id: Some(ids[c]) },
        ),
{
    let active = s.members(order);
    let clusters = abandoned(active, now, s.config.rabbit_hole);
    let queue = queued(clusters, ids);
    law_sweep_queues_the_clusters(whole, s, queue, utc, moments, answers);
    law_abandoned_clusters_are_large_stale_and_disjoint(active, now, s.config.rabbit_hole);
    law_queue_holds_the_clusters(clusters, ids);
    let k = choose|k: int| 0 <= k < clusters[c].len() && clusters[c][k] == id;
    assert(clusters[c][k] == id);
    let i = choose|i: int|
        0 <= i < active.len() && (#[trigger] active[i]).id == clusters[c][k];
    lemma_members_are_active(s, order, i);
    assert forall|q: int|
        0 <= q < queue.len() && (#[trigger] queue[q]).tab_id == id implies queue[q].cluster_id
        == ids[c] by {
        assert(queued_for(clusters, ids, queue[q]));
        let d = choose|d: int|
            0 <= d < clusters.len() && #[trigger] clusters[d].contains(queue[q].tab_id)
                && queue[q].cluster_id == ids[d];
        assert(clusters[d].contains(id) && clusters[c].contains(id));
        assert(d == c);
    }
    lemma_queued_status(s, queue, id, ids[c]);
    let wanted = Queued { tab_id: id, cluster_id: ids[c] };
    assert(queue.contains(wanted));
    let q = choose|q: int| 0 <= q < queue.len() && queue[q] == wanted;
    assert(queue[q].tab_id == id);
}

/// A tab is queued to be watched later only if it is a video that was opened from
/// another tab, was never focused, and has been open for the whole grace period. It
/// is queued as the tracker knows it.
pub proof fn law_only_put_off_tabs_are_watched_later(
    s: TrackerState,
    order: Seq<i64>,
    from: int,
    now: u64,
    utc: UtcTime,
    end: (TrackerState, ProgressView),
    tab: PendingTab,
)
    requires
        filed_by_id(s),
        0 <= from <= order.len(),
        sweeps_to(s, order, from, now, utc, end),
        end.1 matches ProgressView::Ask { request, .. } && request == StoreRequest::InsertPending(
            tab,
        ),
        tab.reason is WatchLater,
    ensures
        s.is_put_off(tab.tab_id, now),
        tab == s.tabs[tab.tab_id].pending(utc, ArchivalReason::WatchLater, None),
{
    lemma_next_put_off(s, order, from, now);
    let at = s.next_put_off(order, from, now);
    if at >= order.len() {
        let clusters = abandoned(s.members(order), now, s.config.rabbit_hole);
        let ids = choose|ids: Seq<String>|
            ids.len() == clusters.len() && (forall|i: int|
                0 <= i < ids.len() ==> is_random_uuid(#[trigger] ids[i]@)) && end == swept(
                s,
                #[trigger] queueing(s, queued(clusters, ids), 0, utc),
            );
        assert(end == swept(s, queueing(s, queued(clusters, ids), 0, utc)));
    }
}

/// A queued tab that the user focuses is rescued: it is active again, and its row
/// leaves the queue.
pub proof fn law_focused_tab_is_rescued(
    s: TrackerState,
    t: Tables,
    tab_id: i64,
    now: u64,
    utc: UtcTime,
    answer: Answer,
    to: Moment,
)
    requires
        waits(s, tab_id),
        !(answer.reply is Failed),
        ({
            let (state, progress) = after_message(
                s,
                ExtensionMessage::TabActivated { tab_id },
                now,
                utc,
            );
            proceeds(Moment { state, tables: t, progress }, answer, to)
        }),
    ensures
        to.progress == ProgressView::nothing(),
        to.state == s.focused(tab_id, now).with_status(tab_id, TabStatus::Active),
        to.state.is_active(tab_id),
        !has_id(to.tables.pending, tab_id),
        forall|other: i64|
            other != tab_id ==> #[trigger] has_id(to.tables.pending, other) == has_id(
                t.pending,
                other,
            ),
{
    lemma_without_id(t.pending, tab_id);
}

/// A tab that is removed leaves nothing behind, neither with the tracker nor in
/// the queue.
pub proof fn law_removed_tab_leaves_nothing_behind(
    s: TrackerState,
    t: Tables,
    tab_id: i64,
    now: u64,
    utc: UtcTime,
    answer: Answer,
    to: Moment,
)
    requires
        !(answer.reply is Failed),
        ({
            let (state, progress) = after_message(
                s,
                ExtensionMessage::TabRemoved { tab_id },
                now,
                utc,
            );
            proceeds(Moment { state, tables: t, progress }, answer, to)
        }),
    ensures
        to.progress == ProgressView::nothing(),
        to.state == s.without_tab(tab_id),
        !to.state.tabs.contains_key(tab_id),
        !has_id(to.tables.pending, tab_id),
        forall|other: i64|
            other != tab_id ==> #[trigger] has_id(to.tables.pending, other) == has_id(
                t.pending,
                other,
            ),
{
    lemma_without_id(t.pending, tab_id);
}

/// Content that was asked for is archived, and the tab is told to close. More
/// content of the same tab is ignored.
pub proof fn law_content_is_archived_once(
    s: TrackerState,
    t: Tables,
    tab_id: i64,
    text: String,
    title: Option<String>,
    now: u64,
    utc: UtcTime,
    answer: Answer,
    to: Moment,
    again: ExtensionMessage,
    later: u64,
    later_utc: UtcTime,
)
    requires
        s.tabs.contains_key(tab_id),
        s.tabs[tab_id].status is AwaitingContent,
        !(answer.reply is Failed),
        ({
            let (state, progress) = after_message(
                s,
                ExtensionMessage::TabContent { tab_id, text, title },
                now,
                utc,
            );
            proceeds(Moment { state, tables: t, progress }, answer, to)
        }),
        again matches ExtensionMessage::TabContent { tab_id: id, .. } && id == tab_id,
    ensures
        to.tables.archived.len() == t.archived.len() + 1,
        to.tables.archived.last().tab_id == tab_id,
        to.tables.archived.last().extracted_text == (if text@.len() == 0 {
            None
        } else {
            Some(text)
        }),
        to.progress == (ProgressView::Finished {
            commands: seq![DaemonCommand::CloseTab { tab_id }],
            flushed: Seq::empty(),
        }),
        after_message(to.state, again, later, later_utc) == (to.state, ProgressView::nothing()),
{
}

/// Content that was not asked for changes nothing.
pub proof fn law_unasked_content_is_ignored(
    s: TrackerState,
    tab_id: i64,
    text: String,
    title: Option<String>,
    now: u64,
    utc: UtcTime,
)
    requires
        s.tabs.contains_key(tab_id) ==> !(s.tabs[tab_id].status is AwaitingContent),
    ensures
        after_message(s, ExtensionMessage::TabContent { tab_id, text, title }, now, utc) == (
            s,
            ProgressView::nothing(),
        ),
{
}

/// Queueing a tab that is queued already changes nothing.
pub proof fn law_queueing_again_is_harmless(
    t: Tables,
    tab: PendingTab,
    first: StoreReply,
    once: Tables,
    again: PendingTab,
    second: StoreReply,
    end: Tables,
)
    requires
        carries_out(t, StoreRequest::InsertPending(tab), first, once),
        !(first is Failed),
        again.tab_id == tab.tab_id,
        carries_out(once, StoreRequest::InsertPending(again), second, end),
    ensures
        end == once,
{
    lemma_has_id_push(t.pending, tab);
}

/// Taking the leftover tabs parts the queue: what is handed out was detected
/// before the threshold, what stays was not, and nothing is lost.
pub proof fn law_leftover_tabs_are_parted_from_the_rest(
    t: Tables,
    threshold: String,
    reply: StoreReply,
    after: Tables,
)
    requires
        carries_out(t, StoreRequest::TakeLeftoverPending { threshold }, reply, after),
        !(reply is Failed),
    ensures
        reply matches StoreReply::Tabs(tabs) && (forall|tab: PendingTab|
            {
                &&& #[trigger] tabs@.contains(tab) <==> t.pending.contains(tab) && text_before(
                    tab.detected_at.rfc3339(),
                    threshold@,
                )
                &&& #[trigger] after.pending.contains(tab) <==> t.pending.contains(tab)
                    && !text_before(tab.detected_at.rfc3339(), threshold@)
            }) && tabs@.len() + after.pending.len() == t.pending.len(),
        after.archived == t.archived,
{
    lemma_by_detection(t.pending, threshold@);
}

proof fn lemma_by_detection(tabs: Seq<PendingTab>, threshold: Seq<char>)
    ensures
        forall|tab: PendingTab| #[trigger]
            by_detection(tabs, threshold, true).contains(tab) <==> tabs.contains(tab)
                && text_before(tab.detected_at.rfc3339(), threshold),
        forall|tab: PendingTab| #[trigger]
            by_detection(tabs, threshold, false).contains(tab) <==> tabs.contains(tab)
                && !text_before(tab.detected_at.rfc3339(), threshold),
        by_detection(tabs, threshold, true).len() + by_detection(tabs, threshold, false).len()
            == tabs.len(),
    decreases tabs.len(),
{
    broadcast use vstd::seq_lib::group_seq_properties;

    if tabs.len() > 0 {
        lemma_by_detection(tabs.drop_last(), threshold);
        assert(tabs.drop_last().push(tabs.last()) =~= tabs);
    }
}

/// Throughout a run the tracker and the store agree, if they did at its start and
/// the store does not fail in the middle of a flush.
pub proof fn law_a_run_keeps_agreement(moments: Seq<Moment>, answers: Seq<Answer>, n: int)
    requires
        run(moments, answers),
        agree(moments[0].state, moments[0].tables, moments[0].progress),
        forall|i: int|
            0 <= i < answers.len() && (#[trigger] answers[i]).reply is Failed ==> !(
            moments[i].progress matches ProgressView::Ask { job, .. } && job is Flush),
        0 <= n < moments.len(),
    ensures
        agree(moments[n].state, moments[n].tables, moments[n].progress),
    decreases n,
{
    if n > 0 {
        law_a_run_keeps_agreement(moments, answers, n - 1);
        let from = moments[n - 1];
        let answer = answers[n - 1];
        assert(proceeds(moments[n - 1], answers[n - 1], moments[n - 1 + 1]));
        if let ProgressView::Ask { request, job } = from.progress {
            law_answer_keeps_agreement(
                from.state,
                from.tables,
                request,
                job,
                answer.reply,
                answer.now,
                answer.utc,
                moments[n].tables,
                (moments[n].state, moments[n].progress),
            );
        }
    }
}

/// The content of the tab was requested and has not come yet.
pub open spec fn awaits_content(s: TrackerState, id: i64) -> bool {
    s.tabs.contains_key(id) && s.tabs[id].status is AwaitingContent
}

/// No message makes a tab await its content, and a message leads to a tab being
/// closed only if it brings content that the tab awaits.
pub proof fn law_messages_close_only_tabs_that_await_content(
    s: TrackerState,
    msg: ExtensionMessage,
    now: u64,
    utc: UtcTime,
)
    ensures
        ({
            let (end, p) = after_message(s, msg, now, utc);
            &&& forall|id: i64| #[trigger] awaits_content(end, id) ==> awaits_content(s, id)
            &&& match p {
                ProgressView::Ask { job: JobView::Content { tab_id }, .. } => awaits_content(
                    s,
                    tab_id,
                ),
                ProgressView::Ask { job, .. } => job is Rescue || job is Forget,
                _ => p == ProgressView::nothing(),
            }
        }),
{
    let (end, p) = after_message(s, msg, now, utc);
    assert forall|id: i64| #[trigger] awaits_content(end, id) implies awaits_content(s, id) by {
        assert(end.tabs.contains_key(id));
    }
}

/// No sweep makes a tab await its content.
pub proof fn law_sweeps_request_no_content(
    s: TrackerState,
    order: Seq<i64>,
    from: int,
    now: u64,
    utc: UtcTime,
    end: (TrackerState, ProgressView),
)
    requires
        sweeps_to(s, order, from, now, utc, end),
    ensures
        forall|id: i64| #[trigger] awaits_content(end.0, id) ==> awaits_content(s, id),
{
}

/// Only a flush makes a tab await its content, or closes more than the tab whose
/// content came: resuming any other job requests no content, and sends a command
/// only to close that tab.
pub proof fn law_only_a_flush_requests_content(
    s: TrackerState,
    job: JobView,
    reply: StoreReply,
    now: u64,
    utc: UtcTime,
    end: (TrackerState, ProgressView),
)
    requires
        resumes_to(s, job, reply, now, utc, end),
        !(job is Take),
        !(job is Flush),
    ensures
        forall|id: i64| #[trigger] awaits_content(end.0, id) ==> awaits_content(s, id),
        end.1 matches ProgressView::Finished { commands, flushed } ==> flushed == Seq::<
            PendingTab,
        >::empty() && (commands == Seq::<DaemonCommand>::empty() || (
        job matches JobView::Content { tab_id } && commands == seq![
            DaemonCommand::CloseTab { tab_id },
        ])),
{
    if !(reply is Failed) {
        if let JobView::WatchLater { order, at } = job {
            let next = s.with_status(
                order[at],
                TabStatus::Pending { reason: ArchivalReason::WatchLater, cluster_id: None },
            );
            law_sweeps_request_no_content(next, order, at + 1, now, utc, end);
            assert forall|id: i64| #[trigger] awaits_content(end.0, id) implies awaits_content(
                s,
                id,
            ) by {
                assert(awaits_content(next, id));
            }
        }
    }
}

/// Tabs with different ids that are queued one after the other into an empty queue
/// are handed out as they were queued. After that the queue is empty: counting it
/// gives zero, and taking it again gives nothing. The archive is as it was.
pub proof fn law_the_queue_gives_back_what_was_queued(
    tabs: Seq<PendingTab>,
    tables: Seq<Tables>,
    replies: Seq<StoreReply>,
    reply: StoreReply,
    after: Tables,
)
    requires
        ids_differ(tabs),
        tables.len() == tabs.len() + 1,
        replies.len() == tabs.len(),
        tables[0].pending == Seq::<PendingTab>::empty(),
        forall|i: int|
            0 <= i < tabs.len() ==> !((#[trigger] replies[i]) is Failed) && carries_out(
                tables[i],
                StoreRequest::InsertPending(tabs[i]),
                replies[i],
                tables[i + 1],
            ),
        carries_out(tables.last(), StoreRequest::TakeAllPending, reply, after),
        !(reply is Failed),
    ensures
        reply matches StoreReply::Tabs(v) && v@ == tabs,
        after == (Tables { pending: Seq::empty(), archived: tables[0].archived }),
        forall|again: StoreReply, end: Tables| #[trigger]
            carries_out(after, StoreRequest::TakeAllPending, again, end) && !(again is Failed)
                ==> end == after && (again matches StoreReply::Tabs(v) && v@.len() == 0),
        forall|again: StoreReply, end: Tables| #[trigger]
            carries_out(after, StoreRequest::CountPending, again, end) && !(again is Failed)
                ==> again == StoreReply::Count(0),
{
    lemma_inserted(tabs, tables, replies, tabs.len() as int);
    assert(tabs.take(tabs.len() as int) =~= tabs);
}

proof fn lemma_inserted(
    tabs: Seq<PendingTab>,
    tables: Seq<Tables>,
    replies: Seq<StoreReply>,
    n: int,
)
    requires
        ids_differ(tabs),
        tables.len() == tabs.len() + 1,
        replies.len() == tabs.len(),
        tables[0].pending == Seq::<PendingTab>::empty(),
        forall|i: int|
            0 <= i < tabs.len() ==> !((#[trigger] replies[i]) is Failed) && carries_out(
                tables[i],
                StoreRequest::InsertPending(tabs[i]),
                replies[i],
                tables[i + 1],
            ),
        0 <= n <= tabs.len(),
    ensures
        tables[n].pending == tabs.take(n),
        tables[n].archived == tables[0].archived,
    decreases n,
{
    if n > 0 {
        lemma_inserted(tabs, tables, replies, n - 1);
        let queue = tabs.take(n - 1);
        assert(!(replies[n - 1] is Failed));
        assert(!has_id(queue, tabs[n - 1].tab_id)) by {
            if has_id(queue, tabs[n - 1].tab_id) {
                let i = choose|i: int|
                    0 <= i < queue.len() && (#[trigger] queue[i]).tab_id == tabs[n - 1].tab_id;
                assert(tabs[i].tab_id != tabs[n - 1].tab_id);
            }
        }
        assert(carries_out(
            tables[n - 1],
            StoreRequest::InsertPending(tabs[n - 1]),
            replies[n - 1],
            tables[n - 1 + 1],
        ));
        assert(queue.push(tabs[n - 1]) =~= tabs.take(n));
    }
}

/// Where no text comes before the threshold, nothing is left over: nothing is handed
/// out, and the queue is as it was.
pub proof fn law_nothing_is_left_over_from_before_all_time(
    t: Tables,
    threshold: String,
    reply: StoreReply,
    after: Tables,
)
    requires
        forall|s: Seq<char>| !#[trigger] text_before(s, threshold@),
        carries_out(t, StoreRequest::TakeLeftoverPending { threshold }, reply, after),
        !(reply is Failed),
    ensures
        reply matches StoreReply::Tabs(tabs) && tabs@.len() == 0,
        after == t,
{
    lemma_none_before(t.pending, threshold@);
}

proof fn lemma_none_before(tabs: Seq<PendingTab>, threshold: Seq<char>)
    requires
        forall|s: Seq<char>| !#[trigger] text_before(s, threshold),
    ensures
        by_detection(tabs, threshold, true).len() == 0,
        by_detection(tabs, threshold, false) == tabs,
    decreases tabs.len(),
{
    if tabs.len() > 0 {
        lemma_none_before(tabs.drop_last(), threshold);
        assert(tabs.drop_last().push(tabs.last()) =~= tabs);
    }
}

}

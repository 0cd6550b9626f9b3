//! What holds of a detection sweep as a whole, whether or not the store fails.

use vstd::prelude::*;
use crate::clock::UtcTime;
use crate::cluster_laws::{
    law_abandoned_clusters_are_large_stale_and_disjoint, law_abandoned_clusters_hold_no_tab_twice,
};
use crate::clusters::{abandoned, is_stale};
use crate::tab_store::{ArchivalReason, PendingTab, StoreRequest};
use crate::tab_tracker::{
    is_random_uuid, lemma_members_distinct, put_aside, put_off, putting_off, queued, queueing,
    sweeps_to, swept, JobView, ProgressView, Queued, TabStatus, TrackerState,
};
use crate::tracker_laws::{
    all_answered, filed_by_id, has_id, law_abandoned_clusters_are_queued,
    law_queue_holds_the_clusters, law_sweep_queues_the_clusters, lemma_has_id_push,
    lemma_members_are_active, lemma_next_put_off, lemma_next_queued, lemma_queued_status,
    lemma_whole_run, proceeds, queued_for, queued_state, run, step_leaves, step_proceeds, step_run,
    Answer, Moment, Tables,
};

verus! {

/// The sweep asks to queue an active tab and waits to go on with it, or it is over
/// and hands nothing back.
pub open spec fn asks_to_queue(m: Moment) -> bool {
    match m.progress {
        ProgressView::Ask { request, job } => request matches StoreRequest::InsertPending(tab)
            && m.state.is_active(tab.tab_id) && match job {
            JobView::WatchLater { order, at } => {
                &&& 0 <= at < order.len()
                &&& order[at] == tab.tab_id
                &&& tab.reason is WatchLater
                &&& tab.cluster_id is None
            },
            JobView::RabbitHole { queue, at } => {
                &&& 0 <= at < queue.len()
                &&& queue[at].tab_id == tab.tab_id
                &&& tab.reason is RabbitHole
                &&& tab.cluster_id == Some(queue[at].cluster_id)
            },
            _ => false,
        },
        ProgressView::Finished { .. } => m.progress == ProgressView::nothing(),
        ProgressView::Failed => true,
    }
}

/// The tab that the sweep asks to queue.
pub open spec fn asked_for(m: Moment) -> PendingTab {
    m.progress->request->InsertPending_0
}

/// What the tracker knows once the tab is queued.
pub open spec fn once_queued(s: TrackerState, tab: PendingTab) -> TrackerState {
    s.with_status(
        tab.tab_id,
        TabStatus::Pending { reason: tab.reason, cluster_id: tab.cluster_id },
    )
}

/// A sweep, or a step of it, that goes on from `state` has come to `m`: the closed
/// tabs are forgotten at the end of a whole sweep, and nothing else changes.
spec fn goes_on_to(whole: bool, state: TrackerState, m: Moment) -> bool {
    &&& asks_to_queue(m)
    &&& !(m.progress is Failed)
    &&& m.state == if whole && m.progress is Finished {
        state.without_closed()
    } else {
        state
    }
}

proof fn lemma_queueing_goes_on(
    whole: bool,
    state: TrackerState,
    queue: Seq<Queued>,
    from: int,
    utc: UtcTime,
    m: Moment,
)
    requires
        0 <= from <= queue.len(),
        (m.state, m.progress) == step_leaves(whole, state, queueing(state, queue, from, utc)),
    ensures
        goes_on_to(whole, state, m),
{
    lemma_next_queued(state, queue, from);
}

proof fn lemma_sweep_goes_on_to(
    state: TrackerState,
    order: Seq<i64>,
    from: int,
    now: u64,
    utc: UtcTime,
    m: Moment,
)
    requires
        filed_by_id(state),
        0 <= from <= order.len(),
        sweeps_to(state, order, from, now, utc, (m.state, m.progress)),
    ensures
        goes_on_to(true, state, m),
{
    lemma_next_put_off(state, order, from, now);
    let at = state.next_put_off(order, from, now);
    if at >= order.len() {
        let clusters = abandoned(state.members(order), now, state.config.rabbit_hole);
        let ids = choose|ids: Seq<String>|
            ids.len() == clusters.len() && (forall|i: int|
                0 <= i < ids.len() ==> is_random_uuid(#[trigger] ids[i]@)) && (
            m.state,
            m.progress,
        ) == swept(state, #[trigger] queueing(state, queued(clusters, ids), 0, utc));
        lemma_queueing_goes_on(true, state, queued(clusters, ids), 0, utc, m);
    }
}

proof fn lemma_putting_off_goes_on(
    state: TrackerState,
    order: Seq<i64>,
    from: int,
    now: u64,
    utc: UtcTime,
    m: Moment,
)
    requires
        filed_by_id(state),
        0 <= from <= order.len(),
        (m.state, m.progress) == (state, putting_off(state, order, from, now, utc)),
    ensures
        goes_on_to(false, state, m),
{
    lemma_next_put_off(state, order, from, now);
}

proof fn lemma_step(whole: bool, from: Moment, answer: Answer, to: Moment)
    requires
        filed_by_id(from.state),
        asks_to_queue(from),
        step_proceeds(whole, from, answer, to),
    ensures
        from.progress is Ask,
        answer.reply is Failed ==> to.progress is Failed && to.state == from.state && to.tables
            == from.tables,
        !(answer.reply is Failed) ==> goes_on_to(
            whole,
            once_queued(from.state, asked_for(from)),
            to,
        ) && filed_by_id(once_queued(from.state, asked_for(from))) && to.tables == if has_id(
            from.tables.pending,
            asked_for(from).tab_id,
        ) {
            from.tables
        } else {
            Tables { pending: from.tables.pending.push(asked_for(from)), ..from.tables }
        },
        filed_by_id(to.state),
{
    if !(answer.reply is Failed) {
        let tab = asked_for(from);
        let next = once_queued(from.state, tab);
        match from.progress->job {
            JobView::WatchLater { order, at } => {
                assert(next == put_off(from.state, order[at]));
                if whole {
                    lemma_sweep_goes_on_to(next, order, at + 1, answer.now, answer.utc, to);
                } else {
                    lemma_putting_off_goes_on(next, order, at + 1, answer.now, answer.utc, to);
                }
            },
            JobView::RabbitHole { queue, at } => {
                assert(next == put_aside(from.state, queue[at]));
                lemma_queueing_goes_on(whole, next, queue, at + 1, answer.utc, to);
            },
            _ => {},
        }
    }
}

/// The store was asked, before moment `n`, to queue the tab with this id, and did
/// not fail.
pub open spec fn insert_answered(
    moments: Seq<Moment>,
    answers: Seq<Answer>,
    n: int,
    id: i64,
) -> bool {
    exists|i: int|
        0 <= i < n && !((#[trigger] answers[i]).reply is Failed) && (
        moments[i].progress matches ProgressView::Ask { request, .. } && (
        request matches StoreRequest::InsertPending(tab) && tab.tab_id == id))
}

/// By moment `n` the sweep, or the step of it, that began at `s` has changed nothing
/// but statuses: an active tab waits if its own insert was answered, and every other
/// tab is as it was. The closed tabs are forgotten once a whole sweep is finished,
/// and at no other time.
pub open spec fn only_statuses_changed(
    whole: bool,
    s: TrackerState,
    moments: Seq<Moment>,
    answers: Seq<Answer>,
    n: int,
) -> bool {
    let now = moments[n].state;
    &&& now.config == s.config
    &&& forall|id: i64| #[trigger]
        now.tabs.contains_key(id) <==> s.tabs.contains_key(id) && !(whole
            && moments[n].progress is Finished && s.tabs[id].status is Closed)
    &&& forall|id: i64| #[trigger]
        now.tabs.contains_key(id) ==> now.tabs[id] == s.tabs[id] || (s.is_active(id)
            && now.tabs[id].status is Pending && now.tabs[id] == s.tabs[id].with_status(
            now.tabs[id].status,
        ) && insert_answered(moments, answers, n, id))
}

/// The rows that were in the queue stand there as they were, and the archive is as
/// it was.
pub open spec fn rows_stay(before: Tables, after: Tables) -> bool {
    &&& before.pending.len() <= after.pending.len()
    &&& after.pending.take(before.pending.len() as int) == before.pending
    &&& after.archived == before.archived
}

/// A moment of a sweep, or of a step of it, that began at `s`.
spec fn stands(
    whole: bool,
    s: TrackerState,
    moments: Seq<Moment>,
    answers: Seq<Answer>,
    n: int,
) -> bool {
    &&& filed_by_id(moments[n].state)
    &&& asks_to_queue(moments[n])
    &&& only_statuses_changed(whole, s, moments, answers, n)
    &&& rows_stay(moments[0].tables, moments[n].tables)
    &&& moments[n].progress is Failed <==> n > 0 && answers[n - 1].reply is Failed
}

proof fn lemma_starts(whole: bool, s: TrackerState, moments: Seq<Moment>, answers: Seq<Answer>)
    requires
        moments.len() > 0,
        filed_by_id(s),
        goes_on_to(whole, s, moments[0]),
    ensures
        stands(whole, s, moments, answers, 0),
{
    let t = moments[0].tables;
    assert(t.pending.take(t.pending.len() as int) =~= t.pending);
}

proof fn lemma_stands(
    whole: bool,
    s: TrackerState,
    moments: Seq<Moment>,
    answers: Seq<Answer>,
    n: int,
)
    requires
        step_run(whole, moments, answers),
        0 <= n < moments.len(),
        stands(whole, s, moments, answers, 0),
    ensures
        stands(whole, s, moments, answers, n),
    decreases n,
{
    if n > 0 {
        let k = n - 1;
        lemma_stands(whole, s, moments, answers, k);
        let from = moments[k];
        let answer = answers[k];
        let to = moments[n];
        assert(step_proceeds(whole, moments[k], answers[k], moments[k + 1]));
        lemma_step(whole, from, answer, to);
        let start = moments[0].tables;
        if answer.reply is Failed {
            assert forall|id: i64| #[trigger] to.state.tabs.contains_key(id) implies to.state.tabs[id]
                == s.tabs[id] || (s.is_active(id) && to.state.tabs[id].status is Pending
                && to.state.tabs[id] == s.tabs[id].with_status(to.state.tabs[id].status)
                && insert_answered(moments, answers, n, id)) by {
                assert(from.state.tabs.contains_key(id));
                lemma_answered_later(moments, answers, k, id);
            }
        } else {
            let tab = asked_for(from);
            let next = once_queued(from.state, tab);
            assert(insert_answered(moments, answers, n, tab.tab_id)) by {
                assert(!(answers[k].reply is Failed));
            }
            assert forall|id: i64| #[trigger]
                to.state.tabs.contains_key(id) <==> s.tabs.contains_key(id) && !(whole
                    && to.progress is Finished && s.tabs[id].status is Closed) by {
                assert(from.state.tabs.contains_key(id) <==> s.tabs.contains_key(id));
                assert(next.tabs.contains_key(id) <==> from.state.tabs.contains_key(id));
            }
            assert forall|id: i64| #[trigger] to.state.tabs.contains_key(id) implies to.state.tabs[id]
                == s.tabs[id] || (s.is_active(id) && to.state.tabs[id].status is Pending
                && to.state.tabs[id] == s.tabs[id].with_status(to.state.tabs[id].status)
                && insert_answered(moments, answers, n, id)) by {
                assert(from.state.tabs.contains_key(id));
                lemma_answered_later(moments, answers, k, id);
            }
            let rows = from.tables.pending;
            assert(rows.push(tab).take(start.pending.len() as int) =~= rows.take(
                start.pending.len() as int,
            ));
        }
    }
}

proof fn lemma_answered_later(moments: Seq<Moment>, answers: Seq<Answer>, n: int, id: i64)
    ensures
        insert_answered(moments, answers, n, id) ==> insert_answered(moments, answers, n + 1, id),
{
    if insert_answered(moments, answers, n, id) {
        let i = choose|i: int|
            0 <= i < n && !((#[trigger] answers[i]).reply is Failed) && (
            moments[i].progress matches ProgressView::Ask { request, .. } && (
            request matches StoreRequest::InsertPending(tab) && tab.tab_id == id));
        assert(!(answers[i].reply is Failed));
    }
}

/// At every moment of a sweep, whether or not the store fails: no tab was added,
/// none was removed but for the closed ones at a finished end, nothing of a tab but
/// its status has changed, only active tabs have changed, and each of them waits
/// only after its own insert was answered. The rows that were in the queue stand
/// there as they were, and so does the archive. The sweep fails exactly when the
/// store does, and is then over.
pub proof fn law_a_sweep_changes_only_statuses(
    s: TrackerState,
    order: Seq<i64>,
    now: u64,
    utc: UtcTime,
    moments: Seq<Moment>,
    answers: Seq<Answer>,
    n: int,
)
    requires
        filed_by_id(s),
        sweeps_to(s, order, 0, now, utc, (moments[0].state, moments[0].progress)),
        run(moments, answers),
        0 <= n < moments.len(),
    ensures
        only_statuses_changed(true, s, moments, answers, n),
        rows_stay(moments[0].tables, moments[n].tables),
        moments[n].progress is Failed <==> n > 0 && answers[n - 1].reply is Failed,
        moments[n].progress is Failed ==> n == answers.len(),
        moments[n].progress is Finished ==> moments[n].progress == ProgressView::nothing(),
{
    lemma_sweep_goes_on_to(s, order, 0, now, utc, moments[0]);
    lemma_whole_run(moments, answers);
    lemma_starts(true, s, moments, answers);
    lemma_stands(true, s, moments, answers, n);
    if moments[n].progress is Failed && n < answers.len() {
        assert(proceeds(moments[n], answers[n], moments[n + 1]));
    }
}

proof fn lemma_step_changes_only_statuses(
    s: TrackerState,
    moments: Seq<Moment>,
    answers: Seq<Answer>,
    n: int,
)
    requires
        filed_by_id(s),
        goes_on_to(false, s, moments[0]),
        step_run(false, moments, answers),
        0 <= n < moments.len(),
    ensures
        moments[n].state.tabs.dom() == s.tabs.dom(),
        only_statuses_changed(false, s, moments, answers, n),
        rows_stay(moments[0].tables, moments[n].tables),
        moments[n].progress is Failed <==> n > 0 && answers[n - 1].reply is Failed,
        moments[n].progress is Failed ==> n == answers.len(),
        moments[n].progress is Finished ==> moments[n].progress == ProgressView::nothing(),
{
    lemma_starts(false, s, moments, answers);
    lemma_stands(false, s, moments, answers, n);
    assert(moments[n].state.tabs.dom() =~= s.tabs.dom()) by {
        assert forall|id: i64|
            moments[n].state.tabs.dom().contains(id) <==> s.tabs.dom().contains(id) by {
            assert(moments[n].state.tabs.contains_key(id) <==> s.tabs.contains_key(id));
        }
    }
    if moments[n].progress is Failed && n < answers.len() {
        assert(step_proceeds(false, moments[n], answers[n], moments[n + 1]));
    }
}

/// At every moment of the looking for watch-later candidates, taken by itself,
/// whether or not the store fails: no tab was added and none was removed, nothing of
/// a tab but its status has changed, only active tabs have changed, and each of them
/// waits only after its own insert was answered. The rows that were in the queue
/// stand there as they were, and so does the archive. It fails exactly when the
/// store does, and is then over.
pub proof fn law_putting_off_changes_only_statuses(
    s: TrackerState,
    order: Seq<i64>,
    now: u64,
    utc: UtcTime,
    moments: Seq<Moment>,
    answers: Seq<Answer>,
    n: int,
)
    requires
        filed_by_id(s),
        moments[0].state == s,
        moments[0].progress == putting_off(s, order, 0, now, utc),
        step_run(false, moments, answers),
        0 <= n < moments.len(),
    ensures
        moments[n].state.tabs.dom() == s.tabs.dom(),
        only_statuses_changed(false, s, moments, answers, n),
        rows_stay(moments[0].tables, moments[n].tables),
        moments[n].progress is Failed <==> n > 0 && answers[n - 1].reply is Failed,
        moments[n].progress is Failed ==> n == answers.len(),
        moments[n].progress is Finished ==> moments[n].progress == ProgressView::nothing(),
{
    lemma_putting_off_goes_on(s, order, 0, now, utc, moments[0]);
    lemma_step_changes_only_statuses(s, moments, answers, n);
}

/// The same of the queueing of clusters, taken by itself.
pub proof fn law_queueing_clusters_changes_only_statuses(
    s: TrackerState,
    queue: Seq<Queued>,
    utc: UtcTime,
    moments: Seq<Moment>,
    answers: Seq<Answer>,
    n: int,
)
    requires
        filed_by_id(s),
        moments[0].state == s,
        moments[0].progress == queueing(s, queue, 0, utc),
        step_run(false, moments, answers),
        0 <= n < moments.len(),
    ensures
        moments[n].state.tabs.dom() == s.tabs.dom(),
        only_statuses_changed(false, s, moments, answers, n),
        rows_stay(moments[0].tables, moments[n].tables),
        moments[n].progress is Failed <==> n > 0 && answers[n - 1].reply is Failed,
        moments[n].progress is Failed ==> n == answers.len(),
        moments[n].progress is Finished ==> moments[n].progress == ProgressView::nothing(),
{
    lemma_queueing_goes_on(false, s, queue, 0, utc, moments[0]);
    lemma_step_changes_only_statuses(s, moments, answers, n);
}

/// One of the rows is that of the tab, with this reason and this cluster.
pub open spec fn has_row(
    rows: Seq<PendingTab>,
    id: i64,
    reason: ArchivalReason,
    cluster_id: Option<String>,
) -> bool {
    exists|k: int|
        0 <= k < rows.len() && (#[trigger] rows[k]).tab_id == id && rows[k].reason == reason
            && rows[k].cluster_id == cluster_id
}

/// No active tab has a row in the queue.
pub open spec fn active_tabs_have_no_rows(s: TrackerState, t: Tables) -> bool {
    forall|id: i64| #[trigger] s.is_active(id) ==> !has_id(t.pending, id)
}

/// Every tab that was active at `s` and waits now has a row of the same reason and
/// the same cluster.
spec fn moved_tabs_have_rows(s: TrackerState, m: Moment) -> bool {
    forall|id: i64| #[trigger]
        m.state.tabs.contains_key(id) && s.is_active(id) ==> (
        m.state.tabs[id].status matches TabStatus::Pending { reason, cluster_id } ==> has_row(
            m.tables.pending,
            id,
            reason,
            cluster_id,
        ))
}

proof fn lemma_has_row_push(rows: Seq<PendingTab>, tab: PendingTab)
    ensures
        has_row(rows.push(tab), tab.tab_id, tab.reason, tab.cluster_id),
        forall|id: i64, reason: ArchivalReason, cluster_id: Option<String>|
            has_row(rows, id, reason, cluster_id) ==> #[trigger] has_row(
                rows.push(tab),
                id,
                reason,
                cluster_id,
            ),
{
    let more = rows.push(tab);
    assert(more[rows.len() as int] == tab);
    assert forall|id: i64, reason: ArchivalReason, cluster_id: Option<String>|
        has_row(rows, id, reason, cluster_id) implies #[trigger] has_row(
        more,
        id,
        reason,
        cluster_id,
    ) by {
        let k = choose|k: int|
            0 <= k < rows.len() && (#[trigger] rows[k]).tab_id == id && rows[k].reason == reason
                && rows[k].cluster_id == cluster_id;
        assert(more[k] == rows[k]);
    }
}

proof fn lemma_rows(
    whole: bool,
    s: TrackerState,
    moments: Seq<Moment>,
    answers: Seq<Answer>,
    n: int,
)
    requires
        step_run(whole, moments, answers),
        0 <= n < moments.len(),
        stands(whole, s, moments, answers, 0),
        active_tabs_have_no_rows(s, moments[0].tables),
    ensures
        active_tabs_have_no_rows(moments[n].state, moments[n].tables),
        moved_tabs_have_rows(s, moments[n]),
    decreases n,
{
    if n == 0 {
        assert forall|id: i64| #[trigger] moments[0].state.is_active(id) implies !has_id(
            moments[0].tables.pending,
            id,
        ) by {
            assert(moments[0].state.tabs.contains_key(id));
            assert(!insert_answered(moments, answers, 0, id));
            assert(s.is_active(id));
        }
        assert forall|id: i64| #[trigger]
            moments[0].state.tabs.contains_key(id) && s.is_active(id) implies (
        moments[0].state.tabs[id].status matches TabStatus::Pending { reason, cluster_id }
            ==> has_row(moments[0].tables.pending, id, reason, cluster_id)) by {
            assert(!insert_answered(moments, answers, 0, id));
        }
    } else {
        let k = n - 1;
        lemma_rows(whole, s, moments, answers, k);
        lemma_stands(whole, s, moments, answers, k);
        let from = moments[k];
        let answer = answers[k];
        let to = moments[n];
        assert(step_proceeds(whole, moments[k], answers[k], moments[k + 1]));
        lemma_step(whole, from, answer, to);
        if !(answer.reply is Failed) {
            let tab = asked_for(from);
            let next = once_queued(from.state, tab);
            assert(from.state.is_active(tab.tab_id));
            lemma_has_id_push(from.tables.pending, tab);
            lemma_has_row_push(from.tables.pending, tab);
            assert forall|id: i64| #[trigger] to.state.is_active(id) implies !has_id(
                to.tables.pending,
                id,
            ) by {
                assert(id != tab.tab_id);
                assert(from.state.is_active(id));
                assert(has_id(from.tables.pending.push(tab), id) <==> has_id(
                    from.tables.pending,
                    id,
                ) || tab.tab_id == id);
            }
            assert forall|id: i64| #[trigger]
                to.state.tabs.contains_key(id) && s.is_active(id) implies (
            to.state.tabs[id].status matches TabStatus::Pending { reason, cluster_id } ==> has_row(
                to.tables.pending,
                id,
                reason,
                cluster_id,
            )) by {
                assert(from.state.tabs.contains_key(id));
                if let TabStatus::Pending { reason, cluster_id } = to.state.tabs[id].status {
                    if id != tab.tab_id {
                        assert(has_row(from.tables.pending, id, reason, cluster_id));
                    }
                    assert(has_row(from.tables.pending.push(tab), id, reason, cluster_id));
                }
            }
        } else {
            assert forall|id: i64| #[trigger] to.state.is_active(id) implies !has_id(
                to.tables.pending,
                id,
            ) by {
                assert(from.state.is_active(id));
            }
            assert forall|id: i64| #[trigger]
                to.state.tabs.contains_key(id) && s.is_active(id) implies (
            to.state.tabs[id].status matches TabStatus::Pending { reason, cluster_id } ==> has_row(
                to.tables.pending,
                id,
                reason,
                cluster_id,
            )) by {
                assert(from.state.tabs.contains_key(id));
            }
        }
    }
}

/// The tab was moved as part of a cluster: it was active and had gone without focus
/// for the whole threshold, and now it waits under the cluster's id and has a row
/// with that id.
pub open spec fn moved_with(
    s: TrackerState,
    now: u64,
    end: Moment,
    id: i64,
    cluster_id: String,
) -> bool {
    &&& s.is_active(id)
    &&& is_stale(
        s.tabs[id].member(id),
        now,
        s.config.rabbit_hole.no_focus_threshold_minutes * 60,
    )
    &&& end.state.tabs.contains_key(id)
    &&& end.state.tabs[id] == s.tabs[id].with_status(
        TabStatus::Pending { reason: ArchivalReason::RabbitHole, cluster_id: Some(cluster_id) },
    )
    &&& has_row(end.tables.pending, id, ArchivalReason::RabbitHole, Some(cluster_id))
}

/// The tabs are different ones, at least two and at least as many as a cluster has
/// to have, and all of them were moved under the same id.
pub open spec fn moved_together(
    s: TrackerState,
    now: u64,
    end: Moment,
    tabs: Seq<i64>,
    cluster_id: String,
) -> bool {
    &&& tabs.no_duplicates()
    &&& tabs.len() >= 2
    &&& tabs.len() >= s.config.rabbit_hole.min_cluster_size
    &&& forall|k: int|
        0 <= k < tabs.len() ==> moved_with(s, now, end, #[trigger] tabs[k], cluster_id)
}

/// The queueing of clusters, as the last step of a whole sweep and by itself, without
/// a failure of the store: every tab whose status it changes is moved together with
/// the other tabs of a cluster, under one id.
pub proof fn law_clusters_are_moved_together(
    whole: bool,
    s: TrackerState,
    order: Seq<i64>,
    now: u64,
    utc: UtcTime,
    ids: Seq<String>,
    moments: Seq<Moment>,
    answers: Seq<Answer>,
    id: i64,
)
    requires
        filed_by_id(s),
        order.no_duplicates(),
        active_tabs_have_no_rows(s, moments[0].tables),
        ids.len() == abandoned(s.members(order), now, s.config.rabbit_hole).len(),
        (moments[0].state, moments[0].progress) == step_leaves(
            whole,
            s,
            queueing(
                s,
                queued(abandoned(s.members(order), now, s.config.rabbit_hole), ids),
                0,
                utc,
            ),
        ),
        step_run(whole, moments, answers),
        all_answered(answers),
        !(moments.last().progress is Ask),
        moments.last().state.tabs.contains_key(id),
        moments.last().state.tabs[id].status != s.tabs[id].status,
    ensures
        exists|tabs: Seq<i64>, c: int|
            0 <= c < ids.len() && tabs.contains(id) && #[trigger] moved_together(
                s,
                now,
                moments.last(),
                tabs,
                ids[c],
            ),
{
    let active = s.members(order);
    let clusters = abandoned(active, now, s.config.rabbit_hole);
    let queue = queued(clusters, ids);
    let end = moments.last();
    lemma_queueing_goes_on(whole, s, queue, 0, utc, moments[0]);
    lemma_starts(whole, s, moments, answers);
    lemma_stands(whole, s, moments, answers, answers.len() as int);
    lemma_rows(whole, s, moments, answers, answers.len() as int);
    assert(s.is_active(id));
    let c = lemma_moved_tab_is_in_a_cluster(whole, s, order, now, utc, ids, moments, answers, id);
    lemma_members_distinct(s, order);
    law_abandoned_clusters_hold_no_tab_twice(active, now, s.config.rabbit_hole);
    law_abandoned_clusters_are_large_stale_and_disjoint(active, now, s.config.rabbit_hole);
    let tabs = clusters[c];
    assert forall|k: int| 0 <= k < tabs.len() implies moved_with(
        s,
        now,
        end,
        #[trigger] tabs[k],
        ids[c],
    ) by {
        let x = tabs[k];
        assert(clusters[c].contains(x));
        law_abandoned_clusters_are_queued(whole, s, order, now, utc, ids, moments, answers, c, x);
        let i = choose|i: int|
            0 <= i < active.len() && (#[trigger] active[i]).id == clusters[c][k] && is_stale(
                active[i],
                now,
                s.config.rabbit_hole.no_focus_threshold_minutes * 60,
            );
        lemma_members_are_active(s, order, i);
        assert(end.state.tabs.contains_key(x) && s.is_active(x));
    }
    assert(moved_together(s, now, end, tabs, ids[c]));
}

proof fn lemma_moved_tab_is_in_a_cluster(
    whole: bool,
    s: TrackerState,
    order: Seq<i64>,
    now: u64,
    utc: UtcTime,
    ids: Seq<String>,
    moments: Seq<Moment>,
    answers: Seq<Answer>,
    id: i64,
) -> (c: int)
    requires
        ids.len() == abandoned(s.members(order), now, s.config.rabbit_hole).len(),
        (moments[0].state, moments[0].progress) == step_leaves(
            whole,
            s,
            queueing(
                s,
                queued(abandoned(s.members(order), now, s.config.rabbit_hole), ids),
                0,
                utc,
            ),
        ),
        step_run(whole, moments, answers),
        all_answered(answers),
        !(moments.last().progress is Ask),
        s.is_active(id),
        moments.last().state.tabs.contains_key(id),
        moments.last().state.tabs[id].status != s.tabs[id].status,
    ensures
        0 <= c < ids.len(),
        abandoned(s.members(order), now, s.config.rabbit_hole)[c].contains(id),
{
    let clusters = abandoned(s.members(order), now, s.config.rabbit_hole);
    let queue = queued(clusters, ids);
    law_sweep_queues_the_clusters(whole, s, queue, utc, moments, answers);
    law_queue_holds_the_clusters(clusters, ids);
    if forall|k: int| 0 <= k < queue.len() ==> (#[trigger] queue[k]).tab_id != id {
        lemma_queued_status(s, queue, id, ids[0]);
        assert(queued_state(s, queue).tabs[id] == s.tabs[id]);
    }
    let k = choose|k: int| 0 <= k < queue.len() && (#[trigger] queue[k]).tab_id == id;
    assert(queued_for(clusters, ids, queue[k]));
    choose|c: int|
        0 <= c < clusters.len() && #[trigger] clusters[c].contains(queue[k].tab_id)
            && queue[k].cluster_id == ids[c]
}

/// The clock showed this when the sweep began, or at one of the store's answers.
pub open spec fn clock_showed(since: u64, answers: Seq<Answer>, now: u64) -> bool {
    now == since || exists|i: int| 0 <= i < answers.len() && (#[trigger] answers[i]).now == now
}

/// The tab is as it was, or was active and waits to be watched later.
spec fn put_off_or_same(s: TrackerState, later: TrackerState, id: i64) -> bool {
    &&& later.tabs.contains_key(id) == s.tabs.contains_key(id)
    &&& later.tabs[id] == s.tabs[id] || (s.is_active(id) && later.tabs[id]
        == s.tabs[id].with_status(
        TabStatus::Pending { reason: ArchivalReason::WatchLater, cluster_id: None },
    ))
}

proof fn lemma_clusters_come_last(
    s: TrackerState,
    order: Seq<i64>,
    since: u64,
    moments: Seq<Moment>,
    answers: Seq<Answer>,
    state: TrackerState,
    from: int,
    now: u64,
    utc: UtcTime,
    k: int,
) -> (r: (int, TrackerState, u64, UtcTime, Seq<String>))
    requires
        filed_by_id(state),
        state.config == s.config,
        forall|id: i64| #[trigger] put_off_or_same(s, state, id),
        clock_showed(since, answers, now),
        0 <= from <= order.len(),
        0 <= k < moments.len(),
        sweeps_to(state, order, from, now, utc, (moments[k].state, moments[k].progress)),
        run(moments, answers),
        all_answered(answers),
        !(moments.last().progress is Ask),
    ensures
        ({
            let (j, st, at, cal, ids) = r;
            let clusters = abandoned(st.members(order), at, st.config.rabbit_hole);
            &&& 0 <= j < moments.len()
            &&& filed_by_id(st)
            &&& st.config == s.config
            &&& forall|id: i64| #[trigger] put_off_or_same(s, st, id)
            &&& clock_showed(since, answers, at)
            &&& ids.len() == clusters.len()
            &&& (moments[j].state, moments[j].progress) == swept(
                st,
                queueing(st, queued(clusters, ids), 0, cal),
            )
        }),
    decreases answers.len() - k,
{
    lemma_next_put_off(state, order, from, now);
    let at = state.next_put_off(order, from, now);
    if at < order.len() {
        assert(k < answers.len());
        let answer = answers[k];
        assert(proceeds(moments[k], answers[k], moments[k + 1]));
        let next = put_off(state, order[at]);
        assert forall|id: i64| #[trigger] put_off_or_same(s, next, id) by {
            assert(put_off_or_same(s, state, id));
        }
        lemma_clusters_come_last(
            s,
            order,
            since,
            moments,
            answers,
            next,
            at + 1,
            answer.now,
            answer.utc,
            k + 1,
        )
    } else {
        let clusters = abandoned(state.members(order), now, state.config.rabbit_hole);
        let ids = choose|ids: Seq<String>|
            ids.len() == clusters.len() && (forall|i: int|
                0 <= i < ids.len() ==> is_random_uuid(#[trigger] ids[i]@)) && (
            moments[k].state,
            moments[k].progress,
        ) == swept(state, #[trigger] queueing(state, queued(clusters, ids), 0, utc));
        assert((moments[k].state, moments[k].progress) == swept(
            state,
            queueing(state, queued(clusters, ids), 0, utc),
        ));
        (k, state, now, utc, ids)
    }
}

/// After a sweep during which the store does not fail, every tab that it moved as
/// part of a cluster has a row with the same cluster id, and shares that id with at
/// least as many different tabs as a cluster has to have, itself counted and never
/// fewer than two. All of them were active when the sweep began, were moved by it,
/// have a row with that id, and had gone without focus for the whole threshold.
pub proof fn law_a_sweep_moves_clusters_together(
    s: TrackerState,
    order: Seq<i64>,
    since: u64,
    utc: UtcTime,
    moments: Seq<Moment>,
    answers: Seq<Answer>,
    id: i64,
)
    requires
        filed_by_id(s),
        order.no_duplicates(),
        active_tabs_have_no_rows(s, moments[0].tables),
        sweeps_to(s, order, 0, since, utc, (moments[0].state, moments[0].progress)),
        run(moments, answers),
        all_answered(answers),
        !(moments.last().progress is Ask),
        moments.last().state.tabs.contains_key(id),
        moments.last().state.tabs[id].status != s.tabs[id].status,
        moments.last().state.tabs[id].status matches TabStatus::Pending { reason, .. }
            && reason is RabbitHole,
    ensures
        exists|tabs: Seq<i64>, now: u64, cluster_id: String|
            clock_showed(since, answers, now) && tabs.contains(id) && #[trigger] moved_together(
                s,
                now,
                moments.last(),
                tabs,
                cluster_id,
            ),
{
    let end = moments.last();
    let last = answers.len() as int;
    lemma_sweep_goes_on_to(s, order, 0, since, utc, moments[0]);
    lemma_whole_run(moments, answers);
    lemma_starts(true, s, moments, answers);
    lemma_stands(true, s, moments, answers, last);
    lemma_rows(true, s, moments, answers, last);
    let (j, st, now, cal, ids) = lemma_clusters_come_last(
        s,
        order,
        since,
        moments,
        answers,
        s,
        0,
        since,
        utc,
        0,
    );
    let clusters = abandoned(st.members(order), now, st.config.rabbit_hole);
    let later = moments.skip(j);
    let replies = answers.skip(j);
    assert(step_run(true, later, replies)) by {
        assert forall|i: int| 0 <= i < replies.len() implies step_proceeds(
            true,
            later[i],
            #[trigger] replies[i],
            later[i + 1],
        ) by {
            assert(proceeds(moments[j + i], answers[j + i], moments[j + i + 1]));
        }
    }
    assert(all_answered(replies)) by {
        assert forall|i: int| 0 <= i < replies.len() implies !(
        (#[trigger] replies[i]).reply is Failed) by {
            assert(replies[i] == answers[j + i]);
        }
    }
    assert(later.last() == end);
    lemma_queueing_goes_on(true, st, queued(clusters, ids), 0, cal, moments[j]);
    lemma_stands(true, s, moments, answers, j);
    lemma_rows(true, s, moments, answers, j);
    assert(active_tabs_have_no_rows(st, later[0].tables)) by {
        assert forall|x: i64| #[trigger] st.is_active(x) implies !has_id(
            later[0].tables.pending,
            x,
        ) by {
            assert(moments[j].state.is_active(x));
        }
    }
    assert(put_off_or_same(s, st, id));
    lemma_queueing_goes_on(true, st, queued(clusters, ids), 0, cal, later[0]);
    lemma_starts(true, st, later, replies);
    lemma_stands(true, st, later, replies, replies.len() as int);
    assert(end.state.tabs[id].status != st.tabs[id].status);
    law_clusters_are_moved_together(true, st, order, now, cal, ids, later, replies, id);
    let (tabs, c) = choose|tabs: Seq<i64>, c: int|
        0 <= c < ids.len() && tabs.contains(id) && #[trigger] moved_together(
            st,
            now,
            later.last(),
            tabs,
            ids[c],
        );
    assert forall|k: int| 0 <= k < tabs.len() implies moved_with(
        s,
        now,
        end,
        #[trigger] tabs[k],
        ids[c],
    ) by {
        assert(moved_with(st, now, end, tabs[k], ids[c]));
        assert(put_off_or_same(s, st, tabs[k]));
    }
    assert(moved_together(s, now, end, tabs, ids[c]));
}

}

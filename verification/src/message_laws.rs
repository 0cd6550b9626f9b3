//! What each message, each answer of the store and each step of a sweep does to a
//! tab, field by field.

use vstd::prelude::*;
use crate::clock::UtcTime;
use crate::clusters::{abandoned, nested};
use crate::config::WatchLaterConfig;
use crate::idle_laws::passed;
use crate::messages::{DaemonCommand, ExtensionMessage};
use crate::tab_store::{ArchivalReason, ArchivedTab, PendingTab, StoreReply, StoreRequest};
use crate::tab_tracker::{
    after_message, flushing, is_random_uuid, put_off, putting_off, queue_clusters, queued, queueing,
    rabbit_holes_resumed, resumes_to, sweeps_to, swept, watch_later_resumed, JobView, ProgressView,
    Queued, TabInfo, TabStatus, TrackerState,
};
use crate::text::{occurs_in, views};
use crate::text_laws::law_a_text_holds_what_it_is_made_of;
use crate::tracker_laws::{
    all_answered, archive_grew, archived_at_once, commands_for, ids_differ,
    law_flush_puts_every_queued_tab_away, law_flushed_tab_awaits_content_or_is_gone,
    lemma_next_put_off, lemma_next_queued, run, Answer, Moment,
};

verus! {

/// The address is made of something, one of the video domains, and something.
pub open spec fn names_a_domain(domains: Seq<String>, url: Seq<char>) -> bool {
    exists|i: int, a: Seq<char>, b: Seq<char>|
        0 <= i < domains.len() && url == #[trigger] ((a + domains[i]@) + b)
}

/// An address is that of a video exactly if one of the configured domains, whichever
/// it is, stands in it.
pub proof fn law_what_is_a_video(s: TrackerState, url: Seq<char>)
    ensures
        s.is_video(url) <==> names_a_domain(s.config.watch_later.video_domains@, url),
{
    let domains = s.config.watch_later.video_domains@;
    if s.is_video(url) {
        let i = choose|i: int|
            0 <= i < domains.len() && occurs_in(url, #[trigger] domains[i]@);
        law_a_text_holds_what_it_is_made_of(url, domains[i]@);
        let p = domains[i]@;
        let (a, b) = choose|a: Seq<char>, b: Seq<char>| url == #[trigger] ((a + p) + b);
        assert(url == (a + domains[i]@) + b);
    }
    if names_a_domain(domains, url) {
        let (i, a, b) = choose|i: int, a: Seq<char>, b: Seq<char>|
            0 <= i < domains.len() && url == #[trigger] ((a + domains[i]@) + b);
        law_a_text_holds_what_it_is_made_of(url, domains[i]@);
        assert(occurs_in(url, domains[i]@));
    }
}

/// By default the addresses that hold one of three domains are those of videos, and a
/// video may go unwatched for twenty seconds.
pub proof fn law_videos_by_default(config: WatchLaterConfig, s: TrackerState, url: Seq<char>)
    requires
        config.is_default(),
        s.config.watch_later == config,
    ensures
        s.is_video(url) <==> occurs_in(url, "youtube.com"@) || occurs_in(url, "twitch.tv"@)
            || occurs_in(url, "vimeo.com"@),
        config.grace_period_seconds == 20,
{
    let domains = config.video_domains@;
    assert(views(domains).len() == 3);
    assert(views(domains)[0] == domains[0]@);
    assert(views(domains)[1] == domains[1]@);
    assert(views(domains)[2] == domains[2]@);
    if s.is_video(url) {
        let i = choose|i: int|
            0 <= i < domains.len() && occurs_in(url, #[trigger] domains[i]@);
        assert(i == 0 || i == 1 || i == 2);
    }
}

/// Every tab but this one is as it was, and so are the settings.
pub open spec fn others_stay(s: TrackerState, later: TrackerState, tab_id: i64) -> bool {
    &&& later.config == s.config
    &&& forall|id: i64|
        id != tab_id ==> #[trigger] later.tabs.contains_key(id) == s.tabs.contains_key(id)
            && later.tabs[id] == s.tabs[id]
}

/// A tab that is created is known from then on: active, never focused, created when
/// the clocks showed these times, a video if its address is one. No other tab changes,
/// and nothing is to be done.
pub proof fn law_a_created_tab(
    s: TrackerState,
    tab_id: i64,
    url: String,
    title: Option<String>,
    opener_tab_id: Option<i64>,
    created_at: i64,
    now: u64,
    utc: UtcTime,
)
    ensures
        ({
            let msg = ExtensionMessage::TabCreated {
                tab_id,
                url,
                title,
                opener_tab_id,
                created_at,
            };
            let (later, p) = after_message(s, msg, now, utc);
            let tab = later.tabs[tab_id];
            &&& later.tabs.contains_key(tab_id)
            &&& tab.tab_id == tab_id
            &&& tab.url == url
            &&& tab.title == title
            &&& tab.opener_tab_id == opener_tab_id
            &&& tab.created_at == now
            &&& tab.created_at_utc == utc
            &&& tab.last_focused_at is None
            &&& tab.is_video <==> names_a_domain(s.config.watch_later.video_domains@, url@)
            &&& tab.status is Active
            &&& others_stay(s, later, tab_id)
            &&& p == ProgressView::nothing()
        }),
{
    law_what_is_a_video(s, url@);
}

/// A tab that is focused was focused just now, and nothing else of it changes. Where
/// it waits in the queue, its row is to leave the queue. No other tab changes.
pub proof fn law_a_focused_tab(s: TrackerState, tab_id: i64, now: u64, utc: UtcTime)
    ensures
        ({
            let (later, p) = after_message(s, ExtensionMessage::TabActivated { tab_id }, now, utc);
            let (was, tab) = (s.tabs[tab_id], later.tabs[tab_id]);
            &&& later.tabs.contains_key(tab_id) == s.tabs.contains_key(tab_id)
            &&& s.tabs.contains_key(tab_id) ==> {
                &&& tab.last_focused_at == Some(now)
                &&& tab.tab_id == was.tab_id
                &&& tab.url == was.url
                &&& tab.title == was.title
                &&& tab.opener_tab_id == was.opener_tab_id
                &&& tab.created_at == was.created_at
                &&& tab.created_at_utc == was.created_at_utc
                &&& tab.is_video == was.is_video
                &&& tab.status == was.status
            }
            &&& others_stay(s, later, tab_id)
            &&& s.tabs.contains_key(tab_id) && was.status is Pending ==> p == (ProgressView::Ask {
                request: StoreRequest::RemovePending(tab_id),
                job: JobView::Rescue { tab_id },
            })
            &&& !(s.tabs.contains_key(tab_id) && was.status is Pending) ==> p
                == ProgressView::nothing()
        }),
{
}

/// A change of address or title changes the address, whether it is that of a video, and
/// the title, as far as they are given, and nothing else: when the tab was created and
/// focused, who opened it and its status stay as they were. No other tab changes, and
/// nothing is to be done.
pub proof fn law_an_updated_tab(
    s: TrackerState,
    tab_id: i64,
    url: Option<String>,
    title: Option<String>,
    status: Option<String>,
    now: u64,
    utc: UtcTime,
)
    ensures
        ({
            let msg = ExtensionMessage::TabUpdated { tab_id, url, title, status };
            let (later, p) = after_message(s, msg, now, utc);
            let (was, tab) = (s.tabs[tab_id], later.tabs[tab_id]);
            &&& later.tabs.contains_key(tab_id) == s.tabs.contains_key(tab_id)
            &&& s.tabs.contains_key(tab_id) ==> {
                &&& tab.tab_id == was.tab_id
                &&& tab.opener_tab_id == was.opener_tab_id
                &&& tab.created_at == was.created_at
                &&& tab.created_at_utc == was.created_at_utc
                &&& tab.last_focused_at == was.last_focused_at
                &&& tab.status == was.status
                &&& url is None ==> tab.url == was.url && tab.is_video == was.is_video
                &&& url is Some ==> tab.url == url->0 && (tab.is_video <==> names_a_domain(
                    s.config.watch_later.video_domains@,
                    url->0@,
                ))
                &&& title is None ==> tab.title == was.title
                &&& title is Some ==> tab.title == title
            }
            &&& others_stay(s, later, tab_id)
            &&& p == ProgressView::nothing()
        }),
{
    if url is Some {
        law_what_is_a_video(s, url->0@);
    }
}

/// A tab that is removed is to leave the queue, and is forgotten once it has.
pub proof fn law_a_removed_tab(
    s: TrackerState,
    tab_id: i64,
    now: u64,
    utc: UtcTime,
    reply: StoreReply,
    end: (TrackerState, ProgressView),
)
    requires
        !(reply is Failed),
        resumes_to(s, JobView::Forget { tab_id }, reply, now, utc, end),
    ensures
        after_message(s, ExtensionMessage::TabRemoved { tab_id }, now, utc) == (
            s,
            ProgressView::Ask {
                request: StoreRequest::RemovePending(tab_id),
                job: JobView::Forget { tab_id },
            },
        ),
        !end.0.tabs.contains_key(tab_id),
        others_stay(s, end.0, tab_id),
        end.1 == ProgressView::nothing(),
{
}

/// Content that was asked for is to be archived: with the new title, if one came, with
/// the text, if it is not empty, and for the rest as the tab is known and as it was
/// queued. Nothing but the title changes before that.
pub proof fn law_content_is_to_be_archived(
    s: TrackerState,
    tab_id: i64,
    text: String,
    title: Option<String>,
    now: u64,
    utc: UtcTime,
)
    requires
        s.tabs.contains_key(tab_id),
        s.tabs[tab_id].status is AwaitingContent,
    ensures
        ({
            let msg = ExtensionMessage::TabContent { tab_id, text, title };
            let (later, p) = after_message(s, msg, now, utc);
            let (was, tab) = (s.tabs[tab_id], later.tabs[tab_id]);
            let named = if title is Some {
                title
            } else {
                was.title
            };
            &&& p matches ProgressView::Ask { request, job } && job == (JobView::Content { tab_id })
                && (request matches StoreRequest::ArchiveTab(entry) && {
                &&& entry.tab_id == tab_id
                &&& entry.url == was.url
                &&& entry.title == named
                &&& entry.opener_tab_id == was.opener_tab_id
                &&& entry.created_at == was.created_at_utc
                &&& entry.closed_at == utc
                &&& entry.reason == was.status->AwaitingContent_reason
                &&& entry.cluster_id == was.status->AwaitingContent_cluster_id
                &&& text@.len() > 0 ==> entry.extracted_text == Some(text)
                &&& text@.len() == 0 ==> entry.extracted_text is None
                &&& !entry.is_video
            })
            &&& later.tabs.contains_key(tab_id)
            &&& tab.title == named
            &&& tab.url == was.url
            &&& tab.status == was.status
            &&& tab.last_focused_at == was.last_focused_at
            &&& tab.created_at == was.created_at
            &&& others_stay(s, later, tab_id)
        }),
{
}

/// Nothing of a tab but its status has changed.
pub open spec fn same_but_status(was: TabInfo, tab: TabInfo) -> bool {
    &&& tab.tab_id == was.tab_id
    &&& tab.url == was.url
    &&& tab.title == was.title
    &&& tab.opener_tab_id == was.opener_tab_id
    &&& tab.created_at == was.created_at
    &&& tab.created_at_utc == was.created_at_utc
    &&& tab.last_focused_at == was.last_focused_at
    &&& tab.is_video == was.is_video
}

/// Once the row of a focused tab has left the queue, the tab is active again.
pub proof fn law_a_rescued_tab(
    s: TrackerState,
    tab_id: i64,
    reply: StoreReply,
    now: u64,
    utc: UtcTime,
    end: (TrackerState, ProgressView),
)
    requires
        s.tabs.contains_key(tab_id),
        !(reply is Failed),
        resumes_to(s, JobView::Rescue { tab_id }, reply, now, utc, end),
    ensures
        end.0.tabs.contains_key(tab_id),
        end.0.tabs[tab_id].status is Active,
        same_but_status(s.tabs[tab_id], end.0.tabs[tab_id]),
        others_stay(s, end.0, tab_id),
        end.1 == ProgressView::nothing(),
{
}

/// Once the content of a tab is archived, the tab is closed, and the extension is told
/// to close it and nothing else.
pub proof fn law_an_archived_tab_is_closed(
    s: TrackerState,
    tab_id: i64,
    reply: StoreReply,
    now: u64,
    utc: UtcTime,
    end: (TrackerState, ProgressView),
)
    requires
        s.tabs.contains_key(tab_id),
        !(reply is Failed),
        resumes_to(s, JobView::Content { tab_id }, reply, now, utc, end),
    ensures
        end.0.tabs.contains_key(tab_id),
        end.0.tabs[tab_id].status is Closed,
        same_but_status(s.tabs[tab_id], end.0.tabs[tab_id]),
        others_stay(s, end.0, tab_id),
        end.1 matches ProgressView::Finished { commands, flushed } && commands.len() == 1
            && commands[0] == (DaemonCommand::CloseTab { tab_id }) && flushed.len() == 0,
{
}

/// Where the store fails, the call fails, and nothing changes.
pub proof fn law_a_failure_changes_nothing(
    s: TrackerState,
    job: JobView,
    now: u64,
    utc: UtcTime,
    end: (TrackerState, ProgressView),
)
    requires
        resumes_to(s, job, StoreReply::Failed, now, utc, end),
    ensures
        end.0 == s,
        end.1 is Failed,
{
}

/// No tab came, and of those that are still known nothing but the status has changed.
pub open spec fn only_statuses(s: TrackerState, later: TrackerState) -> bool {
    &&& later.config == s.config
    &&& forall|id: i64| #[trigger]
        later.tabs.contains_key(id) ==> s.tabs.contains_key(id) && same_but_status(
            s.tabs[id],
            later.tabs[id],
        )
}

proof fn lemma_flushing_only_statuses(
    s: TrackerState,
    tabs: Seq<PendingTab>,
    from: int,
    commands: Seq<DaemonCommand>,
    utc: UtcTime,
)
    ensures
        only_statuses(s, flushing(s, tabs, from, commands, utc).0),
    decreases tabs.len() - from,
{
    if from < tabs.len() {
        let tab = tabs[from];
        if s.tabs.contains_key(tab.tab_id) && !tab.is_video {
            let next = s.with_status(
                tab.tab_id,
                TabStatus::AwaitingContent { reason: tab.reason, cluster_id: tab.cluster_id },
            );
            let more = commands.push(DaemonCommand::RequestContent { tab_id: tab.tab_id });
            lemma_flushing_only_statuses(next, tabs, from + 1, more, utc);
            let end = flushing(next, tabs, from + 1, more, utc).0;
            assert forall|id: i64| #[trigger] end.tabs.contains_key(id) implies s.tabs.contains_key(
                id,
            ) && same_but_status(s.tabs[id], end.tabs[id]) by {
                assert(next.tabs.contains_key(id));
            }
        }
    }
}

/// Starting a sweep changes nothing of a tab but its status.
pub proof fn law_a_sweep_touches_only_statuses(
    s: TrackerState,
    order: Seq<i64>,
    from: int,
    now: u64,
    utc: UtcTime,
    end: (TrackerState, ProgressView),
)
    requires
        sweeps_to(s, order, from, now, utc, end),
    ensures
        only_statuses(s, end.0),
{
}

/// Whatever the store answers, going on with a call changes nothing of a tab but its
/// status: its address and title, who opened it, when it was created and when it was
/// last focused stay as they were.
pub proof fn law_answers_touch_only_statuses(
    s: TrackerState,
    job: JobView,
    reply: StoreReply,
    now: u64,
    utc: UtcTime,
    end: (TrackerState, ProgressView),
)
    requires
        resumes_to(s, job, reply, now, utc, end),
    ensures
        only_statuses(s, end.0),
{
    if !(reply is Failed) {
        match job {
            JobView::WatchLater { order, at } => {
                let next = put_off(s, order[at]);
                law_a_sweep_touches_only_statuses(next, order, at + 1, now, utc, end);
                lemma_through(s, next, end.0);
            },
            JobView::Take => {
                if let StoreReply::Tabs(tabs) = reply {
                    lemma_flushing_only_statuses(s, tabs@, 0, Seq::empty(), utc);
                }
            },
            JobView::Flush { tabs, at, commands } => {
                let id = tabs[at].tab_id;
                let next = s.with_status(id, TabStatus::Closed);
                let sent = if s.tabs.contains_key(id) {
                    commands.push(DaemonCommand::CloseTab { tab_id: id })
                } else {
                    commands
                };
                lemma_flushing_only_statuses(next, tabs, at + 1, sent, utc);
                lemma_through(s, next, end.0);
            },
            _ => {},
        }
    }
}

proof fn lemma_through(s: TrackerState, next: TrackerState, end: TrackerState)
    requires
        only_statuses(s, next),
        only_statuses(next, end),
    ensures
        only_statuses(s, end),
{
    assert forall|id: i64| #[trigger] end.tabs.contains_key(id) implies s.tabs.contains_key(id)
        && same_but_status(s.tabs[id], end.tabs[id]) by {
        assert(next.tabs.contains_key(id));
    }
}

/// A tab is a watch-later candidate exactly if it is active, a video, opened from
/// another tab, never focused, and created at least the grace period ago, counted in
/// nanoseconds.
pub proof fn law_who_is_put_off(s: TrackerState, id: i64, now: u64)
    ensures
        s.is_put_off(id, now) <==> s.tabs.contains_key(id) && {
            &&& s.tabs[id].status is Active
            &&& s.tabs[id].is_video
            &&& s.tabs[id].opener_tab_id is Some
            &&& s.tabs[id].last_focused_at is None
            &&& passed(s.tabs[id].created_at, now)
                >= s.config.watch_later.grace_period_seconds * 1_000_000_000
        },
{
}

/// A message, and the clocks when it comes.
pub struct Sent {
    pub msg: ExtensionMessage,
    pub now: u64,
    pub utc: UtcTime,
}

/// What the tracker knows after some messages.
pub open spec fn after_messages(s: TrackerState, sent: Seq<Sent>) -> TrackerState
    decreases sent.len(),
{
    if sent.len() == 0 {
        s
    } else {
        after_message(
            after_messages(s, sent.drop_last()),
            sent.last().msg,
            sent.last().now,
            sent.last().utc,
        ).0
    }
}

/// The message tells that a tab with this id was created.
pub open spec fn creates(msg: ExtensionMessage, id: i64) -> bool {
    msg matches ExtensionMessage::TabCreated { tab_id, .. } && tab_id == id
}

/// A tab that was focused once has been focused, whatever messages come after that, and
/// is no watch-later candidate at any time: only when another tab with its id is created
/// does it start anew.
pub proof fn law_a_tab_that_was_focused_is_not_put_off(
    s: TrackerState,
    id: i64,
    at: u64,
    utc: UtcTime,
    sent: Seq<Sent>,
    now: u64,
)
    requires
        s.tabs.contains_key(id),
        forall|i: int| 0 <= i < sent.len() ==> !creates((#[trigger] sent[i]).msg, id),
    ensures
        ({
            let focused = after_message(s, ExtensionMessage::TabActivated { tab_id: id }, at, utc).0;
            let later = after_messages(focused, sent);
            &&& later.tabs.contains_key(id)
            &&& later.tabs[id].last_focused_at is Some
            &&& !later.is_put_off(id, now)
        }),
    decreases sent.len(),
{
    let focused = after_message(s, ExtensionMessage::TabActivated { tab_id: id }, at, utc).0;
    if sent.len() > 0 {
        let before = sent.drop_last();
        assert forall|i: int| 0 <= i < before.len() implies !creates(
            (#[trigger] before[i]).msg,
            id,
        ) by {
            assert(before[i] == sent[i]);
        }
        law_a_tab_that_was_focused_is_not_put_off(s, id, at, utc, before, now);
        assert(!creates(sent[sent.len() - 1].msg, id));
    }
}

/// The request that the looking for watch-later candidates makes is for a candidate:
/// never for a tab that was focused, and with what is known of the tab.
pub proof fn law_what_is_queued_to_be_watched_later(
    s: TrackerState,
    order: Seq<i64>,
    from: int,
    now: u64,
    utc: UtcTime,
)
    requires
        0 <= from <= order.len(),
    ensures
        putting_off(s, order, from, now, utc) matches ProgressView::Ask { request, job } ==> (
        request matches StoreRequest::InsertPending(row) && (job matches JobView::WatchLater {
            order: o,
            at,
        } && o == order && from <= at < order.len() && ({
            let tab = s.tabs[order[at]];
            &&& s.tabs.contains_key(order[at])
            &&& tab.status is Active
            &&& tab.is_video
            &&& tab.opener_tab_id is Some
            &&& tab.last_focused_at is None
            &&& passed(tab.created_at, now) >= s.config.watch_later.grace_period_seconds
                * 1_000_000_000
            &&& is_row_of(row, tab, utc)
            &&& row.tab_id == tab.tab_id
            &&& row.reason is WatchLater
            &&& row.cluster_id is None
        }))),
        (exists|k: int|
            from <= k < order.len() && s.tabs.contains_key(#[trigger] order[k])
                && s.tabs[order[k]].status is Active && s.tabs[order[k]].is_video
                && s.tabs[order[k]].opener_tab_id is Some && s.tabs[order[k]].last_focused_at is None
                && passed(s.tabs[order[k]].created_at, now)
                >= s.config.watch_later.grace_period_seconds * 1_000_000_000) ==> putting_off(
            s,
            order,
            from,
            now,
            utc,
        ) is Ask,
        putting_off(s, order, from, now, utc) is Ask || putting_off(s, order, from, now, utc)
            == ProgressView::nothing(),
{
    lemma_next_put_off(s, order, from, now);
    if exists|k: int|
        from <= k < order.len() && s.tabs.contains_key(#[trigger] order[k])
            && s.tabs[order[k]].status is Active && s.tabs[order[k]].is_video
            && s.tabs[order[k]].opener_tab_id is Some && s.tabs[order[k]].last_focused_at is None
            && passed(s.tabs[order[k]].created_at, now)
            >= s.config.watch_later.grace_period_seconds * 1_000_000_000 {
        let k = choose|k: int|
            from <= k < order.len() && s.tabs.contains_key(#[trigger] order[k])
                && s.tabs[order[k]].status is Active && s.tabs[order[k]].is_video
                && s.tabs[order[k]].opener_tab_id is Some && s.tabs[order[k]].last_focused_at is None
                && passed(s.tabs[order[k]].created_at, now)
                >= s.config.watch_later.grace_period_seconds * 1_000_000_000;
        assert(s.is_put_off(order[k], now));
    }
}

/// The row holds what is known of the tab, and the time of its detection.
pub open spec fn is_row_of(row: PendingTab, tab: TabInfo, utc: UtcTime) -> bool {
    &&& row.url == tab.url
    &&& row.title == tab.title
    &&& row.opener_tab_id == tab.opener_tab_id
    &&& row.created_at == tab.created_at_utc
    &&& row.detected_at == utc
    &&& row.is_video == tab.is_video
}

/// The request that the queueing of clusters makes is for the first tab of the queue that
/// is active, with what is known of it and under the id of its cluster. It is finished
/// exactly if none of them is active.
pub proof fn law_what_is_queued_with_a_cluster(
    s: TrackerState,
    queue: Seq<Queued>,
    from: int,
    utc: UtcTime,
)
    requires
        0 <= from <= queue.len(),
    ensures
        queueing(s, queue, from, utc) matches ProgressView::Ask { request, job } ==> (
        request matches StoreRequest::InsertPending(row) && (job matches JobView::RabbitHole {
            queue: q,
            at,
        } && q == queue && from <= at < queue.len() && ({
            &&& s.tabs.contains_key(queue[at].tab_id)
            &&& s.tabs[queue[at].tab_id].status is Active
            &&& is_row_of(row, s.tabs[queue[at].tab_id], utc)
            &&& row.tab_id == queue[at].tab_id
            &&& row.reason is RabbitHole
            &&& row.cluster_id == Some(queue[at].cluster_id)
            &&& forall|k: int|
                from <= k < at ==> !(s.tabs.contains_key((#[trigger] queue[k]).tab_id)
                    && s.tabs[queue[k].tab_id].status is Active)
        }))),
        queueing(s, queue, from, utc) is Ask <==> exists|k: int|
            from <= k < queue.len() && s.tabs.contains_key((#[trigger] queue[k]).tab_id)
                && s.tabs[queue[k].tab_id].status is Active,
        queueing(s, queue, from, utc) is Ask || queueing(s, queue, from, utc)
            == ProgressView::nothing(),
{
    lemma_next_queued(s, queue, from);
    let at = s.next_queued(queue, from);
    assert forall|k: int| from <= k < at implies !(s.tabs.contains_key((#[trigger] queue[k]).tab_id)
        && s.tabs[queue[k].tab_id].status is Active) by {
        assert(!s.is_active(queue[k].tab_id));
    }
}

/// Clustering sees exactly the active tabs of the order, each as it is known: when it was
/// created, who opened it, and since when it has gone without focus, which is its last
/// focus or, where it never had any, its creation.
pub proof fn law_what_clustering_sees(s: TrackerState, order: Seq<i64>)
    ensures
        forall|k: int|
            0 <= k < s.members(order).len() ==> ({
                let m = #[trigger] s.members(order)[k];
                let tab = s.tabs[m.id];
                &&& order.contains(m.id)
                &&& s.tabs.contains_key(m.id)
                &&& tab.status is Active
                &&& m.opener == tab.opener_tab_id
                &&& m.created_at == tab.created_at
                &&& tab.last_focused_at is None ==> m.idle_since == tab.created_at
                &&& tab.last_focused_at is Some ==> m.idle_since == tab.last_focused_at->0
            }),
        forall|i: int|
            0 <= i < order.len() && s.tabs.contains_key(#[trigger] order[i])
                && s.tabs[order[i]].status is Active ==> exists|k: int|
                0 <= k < s.members(order).len() && (#[trigger] s.members(order)[k]).id == order[i],
    decreases order.len(),
{
    if order.len() > 0 {
        let front = order.drop_last();
        law_what_clustering_sees(s, front);
        let before = s.members(front);
        let all = s.members(order);
        let id = order.last();
        assert(order[order.len() - 1] == id);
        assert forall|k: int| 0 <= k < all.len() implies ({
            let m = #[trigger] all[k];
            let tab = s.tabs[m.id];
            &&& order.contains(m.id)
            &&& s.tabs.contains_key(m.id)
            &&& tab.status is Active
            &&& m.opener == tab.opener_tab_id
            &&& m.created_at == tab.created_at
            &&& tab.last_focused_at is None ==> m.idle_since == tab.created_at
            &&& tab.last_focused_at is Some ==> m.idle_since == tab.last_focused_at->0
        }) by {
            if k < before.len() {
                assert(all[k] == before[k]);
                let j = choose|j: int| 0 <= j < front.len() && front[j] == before[k].id;
                assert(order[j] == before[k].id);
            }
        }
        assert forall|i: int| 0 <= i < order.len() && s.tabs.contains_key(#[trigger] order[i])
            && s.tabs[order[i]].status is Active implies exists|k: int|
            0 <= k < all.len() && (#[trigger] all[k]).id == order[i] by {
            if i < front.len() {
                assert(front[i] == order[i]);
                let k = choose|k: int|
                    0 <= k < before.len() && (#[trigger] before[k]).id == front[i];
                assert(all[k].id == order[i]);
            } else {
                assert(all[all.len() - 1].id == id);
            }
        }
    }
}

/// A sweep that has no watch-later candidate left comes to queueing clusters, wherever it
/// stands: those that clustering finds among the active tabs at that time, each under an
/// id of its own in the list of ids. One that has a candidate left comes to that.
pub proof fn law_clusters_follow_the_watch_later_candidates(
    s: TrackerState,
    order: Seq<i64>,
    from: int,
    now: u64,
    utc: UtcTime,
    end: (TrackerState, ProgressView),
)
    requires
        sweeps_to(s, order, from, now, utc, end),
    ensures
        putting_off(s, order, from, now, utc) is Ask ==> end == (
            s,
            putting_off(s, order, from, now, utc),
        ),
        !(putting_off(s, order, from, now, utc) is Ask) ==> ({
            let clusters = abandoned(s.members(order), now, s.config.rabbit_hole);
            &&& clusters.len() == 0 ==> end.1 == ProgressView::nothing()
            &&& exists|ids: Seq<String>|
                ids.len() == clusters.len() && end.1 == #[trigger] queueing(
                    s,
                    queued(clusters, ids),
                    0,
                    utc,
                )
        }),
        end.1 is Finished ==> forall|id: i64| #[trigger]
            end.0.tabs.contains_key(id) <==> s.tabs.contains_key(id) && !(
            s.tabs[id].status is Closed),
        !(end.1 is Finished) ==> end.0 == s,
{
    if !(putting_off(s, order, from, now, utc) is Ask) {
        let clusters = abandoned(s.members(order), now, s.config.rabbit_hole);
        let ids = choose|ids: Seq<String>|
            ids.len() == clusters.len() && (forall|i: int|
                0 <= i < ids.len() ==> is_random_uuid(#[trigger] ids[i]@)) && end == swept(
                s,
                #[trigger] queueing(s, queued(clusters, ids), 0, utc),
            );
        assert(end.1 == queueing(s, queued(clusters, ids), 0, utc));
        if clusters.len() == 0 {
            assert(queued(clusters, ids).len() == 0);
        }
    }
}

proof fn lemma_commands(s: TrackerState, rows: Seq<PendingTab>)
    requires
        ids_differ(rows),
    ensures
        forall|k: int| #![trigger rows[k]] 0 <= k < rows.len() ==> sends_for(s, rows[k], commands_for(s, rows)),
        forall|c: int|
            0 <= c < commands_for(s, rows).len() ==> exists|k: int|
                0 <= k < rows.len() && is_about(
                    s,
                    #[trigger] rows[k],
                    #[trigger] commands_for(s, rows)[c],
                ),
        commands_for(s, rows).no_duplicates(),
    decreases rows.len(),
{
    if rows.len() > 0 {
        let front = rows.drop_last();
        let row = rows.last();
        let sent = commands_for(s, front);
        let all = commands_for(s, rows);
        assert(ids_differ(front)) by {
            assert forall|i: int, j: int| 0 <= i < j < front.len() implies (
            #[trigger] front[i]).tab_id != (#[trigger] front[j]).tab_id by {
                assert(rows[i] == front[i] && rows[j] == front[j]);
            }
        }
        lemma_commands(s, front);
        assert(rows[rows.len() - 1] == row);
        assert forall|c: int| 0 <= c < all.len() implies exists|k: int|
            0 <= k < rows.len() && is_about(s, #[trigger] rows[k], #[trigger] all[c]) by {
            if c < sent.len() {
                assert(all[c] == sent[c]);
                let k = choose|k: int|
                    0 <= k < front.len() && is_about(s, #[trigger] front[k], sent[c]);
                assert(rows[k] == front[k]);
                assert(is_about(s, rows[k], all[c]));
            } else {
                assert(is_about(s, rows[rows.len() - 1], all[c]));
            }
        }
        // What was sent before is about other tabs.
        assert forall|c: int| 0 <= c < sent.len() implies !is_about_id(
            #[trigger] sent[c],
            row.tab_id,
        ) by {
            let k = choose|k: int| 0 <= k < front.len() && is_about(s, #[trigger] front[k], sent[c]);
            assert(rows[k] == front[k]);
            assert(rows[k].tab_id != rows[rows.len() - 1].tab_id);
        }
        assert forall|k: int| #![trigger rows[k]] 0 <= k < rows.len() implies sends_for(
            s,
            rows[k],
            all,
        ) by {
            if k < front.len() {
                assert(front[k] == rows[k]);
                assert(sends_for(s, front[k], sent));
                assert(rows[k].tab_id != rows[rows.len() - 1].tab_id);
                let close = DaemonCommand::CloseTab { tab_id: rows[k].tab_id };
                let ask = DaemonCommand::RequestContent { tab_id: rows[k].tab_id };
                assert(all.take(sent.len() as int) =~= sent);
                lemma_still_sent(sent, all, close);
                lemma_still_sent(sent, all, ask);
            } else {
                let close = DaemonCommand::CloseTab { tab_id: row.tab_id };
                let ask = DaemonCommand::RequestContent { tab_id: row.tab_id };
                if all.len() > sent.len() {
                    assert(all[all.len() - 1] == all.last());
                }
                if all.contains(close) {
                    let c = choose|c: int| 0 <= c < all.len() && all[c] == close;
                    if c < sent.len() {
                        assert(!is_about_id(sent[c], row.tab_id));
                    }
                }
                if all.contains(ask) {
                    let c = choose|c: int| 0 <= c < all.len() && all[c] == ask;
                    if c < sent.len() {
                        assert(!is_about_id(sent[c], row.tab_id));
                    }
                }
            }
        }
        assert(all.no_duplicates()) by {
            assert forall|i: int, j: int| 0 <= i < j < all.len() implies all[i] != all[j] by {
                assert(all[i] == sent[i]);
                if j < sent.len() {
                    assert(all[j] == sent[j]);
                } else {
                    assert(!is_about_id(sent[i], row.tab_id));
                }
            }
        }
    }
}

proof fn lemma_still_sent(
    sent: Seq<DaemonCommand>,
    all: Seq<DaemonCommand>,
    command: DaemonCommand,
)
    requires
        sent.len() <= all.len() <= sent.len() + 1,
        all.take(sent.len() as int) == sent,
        all.len() > sent.len() ==> all.last() != command,
    ensures
        all.contains(command) <==> sent.contains(command),
{
    if sent.contains(command) {
        let c = choose|c: int| 0 <= c < sent.len() && sent[c] == command;
        assert(all.take(sent.len() as int)[c] == all[c]);
    }
    if all.contains(command) {
        let c = choose|c: int| 0 <= c < all.len() && all[c] == command;
        if c < sent.len() {
            assert(all.take(sent.len() as int)[c] == all[c]);
        }
    }
}

/// The command is about the tab with this id.
pub open spec fn is_about_id(command: DaemonCommand, id: i64) -> bool {
    ||| command == (DaemonCommand::CloseTab { tab_id: id })
    ||| command == (DaemonCommand::RequestContent { tab_id: id })
}

/// The row is that of an open tab, and the command closes it or asks for its content.
pub open spec fn is_about(s: TrackerState, row: PendingTab, command: DaemonCommand) -> bool {
    s.tabs.contains_key(row.tab_id) && is_about_id(command, row.tab_id)
}

/// Of an open video it is said that it be closed, of any other open tab that its content
/// is wanted, and of a tab that is no longer open nothing is said.
pub open spec fn sends_for(
    s: TrackerState,
    row: PendingTab,
    commands: Seq<DaemonCommand>,
) -> bool {
    let open = s.tabs.contains_key(row.tab_id);
    &&& commands.contains(DaemonCommand::CloseTab { tab_id: row.tab_id }) <==> open && row.is_video
    &&& commands.contains(DaemonCommand::RequestContent { tab_id: row.tab_id }) <==> open
        && !row.is_video
}

/// The entry holds what the row holds, and no text.
pub open spec fn is_entry_of(entry: ArchivedTab, row: PendingTab) -> bool {
    &&& entry.tab_id == row.tab_id
    &&& entry.url == row.url
    &&& entry.title == row.title
    &&& entry.opener_tab_id == row.opener_tab_id
    &&& entry.created_at == row.created_at
    &&& entry.reason == row.reason
    &&& entry.cluster_id == row.cluster_id
    &&& entry.extracted_text is None
    &&& entry.is_video == row.is_video
}

/// What is archived without its content is archived as it was queued, at that time.
pub proof fn law_what_is_archived_of_a_queued_tab(row: PendingTab, utc: UtcTime)
    ensures
        is_entry_of(row.archived_at(utc), row),
        row.archived_at(utc).closed_at == utc,
{
}

proof fn lemma_archived_at_once(s: TrackerState, rows: Seq<PendingTab>)
    ensures
        forall|row: PendingTab| #[trigger]
            archived_at_once(s, rows).contains(row) <==> rows.contains(row) && !(
            s.tabs.contains_key(row.tab_id) && !row.is_video),
    decreases rows.len(),
{
    if rows.len() > 0 {
        let front = rows.drop_last();
        let put = archived_at_once(s, front);
        lemma_archived_at_once(s, front);
        lemma_push_rows(front, rows.last());
        lemma_push_rows(put, rows.last());
        assert(front.push(rows.last()) =~= rows);
        assert forall|row: PendingTab| #[trigger]
            archived_at_once(s, rows).contains(row) <==> rows.contains(row) && !(
            s.tabs.contains_key(row.tab_id) && !row.is_video) by {
            assert(put.contains(row) <==> front.contains(row) && !(s.tabs.contains_key(row.tab_id)
                && !row.is_video));
            assert(front.push(rows.last()).contains(row) <==> row == rows.last() || front.contains(
                row,
            ));
            assert(put.push(rows.last()).contains(row) <==> row == rows.last() || put.contains(
                row,
            ));
        }
    }
}

proof fn lemma_push_rows(rows: Seq<PendingTab>, row: PendingTab)
    ensures
        forall|x: PendingTab| #[trigger]
            rows.push(row).contains(x) <==> x == row || rows.contains(x),
{
    let more = rows.push(row);
    assert forall|x: PendingTab| #[trigger] more.contains(x) <==> x == row || rows.contains(x) by {
        if rows.contains(x) {
            let i = choose|i: int| 0 <= i < rows.len() && rows[i] == x;
            assert(more[i] == x);
        }
        assert(more[rows.len() as int] == row);
        if more.contains(x) {
            let i = choose|i: int| 0 <= i < more.len() && more[i] == x;
            if i < rows.len() {
                assert(rows[i] == x);
            }
        }
    }
}

/// A flush during which the store does not fail: about each queued tab the extension is
/// told once what is to be done with it, and about no other tab anything. A video, and a
/// tab that is no longer open, is archived as it was queued; any other is not archived
/// yet, and awaits its content under the reason and the cluster it was queued with. What
/// was in the archive stays there, and all queued tabs are handed back.
pub proof fn law_what_a_flush_does(moments: Seq<Moment>, answers: Seq<Answer>, k: int)
    requires
        run(moments, answers),
        all_answered(answers),
        moments[0].progress == (ProgressView::Ask {
            request: StoreRequest::TakeAllPending,
            job: JobView::Take,
        }),
        !(moments.last().progress is Ask),
        ids_differ(moments[0].tables.pending),
        0 <= k < moments[0].tables.pending.len(),
    ensures
        ({
            let (s, t) = (moments[0].state, moments[0].tables);
            let row = t.pending[k];
            let end = moments.last();
            let old = t.archived.len() as int;
            &&& end.progress matches ProgressView::Finished { commands, flushed } && {
                &&& flushed == t.pending
                &&& sends_for(s, row, commands)
                &&& commands.no_duplicates()
                &&& forall|c: int|
                    0 <= c < commands.len() ==> exists|j: int|
                        0 <= j < t.pending.len() && is_about(
                            s,
                            #[trigger] t.pending[j],
                            #[trigger] commands[c],
                        )
            }
            &&& end.tables.pending.len() == 0
            &&& old <= end.tables.archived.len()
            &&& forall|i: int|
                0 <= i < old ==> #[trigger] end.tables.archived[i] == t.archived[i]
            &&& (exists|i: int|
                old <= i < end.tables.archived.len() && is_entry_of(
                    #[trigger] end.tables.archived[i],
                    row,
                )) <==> !s.tabs.contains_key(row.tab_id) || row.is_video
            &&& s.tabs.contains_key(row.tab_id) && !row.is_video
                ==> end.state.tabs.contains_key(row.tab_id) && same_but_status(
                s.tabs[row.tab_id],
                end.state.tabs[row.tab_id],
            ) && end.state.tabs[row.tab_id].status == (TabStatus::AwaitingContent {
                reason: row.reason,
                cluster_id: row.cluster_id,
            })
            &&& !(s.tabs.contains_key(row.tab_id) && !row.is_video)
                ==> !end.state.tabs.contains_key(row.tab_id)
        }),
{
    let (s, t) = (moments[0].state, moments[0].tables);
    let rows = t.pending;
    let row = rows[k];
    let end = moments.last();
    let old = t.archived.len() as int;
    law_flush_puts_every_queued_tab_away(moments, answers);
    law_flushed_tab_awaits_content_or_is_gone(moments, answers, k);
    lemma_commands(s, rows);
    assert(sends_for(s, rows[k], commands_for(s, rows)));
    lemma_archived_at_once(s, rows);
    let put = archived_at_once(s, rows);
    let new = end.tables.archived.skip(old);
    assert(archive_grew(t.archived, end.tables.archived, put));
    assert forall|i: int| 0 <= i < old implies #[trigger] end.tables.archived[i]
        == t.archived[i] by {
        assert(end.tables.archived.take(old)[i] == end.tables.archived[i]);
    }
    assert(rows.contains(row));
    if put.contains(row) {
        let i = choose|i: int| 0 <= i < put.len() && put[i] == row;
        assert(new[i] == put[i].archived_at(new[i].closed_at));
        assert(end.tables.archived[old + i] == new[i]);
        assert(is_entry_of(end.tables.archived[old + i], row));
    }
    if exists|i: int|
        old <= i < end.tables.archived.len() && is_entry_of(
            #[trigger] end.tables.archived[i],
            row,
        ) {
        let i = choose|i: int|
            old <= i < end.tables.archived.len() && is_entry_of(
                #[trigger] end.tables.archived[i],
                row,
            );
        let e = i - old;
        assert(new[e] == end.tables.archived[i]);
        assert(new[e] == put[e].archived_at(new[e].closed_at));
        assert(put.contains(put[e]));
        assert(rows.contains(put[e]));
        let j = choose|j: int| 0 <= j < rows.len() && rows[j] == put[e];
        assert(rows[j].tab_id == rows[k].tab_id);
        assert(j == k);
    }
}

/// Once a watch-later candidate is queued, it waits to be watched later, and nothing else
/// of it changes.
pub proof fn law_a_queued_candidate_waits(
    s: TrackerState,
    order: Seq<i64>,
    at: int,
    reply: StoreReply,
    now: u64,
    utc: UtcTime,
    alone: (TrackerState, ProgressView),
    end: (TrackerState, ProgressView),
)
    requires
        s.tabs.contains_key(order[at]),
        !(reply is Failed),
        alone == watch_later_resumed(s, order, at, reply, now, utc),
        resumes_to(s, JobView::WatchLater { order, at }, reply, now, utc, end),
    ensures
        alone.0.tabs.contains_key(order[at]),
        alone.0.tabs[order[at]].status == (TabStatus::Pending {
            reason: ArchivalReason::WatchLater,
            cluster_id: None,
        }),
        same_but_status(s.tabs[order[at]], alone.0.tabs[order[at]]),
        others_stay(s, alone.0, order[at]),
        end.0.tabs.contains_key(order[at]),
        end.0.tabs[order[at]] == alone.0.tabs[order[at]],
{
}

/// Once a tab of a cluster is queued, it waits under the id of its cluster, and nothing
/// else of it changes.
pub proof fn law_a_queued_tab_of_a_cluster_waits(
    s: TrackerState,
    queue: Seq<Queued>,
    at: int,
    reply: StoreReply,
    now: u64,
    utc: UtcTime,
    alone: (TrackerState, ProgressView),
    end: (TrackerState, ProgressView),
)
    requires
        s.tabs.contains_key(queue[at].tab_id),
        !(reply is Failed),
        alone == rabbit_holes_resumed(s, queue, at, reply, utc),
        resumes_to(s, JobView::RabbitHole { queue, at }, reply, now, utc, end),
    ensures
        ({
            let id = queue[at].tab_id;
            &&& alone.0.tabs.contains_key(id)
            &&& alone.0.tabs[id].status == (TabStatus::Pending {
                reason: ArchivalReason::RabbitHole,
                cluster_id: Some(queue[at].cluster_id),
            })
            &&& same_but_status(s.tabs[id], alone.0.tabs[id])
            &&& others_stay(s, alone.0, id)
            &&& end.0.tabs.contains_key(id)
            &&& end.0.tabs[id] == alone.0.tabs[id]
            &&& end.1 == alone.1
        }),
{
}

/// The end of a sweep forgets exactly the closed tabs, and only once nothing is left to
/// be done.
pub proof fn law_what_the_end_of_a_sweep_forgets(s: TrackerState, p: ProgressView, id: i64)
    ensures
        swept(s, p).1 == p,
        swept(s, p).0.config == s.config,
        !(p is Finished) ==> swept(s, p).0 == s,
        p is Finished ==> (swept(s, p).0.tabs.contains_key(id) <==> s.tabs.contains_key(id) && !(
        s.tabs[id].status is Closed)),
        swept(s, p).0.tabs.contains_key(id) ==> swept(s, p).0.tabs[id] == s.tabs[id],
{
}

/// The tabs of the clusters are queued cluster after cluster, each cluster in its order and
/// under the id of its own: those of the last one stand at the end of the queue, and before
/// them those of the others.
pub proof fn law_the_queue_of_the_clusters(
    clusters: Vec<Vec<i64>>,
    ids: Vec<String>,
    queue: Vec<Queued>,
)
    requires
        call_ensures(queue_clusters, (&clusters, &ids), queue),
        clusters@.len() == ids@.len(),
    ensures
        clusters@.len() == 0 ==> queue@.len() == 0,
        clusters@.len() > 0 ==> ({
            let n = clusters@.len() - 1;
            let last = clusters@[n]@;
            let start = queue@.len() - last.len();
            &&& 0 <= start
            &&& queue@.take(start) == queued(nested(clusters@).take(n), ids@)
            &&& forall|k: int|
                0 <= k < last.len() ==> (#[trigger] queue@[start + k]).tab_id == last[k]
                    && queue@[start + k].cluster_id == ids@[n]
        }),
{
    let all = nested(clusters@);
    if all.len() > 0 {
        let n = clusters@.len() - 1;
        let last = clusters@[n]@;
        let before = queued(all.drop_last(), ids@);
        assert(all.last() == last);
        assert(all.drop_last() =~= all.take(n));
        assert(queue@ == before + last.map_values(
            |tab_id: i64| Queued { tab_id, cluster_id: ids@[n] },
        ));
        let start = queue@.len() - last.len();
        assert(start == before.len());
        assert(queue@.take(start) =~= before);
    }
}

/// Of two open tabs, the extension is told first of the one that was queued first.
pub proof fn law_a_flush_speaks_of_the_tabs_in_order(
    moments: Seq<Moment>,
    answers: Seq<Answer>,
    j: int,
    k: int,
)
    requires
        run(moments, answers),
        all_answered(answers),
        moments[0].progress == (ProgressView::Ask {
            request: StoreRequest::TakeAllPending,
            job: JobView::Take,
        }),
        !(moments.last().progress is Ask),
        0 <= j < k < moments[0].tables.pending.len(),
        moments[0].state.tabs.contains_key(moments[0].tables.pending[j].tab_id),
        moments[0].state.tabs.contains_key(moments[0].tables.pending[k].tab_id),
    ensures
        moments.last().progress matches ProgressView::Finished { commands, .. } && exists|
            a: int,
            b: int,
        |
            0 <= a < b < commands.len() && is_about_id(
                #[trigger] commands[a],
                moments[0].tables.pending[j].tab_id,
            ) && is_about_id(#[trigger] commands[b], moments[0].tables.pending[k].tab_id),
{
    let (s, rows) = (moments[0].state, moments[0].tables.pending);
    law_flush_puts_every_queued_tab_away(moments, answers);
    let commands = commands_for(s, rows);
    let first = commands_for(s, rows.take(j));
    let second = commands_for(s, rows.take(k));
    lemma_command_of(s, rows, j);
    lemma_command_of(s, rows, k);
    lemma_commands_grow(s, rows, j + 1, k);
    assert(commands_for(s, rows.take(j + 1)).len() == first.len() + 1);
    let (a, b) = (first.len() as int, second.len() as int);
    assert(moments.last().progress->Finished_commands == commands);
    assert(0 <= a < b < commands.len());
    assert(is_about_id(commands[a], rows[j].tab_id));
    assert(is_about_id(commands[b], rows[k].tab_id));
}

proof fn lemma_commands_grow(s: TrackerState, rows: Seq<PendingTab>, j: int, k: int)
    requires
        0 <= j <= k <= rows.len(),
    ensures
        commands_for(s, rows.take(j)).len() <= commands_for(s, rows.take(k)).len(),
        commands_for(s, rows.take(k)).take(commands_for(s, rows.take(j)).len() as int)
            == commands_for(s, rows.take(j)),
    decreases k - j,
{
    let small = commands_for(s, rows.take(j));
    if j < k {
        lemma_commands_grow(s, rows, j, k - 1);
        assert(rows.take(k).drop_last() =~= rows.take(k - 1));
        let most = commands_for(s, rows.take(k - 1));
        let all = commands_for(s, rows.take(k));
        assert(all.take(small.len() as int) =~= most.take(small.len() as int));
    } else {
        assert(small.take(small.len() as int) =~= small);
    }
}

proof fn lemma_command_of(s: TrackerState, rows: Seq<PendingTab>, k: int)
    requires
        0 <= k < rows.len(),
        s.tabs.contains_key(rows[k].tab_id),
    ensures
        commands_for(s, rows.take(k + 1)).len() == commands_for(s, rows.take(k)).len() + 1,
        commands_for(s, rows).len() > commands_for(s, rows.take(k)).len(),
        is_about_id(
            commands_for(s, rows)[commands_for(s, rows.take(k)).len() as int],
            rows[k].tab_id,
        ),
{
    let before = commands_for(s, rows.take(k));
    let with = commands_for(s, rows.take(k + 1));
    assert(rows.take(k + 1).drop_last() =~= rows.take(k));
    assert(rows.take(k + 1).last() == rows[k]);
    assert(rows.take(rows.len() as int) =~= rows);
    lemma_commands_grow(s, rows, k + 1, rows.len() as int);
    let all = commands_for(s, rows);
    assert(all.take(with.len() as int)[before.len() as int] == all[before.len() as int]);
    assert(with[before.len() as int] == with.last());
}

}

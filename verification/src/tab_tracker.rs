//! The tabs of the running session, and when they are put away.
//!
//! The tracker decides; the store is a database outside this library. A call that
//! needs the store returns `Progress::Ask`: the request goes to the store, and its
//! reply comes back through `TabTracker::resume`, until the call is `Finished`.

use std::collections::HashMap;
use vstd::prelude::*;
use crate::clock::{has_lasted, lasted, MonotonicClock, UtcTime};
use crate::clusters::{abandoned, distinct, find_abandoned, nested, Member};
use crate::config::Config;
use crate::messages::{DaemonCommand, ExtensionMessage};
use crate::tab_store::{
    copy_of, ArchivalReason, ArchivedTab, PendingTab, StoreFailed, StoreReply, StoreRequest,
};
use crate::text::{contains, occurs_in};

verus! {

/// Where a tab stands on its way to the archive.
#[derive(Debug)]
pub enum TabStatus {
    Active,
    /// Detected as a candidate, queued, waiting for a free moment.
    Pending { reason: ArchivalReason, cluster_id: Option<String> },
    /// Its content was requested; it is archived when the content comes.
    AwaitingContent { reason: ArchivalReason, cluster_id: Option<String> },
    Closed,
}

/// What is known of an open tab.
#[derive(Debug)]
pub struct TabInfo {
    pub tab_id: i64,
    pub url: String,
    pub title: Option<String>,
    pub opener_tab_id: Option<i64>,
    /// By the monotonic clock.
    pub created_at: u64,
    pub created_at_utc: UtcTime,
    /// By the monotonic clock.
    pub last_focused_at: Option<u64>,
    pub is_video: bool,
    pub status: TabStatus,
}

/// A tab to be queued as part of a cluster.
#[derive(Debug)]
pub struct Queued {
    pub tab_id: i64,
    pub cluster_id: String,
}

/// What a call has still to do once the store has replied.
#[derive(Debug)]
pub enum Job {
    /// The focused tab becomes active again.
    Rescue { tab_id: i64 },
    /// The removed tab is forgotten.
    Forget { tab_id: i64 },
    /// The tab whose content was archived is closed.
    Content { tab_id: i64 },
    /// The tab at `at` is being queued as a watch-later candidate.
    WatchLater { order: Vec<i64>, at: usize },
    /// The tab at `at` is being queued as part of a cluster.
    RabbitHole { queue: Vec<Queued>, at: usize },
    /// The queue is being taken.
    Take,
    /// The taken tab at `at` is being archived.
    Flush { tabs: Vec<PendingTab>, at: usize, commands: Vec<DaemonCommand> },
}

/// What a finished call hands back.
#[derive(Debug)]
pub struct Output {
    /// To be sent to the extension.
    pub commands: Vec<DaemonCommand>,
    /// The tabs that were taken from the queue.
    pub flushed: Vec<PendingTab>,
}

/// How far a call has come.
#[derive(Debug)]
pub enum Progress {
    Ask { request: StoreRequest, job: Job },
    Finished(Result<Output, StoreFailed>),
}

/// The contents of a `Job`.
pub enum JobView {
    Rescue { tab_id: i64 },
    Forget { tab_id: i64 },
    Content { tab_id: i64 },
    WatchLater { order: Seq<i64>, at: int },
    RabbitHole { queue: Seq<Queued>, at: int },
    Take,
    Flush { tabs: Seq<PendingTab>, at: int, commands: Seq<DaemonCommand> },
}

/// The contents of a `Progress`.
pub enum ProgressView {
    Ask { request: StoreRequest, job: JobView },
    Finished { commands: Seq<DaemonCommand>, flushed: Seq<PendingTab> },
    Failed,
}

impl View for Job {
    type V = JobView;

    open spec fn view(&self) -> JobView {
        match self {
            Job::Rescue { tab_id } => JobView::Rescue { tab_id: *tab_id },
            Job::Forget { tab_id } => JobView::Forget { tab_id: *tab_id },
            Job::Content { tab_id } => JobView::Content { tab_id: *tab_id },
            Job::WatchLater { order, at } => JobView::WatchLater { order: order@, at: *at as int },
            Job::RabbitHole { queue, at } => JobView::RabbitHole { queue: queue@, at: *at as int },
            Job::Take => JobView::Take,
            Job::Flush { tabs, at, commands } => JobView::Flush {
                tabs: tabs@,
                at: *at as int,
                commands: commands@,
            },
        }
    }
}

impl View for Progress {
    type V = ProgressView;

    open spec fn view(&self) -> ProgressView {
        match self {
            Progress::Ask { request, job } => ProgressView::Ask { request: *request, job: job@ },
            Progress::Finished(Ok(output)) => ProgressView::Finished {
                commands: output.commands@,
                flushed: output.flushed@,
            },
            Progress::Finished(Err(_)) => ProgressView::Failed,
        }
    }
}

impl JobView {
    /// The position lies in the list that it belongs to, and no tab is visited
    /// twice.
    pub open spec fn valid(self) -> bool {
        match self {
            JobView::WatchLater { order, at } => 0 <= at < order.len() && order.no_duplicates(),
            JobView::RabbitHole { queue, at } => 0 <= at < queue.len(),
            JobView::Flush { tabs, at, .. } => 0 <= at < tabs.len(),
            _ => true,
        }
    }
}

impl ProgressView {
    /// The call is finished and hands nothing back.
    pub open spec fn nothing() -> ProgressView {
        ProgressView::Finished { commands: Seq::empty(), flushed: Seq::empty() }
    }

    /// What is still to do is valid.
    pub open spec fn valid(self) -> bool {
        self matches ProgressView::Ask { job, .. } ==> job.valid()
    }
}

/// What a tracker knows: the open tabs by their ids, and the settings.
#[verifier::ext_equal]
pub struct TrackerState {
    pub tabs: Map<i64, TabInfo>,
    pub config: Config,
}

impl TabInfo {
    /// The tab with another status.
    pub open spec fn with_status(self, status: TabStatus) -> TabInfo {
        TabInfo { status, ..self }
    }

    /// The tab as it is queued.
    pub open spec fn pending(
        self,
        detected_at: UtcTime,
        reason: ArchivalReason,
        cluster_id: Option<String>,
    ) -> PendingTab {
        PendingTab {
            tab_id: self.tab_id,
            url: self.url,
            title: self.title,
            opener_tab_id: self.opener_tab_id,
            created_at: self.created_at_utc,
            detected_at,
            reason,
            cluster_id,
            is_video: self.is_video,
        }
    }

    /// The tab is a video that was opened aside, was never focused, and is older
    /// than `grace` seconds.
    pub open spec fn put_off(self, now: u64, grace: int) -> bool {
        &&& self.status is Active
        &&& self.is_video
        &&& self.opener_tab_id is Some
        &&& self.last_focused_at is None
        &&& has_lasted(self.created_at, now, grace)
    }

    /// The tab as a member of a cluster.
    pub open spec fn member(self, id: i64) -> Member {
        Member {
            id,
            opener: self.opener_tab_id,
            created_at: self.created_at,
            idle_since: match self.last_focused_at {
                Some(at) => at,
                None => self.created_at,
            },
        }
    }
}

impl TrackerState {
    /// The state with a tab added or replaced.
    pub open spec fn with_tab(self, id: i64, tab: TabInfo) -> TrackerState {
        TrackerState { tabs: self.tabs.insert(id, tab), ..self }
    }

    /// The state with another status of one of its tabs.
    pub open spec fn with_status(self, id: i64, status: TabStatus) -> TrackerState {
        if self.tabs.contains_key(id) {
            self.with_tab(id, self.tabs[id].with_status(status))
        } else {
            self
        }
    }

    /// The state without a tab.
    pub open spec fn without_tab(self, id: i64) -> TrackerState {
        TrackerState { tabs: self.tabs.remove(id), ..self }
    }

    /// The state without the closed tabs.
    pub open spec fn without_closed(self) -> TrackerState {
        TrackerState {
            tabs: Map::new(
                |id: i64| self.tabs.contains_key(id) && !(self.tabs[id].status is Closed),
                |id: i64| self.tabs[id],
            ),
            ..self
        }
    }

    /// One of the configured video domains stands in the address.
    pub open spec fn is_video(self, url: Seq<char>) -> bool {
        exists|i: int|
            0 <= i < self.config.watch_later.video_domains@.len() && occurs_in(
                url,
                #[trigger] self.config.watch_later.video_domains@[i]@,
            )
    }

    /// The tab is active.
    pub open spec fn is_active(self, id: i64) -> bool {
        self.tabs.contains_key(id) && self.tabs[id].status is Active
    }

    /// The tab is a watch-later candidate at `now`.
    pub open spec fn is_put_off(self, id: i64, now: u64) -> bool {
        self.tabs.contains_key(id) && self.tabs[id].put_off(
            now,
            self.config.watch_later.grace_period_seconds as int,
        )
    }

    /// The active tabs in the given order.
    pub open spec fn members(self, order: Seq<i64>) -> Seq<Member>
        decreases order.len(),
    {
        if order.len() == 0 {
            Seq::empty()
        } else {
            let front = self.members(order.drop_last());
            let id = order.last();
            if self.is_active(id) {
                front.push(self.tabs[id].member(id))
            } else {
                front
            }
        }
    }

    /// The position of the first watch-later candidate from `from` on; the length
    /// of the order where there is none.
    pub open spec fn next_put_off(self, order: Seq<i64>, from: int, now: u64) -> int
        decreases order.len() - from,
    {
        if from >= order.len() {
            order.len() as int
        } else if self.is_put_off(order[from], now) {
            from
        } else {
            self.next_put_off(order, from + 1, now)
        }
    }

    /// The position of the first active tab of the queue from `from` on; the
    /// length of the queue where there is none.
    pub open spec fn next_queued(self, queue: Seq<Queued>, from: int) -> int
        decreases queue.len() - from,
    {
        if from >= queue.len() {
            queue.len() as int
        } else if self.is_active(queue[from].tab_id) {
            from
        } else {
            self.next_queued(queue, from + 1)
        }
    }

    /// The tab with this id was created.
    pub open spec fn created(
        self,
        tab_id: i64,
        url: String,
        title: Option<String>,
        opener_tab_id: Option<i64>,
        now: u64,
        utc: UtcTime,
    ) -> TrackerState {
        self.with_tab(
            tab_id,
            TabInfo {
                tab_id,
                url,
                title,
                opener_tab_id,
                created_at: now,
                created_at_utc: utc,
                last_focused_at: None,
                is_video: self.is_video(url@),
                status: TabStatus::Active,
            },
        )
    }

    /// The tab with this id was focused.
    pub open spec fn focused(self, tab_id: i64, now: u64) -> TrackerState {
        self.with_tab(tab_id, TabInfo { last_focused_at: Some(now), ..self.tabs[tab_id] })
    }

    /// The address or the title of the tab with this id changed.
    pub open spec fn updated(
        self,
        tab_id: i64,
        url: Option<String>,
        title: Option<String>,
    ) -> TrackerState {
        let tab = self.tabs[tab_id];
        self.with_tab(
            tab_id,
            TabInfo {
                url: match url {
                    Some(u) => u,
                    None => tab.url,
                },
                is_video: match url {
                    Some(u) => self.is_video(u@),
                    None => tab.is_video,
                },
                title: match title {
                    Some(t) => Some(t),
                    None => tab.title,
                },
                ..tab
            },
        )
    }
}

/// What is archived of a tab whose content came at `closed_at`.
pub open spec fn archived_with_content(
    tab: TabInfo,
    tab_id: i64,
    text: String,
    closed_at: UtcTime,
    reason: ArchivalReason,
    cluster_id: Option<String>,
) -> ArchivedTab {
    ArchivedTab {
        tab_id,
        url: tab.url,
        title: tab.title,
        opener_tab_id: tab.opener_tab_id,
        created_at: tab.created_at_utc,
        closed_at,
        reason,
        cluster_id,
        extracted_text: if text@.len() == 0 {
            None
        } else {
            Some(text)
        },
        is_video: false,
    }
}

/// The state after the content of a tab came, and what is to be done.
pub open spec fn after_content(
    s: TrackerState,
    tab_id: i64,
    text: String,
    title: Option<String>,
    utc: UtcTime,
) -> (TrackerState, ProgressView) {
    if !s.tabs.contains_key(tab_id) {
        (s, ProgressView::nothing())
    } else {
        match s.tabs[tab_id].status {
            TabStatus::AwaitingContent { reason, cluster_id } => {
                let titled = s.updated(tab_id, None, title);
                (
                    titled,
                    ProgressView::Ask {
                        request: StoreRequest::ArchiveTab(
                            archived_with_content(
                                titled.tabs[tab_id],
                                tab_id,
                                text,
                                utc,
                                reason,
                                cluster_id,
                            ),
                        ),
                        job: JobView::Content { tab_id },
                    },
                )
            },
            _ => (s, ProgressView::nothing()),
        }
    }
}

/// The state after a message from the extension, and what is to be done.
pub open spec fn after_message(
    s: TrackerState,
    msg: ExtensionMessage,
    now: u64,
    utc: UtcTime,
) -> (TrackerState, ProgressView) {
    match msg {
        ExtensionMessage::TabCreated { tab_id, url, title, opener_tab_id, .. } => (
            s.created(tab_id, url, title, opener_tab_id, now, utc),
            ProgressView::nothing(),
        ),
        ExtensionMessage::TabActivated { tab_id } => if !s.tabs.contains_key(tab_id) {
            (s, ProgressView::nothing())
        } else if s.tabs[tab_id].status is Pending {
            (
                s.focused(tab_id, now),
                ProgressView::Ask {
                    request: StoreRequest::RemovePending(tab_id),
                    job: JobView::Rescue { tab_id },
                },
            )
        } else {
            (s.focused(tab_id, now), ProgressView::nothing())
        },
        ExtensionMessage::TabRemoved { tab_id } => (
            s,
            ProgressView::Ask {
                request: StoreRequest::RemovePending(tab_id),
                job: JobView::Forget { tab_id },
            },
        ),
        ExtensionMessage::TabUpdated { tab_id, url, title, .. } => if s.tabs.contains_key(tab_id) {
            (s.updated(tab_id, url, title), ProgressView::nothing())
        } else {
            (s, ProgressView::nothing())
        },
        ExtensionMessage::TabContent { tab_id, text, title } => after_content(
            s,
            tab_id,
            text,
            title,
            utc,
        ),
    }
}

/// A text in the form of a random UUID: 32 hexadecimal digits in lower case and
/// four hyphens, the version digit a 4 and the variant digit one of 8, 9, a, b.
pub open spec fn is_random_uuid(s: Seq<char>) -> bool {
    &&& s.len() == 36
    &&& s[14] == '4'
    &&& s[19] == '8' || s[19] == '9' || s[19] == 'a' || s[19] == 'b'
    &&& forall|i: int|
        0 <= i < 36 ==> if i == 8 || i == 13 || i == 18 || i == 23 {
            #[trigger] s[i] == '-'
        } else {
            ('0' <= s[i] && s[i] <= '9') || ('a' <= s[i] && s[i] <= 'f')
        }
}

/// The tabs of the clusters, each with the id of its cluster.
pub open spec fn queued(clusters: Seq<Seq<i64>>, ids: Seq<String>) -> Seq<Queued>
    decreases clusters.len(),
{
    if clusters.len() == 0 {
        Seq::empty()
    } else {
        queued(clusters.drop_last(), ids) + clusters.last().map_values(
            |tab_id: i64| Queued { tab_id, cluster_id: ids[clusters.len() - 1] },
        )
    }
}

/// What is to be done about the watch-later candidates while the tabs from `from`
/// on are still to look at: the next candidate is queued, if there is one.
pub open spec fn putting_off(
    s: TrackerState,
    order: Seq<i64>,
    from: int,
    now: u64,
    utc: UtcTime,
) -> ProgressView {
    let at = s.next_put_off(order, from, now);
    if at < order.len() {
        ProgressView::Ask {
            request: StoreRequest::InsertPending(
                s.tabs[order[at]].pending(utc, ArchivalReason::WatchLater, None),
            ),
            job: JobView::WatchLater { order, at },
        }
    } else {
        ProgressView::nothing()
    }
}

/// What is to be done while the tabs of the queue from `from` on are still to be
/// queued: the next active one is queued, if there is one.
pub open spec fn queueing(
    s: TrackerState,
    queue: Seq<Queued>,
    from: int,
    utc: UtcTime,
) -> ProgressView {
    let at = s.next_queued(queue, from);
    if at < queue.len() {
        let tab = s.tabs[queue[at].tab_id];
        ProgressView::Ask {
            request: StoreRequest::InsertPending(
                PendingTab {
                    tab_id: queue[at].tab_id,
                    ..tab.pending(utc, ArchivalReason::RabbitHole, Some(queue[at].cluster_id))
                },
            ),
            job: JobView::RabbitHole { queue, at },
        }
    } else {
        ProgressView::nothing()
    }
}

/// The state once the watch-later candidate is queued.
pub open spec fn put_off(s: TrackerState, tab_id: i64) -> TrackerState {
    s.with_status(
        tab_id,
        TabStatus::Pending { reason: ArchivalReason::WatchLater, cluster_id: None },
    )
}

/// The state once the tab of a cluster is queued.
pub open spec fn put_aside(s: TrackerState, tab: Queued) -> TrackerState {
    s.with_status(
        tab.tab_id,
        TabStatus::Pending {
            reason: ArchivalReason::RabbitHole,
            cluster_id: Some(tab.cluster_id),
        },
    )
}

/// The state, and what is to be done about the watch-later candidates, once the
/// store has replied about the one at the position `at`.
pub open spec fn watch_later_resumed(
    s: TrackerState,
    order: Seq<i64>,
    at: int,
    reply: StoreReply,
    now: u64,
    utc: UtcTime,
) -> (TrackerState, ProgressView) {
    if reply is Failed {
        (s, ProgressView::Failed)
    } else {
        let next = put_off(s, order[at]);
        (next, putting_off(next, order, at + 1, now, utc))
    }
}

/// The state, and what is to be done about the clusters, once the store has replied
/// about the tab at the position `at` of their queue.
pub open spec fn rabbit_holes_resumed(
    s: TrackerState,
    queue: Seq<Queued>,
    at: int,
    reply: StoreReply,
    utc: UtcTime,
) -> (TrackerState, ProgressView) {
    if reply is Failed {
        (s, ProgressView::Failed)
    } else {
        let next = put_aside(s, queue[at]);
        (next, queueing(next, queue, at + 1, utc))
    }
}

/// The state a sweep leaves behind, with both kinds of candidates looked after as
/// far as `p`: once there is nothing left to be queued, the closed tabs are
/// forgotten.
pub open spec fn swept(s: TrackerState, p: ProgressView) -> (TrackerState, ProgressView) {
    if p is Finished {
        (s.without_closed(), p)
    } else {
        (s, p)
    }
}

/// Whether `end` can come of a sweep that has the tabs from `from` on still to
/// look at: the next watch-later candidate is queued; where there is none,
/// abandoned clusters get new ids and are queued.
pub open spec fn sweeps_to(
    s: TrackerState,
    order: Seq<i64>,
    from: int,
    now: u64,
    utc: UtcTime,
    end: (TrackerState, ProgressView),
) -> bool {
    let p = putting_off(s, order, from, now, utc);
    if p is Ask {
        end == (s, p)
    } else {
        let clusters = abandoned(s.members(order), now, s.config.rabbit_hole);
        exists|ids: Seq<String>|
            ids.len() == clusters.len() && (forall|i: int|
                0 <= i < ids.len() ==> is_random_uuid(#[trigger] ids[i]@)) && end == swept(
                s,
                #[trigger] queueing(s, queued(clusters, ids), 0, utc),
            )
    }
}

/// The state while the taken tabs from `from` on are still to be put away, and
/// what is to be done. A video, or a tab that is no longer open, is archived; of
/// any other tab the content is requested.
pub open spec fn flushing(
    s: TrackerState,
    tabs: Seq<PendingTab>,
    from: int,
    commands: Seq<DaemonCommand>,
    utc: UtcTime,
) -> (TrackerState, ProgressView)
    decreases tabs.len() - from,
{
    if from >= tabs.len() {
        (s.without_closed(), ProgressView::Finished { commands, flushed: tabs })
    } else {
        let tab = tabs[from];
        if s.tabs.contains_key(tab.tab_id) && !tab.is_video {
            flushing(
                s.with_status(
                    tab.tab_id,
                    TabStatus::AwaitingContent { reason: tab.reason, cluster_id: tab.cluster_id },
                ),
                tabs,
                from + 1,
                commands.push(DaemonCommand::RequestContent { tab_id: tab.tab_id }),
                utc,
            )
        } else {
            (
                s,
                ProgressView::Ask {
                    request: StoreRequest::ArchiveTab(tab.archived_at(utc)),
                    job: JobView::Flush { tabs, at: from, commands },
                },
            )
        }
    }
}

/// Whether `end` can come of resuming a job after the store has replied.
pub open spec fn resumes_to(
    s: TrackerState,
    job: JobView,
    reply: StoreReply,
    now: u64,
    utc: UtcTime,
    end: (TrackerState, ProgressView),
) -> bool {
    if reply is Failed {
        end == (s, ProgressView::Failed)
    } else {
        match job {
            JobView::Rescue { tab_id } => end == (
                s.with_status(tab_id, TabStatus::Active),
                ProgressView::nothing(),
            ),
            JobView::Forget { tab_id } => end == (s.without_tab(tab_id), ProgressView::nothing()),
            JobView::Content { tab_id } => end == (
                s.with_status(tab_id, TabStatus::Closed),
                ProgressView::Finished {
                    commands: seq![DaemonCommand::CloseTab { tab_id }],
                    flushed: Seq::empty(),
                },
            ),
            JobView::WatchLater { order, at } => sweeps_to(
                put_off(s, order[at]),
                order,
                at + 1,
                now,
                utc,
                end,
            ),
            JobView::RabbitHole { queue, at } => {
                let (next, p) = rabbit_holes_resumed(s, queue, at, reply, utc);
                end == swept(next, p)
            },
            JobView::Take => match reply {
                StoreReply::Tabs(tabs) => if tabs@.len() == 0 {
                    end == (s, ProgressView::nothing())
                } else {
                    end == flushing(s, tabs@, 0, Seq::empty(), utc)
                },
                _ => end == (s, ProgressView::Failed),
            },
            JobView::Flush { tabs, at, commands } => {
                let id = tabs[at].tab_id;
                end == flushing(
                    s.with_status(id, TabStatus::Closed),
                    tabs,
                    at + 1,
                    if s.tabs.contains_key(id) {
                        commands.push(DaemonCommand::CloseTab { tab_id: id })
                    } else {
                        commands
                    },
                    utc,
                )
            },
        }
    }
}

/// `uuid::Uuid::new_v4`, written out by its `to_string`: a new random id. Which
/// one is left to chance; its form is not.
#[verifier::external_body]
fn new_cluster_id() -> (r: String)
    ensures
        is_random_uuid(r@),
{
    uuid::Uuid::new_v4().to_string()
}

/// The tabs of the clusters, each with the id of its cluster.
pub fn queue_clusters(clusters: &Vec<Vec<i64>>, ids: &Vec<String>) -> (r: Vec<Queued>)
    requires
        ids@.len() == clusters@.len(),
    ensures
        r@ == queued(nested(clusters@), ids@),
{
    let mut queue: Vec<Queued> = Vec::new();
    let mut i: usize = 0;
    let ghost all = nested(clusters@);
    assert(all.take(0) =~= Seq::empty());
    while i < clusters.len()
        invariant
            ids@.len() == clusters@.len(),
            all == nested(clusters@),
            i <= clusters@.len(),
            queue@ == queued(all.take(i as int), ids@),
        decreases clusters@.len() - i,
    {
        let cluster = &clusters[i];
        let ghost done = queue@;
        let ghost tagged = |tab_id: i64| Queued { tab_id, cluster_id: ids@[i as int] };
        let mut k: usize = 0;
        assert(queue@ =~= done + cluster@.take(0).map_values(tagged));
        while k < cluster.len()
            invariant
                i < ids@.len(),
                k <= cluster@.len(),
                tagged == (|tab_id: i64| Queued { tab_id, cluster_id: ids@[i as int] }),
                queue@ == done + cluster@.take(k as int).map_values(tagged),
            decreases cluster@.len() - k,
        {
            queue.push(Queued { tab_id: cluster[k], cluster_id: ids[i].clone() });
            assert(queue@ =~= done + cluster@.take(k + 1).map_values(tagged));
            k += 1;
        }
        proof {
            assert(cluster@.take(k as int) =~= cluster@);
            assert(all.take(i + 1).drop_last() =~= all.take(i as int));
            assert(all.take(i + 1).last() == cluster@);
        }
        i += 1;
    }
    assert(all.take(i as int) =~= all);
    queue
}

/// The open tabs of the session.
pub struct TabTracker {
    tabs: HashMap<i64, TabInfo>,
    config: Config,
    clock: MonotonicClock,
}

impl View for TabTracker {
    type V = TrackerState;

    closed spec fn view(&self) -> TrackerState {
        TrackerState { tabs: self.tabs@, config: self.config }
    }
}

impl TabTracker {
    /// A tracker that knows no tab.
    pub fn new(config: Config) -> (r: Self)
        ensures
            r@ == (TrackerState { tabs: Map::empty(), config }),
    {
        TabTracker { tabs: HashMap::new(), config, clock: MonotonicClock::start() }
    }

    /// Whether one of the configured video domains stands in the address.
    fn is_video_url(&self, url: &str) -> (r: bool)
        ensures
            r == self@.is_video(url@),
    {
        let domains = &self.config.watch_later.video_domains;
        let mut i: usize = 0;
        while i < domains.len()
            invariant
                domains@ == self@.config.watch_later.video_domains@,
                i <= domains@.len(),
                forall|j: int| 0 <= j < i ==> !occurs_in(url@, #[trigger] domains@[j]@),
            decreases domains@.len() - i,
        {
            if contains(url, domains[i].as_str()) {
                assert(occurs_in(url@, self@.config.watch_later.video_domains@[i as int]@));
                return true;
            }
            i += 1;
        }
        false
    }

    /// Gives a tab another status.
    fn set_status(&mut self, id: i64, status: TabStatus)
        ensures
            final(self)@ == old(self)@.with_status(id, status),
    {
        match self.tabs.remove(&id) {
            Some(mut tab) => {
                tab.status = status;
                self.tabs.insert(id, tab);
                assert(self@ =~= old(self)@.with_status(id, status));
            },
            None => {
                assert(self@ =~= old(self)@);
            },
        }
    }

    /// Changes the address or the title of a tab that is open.
    fn update(&mut self, id: i64, url: Option<String>, title: Option<String>)
        requires
            old(self)@.tabs.contains_key(id),
        ensures
            final(self)@ == old(self)@.updated(id, url, title),
    {
        let is_video = match &url {
            Some(u) => self.is_video_url(u.as_str()),
            None => false,
        };
        match self.tabs.remove(&id) {
            Some(mut tab) => {
                if let Some(u) = url {
                    tab.is_video = is_video;
                    tab.url = u;
                }
                if let Some(t) = title {
                    tab.title = Some(t);
                }
                self.tabs.insert(id, tab);
                assert(self@ =~= old(self)@.updated(id, url, title));
            },
            None => {},
        }
    }

    /// Forgets the closed tabs.
    fn drop_closed(&mut self)
        ensures
            final(self)@ == old(self)@.without_closed(),
    {
        let order = self.order();
        let mut i: usize = 0;
        let ghost before = self@;
        while i < order.len()
            invariant
                before == old(self)@,
                order@.to_set() == before.tabs.dom(),
                i <= order@.len(),
                self@.config == before.config,
                forall|id: i64| #[trigger]
                    self@.tabs.contains_key(id) ==> before.tabs.contains_key(id)
                        && self@.tabs[id] == before.tabs[id],
                forall|id: i64| #[trigger]
                    before.tabs.contains_key(id) && !(before.tabs[id].status is Closed)
                        ==> self@.tabs.contains_key(id),
                forall|k: int|
                    0 <= k < i && before.tabs[#[trigger] order@[k]].status is Closed
                        ==> !self@.tabs.contains_key(order@[k]),
            decreases order@.len() - i,
        {
            let id = order[i];
            let closed = match self.tabs.get(&id) {
                Some(tab) => match tab.status {
                    TabStatus::Closed => true,
                    _ => false,
                },
                None => false,
            };
            if closed {
                let ghost was = self@;
                self.tabs.remove(&id);
                assert(self@.tabs == was.tabs.remove(id));
            }
            i += 1;
        }
        proof {
            let after = before.without_closed();
            assert forall|id: i64| self@.tabs.contains_key(id) <==> after.tabs.contains_key(id) by {
                if before.tabs.contains_key(id) {
                    assert(order@.to_set().contains(id));
                    let k = choose|k: int| 0 <= k < order@.len() && order@[k] == id;
                    assert(order@[k] == id);
                }
            }
            assert(self@.tabs =~= after.tabs);
            assert(self@ =~= after);
        }
    }

    /// The ids of the open tabs, each once, in the order in which the map happens
    /// to hold them.
    fn order(&self) -> (r: Vec<i64>)
        ensures
            r@.no_duplicates(),
            r@.to_set() == self@.tabs.dom(),
    {
        let mut order: Vec<i64> = Vec::new();
        for id in it: self.tabs.keys()
            invariant
                it.seq().unref().to_set() == self@.tabs.dom(),
                it.seq().no_duplicates(),
                order@ == it.seq().unref().take(it.index()),
                it.index() == it.seq().len() ==> order@ == it.seq().unref(),
        {
            order.push(*id);
        }
        order
    }

    /// The active tabs in the given order.
    fn active_members(&self, order: &Vec<i64>) -> (r: Vec<Member>)
        ensures
            r@ == self@.members(order@),
    {
        let mut members: Vec<Member> = Vec::new();
        let mut i: usize = 0;
        assert(order@.take(0) =~= Seq::empty());
        while i < order.len()
            invariant
                i <= order@.len(),
                members@ == self@.members(order@.take(i as int)),
            decreases order@.len() - i,
        {
            let id = order[i];
            proof {
                assert(order@.take(i + 1).drop_last() =~= order@.take(i as int));
                assert(order@.take(i + 1).last() == id);
            }
            if let Some(tab) = self.tabs.get(&id) {
                if let TabStatus::Active = tab.status {
                    members.push(
                        Member {
                            id,
                            opener: tab.opener_tab_id,
                            created_at: tab.created_at,
                            idle_since: match tab.last_focused_at {
                                Some(at) => at,
                                None => tab.created_at,
                            },
                        },
                    );
                }
            }
            i += 1;
        }
        assert(order@.take(i as int) =~= order@);
        members
    }

    /// Processes one message from the extension, by the clock.
    pub fn handle_message(&mut self, msg: ExtensionMessage) -> (r: Progress)
        ensures
            exists|now: u64, utc: UtcTime|
                utc.valid() && (final(self)@, r@) == #[trigger] after_message(
                    old(self)@,
                    msg,
                    now,
                    utc,
                ),
            r@.valid(),
            final(self)@.config == old(self)@.config,
    {
        let now = self.clock.now();
        let utc = UtcTime::now();
        self.handle_message_at(msg, now, utc)
    }

    /// Processes one message from the extension that comes when the monotonic
    /// clock shows `now` and the calendar `utc`.
    pub fn handle_message_at(&mut self, msg: ExtensionMessage, now: u64, utc: UtcTime) -> (r:
        Progress)
        ensures
            (final(self)@, r@) == after_message(old(self)@, msg, now, utc),
            r@.valid(),
            final(self)@.config == old(self)@.config,
    {
        match msg {
            ExtensionMessage::TabCreated { tab_id, url, title, opener_tab_id, .. } => {
                let is_video = self.is_video_url(url.as_str());
                self.tabs.insert(
                    tab_id,
                    TabInfo {
                        tab_id,
                        url,
                        title,
                        opener_tab_id,
                        created_at: now,
                        created_at_utc: utc,
                        last_focused_at: None,
                        is_video,
                        status: TabStatus::Active,
                    },
                );
                finished_with_nothing()
            },
            ExtensionMessage::TabActivated { tab_id } => {
                match self.tabs.remove(&tab_id) {
                    Some(mut tab) => {
                        tab.last_focused_at = Some(now);
                        let is_pending = match tab.status {
                            TabStatus::Pending { .. } => true,
                            _ => false,
                        };
                        self.tabs.insert(tab_id, tab);
                        assert(self@ =~= old(self)@.focused(tab_id, now));
                        if is_pending {
                            Progress::Ask {
                                request: StoreRequest::RemovePending(tab_id),
                                job: Job::Rescue { tab_id },
                            }
                        } else {
                            finished_with_nothing()
                        }
                    },
                    None => {
                        assert(self@ =~= old(self)@);
                        finished_with_nothing()
                    },
                }
            },
            ExtensionMessage::TabRemoved { tab_id } => Progress::Ask {
                request: StoreRequest::RemovePending(tab_id),
                job: Job::Forget { tab_id },
            },
            ExtensionMessage::TabUpdated { tab_id, url, title, .. } => {
                if self.tabs.contains_key(&tab_id) {
                    self.update(tab_id, url, title);
                }
                finished_with_nothing()
            },
            ExtensionMessage::TabContent { tab_id, text, title } => {
                self.complete_archival_with_content(tab_id, text, title, utc)
            },
        }
    }

    /// Takes the content of a tab: where it was awaited, the tab is archived with it.
    pub fn complete_archival_with_content(
        &mut self,
        tab_id: i64,
        text: String,
        title: Option<String>,
        utc: UtcTime,
    ) -> (r: Progress)
        ensures
            (final(self)@, r@) == after_content(old(self)@, tab_id, text, title, utc),
            r@.valid(),
            final(self)@.config == old(self)@.config,
    {
        let (reason, cluster_id) = match self.tabs.get(&tab_id) {
            Some(tab) => match &tab.status {
                TabStatus::AwaitingContent { reason, cluster_id } => (*reason, copy_of(cluster_id)),
                _ => return finished_with_nothing(),
            },
            None => return finished_with_nothing(),
        };
        self.update(tab_id, None, title);
        let extracted_text = if text.as_str().is_empty() {
            None
        } else {
            Some(text)
        };
        match self.tabs.get(&tab_id) {
            Some(tab) => {
                let archived = ArchivedTab {
                    tab_id,
                    url: tab.url.clone(),
                    title: copy_of(&tab.title),
                    opener_tab_id: tab.opener_tab_id,
                    created_at: tab.created_at_utc,
                    closed_at: utc,
                    reason,
                    cluster_id,
                    extracted_text,
                    is_video: false,
                };
                Progress::Ask {
                    request: StoreRequest::ArchiveTab(archived),
                    job: Job::Content { tab_id },
                }
            },
            None => finished_with_nothing(),
        }
    }

    /// Starts a detection sweep, by the clock: newly detected candidates are
    /// queued. A sweep hands back no commands; closing is left to the flush.
    pub fn check_candidates(&mut self) -> (r: Progress)
        requires
            old(self)@.config.rabbit_hole.spans_fit(),
        ensures
            exists|order: Seq<i64>, now: u64, utc: UtcTime|
                utc.valid() && order.no_duplicates() && order.to_set() == old(self)@.tabs.dom()
                    && #[trigger] sweeps_to(
                    old(self)@,
                    order,
                    0,
                    now,
                    utc,
                    (final(self)@, r@),
                ),
            r@.valid(),
            final(self)@.config == old(self)@.config,
    {
        let now = self.clock.now();
        let utc = UtcTime::now();
        self.check_candidates_at(now, utc)
    }

    /// Starts a detection sweep when the monotonic clock shows `now` and the
    /// calendar `utc`.
    pub fn check_candidates_at(&mut self, now: u64, utc: UtcTime) -> (r: Progress)
        requires
            old(self)@.config.rabbit_hole.spans_fit(),
        ensures
            exists|order: Seq<i64>|
                order.no_duplicates() && order.to_set() == old(self)@.tabs.dom()
                    && #[trigger] sweeps_to(
                    old(self)@,
                    order,
                    0,
                    now,
                    utc,
                    (final(self)@, r@),
                ),
            r@.valid(),
            final(self)@.config == old(self)@.config,
    {
        let order = self.order();
        let p = self.check_watch_later(&order, 0, now, utc);
        let r = self.go_on_with_sweep(p, &order, now, utc);
        assert(sweeps_to(old(self)@, order@, 0, now, utc, (self@, r@)));
        r
    }

    /// Goes on with a sweep whose watch-later candidates are looked after as far as
    /// `p`. Where none of them is left, the clusters come next; where nothing of
    /// those is left either, the sweep ends.
    fn go_on_with_sweep(&mut self, p: Progress, order: &Vec<i64>, now: u64, utc: UtcTime) -> (r:
        Progress)
        requires
            p@.valid(),
            order@.no_duplicates(),
            old(self)@.config.rabbit_hole.spans_fit(),
        ensures
            !(p@ is Finished) ==> (final(self)@, r@) == (old(self)@, p@),
            p@ is Finished ==> ({
                let clusters = abandoned(
                    old(self)@.members(order@),
                    now,
                    old(self)@.config.rabbit_hole,
                );
                exists|ids: Seq<String>|
                    ids.len() == clusters.len() && (forall|i: int|
                        0 <= i < ids.len() ==> is_random_uuid(#[trigger] ids[i]@)) && (
                    final(self)@,
                    r@,
                ) == swept(
                        old(self)@,
                        #[trigger] queueing(old(self)@, queued(clusters, ids), 0, utc),
                    )
            }),
            r@.valid(),
            final(self)@.config == old(self)@.config,
    {
        match p {
            Progress::Finished(Ok(_)) => {
                let clusters = self.check_rabbit_holes(order, now, utc);
                self.end_sweep(clusters)
            },
            _ => p,
        }
    }

    /// Ends a sweep once its last step has finished: the closed tabs are forgotten.
    /// A step that still asks for something, or that failed, ends nothing.
    fn end_sweep(&mut self, p: Progress) -> (r: Progress)
        ensures
            (final(self)@, r@) == swept(old(self)@, p@),
            r == p,
            final(self)@.config == old(self)@.config,
    {
        if let Progress::Finished(Ok(_)) = &p {
            self.drop_closed();
        }
        p
    }

    /// Looks for watch-later candidates from the position `from` on: asks to queue
    /// the first one, and is finished where there is none. Nothing is done about
    /// clusters, and no tab is forgotten.
    pub fn check_watch_later(&self, order: &Vec<i64>, from: usize, now: u64, utc: UtcTime) -> (r:
        Progress)
        requires
            from <= order@.len(),
            order@.no_duplicates(),
        ensures
            r@ == putting_off(self@, order@, from as int, now, utc),
            r@.valid(),
    {
        let grace = self.config.watch_later.grace_period_seconds;
        let mut at: usize = from;
        while at < order.len()
            invariant
                grace == self@.config.watch_later.grace_period_seconds,
                order@.no_duplicates(),
                from <= at <= order@.len(),
                self@.next_put_off(order@, from as int, now) == self@.next_put_off(
                    order@,
                    at as int,
                    now,
                ),
            decreases order@.len() - at,
        {
            if let Some(tab) = self.tabs.get(&order[at]) {
                let is_active = match tab.status {
                    TabStatus::Active => true,
                    _ => false,
                };
                if is_active && tab.is_video && tab.opener_tab_id.is_some()
                    && tab.last_focused_at.is_none() && lasted(tab.created_at, now, grace) {
                    let pending = PendingTab {
                        tab_id: tab.tab_id,
                        url: tab.url.clone(),
                        title: copy_of(&tab.title),
                        opener_tab_id: tab.opener_tab_id,
                        created_at: tab.created_at_utc,
                        detected_at: utc,
                        reason: ArchivalReason::WatchLater,
                        cluster_id: None,
                        is_video: tab.is_video,
                    };
                    return Progress::Ask {
                        request: StoreRequest::InsertPending(pending),
                        job: Job::WatchLater { order: copy_of_ids(order), at },
                    };
                }
            }
            at += 1;
        }
        finished_with_nothing()
    }

    /// Goes on with the watch-later candidates once the store has replied about the
    /// one at the position `at`: where it was queued, it waits, and the next one is
    /// looked for. Nothing is done about clusters, and no tab is forgotten.
    pub fn resume_watch_later(
        &mut self,
        order: &Vec<i64>,
        at: usize,
        reply: &StoreReply,
        now: u64,
        utc: UtcTime,
    ) -> (r: Progress)
        requires
            at < order@.len(),
            order@.no_duplicates(),
        ensures
            (final(self)@, r@) == watch_later_resumed(
                old(self)@,
                order@,
                at as int,
                *reply,
                now,
                utc,
            ),
            r@.valid(),
            final(self)@.config == old(self)@.config,
    {
        if let StoreReply::Failed = reply {
            return Progress::Finished(Err(StoreFailed));
        }
        let status = TabStatus::Pending { reason: ArchivalReason::WatchLater, cluster_id: None };
        self.set_status(order[at], status);
        assert(at < order.len());
        self.check_watch_later(order, at + 1, now, utc)
    }

    /// Finds the abandoned clusters, gives each a new id, and asks to queue the first
    /// of their tabs; is finished where there is none. No tab is forgotten.
    pub fn check_rabbit_holes(&self, order: &Vec<i64>, now: u64, utc: UtcTime) -> (r: Progress)
        requires
            order@.no_duplicates(),
            self@.config.rabbit_hole.spans_fit(),
        ensures
            ({
                let clusters = abandoned(self@.members(order@), now, self@.config.rabbit_hole);
                exists|ids: Seq<String>|
                    ids.len() == clusters.len() && (forall|i: int|
                        0 <= i < ids.len() ==> is_random_uuid(#[trigger] ids[i]@)) && r@
                        == #[trigger] queueing(self@, queued(clusters, ids), 0, utc)
            }),
            r@.valid(),
    {
        let members = self.active_members(order);
        proof {
            lemma_members_distinct(self@, order@);
        }
        let clusters = find_abandoned(&members, now, &self.config.rabbit_hole);
        let mut ids: Vec<String> = Vec::new();
        while ids.len() < clusters.len()
            invariant
                ids@.len() <= clusters@.len(),
                forall|i: int| 0 <= i < ids@.len() ==> is_random_uuid(#[trigger] ids@[i]@),
            decreases clusters@.len() - ids@.len(),
        {
            ids.push(new_cluster_id());
        }
        let queue = queue_clusters(&clusters, &ids);
        self.queue_from(queue, 0, utc)
    }

    /// Goes on with the clusters once the store has replied about the tab at the
    /// position `at` of their queue: where it was queued, it waits, and the next one
    /// is looked for. No tab is forgotten.
    pub fn resume_rabbit_holes(
        &mut self,
        queue: Vec<Queued>,
        at: usize,
        reply: &StoreReply,
        utc: UtcTime,
    ) -> (r: Progress)
        requires
            at < queue@.len(),
        ensures
            (final(self)@, r@) == rabbit_holes_resumed(
                old(self)@,
                queue@,
                at as int,
                *reply,
                utc,
            ),
            r@.valid(),
            final(self)@.config == old(self)@.config,
    {
        if let StoreReply::Failed = reply {
            return Progress::Finished(Err(StoreFailed));
        }
        let status = TabStatus::Pending {
            reason: ArchivalReason::RabbitHole,
            cluster_id: Some(queue[at].cluster_id.clone()),
        };
        self.set_status(queue[at].tab_id, status);
        assert(at < queue.len());
        self.queue_from(queue, at + 1, utc)
    }

    /// Asks to queue the first active tab of the queue from `from` on, and is
    /// finished where there is none.
    pub fn queue_from(&self, queue: Vec<Queued>, from: usize, utc: UtcTime) -> (r: Progress)
        requires
            from <= queue@.len(),
        ensures
            r@ == queueing(self@, queue@, from as int, utc),
            r@.valid(),
    {
        let mut at: usize = from;
        while at < queue.len()
            invariant
                from <= at <= queue@.len(),
                self@.next_queued(queue@, from as int) == self@.next_queued(queue@, at as int),
            decreases queue@.len() - at,
        {
            let tab_id = queue[at].tab_id;
            if let Some(tab) = self.tabs.get(&tab_id) {
                if let TabStatus::Active = tab.status {
                    let pending = PendingTab {
                        tab_id,
                        url: tab.url.clone(),
                        title: copy_of(&tab.title),
                        opener_tab_id: tab.opener_tab_id,
                        created_at: tab.created_at_utc,
                        detected_at: utc,
                        reason: ArchivalReason::RabbitHole,
                        cluster_id: Some(queue[at].cluster_id.clone()),
                        is_video: tab.is_video,
                    };
                    return Progress::Ask {
                        request: StoreRequest::InsertPending(pending),
                        job: Job::RabbitHole { queue, at },
                    };
                }
            }
            at += 1;
        }
        finished_with_nothing()
    }

    /// Starts a flush: the queue is taken from the store.
    pub fn flush_pending(&self) -> (r: Progress)
        ensures
            r@ == (ProgressView::Ask { request: StoreRequest::TakeAllPending, job: JobView::Take }),
    {
        Progress::Ask { request: StoreRequest::TakeAllPending, job: Job::Take }
    }

    /// Goes on with a flush at the position `from`.
    fn flush_from(
        &mut self,
        tabs: Vec<PendingTab>,
        from: usize,
        commands: Vec<DaemonCommand>,
        utc: UtcTime,
    ) -> (r: Progress)
        requires
            from <= tabs@.len(),
        ensures
            (final(self)@, r@) == flushing(old(self)@, tabs@, from as int, commands@, utc),
            r@.valid(),
            final(self)@.config == old(self)@.config,
    {
        let mut sent = commands;
        let ghost goal = flushing(self@, tabs@, from as int, commands@, utc);
        let mut at: usize = from;
        while at < tabs.len()
            invariant
                from <= at <= tabs@.len(),
                goal == flushing(old(self)@, tabs@, from as int, commands@, utc),
                goal == flushing(self@, tabs@, at as int, sent@, utc),
                self@.config == old(self)@.config,
            decreases tabs@.len() - at,
        {
            let tab = &tabs[at];
            let tab_id = tab.tab_id;
            if self.tabs.contains_key(&tab_id) && !tab.is_video {
                let status = TabStatus::AwaitingContent {
                    reason: tab.reason,
                    cluster_id: copy_of(&tab.cluster_id),
                };
                self.set_status(tab_id, status);
                sent.push(DaemonCommand::RequestContent { tab_id });
            } else {
                let request = StoreRequest::ArchiveTab(tab.archive(utc));
                return Progress::Ask { request, job: Job::Flush { tabs, at, commands: sent } };
            }
            at += 1;
        }
        self.drop_closed();
        Progress::Finished(Ok(Output { commands: sent, flushed: tabs }))
    }

    /// Goes on with a call once the store has replied, by the clock. After a step of a
    /// sweep the whole sweep goes on, to its end.
    pub fn resume(&mut self, job: Job, reply: StoreReply) -> (r: Progress)
        requires
            job@.valid(),
            job is WatchLater ==> old(self)@.config.rabbit_hole.spans_fit(),
        ensures
            exists|now: u64, utc: UtcTime|
                utc.valid() && #[trigger] resumes_to(
                    old(self)@,
                    job@,
                    reply,
                    now,
                    utc,
                    (final(self)@, r@),
                ),
            r@.valid(),
            final(self)@.config == old(self)@.config,
    {
        let now = self.clock.now();
        let utc = UtcTime::now();
        self.resume_at(job, reply, now, utc)
    }

    /// Goes on with a call once the store has replied, when the monotonic clock
    /// shows `now` and the calendar `utc`. After a step of a sweep the whole sweep goes
    /// on, to its end.
    pub fn resume_at(&mut self, job: Job, reply: StoreReply, now: u64, utc: UtcTime) -> (r:
        Progress)
        requires
            job@.valid(),
            job is WatchLater ==> old(self)@.config.rabbit_hole.spans_fit(),
        ensures
            resumes_to(old(self)@, job@, reply, now, utc, (final(self)@, r@)),
            r@.valid(),
            final(self)@.config == old(self)@.config,
    {
        if let StoreReply::Failed = reply {
            return Progress::Finished(Err(StoreFailed));
        }
        match job {
            Job::Rescue { tab_id } => {
                self.set_status(tab_id, TabStatus::Active);
                finished_with_nothing()
            },
            Job::Forget { tab_id } => {
                self.tabs.remove(&tab_id);
                assert(self@ =~= old(self)@.without_tab(tab_id));
                finished_with_nothing()
            },
            Job::Content { tab_id } => {
                self.set_status(tab_id, TabStatus::Closed);
                let commands = vec![DaemonCommand::CloseTab { tab_id }];
                assert(commands@ =~= seq![DaemonCommand::CloseTab { tab_id }]);
                Progress::Finished(Ok(Output { commands, flushed: Vec::new() }))
            },
            Job::WatchLater { order, at } => {
                let p = self.resume_watch_later(&order, at, &reply, now, utc);
                self.go_on_with_sweep(p, &order, now, utc)
            },
            Job::RabbitHole { queue, at } => {
                let p = self.resume_rabbit_holes(queue, at, &reply, utc);
                self.end_sweep(p)
            },
            Job::Take => match reply {
                StoreReply::Tabs(tabs) => {
                    if tabs.len() == 0 {
                        finished_with_nothing()
                    } else {
                        self.flush_from(tabs, 0, Vec::new(), utc)
                    }
                },
                _ => Progress::Finished(Err(StoreFailed)),
            },
            Job::Flush { tabs, at, commands } => {
                let mut commands = commands;
                let tab_id = tabs[at].tab_id;
                if self.tabs.contains_key(&tab_id) {
                    commands.push(DaemonCommand::CloseTab { tab_id });
                }
                self.set_status(tab_id, TabStatus::Closed);
                assert(at < tabs.len());
                self.flush_from(tabs, at + 1, commands, utc)
            },
        }
    }
}

/// A finished call that hands nothing back.
fn finished_with_nothing() -> (r: Progress)
    ensures
        r@ == ProgressView::nothing(),
{
    Progress::Finished(Ok(Output { commands: Vec::new(), flushed: Vec::new() }))
}

/// The same ids in the same order.
fn copy_of_ids(ids: &Vec<i64>) -> (r: Vec<i64>)
    ensures
        r@ == ids@,
{
    let mut r: Vec<i64> = Vec::new();
    while r.len() < ids.len()
        invariant
            r@ == ids@.take(r@.len() as int),
            r@.len() <= ids@.len(),
        decreases ids@.len() - r@.len(),
    {
        r.push(ids[r.len()]);
    }
    assert(ids@.take(ids@.len() as int) =~= ids@);
    r
}

/// The members of an order without duplicates are distinct.
pub proof fn lemma_members_distinct(s: TrackerState, order: Seq<i64>)
    requires
        order.no_duplicates(),
    ensures
        distinct(s.members(order)),
        forall|i: int|
            0 <= i < s.members(order).len() ==> order.contains(
                (#[trigger] s.members(order)[i]).id,
            ),
    decreases order.len(),
{
    if order.len() > 0 {
        let front = order.drop_last();
        lemma_members_distinct(s, front);
        assert forall|x: i64| #[trigger] front.contains(x) implies order.contains(x) && x
            != order.last() by {
            let k = choose|k: int| 0 <= k < front.len() && front[k] == x;
            assert(order[k] == x);
            assert(order[k] != order[order.len() - 1]);
        }
        assert(order.contains(order.last())) by {
            assert(order[order.len() - 1] == order.last());
        }
    }
}

}

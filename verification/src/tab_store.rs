//! The tabs that the daemon keeps: the queue of pending tabs and the archive,
//! and how each is written as a table row and read back.

use vstd::prelude::*;
use crate::clock::{in_four_digit_year, parsed_utc, UtcTime, MIN_SECONDS};
use crate::text::{same, text_before};

verus! {

/// Why a tab is put away.
#[derive(Debug, Clone, Copy, PartialEq, Eq, Structural)]
pub enum ArchivalReason {
    WatchLater,
    RabbitHole,
}

impl ArchivalReason {
    /// The name under which the reason is stored.
    pub open spec fn name(self) -> Seq<char> {
        match self {
            ArchivalReason::WatchLater => "watch_later"@,
            ArchivalReason::RabbitHole => "rabbit_hole"@,
        }
    }

    /// The reason that a stored name stands for. Any other text stands for
    /// `WatchLater`.
    pub open spec fn named(s: Seq<char>) -> ArchivalReason {
        if s == "rabbit_hole"@ {
            ArchivalReason::RabbitHole
        } else {
            ArchivalReason::WatchLater
        }
    }

    /// A reason is read back from its name.
    pub proof fn law_named_after_itself(self)
        ensures
            ArchivalReason::named(self.name()) == self,
    {
        reveal_strlit("watch_later");
        reveal_strlit("rabbit_hole");
        assert("watch_later"@[0] != "rabbit_hole"@[0]);
    }

    /// The name under which the reason is stored.
    pub fn as_str(self) -> (r: &'static str)
        ensures
            r@ == self.name(),
    {
        match self {
            ArchivalReason::WatchLater => "watch_later",
            ArchivalReason::RabbitHole => "rabbit_hole",
        }
    }

    /// The reason that a stored name stands for.
    pub fn from_str(s: &str) -> (r: ArchivalReason)
        ensures
            r == ArchivalReason::named(s@),
    {
        if same(s, "rabbit_hole") {
            ArchivalReason::RabbitHole
        } else {
            ArchivalReason::WatchLater
        }
    }
}

/// A tab that was put away.
#[derive(Debug)]
pub struct ArchivedTab {
    pub tab_id: i64,
    pub url: String,
    pub title: Option<String>,
    pub opener_tab_id: Option<i64>,
    pub created_at: UtcTime,
    pub closed_at: UtcTime,
    pub reason: ArchivalReason,
    pub cluster_id: Option<String>,
    pub extracted_text: Option<String>,
    pub is_video: bool,
}

/// A tab detected as a candidate but not yet archived. It waits for a free moment.
#[derive(Debug)]
pub struct PendingTab {
    pub tab_id: i64,
    pub url: String,
    pub title: Option<String>,
    pub opener_tab_id: Option<i64>,
    pub created_at: UtcTime,
    pub detected_at: UtcTime,
    pub reason: ArchivalReason,
    pub cluster_id: Option<String>,
    pub is_video: bool,
}

/// A copy of an optional text.
pub(crate) fn copy_of(t: &Option<String>) -> (r: Option<String>)
    ensures
        r == *t,
{
    match t {
        Some(s) => Some(s.clone()),
        None => None,
    }
}

impl Clone for PendingTab {
    fn clone(&self) -> (r: Self)
        ensures
            r == *self,
    {
        PendingTab {
            tab_id: self.tab_id,
            url: self.url.clone(),
            title: copy_of(&self.title),
            opener_tab_id: self.opener_tab_id,
            created_at: self.created_at,
            detected_at: self.detected_at,
            reason: self.reason,
            cluster_id: copy_of(&self.cluster_id),
            is_video: self.is_video,
        }
    }
}

impl PendingTab {
    /// What is archived of a pending tab that is put away at `closed_at` without
    /// its content.
    pub open spec fn archived_at(self, closed_at: UtcTime) -> ArchivedTab {
        ArchivedTab {
            tab_id: self.tab_id,
            url: self.url,
            title: self.title,
            opener_tab_id: self.opener_tab_id,
            created_at: self.created_at,
            closed_at,
            reason: self.reason,
            cluster_id: self.cluster_id,
            extracted_text: None,
            is_video: self.is_video,
        }
    }

    /// The archive entry of a pending tab that is put away at `closed_at` without
    /// its content.
    pub fn archive(&self, closed_at: UtcTime) -> (r: ArchivedTab)
        ensures
            r == self.archived_at(closed_at),
    {
        ArchivedTab {
            tab_id: self.tab_id,
            url: self.url.clone(),
            title: copy_of(&self.title),
            opener_tab_id: self.opener_tab_id,
            created_at: self.created_at,
            closed_at,
            reason: self.reason,
            cluster_id: copy_of(&self.cluster_id),
            extracted_text: None,
            is_video: self.is_video,
        }
    }
}

/// A row of the table of pending tabs.
#[derive(Debug)]
pub struct PendingRow {
    pub tab_id: i64,
    pub url: String,
    pub title: Option<String>,
    pub opener_tab_id: Option<i64>,
    pub created_at: String,
    pub detected_at: String,
    pub reason: String,
    pub cluster_id: Option<String>,
    pub is_video: i64,
}

/// A row of the table of archived tabs.
#[derive(Debug)]
pub struct ArchivedRow {
    pub tab_id: i64,
    pub url: String,
    pub title: Option<String>,
    pub opener_tab_id: Option<i64>,
    pub created_at: String,
    pub closed_at: String,
    pub reason: String,
    pub cluster_id: Option<String>,
    pub extracted_text: Option<String>,
    pub is_video: i64,
}

/// The time that a stored text stands for: the one it is read as, `now` where it
/// is not read as any.
pub open spec fn stored_time(s: Seq<char>, now: UtcTime) -> UtcTime {
    match parsed_utc(s) {
        Some(parts) => UtcTime::of_parts(parts.0, parts.1),
        None => now,
    }
}

/// The time that a stored text stands for, read at `now`.
pub fn parse_dt_at(s: &str, now: UtcTime) -> (r: UtcTime)
    ensures
        r == stored_time(s@, now),
{
    match UtcTime::parse(s) {
        Some(t) => t,
        None => now,
    }
}

/// The time that a stored text stands for. Where the text is not read as any, it
/// is the clock's.
pub fn parse_dt(s: String) -> (r: UtcTime)
    ensures
        exists|now: UtcTime| now.valid() && r == #[trigger] stored_time(s@, now),
        parsed_utc(s@) matches Some(parts) ==> r == UtcTime::of_parts(parts.0, parts.1),
{
    let now = UtcTime::now();
    let r = parse_dt_at(s.as_str(), now);
    assert(now.valid() && r == stored_time(s@, now));
    r
}

impl PendingRow {
    /// The pending tab that a row read at `now` stands for.
    pub open spec fn tab(self, now: UtcTime) -> PendingTab {
        PendingTab {
            tab_id: self.tab_id,
            url: self.url,
            title: self.title,
            opener_tab_id: self.opener_tab_id,
            created_at: stored_time(self.created_at@, now),
            detected_at: stored_time(self.detected_at@, now),
            reason: ArchivalReason::named(self.reason@),
            cluster_id: self.cluster_id,
            is_video: self.is_video != 0,
        }
    }

    /// The row stands for the tab, whenever it is read.
    pub open spec fn stands_for(self, tab: PendingTab) -> bool {
        forall|now: UtcTime| #[trigger] self.tab(now) == tab
    }

    /// The pending tab that a row read at `now` stands for.
    pub fn read_at(&self, now: UtcTime) -> (r: PendingTab)
        ensures
            r == self.tab(now),
    {
        PendingTab {
            tab_id: self.tab_id,
            url: self.url.clone(),
            title: copy_of(&self.title),
            opener_tab_id: self.opener_tab_id,
            created_at: parse_dt_at(self.created_at.as_str(), now),
            detected_at: parse_dt_at(self.detected_at.as_str(), now),
            reason: ArchivalReason::from_str(self.reason.as_str()),
            cluster_id: copy_of(&self.cluster_id),
            is_video: self.is_video != 0,
        }
    }
}

impl PendingTab {
    /// The row that is written for a pending tab. Whenever it is read, it stands
    /// for this tab.
    pub fn row(&self) -> (r: PendingRow)
        ensures
            r.tab_id == self.tab_id,
            r.url == self.url,
            r.title == self.title,
            r.opener_tab_id == self.opener_tab_id,
            r.created_at@ == self.created_at.rfc3339(),
            r.detected_at@ == self.detected_at.rfc3339(),
            r.reason@ == self.reason.name(),
            r.cluster_id == self.cluster_id,
            r.is_video == (if self.is_video { 1i64 } else { 0i64 }),
            r.stands_for(*self),
    {
        let r = PendingRow {
            tab_id: self.tab_id,
            url: self.url.clone(),
            title: copy_of(&self.title),
            opener_tab_id: self.opener_tab_id,
            created_at: self.created_at.to_rfc3339(),
            detected_at: self.detected_at.to_rfc3339(),
            reason: self.reason.as_str().to_string(),
            cluster_id: copy_of(&self.cluster_id),
            is_video: if self.is_video { 1 } else { 0 },
        };
        proof {
            self.reason.law_named_after_itself();
            UtcTime::lemma_parts(self.created_at, 0, 0);
            UtcTime::lemma_parts(self.detected_at, 0, 0);
        }
        r
    }
}

/// What was selected from the queue.
#[derive(Debug)]
pub struct Taken {
    /// The tabs to hand out.
    pub tabs: Vec<PendingTab>,
    /// Whether the selected rows are to be deleted.
    pub delete: bool,
}

/// Every row could be read.
pub open spec fn all_readable(rows: Seq<Option<PendingRow>>) -> bool {
    forall|i: int| 0 <= i < rows.len() ==> (#[trigger] rows[i]) is Some
}

/// The tabs are those of the rows, one for one, each read at the given time, and
/// the rows are to be deleted if there are any.
pub open spec fn takes(rows: Seq<Option<PendingRow>>, now: UtcTime, t: Taken) -> bool {
    &&& t.tabs@.len() == rows.len()
    &&& forall|i: int| 0 <= i < rows.len() ==> (#[trigger] t.tabs@[i]) == rows[i]->0.tab(now)
    &&& t.delete == (rows.len() > 0)
}

/// What is handed out of the selected rows, read at `now`: all of them, or nothing.
/// A row that could not be read is given as `None`; then nothing is taken, and
/// nothing is to be deleted.
pub fn taken_at(rows: &Vec<Option<PendingRow>>, now: UtcTime) -> (r: Option<Taken>)
    ensures
        r is Some <==> forall|i: int| 0 <= i < rows@.len() ==> (#[trigger] rows@[i]) is Some,
        r matches Some(t) ==> t.tabs@.len() == rows@.len() && (forall|i: int|
            0 <= i < rows@.len() ==> (#[trigger] t.tabs@[i]) == rows@[i]->0.tab(now)) && t.delete
            == (rows@.len() > 0),
{
    let mut tabs: Vec<PendingTab> = Vec::new();
    let mut i: usize = 0;
    while i < rows.len()
        invariant
            i <= rows@.len(),
            tabs@.len() == i,
            forall|k: int| 0 <= k < i ==> (#[trigger] rows@[k]) is Some,
            forall|k: int| 0 <= k < i ==> (#[trigger] tabs@[k]) == rows@[k]->0.tab(now),
        decreases rows@.len() - i,
    {
        match &rows[i] {
            Some(row) => tabs.push(row.read_at(now)),
            None => return None,
        }
        i += 1;
    }
    let delete = rows.len() > 0;
    Some(Taken { tabs, delete })
}

/// What is handed out of the selected rows, by the clock: all of them, or nothing.
pub fn taken(rows: &Vec<Option<PendingRow>>) -> (r: Option<Taken>)
    ensures
        r is Some <==> all_readable(rows@),
        r matches Some(t) ==> exists|now: UtcTime| now.valid() && #[trigger] takes(rows@, now, t),
{
    let now = UtcTime::now();
    let r = taken_at(rows, now);
    assert(r matches Some(t) ==> takes(rows@, now, t));
    r
}

/// Rows that stand for some tabs are taken as these tabs, whenever they are read.
pub proof fn law_written_tabs_are_taken_back(
    tabs: Seq<PendingTab>,
    rows: Seq<Option<PendingRow>>,
    now: UtcTime,
    t: Taken,
)
    requires
        rows.len() == tabs.len(),
        forall|i: int|
            0 <= i < rows.len() ==> ((#[trigger] rows[i]) matches Some(row) && row.stands_for(
                tabs[i],
            )),
        takes(rows, now, t),
    ensures
        all_readable(rows),
        t.tabs@ == tabs,
{
    assert forall|i: int| 0 <= i < tabs.len() implies t.tabs@[i] == tabs[i] by {
        assert(rows[i]->0.stands_for(tabs[i]));
        assert(t.tabs@[i] == rows[i]->0.tab(now));
    }
    assert(t.tabs@ =~= tabs);
}

impl ArchivedTab {
    /// The row that is written for an archived tab.
    pub fn row(&self) -> (r: ArchivedRow)
        ensures
            r.tab_id == self.tab_id,
            r.url == self.url,
            r.title == self.title,
            r.opener_tab_id == self.opener_tab_id,
            r.created_at@ == self.created_at.rfc3339(),
            r.closed_at@ == self.closed_at.rfc3339(),
            r.reason@ == self.reason.name(),
            r.cluster_id == self.cluster_id,
            r.extracted_text == self.extracted_text,
            r.is_video == (if self.is_video { 1i64 } else { 0i64 }),
    {
        ArchivedRow {
            tab_id: self.tab_id,
            url: self.url.clone(),
            title: copy_of(&self.title),
            opener_tab_id: self.opener_tab_id,
            created_at: self.created_at.to_rfc3339(),
            closed_at: self.closed_at.to_rfc3339(),
            reason: self.reason.as_str().to_string(),
            cluster_id: copy_of(&self.cluster_id),
            extracted_text: copy_of(&self.extracted_text),
            is_video: if self.is_video { 1 } else { 0 },
        }
    }
}

/// The time that lies `hours` hours before `now` is one that a calendar can show.
pub open spec fn reaches_back(now: UtcTime, hours: u64) -> bool {
    MIN_SECONDS <= now.seconds() - 3600 * hours
}

/// The text that the stored detection times of leftover tabs come before: the time
/// that lies `hours` hours before `now`. Where no calendar shows that time, it is
/// the empty text.
pub open spec fn leftover_text(now: UtcTime, hours: u64) -> Seq<char> {
    if reaches_back(now, hours) {
        UtcTime::of_parts((now.seconds() - 3600 * hours) as i64, now.subsec()).rfc3339()
    } else {
        Seq::empty()
    }
}

/// The text that the stored detection times of leftover tabs come before: those
/// detected more than `hours` hours before `now`. Nothing was detected before all
/// time: then no text comes before it.
pub fn leftover_threshold_at(now: UtcTime, hours: u64) -> (r: String)
    requires
        now.subsec() < 1_000_000_000,
    ensures
        r@ == leftover_text(now, hours),
        reaches_back(now, hours) && in_four_digit_year((now.seconds() - 3600 * hours) as i64)
            ==> forall|t: UtcTime|
            #![trigger t.rfc3339()]
            t.valid() && in_four_digit_year(t.seconds()) ==> (text_before(t.rfc3339(), r@)
                <==> t.earlier_than(
                UtcTime::of_parts((now.seconds() - 3600 * hours) as i64, now.subsec()),
            )),
        !reaches_back(now, hours) ==> forall|s: Seq<char>| !#[trigger] text_before(s, r@),
{
    let room: i128 = now.timestamp() as i128 - MIN_SECONDS as i128;
    if hours as i128 * 3600 > room {
        return String::new();
    }
    let threshold = now.minus_hours(hours);
    proof {
        UtcTime::lemma_parts(threshold, 0, 0);
    }
    threshold.to_rfc3339()
}

/// What the store is asked to do. The store itself is a database outside this
/// library.
#[derive(Debug)]
pub enum StoreRequest {
    /// Add a tab to the queue, unless the queue already holds one with its id.
    InsertPending(PendingTab),
    /// Take the tab with this id out of the queue, if it is there.
    RemovePending(i64),
    /// Add a tab to the archive.
    ArchiveTab(ArchivedTab),
    /// Hand out the whole queue and empty it.
    TakeAllPending,
    /// Hand out the queued tabs whose stored detection time comes before the text,
    /// and take them out of the queue.
    TakeLeftoverPending { threshold: String },
    /// Count the queue.
    CountPending,
}

/// How the store answers.
#[derive(Debug)]
pub enum StoreReply {
    Done,
    Tabs(Vec<PendingTab>),
    Count(usize),
    Failed,
}

/// The store could not do what it was asked.
#[derive(Debug, Clone, Copy, PartialEq, Eq, Structural)]
pub struct StoreFailed;

}

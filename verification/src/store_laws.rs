//! What holds of tabs that are written to the store and read back, and of the times that
//! go with them.

use vstd::prelude::*;
use crate::clock::{
    elapsed_nanos, has_lasted, lasted, parsed_utc, rfc3339_text, UtcTime, MIN_SECONDS,
};
use crate::idle_laws::passed;
use crate::tab_store::{
    leftover_text, leftover_threshold_at, parse_dt, parse_dt_at, stored_time, taken, taken_at,
    takes, ArchivalReason, ArchivedRow, ArchivedTab, PendingRow, PendingTab, Taken,
};

verus! {

/// A number of seconds has passed once a thousand million nanoseconds have for each of
/// them; a clock that shows an earlier time shows that nothing has passed.
pub proof fn law_when_seconds_have_passed(since: u64, now: u64, seconds: u64, r: bool)
    requires
        call_ensures(lasted, (since, now, seconds), r),
    ensures
        r <==> passed(since, now) >= seconds * 1_000_000_000,
        r == has_lasted(since, now, seconds as int),
        elapsed_nanos(since, now) == passed(since, now),
{
}

/// The reasons have these names in the store, and any other name stands for the first.
pub proof fn law_the_names_of_the_reasons(name: Seq<char>)
    ensures
        ArchivalReason::WatchLater.name() == "watch_later"@,
        ArchivalReason::RabbitHole.name() == "rabbit_hole"@,
        ArchivalReason::named(name) is RabbitHole <==> name == "rabbit_hole"@,
{
}

/// A pending tab is written field by field, and read back as it was, whenever that is:
/// the times by the text they are written as, the reason by its name, a video as a number
/// that is not zero.
pub proof fn law_a_pending_tab_is_read_back(
    tab: PendingTab,
    row: PendingRow,
    now: UtcTime,
    back: PendingTab,
)
    requires
        call_ensures(PendingTab::row, (&tab,), row),
        call_ensures(PendingRow::read_at, (&row, now), back),
    ensures
        back.tab_id == tab.tab_id,
        back.url == tab.url,
        back.title == tab.title,
        back.opener_tab_id == tab.opener_tab_id,
        back.created_at == tab.created_at,
        back.detected_at == tab.detected_at,
        back.reason == tab.reason,
        back.cluster_id == tab.cluster_id,
        back.is_video == tab.is_video,
        row.tab_id == tab.tab_id,
        row.url == tab.url,
        row.created_at@ == rfc3339_text(tab.created_at.seconds(), tab.created_at.subsec()),
        row.detected_at@ == rfc3339_text(tab.detected_at.seconds(), tab.detected_at.subsec()),
        row.reason@ == (if tab.reason is WatchLater {
            "watch_later"@
        } else {
            "rabbit_hole"@
        }),
        row.is_video != 0 <==> tab.is_video,
{
    assert(row.stands_for(tab));
    assert(row.tab(now) == tab);
}

/// A row is read field by field: a time that cannot be read is taken to be now, a name
/// that is not known stands for the first reason, and any number but zero for a video.
pub proof fn law_how_a_row_is_read(row: PendingRow, now: UtcTime, tab: PendingTab)
    requires
        call_ensures(PendingRow::read_at, (&row, now), tab),
    ensures
        tab.tab_id == row.tab_id,
        tab.url == row.url,
        tab.title == row.title,
        tab.opener_tab_id == row.opener_tab_id,
        tab.cluster_id == row.cluster_id,
        tab.is_video <==> row.is_video != 0,
        tab.reason is RabbitHole <==> row.reason@ == "rabbit_hole"@,
        parsed_utc(row.created_at@) matches Some(parts) ==> tab.created_at.seconds() == parts.0
            && tab.created_at.subsec() == parts.1,
        parsed_utc(row.created_at@) is None ==> tab.created_at == now,
        parsed_utc(row.detected_at@) matches Some(parts) ==> tab.detected_at.seconds() == parts.0
            && tab.detected_at.subsec() == parts.1,
        parsed_utc(row.detected_at@) is None ==> tab.detected_at == now,
{
    if let Some(parts) = parsed_utc(row.created_at@) {
        UtcTime::lemma_parts(now, parts.0, parts.1);
    }
    if let Some(parts) = parsed_utc(row.detected_at@) {
        UtcTime::lemma_parts(now, parts.0, parts.1);
    }
}

/// A stored time is the one that its text is read as; only where there is none it is now.
pub proof fn law_a_stored_time(text: &str, now: UtcTime, r: UtcTime)
    requires
        call_ensures(parse_dt_at, (text, now), r),
    ensures
        parsed_utc(text@) matches Some(parts) ==> r.seconds() == parts.0 && r.subsec() == parts.1,
        parsed_utc(text@) is None ==> r == now,
        r == stored_time(text@, now),
{
    if let Some(parts) = parsed_utc(text@) {
        UtcTime::lemma_parts(now, parts.0, parts.1);
    }
}

/// An archived tab is written field by field.
pub proof fn law_how_an_archived_tab_is_written(tab: ArchivedTab, row: ArchivedRow)
    requires
        call_ensures(ArchivedTab::row, (&tab,), row),
    ensures
        row.tab_id == tab.tab_id,
        row.url == tab.url,
        row.title == tab.title,
        row.opener_tab_id == tab.opener_tab_id,
        row.created_at@ == rfc3339_text(tab.created_at.seconds(), tab.created_at.subsec()),
        row.closed_at@ == rfc3339_text(tab.closed_at.seconds(), tab.closed_at.subsec()),
        row.reason@ == (if tab.reason is WatchLater {
            "watch_later"@
        } else {
            "rabbit_hole"@
        }),
        row.cluster_id == tab.cluster_id,
        row.extracted_text == tab.extracted_text,
        row.is_video == (if tab.is_video {
            1i64
        } else {
            0i64
        }),
{
}

/// The queue is handed out whole or not at all. Where one row cannot be read, nothing is
/// handed out or deleted. Else there is one tab for each row, in order, and the rows are
/// deleted unless there are none.
pub proof fn law_the_queue_is_taken_whole_or_not_at_all(
    rows: Vec<Option<PendingRow>>,
    now: UtcTime,
    r: Option<Taken>,
)
    requires
        call_ensures(taken_at, (&rows, now), r),
    ensures
        (exists|i: int| 0 <= i < rows@.len() && (#[trigger] rows@[i]) is None) <==> r is None,
        r matches Some(t) ==> {
            &&& t.tabs@.len() == rows@.len()
            &&& t.delete <==> rows@.len() > 0
            &&& forall|i: int|
                0 <= i < rows@.len() ==> (#[trigger] t.tabs@[i]).tab_id == rows@[i]->0.tab_id
                    && t.tabs@[i].url == rows@[i]->0.url && t.tabs@[i].title == rows@[i]->0.title
                    && t.tabs@[i].cluster_id == rows@[i]->0.cluster_id && (t.tabs@[i].is_video
                    <==> rows@[i]->0.is_video != 0) && (t.tabs@[i].reason is RabbitHole
                    <==> rows@[i]->0.reason@ == "rabbit_hole"@)
        },
{
    if let Some(t) = r {
        assert forall|i: int| 0 <= i < rows@.len() implies (#[trigger] t.tabs@[i]).tab_id
            == rows@[i]->0.tab_id && t.tabs@[i].url == rows@[i]->0.url && t.tabs@[i].title
            == rows@[i]->0.title && t.tabs@[i].cluster_id == rows@[i]->0.cluster_id && (
        t.tabs@[i].is_video <==> rows@[i]->0.is_video != 0) && (t.tabs@[i].reason is RabbitHole
            <==> rows@[i]->0.reason@ == "rabbit_hole"@) by {
            assert(t.tabs@[i] == rows@[i]->0.tab(now));
        }
    }
}

/// Leftovers are what was detected before the time that lies the hours back, each of them
/// 3600 seconds. Where there is no such time, nothing is left over.
pub proof fn law_what_is_left_over(now: UtcTime, hours: u64, r: String)
    requires
        now.subsec() < 1_000_000_000,
        call_ensures(leftover_threshold_at, (now, hours), r),
    ensures
        MIN_SECONDS <= now.seconds() - 3600 * hours ==> r@ == rfc3339_text(
            (now.seconds() - 3600 * hours) as i64,
            now.subsec(),
        ),
        MIN_SECONDS > now.seconds() - 3600 * hours ==> r@.len() == 0,
        r@ == leftover_text(now, hours),
{
    UtcTime::lemma_parts(now, (now.seconds() - 3600 * hours) as i64, now.subsec());
}

/// An earlier time has fewer seconds, or as many and fewer nanoseconds: of two times that
/// differ exactly one is the earlier one, and none is earlier than itself.
pub proof fn law_times_are_ordered(a: UtcTime, b: UtcTime, c: UtcTime)
    ensures
        a.seconds() < b.seconds() ==> a.earlier_than(b),
        a.seconds() == b.seconds() ==> (a.earlier_than(b) <==> a.subsec() < b.subsec()),
        !a.earlier_than(a),
        a.earlier_than(b) ==> !b.earlier_than(a),
        a.earlier_than(b) && b.earlier_than(c) ==> a.earlier_than(c),
        a == b || a.earlier_than(b) || b.earlier_than(a),
{
    UtcTime::lemma_parts(a, 0, 0);
    UtcTime::lemma_parts(b, 0, 0);
}

/// By the clock, too, the queue is taken whole or not at all: one tab for each row, in
/// order, and the rows deleted unless there are none.
pub proof fn law_the_queue_is_taken_by_the_clock(rows: Vec<Option<PendingRow>>, r: Option<Taken>)
    requires
        call_ensures(taken, (&rows,), r),
    ensures
        (exists|i: int| 0 <= i < rows@.len() && (#[trigger] rows@[i]) is None) <==> r is None,
        r matches Some(t) ==> t.tabs@.len() == rows@.len() && (t.delete <==> rows@.len() > 0)
            && forall|i: int|
            0 <= i < rows@.len() ==> (#[trigger] t.tabs@[i]).tab_id == rows@[i]->0.tab_id
                && t.tabs@[i].url == rows@[i]->0.url && (t.tabs@[i].reason is RabbitHole
                <==> rows@[i]->0.reason@ == "rabbit_hole"@) && (t.tabs@[i].is_video
                <==> rows@[i]->0.is_video != 0),
{
    if let Some(t) = r {
        let now = choose|now: UtcTime| now.valid() && #[trigger] takes(rows@, now, t);
        assert forall|i: int| 0 <= i < rows@.len() implies (#[trigger] t.tabs@[i]).tab_id
            == rows@[i]->0.tab_id && t.tabs@[i].url == rows@[i]->0.url && (
        t.tabs@[i].reason is RabbitHole <==> rows@[i]->0.reason@ == "rabbit_hole"@) && (
        t.tabs@[i].is_video <==> rows@[i]->0.is_video != 0) by {
            assert(t.tabs@[i] == rows@[i]->0.tab(now));
        }
    }
}

/// By the clock, too, a stored time is the one that its text is read as.
pub proof fn law_a_stored_time_by_the_clock(text: String, r: UtcTime)
    requires
        call_ensures(parse_dt, (text,), r),
    ensures
        parsed_utc(text@) matches Some(parts) ==> r.seconds() == parts.0 && r.subsec() == parts.1,
{
    if let Some(parts) = parsed_utc(text@) {
        UtcTime::lemma_parts(r, parts.0, parts.1);
    }
}

/// A time is made of its seconds and nanoseconds, and gives them back.
pub proof fn law_a_time_gives_its_parts_back(secs: i64, nanos: u32, r: Option<UtcTime>)
    requires
        call_ensures(UtcTime::from_timestamp, (secs, nanos), r),
    ensures
        r matches Some(t) ==> t.seconds() == secs && t.subsec() == nanos,
        0 <= secs <= 253_402_300_799 && nanos < 1_000_000_000 ==> r is Some,
        nanos >= 2_000_000_000 ==> r is None,
{
}

/// An hour has 3600 seconds.
pub proof fn law_hours_back(t: UtcTime, hours: u64, r: UtcTime)
    requires
        call_ensures(UtcTime::minus_hours, (&t, hours), r),
    ensures
        r.seconds() + 3600 * hours == t.seconds(),
        r.subsec() == t.subsec(),
{
}

}

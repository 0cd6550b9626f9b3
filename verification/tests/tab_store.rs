use resurfacer::clock::{UtcTime, MIN_SECONDS};
use resurfacer::tab_store::{
    leftover_threshold_at, parse_dt, parse_dt_at, taken, taken_at,
    ArchivalReason, PendingRow, PendingTab,
};

fn at(secs: i64, nanos: u32) -> UtcTime {
    UtcTime::from_timestamp(secs, nanos).unwrap()
}

fn tab(id: i64) -> PendingTab {
    PendingTab {
        tab_id: id,
        url: format!("https://example.com/{}", id),
        title: Some("Title".to_string()),
        opener_tab_id: Some(1),
        created_at: at(1_700_000_000, 1),
        detected_at: at(1_700_000_100, 250_000_000),
        reason: ArchivalReason::RabbitHole,
        cluster_id: Some("c".to_string()),
        is_video: true,
    }
}

fn shown<T: std::fmt::Debug>(t: &T) -> String {
    format!("{:?}", t)
}

#[test]
fn reasons_have_names() {
    assert_eq!(ArchivalReason::WatchLater.as_str(), "watch_later");
    assert_eq!(ArchivalReason::RabbitHole.as_str(), "rabbit_hole");
    assert!(ArchivalReason::WatchLater == ArchivalReason::WatchLater);
    assert!(ArchivalReason::WatchLater != ArchivalReason::RabbitHole);
}

#[test]
fn a_reason_is_read_back_from_its_name() {
    for reason in [ArchivalReason::WatchLater, ArchivalReason::RabbitHole] {
        assert_eq!(ArchivalReason::from_str(reason.as_str()), reason);
    }
    for other in ["", "RABBIT_HOLE", "rabbit_hole ", "something"] {
        assert_eq!(ArchivalReason::from_str(other), ArchivalReason::WatchLater);
    }
}

#[test]
fn a_row_stands_for_its_tab() {
    let row = tab(7).row();
    assert_eq!(row.created_at, "2023-11-14T22:13:20.000000001+00:00");
    assert_eq!(row.detected_at, "2023-11-14T22:15:00.250+00:00");
    assert_eq!(row.reason, "rabbit_hole");
    assert_eq!(row.is_video, 1);
    assert_eq!(shown(&row.read_at(at(0, 0))), shown(&tab(7)));
    let plain = PendingTab { title: None, opener_tab_id: None, cluster_id: None, is_video: false, ..tab(8) };
    assert_eq!(plain.row().is_video, 0);
    assert_eq!(shown(&plain.row().read_at(at(0, 0))), shown(&plain));
}

#[test]
fn a_time_that_cannot_be_read_is_now() {
    let now = at(1_800_000_000, 0);
    assert_eq!(parse_dt_at("soon", now), now);
    assert_eq!(parse_dt_at("1970-01-01T00:00:01+00:00", now), at(1, 0));
    assert_eq!(parse_dt("1970-01-01T00:00:01+00:00".to_string()), at(1, 0));
    assert!(parse_dt("soon".to_string()).timestamp() > 1_577_836_800);
    let row = PendingRow { created_at: "soon".to_string(), ..tab(7).row() };
    assert_eq!(row.read_at(now).created_at, now);
    assert_eq!(row.read_at(now).detected_at, tab(7).detected_at);
}

#[test]
fn any_number_but_zero_is_a_video() {
    for (n, video) in [(0, false), (1, true), (-1, true), (2, true)] {
        let row = PendingRow { is_video: n, ..tab(7).row() };
        assert_eq!(row.read_at(at(0, 0)).is_video, video);
    }
}

#[test]
fn all_rows_are_taken_and_deleted() {
    let rows = vec![Some(tab(1).row()), Some(tab(2).row())];
    let got = taken_at(&rows, at(0, 0)).unwrap();
    assert!(got.delete);
    assert_eq!(shown(&got.tabs), shown(&vec![tab(1), tab(2)]));
    let got = taken(&rows).unwrap();
    assert!(got.delete);
    assert_eq!(shown(&got.tabs), shown(&vec![tab(1), tab(2)]));
}

#[test]
fn nothing_is_taken_where_a_row_cannot_be_read() {
    for rows in [
        vec![None],
        vec![None, None],
        vec![Some(tab(1).row()), None],
        vec![None, Some(tab(1).row())],
        vec![Some(tab(1).row()), None, Some(tab(2).row())],
    ] {
        assert!(taken_at(&rows, at(0, 0)).is_none());
        assert!(taken(&rows).is_none());
    }
}

#[test]
fn of_no_rows_nothing_is_deleted() {
    let got = taken_at(&vec![], at(0, 0)).unwrap();
    assert!(!got.delete);
    assert!(got.tabs.is_empty());
}

#[test]
fn what_is_archived_without_content() {
    let a = tab(7).archive(at(1_700_000_200, 0));
    assert_eq!(a.tab_id, 7);
    assert_eq!(a.url, "https://example.com/7");
    assert_eq!(a.title, Some("Title".to_string()));
    assert_eq!(a.closed_at, at(1_700_000_200, 0));
    assert_eq!(a.extracted_text, None);
    assert!(a.is_video);
    let row = a.row();
    assert_eq!(row.closed_at, "2023-11-14T22:16:40+00:00");
    assert_eq!(row.created_at, "2023-11-14T22:13:20.000000001+00:00");
    assert_eq!(row.reason, "rabbit_hole");
    assert_eq!(row.cluster_id, Some("c".to_string()));
    assert_eq!(row.is_video, 1);
}

#[test]
fn leftover_tabs_were_detected_hours_ago() {
    let threshold = leftover_threshold_at(at(1_700_000_000, 0), 8);
    assert_eq!(threshold, "2023-11-14T14:13:20+00:00");
    assert!(at(1_699_971_199, 999_999_999).to_rfc3339() < threshold);
    assert!(!(at(1_699_971_200, 0).to_rfc3339() < threshold));
    assert!(!(at(1_699_971_200, 1).to_rfc3339() < threshold));
}

#[test]
fn nothing_was_detected_before_all_time() {
    let now = at(1_700_000_000, 0);
    assert_eq!(leftover_threshold_at(now, u64::MAX), "");
    // the last number of hours that the calendar reaches back, and the next one
    let most: u64 = ((1_700_000_000 - MIN_SECONDS) / 3600) as u64;
    assert!(UtcTime::parse(&leftover_threshold_at(now, most)).is_some());
    assert_eq!(leftover_threshold_at(now, most + 1), "");
    assert!(!(at(MIN_SECONDS, 0).to_rfc3339().as_str() < ""));
}

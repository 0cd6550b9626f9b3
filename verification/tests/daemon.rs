use resurfacer::clock::UtcTime;
use resurfacer::config::{Config, LlmConfig};
use resurfacer::daemon::{reason_str, recaps_of, Call, Daemon, Event, Next, Stage, Turn};
use resurfacer::idle_detector::Sample;
use resurfacer::messages::{DaemonCommand, ExtensionMessage};
use resurfacer::presenter::{PresenterAction, RecapPayload};
use resurfacer::tab_store::{ArchivalReason, PendingTab, StoreReply, StoreRequest};

fn tab(id: i64, reason: ArchivalReason) -> PendingTab {
    let t = UtcTime::from_timestamp(1_700_000_000, 0).unwrap();
    PendingTab {
        tab_id: id,
        url: format!("https://example.com/{}", id),
        title: if id % 2 == 0 { None } else { Some(format!("Tab {}", id)) },
        opener_tab_id: None,
        created_at: t,
        detected_at: t,
        reason,
        cluster_id: None,
        is_video: false,
    }
}

fn daemon() -> Daemon {
    let mut config = Config::default();
    config.watch_later.grace_period_seconds = 0;
    config.idle_detection.debounce_seconds = 0;
    let idle = config.idle_detection.clone();
    let llm = config.llm.clone();
    Daemon::new(config, idle, llm)
}

fn video(id: i64) -> Event {
    Event::Message(ExtensionMessage::TabCreated {
        tab_id: id,
        url: "https://vimeo.com/1".to_string(),
        title: None,
        opener_tab_id: Some(1),
        created_at: 0,
    })
}

fn idle_tick() -> Event {
    Event::IdleTick(Sample { last_input_ms: 0, fullscreen: false, foreground: None })
}

fn asked(turn: Turn) -> (StoreRequest, Stage) {
    assert!(turn.commands.is_empty());
    assert!(turn.recaps.is_empty());
    assert!(turn.failed.is_none());
    match turn.next {
        Next::Ask { request, stage } => (request, stage),
        other => panic!("{:?}", other),
    }
}

fn waits(turn: &Turn) -> bool {
    turn.commands.is_empty() && turn.recaps.is_empty() && turn.failed.is_none() && matches!(turn.next, Next::Wait)
}

fn outline(recaps: &Vec<RecapPayload>) -> Vec<(String, usize, Vec<(String, String)>)> {
    recaps
        .iter()
        .map(|r| {
            let entries = r.entries.iter().map(|e| (e.title.clone(), e.url.clone())).collect();
            (r.reason.clone(), r.tab_count, entries)
        })
        .collect()
}

#[test]
fn reasons_are_named() {
    assert_eq!(reason_str(ArchivalReason::WatchLater), "watch_later");
    assert_eq!(reason_str(ArchivalReason::RabbitHole), "rabbit_hole");
}

#[test]
fn there_is_one_recap_for_each_reason() {
    let tabs = vec![
        tab(1, ArchivalReason::RabbitHole),
        tab(2, ArchivalReason::WatchLater),
        tab(3, ArchivalReason::RabbitHole),
    ];
    let llm = LlmConfig { ollama_url: "u".to_string(), ollama_model: "m".to_string(), ..LlmConfig::default() };
    let recaps = recaps_of(&tabs, &llm);
    let url = |id: i64| format!("https://example.com/{}", id);
    assert_eq!(
        outline(&recaps),
        vec![
            (
                "rabbit_hole".to_string(),
                2,
                vec![("Tab 1".to_string(), url(1)), ("Tab 3".to_string(), url(3))]
            ),
            ("watch_later".to_string(), 1, vec![("".to_string(), url(2))]),
        ]
    );
    assert_eq!(recaps[1].ollama_url, "u");
    assert_eq!(recaps[1].ollama_model, "m");
    assert!(recaps_of(&vec![], &llm).is_empty());
}

#[test]
fn a_message_is_handled() {
    let mut d = daemon();
    assert!(waits(&d.on_event(video(5))));
    let turn = d.on_event(Event::Message(ExtensionMessage::TabRemoved { tab_id: 5 }));
    let (request, stage) = asked(turn);
    assert!(matches!(request, StoreRequest::RemovePending(5)));
    assert!(waits(&d.resume(stage, StoreReply::Done)));
}

#[test]
fn a_failed_call_is_reported() {
    let mut d = daemon();
    let turn = d.on_event(Event::Message(ExtensionMessage::TabRemoved { tab_id: 5 }));
    let (_, stage) = asked(turn);
    let turn = d.resume(stage, StoreReply::Failed);
    assert!(matches!(turn.failed, Some(Call::Message)));
    assert!(matches!(turn.next, Next::Wait));
}

#[test]
fn a_free_moment_flushes_the_queue() {
    let mut d = daemon();
    d.on_event(video(5));
    let turn = d.on_event(Event::SweepTick);
    let (request, stage) = asked(turn);
    assert!(matches!(request, StoreRequest::InsertPending(ref t) if t.tab_id == 5));
    // not yet in a free moment: the queue is left alone
    assert!(waits(&d.resume(stage, StoreReply::Done)));
    assert!(waits(&d.on_event(idle_tick())));
    let turn = d.on_event(idle_tick());
    let (request, stage) = asked(turn);
    assert!(matches!(request, StoreRequest::TakeAllPending));
    let row = PendingTab { is_video: true, ..tab(5, ArchivalReason::WatchLater) };
    let turn = d.resume(stage, StoreReply::Tabs(vec![row]));
    let (request, stage) = asked(turn);
    assert!(matches!(request, StoreRequest::ArchiveTab(ref t) if t.tab_id == 5));
    let turn = d.resume(stage, StoreReply::Done);
    assert_eq!(turn.commands.len(), 1);
    assert!(matches!(turn.commands[0], DaemonCommand::CloseTab { tab_id: 5 }));
    assert_eq!(turn.recaps.len(), 1);
    assert_eq!(turn.recaps[0].reason, "watch_later");
    assert!(matches!(turn.next, Next::Wait));
    // the free moment is announced once
    assert!(waits(&d.on_event(idle_tick())));
}

#[test]
fn tabs_queued_in_a_free_moment_are_flushed_at_once() {
    let mut d = daemon();
    d.on_event(idle_tick());
    let (_, stage) = asked(d.on_event(idle_tick()));
    assert!(waits(&d.resume(stage, StoreReply::Tabs(vec![]))));
    let (request, stage) = asked(d.on_event(Event::SweepTick));
    assert!(matches!(request, StoreRequest::CountPending));
    let (request, stage) = asked(d.resume(stage, StoreReply::Count(2)));
    assert!(matches!(request, StoreRequest::TakeAllPending));
    let turn = d.resume(stage, StoreReply::Failed);
    assert!(matches!(turn.failed, Some(Call::Flush)));
    for reply in [StoreReply::Count(0), StoreReply::Failed] {
        let (_, stage) = asked(d.on_event(Event::SweepTick));
        assert!(waits(&d.resume(stage, reply)));
    }
}

#[test]
fn a_sweep_that_fails_in_a_free_moment_still_counts_the_queue() {
    let mut d = daemon();
    d.on_event(idle_tick());
    d.on_event(idle_tick());
    d.on_event(video(5));
    let (_, stage) = asked(d.on_event(Event::SweepTick));
    let turn = d.resume(stage, StoreReply::Failed);
    assert!(matches!(turn.failed, Some(Call::Sweep)));
    assert!(matches!(turn.next, Next::Ask { request: StoreRequest::CountPending, .. }));
}

#[test]
fn the_user_can_reopen_addresses() {
    let mut d = daemon();
    let urls = vec!["a".to_string(), "b".to_string()];
    let turn = d.on_event(Event::UserAction(PresenterAction::ReopenUrls(urls)));
    assert!(matches!(&turn.commands[0], DaemonCommand::ReopenUrls { urls } if urls == &vec!["a", "b"]));
    assert_eq!(turn.commands.len(), 1);
    assert!(matches!(turn.next, Next::Wait));
}

#[test]
fn the_daemon_exits_with_the_extension() {
    assert!(matches!(daemon().on_event(Event::Disconnected).next, Next::Exit));
}

#[test]
fn leftover_tabs_are_archived_at_startup() {
    let mut d = daemon();
    let (request, stage) = asked(d.startup());
    match request {
        StoreRequest::TakeLeftoverPending { threshold } => {
            let secs = UtcTime::parse(&threshold).unwrap().timestamp();
            assert!((UtcTime::now().timestamp() - secs - 8 * 3600).abs() < 10);
        }
        other => panic!("{:?}", other),
    }
    let tabs = vec![tab(1, ArchivalReason::WatchLater), tab(2, ArchivalReason::WatchLater)];
    let (request, stage) = asked(d.resume(stage, StoreReply::Tabs(tabs)));
    assert!(matches!(request, StoreRequest::ArchiveTab(ref t) if t.tab_id == 1));
    // a tab that cannot be archived does not hold up the others
    let (request, stage) = asked(d.resume(stage, StoreReply::Failed));
    assert!(matches!(request, StoreRequest::ArchiveTab(ref t) if t.tab_id == 2));
    let turn = d.resume(stage, StoreReply::Done);
    assert_eq!(turn.recaps.len(), 1);
    assert_eq!(turn.recaps[0].tab_count, 2);
    assert!(turn.commands.is_empty());
    assert!(matches!(turn.next, Next::Wait));
}

#[test]
fn startup_without_leftovers_shows_nothing() {
    let mut d = daemon();
    let (_, stage) = asked(d.startup());
    assert!(waits(&d.resume(stage, StoreReply::Tabs(vec![]))));
    let (_, stage) = asked(d.startup());
    let turn = d.resume(stage, StoreReply::Failed);
    assert!(matches!(turn.failed, Some(Call::Startup)));
    assert!(matches!(turn.next, Next::Wait));
}

/// A store in memory.
struct Store {
    pending: Vec<PendingTab>,
    archived: Vec<i64>,
}

impl Store {
    fn perform(&mut self, request: StoreRequest) -> StoreReply {
        match request {
            StoreRequest::InsertPending(tab) => {
                if self.pending.iter().all(|t| t.tab_id != tab.tab_id) {
                    self.pending.push(tab);
                }
                StoreReply::Done
            }
            StoreRequest::RemovePending(id) => {
                self.pending.retain(|t| t.tab_id != id);
                StoreReply::Done
            }
            StoreRequest::ArchiveTab(tab) => {
                self.archived.push(tab.tab_id);
                StoreReply::Done
            }
            StoreRequest::TakeAllPending => StoreReply::Tabs(std::mem::take(&mut self.pending)),
            StoreRequest::TakeLeftoverPending { .. } => StoreReply::Tabs(vec![]),
            StoreRequest::CountPending => StoreReply::Count(self.pending.len()),
        }
    }
}

#[test]
fn a_session_from_detection_to_archive() {
    const SECOND: u64 = 1_000_000_000;
    let mut config = Config::default();
    config.watch_later.grace_period_seconds = 4;
    config.idle_detection.debounce_seconds = 8;
    let idle = config.idle_detection.clone();
    let llm = config.llm.clone();
    let mut d = Daemon::new(config, idle, llm);
    let mut store = Store { pending: vec![], archived: vec![] };
    let created = |id: i64, url: &str, opener: Option<i64>| {
        Event::Message(ExtensionMessage::TabCreated {
            tab_id: id,
            url: url.to_string(),
            title: None,
            opener_tab_id: opener,
            created_at: 0,
        })
    };
    let mut sent: Vec<String> = vec![];
    let mut shown: Vec<(String, usize)> = vec![];
    for secs in 0..=20u64 {
        let mut events = vec![];
        if secs == 0 {
            events.push(created(2001, "https://www.youtube.com/watch?v=dQw4w9WgXcQ", Some(2000)));
            events.push(created(2002, "https://news.ycombinator.com/item?id=12345", None));
            events.push(created(2003, "https://www.youtube.com/watch?v=focused", Some(2000)));
            events.push(Event::Message(ExtensionMessage::TabActivated { tab_id: 2003 }));
        }
        if secs == 11 {
            events.push(created(2004, "https://vimeo.com/4", Some(2000)));
        }
        if secs % 5 == 0 {
            events.push(Event::SweepTick);
        }
        events.push(idle_tick());
        for event in events {
            let utc = UtcTime::from_timestamp(1_700_000_000 + secs as i64, 0).unwrap();
            let mut turn = d.on_event_at(event, secs * SECOND, utc);
            loop {
                assert!(turn.failed.is_none());
                sent.extend(turn.commands.iter().map(|c| format!("{} {:?}", secs, c)));
                shown.extend(turn.recaps.iter().map(|r| (r.reason.clone(), r.tab_count)));
                match turn.next {
                    Next::Wait => break,
                    Next::Exit => panic!("exit"),
                    Next::Ask { request, stage } => {
                        let reply = store.perform(request);
                        turn = d.resume_at(stage, reply, secs * SECOND, utc);
                    }
                }
            }
        }
        let queued: Vec<i64> = store.pending.iter().map(|t| t.tab_id).collect();
        assert_eq!(queued, if (5..8).contains(&secs) { vec![2001] } else { vec![] }, "{}", secs);
    }
    // the free moment goes on, so the tab of the eleventh second is put away at the
    // sweep that detects it
    assert_eq!(sent, vec!["8 CloseTab { tab_id: 2001 }", "15 CloseTab { tab_id: 2004 }"]);
    assert_eq!(store.archived, vec![2001, 2004]);
    assert_eq!(shown, vec![("watch_later".to_string(), 1), ("watch_later".to_string(), 1)]);
}

#[test]
fn the_threshold_of_startup_is_eight_hours_ago() {
    let (request, _) = asked(daemon().startup_at(UtcTime::from_timestamp(1_700_000_000, 0).unwrap()));
    match request {
        StoreRequest::TakeLeftoverPending { threshold } => {
            assert_eq!(threshold, "2023-11-14T14:13:20+00:00")
        }
        other => panic!("{:?}", other),
    }
}

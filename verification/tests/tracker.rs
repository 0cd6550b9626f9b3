use resurfacer::clock::UtcTime;
use resurfacer::config::Config;
use resurfacer::messages::{DaemonCommand, ExtensionMessage};
use resurfacer::tab_store::{
    leftover_threshold_at, taken_at, ArchivalReason, ArchivedTab, PendingRow, PendingTab, StoreReply, StoreRequest,
};
use resurfacer::tab_tracker::{
    queue_clusters, Job, Output, Progress, TabTracker,
};

const SECOND: u64 = 1_000_000_000;

fn at(secs: i64) -> UtcTime {
    UtcTime::from_timestamp(secs, 0).unwrap()
}

/// A store in memory. It fails the request with the given number.
struct Store {
    pending: Vec<PendingTab>,
    archived: Vec<ArchivedTab>,
    asked: usize,
    fail_at: Option<usize>,
}

impl Store {
    fn new() -> Store {
        Store { pending: vec![], archived: vec![], asked: 0, fail_at: None }
    }

    fn perform(&mut self, request: StoreRequest) -> StoreReply {
        self.asked += 1;
        if self.fail_at == Some(self.asked) {
            return StoreReply::Failed;
        }
        match request {
            StoreRequest::InsertPending(tab) => {
                if self.pending.iter().all(|t| t.tab_id != tab.tab_id) {
                    self.pending.push(tab);
                }
                StoreReply::Done
            }
            StoreRequest::RemovePending(id) => {
                self.pending.retain(|t| t.tab_id != id);
                StoreReply::Done
            }
            StoreRequest::ArchiveTab(tab) => {
                self.archived.push(tab);
                StoreReply::Done
            }
            StoreRequest::TakeAllPending => StoreReply::Tabs(std::mem::take(&mut self.pending)),
            StoreRequest::TakeLeftoverPending { threshold } => {
                let (old, new) = std::mem::take(&mut self.pending)
                    .into_iter()
                    .partition(|t: &PendingTab| t.detected_at.to_rfc3339() < threshold);
                self.pending = new;
                StoreReply::Tabs(old)
            }
            StoreRequest::CountPending => StoreReply::Count(self.pending.len()),
        }
    }

    fn queue(&self) -> Vec<i64> {
        let mut ids: Vec<i64> = self.pending.iter().map(|t| t.tab_id).collect();
        ids.sort();
        ids
    }
}

/// Carries a call through to its end; `None` where the store failed.
fn finish(
    tracker: &mut TabTracker,
    store: &mut Store,
    mut progress: Progress,
    secs: u64,
) -> Option<Output> {
    loop {
        match progress {
            Progress::Ask { request, job } => {
                let reply = store.perform(request);
                progress = tracker.resume_at(job, reply, secs * SECOND, at(secs as i64));
            }
            Progress::Finished(result) => return result.ok(),
        }
    }
}

fn send(tracker: &mut TabTracker, store: &mut Store, msg: ExtensionMessage, secs: u64) -> Option<Output> {
    let progress = tracker.handle_message_at(msg, secs * SECOND, at(secs as i64));
    finish(tracker, store, progress, secs)
}

fn sweep(tracker: &mut TabTracker, store: &mut Store, secs: u64) -> Option<Output> {
    let progress = tracker.check_candidates_at(secs * SECOND, at(secs as i64));
    finish(tracker, store, progress, secs)
}

fn flush(tracker: &mut TabTracker, store: &mut Store, secs: u64) -> Option<Output> {
    let progress = tracker.flush_pending();
    finish(tracker, store, progress, secs)
}

fn created(id: i64, url: &str, opener: Option<i64>) -> ExtensionMessage {
    ExtensionMessage::TabCreated {
        tab_id: id,
        url: url.to_string(),
        title: Some(format!("Tab {}", id)),
        opener_tab_id: opener,
        created_at: 0,
    }
}

fn activated(id: i64) -> ExtensionMessage {
    ExtensionMessage::TabActivated { tab_id: id }
}

fn content(id: i64, text: &str, title: Option<&str>) -> ExtensionMessage {
    ExtensionMessage::TabContent {
        tab_id: id,
        text: text.to_string(),
        title: title.map(|t| t.to_string()),
    }
}

fn shown(commands: &Vec<DaemonCommand>) -> Vec<String> {
    let mut all: Vec<String> = commands.iter().map(|c| format!("{:?}", c)).collect();
    all.sort();
    all
}

fn nothing(output: Option<Output>) -> bool {
    output.map_or(false, |o| o.commands.is_empty() && o.flushed.is_empty())
}

fn quick() -> Config {
    let mut config = Config::default();
    config.watch_later.grace_period_seconds = 4;
    config
}

#[test]
fn the_settings_have_defaults() {
    let c = Config::default();
    assert_eq!(c.watch_later.grace_period_seconds, 20);
    assert_eq!(c.watch_later.video_domains, vec!["youtube.com", "twitch.tv", "vimeo.com"]);
    assert_eq!(c.rabbit_hole.cluster_window_minutes, 10);
    assert_eq!(c.rabbit_hole.no_focus_threshold_minutes, 15);
    assert_eq!(c.rabbit_hole.min_cluster_size, 3);
    assert_eq!(c.idle_detection.presence_threshold_seconds, 120);
    assert_eq!(c.idle_detection.debounce_seconds, 15);
    assert_eq!(c.idle_detection.heavy_process_denylist, vec!["obs64.exe", "premiere.exe"]);
    assert_eq!(c.llm.model_path, "./models/qwen2.5-7b-instruct-q4_k_m.gguf");
    assert_eq!(c.llm.max_tabs_per_summary_batch, 30);
    assert_eq!(c.llm.excerpt_word_limit, 300);
    assert_eq!(c.llm.ollama_url, "http://localhost:11434");
}

#[test]
fn an_unfocused_video_is_archived_after_a_free_moment() {
    let mut tracker = TabTracker::new(quick());
    let mut store = Store::new();
    let video = "https://www.youtube.com/watch?v=dQw4w9WgXcQ";
    assert!(nothing(send(&mut tracker, &mut store, created(2001, video, Some(2000)), 0)));
    let news = "https://news.ycombinator.com/item?id=12345";
    assert!(nothing(send(&mut tracker, &mut store, created(2002, news, None), 0)));
    let focused = "https://www.youtube.com/watch?v=focused";
    assert!(nothing(send(&mut tracker, &mut store, created(2003, focused, Some(2000)), 0)));
    assert!(nothing(send(&mut tracker, &mut store, activated(2003), 0)));

    assert!(nothing(sweep(&mut tracker, &mut store, 0)));
    assert!(store.queue().is_empty());
    assert!(nothing(sweep(&mut tracker, &mut store, 5)));
    assert_eq!(store.queue(), vec![2001]);
    assert_eq!(store.pending[0].reason, ArchivalReason::WatchLater);
    assert_eq!(store.pending[0].url, video);
    assert_eq!(store.pending[0].created_at, at(0));
    assert_eq!(store.pending[0].detected_at, at(5));
    assert_eq!(store.pending[0].cluster_id, None);
    assert!(store.pending[0].is_video);

    let output = flush(&mut tracker, &mut store, 8).unwrap();
    assert_eq!(shown(&output.commands), vec!["CloseTab { tab_id: 2001 }"]);
    assert_eq!(output.flushed.len(), 1);
    assert_eq!(store.archived.len(), 1);
    assert_eq!(store.archived[0].tab_id, 2001);
    assert_eq!(store.archived[0].closed_at, at(8));
    assert_eq!(store.archived[0].extracted_text, None);
    assert!(store.archived[0].is_video);
    assert!(store.queue().is_empty());
    // the closed tab is forgotten
    assert!(nothing(send(&mut tracker, &mut store, activated(2001), 9)));
    assert!(nothing(sweep(&mut tracker, &mut store, 100)));
    assert!(store.queue().is_empty());
}

#[test]
fn a_video_waits_for_the_whole_grace_period() {
    let mut tracker = TabTracker::new(quick());
    let mut store = Store::new();
    send(&mut tracker, &mut store, created(1, "https://vimeo.com/1", Some(9)), 10);
    let early = tracker.check_candidates_at(14 * SECOND - 1, at(14));
    assert!(nothing(finish(&mut tracker, &mut store, early, 14)));
    assert!(store.queue().is_empty());
    sweep(&mut tracker, &mut store, 14);
    assert_eq!(store.queue(), vec![1]);
}

#[test]
fn only_videos_that_were_opened_aside_are_watched_later() {
    let mut tracker = TabTracker::new(quick());
    let mut store = Store::new();
    send(&mut tracker, &mut store, created(1, "https://vimeo.com/1", None), 0);
    send(&mut tracker, &mut store, created(2, "https://example.com", Some(9)), 0);
    send(&mut tracker, &mut store, created(3, "https://example.com/?from=twitch.tv", Some(9)), 0);
    sweep(&mut tracker, &mut store, 100);
    assert_eq!(store.queue(), vec![3]);
}

#[test]
fn an_update_can_make_a_tab_a_video() {
    let mut tracker = TabTracker::new(quick());
    let mut store = Store::new();
    send(&mut tracker, &mut store, created(1, "https://example.com", Some(9)), 0);
    send(&mut tracker, &mut store, created(2, "https://vimeo.com/2", Some(9)), 0);
    let update = |id: i64, url: Option<&str>, title: Option<&str>| ExtensionMessage::TabUpdated {
        tab_id: id,
        url: url.map(|u| u.to_string()),
        title: title.map(|t| t.to_string()),
        status: None,
    };
    assert!(nothing(send(&mut tracker, &mut store, update(1, Some("https://youtube.com/x"), None), 1)));
    assert!(nothing(send(&mut tracker, &mut store, update(1, None, Some("New")), 1)));
    assert!(nothing(send(&mut tracker, &mut store, update(2, Some("https://example.com"), None), 1)));
    assert!(nothing(send(&mut tracker, &mut store, update(3, Some("https://youtube.com"), None), 1)));
    sweep(&mut tracker, &mut store, 100);
    assert_eq!(store.queue(), vec![1]);
    assert_eq!(store.pending[0].url, "https://youtube.com/x");
    assert_eq!(store.pending[0].title, Some("New".to_string()));
}

#[test]
fn a_focused_tab_is_rescued_from_the_queue() {
    let mut tracker = TabTracker::new(quick());
    let mut store = Store::new();
    send(&mut tracker, &mut store, created(1, "https://vimeo.com/1", Some(9)), 0);
    send(&mut tracker, &mut store, created(2, "https://vimeo.com/2", Some(9)), 0);
    sweep(&mut tracker, &mut store, 5);
    assert_eq!(store.queue(), vec![1, 2]);
    assert!(nothing(send(&mut tracker, &mut store, activated(1), 6)));
    assert_eq!(store.queue(), vec![2]);
    // it was focused once, so it is no candidate any more
    sweep(&mut tracker, &mut store, 100);
    assert_eq!(store.queue(), vec![2]);
    let output = flush(&mut tracker, &mut store, 101).unwrap();
    assert_eq!(shown(&output.commands), vec!["CloseTab { tab_id: 2 }"]);
}

#[test]
fn a_rescue_that_fails_leaves_the_tab_queued() {
    let mut tracker = TabTracker::new(quick());
    let mut store = Store::new();
    send(&mut tracker, &mut store, created(1, "https://vimeo.com/1", Some(9)), 0);
    sweep(&mut tracker, &mut store, 5);
    store.fail_at = Some(store.asked + 1);
    assert!(send(&mut tracker, &mut store, activated(1), 6).is_none());
    assert_eq!(store.queue(), vec![1]);
    // asked again, it is rescued
    assert!(nothing(send(&mut tracker, &mut store, activated(1), 7)));
    assert!(store.queue().is_empty());
}

#[test]
fn a_removed_tab_leaves_nothing_behind() {
    let mut tracker = TabTracker::new(quick());
    let mut store = Store::new();
    send(&mut tracker, &mut store, created(1, "https://vimeo.com/1", Some(9)), 0);
    sweep(&mut tracker, &mut store, 5);
    assert!(nothing(send(&mut tracker, &mut store, ExtensionMessage::TabRemoved { tab_id: 1 }, 6)));
    assert!(store.queue().is_empty());
    assert!(nothing(flush(&mut tracker, &mut store, 7)));
    assert!(store.archived.is_empty());
    // a tab that is not known may be removed too
    assert!(nothing(send(&mut tracker, &mut store, ExtensionMessage::TabRemoved { tab_id: 5 }, 6)));
}

#[test]
fn a_tab_stays_known_where_its_removal_fails() {
    let mut tracker = TabTracker::new(quick());
    let mut store = Store::new();
    send(&mut tracker, &mut store, created(1, "https://vimeo.com/1", Some(9)), 0);
    store.fail_at = Some(1);
    assert!(send(&mut tracker, &mut store, ExtensionMessage::TabRemoved { tab_id: 1 }, 1).is_none());
    sweep(&mut tracker, &mut store, 100);
    assert_eq!(store.queue(), vec![1]);
}

fn abandoned_cluster() -> (TabTracker, Store) {
    let mut tracker = TabTracker::new(quick());
    let mut store = Store::new();
    send(&mut tracker, &mut store, created(1, "https://a.example/1", None), 0);
    send(&mut tracker, &mut store, created(2, "https://a.example/2", Some(1)), 1);
    send(&mut tracker, &mut store, created(3, "https://vimeo.com/3", Some(2)), 2);
    send(&mut tracker, &mut store, activated(3), 3);
    (tracker, store)
}

#[test]
fn an_abandoned_cluster_is_queued_under_one_id() {
    let (mut tracker, mut store) = abandoned_cluster();
    assert!(nothing(sweep(&mut tracker, &mut store, 902)));
    assert!(store.queue().is_empty());
    assert!(nothing(sweep(&mut tracker, &mut store, 903)));
    assert_eq!(store.queue(), vec![1, 2, 3]);
    let id = store.pending[0].cluster_id.clone().unwrap();
    for tab in &store.pending {
        assert_eq!(tab.reason, ArchivalReason::RabbitHole);
        assert_eq!(tab.cluster_id, Some(id.clone()));
        assert_eq!(tab.is_video, tab.tab_id == 3);
        assert_eq!(tab.detected_at, at(903));
    }
    // a version 4 UUID in lower case
    assert_eq!(uuid::Uuid::parse_str(&id).unwrap().get_version_num(), 4);
    assert_eq!(id, uuid::Uuid::parse_str(&id).unwrap().to_string());
    assert!("89ab".contains(&id[19..20]));
    // they are queued once
    assert!(nothing(sweep(&mut tracker, &mut store, 904)));
    assert_eq!(store.queue(), vec![1, 2, 3]);
}

#[test]
fn two_clusters_have_two_ids() {
    let mut tracker = TabTracker::new(quick());
    let mut store = Store::new();
    for (root, secs) in [(10, 0), (20, 5000)] {
        send(&mut tracker, &mut store, created(root, "https://a.example", None), secs);
        send(&mut tracker, &mut store, created(root + 1, "https://a.example", Some(root)), secs);
        send(&mut tracker, &mut store, created(root + 2, "https://a.example", Some(root)), secs);
    }
    sweep(&mut tracker, &mut store, 10_000);
    assert_eq!(store.queue(), vec![10, 11, 12, 20, 21, 22]);
    let id_of = |id: i64| {
        store.pending.iter().find(|t| t.tab_id == id).unwrap().cluster_id.clone().unwrap()
    };
    assert_eq!(id_of(10), id_of(12));
    assert_eq!(id_of(20), id_of(21));
    assert_ne!(id_of(10), id_of(20));
}

#[test]
fn flushed_tabs_give_their_content_first() {
    let (mut tracker, mut store) = abandoned_cluster();
    sweep(&mut tracker, &mut store, 903);
    let cluster_id = store.pending[0].cluster_id.clone();
    let output = flush(&mut tracker, &mut store, 910).unwrap();
    assert_eq!(output.flushed.len(), 3);
    assert_eq!(
        shown(&output.commands),
        vec!["CloseTab { tab_id: 3 }", "RequestContent { tab_id: 1 }", "RequestContent { tab_id: 2 }"]
    );
    assert_eq!(store.archived.len(), 1);
    assert_eq!(store.archived[0].tab_id, 3);
    assert!(store.queue().is_empty());

    let output = send(&mut tracker, &mut store, content(1, "some text", Some("Fresh")), 911).unwrap();
    assert_eq!(shown(&output.commands), vec!["CloseTab { tab_id: 1 }"]);
    assert_eq!(store.archived.len(), 2);
    assert_eq!(store.archived[1].tab_id, 1);
    assert_eq!(store.archived[1].title, Some("Fresh".to_string()));
    assert_eq!(store.archived[1].extracted_text, Some("some text".to_string()));
    assert_eq!(store.archived[1].reason, ArchivalReason::RabbitHole);
    assert_eq!(store.archived[1].cluster_id, cluster_id);
    assert_eq!(store.archived[1].closed_at, at(911));
    assert!(!store.archived[1].is_video);
    // once is enough
    assert!(nothing(send(&mut tracker, &mut store, content(1, "more", None), 912)));
    assert_eq!(store.archived.len(), 2);

    // content without text, and no new title
    let output = send(&mut tracker, &mut store, content(2, "", None), 913).unwrap();
    assert_eq!(shown(&output.commands), vec!["CloseTab { tab_id: 2 }"]);
    assert_eq!(store.archived[2].extracted_text, None);
    assert_eq!(store.archived[2].title, Some("Tab 2".to_string()));
}

#[test]
fn content_that_was_not_asked_for_is_ignored() {
    let (mut tracker, mut store) = abandoned_cluster();
    assert!(nothing(send(&mut tracker, &mut store, content(1, "text", Some("T")), 5)));
    assert!(nothing(send(&mut tracker, &mut store, content(77, "text", None), 5)));
    sweep(&mut tracker, &mut store, 903);
    assert!(nothing(send(&mut tracker, &mut store, content(1, "text", None), 904)));
    assert!(store.archived.is_empty());
    assert_eq!(store.pending.iter().find(|t| t.tab_id == 1).unwrap().title, Some("Tab 1".to_string()));
}

#[test]
fn content_is_still_awaited_where_archiving_fails() {
    let (mut tracker, mut store) = abandoned_cluster();
    sweep(&mut tracker, &mut store, 903);
    flush(&mut tracker, &mut store, 910);
    store.fail_at = Some(store.asked + 1);
    assert!(send(&mut tracker, &mut store, content(1, "text", None), 911).is_none());
    let output = send(&mut tracker, &mut store, content(1, "text", None), 912).unwrap();
    assert_eq!(shown(&output.commands), vec!["CloseTab { tab_id: 1 }"]);
}

#[test]
fn a_queued_tab_that_is_not_open_is_archived_as_it_is() {
    let (mut old, mut store) = abandoned_cluster();
    sweep(&mut old, &mut store, 903);
    // a new session knows none of the tabs
    let mut tracker = TabTracker::new(quick());
    let output = flush(&mut tracker, &mut store, 2000).unwrap();
    assert!(output.commands.is_empty());
    assert_eq!(output.flushed.len(), 3);
    assert_eq!(store.archived.len(), 3);
    for tab in &store.archived {
        assert_eq!(tab.is_video, tab.tab_id == 3);
        assert_eq!(tab.extracted_text, None);
    }
}

#[test]
fn an_empty_queue_flushes_to_nothing() {
    let (mut tracker, mut store) = abandoned_cluster();
    assert!(nothing(flush(&mut tracker, &mut store, 10)));
    assert_eq!(store.asked, 1);
}

#[test]
fn a_flush_fails_with_the_store() {
    let (mut tracker, mut store) = abandoned_cluster();
    sweep(&mut tracker, &mut store, 903);
    store.fail_at = Some(store.asked + 1);
    assert!(flush(&mut tracker, &mut store, 910).is_none());
    assert_eq!(store.queue(), vec![1, 2, 3]);
    // the next one goes through
    assert_eq!(flush(&mut tracker, &mut store, 911).unwrap().flushed.len(), 3);
}

#[test]
fn a_sweep_fails_with_the_store() {
    let mut tracker = TabTracker::new(quick());
    let mut store = Store::new();
    for id in 1..5 {
        send(&mut tracker, &mut store, created(id, "https://vimeo.com/1", Some(9)), 0);
    }
    store.fail_at = Some(2);
    assert!(sweep(&mut tracker, &mut store, 5).is_none());
    assert_eq!(store.queue().len(), 1);
    store.fail_at = None;
    assert!(nothing(sweep(&mut tracker, &mut store, 6)));
    assert_eq!(store.queue(), vec![1, 2, 3, 4]);
}

#[test]
fn a_cluster_whose_insert_fails_is_queued_in_part() {
    let (mut tracker, mut store) = abandoned_cluster();
    store.fail_at = Some(2);
    assert!(sweep(&mut tracker, &mut store, 903).is_none());
    assert_eq!(store.queue().len(), 1);
    assert!(store.archived.is_empty());
    let queued = store.queue()[0];
    // only the tab whose insert was answered waits: the flush takes it and no other
    let output = flush(&mut tracker, &mut store, 910).unwrap();
    assert_eq!(output.flushed.len(), 1);
    assert_eq!(output.flushed[0].tab_id, queued);
    assert_eq!(output.commands.len(), 1);
}

#[test]
fn an_unexpected_reply_is_a_failure() {
    let mut tracker = TabTracker::new(quick());
    let progress = tracker.resume_at(Job::Take, StoreReply::Done, 0, at(0));
    assert!(matches!(progress, Progress::Finished(Err(_))));
}

#[test]
fn the_tabs_of_a_cluster_carry_its_id() {
    let ids = vec!["x".to_string(), "y".to_string()];
    let queue = queue_clusters(&vec![vec![3, 1], vec![2]], &ids);
    let pairs: Vec<(i64, &str)> = queue.iter().map(|q| (q.tab_id, q.cluster_id.as_str())).collect();
    assert_eq!(pairs, vec![(3, "x"), (1, "x"), (2, "y")]);
}

/// Carries a step of a sweep through by itself, without the rest of the sweep;
/// `None` where the store failed.
fn finish_step(
    tracker: &mut TabTracker,
    store: &mut Store,
    mut progress: Progress,
    secs: u64,
) -> Option<Output> {
    let (now, utc) = (secs * SECOND, at(secs as i64));
    loop {
        match progress {
            Progress::Ask { request, job: Job::WatchLater { order, at } } => {
                let reply = store.perform(request);
                progress = tracker.resume_watch_later(&order, at, &reply, now, utc);
            }
            Progress::Ask { request, job: Job::RabbitHole { queue, at } } => {
                let reply = store.perform(request);
                progress = tracker.resume_rabbit_holes(queue, at, &reply, utc);
            }
            Progress::Ask { job, .. } => panic!("{:?}", job),
            Progress::Finished(result) => return result.ok(),
        }
    }
}

fn look_for_videos(tracker: &mut TabTracker, store: &mut Store, order: &Vec<i64>, secs: u64) -> Option<Output> {
    let progress = tracker.check_watch_later(order, 0, secs * SECOND, at(secs as i64));
    finish_step(tracker, store, progress, secs)
}

fn look_for_clusters(tracker: &mut TabTracker, store: &mut Store, order: &Vec<i64>, secs: u64) -> Option<Output> {
    let progress = tracker.check_rabbit_holes(order, secs * SECOND, at(secs as i64));
    finish_step(tracker, store, progress, secs)
}

#[test]
fn each_step_by_itself_queues_only_its_own_candidates() {
    let order = vec![1, 2, 3, 4];
    let (mut tracker, mut store) = abandoned_cluster();
    send(&mut tracker, &mut store, created(4, "https://vimeo.com/4", Some(99)), 5000);
    assert!(nothing(look_for_videos(&mut tracker, &mut store, &order, 5003)));
    assert!(store.queue().is_empty());
    assert!(nothing(look_for_videos(&mut tracker, &mut store, &order, 5004)));
    assert_eq!(store.queue(), vec![4]);
    assert_eq!(store.pending[0].reason, ArchivalReason::WatchLater);
    assert!(nothing(look_for_clusters(&mut tracker, &mut store, &order, 5005)));
    assert_eq!(store.queue(), vec![1, 2, 3, 4]);
    for tab in &store.pending[1..] {
        assert_eq!(tab.reason, ArchivalReason::RabbitHole);
        assert_eq!(tab.cluster_id, store.pending[1].cluster_id);
    }
    // they wait, and are queued once
    assert_eq!(store.asked, 4);
    assert!(nothing(look_for_videos(&mut tracker, &mut store, &order, 5006)));
    assert!(nothing(look_for_clusters(&mut tracker, &mut store, &order, 5006)));
    assert_eq!(store.asked, 4);
}

#[test]
fn a_step_by_itself_ends_at_the_first_failure() {
    let order = vec![1, 2, 3];
    let (mut tracker, mut store) = abandoned_cluster();
    store.fail_at = Some(2);
    assert!(look_for_clusters(&mut tracker, &mut store, &order, 903).is_none());
    assert_eq!(store.queue().len(), 1);
    let first = store.pending[0].tab_id;
    // the tab that was queued waits: it is not looked at again
    store.pending.clear();
    assert!(nothing(look_for_clusters(&mut tracker, &mut store, &order, 904)));
    assert!(!store.queue().contains(&first));

    let mut tracker = TabTracker::new(quick());
    let mut store = Store::new();
    send(&mut tracker, &mut store, created(1, "https://vimeo.com/1", Some(9)), 0);
    store.fail_at = Some(1);
    assert!(look_for_videos(&mut tracker, &mut store, &vec![1], 4).is_none());
    assert!(store.queue().is_empty());
    // the tab is active as before
    assert!(nothing(look_for_videos(&mut tracker, &mut store, &vec![1], 5)));
    assert_eq!(store.queue(), vec![1]);
}

/// What a flush sends about a row of a tab that was closed, after `step`. A tab that
/// is still known is asked for its content; one that is forgotten is archived.
fn sent_about_a_closed_tab(step: fn(&mut TabTracker, &mut Store) -> Option<Output>) -> Vec<String> {
    let (mut tracker, mut store) = abandoned_cluster();
    sweep(&mut tracker, &mut store, 903);
    let row = store.pending.iter().find(|t| t.tab_id == 1).unwrap().clone();
    flush(&mut tracker, &mut store, 910);
    let output = send(&mut tracker, &mut store, content(1, "some text", None), 911).unwrap();
    assert_eq!(shown(&output.commands), vec!["CloseTab { tab_id: 1 }"]);
    assert!(nothing(step(&mut tracker, &mut store)));
    assert!(store.queue().is_empty());
    store.pending.push(row);
    let output = flush(&mut tracker, &mut store, 913).unwrap();
    assert_eq!(output.flushed.len(), 1);
    shown(&output.commands)
}

#[test]
fn closed_tabs_are_forgotten_at_the_end_of_a_sweep_and_not_by_its_steps() {
    let known = vec!["RequestContent { tab_id: 1 }"];
    let videos = |t: &mut TabTracker, s: &mut Store| look_for_videos(t, s, &vec![1, 2], 912);
    let clusters = |t: &mut TabTracker, s: &mut Store| look_for_clusters(t, s, &vec![1, 2], 912);
    let whole = |t: &mut TabTracker, s: &mut Store| sweep(t, s, 912);
    assert_eq!(sent_about_a_closed_tab(videos), known);
    assert_eq!(sent_about_a_closed_tab(clusters), known);
    assert!(sent_about_a_closed_tab(whole).is_empty());
}

#[test]
fn the_clocks_are_read_where_no_time_is_given() {
    let mut config = Config::default();
    config.watch_later.grace_period_seconds = 0;
    let mut tracker = TabTracker::new(config);
    let progress = tracker.handle_message(created(1, "https://vimeo.com/1", Some(9)));
    assert!(matches!(progress, Progress::Finished(Ok(_))));
    let progress = tracker.check_candidates();
    let before = UtcTime::now().timestamp() - 10;
    match progress {
        Progress::Ask { request: StoreRequest::InsertPending(tab), job } => {
            assert_eq!(tab.tab_id, 1);
            assert!(tab.created_at.timestamp() >= before);
            assert!(tab.detected_at.timestamp() >= before);
            let progress = tracker.resume(job, StoreReply::Done);
            assert!(matches!(progress, Progress::Finished(Ok(_))));
        }
        other => panic!("{:?}", other),
    }
}

/// A store in an SQLite database.
struct Database {
    conn: rusqlite::Connection,
}

impl Database {
    fn new() -> Database {
        let conn = rusqlite::Connection::open_in_memory().unwrap();
        conn.execute_batch(
            "CREATE TABLE archived_tabs (
                tab_id INTEGER NOT NULL, url TEXT NOT NULL, title TEXT, opener_tab_id INTEGER,
                created_at TEXT NOT NULL, closed_at TEXT NOT NULL, reason TEXT NOT NULL,
                cluster_id TEXT, extracted_text TEXT, is_video INTEGER NOT NULL DEFAULT 0);
             CREATE TABLE pending_tabs (
                id INTEGER PRIMARY KEY AUTOINCREMENT,
                tab_id INTEGER NOT NULL UNIQUE, url TEXT NOT NULL, title TEXT,
                opener_tab_id INTEGER, created_at TEXT NOT NULL, detected_at TEXT NOT NULL,
                reason TEXT NOT NULL, cluster_id TEXT, is_video INTEGER NOT NULL DEFAULT 0);",
        )
        .unwrap();
        Database { conn }
    }

    fn insert(&self, tab: &PendingTab) {
        let r = tab.row();
        self.conn
            .execute(
                "INSERT OR IGNORE INTO pending_tabs
                    (tab_id, url, title, opener_tab_id, created_at, detected_at, reason, cluster_id, is_video)
                 VALUES (?1,?2,?3,?4,?5,?6,?7,?8,?9)",
                (
                    r.tab_id, r.url, r.title, r.opener_tab_id, r.created_at, r.detected_at,
                    r.reason, r.cluster_id, r.is_video,
                ),
            )
            .unwrap();
    }

    fn take(&self, threshold: &str) -> Vec<PendingTab> {
        let mut stmt = self
            .conn
            .prepare(
                "SELECT tab_id, url, title, opener_tab_id, created_at, detected_at, reason, cluster_id, is_video
                 FROM pending_tabs WHERE detected_at < ?1",
            )
            .unwrap();
        let rows: Vec<Option<PendingRow>> = stmt
            .query_map((threshold,), |row| {
                Ok(PendingRow {
                    tab_id: row.get(0)?,
                    url: row.get(1)?,
                    title: row.get(2)?,
                    opener_tab_id: row.get(3)?,
                    created_at: row.get(4)?,
                    detected_at: row.get(5)?,
                    reason: row.get(6)?,
                    cluster_id: row.get(7)?,
                    is_video: row.get(8)?,
                })
            })
            .unwrap()
            .map(|r| r.ok())
            .collect();
        taken_at(&rows, at(0)).unwrap().tabs
    }
}

#[test]
fn tabs_come_back_from_a_database() {
    let (mut tracker, mut store) = abandoned_cluster();
    sweep(&mut tracker, &mut store, 903);
    let db = Database::new();
    for tab in &store.pending {
        db.insert(tab);
        // queueing again is harmless
        db.insert(&PendingTab { url: "other".to_string(), ..tab.clone() });
    }
    // the threshold is the detection time itself: nothing was detected before it
    assert!(db.take(&at(903).to_rfc3339()).is_empty());
    // nor is anything left over from before all time
    assert!(db.take(&leftover_threshold_at(at(2000), u64::MAX)).is_empty());
    let back = db.take(&at(904).to_rfc3339());
    let shown = |tabs: &Vec<PendingTab>| tabs.iter().map(|t| format!("{:?}", t)).collect::<Vec<String>>();
    assert_eq!(shown(&back), shown(&store.pending));
}

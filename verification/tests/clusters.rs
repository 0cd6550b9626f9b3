use resurfacer::clusters::{build_opener_clusters, build_temporal_clusters, find_abandoned, Member};
use resurfacer::config::RabbitHoleConfig;

const SECOND: u64 = 1_000_000_000;

fn member(id: i64, opener: Option<i64>, created: u64, idle_since: u64) -> Member {
    Member { id, opener, created_at: created * SECOND, idle_since: idle_since * SECOND }
}

fn settings(window: u64, threshold: u64, min: usize) -> RabbitHoleConfig {
    RabbitHoleConfig {
        cluster_window_minutes: window,
        no_focus_threshold_minutes: threshold,
        min_cluster_size: min,
    }
}

#[test]
fn a_cluster_is_what_was_opened_from_its_root() {
    let tabs = vec![
        member(1, None, 0, 0),
        member(2, Some(1), 0, 0),
        member(3, Some(2), 0, 0),
        member(4, Some(99), 0, 0),
        member(5, Some(1), 0, 0),
    ];
    // the last one that joined is followed first
    assert_eq!(build_opener_clusters(&tabs), vec![vec![1, 2, 5, 3]]);
}

#[test]
fn a_child_before_its_parent_starts_its_own_cluster() {
    let tabs = vec![member(2, Some(1), 0, 0), member(3, Some(2), 0, 0), member(1, None, 0, 0)];
    assert_eq!(build_opener_clusters(&tabs), vec![vec![2, 3]]);
}

#[test]
fn openers_in_a_circle_make_one_cluster() {
    let tabs = vec![member(1, Some(2), 0, 0), member(2, Some(1), 0, 0)];
    assert_eq!(build_opener_clusters(&tabs), vec![vec![1, 2]]);
}

#[test]
fn a_single_tab_is_no_cluster() {
    assert!(build_opener_clusters(&vec![member(1, None, 0, 0)]).is_empty());
    assert!(build_opener_clusters(&vec![member(1, Some(1), 0, 0)]).is_empty());
    assert!(build_opener_clusters(&vec![]).is_empty());
}

#[test]
fn tabs_cluster_by_the_time_of_the_first() {
    let tabs = vec![
        member(1, None, 100, 0),
        member(2, None, 0, 0),
        member(3, None, 60, 0),
        member(4, None, 61, 0),
        member(5, None, 300, 0),
    ];
    // the window is measured from the first tab of the cluster, its end included
    assert_eq!(build_temporal_clusters(&tabs, 60), vec![vec![2, 3], vec![4, 1]]);
}

#[test]
fn tabs_of_the_same_time_keep_their_order() {
    let tabs = vec![member(9, None, 5, 0), member(3, None, 5, 0), member(7, None, 4, 0)];
    assert_eq!(build_temporal_clusters(&tabs, 1), vec![vec![7, 9, 3]]);
    assert_eq!(build_temporal_clusters(&tabs, 0), vec![vec![9, 3]]);
}

#[test]
fn an_abandoned_cluster_is_large_and_stale() {
    let tabs = vec![
        member(1, None, 0, 0),
        member(2, Some(1), 10, 10),
        member(3, Some(1), 20, 20),
    ];
    let config = settings(10, 15, 3);
    assert_eq!(find_abandoned(&tabs, 920 * SECOND, &config), vec![vec![1, 2, 3]]);
    // one tab has not gone without focus for long enough
    assert!(find_abandoned(&tabs, 920 * SECOND - 1, &config).is_empty());
    // too few tabs
    assert!(find_abandoned(&tabs, 920 * SECOND, &settings(10, 15, 4)).is_empty());
}

#[test]
fn no_tab_is_abandoned_twice() {
    // the opener cluster comes first; the temporal one shares tabs with it
    let tabs = vec![
        member(1, None, 0, 0),
        member(2, Some(1), 0, 0),
        member(3, None, 0, 0),
        member(4, None, 5000, 5000),
        member(5, None, 5000, 5000),
    ];
    let found = find_abandoned(&tabs, 100_000 * SECOND, &settings(10, 15, 2));
    assert_eq!(found, vec![vec![1, 2], vec![4, 5]]);
}

#[test]
fn a_cluster_that_fails_leaves_its_tabs_to_others() {
    // 1-2-3 is not stale because of 3; the temporal cluster 1-2 is
    let tabs = vec![
        member(1, None, 0, 0),
        member(2, Some(1), 0, 0),
        member(3, Some(1), 5000, 5000),
    ];
    let found = find_abandoned(&tabs, 5100 * SECOND, &settings(10, 15, 2));
    assert_eq!(found, vec![vec![1, 2]]);
}

//! What counts as an abandoned rabbit hole, in nanoseconds of the monotonic clock:
//! which tabs make one cluster, and that no such cluster is missed.

use vstd::prelude::*;
use crate::cluster_laws::{
    descends, is_opener_path, law_abandoned_clusters_are_large_stale_and_disjoint,
    law_abandoned_clusters_hold_no_tab_twice, law_by_time_sorts_and_keeps_order,
    law_groups_are_windows, law_no_abandoned_cluster_is_passed_over,
    law_opener_cluster_is_all_that_descends, lemma_by_time_distinct, lemma_grown_distinct,
    lemma_groups_distinct, lemma_opener_clusters, lemma_selected, oldest_first, opened_from,
    overlap,
};
use crate::clusters::{
    abandoned, by_time, candidate_clusters, distinct, eligible, find_abandoned, groups, ids, in_window,
    inserted_by_time, is_stale, leading, lemma_leading, nested, opener_cluster, opener_clusters, selected,
    stale_ids, tabs_of_pairs, temporal_clusters, Member,
};
use crate::clock::UtcTime;
use crate::config::RabbitHoleConfig;
use crate::idle_laws::passed;
use crate::message_laws::same_but_status;
use crate::tab_store::ArchivalReason;
use crate::tab_tracker::{
    lemma_members_distinct, queued, queueing, TabStatus, TrackerState,
};
use crate::tracker_laws::{
    all_answered, law_abandoned_clusters_are_queued, step_leaves, step_run, Answer, Moment,
};

verus! {

/// The two lists hold the same tabs, each once.
pub open spec fn same_tabs(a: Seq<i64>, b: Seq<i64>) -> bool {
    a.len() == b.len() && forall|x: i64| #[trigger] a.contains(x) <==> b.contains(x)
}

proof fn lemma_same_tabs(a: Seq<i64>, b: Seq<i64>)
    requires
        a.no_duplicates(),
        b.no_duplicates(),
        forall|x: i64| #[trigger] a.contains(x) <==> b.contains(x),
    ensures
        same_tabs(a, b),
{
    a.unique_seq_to_set();
    b.unique_seq_to_set();
    assert(a.to_set() =~= b.to_set()) by {
        assert forall|x: i64| a.to_set().contains(x) <==> b.to_set().contains(x) by {
            assert(a.contains(x) <==> b.contains(x));
        }
    }
}

proof fn lemma_inserted_members(sorted: Seq<Member>, m: Member)
    ensures
        forall|x: Member| #[trigger]
            inserted_by_time(sorted, m).contains(x) <==> x == m || sorted.contains(x),
    decreases sorted.len(),
{
    if sorted.len() == 0 || sorted.last().created_at <= m.created_at {
        lemma_push_members(sorted, m);
    } else {
        let front = sorted.drop_last();
        lemma_inserted_members(front, m);
        lemma_push_members(inserted_by_time(front, m), sorted.last());
        lemma_push_members(front, sorted.last());
        assert(front.push(sorted.last()) =~= sorted);
        assert forall|x: Member| #[trigger]
            inserted_by_time(sorted, m).contains(x) <==> x == m || sorted.contains(x) by {
            assert(inserted_by_time(front, m).push(sorted.last()).contains(x) <==> x
                == sorted.last() || inserted_by_time(front, m).contains(x));
            assert(inserted_by_time(front, m).contains(x) <==> x == m || front.contains(x));
            assert(front.push(sorted.last()).contains(x) <==> x == sorted.last() || front.contains(
                x,
            ));
        }
    }
}

proof fn lemma_push_members(s: Seq<Member>, m: Member)
    ensures
        forall|x: Member| #[trigger] s.push(m).contains(x) <==> x == m || s.contains(x),
{
    let more = s.push(m);
    assert forall|x: Member| #[trigger] more.contains(x) <==> x == m || s.contains(x) by {
        if s.contains(x) {
            let i = choose|i: int| 0 <= i < s.len() && s[i] == x;
            assert(more[i] == x);
        }
        assert(more[s.len() as int] == m);
        if more.contains(x) {
            let i = choose|i: int| 0 <= i < more.len() && more[i] == x;
            if i < s.len() {
                assert(s[i] == x);
            }
        }
    }
}

proof fn lemma_by_time_members(active: Seq<Member>)
    ensures
        forall|x: Member| #[trigger] by_time(active).contains(x) <==> active.contains(x),
    decreases active.len(),
{
    broadcast use vstd::seq_lib::group_seq_properties;

    if active.len() > 0 {
        lemma_by_time_members(active.drop_last());
        lemma_inserted_members(by_time(active.drop_last()), active.last());
        assert(active.drop_last().push(active.last()) =~= active);
    } else {
        assert(by_time(active) =~= active);
    }
}

proof fn lemma_cut(sorted: Seq<Member>, t: int) -> (p: int)
    requires
        oldest_first(sorted),
    ensures
        0 <= p <= sorted.len(),
        forall|i: int| 0 <= i < p ==> (#[trigger] sorted[i]).created_at < t,
        forall|i: int| p <= i < sorted.len() ==> (#[trigger] sorted[i]).created_at >= t,
    decreases sorted.len(),
{
    if sorted.len() == 0 {
        0
    } else if sorted.last().created_at < t {
        assert forall|i: int| 0 <= i < sorted.len() implies (#[trigger] sorted[i]).created_at
            < t by {
            if i < sorted.len() - 1 {
                assert(sorted[i].created_at <= sorted[sorted.len() - 1].created_at);
            }
        }
        sorted.len() as int
    } else {
        let front = sorted.drop_last();
        assert(oldest_first(front)) by {
            assert forall|i: int, j: int| 0 <= i < j < front.len() implies (
            #[trigger] front[i]).created_at <= (#[trigger] front[j]).created_at by {
                assert(front[i] == sorted[i] && front[j] == sorted[j]);
            }
        }
        let p = lemma_cut(front, t);
        assert forall|i: int| 0 <= i < p implies (#[trigger] sorted[i]).created_at < t by {
            assert(front[i] == sorted[i]);
        }
        assert forall|i: int| p <= i < sorted.len() implies (#[trigger] sorted[i]).created_at
            >= t by {
            if i < front.len() {
                assert(front[i] == sorted[i]);
            }
        }
        p
    }
}

proof fn lemma_group_found(sorted: Seq<Member>, window: int, p: int, q: int) -> (g: int)
    requires
        0 <= p < q <= sorted.len(),
        forall|i: int|
            0 <= i < p ==> !in_window(sorted[p], (#[trigger] sorted[i]).created_at, window),
        forall|i: int|
            p <= i < q ==> in_window(#[trigger] sorted[i], sorted[p].created_at, window),
        q < sorted.len() ==> !in_window(sorted[q], sorted[p].created_at, window),
    ensures
        0 <= g < groups(sorted, window).len(),
        groups(sorted, window)[g] == sorted.subrange(p, q),
    decreases sorted.len(),
{
    let tail = sorted.skip(1);
    let first = sorted[0].created_at;
    lemma_leading(tail, first, window);
    let lead = leading(tail, first, window) as int;
    let n = 1 + lead;
    let rest = sorted.skip(n);
    let gs = groups(sorted, window);
    assert(gs == seq![sorted.take(n)] + groups(rest, window));
    if p == 0 {
        if lead < q - 1 {
            assert(tail[lead] == sorted[lead + 1]);
        }
        if lead > q - 1 {
            assert(tail[q - 1] == sorted[q]);
        }
        assert(sorted.take(n) =~= sorted.subrange(p, q));
        0
    } else {
        if n > p {
            assert(tail[p - 1] == sorted[p]);
        }
        assert forall|i: int| 0 <= i < p - n implies !in_window(
            rest[p - n],
            (#[trigger] rest[i]).created_at,
            window,
        ) by {
            assert(rest[i] == sorted[n + i]);
        }
        assert forall|i: int| p - n <= i < q - n implies in_window(
            #[trigger] rest[i],
            rest[p - n].created_at,
            window,
        ) by {
            assert(rest[i] == sorted[n + i]);
        }
        if q < sorted.len() {
            assert(rest[q - n] == sorted[q]);
        }
        let g = lemma_group_found(rest, window, p - n, q - n);
        assert(rest.subrange(p - n, q - n) =~= sorted.subrange(p, q));
        g + 1
    }
}

proof fn lemma_groups_members(sorted: Seq<Member>, window: int)
    ensures
        forall|a: int, i: int|
            0 <= a < groups(sorted, window).len() && 0 <= i < groups(sorted, window)[a].len()
                ==> sorted.contains(#[trigger] groups(sorted, window)[a][i]),
    decreases sorted.len(),
{
    if sorted.len() > 0 {
        lemma_leading(sorted.skip(1), sorted[0].created_at, window);
        let n = 1 + leading(sorted.skip(1), sorted[0].created_at, window) as int;
        let rest = sorted.skip(n);
        lemma_groups_members(rest, window);
        let gs = groups(sorted, window);
        assert(gs == seq![sorted.take(n)] + groups(rest, window));
        assert forall|a: int, i: int| 0 <= a < gs.len() && 0 <= i < gs[a].len() implies sorted.contains(
            #[trigger] gs[a][i],
        ) by {
            if a == 0 {
                assert(gs[a][i] == sorted[i]);
            } else {
                let m = groups(rest, window)[a - 1][i];
                assert(rest.contains(m));
                let k = choose|k: int| 0 <= k < rest.len() && rest[k] == m;
                assert(sorted[n + k] == m);
            }
        }
    }
}

proof fn lemma_groups_disjoint(sorted: Seq<Member>, window: int, a: int, b: int, i: int, j: int)
    requires
        distinct(sorted),
        0 <= a < b < groups(sorted, window).len(),
        0 <= i < groups(sorted, window)[a].len(),
        0 <= j < groups(sorted, window)[b].len(),
    ensures
        groups(sorted, window)[a][i].id != groups(sorted, window)[b][j].id,
    decreases sorted.len(),
{
    lemma_leading(sorted.skip(1), sorted[0].created_at, window);
    let n = 1 + leading(sorted.skip(1), sorted[0].created_at, window) as int;
    let rest = sorted.skip(n);
    let gs = groups(sorted, window);
    assert(gs == seq![sorted.take(n)] + groups(rest, window));
    if a == 0 {
        lemma_groups_members(rest, window);
        let m = groups(rest, window)[b - 1][j];
        assert(rest.contains(m));
        let k = choose|k: int| 0 <= k < rest.len() && rest[k] == m;
        assert(sorted[n + k] == m);
        assert(gs[a][i] == sorted[i]);
        assert(sorted[i].id != sorted[n + k].id);
    } else {
        assert(distinct(rest)) by {
            assert forall|x: int, y: int| 0 <= x < y < rest.len() implies (#[trigger] rest[x]).id
                != (#[trigger] rest[y]).id by {
                assert(rest[x] == sorted[n + x] && rest[y] == sorted[n + y]);
            }
        }
        lemma_groups_disjoint(rest, window, a - 1, b - 1, i, j);
    }
}

proof fn lemma_pairs_come_from_groups(gs: Seq<Seq<Member>>, c: int) -> (g: int)
    requires
        0 <= c < tabs_of_pairs(gs).len(),
    ensures
        0 <= g < gs.len(),
        tabs_of_pairs(gs)[c] == ids(gs[g]),
    decreases gs.len(),
{
    let rest = gs.skip(1);
    if gs[0].len() >= 2 {
        if c == 0 {
            0
        } else {
            let g = lemma_pairs_come_from_groups(rest, c - 1);
            g + 1
        }
    } else {
        let g = lemma_pairs_come_from_groups(rest, c);
        g + 1
    }
}

proof fn lemma_pairs_hold_groups(gs: Seq<Seq<Member>>, g: int) -> (c: int)
    requires
        0 <= g < gs.len(),
        gs[g].len() >= 2,
    ensures
        0 <= c < tabs_of_pairs(gs).len(),
        tabs_of_pairs(gs)[c] == ids(gs[g]),
    decreases gs.len(),
{
    let rest = gs.skip(1);
    if g == 0 {
        0
    } else {
        let c = lemma_pairs_hold_groups(rest, g - 1);
        if gs[0].len() >= 2 {
            c + 1
        } else {
            c
        }
    }
}

/// Neither of the tabs was opened from another active one, and no other active one was
/// opened from them.
pub open spec fn stand_alone(active: Seq<Member>, tabs: Seq<i64>) -> bool {
    forall|i: int, j: int|
        #![trigger active[i], active[j]]
        0 <= i < active.len() && 0 <= j < active.len() && i != j && (tabs.contains(active[i].id)
            || tabs.contains(active[j].id)) ==> active[i].opener != Some(active[j].id)
}

proof fn lemma_alone_descends_to_itself(
    active: Seq<Member>,
    visited: Set<i64>,
    root: i64,
    id: i64,
    tabs: Seq<i64>,
)
    requires
        distinct(active),
        stand_alone(active, tabs),
        ids(active).contains(root),
        descends(active, visited, root, id),
        tabs.contains(root) || tabs.contains(id),
    ensures
        root == id,
{
    let path = choose|path: Seq<i64>| #[trigger]
        is_opener_path(active, visited, path) && path[0] == root && path.last() == id;
    let r = choose|r: int| 0 <= r < ids(active).len() && ids(active)[r] == root;
    assert(active[r].id == root);
    lemma_path_stays(active, visited, path, tabs, path.len() as int);
}

proof fn lemma_path_stays(
    active: Seq<Member>,
    visited: Set<i64>,
    path: Seq<i64>,
    tabs: Seq<i64>,
    n: int,
)
    requires
        distinct(active),
        stand_alone(active, tabs),
        is_opener_path(active, visited, path),
        exists|r: int| 0 <= r < active.len() && (#[trigger] active[r]).id == path[0],
        1 <= n <= path.len(),
        tabs.contains(path[0]) || tabs.contains(path[n - 1]),
    ensures
        path[n - 1] == path[0],
    decreases n,
{
    if n > 1 {
        let (from, to) = (path[n - 2], path[n - 1]);
        assert(opened_from(active, visited, path[n - 1 - 1], path[n - 1]));
        let i = choose|i: int|
            0 <= i < active.len() && (#[trigger] active[i]).id == to && active[i].opener == Some(
                from,
            );
        let j = if n == 2 {
            choose|r: int| 0 <= r < active.len() && (#[trigger] active[r]).id == path[0]
        } else {
            assert(opened_from(active, visited, path[n - 2 - 1], path[n - 2]));
            choose|r: int|
                0 <= r < active.len() && (#[trigger] active[r]).id == from && active[r].opener
                    == Some(path[n - 3])
        };
        assert(active[j].id == from);
        if tabs.contains(path[0]) {
            lemma_path_stays(active, visited, path, tabs, n - 1);
            assert(tabs.contains(active[j].id));
            assert(i == j);
        } else {
            assert(tabs.contains(active[i].id));
            assert(i == j);
            lemma_path_stays(active, visited, path, tabs, n - 1);
        }
    }
}

/// The cluster grew from an active tab.
spec fn grew_from(active: Seq<Member>, cluster: Seq<i64>, visited: Set<i64>, j: int) -> bool {
    0 <= j < active.len() && cluster == opener_cluster(active, visited, active[j].id)
}

proof fn lemma_opener_cluster_grew(
    active: Seq<Member>,
    i: int,
    visited: Set<i64>,
    c: int,
)
    requires
        0 <= i <= active.len(),
        0 <= c < opener_clusters(active, i, visited).len(),
    ensures
        exists|v: Set<i64>, j: int| #[trigger]
            grew_from(active, opener_clusters(active, i, visited)[c], v, j),
    decreases active.len() - i,
{
    if i < active.len() {
        let all = opener_clusters(active, i, visited);
        if visited.contains(active[i].id) {
            lemma_opener_cluster_grew(active, i + 1, visited, c);
        } else {
            let cluster = opener_cluster(active, visited, active[i].id);
            let seen = visited.union(cluster.to_set());
            let rest = opener_clusters(active, i + 1, seen);
            if cluster.len() >= 2 {
                assert(all == seq![cluster] + rest);
                if c == 0 {
                    assert(grew_from(active, all[c], visited, i));
                } else {
                    lemma_opener_cluster_grew(active, i + 1, seen, c - 1);
                    assert(all[c] == rest[c - 1]);
                }
            } else {
                lemma_opener_cluster_grew(active, i + 1, seen, c);
            }
        }
    }
}

proof fn lemma_opener_clusters_hold_none_that_stand_alone(
    active: Seq<Member>,
    tabs: Seq<i64>,
    c: int,
    x: i64,
)
    requires
        distinct(active),
        stand_alone(active, tabs),
        0 <= c < opener_clusters(active, 0, Set::empty()).len(),
        tabs.contains(x),
    ensures
        !opener_clusters(active, 0, Set::empty())[c].contains(x),
{
    let cluster = opener_clusters(active, 0, Set::empty())[c];
    if cluster.contains(x) {
        lemma_opener_clusters(active, 0, Set::empty());
        lemma_opener_cluster_grew(active, 0, Set::empty(), c);
        let (v, j) = choose|v: Set<i64>, j: int| #[trigger] grew_from(active, cluster, v, j);
        let root = active[j].id;
        assert(ids(active)[j] == root);
        law_opener_cluster_is_all_that_descends(active, v, root, x);
        lemma_alone_descends_to_itself(active, v, root, x, tabs);
        let y = if cluster[0] == x {
            cluster[1]
        } else {
            cluster[0]
        };
        assert(cluster.len() >= 2 && cluster.no_duplicates());
        assert(y != x);
        assert(cluster.contains(y));
        law_opener_cluster_is_all_that_descends(active, v, root, y);
        lemma_alone_descends_to_itself(active, v, root, y, tabs);
    }
}

/// Tabs that were opened within the window of one of them, with no tab opened in the
/// window before it, make one cluster: at least two of them, at least as many as a
/// cluster has to have, none joined to an active tab by who opened whom, and each
/// without focus for the whole threshold. The cluster is found, and it holds exactly
/// these tabs. The spans are the configured minutes in nanoseconds.
pub proof fn law_tabs_opened_within_the_window_are_found(
    active: Seq<Member>,
    now: u64,
    config: RabbitHoleConfig,
    first: int,
    tabs: Seq<i64>,
)
    requires
        distinct(active),
        0 <= first < active.len(),
        forall|i: int|
            0 <= i < active.len() && (#[trigger] active[i]).created_at < active[first].created_at
                ==> active[first].created_at - active[i].created_at > config.cluster_window_minutes
                * 60 * 1_000_000_000,
        forall|i: int|
            0 <= i < active.len() ==> (tabs.contains((#[trigger] active[i]).id) <==> 0
                <= active[i].created_at - active[first].created_at
                <= config.cluster_window_minutes * 60 * 1_000_000_000),
        forall|x: i64| #[trigger] tabs.contains(x) ==> ids(active).contains(x),
        tabs.no_duplicates(),
        tabs.len() >= 2,
        tabs.len() >= config.min_cluster_size,
        stand_alone(active, tabs),
        forall|i: int|
            0 <= i < active.len() && tabs.contains((#[trigger] active[i]).id) ==> passed(
                active[i].idle_since,
                now,
            ) >= config.no_focus_threshold_minutes * 60 * 1_000_000_000,
    ensures
        exists|a: int|
            0 <= a < abandoned(active, now, config).len() && same_tabs(
                #[trigger] abandoned(active, now, config)[a],
                tabs,
            ),
{
    let w = config.cluster_window_minutes * 60;
    let span = config.cluster_window_minutes * 60 * 1_000_000_000;
    let t = active[first].created_at;
    let sorted = by_time(active);
    law_by_time_sorts_and_keeps_order(active, t);
    lemma_by_time_members(active);
    lemma_by_time_distinct(active);
    let p = lemma_cut(sorted, t as int);
    let q = lemma_cut(sorted, t + span + 1);
    assert(sorted.contains(active[first])) by {
        assert(active.contains(active[first]));
    }
    let f = choose|f: int| 0 <= f < sorted.len() && sorted[f] == active[first];
    assert(p <= f < q);
    if p < f {
        assert(sorted[p].created_at <= sorted[f].created_at);
    }
    assert(sorted[p].created_at == t);
    assert forall|i: int| 0 <= i < p implies !in_window(
        sorted[p],
        (#[trigger] sorted[i]).created_at,
        w,
    ) by {
        assert(active.contains(sorted[i])) by {
            assert(sorted.contains(sorted[i]));
        }
        let k = choose|k: int| 0 <= k < active.len() && active[k] == sorted[i];
        assert(active[k].created_at < t);
    }
    assert forall|i: int| p <= i < q implies in_window(
        #[trigger] sorted[i],
        sorted[p].created_at,
        w,
    ) by {}
    let gs = groups(sorted, w);
    let g = lemma_group_found(sorted, w, p, q);
    let group = gs[g];
    lemma_groups_distinct(sorted, w);
    assert(distinct(group));
    let mine = ids(group);
    assert(mine.no_duplicates()) by {
        assert forall|i: int, j: int| 0 <= i < j < mine.len() implies mine[i] != mine[j] by {
            assert(group[i].id != group[j].id);
        }
    }
    assert forall|x: i64| #[trigger] mine.contains(x) <==> tabs.contains(x) by {
        if mine.contains(x) {
            let k = choose|k: int| 0 <= k < mine.len() && mine[k] == x;
            let m = sorted[p + k];
            assert(group[k] == m);
            assert(sorted.contains(m));
            assert(active.contains(m));
            let i = choose|i: int| 0 <= i < active.len() && active[i] == m;
            assert(tabs.contains(active[i].id));
        }
        if tabs.contains(x) {
            let i = choose|i: int| 0 <= i < ids(active).len() && ids(active)[i] == x;
            assert(active[i].id == x);
            assert(active.contains(active[i]));
            assert(sorted.contains(active[i]));
            let k = choose|k: int| 0 <= k < sorted.len() && sorted[k] == active[i];
            assert(p <= k < q);
            assert(group[k - p] == sorted[k]);
            assert(mine[k - p] == x);
        }
    }
    lemma_same_tabs(mine, tabs);
    assert(group.len() == tabs.len());
    let temporal = temporal_clusters(active, w);
    let c = lemma_pairs_hold_groups(gs, g);
    assert(temporal[c] == mine);
    let openers = opener_clusters(active, 0, Set::empty());
    let candidates = candidate_clusters(active, config);
    let at = openers.len() + c;
    assert(candidates[at] == mine);
    let stale = stale_ids(active, now, config.no_focus_threshold_minutes * 60);
    assert(eligible(mine, config.min_cluster_size as int, stale, Set::empty())) by {
        assert forall|k: int| 0 <= k < mine.len() implies stale.contains(#[trigger] mine[k]) by {
            assert(mine.contains(mine[k]));
            let x = mine[k];
            let i = choose|i: int| 0 <= i < ids(active).len() && ids(active)[i] == x;
            assert(active[i].id == x);
            assert(is_stale(active[i], now, config.no_focus_threshold_minutes * 60));
        }
    }
    law_no_abandoned_cluster_is_passed_over(active, now, config, at);
    let found = abandoned(active, now, config);
    let a = choose|a: int| 0 <= a < found.len() && overlap(#[trigger] found[a], candidates[at]);
    let x = choose|x: i64| #[trigger] found[a].contains(x) && mine.contains(x);
    lemma_selected(candidates, config.min_cluster_size as int, stale, Set::empty());
    assert(candidates.contains(found[a]));
    let d = choose|d: int| 0 <= d < candidates.len() && candidates[d] == found[a];
    if d < openers.len() {
        assert(openers[d] == found[a]);
        lemma_opener_clusters_hold_none_that_stand_alone(active, tabs, d, x);
    } else {
        let e = d - openers.len();
        assert(temporal[e] == found[a]);
        let h = lemma_pairs_come_from_groups(gs, e);
        let i = choose|i: int| 0 <= i < ids(gs[h]).len() && ids(gs[h])[i] == x;
        let j = choose|j: int| 0 <= j < mine.len() && mine[j] == x;
        assert(gs[h][i].id == x && gs[g][j].id == x);
        if h < g {
            lemma_groups_disjoint(sorted, w, h, g, i, j);
        }
        if g < h {
            lemma_groups_disjoint(sorted, w, g, h, j, i);
        }
        assert(found[a] == mine);
    }
    assert(same_tabs(found[a], tabs));
}

/// Distinct active tabs, no two of them joined by who opened whom, at least two and at
/// least as many as a cluster has to have, all opened no later than the window after
/// the oldest of them and all without focus for the whole threshold: exactly one
/// cluster is found, and it holds all of them.
pub proof fn law_tabs_opened_together_make_one_cluster(
    active: Seq<Member>,
    now: u64,
    config: RabbitHoleConfig,
    oldest: int,
)
    requires
        distinct(active),
        active.len() >= 2,
        active.len() >= config.min_cluster_size,
        forall|i: int, j: int|
            0 <= i < active.len() && 0 <= j < active.len() && i != j ==> (
            #[trigger] active[i]).opener != Some((#[trigger] active[j]).id),
        0 <= oldest < active.len(),
        forall|i: int|
            0 <= i < active.len() ==> 0 <= (#[trigger] active[i]).created_at
                - active[oldest].created_at <= config.cluster_window_minutes * 60 * 1_000_000_000,
        forall|i: int|
            0 <= i < active.len() ==> passed((#[trigger] active[i]).idle_since, now)
                >= config.no_focus_threshold_minutes * 60 * 1_000_000_000,
    ensures
        abandoned(active, now, config).len() == 1,
        same_tabs(abandoned(active, now, config)[0], ids(active)),
{
    let tabs = ids(active);
    assert(tabs.no_duplicates()) by {
        assert forall|i: int, j: int| 0 <= i < j < tabs.len() implies tabs[i] != tabs[j] by {
            assert(active[i].id != active[j].id);
        }
    }
    assert forall|i: int| 0 <= i < active.len() implies tabs.contains(
        (#[trigger] active[i]).id,
    ) by {
        assert(tabs[i] == active[i].id);
    }
    law_tabs_opened_within_the_window_are_found(active, now, config, oldest, tabs);
    let found = abandoned(active, now, config);
    let a = choose|a: int| 0 <= a < found.len() && same_tabs(#[trigger] found[a], tabs);
    law_abandoned_clusters_are_large_stale_and_disjoint(active, now, config);
    law_abandoned_clusters_hold_no_tab_twice(active, now, config);
    assert forall|b: int| #![trigger found[b]] 0 <= b < found.len() implies b == a by {
        let x = found[b][0];
        assert(found[b].len() >= 2);
        assert(found[b].contains(x));
        let i = choose|i: int|
            0 <= i < active.len() && (#[trigger] active[i]).id == found[b][0] && is_stale(
                active[i],
                now,
                config.no_focus_threshold_minutes * 60,
            );
        assert(tabs.contains(active[i].id));
        assert(found[a].contains(x));
    }
    assert(found[0].len() >= 2);
    if found.len() > 1 {
        assert(found[1].len() >= 2);
    }
}

proof fn lemma_descends_anyway(active: Seq<Member>, visited: Set<i64>, root: i64, id: i64)
    requires
        descends(active, visited, root, id),
    ensures
        descends(active, Set::empty(), root, id),
{
    let path = choose|path: Seq<i64>| #[trigger]
        is_opener_path(active, visited, path) && path[0] == root && path.last() == id;
    assert(is_opener_path(active, Set::empty(), path)) by {
        assert forall|k: int| #![trigger path[k]] 0 < k < path.len() implies opened_from(
            active,
            Set::empty(),
            path[k - 1],
            path[k],
        ) by {
            assert(opened_from(active, visited, path[k - 1], path[k]));
        }
    }
}

proof fn lemma_descends_unvisited(
    active: Seq<Member>,
    visited: Set<i64>,
    root: i64,
    id: i64,
    tabs: Seq<i64>,
)
    requires
        descends(active, Set::empty(), root, id),
        forall|x: i64| #[trigger]
            tabs.contains(x) <==> descends(active, Set::empty(), root, x),
        forall|x: i64| #[trigger] tabs.contains(x) ==> !visited.contains(x),
    ensures
        descends(active, visited, root, id),
{
    let none = Set::<i64>::empty();
    let path = choose|path: Seq<i64>| #[trigger]
        is_opener_path(active, none, path) && path[0] == root && path.last() == id;
    assert(is_opener_path(active, visited, path)) by {
        assert forall|k: int| #![trigger path[k]] 0 < k < path.len() implies opened_from(
            active,
            visited,
            path[k - 1],
            path[k],
        ) by {
            assert(opened_from(active, none, path[k - 1], path[k]));
            let part = path.take(k + 1);
            assert(is_opener_path(active, none, part)) by {
                assert forall|m: int| #![trigger part[m]] 0 < m < part.len() implies opened_from(
                    active,
                    none,
                    part[m - 1],
                    part[m],
                ) by {
                    assert(opened_from(active, none, path[m - 1], path[m]));
                }
            }
            assert(part[0] == root && part.last() == path[k]);
            assert(descends(active, none, root, path[k]));
            assert(tabs.contains(path[k]));
        }
    }
}

proof fn lemma_tree_is_a_cluster(
    active: Seq<Member>,
    j: int,
    visited: Set<i64>,
    root: int,
    tabs: Seq<i64>,
) -> (c: int)
    requires
        distinct(active),
        0 <= j <= root < active.len(),
        tabs.no_duplicates(),
        tabs.len() >= 2,
        forall|x: i64| #[trigger]
            tabs.contains(x) <==> descends(active, Set::empty(), active[root].id, x),
        forall|x: i64| #[trigger] tabs.contains(x) ==> !visited.contains(x),
        forall|k: int, x: i64|
            0 <= k < root && #[trigger] tabs.contains(x) ==> !descends(
                active,
                Set::empty(),
                (#[trigger] active[k]).id,
                x,
            ),
    ensures
        0 <= c < opener_clusters(active, j, visited).len(),
        same_tabs(opener_clusters(active, j, visited)[c], tabs),
    decreases active.len() - j,
{
    let all = opener_clusters(active, j, visited);
    let id = active[j].id;
    let start = seq![id];
    let cluster = opener_cluster(active, visited, id);
    let seen = visited.union(cluster.to_set());
    let rest = opener_clusters(active, j + 1, seen);
    if j == root {
        assert(descends(active, Set::empty(), id, id)) by {
            assert(is_opener_path(active, Set::empty(), start));
            assert(start.last() == id);
        }
        assert(tabs.contains(id));
        assert forall|x: i64| #[trigger] cluster.contains(x) <==> tabs.contains(x) by {
            law_opener_cluster_is_all_that_descends(active, visited, id, x);
            if cluster.contains(x) {
                lemma_descends_anyway(active, visited, id, x);
            }
            if tabs.contains(x) {
                lemma_descends_unvisited(active, visited, id, x, tabs);
            }
        }
        lemma_grown_distinct(active, visited, start, start);
        lemma_same_tabs(cluster, tabs);
        assert(all == seq![cluster] + rest);
        0
    } else if visited.contains(id) {
        lemma_tree_is_a_cluster(active, j + 1, visited, root, tabs)
    } else {
        assert forall|x: i64| #[trigger] tabs.contains(x) implies !seen.contains(x) by {
            if cluster.contains(x) {
                law_opener_cluster_is_all_that_descends(active, visited, id, x);
                lemma_descends_anyway(active, visited, id, x);
                assert(!descends(active, Set::empty(), active[j].id, x));
            }
        }
        let c = lemma_tree_is_a_cluster(active, j + 1, seen, root, tabs);
        if cluster.len() >= 2 {
            assert(all == seq![cluster] + rest);
            assert(all[c + 1] == rest[c]);
            c + 1
        } else {
            c
        }
    }
}

proof fn lemma_selected_itself(
    candidates: Seq<Seq<i64>>,
    min_size: int,
    stale: Set<i64>,
    seen: Set<i64>,
    c: int,
) -> (a: int)
    requires
        0 <= c < candidates.len(),
        eligible(candidates[c], min_size, stale, seen),
        forall|b: int, x: i64|
            #![trigger candidates[b].contains(x)]
            0 <= b < c && candidates[b].contains(x) ==> !candidates[c].contains(x),
    ensures
        0 <= a < selected(candidates, min_size, stale, seen).len(),
        selected(candidates, min_size, stale, seen)[a] == candidates[c],
    decreases candidates.len(),
{
    let c0 = candidates[0];
    let rest = candidates.skip(1);
    let taken = selected(candidates, min_size, stale, seen);
    if c == 0 {
        0
    } else {
        assert(rest[c - 1] == candidates[c]);
        assert forall|b: int, x: i64|
            #![trigger rest[b].contains(x)]
            0 <= b < c - 1 && rest[b].contains(x) implies !rest[c - 1].contains(x) by {
            assert(rest[b] == candidates[b + 1]);
            assert(candidates[b + 1].contains(x));
        }
        if eligible(c0, min_size, stale, seen) {
            let more = seen.union(c0.to_set());
            assert forall|k: int| 0 <= k < candidates[c].len() implies !more.contains(
                #[trigger] candidates[c][k],
            ) by {
                let x = candidates[c][k];
                assert(candidates[c].contains(x));
                if c0.contains(x) {
                    assert(candidates[0].contains(x));
                }
            }
            let a = lemma_selected_itself(rest, min_size, stale, more, c - 1);
            assert(taken == seq![c0] + selected(rest, min_size, stale, more));
            a + 1
        } else {
            lemma_selected_itself(rest, min_size, stale, seen, c - 1)
        }
    }
}

/// A tab together with all that was opened from it, directly or through other tabs,
/// makes one cluster: at least two tabs, at least as many as a cluster has to have,
/// each without focus for the whole threshold, and none of them opened, directly or
/// not, from a tab that stands earlier in the list. The cluster is found, whenever its
/// tabs were opened, and it holds exactly these tabs.
pub proof fn law_a_tab_and_what_was_opened_from_it_are_found(
    active: Seq<Member>,
    now: u64,
    config: RabbitHoleConfig,
    root: int,
    tabs: Seq<i64>,
)
    requires
        distinct(active),
        0 <= root < active.len(),
        tabs.no_duplicates(),
        tabs.len() >= 2,
        tabs.len() >= config.min_cluster_size,
        forall|x: i64| #[trigger]
            tabs.contains(x) <==> descends(active, Set::empty(), active[root].id, x),
        forall|k: int, x: i64|
            0 <= k < root && #[trigger] tabs.contains(x) ==> !descends(
                active,
                Set::empty(),
                (#[trigger] active[k]).id,
                x,
            ),
        forall|i: int|
            0 <= i < active.len() && tabs.contains((#[trigger] active[i]).id) ==> passed(
                active[i].idle_since,
                now,
            ) >= config.no_focus_threshold_minutes * 60 * 1_000_000_000,
    ensures
        exists|a: int|
            0 <= a < abandoned(active, now, config).len() && same_tabs(
                #[trigger] abandoned(active, now, config)[a],
                tabs,
            ),
{
    let openers = opener_clusters(active, 0, Set::empty());
    let c = lemma_tree_is_a_cluster(active, 0, Set::empty(), root, tabs);
    lemma_opener_clusters(active, 0, Set::empty());
    let mine = openers[c];
    let candidates = candidate_clusters(active, config);
    assert(candidates[c] == mine);
    let stale = stale_ids(active, now, config.no_focus_threshold_minutes * 60);
    assert(eligible(mine, config.min_cluster_size as int, stale, Set::empty())) by {
        assert forall|k: int| 0 <= k < mine.len() implies stale.contains(#[trigger] mine[k]) by {
            let x = mine[k];
            assert(mine.contains(x));
            assert(tabs.contains(x));
            assert(ids(active).contains(x));
            let i = choose|i: int| 0 <= i < ids(active).len() && ids(active)[i] == x;
            assert(active[i].id == x);
            assert(is_stale(active[i], now, config.no_focus_threshold_minutes * 60));
        }
    }
    assert forall|b: int, x: i64|
        #![trigger candidates[b].contains(x)]
        0 <= b < c && candidates[b].contains(x) implies !candidates[c].contains(x) by {
        assert(candidates[b] == openers[b]);
        assert(openers[b].contains(x));
    }
    assert(active.len() >= config.min_cluster_size) by {
        lemma_no_more_than_active(active, mine);
    }
    let a = lemma_selected_itself(
        candidates,
        config.min_cluster_size as int,
        stale,
        Set::empty(),
        c,
    );
    assert(same_tabs(abandoned(active, now, config)[a], tabs));
}

proof fn lemma_no_more_than_active(active: Seq<Member>, tabs: Seq<i64>)
    requires
        tabs.no_duplicates(),
        forall|x: i64| #[trigger] tabs.contains(x) ==> ids(active).contains(x),
    ensures
        tabs.len() <= active.len(),
{
    tabs.unique_seq_to_set();
    ids(active).lemma_cardinality_of_set();
    assert(tabs.to_set().subset_of(ids(active).to_set())) by {
        assert forall|x: i64| tabs.to_set().contains(x) implies ids(active).to_set().contains(
            x,
        ) by {
            assert(tabs.contains(x));
        }
    }
    vstd::set_lib::lemma_len_subset(tabs.to_set(), ids(active).to_set());
}

/// The cluster holds only tabs that were opened, directly or not, from one of the
/// active tabs, or from that tab itself.
pub open spec fn hangs_together(active: Seq<Member>, cluster: Seq<i64>, root: int) -> bool {
    0 <= root < active.len() && forall|x: i64| #[trigger]
        cluster.contains(x) ==> descends(active, Set::empty(), active[root].id, x)
}

/// Nothing else is found: each cluster has at least two tabs and as many as a cluster
/// has to have, each of its tabs is active and has gone without focus for the whole
/// threshold, and either all of them hang together by who opened whom, or no two of
/// them were opened further apart than the window. The spans are the configured
/// minutes in nanoseconds.
pub proof fn law_nothing_else_is_found(
    active: Seq<Member>,
    now: u64,
    config: RabbitHoleConfig,
    a: int,
)
    requires
        distinct(active),
        0 <= a < abandoned(active, now, config).len(),
    ensures
        ({
            let cluster = abandoned(active, now, config)[a];
            &&& cluster.len() >= 2
            &&& cluster.len() >= config.min_cluster_size
            &&& cluster.no_duplicates()
            &&& forall|x: i64| #[trigger] cluster.contains(x) ==> ids(active).contains(x)
            &&& forall|i: int|
                0 <= i < active.len() && cluster.contains((#[trigger] active[i]).id) ==> passed(
                    active[i].idle_since,
                    now,
                ) >= config.no_focus_threshold_minutes * 60 * 1_000_000_000
            &&& (exists|root: int| #[trigger] hangs_together(active, cluster, root)) || (forall|
                i: int,
                j: int,
            |
                #![trigger active[i], active[j]]
                0 <= i < active.len() && 0 <= j < active.len() && cluster.contains(active[i].id)
                    && cluster.contains(active[j].id) ==> active[i].created_at
                    - active[j].created_at <= config.cluster_window_minutes * 60 * 1_000_000_000)
        }),
{
    let found = abandoned(active, now, config);
    let cluster = found[a];
    let w = config.cluster_window_minutes * 60;
    law_abandoned_clusters_are_large_stale_and_disjoint(active, now, config);
    law_abandoned_clusters_hold_no_tab_twice(active, now, config);
    assert forall|x: i64| #[trigger] cluster.contains(x) implies ids(active).contains(x) by {
        let k = choose|k: int| 0 <= k < cluster.len() && cluster[k] == x;
        let i = choose|i: int|
            0 <= i < active.len() && (#[trigger] active[i]).id == found[a][k] && is_stale(
                active[i],
                now,
                config.no_focus_threshold_minutes * 60,
            );
        assert(ids(active)[i] == x);
    }
    assert forall|i: int| 0 <= i < active.len() && cluster.contains(
        (#[trigger] active[i]).id,
    ) implies passed(active[i].idle_since, now) >= config.no_focus_threshold_minutes * 60
        * 1_000_000_000 by {
        let x = active[i].id;
        let k = choose|k: int| 0 <= k < cluster.len() && cluster[k] == x;
        let j = choose|j: int|
            0 <= j < active.len() && (#[trigger] active[j]).id == found[a][k] && is_stale(
                active[j],
                now,
                config.no_focus_threshold_minutes * 60,
            );
        assert(active[j].id == active[i].id);
        assert(i == j);
    }
    let openers = opener_clusters(active, 0, Set::empty());
    let temporal = temporal_clusters(active, w);
    let candidates = candidate_clusters(active, config);
    let stale = stale_ids(active, now, config.no_focus_threshold_minutes * 60);
    lemma_selected(candidates, config.min_cluster_size as int, stale, Set::empty());
    assert(candidates.contains(found[a]));
    let d = choose|d: int| 0 <= d < candidates.len() && candidates[d] == found[a];
    if d < openers.len() {
        assert(openers[d] == cluster);
        lemma_opener_cluster_grew(active, 0, Set::empty(), d);
        let (v, j) = choose|v: Set<i64>, j: int| #[trigger] grew_from(active, cluster, v, j);
        assert forall|x: i64| #[trigger] cluster.contains(x) implies descends(
            active,
            Set::empty(),
            active[j].id,
            x,
        ) by {
            law_opener_cluster_is_all_that_descends(active, v, active[j].id, x);
            lemma_descends_anyway(active, v, active[j].id, x);
        }
        assert(hangs_together(active, cluster, j));
    } else {
        let e = d - openers.len();
        assert(temporal[e] == cluster);
        let sorted = by_time(active);
        let gs = groups(sorted, w);
        let g = lemma_pairs_come_from_groups(gs, e);
        let group = gs[g];
        law_by_time_sorts_and_keeps_order(active, 0);
        lemma_by_time_members(active);
        lemma_by_time_distinct(active);
        law_groups_are_windows(sorted, w);
        lemma_groups_members(sorted, w);
        assert forall|i: int, j: int|
            #![trigger active[i], active[j]]
            0 <= i < active.len() && 0 <= j < active.len() && cluster.contains(active[i].id)
                && cluster.contains(active[j].id) implies active[i].created_at
            - active[j].created_at <= config.cluster_window_minutes * 60 * 1_000_000_000 by {
            let k = lemma_in_group(active, sorted, group, active[i]);
            let l = lemma_in_group(active, sorted, group, active[j]);
            assert(in_window(gs[g][k], gs[g][0].created_at, w));
            lemma_group_starts_with_oldest(sorted, w, g, l);
        }
    }
}

proof fn lemma_in_group(
    active: Seq<Member>,
    sorted: Seq<Member>,
    group: Seq<Member>,
    m: Member,
) -> (k: int)
    requires
        distinct(active),
        active.contains(m),
        forall|x: Member| #[trigger] sorted.contains(x) <==> active.contains(x),
        forall|i: int| 0 <= i < group.len() ==> sorted.contains(#[trigger] group[i]),
        ids(group).contains(m.id),
    ensures
        0 <= k < group.len(),
        group[k] == m,
{
    let k = choose|k: int| 0 <= k < ids(group).len() && ids(group)[k] == m.id;
    assert(sorted.contains(group[k]));
    let i = choose|i: int| 0 <= i < active.len() && active[i] == group[k];
    let j = choose|j: int| 0 <= j < active.len() && active[j] == m;
    assert(active[i].id == active[j].id);
    assert(i == j);
    k
}

proof fn lemma_group_starts_with_oldest(sorted: Seq<Member>, window: int, g: int, k: int)
    requires
        oldest_first(sorted),
        0 <= g < groups(sorted, window).len(),
        0 <= k < groups(sorted, window)[g].len(),
    ensures
        groups(sorted, window)[g][0].created_at <= groups(sorted, window)[g][k].created_at,
    decreases sorted.len(),
{
    lemma_leading(sorted.skip(1), sorted[0].created_at, window);
    let n = 1 + leading(sorted.skip(1), sorted[0].created_at, window) as int;
    let rest = sorted.skip(n);
    assert(groups(sorted, window) == seq![sorted.take(n)] + groups(rest, window));
    if g == 0 {
        if k > 0 {
            assert(sorted[0].created_at <= sorted[k].created_at);
        }
    } else {
        assert(oldest_first(rest)) by {
            assert forall|i: int, j: int| 0 <= i < j < rest.len() implies (
            #[trigger] rest[i]).created_at <= (#[trigger] rest[j]).created_at by {
                assert(rest[i] == sorted[n + i] && rest[j] == sorted[n + j]);
            }
        }
        lemma_group_starts_with_oldest(rest, window, g - 1, k);
    }
}

/// As many clusters are found as the laws speak of, each with its tabs.
pub proof fn law_the_clusters_that_are_found(
    active: Vec<Member>,
    now: u64,
    config: RabbitHoleConfig,
    r: Vec<Vec<i64>>,
)
    requires
        call_ensures(find_abandoned, (&active, now, &config), r),
    ensures
        r@.len() == abandoned(active@, now, config).len(),
        forall|a: int| 0 <= a < r@.len() ==> (#[trigger] r@[a])@ == abandoned(active@, now, config)[a],
{
    let found = nested(r@);
    assert(found.len() == r@.len());
    assert forall|a: int| 0 <= a < r@.len() implies (#[trigger] r@[a])@ == abandoned(
        active@,
        now,
        config,
    )[a] by {
        assert(found[a] == r@[a]@);
    }
}

/// Tabs that were opened within the window of one of them and left alone for the whole
/// threshold, as the law on them says, are queued together: after the queueing of clusters,
/// as the last step of a whole sweep and by itself, during which the store does not fail,
/// all of them wait under one id, and nothing else of them has changed.
pub proof fn law_tabs_opened_within_the_window_are_queued_under_one_id(
    whole: bool,
    s: TrackerState,
    order: Seq<i64>,
    now: u64,
    utc: UtcTime,
    ids_given: Seq<String>,
    moments: Seq<Moment>,
    answers: Seq<Answer>,
    first: int,
    tabs: Seq<i64>,
)
    requires
        order.no_duplicates(),
        ({
            let active = s.members(order);
            let config = s.config.rabbit_hole;
            let clusters = abandoned(active, now, config);
            &&& 0 <= first < active.len()
            &&& forall|i: int|
                0 <= i < active.len() && (#[trigger] active[i]).created_at
                    < active[first].created_at ==> active[first].created_at - active[i].created_at
                    > config.cluster_window_minutes * 60 * 1_000_000_000
            &&& forall|i: int|
                0 <= i < active.len() ==> (tabs.contains((#[trigger] active[i]).id) <==> 0
                    <= active[i].created_at - active[first].created_at
                    <= config.cluster_window_minutes * 60 * 1_000_000_000)
            &&& forall|x: i64| #[trigger] tabs.contains(x) ==> ids(active).contains(x)
            &&& tabs.no_duplicates()
            &&& tabs.len() >= 2
            &&& tabs.len() >= config.min_cluster_size
            &&& stand_alone(active, tabs)
            &&& forall|i: int|
                0 <= i < active.len() && tabs.contains((#[trigger] active[i]).id) ==> passed(
                    active[i].idle_since,
                    now,
                ) >= config.no_focus_threshold_minutes * 60 * 1_000_000_000
            &&& ids_given.len() == clusters.len()
            &&& (moments[0].state, moments[0].progress) == step_leaves(
                whole,
                s,
                queueing(s, queued(clusters, ids_given), 0, utc),
            )
        }),
        step_run(whole, moments, answers),
        all_answered(answers),
        !(moments.last().progress is Ask),
    ensures
        exists|c: int|
            0 <= c < ids_given.len() && #[trigger] wait_under(
                s,
                moments.last().state,
                tabs,
                ids_given[c],
            ),
{
    let active = s.members(order);
    let config = s.config.rabbit_hole;
    lemma_members_distinct(s, order);
    law_tabs_opened_within_the_window_are_found(active, now, config, first, tabs);
    let found = abandoned(active, now, config);
    let c = choose|c: int| 0 <= c < found.len() && same_tabs(#[trigger] found[c], tabs);
    assert forall|x: i64| #[trigger] tabs.contains(x) implies waits_under(
        s,
        moments.last().state,
        x,
        ids_given[c],
    ) by {
        assert(found[c].contains(x));
        law_abandoned_clusters_are_queued(
            whole,
            s,
            order,
            now,
            utc,
            ids_given,
            moments,
            answers,
            c,
            x,
        );
    }
    assert(wait_under(s, moments.last().state, tabs, ids_given[c]));
}

/// The tab waits under the id, and nothing else of it has changed.
pub open spec fn waits_under(
    s: TrackerState,
    later: TrackerState,
    tab: i64,
    cluster_id: String,
) -> bool {
    &&& later.tabs.contains_key(tab)
    &&& later.tabs[tab].status == (TabStatus::Pending {
        reason: ArchivalReason::RabbitHole,
        cluster_id: Some(cluster_id),
    })
    &&& same_but_status(s.tabs[tab], later.tabs[tab])
}

/// All of the tabs wait under the same id.
pub open spec fn wait_under(
    s: TrackerState,
    later: TrackerState,
    tabs: Seq<i64>,
    cluster_id: String,
) -> bool {
    forall|x: i64| #[trigger] tabs.contains(x) ==> waits_under(s, later, x, cluster_id)
}

}

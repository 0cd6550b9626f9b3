//! What holds of clusters as a whole.

use vstd::prelude::*;
use crate::clusters::{
    abandoned, by_time, candidate_clusters, distinct, eligible, groups, grown, grown_is_measured,
    ids, in_window, inserted_by_time, is_stale, joining, joins, leading, lemma_joining_in,
    lemma_leading, opener_cluster, opener_clusters, outside, selected, stale_ids, tabs_of_pairs,
    temporal_clusters, Member,
};
use crate::config::RabbitHoleConfig;

verus! {

/// The tab `to` is active, stands in no earlier cluster, and was opened from `from`.
pub open spec fn opened_from(
    active: Seq<Member>,
    visited: Set<i64>,
    from: i64,
    to: i64,
) -> bool {
    &&& !visited.contains(to)
    &&& exists|i: int|
        0 <= i < active.len() && (#[trigger] active[i]).id == to && active[i].opener == Some(from)
}

/// Each tab of the path after the first was opened from the one before it.
pub open spec fn is_opener_path(active: Seq<Member>, visited: Set<i64>, path: Seq<i64>) -> bool {
    &&& path.len() > 0
    &&& forall|k: int|
        #![trigger path[k]]
        0 < k < path.len() ==> opened_from(active, visited, path[k - 1], path[k])
}

/// A path of openers leads from `root` to `id`.
pub open spec fn descends(active: Seq<Member>, visited: Set<i64>, root: i64, id: i64) -> bool {
    exists|path: Seq<i64>| #[trigger]
        is_opener_path(active, visited, path) && path[0] == root && path.last() == id
}

proof fn lemma_descends_one_more(
    active: Seq<Member>,
    visited: Set<i64>,
    root: i64,
    from: i64,
    to: i64,
)
    requires
        descends(active, visited, root, from),
        opened_from(active, visited, from, to),
    ensures
        descends(active, visited, root, to),
{
    let path = choose|path: Seq<i64>| #[trigger]
        is_opener_path(active, visited, path) && path[0] == root && path.last() == from;
    let longer = path.push(to);
    assert forall|k: int| #![trigger longer[k]] 0 < k < longer.len() implies opened_from(
        active,
        visited,
        longer[k - 1],
        longer[k],
    ) by {
        if k < path.len() {
            assert(longer[k] == path[k]);
            assert(longer[k - 1] == path[k - 1]);
        }
    }
    assert(is_opener_path(active, visited, longer));
    assert(longer.last() == to);
}

proof fn lemma_grown_descends(
    active: Seq<Member>,
    visited: Set<i64>,
    root: i64,
    cluster: Seq<i64>,
    queue: Seq<i64>,
)
    requires
        forall|x: i64| #[trigger] cluster.contains(x) ==> descends(active, visited, root, x),
        forall|x: i64| #[trigger] queue.contains(x) ==> cluster.contains(x),
    ensures
        forall|x: i64| #[trigger]
            grown(active, visited, cluster, queue).contains(x) ==> descends(
                active,
                visited,
                root,
                x,
            ),
    decreases outside(active, cluster), queue.len(),
{
    grown_is_measured(active, visited, cluster, queue);
    if queue.len() > 0 {
        let parent = queue.last();
        let kids = joining(active, parent, visited, cluster);
        let more = cluster + kids;
        let left = queue.drop_last() + kids;
        assert(queue.contains(parent)) by {
            assert(queue[queue.len() - 1] == parent);
        }
        assert forall|x: i64| #[trigger] more.contains(x) implies descends(
            active,
            visited,
            root,
            x,
        ) by {
            if !cluster.contains(x) {
                let k = choose|k: int| 0 <= k < more.len() && more[k] == x;
                if k < cluster.len() {
                    assert(cluster[k] == x);
                } else {
                    assert(kids[k - cluster.len()] == x);
                }
                assert(kids.contains(x));
                lemma_joining_in(active, parent, visited, cluster, x);
                lemma_descends_one_more(active, visited, root, parent, x);
            }
        }
        assert forall|x: i64| #[trigger] left.contains(x) implies more.contains(x) by {
            let k = choose|k: int| 0 <= k < left.len() && left[k] == x;
            if k < queue.len() - 1 {
                assert(queue[k] == x);
                assert(queue.contains(x));
                let j = choose|j: int| 0 <= j < cluster.len() && cluster[j] == x;
                assert(more[j] == x);
            } else {
                assert(more[cluster.len() + (k - (queue.len() - 1))] == x);
            }
        }
        lemma_grown_descends(active, visited, root, more, left);
        assert(grown(active, visited, cluster, queue) == grown(active, visited, more, left));
    }
}

/// What was opened from the tabs of the cluster stands in it too, unless the tab
/// is still to be looked at.
spec fn closed_but_for(
    active: Seq<Member>,
    visited: Set<i64>,
    cluster: Seq<i64>,
    queue: Seq<i64>,
) -> bool {
    forall|x: i64, y: i64|
        #![trigger opened_from(active, visited, x, y)]
        cluster.contains(x) && !queue.contains(x) && opened_from(active, visited, x, y)
            ==> cluster.contains(y)
}

proof fn lemma_grown_closed(
    active: Seq<Member>,
    visited: Set<i64>,
    cluster: Seq<i64>,
    queue: Seq<i64>,
)
    requires
        closed_but_for(active, visited, cluster, queue),
    ensures
        forall|x: i64| #[trigger]
            cluster.contains(x) ==> grown(active, visited, cluster, queue).contains(x),
        closed_but_for(
            active,
            visited,
            grown(active, visited, cluster, queue),
            Seq::<i64>::empty(),
        ),
    decreases outside(active, cluster), queue.len(),
{
    grown_is_measured(active, visited, cluster, queue);
    if queue.len() > 0 {
        let parent = queue.last();
        let kids = joining(active, parent, visited, cluster);
        let more = cluster + kids;
        let left = queue.drop_last() + kids;
        assert forall|x: i64| #[trigger] cluster.contains(x) implies more.contains(x) by {
            let k = choose|k: int| 0 <= k < cluster.len() && cluster[k] == x;
            assert(more[k] == x);
        }
        assert forall|x: i64| #[trigger] kids.contains(x) implies more.contains(x)
            && left.contains(x) by {
            let k = choose|k: int| 0 <= k < kids.len() && kids[k] == x;
            assert(more[cluster.len() + k] == x);
            assert(left[queue.len() - 1 + k] == x);
        }
        assert forall|x: i64, y: i64|
            #![trigger opened_from(active, visited, x, y)]
            more.contains(x) && !left.contains(x) && opened_from(
                active,
                visited,
                x,
                y,
            ) implies more.contains(y) by {
            let k = choose|k: int| 0 <= k < more.len() && more[k] == x;
            if k >= cluster.len() {
                assert(kids[k - cluster.len()] == x);
                assert(kids.contains(x));
            } else {
                assert(cluster[k] == x);
                assert(cluster.contains(x));
            }
            if x == parent {
                if !cluster.contains(y) {
                    let i = choose|i: int|
                        0 <= i < active.len() && (#[trigger] active[i]).id == y
                            && active[i].opener == Some(x);
                    assert(joins(active[i], parent, visited, cluster));
                    lemma_joining_in(active, parent, visited, cluster, y);
                    assert(kids.contains(y));
                }
            } else {
                assert(!queue.contains(x)) by {
                    if queue.contains(x) {
                        let j = choose|j: int| 0 <= j < queue.len() && queue[j] == x;
                        assert(left[j] == x);
                    }
                }
                assert(cluster.contains(y));
            }
        }
        lemma_grown_closed(active, visited, more, left);
        assert(grown(active, visited, cluster, queue) == grown(active, visited, more, left));
    } else {
        assert(queue =~= Seq::<i64>::empty());
    }
}

/// An opener cluster holds exactly its root and the tabs that were opened from it,
/// directly or through other tabs of no earlier cluster.
pub proof fn law_opener_cluster_is_all_that_descends(
    active: Seq<Member>,
    visited: Set<i64>,
    root: i64,
    id: i64,
)
    ensures
        opener_cluster(active, visited, root).contains(id) <==> descends(
            active,
            visited,
            root,
            id,
        ),
{
    let start = seq![root];
    let cluster = opener_cluster(active, visited, root);
    assert(is_opener_path(active, visited, start));
    assert forall|x: i64| #[trigger] start.contains(x) implies descends(
        active,
        visited,
        root,
        x,
    ) by {
        assert(start.last() == x);
    }
    lemma_grown_descends(active, visited, root, start, start);
    lemma_grown_closed(active, visited, start, start);
    if descends(active, visited, root, id) {
        let path = choose|path: Seq<i64>| #[trigger]
            is_opener_path(active, visited, path) && path[0] == root && path.last() == id;
        assert(start.contains(root)) by {
            assert(start[0] == root);
        }
        lemma_path_inside(active, visited, cluster, path, path.len() - 1);
    }
}

proof fn lemma_path_inside(
    active: Seq<Member>,
    visited: Set<i64>,
    cluster: Seq<i64>,
    path: Seq<i64>,
    k: int,
)
    requires
        closed_but_for(active, visited, cluster, Seq::<i64>::empty()),
        is_opener_path(active, visited, path),
        cluster.contains(path[0]),
        0 <= k < path.len(),
    ensures
        cluster.contains(path[k]),
    decreases k,
{
    if k > 0 {
        lemma_path_inside(active, visited, cluster, path, k - 1);
        assert(opened_from(active, visited, path[k - 1], path[k]));
        assert(!Seq::<i64>::empty().contains(path[k - 1]));
    }
}

proof fn lemma_joining_distinct(
    active: Seq<Member>,
    parent: i64,
    visited: Set<i64>,
    cluster: Seq<i64>,
)
    requires
        distinct(active),
    ensures
        joining(active, parent, visited, cluster).no_duplicates(),
    decreases active.len(),
{
    if active.len() > 0 {
        let front = active.drop_last();
        assert forall|i: int, j: int| 0 <= i < j < front.len() implies (#[trigger] front[i]).id != (
        #[trigger] front[j]).id by {
            assert(front[i] == active[i]);
            assert(front[j] == active[j]);
        }
        lemma_joining_distinct(front, parent, visited, cluster);
        let last = active.last();
        let kids = joining(front, parent, visited, cluster);
        if kids.contains(last.id) {
            lemma_joining_in(front, parent, visited, cluster, last.id);
            let i = choose|i: int|
                0 <= i < front.len() && (#[trigger] front[i]).id == last.id && joins(
                    front[i],
                    parent,
                    visited,
                    cluster,
                );
            assert(active[i].id != active[active.len() - 1].id);
        }
    }
}

pub(crate) proof fn lemma_grown_distinct(
    active: Seq<Member>,
    visited: Set<i64>,
    cluster: Seq<i64>,
    queue: Seq<i64>,
)
    requires
        distinct(active),
        cluster.no_duplicates(),
        forall|x: i64| #[trigger] cluster.contains(x) ==> !visited.contains(x),
    ensures
        grown(active, visited, cluster, queue).no_duplicates(),
        forall|x: i64| #[trigger]
            grown(active, visited, cluster, queue).contains(x) ==> !visited.contains(x),
        forall|x: i64| #[trigger]
            grown(active, visited, cluster, queue).contains(x) ==> cluster.contains(x) || ids(
                active,
            ).contains(x),
    decreases outside(active, cluster), queue.len(),
{
    grown_is_measured(active, visited, cluster, queue);
    if queue.len() > 0 {
        let parent = queue.last();
        let kids = joining(active, parent, visited, cluster);
        let more = cluster + kids;
        let left = queue.drop_last() + kids;
        lemma_joining_distinct(active, parent, visited, cluster);
        assert forall|x: i64| #[trigger] kids.contains(x) implies !visited.contains(x)
            && !cluster.contains(x) && ids(active).contains(x) by {
            lemma_joining_in(active, parent, visited, cluster, x);
            let i = choose|i: int|
                0 <= i < active.len() && (#[trigger] active[i]).id == x && joins(
                    active[i],
                    parent,
                    visited,
                    cluster,
                );
            assert(ids(active)[i] == x);
        }
        assert forall|i: int, j: int| 0 <= i < j < more.len() implies more[i] != more[j] by {
            if i < cluster.len() && j >= cluster.len() {
                assert(kids[j - cluster.len()] == more[j]);
                assert(kids.contains(more[j]));
                assert(cluster[i] == more[i]);
            } else if i >= cluster.len() {
                assert(kids[i - cluster.len()] != kids[j - cluster.len()]);
            }
        }
        assert forall|x: i64| #[trigger] more.contains(x) implies cluster.contains(x)
            || kids.contains(x) by {
            let k = choose|k: int| 0 <= k < more.len() && more[k] == x;
            if k < cluster.len() {
                assert(cluster[k] == x);
            } else {
                assert(kids[k - cluster.len()] == x);
            }
        }
        lemma_grown_distinct(active, visited, more, left);
        assert(grown(active, visited, cluster, queue) == grown(active, visited, more, left));
    }
}

/// No tab stands twice in a list of clusters, neither in one nor in two of them.
pub open spec fn pairwise_disjoint(clusters: Seq<Seq<i64>>) -> bool {
    &&& forall|a: int| 0 <= a < clusters.len() ==> (#[trigger] clusters[a]).no_duplicates()
    &&& forall|a: int, b: int, x: i64|
        #![trigger clusters[a].contains(x), clusters[b].contains(x)]
        0 <= a < b < clusters.len() && clusters[a].contains(x) ==> !clusters[b].contains(x)
}

pub(crate) proof fn lemma_opener_clusters(active: Seq<Member>, i: int, visited: Set<i64>)
    requires
        distinct(active),
        0 <= i <= active.len(),
    ensures
        ({
            let clusters = opener_clusters(active, i, visited);
            &&& pairwise_disjoint(clusters)
            &&& forall|a: int| 0 <= a < clusters.len() ==> (#[trigger] clusters[a]).len() >= 2
            &&& forall|a: int, x: i64|
                0 <= a < clusters.len() && #[trigger] clusters[a].contains(x) ==> ids(
                    active,
                ).contains(x) && !visited.contains(x)
        }),
    decreases active.len() - i,
{
    if i < active.len() {
        let root = active[i].id;
        if visited.contains(root) {
            lemma_opener_clusters(active, i + 1, visited);
        } else {
            let start = seq![root];
            let cluster = opener_cluster(active, visited, root);
            let seen = visited.union(cluster.to_set());
            let rest = opener_clusters(active, i + 1, seen);
            let clusters = opener_clusters(active, i, visited);
            lemma_grown_distinct(active, visited, start, start);
            assert(ids(active)[i] == root);
            lemma_opener_clusters(active, i + 1, seen);
            if cluster.len() >= 2 {
                assert(clusters == seq![cluster] + rest);
                assert forall|a: int| 0 <= a < clusters.len() implies (
                #[trigger] clusters[a]).no_duplicates() && clusters[a].len() >= 2 by {
                    if a > 0 {
                        assert(clusters[a] == rest[a - 1]);
                    }
                }
                assert forall|a: int, x: i64|
                    0 <= a < clusters.len() && #[trigger] clusters[a].contains(x) implies ids(
                    active,
                ).contains(x) && !visited.contains(x) by {
                    if a > 0 {
                        assert(clusters[a] == rest[a - 1]);
                        assert(rest[a - 1].contains(x));
                    } else {
                        assert(start.contains(x) || ids(active).contains(x));
                    }
                }
                assert forall|a: int, b: int, x: i64|
                    #![trigger clusters[a].contains(x), clusters[b].contains(x)]
                    0 <= a < b < clusters.len() && clusters[a].contains(
                        x,
                    ) implies !clusters[b].contains(x) by {
                    assert(clusters[b] == rest[b - 1]);
                    if a == 0 {
                        assert(seen.contains(x));
                        if clusters[b].contains(x) {
                            assert(rest[b - 1].contains(x));
                        }
                    } else {
                        assert(clusters[a] == rest[a - 1]);
                        assert(rest[a - 1].contains(x));
                    }
                }
            }
        }
    }
}

/// The opener clusters hold active tabs only, at least two each, and no tab twice.
pub proof fn law_opener_clusters_part_the_active_tabs(active: Seq<Member>)
    requires
        distinct(active),
    ensures
        ({
            let clusters = opener_clusters(active, 0, Set::empty());
            &&& pairwise_disjoint(clusters)
            &&& forall|a: int| 0 <= a < clusters.len() ==> (#[trigger] clusters[a]).len() >= 2
            &&& forall|a: int, x: i64|
                0 <= a < clusters.len() && #[trigger] clusters[a].contains(x) ==> ids(
                    active,
                ).contains(x)
        }),
{
    lemma_opener_clusters(active, 0, Set::empty());
}

/// The member was created at `t`.
pub open spec fn created_at(t: u64) -> spec_fn(Member) -> bool {
    |m: Member| m.created_at == t
}

proof fn lemma_inserted_keeps_order(sorted: Seq<Member>, m: Member, t: u64)
    ensures
        inserted_by_time(sorted, m).filter(created_at(t)) == if m.created_at == t {
            sorted.filter(created_at(t)).push(m)
        } else {
            sorted.filter(created_at(t))
        },
    decreases sorted.len(),
{
    reveal(Seq::filter);
    let at = created_at(t);
    if sorted.len() == 0 || sorted.last().created_at <= m.created_at {
        assert(sorted.push(m).drop_last() =~= sorted);
    } else {
        let front = inserted_by_time(sorted.drop_last(), m);
        lemma_inserted_keeps_order(sorted.drop_last(), m, t);
        assert(front.push(sorted.last()).drop_last() =~= front);
        if m.created_at == t {
            assert(!at(sorted.last()));
        }
    }
}

/// The members stand from the oldest to the newest.
pub open spec fn oldest_first(s: Seq<Member>) -> bool {
    forall|i: int, j: int|
        0 <= i < j < s.len() ==> (#[trigger] s[i]).created_at <= (#[trigger] s[j]).created_at
}

proof fn lemma_inserted_oldest_first(sorted: Seq<Member>, m: Member)
    requires
        oldest_first(sorted),
    ensures
        oldest_first(inserted_by_time(sorted, m)),
        inserted_by_time(sorted, m).len() == sorted.len() + 1,
        forall|i: int|
            0 <= i < sorted.len() + 1 ==> (#[trigger] inserted_by_time(sorted, m)[i]).created_at
                <= m.created_at || (sorted.len() > 0 && inserted_by_time(sorted, m)[i].created_at
                <= sorted.last().created_at),
    decreases sorted.len(),
{
    if sorted.len() == 0 || sorted.last().created_at <= m.created_at {
    } else {
        let front = sorted.drop_last();
        assert(oldest_first(front)) by {
            assert forall|i: int, j: int| 0 <= i < j < front.len() implies (
            #[trigger] front[i]).created_at <= (#[trigger] front[j]).created_at by {
                assert(front[i] == sorted[i]);
                assert(front[j] == sorted[j]);
            }
        }
        lemma_inserted_oldest_first(front, m);
        if front.len() > 0 {
            assert(front.last() == sorted[sorted.len() - 2]);
            assert(sorted[sorted.len() - 2].created_at <= sorted[sorted.len() - 1].created_at);
        }
    }
}

/// Sorting by time puts the members from the oldest to the newest, and those of
/// each age keep their order.
pub proof fn law_by_time_sorts_and_keeps_order(active: Seq<Member>, t: u64)
    ensures
        oldest_first(by_time(active)),
        by_time(active).len() == active.len(),
        by_time(active).filter(created_at(t)) == active.filter(created_at(t)),
    decreases active.len(),
{
    reveal(Seq::filter);
    if active.len() > 0 {
        let front = active.drop_last();
        law_by_time_sorts_and_keeps_order(front, t);
        lemma_inserted_oldest_first(by_time(front), active.last());
        lemma_inserted_keeps_order(by_time(front), active.last(), t);
    }
}

/// The groups one after another.
pub open spec fn strung_together(gs: Seq<Seq<Member>>) -> Seq<Member>
    decreases gs.len(),
{
    if gs.len() == 0 {
        Seq::empty()
    } else {
        gs[0] + strung_together(gs.skip(1))
    }
}

/// Cutting into groups keeps every member and its place. All of a group was
/// created within the window of its first member, and the next group starts with
/// a member that was not.
pub proof fn law_groups_are_windows(sorted: Seq<Member>, window: int)
    requires
        window >= 0,
    ensures
        ({
            let gs = groups(sorted, window);
            &&& strung_together(gs) == sorted
            &&& forall|a: int| 0 <= a < gs.len() ==> (#[trigger] gs[a]).len() > 0
            &&& forall|a: int, i: int|
                0 <= a < gs.len() && 0 <= i < gs[a].len() ==> in_window(
                    #[trigger] gs[a][i],
                    gs[a][0].created_at,
                    window,
                )
            &&& forall|a: int|
                #![trigger gs[a]]
                0 < a < gs.len() ==> !in_window(gs[a][0], gs[a - 1][0].created_at, window)
        }),
    decreases sorted.len(),
{
    let gs = groups(sorted, window);
    if sorted.len() > 0 {
        let first = sorted[0].created_at;
        let tail = sorted.skip(1);
        lemma_leading(tail, first, window);
        let n = 1 + leading(tail, first, window);
        let head = sorted.take(n as int);
        let rest = sorted.skip(n as int);
        let more = groups(rest, window);
        law_groups_are_windows(rest, window);
        assert(gs == seq![head] + more);
        assert(gs.skip(1) =~= more);
        assert(head + rest =~= sorted);
        assert forall|a: int, i: int| 0 <= a < gs.len() && 0 <= i < gs[a].len() implies in_window(
            #[trigger] gs[a][i],
            gs[a][0].created_at,
            window,
        ) by {
            if a == 0 {
                if i > 0 {
                    assert(gs[a][i] == tail[i - 1]);
                }
            } else {
                assert(gs[a] == more[a - 1]);
                assert(in_window(more[a - 1][i], more[a - 1][0].created_at, window));
            }
        }
        assert forall|a: int| #![trigger gs[a]] 0 < a < gs.len() implies !in_window(
            gs[a][0],
            gs[a - 1][0].created_at,
            window,
        ) by {
            assert(gs[a] == more[a - 1]);
            if a == 1 {
                assert(rest.len() > 0);
                assert(strung_together(more) == more[0] + strung_together(more.skip(1)));
                assert(rest[0] == more[0][0]);
                assert(rest[0] == tail[n - 1]);
            } else {
                assert(gs[a - 1] == more[a - 2]);
            }
        }
    }
}

/// Some tab stands in both lists.
pub open spec fn overlap(a: Seq<i64>, b: Seq<i64>) -> bool {
    exists|x: i64| #[trigger] a.contains(x) && b.contains(x)
}

pub(crate) proof fn lemma_selected(
    candidates: Seq<Seq<i64>>,
    min_size: int,
    stale: Set<i64>,
    seen: Set<i64>,
)
    ensures
        ({
            let taken = selected(candidates, min_size, stale, seen);
            &&& forall|a: int|
                0 <= a < taken.len() ==> candidates.contains(#[trigger] taken[a]) && eligible(
                    taken[a],
                    min_size,
                    stale,
                    seen,
                )
            &&& forall|a: int, b: int, x: i64|
                #![trigger taken[a].contains(x), taken[b].contains(x)]
                0 <= a < b < taken.len() && taken[a].contains(x) ==> !taken[b].contains(x)
        }),
    decreases candidates.len(),
{
    let taken = selected(candidates, min_size, stale, seen);
    if candidates.len() > 0 {
        let c0 = candidates[0];
        let rest = candidates.skip(1);
        assert forall|x: Seq<i64>| #[trigger] rest.contains(x) implies candidates.contains(x) by {
            let k = choose|k: int| 0 <= k < rest.len() && rest[k] == x;
            assert(candidates[k + 1] == x);
        }
        if eligible(c0, min_size, stale, seen) {
            let more_seen = seen.union(c0.to_set());
            let later = selected(rest, min_size, stale, more_seen);
            lemma_selected(rest, min_size, stale, more_seen);
            assert(taken == seq![c0] + later);
            assert forall|a: int| 0 <= a < taken.len() implies candidates.contains(
                #[trigger] taken[a],
            ) && eligible(taken[a], min_size, stale, seen) by {
                if a > 0 {
                    assert(taken[a] == later[a - 1]);
                }
            }
            assert forall|a: int, b: int, x: i64|
                #![trigger taken[a].contains(x), taken[b].contains(x)]
                0 <= a < b < taken.len() && taken[a].contains(x) implies !taken[b].contains(x) by {
                assert(taken[b] == later[b - 1]);
                if a == 0 {
                    assert(more_seen.contains(x));
                    if taken[b].contains(x) {
                        let k = choose|k: int| 0 <= k < taken[b].len() && taken[b][k] == x;
                        assert(!more_seen.contains(later[b - 1][k]));
                    }
                } else {
                    assert(taken[a] == later[a - 1]);
                    assert(later[a - 1].contains(x));
                }
            }
        } else {
            lemma_selected(rest, min_size, stale, seen);
            assert(taken == selected(rest, min_size, stale, seen));
        }
    }
}

proof fn lemma_selected_covers(
    candidates: Seq<Seq<i64>>,
    min_size: int,
    stale: Set<i64>,
    seen: Set<i64>,
    c: int,
)
    requires
        0 <= c < candidates.len(),
        candidates[c].len() > 0,
        eligible(candidates[c], min_size, stale, seen),
    ensures
        ({
            let taken = selected(candidates, min_size, stale, seen);
            exists|a: int| 0 <= a < taken.len() && overlap(#[trigger] taken[a], candidates[c])
        }),
    decreases candidates.len(),
{
    let taken = selected(candidates, min_size, stale, seen);
    let c0 = candidates[0];
    let cand = candidates[c];
    let rest = candidates.skip(1);
    if eligible(c0, min_size, stale, seen) {
        let more_seen = seen.union(c0.to_set());
        let later = selected(rest, min_size, stale, more_seen);
        assert(taken == seq![c0] + later);
        if c == 0 {
            assert(c0.contains(c0[0]));
            assert(overlap(taken[0], cand));
        } else {
            assert(cand == rest[c - 1]);
            if eligible(cand, min_size, stale, more_seen) {
                lemma_selected_covers(rest, min_size, stale, more_seen, c - 1);
                let a = choose|a: int|
                    0 <= a < later.len() && overlap(#[trigger] later[a], rest[c - 1]);
                assert(taken[a + 1] == later[a]);
            } else {
                let k = choose|k: int| 0 <= k < cand.len() && more_seen.contains(#[trigger] cand[k]);
                assert(c0.contains(cand[k]));
                assert(cand.contains(cand[k]));
                assert(overlap(taken[0], cand));
            }
        }
    } else {
        assert(cand == rest[c - 1]);
        lemma_selected_covers(rest, min_size, stale, seen, c - 1);
    }
}

/// Abandoned clusters have the wanted size. Each tab of one is active and has gone
/// without focus for the whole threshold, and no tab stands in two of them.
pub proof fn law_abandoned_clusters_are_large_stale_and_disjoint(
    active: Seq<Member>,
    now: u64,
    config: RabbitHoleConfig,
)
    ensures
        ({
            let found = abandoned(active, now, config);
            &&& forall|a: int|
                0 <= a < found.len() ==> (#[trigger] found[a]).len() >= config.min_cluster_size
            &&& forall|a: int, k: int|
                0 <= a < found.len() && 0 <= k < found[a].len() ==> exists|i: int|
                    0 <= i < active.len() && (#[trigger] active[i]).id == #[trigger] found[a][k]
                        && is_stale(active[i], now, config.no_focus_threshold_minutes * 60)
            &&& forall|a: int, b: int, x: i64|
                #![trigger found[a].contains(x), found[b].contains(x)]
                0 <= a < b < found.len() && found[a].contains(x) ==> !found[b].contains(x)
        }),
{
    let found = abandoned(active, now, config);
    if active.len() >= config.min_cluster_size {
        let candidates = candidate_clusters(active, config);
        let stale = stale_ids(active, now, config.no_focus_threshold_minutes * 60);
        lemma_selected(candidates, config.min_cluster_size as int, stale, Set::empty());
        assert forall|a: int, k: int|
            0 <= a < found.len() && 0 <= k < found[a].len() implies exists|i: int|
            0 <= i < active.len() && (#[trigger] active[i]).id == #[trigger] found[a][k]
                && is_stale(active[i], now, config.no_focus_threshold_minutes * 60) by {
            assert(eligible(found[a], config.min_cluster_size as int, stale, Set::empty()));
            assert(stale.contains(found[a][k]));
        }
    }
}

/// Nothing abandoned is passed over: a candidate cluster that is large and stale
/// enough shares a tab with one that was found, or was itself found.
pub proof fn law_no_abandoned_cluster_is_passed_over(
    active: Seq<Member>,
    now: u64,
    config: RabbitHoleConfig,
    c: int,
)
    requires
        ({
            let candidates = candidate_clusters(active, config);
            &&& active.len() >= config.min_cluster_size
            &&& 0 <= c < candidates.len()
            &&& candidates[c].len() > 0
            &&& eligible(
                candidates[c],
                config.min_cluster_size as int,
                stale_ids(active, now, config.no_focus_threshold_minutes * 60),
                Set::empty(),
            )
        }),
    ensures
        ({
            let candidates = candidate_clusters(active, config);
            let found = abandoned(active, now, config);
            exists|a: int| 0 <= a < found.len() && overlap(#[trigger] found[a], candidates[c])
        }),
{
    let candidates = candidate_clusters(active, config);
    let stale = stale_ids(active, now, config.no_focus_threshold_minutes * 60);
    lemma_selected_covers(candidates, config.min_cluster_size as int, stale, Set::empty(), c);
    let found = abandoned(active, now, config);
    assert(found == selected(candidates, config.min_cluster_size as int, stale, Set::empty()));
    assert(exists|a: int| 0 <= a < found.len() && overlap(#[trigger] found[a], candidates[c]));
}

proof fn lemma_inserted_distinct(sorted: Seq<Member>, m: Member)
    requires
        distinct(sorted),
        !ids(sorted).contains(m.id),
    ensures
        distinct(inserted_by_time(sorted, m)),
        forall|x: i64| #[trigger]
            ids(inserted_by_time(sorted, m)).contains(x) <==> x == m.id || ids(sorted).contains(x),
    decreases sorted.len(),
{
    if sorted.len() == 0 || sorted.last().created_at <= m.created_at {
        lemma_distinct_push(sorted, m);
    } else {
        let front = sorted.drop_last();
        let last = sorted.last();
        assert(front.push(last) =~= sorted);
        assert(distinct(front)) by {
            assert forall|i: int, j: int| 0 <= i < j < front.len() implies (
            #[trigger] front[i]).id != (#[trigger] front[j]).id by {
                assert(front[i] == sorted[i] && front[j] == sorted[j]);
            }
        }
        assert(!ids(front).contains(last.id)) by {
            if ids(front).contains(last.id) {
                let i = choose|i: int| 0 <= i < ids(front).len() && ids(front)[i] == last.id;
                assert(sorted[i].id == sorted[sorted.len() - 1].id);
            }
        }
        lemma_distinct_push(front, last);
        assert(ids(sorted).contains(last.id));
        assert(!ids(front).contains(m.id));
        lemma_inserted_distinct(front, m);
        let most = inserted_by_time(front, m);
        assert(ids(most).contains(last.id) <==> last.id == m.id || ids(front).contains(last.id));
        lemma_distinct_push(most, last);
        assert forall|x: i64| #[trigger]
            ids(inserted_by_time(sorted, m)).contains(x) <==> x == m.id || ids(sorted).contains(
                x,
            ) by {
            assert(ids(most.push(last)).contains(x) <==> x == last.id || ids(most).contains(x));
            assert(ids(most).contains(x) <==> x == m.id || ids(front).contains(x));
            assert(ids(front.push(last)).contains(x) <==> x == last.id || ids(front).contains(x));
        }
    }
}

proof fn lemma_distinct_push(s: Seq<Member>, m: Member)
    ensures
        distinct(s) && !ids(s).contains(m.id) ==> distinct(s.push(m)),
        forall|x: i64| #[trigger]
            ids(s.push(m)).contains(x) <==> x == m.id || ids(s).contains(x),
{
    let more = s.push(m);
    assert(ids(more) =~= ids(s).push(m.id));
    assert forall|x: i64| #[trigger] ids(more).contains(x) <==> x == m.id || ids(s).contains(x) by {
        if ids(s).contains(x) {
            let i = choose|i: int| 0 <= i < ids(s).len() && ids(s)[i] == x;
            assert(ids(more)[i] == x);
        }
        assert(ids(more)[s.len() as int] == m.id);
    }
    if distinct(s) && !ids(s).contains(m.id) {
        assert forall|i: int, j: int| 0 <= i < j < more.len() implies (#[trigger] more[i]).id != (
        #[trigger] more[j]).id by {
            assert(more[i] == s[i]);
            assert(ids(s)[i] == s[i].id);
            if j < s.len() {
                assert(more[j] == s[j]);
            }
        }
    }
}

pub(crate) proof fn lemma_by_time_distinct(active: Seq<Member>)
    requires
        distinct(active),
    ensures
        distinct(by_time(active)),
        forall|x: i64| #[trigger] ids(by_time(active)).contains(x) <==> ids(active).contains(x),
    decreases active.len(),
{
    if active.len() > 0 {
        let front = active.drop_last();
        let last = active.last();
        assert(front.push(last) =~= active);
        assert(distinct(front)) by {
            assert forall|i: int, j: int| 0 <= i < j < front.len() implies (
            #[trigger] front[i]).id != (#[trigger] front[j]).id by {
                assert(front[i] == active[i] && front[j] == active[j]);
            }
        }
        assert(!ids(front).contains(last.id)) by {
            if ids(front).contains(last.id) {
                let i = choose|i: int| 0 <= i < ids(front).len() && ids(front)[i] == last.id;
                assert(active[i].id == active[active.len() - 1].id);
            }
        }
        lemma_by_time_distinct(front);
        assert(!ids(by_time(front)).contains(last.id));
        lemma_inserted_distinct(by_time(front), last);
        lemma_distinct_push(front, last);
        assert forall|x: i64| #[trigger]
            ids(by_time(active)).contains(x) <==> ids(active).contains(x) by {
            assert(ids(inserted_by_time(by_time(front), last)).contains(x) <==> x == last.id || ids(
                by_time(front),
            ).contains(x));
            assert(ids(by_time(front)).contains(x) <==> ids(front).contains(x));
            assert(ids(front.push(last)).contains(x) <==> x == last.id || ids(front).contains(x));
        }
    } else {
        assert(by_time(active) =~= active);
    }
}

pub(crate) proof fn lemma_groups_distinct(sorted: Seq<Member>, window: int)
    requires
        distinct(sorted),
    ensures
        forall|a: int|
            0 <= a < groups(sorted, window).len() ==> distinct(
                #[trigger] groups(sorted, window)[a],
            ),
    decreases sorted.len(),
{
    if sorted.len() > 0 {
        lemma_leading(sorted.skip(1), sorted[0].created_at, window);
        let n = (1 + leading(sorted.skip(1), sorted[0].created_at, window)) as int;
        let head = sorted.take(n);
        let rest = sorted.skip(n);
        assert(distinct(head)) by {
            assert forall|i: int, j: int| 0 <= i < j < head.len() implies (#[trigger] head[i]).id
                != (#[trigger] head[j]).id by {
                assert(head[i] == sorted[i] && head[j] == sorted[j]);
            }
        }
        assert(distinct(rest)) by {
            assert forall|i: int, j: int| 0 <= i < j < rest.len() implies (#[trigger] rest[i]).id
                != (#[trigger] rest[j]).id by {
                assert(rest[i] == sorted[n + i] && rest[j] == sorted[n + j]);
            }
        }
        lemma_groups_distinct(rest, window);
        let gs = groups(sorted, window);
        assert(gs == seq![head] + groups(rest, window));
        assert forall|a: int| 0 <= a < gs.len() implies distinct(#[trigger] gs[a]) by {
            if a > 0 {
                assert(gs[a] == groups(rest, window)[a - 1]);
            }
        }
    }
}

proof fn lemma_tabs_of_pairs(gs: Seq<Seq<Member>>)
    requires
        forall|a: int| 0 <= a < gs.len() ==> distinct(#[trigger] gs[a]),
    ensures
        forall|c: int|
            0 <= c < tabs_of_pairs(gs).len() ==> (#[trigger] tabs_of_pairs(gs)[c]).no_duplicates()
                && tabs_of_pairs(gs)[c].len() >= 2,
    decreases gs.len(),
{
    if gs.len() > 0 {
        let rest = gs.skip(1);
        assert forall|a: int| 0 <= a < rest.len() implies distinct(#[trigger] rest[a]) by {
            assert(rest[a] == gs[a + 1]);
        }
        lemma_tabs_of_pairs(rest);
        let all = tabs_of_pairs(gs);
        if gs[0].len() >= 2 {
            let first = ids(gs[0]);
            assert(first.no_duplicates()) by {
                assert forall|i: int, j: int| 0 <= i < j < first.len() implies first[i]
                    != first[j] by {
                    assert(gs[0][i].id != gs[0][j].id);
                }
            }
            assert(all == seq![first] + tabs_of_pairs(rest));
            assert forall|c: int| 0 <= c < all.len() implies (#[trigger] all[c]).no_duplicates()
                && all[c].len() >= 2 by {
                if c > 0 {
                    assert(all[c] == tabs_of_pairs(rest)[c - 1]);
                }
            }
        }
    }
}

/// A temporal cluster holds at least two tabs, and no tab twice.
pub proof fn law_temporal_clusters_hold_no_tab_twice(active: Seq<Member>, window: int)
    requires
        distinct(active),
    ensures
        forall|c: int|
            0 <= c < temporal_clusters(active, window).len() ==> (#[trigger] temporal_clusters(
                active,
                window,
            )[c]).no_duplicates() && temporal_clusters(active, window)[c].len() >= 2,
{
    lemma_by_time_distinct(active);
    lemma_groups_distinct(by_time(active), window);
    lemma_tabs_of_pairs(groups(by_time(active), window));
}

/// An abandoned cluster holds at least two tabs, and no tab twice.
pub proof fn law_abandoned_clusters_hold_no_tab_twice(
    active: Seq<Member>,
    now: u64,
    config: RabbitHoleConfig,
)
    requires
        distinct(active),
    ensures
        forall|c: int|
            0 <= c < abandoned(active, now, config).len() ==> (#[trigger] abandoned(
                active,
                now,
                config,
            )[c]).no_duplicates() && abandoned(active, now, config)[c].len() >= 2,
{
    let found = abandoned(active, now, config);
    if active.len() >= config.min_cluster_size {
        let candidates = candidate_clusters(active, config);
        let openers = opener_clusters(active, 0, Set::empty());
        let window = config.cluster_window_minutes * 60;
        let temporal = temporal_clusters(active, window);
        let stale = stale_ids(active, now, config.no_focus_threshold_minutes * 60);
        lemma_selected(candidates, config.min_cluster_size as int, stale, Set::empty());
        law_opener_clusters_part_the_active_tabs(active);
        law_temporal_clusters_hold_no_tab_twice(active, window);
        assert forall|c: int| 0 <= c < found.len() implies (#[trigger] found[c]).no_duplicates()
            && found[c].len() >= 2 by {
            assert(candidates.contains(found[c]));
            let k = choose|k: int| 0 <= k < candidates.len() && candidates[k] == found[c];
            if k < openers.len() {
                assert(candidates[k] == openers[k]);
            } else {
                assert(candidates[k] == temporal[k - openers.len()]);
            }
        }
    }
}

}

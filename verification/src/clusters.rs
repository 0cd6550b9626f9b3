//! Clusters of tabs: by which tab opened which, and by when they were opened.

use std::collections::HashSet;
use vstd::prelude::*;
use crate::clock::{elapsed_nanos, has_lasted, lasted};
use crate::config::RabbitHoleConfig;

verus! {

/// What clustering reads of an active tab.
#[derive(Debug, Clone, Copy)]
pub struct Member {
    pub id: i64,
    pub opener: Option<i64>,
    /// When the tab was created, by the monotonic clock.
    pub created_at: u64,
    /// When the tab was last focused, or created if it never was.
    pub idle_since: u64,
}

/// No two members are the same tab.
pub open spec fn distinct(active: Seq<Member>) -> bool {
    forall|i: int, j: int|
        0 <= i < j < active.len() ==> (#[trigger] active[i]).id != (#[trigger] active[j]).id
}

/// The tabs of the members, in order.
pub open spec fn ids(members: Seq<Member>) -> Seq<i64> {
    members.map_values(|m: Member| m.id)
}

/// The clusters with their contents.
pub open spec fn nested(clusters: Seq<Vec<i64>>) -> Seq<Seq<i64>> {
    clusters.map_values(|c: Vec<i64>| c@)
}

/// The member was opened from `parent` and stands neither in an earlier cluster
/// nor in the current one.
pub open spec fn joins(m: Member, parent: i64, visited: Set<i64>, cluster: Seq<i64>) -> bool {
    &&& m.opener == Some(parent)
    &&& !visited.contains(m.id)
    &&& !cluster.contains(m.id)
}

/// The tabs opened from `parent` that join the cluster, in order.
pub open spec fn joining(
    active: Seq<Member>,
    parent: i64,
    visited: Set<i64>,
    cluster: Seq<i64>,
) -> Seq<i64>
    decreases active.len(),
{
    if active.len() == 0 {
        Seq::empty()
    } else {
        let front = joining(active.drop_last(), parent, visited, cluster);
        if joins(active.last(), parent, visited, cluster) {
            front.push(active.last().id)
        } else {
            front
        }
    }
}

/// How many members do not stand in the cluster.
pub open spec fn outside(active: Seq<Member>, cluster: Seq<i64>) -> nat
    decreases active.len(),
{
    if active.len() == 0 {
        0
    } else {
        outside(active.drop_last(), cluster) + if cluster.contains(active.last().id) {
            0nat
        } else {
            1nat
        }
    }
}

/// What joins a cluster are the members that were opened from `parent`.
pub proof fn lemma_joining_in(
    active: Seq<Member>,
    parent: i64,
    visited: Set<i64>,
    cluster: Seq<i64>,
    id: i64,
)
    ensures
        joining(active, parent, visited, cluster).contains(id) <==> exists|i: int|
            0 <= i < active.len() && (#[trigger] active[i]).id == id && joins(
                active[i],
                parent,
                visited,
                cluster,
            ),
    decreases active.len(),
{
    let all = joining(active, parent, visited, cluster);
    if active.len() > 0 {
        let front = joining(active.drop_last(), parent, visited, cluster);
        lemma_joining_in(active.drop_last(), parent, visited, cluster, id);
        if all.contains(id) {
            if front.contains(id) {
                let i = choose|i: int|
                    0 <= i < active.drop_last().len() && (#[trigger] active.drop_last()[i]).id == id
                        && joins(active.drop_last()[i], parent, visited, cluster);
                assert(active[i] == active.drop_last()[i]);
            } else {
                let k = choose|k: int| 0 <= k < all.len() && all[k] == id;
                assert(k == front.len());
                assert(active[active.len() - 1].id == id);
            }
        }
        if exists|i: int|
            0 <= i < active.len() && (#[trigger] active[i]).id == id && joins(
                active[i],
                parent,
                visited,
                cluster,
            ) {
            let i = choose|i: int|
                0 <= i < active.len() && (#[trigger] active[i]).id == id && joins(
                    active[i],
                    parent,
                    visited,
                    cluster,
                );
            if i < active.len() - 1 {
                assert(active.drop_last()[i] == active[i]);
                let k = choose|k: int| 0 <= k < front.len() && front[k] == id;
                assert(all[k] == id);
            } else {
                assert(all[all.len() - 1] == id);
            }
        }
    }
}

proof fn lemma_outside_grows_less(active: Seq<Member>, cluster: Seq<i64>, more: Seq<i64>)
    ensures
        outside(active, cluster + more) <= outside(active, cluster),
        (exists|i: int|
            0 <= i < active.len() && !cluster.contains((#[trigger] active[i]).id) && more.contains(
                active[i].id,
            )) ==> outside(active, cluster + more) < outside(active, cluster),
    decreases active.len(),
{
    if active.len() > 0 {
        let front = active.drop_last();
        lemma_outside_grows_less(front, cluster, more);
        let id = active.last().id;
        if cluster.contains(id) {
            let k = choose|k: int| 0 <= k < cluster.len() && cluster[k] == id;
            assert((cluster + more)[k] == id);
        }
        if exists|i: int|
            0 <= i < active.len() && !cluster.contains((#[trigger] active[i]).id) && more.contains(
                active[i].id,
            ) {
            let i = choose|i: int|
                0 <= i < active.len() && !cluster.contains((#[trigger] active[i]).id)
                    && more.contains(active[i].id);
            if i < active.len() - 1 {
                assert(front[i] == active[i]);
            } else {
                let k = choose|k: int| 0 <= k < more.len() && more[k] == id;
                assert((cluster + more)[cluster.len() + k] == id);
            }
        }
    }
}

proof fn lemma_joining_shrinks_outside(
    active: Seq<Member>,
    parent: i64,
    visited: Set<i64>,
    cluster: Seq<i64>,
)
    ensures
        ({
            let kids = joining(active, parent, visited, cluster);
            &&& outside(active, cluster + kids) <= outside(active, cluster)
            &&& kids.len() > 0 ==> outside(active, cluster + kids) < outside(active, cluster)
        }),
{
    let kids = joining(active, parent, visited, cluster);
    lemma_outside_grows_less(active, cluster, kids);
    if kids.len() > 0 {
        lemma_joining_in(active, parent, visited, cluster, kids[0]);
        assert(kids.contains(kids[0]));
    }
}

/// The cluster that grows from `cluster` while the tabs in `queue` are still to be
/// looked at, the last one first: what was opened from it joins the cluster and
/// the queue.
pub open spec fn grown(
    active: Seq<Member>,
    visited: Set<i64>,
    cluster: Seq<i64>,
    queue: Seq<i64>,
) -> Seq<i64>
    decreases outside(active, cluster), queue.len(),
    via grown_decreases
{
    if queue.len() == 0 {
        cluster
    } else {
        let kids = joining(active, queue.last(), visited, cluster);
        grown(active, visited, cluster + kids, queue.drop_last() + kids)
    }
}

#[via_fn]
proof fn grown_decreases(
    active: Seq<Member>,
    visited: Set<i64>,
    cluster: Seq<i64>,
    queue: Seq<i64>,
) {
    grown_is_measured(active, visited, cluster, queue);
}

/// Looking at one more tab of the queue brings a cluster nearer to its end.
pub proof fn grown_is_measured(
    active: Seq<Member>,
    visited: Set<i64>,
    cluster: Seq<i64>,
    queue: Seq<i64>,
)
    ensures
        queue.len() > 0 ==> ({
            let kids = joining(active, queue.last(), visited, cluster);
            let left = queue.drop_last() + kids;
            ||| outside(active, cluster + kids) < outside(active, cluster)
            ||| outside(active, cluster + kids) == outside(active, cluster) && left.len()
                < queue.len()
        }),
{
    if queue.len() > 0 {
        let kids = joining(active, queue.last(), visited, cluster);
        lemma_joining_shrinks_outside(active, queue.last(), visited, cluster);
        if kids.len() == 0 {
            assert(cluster + kids =~= cluster);
        }
    }
}

/// The cluster of the tabs opened from `root`, directly or not.
pub open spec fn opener_cluster(active: Seq<Member>, visited: Set<i64>, root: i64) -> Seq<i64> {
    grown(active, visited, seq![root], seq![root])
}

/// The opener clusters of at least two tabs whose roots are the members from `i`
/// on, where the tabs in `visited` already stand in a cluster.
pub open spec fn opener_clusters(active: Seq<Member>, i: int, visited: Set<i64>) -> Seq<Seq<i64>>
    decreases active.len() - i,
{
    if i < 0 || i >= active.len() {
        Seq::empty()
    } else if visited.contains(active[i].id) {
        opener_clusters(active, i + 1, visited)
    } else {
        let cluster = opener_cluster(active, visited, active[i].id);
        let rest = opener_clusters(active, i + 1, visited.union(cluster.to_set()));
        if cluster.len() >= 2 {
            seq![cluster] + rest
        } else {
            rest
        }
    }
}

/// Whether a tab stands in a list.
fn holds(list: &Vec<i64>, id: i64) -> (r: bool)
    ensures
        r == list@.contains(id),
{
    let mut i: usize = 0;
    while i < list.len()
        invariant
            i <= list@.len(),
            forall|j: int| 0 <= j < i ==> list@[j] != id,
        decreases list@.len() - i,
    {
        if list[i] == id {
            assert(list@[i as int] == id);
            return true;
        }
        i += 1;
    }
    false
}

/// The cluster of the tabs opened from `root`, directly or not.
fn build_opener_cluster(active: &Vec<Member>, visited: &HashSet<i64>, root: i64) -> (r: Vec<i64>)
    requires
        distinct(active@),
    ensures
        r@ == opener_cluster(active@, visited@, root),
{
    let mut cluster: Vec<i64> = vec![root];
    let mut queue: Vec<i64> = vec![root];
    assert(cluster@ =~= seq![root]);
    assert(queue@ =~= seq![root]);
    while queue.len() > 0
        invariant
            distinct(active@),
            grown(active@, visited@, cluster@, queue@) == opener_cluster(active@, visited@, root),
        decreases outside(active@, cluster@), queue@.len(),
    {
        let ghost cluster0 = cluster@;
        let ghost queue0 = queue@;
        let parent = queue.pop().unwrap();
        let ghost rest = queue@;
        assert(rest == queue0.drop_last());
        let mut j: usize = 0;
        assert(active@.take(0) =~= Seq::empty());
        while j < active.len()
            invariant
                distinct(active@),
                j <= active@.len(),
                ({
                    let kids = joining(active@.take(j as int), parent, visited@, cluster0);
                    &&& cluster@ == cluster0 + kids
                    &&& queue@ == rest + kids
                }),
            decreases active@.len() - j,
        {
            let ghost seen = active@.take(j as int);
            let ghost kids = joining(seen, parent, visited@, cluster0);
            let m = active[j];
            proof {
                assert(active@.take(j + 1).drop_last() =~= seen);
                assert(active@.take(j + 1).last() == m);
                // Members looked at earlier are other tabs.
                lemma_joining_in(seen, parent, visited@, cluster0, m.id);
                assert(!kids.contains(m.id)) by {
                    if kids.contains(m.id) {
                        let i = choose|i: int|
                            0 <= i < seen.len() && (#[trigger] seen[i]).id == m.id && joins(
                                seen[i],
                                parent,
                                visited@,
                                cluster0,
                            );
                        assert(active@[i].id != active@[j as int].id);
                    }
                }
                assert(cluster@.contains(m.id) <==> cluster0.contains(m.id)) by {
                    if cluster0.contains(m.id) {
                        let k = choose|k: int| 0 <= k < cluster0.len() && cluster0[k] == m.id;
                        assert(cluster@[k] == m.id);
                    }
                    if cluster@.contains(m.id) {
                        let k = choose|k: int| 0 <= k < cluster@.len() && cluster@[k] == m.id;
                        if k >= cluster0.len() {
                            assert(kids[k - cluster0.len()] == m.id);
                        }
                    }
                }
            }
            let opened_here = match m.opener {
                Some(opener) => opener == parent,
                None => false,
            };
            if opened_here && !visited.contains(&m.id) && !holds(&cluster, m.id) {
                cluster.push(m.id);
                queue.push(m.id);
                assert(cluster@ =~= cluster0 + kids.push(m.id));
                assert(queue@ =~= rest + kids.push(m.id));
            }
            j += 1;
        }
        proof {
            assert(active@.take(j as int) =~= active@);
            let kids = joining(active@, parent, visited@, cluster0);
            lemma_joining_shrinks_outside(active@, parent, visited@, cluster0);
            if kids.len() == 0 {
                assert(cluster0 + kids =~= cluster0);
            }
        }
    }
    cluster
}

/// The opener clusters of at least two tabs, each rooted at the first of its
/// members that no earlier cluster holds.
pub fn build_opener_clusters(active: &Vec<Member>) -> (r: Vec<Vec<i64>>)
    requires
        distinct(active@),
    ensures
        nested(r@) == opener_clusters(active@, 0, Set::empty()),
{
    let mut visited: HashSet<i64> = HashSet::new();
    let mut clusters: Vec<Vec<i64>> = Vec::new();
    let mut i: usize = 0;
    assert(nested(clusters@) + opener_clusters(active@, 0, visited@) =~= opener_clusters(
        active@,
        0,
        Set::empty(),
    ));
    while i < active.len()
        invariant
            distinct(active@),
            i <= active@.len(),
            nested(clusters@) + opener_clusters(active@, i as int, visited@) == opener_clusters(
                active@,
                0,
                Set::empty(),
            ),
        decreases active@.len() - i,
    {
        let root = active[i].id;
        if !visited.contains(&root) {
            let ghost visited0 = visited@;
            let cluster = build_opener_cluster(active, &visited, root);
            let mut k: usize = 0;
            assert(cluster@.take(0).to_set() =~= Set::empty());
            assert(visited@ =~= visited0.union(cluster@.take(0).to_set()));
            while k < cluster.len()
                invariant
                    k <= cluster@.len(),
                    visited@ == visited0.union(cluster@.take(k as int).to_set()),
                decreases cluster@.len() - k,
            {
                proof {
                    lemma_take_to_set(cluster@, k as int);
                }
                visited.insert(cluster[k]);
                assert(visited@ =~= visited0.union(cluster@.take(k + 1).to_set()));
                k += 1;
            }
            assert(cluster@.take(k as int) =~= cluster@);
            let ghost rest = opener_clusters(active@, i + 1, visited@);
            if cluster.len() >= 2 {
                let ghost done = nested(clusters@);
                let ghost found = cluster@;
                clusters.push(cluster);
                assert(nested(clusters@) =~= done.push(found));
                assert(nested(clusters@) + rest =~= done + (seq![found] + rest));
            }
        }
        i += 1;
    }
    assert(nested(clusters@) + opener_clusters(active@, i as int, visited@) =~= nested(clusters@));
    clusters
}

proof fn lemma_take_to_set(s: Seq<i64>, k: int)
    requires
        0 <= k < s.len(),
    ensures
        s.take(k + 1).to_set() == s.take(k).to_set().insert(s[k]),
{
    let longer = s.take(k + 1);
    let shorter = s.take(k);
    let a = longer.to_set();
    let b = shorter.to_set().insert(s[k]);
    assert forall|x: i64| a.contains(x) <==> b.contains(x) by {
        if a.contains(x) {
            let i = choose|i: int| 0 <= i < k + 1 && longer[i] == x;
            if i < k {
                assert(shorter[i] == x);
            }
        }
        if b.contains(x) {
            if x == s[k] {
                assert(longer[k] == x);
            } else {
                let i = choose|i: int| 0 <= i < k && shorter[i] == x;
                assert(longer[i] == x);
            }
        }
    }
    assert(a =~= b);
}

/// The members with `m` put in behind the last one that is not newer.
pub open spec fn inserted_by_time(sorted: Seq<Member>, m: Member) -> Seq<Member>
    decreases sorted.len(),
{
    if sorted.len() == 0 || sorted.last().created_at <= m.created_at {
        sorted.push(m)
    } else {
        inserted_by_time(sorted.drop_last(), m).push(sorted.last())
    }
}

/// The members from the oldest to the newest; those of the same age keep their
/// order.
pub open spec fn by_time(active: Seq<Member>) -> Seq<Member>
    decreases active.len(),
{
    if active.len() == 0 {
        Seq::empty()
    } else {
        inserted_by_time(by_time(active.drop_last()), active.last())
    }
}

/// The member was created at most `window` seconds after `first`.
pub open spec fn in_window(m: Member, first: u64, window: int) -> bool {
    elapsed_nanos(first, m.created_at) <= window * 1_000_000_000
}

/// How many members at the start were created at most `window` seconds after
/// `first`.
pub open spec fn leading(sorted: Seq<Member>, first: u64, window: int) -> nat
    decreases sorted.len(),
{
    if sorted.len() == 0 || !in_window(sorted[0], first, window) {
        0
    } else {
        1 + leading(sorted.skip(1), first, window)
    }
}

/// The leading members lie in the window, and the one after them does not.
pub proof fn lemma_leading(sorted: Seq<Member>, first: u64, window: int)
    ensures
        leading(sorted, first, window) <= sorted.len(),
        forall|i: int|
            0 <= i < leading(sorted, first, window) ==> in_window(
                #[trigger] sorted[i],
                first,
                window,
            ),
        leading(sorted, first, window) < sorted.len() ==> !in_window(
            sorted[leading(sorted, first, window) as int],
            first,
            window,
        ),
    decreases sorted.len(),
{
    if sorted.len() > 0 && in_window(sorted[0], first, window) {
        let rest = sorted.skip(1);
        lemma_leading(rest, first, window);
        assert forall|i: int| 0 <= i < leading(sorted, first, window) implies in_window(
            #[trigger] sorted[i],
            first,
            window,
        ) by {
            if i > 0 {
                assert(rest[i - 1] == sorted[i]);
            }
        }
    }
}

/// The members cut into groups: each group holds the members created at most
/// `window` seconds after its first one.
pub open spec fn groups(sorted: Seq<Member>, window: int) -> Seq<Seq<Member>>
    decreases sorted.len(),
    via groups_decreases
{
    if sorted.len() == 0 {
        Seq::empty()
    } else {
        let n = 1 + leading(sorted.skip(1), sorted[0].created_at, window);
        seq![sorted.take(n as int)] + groups(sorted.skip(n as int), window)
    }
}

#[via_fn]
proof fn groups_decreases(sorted: Seq<Member>, window: int) {
    if sorted.len() > 0 {
        lemma_leading(sorted.skip(1), sorted[0].created_at, window);
    }
}

/// The tabs of each group of at least two.
pub open spec fn tabs_of_pairs(gs: Seq<Seq<Member>>) -> Seq<Seq<i64>>
    decreases gs.len(),
{
    if gs.len() == 0 {
        Seq::empty()
    } else if gs[0].len() >= 2 {
        seq![ids(gs[0])] + tabs_of_pairs(gs.skip(1))
    } else {
        tabs_of_pairs(gs.skip(1))
    }
}

/// The clusters of at least two tabs that were created within `window` seconds of
/// the first of them.
pub open spec fn temporal_clusters(active: Seq<Member>, window: int) -> Seq<Seq<i64>> {
    tabs_of_pairs(groups(by_time(active), window))
}

/// The members from the oldest to the newest.
fn sort_by_time(active: &Vec<Member>) -> (r: Vec<Member>)
    ensures
        r@ == by_time(active@),
{
    let mut sorted: Vec<Member> = Vec::new();
    let mut i: usize = 0;
    assert(active@.take(0) =~= Seq::empty());
    while i < active.len()
        invariant
            i <= active@.len(),
            sorted@ == by_time(active@.take(i as int)),
        decreases active@.len() - i,
    {
        let m = active[i];
        let ghost before = sorted@;
        let mut k: usize = sorted.len();
        assert(before.take(before.len() as int) =~= before);
        assert(inserted_by_time(before.take(k as int), m) + before.skip(k as int)
            =~= inserted_by_time(before, m));
        while k > 0 && sorted[k - 1].created_at > m.created_at
            invariant
                sorted@ == before,
                k <= before.len(),
                inserted_by_time(before.take(k as int), m) + before.skip(k as int)
                    == inserted_by_time(before, m),
            ensures
                k <= before.len(),
                before.take(k as int).push(m) + before.skip(k as int) == inserted_by_time(
                    before,
                    m,
                ),
            decreases k,
        {
            proof {
                let front = before.take(k as int);
                assert(front.drop_last() =~= before.take(k - 1));
                assert(inserted_by_time(before.take(k - 1), m).push(before[k - 1]) + before.skip(
                    k as int,
                ) =~= inserted_by_time(before.take(k - 1), m) + before.skip(k - 1));
            }
            k -= 1;
        }
        sorted.insert(k, m);
        proof {
            assert(sorted@ =~= before.take(k as int).push(m) + before.skip(k as int));
            assert(active@.take(i + 1).drop_last() =~= active@.take(i as int));
        }
        i += 1;
    }
    assert(active@.take(i as int) =~= active@);
    sorted
}

/// The tabs of a group.
fn ids_of(group: &Vec<Member>) -> (r: Vec<i64>)
    ensures
        r@ == ids(group@),
{
    let mut r: Vec<i64> = Vec::new();
    let mut i: usize = 0;
    while i < group.len()
        invariant
            i <= group@.len(),
            r@ == ids(group@.take(i as int)),
        decreases group@.len() - i,
    {
        r.push(group[i].id);
        assert(r@ =~= ids(group@.take(i + 1)));
        i += 1;
    }
    assert(group@.take(i as int) =~= group@);
    r
}

proof fn lemma_tabs_of_pairs_cons(g: Seq<Member>, gs: Seq<Seq<Member>>)
    ensures
        tabs_of_pairs(seq![g] + gs) == if g.len() >= 2 {
            seq![ids(g)] + tabs_of_pairs(gs)
        } else {
            tabs_of_pairs(gs)
        },
{
    assert((seq![g] + gs).skip(1) =~= gs);
}

/// The clusters of at least two tabs that were created within `window` seconds of
/// the first of them.
pub fn build_temporal_clusters(active: &Vec<Member>, window: u64) -> (r: Vec<Vec<i64>>)
    ensures
        nested(r@) == temporal_clusters(active@, window as int),
{
    let sorted = sort_by_time(active);
    let limit: u128 = window as u128 * 1_000_000_000;
    let mut clusters: Vec<Vec<i64>> = Vec::new();
    let mut i: usize = 0;
    assert(sorted@.skip(0) =~= sorted@);
    assert(nested(clusters@) + tabs_of_pairs(groups(sorted@, window as int)) =~= tabs_of_pairs(
        groups(sorted@, window as int),
    ));
    while i < sorted.len()
        invariant
            sorted@ == by_time(active@),
            limit == window * 1_000_000_000,
            i <= sorted@.len(),
            nested(clusters@) + tabs_of_pairs(groups(sorted@.skip(i as int), window as int))
                == temporal_clusters(active@, window as int),
        decreases sorted@.len() - i,
    {
        let ghost rest = sorted@.skip(i as int);
        let first = sorted[i].created_at;
        let mut current: Vec<Member> = vec![sorted[i]];
        let mut k: usize = i + 1;
        assert(rest.skip(1) =~= sorted@.skip(k as int));
        assert(current@ =~= sorted@.subrange(i as int, k as int));
        let ghost n = leading(rest.skip(1), first, window as int);
        while k < sorted.len() && (sorted[k].created_at.saturating_sub(first) as u128) <= limit
            invariant
                i < k <= sorted@.len(),
                limit == window * 1_000_000_000,
                current@ == sorted@.subrange(i as int, k as int),
                n == (k - i - 1) + leading(sorted@.skip(k as int), first, window as int),
            ensures
                i < k <= sorted@.len(),
                current@ == sorted@.subrange(i as int, k as int),
                n == k - i - 1,
            decreases sorted@.len() - k,
        {
            assert(sorted@.skip(k as int).skip(1) =~= sorted@.skip(k + 1));
            current.push(sorted[k]);
            assert(current@ =~= sorted@.subrange(i as int, k + 1));
            k += 1;
        }
        proof {
            assert(rest.take((n + 1) as int) =~= current@);
            assert(rest.skip((n + 1) as int) =~= sorted@.skip(k as int));
            lemma_tabs_of_pairs_cons(current@, groups(sorted@.skip(k as int), window as int));
        }
        let ghost done = nested(clusters@);
        let ghost later = tabs_of_pairs(groups(sorted@.skip(k as int), window as int));
        if current.len() >= 2 {
            clusters.push(ids_of(&current));
            assert(nested(clusters@) =~= done.push(ids(current@)));
            assert(nested(clusters@) + later =~= done + (seq![ids(current@)] + later));
        }
        i = k;
    }
    assert(nested(clusters@) + tabs_of_pairs(groups(sorted@.skip(i as int), window as int))
        =~= nested(clusters@));
    clusters
}

/// The member has gone without focus for at least `threshold` seconds.
pub open spec fn is_stale(m: Member, now: u64, threshold: int) -> bool {
    has_lasted(m.idle_since, now, threshold)
}

/// The tabs that have gone without focus for at least `threshold` seconds.
pub open spec fn stale_ids(active: Seq<Member>, now: u64, threshold: int) -> Set<i64> {
    Set::new(
        |id: i64|
            exists|i: int|
                0 <= i < active.len() && (#[trigger] active[i]).id == id && is_stale(
                    active[i],
                    now,
                    threshold,
                ),
    )
}

/// The cluster is large enough, all of it is stale, and no tab of it was seen.
pub open spec fn eligible(
    cluster: Seq<i64>,
    min_size: int,
    stale: Set<i64>,
    seen: Set<i64>,
) -> bool {
    &&& cluster.len() >= min_size
    &&& forall|k: int| 0 <= k < cluster.len() ==> stale.contains(#[trigger] cluster[k])
    &&& forall|k: int| 0 <= k < cluster.len() ==> !seen.contains(#[trigger] cluster[k])
}

/// The eligible candidates, taken in order; a taken one makes its tabs seen.
pub open spec fn selected(
    candidates: Seq<Seq<i64>>,
    min_size: int,
    stale: Set<i64>,
    seen: Set<i64>,
) -> Seq<Seq<i64>>
    decreases candidates.len(),
{
    if candidates.len() == 0 {
        Seq::empty()
    } else if eligible(candidates[0], min_size, stale, seen) {
        seq![candidates[0]] + selected(
            candidates.skip(1),
            min_size,
            stale,
            seen.union(candidates[0].to_set()),
        )
    } else {
        selected(candidates.skip(1), min_size, stale, seen)
    }
}

/// The clusters that may count as abandoned: those by opener, then those by time.
pub open spec fn candidate_clusters(active: Seq<Member>, config: RabbitHoleConfig) -> Seq<
    Seq<i64>,
> {
    opener_clusters(active, 0, Set::empty()) + temporal_clusters(
        active,
        config.cluster_window_minutes * 60,
    )
}

/// The clusters of active tabs that count as abandoned at `now`.
pub open spec fn abandoned(active: Seq<Member>, now: u64, config: RabbitHoleConfig) -> Seq<
    Seq<i64>,
> {
    if active.len() < config.min_cluster_size {
        Seq::empty()
    } else {
        selected(
            candidate_clusters(active, config),
            config.min_cluster_size as int,
            stale_ids(active, now, config.no_focus_threshold_minutes * 60),
            Set::empty(),
        )
    }
}

/// Whether every tab of the cluster is in `set`.
fn all_in(cluster: &Vec<i64>, set: &HashSet<i64>) -> (r: bool)
    ensures
        r == forall|k: int| 0 <= k < cluster@.len() ==> set@.contains(#[trigger] cluster@[k]),
{
    let mut k: usize = 0;
    while k < cluster.len()
        invariant
            k <= cluster@.len(),
            forall|j: int| 0 <= j < k ==> set@.contains(#[trigger] cluster@[j]),
        decreases cluster@.len() - k,
    {
        if !set.contains(&cluster[k]) {
            return false;
        }
        k += 1;
    }
    true
}

/// Whether no tab of the cluster is in `set`.
fn none_in(cluster: &Vec<i64>, set: &HashSet<i64>) -> (r: bool)
    ensures
        r == forall|k: int| 0 <= k < cluster@.len() ==> !set@.contains(#[trigger] cluster@[k]),
{
    let mut k: usize = 0;
    while k < cluster.len()
        invariant
            k <= cluster@.len(),
            forall|j: int| 0 <= j < k ==> !set@.contains(#[trigger] cluster@[j]),
        decreases cluster@.len() - k,
    {
        if set.contains(&cluster[k]) {
            return false;
        }
        k += 1;
    }
    true
}

/// The tabs that have gone without focus for at least `threshold` seconds.
fn find_stale(active: &Vec<Member>, now: u64, threshold: u64) -> (r: HashSet<i64>)
    ensures
        r@ == stale_ids(active@, now, threshold as int),
{
    let mut stale: HashSet<i64> = HashSet::new();
    let mut i: usize = 0;
    assert(stale@ =~= stale_ids(active@.take(0), now, threshold as int));
    while i < active.len()
        invariant
            i <= active@.len(),
            stale@ == stale_ids(active@.take(i as int), now, threshold as int),
        decreases active@.len() - i,
    {
        let m = active[i];
        let ghost before = stale@;
        if lasted(m.idle_since, now, threshold) {
            stale.insert(m.id);
        }
        proof {
            let shorter = active@.take(i as int);
            let longer = active@.take(i + 1);
            let all = stale_ids(longer, now, threshold as int);
            assert forall|id: i64| stale@.contains(id) <==> all.contains(id) by {
                if before.contains(id) {
                    let k = choose|k: int|
                        0 <= k < shorter.len() && (#[trigger] shorter[k]).id == id && is_stale(
                            shorter[k],
                            now,
                            threshold as int,
                        );
                    assert(longer[k].id == id);
                }
                assert(longer[i as int] == m);
                if all.contains(id) {
                    let k = choose|k: int|
                        0 <= k < longer.len() && (#[trigger] longer[k]).id == id && is_stale(
                            longer[k],
                            now,
                            threshold as int,
                        );
                    if k < i {
                        assert(shorter[k].id == id);
                    }
                }
            }
            assert(stale@ =~= all);
        }
        i += 1;
    }
    assert(active@.take(i as int) =~= active@);
    stale
}

/// The clusters of active tabs that count as abandoned at `now`.
pub fn find_abandoned(active: &Vec<Member>, now: u64, config: &RabbitHoleConfig) -> (r: Vec<
    Vec<i64>,
>)
    requires
        distinct(active@),
        config.spans_fit(),
    ensures
        nested(r@) == abandoned(active@, now, *config),
{
    let mut found: Vec<Vec<i64>> = Vec::new();
    if active.len() < config.min_cluster_size {
        assert(nested(found@) =~= Seq::empty());
        return found;
    }
    let threshold: u64 = config.no_focus_threshold_minutes * 60;
    let window: u64 = config.cluster_window_minutes * 60;
    let min_size = config.min_cluster_size;
    let mut candidates = build_opener_clusters(active);
    let mut later = build_temporal_clusters(active, window);
    let ghost all = nested(candidates@) + nested(later@);
    candidates.append(&mut later);
    assert(nested(candidates@) =~= all);
    let stale = find_stale(active, now, threshold);
    let mut seen: HashSet<i64> = HashSet::new();
    let mut i: usize = 0;
    let ghost goal = selected(all, min_size as int, stale@, Set::empty());
    assert(all.skip(0) =~= all);
    assert(nested(found@) + selected(all.skip(0), min_size as int, stale@, seen@) =~= goal);
    while i < candidates.len()
        invariant
            i <= candidates@.len(),
            nested(candidates@) == all,
            nested(found@) + selected(all.skip(i as int), min_size as int, stale@, seen@) == goal,
        decreases candidates@.len() - i,
    {
        let cluster = &candidates[i];
        let ghost rest = all.skip(i as int);
        assert(rest[0] == cluster@);
        assert(rest.skip(1) =~= all.skip(i + 1));
        if cluster.len() >= min_size && all_in(cluster, &stale) && none_in(cluster, &seen) {
            let ghost done = nested(found@);
            let ghost seen0 = seen@;
            let mut copy: Vec<i64> = Vec::new();
            let mut k: usize = 0;
            assert(cluster@.take(0).to_set() =~= Set::empty());
            assert(seen@ =~= seen0.union(cluster@.take(0).to_set()));
            while k < cluster.len()
                invariant
                    k <= cluster@.len(),
                    copy@ == cluster@.take(k as int),
                    seen@ == seen0.union(cluster@.take(k as int).to_set()),
                decreases cluster@.len() - k,
            {
                proof {
                    lemma_take_to_set(cluster@, k as int);
                }
                seen.insert(cluster[k]);
                copy.push(cluster[k]);
                assert(seen@ =~= seen0.union(cluster@.take(k + 1).to_set()));
                assert(copy@ =~= cluster@.take(k + 1));
                k += 1;
            }
            assert(cluster@.take(k as int) =~= cluster@);
            found.push(copy);
            assert(nested(found@) =~= done.push(cluster@));
            proof {
                let more = selected(all.skip(i + 1), min_size as int, stale@, seen@);
                assert(nested(found@) + more =~= done + (seq![cluster@] + more));
            }
        }
        i += 1;
    }
    assert(nested(found@) + selected(all.skip(i as int), min_size as int, stale@, seen@)
        =~= nested(found@));
    found
}

}

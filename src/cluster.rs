//! Many nodes gossiping: a cluster maps node ids to node states, and an
//! exchange along a link is one tick of the sender whose message to the
//! receiver arrives and is acknowledged (its other messages may be lost).
//! Values then follow every path of exchanges.

use vstd::prelude::*;

use crate::gossip_model::{
    acknowledge, batched, merge_batch, merge_news, news_for, pending, receipt_of, seal, seen, sent,
    step, GossipState, Input,
};
use crate::laws::{
    lemma_batch_delivered, lemma_merge_news_grows, lemma_merge_news_records, lemma_pending_is_sent,
    lemma_sends_are_pending, lemma_unacknowledged_excludes, lemma_unacknowledged_includes,
};

verus! {

/// The states of the nodes of a cluster, by node id.
pub type Cluster = Map<Seq<char>, GossipState>;

/// What `u` holds about `w` agrees with what `w` has seen: each batch of `u`
/// that `w` acknowledged, and each batch of `u` that `w` has merged, exists
/// and is seen by `w`.
pub open spec fn edge_consistent(su: GossipState, sw: GossipState, u: Seq<char>, w: Seq<char>) -> bool {
    &&& su.peers.contains_key(w) ==> forall|b: usize| #[trigger] su.peers[w].acknowledged.contains(b)
        ==> b < su.batches.len() && su.batches[b as int].subset_of(seen(sw))
    &&& sw.peers.contains_key(u) ==> forall|b: usize| #[trigger] sw.peers[u].received.contains(b)
        ==> b < su.batches.len() && su.batches[b as int].subset_of(seen(sw))
}

/// Every ordered pair of distinct nodes is consistent.
pub open spec fn consistent(c: Cluster) -> bool {
    forall|u: Seq<char>, w: Seq<char>|
        c.contains_key(u) && c.contains_key(w) && u != w ==> #[trigger] edge_consistent(c[u], c[w], u, w)
}

/// `u` gossips with `w`, and each has a record of the other.
pub open spec fn linked(c: Cluster, u: Seq<char>, w: Seq<char>) -> bool {
    &&& u != w
    &&& c.contains_key(u)
    &&& c.contains_key(w)
    &&& c[u].neighbors.contains(w)
    &&& c[u].peers.contains_key(w)
    &&& c[w].peers.contains_key(u)
}

/// An exchange from `u` to `w`: `u` ticks; if that tick sends `w` gossip,
/// `w` merges it and `u` takes `w`'s receipt.
pub open spec fn exchange(c: Cluster, u: Seq<char>, w: Seq<char>) -> Cluster {
    let t = seal(c[u]);
    let ids = pending(t, w);
    if ids.len() == 0 {
        c.insert(u, t)
    } else {
        let news = news_for(t, ids);
        c.insert(u, acknowledge(t, w, receipt_of(news))).insert(w, merge_news(c[w], u, news))
    }
}

/// The cluster after a sequence of exchanges, each given as (sender, receiver).
pub open spec fn run_exchanges(c: Cluster, sched: Seq<(Seq<char>, Seq<char>)>) -> Cluster
    decreases sched.len(),
{
    if sched.len() == 0 {
        c
    } else {
        let last = sched.last();
        exchange(run_exchanges(c, sched.drop_last()), last.0, last.1)
    }
}

/// `s2` keeps what `s` had: the same neighbors and records, the batches of
/// `s` as a prefix, and every value `s` has seen.
pub open spec fn keeps(s: GossipState, s2: GossipState) -> bool {
    &&& s2.neighbors == s.neighbors
    &&& s2.peers.dom() == s.peers.dom()
    &&& s.batches.len() <= s2.batches.len()
    &&& forall|i: int| 0 <= i < s.batches.len() ==> #[trigger] s2.batches[i] == s.batches[i]
    &&& seen(s).subset_of(seen(s2))
}

/// Sealing moves the uncommitted values into a batch: nothing seen is lost.
pub(crate) proof fn lemma_seal_keeps(s: GossipState)
    ensures
        keeps(s, seal(s)),
        seen(seal(s)) == seen(s),
        seal(s).peers == s.peers,
{
    let t = seal(s);
    if s.uncommitted != Set::<usize>::empty() {
        assert forall|v: usize| seen(t).contains(v) == seen(s).contains(v) by {
            if batched(t.batches).contains(v) {
                let i = choose|i: int| 0 <= i < t.batches.len() && #[trigger] t.batches[i].contains(v);
                if i < s.batches.len() {
                    assert(s.batches[i].contains(v));
                }
            }
            if batched(s.batches).contains(v) {
                let i = choose|i: int| 0 <= i < s.batches.len() && #[trigger] s.batches[i].contains(v);
                assert(t.batches[i].contains(v));
            }
            if s.uncommitted.contains(v) {
                assert(t.batches[s.batches.len() as int].contains(v));
            }
        }
        assert(seen(t) =~= seen(s));
    }
}

/// Merging batches of `t`, when every batch already merged from `u` is seen,
/// leaves every batch merged from `u` seen.
proof fn lemma_merge_consistent(sw: GossipState, u: Seq<char>, t: GossipState, ids: Seq<usize>)
    requires
        sw.peers.contains_key(u),
        forall|b: usize| #[trigger] sw.peers[u].received.contains(b)
            ==> b < t.batches.len() && t.batches[b as int].subset_of(seen(sw)),
        forall|j: int| 0 <= j < ids.len() ==> #[trigger] ids[j] < t.batches.len(),
    ensures
        forall|b: usize| #[trigger] merge_news(sw, u, news_for(t, ids)).peers[u].received.contains(b)
            ==> b < t.batches.len() && t.batches[b as int].subset_of(seen(merge_news(sw, u, news_for(t, ids)))),
    decreases ids.len(),
{
    if ids.len() > 0 {
        let pre = ids.drop_last();
        assert(news_for(t, ids).drop_last() =~= news_for(t, pre));
        assert forall|j: int| 0 <= j < pre.len() implies #[trigger] pre[j] < t.batches.len() by {
            assert(pre[j] == ids[j]);
        }
        lemma_merge_consistent(sw, u, t, pre);
        lemma_merge_news_records(sw, u, news_for(t, pre));
        let r0 = merge_news(sw, u, news_for(t, pre));
        let id = ids[ids.len() - 1];
        assert(news_for(t, ids).last() == (id, t.batches[id as int]));
        let r1 = merge_batch(r0, u, id, t.batches[id as int]);
        assert(merge_news(sw, u, news_for(t, ids)) == r1);
        assert(seen(r0).subset_of(seen(r1)));
        if !r0.peers[u].received.contains(id) {
            assert(t.batches[id as int].subset_of(seen(r1)));
        }
    }
}

/// An edge stays consistent when the sender's batches only grow, the
/// receiver only sees more, and the two records only shrink.
proof fn lemma_edge_kept(sx: GossipState, sy: GossipState, sx2: GossipState, sy2: GossipState, x: Seq<char>, y: Seq<char>)
    requires
        edge_consistent(sx, sy, x, y),
        keeps(sx, sx2),
        keeps(sy, sy2),
        sx2.peers.contains_key(y) ==> sx2.peers[y].acknowledged.subset_of(sx.peers[y].acknowledged),
        sy2.peers.contains_key(x) ==> sy2.peers[x].received.subset_of(sy.peers[x].received),
    ensures
        edge_consistent(sx2, sy2, x, y),
{
    if sx2.peers.contains_key(y) {
        assert forall|b: usize| #[trigger] sx2.peers[y].acknowledged.contains(b)
            implies b < sx2.batches.len() && sx2.batches[b as int].subset_of(seen(sy2)) by {
            assert(sx.peers[y].acknowledged.contains(b));
            assert(sx2.batches[b as int] == sx.batches[b as int]);
        }
    }
    if sy2.peers.contains_key(x) {
        assert forall|b: usize| #[trigger] sy2.peers[x].received.contains(b)
            implies b < sx2.batches.len() && sx2.batches[b as int].subset_of(seen(sy2)) by {
            assert(sy.peers[x].received.contains(b));
            assert(sx2.batches[b as int] == sx.batches[b as int]);
        }
    }
}

/// What an exchange from `u` to `w` does: every node keeps what it had, at
/// most one batch is added, only `u` and `w` change, and of their records
/// only `u`'s acknowledgments from `w` and `w`'s merges from `u`.
proof fn lemma_exchange_effects(c: Cluster, u: Seq<char>, w: Seq<char>)
    requires
        linked(c, u, w),
    ensures
        exchange(c, u, w).dom() == c.dom(),
        forall|x: Seq<char>| #[trigger] c.contains_key(x) ==> {
            &&& keeps(c[x], exchange(c, u, w)[x])
            &&& exchange(c, u, w)[x].batches.len() <= c[x].batches.len() + 1
        },
        forall|x: Seq<char>| #[trigger] c.contains_key(x) && x != u && x != w ==> exchange(c, u, w)[x] == c[x],
        forall|k: Seq<char>| #[trigger] c[u].peers.contains_key(k) && k != w ==> exchange(c, u, w)[u].peers[k] == c[u].peers[k],
        exchange(c, u, w)[u].peers[w].received == c[u].peers[w].received,
        seen(exchange(c, u, w)[u]) == seen(c[u]),
        forall|k: Seq<char>| #[trigger] c[w].peers.contains_key(k) && k != u ==> exchange(c, u, w)[w].peers[k] == c[w].peers[k],
        exchange(c, u, w)[w].peers[u].acknowledged == c[w].peers[u].acknowledged,
        pending(seal(c[u]), w).len() == 0 ==> exchange(c, u, w)[w] == c[w] && exchange(c, u, w)[u].peers == c[u].peers,
{
    let c2 = exchange(c, u, w);
    let t = seal(c[u]);
    let ids = pending(t, w);
    lemma_seal_keeps(c[u]);
    if ids.len() == 0 {
        assert(c2.dom() =~= c.dom());
    } else {
        let news = news_for(t, ids);
        lemma_merge_news_records(c[w], u, news);
        lemma_merge_news_grows(c[w], u, news);
        let a = acknowledge(t, w, receipt_of(news));
        assert(a.peers.dom() =~= t.peers.dom());
        assert(seen(a) == seen(t));
        assert(keeps(c[u], a));
        assert(keeps(c[w], merge_news(c[w], u, news)));
        assert(c2.dom() =~= c.dom());
    }
}

/// An exchange along a link keeps the cluster consistent.
proof fn lemma_exchange_consistent(c: Cluster, u: Seq<char>, w: Seq<char>)
    requires
        linked(c, u, w),
        consistent(c),
    ensures
        consistent(exchange(c, u, w)),
{
    let c2 = exchange(c, u, w);
    let t = seal(c[u]);
    let ids = pending(t, w);
    lemma_exchange_effects(c, u, w);
    lemma_seal_keeps(c[u]);
    assert(edge_consistent(c[u], c[w], u, w));
    if ids.len() > 0 {
        let news = news_for(t, ids);
        assert(receipt_of(news) =~= ids);
        assert forall|j: int| 0 <= j < ids.len() implies #[trigger] ids[j] < t.batches.len() by {
            assert(ids.contains(ids[j]));
            lemma_unacknowledged_excludes(t.peers[w].acknowledged, t.batches.len(), ids[j]);
        }
        assert forall|b: usize| #[trigger] c[w].peers[u].received.contains(b)
            implies b < t.batches.len() && t.batches[b as int].subset_of(seen(c[w])) by {
            assert(t.batches[b as int] == c[u].batches[b as int]);
        }
        lemma_merge_consistent(c[w], u, t, ids);
        lemma_merge_news_records(c[w], u, news);
        lemma_merge_news_grows(c[w], u, news);
        let sw2 = merge_news(c[w], u, news);
        assert(c2[w] == sw2);
        assert forall|b: usize| #[trigger] c2[u].peers[w].acknowledged.contains(b)
            implies b < c2[u].batches.len() && c2[u].batches[b as int].subset_of(seen(c2[w])) by {
            if c[u].peers[w].acknowledged.contains(b) {
                assert(t.batches[b as int] == c[u].batches[b as int]);
            } else {
                assert(ids.to_set().contains(b));
                let j = choose|j: int| 0 <= j < ids.len() && ids[j] == b;
                assert(news[j].0 == b);
                assert(sw2.peers[u].received.contains(b));
            }
        }
        assert(edge_consistent(c2[u], c2[w], u, w));
    }
    assert forall|x: Seq<char>, y: Seq<char>|
        c2.contains_key(x) && c2.contains_key(y) && x != y implies #[trigger] edge_consistent(c2[x], c2[y], x, y) by {
        if !(x == u && y == w) {
            assert(edge_consistent(c[x], c[y], x, y));
            assert(keeps(c[x], c2[x]));
            assert(keeps(c[y], c2[y]));
            lemma_edge_kept(c[x], c[y], c2[x], c2[y], x, y);
        }
    }
}

/// After an exchange from `u` to `w`, `w` has seen everything `u` had seen.
proof fn lemma_exchange_delivers(c: Cluster, u: Seq<char>, w: Seq<char>)
    requires
        linked(c, u, w),
        consistent(c),
        c[u].batches.len() < usize::MAX,
    ensures
        seen(c[u]).subset_of(seen(exchange(c, u, w)[w])),
{
    let c2 = exchange(c, u, w);
    let t = seal(c[u]);
    let ids = pending(t, w);
    lemma_exchange_effects(c, u, w);
    lemma_seal_keeps(c[u]);
    assert(edge_consistent(c[u], c[w], u, w));
    assert(t.uncommitted =~= Set::<usize>::empty());
    assert forall|v: usize| seen(c[u]).contains(v) implies seen(c2[w]).contains(v) by {
        assert(seen(t).contains(v));
        assert(batched(t.batches).contains(v));
        let i = choose|i: int| 0 <= i < t.batches.len() && #[trigger] t.batches[i].contains(v);
        let b = i as usize;
        assert(b as int == i);
        if c[u].peers[w].acknowledged.contains(b) {
            assert(t.batches[i] == c[u].batches[i]);
            assert(seen(c[w]).contains(v));
        } else {
            lemma_unacknowledged_includes(t.peers[w].acknowledged, t.batches.len(), b);
            assert(ids.contains(b));
            let news = news_for(t, ids);
            lemma_merge_news_grows(c[w], u, news);
            if c[w].peers[u].received.contains(b) {
                assert(t.batches[i] == c[u].batches[i]);
                assert(seen(c[w]).contains(v));
            } else {
                lemma_batch_delivered(t, ids, b, c[w], u, v);
            }
        }
    }
}

/// The state of a cluster that starts consistent, where every step of
/// `sched` is a link: `hops` lists, in increasing order, steps that go along
/// consecutive links of `path`.
pub open spec fn path_schedule(
    c: Cluster,
    sched: Seq<(Seq<char>, Seq<char>)>,
    path: Seq<Seq<char>>,
    hops: Seq<int>,
) -> bool {
    &&& consistent(c)
    &&& forall|i: int| 0 <= i < sched.len() ==> linked(c, (#[trigger] sched[i]).0, sched[i].1)
    &&& forall|x: Seq<char>| #[trigger] c.contains_key(x) ==> c[x].batches.len() + sched.len() < usize::MAX
    &&& path.len() == hops.len() + 1
    &&& c.contains_key(path[0])
    &&& forall|k: int| 0 <= k < hops.len() ==> 0 <= #[trigger] hops[k] < sched.len() && sched[hops[k]] == (path[k], path[k + 1])
    &&& forall|k: int| 0 < k < hops.len() ==> hops[k - 1] < #[trigger] hops[k]
}

/// The first `n` exchanges of a path schedule keep the cluster consistent
/// and its links, and bring what `path[0]` had seen to every node of the
/// path whose hop is among them.
proof fn lemma_schedule_prefix(
    c: Cluster,
    sched: Seq<(Seq<char>, Seq<char>)>,
    path: Seq<Seq<char>>,
    hops: Seq<int>,
    n: int,
)
    requires
        path_schedule(c, sched, path, hops),
        0 <= n <= sched.len(),
    ensures
        consistent(run_exchanges(c, sched.take(n))),
        run_exchanges(c, sched.take(n)).dom() == c.dom(),
        forall|x: Seq<char>| #[trigger] c.contains_key(x)
            ==> run_exchanges(c, sched.take(n))[x].batches.len() <= c[x].batches.len() + n,
        forall|i: int| 0 <= i < sched.len() ==> linked(run_exchanges(c, sched.take(n)), (#[trigger] sched[i]).0, sched[i].1),
        forall|k: int| 0 <= k < path.len() && (k == 0 || hops[k - 1] < n)
            ==> seen(c[path[0]]).subset_of(seen(#[trigger] run_exchanges(c, sched.take(n))[path[k]])),
    decreases n,
{
    if n == 0 {
        assert(sched.take(0) =~= Seq::<(Seq<char>, Seq<char>)>::empty());
    } else {
        lemma_schedule_prefix(c, sched, path, hops, n - 1);
        let cur = run_exchanges(c, sched.take(n - 1));
        let (u, w) = sched[n - 1];
        assert(sched.take(n).drop_last() =~= sched.take(n - 1));
        assert(sched.take(n).last() == sched[n - 1]);
        let next = run_exchanges(c, sched.take(n));
        assert(next == exchange(cur, u, w));
        assert(linked(cur, sched[n - 1].0, sched[n - 1].1));
        lemma_exchange_effects(cur, u, w);
        lemma_exchange_consistent(cur, u, w);
        assert(c.contains_key(u));
        assert(cur[u].batches.len() < usize::MAX);
        lemma_exchange_delivers(cur, u, w);
        assert forall|i: int| 0 <= i < sched.len() implies linked(next, (#[trigger] sched[i]).0, sched[i].1) by {
            assert(linked(cur, sched[i].0, sched[i].1));
            assert(keeps(cur[sched[i].0], next[sched[i].0]));
            assert(keeps(cur[sched[i].1], next[sched[i].1]));
        }
        assert forall|k: int| 0 <= k < path.len() && (k == 0 || hops[k - 1] < n)
            implies seen(c[path[0]]).subset_of(seen(#[trigger] next[path[k]])) by {
            if k > 0 && hops[k - 1] == n - 1 {
                assert(sched[hops[k - 1]] == (path[k - 1], path[k]));
                if k > 1 {
                    assert(hops[k - 2] < hops[k - 1]);
                }
                assert(seen(c[path[0]]).subset_of(seen(cur[path[k - 1]])));
            } else {
                if k > 0 {
                    assert(0 <= hops[k - 1] < sched.len());
                    assert(linked(c, sched[hops[k - 1]].0, sched[hops[k - 1]].1));
                }
                assert(c.contains_key(path[k]));
                assert(seen(c[path[0]]).subset_of(seen(cur[path[k]])));
                assert(keeps(cur[path[k]], next[path[k]]));
            }
        }
    }
}

/// Eventual convergence: in a consistent cluster (one whose records are all
/// empty is), when a sequence of exchanges along links includes, in order,
/// one exchange along each link of a path, the last node of the path ends
/// up seeing every value that the first had seen. (A round that exchanges
/// once along every link, in both directions, holds one hop of any path; so
/// `d` such rounds hold, in order, every path of `d` links.)
pub proof fn lemma_values_follow_paths(
    c: Cluster,
    sched: Seq<(Seq<char>, Seq<char>)>,
    path: Seq<Seq<char>>,
    hops: Seq<int>,
)
    requires
        path_schedule(c, sched, path, hops),
    ensures
        seen(c[path[0]]).subset_of(seen(run_exchanges(c, sched)[path.last()])),
{
    lemma_schedule_prefix(c, sched, path, hops, sched.len() as int);
    assert(sched.take(sched.len() as int) =~= sched);
    let last = path.len() - 1;
    if last > 0 {
        assert(0 <= hops[last - 1] < sched.len());
    }
    assert(seen(c[path[0]]).subset_of(seen(run_exchanges(c, sched.take(sched.len() as int))[path[last]])));
}

/// A cluster whose nodes hold only empty records of each other is
/// consistent.
pub proof fn lemma_fresh_cluster_consistent(c: Cluster)
    requires
        forall|u: Seq<char>, w: Seq<char>|
            c.contains_key(u) && #[trigger] c[u].peers.contains_key(w) ==> c[u].peers[w] == crate::gossip_model::fresh_peer(),
    ensures
        consistent(c),
{
    assert forall|u: Seq<char>, w: Seq<char>| c.contains_key(u) && c.contains_key(w) && u != w
        implies #[trigger] edge_consistent(c[u], c[w], u, w) by {
        if c[u].peers.contains_key(w) {
            assert(c[u].peers[w] == crate::gossip_model::fresh_peer());
        }
        if c[w].peers.contains_key(u) {
            assert(c[w].peers[u] == crate::gossip_model::fresh_peer());
        }
    }
}


/// An exchange is made of the nodes' own steps: `u` ticks; when that tick
/// sends `w` gossip, `w` handles it and `u` handles `w`'s receipt for it;
/// when it sends `w` nothing, nothing else happens.
pub proof fn lemma_exchange_is_steps(c: Cluster, u: Seq<char>, w: Seq<char>)
    requires
        linked(c, u, w),
    ensures
        ({
            let t = step(c[u], Input::Tick);
            let ids = pending(t, w);
            let news = news_for(t, ids);
            if ids.len() > 0 {
                &&& exists|j: int| 0 <= j < sent(c[u], Input::Tick).len() && #[trigger] sent(c[u], Input::Tick)[j] == (w, ids)
                &&& exchange(c, u, w)[w] == step(c[w], Input::Gossip(u, news))
                &&& exchange(c, u, w)[u] == step(t, Input::Receipt(w, receipt_of(news)))
            } else {
                &&& forall|j: int| 0 <= j < sent(c[u], Input::Tick).len() ==> (#[trigger] sent(c[u], Input::Tick)[j]).0 != w
                &&& exchange(c, u, w)[w] == c[w]
                &&& exchange(c, u, w)[u] == t
            }
        }),
{
    let t = seal(c[u]);
    let ids = pending(t, w);
    lemma_sends_are_pending(t, t.neighbors);
    if ids.len() > 0 {
        lemma_pending_is_sent(t, t.neighbors, w);
        let j = choose|j: int| 0 <= j < sent(c[u], Input::Tick).len() && (#[trigger] sent(c[u], Input::Tick)[j]).0 == w;
        assert(sent(c[u], Input::Tick)[j] == (w, ids));
    }
}

} // verus!

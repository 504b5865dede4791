//! Properties of the gossip protocol, proved over the state machine of
//! `gossip_model`, which the broadcast node follows step for step.

use vstd::prelude::*;

use crate::cluster::lemma_seal_keeps;
use crate::gossip_model::{
    merge_batch, merge_news, news_for, pending, run, seal, seen, sends_to, sent_at, step, tick,
    unacknowledged_below, GossipState, Input,
};

verus! {

/// Merging a gossip message from `src` keeps the domain of the records,
/// every acknowledgment, every record but `src`'s, the batches and the
/// neighbors; `src`'s record then holds every batch id of the message.
pub(crate) proof fn lemma_merge_news_records(s: GossipState, src: Seq<char>, news: Seq<(usize, Set<usize>)>)
    requires
        s.peers.contains_key(src),
    ensures
        merge_news(s, src, news).peers.dom() == s.peers.dom(),
        merge_news(s, src, news).batches == s.batches,
        merge_news(s, src, news).neighbors == s.neighbors,
        forall|k: Seq<char>| #[trigger] s.peers.contains_key(k)
            ==> merge_news(s, src, news).peers[k].acknowledged == s.peers[k].acknowledged,
        forall|k: Seq<char>| #[trigger] s.peers.contains_key(k) && k != src
            ==> merge_news(s, src, news).peers[k] == s.peers[k],
        s.peers[src].received.subset_of(merge_news(s, src, news).peers[src].received),
        forall|j: int| 0 <= j < news.len() ==> merge_news(s, src, news).peers[src].received.contains(#[trigger] news[j].0),
    decreases news.len(),
{
    if news.len() > 0 {
        lemma_merge_news_records(s, src, news.drop_last());
        let t = merge_news(s, src, news.drop_last());
        assert(t.peers.insert(src, t.peers[src]).dom() =~= t.peers.dom());
        assert forall|j: int| 0 <= j < news.len() implies merge_news(s, src, news).peers[src].received.contains(#[trigger] news[j].0) by {
            if j < news.len() - 1 {
                assert(news.drop_last()[j] == news[j]);
            }
        }
    }
}

/// Merging a gossip message whose batch ids were all merged from `src`
/// already changes nothing.
proof fn lemma_merge_news_known(s: GossipState, src: Seq<char>, news: Seq<(usize, Set<usize>)>)
    requires
        s.peers.contains_key(src),
        forall|j: int| 0 <= j < news.len() ==> s.peers[src].received.contains(#[trigger] news[j].0),
    ensures
        merge_news(s, src, news) == s,
    decreases news.len(),
{
    if news.len() > 0 {
        assert forall|j: int| 0 <= j < news.drop_last().len() implies s.peers[src].received.contains(#[trigger] news.drop_last()[j].0) by {
            assert(news.drop_last()[j] == news[j]);
        }
        lemma_merge_news_known(s, src, news.drop_last());
        assert(s.peers[src].received.contains(news[news.len() - 1].0));
    }
}

/// Idempotent merge: merging the same gossip message from the same neighbor
/// a second time leaves the state that merging it once left.
pub proof fn lemma_merge_idempotent(s: GossipState, src: Seq<char>, news: Seq<(usize, Set<usize>)>)
    requires
        s.peers.contains_key(src),
    ensures
        merge_news(merge_news(s, src, news), src, news) == merge_news(s, src, news),
{
    lemma_merge_news_records(s, src, news);
    lemma_merge_news_known(merge_news(s, src, news), src, news);
}

/// Every id listed by `unacknowledged_below` is an unacknowledged id below
/// `count`.
pub(crate) proof fn lemma_unacknowledged_excludes(acked: Set<usize>, count: nat, x: usize)
    requires
        unacknowledged_below(acked, count).contains(x),
    ensures
        !acked.contains(x),
        x < count,
    decreases count,
{
    if count > 0 {
        let rest = unacknowledged_below(acked, (count - 1) as nat);
        let id = count - 1;
        if !(id > usize::MAX || acked.contains(id as usize)) && x != id {
            let pushed = rest.push(id as usize);
            assert(pushed.contains(x));
            let k = choose|k: int| 0 <= k < pushed.len() && pushed[k] == x;
            assert(rest[k] == x);
        }
        if rest.contains(x) {
            lemma_unacknowledged_excludes(acked, (count - 1) as nat, x);
        }
    }
}

/// Every unacknowledged id below `count` is listed by `unacknowledged_below`.
pub(crate) proof fn lemma_unacknowledged_includes(acked: Set<usize>, count: nat, x: usize)
    requires
        x < count,
        !acked.contains(x),
    ensures
        unacknowledged_below(acked, count).contains(x),
    decreases count,
{
    let rest = unacknowledged_below(acked, (count - 1) as nat);
    let id = count - 1;
    if x == count - 1 {
        assert(rest.push(id as usize)[rest.len() as int] == x);
    } else {
        lemma_unacknowledged_includes(acked, (count - 1) as nat, x);
        let k = choose|k: int| 0 <= k < rest.len() && rest[k] == x;
        if !(id > usize::MAX || acked.contains(id as usize)) {
            assert(rest.push(id as usize)[k] == x);
        }
    }
}

/// Each message of a tick goes to a listed neighbor and carries exactly that
/// neighbor's pending batches, at least one.
pub(crate) proof fn lemma_sends_are_pending(s: GossipState, ns: Seq<Seq<char>>)
    ensures
        forall|j: int| 0 <= j < sends_to(s, ns).len() ==> {
            &&& ns.contains((#[trigger] sends_to(s, ns)[j]).0)
            &&& sends_to(s, ns)[j].1 == pending(s, sends_to(s, ns)[j].0)
            &&& sends_to(s, ns)[j].1.len() > 0
        },
    decreases ns.len(),
{
    if ns.len() > 0 {
        lemma_sends_are_pending(s, ns.drop_last());
        let rest = sends_to(s, ns.drop_last());
        assert forall|j: int| 0 <= j < sends_to(s, ns).len() implies {
            &&& ns.contains((#[trigger] sends_to(s, ns)[j]).0)
            &&& sends_to(s, ns)[j].1 == pending(s, sends_to(s, ns)[j].0)
            &&& sends_to(s, ns)[j].1.len() > 0
        } by {
            if j < rest.len() {
                assert(sends_to(s, ns)[j] == rest[j]);
                let k = choose|k: int| 0 <= k < ns.drop_last().len() && ns.drop_last()[k] == rest[j].0;
                assert(ns[k] == rest[j].0);
            } else {
                assert(ns[ns.len() - 1] == ns.last());
            }
        }
    }
}

/// A listed neighbor with pending batches gets a message from a tick.
pub(crate) proof fn lemma_pending_is_sent(s: GossipState, ns: Seq<Seq<char>>, n: Seq<char>)
    requires
        ns.contains(n),
        pending(s, n).len() > 0,
    ensures
        exists|j: int| 0 <= j < sends_to(s, ns).len() && (#[trigger] sends_to(s, ns)[j]).0 == n,
    decreases ns.len(),
{
    let rest = sends_to(s, ns.drop_last());
    if ns.last() == n {
        assert(sends_to(s, ns)[rest.len() as int].0 == n);
    } else {
        let k = choose|k: int| 0 <= k < ns.len() && ns[k] == n;
        assert(ns.drop_last()[k] == n);
        lemma_pending_is_sent(s, ns.drop_last(), n);
        let j = choose|j: int| 0 <= j < rest.len() && (#[trigger] rest[j]).0 == n;
        assert(sends_to(s, ns)[j] == rest[j]);
    }
}

/// The state after the first `i + 1` inputs is one step after the state
/// after the first `i`.
proof fn lemma_run_take_step(s: GossipState, inputs: Seq<Input>, i: int)
    requires
        0 <= i < inputs.len(),
    ensures
        run(s, inputs.take(i + 1)) == step(run(s, inputs.take(i)), inputs[i]),
{
    assert(inputs.take(i + 1).drop_last() =~= inputs.take(i));
    assert(inputs.take(i + 1).last() == inputs[i]);
}

/// One input keeps `b` among the batches that `n` acknowledged, unless it is
/// a topology that lists `n` again.
proof fn lemma_step_keeps_acknowledgment(t: GossipState, input: Input, n: Seq<char>, b: usize)
    requires
        t.peers.contains_key(n),
        t.peers[n].acknowledged.contains(b),
        !(input matches Input::Topology(Some(nbs)) && nbs.contains(n)),
    ensures
        step(t, input).peers.contains_key(n),
        step(t, input).peers[n].acknowledged.contains(b),
{
    match input {
        Input::Gossip(src, news) => {
            if t.peers.contains_key(src) {
                lemma_merge_news_records(t, src, news);
            }
        },
        _ => {},
    }
}

/// Convergent acknowledgment: after a receipt from `n` that lists batch `b`,
/// no later tick sends `b` to `n`, as long as no later topology lists `n`
/// again (that would give `n` an empty record).
pub proof fn lemma_acknowledged_batch_not_resent(s: GossipState, n: Seq<char>, ids: Seq<usize>, b: usize, later: Seq<Input>)
    requires
        s.peers.contains_key(n),
        ids.contains(b),
        forall|i: int| 0 <= i < later.len() ==> !(#[trigger] later[i] matches Input::Topology(Some(nbs)) && nbs.contains(n)),
    ensures
        forall|i: int, j: int|
            0 <= i < later.len() && 0 <= j < sent_at(step(s, Input::Receipt(n, ids)), later, i).len()
                && (#[trigger] sent_at(step(s, Input::Receipt(n, ids)), later, i)[j]).0 == n
                ==> !sent_at(step(s, Input::Receipt(n, ids)), later, i)[j].1.contains(b),
{
    let after = step(s, Input::Receipt(n, ids));
    assert(ids.to_set().contains(b));
    assert forall|i: int| 0 <= i <= later.len() implies {
        &&& (#[trigger] run(after, later.take(i))).peers.contains_key(n)
        &&& run(after, later.take(i)).peers[n].acknowledged.contains(b)
    } by {
        lemma_acknowledgment_kept(after, later, n, b, i);
    }
    assert forall|i: int, j: int|
        0 <= i < later.len() && 0 <= j < sent_at(after, later, i).len()
            && (#[trigger] sent_at(after, later, i)[j]).0 == n
            implies !sent_at(after, later, i)[j].1.contains(b) by {
        let t = run(after, later.take(i));
        assert(run(after, later.take(i)).peers.contains_key(n));
        if later[i] is Tick {
            let u = seal(t);
            lemma_sends_are_pending(u, u.neighbors);
            assert(sent_at(after, later, i) == sends_to(u, u.neighbors));
            if sent_at(after, later, i)[j].1.contains(b) {
                lemma_unacknowledged_excludes(u.peers[n].acknowledged, u.batches.len(), b);
            }
        }
    }
}

/// The acknowledgment of `b` by `n` survives the first `i` inputs.
proof fn lemma_acknowledgment_kept(s: GossipState, inputs: Seq<Input>, n: Seq<char>, b: usize, i: int)
    requires
        0 <= i <= inputs.len(),
        s.peers.contains_key(n),
        s.peers[n].acknowledged.contains(b),
        forall|k: int| 0 <= k < inputs.len() ==> !(#[trigger] inputs[k] matches Input::Topology(Some(nbs)) && nbs.contains(n)),
    ensures
        run(s, inputs.take(i)).peers.contains_key(n),
        run(s, inputs.take(i)).peers[n].acknowledged.contains(b),
    decreases i,
{
    if i == 0 {
        assert(inputs.take(0) =~= Seq::<Input>::empty());
    } else {
        lemma_acknowledgment_kept(s, inputs, n, b, i - 1);
        lemma_run_take_step(s, inputs, i - 1);
        assert(!(inputs[i - 1] matches Input::Topology(Some(nbs)) && nbs.contains(n)));
        lemma_step_keeps_acknowledgment(run(s, inputs.take(i - 1)), inputs[i - 1], n, b);
    }
}

/// What stays true of a batch `b` that `n` never acknowledges: `n` stays a
/// neighbor with a record, `b` stays a batch, and `n` has not acknowledged it.
pub open spec fn awaits_acknowledgment(t: GossipState, n: Seq<char>, b: usize) -> bool {
    &&& t.neighbors.contains(n)
    &&& t.peers.contains_key(n)
    &&& b < t.batches.len()
    &&& !t.peers[n].acknowledged.contains(b)
}

/// An input that cannot end the wait of `b` for `n`: no receipt from `n`
/// listing `b`, and no topology that drops `n`.
pub open spec fn keeps_waiting(input: Input, n: Seq<char>, b: usize) -> bool {
    &&& !(input matches Input::Receipt(src, ids) && src == n && ids.contains(b))
    &&& (input matches Input::Topology(Some(nbs)) ==> nbs.contains(n))
}

/// One input that keeps the wait keeps `awaits_acknowledgment`.
proof fn lemma_step_keeps_waiting(t: GossipState, input: Input, n: Seq<char>, b: usize)
    requires
        awaits_acknowledgment(t, n, b),
        keeps_waiting(input, n, b),
    ensures
        awaits_acknowledgment(step(t, input), n, b),
{
    match input {
        Input::Gossip(src, news) => {
            if t.peers.contains_key(src) {
                lemma_merge_news_records(t, src, news);
            }
        },
        Input::Receipt(src, ids) => {
            if src == n && t.peers.contains_key(src) {
                assert(!ids.to_set().contains(b));
            }
        },
        _ => {},
    }
}

/// `awaits_acknowledgment` survives the first `i` inputs.
proof fn lemma_waiting_kept(s: GossipState, inputs: Seq<Input>, n: Seq<char>, b: usize, i: int)
    requires
        0 <= i <= inputs.len(),
        awaits_acknowledgment(s, n, b),
        forall|k: int| 0 <= k < inputs.len() ==> keeps_waiting(#[trigger] inputs[k], n, b),
    ensures
        awaits_acknowledgment(run(s, inputs.take(i)), n, b),
    decreases i,
{
    if i == 0 {
        assert(inputs.take(0) =~= Seq::<Input>::empty());
    } else {
        lemma_waiting_kept(s, inputs, n, b, i - 1);
        lemma_run_take_step(s, inputs, i - 1);
        assert(keeps_waiting(inputs[i - 1], n, b));
        lemma_step_keeps_waiting(run(s, inputs.take(i - 1)), inputs[i - 1], n, b);
    }
}

/// Retry until acknowledged: a batch `b` that neighbor `n` has not
/// acknowledged is sent to `n` by every later tick, as long as no receipt
/// from `n` lists it and no topology drops `n`.
pub proof fn lemma_unacknowledged_batch_resent(s: GossipState, n: Seq<char>, b: usize, later: Seq<Input>)
    requires
        awaits_acknowledgment(s, n, b),
        forall|i: int| 0 <= i < later.len() ==> keeps_waiting(#[trigger] later[i], n, b),
    ensures
        forall|i: int| 0 <= i < later.len() && (#[trigger] later[i]) is Tick ==> exists|j: int|
            0 <= j < sent_at(s, later, i).len() && sent_at(s, later, i)[j].0 == n && sent_at(s, later, i)[j].1.contains(b),
{
    assert forall|i: int| 0 <= i < later.len() && (#[trigger] later[i]) is Tick implies exists|j: int|
        0 <= j < sent_at(s, later, i).len() && sent_at(s, later, i)[j].0 == n && sent_at(s, later, i)[j].1.contains(b) by {
        lemma_waiting_kept(s, later, n, b, i);
        let t = run(s, later.take(i));
        let u = seal(t);
        assert(awaits_acknowledgment(u, n, b));
        lemma_unacknowledged_includes(u.peers[n].acknowledged, u.batches.len(), b);
        assert(pending(u, n).contains(b));
        lemma_pending_is_sent(u, u.neighbors, n);
        lemma_sends_are_pending(u, u.neighbors);
        assert(sent_at(s, later, i) == sends_to(u, u.neighbors));
        let j = choose|j: int| 0 <= j < sends_to(u, u.neighbors).len() && (#[trigger] sends_to(u, u.neighbors)[j]).0 == n;
        assert(sent_at(s, later, i)[j].1.contains(b));
    }
}

/// Merging never forgets a seen value, and `src`'s record gains only the
/// batch ids of the message.
pub(crate) proof fn lemma_merge_news_grows(s: GossipState, src: Seq<char>, news: Seq<(usize, Set<usize>)>)
    requires
        s.peers.contains_key(src),
    ensures
        seen(s).subset_of(seen(merge_news(s, src, news))),
        forall|x: usize| #[trigger] merge_news(s, src, news).peers[src].received.contains(x)
            ==> s.peers[src].received.contains(x) || exists|l: int| 0 <= l < news.len() && news[l].0 == x,
    decreases news.len(),
{
    if news.len() > 0 {
        lemma_merge_news_grows(s, src, news.drop_last());
        lemma_merge_news_records(s, src, news.drop_last());
        let t = merge_news(s, src, news.drop_last());
        let last = news.last();
        assert(seen(t).subset_of(seen(merge_batch(t, src, last.0, last.1))));
        assert forall|x: usize| #[trigger] merge_news(s, src, news).peers[src].received.contains(x)
            implies s.peers[src].received.contains(x) || exists|l: int| 0 <= l < news.len() && news[l].0 == x by {
            if x == last.0 {
                assert(news[news.len() - 1].0 == x);
            } else if !s.peers[src].received.contains(x) {
                assert(t.peers[src].received.contains(x));
                let l = choose|l: int| 0 <= l < news.drop_last().len() && news.drop_last()[l].0 == x;
                assert(news[l].0 == x);
            }
        }
    }
}

/// A batch `news[m]` whose id `src`'s record lacks, and that no earlier batch
/// of the message shares, brings its values into the seen set.
proof fn lemma_merge_news_delivers(s: GossipState, src: Seq<char>, news: Seq<(usize, Set<usize>)>, m: int, v: usize)
    requires
        s.peers.contains_key(src),
        0 <= m < news.len(),
        news[m].1.contains(v),
        !s.peers[src].received.contains(news[m].0),
        forall|l: int| 0 <= l < m ==> (#[trigger] news[l]).0 != news[m].0,
    ensures
        seen(merge_news(s, src, news)).contains(v),
    decreases news.len(),
{
    let t = merge_news(s, src, news.drop_last());
    lemma_merge_news_records(s, src, news.drop_last());
    let last = news.last();
    if m < news.len() - 1 {
        assert forall|l: int| 0 <= l < m implies (#[trigger] news.drop_last()[l]).0 != news.drop_last()[m].0 by {
            assert(news.drop_last()[l] == news[l]);
        }
        lemma_merge_news_delivers(s, src, news.drop_last(), m, v);
        assert(seen(t).subset_of(seen(merge_batch(t, src, last.0, last.1))));
    } else {
        lemma_merge_news_grows(s, src, news.drop_last());
        if t.peers[src].received.contains(last.0) {
            let l = choose|l: int| 0 <= l < news.drop_last().len() && news.drop_last()[l].0 == last.0;
            assert(news[l] == news.drop_last()[l]);
        }
    }
}

/// The first position of `k` in `ids`.
proof fn lemma_first_index(ids: Seq<usize>, k: usize) -> (m: int)
    requires
        ids.contains(k),
    ensures
        0 <= m < ids.len(),
        ids[m] == k,
        forall|l: int| 0 <= l < m ==> ids[l] != k,
    decreases ids.len(),
{
    if ids[0] == k {
        0
    } else {
        let i = choose|i: int| 0 <= i < ids.len() && ids[i] == k;
        assert(ids.drop_first()[i - 1] == k);
        let m = lemma_first_index(ids.drop_first(), k);
        assert forall|l: int| 0 <= l < m + 1 implies ids[l] != k by {
            if l > 0 {
                assert(ids[l] == ids.drop_first()[l - 1]);
            }
        }
        m + 1
    }
}

/// A gossip message carrying batch `k` of `t`, which holds `v`, brings `v`
/// to a node that has merged no batch of id `k` from the sender.
pub(crate) proof fn lemma_batch_delivered(t: GossipState, ids: Seq<usize>, k: usize, sw: GossipState, u: Seq<char>, v: usize)
    requires
        ids.contains(k),
        0 <= k < t.batches.len(),
        t.batches[k as int].contains(v),
        sw.peers.contains_key(u),
        !sw.peers[u].received.contains(k),
    ensures
        seen(merge_news(sw, u, news_for(t, ids))).contains(v),
{
    let news = news_for(t, ids);
    let m = lemma_first_index(ids, k);
    assert(news[m] == (k, t.batches[k as int]));
    assert forall|l: int| 0 <= l < m implies (#[trigger] news[l]).0 != news[m].0 by {
        assert(news[l].0 == ids[l]);
    }
    lemma_merge_news_delivers(sw, u, news, m, v);
}

/// Seen values only grow: no input makes a node forget a value it has seen.
pub proof fn lemma_seen_only_grows(s: GossipState, input: Input)
    ensures
        seen(s).subset_of(seen(step(s, input))),
{
    match input {
        Input::Gossip(src, news) => {
            if s.peers.contains_key(src) {
                lemma_merge_news_grows(s, src, news);
            }
        },
        Input::Tick => {
            lemma_seal_keeps(s);
        },
        _ => {},
    }
}

} // verus!

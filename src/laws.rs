//! What a snapshot guarantees of the reports it was folded from: channel
//! depths are exact sums over the hosts, and a topic's producers never report
//! more depth than the hosts' channels hold.
use vstd::prelude::*;

use crate::cluster::{ChannelStatus, HostStatus, HostTopicStatus, HostView, NsqState};
use crate::keys::{
    index_of, key_lt, lemma_key_lt_irreflexive, lemma_map_of_index, map_of, sorted_by_key, Keyed,
};
use crate::snapshot::{
    advertised, channel_rows, consumer_totals, host_channel_rows, host_topic_rows, host_totals,
    lemma_host_totals_empty, producer_report, producers_depth, snapshot_producers, status_hosts,
    snapshot_topics, topic_channel_rows, topic_rows, ChannelRow, NsqSnapshot,
    NsqTopicProducerAggregate, NsqTopicProducerSnapshot, TopicRow,
};

verus! {

/// The depth that one host's reports give channel `c` of topic `t`.
pub open spec fn host_channel_depth(
    hosts: Map<Seq<char>, HostView>,
    status: HostStatus,
    t: Seq<char>,
    c: Seq<char>,
) -> nat {
    consumer_totals(hosts, host_channel_rows(status.hostname@, status.status@), t, c).1
}

/// The depths that the hosts' reports give channel `c` of topic `t`, summed
/// host by host.
pub open spec fn depth_over_hosts(
    hosts: Map<Seq<char>, HostView>,
    statuses: Seq<HostStatus>,
    t: Seq<char>,
    c: Seq<char>,
) -> nat
    decreases statuses.len(),
{
    if statuses.len() == 0 {
        0
    } else {
        depth_over_hosts(hosts, statuses.drop_last(), t, c) + host_channel_depth(
            hosts,
            statuses.last(),
            t,
            c,
        )
    }
}

proof fn lemma_consumer_totals_concat(
    hosts: Map<Seq<char>, HostView>,
    a: Seq<ChannelRow>,
    b: Seq<ChannelRow>,
    t: Seq<char>,
    c: Seq<char>,
)
    ensures
        consumer_totals(hosts, a + b, t, c).0 == consumer_totals(hosts, a, t, c).0
            + consumer_totals(hosts, b, t, c).0,
        consumer_totals(hosts, a + b, t, c).1 == consumer_totals(hosts, a, t, c).1
            + consumer_totals(hosts, b, t, c).1,
    decreases b.len(),
{
    if b.len() == 0 {
        assert(a + b =~= a);
    } else {
        lemma_consumer_totals_concat(hosts, a, b.drop_last(), t, c);
        assert((a + b).drop_last() =~= a + b.drop_last());
        assert((a + b).last() == b.last());
    }
}

/// A channel's depth in the snapshot is the sum, host by host, of the depths
/// that the hosts advertising its topic reported for it in this tick: no
/// report counted twice and none left out. The channel is listed exactly when
/// some such host reported it. (The depth saturates at `u64::MAX`; the law
/// speaks of sums that fit.)
pub proof fn lemma_channel_depth_is_sum_over_hosts(
    state: NsqState,
    statuses: Seq<HostStatus>,
    t: Seq<char>,
    c: Seq<char>,
)
    requires
        snapshot_topics(state@, topic_rows(statuses), channel_rows(statuses)).contains_key(t),
        depth_over_hosts(state@, statuses, t, c) <= u64::MAX,
    ensures
        ({
            let topic = snapshot_topics(state@, topic_rows(statuses), channel_rows(statuses))[t];
            &&& topic.1.contains_key(c) <==> consumer_totals(state@, channel_rows(statuses), t, c).0
                > 0
            &&& topic.1.contains_key(c) ==> topic.1[c].0 == depth_over_hosts(
                state@,
                statuses,
                t,
                c,
            )
        }),
{
    lemma_depth_over_hosts(state@, statuses, t, c);
}

proof fn lemma_depth_over_hosts(
    hosts: Map<Seq<char>, HostView>,
    statuses: Seq<HostStatus>,
    t: Seq<char>,
    c: Seq<char>,
)
    ensures
        consumer_totals(hosts, channel_rows(statuses), t, c).1 == depth_over_hosts(
            hosts,
            statuses,
            t,
            c,
        ),
    decreases statuses.len(),
{
    if statuses.len() > 0 {
        lemma_depth_over_hosts(hosts, statuses.drop_last(), t, c);
        lemma_consumer_totals_concat(
            hosts,
            channel_rows(statuses.drop_last()),
            host_channel_rows(statuses.last().hostname@, statuses.last().status@),
            t,
            c,
        );
    }
}

/// The sum of the channels' depths.
pub open spec fn channels_depth(chs: Seq<ChannelStatus>) -> nat
    decreases chs.len(),
{
    if chs.len() == 0 {
        0
    } else {
        (channels_depth(chs.drop_last()) + chs.last().depth) as nat
    }
}

/// Each topic that a host reported holds no more depth than its channels together.
pub open spec fn topic_depths_within_channels(statuses: Seq<HostStatus>) -> bool {
    forall|i: int, j: int|
        0 <= i < statuses.len() && 0 <= j < statuses[i].status@.len() ==> (
        #[trigger] statuses[i].status@[j]).depth <= channels_depth(
            statuses[i].status@[j].channels@,
        )
}

proof fn lemma_host_totals_concat(a: Seq<ChannelRow>, b: Seq<ChannelRow>, h: Seq<char>)
    ensures
        host_totals(a + b, h).0 == host_totals(a, h).0 + host_totals(b, h).0,
        host_totals(a + b, h).1 == host_totals(a, h).1 + host_totals(b, h).1,
    decreases b.len(),
{
    if b.len() == 0 {
        assert(a + b =~= a);
    } else {
        lemma_host_totals_concat(a, b.drop_last(), h);
        assert((a + b).drop_last() =~= a + b.drop_last());
        assert((a + b).last() == b.last());
    }
}

proof fn lemma_topic_channels_load(h: Seq<char>, ts: HostTopicStatus, n: int)
    requires
        0 <= n <= ts.channels@.len(),
    ensures
        host_totals(topic_channel_rows(h, ts).take(n), h).1 == channels_depth(ts.channels@.take(n)),
    decreases n,
{
    if n > 0 {
        lemma_topic_channels_load(h, ts, n - 1);
        assert(topic_channel_rows(h, ts).take(n).drop_last() =~= topic_channel_rows(h, ts).take(
            n - 1,
        ));
        assert(ts.channels@.take(n).drop_last() =~= ts.channels@.take(n - 1));
    }
}

proof fn lemma_host_rows_load(h: Seq<char>, tss: Seq<HostTopicStatus>, j: int)
    requires
        0 <= j < tss.len(),
    ensures
        host_totals(host_channel_rows(h, tss), h).1 >= channels_depth(tss[j].channels@),
    decreases tss.len(),
{
    let last = tss.last();
    lemma_host_totals_concat(host_channel_rows(h, tss.drop_last()), topic_channel_rows(h, last), h);
    if j == tss.len() - 1 {
        lemma_topic_channels_load(h, last, last.channels@.len() as int);
        assert(topic_channel_rows(h, last).take(last.channels@.len() as int) =~= topic_channel_rows(
            h,
            last,
        ));
        assert(last.channels@.take(last.channels@.len() as int) =~= last.channels@);
    } else {
        assert(tss.drop_last()[j] == tss[j]);
        lemma_host_rows_load(h, tss.drop_last(), j);
    }
}

proof fn lemma_reported_topic_load(statuses: Seq<HostStatus>, i: int, j: int)
    requires
        0 <= i < statuses.len(),
        0 <= j < statuses[i].status@.len(),
    ensures
        host_totals(channel_rows(statuses), statuses[i].hostname@).1 >= channels_depth(
            statuses[i].status@[j].channels@,
        ),
    decreases statuses.len(),
{
    let h = statuses[i].hostname@;
    let last = statuses.last();
    lemma_host_totals_concat(
        channel_rows(statuses.drop_last()),
        host_channel_rows(last.hostname@, last.status@),
        h,
    );
    if i == statuses.len() - 1 {
        lemma_host_rows_load(h, last.status@, j);
    } else {
        assert(statuses.drop_last()[i] == statuses[i]);
        lemma_reported_topic_load(statuses.drop_last(), i, j);
    }
}

proof fn lemma_report_in_host(
    hosts: Map<Seq<char>, HostView>,
    h2: Seq<char>,
    tss: Seq<HostTopicStatus>,
    t: Seq<char>,
    h: Seq<char>,
)
    requires
        producer_report(hosts, host_topic_rows(h2, tss), t, h) is Some,
    ensures
        h2 == h,
        exists|j: int|
            0 <= j < tss.len() && (#[trigger] tss[j]).topic_name@ == t && producer_report(
                hosts,
                host_topic_rows(h2, tss),
                t,
                h,
            ) == Some((tss[j].depth, tss[j].message_count)),
    decreases tss.len(),
{
    let rows = host_topic_rows(h2, tss);
    assert(rows.drop_last() =~= host_topic_rows(h2, tss.drop_last()));
    let r = rows.last();
    if r.0 == h && r.1.topic_name@ == t && advertised(hosts, h, t) {
        assert(tss[tss.len() - 1].topic_name@ == t);
    } else {
        lemma_report_in_host(hosts, h2, tss.drop_last(), t, h);
        let j = choose|j: int|
            0 <= j < tss.drop_last().len() && (#[trigger] tss.drop_last()[j]).topic_name@ == t
                && producer_report(hosts, host_topic_rows(h2, tss.drop_last()), t, h) == Some(
                (tss.drop_last()[j].depth, tss.drop_last()[j].message_count),
            );
        assert(tss[j] == tss.drop_last()[j]);
    }
}

proof fn lemma_report_concat(
    hosts: Map<Seq<char>, HostView>,
    a: Seq<TopicRow>,
    b: Seq<TopicRow>,
    t: Seq<char>,
    h: Seq<char>,
)
    ensures
        producer_report(hosts, a + b, t, h) == if producer_report(hosts, b, t, h) is Some {
            producer_report(hosts, b, t, h)
        } else {
            producer_report(hosts, a, t, h)
        },
    decreases b.len(),
{
    if b.len() == 0 {
        assert(a + b =~= a);
    } else {
        lemma_report_concat(hosts, a, b.drop_last(), t, h);
        assert((a + b).drop_last() =~= a + b.drop_last());
        assert((a + b).last() == b.last());
    }
}

proof fn lemma_report_source(
    hosts: Map<Seq<char>, HostView>,
    statuses: Seq<HostStatus>,
    t: Seq<char>,
    h: Seq<char>,
)
    requires
        producer_report(hosts, topic_rows(statuses), t, h) is Some,
    ensures
        exists|i: int, j: int|
            0 <= i < statuses.len() && 0 <= j < statuses[i].status@.len()
                && statuses[i].hostname@ == h && producer_report(hosts, topic_rows(statuses), t, h)
                == Some(
                (
                    (#[trigger] statuses[i].status@[j]).depth,
                    statuses[i].status@[j].message_count,
                ),
            ),
    decreases statuses.len(),
{
    let last = statuses.last();
    let tail = host_topic_rows(last.hostname@, last.status@);
    lemma_report_concat(hosts, topic_rows(statuses.drop_last()), tail, t, h);
    let i = statuses.len() - 1;
    if producer_report(hosts, tail, t, h) is Some {
        lemma_report_in_host(hosts, last.hostname@, last.status@, t, h);
        let j = choose|j: int|
            0 <= j < last.status@.len() && (#[trigger] last.status@[j]).topic_name@ == t
                && producer_report(hosts, tail, t, h) == Some(
                (last.status@[j].depth, last.status@[j].message_count),
            );
        assert(statuses[i].status@[j] == last.status@[j]);
    } else {
        lemma_report_source(hosts, statuses.drop_last(), t, h);
        let (i, j) = choose|i: int, j: int|
            0 <= i < statuses.drop_last().len() && 0 <= j < statuses.drop_last()[i].status@.len()
                && statuses.drop_last()[i].hostname@ == h && producer_report(
                hosts,
                topic_rows(statuses.drop_last()),
                t,
                h,
            ) == Some(
                (
                    (#[trigger] statuses.drop_last()[i].status@[j]).depth,
                    statuses.drop_last()[i].status@[j].message_count,
                ),
            );
        assert(statuses[i] == statuses.drop_last()[i]);
        assert(statuses[i].status@[j] == statuses.drop_last()[i].status@[j]);
    }
}

/// Where each reported topic holds no more depth than its channels together,
/// the depth that a host reports for a topic never exceeds that host's load
/// summed over all of its channels.
pub proof fn lemma_topic_depth_within_host_load(
    state: NsqState,
    statuses: Seq<HostStatus>,
    t: Seq<char>,
    h: Seq<char>,
)
    requires
        topic_depths_within_channels(statuses),
        snapshot_topics(state@, topic_rows(statuses), channel_rows(statuses)).contains_key(t),
        snapshot_topics(state@, topic_rows(statuses), channel_rows(statuses))[t].0.contains_key(h),
    ensures
        ({
            let depth = snapshot_topics(state@, topic_rows(statuses), channel_rows(statuses))[t].0[h].0;
            let load = snapshot_producers(status_hosts(statuses), channel_rows(statuses));
            &&& load.contains_key(h)
            &&& depth <= load[h].0
        }),
{
    let hosts = state@;
    lemma_report_source(hosts, statuses, t, h);
    let (i, j) = choose|i: int, j: int|
        0 <= i < statuses.len() && 0 <= j < statuses[i].status@.len() && statuses[i].hostname@ == h
            && producer_report(hosts, topic_rows(statuses), t, h) == Some(
            ((#[trigger] statuses[i].status@[j]).depth, statuses[i].status@[j].message_count),
        );
    lemma_reported_topic_load(statuses, i, j);
    assert(status_hosts(statuses).contains(h));
    let ht = host_totals(channel_rows(statuses), h);
    if ht.0 == 0 {
        lemma_host_totals_empty(channel_rows(statuses), h);
    }
}

/// The sum of the hosts' load depths.
pub open spec fn loads_depth(s: Seq<NsqTopicProducerAggregate>) -> nat
    decreases s.len(),
{
    if s.len() == 0 {
        0
    } else {
        (loads_depth(s.drop_last()) + s.last().depth) as nat
    }
}

proof fn lemma_loads_remove(s: Seq<NsqTopicProducerAggregate>, m: int)
    requires
        0 <= m < s.len(),
    ensures
        loads_depth(s) == loads_depth(s.remove(m)) + s[m].depth,
    decreases s.len(),
{
    if m == s.len() - 1 {
        assert(s.remove(m) =~= s.drop_last());
    } else {
        lemma_loads_remove(s.drop_last(), m);
        assert(s.remove(m).drop_last() =~= s.drop_last().remove(m));
        assert(s.remove(m).last() == s.last());
    }
}

proof fn lemma_sum_dominated(p: Seq<NsqTopicProducerSnapshot>, l: Seq<NsqTopicProducerAggregate>)
    requires
        sorted_by_key(p),
        forall|k: int|
            0 <= k < p.len() ==> (#[trigger] p[k]).depth == 0 || exists|m: int|
                0 <= m < l.len() && l[m].hostname@ == p[k].hostname@ && p[k].depth <= l[m].depth,
    ensures
        producers_depth(p) <= loads_depth(l),
    decreases p.len(),
{
    if p.len() > 0 {
        let last = p.last();
        let rest = p.drop_last();
        assert(sorted_by_key(rest)) by {
            assert forall|a: int, b: int| 0 <= a < b < rest.len() implies key_lt(
                #[trigger] rest[a].key_view(),
                #[trigger] rest[b].key_view(),
            ) by {
                assert(key_lt(p[a].key_view(), p[b].key_view()));
            }
        }
        if last.depth == 0 {
            assert forall|k: int| 0 <= k < rest.len() implies (#[trigger] rest[k]).depth == 0
                || exists|m: int|
                0 <= m < l.len() && l[m].hostname@ == rest[k].hostname@ && rest[k].depth
                    <= l[m].depth by {
                assert(rest[k] == p[k]);
            }
            lemma_sum_dominated(rest, l);
        } else {
            let m = choose|m: int|
                0 <= m < l.len() && l[m].hostname@ == last.hostname@ && last.depth <= l[m].depth;
            let l2 = l.remove(m);
            lemma_loads_remove(l, m);
            assert forall|k: int| 0 <= k < rest.len() implies (#[trigger] rest[k]).depth == 0
                || exists|m2: int|
                0 <= m2 < l2.len() && l2[m2].hostname@ == rest[k].hostname@ && rest[k].depth
                    <= l2[m2].depth by {
                assert(rest[k] == p[k]);
                if rest[k].depth != 0 {
                    let m1 = choose|m1: int|
                        0 <= m1 < l.len() && l[m1].hostname@ == p[k].hostname@ && p[k].depth
                            <= l[m1].depth;
                    assert(key_lt(p[k].key_view(), p[p.len() - 1].key_view()));
                    lemma_key_lt_irreflexive(p[k].key_view());
                    assert(m1 != m);
                    if m1 < m {
                        assert(l2[m1] == l[m1]);
                    } else {
                        assert(l2[m1 - 1] == l[m1]);
                    }
                }
            }
            lemma_sum_dominated(rest, l2);
        }
    }
}

/// Where each reported topic holds no more depth than its channels together,
/// the depth that a topic's producers report, summed over its hosts, never
/// exceeds the load of all hosts summed over all their channels.
pub proof fn lemma_topic_depth_within_total_load(
    state: NsqState,
    statuses: Seq<HostStatus>,
    snap: NsqSnapshot,
    i: int,
)
    requires
        topic_depths_within_channels(statuses),
        snap.wf(),
        snap.topics_view() == snapshot_topics(state@, topic_rows(statuses), channel_rows(statuses)),
        snap.producers_view() == snapshot_producers(status_hosts(statuses), channel_rows(statuses)),
        0 <= i < snap.topics@.len(),
    ensures
        producers_depth(snap.topics@[i].producers@) <= loads_depth(snap.producers@),
{
    let topic = snap.topics@[i];
    let t = topic.name@;
    let p = topic.producers@;
    let l = snap.producers@;
    lemma_map_of_index(snap.topics@, i);
    assert(topic.wf());
    assert forall|k: int| 0 <= k < p.len() implies (#[trigger] p[k]).depth == 0 || exists|m: int|
        0 <= m < l.len() && l[m].hostname@ == p[k].hostname@ && p[k].depth <= l[m].depth by {
        let h = p[k].hostname@;
        lemma_map_of_index(p, k);
        lemma_topic_depth_within_host_load(state, statuses, t, h);
        if p[k].depth != 0 {
            let m = index_of(l, h);
            assert(map_of(l).contains_key(h));
            lemma_map_of_index(l, m);
        }
    }
    lemma_sum_dominated(p, l);
}

} // verus!

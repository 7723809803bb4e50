//! One consistent view of the cluster, folded from the status that each host
//! reported in one poll.
use vstd::prelude::*;

use crate::cluster::{ChannelStatus, HostStatus, HostTopicStatus, HostView, NsqState};
use crate::keys::{
    index_of, lemma_map_of_empty, lemma_map_of_index, lemma_map_of_insert, lemma_map_of_update,
    lemma_sorted_unique, map_of, search, sorted_by_key, upsert, Keyed,
};

verus! {

/// `x`, or `u64::MAX` where `x` does not fit: a counter that saturates.
pub open spec fn capped(x: int) -> u64 {
    if x > u64::MAX {
        u64::MAX
    } else if x < 0 {
        0
    } else {
        x as u64
    }
}

/// Host `h` is known and advertises topic `t`.
pub open spec fn advertised(hosts: Map<Seq<char>, HostView>, h: Seq<char>, t: Seq<char>) -> bool {
    hosts.contains_key(h) && hosts[h].1.contains(t)
}

/// A reported topic, with the host that reported it.
pub type TopicRow = (Seq<char>, HostTopicStatus);

/// A reported channel, with the host and the topic it was reported under.
pub type ChannelRow = (Seq<char>, Seq<char>, ChannelStatus);

pub open spec fn host_topic_rows(h: Seq<char>, ts: Seq<HostTopicStatus>) -> Seq<TopicRow> {
    ts.map_values(|t: HostTopicStatus| (h, t))
}

/// Every topic that the hosts reported, host by host, in the order reported.
pub open spec fn topic_rows(hs: Seq<HostStatus>) -> Seq<TopicRow>
    decreases hs.len(),
{
    if hs.len() == 0 {
        Seq::empty()
    } else {
        topic_rows(hs.drop_last()) + host_topic_rows(hs.last().hostname@, hs.last().status@)
    }
}

pub open spec fn topic_channel_rows(h: Seq<char>, t: HostTopicStatus) -> Seq<ChannelRow> {
    t.channels@.map_values(|c: ChannelStatus| (h, t.topic_name@, c))
}

pub open spec fn host_channel_rows(h: Seq<char>, ts: Seq<HostTopicStatus>) -> Seq<ChannelRow>
    decreases ts.len(),
{
    if ts.len() == 0 {
        Seq::empty()
    } else {
        host_channel_rows(h, ts.drop_last()) + topic_channel_rows(h, ts.last())
    }
}

/// Every channel that the hosts reported, host by host and topic by topic.
pub open spec fn channel_rows(hs: Seq<HostStatus>) -> Seq<ChannelRow>
    decreases hs.len(),
{
    if hs.len() == 0 {
        Seq::empty()
    } else {
        channel_rows(hs.drop_last()) + host_channel_rows(hs.last().hostname@, hs.last().status@)
    }
}

/// How many times topic `t` was reported by a host that advertises it.
pub open spec fn topic_reports(hosts: Map<Seq<char>, HostView>, rows: Seq<TopicRow>, t: Seq<char>) -> nat
    decreases rows.len(),
{
    if rows.len() == 0 {
        0
    } else {
        let r = rows.last();
        topic_reports(hosts, rows.drop_last(), t) + if r.1.topic_name@ == t && advertised(
            hosts,
            r.0,
            t,
        ) {
            1nat
        } else {
            0nat
        }
    }
}

/// `(depth, message_count)` of the last report of topic `t` by host `h`, where
/// `h` advertises `t`.
pub open spec fn producer_report(
    hosts: Map<Seq<char>, HostView>,
    rows: Seq<TopicRow>,
    t: Seq<char>,
    h: Seq<char>,
) -> Option<(u64, u64)>
    decreases rows.len(),
{
    if rows.len() == 0 {
        None
    } else {
        let r = rows.last();
        if r.0 == h && r.1.topic_name@ == t && advertised(hosts, h, t) {
            Some((r.1.depth, r.1.message_count))
        } else {
            producer_report(hosts, rows.drop_last(), t, h)
        }
    }
}

/// Over the reports of channel `c` under topic `t` by hosts that advertise `t`:
/// how many there are, and the sums of their depth, in-flight count and
/// message count.
pub open spec fn consumer_totals(
    hosts: Map<Seq<char>, HostView>,
    rows: Seq<ChannelRow>,
    t: Seq<char>,
    c: Seq<char>,
) -> (nat, nat, nat, nat)
    decreases rows.len(),
{
    if rows.len() == 0 {
        (0, 0, 0, 0)
    } else {
        let p = consumer_totals(hosts, rows.drop_last(), t, c);
        let r = rows.last();
        if r.1 == t && r.2.channel_name@ == c && advertised(hosts, r.0, t) {
            (
                p.0 + 1,
                (p.1 + r.2.depth) as nat,
                (p.2 + r.2.in_flight_count) as nat,
                (p.3 + r.2.message_count) as nat,
            )
        } else {
            p
        }
    }
}

/// Over every channel that host `h` reported, under any topic: how many there
/// are, and the sums of their depth and message count.
pub open spec fn host_totals(rows: Seq<ChannelRow>, h: Seq<char>) -> (nat, nat, nat)
    decreases rows.len(),
{
    if rows.len() == 0 {
        (0, 0, 0)
    } else {
        let p = host_totals(rows.drop_last(), h);
        let r = rows.last();
        if r.0 == h {
            (p.0 + 1, (p.1 + r.2.depth) as nat, (p.2 + r.2.message_count) as nat)
        } else {
            p
        }
    }
}

/// A topic of a snapshot: producers by hostname, `(depth, message_count)`, and
/// channels by name, `(depth, in_progress, finish_count)`.
pub type TopicView = (Map<Seq<char>, (u64, u64)>, Map<Seq<char>, (u64, u64, u64)>);

pub open spec fn topic_model(
    hosts: Map<Seq<char>, HostView>,
    trows: Seq<TopicRow>,
    crows: Seq<ChannelRow>,
    t: Seq<char>,
) -> TopicView {
    (
        Map::new(
            |h: Seq<char>| producer_report(hosts, trows, t, h) is Some,
            |h: Seq<char>| producer_report(hosts, trows, t, h)->Some_0,
        ),
        Map::new(
            |c: Seq<char>| consumer_totals(hosts, crows, t, c).0 > 0,
            |c: Seq<char>|
                {
                    let s = consumer_totals(hosts, crows, t, c);
                    (capped(s.1 as int), capped(s.2 as int), capped(s.3 as int))
                },
        ),
    )
}

/// The topics of the snapshot that the rows fold into: each topic that a host
/// advertising it reported.
pub open spec fn snapshot_topics(
    hosts: Map<Seq<char>, HostView>,
    trows: Seq<TopicRow>,
    crows: Seq<ChannelRow>,
) -> Map<Seq<char>, TopicView> {
    Map::new(
        |t: Seq<char>| topic_reports(hosts, trows, t) > 0,
        |t: Seq<char>| topic_model(hosts, trows, crows, t),
    )
}

/// The hostnames of the statuses.
pub open spec fn status_hosts(hs: Seq<HostStatus>) -> Set<Seq<char>> {
    Set::new(|h: Seq<char>| exists|i: int| 0 <= i < hs.len() && #[trigger] hs[i].hostname@ == h)
}

/// The per-host load of the snapshot: each host among `names`, with
/// `(depth, message_count)` summed over all its channels; `(0, 0)` for a host
/// that reported no channel.
pub open spec fn snapshot_producers(names: Set<Seq<char>>, crows: Seq<ChannelRow>) -> Map<
    Seq<char>,
    (u64, u64),
> {
    Map::new(
        |h: Seq<char>| names.contains(h),
        |h: Seq<char>|
            {
                let s = host_totals(crows, h);
                (capped(s.1 as int), capped(s.2 as int))
            },
    )
}

pub struct NsqTopicProducerSnapshot {
    pub hostname: String,
    pub message_count: u64,
    pub depth: u64,
}

impl Keyed for NsqTopicProducerSnapshot {
    type Value = (u64, u64);

    open spec fn key_view(&self) -> Seq<char> {
        self.hostname@
    }

    open spec fn value_view(&self) -> (u64, u64) {
        (self.depth, self.message_count)
    }

    fn key(&self) -> (r: &String) {
        &self.hostname
    }
}

impl NsqTopicProducerSnapshot {
    pub fn new(hostname: String, message_count: u64, depth: u64) -> (r: NsqTopicProducerSnapshot)
        ensures
            r.hostname@ == hostname@,
            r.message_count == message_count,
            r.depth == depth,
    {
        NsqTopicProducerSnapshot { hostname, message_count, depth }
    }
}

pub struct NsqTopicConsumerSnapshot {
    pub channel_name: String,
    pub finish_count: u64,
    pub in_progress: u64,
    pub depth: u64,
}

impl Keyed for NsqTopicConsumerSnapshot {
    type Value = (u64, u64, u64);

    open spec fn key_view(&self) -> Seq<char> {
        self.channel_name@
    }

    open spec fn value_view(&self) -> (u64, u64, u64) {
        (self.depth, self.in_progress, self.finish_count)
    }

    fn key(&self) -> (r: &String) {
        &self.channel_name
    }
}

impl NsqTopicConsumerSnapshot {
    pub fn new(channel_name: String) -> (r: NsqTopicConsumerSnapshot)
        ensures
            r.channel_name@ == channel_name@,
            r.finish_count == 0,
            r.in_progress == 0,
            r.depth == 0,
    {
        NsqTopicConsumerSnapshot { channel_name, finish_count: 0, in_progress: 0, depth: 0 }
    }

    /// Adds one host's report of the channel to the cluster-wide counters.
    pub fn merge(&mut self, channel_status: &ChannelStatus)
        ensures
            final(self).channel_name == old(self).channel_name,
            final(self).depth == capped(old(self).depth + channel_status.depth),
            final(self).in_progress == capped(old(self).in_progress + channel_status.in_flight_count),
            final(self).finish_count == capped(old(self).finish_count + channel_status.message_count),
    {
        self.depth = self.depth.saturating_add(channel_status.depth);
        self.in_progress = self.in_progress.saturating_add(channel_status.in_flight_count);
        self.finish_count = self.finish_count.saturating_add(channel_status.message_count);
    }
}

pub struct NsqTopicProducerAggregate {
    pub hostname: String,
    pub depth: u64,
    pub message_count: u64,
}

impl Keyed for NsqTopicProducerAggregate {
    type Value = (u64, u64);

    open spec fn key_view(&self) -> Seq<char> {
        self.hostname@
    }

    open spec fn value_view(&self) -> (u64, u64) {
        (self.depth, self.message_count)
    }

    fn key(&self) -> (r: &String) {
        &self.hostname
    }
}

impl NsqTopicProducerAggregate {
    /// Adds one channel's counters to the host's load.
    pub fn merge(&mut self, status: &ChannelStatus)
        ensures
            final(self).hostname == old(self).hostname,
            final(self).depth == capped(old(self).depth + status.depth),
            final(self).message_count == capped(old(self).message_count + status.message_count),
    {
        self.depth = self.depth.saturating_add(status.depth);
        self.message_count = self.message_count.saturating_add(status.message_count);
    }
}

pub struct NsqTopicSnapshot {
    pub name: String,
    pub consumers: Vec<NsqTopicConsumerSnapshot>,
    pub producers: Vec<NsqTopicProducerSnapshot>,
}

impl Keyed for NsqTopicSnapshot {
    type Value = TopicView;

    open spec fn key_view(&self) -> Seq<char> {
        self.name@
    }

    open spec fn value_view(&self) -> TopicView {
        (map_of(self.producers@), map_of(self.consumers@))
    }

    fn key(&self) -> (r: &String) {
        &self.name
    }
}

impl NsqTopicSnapshot {
    pub open spec fn wf(&self) -> bool {
        sorted_by_key(self.producers@) && sorted_by_key(self.consumers@)
    }

    pub fn new(name: String) -> (r: NsqTopicSnapshot)
        ensures
            r.wf(),
            r.name@ == name@,
            r.value_view() == (Map::<Seq<char>, (u64, u64)>::empty(), Map::<
                Seq<char>,
                (u64, u64, u64),
            >::empty()),
    {
        let r = NsqTopicSnapshot { name, consumers: Vec::new(), producers: Vec::new() };
        proof {
            lemma_map_of_empty(r.producers@);
            lemma_map_of_empty(r.consumers@);
        }
        r
    }
}

pub struct NsqSnapshot {
    /// When the last host's response was folded in, in milliseconds since the epoch.
    pub pull_finished: i64,
    pub topics: Vec<NsqTopicSnapshot>,
    pub producers: Vec<NsqTopicProducerAggregate>,
}

impl NsqSnapshot {
    pub open spec fn wf(&self) -> bool {
        &&& sorted_by_key(self.topics@)
        &&& forall|i: int| 0 <= i < self.topics@.len() ==> (#[trigger] self.topics@[i]).wf()
        &&& sorted_by_key(self.producers@)
    }

    pub open spec fn topics_view(&self) -> Map<Seq<char>, TopicView> {
        map_of(self.topics@)
    }

    pub open spec fn producers_view(&self) -> Map<Seq<char>, (u64, u64)> {
        map_of(self.producers@)
    }
}

/// Every channel counted in the snapshot belongs to a topic that the snapshot holds.
pub open spec fn channels_follow_topics(
    hosts: Map<Seq<char>, HostView>,
    trows: Seq<TopicRow>,
    crows: Seq<ChannelRow>,
) -> bool {
    forall|t: Seq<char>, c: Seq<char>|
        #[trigger] consumer_totals(hosts, crows, t, c).0 > 0 ==> topic_reports(hosts, trows, t) > 0
}

/// `snap` is the snapshot that the rows fold into.
pub open spec fn folds_to(
    snap: NsqSnapshot,
    hosts: Map<Seq<char>, HostView>,
    names: Set<Seq<char>>,
    trows: Seq<TopicRow>,
    crows: Seq<ChannelRow>,
) -> bool {
    &&& snap.wf()
    &&& snap.topics_view() == snapshot_topics(hosts, trows, crows)
    &&& snap.producers_view() == snapshot_producers(names, crows)
    &&& channels_follow_topics(hosts, trows, crows)
}

proof fn lemma_host_rows_host(h: Seq<char>, tss: Seq<HostTopicStatus>)
    ensures
        forall|k: int|
            0 <= k < host_channel_rows(h, tss).len() ==> (#[trigger] host_channel_rows(h, tss)[k]).0
                == h,
    decreases tss.len(),
{
    if tss.len() > 0 {
        lemma_host_rows_host(h, tss.drop_last());
        let a = host_channel_rows(h, tss.drop_last());
        let b = topic_channel_rows(h, tss.last());
        assert forall|k: int| 0 <= k < (a + b).len() implies (#[trigger] (a + b)[k]).0 == h by {
            if k >= a.len() {
                assert((a + b)[k] == b[k - a.len()]);
            }
        }
    }
}

/// Every channel row comes from one of the statuses' hosts.
proof fn lemma_rows_hosts(hs: Seq<HostStatus>)
    ensures
        forall|k: int|
            0 <= k < channel_rows(hs).len() ==> status_hosts(hs).contains(
                (#[trigger] channel_rows(hs)[k]).0,
            ),
    decreases hs.len(),
{
    if hs.len() > 0 {
        let init = hs.drop_last();
        lemma_rows_hosts(init);
        let last = hs.last();
        lemma_host_rows_host(last.hostname@, last.status@);
        let a = channel_rows(init);
        let b = host_channel_rows(last.hostname@, last.status@);
        assert forall|k: int| 0 <= k < (a + b).len() implies status_hosts(hs).contains(
            (#[trigger] (a + b)[k]).0,
        ) by {
            if k < a.len() {
                let h = a[k].0;
                assert(status_hosts(init).contains(h));
                let w = choose|w: int| 0 <= w < init.len() && #[trigger] init[w].hostname@ == h;
                assert(hs[w] == init[w]);
            } else {
                assert((a + b)[k] == b[k - a.len()]);
                assert(hs[hs.len() - 1].hostname@ == last.hostname@);
            }
        }
    }
}

proof fn lemma_totals_witness(rows: Seq<ChannelRow>, h: Seq<char>)
    requires
        host_totals(rows, h).0 > 0,
    ensures
        exists|k: int| 0 <= k < rows.len() && (#[trigger] rows[k]).0 == h,
    decreases rows.len(),
{
    if rows.last().0 != h {
        lemma_totals_witness(rows.drop_last(), h);
        let k = choose|k: int| 0 <= k < rows.drop_last().len() && (#[trigger] rows.drop_last()[k]).0 == h;
        assert(rows[k] == rows.drop_last()[k]);
    } else {
        assert(rows[rows.len() - 1].0 == h);
    }
}

proof fn lemma_capped_add(a: nat, d: u64)
    ensures
        capped(capped(a as int) + d) == capped(a + d),
{
}

proof fn lemma_consumer_totals_empty(
    hosts: Map<Seq<char>, HostView>,
    rows: Seq<ChannelRow>,
    t: Seq<char>,
    c: Seq<char>,
)
    requires
        consumer_totals(hosts, rows, t, c).0 == 0,
    ensures
        consumer_totals(hosts, rows, t, c) == (0nat, 0nat, 0nat, 0nat),
    decreases rows.len(),
{
    if rows.len() > 0 {
        lemma_consumer_totals_empty(hosts, rows.drop_last(), t, c);
    }
}

pub proof fn lemma_host_totals_empty(rows: Seq<ChannelRow>, h: Seq<char>)
    requires
        host_totals(rows, h).0 == 0,
    ensures
        host_totals(rows, h) == (0nat, 0nat, 0nat),
    decreases rows.len(),
{
    if rows.len() > 0 {
        lemma_host_totals_empty(rows.drop_last(), h);
    }
}

proof fn lemma_report_counted(hosts: Map<Seq<char>, HostView>, rows: Seq<TopicRow>, t: Seq<char>, h: Seq<char>)
    requires
        producer_report(hosts, rows, t, h) is Some,
    ensures
        topic_reports(hosts, rows, t) > 0,
    decreases rows.len(),
{
    if rows.len() > 0 {
        let r = rows.last();
        if !(r.0 == h && r.1.topic_name@ == t && advertised(hosts, h, t)) {
            lemma_report_counted(hosts, rows.drop_last(), t, h);
        }
    }
}

proof fn lemma_push_topic_row(
    hosts: Map<Seq<char>, HostView>,
    trows: Seq<TopicRow>,
    crows: Seq<ChannelRow>,
    x: TopicRow,
)
    requires
        channels_follow_topics(hosts, trows, crows),
    ensures
        ({
            let t = x.1.topic_name@;
            let m = topic_model(hosts, trows, crows, t);
            let old_t = if snapshot_topics(hosts, trows, crows).contains_key(t) {
                snapshot_topics(hosts, trows, crows)[t]
            } else {
                (Map::empty(), Map::empty())
            };
            &&& m == old_t
            &&& advertised(hosts, x.0, t) ==> snapshot_topics(hosts, trows.push(x), crows)
                == snapshot_topics(hosts, trows, crows).insert(
                t,
                (old_t.0.insert(x.0, (x.1.depth, x.1.message_count)), old_t.1),
            )
            &&& !advertised(hosts, x.0, t) ==> snapshot_topics(hosts, trows.push(x), crows)
                == snapshot_topics(hosts, trows, crows)
        }),
        channels_follow_topics(hosts, trows.push(x), crows),
{
    let t = x.1.topic_name@;
    let rows2 = trows.push(x);
    assert(rows2.drop_last() =~= trows);
    let m = topic_model(hosts, trows, crows, t);
    if !(topic_reports(hosts, trows, t) > 0) {
        assert(m.0 =~= Map::empty()) by {
            assert forall|h: Seq<char>| !(#[trigger] producer_report(hosts, trows, t, h) is Some) by {
                if producer_report(hosts, trows, t, h) is Some {
                    lemma_report_counted(hosts, trows, t, h);
                }
            }
        }
        assert(m.1 =~= Map::empty()) by {
            assert forall|c: Seq<char>| !(#[trigger] consumer_totals(hosts, crows, t, c).0 > 0) by {
            }
        }
    }
    let before = snapshot_topics(hosts, trows, crows);
    let after = snapshot_topics(hosts, rows2, crows);
    assert forall|t2: Seq<char>, h: Seq<char>| #[trigger] producer_report(hosts, rows2, t2, h) == if h
        == x.0 && t2 == t && advertised(hosts, h, t) {
        Some((x.1.depth, x.1.message_count))
    } else {
        producer_report(hosts, trows, t2, h)
    } by {}
    assert forall|t2: Seq<char>| #[trigger] topic_reports(hosts, rows2, t2) == topic_reports(
        hosts,
        trows,
        t2,
    ) + if t2 == t && advertised(hosts, x.0, t) {
        1nat
    } else {
        0nat
    } by {}
    assert forall|t2: Seq<char>| t2 != t || !advertised(hosts, x.0, t) implies #[trigger] topic_model(
        hosts,
        rows2,
        crows,
        t2,
    ) == topic_model(hosts, trows, crows, t2) by {
        assert(topic_model(hosts, rows2, crows, t2).0 =~= topic_model(hosts, trows, crows, t2).0);
    }
    if advertised(hosts, x.0, t) {
        assert(topic_model(hosts, rows2, crows, t).0 =~= m.0.insert(
            x.0,
            (x.1.depth, x.1.message_count),
        ));
        assert(after =~= before.insert(t, (m.0.insert(x.0, (x.1.depth, x.1.message_count)), m.1)));
    } else {
        assert(after =~= before);
    }
}

proof fn lemma_push_channel_row(
    hosts: Map<Seq<char>, HostView>,
    names: Set<Seq<char>>,
    trows: Seq<TopicRow>,
    crows: Seq<ChannelRow>,
    x: ChannelRow,
)
    requires
        names.contains(x.0),
        channels_follow_topics(hosts, trows, crows),
        advertised(hosts, x.0, x.1) ==> topic_reports(hosts, trows, x.1) > 0,
    ensures
        ({
            let t = x.1;
            let c = x.2.channel_name@;
            let before = snapshot_topics(hosts, trows, crows);
            let tot = consumer_totals(hosts, crows, t, c);
            let merged = (
                capped(tot.1 + x.2.depth),
                capped(tot.2 + x.2.in_flight_count),
                capped(tot.3 + x.2.message_count),
            );
            &&& advertised(hosts, x.0, t) ==> before.contains_key(t)
            &&& advertised(hosts, x.0, t) ==> (before[t].1.contains_key(c) <==> tot.0 > 0)
            &&& advertised(hosts, x.0, t) ==> (tot.0 > 0 ==> before[t].1[c] == (
                capped(tot.1 as int),
                capped(tot.2 as int),
                capped(tot.3 as int),
            ))
            &&& advertised(hosts, x.0, t) ==> snapshot_topics(hosts, trows, crows.push(x))
                == before.insert(t, (before[t].0, before[t].1.insert(c, merged)))
            &&& !advertised(hosts, x.0, t) ==> snapshot_topics(hosts, trows, crows.push(x))
                == before
        }),
        ({
            let ht = host_totals(crows, x.0);
            &&& snapshot_producers(names, crows).contains_key(x.0)
            &&& snapshot_producers(names, crows)[x.0] == (
                capped(ht.1 as int),
                capped(ht.2 as int),
            )
            &&& snapshot_producers(names, crows.push(x)) == snapshot_producers(names, crows).insert(
                x.0,
                (capped(ht.1 + x.2.depth), capped(ht.2 + x.2.message_count)),
            )
        }),
        channels_follow_topics(hosts, trows, crows.push(x)),
{
    let t = x.1;
    let c = x.2.channel_name@;
    let rows2 = crows.push(x);
    assert(rows2.drop_last() =~= crows);
    let before = snapshot_topics(hosts, trows, crows);
    let after = snapshot_topics(hosts, trows, rows2);
    assert forall|t2: Seq<char>, c2: Seq<char>| #[trigger] consumer_totals(hosts, rows2, t2, c2)
        == if t2 == t && c2 == c && advertised(hosts, x.0, t) {
        let p = consumer_totals(hosts, crows, t2, c2);
        (
            p.0 + 1,
            (p.1 + x.2.depth) as nat,
            (p.2 + x.2.in_flight_count) as nat,
            (p.3 + x.2.message_count) as nat,
        )
    } else {
        consumer_totals(hosts, crows, t2, c2)
    } by {}
    assert forall|h: Seq<char>| #[trigger] host_totals(rows2, h) == if h == x.0 {
        let p = host_totals(crows, h);
        (p.0 + 1, (p.1 + x.2.depth) as nat, (p.2 + x.2.message_count) as nat)
    } else {
        host_totals(crows, h)
    } by {}
    assert forall|t2: Seq<char>| t2 != t || !advertised(hosts, x.0, t) implies #[trigger] topic_model(
        hosts,
        trows,
        rows2,
        t2,
    ) == topic_model(hosts, trows, crows, t2) by {
        assert(topic_model(hosts, trows, rows2, t2).1 =~= topic_model(hosts, trows, crows, t2).1);
    }
    if advertised(hosts, x.0, t) {
        let tot = consumer_totals(hosts, crows, t, c);
        let merged = (
            capped(tot.1 + x.2.depth),
            capped(tot.2 + x.2.in_flight_count),
            capped(tot.3 + x.2.message_count),
        );
        assert(topic_model(hosts, trows, rows2, t).1 =~= before[t].1.insert(c, merged));
        assert(topic_model(hosts, trows, rows2, t).0 =~= before[t].0);
        assert(after =~= before.insert(t, (before[t].0, before[t].1.insert(c, merged))));
    } else {
        assert(after =~= before);
    }
    let ht = host_totals(crows, x.0);
    assert(snapshot_producers(names, rows2) =~= snapshot_producers(names, crows).insert(
        x.0,
        (capped(ht.1 + x.2.depth), capped(ht.2 + x.2.message_count)),
    ));
}

/// The value of topic `name` in a table of topics, or an empty topic.
pub open spec fn topic_or_empty(m: Map<Seq<char>, TopicView>, name: Seq<char>) -> TopicView {
    if m.contains_key(name) {
        m[name]
    } else {
        (Map::empty(), Map::empty())
    }
}

pub open spec fn all_wf(topics: Seq<NsqTopicSnapshot>) -> bool {
    forall|i: int| 0 <= i < topics.len() ==> (#[trigger] topics[i]).wf()
}

/// Puts topic `name` at an index of the table, creating it empty where it is missing.
fn topic_index(topics: &mut Vec<NsqTopicSnapshot>, name: &String) -> (idx: usize)
    requires
        sorted_by_key(old(topics)@),
        all_wf(old(topics)@),
    ensures
        sorted_by_key(final(topics)@),
        all_wf(final(topics)@),
        idx < final(topics)@.len(),
        final(topics)@[idx as int].name@ == name@,
        map_of(final(topics)@) == map_of(old(topics)@).insert(
            name@,
            topic_or_empty(map_of(old(topics)@), name@),
        ),
{
    match search(topics, name) {
        Ok(i) => {
            proof {
                lemma_map_of_index(topics@, i as int);
                assert(map_of(topics@) =~= map_of(topics@).insert(
                    name@,
                    topic_or_empty(map_of(topics@), name@),
                ));
            }
            i
        },
        Err(i) => {
            let fresh = NsqTopicSnapshot::new(name.clone());
            proof {
                lemma_map_of_insert(topics@, i as int, fresh);
                topics@.insert_ensures(i as int, fresh);
            }
            let ghost before = topics@;
            topics.insert(i, fresh);
            proof {
                assert forall|j: int| 0 <= j < topics@.len() implies (#[trigger] topics@[j]).wf() by {
                    if j < i {
                        assert(topics@[j] == before[j]);
                    } else if j > i {
                        assert(topics@[j] == before[j - 1]);
                    }
                }
            }
            i
        },
    }
}

/// Records producer `p` under topic `name`, creating the topic where it is missing.
fn put_producer(topics: &mut Vec<NsqTopicSnapshot>, name: &String, p: NsqTopicProducerSnapshot)
    requires
        sorted_by_key(old(topics)@),
        all_wf(old(topics)@),
    ensures
        sorted_by_key(final(topics)@),
        all_wf(final(topics)@),
        map_of(final(topics)@) == map_of(old(topics)@).insert(
            name@,
            (
                topic_or_empty(map_of(old(topics)@), name@).0.insert(
                    p.hostname@,
                    (p.depth, p.message_count),
                ),
                topic_or_empty(map_of(old(topics)@), name@).1,
            ),
        ),
{
    let ghost m0 = map_of(topics@);
    let idx = topic_index(topics, name);
    proof {
        lemma_map_of_index(topics@, idx as int);
    }
    let mut topic = NsqTopicSnapshot::new(name.clone());
    let ghost held = topic;
    let ghost s1 = topics@;
    topics.set_and_swap(idx, &mut topic);
    proof {
        lemma_map_of_update(s1, idx as int, held);
        assert(topic.wf());
    }
    upsert(&mut topic.producers, p);
    let ghost s2 = topics@;
    proof {
        lemma_map_of_update(s2, idx as int, topic);
    }
    topics.set(idx, topic);
    proof {
        assert forall|j: int| 0 <= j < topics@.len() implies (#[trigger] topics@[j]).wf() by {
            if j != idx {
                assert(topics@[j] == s1[j]);
            }
        }
        assert(map_of(topics@) =~= m0.insert(
            name@,
            (topic_or_empty(m0, name@).0.insert(p.hostname@, (p.depth, p.message_count)), topic_or_empty(m0, name@).1),
        ));
    }
}

/// Channel counters after adding report `ch` to those held (or to none).
pub open spec fn merged_channel(held: Map<Seq<char>, (u64, u64, u64)>, ch: ChannelStatus) -> (u64, u64, u64) {
    let c = ch.channel_name@;
    if held.contains_key(c) {
        (
            capped(held[c].0 + ch.depth),
            capped(held[c].1 + ch.in_flight_count),
            capped(held[c].2 + ch.message_count),
        )
    } else {
        (ch.depth, ch.in_flight_count, ch.message_count)
    }
}

/// Adds report `ch` to its channel under topic `name`.
fn merge_consumer(topics: &mut Vec<NsqTopicSnapshot>, name: &String, ch: &ChannelStatus)
    requires
        sorted_by_key(old(topics)@),
        all_wf(old(topics)@),
        map_of(old(topics)@).contains_key(name@),
    ensures
        sorted_by_key(final(topics)@),
        all_wf(final(topics)@),
        map_of(final(topics)@) == map_of(old(topics)@).insert(
            name@,
            (
                map_of(old(topics)@)[name@].0,
                map_of(old(topics)@)[name@].1.insert(
                    ch.channel_name@,
                    merged_channel(map_of(old(topics)@)[name@].1, *ch),
                ),
            ),
        ),
{
    let ghost m0 = map_of(topics@);
    let idx = topic_index(topics, name);
    proof {
        assert(map_of(topics@) =~= m0);
        lemma_map_of_index(topics@, idx as int);
    }
    let mut topic = NsqTopicSnapshot::new(name.clone());
    let ghost held = topic;
    let ghost s1 = topics@;
    topics.set_and_swap(idx, &mut topic);
    proof {
        lemma_map_of_update(s1, idx as int, held);
        assert(topic.wf());
    }
    let entry = match search(&topic.consumers, &ch.channel_name) {
        Ok(j) => {
            proof {
                lemma_map_of_index(topic.consumers@, j as int);
            }
            let cur = &topic.consumers[j];
            let mut e = NsqTopicConsumerSnapshot {
                channel_name: cur.channel_name.clone(),
                finish_count: cur.finish_count,
                in_progress: cur.in_progress,
                depth: cur.depth,
            };
            e.merge(ch);
            e
        },
        Err(_) => {
            let mut e = NsqTopicConsumerSnapshot::new(ch.channel_name.clone());
            e.merge(ch);
            e
        },
    };
    upsert(&mut topic.consumers, entry);
    let ghost s2 = topics@;
    proof {
        lemma_map_of_update(s2, idx as int, topic);
    }
    topics.set(idx, topic);
    proof {
        assert forall|j: int| 0 <= j < topics@.len() implies (#[trigger] topics@[j]).wf() by {
            if j != idx {
                assert(topics@[j] == s1[j]);
            }
        }
        assert(map_of(topics@) =~= m0.insert(
            name@,
            (m0[name@].0, m0[name@].1.insert(ch.channel_name@, merged_channel(m0[name@].1, *ch))),
        ));
    }
}

/// Host load after adding report `ch` to the load held (or to none).
pub open spec fn merged_load(held: Map<Seq<char>, (u64, u64)>, h: Seq<char>, ch: ChannelStatus) -> (u64, u64) {
    if held.contains_key(h) {
        (capped(held[h].0 + ch.depth), capped(held[h].1 + ch.message_count))
    } else {
        (ch.depth, ch.message_count)
    }
}

/// Puts host `h` in the load table with `(0, 0)`, where it is missing.
fn ensure_host_load(producers: &mut Vec<NsqTopicProducerAggregate>, h: &String)
    requires
        sorted_by_key(old(producers)@),
    ensures
        sorted_by_key(final(producers)@),
        map_of(final(producers)@) == if map_of(old(producers)@).contains_key(h@) {
            map_of(old(producers)@)
        } else {
            map_of(old(producers)@).insert(h@, (0u64, 0u64))
        },
{
    match search(producers, h) {
        Ok(_) => {},
        Err(_) => {
            let e = NsqTopicProducerAggregate { hostname: h.clone(), depth: 0, message_count: 0 };
            upsert(producers, e);
        },
    }
}

/// Adds the counters of report `ch` to the load of host `h`.
fn merge_host_load(producers: &mut Vec<NsqTopicProducerAggregate>, h: &String, ch: &ChannelStatus)
    requires
        sorted_by_key(old(producers)@),
    ensures
        sorted_by_key(final(producers)@),
        map_of(final(producers)@) == map_of(old(producers)@).insert(
            h@,
            merged_load(map_of(old(producers)@), h@, *ch),
        ),
{
    let mut e = match search(producers, h) {
        Ok(i) => {
            proof {
                lemma_map_of_index(producers@, i as int);
            }
            let cur = &producers[i];
            NsqTopicProducerAggregate {
                hostname: cur.hostname.clone(),
                depth: cur.depth,
                message_count: cur.message_count,
            }
        },
        Err(_) => NsqTopicProducerAggregate { hostname: h.clone(), depth: 0, message_count: 0 },
    };
    e.merge(ch);
    upsert(producers, e);
}

impl NsqState {
    /// Folds the status that each host reported into one snapshot, taken at
    /// `pull_finished`. A topic counts for a host only where the host advertises
    /// it; every channel a host reports counts for the host's load, and every
    /// host in `statuses` has a load entry, zero where it reported no channel.
    pub fn make_snapshot(&self, pull_finished: i64, statuses: Vec<HostStatus>) -> (r: NsqSnapshot)
        requires
            self.wf(),
        ensures
            r.wf(),
            r.pull_finished == pull_finished,
            r.topics_view() == snapshot_topics(self@, topic_rows(statuses@), channel_rows(statuses@)),
            r.producers_view() == snapshot_producers(
                status_hosts(statuses@),
                channel_rows(statuses@),
            ),
    {
        let mut snap = NsqSnapshot { pull_finished, topics: Vec::new(), producers: Vec::new() };
        let ghost hosts = self@;
        let ghost mut trows: Seq<TopicRow> = Seq::empty();
        let ghost mut crows: Seq<ChannelRow> = Seq::empty();
        proof {
            lemma_map_of_empty(snap.topics@);
            lemma_map_of_empty(snap.producers@);
            assert(snapshot_topics(hosts, trows, crows) =~= Map::empty());
            assert(statuses@.take(0) =~= Seq::<HostStatus>::empty());
            assert(status_hosts(statuses@.take(0)) =~= Set::empty());
            assert(snapshot_producers(status_hosts(statuses@.take(0)), crows) =~= Map::empty());
        }
        let mut i: usize = 0;
        while i < statuses.len()
            invariant
                self.wf(),
                hosts == self@,
                i <= statuses@.len(),
                trows == topic_rows(statuses@.take(i as int)),
                crows == channel_rows(statuses@.take(i as int)),
                folds_to(snap, hosts, status_hosts(statuses@.take(i as int)), trows, crows),
                snap.pull_finished == pull_finished,
            decreases statuses@.len() - i,
        {
            let hs = &statuses[i];
            let ghost h = hs.hostname@;
            let ghost names = status_hosts(statuses@.take(i + 1));
            proof {
                assert(statuses@.take(i + 1)[i as int] == *hs);
                assert(names =~= status_hosts(statuses@.take(i as int)).insert(h)) by {
                    assert forall|k: Seq<char>| names.contains(k) <==> (status_hosts(
                        statuses@.take(i as int),
                    ).contains(k) || k == h) by {
                        if names.contains(k) {
                            let a = choose|a: int|
                                0 <= a < i + 1 && #[trigger] statuses@.take(i + 1)[a].hostname@ == k;
                            if a < i {
                                assert(statuses@.take(i as int)[a] == statuses@.take(i + 1)[a]);
                            }
                        }
                        if status_hosts(statuses@.take(i as int)).contains(k) {
                            let a = choose|a: int|
                                0 <= a < i && #[trigger] statuses@.take(i as int)[a].hostname@ == k;
                            assert(statuses@.take(i as int)[a] == statuses@.take(i + 1)[a]);
                        }
                    }
                }
                let ht = host_totals(crows, h);
                if !status_hosts(statuses@.take(i as int)).contains(h) {
                    if ht.0 > 0 {
                        lemma_totals_witness(crows, h);
                        lemma_rows_hosts(statuses@.take(i as int));
                    }
                    lemma_host_totals_empty(crows, h);
                }
            }
            ensure_host_load(&mut snap.producers, &hs.hostname);
            proof {
                assert(snap.producers_view() =~= snapshot_producers(names, crows));
            }
            let ghost ts_all = hs.status@;
            let ghost trows0 = trows;
            let ghost crows0 = crows;
            proof {
                assert(ts_all.take(0) =~= Seq::<HostTopicStatus>::empty());
                assert(host_topic_rows(h, ts_all.take(0)) =~= Seq::<TopicRow>::empty());
                assert(trows =~= trows0 + host_topic_rows(h, ts_all.take(0)));
                assert(crows =~= crows0 + host_channel_rows(h, ts_all.take(0)));
            }
            let mut j: usize = 0;
            while j < hs.status.len()
                invariant
                    self.wf(),
                    hosts == self@,
                    hs == statuses@[i as int],
                    h == hs.hostname@,
                    ts_all == hs.status@,
                    j <= ts_all.len(),
                    trows == trows0 + host_topic_rows(h, ts_all.take(j as int)),
                    crows == crows0 + host_channel_rows(h, ts_all.take(j as int)),
                    names == status_hosts(statuses@.take(i + 1)),
                    names.contains(h),
                    folds_to(snap, hosts, names, trows, crows),
                    snap.pull_finished == pull_finished,
                decreases ts_all.len() - j,
            {
                let ts = &hs.status[j];
                let ghost t = ts.topic_name@;
                let adv = self.advertises_topic(&hs.hostname, &ts.topic_name);
                let ghost x = (h, *ts);
                proof {
                    lemma_push_topic_row(hosts, trows, crows, x);
                    assert(trows.push(x).drop_last() =~= trows);
                }
                if adv {
                    put_producer(
                        &mut snap.topics,
                        &ts.topic_name,
                        NsqTopicProducerSnapshot::new(hs.hostname.clone(), ts.message_count, ts.depth),
                    );
                }
                proof {
                    assert(ts_all.take(j + 1) =~= ts_all.take(j as int).push(*ts));
                    assert(host_topic_rows(h, ts_all.take(j + 1)) =~= host_topic_rows(
                        h,
                        ts_all.take(j as int),
                    ).push(x));
                    trows = trows.push(x);
                    assert(trows =~= trows0 + host_topic_rows(h, ts_all.take(j + 1)));
                }
                let ghost crows1 = crows;
                let ghost chs = topic_channel_rows(h, *ts);
                proof {
                    assert(chs.take(0) =~= Seq::<ChannelRow>::empty());
                    assert(crows =~= crows1 + chs.take(0));
                }
                let mut k: usize = 0;
                while k < ts.channels.len()
                    invariant
                        self.wf(),
                        hosts == self@,
                        h == hs.hostname@,
                        ts == hs.status@[j as int],
                        t == ts.topic_name@,
                        adv == advertised(hosts, h, t),
                        adv ==> topic_reports(hosts, trows, t) > 0,
                        chs == topic_channel_rows(h, *ts),
                        k <= ts.channels@.len(),
                        crows == crows1 + chs.take(k as int),
                        names.contains(h),
                        folds_to(snap, hosts, names, trows, crows),
                        snap.pull_finished == pull_finished,
                    decreases ts.channels@.len() - k,
                {
                    let ch = &ts.channels[k];
                    let ghost y = (h, t, *ch);
                    proof {
                        lemma_push_channel_row(hosts, names, trows, crows, y);
                    }
                    if adv {
                        merge_consumer(&mut snap.topics, &ts.topic_name, ch);
                        proof {
                            let tot = consumer_totals(hosts, crows, t, ch.channel_name@);
                            if tot.0 == 0 {
                                lemma_consumer_totals_empty(hosts, crows, t, ch.channel_name@);
                            }
                            lemma_capped_add(tot.1, ch.depth);
                            lemma_capped_add(tot.2, ch.in_flight_count);
                            lemma_capped_add(tot.3, ch.message_count);
                        }
                    }
                    merge_host_load(&mut snap.producers, &hs.hostname, ch);
                    proof {
                        let ht = host_totals(crows, h);
                        if ht.0 == 0 {
                            lemma_host_totals_empty(crows, h);
                        }
                        lemma_capped_add(ht.1, ch.depth);
                        lemma_capped_add(ht.2, ch.message_count);
                        assert(chs.take(k + 1) =~= chs.take(k as int).push(y));
                        crows = crows.push(y);
                        assert(crows =~= crows1 + chs.take(k + 1));
                        assert(snap.topics_view() =~= snapshot_topics(hosts, trows, crows));
                        assert(snap.producers_view() =~= snapshot_producers(names, crows));
                    }
                    k = k + 1;
                }
                proof {
                    assert(chs.take(chs.len() as int) =~= chs);
                    assert(ts_all.take(j + 1).drop_last() =~= ts_all.take(j as int));
                    assert(host_channel_rows(h, ts_all.take(j + 1)) =~= host_channel_rows(
                        h,
                        ts_all.take(j as int),
                    ) + chs);
                    assert(crows =~= crows0 + host_channel_rows(h, ts_all.take(j + 1)));
                }
                j = j + 1;
            }
            proof {
                assert(ts_all.take(ts_all.len() as int) =~= ts_all);
                assert(statuses@.take(i + 1).drop_last() =~= statuses@.take(i as int));
                assert(statuses@.take(i + 1).last() == *hs);
            }
            i = i + 1;
        }
        proof {
            assert(statuses@.take(statuses@.len() as int) =~= statuses@);
        }
        snap
    }
}

/// The statuses of the hosts whose poll succeeded, in order.
pub open spec fn reported(polls: Seq<Option<HostStatus>>) -> Seq<HostStatus>
    decreases polls.len(),
{
    if polls.len() == 0 {
        Seq::empty()
    } else if polls.last() is Some {
        reported(polls.drop_last()).push(polls.last()->Some_0)
    } else {
        reported(polls.drop_last())
    }
}

/// Keeps the statuses of the hosts whose poll succeeded; a failed poll leaves
/// its host out of this tick.
pub fn successful_polls(polls: Vec<Option<HostStatus>>) -> (r: Vec<HostStatus>)
    ensures
        r@ == reported(polls@),
{
    let ghost all = polls@;
    let mut rest = polls;
    let mut r: Vec<HostStatus> = Vec::new();
    let ghost mut k: int = 0;
    proof {
        assert(all.take(0) =~= Seq::<Option<HostStatus>>::empty());
        assert(rest@ =~= all.subrange(0, all.len() as int));
    }
    while rest.len() > 0
        invariant
            0 <= k <= all.len(),
            rest@ == all.subrange(k, all.len() as int),
            r@ == reported(all.take(k)),
        decreases rest@.len(),
    {
        let poll = rest.remove(0);
        proof {
            assert(poll == all[k]);
            assert(all.take(k + 1).drop_last() =~= all.take(k));
            assert(all.take(k + 1).last() == poll);
            assert(rest@ =~= all.subrange(k + 1, all.len() as int));
            k = k + 1;
        }
        match poll {
            Some(status) => r.push(status),
            None => {},
        }
    }
    proof {
        assert(all.take(all.len() as int) =~= all);
    }
    r
}

impl NsqState {
    /// One tick: the snapshot of the hosts whose poll succeeded, taken at
    /// `pull_finished` (milliseconds since the epoch).
    pub fn update_status(&self, pull_finished: i64, polls: Vec<Option<HostStatus>>) -> (r: NsqSnapshot)
        requires
            self.wf(),
        ensures
            r.wf(),
            r.pull_finished == pull_finished,
            r.topics_view() == snapshot_topics(
                self@,
                topic_rows(reported(polls@)),
                channel_rows(reported(polls@)),
            ),
            r.producers_view() == snapshot_producers(
                status_hosts(reported(polls@)),
                channel_rows(reported(polls@)),
            ),
    {
        let statuses = successful_polls(polls);
        self.make_snapshot(pull_finished, statuses)
    }
}

impl NsqSnapshot {
    /// Channel `channel_name` of topic `topic`, where the snapshot holds it.
    pub fn get_channel(&self, topic: &str, channel_name: &str) -> (r: Option<&NsqTopicConsumerSnapshot>)
        requires
            self.wf(),
        ensures
            r is Some <==> (self.topics_view().contains_key(topic@)
                && self.topics_view()[topic@].1.contains_key(channel_name@)),
            r is Some ==> r->Some_0.channel_name@ == channel_name@ && r->Some_0.value_view()
                == self.topics_view()[topic@].1[channel_name@],
    {
        let t = topic.to_owned();
        let c = channel_name.to_owned();
        match search(&self.topics, &t) {
            Ok(i) => {
                proof {
                    lemma_map_of_index(self.topics@, i as int);
                    assert(self.topics@[i as int].wf());
                }
                match search(&self.topics[i].consumers, &c) {
                    Ok(j) => {
                        proof {
                            lemma_map_of_index(self.topics@[i as int].consumers@, j as int);
                        }
                        Some(&self.topics[i].consumers[j])
                    },
                    Err(_) => None,
                }
            },
            Err(_) => None,
        }
    }
}

impl NsqSnapshot {
    /// The depth of `topic` over all its producers, where the snapshot holds it.
    pub fn topic_depth(&self, topic: &str) -> (r: Option<u64>)
        requires
            self.wf(),
        ensures
            r is Some <==> self.topics_view().contains_key(topic@),
            r is Some ==> r->Some_0 == capped(
                producers_depth(self.topics@[index_of(self.topics@, topic@)].producers@) as int,
            ),
    {
        let name = topic.to_owned();
        match search(&self.topics, &name) {
            Ok(i) => {
                proof {
                    lemma_map_of_index(self.topics@, i as int);
                    lemma_sorted_unique(self.topics@, i as int, index_of(self.topics@, topic@));
                }
                Some(self.topics[i].producer_aggregate().depth)
            },
            Err(_) => None,
        }
    }
}

/// The sum of the producers' depths.
pub open spec fn producers_depth(s: Seq<NsqTopicProducerSnapshot>) -> nat
    decreases s.len(),
{
    if s.len() == 0 {
        0
    } else {
        (producers_depth(s.drop_last()) + s.last().depth) as nat
    }
}

/// The sum of the producers' message counts.
pub open spec fn producers_messages(s: Seq<NsqTopicProducerSnapshot>) -> nat
    decreases s.len(),
{
    if s.len() == 0 {
        0
    } else {
        (producers_messages(s.drop_last()) + s.last().message_count) as nat
    }
}

impl NsqTopicSnapshot {
    /// The topic's total over its producers; the hostname is empty.
    pub fn producer_aggregate(&self) -> (r: NsqTopicProducerAggregate)
        ensures
            r.hostname@ == Seq::<char>::empty(),
            r.depth == capped(producers_depth(self.producers@) as int),
            r.message_count == capped(producers_messages(self.producers@) as int),
    {
        let mut aggregate = NsqTopicProducerAggregate {
            hostname: String::new(),
            depth: 0,
            message_count: 0,
        };
        let mut i: usize = 0;
        while i < self.producers.len()
            invariant
                i <= self.producers@.len(),
                aggregate.hostname@ == Seq::<char>::empty(),
                aggregate.depth == capped(producers_depth(self.producers@.take(i as int)) as int),
                aggregate.message_count == capped(
                    producers_messages(self.producers@.take(i as int)) as int,
                ),
            decreases self.producers@.len() - i,
        {
            let p = &self.producers[i];
            proof {
                let prefix = self.producers@.take(i + 1);
                assert(prefix.drop_last() =~= self.producers@.take(i as int));
                lemma_capped_add(producers_depth(self.producers@.take(i as int)), p.depth);
                lemma_capped_add(producers_messages(self.producers@.take(i as int)), p.message_count);
            }
            aggregate.depth = aggregate.depth.saturating_add(p.depth);
            aggregate.message_count = aggregate.message_count.saturating_add(p.message_count);
            i = i + 1;
        }
        proof {
            assert(self.producers@.take(self.producers@.len() as int) =~= self.producers@);
        }
        aggregate
    }
}

} // verus!

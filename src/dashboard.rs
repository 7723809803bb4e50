//! What the dashboard shows of a snapshot, and how it compares one snapshot
//! with the one before.
use vstd::prelude::*;

use crate::keys::{index_of, lemma_map_of_index, lemma_sorted_unique, search};
use crate::snapshot::{
    capped, producers_depth, producers_messages, NsqSnapshot, NsqTopicConsumerSnapshot,
    NsqTopicProducerSnapshot, NsqTopicSnapshot,
};
use crate::text::{centi_decimal, centi_text, concat, concat3, signed_decimal, signed_text};

verus! {

/// The dashboard's settings.
pub struct ConfigOptions {
    pub nsq_lookup: String,
    pub delay: i64,
    pub count: Option<u32>,
    pub hide_hosts: bool,
    pub hide_zero_depth: bool,
}

impl ConfigOptions {
    /// Settings from the command line; a delay under one second becomes one.
    pub fn new(
        lookup_host: &str,
        lookup_port: &str,
        delay: i64,
        count: Option<u32>,
        hide_hosts: bool,
        hide_zero_depth: bool,
    ) -> (r: ConfigOptions)
        ensures
            r.nsq_lookup@ == lookup_host@ + ":"@ + lookup_port@,
            r.delay == if delay < 1 {
                1
            } else {
                delay
            },
            r.count == count,
            r.hide_hosts == hide_hosts,
            r.hide_zero_depth == hide_zero_depth,
    {
        ConfigOptions {
            nsq_lookup: concat3(lookup_host, ":", lookup_port),
            delay: if delay < 1 {
                1
            } else {
                delay
            },
            count,
            hide_hosts,
            hide_zero_depth,
        }
    }
}

/// How long to sleep after a poll that took `elapsed_ms`, so that polls start
/// `delay_seconds` apart.
pub fn sleep_millis(delay_seconds: i64, elapsed_ms: i64) -> (r: u64)
    ensures
        r == capped(delay_seconds * 1000 - elapsed_ms),
{
    let wanted: i128 = delay_seconds as i128 * 1000 - elapsed_ms as i128;
    if wanted > u64::MAX as i128 {
        u64::MAX
    } else if wanted > 0 {
        wanted as u64
    } else {
        0
    }
}

/// Whether the loop stops after `iterations` frames, given the cap `count`.
pub fn should_stop(iterations: u32, count: Option<u32>) -> (r: bool)
    ensures
        r == (count is Some && iterations >= count->Some_0),
{
    match count {
        Some(limit) => iterations >= limit,
        None => false,
    }
}

/// The change of a lifetime counter; where it fell, the broker restarted and
/// the counter was reset, which counts as no change.
pub fn counter_change(previous: u64, current: u64) -> (r: u64)
    ensures
        r == if current >= previous {
            current - previous
        } else {
            0
        },
{
    if current >= previous {
        current - previous
    } else {
        0
    }
}

/// The signed change of a gauge such as a depth.
pub fn gauge_change(previous: u64, current: u64) -> (r: i128)
    ensures
        r == current - previous,
{
    current as i128 - previous as i128
}

/// `n / d` rounded to the nearest integer, halves away from zero.
pub open spec fn rounded_quotient(n: int, d: int) -> int
    recommends
        d > 0,
{
    if n >= 0 {
        (2 * n + d) / (2 * d)
    } else {
        -((2 * (-n) + d) / (2 * d))
    }
}

/// Messages per second, in hundredths, of a change over `elapsed_ms`; none
/// where no time passed.
pub fn rate_centi(change: i128, elapsed_ms: i128) -> (r: i128)
    requires
        -0x1_0000_0000_0000_0000 <= change <= 0x1_0000_0000_0000_0000,
        elapsed_ms <= 0x1_0000_0000_0000_0000,
    ensures
        elapsed_ms <= 0 ==> r == 0,
        elapsed_ms > 0 ==> r == rounded_quotient(change * 100000, elapsed_ms as int),
        -0x1_0000_0000_0000_0000 * 100001 <= r <= 0x1_0000_0000_0000_0000 * 100001,
{
    if elapsed_ms <= 0 {
        return 0;
    }
    let n: i128 = change * 100000;
    let m: u128 = if n < 0 {
        (-n) as u128
    } else {
        n as u128
    };
    let d: u128 = elapsed_ms as u128;
    let q: u128 = (2 * m + d) / (2 * d);
    proof {
        assert((2 * m + d) / (2 * d) <= 2 * m + d) by (nonlinear_arith)
            requires
                d >= 1,
                m >= 0,
        ;
        assert((2 * m + d) / (2 * d) <= m + 1) by (nonlinear_arith)
            requires
                d >= 1,
                m >= 0,
        {
            assert(2 * d * (m + 1) >= 2 * m + d);
        }
    }
    if n < 0 {
        -(q as i128)
    } else {
        q as i128
    }
}

/// The rate of a change over `elapsed_ms`, in hundredths per second; zero where
/// no time passed.
pub open spec fn rate_of(change: int, elapsed_ms: int) -> int {
    if elapsed_ms > 0 {
        rounded_quotient(change * 100000, elapsed_ms)
    } else {
        0
    }
}

/// The text of a depth change: `-20 (-20.00 m/s)`.
pub open spec fn depth_change_text(previous: u64, current: u64, elapsed_ms: int) -> Seq<char> {
    signed_decimal(current - previous) + " ("@ + centi_decimal(
        rate_of(current - previous, elapsed_ms),
    ) + " m/s)"@
}

/// The "Depth Change" cell: the change and its rate, `-20 (-20.00 m/s)`.
pub fn depth_change_cell(previous: u64, current: u64, elapsed_ms: i128) -> (r: String)
    requires
        elapsed_ms <= 0x1_0000_0000_0000_0000,
    ensures
        r@ == depth_change_text(previous, current, elapsed_ms as int),
{
    let change = gauge_change(previous, current);
    let rate = rate_centi(change, elapsed_ms);
    let change_text = signed_text(change);
    let rate_text = centi_text(rate);
    concat3(change_text.as_str(), " (", concat(rate_text.as_str(), " m/s)").as_str())
}

/// The "Rate" cell of a topic: `12.50 m/s`.
pub fn rate_cell(change: u64, elapsed_ms: i128) -> (r: String)
    requires
        elapsed_ms <= 0x1_0000_0000_0000_0000,
    ensures
        r@ == centi_decimal(
            if elapsed_ms > 0 {
                rounded_quotient(change * 100000, elapsed_ms as int)
            } else {
                0
            },
        ) + " m/s"@,
{
    let rate = rate_centi(change as i128, elapsed_ms);
    let rate_text = centi_text(rate);
    concat(rate_text.as_str(), " m/s")
}

/// Milliseconds from the earlier snapshot to the later one.
pub fn elapsed_between(earlier: &NsqSnapshot, later: &NsqSnapshot) -> (r: i128)
    ensures
        r == later.pull_finished - earlier.pull_finished,
{
    later.pull_finished as i128 - earlier.pull_finished as i128
}

/// A row of a topic's host table: one producer.
pub struct HostRow {
    pub hostname: String,
    pub depth: u64,
    pub message_count: u64,
}

/// A topic's host table: one row per producer, in order of hostname, then the
/// totals, then the change and rate where there is a previous snapshot.
pub struct TopicTotals {
    pub name: String,
    pub rows: Vec<HostRow>,
    pub depth: u64,
    pub message_count: u64,
    /// Where the previous snapshot holds the topic: the change of its message
    /// count, and the "Rate" cell.
    pub change: Option<(u64, String)>,
}

/// `row` shows producer `p`.
pub open spec fn row_matches(row: HostRow, p: NsqTopicProducerSnapshot) -> bool {
    row.hostname@ == p.hostname@ && row.depth == p.depth && row.message_count == p.message_count
}

/// `r` holds the rows and totals of `topic`, compared with the previous snapshot
/// where given: the message-count change (a fall counts as none) and its rate,
/// over the time from `last` to `now`.
pub open spec fn totals_match(r: TopicTotals, topic: NsqTopicSnapshot, last: Option<&NsqSnapshot>, now: i64) -> bool {
    &&& r.name@ == topic.name@
    &&& r.rows@.len() == topic.producers@.len()
    &&& forall|i: int|
        0 <= i < r.rows@.len() ==> row_matches(#[trigger] r.rows@[i], topic.producers@[i])
    &&& r.depth == capped(producers_depth(topic.producers@) as int)
    &&& r.message_count == capped(producers_messages(topic.producers@) as int)
    &&& r.change is Some <==> (last is Some && last->Some_0.topics_view().contains_key(topic.name@))
    &&& r.change is Some ==> ({
        let prev = last->Some_0;
        let prev_topic = prev.topics@[index_of(prev.topics@, topic.name@)];
        let prev_count = capped(producers_messages(prev_topic.producers@) as int);
        let change = if r.message_count >= prev_count {
            r.message_count - prev_count
        } else {
            0
        };
        &&& r.change->Some_0.0 == change
        &&& r.change->Some_0.1@ == centi_decimal(rate_of(change as int, now - prev.pull_finished))
            + " m/s"@
    })
}

/// The totals of one topic, compared with the previous snapshot where given.
pub fn topic_totals(topic: &NsqTopicSnapshot, last: Option<&NsqSnapshot>, now: i64) -> (r: TopicTotals)
    requires
        last is Some ==> last->Some_0.wf(),
    ensures
        totals_match(r, *topic, last, now),
{
    let mut rows: Vec<HostRow> = Vec::new();
    let mut i: usize = 0;
    while i < topic.producers.len()
        invariant
            i <= topic.producers@.len(),
            rows@.len() == i,
            forall|j: int| 0 <= j < i ==> row_matches(#[trigger] rows@[j], topic.producers@[j]),
        decreases topic.producers@.len() - i,
    {
        let p = &topic.producers[i];
        rows.push(HostRow { hostname: p.hostname.clone(), depth: p.depth, message_count: p.message_count });
        i = i + 1;
    }
    let aggregate = topic.producer_aggregate();
    let change = match last {
        None => None,
        Some(prev) => match search(&prev.topics, &topic.name) {
            Ok(i) => {
                proof {
                    lemma_map_of_index(prev.topics@, i as int);
                    lemma_sorted_unique(
                        prev.topics@,
                        i as int,
                        index_of(prev.topics@, topic.name@),
                    );
                }
                let prev_aggregate = prev.topics[i].producer_aggregate();
                let change = counter_change(prev_aggregate.message_count, aggregate.message_count);
                let elapsed = now as i128 - prev.pull_finished as i128;
                Some((change, rate_cell(change, elapsed)))
            },
            Err(_) => None,
        },
    };
    TopicTotals {
        name: topic.name.clone(),
        rows,
        depth: aggregate.depth,
        message_count: aggregate.message_count,
        change,
    }
}

/// The channels that the table shows: all, or those with a depth where zero
/// depths are hidden.
pub open spec fn shown_channels(cs: Seq<NsqTopicConsumerSnapshot>, hide_zero_depth: bool) -> Seq<
    NsqTopicConsumerSnapshot,
>
    decreases cs.len(),
{
    if cs.len() == 0 {
        Seq::empty()
    } else if hide_zero_depth && cs.last().depth == 0 {
        shown_channels(cs.drop_last(), hide_zero_depth)
    } else {
        shown_channels(cs.drop_last(), hide_zero_depth).push(cs.last())
    }
}

/// A row of a topic's channel table.
pub struct ChannelLine {
    pub channel_name: String,
    pub depth: u64,
    pub depth_change: String,
    pub in_flight: u64,
    pub finish_count: u64,
}

/// The text of the "Depth Change" cell of channel `c` of `topic`: against the
/// previous snapshot where it holds the channel, else `0`.
pub open spec fn change_cell_text(
    c: NsqTopicConsumerSnapshot,
    topic: Seq<char>,
    last: Option<&NsqSnapshot>,
    now: i64,
) -> Seq<char> {
    match last {
        Some(prev) => if prev.topics_view().contains_key(topic) && prev.topics_view()[topic].1.contains_key(
            c.channel_name@,
        ) {
            depth_change_text(
                prev.topics_view()[topic].1[c.channel_name@].0,
                c.depth,
                now - prev.pull_finished,
            )
        } else {
            "0"@
        },
        None => "0"@,
    }
}

pub open spec fn line_matches(
    l: ChannelLine,
    c: NsqTopicConsumerSnapshot,
    topic: Seq<char>,
    last: Option<&NsqSnapshot>,
    now: i64,
) -> bool {
    &&& l.channel_name@ == c.channel_name@
    &&& l.depth == c.depth
    &&& l.in_flight == c.in_progress
    &&& l.finish_count == c.finish_count
    &&& l.depth_change@ == change_cell_text(c, topic, last, now)
}

/// The rows of a topic's channel table, in order of channel name; `None` where
/// no row is shown.
pub fn make_channel_table(
    config_options: &ConfigOptions,
    stats: &NsqSnapshot,
    topic: &str,
    last: Option<&NsqSnapshot>,
) -> (r: Option<Vec<ChannelLine>>)
    requires
        stats.wf(),
        last is Some ==> last->Some_0.wf(),
    ensures
        !stats.topics_view().contains_key(topic@) ==> r is None,
        stats.topics_view().contains_key(topic@) ==> ({
            let t = stats.topics@[index_of(stats.topics@, topic@)];
            let shown = shown_channels(t.consumers@, config_options.hide_zero_depth);
            &&& r is None <==> shown.len() == 0
            &&& r is Some ==> r->Some_0@.len() == shown.len() && forall|i: int|
                0 <= i < shown.len() ==> line_matches(
                    #[trigger] r->Some_0@[i],
                    shown[i],
                    topic@,
                    last,
                    stats.pull_finished,
                )
        }),
{
    let name = topic.to_owned();
    let i = match search(&stats.topics, &name) {
        Ok(i) => i,
        Err(_) => {
            return None;
        },
    };
    proof {
        lemma_map_of_index(stats.topics@, i as int);
        lemma_sorted_unique(stats.topics@, i as int, index_of(stats.topics@, topic@));
    }
    let t = &stats.topics[i];
    let ghost cs = t.consumers@;
    let mut lines: Vec<ChannelLine> = Vec::new();
    let mut k: usize = 0;
    while k < t.consumers.len()
        invariant
            k <= cs.len(),
            cs == t.consumers@,
            name@ == topic@,
            last is Some ==> last->Some_0.wf(),
            lines@.len() == shown_channels(cs.take(k as int), config_options.hide_zero_depth).len(),
            forall|j: int|
                0 <= j < lines@.len() ==> line_matches(
                    #[trigger] lines@[j],
                    shown_channels(cs.take(k as int), config_options.hide_zero_depth)[j],
                    topic@,
                    last,
                    stats.pull_finished,
                ),
        decreases cs.len() - k,
    {
        let c = &t.consumers[k];
        let ghost before = shown_channels(cs.take(k as int), config_options.hide_zero_depth);
        proof {
            assert(cs.take(k + 1).drop_last() =~= cs.take(k as int));
            assert(cs.take(k + 1).last() == *c);
        }
        if !(c.depth == 0 && config_options.hide_zero_depth) {
            let change = match last {
                Some(prev) => match prev.get_channel(topic, c.channel_name.as_str()) {
                    Some(prev_channel) => {
                        let elapsed = elapsed_between(prev, stats);
                        depth_change_cell(prev_channel.depth, c.depth, elapsed)
                    },
                    None => "0".to_owned(),
                },
                None => "0".to_owned(),
            };
            lines.push(
                ChannelLine {
                    channel_name: c.channel_name.clone(),
                    depth: c.depth,
                    depth_change: change,
                    in_flight: c.in_progress,
                    finish_count: c.finish_count,
                },
            );
            proof {
                let after = shown_channels(cs.take(k + 1), config_options.hide_zero_depth);
                assert(after == before.push(*c));
                assert forall|j: int| 0 <= j < lines@.len() implies line_matches(
                    #[trigger] lines@[j],
                    after[j],
                    topic@,
                    last,
                    stats.pull_finished,
                ) by {
                    if j < before.len() {
                        assert(after[j] == before[j]);
                    }
                }
            }
        }
        k = k + 1;
    }
    proof {
        assert(cs.take(cs.len() as int) =~= cs);
    }
    if lines.len() == 0 {
        None
    } else {
        Some(lines)
    }
}

/// The totals of every topic of `current`, in order of topic name.
pub fn make_host_table(current: &NsqSnapshot, last: Option<&NsqSnapshot>) -> (r: Vec<TopicTotals>)
    requires
        last is Some ==> last->Some_0.wf(),
    ensures
        r@.len() == current.topics@.len(),
        forall|i: int|
            0 <= i < r@.len() ==> totals_match(
                #[trigger] r@[i],
                current.topics@[i],
                last,
                current.pull_finished,
            ),
{
    let mut tables: Vec<TopicTotals> = Vec::new();
    let mut i: usize = 0;
    while i < current.topics.len()
        invariant
            i <= current.topics@.len(),
            last is Some ==> last->Some_0.wf(),
            tables@.len() == i,
            forall|j: int|
                0 <= j < i ==> totals_match(
                    #[trigger] tables@[j],
                    current.topics@[j],
                    last,
                    current.pull_finished,
                ),
        decreases current.topics@.len() - i,
    {
        tables.push(topic_totals(&current.topics[i], last, current.pull_finished));
        i = i + 1;
    }
    tables
}

} // verus!

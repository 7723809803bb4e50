//! The discovered broker hosts, the filter that narrows them, and the status
//! records that polling a host yields.
use vstd::prelude::*;

use crate::keys::{
    contains_key, first_wins, key_lt, key_set, lemma_first_wins_dom, lemma_first_wins_sorted,
    lemma_key_lt_irreflexive, lemma_map_of_index, map_of, retain_keys, sorted_by_key, table_of,
    upsert, Keyed,
};
use crate::model::{ClientDetails, StatusTopicsDetails, TopicChannel, TopicDetails};
use crate::text::{concat, concat3, decimal, u128_text};

verus! {

/// Which hosts and topics a command looks at.
pub enum NsqFilter {
    Producer { hosts: Vec<String> },
    Topic { topics: Vec<String> },
    ProducerAndTopic { hosts: Vec<String>, topics: Vec<String> },
}

impl NsqFilter {
    /// The hostnames to keep, where the filter names hosts.
    pub open spec fn host_filter(&self) -> Option<Set<Seq<char>>> {
        match self {
            NsqFilter::Producer { hosts } => Some(key_set(hosts@)),
            NsqFilter::Topic { .. } => None,
            NsqFilter::ProducerAndTopic { hosts, .. } => Some(key_set(hosts@)),
        }
    }

    /// The topics to keep, where the filter names topics.
    pub open spec fn topic_filter(&self) -> Option<Set<Seq<char>>> {
        match self {
            NsqFilter::Producer { .. } => None,
            NsqFilter::Topic { topics } => Some(key_set(topics@)),
            NsqFilter::ProducerAndTopic { topics, .. } => Some(key_set(topics@)),
        }
    }
}

/// What the library knows of a host: its base URL and the topics it advertises.
pub type HostView = (Seq<char>, Set<Seq<char>>);

/// A broker node: its hostname, its HTTP address `host:port`, and the topics it
/// advertises, in order and without repeats.
pub struct HostDetails {
    pub hostname: String,
    pub base_url: String,
    pub topics: Vec<String>,
}

impl Keyed for HostDetails {
    type Value = HostView;

    open spec fn key_view(&self) -> Seq<char> {
        self.hostname@
    }

    open spec fn value_view(&self) -> HostView {
        (self.base_url@, key_set(self.topics@))
    }

    fn key(&self) -> (r: &String) {
        &self.hostname
    }
}

impl HostDetails {
    pub open spec fn wf(&self) -> bool {
        sorted_by_key(self.topics@)
    }

    /// A host as the lookup node lists it; `base_url` is `hostname:port`.
    pub fn new(hostname: &str, port: u64, topics: Vec<String>) -> (r: HostDetails)
        ensures
            r.wf(),
            r.hostname@ == hostname@,
            r.base_url@ == hostname@ + ":"@ + decimal(port as nat),
            key_set(r.topics@) == key_set(topics@),
    {
        let port_text = u128_text(port as u128);
        HostDetails {
            hostname: hostname.to_owned(),
            base_url: concat3(hostname, ":", port_text.as_str()),
            topics: table_of(topics),
        }
    }

    /// The URL of the host's statistics: `http://{base_url}/stats?format=json`.
    pub fn stats_url(&self) -> (r: String)
        ensures
            r@ == "http://"@ + self.base_url@ + "/stats?format=json"@,
    {
        concat3("http://", self.base_url.as_str(), "/stats?format=json")
    }

    /// The host's status, from the `/stats` body that it sent (`None` where the
    /// body had neither known shape: then the host reports no topics).
    pub fn create_host_status(&self, body: Option<StatusTopicsDetails>) -> (r: HostStatus)
        ensures
            r.hostname@ == self.hostname@,
            body is None ==> r.status@.len() == 0,
            body is Some ==> topics_match(r.status@, body->Some_0.topics@),
    {
        let hostname = self.hostname.clone();
        let mut result: Vec<HostTopicStatus> = Vec::new();
        match body {
            None => HostStatus { hostname, status: result },
            Some(details) => {
                let ghost all = details.topics@;
                let mut rest = details.topics;
                while rest.len() > 0
                    invariant
                        result@.len() + rest@.len() == all.len(),
                        rest@ == all.subrange(result@.len() as int, all.len() as int),
                        topics_match(result@, all.subrange(0, result@.len() as int)),
                    decreases rest@.len(),
                {
                    let ghost k = result@.len() as int;
                    let topic = rest.remove(0);
                    proof {
                        assert(topic == all[k]);
                    }
                    let status = HostTopicStatus::new(topic);
                    result.push(status);
                    proof {
                        assert(rest@ =~= all.subrange(k + 1, all.len() as int));
                        let done = all.subrange(0, k + 1);
                        assert forall|i: int| 0 <= i < result@.len() implies topic_matches(
                            #[trigger] result@[i],
                            done[i],
                        ) by {
                            if i < k {
                                assert(done[i] == all.subrange(0, k)[i]);
                            }
                        }
                    }
                }
                proof {
                    assert(all.subrange(0, all.len() as int) =~= all);
                }
                HostStatus { hostname, status: result }
            },
        }
    }
}

/// A client host attached to a channel.
pub struct ConsumerHost {
    pub hostname: String,
}

impl ConsumerHost {
    pub fn new(details: &ClientDetails) -> (r: ConsumerHost)
        ensures
            r.hostname@ == details.hostname@,
    {
        ConsumerHost { hostname: details.hostname.clone() }
    }
}

/// One channel of one topic as one host reported it.
pub struct ChannelStatus {
    pub channel_name: String,
    pub topic_name: String,
    pub depth: u64,
    pub in_flight_count: u64,
    pub message_count: u64,
    pub consumers: Vec<ConsumerHost>,
}

/// `s` carries the counters and clients of the reported channel `c`.
pub open spec fn channel_matches(s: ChannelStatus, c: TopicChannel) -> bool {
    &&& s.channel_name@ == c.channel_name@
    &&& s.depth == c.depth
    &&& s.in_flight_count == c.in_flight_count
    &&& s.message_count == c.message_count
    &&& s.consumers@.len() == c.clients@.len()
    &&& forall|i: int|
        0 <= i < s.consumers@.len() ==> #[trigger] s.consumers@[i].hostname@
            == c.clients@[i].hostname@
}

pub open spec fn channels_match(s: Seq<ChannelStatus>, c: Seq<TopicChannel>) -> bool {
    &&& s.len() == c.len()
    &&& forall|i: int| 0 <= i < s.len() ==> channel_matches(#[trigger] s[i], c[i])
}

impl ChannelStatus {
    pub fn new(topic_name: String, channel: TopicChannel) -> (r: ChannelStatus)
        ensures
            channel_matches(r, channel),
            r.topic_name@ == topic_name@,
    {
        let mut consumers: Vec<ConsumerHost> = Vec::new();
        let mut i: usize = 0;
        while i < channel.clients.len()
            invariant
                i <= channel.clients@.len(),
                consumers@.len() == i,
                forall|j: int|
                    0 <= j < i ==> #[trigger] consumers@[j].hostname@
                        == channel.clients@[j].hostname@,
            decreases channel.clients@.len() - i,
        {
            consumers.push(ConsumerHost::new(&channel.clients[i]));
            i = i + 1;
        }
        ChannelStatus {
            channel_name: channel.channel_name,
            topic_name,
            depth: channel.depth,
            in_flight_count: channel.in_flight_count,
            message_count: channel.message_count,
            consumers,
        }
    }
}

/// One topic as one host reported it.
pub struct HostTopicStatus {
    pub topic_name: String,
    pub depth: u64,
    pub message_count: u64,
    pub channels: Vec<ChannelStatus>,
}

/// `s` carries the counters and channels of the reported topic `t`.
pub open spec fn topic_matches(s: HostTopicStatus, t: TopicDetails) -> bool {
    &&& s.topic_name@ == t.topic_name@
    &&& s.depth == t.depth
    &&& s.message_count == t.message_count
    &&& channels_match(s.channels@, t.channels@)
    &&& forall|i: int|
        0 <= i < s.channels@.len() ==> (#[trigger] s.channels@[i]).topic_name@ == t.topic_name@
}

pub open spec fn topics_match(s: Seq<HostTopicStatus>, t: Seq<TopicDetails>) -> bool {
    &&& s.len() == t.len()
    &&& forall|i: int| 0 <= i < s.len() ==> topic_matches(#[trigger] s[i], t[i])
}

impl HostTopicStatus {
    pub fn new(topic: TopicDetails) -> (r: HostTopicStatus)
        ensures
            topic_matches(r, topic),
    {
        let ghost all = topic.channels@;
        let mut rest = topic.channels;
        let mut channels: Vec<ChannelStatus> = Vec::new();
        while rest.len() > 0
            invariant
                channels@.len() + rest@.len() == all.len(),
                rest@ == all.subrange(channels@.len() as int, all.len() as int),
                channels_match(channels@, all.subrange(0, channels@.len() as int)),
                forall|i: int|
                    0 <= i < channels@.len() ==> (#[trigger] channels@[i]).topic_name@
                        == topic.topic_name@,
            decreases rest@.len(),
        {
            let ghost k = channels@.len() as int;
            let channel = rest.remove(0);
            proof {
                assert(channel == all[k]);
            }
            channels.push(ChannelStatus::new(topic.topic_name.clone(), channel));
            proof {
                assert(rest@ =~= all.subrange(k + 1, all.len() as int));
                let done = all.subrange(0, k + 1);
                assert forall|i: int| 0 <= i < channels@.len() implies channel_matches(
                    #[trigger] channels@[i],
                    done[i],
                ) by {
                    if i < k {
                        assert(done[i] == all.subrange(0, k)[i]);
                    }
                }
            }
        }
        proof {
            assert(all.subrange(0, all.len() as int) =~= all);
        }
        HostTopicStatus {
            topic_name: topic.topic_name,
            depth: topic.depth,
            message_count: topic.message_count,
            channels,
        }
    }
}

/// Everything one host reported in one poll.
pub struct HostStatus {
    pub hostname: String,
    pub status: Vec<HostTopicStatus>,
}

/// The hosts that survive a filter: named hosts only, where the filter names
/// hosts; then, where it names topics, each host's topics cut down to those,
/// and the hosts left with none dropped.
pub open spec fn filtered_hosts(m: Map<Seq<char>, HostView>, f: NsqFilter) -> Map<
    Seq<char>,
    HostView,
> {
    let by_host = match f.host_filter() {
        Some(hs) => m.restrict(hs),
        None => m,
    };
    match f.topic_filter() {
        None => by_host,
        Some(ts) => Map::new(
            |h: Seq<char>| by_host.contains_key(h) && by_host[h].1.intersect(ts) != Set::<Seq<char>>::empty(),
            |h: Seq<char>| (by_host[h].0, by_host[h].1.intersect(ts)),
        ),
    }
}

/// The discovered hosts, each under its hostname, in order of hostname.
pub struct NsqState {
    pub host_details: Vec<HostDetails>,
}

impl View for NsqState {
    type V = Map<Seq<char>, HostView>;

    open spec fn view(&self) -> Map<Seq<char>, HostView> {
        map_of(self.host_details@)
    }
}

impl NsqState {
    pub open spec fn wf(&self) -> bool {
        &&& sorted_by_key(self.host_details@)
        &&& forall|i: int| 0 <= i < self.host_details@.len() ==> (#[trigger] self.host_details@[i]).wf()
    }

    /// Host `h` is known and advertises topic `t`.
    pub open spec fn advertises(&self, h: Seq<char>, t: Seq<char>) -> bool {
        self@.contains_key(h) && self@[h].1.contains(t)
    }

    /// Whether host `h` is known and advertises topic `t`.
    pub fn advertises_topic(&self, h: &String, t: &String) -> (r: bool)
        requires
            self.wf(),
        ensures
            r == self.advertises(h@, t@),
    {
        match crate::keys::search(&self.host_details, h) {
            Ok(i) => {
                proof {
                    lemma_map_of_index(self.host_details@, i as int);
                }
                contains_key(&self.host_details[i].topics, t)
            },
            Err(_) => false,
        }
    }

    /// The cluster as discovered (the lookup node's producers, the first listing
    /// of a hostname standing), narrowed by `filter`.
    pub fn new(discovered: Vec<HostDetails>, filter: NsqFilter) -> (r: NsqState)
        ensures
            r.wf(),
            r@ == filtered_hosts(first_wins(discovered@), filter),
    {
        let ghost m = first_wins(discovered@);
        let mut rest = table_of(discovered);
        let ghost all = rest@;
        proof {
            lemma_first_wins_sorted(all);
        }
        let mut out: Vec<HostDetails> = Vec::new();
        proof {
            assert(all.subrange(all.len() as int, all.len() as int).len() == 0);
            assert(first_wins(all.subrange(all.len() as int, all.len() as int)) =~= Map::empty());
            assert(filtered_hosts(Map::empty(), filter) =~= map_of(out@));
        }
        while rest.len() > 0
            invariant
                sorted_by_key(all),
                sorted_by_key(out@),
                forall|i: int| 0 <= i < out@.len() ==> (#[trigger] out@[i]).wf(),
                rest@ == all.subrange(0, rest@.len() as int),
                rest@.len() <= all.len(),
                map_of(out@) == filtered_hosts(
                    first_wins(all.subrange(rest@.len() as int, all.len() as int)),
                    filter,
                ),
            decreases rest@.len(),
        {
            let n = rest.len();
            let h = rest.pop().unwrap();
            let ghost done = all.subrange(n as int, all.len() as int);
            let ghost grown = all.subrange(n - 1, all.len() as int);
            let ghost k = h.hostname@;
            proof {
                assert(all[n - 1] == h);
                assert(rest@ =~= all.subrange(0, n - 1));
                assert(grown.drop_first() =~= done);
                assert(grown[0] == h);
                lemma_first_wins_dom(done);
                assert forall|j: int| 0 <= j < done.len() implies #[trigger] done[j].key_view() != k by {
                    assert(key_lt(all[n - 1].key_view(), all[n + j].key_view()));
                    lemma_key_lt_irreflexive(k);
                }
                assert(!first_wins(done).contains_key(k));
            }
            let keep_host = match &filter {
                NsqFilter::Producer { hosts } => contains_key(hosts, &h.hostname),
                NsqFilter::Topic { .. } => true,
                NsqFilter::ProducerAndTopic { hosts, .. } => contains_key(hosts, &h.hostname),
            };
            if keep_host {
                let (topics, keep_topics) = match &filter {
                    NsqFilter::Producer { .. } => (table_of(h.topics), true),
                    NsqFilter::Topic { topics } => {
                        let t = retain_keys(h.topics, topics);
                        let nonempty = t.len() > 0;
                        (t, nonempty)
                    },
                    NsqFilter::ProducerAndTopic { topics, .. } => {
                        let t = retain_keys(h.topics, topics);
                        let nonempty = t.len() > 0;
                        (t, nonempty)
                    },
                };
                proof {
                    if filter.topic_filter() is Some {
                        if topics@.len() > 0 {
                            assert(topics@[0].key_view() == topics@[0]@);
                            assert(key_set(topics@).contains(topics@[0]@));
                        } else {
                            assert(key_set(topics@) =~= Set::<Seq<char>>::empty());
                        }
                    }
                }
                if keep_topics {
                    let kept = HostDetails { hostname: h.hostname, base_url: h.base_url, topics };
                    let ghost before = out@;
                    upsert(&mut out, kept);
                    proof {
                        assert forall|i: int| 0 <= i < out@.len() implies (#[trigger] out@[i]).wf() by {
                            if out@[i] != kept {
                                let j = choose|j: int| 0 <= j < before.len() && before[j] == out@[i];
                                assert(before[j].wf());
                            }
                        }
                        assert(map_of(out@) =~= filtered_hosts(first_wins(grown), filter));
                    }
                } else {
                    proof {
                        assert(map_of(out@) =~= filtered_hosts(first_wins(grown), filter));
                    }
                }
            } else {
                proof {
                    assert(map_of(out@) =~= filtered_hosts(first_wins(grown), filter));
                }
            }
        }
        proof {
            assert(all.subrange(0, all.len() as int) =~= all);
        }
        NsqState { host_details: out }
    }

    /// `http://{base_url}` of the first host, in order of hostname, that
    /// advertises the topic; `None` where no host does.
    pub fn get_topic_url(&self, topic_name: &str) -> (r: Option<String>)
        requires
            self.wf(),
        ensures
            r is None <==> (forall|h: Seq<char>| !self.advertises(h, topic_name@)),
            r is Some ==> exists|h: Seq<char>|
                #![auto]
                self.advertises(h, topic_name@) && r->Some_0@ == "http://"@ + self@[h].0,
            r is Some ==> exists|i: int|
                #![auto]
                0 <= i < self.host_details@.len() && key_set(self.host_details@[i].topics@).contains(
                    topic_name@,
                ) && r->Some_0@ == "http://"@ + self.host_details@[i].base_url@ && forall|j: int|
                    0 <= j < i ==> !key_set(self.host_details@[j].topics@).contains(topic_name@),
    {
        let topic = topic_name.to_owned();
        let mut i: usize = 0;
        while i < self.host_details.len()
            invariant
                self.wf(),
                i <= self.host_details@.len(),
                topic@ == topic_name@,
                forall|j: int|
                    0 <= j < i ==> !key_set((#[trigger] self.host_details@[j]).topics@).contains(
                        topic_name@,
                    ),
            decreases self.host_details@.len() - i,
        {
            if contains_key(&self.host_details[i].topics, &topic) {
                let url = concat("http://", self.host_details[i].base_url.as_str());
                proof {
                    lemma_map_of_index(self.host_details@, i as int);
                    let h = self.host_details@[i as int].hostname@;
                    assert(self.advertises(h, topic_name@));
                }
                return Some(url);
            }
            i = i + 1;
        }
        proof {
            assert forall|h: Seq<char>| !self.advertises(h, topic_name@) by {
                if self@.contains_key(h) {
                    let j = crate::keys::index_of(self.host_details@, h);
                    lemma_map_of_index(self.host_details@, j);
                }
            }
        }
        None
    }
}

/// The lookup node's listing of producers: `http://{lookup}/nodes`.
pub fn nodes_url(lookup: &str) -> (r: String)
    ensures
        r@ == "http://"@ + lookup@ + "/nodes"@,
{
    concat3("http://", lookup, "/nodes")
}

/// Where messages for `topic` are posted: `{base}/pub?topic={topic}`.
pub fn submit_url(base: &str, topic: &str) -> (r: String)
    ensures
        r@ == base@ + "/pub?topic="@ + topic@,
{
    concat3(base, "/pub?topic=", topic)
}

} // verus!

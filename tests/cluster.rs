use kopy::cluster::{HostDetails, HostStatus, NsqFilter, NsqState};
use kopy::model::{
    select_stats_body, ClientDetails, StatusTopicsDetails, StatusTopicsResponse, TopicChannel,
    TopicDetails,
};
use kopy::snapshot::{NsqSnapshot, NsqTopicSnapshot};

fn s(v: &str) -> String {
    v.to_string()
}

fn channel(name: &str, depth: u64, in_flight: u64, messages: u64) -> TopicChannel {
    TopicChannel {
        depth,
        in_flight_count: in_flight,
        channel_name: s(name),
        message_count: messages,
        clients: vec![ClientDetails { hostname: s("consumer.local") }],
    }
}

fn topic(name: &str, depth: u64, messages: u64, channels: Vec<TopicChannel>) -> TopicDetails {
    TopicDetails { topic_name: s(name), depth, message_count: messages, channels }
}

fn discovered() -> Vec<HostDetails> {
    vec![
        HostDetails::new("a", 4151, vec![s("x"), s("y")]),
        HostDetails::new("b", 4151, vec![s("y")]),
    ]
}

fn all_topics() -> NsqFilter {
    NsqFilter::Topic { topics: vec![s("x"), s("y")] }
}

fn stats_a() -> StatusTopicsDetails {
    StatusTopicsDetails {
        topics: vec![
            topic("x", 3, 10, vec![channel("ch1", 1, 0, 7)]),
            topic("y", 0, 5, vec![]),
        ],
    }
}

fn stats_b() -> StatusTopicsDetails {
    StatusTopicsDetails { topics: vec![topic("y", 2, 4, vec![channel("ch1", 2, 1, 3)])] }
}

fn find<'a>(snapshot: &'a NsqSnapshot, name: &str) -> &'a NsqTopicSnapshot {
    snapshot.topics.iter().find(|t| t.name == name).expect("topic present")
}

fn host(state: &NsqState, name: &str) -> HostDetails {
    let h = state.host_details.iter().find(|h| h.hostname == name).expect("host present");
    HostDetails { hostname: h.hostname.clone(), base_url: h.base_url.clone(), topics: h.topics.clone() }
}

fn assert_two_host_snapshot(snapshot: &NsqSnapshot) {
    assert_eq!(snapshot.pull_finished, 1000);
    let names: Vec<&str> = snapshot.topics.iter().map(|t| t.name.as_str()).collect();
    assert_eq!(names, vec!["x", "y"]);

    let x = find(snapshot, "x");
    assert_eq!(x.producers.len(), 1);
    assert_eq!(x.producers[0].hostname, "a");
    assert_eq!(x.producers[0].depth, 3);
    assert_eq!(x.producers[0].message_count, 10);
    assert_eq!(x.consumers.len(), 1);
    assert_eq!(x.consumers[0].channel_name, "ch1");
    assert_eq!(x.consumers[0].depth, 1);
    assert_eq!(x.consumers[0].in_progress, 0);
    assert_eq!(x.consumers[0].finish_count, 7);

    let y = find(snapshot, "y");
    let producers: Vec<(&str, u64, u64)> = y
        .producers
        .iter()
        .map(|p| (p.hostname.as_str(), p.depth, p.message_count))
        .collect();
    assert_eq!(producers, vec![("a", 0, 5), ("b", 2, 4)]);
    assert_eq!(y.consumers.len(), 1);
    assert_eq!(y.consumers[0].channel_name, "ch1");
    assert_eq!(y.consumers[0].depth, 2);
    assert_eq!(y.consumers[0].in_progress, 1);
    assert_eq!(y.consumers[0].finish_count, 3);

    let load: Vec<(&str, u64, u64)> = snapshot
        .producers
        .iter()
        .map(|p| (p.hostname.as_str(), p.depth, p.message_count))
        .collect();
    assert_eq!(load, vec![("a", 1, 7), ("b", 2, 3)]);
}

#[test]
fn discovery_and_snapshot() {
    let state = NsqState::new(discovered(), all_topics());
    assert_eq!(host(&state, "a").base_url, "a:4151");
    let a = host(&state, "a").create_host_status(Some(stats_a()));
    let b = host(&state, "b").create_host_status(Some(stats_b()));
    let snapshot = state.update_status(1000, vec![Some(a), Some(b)]);
    assert_two_host_snapshot(&snapshot);
}

#[test]
fn legacy_envelope_tolerated() {
    let state = NsqState::new(discovered(), all_topics());
    let a_body = select_stats_body(Some(stats_a()), None);
    let b_body = select_stats_body(None, Some(StatusTopicsResponse { data: stats_b() }));
    let a = host(&state, "a").create_host_status(a_body);
    let b = host(&state, "b").create_host_status(b_body);
    let snapshot = state.update_status(1000, vec![Some(a), Some(b)]);
    assert_two_host_snapshot(&snapshot);
}

#[test]
fn unrecognised_stats_body_reports_nothing() {
    let state = NsqState::new(discovered(), all_topics());
    let body = select_stats_body(None, None);
    assert!(body.is_none());
    let status: HostStatus = host(&state, "a").create_host_status(body);
    assert_eq!(status.hostname, "a");
    assert!(status.status.is_empty());
    let b = host(&state, "b").create_host_status(Some(stats_b()));
    let snapshot = state.update_status(1000, vec![Some(status), Some(b)]);
    let load: Vec<(&str, u64, u64)> = snapshot
        .producers
        .iter()
        .map(|p| (p.hostname.as_str(), p.depth, p.message_count))
        .collect();
    assert_eq!(load, vec![("a", 0, 0), ("b", 2, 3)]);
    let names: Vec<&str> = snapshot.topics.iter().map(|t| t.name.as_str()).collect();
    assert_eq!(names, vec!["y"]);
}

#[test]
fn host_without_channels_has_zero_load() {
    let state = NsqState::new(discovered(), all_topics());
    let a_stats = StatusTopicsDetails { topics: vec![topic("x", 4, 9, vec![])] };
    let a = host(&state, "a").create_host_status(Some(a_stats));
    let snapshot = state.update_status(1000, vec![Some(a)]);
    assert_eq!(snapshot.producers.len(), 1);
    assert_eq!(snapshot.producers[0].hostname, "a");
    assert_eq!((snapshot.producers[0].depth, snapshot.producers[0].message_count), (0, 0));
    assert_eq!(snapshot.topic_depth("x"), Some(4));
}

#[test]
fn host_transient_failure() {
    let state = NsqState::new(discovered(), all_topics());
    let b = host(&state, "b").create_host_status(Some(stats_b()));
    let snapshot = state.update_status(1000, vec![None, Some(b)]);
    let names: Vec<&str> = snapshot.topics.iter().map(|t| t.name.as_str()).collect();
    assert_eq!(names, vec!["y"]);
    let y = find(&snapshot, "y");
    assert_eq!(y.producers.len(), 1);
    assert_eq!(y.producers[0].hostname, "b");
    assert_eq!(snapshot.producers.len(), 1);
    assert_eq!(snapshot.producers[0].hostname, "b");

    // The next tick succeeds for both hosts, with no new discovery.
    let a = host(&state, "a").create_host_status(Some(stats_a()));
    let b = host(&state, "b").create_host_status(Some(stats_b()));
    let next = state.update_status(1000, vec![Some(a), Some(b)]);
    assert_two_host_snapshot(&next);
}

#[test]
fn channel_depth_is_the_sum_over_hosts() {
    let state = NsqState::new(discovered(), all_topics());
    let a_stats = StatusTopicsDetails {
        topics: vec![topic("y", 1, 1, vec![channel("c", 5, 1, 11), channel("d", 1, 0, 0)])],
    };
    let b_stats = StatusTopicsDetails { topics: vec![topic("y", 1, 1, vec![channel("c", 7, 2, 13)])] };
    let a = host(&state, "a").create_host_status(Some(a_stats));
    let b = host(&state, "b").create_host_status(Some(b_stats));
    let snapshot = state.update_status(5, vec![Some(a), Some(b)]);
    let c = snapshot.get_channel("y", "c").expect("channel present");
    assert_eq!((c.depth, c.in_progress, c.finish_count), (12, 3, 24));
    let d = snapshot.get_channel("y", "d").expect("channel present");
    assert_eq!(d.depth, 1);
    assert!(snapshot.get_channel("y", "e").is_none());
    assert!(snapshot.get_channel("x", "c").is_none());
}

#[test]
fn unadvertised_topic_counts_only_for_host_load() {
    let state = NsqState::new(discovered(), all_topics());
    // b does not advertise x.
    let b_stats = StatusTopicsDetails { topics: vec![topic("x", 9, 9, vec![channel("ch", 4, 0, 6)])] };
    let b = host(&state, "b").create_host_status(Some(b_stats));
    let snapshot = state.update_status(5, vec![Some(b)]);
    assert!(snapshot.topics.is_empty());
    assert_eq!(snapshot.producers.len(), 1);
    assert_eq!((snapshot.producers[0].depth, snapshot.producers[0].message_count), (4, 6));
}

#[test]
fn producer_depth_never_exceeds_host_load_in_scenario() {
    let state = NsqState::new(discovered(), all_topics());
    let a = host(&state, "a").create_host_status(Some(stats_a()));
    let b = host(&state, "b").create_host_status(Some(stats_b()));
    let snapshot = state.update_status(1000, vec![Some(a), Some(b)]);
    let total_load: u64 = snapshot.producers.iter().map(|p| p.depth).sum();
    for t in snapshot.topics.iter() {
        assert!(t.producer_aggregate().depth <= total_load);
    }
}

#[test]
fn counters_saturate_instead_of_overflowing() {
    let state = NsqState::new(discovered(), all_topics());
    let a_stats = StatusTopicsDetails { topics: vec![topic("y", 0, 0, vec![channel("c", u64::MAX, 0, 0)])] };
    let b_stats = StatusTopicsDetails { topics: vec![topic("y", 0, 0, vec![channel("c", 5, 0, 0)])] };
    let a = host(&state, "a").create_host_status(Some(a_stats));
    let b = host(&state, "b").create_host_status(Some(b_stats));
    let snapshot = state.update_status(5, vec![Some(a), Some(b)]);
    assert_eq!(snapshot.get_channel("y", "c").unwrap().depth, u64::MAX);
}

#[test]
fn producer_aggregate_sums_producers() {
    let state = NsqState::new(discovered(), all_topics());
    let a = host(&state, "a").create_host_status(Some(stats_a()));
    let b = host(&state, "b").create_host_status(Some(stats_b()));
    let snapshot = state.update_status(1000, vec![Some(a), Some(b)]);
    let y = find(&snapshot, "y").producer_aggregate();
    assert_eq!(y.hostname, "");
    assert_eq!((y.depth, y.message_count), (2, 9));
}

#[test]
fn host_filter_keeps_named_hosts() {
    let state = NsqState::new(discovered(), NsqFilter::Producer { hosts: vec![s("b")] });
    let names: Vec<&str> = state.host_details.iter().map(|h| h.hostname.as_str()).collect();
    assert_eq!(names, vec!["b"]);
}

#[test]
fn topic_filter_cuts_topics_and_drops_empty_hosts() {
    let state = NsqState::new(discovered(), NsqFilter::Topic { topics: vec![s("x")] });
    assert_eq!(state.host_details.len(), 1);
    assert_eq!(state.host_details[0].hostname, "a");
    assert_eq!(state.host_details[0].topics, vec![s("x")]);
}

#[test]
fn host_and_topic_filter_applies_both() {
    let state = NsqState::new(
        discovered(),
        NsqFilter::ProducerAndTopic { hosts: vec![s("b")], topics: vec![s("x")] },
    );
    assert!(state.host_details.is_empty());
    let state = NsqState::new(
        discovered(),
        NsqFilter::ProducerAndTopic { hosts: vec![s("a"), s("b")], topics: vec![s("y")] },
    );
    let names: Vec<&str> = state.host_details.iter().map(|h| h.hostname.as_str()).collect();
    assert_eq!(names, vec!["a", "b"]);
    assert_eq!(state.host_details[0].topics, vec![s("y")]);
}

#[test]
fn first_listing_of_a_host_stands() {
    let hosts = vec![
        HostDetails::new("a", 1, vec![s("x")]),
        HostDetails::new("a", 2, vec![s("y")]),
    ];
    let state = NsqState::new(hosts, NsqFilter::Producer { hosts: vec![s("a")] });
    assert_eq!(state.host_details.len(), 1);
    assert_eq!(state.host_details[0].base_url, "a:1");
}

#[test]
fn hosts_and_topics_are_ordered() {
    let hosts = vec![
        HostDetails::new("zeta", 1, vec![s("q"), s("b"), s("q")]),
        HostDetails::new("alpha", 2, vec![s("b")]),
    ];
    let state = NsqState::new(hosts, NsqFilter::Topic { topics: vec![s("b"), s("q")] });
    let names: Vec<&str> = state.host_details.iter().map(|h| h.hostname.as_str()).collect();
    assert_eq!(names, vec!["alpha", "zeta"]);
    assert_eq!(state.host_details[1].topics, vec![s("b"), s("q")]);
}

#[test]
fn topic_url_is_the_first_advertising_host() {
    let state = NsqState::new(discovered(), all_topics());
    assert_eq!(state.get_topic_url("y"), Some(s("http://a:4151")));
    assert_eq!(state.get_topic_url("x"), Some(s("http://a:4151")));
    assert_eq!(state.get_topic_url("z"), None);
    let only_b = NsqState::new(discovered(), NsqFilter::Producer { hosts: vec![s("b")] });
    assert_eq!(only_b.get_topic_url("y"), Some(s("http://b:4151")));
    assert_eq!(only_b.get_topic_url("x"), None);
}

#[test]
fn urls_of_the_endpoints() {
    let h = HostDetails::new("broker", 4151, vec![]);
    assert_eq!(h.stats_url(), "http://broker:4151/stats?format=json");
    assert_eq!(kopy::cluster::nodes_url("lookup:4161"), "http://lookup:4161/nodes");
    assert_eq!(
        kopy::cluster::submit_url("http://broker:4151", "events"),
        "http://broker:4151/pub?topic=events"
    );
}

#[test]
fn host_status_keeps_the_reported_values() {
    let h = HostDetails::new("a", 4151, vec![s("x")]);
    let status = h.create_host_status(Some(stats_a()));
    assert_eq!(status.status.len(), 2);
    assert_eq!(status.status[0].topic_name, "x");
    assert_eq!(status.status[0].channels[0].topic_name, "x");
    assert_eq!(status.status[0].channels[0].message_count, 7);
    assert_eq!(status.status[0].channels[0].consumers[0].hostname, "consumer.local");
}

#[test]
fn topic_depth_for_the_depth_monitor() {
    let state = NsqState::new(discovered(), all_topics());
    let a = host(&state, "a").create_host_status(Some(stats_a()));
    let b = host(&state, "b").create_host_status(Some(stats_b()));
    let snapshot = state.update_status(1000, vec![Some(a), Some(b)]);
    assert_eq!(snapshot.topic_depth("x"), Some(3));
    assert_eq!(snapshot.topic_depth("y"), Some(2));
    assert_eq!(snapshot.topic_depth("z"), None);
}

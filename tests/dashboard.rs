use kopy::dashboard::{
    counter_change, depth_change_cell, gauge_change, make_channel_table, rate_cell, rate_centi,
    should_stop, sleep_millis, topic_totals, ConfigOptions,
};
use kopy::snapshot::{
    NsqSnapshot, NsqTopicConsumerSnapshot, NsqTopicProducerAggregate, NsqTopicProducerSnapshot,
    NsqTopicSnapshot,
};

fn s(v: &str) -> String {
    v.to_string()
}

fn consumer(name: &str, depth: u64) -> NsqTopicConsumerSnapshot {
    NsqTopicConsumerSnapshot { channel_name: s(name), finish_count: 40, in_progress: 2, depth }
}

fn snapshot(at: i64, depth_c: u64, messages: u64) -> NsqSnapshot {
    NsqSnapshot {
        pull_finished: at,
        topics: vec![NsqTopicSnapshot {
            name: s("t"),
            consumers: vec![consumer("c", depth_c), consumer("idle", 0)],
            producers: vec![NsqTopicProducerSnapshot { hostname: s("a"), message_count: messages, depth: 3 }],
        }],
        producers: vec![NsqTopicProducerAggregate { hostname: s("a"), depth: depth_c, message_count: 40 }],
    }
}

fn config(hide_zero_depth: bool) -> ConfigOptions {
    ConfigOptions::new("lookup", "4161", 1, None, false, hide_zero_depth)
}

#[test]
fn dashboard_diffing() {
    let previous = snapshot(10_000, 100, 500);
    let current = snapshot(11_000, 80, 600);
    let rows = make_channel_table(&config(true), &current, "t", Some(&previous)).expect("rows");
    assert_eq!(rows.len(), 1);
    assert_eq!(rows[0].channel_name, "c");
    assert_eq!(rows[0].depth, 80);
    assert_eq!(rows[0].depth_change, "-20 (-20.00 m/s)");
    assert_eq!(rows[0].in_flight, 2);
    assert_eq!(rows[0].finish_count, 40);

    let totals = topic_totals(&current.topics[0], Some(&previous), current.pull_finished);
    assert_eq!(totals.message_count, 600);
    let (change, rate) = totals.change.expect("previous snapshot holds the topic");
    assert_eq!(change, 100);
    assert_eq!(rate, "100.00 m/s");
}

#[test]
fn channel_table_without_previous_snapshot() {
    let current = snapshot(11_000, 80, 600);
    let rows = make_channel_table(&config(false), &current, "t", None).expect("rows");
    let names: Vec<&str> = rows.iter().map(|r| r.channel_name.as_str()).collect();
    assert_eq!(names, vec!["c", "idle"]);
    assert_eq!(rows[0].depth_change, "0");
    assert!(make_channel_table(&config(false), &current, "missing", None).is_none());
}

#[test]
fn channel_table_hides_zero_depth() {
    let current = snapshot(11_000, 0, 600);
    assert!(make_channel_table(&config(true), &current, "t", None).is_none());
}

#[test]
fn reset_counter_changes_by_nothing() {
    assert_eq!(counter_change(10, 25), 15);
    assert_eq!(counter_change(25, 10), 0);
    assert_eq!(counter_change(7, 7), 0);
    let previous = snapshot(10_000, 100, 500);
    let current = snapshot(12_000, 100, 20);
    let totals = topic_totals(&current.topics[0], Some(&previous), current.pull_finished);
    let (change, rate) = totals.change.unwrap();
    assert_eq!(change, 0);
    assert_eq!(rate, "0.00 m/s");
}

#[test]
fn rates_in_hundredths() {
    assert_eq!(gauge_change(100, 80), -20);
    assert_eq!(rate_centi(-20, 1000), -2000);
    assert_eq!(rate_centi(1, 3000), 33);
    assert_eq!(rate_centi(2, 3000), 67);
    assert_eq!(rate_centi(-1, 8000), -13);
    assert_eq!(rate_centi(5, 0), 0);
    assert_eq!(rate_cell(25, 2000), "12.50 m/s");
    assert_eq!(rate_cell(1, 3000), "0.33 m/s");
    assert_eq!(depth_change_cell(5, 12, 500), "7 (14.00 m/s)");
    assert_eq!(depth_change_cell(1, 0, 3000), "-1 (-0.33 m/s)");
}

#[test]
fn topic_totals_without_previous() {
    let current = snapshot(11_000, 80, 600);
    let totals = topic_totals(&current.topics[0], None, current.pull_finished);
    assert_eq!(totals.name, "t");
    assert_eq!(totals.depth, 3);
    assert!(totals.change.is_none());
}

#[test]
fn loop_timing() {
    assert_eq!(sleep_millis(1, 250), 750);
    assert_eq!(sleep_millis(1, 1500), 0);
    assert_eq!(sleep_millis(3, 0), 3000);
    assert!(should_stop(3, Some(3)));
    assert!(!should_stop(2, Some(3)));
    assert!(!should_stop(1000, None));
}

#[test]
fn delay_is_at_least_one_second() {
    let c = ConfigOptions::new("lookup", "4161", 0, Some(4), true, false);
    assert_eq!(c.delay, 1);
    assert_eq!(c.nsq_lookup, "lookup:4161");
    assert_eq!(c.count, Some(4));
    assert_eq!(ConfigOptions::new("h", "1", 5, None, false, false).delay, 5);
}

#[test]
fn host_table_covers_every_topic() {
    let previous = snapshot(10_000, 100, 500);
    let current = snapshot(12_000, 80, 700);
    let tables = kopy::dashboard::make_host_table(&current, Some(&previous));
    assert_eq!(tables.len(), 1);
    assert_eq!(tables[0].name, "t");
    assert_eq!(tables[0].rows.len(), 1);
    assert_eq!(tables[0].rows[0].hostname, "a");
    assert_eq!((tables[0].rows[0].depth, tables[0].rows[0].message_count), (3, 700));
    let (change, rate) = tables[0].change.clone().unwrap();
    assert_eq!(change, 200);
    assert_eq!(rate, "100.00 m/s");
}

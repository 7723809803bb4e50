use kopy::publisher::{
    clamp_max_depth, effective_limit, token_bucket, LineAction, NsqOptions, PublishState,
    PublishTally,
};

fn run(options: &NsqOptions, depth_at: &dyn Fn(usize) -> usize) -> (PublishTally, usize) {
    let mut state = PublishState::new(options);
    let mut tally = PublishTally::new();
    let mut waits = 0usize;
    let mut polls = 0usize;
    loop {
        let depth = depth_at(polls);
        polls += 1;
        match state.next_action(depth) {
            LineAction::Stop => break,
            LineAction::Skip => {
                state.advance();
                tally.line_skipped();
            }
            LineAction::Wait => waits += 1,
            LineAction::Enqueue => {
                state.advance();
                tally.line_queued();
                tally.post_finished(true);
            }
        }
    }
    (tally, waits)
}

fn options(lines: usize, offset: Option<usize>, limit: Option<usize>, max_depth: Option<i64>) -> NsqOptions {
    NsqOptions::new("input.txt", "events", "lookup", "4161", 10_000, offset, limit, max_depth, lines)
}

#[test]
fn publisher_with_depth_pause() {
    let opts = options(500, None, None, Some(100));
    // The monitor reports 150 for the first twenty looks, then 50.
    let (tally, waits) = run(&opts, &|poll| if poll < 20 { 150 } else { 50 });
    assert_eq!(waits, 20);
    assert_eq!(tally.sent, 500);
    assert_eq!(tally.errors, 0);
    assert_eq!(tally.offset_skipped, 0);
    let bucket = token_bucket(opts.rate_milli).unwrap();
    assert_eq!(bucket.capacity, 10);
    assert_eq!(bucket.interval_nanos, 100_000_000);
}

#[test]
fn offset_honoured() {
    let opts = options(100, Some(30), Some(50), None);
    let (tally, waits) = run(&opts, &|_| 0);
    assert_eq!(waits, 0);
    assert_eq!(tally.offset_skipped, 30);
    assert_eq!(tally.sent, 20);
    assert_eq!(tally.errors, 0);
    assert_eq!(tally.consumed, 50);
}

#[test]
fn depth_gate_never_enqueues() {
    let opts = options(10, Some(2), None, Some(5));
    let mut state = PublishState::new(&opts);
    assert!(matches!(state.next_action(9), LineAction::Skip));
    state.advance();
    state.advance();
    assert!(matches!(state.next_action(5), LineAction::Wait));
    assert!(matches!(state.next_action(4), LineAction::Enqueue));
}

#[test]
fn no_ceiling_never_waits() {
    let opts = options(3, None, None, None);
    assert_eq!(opts.max_depth, 0);
    let state = PublishState::new(&opts);
    assert!(matches!(state.next_action(1_000_000), LineAction::Enqueue));
    let given_zero = options(3, None, None, Some(0));
    assert_eq!(given_zero.max_depth, 1);
    let state = PublishState::new(&given_zero);
    assert!(matches!(state.next_action(1), LineAction::Wait));
}

#[test]
fn tally_accounts_for_every_line() {
    let mut t = PublishTally::new();
    t.line_skipped();
    t.line_queued();
    t.line_queued();
    t.queue_failed();
    assert_eq!(t.consumed, 4);
    assert_eq!(t.queued, 2);
    assert!(t.sent + t.errors + t.offset_skipped <= t.consumed);
    t.post_finished(true);
    t.post_finished(false);
    assert_eq!((t.sent, t.errors, t.offset_skipped, t.queued), (1, 2, 1, 0));
    assert_eq!(t.sent + t.errors + t.offset_skipped, t.consumed);
}

#[test]
fn max_depth_is_clamped() {
    assert_eq!(clamp_max_depth(5000), 1000);
    assert_eq!(clamp_max_depth(-3), 1);
    assert_eq!(clamp_max_depth(0), 1);
    assert_eq!(clamp_max_depth(1), 1);
    assert_eq!(clamp_max_depth(250), 250);
}

#[test]
fn limit_is_capped_to_the_input() {
    assert_eq!(effective_limit(None, 80), 80);
    assert_eq!(effective_limit(Some(100), 80), 80);
    assert_eq!(effective_limit(Some(50), 80), 50);
    let opts = options(80, None, Some(120), Some(2000));
    assert_eq!(opts.limit, 80);
    assert_eq!(opts.max_depth, 1000);
    assert_eq!(opts.offset, 0);
    assert_eq!(opts.nsq_lookup, "lookup:4161");
}

#[test]
fn token_bucket_parameters() {
    assert!(token_bucket(0).is_none());
    let slow = token_bucket(500).unwrap();
    assert_eq!(slow.capacity, 1);
    assert_eq!(slow.interval_nanos, 2_000_000_000);
    let fast = token_bucket(200_000).unwrap();
    assert_eq!(fast.capacity, 200);
    assert_eq!(fast.interval_nanos, 5_000_000);
    let fractional = token_bucket(2_500).unwrap();
    assert_eq!(fractional.capacity, 3);
    assert_eq!(fractional.interval_nanos, 400_000_000);
}

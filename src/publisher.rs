//! The decisions of the rate-limited publisher: its settings, what to do with
//! each line of the input, and the counters it reports.
use vstd::prelude::*;

use crate::text::concat3;

verus! {

/// The publisher's settings. `rate_milli` is the publish rate in thousandths
/// of a post per second.
pub struct NsqOptions {
    pub offset: usize,
    pub limit: usize,
    pub rate_milli: u64,
    pub nsq_lookup: String,
    pub topic: String,
    pub file: String,
    pub max_depth: usize,
}

/// A depth ceiling given on the command line, clamped to `[1, 1000]`. (With
/// no ceiling given, the publisher uses 0, which means no ceiling.)
pub open spec fn clamped_depth(requested: int) -> int {
    if requested > 1000 {
        1000
    } else if requested < 1 {
        1
    } else {
        requested
    }
}

pub fn clamp_max_depth(requested: i64) -> (r: usize)
    ensures
        r == clamped_depth(requested as int),
{
    if requested > 1000 {
        1000
    } else if requested < 1 {
        1
    } else {
        requested as usize
    }
}

/// How many lines to publish: the limit asked for, or every line, and never
/// more than the input holds.
pub fn effective_limit(requested: Option<usize>, number_of_lines: usize) -> (r: usize)
    ensures
        requested is None ==> r == number_of_lines,
        requested is Some ==> r == if requested->Some_0 > number_of_lines {
            number_of_lines
        } else {
            requested->Some_0
        },
{
    match requested {
        Some(limit) => if limit > number_of_lines {
            number_of_lines
        } else {
            limit
        },
        None => number_of_lines,
    }
}

impl NsqOptions {
    /// Settings from the command line, with the number of lines that the input holds.
    pub fn new(
        file: &str,
        topic: &str,
        lookup_host: &str,
        lookup_port: &str,
        rate_milli: u64,
        offset: Option<usize>,
        limit: Option<usize>,
        max_depth: Option<i64>,
        number_of_lines: usize,
    ) -> (r: NsqOptions)
        ensures
            r.file@ == file@,
            r.topic@ == topic@,
            r.nsq_lookup@ == lookup_host@ + ":"@ + lookup_port@,
            r.rate_milli == rate_milli,
            r.offset == if offset is Some {
                offset->Some_0
            } else {
                0
            },
            r.limit == if limit is Some && limit->Some_0 <= number_of_lines {
                limit->Some_0
            } else {
                number_of_lines
            },
            r.max_depth == if max_depth is Some {
                clamped_depth(max_depth->Some_0 as int)
            } else {
                0
            },
    {
        let max_depth = match max_depth {
            Some(d) => clamp_max_depth(d),
            None => 0,
        };
        let offset = match offset {
            Some(o) => o,
            None => 0,
        };
        NsqOptions {
            offset,
            limit: effective_limit(limit, number_of_lines),
            rate_milli,
            nsq_lookup: concat3(lookup_host, ":", lookup_port),
            topic: topic.to_owned(),
            file: file.to_owned(),
            max_depth,
        }
    }
}

/// The token bucket that paces the posts: how many tokens it holds, and how
/// often it gains one.
pub struct BucketParams {
    pub capacity: u32,
    pub interval_nanos: u64,
}

/// The bucket for a rate of `rate_milli` thousandths of a post per second:
/// under one post a second, one token every `1/rate` seconds; else `ceil(rate)`
/// tokens, one every `1/rate` seconds. A rate of zero allows no posts.
pub fn token_bucket(rate_milli: u64) -> (r: Option<BucketParams>)
    ensures
        rate_milli == 0 <==> r is None,
        r is Some ==> r->Some_0.interval_nanos == 1_000_000_000_000int / (rate_milli as int),
        r is Some ==> r->Some_0.capacity == if rate_milli < 1000 {
            1
        } else {
            capped_u32((rate_milli as int + 999) / 1000)
        },
{
    if rate_milli == 0 {
        return None;
    }
    let interval_nanos = 1_000_000_000_000u64 / rate_milli;
    let capacity: u32 = if rate_milli < 1000 {
        1
    } else {
        let tokens: u64 = rate_milli / 1000 + if rate_milli % 1000 == 0 {
            0
        } else {
            1
        };
        proof {
            assert(tokens == (rate_milli as int + 999) / 1000);
        }
        if tokens > u32::MAX as u64 {
            u32::MAX
        } else {
            tokens as u32
        }
    };
    Some(BucketParams { capacity, interval_nanos })
}

/// `x`, or `u32::MAX` where it does not fit.
pub open spec fn capped_u32(x: int) -> u32 {
    if x > u32::MAX {
        u32::MAX
    } else {
        x as u32
    }
}

/// What the main loop does with the next line of input.
pub enum LineAction {
    /// The limit is reached: stop reading.
    Stop,
    /// The line lies before the offset: count it as skipped, post nothing.
    Skip,
    /// The broker is too deep: wait and look again.
    Wait,
    /// Take a token and queue the line for posting.
    Enqueue,
}

/// Where the main loop stands: how many lines it has taken from the input.
pub struct PublishState {
    pub consumed: usize,
    pub offset: usize,
    pub limit: usize,
    pub max_depth: usize,
}

impl PublishState {
    pub fn new(options: &NsqOptions) -> (r: PublishState)
        ensures
            r.consumed == 0,
            r.offset == options.offset,
            r.limit == options.limit,
            r.max_depth == options.max_depth,
    {
        PublishState {
            consumed: 0,
            offset: options.offset,
            limit: options.limit,
            max_depth: options.max_depth,
        }
    }

    /// The broker's depth gates admission: a ceiling is set and reached.
    pub open spec fn gated(&self, observed_depth: usize) -> bool {
        self.max_depth > 0 && observed_depth >= self.max_depth
    }

    /// What to do with the next line, given the depth last observed.
    pub fn next_action(&self, observed_depth: usize) -> (r: LineAction)
        ensures
            self.consumed >= self.limit ==> r == LineAction::Stop,
            self.consumed < self.limit && self.consumed < self.offset ==> r == LineAction::Skip,
            self.consumed < self.limit && self.consumed >= self.offset && self.gated(observed_depth)
                ==> r == LineAction::Wait,
            self.consumed < self.limit && self.consumed >= self.offset && !self.gated(
                observed_depth,
            ) ==> r == LineAction::Enqueue,
            self.gated(observed_depth) ==> r != LineAction::Enqueue,
    {
        if self.consumed >= self.limit {
            LineAction::Stop
        } else if self.consumed < self.offset {
            LineAction::Skip
        } else if self.max_depth > 0 && observed_depth >= self.max_depth {
            LineAction::Wait
        } else {
            LineAction::Enqueue
        }
    }

    /// The line was taken from the input (skipped or queued).
    pub fn advance(&mut self)
        requires
            old(self).consumed < old(self).limit,
        ensures
            final(self).consumed == old(self).consumed + 1,
            final(self).offset == old(self).offset,
            final(self).limit == old(self).limit,
            final(self).max_depth == old(self).max_depth,
    {
        self.consumed = self.consumed + 1;
    }
}

/// The publisher's counters: lines taken from the input, lines in the queue or
/// being posted, and how each other line ended.
pub struct PublishTally {
    pub consumed: u64,
    pub queued: u64,
    pub sent: u64,
    pub errors: u64,
    pub offset_skipped: u64,
}

impl PublishTally {
    /// Every line taken is queued, sent, failed or skipped.
    pub open spec fn wf(&self) -> bool {
        self.sent + self.errors + self.offset_skipped + self.queued == self.consumed
    }

    pub fn new() -> (r: PublishTally)
        ensures
            r.wf(),
            r.consumed == 0 && r.queued == 0 && r.sent == 0 && r.errors == 0 && r.offset_skipped
                == 0,
    {
        PublishTally { consumed: 0, queued: 0, sent: 0, errors: 0, offset_skipped: 0 }
    }

    /// A line before the offset was skipped.
    pub fn line_skipped(&mut self)
        requires
            old(self).wf(),
            old(self).consumed < u64::MAX,
        ensures
            final(self).wf(),
            *final(self) == (PublishTally {
                consumed: (old(self).consumed + 1) as u64,
                offset_skipped: (old(self).offset_skipped + 1) as u64,
                ..*old(self)
            }),
    {
        self.consumed = self.consumed + 1;
        self.offset_skipped = self.offset_skipped + 1;
    }

    /// A line went into the queue.
    pub fn line_queued(&mut self)
        requires
            old(self).wf(),
            old(self).consumed < u64::MAX,
        ensures
            final(self).wf(),
            *final(self) == (PublishTally {
                consumed: (old(self).consumed + 1) as u64,
                queued: (old(self).queued + 1) as u64,
                ..*old(self)
            }),
    {
        self.consumed = self.consumed + 1;
        self.queued = self.queued + 1;
    }

    /// A line could not be queued: it counts as an error.
    pub fn queue_failed(&mut self)
        requires
            old(self).wf(),
            old(self).consumed < u64::MAX,
        ensures
            final(self).wf(),
            *final(self) == (PublishTally {
                consumed: (old(self).consumed + 1) as u64,
                errors: (old(self).errors + 1) as u64,
                ..*old(self)
            }),
    {
        self.consumed = self.consumed + 1;
        self.errors = self.errors + 1;
    }

    /// A queued line was posted; `ok` tells whether the post succeeded. A failed
    /// post is counted and dropped.
    pub fn post_finished(&mut self, ok: bool)
        requires
            old(self).wf(),
            old(self).queued > 0,
        ensures
            final(self).wf(),
            ok ==> *final(self) == (PublishTally {
                queued: (old(self).queued - 1) as u64,
                sent: (old(self).sent + 1) as u64,
                ..*old(self)
            }),
            !ok ==> *final(self) == (PublishTally {
                queued: (old(self).queued - 1) as u64,
                errors: (old(self).errors + 1) as u64,
                ..*old(self)
            }),
    {
        self.queued = self.queued - 1;
        if ok {
            self.sent = self.sent + 1;
        } else {
            self.errors = self.errors + 1;
        }
    }
}

/// Sent, failed and skipped lines never outnumber the lines taken from the
/// input; once the queue is empty they account for every one of them.
pub proof fn lemma_tally_accounts_for_input(t: PublishTally)
    requires
        t.wf(),
    ensures
        t.sent + t.errors + t.offset_skipped <= t.consumed,
        t.queued == 0 ==> t.sent + t.errors + t.offset_skipped == t.consumed,
{
}

} // verus!

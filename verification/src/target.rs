use std::collections::VecDeque;
use std::collections::vec_deque::Iter;
use std::time::Duration;

use vstd::prelude::*;

use crate::address::Address;
use crate::reply::ReplyStatus;

verus! {

/// How many of the most recent RTT values a target keeps.
pub const HIST_SIZE: usize = 120;

/// Contains configuration and historical details for a given target
#[derive(Clone, Debug)]
pub struct Target {
    /// Friendly name appears the largest
    pub friendly_name: String,
    /// The IP Address of the target
    pub address: Address,
    /// Most recent RTT (round trip time) in milliseconds
    pub last_rtt: Option<u32>,
    /// Average RTT
    pub avg_rtt: Option<u32>,
    /// highest RTT
    pub max_rtt: Option<u32>,
    /// lowest RTT
    pub min_rtt: Option<u32>,
    /// The most recent RTT values, oldest first
    pub rtt_hist: VecDeque<u32>,
    /// Error count: an error increments, while a success decrements (if > 0)
    pub error_count: u32,
    /// RTT above this value (in milliseconds) is considered "high"
    pub rtt_high_threshold: u32,
    /// How long to wait (in seconds) between checks
    pub sleep_duration: u32,
    /// How long to wait (in seconds) for a response
    pub timeout_duration: u32,
    /// How many failed responses in a row are considered a problem
    pub error_count_threshold: u32,
}

/// The mathematical value of a target: its fields, with the name and the
/// history as sequences.
pub struct TargetView {
    pub name: Seq<char>,
    pub address: Address,
    pub last_rtt: Option<u32>,
    pub avg_rtt: Option<u32>,
    pub max_rtt: Option<u32>,
    pub min_rtt: Option<u32>,
    pub hist: Seq<u32>,
    pub error_count: u32,
    pub rtt_high_threshold: u32,
    pub sleep_duration: u32,
    pub timeout_duration: u32,
    pub error_count_threshold: u32,
}

impl View for Target {
    type V = TargetView;

    open spec fn view(&self) -> TargetView {
        TargetView {
            name: self.friendly_name@,
            address: self.address,
            last_rtt: self.last_rtt,
            avg_rtt: self.avg_rtt,
            max_rtt: self.max_rtt,
            min_rtt: self.min_rtt,
            hist: self.rtt_hist@,
            error_count: self.error_count,
            rtt_high_threshold: self.rtt_high_threshold,
            sleep_duration: self.sleep_duration,
            timeout_duration: self.timeout_duration,
            error_count_threshold: self.error_count_threshold,
        }
    }
}

/// The sum of a sequence of RTT values.
pub open spec fn hist_sum(s: Seq<u32>) -> int
    decreases s.len(),
{
    if s.len() == 0 {
        0
    } else {
        hist_sum(s.drop_last()) + s.last()
    }
}

/// The history after recording `rtt`: appended at the back, with the oldest
/// value dropped first when the history is already full.
pub open spec fn hist_after(h: Seq<u32>, rtt: u32) -> Seq<u32> {
    if h.len() >= HIST_SIZE {
        h.drop_first().push(rtt)
    } else {
        h.push(rtt)
    }
}

/// The (rounded down) mean of a non-empty history.
pub open spec fn hist_mean(h: Seq<u32>) -> int {
    hist_sum(h) / (h.len() as int)
}

/// What a target becomes after one reply.  A success records the RTT in the
/// history, widens the extremes to include it, makes it the last RTT, sets
/// the average to the mean of the history and decrements a positive error
/// count; a failure of either kind increments the error count and keeps
/// everything else.
pub open spec fn after_reply(v: TargetView, reply: ReplyStatus) -> TargetView {
    match reply {
        ReplyStatus::SuccessTimed(rtt) => {
            let h = hist_after(v.hist, rtt);
            TargetView {
                last_rtt: Some(rtt),
                avg_rtt: Some(hist_mean(h) as u32),
                max_rtt: Some(
                    match v.max_rtt {
                        Some(m) => if m >= rtt { m } else { rtt },
                        None => rtt,
                    },
                ),
                min_rtt: Some(
                    match v.min_rtt {
                        Some(m) => if m <= rtt { m } else { rtt },
                        None => rtt,
                    },
                ),
                hist: h,
                error_count: if v.error_count > 0 { (v.error_count - 1) as u32 } else { 0 },
                ..v
            }
        },
        _ => TargetView { error_count: (v.error_count + 1) as u32, ..v },
    }
}

/// The replies on which `update_from_reply` stays within `u32`: the sum of
/// the history that a success produces fits, and so does its length, and a
/// failure does not push the error count past its maximum.
pub open spec fn reply_fits(v: TargetView, reply: ReplyStatus) -> bool {
    match reply {
        ReplyStatus::SuccessTimed(rtt) => {
            &&& hist_sum(hist_after(v.hist, rtt)) <= u32::MAX
            &&& hist_after(v.hist, rtt).len() <= u32::MAX
        },
        _ => v.error_count < u32::MAX,
    }
}

/// The standard `Duration` of the given number of milliseconds.
pub uninterp spec fn duration_of_millis(ms: u64) -> Duration;

/// Calls `std::time::Duration::from_millis`; the contract only names the
/// result as a function of the argument.
#[verifier::external_body]
fn duration_from_millis(ms: u64) -> (d: Duration)
    ensures
        d == duration_of_millis(ms),
{
    Duration::from_millis(ms)
}

/// The standard `Duration` of the given number of seconds.
pub uninterp spec fn duration_of_secs(secs: u64) -> Duration;

/// Calls `std::time::Duration::from_secs`; the contract only names the
/// result as a function of the argument.
#[verifier::external_body]
fn duration_from_secs(secs: u64) -> (d: Duration)
    ensures
        d == duration_of_secs(secs),
{
    Duration::from_secs(secs)
}

proof fn lemma_sum_take_step(s: Seq<u32>, i: int)
    requires
        0 <= i < s.len(),
    ensures
        hist_sum(s.take(i + 1)) == hist_sum(s.take(i)) + s[i],
{
    assert(s.take(i + 1).drop_last() =~= s.take(i));
}

proof fn lemma_sum_prefix_le(s: Seq<u32>, i: int)
    requires
        0 <= i <= s.len(),
    ensures
        hist_sum(s.take(i)) <= hist_sum(s),
    decreases s.len(),
{
    if i == s.len() {
        assert(s.take(i) =~= s);
    } else {
        lemma_sum_prefix_le(s.drop_last(), i);
        assert(s.drop_last().take(i) =~= s.take(i));
    }
}

impl Target {
    /// Create a new Target object with the needed parameters: the wait
    /// between checks and the time-out in seconds, the high-RTT threshold in
    /// milliseconds.
    pub fn new(
        friendly_name: String,
        address: Address,
        sleep_period: u32,
        timeout_period: u32,
        rtt_high_threshold_ms: u32,
        error_count_threshold: u32,
    ) -> (t: Target)
        ensures
            t@ == (TargetView {
                name: friendly_name@,
                address,
                last_rtt: None,
                avg_rtt: None,
                max_rtt: None,
                min_rtt: None,
                hist: Seq::empty(),
                error_count: 0,
                rtt_high_threshold: rtt_high_threshold_ms,
                sleep_duration: sleep_period,
                timeout_duration: timeout_period,
                error_count_threshold,
            }),
    {
        Target {
            friendly_name,
            address,
            last_rtt: None,
            avg_rtt: None,
            max_rtt: None,
            min_rtt: None,
            rtt_hist: VecDeque::with_capacity(HIST_SIZE),
            error_count: 0,
            rtt_high_threshold: rtt_high_threshold_ms,
            sleep_duration: sleep_period,
            timeout_duration: timeout_period,
            error_count_threshold,
        }
    }

    /// Update the Target data based on the ReplyStatus
    pub fn update_from_reply(&mut self, reply_status: ReplyStatus)
        requires
            reply_fits(old(self)@, reply_status),
        ensures
            final(self)@ == after_reply(old(self)@, reply_status),
    {
        match reply_status {
            ReplyStatus::SuccessTimed(rtt) => {
                self.push_rtt(rtt);
                self.last_rtt = Some(rtt);
                self.update_rtt_avg();
                if self.error_count > 0 {
                    self.error_count = self.error_count - 1;
                }
            },
            ReplyStatus::TimedOut | ReplyStatus::OtherFailure => {
                self.error_count = self.error_count + 1;
            },
        }
    }

    /// Push to the history, trimming it if full, and widen the extremes.
    fn push_rtt(&mut self, rtt: u32)
        ensures
            final(self)@ == (TargetView {
                hist: hist_after(old(self)@.hist, rtt),
                max_rtt: after_reply(old(self)@, ReplyStatus::SuccessTimed(rtt)).max_rtt,
                min_rtt: after_reply(old(self)@, ReplyStatus::SuccessTimed(rtt)).min_rtt,
                ..old(self)@
            }),
    {
        if self.rtt_hist.len() >= HIST_SIZE {
            self.rtt_hist.pop_front();
        }
        self.rtt_hist.push_back(rtt);
        let old_max = match self.max_rtt {
            Some(m) => m,
            None => 0,
        };
        self.max_rtt = Some(if old_max >= rtt { old_max } else { rtt });
        let old_min = match self.min_rtt {
            Some(m) => m,
            None => u32::MAX,
        };
        self.min_rtt = Some(if old_min <= rtt { old_min } else { rtt });
        proof {
            assert(self.rtt_hist@ =~= hist_after(old(self)@.hist, rtt));
        }
    }

    /// Compute and store the RTT average
    fn update_rtt_avg(&mut self)
        requires
            old(self).rtt_hist@.len() > 0,
            old(self).rtt_hist@.len() <= u32::MAX,
            hist_sum(old(self).rtt_hist@) <= u32::MAX,
        ensures
            final(self)@ == (TargetView {
                avg_rtt: Some(hist_mean(old(self)@.hist) as u32),
                ..old(self)@
            }),
    {
        let len = self.rtt_hist.len();
        let ghost h = self.rtt_hist@;
        let mut total: u32 = 0;
        let mut i: usize = 0;
        while i < len
            invariant
                len == h.len(),
                h == self.rtt_hist@,
                0 <= i <= len,
                total == hist_sum(h.take(i as int)),
                hist_sum(h) <= u32::MAX,
            decreases len - i,
        {
            proof {
                lemma_sum_take_step(h, i as int);
                lemma_sum_prefix_le(h, i as int + 1);
            }
            total = total + self.rtt_hist[i];
            i = i + 1;
        }
        proof {
            assert(h.take(len as int) =~= h);
        }
        self.avg_rtt = Some(total / (len as u32));
    }

    /// Whether `update_from_reply` can record `reply` within `u32`: for a
    /// success, whether the sum and the length of the resulting history fit;
    /// for a failure, whether the error count can still grow.
    pub fn accepts_reply(&self, reply: ReplyStatus) -> (ok: bool)
        ensures
            ok == reply_fits(self@, reply),
    {
        match reply {
            ReplyStatus::SuccessTimed(rtt) => {
                let len = self.rtt_hist.len();
                let start: usize = if len >= HIST_SIZE { 1 } else { 0 };
                let ghost h = self.rtt_hist@;
                let ghost base = h.subrange(start as int, len as int);
                proof {
                    if start == 1 {
                        assert(base =~= h.drop_first());
                    } else {
                        assert(base =~= h);
                    }
                    assert(hist_after(h, rtt).drop_last() =~= base);
                    assert(hist_sum(hist_after(h, rtt)) == hist_sum(base) + rtt);
                    assert(hist_after(h, rtt).len() == base.len() + 1);
                }
                if len - start >= u32::MAX as usize {
                    return false;
                }
                let mut total: u64 = rtt as u64;
                let mut i: usize = start;
                while i < len
                    invariant
                        len == h.len(),
                        h == self.rtt_hist@,
                        base == h.subrange(start as int, len as int),
                        start <= i <= len,
                        total == hist_sum(base.take(i - start)) + rtt,
                        total <= u32::MAX,
                        hist_sum(hist_after(h, rtt)) == hist_sum(base) + rtt,
                        hist_after(h, rtt).len() == base.len() + 1,
                        base.len() < u32::MAX,
                        reply == ReplyStatus::SuccessTimed(rtt),
                    decreases len - i,
                {
                    proof {
                        lemma_sum_take_step(base, i - start);
                    }
                    total = total + self.rtt_hist[i] as u64;
                    if total > u32::MAX as u64 {
                        proof {
                            lemma_sum_prefix_le(base, i - start + 1);
                        }
                        return false;
                    }
                    i = i + 1;
                }
                proof {
                    assert(base.take(len - start) =~= base);
                }
                true
            },
            _ => self.error_count < u32::MAX,
        }
    }

    /// Get the target address
    pub fn addr(&self) -> (a: Address)
        ensures
            a == self@.address,
    {
        self.address
    }

    /// Get a front-to-back (oldest to newest) iterator
    pub fn hist_iter(&self) -> (it: Iter<'_, u32>)
        ensures
            it == vstd::std_specs::vecdeque::spec_iter(&self.rtt_hist),
    {
        self.rtt_hist.iter()
    }

    pub fn error_count(&self) -> (c: u32)
        ensures
            c == self@.error_count,
    {
        self.error_count
    }

    pub fn last_rtt(&self) -> (r: Option<u32>)
        ensures
            r == self@.last_rtt,
    {
        self.last_rtt
    }

    pub fn avg_rtt(&self) -> (r: Option<u32>)
        ensures
            r == self@.avg_rtt,
    {
        self.avg_rtt
    }

    pub fn min_rtt(&self) -> (r: Option<u32>)
        ensures
            r == self@.min_rtt,
    {
        self.min_rtt
    }

    pub fn max_rtt(&self) -> (r: Option<u32>)
        ensures
            r == self@.max_rtt,
    {
        self.max_rtt
    }

    pub fn name(&self) -> (n: &str)
        ensures
            n@ == self@.name,
    {
        self.friendly_name.as_str()
    }

    pub fn rtt_high_threshold(&self) -> (d: Duration)
        ensures
            d == duration_of_millis(self@.rtt_high_threshold as u64),
    {
        duration_from_millis(self.rtt_high_threshold as u64)
    }

    pub fn sleep_duration(&self) -> (d: Duration)
        ensures
            d == duration_of_secs(self@.sleep_duration as u64),
    {
        duration_from_secs(self.sleep_duration as u64)
    }

    pub fn timeout_duration(&self) -> (d: Duration)
        ensures
            d == duration_of_secs(self@.timeout_duration as u64),
    {
        duration_from_secs(self.timeout_duration as u64)
    }

    pub fn error_count_threshold(&self) -> (c: u32)
        ensures
            c == self@.error_count_threshold,
    {
        self.error_count_threshold
    }
}

} // verus!

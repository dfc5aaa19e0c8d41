//! Properties of the RTT bookkeeping that hold over every reply and over
//! every sequence of replies.
use vstd::prelude::*;

use crate::reply::ReplyStatus;
use crate::target::{after_reply, hist_after, hist_mean, hist_sum, TargetView, HIST_SIZE};

verus! {

/// The statistics of a target agree with its history: the history holds at
/// most `HIST_SIZE` values; with an empty history there are no statistics;
/// otherwise the last RTT is the newest value, the average is the mean of the
/// history, and every value lies between the lowest and the highest RTT.
pub open spec fn stats_consistent(v: TargetView) -> bool {
    &&& v.hist.len() <= HIST_SIZE
    &&& v.hist.len() == 0 ==> {
        &&& v.last_rtt is None
        &&& v.avg_rtt is None
        &&& v.max_rtt is None
        &&& v.min_rtt is None
    }
    &&& v.hist.len() > 0 ==> {
        &&& v.last_rtt == Some(v.hist.last())
        &&& v.avg_rtt == Some(hist_mean(v.hist) as u32)
        &&& v.max_rtt is Some
        &&& v.min_rtt is Some
        &&& forall|i: int|
            0 <= i < v.hist.len() ==> v.min_rtt.unwrap() <= #[trigger] v.hist[i]
                <= v.max_rtt.unwrap()
    }
}

/// A target as `Target::new` makes it: no history, no statistics, no errors.
pub open spec fn is_fresh(v: TargetView) -> bool {
    &&& v.hist.len() == 0
    &&& v.last_rtt is None
    &&& v.avg_rtt is None
    &&& v.max_rtt is None
    &&& v.min_rtt is None
    &&& v.error_count == 0
}

/// The target after each reply of `replies` in turn.
pub open spec fn after_replies(v: TargetView, replies: Seq<ReplyStatus>) -> TargetView
    decreases replies.len(),
{
    if replies.len() == 0 {
        v
    } else {
        after_reply(after_replies(v, replies.drop_last()), replies.last())
    }
}

/// The RTTs of the successful replies, in order.
pub open spec fn success_rtts(replies: Seq<ReplyStatus>) -> Seq<u32>
    decreases replies.len(),
{
    if replies.len() == 0 {
        Seq::empty()
    } else {
        let earlier = success_rtts(replies.drop_last());
        match replies.last() {
            ReplyStatus::SuccessTimed(rtt) => earlier.push(rtt),
            _ => earlier,
        }
    }
}

/// The last `n` values of `s`, or all of them when there are fewer.
pub open spec fn last_n(s: Seq<u32>, n: nat) -> Seq<u32> {
    if s.len() <= n {
        s
    } else {
        s.subrange(s.len() - n, s.len() as int)
    }
}

/// `m` is the largest value of the non-empty `s`.
pub open spec fn is_max_of(m: u32, s: Seq<u32>) -> bool {
    &&& s.contains(m)
    &&& forall|i: int| 0 <= i < s.len() ==> #[trigger] s[i] <= m
}

/// `m` is the smallest value of the non-empty `s`.
pub open spec fn is_min_of(m: u32, s: Seq<u32>) -> bool {
    &&& s.contains(m)
    &&& forall|i: int| 0 <= i < s.len() ==> m <= #[trigger] s[i]
}

/// The sum of values that are all at most `m` is at most `len * m`, and that
/// of values that are all at least `m` is at least `len * m`.
proof fn lemma_sum_bounds(s: Seq<u32>, lo: int, hi: int)
    requires
        forall|i: int| 0 <= i < s.len() ==> lo <= #[trigger] s[i] <= hi,
    ensures
        s.len() * lo <= hist_sum(s) <= s.len() * hi,
    decreases s.len(),
{
    if s.len() > 0 {
        let t = s.drop_last();
        assert forall|i: int| 0 <= i < t.len() implies lo <= #[trigger] t[i] <= hi by {
            assert(t[i] == s[i]);
        }
        lemma_sum_bounds(t, lo, hi);
        assert(s.last() == s[s.len() - 1]);
        assert(s.len() * lo == t.len() * lo + lo) by (nonlinear_arith)
            requires
                s.len() == t.len() + 1,
        ;
        assert(s.len() * hi == t.len() * hi + hi) by (nonlinear_arith)
            requires
                s.len() == t.len() + 1,
        ;
    }
}

/// The mean of a non-empty history lies between its smallest and its largest
/// value.
proof fn lemma_mean_between(s: Seq<u32>, lo: int, hi: int)
    requires
        s.len() > 0,
        forall|i: int| 0 <= i < s.len() ==> lo <= #[trigger] s[i] <= hi,
    ensures
        lo <= hist_mean(s) <= hi,
{
    lemma_sum_bounds(s, lo, hi);
    let n = s.len() as int;
    let t = hist_sum(s);
    assert(lo <= t / n <= hi) by (nonlinear_arith)
        requires
            n > 0,
            n * lo <= t <= n * hi,
    ;
}

/// Law: the average RTT of a consistent target with a non-empty history
/// lies between its lowest and its highest RTT.
pub proof fn lemma_avg_between_min_and_max(v: TargetView)
    requires
        stats_consistent(v),
        v.hist.len() > 0,
    ensures
        v.min_rtt.unwrap() <= v.avg_rtt.unwrap() <= v.max_rtt.unwrap(),
{
    lemma_mean_between(v.hist, v.min_rtt.unwrap() as int, v.max_rtt.unwrap() as int);
}

/// Law: a fresh target is consistent.
pub proof fn lemma_fresh_is_consistent(v: TargetView)
    requires
        is_fresh(v),
    ensures
        stats_consistent(v),
{
}

/// Law: every reply keeps a target consistent.
pub proof fn lemma_reply_keeps_consistent(v: TargetView, reply: ReplyStatus)
    requires
        stats_consistent(v),
    ensures
        stats_consistent(after_reply(v, reply)),
{
    if let ReplyStatus::SuccessTimed(rtt) = reply {
        let w = after_reply(v, reply);
        let h = hist_after(v.hist, rtt);
        let lo = w.min_rtt.unwrap();
        let hi = w.max_rtt.unwrap();
        assert forall|i: int| 0 <= i < h.len() implies lo <= #[trigger] h[i] <= hi by {
            if i < h.len() - 1 {
                if v.hist.len() >= HIST_SIZE {
                    assert(h[i] == v.hist[i + 1]);
                } else {
                    assert(h[i] == v.hist[i]);
                }
            }
        }
        lemma_mean_between(h, lo as int, hi as int);
    }
}

/// Law: starting from a target with no history and no statistics, after any
/// sequence of replies the history is the last `HIST_SIZE` RTTs of the
/// successful replies, oldest first; and when there was a success, the last
/// RTT is that of the latest success while the highest and the lowest RTT
/// are the largest and the smallest RTT of all successes; when there was
/// none, there are no statistics.
pub proof fn lemma_replies_history(v: TargetView, replies: Seq<ReplyStatus>)
    requires
        v.hist.len() == 0,
        v.last_rtt is None,
        v.max_rtt is None,
        v.min_rtt is None,
    ensures
        after_replies(v, replies).hist == last_n(success_rtts(replies), HIST_SIZE as nat),
        success_rtts(replies).len() == 0 ==> {
            &&& after_replies(v, replies).last_rtt is None
            &&& after_replies(v, replies).max_rtt is None
            &&& after_replies(v, replies).min_rtt is None
        },
        success_rtts(replies).len() > 0 ==> {
            &&& after_replies(v, replies).last_rtt == Some(success_rtts(replies).last())
            &&& after_replies(v, replies).max_rtt matches Some(m) && is_max_of(
                m,
                success_rtts(replies),
            )
            &&& after_replies(v, replies).min_rtt matches Some(m) && is_min_of(
                m,
                success_rtts(replies),
            )
        },
    decreases replies.len(),
{
    if replies.len() == 0 {
        assert(last_n(Seq::<u32>::empty(), HIST_SIZE as nat) =~= v.hist);
    } else {
        let earlier = replies.drop_last();
        lemma_replies_history(v, earlier);
        let p = after_replies(v, earlier);
        let s = success_rtts(earlier);
        if let ReplyStatus::SuccessTimed(rtt) = replies.last() {
            let s2 = s.push(rtt);
            assert(success_rtts(replies) == s2);
            // the history
            if s.len() >= HIST_SIZE {
                assert(hist_after(p.hist, rtt) =~= last_n(s2, HIST_SIZE as nat));
            } else {
                assert(hist_after(p.hist, rtt) =~= last_n(s2, HIST_SIZE as nat));
            }
            // the extremes
            let w = after_replies(v, replies);
            let hi = w.max_rtt.unwrap();
            let lo = w.min_rtt.unwrap();
            if s.len() == 0 {
                assert(s2[0] == rtt);
                assert(s2.contains(rtt));
            } else {
                let pm = p.max_rtt.unwrap();
                let pl = p.min_rtt.unwrap();
                let j = choose|j: int| 0 <= j < s.len() && s[j] == pm;
                let k = choose|k: int| 0 <= k < s.len() && s[k] == pl;
                assert(s2[j] == pm);
                assert(s2[k] == pl);
                assert(s2[s.len() as int] == rtt);
                assert(s2.contains(hi));
                assert(s2.contains(lo));
                assert forall|i: int| 0 <= i < s2.len() implies lo <= #[trigger] s2[i] <= hi by {
                    if i < s.len() {
                        assert(s2[i] == s[i]);
                    }
                }
            }
        } else {
            assert(success_rtts(replies) == s);
        }
    }
}

/// Law: after a success the average RTT is the mean of the kept history
/// rounded down: `avg * len <= sum < (avg + 1) * len`; the history ends with
/// the new RTT and is at most one longer than before.
pub proof fn lemma_success_average(v: TargetView, rtt: u32)
    requires
        v.hist.len() <= HIST_SIZE,
    ensures
        ({
            let w = after_reply(v, ReplyStatus::SuccessTimed(rtt));
            let n = w.hist.len() as int;
            let a = w.avg_rtt.unwrap() as int;
            &&& w.hist.len() > 0
            &&& w.hist.last() == rtt
            &&& w.hist.len() <= HIST_SIZE
            &&& w.last_rtt == Some(rtt)
            &&& a * n <= hist_sum(w.hist) < (a + 1) * n
        }),
{
    let w = after_reply(v, ReplyStatus::SuccessTimed(rtt));
    let h = w.hist;
    let n = h.len() as int;
    assert forall|i: int| 0 <= i < h.len() implies 0 <= #[trigger] h[i] <= u32::MAX by {}
    lemma_mean_between(h, 0, u32::MAX as int);
    let t = hist_sum(h);
    let q = t / n;
    assert(q * n <= t < (q + 1) * n) by (nonlinear_arith)
        requires
            n > 0,
            q == t / n,
    ;
}

/// The error count that counting gives over `replies` from zero: one more
/// for each failure, one fewer for each success while it is positive.
pub open spec fn counted_errors(replies: Seq<ReplyStatus>) -> nat
    decreases replies.len(),
{
    if replies.len() == 0 {
        0
    } else {
        let c = counted_errors(replies.drop_last());
        if replies.last() is SuccessTimed {
            if c > 0 {
                (c - 1) as nat
            } else {
                0
            }
        } else {
            c + 1
        }
    }
}

/// Law: a failure of either kind adds exactly one to the error count, whatever
/// the error threshold and the rest of the target, and leaves every RTT
/// statistic and setting as it was; a success takes one off a positive error
/// count and leaves a zero count at zero.
pub proof fn lemma_error_count_steps(v: TargetView, rtt: u32)
    ensures
        v.error_count < u32::MAX ==> after_reply(v, ReplyStatus::TimedOut).error_count
            == v.error_count + 1,
        v.error_count < u32::MAX ==> after_reply(v, ReplyStatus::OtherFailure).error_count
            == v.error_count + 1,
        after_reply(v, ReplyStatus::TimedOut).hist == v.hist,
        after_reply(v, ReplyStatus::OtherFailure).hist == v.hist,
        after_reply(v, ReplyStatus::TimedOut).last_rtt == v.last_rtt,
        after_reply(v, ReplyStatus::TimedOut).avg_rtt == v.avg_rtt,
        after_reply(v, ReplyStatus::TimedOut).max_rtt == v.max_rtt,
        after_reply(v, ReplyStatus::TimedOut).min_rtt == v.min_rtt,
        after_reply(v, ReplyStatus::TimedOut).error_count_threshold == v.error_count_threshold,
        v.error_count > 0 ==> after_reply(v, ReplyStatus::SuccessTimed(rtt)).error_count
            == v.error_count - 1,
        v.error_count == 0 ==> after_reply(v, ReplyStatus::SuccessTimed(rtt)).error_count == 0,
{
}

/// Law: from a target with no errors, after any sequence of (fewer than
/// `u32::MAX`) replies the error count is what counting gives: one more per
/// failure, one fewer per success while positive; it never exceeds the number
/// of replies.
pub proof fn lemma_replies_error_count(v: TargetView, replies: Seq<ReplyStatus>)
    requires
        v.error_count == 0,
        replies.len() < u32::MAX,
    ensures
        after_replies(v, replies).error_count == counted_errors(replies),
        counted_errors(replies) <= replies.len(),
    decreases replies.len(),
{
    if replies.len() > 0 {
        lemma_replies_error_count(v, replies.drop_last());
    }
}

} // verus!

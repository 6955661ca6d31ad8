//! The requests-per-minute window of a rate limiter: the times of the
//! requests admitted in the last minute, and the decision whether the next
//! request may go now or must wait. Times are nanoseconds on a monotonic
//! clock.
use vstd::prelude::*;
use std::collections::VecDeque;

verus! {

/// Length of the window: one minute.
pub const WINDOW_NANOS: u64 = 60_000_000_000;

/// The wait used when the oldest request is already older than the window.
pub const FALLBACK_WAIT_NANOS: u64 = 100_000_000;

/// Concurrent transcription requests.
pub const ASR_MAX_CONCURRENT: usize = 3;

/// Transcription requests per minute (the API allows 100; a tenth is kept
/// in reserve).
pub const ASR_RPM_LIMIT: usize = 90;

/// Concurrent chat requests.
pub const CHAT_MAX_CONCURRENT: usize = 3;

/// Chat requests per minute (the API allows 100; a tenth is kept in
/// reserve).
pub const CHAT_RPM_LIMIT: usize = 90;

/// Time elapsed from `t` to `now`; zero when `t` is later.
pub open spec fn age(now: u64, t: u64) -> u64 {
    if now >= t {
        (now - t) as u64
    } else {
        0
    }
}

/// The recorded times after dropping, from the front, those older than the
/// window.
pub open spec fn expire(times: Seq<u64>, now: u64) -> Seq<u64>
    decreases times.len(),
{
    if times.len() > 0 && age(now, times[0]) > WINDOW_NANOS {
        expire(times.drop_first(), now)
    } else {
        times
    }
}

/// How many recorded times are within the window.
pub open spec fn recent_count(times: Seq<u64>, now: u64) -> nat
    decreases times.len(),
{
    if times.len() == 0 {
        0
    } else {
        recent_count(times.drop_last(), now) + if age(now, times.last()) <= WINDOW_NANOS {
            1nat
        } else {
            0nat
        }
    }
}

/// Law: the count of recent requests adds up over the parts of a record.
pub proof fn lemma_recent_count_append(a: Seq<u64>, b: Seq<u64>, now: u64)
    ensures
        recent_count(a + b, now) == recent_count(a, now) + recent_count(b, now),
    decreases b.len(),
{
    if b.len() == 0 {
        assert(a + b =~= a);
    } else {
        lemma_recent_count_append(a, b.drop_last(), now);
        assert((a + b).drop_last() =~= a + b.drop_last());
        assert((a + b).last() == b.last());
    }
}

/// Law: one recorded request counts at `now` exactly when it is not more
/// than a minute before `now` (a time after `now` counts as no time ago).
pub proof fn lemma_recent_count_one(t: u64, now: u64)
    ensures
        recent_count(seq![t], now) == (if t <= now && now - t > 60_000_000_000 {
            0nat
        } else {
            1nat
        }),
{
    assert(seq![t].drop_last() =~= Seq::<u64>::empty());
    assert(recent_count(Seq::<u64>::empty(), now) == 0);
    assert(seq![t].last() == t);
    assert(seq![t].len() == 1);
}

/// Law: requests recorded more than a minute before `now` are not counted;
/// when all of them are, the count is zero, and when none is, every request
/// counts.
pub proof fn lemma_recent_count_bounds(times: Seq<u64>, now: u64)
    ensures
        (forall|i: int| 0 <= i < times.len() ==> #[trigger] times[i] <= now && now - times[i]
            > 60_000_000_000) ==> recent_count(times, now) == 0,
        (forall|i: int|
            0 <= i < times.len() ==> !(#[trigger] times[i] <= now && now - times[i]
                > 60_000_000_000)) ==> recent_count(times, now) == times.len(),
    decreases times.len(),
{
    if times.len() > 0 {
        lemma_recent_count_bounds(times.drop_last(), now);
        let k = times.len() - 1;
        if forall|i: int| 0 <= i < times.len() ==> #[trigger] times[i] <= now && now - times[i]
            > 60_000_000_000 {
            assert(times[k] <= now);
            assert forall|i: int| 0 <= i < times.drop_last().len() implies #[trigger] times.drop_last()[i]
                <= now && now - times.drop_last()[i] > 60_000_000_000 by {
                assert(times.drop_last()[i] == times[i]);
            }
        }
        if forall|i: int|
            0 <= i < times.len() ==> !(#[trigger] times[i] <= now && now - times[i]
                > 60_000_000_000) {
            assert(!(times[k] <= now && now - times[k] > 60_000_000_000));
            assert forall|i: int| 0 <= i < times.drop_last().len() implies !(
            #[trigger] times.drop_last()[i] <= now && now - times.drop_last()[i] > 60_000_000_000) by {
                assert(times.drop_last()[i] == times[i]);
            }
        }
    }
}

/// A request at `now`: after expiry, it is admitted and recorded when fewer
/// than `limit` requests remain; with a limit of zero it is admitted without
/// being recorded; otherwise it must wait until the oldest request leaves the
/// window.
pub open spec fn admission(times: Seq<u64>, limit: nat, now: u64) -> (Seq<u64>, Option<u64>) {
    let kept = expire(times, now);
    if kept.len() < limit {
        (kept.push(now), None)
    } else if kept.len() == 0 {
        (kept, None)
    } else {
        let a = age(now, kept[0]);
        (kept, Some(if a <= WINDOW_NANOS { (WINDOW_NANOS - a) as u64 } else { FALLBACK_WAIT_NANOS }))
    }
}

proof fn lemma_expire_len(times: Seq<u64>, now: u64)
    ensures
        expire(times, now).len() <= times.len(),
    decreases times.len(),
{
    if times.len() > 0 && age(now, times[0]) > WINDOW_NANOS {
        lemma_expire_len(times.drop_first(), now);
    }
}

proof fn lemma_recent_count_len(times: Seq<u64>, now: u64)
    ensures
        recent_count(times, now) <= times.len(),
    decreases times.len(),
{
    if times.len() > 0 {
        lemma_recent_count_len(times.drop_last(), now);
    }
}

/// Whether a request admitted at `a` falls in the minute that ends at `t`.
pub open spec fn in_minute(a: u64, t: u64) -> bool {
    a <= t && t - a <= WINDOW_NANOS
}

/// How many of the times `adm` fall in the minute that ends at `t`.
pub open spec fn minute_count(adm: Seq<u64>, t: u64) -> nat
    decreases adm.len(),
{
    if adm.len() == 0 {
        0
    } else {
        minute_count(adm.drop_last(), t) + if in_minute(adm.last(), t) {
            1nat
        } else {
            0nat
        }
    }
}

/// The window, and the times of the admitted requests in order, after
/// requests at the times `reqs`, one after another, starting from `times`.
pub open spec fn admit_all(times: Seq<u64>, limit: nat, reqs: Seq<u64>) -> (Seq<u64>, Seq<u64>)
    decreases reqs.len(),
{
    if reqs.len() == 0 {
        (times, seq![])
    } else {
        let (w, adm) = admit_all(times, limit, reqs.drop_last());
        let (w2, wait) = admission(w, limit, reqs.last());
        (w2, if wait is None { adm.push(reqs.last()) } else { adm })
    }
}

proof fn lemma_expire_suffix(s: Seq<u64>, now: u64)
    ensures
        expire(s, now).len() <= s.len(),
        expire(s, now) == s.skip(s.len() - expire(s, now).len()),
        forall|i: int|
            0 <= i < s.len() - expire(s, now).len() ==> age(now, #[trigger] s[i]) > WINDOW_NANOS,
    decreases s.len(),
{
    if s.len() > 0 && age(now, s[0]) > WINDOW_NANOS {
        let r = s.drop_first();
        lemma_expire_suffix(r, now);
        assert(r.skip(r.len() - expire(r, now).len()) =~= s.skip(s.len() - expire(s, now).len()));
        assert forall|i: int| 0 <= i < s.len() - expire(s, now).len() implies age(
            now,
            #[trigger] s[i],
        ) > WINDOW_NANOS by {
            if i > 0 {
                assert(s[i] == r[i - 1]);
            }
        }
    } else {
        assert(s.skip(0) =~= s);
    }
}

proof fn lemma_minute_count_append(a: Seq<u64>, b: Seq<u64>, t: u64)
    ensures
        minute_count(a + b, t) == minute_count(a, t) + minute_count(b, t),
    decreases b.len(),
{
    if b.len() == 0 {
        assert(a + b =~= a);
    } else {
        lemma_minute_count_append(a, b.drop_last(), t);
        assert((a + b).drop_last() =~= a + b.drop_last());
        assert((a + b).last() == b.last());
    }
}

proof fn lemma_minute_count_len(s: Seq<u64>, t: u64)
    ensures
        minute_count(s, t) <= s.len(),
    decreases s.len(),
{
    if s.len() > 0 {
        lemma_minute_count_len(s.drop_last(), t);
    }
}

proof fn lemma_minute_count_zero(s: Seq<u64>, t: u64)
    requires
        forall|i: int| 0 <= i < s.len() ==> !in_minute(#[trigger] s[i], t),
    ensures
        minute_count(s, t) == 0,
    decreases s.len(),
{
    if s.len() > 0 {
        assert(!in_minute(s[s.len() - 1], t));
        lemma_minute_count_zero(s.drop_last(), t);
    }
}

proof fn lemma_minute_count_later(s: Seq<u64>, now: u64, t: u64)
    requires
        now <= t,
        forall|i: int| 0 <= i < s.len() ==> #[trigger] s[i] <= now,
    ensures
        minute_count(s, t) <= minute_count(s, now),
    decreases s.len(),
{
    if s.len() > 0 {
        assert(s[s.len() - 1] <= now);
        lemma_minute_count_later(s.drop_last(), now, t);
    }
}

/// What stays true of a window `w` and the admitted times `adm` after a
/// request at `last`: the window holds the latest admitted times, those before
/// them left the window at `last`, and no minute holds more than `limit`.
spec fn history_inv(w: Seq<u64>, adm: Seq<u64>, last: u64, limit: nat) -> bool {
    &&& w.len() <= adm.len()
    &&& w == adm.skip(adm.len() - w.len())
    &&& forall|i: int| 0 <= i < adm.len() ==> #[trigger] adm[i] <= last
    &&& forall|i: int|
        0 <= i < adm.len() - w.len() ==> last - #[trigger] adm[i] > WINDOW_NANOS
    &&& forall|t: u64| #[trigger] minute_count(adm, t) <= limit
}

proof fn lemma_history_step(w: Seq<u64>, adm: Seq<u64>, last: u64, limit: nat, now: u64)
    requires
        history_inv(w, adm, last, limit),
        last <= now,
        limit >= 1,
    ensures
        ({
            let (w2, wait) = admission(w, limit, now);
            history_inv(w2, if wait is None { adm.push(now) } else { adm }, now, limit)
        }),
{
    let kept = expire(w, now);
    lemma_expire_suffix(w, now);
    let d = w.len() - kept.len();
    let k = adm.len() - w.len();
    let k2 = k + d;
    assert(kept =~= adm.skip(k2));
    assert forall|i: int| 0 <= i < k2 implies now - #[trigger] adm[i] > WINDOW_NANOS by {
        if i >= k {
            assert(adm[i] == w[i - k]);
            assert(age(now, w[i - k]) > WINDOW_NANOS);
        }
    }
    if kept.len() < limit {
        let adm2 = adm.push(now);
        assert(adm2.skip(adm2.len() - (kept.len() + 1)) =~= kept.push(now));
        assert forall|i: int| 0 <= i < adm2.len() implies #[trigger] adm2[i] <= now by {
            if i < adm.len() {
                assert(adm2[i] == adm[i]);
            }
        }
        assert forall|i: int| 0 <= i < adm2.len() - (kept.len() + 1) implies now
            - #[trigger] adm2[i] > WINDOW_NANOS by {
            assert(adm2[i] == adm[i]);
        }
        assert forall|t: u64| #[trigger] minute_count(adm2, t) <= limit by {
            assert(adm2.drop_last() =~= adm);
            if t < now {
                assert(minute_count(adm, t) <= limit);
            } else {
                lemma_minute_count_later(adm2, now, t);
                let head = adm.take(k2);
                assert(adm2 =~= head + kept.push(now));
                lemma_minute_count_append(head, kept.push(now), now);
                lemma_minute_count_zero(head, now);
                assert(kept.push(now).drop_last() =~= kept);
                lemma_minute_count_len(kept, now);
            }
        }
    } else {
        assert(kept.len() > 0);
        assert forall|i: int| 0 <= i < adm.len() - kept.len() implies now - #[trigger] adm[i]
            > WINDOW_NANOS by {}
    }
}

proof fn lemma_admit_all_inv(limit: nat, reqs: Seq<u64>, start: u64)
    requires
        limit >= 1,
        forall|i: int, j: int| 0 <= i <= j < reqs.len() ==> reqs[i] <= reqs[j],
        forall|i: int| 0 <= i < reqs.len() ==> start <= #[trigger] reqs[i],
    ensures
        history_inv(
            admit_all(seq![], limit, reqs).0,
            admit_all(seq![], limit, reqs).1,
            if reqs.len() == 0 { start } else { reqs.last() },
            limit,
        ),
    decreases reqs.len(),
{
    if reqs.len() == 0 {
        let e = Seq::<u64>::empty();
        assert(e.skip(0) =~= e);
        assert forall|t: u64| #[trigger] minute_count(e, t) <= limit by {}
    } else {
        let prev = reqs.drop_last();
        lemma_admit_all_inv(limit, prev, start);
        let last = if prev.len() == 0 { start } else { prev.last() };
        assert(last <= reqs.last());
        let (w, adm) = admit_all(seq![], limit, prev);
        lemma_history_step(w, adm, last, limit, reqs.last());
    }
}

/// Law: on a clock that never goes back, a window that starts empty and
/// allows at least one request per minute admits, over any run of requests,
/// at most `limit` of them in any minute.
pub proof fn lemma_rpm_bound(limit: nat, reqs: Seq<u64>, t: u64)
    requires
        limit >= 1,
        forall|i: int, j: int| 0 <= i <= j < reqs.len() ==> reqs[i] <= reqs[j],
    ensures
        minute_count(admit_all(seq![], limit, reqs).1, t) <= limit,
{
    if reqs.len() > 0 {
        lemma_admit_all_inv(limit, reqs, reqs[0]);
    } else {
        lemma_admit_all_inv(limit, reqs, 0);
    }
}

/// The requests-per-minute window.
pub struct RpmWindow {
    times: VecDeque<u64>,
    rpm_limit: usize,
}

impl RpmWindow {
    /// The times of the admitted requests still recorded, oldest first.
    pub closed spec fn recorded(&self) -> Seq<u64> {
        self.times@
    }

    /// Requests allowed per minute.
    pub closed spec fn limit(&self) -> nat {
        self.rpm_limit as nat
    }

    #[verifier::type_invariant]
    spec fn within_limit(&self) -> bool {
        self.times@.len() <= self.rpm_limit
    }

    /// An empty window allowing `rpm_limit` requests per minute.
    pub fn new(rpm_limit: usize) -> (w: Self)
        ensures
            w.recorded().len() == 0,
            w.limit() == rpm_limit,
            recent_count(w.recorded(), 0) == 0,
    {
        RpmWindow { times: VecDeque::new(), rpm_limit }
    }

    /// Asks to send a request at `now`: `None` when it may go (and it is then
    /// recorded), or the nanoseconds to wait before asking again.
    pub fn try_acquire(&mut self, now: u64) -> (wait: Option<u64>)
        ensures
            (final(self).recorded(), wait) == admission(old(self).recorded(), old(self).limit(), now),
            final(self).limit() == old(self).limit(),
            final(self).recorded().len() <= final(self).limit(),
            recent_count(final(self).recorded(), now) <= final(self).limit(),
    {
        proof {
            use_type_invariant(&*self);
        }
        let mut times: VecDeque<u64> = VecDeque::new();
        std::mem::swap(&mut times, &mut self.times);
        let limit = self.rpm_limit;
        let ghost start = times@;
        loop
            invariant
                limit == old(self).rpm_limit,
                times@.len() <= limit,
                expire(start, now) == expire(times@, now),
            ensures
                times@.len() <= limit,
                expire(start, now) == times@,
            decreases times@.len(),
        {
            if times.len() == 0 {
                break;
            }
            let front = times[0];
            let elapsed = if now >= front { now - front } else { 0 };
            if elapsed > WINDOW_NANOS {
                times.pop_front();
                assert(times@ =~= start.subrange(0, 0) + times@);
            } else {
                break;
            }
        }
        let ghost kept = times@;
        assert(kept == expire(start, now));
        let r = if times.len() < limit {
            times.push_back(now);
            None
        } else if times.len() == 0 {
            None
        } else {
            let oldest = times[0];
            let elapsed = if now >= oldest { now - oldest } else { 0 };
            if elapsed <= WINDOW_NANOS {
                Some(WINDOW_NANOS - elapsed)
            } else {
                Some(FALLBACK_WAIT_NANOS)
            }
        };
        proof {
            lemma_recent_count_len(times@, now);
        }
        self.times = times;
        r
    }

    /// How many requests were admitted within the minute before `now`.
    pub fn current_rpm(&self, now: u64) -> (n: usize)
        ensures
            n == recent_count(self.recorded(), now),
            n <= self.limit(),
    {
        proof {
            use_type_invariant(self);
        }
        let mut n: usize = 0;
        let mut i: usize = 0;
        while i < self.times.len()
            invariant
                i <= self.times@.len(),
                n == recent_count(self.times@.take(i as int), now),
                n <= i,
            decreases self.times@.len() - i,
        {
            let t = self.times[i];
            let elapsed = if now >= t { now - t } else { 0 };
            assert(self.times@.take(i + 1).drop_last() == self.times@.take(i as int));
            if elapsed <= WINDOW_NANOS {
                n = n + 1;
            }
            i = i + 1;
        }
        assert(self.times@.take(self.times@.len() as int) == self.times@);
        n
    }
}

} // verus!

//! The per-domain rate limiter's schedule: one entry per throttle key,
//! holding the earliest instant (in milliseconds) at which the key's next
//! action may start. Granting a slot moves that instant forward by the
//! configured interval; distinct keys never delay one another. The waiting
//! itself is the caller's affair — this type only decides when each action
//! may start.

use vstd::prelude::*;

verus! {

use vstd::pervasive::VecAdditionalExecFns;

/// Addition that stops at the top of `u64` rather than wrapping.
pub open spec fn sat_add(a: u64, b: u64) -> u64 {
    if a + b > u64::MAX {
        u64::MAX
    } else {
        (a + b) as u64
    }
}

/// The earliest instant at which the key's next action may start; a key never
/// granted a slot may start at once.
pub open spec fn next_eligible(m: Map<Seq<char>, u64>, key: Seq<char>) -> u64 {
    if m.dom().contains(key) {
        m[key]
    } else {
        0
    }
}

/// When an action arriving at `now` may start: at once, or at the key's next
/// eligible instant, whichever is later.
pub open spec fn grant_start(m: Map<Seq<char>, u64>, key: Seq<char>, now: u64) -> u64 {
    if now >= next_eligible(m, key) {
        now
    } else {
        next_eligible(m, key)
    }
}

/// The schedule after granting a slot: the key's next eligible instant moves
/// to one interval past the granted start.
pub open spec fn grant_next(
    m: Map<Seq<char>, u64>,
    interval: u64,
    key: Seq<char>,
    now: u64,
) -> Map<Seq<char>, u64> {
    m.insert(key, sat_add(grant_start(m, key, now), interval))
}

/// The contents of a slot list: each key mapped to its next eligible instant.
pub open spec fn slots_map(s: Seq<(String, u64)>) -> Map<Seq<char>, u64>
    decreases s.len(),
{
    if s.len() == 0 {
        Map::empty()
    } else {
        slots_map(s.drop_last()).insert(s.last().0@, s.last().1)
    }
}

/// No key appears twice in the slot list.
pub open spec fn keys_distinct(s: Seq<(String, u64)>) -> bool {
    forall|i: int, j: int| 0 <= i < j < s.len() ==> (#[trigger] s[i]).0@ != (#[trigger] s[j]).0@
}

/// A key is in the contents exactly when some slot holds it, and then with
/// that slot's instant.
proof fn lemma_slots_map_index(s: Seq<(String, u64)>, k: Seq<char>)
    ensures
        slots_map(s).dom().contains(k) <==> exists|i: int| 0 <= i < s.len() && (#[trigger] s[i]).0@
            == k,
        forall|i: int|
            0 <= i < s.len() && (#[trigger] s[i]).0@ == k && keys_distinct(s) ==> slots_map(s)[k]
                == s[i].1,
    decreases s.len(),
{
    if s.len() > 0 {
        lemma_slots_map_index(s.drop_last(), k);
        assert(forall|i: int| 0 <= i < s.len() - 1 ==> s.drop_last()[i] == s[i]);
    }
}

/// Replacing the slot that holds a key updates just that key's instant.
proof fn lemma_slots_map_update(s: Seq<(String, u64)>, i: int, p: (String, u64))
    requires
        keys_distinct(s),
        0 <= i < s.len(),
        p.0@ == s[i].0@,
    ensures
        slots_map(s.update(i, p)) == slots_map(s).insert(p.0@, p.1),
        keys_distinct(s.update(i, p)),
    decreases s.len(),
{
    let t = s.update(i, p);
    assert(forall|j: int| 0 <= j < s.len() && j != i ==> t[j] == s[j]);
    if i == s.len() - 1 {
        assert(t.drop_last() =~= s.drop_last());
        assert(slots_map(t) =~= slots_map(s).insert(p.0@, p.1));
    } else {
        lemma_slots_map_update(s.drop_last(), i, p);
        assert(t.drop_last() =~= s.drop_last().update(i, p));
        assert(t.last() == s.last());
        lemma_slots_map_index(s.drop_last(), s.last().0@);
        assert(slots_map(t) =~= slots_map(s).insert(p.0@, p.1));
    }
}

/// Adding a slot for a key no slot holds inserts just that key.
proof fn lemma_slots_map_push(s: Seq<(String, u64)>, p: (String, u64))
    requires
        keys_distinct(s),
        forall|i: int| 0 <= i < s.len() ==> (#[trigger] s[i]).0@ != p.0@,
    ensures
        slots_map(s.push(p)) == slots_map(s).insert(p.0@, p.1),
        keys_distinct(s.push(p)),
{
    assert(s.push(p).drop_last() =~= s);
    assert(slots_map(s.push(p)) =~= slots_map(s).insert(p.0@, p.1));
}

/// The schedule after a run of grants of one key, one grant per arrival time,
/// in order.
pub open spec fn run_grants(
    m: Map<Seq<char>, u64>,
    interval: u64,
    key: Seq<char>,
    nows: Seq<u64>,
) -> Map<Seq<char>, u64>
    decreases nows.len(),
{
    if nows.len() == 0 {
        m
    } else {
        grant_next(run_grants(m, interval, key, nows.drop_last()), interval, key, nows.last())
    }
}

/// The start granted to the i-th call of such a run.
pub open spec fn start_of(
    m: Map<Seq<char>, u64>,
    interval: u64,
    key: Seq<char>,
    nows: Seq<u64>,
    i: int,
) -> u64 {
    grant_start(run_grants(m, interval, key, nows.subrange(0, i)), key, nows[i])
}

/// Throttle spacing law, one step: of two consecutive grants of one key, the
/// second starts at least the configured interval after the first, as long as
/// the schedule has not reached the top of the clock's range.
pub proof fn lemma_throttle_spacing(
    m: Map<Seq<char>, u64>,
    interval: u64,
    key: Seq<char>,
    now1: u64,
    now2: u64,
)
    requires
        grant_start(m, key, now1) + interval <= u64::MAX,
    ensures
        grant_start(grant_next(m, interval, key, now1), key, now2) >= grant_start(m, key, now1)
            + interval,
{
}

/// Throttle spacing law, over a run: the j-th of a run of sequential grants
/// of one key starts at least (j - i) intervals after the i-th, as long as no
/// start along the way reaches the top of the clock's range.
pub proof fn lemma_throttle_spacing_run(
    m: Map<Seq<char>, u64>,
    interval: u64,
    key: Seq<char>,
    nows: Seq<u64>,
    i: int,
    j: int,
)
    requires
        0 <= i <= j < nows.len(),
        forall|k: int|
            i <= k < j ==> #[trigger] start_of(m, interval, key, nows, k) + interval <= u64::MAX,
    ensures
        start_of(m, interval, key, nows, j) >= start_of(m, interval, key, nows, i) + (j - i)
            * interval,
    decreases j - i,
{
    if j > i {
        lemma_throttle_spacing_run(m, interval, key, nows, i, j - 1);
        let prev = run_grants(m, interval, key, nows.subrange(0, j - 1));
        assert(nows.subrange(0, j).drop_last() =~= nows.subrange(0, j - 1));
        assert(nows.subrange(0, j).last() == nows[j - 1]);
        lemma_throttle_spacing(prev, interval, key, nows[j - 1], nows[j]);
        assert(run_grants(m, interval, key, nows.subrange(0, j)) == grant_next(
            prev,
            interval,
            key,
            nows[j - 1],
        ));
        assert(start_of(m, interval, key, nows, j) >= start_of(m, interval, key, nows, j - 1)
            + interval);
        assert((j - i) * interval == (j - 1 - i) * interval + interval) by (nonlinear_arith);
    } else {
        assert((j - i) * interval == 0) by (nonlinear_arith)
            requires
                j == i,
        ;
    }
}

/// Distinct keys do not delay one another: a grant under one key leaves both
/// the next eligible instant and any future grant's start of every other key
/// exactly as they were.
pub proof fn lemma_keys_independent(
    m: Map<Seq<char>, u64>,
    interval: u64,
    k1: Seq<char>,
    k2: Seq<char>,
    now1: u64,
    now2: u64,
)
    requires
        k1 != k2,
    ensures
        next_eligible(grant_next(m, interval, k1, now1), k2) == next_eligible(m, k2),
        grant_start(grant_next(m, interval, k1, now1), k2, now2) == grant_start(m, k2, now2),
{
}

/// The keyed throttle's state: the configured minimum interval between two
/// grants of one key, and each key's next eligible instant. Its view is the
/// map from keys to instants.
pub struct RateLimiter {
    interval: u64,
    slots: Vec<(String, u64)>,
}

impl View for RateLimiter {
    type V = Map<Seq<char>, u64>;

    closed spec fn view(&self) -> Map<Seq<char>, u64> {
        slots_map(self.slots@)
    }
}

impl RateLimiter {
    /// The configured minimum gap, in milliseconds, between the starts of two
    /// granted actions sharing a key.
    pub closed spec fn interval(&self) -> u64 {
        self.interval
    }

    /// The limiter's internal slot list holds each key at most once.
    pub closed spec fn wf(&self) -> bool {
        keys_distinct(self.slots@)
    }

    /// A limiter that has granted nothing. A non-positive interval is a
    /// configuration fault and is rejected at the caller.
    pub fn new(interval_ms: u64) -> (r: Self)
        requires
            interval_ms >= 1,
        ensures
            r.wf(),
            r.interval() == interval_ms,
            r@ == Map::<Seq<char>, u64>::empty(),
    {
        RateLimiter { interval: interval_ms, slots: Vec::new() }
    }

    /// Grant the key a slot for an action arriving at `now`: the returned
    /// start is `now`, pushed back to the key's next eligible instant where
    /// the key is not yet eligible; the key's next eligible instant moves to
    /// one interval past the start. Keys other than the granted one are
    /// untouched, so callers under distinct keys never wait for one another.
    pub fn schedule(&mut self, key: &String, now: u64) -> (start: u64)
        requires
            old(self).wf(),
        ensures
            final(self).wf(),
            final(self).interval() == old(self).interval(),
            start == grant_start(old(self)@, key@, now),
            final(self)@ == grant_next(old(self)@, old(self).interval(), key@, now),
    {
        let ghost s0 = self.slots@;
        let n = self.slots.len();
        let mut i: usize = 0;
        while i < n
            invariant
                n == self.slots@.len(),
                self.slots@ == s0,
                s0 == old(self).slots@,
                self.interval == old(self).interval,
                keys_distinct(s0),
                i <= n,
                forall|j: int| 0 <= j < i ==> (#[trigger] s0[j]).0@ != key@,
            decreases n - i,
        {
            if self.slots[i].0 == *key {
                let eligible = self.slots[i].1;
                let start = if now >= eligible {
                    now
                } else {
                    eligible
                };
                let next = if start <= u64::MAX - self.interval {
                    start + self.interval
                } else {
                    u64::MAX
                };
                let replacement = (key.clone(), next);
                proof {
                    lemma_slots_map_index(s0, key@);
                    lemma_slots_map_update(s0, i as int, replacement);
                }
                self.slots.set(i, replacement);
                return start;
            }
            i += 1;
        }
        let next = if now <= u64::MAX - self.interval {
            now + self.interval
        } else {
            u64::MAX
        };
        let fresh = (key.clone(), next);
        proof {
            lemma_slots_map_index(s0, key@);
            lemma_slots_map_push(s0, fresh);
        }
        self.slots.push(fresh);
        now
    }
}

} // verus!

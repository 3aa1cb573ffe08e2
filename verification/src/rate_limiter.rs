//! A limiter that admits only so many requesters within a time frame.

use std::time::{Duration, Instant};
use vstd::prelude::*;

verus! {

/// A reading of the monotonic clock.
#[verifier::external_type_specification]
#[verifier::external_body]
pub struct ExInstant(Instant);

/// Calls `Instant::now`. Nothing is claimed of the reading.
#[verifier::external_body]
fn instant_now() -> (reading: Instant) {
    Instant::now()
}

/// Calls `Instant::elapsed`. Nothing is claimed of the time that has passed.
#[verifier::external_body]
fn instant_elapsed(since: &Instant) -> (passed: Duration) {
    since.elapsed()
}

/// Calls `Duration::as_nanos`. Nothing is claimed of the number: a duration
/// shows nothing else of itself.
#[verifier::external_body]
fn duration_nanos(duration: &Duration) -> (nanos: u128) {
    duration.as_nanos()
}

/// The requesters admitted, each with the time of its last admission, as the
/// contracts see them.
pub type Admissions = Seq<(Seq<char>, u128)>;

/// Whether no requester occurs twice in `s`.
pub open spec fn ids_distinct(s: Admissions) -> bool {
    forall|i: int, j: int| #![trigger s[i], s[j]] 0 <= i < j < s.len() ==> s[i].0 != s[j].0
}

/// The time that has passed at `now` since `then`, which is none where the
/// clock shows less than `then`.
pub open spec fn passed(now: u128, then: u128) -> nat {
    if now >= then {
        (now - then) as nat
    } else {
        0
    }
}

/// The admissions of `s` that are younger than `time_frame` at `now`, in
/// their order.
pub open spec fn still_counted(s: Admissions, now: u128, time_frame: u128) -> Admissions
    decreases s.len(),
{
    if s.len() == 0 {
        Seq::empty()
    } else if passed(now, s.last().1) < time_frame {
        still_counted(s.drop_last(), now, time_frame).push(s.last())
    } else {
        still_counted(s.drop_last(), now, time_frame)
    }
}

/// Whether `id` occurs in `s`.
pub open spec fn admitted(s: Admissions, id: Seq<char>) -> bool {
    exists|i: int| 0 <= i < s.len() && (#[trigger] s[i]).0 == id
}

/// The place of `id` in `s`.
pub open spec fn place_of(s: Admissions, id: Seq<char>) -> int {
    choose|i: int| 0 <= i < s.len() && (#[trigger] s[i]).0 == id
}

/// `s` with `id` admitted at `now`: in the place where it stood, or else at
/// the end.
pub open spec fn with_admission(s: Admissions, id: Seq<char>, now: u128) -> Admissions {
    if admitted(s, id) {
        s.update(place_of(s, id), (id, now))
    } else {
        s.push((id, now))
    }
}

/// What a request of `id` at `now` comes to: the admissions that have grown
/// as old as the time frame are forgotten; where as many as `max_requests`
/// are left the request is refused, and else `id` is admitted at `now`.
pub open spec fn rate_outcome(
    s: Admissions,
    max_requests: u32,
    time_frame: u128,
    id: Seq<char>,
    now: u128,
) -> (bool, Admissions) {
    let counted = still_counted(s, now, time_frame);
    if counted.len() >= max_requests {
        (false, counted)
    } else {
        (true, with_admission(counted, id, now))
    }
}

/// What is still counted is no more than what was admitted, and no
/// requester occurs twice in it.
pub proof fn lemma_still_counted(s: Admissions, now: u128, time_frame: u128)
    requires
        ids_distinct(s),
    ensures
        still_counted(s, now, time_frame).len() <= s.len(),
        ids_distinct(still_counted(s, now, time_frame)),
        forall|id: Seq<char>| #[trigger]
            admitted(still_counted(s, now, time_frame), id) ==> admitted(s, id),
    decreases s.len(),
{
    if s.len() > 0 {
        let front = s.drop_last();
        assert(ids_distinct(front)) by {
            assert forall|i: int, j: int| 0 <= i < j < front.len() implies (#[trigger] front[i]).0
                != (#[trigger] front[j]).0 by {
                assert(s[i].0 != s[j].0);
            }
        }
        lemma_still_counted(front, now, time_frame);
        let kept = still_counted(front, now, time_frame);
        let all = still_counted(s, now, time_frame);
        assert forall|id: Seq<char>| admitted(kept, id) implies admitted(s, id) by {
            assert(admitted(still_counted(front, now, time_frame), id));
            assert(admitted(front, id));
            let i = place_of(front, id);
            assert(front[i].0 == id);
            assert(s[i].0 == id);
        }
        if passed(now, s.last().1) < time_frame {
            assert forall|i: int, j: int| 0 <= i < j < all.len() implies (#[trigger] all[i]).0 != (
            #[trigger] all[j]).0 by {
                if j < kept.len() {
                    assert(kept[i].0 != kept[j].0);
                } else {
                    assert(kept[i].0 == all[i].0);
                    if kept[i].0 == s.last().0 {
                        assert(admitted(kept, kept[i].0));
                        assert(admitted(still_counted(front, now, time_frame), kept[i].0));
                        assert(admitted(front, kept[i].0));
                        let k = place_of(front, kept[i].0);
                        assert(front[k].0 == kept[i].0);
                        assert(s[k].0 != s[s.len() - 1].0);
                    }
                }
            }
            assert forall|id: Seq<char>| admitted(all, id) implies admitted(s, id) by {
                let i = place_of(all, id);
                if i < kept.len() {
                    assert(kept[i].0 == id);
                    assert(admitted(kept, id));
                } else {
                    assert(s[s.len() - 1].0 == id);
                }
            }
        }
    }
}

/// Admitting a requester keeps the requesters distinct and adds at most
/// one.
pub proof fn lemma_with_admission(s: Admissions, id: Seq<char>, now: u128)
    requires
        ids_distinct(s),
    ensures
        ids_distinct(with_admission(s, id, now)),
        with_admission(s, id, now).len() <= s.len() + 1,
{
    let t = with_admission(s, id, now);
    if admitted(s, id) {
        let p = place_of(s, id);
        assert forall|i: int, j: int| 0 <= i < j < t.len() implies (#[trigger] t[i]).0 != (
        #[trigger] t[j]).0 by {
            assert(s[i].0 != s[j].0);
        }
    } else {
        assert forall|i: int, j: int| 0 <= i < j < t.len() implies (#[trigger] t[i]).0 != (
        #[trigger] t[j]).0 by {
            if j < s.len() {
                assert(s[i].0 != s[j].0);
            } else {
                assert(s[i].0 != id);
            }
        }
    }
}

/// The limiter.
pub struct RateLimiter {
    limits: Vec<(String, u128)>,
    max_requests: u32,
    time_frame: u128,
    started: Instant,
}

spec fn admissions_of(limits: Seq<(String, u128)>) -> Admissions {
    Seq::new(limits.len(), |i: int| (limits[i].0@, limits[i].1))
}

impl View for RateLimiter {
    type V = Admissions;

    closed spec fn view(&self) -> Admissions {
        admissions_of(self.limits@)
    }
}

impl RateLimiter {
    /// How many requesters are admitted within a time frame.
    pub closed spec fn spec_max_requests(&self) -> u32 {
        self.max_requests
    }

    /// The time frame in nanoseconds.
    pub closed spec fn spec_time_frame(&self) -> u128 {
        self.time_frame
    }

    /// No requester is held twice, and no more are held than may be
    /// admitted, unless none may be.
    #[verifier::type_invariant]
    pub closed spec fn wf(&self) -> bool {
        &&& ids_distinct(admissions_of(self.limits@))
        &&& self.limits@.len() <= self.max_requests
    }

    /// A limiter that admits `max_requests` requesters within
    /// `time_frame_nanos` nanoseconds, and has admitted none.
    pub fn with_nanos(max_requests: u32, time_frame_nanos: u128) -> (limiter: Self)
        ensures
            limiter@ == Admissions::empty(),
            limiter.spec_max_requests() == max_requests,
            limiter.spec_time_frame() == time_frame_nanos,
    {
        let limiter = RateLimiter {
            limits: Vec::new(),
            max_requests,
            time_frame: time_frame_nanos,
            started: instant_now(),
        };
        assert(limiter@ =~= Admissions::empty());
        limiter
    }

    /// A limiter that admits `max_requests` requesters within `time_frame`,
    /// and has admitted none.
    pub fn new(max_requests: u32, time_frame: Duration) -> (limiter: Self)
        ensures
            limiter@ == Admissions::empty(),
            limiter.spec_max_requests() == max_requests,
    {
        let nanos: u128 = duration_nanos(&time_frame);
        RateLimiter::with_nanos(max_requests, nanos)
    }

    /// The number of requesters held.
    pub fn len(&self) -> (n: usize)
        ensures
            n == self@.len(),
    {
        self.limits.len()
    }

    /// Decides a request of `id` at the time `now`, in nanoseconds on the
    /// limiter's clock.
    pub fn check_rate_at(&mut self, id: String, now: u128) -> (allowed: bool)
        ensures
            (allowed, final(self)@) == rate_outcome(
                old(self)@,
                old(self).spec_max_requests(),
                old(self).spec_time_frame(),
                id@,
                now,
            ),
            final(self).spec_max_requests() == old(self).spec_max_requests(),
            final(self).spec_time_frame() == old(self).spec_time_frame(),
    {
        proof {
            use_type_invariant(&*self);
        }
        let ghost before = self@;
        let frame: u128 = self.time_frame;
        let max: u32 = self.max_requests;
        let mut held: Vec<(String, u128)> = Vec::new();
        core::mem::swap(&mut self.limits, &mut held);
        let mut kept: Vec<(String, u128)> = Vec::new();
        let n: usize = held.len();
        let mut i: usize = 0;
        let mut found: Option<usize> = None;
        while i < n
            invariant
                0 <= i <= n,
                n == held@.len(),
                before == admissions_of(held@),
                admissions_of(kept@) == still_counted(before.take(i as int), now, frame),
                kept@.len() <= i,
                match found {
                    Some(p) => p < kept@.len() && kept@[p as int].0@ == id@,
                    None => forall|j: int| 0 <= j < kept@.len() ==> (#[trigger] kept@[j]).0@ != id@,
                },
            decreases n - i,
        {
            proof {
                assert(before.take(i + 1).drop_last() =~= before.take(i as int));
                assert(before.take(i + 1).last() == before[i as int]);
                assert(before[i as int] == (held@[i as int].0@, held@[i as int].1));
            }
            let then: u128 = held[i].1;
            let age: u128 = if now >= then {
                now - then
            } else {
                0
            };
            if age < frame {
                let ghost earlier = admissions_of(kept@);
                if found.is_none() && held[i].0 == id {
                    found = Some(kept.len());
                }
                kept.push((held[i].0.clone(), then));
                assert(admissions_of(kept@) =~= earlier.push(before[i as int]));
            }
            i = i + 1;
        }
        proof {
            assert(before.take(n as int) =~= before);
            lemma_still_counted(before, now, frame);
        }
        let ghost counted = admissions_of(kept@);
        if kept.len() >= max as usize {
            assert(kept@.len() <= max) by {
                assert(kept@.len() <= before.len());
            }
            self.limits = kept;
            return false;
        }
        proof {
            lemma_with_admission(counted, id@, now);
        }
        match found {
            Some(p) => {
                proof {
                    assert(counted[p as int].0 == id@);
                    assert(admitted(counted, id@));
                    let q = place_of(counted, id@);
                    if q < p {
                        assert(counted[q].0 != counted[p as int].0);
                    } else if p < q {
                        assert(counted[p as int].0 != counted[q].0);
                    }
                }
                kept.remove(p);
                kept.insert(p, (id, now));
                assert(admissions_of(kept@) =~= counted.update(p as int, (id@, now)));
            },
            None => {
                proof {
                    if admitted(counted, id@) {
                        let q = place_of(counted, id@);
                        assert(kept@[q].0@ == id@);
                    }
                }
                kept.push((id, now));
                assert(admissions_of(kept@) =~= counted.push((id@, now)));
            },
        }
        self.limits = kept;
        true
    }

    /// Decides a request of `id` at the time that the limiter's clock
    /// shows: the outcome is that of `check_rate_at` at some time.
    pub fn check_rate(&mut self, id: String) -> (allowed: bool)
        ensures
            exists|now: u128|
                (allowed, final(self)@) == #[trigger] rate_outcome(
                    old(self)@,
                    old(self).spec_max_requests(),
                    old(self).spec_time_frame(),
                    id@,
                    now,
                ),
            final(self).spec_max_requests() == old(self).spec_max_requests(),
            final(self).spec_time_frame() == old(self).spec_time_frame(),
    {
        let passed: Duration = instant_elapsed(&self.started);
        let now: u128 = duration_nanos(&passed);
        self.check_rate_at(id, now)
    }
}

} // verus!

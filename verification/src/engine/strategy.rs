//! Key scheduling strategy and the key back-off schedule.
//!
//! RoundRobin rotates over the enabled keys that have capacity;
//! SuccessRateFirst takes the key with the best recent success rate (kept
//! as a ratio of counts) and rotates among ties. Keys that keep failing cool down exponentially (30 s
//! doubling, capped at 10 minutes).

use std::time::Duration;
use vstd::prelude::*;
use crate::duration::{duration_from_secs, secs_duration};

verus! {

/// How the dispatcher chooses among available keys.
#[derive(Debug, Clone, Copy, PartialEq, Eq, Structural)]
pub enum Strategy {
    RoundRobin,
    SuccessRateFirst,
}

impl Strategy {
    /// `success_rate` selects SuccessRateFirst; anything else RoundRobin.
    pub fn from_str_or_default(s: &str) -> (r: Self)
        ensures
            r == (if s@ == "success_rate"@ {
                Strategy::SuccessRateFirst
            } else {
                Strategy::RoundRobin
            }),
    {
        let c = crate::text::chars_of(s);
        if crate::text::str_is(c.as_slice(), "success_rate") {
            Strategy::SuccessRateFirst
        } else {
            Strategy::RoundRobin
        }
    }
}

/// Key cool-down in seconds after `n` consecutive failures:
/// `30 * 2^(n-1)`, capped at 600; none before the first failure.
pub open spec fn backoff_secs(n: u32) -> u64 {
    if n == 0 {
        0
    } else if n == 1 {
        30
    } else if n == 2 {
        60
    } else if n == 3 {
        120
    } else if n == 4 {
        240
    } else if n == 5 {
        480
    } else {
        600
    }
}

/// Exponential key back-off: 30 s doubling per consecutive failure, at most
/// 10 minutes.
pub fn backoff_duration(consecutive_failures: u32) -> (d: Duration)
    ensures
        d == secs_duration(backoff_secs(consecutive_failures)),
{
    if consecutive_failures == 0 {
        return duration_from_secs(0);
    }
    let shift = if consecutive_failures - 1 < 6 {
        consecutive_failures - 1
    } else {
        6
    };
    let mut secs: u64 = 30;
    let mut k: u32 = 0;
    proof {
        vstd::arithmetic::power2::lemma2_to64();
    }
    while k < shift
        invariant
            k <= shift <= 6,
            secs == 30 * vstd::arithmetic::power2::pow2(k as nat),
        decreases shift - k,
    {
        proof {
            vstd::arithmetic::power2::lemma_pow2_unfold((k + 1) as nat);
            vstd::arithmetic::power2::lemma2_to64();
        }
        secs = secs * 2;
        k += 1;
    }
    proof {
        vstd::arithmetic::power2::lemma2_to64();
    }
    let secs = if secs < 600 {
        secs
    } else {
        600
    };
    duration_from_secs(secs)
}

/// The back-off never shrinks as failures accumulate and never exceeds
/// 10 minutes.
pub proof fn law_backoff_monotone_and_capped(a: u32, b: u32)
    requires
        a <= b,
    ensures
        backoff_secs(a) <= backoff_secs(b) <= 600,
{
}

/// `ids` in ascending order.
pub open spec fn ascending(ids: Seq<i64>) -> Seq<int> {
    ids.map_values(|x: i64| x as int).sort()
}

/// Round-robin choice among `ids`: with the ids sorted ascending, the one
/// at `counter % len`; also the next counter (`counter + 1`, wrapping).
/// `None` (counter unchanged) when there is no id.
pub fn round_robin(ids: &[i64], counter: usize) -> (r: (Option<i64>, usize))
    ensures
        ids@.len() == 0 ==> r == (None::<i64>, counter),
        ids@.len() > 0 ==> (r.0 matches Some(id) && id as int == ascending(ids@)[(counter as int)
            % (ids@.len() as int)] && r.1 == (if counter == usize::MAX {
            0
        } else {
            counter + 1
        })),
{
    if ids.len() == 0 {
        return (None, counter);
    }
    let sorted = sort_ids(ids);
    let idx = counter % sorted.len();
    let next = if counter == usize::MAX {
        0
    } else {
        counter + 1
    };
    proof {
        assert(sorted@.map_values(|x: i64| x as int)[idx as int] == sorted@[idx as int] as int);
    }
    (Some(sorted[idx]), next)
}

/// `ids` sorted ascending (insertion sort).
fn sort_ids(ids: &[i64]) -> (r: Vec<i64>)
    ensures
        r@.map_values(|x: i64| x as int) == ascending(ids@),
        r@.len() == ids@.len(),
{
    let mut out: Vec<i64> = Vec::new();
    let mut k: usize = 0;
    assert(ids@.take(0).map_values(|x: i64| x as int) =~= out@.map_values(|x: i64| x as int));
    while k < ids.len()
        invariant
            k <= ids@.len(),
            out@.len() == k,
            forall|a: int, b: int| 0 <= a < b < out@.len() ==> out@[a] <= out@[b],
            out@.map_values(|x: i64| x as int).to_multiset() == ids@.take(k as int).map_values(
                |x: i64| x as int,
            ).to_multiset(),
        decreases ids@.len() - k,
    {
        let x = ids[k];
        let mut p: usize = out.len();
        while p > 0 && out[p - 1] > x
            invariant
                p <= out@.len(),
                forall|j: int| p <= j < out@.len() ==> out@[j] > x,
            decreases p,
        {
            p -= 1;
        }
        let ghost o0 = out@;
        out.insert(p, x);
        proof {
            let f = |x: i64| x as int;
            assert(out@.map_values(f) =~= o0.map_values(f).insert(p as int, x as int));
            vstd::seq_lib::to_multiset_insert(o0.map_values(f), p as int, x as int);
            assert(ids@.take(k + 1).map_values(f) =~= ids@.take(k as int).map_values(f).push(
                x as int,
            ));
            ids@.take(k as int).map_values(f).to_multiset_ensures();
            assert forall|a: int, b: int| 0 <= a < b < out@.len() implies out@[a] <= out@[b] by {
                if a < p && b < p {
                    assert(o0[a] <= o0[b]);
                } else if a < p && b == p {
                    assert(o0[p - 1] <= x);
                    if a < p - 1 {
                        assert(o0[a] <= o0[p - 1]);
                    }
                } else if a < p && b > p {
                    assert(o0[a] <= o0[b - 1]);
                } else if a == p {
                    assert(o0[b - 1] > x);
                } else {
                    assert(o0[a - 1] <= o0[b - 1]);
                }
            }
        }
        k += 1;
    }
    proof {
        let f = |x: i64| x as int;
        assert(ids@.take(ids@.len() as int) =~= ids@);
        assert(vstd::relations::sorted_by(out@.map_values(f), |x: int, y: int| x <= y));
        ids@.map_values(f).lemma_sort_ensures();
        vstd::seq_lib::lemma_sorted_unique(
            out@.map_values(f),
            ids@.map_values(f).sort(),
            |x: int, y: int| x <= y,
        );
    }
    out
}

/// A key that can take a task now, with its recent record: `successes`
/// out of `attempts` (the success rate is their ratio, 0 without attempts).
#[derive(Debug, Clone, Copy, PartialEq, Eq, Structural)]
pub struct Candidate {
    pub id: i64,
    pub successes: i64,
    pub attempts: i64,
}

/// Numerator of a candidate's success rate.
pub open spec fn rate_num(c: Candidate) -> int {
    if c.attempts > 0 {
        c.successes as int
    } else {
        0
    }
}

/// Denominator of a candidate's success rate (positive).
pub open spec fn rate_den(c: Candidate) -> int {
    if c.attempts > 0 {
        c.attempts as int
    } else {
        1
    }
}

/// `a`'s success rate is below `b`'s.
pub open spec fn rate_below(a: Candidate, b: Candidate) -> bool {
    rate_num(a) * rate_den(b) < rate_num(b) * rate_den(a)
}

/// The ids of the candidates whose rate no other candidate beats, in order.
pub open spec fn best_ids(all: Seq<Candidate>, cs: Seq<Candidate>) -> Seq<i64>
    decreases cs.len(),
{
    if cs.len() == 0 {
        Seq::empty()
    } else {
        let r = best_ids(all, cs.drop_last());
        if forall|k: int| 0 <= k < all.len() ==> !rate_below(cs.last(), #[trigger] all[k]) {
            r.push(cs.last().id)
        } else {
            r
        }
    }
}

/// The ids among which a strategy rotates: every candidate for
/// round-robin, the best success rates for success-rate-first.
pub open spec fn rotation(strategy: Strategy, cs: Seq<Candidate>) -> Seq<i64> {
    match strategy {
        Strategy::RoundRobin => cs.map_values(|c: Candidate| c.id),
        Strategy::SuccessRateFirst => best_ids(cs, cs),
    }
}

fn below(a: &Candidate, b: &Candidate) -> (r: bool)
    ensures
        r == rate_below(*a, *b),
{
    let an: i128 = if a.attempts > 0 {
        a.successes as i128
    } else {
        0
    };
    let ad: i128 = if a.attempts > 0 {
        a.attempts as i128
    } else {
        1
    };
    let bn: i128 = if b.attempts > 0 {
        b.successes as i128
    } else {
        0
    };
    let bd: i128 = if b.attempts > 0 {
        b.attempts as i128
    } else {
        1
    };
    assert(-0x8000_0000_0000_0000 <= an <= 0x7fff_ffff_ffff_ffff);
    assert(1 <= bd <= 0x7fff_ffff_ffff_ffff);
    assert(an * bd <= 0x4000_0000_0000_0000_0000_0000_0000_0000) by (nonlinear_arith)
        requires
            -0x8000_0000_0000_0000 <= an <= 0x7fff_ffff_ffff_ffff,
            1 <= bd <= 0x7fff_ffff_ffff_ffff,
    ;
    assert(an * bd >= -0x4000_0000_0000_0000_0000_0000_0000_0000) by (nonlinear_arith)
        requires
            -0x8000_0000_0000_0000 <= an <= 0x7fff_ffff_ffff_ffff,
            1 <= bd <= 0x7fff_ffff_ffff_ffff,
    ;
    assert(bn * ad <= 0x4000_0000_0000_0000_0000_0000_0000_0000) by (nonlinear_arith)
        requires
            -0x8000_0000_0000_0000 <= bn <= 0x7fff_ffff_ffff_ffff,
            1 <= ad <= 0x7fff_ffff_ffff_ffff,
    ;
    assert(bn * ad >= -0x4000_0000_0000_0000_0000_0000_0000_0000) by (nonlinear_arith)
        requires
            -0x8000_0000_0000_0000 <= bn <= 0x7fff_ffff_ffff_ffff,
            1 <= ad <= 0x7fff_ffff_ffff_ffff,
    ;
    an * bd < bn * ad
}

fn rotation_ids(strategy: Strategy, cs: &[Candidate]) -> (r: Vec<i64>)
    ensures
        r@ == rotation(strategy, cs@),
{
    let mut out: Vec<i64> = Vec::new();
    let mut i: usize = 0;
    while i < cs.len()
        invariant
            i <= cs@.len(),
            out@ == (match strategy {
                Strategy::RoundRobin => cs@.take(i as int).map_values(|c: Candidate| c.id),
                Strategy::SuccessRateFirst => best_ids(cs@, cs@.take(i as int)),
            }),
        decreases cs@.len() - i,
    {
        let c = cs[i];
        assert(cs@.take(i + 1).drop_last() =~= cs@.take(i as int));
        assert(cs@.take(i + 1).last() == c);
        match strategy {
            Strategy::RoundRobin => {
                out.push(c.id);
                assert(cs@.take(i + 1).map_values(|c: Candidate| c.id) =~= cs@.take(
                    i as int,
                ).map_values(|c: Candidate| c.id).push(c.id));
            },
            Strategy::SuccessRateFirst => {
                let mut best = true;
                let mut k: usize = 0;
                while k < cs.len()
                    invariant
                        k <= cs@.len(),
                        best == (forall|j: int| 0 <= j < k ==> !rate_below(c, #[trigger] cs@[j])),
                    decreases cs@.len() - k,
                {
                    if below(&c, &cs[k]) {
                        best = false;
                    }
                    k += 1;
                }
                if best {
                    out.push(c.id);
                }
            },
        }
        i += 1;
    }
    assert(cs@.take(cs@.len() as int) =~= cs@);
    out
}

pub(crate) proof fn lemma_best_exists(cs: Seq<Candidate>)
    requires
        cs.len() > 0,
    ensures
        best_ids(cs, cs).len() > 0,
{
    let m = choose_max(cs, cs.len() as nat);
    lemma_best_contains(cs, cs, m);
}

/// An index whose rate no candidate of `cs.take(n)` beats.
proof fn choose_max(cs: Seq<Candidate>, n: nat) -> (m: int)
    requires
        0 < n <= cs.len(),
    ensures
        0 <= m < n,
        forall|k: int| 0 <= k < n ==> !rate_below(cs[m], #[trigger] cs[k]),
    decreases n,
{
    if n == 1 {
        0
    } else {
        let m0 = choose_max(cs, (n - 1) as nat);
        let last = (n - 1) as int;
        if rate_below(cs[m0], cs[last]) {
            assert forall|k: int| 0 <= k < n implies !rate_below(cs[last], #[trigger] cs[k]) by {
                if k < last {
                    lemma_below_trans(cs[last], cs[m0], cs[k]);
                }
            }
            last
        } else {
            m0
        }
    }
}

proof fn lemma_below_trans(a: Candidate, b: Candidate, c: Candidate)
    requires
        rate_below(b, a),
        !rate_below(b, c),
    ensures
        !rate_below(a, c),
{
    let (an, ad, bn, bd, cn, cd) = (rate_num(a), rate_den(a), rate_num(b), rate_den(b), rate_num(c), rate_den(c));
    assert(ad > 0 && bd > 0 && cd > 0);
    assert(!(an * cd < cn * ad)) by (nonlinear_arith)
        requires
            ad > 0,
            bd > 0,
            cd > 0,
            bn * ad < an * bd,
            !(bn * cd < cn * bd),
    ;
}

proof fn lemma_best_contains(all: Seq<Candidate>, cs: Seq<Candidate>, m: int)
    requires
        0 <= m < cs.len(),
        forall|k: int| 0 <= k < all.len() ==> !rate_below(cs[m], #[trigger] all[k]),
    ensures
        best_ids(all, cs).len() > 0,
    decreases cs.len(),
{
    if m < cs.len() - 1 {
        lemma_best_contains(all, cs.drop_last(), m);
        assert(best_ids(all, cs).len() >= best_ids(all, cs.drop_last()).len());
    }
}

/// Picks a key: round-robin over the candidates' ids in ascending order,
/// or, for success-rate-first, over the ids of the best success rates;
/// `rr_counter` carries the rotation and moves on by one (wrapping) with
/// each pick. No candidate, no key, and the counter stays.
pub fn pick(strategy: Strategy, candidates: &[Candidate], rr_counter: &mut usize) -> (r: Option<i64>)
    ensures
        candidates@.len() == 0 ==> r is None && *final(rr_counter) == *old(rr_counter),
        candidates@.len() > 0 ==> ({
            let ids = rotation(strategy, candidates@);
            &&& ids.len() > 0
            &&& r matches Some(id) && id as int == ascending(ids)[(*old(rr_counter) as int) % (
            ids.len() as int)]
            &&& *final(rr_counter) == (if *old(rr_counter) == usize::MAX {
                0
            } else {
                *old(rr_counter) + 1
            })
        }),
{
    if candidates.len() == 0 {
        return None;
    }
    let ids = rotation_ids(strategy, candidates);
    proof {
        match strategy {
            Strategy::RoundRobin => {},
            Strategy::SuccessRateFirst => {
                lemma_best_exists(candidates@);
            },
        }
    }
    let (id, next) = round_robin(ids.as_slice(), *rr_counter);
    *rr_counter = next;
    id
}

/// A success-rate-first pick never lands on a key whose success rate
/// another candidate beats.
pub proof fn law_best_rate_is_never_beaten(cs: Seq<Candidate>, i: int, k: int)
    requires
        0 <= i < best_ids(cs, cs).len(),
        0 <= k < cs.len(),
    ensures
        exists|j: int| 0 <= j < cs.len() && cs[j].id == best_ids(cs, cs)[i] && !rate_below(cs[j], cs[k]),
{
    lemma_best_members(cs, cs, i);
    let j = choose|j: int| 0 <= j < cs.len() && cs[j].id == best_ids(cs, cs)[i] && forall|q: int| 0 <= q < cs.len() ==> !rate_below(cs[j], #[trigger] cs[q]);
    assert(!rate_below(cs[j], cs[k]));
}

proof fn lemma_best_members(all: Seq<Candidate>, cs: Seq<Candidate>, i: int)
    requires
        0 <= i < best_ids(all, cs).len(),
    ensures
        exists|j: int| 0 <= j < cs.len() && cs[j].id == best_ids(all, cs)[i] && forall|q: int|
            0 <= q < all.len() ==> !rate_below(cs[j], #[trigger] all[q]),
    decreases cs.len(),
{
    let init = cs.drop_last();
    let r = best_ids(all, init);
    if i < r.len() {
        lemma_best_members(all, init, i);
        let j = choose|j: int| 0 <= j < init.len() && init[j].id == best_ids(all, init)[i] && forall|q: int|
            0 <= q < all.len() ==> !rate_below(init[j], #[trigger] all[q]);
        assert(cs[j] == init[j]);
    } else {
        assert(cs[cs.len() - 1] == cs.last());
    }
}

/// Round-robin gives every one of `n` keys a turn within any `n`
/// consecutive picks (while the counter does not wrap): the pick made `j`
/// picks after counter `c` is the key at `(c + j) % n`, and every position
/// `k` below `n` is reached by some `j < n`.
pub proof fn law_round_robin_gives_every_key_a_turn(c: int, n: int, k: int)
    requires
        0 <= c,
        0 < n,
        0 <= k < n,
    ensures
        exists|j: int| 0 <= j < n && #[trigger] ((c + j) % n) == k,
{
    vstd::arithmetic::div_mod::lemma_fundamental_div_mod(c, n);
    let q = c / n;
    let r = c % n;
    assert(c == n * q + r);
    let j = if k >= r {
        k - r
    } else {
        k + n - r
    };
    if k >= r {
        assert(c + j == q * n + k) by (nonlinear_arith)
            requires
                c == n * q + r,
                j == k - r,
        ;
        vstd::arithmetic::div_mod::lemma_fundamental_div_mod_converse(c + j, n, q, k);
    } else {
        assert(c + j == (q + 1) * n + k) by (nonlinear_arith)
            requires
                c == n * q + r,
                j == k + n - r,
        ;
        vstd::arithmetic::div_mod::lemma_fundamental_div_mod_converse(c + j, n, q + 1, k);
    }
    assert(0 <= j < n);
}

} // verus!

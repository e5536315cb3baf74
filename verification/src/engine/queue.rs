//! Which key takes which task in one dispatch round.
//!
//! The queue of one round is the retries whose back-off has run out, then
//! the queued tasks, fetched up to the free slots of the eligible keys.
//! Tasks are handed out in queue order; each goes to the key that the
//! strategy picks among the keys that still have a free slot. A task that
//! starts uses up one slot of that key; a task that is skipped (its status
//! moved on, or it could not be marked running) leaves the slot free for
//! the next one. The round stops when no key has a slot left.

use vstd::prelude::*;
use crate::engine::strategy::{
    ascending, best_ids, lemma_best_exists, pick, rotation, Candidate, Strategy,
};

verus! {

/// An eligible key in a dispatch round: its free slots and its record.
#[derive(Debug, Clone, Copy, PartialEq, Eq, Structural)]
pub struct SlotKey {
    pub id: i64,
    pub free: usize,
    pub successes: i64,
    pub attempts: i64,
}

/// The pick candidate of a key.
pub open spec fn candidate_of(k: SlotKey) -> Candidate {
    Candidate { id: k.id, successes: k.successes, attempts: k.attempts }
}

/// The candidates of the keys that still have a free slot, in order.
pub open spec fn open_candidates(keys: Seq<SlotKey>) -> Seq<Candidate>
    decreases keys.len(),
{
    if keys.len() == 0 {
        seq![]
    } else {
        open_candidates(keys.drop_last()) + if keys.last().free > 0 {
            seq![candidate_of(keys.last())]
        } else {
            seq![]
        }
    }
}

/// The keys after `id` took a task: each key with that id and a free slot
/// has one slot less.
pub open spec fn take_slot(keys: Seq<SlotKey>, id: i64) -> Seq<SlotKey> {
    keys.map_values(
        |k: SlotKey|
            if k.id == id && k.free > 0 {
                SlotKey { free: (k.free - 1) as usize, ..k }
            } else {
                k
            },
    )
}

/// The counter after one pick (`+ 1`, wrapping).
pub open spec fn next_counter(c: usize) -> usize {
    if c == usize::MAX {
        0
    } else {
        (c + 1) as usize
    }
}

/// The key the strategy picks for the next task among the keys with a free
/// slot, starting from the round-robin counter `counter`; none when no key
/// has a slot left.
pub open spec fn round_choice(strategy: Strategy, keys: Seq<SlotKey>, counter: usize) -> Option<i64> {
    let cands = open_candidates(keys);
    if cands.len() == 0 {
        None
    } else {
        let ids = rotation(strategy, cands);
        Some(ascending(ids)[(counter as int) % (ids.len() as int)] as i64)
    }
}

/// The keys chosen for the first `n` tasks of the queue when every task
/// offered starts, starting from the round-robin counter `counter`, and
/// the counter afterwards; fewer than `n` when the slots run out.
pub open spec fn plan_round(strategy: Strategy, keys: Seq<SlotKey>, n: nat, counter: usize) -> (
    Seq<i64>,
    usize,
)
    decreases n,
{
    if n == 0 {
        (seq![], counter)
    } else {
        match round_choice(strategy, keys, counter) {
            None => (seq![], counter),
            Some(id) => {
                let rest = plan_round(
                    strategy,
                    take_slot(keys, id),
                    (n - 1) as nat,
                    next_counter(counter),
                );
                (seq![id] + rest.0, rest.1)
            },
        }
    }
}

fn open_candidates_of(keys: &Vec<SlotKey>) -> (r: Vec<Candidate>)
    ensures
        r@ == open_candidates(keys@),
{
    let mut out: Vec<Candidate> = Vec::new();
    let mut i: usize = 0;
    assert(keys@.take(0) =~= Seq::<SlotKey>::empty());
    while i < keys.len()
        invariant
            i <= keys@.len(),
            out@ == open_candidates(keys@.take(i as int)),
        decreases keys@.len() - i,
    {
        assert(keys@.take(i + 1).drop_last() =~= keys@.take(i as int));
        let k = keys[i];
        if k.free > 0 {
            out.push(Candidate { id: k.id, successes: k.successes, attempts: k.attempts });
        }
        proof {
            let t = keys@.take(i + 1);
            assert(t.last() == k);
            if k.free > 0 {
                assert(out@ =~= open_candidates(keys@.take(i as int)) + seq![candidate_of(k)]);
            } else {
                assert(out@ =~= open_candidates(keys@.take(i as int)) + Seq::<Candidate>::empty());
            }
        }
        i += 1;
    }
    assert(keys@.take(keys@.len() as int) =~= keys@);
    out
}

fn take_slot_of(keys: &Vec<SlotKey>, id: i64) -> (r: Vec<SlotKey>)
    ensures
        r@ == take_slot(keys@, id),
{
    let mut out: Vec<SlotKey> = Vec::new();
    let mut i: usize = 0;
    while i < keys.len()
        invariant
            i <= keys@.len(),
            out@ =~= take_slot(keys@, id).take(i as int),
        decreases keys@.len() - i,
    {
        let k = keys[i];
        if k.id == id && k.free > 0 {
            out.push(SlotKey { free: k.free - 1, ..k });
        } else {
            out.push(k);
        }
        i += 1;
    }
    out
}

/// Chooses the key for the next task of a round (see `round_choice`);
/// `rr_counter` moves on by one (wrapping) when a key is chosen.
pub fn choose_key(strategy: Strategy, keys: &Vec<SlotKey>, rr_counter: &mut usize) -> (r: Option<i64>)
    ensures
        r == round_choice(strategy, keys@, *old(rr_counter)),
        *final(rr_counter) == if r is Some {
            next_counter(*old(rr_counter))
        } else {
            *old(rr_counter)
        },
{
    let cands = open_candidates_of(keys);
    let ghost c0 = *rr_counter;
    let r = pick(strategy, cands.as_slice(), rr_counter);
    proof {
        if cands@.len() > 0 {
            let ids = rotation(strategy, cands@);
            assert(r == Some(ascending(ids)[(c0 as int) % (ids.len() as int)] as i64));
        }
    }
    r
}

/// Records the outcome of handing a task to key `id`: a task that started
/// uses up one of the key's slots; a skipped one leaves the slots as they
/// were.
pub fn settle_dispatch(keys: &mut Vec<SlotKey>, id: i64, started: bool)
    ensures
        final(keys)@ == if started {
            take_slot(old(keys)@, id)
        } else {
            old(keys)@
        },
{
    if started {
        let next = take_slot_of(keys, id);
        *keys = next;
    }
}

/// Free slots of all keys together.
pub open spec fn total_free(keys: Seq<SlotKey>) -> nat
    decreases keys.len(),
{
    if keys.len() == 0 {
        0
    } else {
        total_free(keys.drop_last()) + keys.last().free as nat
    }
}

/// No two keys share an id.
pub open spec fn distinct_ids(keys: Seq<SlotKey>) -> bool {
    forall|i: int, j: int| 0 <= i < j < keys.len() ==> keys[i].id != keys[j].id
}

proof fn lemma_open_candidates(keys: Seq<SlotKey>)
    ensures
        open_candidates(keys).len() > 0 <==> total_free(keys) > 0,
        forall|k: int|
            0 <= k < open_candidates(keys).len() ==> exists|i: int|
                0 <= i < keys.len() && keys[i].id == #[trigger] open_candidates(keys)[k].id
                    && keys[i].free > 0,
    decreases keys.len(),
{
    if keys.len() > 0 {
        let p = keys.drop_last();
        lemma_open_candidates(p);
        let c = open_candidates(keys);
        let cp = open_candidates(p);
        assert forall|k: int| 0 <= k < c.len() implies exists|i: int|
            0 <= i < keys.len() && keys[i].id == #[trigger] c[k].id && keys[i].free > 0 by {
            if k < cp.len() {
                assert(c[k] == cp[k]);
                let i = choose|i: int| 0 <= i < p.len() && p[i].id == cp[k].id && p[i].free > 0;
                assert(keys[i] == p[i]);
            } else {
                assert(c[k] == candidate_of(keys.last()));
                assert(keys[keys.len() - 1] == keys.last());
            }
        }
    }
}

proof fn lemma_best_ids_from(all: Seq<Candidate>, cs: Seq<Candidate>)
    ensures
        forall|k: int|
            0 <= k < best_ids(all, cs).len() ==> exists|j: int|
                0 <= j < cs.len() && cs[j].id == #[trigger] best_ids(all, cs)[k],
    decreases cs.len(),
{
    if cs.len() > 0 {
        let p = cs.drop_last();
        lemma_best_ids_from(all, p);
        let b = best_ids(all, cs);
        let bp = best_ids(all, p);
        assert forall|k: int| 0 <= k < b.len() implies exists|j: int|
            0 <= j < cs.len() && cs[j].id == #[trigger] b[k] by {
            if k < bp.len() {
                assert(b[k] == bp[k]);
                let j = choose|j: int| 0 <= j < p.len() && p[j].id == bp[k];
                assert(cs[j] == p[j]);
            } else {
                assert(cs[cs.len() - 1] == cs.last());
            }
        }
    }
}

/// The key a pick lands on is one of the candidates.
proof fn lemma_pick_is_candidate(strategy: Strategy, cands: Seq<Candidate>, c: usize)
    requires
        cands.len() > 0,
    ensures
        rotation(strategy, cands).len() > 0,
        exists|j: int|
            0 <= j < cands.len() && cands[j].id as int == ascending(rotation(strategy, cands))[(c
                as int) % (rotation(strategy, cands).len() as int)],
{
    let ids = rotation(strategy, cands);
    match strategy {
        Strategy::RoundRobin => {},
        Strategy::SuccessRateFirst => {
            lemma_best_exists(cands);
            lemma_best_ids_from(cands, cands);
        },
    }
    let a = ids.map_values(|x: i64| x as int);
    a.lemma_sort_ensures();
    let srt = a.sort();
    a.to_multiset_ensures();
    srt.to_multiset_ensures();
    assert(srt.len() == a.len()) by {
        assert(srt.to_multiset().len() == a.to_multiset().len());
    }
    let m = (c as int) % (ids.len() as int);
    let x = srt[m];
    assert(srt.contains(x));
    assert(a.to_multiset().count(x) > 0);
    assert(a.contains(x));
    let i = choose|i: int| 0 <= i < a.len() && a[i] == x;
    assert(ids[i] as int == x);
    match strategy {
        Strategy::RoundRobin => {
            assert(cands[i].id == ids[i]);
        },
        Strategy::SuccessRateFirst => {
            let j = choose|j: int| 0 <= j < cands.len() && cands[j].id == best_ids(cands, cands)[i];
            assert(cands[j].id as int == x);
        },
    }
}

proof fn lemma_take_slot(keys: Seq<SlotKey>, id: i64)
    requires
        distinct_ids(keys),
        exists|i: int| 0 <= i < keys.len() && keys[i].id == id && keys[i].free > 0,
    ensures
        total_free(take_slot(keys, id)) + 1 == total_free(keys),
    decreases keys.len(),
{
    let p = keys.drop_last();
    assert(take_slot(keys, id) =~= take_slot(p, id).push(take_slot(keys, id).last()));
    assert(take_slot(keys, id).drop_last() =~= take_slot(p, id));
    if keys.last().id == id && keys.last().free > 0 {
        lemma_take_slot_other(p, id);
    } else {
        let i = choose|i: int| 0 <= i < keys.len() && keys[i].id == id && keys[i].free > 0;
        assert(i < keys.len() - 1) by {
            if i == keys.len() - 1 {
                assert(keys[i] == keys.last());
            }
        }
        assert(p[i] == keys[i]);
        assert(distinct_ids(p)) by {
            assert forall|a: int, b: int| 0 <= a < b < p.len() implies p[a].id != p[b].id by {
                assert(p[a] == keys[a] && p[b] == keys[b]);
            }
        }
        lemma_take_slot(p, id);
        if keys.last().id == id {
            assert(keys[i].id != keys[keys.len() - 1].id);
        }
    }
}

proof fn lemma_take_slot_other(keys: Seq<SlotKey>, id: i64)
    requires
        forall|i: int| 0 <= i < keys.len() ==> keys[i].id != id,
    ensures
        take_slot(keys, id) == keys,
{
    assert(take_slot(keys, id) =~= keys);
}

proof fn lemma_take_slot_distinct(keys: Seq<SlotKey>, id: i64)
    requires
        distinct_ids(keys),
    ensures
        distinct_ids(take_slot(keys, id)),
{
    let t = take_slot(keys, id);
    assert forall|a: int, b: int| 0 <= a < b < t.len() implies t[a].id != t[b].id by {
        assert(t[a].id == keys[a].id && t[b].id == keys[b].id);
    }
}

/// A round in which every offered task starts hands out as many tasks as
/// it can: one per task in the queue until the keys' free slots run out
/// (keys being told apart by id).
pub proof fn law_round_fills_free_slots(strategy: Strategy, keys: Seq<SlotKey>, n: nat, counter: usize)
    requires
        distinct_ids(keys),
    ensures
        plan_round(strategy, keys, n, counter).0.len() == if n <= total_free(keys) {
            n
        } else {
            total_free(keys)
        },
    decreases n,
{
    let cands = open_candidates(keys);
    lemma_open_candidates(keys);
    if n > 0 && cands.len() > 0 {
        let ids = rotation(strategy, cands);
        lemma_pick_is_candidate(strategy, cands, counter);
        let id = ascending(ids)[(counter as int) % (ids.len() as int)] as i64;
        assert(round_choice(strategy, keys, counter) == Some(id));
        let j = choose|j: int|
            0 <= j < cands.len() && cands[j].id as int == ascending(ids)[(counter as int) % (
            ids.len() as int)];
        assert(cands[j].id == id);
        assert(exists|i: int| 0 <= i < keys.len() && keys[i].id == id && keys[i].free > 0);
        lemma_take_slot(keys, id);
        lemma_take_slot_distinct(keys, id);
        law_round_fills_free_slots(strategy, take_slot(keys, id), (n - 1) as nat, next_counter(counter));
    }
}

} // verus!

//! Decisions of buildings that spawn creatures

use vstd::prelude::*;

use crate::rng::{one_in, shuffle_spawns};

verus! {

/// Counting in a list with one more entry.
proof fn lemma_count_push(s: Seq<u64>, x: u64, y: u64)
    ensures
        s.push(x).to_multiset().count(y) == s.to_multiset().count(y) + (if x == y {
            1int
        } else {
            0int
        }),
{
    broadcast use vstd::seq_lib::group_to_multiset_ensures;

    assert(s.push(x).to_multiset() =~= s.to_multiset().insert(x));
}

/// Nothing is counted in an empty list.
proof fn lemma_count_empty(y: u64)
    ensures
        Seq::<u64>::empty().to_multiset().count(y) == 0,
{
    broadcast use vstd::seq_lib::group_to_multiset_ensures;

    assert(!Seq::<u64>::empty().contains(y));
}

/// Lists holding the same entries, in any order, hold each other's entries.
proof fn lemma_same_entries(a: Seq<(String, usize)>, b: Seq<(String, usize)>)
    requires
        a.to_multiset() == b.to_multiset(),
    ensures
        forall|j: int| 0 <= j < a.len() ==> b.contains(#[trigger] a[j]),
{
    broadcast use vstd::seq_lib::group_to_multiset_ensures;

    assert forall|j: int| 0 <= j < a.len() implies b.contains(#[trigger] a[j]) by {
        let x = a[j];
        assert(a.contains(x));
        assert(a.to_multiset().count(x) > 0);
        assert(b.to_multiset().count(x) > 0);
        assert(b.contains(x));
    }
}

/// How many of the entities in `spawned_from` were spawned by `spawner`
pub fn spawned_count(spawned_from: &Vec<u64>, spawner: u64) -> (r: usize)
    ensures
        r == spawned_from@.to_multiset().count(spawner),
{
    let mut n: usize = 0;
    let mut i: usize = 0;
    proof {
        lemma_count_empty(spawner);
        assert(spawned_from@.take(0) =~= Seq::<u64>::empty());
    }
    while i < spawned_from.len()
        invariant
            0 <= i <= spawned_from@.len(),
            n == spawned_from@.take(i as int).to_multiset().count(spawner),
            n <= i,
        decreases spawned_from@.len() - i,
    {
        proof {
            let prefix = spawned_from@.take(i as int);
            assert(spawned_from@.take(i + 1) =~= prefix.push(spawned_from@[i as int]));
            lemma_count_push(prefix, spawned_from@[i as int], spawner);
        }
        if spawned_from[i] == spawner {
            n = n + 1;
        }
        i = i + 1;
    }
    proof {
        assert(spawned_from@.take(spawned_from@.len() as int) =~= spawned_from@);
    }
    n
}

/// Whether a spawner that has spawned `spawned` of its `maximum` may spawn more
pub fn below_maximum(spawned: usize, maximum: usize) -> (r: bool)
    ensures
        r == (spawned < maximum),
{
    spawned < maximum
}

/// A copy of a spawn list
fn copy_spawns(spawns: &Vec<(String, usize)>) -> (r: Vec<(String, usize)>)
    ensures
        r@ == spawns@,
{
    let mut out: Vec<(String, usize)> = Vec::new();
    let mut i: usize = 0;
    while i < spawns.len()
        invariant
            0 <= i <= spawns@.len(),
            out@ == spawns@.take(i as int),
        decreases spawns@.len() - i,
    {
        let name = spawns[i].0.clone();
        out.push((name, spawns[i].1));
        proof {
            assert(spawns@.take(i + 1) =~= spawns@.take(i as int).push(spawns@[i as int]));
        }
        i = i + 1;
    }
    proof {
        assert(spawns@.take(spawns@.len() as int) =~= spawns@);
    }
    out
}

/// `r` is what rolling `shuffled` in turn gives when the draws came out as
/// `outcomes`: the name of the first entry whose draw succeeded, or `None`
/// when none did.
pub open spec fn spawned_by(
    r: Option<String>,
    shuffled: Seq<(String, usize)>,
    outcomes: Seq<bool>,
) -> bool {
    match r {
        Some(name) => exists|i: int|
            0 <= i < shuffled.len() && i < outcomes.len() && #[trigger] outcomes[i] && (forall|j: int|
                0 <= j < i ==> !outcomes[j]) && name@ == shuffled[i].0@,
        None => forall|j: int| 0 <= j < outcomes.len() ==> !#[trigger] outcomes[j],
    }
}

/// The spawn that a roll of the shuffled list `shuffled` gives, where
/// `outcomes` holds whether each entry's draw succeeded: the name of the first
/// entry whose draw succeeded, or `None` when none did
pub fn first_spawned(shuffled: &Vec<(String, usize)>, outcomes: &Vec<bool>) -> (r: Option<String>)
    requires
        outcomes@.len() == shuffled@.len(),
    ensures
        spawned_by(r, shuffled@, outcomes@),
{
    let mut i: usize = 0;
    while i < outcomes.len()
        invariant
            0 <= i <= outcomes@.len(),
            outcomes@.len() == shuffled@.len(),
            forall|j: int| 0 <= j < i ==> !outcomes@[j],
        decreases outcomes@.len() - i,
    {
        if outcomes[i] {
            let name = shuffled[i].0.clone();
            proof {
                assert(outcomes@[i as int]);
            }
            return Some(name);
        }
        i = i + 1;
    }
    None
}

/// Roll for a spawn: the spawn list, paired with the `d` likelihood each is
/// spawned, is shuffled so that no entry is favoured, then each is rolled at
/// one in `d` until one succeeds. Gives the name of the creature to spawn, if
/// any: the first entry of the shuffled list whose roll succeeded.
pub fn choose_spawn(spawns: &Vec<(String, usize)>) -> (r: Option<String>)
    requires
        forall|i: int| 0 <= i < spawns@.len() ==> #[trigger] spawns@[i].1 as u32 >= 1,
    ensures
        spawn_rolled(r, spawns@),
{
    let mut shuffled = copy_spawns(spawns);
    shuffle_spawns(&mut shuffled);
    // the shuffled list holds the same entries
    proof {
        lemma_same_entries(shuffled@, spawns@);
        lemma_same_entries(spawns@, shuffled@);
    }
    // Roll each entry in turn until one succeeds; the entries after it are
    // not rolled, and are recorded as the roll they cannot miss
    let mut outcomes: Vec<bool> = Vec::new();
    let mut hit = false;
    let mut k: usize = 0;
    while k < shuffled.len()
        invariant
            0 <= k <= shuffled@.len(),
            outcomes@.len() == k,
            forall|j: int| 0 <= j < shuffled@.len() ==> spawns@.contains(#[trigger] shuffled@[j]),
            forall|i: int| 0 <= i < spawns@.len() ==> #[trigger] spawns@[i].1 as u32 >= 1,
            forall|j: int| 0 <= j < k && #[trigger] shuffled@[j].1 as u32 == 1 ==> outcomes@[j],
        decreases shuffled@.len() - k,
    {
        let d = shuffled[k].1 as u32;
        proof {
            assert(spawns@.contains(shuffled@[k as int]));
            let i = choose|i: int| 0 <= i < spawns@.len() && spawns@[i] == shuffled@[k as int];
            assert(spawns@[i].1 as u32 >= 1);
        }
        let outcome = if hit {
            d == 1
        } else {
            one_in(d)
        };
        if outcome {
            hit = true;
        }
        outcomes.push(outcome);
        k = k + 1;
    }
    let r = first_spawned(&shuffled, &outcomes);
    proof {
        if r is Some {
            let name = r->0;
            let i = choose|i: int|
                0 <= i < shuffled@.len() && i < outcomes@.len() && #[trigger] outcomes@[i] && (forall|
                    j: int,
                | 0 <= j < i ==> !outcomes@[j]) && name@ == shuffled@[i].0@;
            assert(spawns@.contains(shuffled@[i]));
            let t = choose|t: int| 0 <= t < spawns@.len() && spawns@[t] == shuffled@[i];
            assert(spawns@[t].0@ == name@);
        }
        if exists|i: int| 0 <= i < spawns@.len() && #[trigger] spawns@[i].1 as u32 == 1 {
            let i = choose|i: int| 0 <= i < spawns@.len() && #[trigger] spawns@[i].1 as u32 == 1;
            lemma_same_entries(spawns@, shuffled@);
            assert(shuffled@.contains(spawns@[i]));
            let j = choose|j: int| 0 <= j < shuffled@.len() && shuffled@[j] == spawns@[i];
            assert(shuffled@[j].1 as u32 == 1);
            assert(outcomes@[j]);
            if r is None {
                assert(!outcomes@[j]);
            }
        }
        assert(spawned_by(r, shuffled@, outcomes@));
    }
    r
}

/// `r` is a roll of the spawn list `spawns` as [`choose_spawn`] makes it:
/// the first success among the draws of a shuffle of the list, where an
/// entry with `d == 1` always succeeds; so a listed name, and some name when
/// an entry has `d == 1`.
pub open spec fn spawn_rolled(r: Option<String>, spawns: Seq<(String, usize)>) -> bool {
    &&& exists|shuffled: Seq<(String, usize)>, outcomes: Seq<bool>|
        #![trigger spawned_by(r, shuffled, outcomes)]
        shuffled.to_multiset() == spawns.to_multiset() && outcomes.len() == shuffled.len()
            && (forall|i: int|
            0 <= i < shuffled.len() && #[trigger] shuffled[i].1 as u32 == 1 ==> outcomes[i])
            && spawned_by(r, shuffled, outcomes)
    &&& r matches Some(name) ==> exists|i: int|
        0 <= i < spawns.len() && #[trigger] spawns[i].0@ == name@
    &&& (exists|i: int| 0 <= i < spawns.len() && #[trigger] spawns[i].1 as u32 == 1) ==> r is Some
}

/// One tick of the spawner `spawner`, where `tick_passed` tells whether its
/// tick has passed and `spawned_from` lists the spawner of each live spawned
/// creature. When the tick has passed and the spawner has fewer than
/// `maximum` live creatures, it rolls its spawn list as [`choose_spawn`] does
/// and its tick restarts; otherwise nothing happens. Gives whether the tick
/// restarts and the creature to spawn, if any: at most one, and only while
/// the spawner is below its maximum, so a tick never takes it above.
pub fn spawner_step(
    tick_passed: bool,
    spawned_from: &Vec<u64>,
    spawner: u64,
    maximum: usize,
    spawns: &Vec<(String, usize)>,
) -> (r: (bool, Option<String>))
    requires
        tick_passed && spawned_from@.to_multiset().count(spawner) < maximum ==> forall|i: int|
            0 <= i < spawns@.len() ==> #[trigger] spawns@[i].1 as u32 >= 1,
    ensures
        r.0 == (tick_passed && spawned_from@.to_multiset().count(spawner) < maximum),
        r.0 ==> spawn_rolled(r.1, spawns@),
        !r.0 ==> r.1 is None,
        r.1 is Some ==> spawned_from@.to_multiset().count(spawner) + 1 <= maximum,
{
    if tick_passed && below_maximum(spawned_count(spawned_from, spawner), maximum) {
        let spawn = choose_spawn(spawns);
        (true, spawn)
    } else {
        (false, None)
    }
}

/// Which creature spawns follows the draws alone, whatever the chances:
/// something spawns exactly when some draw succeeded, and when the first
/// entry's draw succeeded it is that entry that spawns.
pub proof fn lemma_spawn_follows_draws(
    r: Option<String>,
    shuffled: Seq<(String, usize)>,
    outcomes: Seq<bool>,
)
    requires
        outcomes.len() == shuffled.len(),
        spawned_by(r, shuffled, outcomes),
    ensures
        r is Some <==> exists|i: int| 0 <= i < outcomes.len() && #[trigger] outcomes[i],
        outcomes.len() > 0 && outcomes[0] ==> r is Some && r->0@ == shuffled[0].0@,
{
    if outcomes.len() > 0 && outcomes[0] {
        assert(r is Some);
        let i = choose|i: int|
            0 <= i < shuffled.len() && i < outcomes.len() && #[trigger] outcomes[i] && (forall|j: int|
                0 <= j < i ==> !outcomes[j]) && r->0@ == shuffled[i].0@;
        assert(i == 0);
    }
}

} // verus!

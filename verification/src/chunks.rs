//! The grid of world chunks, each generated once

use vstd::prelude::*;

verus! {

/// The chunks of `indices` that are generated in turn when `done` are
/// already generated: each one not in `done` and not met before, in order.
pub open spec fn fresh_chunks(indices: Seq<(i32, i32)>, done: Set<(i32, i32)>) -> Seq<(i32, i32)>
    decreases indices.len(),
{
    if indices.len() == 0 {
        Seq::empty()
    } else {
        let rest = fresh_chunks(indices.drop_last(), done);
        let last = indices.last();
        if done.contains(last) || indices.drop_last().contains(last) {
            rest
        } else {
            rest.push(last)
        }
    }
}

/// The chunk indices around the origin where a new game starts, in a cross
pub open spec fn starting_cross() -> Seq<(i32, i32)> {
    seq![(0i32, 0i32), (0i32, 1i32), (1i32, 0i32), (-1i32, 0i32), (0i32, -1i32)]
}

/// The chunk indices of a new game, in a cross around the origin
pub fn starting_chunks() -> (r: Vec<(i32, i32)>)
    ensures
        r@ == starting_cross(),
{
    let mut v: Vec<(i32, i32)> = Vec::new();
    v.push((0, 0));
    v.push((0, 1));
    v.push((1, 0));
    v.push((-1, 0));
    v.push((0, -1));
    proof {
        assert(v@ =~= starting_cross());
    }
    v
}

/// The chunks of the world that have been generated
pub struct Chunks {
    generated: Vec<(i32, i32)>,
}

impl Chunks {
    /// The generated chunk indices
    pub closed spec fn done(self) -> Set<(i32, i32)> {
        self.generated@.to_set()
    }

    /// No chunk generated yet
    pub fn new() -> (r: Self)
        ensures
            r.done() == Set::<(i32, i32)>::empty(),
    {
        let c = Chunks { generated: Vec::new() };
        proof {
            assert(c.generated@.to_set() =~= Set::<(i32, i32)>::empty());
        }
        c
    }

    /// Whether chunk `index` has been generated
    pub fn is_generated(&self, index: &(i32, i32)) -> (r: bool)
        ensures
            r == self.done().contains(*index),
    {
        let mut i: usize = 0;
        while i < self.generated.len()
            invariant
                0 <= i <= self.generated@.len(),
                forall|j: int| 0 <= j < i ==> self.generated@[j] != *index,
            decreases self.generated@.len() - i,
        {
            if self.generated[i].0 == index.0 && self.generated[i].1 == index.1 {
                proof {
                    assert(self.generated@.to_set().contains(self.generated@[i as int]));
                }
                return true;
            }
            i = i + 1;
        }
        proof {
            if self.generated@.to_set().contains(*index) {
                let j = choose|j: int| 0 <= j < self.generated@.len() && self.generated@[j] == *index;
                assert(self.generated@[j] != *index);
            }
        }
        false
    }

    /// Mark chunk `index` as generated
    pub fn insert(&mut self, index: (i32, i32))
        ensures
            final(self).done() == old(self).done().insert(index),
    {
        self.generated.push(index);
        proof {
            assert(self.generated@ == old(self).generated@.push(index));
            old(self).generated@.lemma_push_to_set_commute(index);
        }
    }

    /// Generate the chunks of `indices` that are not generated yet: each is
    /// marked generated and handed back, once, in order
    pub fn claim(&mut self, indices: &Vec<(i32, i32)>) -> (r: Vec<(i32, i32)>)
        ensures
            final(self).done() == old(self).done().union(indices@.to_set()),
            r@ == fresh_chunks(indices@, old(self).done()),
    {
        let ghost done0 = self.done();
        let mut out: Vec<(i32, i32)> = Vec::new();
        let mut i: usize = 0;
        proof {
            assert(indices@.take(0).to_set() =~= Set::<(i32, i32)>::empty());
            assert(done0.union(Set::<(i32, i32)>::empty()) =~= done0);
        }
        while i < indices.len()
            invariant
                0 <= i <= indices@.len(),
                self.done() == done0.union(indices@.take(i as int).to_set()),
                out@ == fresh_chunks(indices@.take(i as int), done0),
            decreases indices@.len() - i,
        {
            let index = indices[i];
            let ghost prefix = indices@.take(i as int);
            proof {
                assert(indices@.take(i + 1) =~= prefix.push(index));
                assert(indices@.take(i + 1).drop_last() =~= prefix);
                prefix.lemma_push_to_set_commute(index);
            }
            if !self.is_generated(&index) {
                self.insert(index);
                out.push(index);
                proof {
                    assert(!prefix.contains(index)) by {
                        if prefix.contains(index) {
                            assert(prefix.to_set().contains(index));
                        }
                    }
                }
            } else {
                proof {
                    if !done0.contains(index) {
                        assert(prefix.to_set().contains(index));
                        assert(prefix.contains(index));
                    }
                }
            }
            proof {
                assert(self.done() =~= done0.union(indices@.take(i + 1).to_set()));
            }
            i = i + 1;
        }
        proof {
            assert(indices@.take(indices@.len() as int) =~= indices@);
        }
        out
    }
}

/// The chunks generated for `indices` are new: each appears once, none was
/// generated before, and each is one of `indices`.
pub proof fn lemma_fresh_chunks_are_new(indices: Seq<(i32, i32)>, done: Set<(i32, i32)>)
    ensures
        fresh_chunks(indices, done).no_duplicates(),
        forall|c: (i32, i32)| #[trigger] fresh_chunks(indices, done).contains(c) ==> !done.contains(c)
            && indices.contains(c),
    decreases indices.len(),
{
    if indices.len() > 0 {
        let rest = indices.drop_last();
        lemma_fresh_chunks_are_new(rest, done);
        let last = indices.last();
        let fresh = fresh_chunks(indices, done);
        assert forall|c: (i32, i32)| #[trigger] fresh.contains(c) implies !done.contains(c)
            && indices.contains(c) by {
            let j = choose|j: int| 0 <= j < fresh.len() && fresh[j] == c;
            if j < fresh_chunks(rest, done).len() {
                assert(fresh_chunks(rest, done).contains(c));
                let i = choose|i: int| 0 <= i < rest.len() && rest[i] == c;
                assert(indices[i] == c);
            } else {
                assert(indices[indices.len() - 1] == c);
            }
        }
        if !(done.contains(last) || rest.contains(last)) {
            assert(!fresh_chunks(rest, done).contains(last));
        }
    }
}

/// Chunks are generated once: claiming chunks that have all been generated
/// generates none.
pub proof fn lemma_claim_again_generates_nothing(indices: Seq<(i32, i32)>, done: Set<(i32, i32)>)
    requires
        indices.to_set().subset_of(done),
    ensures
        fresh_chunks(indices, done) == Seq::<(i32, i32)>::empty(),
    decreases indices.len(),
{
    if indices.len() > 0 {
        let rest = indices.drop_last();
        assert(indices.to_set().contains(indices.last()));
        assert forall|c: (i32, i32)| rest.to_set().contains(c) implies done.contains(c) by {
            let i = choose|i: int| 0 <= i < rest.len() && rest[i] == c;
            assert(indices[i] == c);
            assert(indices.to_set().contains(c));
        }
        lemma_claim_again_generates_nothing(rest, done);
    }
}

} // verus!

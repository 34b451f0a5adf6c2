//! The rotation over DNS seeds: which seed to look up next, and when every
//! seed has failed since the last success.
use vstd::prelude::*;
use vstd::arithmetic::div_mod::{lemma_small_mod, lemma_mod_self_0};

verus! {

/// The seeds that have failed once `seed` fails too; a seed counts once.
pub open spec fn record_failed(failed: Seq<usize>, seed: usize) -> Seq<usize> {
    if failed.contains(seed) {
        failed
    } else {
        failed.push(seed)
    }
}

/// The failed seeds after each of `seeds` has failed in turn.
pub open spec fn failures_after(failed: Seq<usize>, seeds: Seq<usize>) -> Seq<usize>
    decreases seeds.len(),
{
    if seeds.len() == 0 {
        failed
    } else {
        record_failed(failures_after(failed, seeds.drop_last()), seeds.last())
    }
}

/// What the caller is to do next.
pub enum SeedAction<E> {
    /// Look up the seed at this position of the seed list.
    Lookup { seed: usize },
    /// Every seed failed since the last success: the failures, in the order
    /// they came. The rotation is over.
    AllFailed { failures: Vec<(usize, E)> },
    /// The rotation ended earlier.
    Done,
}

/// Round-robin over a list of seeds, with the errors of the seeds that failed
/// since the last successful lookup.
pub struct SeedRotation<E> {
    num_seeds: usize,
    next_seed: usize,
    failures: Vec<(usize, E)>,
    finished: bool,
}

impl<E> SeedRotation<E> {
    pub closed spec fn seed_count(&self) -> nat {
        self.num_seeds as nat
    }

    /// The position of the seed to look up next.
    pub closed spec fn next(&self) -> nat {
        self.next_seed as nat
    }

    /// The seeds that failed since the last success, in the order they failed.
    pub open spec fn failed_seeds(&self) -> Seq<usize> {
        self.failures_view().map_values(|p: (usize, E)| p.0)
    }

    /// The seeds that failed since the last success, each with its error.
    pub closed spec fn failures_view(&self) -> Seq<(usize, E)> {
        self.failures@
    }

    pub closed spec fn is_finished(&self) -> bool {
        self.finished
    }

    /// Every seed has failed since the last success.
    pub open spec fn exhausted(&self) -> bool {
        self.failed_seeds().len() == self.seed_count()
    }

    pub open spec fn wf(&self) -> bool {
        &&& 0 < self.seed_count()
        &&& self.next() < self.seed_count()
        &&& self.failed_seeds().no_duplicates()
        &&& forall|i: int| 0 <= i < self.failed_seeds().len() ==> #[trigger] self.failed_seeds()[i]
            < self.seed_count()
    }

    pub fn new(num_seeds: usize) -> (r: SeedRotation<E>)
        requires
            num_seeds > 0,
        ensures
            r.wf(),
            r.seed_count() == num_seeds,
            r.next() == 0,
            r.failed_seeds() == Seq::<usize>::empty(),
            r.failures_view() == Seq::<(usize, E)>::empty(),
            !r.is_finished(),
    {
        let r = SeedRotation { num_seeds, next_seed: 0, failures: Vec::new(), finished: false };
        assert(r.failed_seeds() =~= Seq::<usize>::empty());
        r
    }

    /// Gives up once every seed has failed since the last success; otherwise
    /// names the next seed in turn.
    pub fn next_action(&mut self) -> (r: SeedAction<E>)
        requires
            old(self).wf(),
        ensures
            final(self).wf(),
            final(self).seed_count() == old(self).seed_count(),
            old(self).is_finished() ==> r is Done && *final(self) == *old(self),
            !old(self).is_finished() && old(self).exhausted() ==> (r matches SeedAction::AllFailed {
                failures,
            } && failures@ == old(self).failures_view() && failures@.map_values(|p: (usize, E)| p.0)
                == old(self).failed_seeds()
                && final(self).is_finished()),
            !old(self).is_finished() && !old(self).exhausted() ==> (r matches SeedAction::Lookup { seed } && seed == old(self).next() && final(self).next() == (old(self).next() + 1) % old(self).seed_count()
                && final(self).failures_view() == old(self).failures_view()
                && !final(self).is_finished()),
    {
        if self.finished {
            return SeedAction::Done;
        }
        if self.failures.len() == self.num_seeds {
            let mut failures: Vec<(usize, E)> = Vec::new();
            std::mem::swap(&mut failures, &mut self.failures);
            self.finished = true;
            assert(self.failed_seeds() =~= Seq::<usize>::empty());
            return SeedAction::AllFailed { failures };
        }
        let seed = self.next_seed;
        proof {
            if seed + 1 < self.num_seeds {
                lemma_small_mod((seed + 1) as nat, self.num_seeds as nat);
            } else {
                lemma_mod_self_0(self.num_seeds as int);
            }
        }
        self.next_seed = if self.next_seed + 1 == self.num_seeds {
            0
        } else {
            self.next_seed + 1
        };
        SeedAction::Lookup { seed }
    }

    fn has_failed(&self, seed: usize) -> (r: bool)
        ensures
            r == self.failed_seeds().contains(seed),
    {
        let mut i: usize = 0;
        while i < self.failures.len()
            invariant
                i <= self.failures@.len(),
                forall|j: int| 0 <= j < i ==> self.failed_seeds()[j] != seed,
            decreases self.failures@.len() - i,
        {
            if self.failures[i].0 == seed {
                assert(self.failed_seeds()[i as int] == seed);
                return true;
            }
            i = i + 1;
        }
        false
    }

    /// A lookup succeeded: the failures so far are forgotten.
    pub fn record_success(&mut self)
        requires
            old(self).wf(),
        ensures
            final(self).wf(),
            final(self).seed_count() == old(self).seed_count(),
            final(self).next() == old(self).next(),
            final(self).is_finished() == old(self).is_finished(),
            final(self).failed_seeds() == Seq::<usize>::empty(),
            final(self).failures_view() == Seq::<(usize, E)>::empty(),
    {
        self.failures.clear();
        assert(self.failed_seeds() =~= Seq::<usize>::empty());
    }

    /// The lookup of `seed` failed with `err`; a seed that already failed
    /// keeps its first error.
    pub fn record_failure(&mut self, seed: usize, err: E)
        requires
            old(self).wf(),
            seed < old(self).seed_count(),
        ensures
            final(self).wf(),
            final(self).seed_count() == old(self).seed_count(),
            final(self).next() == old(self).next(),
            final(self).is_finished() == old(self).is_finished(),
            final(self).failed_seeds() == record_failed(old(self).failed_seeds(), seed),
            final(self).failures_view() == if old(self).failed_seeds().contains(seed) {
                old(self).failures_view()
            } else {
                old(self).failures_view().push((seed, err))
            },
    {
        if self.has_failed(seed) {
            return;
        }
        let ghost before = self.failed_seeds();
        self.failures.push((seed, err));
        assert(self.failed_seeds() =~= before.push(seed));
    }
}

proof fn lemma_failures_after_len(failed: Seq<usize>, seeds: Seq<usize>)
    ensures
        failures_after(failed, seeds).len() <= failed.len() + seeds.len(),
    decreases seeds.len(),
{
    if seeds.len() > 0 {
        lemma_failures_after_len(failed, seeds.drop_last());
    }
}

proof fn lemma_failures_after_distinct(seeds: Seq<usize>)
    requires
        seeds.no_duplicates(),
    ensures
        failures_after(Seq::empty(), seeds) == seeds,
    decreases seeds.len(),
{
    if seeds.len() > 0 {
        let init = seeds.drop_last();
        assert(init.no_duplicates());
        lemma_failures_after_distinct(init);
        assert(!init.contains(seeds.last()));
        assert(init.push(seeds.last()) =~= seeds);
    }
}

/// After a successful lookup the failure list is empty, so the rotation gives
/// up only once every seed has failed anew: fewer fresh failures than seeds
/// never exhaust it, and one fresh failure of each seed does.
pub proof fn lemma_exhaustion_needs_fresh_failures(num_seeds: nat, seeds: Seq<usize>)
    ensures
        seeds.len() < num_seeds ==> failures_after(Seq::empty(), seeds).len() < num_seeds,
        seeds.no_duplicates() && seeds.len() == num_seeds ==> failures_after(
            Seq::empty(),
            seeds,
        ).len() == num_seeds,
{
    lemma_failures_after_len(Seq::empty(), seeds);
    if seeds.no_duplicates() {
        lemma_failures_after_distinct(seeds);
    }
}

} // verus!

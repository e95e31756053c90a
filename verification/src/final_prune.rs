//! The last pruning of a point's neighbours: near ones shadow those behind them.

use vstd::prelude::*;
use vstd::string::*;

use crate::ann_result::{AnnError, AnnResult};
use crate::arith::{floored, least, min_usize};
use crate::float_bits::{F32, F32_MAX};
use crate::float_value::{law_singles_compare_as_numbers, units, unordered};
use crate::metric::Metric;
use crate::order::{sorts, stable_order};
use crate::prune_laws::{
    beyond, ends_at_first_light, fills_nearest_first, larger_of, law_candidates_are_the_nearest,
    law_depth_is_the_larger_one, law_saturation_fills_nearest_first,
    law_selection_takes_the_first_in_the_light, law_shadows_fall_behind, nearest_of_pool, shaded,
};

verus! {

/// How much farther than its shadow a neighbour must be to be dropped: 1.2.
pub const FINAL_PRUNE_ALPHA: u32 = 0x3f99_999a;

/// The most candidates that are looked at.
pub const FINAL_PRUNE_MAX_OCCLUSION_SIZE: usize = 750;

/// Whether free places are filled up with dropped candidates.
pub const FINAL_PRUNE_SATURATE: bool = true;

/// 1 in single precision.
pub const F32_ONE: u32 = 0x3f80_0000;

/// A candidate and its distance from the point.
#[derive(Clone, Copy, Debug, PartialEq, Eq, Structural)]
pub struct PruneCandidate {
    pub id: u32,
    pub dist: F32,
}

/// The shadow of a candidate after one more was thrown on it: the deeper one counts, and
/// one that is no number does not.
pub open spec fn deeper(held: F32, thrown: F32) -> F32 {
    if held.nan() {
        thrown
    } else if thrown.nan() || !held.below(thrown) {
        held
    } else {
        thrown
    }
}

/// The first candidate from `next` on, at this level or a later one, whose shadow is not
/// deeper than the level.
pub open spec fn first_lit(
    shadows: Seq<F32>,
    levels: Seq<F32>,
    level: int,
    next: int,
) -> Option<(int, int)>
    decreases levels.len() - level, floored(shadows.len() - next),
{
    if level >= levels.len() || level < 0 {
        None
    } else if next >= shadows.len() {
        if shadows.len() == 0 {
            None
        } else {
            first_lit(shadows, levels, level + 1, 0)
        }
    } else if levels[level].below(shadows[next]) {
        first_lit(shadows, levels, level, next + 1)
    } else {
        Some((level, next))
    }
}

/// The order of distances as an integer key.
pub open spec fn distance_key(dist: F32) -> u64 {
    (dist.rank() + 0x1_0000_0000) as u64
}

pub open spec fn distance_keys(pool: Seq<PruneCandidate>) -> Seq<u64> {
    pool.map_values(|c: PruneCandidate| distance_key(c.dist))
}

/// The `limit` nearest candidates of a pool, nearest first.
pub open spec fn nearest_candidates(
    pool: Seq<PruneCandidate>,
    order: Seq<usize>,
    limit: int,
) -> Seq<PruneCandidate> {
    Seq::new(least(pool.len() as int, limit) as nat, |i: int| pool[order[i] as int])
}

/// Whether the pruning can be done in a metric.
pub fn check_final_prune_metric(metric: Metric) -> (result: AnnResult<()>)
    ensures
        match result {
            Ok(_) => metric == Metric::L2 || metric == Metric::Cosine,
            Err(error) => {
                &&& metric != Metric::L2 && metric != Metric::Cosine
                &&& error matches AnnError::IndexConfig { parameter, err } && parameter@
                    == "metric"@ && err@ == "ForgeANN final prune supports only L2/Cosine"@
            },
        },
{
    match metric {
        Metric::L2 | Metric::Cosine => Ok(()),
        _ => Err(
            AnnError::log_index_config_error(
                "metric".to_owned(),
                "ForgeANN final prune supports only L2/Cosine".to_owned(),
            ),
        ),
    }
}

/// The pruning of one point's candidates.
#[derive(Debug)]
pub struct FinalPrune {
    pool: Vec<PruneCandidate>,
    shadows: Vec<F32>,
    levels: Vec<F32>,
    level: usize,
    next: usize,
    kept: Vec<u32>,
    location: u32,
    max_degree: usize,
    alpha: F32,
}

impl FinalPrune {
    /// The candidates, nearest first.
    pub closed spec fn candidates(&self) -> Seq<PruneCandidate> {
        self.pool@
    }

    /// How deep each candidate lies in the shadow of those that were kept.
    pub closed spec fn depths(&self) -> Seq<F32> {
        self.shadows@
    }

    pub closed spec fn steps(&self) -> Seq<F32> {
        self.levels@
    }

    /// The level and the candidate that come next.
    pub closed spec fn position(&self) -> (int, int) {
        (self.level as int, self.next as int)
    }

    pub closed spec fn edges(&self) -> Seq<u32> {
        self.kept@
    }

    pub closed spec fn point(&self) -> u32 {
        self.location
    }

    pub closed spec fn degree(&self) -> int {
        self.max_degree as int
    }

    pub closed spec fn limit(&self) -> F32 {
        self.alpha
    }

    /// The limit lies below the largest number, which is the shadow of a candidate that
    /// was kept, and no level lies above the limit.
    pub open spec fn plain(&self) -> bool {
        &&& self.limit().below(F32 { bits: F32_MAX })
        &&& forall|l: int|
            0 <= l < self.steps().len() ==> (#[trigger] self.steps()[l]).at_most(self.limit())
    }

    /// Of two candidates with one id the later one lies at least as deep, or too deep to be
    /// kept. So it is where every kept candidate has thrown the deepest shadow on those
    /// behind it that have its id.
    pub open spec fn twins_ordered(&self) -> bool {
        twins_in_order(self.candidates(), self.depths(), self.limit())
    }

    /// As `twins_ordered`, but for those behind the `i`-th candidate that have its id.
    pub open spec fn twins_ordered_but(&self, i: int) -> bool {
        twins_in_order_but(self.candidates(), self.depths(), self.limit(), i)
    }

    /// Every candidate that was passed at the current level lies deeper than the level.
    pub open spec fn passed(&self) -> bool {
        let (level, next) = self.position();
        0 <= level < self.steps().len() ==> forall|i: int|
            0 <= i < next && i < self.candidates().len() ==> self.steps()[level].below(
                #[trigger] self.depths()[i],
            )
    }

    /// No neighbour is kept twice: each is the first candidate with its id.
    pub open spec fn single(&self) -> bool {
        &&& self.edges().no_duplicates()
        &&& forall|k: int|
            0 <= k < self.edges().len() ==> kept_first(
                self.candidates(),
                self.depths(),
                self.limit(),
                #[trigger] self.edges()[k],
            )
    }

    /// No more neighbours are kept than there is room for, none is the point itself,
    /// and all are candidates.
    pub open spec fn wf(&self) -> bool {
        &&& self.plain() ==> self.passed()
        &&& 0 <= self.position().0
        &&& 0 <= self.position().1
        &&& self.depths().len() == self.candidates().len()
        &&& self.edges().len() <= self.degree()
        &&& forall|i: int|
            0 <= i < self.edges().len() ==> #[trigger] self.edges()[i] != self.point()
                && is_candidate(self.candidates(), self.edges()[i])
    }

    /// The parts that a step does not change.
    pub open spec fn same_task(&self, before: &FinalPrune) -> bool {
        &&& self.candidates() == before.candidates()
        &&& self.steps() == before.steps()
        &&& self.point() == before.point()
        &&& self.degree() == before.degree()
        &&& self.limit() == before.limit()
    }

    /// Prunes the candidates of `location`. The levels are those that the shadows are
    /// held against, up to `alpha`.
    pub fn new(
        pool: &[PruneCandidate],
        location: u32,
        max_degree: usize,
        max_candidate_size: usize,
        alpha: F32,
        levels: Vec<F32>,
    ) -> (prune: Self)
        ensures
            prune.wf(),
            prune.single(),
            prune.twins_ordered(),
            exists|order: Seq<usize>|
                #![trigger sorts(distance_keys(pool@), order)]
                sorts(distance_keys(pool@), order) && prune.candidates() == nearest_candidates(
                    pool@,
                    order,
                    max_candidate_size as int,
                ),
            exists|places: Seq<usize>| #[trigger]
                nearest_of_pool(pool@, max_candidate_size as int, prune.candidates(), places),
            prune.depths() == Seq::new(prune.candidates().len(), |i: int| F32 { bits: 0 }),
            prune.steps() == levels@,
            prune.position() == (0int, 0int),
            prune.edges() == Seq::<u32>::empty(),
            prune.point() == location,
            prune.degree() == max_degree,
            prune.limit() == alpha,
    {
        let mut keys: Vec<u64> = Vec::with_capacity(pool.len());
        for i in 0..pool.len()
            invariant
                keys@ == distance_keys(pool@.take(i as int)),
        {
            let rank: i64 = pool[i].dist.rank_value();
            let key: u64 = (rank + 0x1_0000_0000) as u64;
            keys.push(key);
            proof {
                assert(keys@ =~= distance_keys(pool@.take(i + 1)));
            }
        }
        proof {
            assert(pool@.take(pool@.len() as int) =~= pool@);
        }
        let order: Vec<usize> = stable_order(&keys);
        let count: usize = min_usize(pool.len(), max_candidate_size);
        let mut sorted: Vec<PruneCandidate> = Vec::with_capacity(count);
        let mut shadows: Vec<F32> = Vec::with_capacity(count);
        for i in 0..count
            invariant
                count <= pool@.len(),
                sorts(distance_keys(pool@), order@),
                sorted@ == Seq::new(i as nat, |k: int| pool@[order@[k] as int]),
                shadows@ == Seq::new(i as nat, |k: int| F32 { bits: 0 }),
        {
            sorted.push(pool[order[i]]);
            shadows.push(F32 { bits: 0 });
            proof {
                assert(sorted@ =~= Seq::new((i + 1) as nat, |k: int| pool@[order@[k] as int]));
                assert(shadows@ =~= Seq::new((i + 1) as nat, |k: int| F32 { bits: 0 }));
            }
        }
        proof {
            assert(sorted@ =~= nearest_candidates(pool@, order@, max_candidate_size as int));
            law_candidates_are_the_nearest(pool@, order@, max_candidate_size as int);
            assert(nearest_of_pool(pool@, max_candidate_size as int, sorted@, order@));
        }
        FinalPrune {
            pool: sorted,
            shadows,
            levels,
            level: 0,
            next: 0,
            kept: Vec::new(),
            location,
            max_degree,
            alpha,
        }
    }

    /// Keeps the next candidate that lies in the light and tells which it is. There is
    /// none left, or no room. The point itself is passed without being kept.
    pub fn select(&mut self) -> (selected: Option<usize>)
        requires
            old(self).wf(),
        ensures
            final(self).wf(),
            old(self).plain() && old(self).single() && old(self).twins_ordered()
                ==> final(self).single(),
            final(self).same_task(old(self)),
            old(self).edges().len() >= old(self).degree() ==> selected is None,
            old(self).edges().len() < old(self).degree() ==> ends_at_first_light(
                old(self).depths(),
                old(self).steps(),
                old(self).position().0,
                old(self).position().1,
                match selected {
                    Some(at) => Some((final(self).position().0, at as int)),
                    None => None,
                },
            ),
            ({
                let found = if old(self).edges().len() < old(self).degree() {
                    first_lit(
                        old(self).depths(),
                        old(self).steps(),
                        old(self).position().0,
                        old(self).position().1,
                    )
                } else {
                    None
                };
                match found {
                    Some((level, i)) => {
                        &&& selected matches Some(at) && at == i
                        &&& 0 <= i < old(self).candidates().len()
                        &&& old(self).plain() && old(self).twins_ordered() ==> first_of_id(
                            old(self).candidates(),
                            i,
                            old(self).candidates()[i].id,
                        ) && final(self).twins_ordered_but(i)
                        &&& final(self).position() == (level, i + 1)
                        &&& final(self).depths() == old(self).depths().update(
                            i,
                            F32 { bits: F32_MAX },
                        )
                        &&& final(self).edges() == if old(self).candidates()[i].id
                            == old(self).point() {
                            old(self).edges()
                        } else {
                            old(self).edges().push(old(self).candidates()[i].id)
                        }
                    },
                    None => {
                        &&& selected is None
                        &&& final(self).depths() == old(self).depths()
                        &&& final(self).edges() == old(self).edges()
                    },
                }
            }),
    {
        proof {
            law_selection_takes_the_first_in_the_light(
                self.depths(),
                self.steps(),
                self.position().0,
                self.position().1,
            );
        }
        if self.kept.len() >= self.max_degree {
            return None;
        }
        while self.level < self.levels.len() && self.pool.len() > 0
            invariant
                self.wf(),
                self.same_task(old(self)),
                self.depths() == old(self).depths(),
                self.edges() == old(self).edges(),
                self.edges().len() < self.degree(),
                ends_at_first_light(
                    old(self).depths(),
                    old(self).steps(),
                    old(self).position().0,
                    old(self).position().1,
                    first_lit(
                        old(self).depths(),
                        old(self).steps(),
                        old(self).position().0,
                        old(self).position().1,
                    ),
                ),
                first_lit(self.depths(), self.steps(), self.position().0, self.position().1)
                    == first_lit(
                    old(self).depths(),
                    old(self).steps(),
                    old(self).position().0,
                    old(self).position().1,
                ),
            decreases self.levels@.len() - self.level, floored(self.pool@.len() - self.next),
        {
            if self.next >= self.pool.len() {
                self.level = self.level + 1;
                self.next = 0;
            } else if self.levels[self.level].lt(self.shadows[self.next]) {
                self.next = self.next + 1;
            } else {
                let i: usize = self.next;
                let ghost lit = *self;
                self.next = self.next + 1;
                self.shadows.set(i, F32 { bits: F32_MAX });
                let ghost before = self.kept@;
                let id: u32 = self.pool[i].id;
                proof {
                    self.lemma_selected(&lit, i as int);
                }
                if id != self.location {
                    self.kept.push(id);
                    proof {
                        self.lemma_kept(&lit, i as int);
                        assert(self.pool@[i as int].id == id);
                        assert forall|k: int| 0 <= k < self.edges().len() implies
                            #[trigger] self.edges()[k] != self.point() && is_candidate(
                            self.candidates(),
                            self.edges()[k],
                        ) by {
                            if k < before.len() {
                                assert(self.edges()[k] == before[k]);
                                assert(old(self).edges()[k] == before[k]);
                            }
                        }
                    }
                }
                return Some(i);
            }
        }
        None
    }

    pub fn candidate_count(&self) -> (count: usize)
        ensures
            count == self.candidates().len(),
    {
        self.pool.len()
    }

    /// A candidate, by its place in the order of distances.
    pub fn candidate(&self, i: usize) -> (candidate: PruneCandidate)
        requires
            i < self.candidates().len(),
        ensures
            candidate == self.candidates()[i as int],
    {
        self.pool[i]
    }

    /// Whether the shadow of a kept candidate on a later one matters: not if that lies
    /// deeper than the limit already.
    pub fn wants_shadow(&self, j: usize) -> (wanted: bool)
        requires
            self.wf(),
            j < self.candidates().len(),
        ensures
            wanted == !self.limit().below(self.depths()[j as int]),
            wanted == !beyond(self.depths()[j as int], self.limit()),
    {
        proof {
            law_singles_compare_as_numbers(self.alpha, self.shadows@[j as int]);
        }
        !self.alpha.lt(self.shadows[j])
    }

    /// Throws the shadow of a kept candidate on a later one.
    pub fn throw_shadow(&mut self, j: usize, shadow: F32)
        requires
            old(self).wf(),
            j < old(self).candidates().len(),
        ensures
            final(self).wf(),
            final(self).same_task(old(self)),
            final(self).position() == old(self).position(),
            old(self).plain() && old(self).single() ==> final(self).single(),
            final(self).edges() == old(self).edges(),
            final(self).depths().len() == old(self).depths().len(),
            forall|k: int|
                0 <= k < old(self).depths().len() && k != j ==> #[trigger] final(self).depths()[k]
                    == old(self).depths()[k],
            if beyond(old(self).depths()[j as int], old(self).limit()) {
                final(self).depths()[j as int] == old(self).depths()[j as int]
            } else {
                larger_of(
                    old(self).depths()[j as int],
                    shadow,
                    final(self).depths()[j as int],
                )
            },
            final(self).depths() == if old(self).limit().below(old(self).depths()[j as int]) {
                old(self).depths()
            } else {
                old(self).depths().update(
                    j as int,
                    deeper(old(self).depths()[j as int], shadow),
                )
            },
    {
        proof {
            law_depth_is_the_larger_one(self.shadows@[j as int], shadow);
            law_singles_compare_as_numbers(self.alpha, self.shadows@[j as int]);
        }
        let held: F32 = self.shadows[j];
        if self.alpha.lt(held) {
            return ;
        }
        let next: F32 = if held.is_nan() {
            shadow
        } else if shadow.is_nan() || !held.lt(shadow) {
            held
        } else {
            shadow
        };
        self.shadows.set(j, next);
        proof {
            self.lemma_thrown(old(self), j as int, shadow);
        }
    }

    /// Throws the shadows of the candidate that was kept last on those behind it. What is
    /// in `thrown` for one that lies deeper than the limit does not matter.
    pub fn throw_shadows(&mut self, i: usize, thrown: &[F32])
        requires
            old(self).wf(),
            i < old(self).candidates().len(),
            old(self).depths()[i as int].bits == F32_MAX,
            thrown@.len() == old(self).candidates().len(),
        ensures
            final(self).wf(),
            final(self).same_task(old(self)),
            final(self).position() == old(self).position(),
            final(self).edges() == old(self).edges(),
            final(self).depths() == shadows_after(
                old(self).depths(),
                thrown@,
                old(self).limit(),
                i as int,
            ),
            shaded(
                old(self).depths(),
                thrown@,
                old(self).limit(),
                i as int,
                final(self).depths(),
            ),
            old(self).plain() && old(self).single() ==> final(self).single(),
            old(self).plain() && old(self).twins_ordered_but(i as int) && throws_for_twins(
                old(self).candidates(),
                thrown@,
                i as int,
            ) ==> final(self).twins_ordered(),
    {
        let total: usize = self.pool.len();
        for j in i + 1..total
            invariant
                i < total,
                total == old(self).candidates().len(),
                old(self).depths().len() == total,
                old(self).depths()[i as int].bits == F32_MAX,
                thrown@.len() == total,
                self.wf(),
                self.same_task(old(self)),
                self.position() == old(self).position(),
                self.edges() == old(self).edges(),
                old(self).plain() && old(self).single() ==> self.plain() && self.single(),
                forall|k: int|
                    0 <= k < total ==> #[trigger] self.depths()[k] == if k < j {
                        shadows_after(old(self).depths(), thrown@, old(self).limit(), i as int)[k]
                    } else {
                        old(self).depths()[k]
                    },
        {
            let ghost before = *self;
            self.throw_shadow(j, thrown[j]);
            proof {
                assert(self.plain() == before.plain());
            }
        }
        proof {
            law_shadows_fall_behind(old(self).depths(), thrown@, old(self).limit(), i as int);
            assert(self.depths() =~= shadows_after(
                old(self).depths(),
                thrown@,
                old(self).limit(),
                i as int,
            ));
            if old(self).plain() && old(self).twins_ordered_but(i as int) && throws_for_twins(
                old(self).candidates(),
                thrown@,
                i as int,
            ) {
                law_deepest_shadows_keep_twins_ordered(
                    old(self).candidates(),
                    old(self).depths(),
                    thrown@,
                    old(self).limit(),
                    i as int,
                );
            }
        }
    }

    /// A neighbour more changes neither the levels nor what was passed.
    proof fn lemma_same_levels(&self, before: &FinalPrune)
        requires
            self.same_task(before),
            self.depths() == before.depths(),
            self.position() == before.position(),
            before.plain() ==> before.passed(),
        ensures
            self.plain() ==> self.passed(),
    {
        assert(self.plain() == before.plain());
    }

    /// The candidate that was selected, before it becomes a neighbour.
    proof fn lemma_selected(&self, lit: &FinalPrune, i: int)
        requires
            lit.wf(),
            self.same_task(lit),
            self.edges() == lit.edges(),
            0 <= i < lit.candidates().len(),
            lit.position().1 == i,
            lit.position().0 < lit.steps().len(),
            self.position() == (lit.position().0, i + 1),
            !lit.steps()[lit.position().0].below(lit.depths()[i]),
            self.depths() == lit.depths().update(i, F32 { bits: F32_MAX }),
        ensures
            self.wf(),
            self.plain() == lit.plain(),
            lit.plain() && lit.single() ==> self.single(),
            lit.plain() && lit.twins_ordered() ==> first_of_id(
                lit.candidates(),
                i,
                lit.candidates()[i].id,
            ) && self.twins_ordered_but(i),
    {
        assert forall|k: int| 0 <= k < self.edges().len() implies #[trigger] self.edges()[k]
            != self.point() && is_candidate(self.candidates(), self.edges()[k]) by {
            assert(lit.edges()[k] == self.edges()[k]);
        }
        if lit.plain() {
            let level = lit.position().0;
            assert(lit.steps()[level].at_most(lit.limit()));
            if lit.twins_ordered() {
                let id = lit.candidates()[i].id;
                assert forall|j: int| 0 <= j < i implies (#[trigger] lit.candidates()[j]).id
                    != id by {
                    if lit.candidates()[j].id == id {
                        assert(lit.steps()[level].below(lit.depths()[j]));
                        assert(lit.candidates()[i].id == id);
                    }
                }
            }
            assert forall|m: int|
                0 <= m < i + 1 && m < self.candidates().len() implies self.steps()[level].below(
                #[trigger] self.depths()[m],
            ) by {
                if m < i {
                    assert(lit.steps()[level].below(lit.depths()[m]));
                }
            }
            if lit.single() {
                assert forall|k: int| 0 <= k < self.edges().len() implies kept_first(
                    self.candidates(),
                    self.depths(),
                    self.limit(),
                    #[trigger] self.edges()[k],
                ) by {
                    let id = lit.edges()[k];
                    assert(kept_first(lit.candidates(), lit.depths(), lit.limit(), id));
                    let j = choose|j: int|
                        first_of_id(lit.candidates(), j, id) && lit.limit().below(
                            lit.depths()[j],
                        );
                    assert(self.limit().below(self.depths()[j]));
                    assert(first_of_id(self.candidates(), j, id));
                }
            }
        }
    }

    /// The candidate that was selected, as a neighbour.
    proof fn lemma_kept(&self, lit: &FinalPrune, i: int)
        requires
            lit.wf(),
            self.same_task(lit),
            0 <= i < lit.candidates().len(),
            lit.position().1 == i,
            lit.position().0 < lit.steps().len(),
            !lit.steps()[lit.position().0].below(lit.depths()[i]),
            self.depths() == lit.depths().update(i, F32 { bits: F32_MAX }),
            self.edges() == lit.edges().push(lit.candidates()[i].id),
            lit.plain() && lit.twins_ordered() ==> first_of_id(
                lit.candidates(),
                i,
                lit.candidates()[i].id,
            ),
        ensures
            lit.plain() && lit.single() && lit.twins_ordered() ==> self.single(),
    {
        if lit.plain() && lit.single() && lit.twins_ordered() {
            let level = lit.position().0;
            let id = lit.candidates()[i].id;
            assert(lit.steps()[level].at_most(lit.limit()));
            assert(first_of_id(self.candidates(), i, id));
            assert(self.limit().below(self.depths()[i]));
            assert forall|k: int| 0 <= k < lit.edges().len() implies #[trigger] lit.edges()[k] != id
                && kept_first(
                self.candidates(),
                self.depths(),
                self.limit(),
                lit.edges()[k],
            ) by {
                let other = lit.edges()[k];
                assert(kept_first(lit.candidates(), lit.depths(), lit.limit(), other));
                let j = choose|j: int|
                    first_of_id(lit.candidates(), j, other) && lit.limit().below(lit.depths()[j]);
                assert(self.limit().below(self.depths()[j]));
                assert(first_of_id(self.candidates(), j, other));
                if other == id {
                    assert(lit.candidates()[j].id == id && lit.candidates()[i].id == id);
                }
            }
            assert forall|k: int| 0 <= k < self.edges().len() implies kept_first(
                self.candidates(),
                self.depths(),
                self.limit(),
                #[trigger] self.edges()[k],
            ) by {
                if k < lit.edges().len() {
                    assert(self.edges()[k] == lit.edges()[k]);
                }
            }
            assert forall|a: int, b: int|
                0 <= a < self.edges().len() && 0 <= b < self.edges().len() && a != b implies
                self.edges()[a] != self.edges()[b] by {
                if a < lit.edges().len() {
                    assert(self.edges()[a] == lit.edges()[a]);
                }
                if b < lit.edges().len() {
                    assert(self.edges()[b] == lit.edges()[b]);
                }
            }
        }
    }

    /// A shadow that is thrown lights nothing up.
    proof fn lemma_thrown(&self, before: &FinalPrune, j: int, shadow: F32)
        requires
            before.wf(),
            self.same_task(before),
            self.position() == before.position(),
            self.edges() == before.edges(),
            0 <= j < before.candidates().len(),
            !before.limit().below(before.depths()[j]),
            self.depths() == before.depths().update(j, deeper(before.depths()[j], shadow)),
        ensures
            self.wf(),
            before.plain() && before.single() ==> self.single(),
    {
        assert forall|k: int| 0 <= k < self.edges().len() implies #[trigger] self.edges()[k]
            != self.point() && is_candidate(self.candidates(), self.edges()[k]) by {
            assert(before.edges()[k] == self.edges()[k]);
        }
        assert(self.plain() == before.plain());
        if before.plain() {
            let (level, next) = before.position();
            if 0 <= level < self.steps().len() {
                assert forall|m: int|
                    0 <= m < next && m < self.candidates().len() implies self.steps()[level].below(
                    #[trigger] self.depths()[m],
                ) by {
                    assert(before.steps()[level].below(before.depths()[m]));
                }
            }
            if before.single() {
                assert forall|k: int| 0 <= k < self.edges().len() implies kept_first(
                    self.candidates(),
                    self.depths(),
                    self.limit(),
                    #[trigger] self.edges()[k],
                ) by {
                    let id = before.edges()[k];
                    assert(kept_first(before.candidates(), before.depths(), before.limit(), id));
                    let m = choose|m: int|
                        first_of_id(before.candidates(), m, id) && before.limit().below(
                            before.depths()[m],
                        );
                    assert(m != j);
                    assert(self.limit().below(self.depths()[m]));
                    assert(first_of_id(self.candidates(), m, id));
                }
            }
        }
    }

    fn keeps(&self, id: u32) -> (result: bool)
        ensures
            result == self.edges().contains(id),
    {
        for i in 0..self.kept.len()
            invariant
                forall|j: int| 0 <= j < i ==> #[trigger] self.kept@[j] != id,
        {
            if self.kept[i] == id {
                proof {
                    assert(self.kept@[i as int] == id);
                }
                return true;
            }
        }
        false
    }

    /// The neighbours after the first `n` candidates were used to fill free places.
    pub open spec fn filled(
        edges: Seq<u32>,
        candidates: Seq<PruneCandidate>,
        point: u32,
        degree: int,
        n: int,
    ) -> Seq<u32>
        decreases n,
    {
        if n <= 0 {
            edges
        } else {
            let before = FinalPrune::filled(edges, candidates, point, degree, n - 1);
            let id = candidates[n - 1].id;
            if before.len() < degree && id != point && !before.contains(id) {
                before.push(id)
            } else {
                before
            }
        }
    }

    /// Fills free places with candidates that are not kept, nearest first, where that is
    /// wanted and shadows have been allowed any depth over 1.
    pub fn saturate(&mut self, wanted: bool)
        requires
            old(self).wf(),
        ensures
            final(self).wf(),
            final(self).same_task(old(self)),
            final(self).depths() == old(self).depths(),
            final(self).position() == old(self).position(),
            old(self).edges().no_duplicates() ==> final(self).edges().no_duplicates(),
            if wanted && !unordered(old(self).limit()) && units(F32 { bits: 0x3f80_0000 }) < units(
                old(self).limit(),
            ) {
                fills_nearest_first(
                    old(self).edges(),
                    old(self).candidates(),
                    old(self).point(),
                    old(self).degree(),
                    final(self).edges(),
                )
            } else {
                final(self).edges() == old(self).edges()
            },
            final(self).edges() == if wanted && (F32 { bits: F32_ONE }).below(old(self).limit()) {
                FinalPrune::filled(
                    old(self).edges(),
                    old(self).candidates(),
                    old(self).point(),
                    old(self).degree(),
                    old(self).candidates().len() as int,
                )
            } else {
                old(self).edges()
            },
    {
        let one: F32 = F32 { bits: F32_ONE };
        proof {
            law_singles_compare_as_numbers(one, self.alpha);
            law_saturation_fills_nearest_first(
                self.edges(),
                self.candidates(),
                self.point(),
                self.degree(),
            );
        }
        if !wanted || !one.lt(self.alpha) {
            return ;
        }
        let total: usize = self.pool.len();
        for n in 0..total
            invariant
                total == self.candidates().len(),
                self.wf(),
                self.same_task(old(self)),
                self.depths() == old(self).depths(),
                self.position() == old(self).position(),
                self.edges() == FinalPrune::filled(
                    old(self).edges(),
                    old(self).candidates(),
                    old(self).point(),
                    old(self).degree(),
                    n as int,
                ),
        {
            let id: u32 = self.pool[n].id;
            if self.kept.len() < self.max_degree && id != self.location && !self.keeps(id) {
                let ghost before = self.kept@;
                let ghost held = *self;
                self.kept.push(id);
                proof {
                    self.lemma_same_levels(&held);
                    assert(self.pool@[n as int].id == id);
                    assert forall|k: int| 0 <= k < self.edges().len() implies
                        #[trigger] self.edges()[k] != self.point() && is_candidate(
                        self.candidates(),
                        self.edges()[k],
                    ) by {
                        if k < before.len() {
                            assert(self.edges()[k] == before[k]);
                        }
                    }
                }
            }
        }
        proof {
            if old(self).edges().no_duplicates() {
                law_saturation_adds_no_duplicate(
                    old(self).edges(),
                    old(self).candidates(),
                    old(self).point(),
                    old(self).degree(),
                    total as int,
                );
            }
        }
    }

    /// The neighbours in the order in which they were kept.
    pub fn into_edges(self) -> (edges: Vec<u32>)
        ensures
            edges@ == self.edges(),
    {
        self.kept
    }
}

/// The `i`-th candidate is the first one with that id.
pub open spec fn first_of_id(candidates: Seq<PruneCandidate>, i: int, id: u32) -> bool {
    &&& 0 <= i < candidates.len()
    &&& candidates[i].id == id
    &&& forall|j: int| 0 <= j < i ==> (#[trigger] candidates[j]).id != id
}

/// The first candidate with that id lies too deep to be kept again.
pub open spec fn kept_first(
    candidates: Seq<PruneCandidate>,
    depths: Seq<F32>,
    limit: F32,
    id: u32,
) -> bool {
    exists|i: int| #[trigger] first_of_id(candidates, i, id) && limit.below(depths[i])
}

/// Of two candidates with one id, the first of which is not the `k`-th, the later one lies
/// at least as deep, or deeper than the limit.
pub open spec fn twins_in_order_but(
    candidates: Seq<PruneCandidate>,
    depths: Seq<F32>,
    limit: F32,
    k: int,
) -> bool {
    forall|i: int, j: int|
        0 <= i < j < candidates.len() && i != k && (#[trigger] candidates[i]).id == (
        #[trigger] candidates[j]).id ==> depths[i].at_most(depths[j]) || limit.below(depths[j])
}

/// The shadows that the `i`-th candidate throws are the deepest on those behind it that
/// have its id, and no deeper on the nearer of two others with one id than on the farther.
pub open spec fn throws_for_twins(
    candidates: Seq<PruneCandidate>,
    thrown: Seq<F32>,
    i: int,
) -> bool {
    &&& forall|j: int|
        i < j < candidates.len() && (#[trigger] candidates[j]).id == candidates[i].id
            ==> thrown[j] == (F32 { bits: F32_MAX })
    &&& forall|a: int, b: int|
        i < a < b < candidates.len() && (#[trigger] candidates[a]).id == (
        #[trigger] candidates[b]).id ==> thrown[a].at_most(thrown[b])
}

/// Of two candidates with one id the later one lies at least as deep, or deeper than the
/// limit.
pub open spec fn twins_in_order(
    candidates: Seq<PruneCandidate>,
    depths: Seq<F32>,
    limit: F32,
) -> bool {
    forall|i: int, j: int|
        0 <= i < j < candidates.len() && (#[trigger] candidates[i]).id == (
        #[trigger] candidates[j]).id ==> depths[i].at_most(depths[j]) || limit.below(depths[j])
}

pub open spec fn is_candidate(candidates: Seq<PruneCandidate>, id: u32) -> bool {
    exists|i: int| 0 <= i < candidates.len() && (#[trigger] candidates[i]).id == id
}

/// After the free places were filled there is no room left, or every candidate but the
/// point itself is a neighbour.
pub proof fn law_saturation_leaves_no_gap(
    edges: Seq<u32>,
    candidates: Seq<PruneCandidate>,
    point: u32,
    degree: int,
    n: int,
    i: int,
)
    requires
        0 <= i < n <= candidates.len(),
        candidates[i].id != point,
        FinalPrune::filled(edges, candidates, point, degree, n).len() < degree,
    ensures
        FinalPrune::filled(edges, candidates, point, degree, n).contains(candidates[i].id),
    decreases n,
{
    let before = FinalPrune::filled(edges, candidates, point, degree, n - 1);
    let after = FinalPrune::filled(edges, candidates, point, degree, n);
    if i < n - 1 {
        law_saturation_leaves_no_gap(edges, candidates, point, degree, n - 1, i);
        let p = choose|p: int| 0 <= p < before.len() && before[p] == candidates[i].id;
        assert(after[p] == candidates[i].id);
    } else if !before.contains(candidates[i].id) {
        assert(after[before.len() as int] == candidates[i].id);
    }
}

/// Neighbours without duplicates stay so while free places are filled.
pub proof fn law_saturation_adds_no_duplicate(
    edges: Seq<u32>,
    candidates: Seq<PruneCandidate>,
    point: u32,
    degree: int,
    n: int,
)
    requires
        0 <= n <= candidates.len(),
        edges.no_duplicates(),
    ensures
        FinalPrune::filled(edges, candidates, point, degree, n).no_duplicates(),
    decreases n,
{
    if n > 0 {
        law_saturation_adds_no_duplicate(edges, candidates, point, degree, n - 1);
    }
}

/// The shadows after the `i`-th candidate was kept and has thrown its shadows on those
/// behind it.
pub open spec fn shadows_after(depths: Seq<F32>, thrown: Seq<F32>, limit: F32, i: int) -> Seq<F32> {
    Seq::new(
        depths.len(),
        |j: int|
            if j < i {
                depths[j]
            } else if j == i {
                F32 { bits: F32_MAX }
            } else if limit.below(depths[j]) {
                depths[j]
            } else {
                deeper(depths[j], thrown[j])
            },
    )
}

/// Where a kept candidate throws the deepest shadow on those behind it that have its id,
/// and no deeper one on the nearer of two others with one id than on the farther, the order
/// of those with one id lasts. So `select` keeps no neighbour twice, whatever ids the
/// candidates have.
pub proof fn law_deepest_shadows_keep_twins_ordered(
    candidates: Seq<PruneCandidate>,
    depths: Seq<F32>,
    thrown: Seq<F32>,
    limit: F32,
    i: int,
)
    requires
        0 <= i < candidates.len(),
        depths.len() == candidates.len(),
        thrown.len() == candidates.len(),
        limit.below(F32 { bits: F32_MAX }),
        twins_in_order_but(candidates, depths, limit, i),
        throws_for_twins(candidates, thrown, i),
    ensures
        twins_in_order(candidates, shadows_after(depths, thrown, limit, i), limit),
{
    let after = shadows_after(depths, thrown, limit, i);
    assert forall|a: int, b: int|
        0 <= a < b < candidates.len() && (#[trigger] candidates[a]).id == (
        #[trigger] candidates[b]).id implies after[a].at_most(after[b]) || limit.below(
        after[b],
    ) by {
        if a == i {
            assert(thrown[b] == (F32 { bits: F32_MAX }));
        } else {
            assert(depths[a].at_most(depths[b]) || limit.below(depths[b]));
        }
        if a > i {
            assert(thrown[a].at_most(thrown[b]));
        }
    }
}

/// After the free places were filled there are as many neighbours as there is room for, or
/// as there are ids of candidates other than the point.
pub proof fn law_saturation_fills_up(
    edges: Seq<u32>,
    candidates: Seq<PruneCandidate>,
    point: u32,
    degree: int,
)
    requires
        edges.no_duplicates(),
        edges.len() <= degree,
        forall|k: int|
            0 <= k < edges.len() ==> #[trigger] edges[k] != point && is_candidate(
                candidates,
                edges[k],
            ),
    ensures
        ({
            let all = FinalPrune::filled(
                edges,
                candidates,
                point,
                degree,
                candidates.len() as int,
            );
            &&& other_ids(candidates, point).finite()
            &&& all.len() == least(degree, other_ids(candidates, point).len() as int)
        }),
{
    let n = candidates.len() as int;
    let all = FinalPrune::filled(edges, candidates, point, degree, n);
    let others = other_ids(candidates, point);
    let ids = candidates.map_values(|c: PruneCandidate| c.id);
    law_saturation_adds_no_duplicate(edges, candidates, point, degree, n);
    lemma_filled_within(edges, candidates, point, degree, n);
    all.unique_seq_to_set();
    vstd::seq_lib::seq_to_set_is_finite(ids);
    vstd::seq_lib::seq_to_set_is_finite(all);
    assert(others.subset_of(ids.to_set())) by {
        assert forall|id: u32| others.contains(id) implies ids.to_set().contains(id) by {
            let i = choose|i: int|
                0 <= i < candidates.len() && (#[trigger] candidates[i]).id == id;
            assert(ids[i] == id);
        }
    }
    vstd::set_lib::lemma_len_subset(others, ids.to_set());
    assert(all.to_set().subset_of(others)) by {
        assert forall|id: u32| all.to_set().contains(id) implies others.contains(id) by {
            let k = choose|k: int| 0 <= k < all.len() && all[k] == id;
            assert(all[k] != point && is_candidate(candidates, all[k]));
        }
    }
    vstd::set_lib::lemma_len_subset(all.to_set(), others);
    if all.len() < degree {
        assert(others.subset_of(all.to_set())) by {
            assert forall|id: u32| others.contains(id) implies all.to_set().contains(id) by {
                let i = choose|i: int|
                    0 <= i < candidates.len() && (#[trigger] candidates[i]).id == id;
                law_saturation_leaves_no_gap(edges, candidates, point, degree, n, i);
            }
        }
        vstd::set_lib::lemma_len_subset(others, all.to_set());
    }
}

/// The ids of the candidates but for the point's own.
pub open spec fn other_ids(candidates: Seq<PruneCandidate>, point: u32) -> Set<u32> {
    Set::new(|id: u32| id != point && is_candidate(candidates, id))
}

/// Filling places up takes candidates, and no more than there is room for.
proof fn lemma_filled_within(
    edges: Seq<u32>,
    candidates: Seq<PruneCandidate>,
    point: u32,
    degree: int,
    n: int,
)
    requires
        0 <= n <= candidates.len(),
        edges.len() <= degree,
        forall|k: int|
            0 <= k < edges.len() ==> #[trigger] edges[k] != point && is_candidate(
                candidates,
                edges[k],
            ),
    ensures
        ({
            let all = FinalPrune::filled(edges, candidates, point, degree, n);
            &&& all.len() <= degree
            &&& forall|k: int|
                0 <= k < all.len() ==> #[trigger] all[k] != point && is_candidate(
                    candidates,
                    all[k],
                )
        }),
    decreases n,
{
    if n > 0 {
        lemma_filled_within(edges, candidates, point, degree, n - 1);
        let before = FinalPrune::filled(edges, candidates, point, degree, n - 1);
        let all = FinalPrune::filled(edges, candidates, point, degree, n);
        assert forall|k: int| 0 <= k < all.len() implies #[trigger] all[k] != point && is_candidate(
            candidates,
            all[k],
        ) by {
            if k < before.len() {
                assert(all[k] == before[k]);
            } else {
                assert(candidates[n - 1].id == all[k]);
            }
        }
    }
}

} // verus!

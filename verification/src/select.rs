//! Parent selection, and the reference strategy: tournament selection.
//!
//! A selection strategy chooses, fitness-driven, one parent per population
//! slot. Tournament selection fills each slot by drawing `tournament_size`
//! indices uniformly with replacement and keeping the candidate whose
//! fitness is maximal among the draws; ties are broken in favour of the
//! *last*-drawn maximal index, never the first.

use vstd::prelude::*;

use crate::error::EngineError;
use crate::fitness::Fitness;
use crate::individual::{views_of, Individual};
use crate::random::RandomSource;

verus! {

/// The winner of a tournament, folded draw by draw from a running best:
/// a later draw replaces the best exactly when its fitness is at least as
/// high, so equal scores fall to the last-drawn index; `None` when some
/// comparison along the fold fails.
pub open spec fn winner_from(fit: Seq<Fitness>, draws: Seq<u64>, best: u64) -> Option<u64>
    decreases draws.len(),
{
    if draws.len() == 0 {
        Some(best)
    } else {
        let d = draws[0];
        if !fit[d as int].comparable_with(fit[best as int]) {
            None
        } else if fit[d as int].spec_ge(fit[best as int]) {
            winner_from(fit, draws.skip(1), d)
        } else {
            winner_from(fit, draws.skip(1), best)
        }
    }
}

/// The winning index of a non-empty draw sequence.
pub open spec fn winner_spec(fit: Seq<Fitness>, draws: Seq<u64>) -> Option<u64> {
    winner_from(fit, draws.skip(1), draws[0])
}

/// When every drawn score is defined, the fold never fails.
pub proof fn lemma_winner_defined(fit: Seq<Fitness>, draws: Seq<u64>, best: u64)
    requires
        (best as int) < fit.len(),
        forall|j: int| 0 <= j < draws.len() ==> (draws[j] as int) < fit.len(),
        forall|i: int| 0 <= i < fit.len() ==> fit[i] is Value,
    ensures
        winner_from(fit, draws, best) is Some,
    decreases draws.len(),
{
    if draws.len() > 0 {
        let d = draws[0];
        if fit[d as int].spec_ge(fit[best as int]) {
            lemma_winner_defined(fit, draws.skip(1), d);
        } else {
            lemma_winner_defined(fit, draws.skip(1), best);
        }
    }
}

proof fn lemma_winner_from_last_max(fit: Seq<Fitness>, draws: Seq<u64>, best: u64)
    requires
        (best as int) < fit.len(),
        forall|j: int| 0 <= j < draws.len() ==> ((#[trigger] draws[j]) as int) < fit.len(),
        forall|i: int| 0 <= i < fit.len() ==> (#[trigger] fit[i]) is Value,
    ensures
        winner_from(fit, draws, best) is Some,
        ({
            let w = winner_from(fit, draws, best)->0;
            &&& (w as int) < fit.len()
            &&& fit[w as int].spec_ge(fit[best as int])
            &&& (forall|j: int|
                0 <= j < draws.len() ==> fit[w as int].spec_ge(fit[(#[trigger] draws[j]) as int]))
            &&& ((w == best && (forall|j: int|
                0 <= j < draws.len() ==> !fit[(#[trigger] draws[j]) as int].spec_ge(
                    fit[w as int],
                ))) || (exists|j: int|
                0 <= j < draws.len() && (#[trigger] draws[j]) == w && (forall|j2: int|
                    j < j2 < draws.len() ==> !fit[draws[j2] as int].spec_ge(fit[w as int]))))
        }),
    decreases draws.len(),
{
    if draws.len() > 0 {
        let d = draws[0];
        let tail = draws.skip(1);
        assert(forall|j: int| 0 <= j < tail.len() ==> (#[trigger] tail[j]) == draws[j + 1]);
        let next = if fit[d as int].spec_ge(fit[best as int]) {
            d
        } else {
            best
        };
        lemma_winner_from_last_max(fit, tail, next);
        assert(winner_from(fit, draws, best) == winner_from(fit, tail, next));
        let w = winner_from(fit, tail, next)->0;
        assert forall|j: int| 0 <= j < draws.len() implies fit[w as int].spec_ge(
            fit[(draws[j]) as int],
        ) by {
            if j > 0 {
                assert(tail[j - 1] == draws[j]);
            }
        }
        if w == next && (forall|j: int|
            0 <= j < tail.len() ==> !fit[(#[trigger] tail[j]) as int].spec_ge(fit[w as int])) {
            if next == d {
                assert forall|j2: int| 0 < j2 < draws.len() implies !fit[
                    (draws[j2]) as int
                ].spec_ge(fit[w as int]) by {
                    assert(tail[j2 - 1] == draws[j2]);
                }
                assert(0 <= 0 < draws.len() && draws[0] == w && (forall|j2: int|
                    0 < j2 < draws.len() ==> !fit[draws[j2] as int].spec_ge(fit[w as int])));
            } else {
                assert(w == best);
                assert forall|j: int| 0 <= j < draws.len() implies !fit[(draws[j]) as int].spec_ge(
                    fit[w as int],
                ) by {
                    if j > 0 {
                        assert(tail[j - 1] == draws[j]);
                    }
                }
            }
        } else {
            let jt = choose|j: int|
                0 <= j < tail.len() && (#[trigger] tail[j]) == w && (forall|j2: int|
                    j < j2 < tail.len() ==> !fit[tail[j2] as int].spec_ge(fit[w as int]));
            assert(draws[jt + 1] == w);
            assert forall|j2: int| jt + 1 < j2 < draws.len() implies !fit[
                (draws[j2]) as int
            ].spec_ge(fit[w as int]) by {
                assert(tail[j2 - 1] == draws[j2]);
            }
            assert(0 <= jt + 1 < draws.len() && draws[jt + 1] == w && (forall|j2: int|
                jt + 1 < j2 < draws.len() ==> !fit[draws[j2] as int].spec_ge(fit[w as int])));
        }
    }
}

/// The tournament tie-break law: over defined scores, the winning index is
/// drawn, no drawn index scores strictly higher, and every index drawn
/// after the winner's decisive appearance scores strictly lower — so among
/// duplicate maximal scores the *last*-drawn index wins, never the first.
pub proof fn lemma_winner_is_last_max(fit: Seq<Fitness>, draws: Seq<u64>)
    requires
        draws.len() >= 1,
        forall|j: int| 0 <= j < draws.len() ==> ((#[trigger] draws[j]) as int) < fit.len(),
        forall|i: int| 0 <= i < fit.len() ==> (#[trigger] fit[i]) is Value,
    ensures
        winner_spec(fit, draws) is Some,
        ({
            let w = winner_spec(fit, draws)->0;
            &&& (w as int) < fit.len()
            &&& (forall|j: int|
                0 <= j < draws.len() ==> fit[w as int].spec_ge(fit[(#[trigger] draws[j]) as int]))
            &&& (exists|j: int|
                0 <= j < draws.len() && (#[trigger] draws[j]) == w && (forall|j2: int|
                    j < j2 < draws.len() ==> !fit[draws[j2] as int].spec_ge(fit[w as int])))
        }),
{
    let tail = draws.skip(1);
    assert(forall|j: int| 0 <= j < tail.len() ==> (#[trigger] tail[j]) == draws[j + 1]);
    lemma_winner_from_last_max(fit, tail, draws[0]);
    let w = winner_spec(fit, draws)->0;
    assert forall|j: int| 0 <= j < draws.len() implies fit[w as int].spec_ge(
        fit[(draws[j]) as int],
    ) by {
        if j > 0 {
            assert(tail[j - 1] == draws[j]);
        }
    }
    if w == draws[0] && (forall|j: int|
        0 <= j < tail.len() ==> !fit[(#[trigger] tail[j]) as int].spec_ge(fit[w as int])) {
        assert forall|j2: int| 0 < j2 < draws.len() implies !fit[(draws[j2]) as int].spec_ge(
            fit[w as int],
        ) by {
            assert(tail[j2 - 1] == draws[j2]);
        }
        assert(0 <= 0 < draws.len() && draws[0] == w && (forall|j2: int|
            0 < j2 < draws.len() ==> !fit[draws[j2] as int].spec_ge(fit[w as int])));
    } else {
        let jt = choose|j: int|
            0 <= j < tail.len() && (#[trigger] tail[j]) == w && (forall|j2: int|
                j < j2 < tail.len() ==> !fit[tail[j2] as int].spec_ge(fit[w as int]));
        assert(draws[jt + 1] == w);
        assert forall|j2: int| jt + 1 < j2 < draws.len() implies !fit[(draws[j2]) as int].spec_ge(
            fit[w as int],
        ) by {
            assert(tail[j2 - 1] == draws[j2]);
        }
        assert(0 <= jt + 1 < draws.len() && draws[jt + 1] == w && (forall|j2: int|
            jt + 1 < j2 < draws.len() ==> !fit[draws[j2] as int].spec_ge(fit[w as int])));
    }
}

/// Pick the winner of one tournament: the fitness values stand for the whole
/// population, the draws are the sampled indices, and the result is the
/// last-drawn index of maximal fitness — or the explicit refusal to order
/// undefined scores.
pub fn tournament_winner(fitness_values: &Vec<Fitness>, draws: &Vec<u64>) -> (res: Result<
    usize,
    EngineError,
>)
    requires
        draws@.len() >= 1,
        forall|j: int| 0 <= j < draws@.len() ==> (draws@[j] as int) < fitness_values@.len(),
    ensures
        match res {
            Ok(w) => winner_spec(fitness_values@, draws@) == Some(w as u64) && (w as int)
                < fitness_values@.len(),
            Err(e) => e == EngineError::NonComparableFitness && winner_spec(
                fitness_values@,
                draws@,
            ) is None,
        },
{
    let ghost fit = fitness_values@;
    let nf = fitness_values.len();
    let mut best: u64 = draws[0];
    let mut j: usize = 1;
    while j < draws.len()
        invariant
            1 <= j <= draws@.len(),
            fit == fitness_values@,
            nf == fitness_values@.len(),
            (best as int) < fitness_values@.len(),
            forall|jj: int| 0 <= jj < draws@.len() ==> (draws@[jj] as int)
                < fitness_values@.len(),
            winner_spec(fitness_values@, draws@) == winner_from(
                fitness_values@,
                draws@.skip(j as int),
                best,
            ),
        decreases draws@.len() - j,
    {
        let d = draws[j];
        proof {
            assert(draws@.skip(j as int).len() == draws@.len() - j);
            assert(draws@.skip(j as int)[0] == draws@[j as int]);
            assert(draws@.skip(j as int).skip(1) =~= draws@.skip(j as int + 1));
        }
        let fd = fitness_values[d as usize];
        let fb = fitness_values[best as usize];
        match fd.partial_ge(&fb) {
            None => {
                return Err(EngineError::NonComparableFitness);
            },
            Some(at_least) => {
                if at_least {
                    best = d;
                }
            },
        }
        j = j + 1;
    }
    proof {
        assert(draws@.skip(draws@.len() as int).len() == 0);
    }
    Ok(best as usize)
}

/// Every element of `parents` is, by view, a copy of some member of `pop`.
pub open spec fn chosen_from<I: View>(parents: Seq<I>, pop: Seq<I>) -> bool {
    forall|j: int|
        0 <= j < parents.len() ==> exists|i: int|
            0 <= i < pop.len() && #[trigger] parents[j]@ == pop[i]@
}

/// A fitness-driven choice of parents.
///
/// `select_of` is the strategy's spec-level model, threading the random
/// source through every draw; the executable `select` is pinned to it for
/// modeled sources. Independent of any model, a successful selection returns
/// exactly one parent per population slot, each a copy of some population
/// member, and an all-defined fitness vector of the right length over a
/// non-empty population is always selected from successfully.
pub trait SelectionStrategy<R: RandomSource, I: Individual<R>>: Sized + Send + Sync {
    /// The parents chosen from `pop` under fitness `fit`, and the source
    /// state left behind.
    spec fn select_of(&self, pop: Seq<I::V>, fit: Seq<Fitness>, r: R) -> Result<
        (Seq<I::V>, R),
        EngineError,
    >;

    /// A successful modeled selection fills every slot.
    proof fn select_of_len(&self, pop: Seq<I::V>, fit: Seq<Fitness>, r: R)
        ensures
            self.select_of(pop, fit, r) matches Ok(p) ==> p.0.len() == pop.len(),
    ;

    /// Choose one parent per population slot, fitness-driven, drawing only
    /// from `rng`.
    fn select(&self, population: &Vec<I>, fitness_values: &Vec<Fitness>, rng: &mut R) -> (res:
        Result<Vec<I>, EngineError>)
        ensures
            res matches Ok(parents) ==> parents@.len() == population@.len() && chosen_from(
                parents@,
                population@,
            ),
            res matches Err(e) ==> e != EngineError::MissingGenerator,
            res == Err::<Vec<I>, EngineError>(EngineError::ContractViolation) <==> (
            population@.len() == 0 || fitness_values@.len() != population@.len()),
            population@.len() >= 1 && fitness_values@.len() == population@.len() && (forall|j: int|
                0 <= j < fitness_values@.len() ==> fitness_values@[j] is Value) ==> res is Ok,
            R::obeys_model() ==> match (res, self.select_of(
                views_of(population@),
                fitness_values@,
                *old(rng),
            )) {
                (Ok(parents), Ok(p)) => views_of(parents@) == p.0 && *final(rng) == p.1,
                (Err(e), Err(e2)) => e == e2,
                _ => false,
            },
    ;
}

/// The draw sequence `count` bounded draws produce, and the source state
/// they leave behind.
pub open spec fn draws_of<R: RandomSource>(count: nat, n: u64, r: R) -> (Seq<u64>, R)
    decreases count,
{
    if count == 0 {
        (Seq::empty(), r)
    } else {
        let d = r.draw(n);
        let rest = draws_of((count - 1) as nat, n, r.next(n));
        (seq![d] + rest.0, rest.1)
    }
}

/// The outcome of filling `slots` slots by tournaments of `count` draws
/// each: the chosen parent views in slot order, and the source state left
/// behind — or the first failed comparison.
pub open spec fn slots_of<R: RandomSource, V>(
    count: nat,
    slots: nat,
    pop: Seq<V>,
    fit: Seq<Fitness>,
    r: R,
) -> Result<(Seq<V>, R), EngineError>
    decreases slots,
{
    if slots == 0 {
        Ok((Seq::empty(), r))
    } else {
        let n = pop.len() as u64;
        let dr = draws_of(count, n, r);
        match winner_spec(fit, dr.0) {
            None => Err(EngineError::NonComparableFitness),
            Some(w) => match slots_of(count, (slots - 1) as nat, pop, fit, dr.1) {
                Err(e) => Err(e),
                Ok(rest) => Ok((seq![pop[w as int]] + rest.0, rest.1)),
            },
        }
    }
}

/// A successful run of `slots_of` fills every slot.
proof fn lemma_slots_len<R: RandomSource, V>(
    count: nat,
    slots: nat,
    pop: Seq<V>,
    fit: Seq<Fitness>,
    r: R,
)
    ensures
        slots_of(count, slots, pop, fit, r) matches Ok(p) ==> p.0.len() == slots,
    decreases slots,
{
    if slots > 0 {
        let n = pop.len() as u64;
        let dr = draws_of(count, n, r);
        lemma_slots_len(count, (slots - 1) as nat, pop, fit, dr.1);
    }
}

/// A modeled draw sequence has one value per draw, each below its bound.
pub proof fn lemma_draws_in_range<R: RandomSource>(count: nat, n: u64, r: R)
    requires
        1 <= n,
    ensures
        draws_of(count, n, r).0.len() == count,
        forall|j: int|
            0 <= j < draws_of(count, n, r).0.len() ==> (#[trigger] draws_of(count, n, r).0[j])
                < n,
    decreases count,
{
    if count > 0 {
        r.draw_in_range(n);
        let rest = draws_of((count - 1) as nat, n, r.next(n));
        lemma_draws_in_range((count - 1) as nat, n, r.next(n));
        assert forall|j: int|
            0 <= j < draws_of(count, n, r).0.len() implies (draws_of(count, n, r).0[j]) < n by {
            if j > 0 {
                assert(draws_of(count, n, r).0[j] == rest.0[j - 1]);
            } else {
                assert(draws_of(count, n, r).0[0] == r.draw(n));
            }
        }
    }
}

/// A fold winner is the running best or one of the draws.
proof fn lemma_winner_member(fit: Seq<Fitness>, draws: Seq<u64>, best: u64)
    ensures
        winner_from(fit, draws, best) matches Some(w) ==> w == best || (exists|j: int|
            0 <= j < draws.len() && (#[trigger] draws[j]) == w),
    decreases draws.len(),
{
    if draws.len() > 0 {
        let d = draws[0];
        let tail = draws.skip(1);
        assert(forall|j: int| 0 <= j < tail.len() ==> (#[trigger] tail[j]) == draws[j + 1]);
        if fit[d as int].comparable_with(fit[best as int]) {
            let next = if fit[d as int].spec_ge(fit[best as int]) {
                d
            } else {
                best
            };
            lemma_winner_member(fit, tail, next);
            if let Some(w) = winner_from(fit, tail, next) {
                if w == d {
                    assert(draws[0] == w);
                } else if w != best {
                    let jt = choose|j: int| 0 <= j < tail.len() && (#[trigger] tail[j]) == w;
                    assert(draws[jt + 1] == w);
                }
            }
        }
    }
}

/// Every parent a successful modeled tournament pass returns is a member
/// of the population it selected from.
pub proof fn lemma_slots_members<R: RandomSource, V>(
    count: nat,
    slots: nat,
    pop: Seq<V>,
    fit: Seq<Fitness>,
    r: R,
)
    requires
        1 <= count,
        1 <= pop.len() <= u64::MAX,
    ensures
        slots_of(count, slots, pop, fit, r) matches Ok(p) ==> forall|i: int|
            0 <= i < p.0.len() ==> pop.contains(#[trigger] p.0[i]),
    decreases slots,
{
    if slots > 0 {
        let n = pop.len() as u64;
        let dr = draws_of(count, n, r);
        lemma_draws_in_range(count, n, r);
        lemma_winner_member(fit, dr.0.skip(1), dr.0[0]);
        lemma_slots_members::<R, V>(count, (slots - 1) as nat, pop, fit, dr.1);
        assert(forall|j: int|
            0 <= j < dr.0.skip(1).len() ==> (#[trigger] dr.0.skip(1)[j]) == dr.0[j + 1]);
        if let Some(w) = winner_spec(fit, dr.0) {
            if w != dr.0[0] {
                let jt = choose|j: int|
                    0 <= j < dr.0.skip(1).len() && (#[trigger] dr.0.skip(1)[j]) == w;
                assert(dr.0[jt + 1] == w);
            }
            assert(w < n);
            assert(pop.contains(pop[w as int]));
            if let Ok(rest) = slots_of(count, (slots - 1) as nat, pop, fit, dr.1) {
                let whole = seq![pop[w as int]] + rest.0;
                assert forall|i: int| 0 <= i < whole.len() implies pop.contains(
                    #[trigger] whole[i],
                ) by {
                    if i > 0 {
                        assert(whole[i] == rest.0[i - 1]);
                    }
                }
            }
        }
    }
}

/// The reference selection strategy: per slot, draw `tournament_size`
/// indices uniformly with replacement and keep the last-drawn index of
/// maximal fitness.
#[derive(Debug)]
pub struct TournamentSelection {
    tournament_size: usize,
}

impl TournamentSelection {
    #[verifier::type_invariant]
    spec fn wf(self) -> bool {
        self.tournament_size >= 1
    }

    /// The number of indices drawn per slot.
    pub closed spec fn spec_tournament_size(&self) -> usize {
        self.tournament_size
    }

    /// A tournament of `tournament_size` draws per slot. A tournament needs
    /// at least one participant.
    pub fn new(tournament_size: usize) -> (r: TournamentSelection)
        requires
            tournament_size >= 1,
        ensures
            r.spec_tournament_size() == tournament_size,
    {
        TournamentSelection { tournament_size }
    }
}

impl<R: RandomSource, I: Individual<R>> SelectionStrategy<R, I> for TournamentSelection {
    open spec fn select_of(&self, pop: Seq<I::V>, fit: Seq<Fitness>, r: R) -> Result<
        (Seq<I::V>, R),
        EngineError,
    > {
        if pop.len() == 0 || fit.len() != pop.len() {
            Err(EngineError::ContractViolation)
        } else {
            slots_of(self.spec_tournament_size() as nat, pop.len(), pop, fit, r)
        }
    }

    proof fn select_of_len(&self, pop: Seq<I::V>, fit: Seq<Fitness>, r: R) {
        lemma_slots_len(self.spec_tournament_size() as nat, pop.len(), pop, fit, r);
    }

    #[verifier::loop_isolation(false)]
    fn select(&self, population: &Vec<I>, fitness_values: &Vec<Fitness>, rng: &mut R) -> (res:
        Result<Vec<I>, EngineError>) {
        proof {
            use_type_invariant(self);
        }
        let n = population.len();
        if n == 0 || fitness_values.len() != n {
            return Err(EngineError::ContractViolation);
        }
        let ghost pop_views = views_of(population@);
        let ghost fit = fitness_values@;
        let ghost r0 = *rng;
        let k = self.tournament_size;
        let n64 = n as u64;
        proof {
            assert(pop_views.len() == n);
        }
        let mut parents: Vec<I> = Vec::new();
        let mut s: usize = 0;
        while s < n
            invariant
                s <= n,
                parents@.len() == s,
                chosen_from(parents@, population@),
                R::obeys_model() ==> match slots_of(
                    k as nat,
                    (n - s) as nat,
                    pop_views,
                    fit,
                    *rng,
                ) {
                    Ok(rest) => slots_of(k as nat, n as nat, pop_views, fit, r0) == Ok::<
                        _,
                        EngineError,
                    >((views_of(parents@) + rest.0, rest.1)),
                    Err(e) => slots_of(k as nat, n as nat, pop_views, fit, r0) == Err::<
                        (Seq<I::V>, R),
                        _,
                    >(e),
                },
            decreases n - s,
        {
            let ghost r_slot = *rng;
            let mut draws: Vec<u64> = Vec::new();
            let mut t: usize = 0;
            while t < k
                invariant
                    t <= k,
                    draws@.len() == t,
                    forall|j: int| 0 <= j < draws@.len() ==> draws@[j] < n64,
                    R::obeys_model() ==> {
                        let full = draws_of(k as nat, n64, r_slot);
                        let rem = draws_of((k - t) as nat, n64, *rng);
                        full.0 == draws@ + rem.0 && full.1 == rem.1
                    },
                decreases k - t,
            {
                let ghost r_before = *rng;
                let d = rng.next_below(n64);
                draws.push(d);
                proof {
                    if R::obeys_model() {
                        let rem_before = draws_of((k - t) as nat, n64, r_before);
                        let rem_after = draws_of((k - t - 1) as nat, n64, *rng);
                        assert(rem_before.0 == seq![d] + rem_after.0);
                        assert(draws@ =~= (draws@.drop_last() + seq![d]));
                        assert(draws@.drop_last() + (seq![d] + rem_after.0) =~= draws@
                            + rem_after.0);
                    }
                }
                t = t + 1;
            }
            proof {
                if R::obeys_model() {
                    assert(draws_of(0nat, n64, *rng).0 =~= Seq::<u64>::empty());
                    assert(draws@ + Seq::<u64>::empty() =~= draws@);
                }
            }
            proof {
                if R::obeys_model() {
                    assert(draws_of(k as nat, n64, r_slot).0 == draws@);
                    assert(draws_of(k as nat, n64, r_slot).1 == *rng);
                }
            }
            let winner = match tournament_winner(fitness_values, &draws) {
                Ok(w) => w,
                Err(e) => {
                    proof {
                        if (forall|j: int|
                            0 <= j < fitness_values@.len() ==> fitness_values@[j] is Value) {
                            lemma_winner_defined(fit, draws@.skip(1), draws@[0]);
                        }
                        if R::obeys_model() {
                            assert(slots_of(k as nat, (n - s) as nat, pop_views, fit, r_slot)
                                == Err::<(Seq<I::V>, R), EngineError>(e));
                        }
                    }
                    return Err(e);
                },
            };
            let ghost parents_prev = parents@;
            parents.push(population[winner].duplicate());
            proof {
                assert(parents@[s as int]@ == population@[winner as int]@);
                if R::obeys_model() {
                    let rng_now = *rng;
                    let tail = slots_of(k as nat, (n - s - 1) as nat, pop_views, fit, rng_now);
                    assert(slots_of(k as nat, (n - s) as nat, pop_views, fit, r_slot) == (
                    match tail {
                        Err(e) => Err::<(Seq<I::V>, R), EngineError>(e),
                        Ok(rest2) => Ok((seq![pop_views[winner as int]] + rest2.0, rest2.1)),
                    }));
                    assert(views_of(parents@) =~= views_of(parents_prev) + seq![
                        pop_views[winner as int],
                    ]);
                    match tail {
                        Err(e) => {},
                        Ok(rest2) => {
                            assert(views_of(parents_prev) + (seq![pop_views[winner as int]]
                                + rest2.0) =~= views_of(parents@) + rest2.0);
                        },
                    }
                }
            }
            s = s + 1;
        }
        proof {
            if R::obeys_model() {
                assert(views_of(parents@) + Seq::<I::V>::empty() =~= views_of(parents@));
            }
        }
        Ok(parents)
    }
}

/// Containment law of the reference strategy: every parent a successful
/// modeled tournament selection returns is, by view, a member of the
/// population it selected from.
pub proof fn lemma_select_of_members<R: RandomSource, I: Individual<R>>(
    s: TournamentSelection,
    pop: Seq<I::V>,
    fit: Seq<Fitness>,
    r: R,
)
    requires
        1 <= s.spec_tournament_size(),
        pop.len() <= u64::MAX,
    ensures
        SelectionStrategy::<R, I>::select_of(&s, pop, fit, r) matches Ok(p) ==> forall|i: int|
            0 <= i < p.0.len() ==> pop.contains(#[trigger] p.0[i]),
{
    if pop.len() >= 1 && fit.len() == pop.len() {
        lemma_slots_members::<R, I::V>(s.spec_tournament_size() as nat, pop.len(), pop, fit, r);
    }
}

} // verus!

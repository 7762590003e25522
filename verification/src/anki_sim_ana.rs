//! The analytical engine: a deterministic, cluster-based approximation of
//! the stochastic simulator.
//!
//! Instead of sampling each card, a population of cards sharing one
//! scheduling state is carried as a cluster with a fractional Q20 mass; a
//! due cluster splits its mass between a remembered branch (the record,
//! mutated in place) and a lapsed branch (a newly appended cluster), or
//! routes the lapsed mass to the removed counter once the maximum lapse
//! count is reached.  The whole day transition is specified as a
//! mathematical function of the simulator's view, and the simulator is
//! proved to compute exactly that function.

use vstd::prelude::*;
use crate::fx::{ONE, sat_add, sat_sub, fx_mul, fx_div, per_hour};
use crate::fx::{sat_add_s, sat_sub_s, fx_mul_s, fx_div_s, per_hour_s, max_s};
use crate::fx::{lemma_fx_mul_nonneg, lemma_fx_mul_le_left};
use crate::retention::{retention_model, retention_model_s, retained_fraction,
    retained_fraction_s};
use crate::defaults::{DEFAULT_MEASURED_RETENTION, DEFAULT_INTERVAL_FACTOR,
    DEFAULT_LAPSE_INTERVAL_FACTOR, DEFAULT_MAX_LAPSES, DEFAULT_TIME_PER_NEW_CARD,
    DEFAULT_TIME_PER_REVIEW_CARD, DEFAULT_TIME_PER_LAPSED_CARD};

verus! {

/// A population of cards sharing one scheduling state, with a fractional
/// Q20 count of cards instead of an enumeration.
#[derive(Clone, Copy)]
pub struct CardCluster {
    /// Days until the next review, Q20, never below `ONE`.
    pub interval: u64,
    /// Q20 days since this cluster was last reviewed.
    pub days_waited: u64,
    /// Failed reviews in this cluster's lineage.
    pub lapses: u64,
    /// Expected number of cards in this state, Q20.
    pub card_count: u64,
}

impl CardCluster {
    /// The seed cluster: one abstract card of mass one, due tomorrow.
    pub fn new() -> (c: Self)
        ensures
            c.interval == ONE,
            c.days_waited == 0,
            c.lapses == 0,
            c.card_count == ONE,
    {
        CardCluster { interval: ONE, days_waited: 0, lapses: 0, card_count: ONE }
    }
}

/// A cluster's state as mathematical integers.
pub ghost struct ClusterV {
    pub interval: int,
    pub days_waited: int,
    pub lapses: int,
    pub mass: int,
}

/// The view of one executable cluster.
pub open spec fn cluster_v(c: CardCluster) -> ClusterV {
    ClusterV {
        interval: c.interval as int,
        days_waited: c.days_waited as int,
        lapses: c.lapses as int,
        mass: c.card_count as int,
    }
}

/// The analytical simulator's full mathematical state.
#[verifier::ext_equal]
pub ghost struct AnaView {
    pub deck: Seq<ClusterV>,
    pub cards_added: int,
    pub days_past: int,
    pub time_new: int,
    pub time_review: int,
    pub review_count: int,
    pub lapse_count: int,
    pub removed: int,
    pub retention: int,
    pub interval_factor: int,
    pub lapse_interval_factor: int,
    pub max_lapses: int,
    pub per_new: int,
    pub per_review: int,
    pub per_lapsed: int,
}

/// The view's invariant: intervals never drop below one day, masses and
/// counters are non-negative, and the derived retention lies below one.
pub open spec fn view_wf(v: AnaView) -> bool {
    &&& forall|i: int| 0 <= i < v.deck.len() ==> (#[trigger] v.deck[i]).interval >= ONE
        && v.deck[i].interval <= u64::MAX
        && 0 <= v.deck[i].mass <= u64::MAX
        && 0 <= v.deck[i].lapses <= u64::MAX
        && 0 <= v.deck[i].days_waited <= u64::MAX
    &&& 0 <= v.retention <= ONE - 1
    &&& 0 <= v.interval_factor <= u64::MAX
    &&& 0 <= v.lapse_interval_factor <= u64::MAX
    &&& 0 <= v.max_lapses <= u64::MAX
    &&& 0 <= v.per_new <= u64::MAX
    &&& 0 <= v.per_review <= u64::MAX
    &&& 0 <= v.per_lapsed <= u64::MAX
    &&& 0 <= v.cards_added <= u64::MAX
    &&& 0 <= v.days_past <= u64::MAX
    &&& 0 <= v.time_new <= u64::MAX
    &&& 0 <= v.time_review <= u64::MAX
    &&& 0 <= v.review_count <= u64::MAX
    &&& 0 <= v.lapse_count <= u64::MAX
    &&& 0 <= v.removed <= u64::MAX
}

/// One cluster's day step.  A cluster that is not yet due waits one more
/// day.  A due cluster of mass `m` is reviewed: mass `m * retention` stays
/// in the record as the remembered branch with a grown interval, and the
/// complementary lapsed mass either becomes a newly appended cluster with
/// one more lapse (below the maximum) or moves to the removed counter (at
/// or past it).  Both successor intervals are floored at one day.
pub open spec fn advance_cluster_s(v: AnaView, i: int) -> AnaView {
    let c = v.deck[i];
    if c.days_waited >= c.interval {
        let good_interval = max_s(fx_mul_s(c.interval, v.interval_factor), ONE as int);
        let lapse_interval = max_s(fx_mul_s(c.interval, v.lapse_interval_factor), ONE as int);
        let good_mass = fx_mul_s(c.mass, v.retention);
        let lapse_mass = sat_sub_s(c.mass, good_mass);
        let v1 = AnaView {
            deck: v.deck.update(i, ClusterV {
                interval: good_interval,
                days_waited: 0,
                lapses: c.lapses,
                mass: good_mass,
            }),
            review_count: sat_add_s(v.review_count, c.mass),
            time_review: sat_add_s(v.time_review, fx_mul_s(v.per_review, c.mass)),
            ..v
        };
        if c.lapses < v.max_lapses {
            AnaView {
                deck: v1.deck.push(ClusterV {
                    interval: lapse_interval,
                    days_waited: 0,
                    lapses: c.lapses + 1,
                    mass: lapse_mass,
                }),
                lapse_count: sat_add_s(v1.lapse_count, lapse_mass),
                time_review: sat_add_s(v1.time_review, fx_mul_s(v1.per_lapsed, lapse_mass)),
                ..v1
            }
        } else {
            AnaView {
                lapse_count: sat_add_s(v1.lapse_count, lapse_mass),
                removed: sat_add_s(v1.removed, lapse_mass),
                ..v1
            }
        }
    } else {
        AnaView {
            deck: v.deck.update(i, ClusterV {
                days_waited: sat_add_s(c.days_waited, ONE as int),
                ..c
            }),
            ..v
        }
    }
}

/// Day steps applied to the clusters with indices in `[i, n)`, in order.
pub open spec fn advance_from_s(v: AnaView, i: int, n: int) -> AnaView
    decreases n - i when i <= n
{
    if i >= n {
        v
    } else {
        advance_from_s(advance_cluster_s(v, i), i + 1, n)
    }
}

/// One simulated day: the day counter advances and every cluster present
/// at the start of the day takes its step; clusters appended during the
/// day wait until the next one.
pub open spec fn day_s(v: AnaView) -> AnaView {
    let v1 = AnaView { days_past: sat_add_s(v.days_past, 1), ..v };
    advance_from_s(v1, 0, v.deck.len() as int)
}

/// One day of `simulate_n_days`: one abstract new card of mass one is
/// added and time-costed, then the day runs.
pub open spec fn day_with_new_unit_s(v: AnaView) -> AnaView {
    let v1 = AnaView {
        cards_added: sat_add_s(v.cards_added, ONE as int),
        time_new: sat_add_s(v.time_new, v.per_new),
        ..v
    };
    day_s(v1)
}

/// `n` such days in order.
pub open spec fn advance_days_s(v: AnaView, n: int) -> AnaView
    decreases n when n >= 0
{
    if n <= 0 {
        v
    } else {
        advance_days_s(day_with_new_unit_s(v), n - 1)
    }
}

/// Population accumulators of a multi-day run.
pub ghost struct PopAcc {
    pub time_review: int,
    pub review_count: int,
    pub lapse_count: int,
    pub removed: int,
}

/// The population totals of an `n`-day run starting at `v`, folded left
/// with saturating adds: after each simulated day, the prototype deck's
/// *running* totals are added whole, not that day's delta.  The single
/// seeded unit of mass stands for every day's new card: its cumulative
/// cost at age `d` approximates the lifetime cost of the card added `d`
/// days before the end of the run, so summing the running totals over all
/// days scales the one prototype up to the whole staggered population.
pub open spec fn pop_totals_s(v: AnaView, n: int, acc: PopAcc) -> PopAcc
    decreases n when n >= 0
{
    if n <= 0 {
        acc
    } else {
        let w = day_with_new_unit_s(v);
        pop_totals_s(w, n - 1, PopAcc {
            time_review: sat_add_s(acc.time_review, w.time_review),
            review_count: sat_add_s(acc.review_count, w.review_count),
            lapse_count: sat_add_s(acc.lapse_count, w.lapse_count),
            removed: sat_add_s(acc.removed, w.removed),
        })
    }
}

/// The state after an `n`-day run: the prototype state advances `n` days
/// and the four review counters are replaced by the population totals.
/// A zero-day run only seeds the deck and leaves every counter alone.
pub open spec fn n_days_view_s(v: AnaView, n: int) -> AnaView {
    let v0 = seeded_s(v);
    let w = advance_days_s(v0, n);
    if n <= 0 {
        v0
    } else {
        let acc = pop_totals_s(v0, n, PopAcc {
            time_review: 0,
            review_count: 0,
            lapse_count: 0,
            removed: 0,
        });
        AnaView {
            time_review: acc.time_review,
            review_count: acc.review_count,
            lapse_count: acc.lapse_count,
            removed: acc.removed,
            ..w
        }
    }
}

/// The deck seeded with one cluster of mass one when it is still empty.
pub open spec fn seeded_s(v: AnaView) -> AnaView {
    if v.deck.len() == 0 {
        AnaView {
            deck: v.deck.push(ClusterV { interval: ONE as int, days_waited: 0, lapses: 0, mass: ONE as int }),
            ..v
        }
    } else {
        v
    }
}

/// Unfolding one more cluster step at the back of a range.
proof fn lemma_advance_from_snoc(v: AnaView, i: int, n: int)
    requires
        0 <= i <= n,
    ensures
        advance_from_s(v, i, n + 1) == advance_cluster_s(advance_from_s(v, i, n), n),
    decreases n - i,
{
    if i < n {
        lemma_advance_from_snoc(advance_cluster_s(v, i), i + 1, n);
    } else {
        assert(advance_from_s(v, i, n) == v);
        assert(advance_from_s(v, i, n + 1)
            == advance_from_s(advance_cluster_s(v, i), i + 1, n + 1));
        assert(advance_from_s(advance_cluster_s(v, i), i + 1, n + 1)
            == advance_cluster_s(v, i));
    }
}

/// One cluster step preserves the invariant, keeps the configuration and
/// the day counter, can only grow the deck, and only increases the
/// accumulated counters.
proof fn lemma_advance_cluster_props(v: AnaView, i: int)
    requires
        view_wf(v),
        0 <= i < v.deck.len(),
    ensures
        ({
            let w = advance_cluster_s(v, i);
            view_wf(w)
                && w.deck.len() >= v.deck.len()
                && w.review_count >= v.review_count
                && w.lapse_count >= v.lapse_count
                && w.removed >= v.removed
                && w.time_review >= v.time_review
                && w.cards_added == v.cards_added
                && w.time_new == v.time_new
                && w.days_past == v.days_past
                && w.retention == v.retention
                && w.interval_factor == v.interval_factor
                && w.lapse_interval_factor == v.lapse_interval_factor
                && w.max_lapses == v.max_lapses
                && w.per_new == v.per_new
                && w.per_review == v.per_review
                && w.per_lapsed == v.per_lapsed
        }),
{
    let c = v.deck[i];
    if c.days_waited >= c.interval {
        lemma_fx_mul_nonneg(c.interval, v.interval_factor);
        lemma_fx_mul_nonneg(c.interval, v.lapse_interval_factor);
        lemma_fx_mul_nonneg(c.mass, v.retention);
        lemma_fx_mul_nonneg(v.per_review, c.mass);
        lemma_fx_mul_nonneg(v.per_lapsed, sat_sub_s(c.mass, fx_mul_s(c.mass, v.retention)));
    }
}

/// `lemma_advance_cluster_props`, extended over a whole index range.
proof fn lemma_advance_from_props(v: AnaView, i: int, n: int)
    requires
        view_wf(v),
        0 <= i <= n <= v.deck.len(),
    ensures
        ({
            let w = advance_from_s(v, i, n);
            view_wf(w)
                && w.deck.len() >= v.deck.len()
                && w.review_count >= v.review_count
                && w.lapse_count >= v.lapse_count
                && w.removed >= v.removed
                && w.time_review >= v.time_review
                && w.cards_added == v.cards_added
                && w.time_new == v.time_new
                && w.days_past == v.days_past
                && w.retention == v.retention
                && w.interval_factor == v.interval_factor
                && w.lapse_interval_factor == v.lapse_interval_factor
                && w.max_lapses == v.max_lapses
                && w.per_new == v.per_new
                && w.per_review == v.per_review
                && w.per_lapsed == v.per_lapsed
        }),
    decreases n - i,
{
    if i < n {
        lemma_advance_cluster_props(v, i);
        lemma_advance_from_props(advance_cluster_s(v, i), i + 1, n);
    }
}

/// One day preserves the invariant, advances the day counter by one, and
/// only increases the accumulated counters.
proof fn lemma_day_props(v: AnaView)
    requires
        view_wf(v),
    ensures
        ({
            let w = day_s(v);
            view_wf(w)
                && w.days_past == sat_add_s(v.days_past, 1)
                && w.review_count >= v.review_count
                && w.lapse_count >= v.lapse_count
                && w.removed >= v.removed
                && w.time_review >= v.time_review
                && w.cards_added == v.cards_added
                && w.time_new == v.time_new
                && w.retention == v.retention
                && w.interval_factor == v.interval_factor
                && w.lapse_interval_factor == v.lapse_interval_factor
                && w.max_lapses == v.max_lapses
                && w.per_new == v.per_new
                && w.per_review == v.per_review
                && w.per_lapsed == v.per_lapsed
        }),
{
    let v1 = AnaView { days_past: sat_add_s(v.days_past, 1), ..v };
    lemma_advance_from_props(v1, 0, v.deck.len() as int);
}

/// Counters never decrease over any number of simulated days.
pub proof fn lemma_advance_days_monotone(v: AnaView, n: int)
    requires
        view_wf(v),
        n >= 0,
    ensures
        ({
            let w = advance_days_s(v, n);
            view_wf(w)
                && w.review_count >= v.review_count
                && w.lapse_count >= v.lapse_count
                && w.removed >= v.removed
                && w.time_review >= v.time_review
                && w.time_new >= v.time_new
                && w.cards_added >= v.cards_added
                && w.days_past >= v.days_past
                && w.retention == v.retention
                && w.interval_factor == v.interval_factor
                && w.lapse_interval_factor == v.lapse_interval_factor
                && w.max_lapses == v.max_lapses
                && w.per_new == v.per_new
                && w.per_review == v.per_review
                && w.per_lapsed == v.per_lapsed
        }),
    decreases n,
{
    if n > 0 {
        let v1 = AnaView {
            cards_added: sat_add_s(v.cards_added, ONE as int),
            time_new: sat_add_s(v.time_new, v.per_new),
            ..v
        };
        lemma_day_props(v1);
        assert(day_with_new_unit_s(v) == day_s(v1));
        lemma_advance_days_monotone(day_with_new_unit_s(v), n - 1);
    }
}

/// Unfolding one more day at the back of a run.
proof fn lemma_advance_days_snoc(v: AnaView, n: int)
    requires
        n >= 0,
    ensures
        advance_days_s(v, n + 1) == day_with_new_unit_s(advance_days_s(v, n)),
    decreases n,
{
    if n > 0 {
        lemma_advance_days_snoc(day_with_new_unit_s(v), n - 1);
    } else {
        assert(advance_days_s(v, 0) == v);
        assert(advance_days_s(v, 1) == advance_days_s(day_with_new_unit_s(v), 0));
        assert(advance_days_s(day_with_new_unit_s(v), 0) == day_with_new_unit_s(v));
    }
}

/// Total Q20 mass held by a sequence of clusters.
pub open spec fn deck_mass_s(s: Seq<ClusterV>) -> int
    decreases s.len(),
{
    if s.len() == 0 {
        0
    } else {
        deck_mass_s(s.drop_last()) + s.last().mass
    }
}

proof fn lemma_deck_mass_nonneg(s: Seq<ClusterV>)
    requires
        forall|j: int| 0 <= j < s.len() ==> (#[trigger] s[j]).mass >= 0,
    ensures
        deck_mass_s(s) >= 0,
    decreases s.len(),
{
    if s.len() > 0 {
        lemma_deck_mass_nonneg(s.drop_last());
    }
}

/// No single cluster holds more than the whole deck's mass.
proof fn lemma_deck_mass_element(s: Seq<ClusterV>, i: int)
    requires
        forall|j: int| 0 <= j < s.len() ==> (#[trigger] s[j]).mass >= 0,
        0 <= i < s.len(),
    ensures
        s[i].mass <= deck_mass_s(s),
    decreases s.len(),
{
    if i == s.len() - 1 {
        lemma_deck_mass_nonneg(s.drop_last());
    } else {
        lemma_deck_mass_element(s.drop_last(), i);
    }
}

/// Replacing one cluster changes the total mass by the mass difference.
proof fn lemma_deck_mass_update(s: Seq<ClusterV>, i: int, c: ClusterV)
    requires
        0 <= i < s.len(),
    ensures
        deck_mass_s(s.update(i, c)) == deck_mass_s(s) - s[i].mass + c.mass,
    decreases s.len(),
{
    if i == s.len() - 1 {
        assert(s.update(i, c).drop_last() =~= s.drop_last());
    } else {
        assert(s.update(i, c).drop_last() =~= s.drop_last().update(i, c));
        lemma_deck_mass_update(s.drop_last(), i, c);
    }
}

/// One cluster step conserves mass globally: live deck mass plus the
/// removed counter is unchanged, exactly, as long as the removed counter
/// has room for the whole deck's mass.
pub proof fn lemma_advance_cluster_total_mass(v: AnaView, i: int)
    requires
        view_wf(v),
        0 <= i < v.deck.len(),
        v.removed + deck_mass_s(v.deck) <= u64::MAX,
    ensures
        ({
            let w = advance_cluster_s(v, i);
            deck_mass_s(w.deck) + w.removed == deck_mass_s(v.deck) + v.removed
        }),
{
    let c = v.deck[i];
    lemma_deck_mass_nonneg(v.deck);
    lemma_deck_mass_element(v.deck, i);
    if c.days_waited >= c.interval {
        let good_mass = fx_mul_s(c.mass, v.retention);
        lemma_fx_mul_nonneg(c.mass, v.retention);
        lemma_fx_mul_le_left(c.mass, v.retention);
        let gc = ClusterV {
            interval: max_s(fx_mul_s(c.interval, v.interval_factor), ONE as int),
            days_waited: 0,
            lapses: c.lapses,
            mass: good_mass,
        };
        lemma_deck_mass_update(v.deck, i, gc);
        if c.lapses < v.max_lapses {
            assert(advance_cluster_s(v, i).deck.drop_last() =~= v.deck.update(i, gc));
        }
    } else {
        lemma_deck_mass_update(v.deck, i, ClusterV {
            days_waited: sat_add_s(c.days_waited, ONE as int),
            ..c
        });
    }
}

/// `lemma_advance_cluster_total_mass` over a whole range of cluster steps.
proof fn lemma_advance_from_total_mass(v: AnaView, i: int, n: int)
    requires
        view_wf(v),
        0 <= i <= n <= v.deck.len(),
        v.removed + deck_mass_s(v.deck) <= u64::MAX,
    ensures
        ({
            let w = advance_from_s(v, i, n);
            deck_mass_s(w.deck) + w.removed == deck_mass_s(v.deck) + v.removed
        }),
    decreases n - i,
{
    if i < n {
        lemma_advance_cluster_props(v, i);
        lemma_advance_cluster_total_mass(v, i);
        lemma_advance_from_total_mass(advance_cluster_s(v, i), i + 1, n);
    }
}

/// Mass conservation over a whole simulated day: the live deck mass plus
/// the removed counter is exactly what it was before the day, however the
/// day's splits fell, as long as the removed counter has room for the
/// whole deck's mass.
pub proof fn lemma_day_conserves_mass(v: AnaView)
    requires
        view_wf(v),
        v.removed + deck_mass_s(v.deck) <= u64::MAX,
    ensures
        deck_mass_s(day_s(v).deck) + day_s(v).removed == deck_mass_s(v.deck) + v.removed,
{
    let v1 = AnaView { days_past: sat_add_s(v.days_past, 1), ..v };
    lemma_advance_from_total_mass(v1, 0, v.deck.len() as int);
}

/// The exact shape of one cluster's day step, with the interval floors
/// spelled out: a due cluster's remembered branch keeps its lapse count,
/// rests at zero days waited and has an interval of at least one day; the
/// appended lapsed branch carries one more lapse and an interval of at
/// least one day; a cluster that is not yet due gains one day of waiting
/// and nothing else changes.
pub proof fn lemma_advance_cluster_shape(v: AnaView, i: int)
    requires
        view_wf(v),
        0 <= i < v.deck.len(),
    ensures
        ({
            let w = advance_cluster_s(v, i);
            let c = v.deck[i];
            &&& c.days_waited >= c.interval ==> w.deck[i] == (ClusterV {
                interval: max_s(fx_mul_s(c.interval, v.interval_factor), ONE as int),
                days_waited: 0,
                lapses: c.lapses,
                mass: fx_mul_s(c.mass, v.retention),
            }) && w.deck[i].interval >= ONE
            &&& c.days_waited >= c.interval && c.lapses < v.max_lapses ==> {
                &&& w.deck.len() == v.deck.len() + 1
                &&& w.deck.last() == (ClusterV {
                    interval: max_s(fx_mul_s(c.interval, v.lapse_interval_factor), ONE as int),
                    days_waited: 0,
                    lapses: c.lapses + 1,
                    mass: sat_sub_s(c.mass, fx_mul_s(c.mass, v.retention)),
                })
                &&& w.deck.last().interval >= ONE
            }
            &&& c.days_waited >= c.interval && c.lapses >= v.max_lapses
                ==> w.deck.len() == v.deck.len()
            &&& c.days_waited < c.interval ==> w.deck == v.deck.update(i, (ClusterV {
                days_waited: sat_add_s(c.days_waited, ONE as int),
                ..c
            }))
        }),
{
}

/// With a maximum of zero lapses, one cluster step at any intermediate
/// state of a day appends nothing, so the whole day keeps the deck length.
proof fn lemma_advance_from_len_at_zero_max(v: AnaView, i: int, n: int)
    requires
        view_wf(v),
        v.max_lapses == 0,
        0 <= i <= n <= v.deck.len(),
    ensures
        advance_from_s(v, i, n).deck.len() == v.deck.len(),
    decreases n - i,
{
    if i < n {
        lemma_advance_cluster_props(v, i);
        assert(v.deck[i].lapses >= 0);
        lemma_advance_from_len_at_zero_max(advance_cluster_s(v, i), i + 1, n);
    }
}

/// With a maximum of zero lapses a whole simulated day appends no
/// cluster: every due cluster's lapsed mass moves to the removed counter
/// instead of spawning a successor.
pub proof fn lemma_day_appends_nothing_at_zero_max(v: AnaView)
    requires
        view_wf(v),
        v.max_lapses == 0,
    ensures
        day_s(v).deck.len() == v.deck.len(),
{
    let v1 = AnaView { days_past: sat_add_s(v.days_past, 1), ..v };
    lemma_advance_from_len_at_zero_max(v1, 0, v.deck.len() as int);
}

/// Mass conservation: a due split loses and double-counts nothing.  The
/// remembered branch, the lapsed branch (or, at the lapse maximum, the
/// growth of the removed counter) together carry exactly the mass the
/// cluster held before the split.
pub proof fn lemma_split_mass_conserved(v: AnaView, i: int)
    requires
        view_wf(v),
        0 <= i < v.deck.len(),
        v.deck[i].days_waited >= v.deck[i].interval,
        v.removed + v.deck[i].mass <= u64::MAX,
    ensures
        ({
            let w = advance_cluster_s(v, i);
            w.deck[i].mass
                + (if v.deck[i].lapses < v.max_lapses { w.deck.last().mass } else { 0 })
                + (w.removed - v.removed)
                == v.deck[i].mass
        }),
{
    let c = v.deck[i];
    lemma_fx_mul_nonneg(c.mass, v.retention);
    lemma_fx_mul_le_left(c.mass, v.retention);
}

/// The degenerate maximum of zero lapses: a due cluster spawns no
/// successor at all, and its full lapsed mass moves to the removed
/// counter.
pub proof fn lemma_max_lapses_zero_removes(v: AnaView, i: int)
    requires
        view_wf(v),
        0 <= i < v.deck.len(),
        v.deck[i].days_waited >= v.deck[i].interval,
        v.max_lapses == 0,
    ensures
        ({
            let w = advance_cluster_s(v, i);
            w.deck.len() == v.deck.len()
                && w.removed == sat_add_s(
                    v.removed,
                    sat_sub_s(v.deck[i].mass, fx_mul_s(v.deck[i].mass, v.retention)),
                )
        }),
{
}

/// The analytical simulator: a deck of clusters, accumulated Q20 mass
/// counters, the derived retention ratio, and its configuration.
pub struct AnkiSim {
    /// The live clusters.
    pub deck: Vec<CardCluster>,
    /// Q20 mass of abstract cards added so far.
    pub cards_added: u64,
    /// Days simulated so far.
    pub days_past: u64,
    /// Q20 seconds spent introducing new cards.
    pub time_spent_on_new: u64,
    /// Q20 seconds spent on reviews, lapsed mass included.
    pub time_spent_on_review: u64,
    /// Q20 mass of reviews performed so far.
    pub review_count: u64,
    /// Q20 mass of failed reviews so far.
    pub lapse_count: u64,
    /// Q20 mass permanently removed after lapsing past the maximum.
    pub remove_lapse_count: u64,
    /// Derived per-review recall probability, Q20; recomputed whenever the
    /// interval factor or the measured reference pair changes.
    pub retention_ratio: u64,
    /// Multiplier for cluster intervals on the remembered branch, Q20.
    pub interval_factor: u64,
    /// Multiplier for cluster intervals on the lapsed branch, Q20.
    pub lapse_interval_factor: u64,
    /// Measured reference pair: a recall ratio and the interval factor it
    /// was observed at, both Q20.
    pub measured_retention: (u64, u64),
    /// Failure count at which a cluster's lapsed mass is removed for good.
    pub max_lapses: u64,
    /// Q20 seconds accrued per new card.
    pub time_per_new_card: u64,
    /// Q20 seconds accrued per unit review mass.
    pub time_per_review_card: u64,
    /// Q20 extra seconds accrued per unit lapsed mass.
    pub time_per_lapsed_card: u64,
}

impl View for AnkiSim {
    type V = AnaView;

    open spec fn view(&self) -> AnaView {
        AnaView {
            deck: self.deck@.map_values(|c: CardCluster| cluster_v(c)),
            cards_added: self.cards_added as int,
            days_past: self.days_past as int,
            time_new: self.time_spent_on_new as int,
            time_review: self.time_spent_on_review as int,
            review_count: self.review_count as int,
            lapse_count: self.lapse_count as int,
            removed: self.remove_lapse_count as int,
            retention: self.retention_ratio as int,
            interval_factor: self.interval_factor as int,
            lapse_interval_factor: self.lapse_interval_factor as int,
            max_lapses: self.max_lapses as int,
            per_new: self.time_per_new_card as int,
            per_review: self.time_per_review_card as int,
            per_lapsed: self.time_per_lapsed_card as int,
        }
    }
}

impl AnkiSim {
    /// The simulator's invariant, stated on its view.
    pub open spec fn wf(self) -> bool {
        view_wf(self@)
    }

    /// A fresh analytical simulator with the documented defaults.
    pub fn new() -> (s: Self)
        ensures
            s.wf(),
            s.deck@.len() == 0,
            s.cards_added == 0,
            s.days_past == 0,
            s.time_spent_on_new == 0,
            s.time_spent_on_review == 0,
            s.review_count == 0,
            s.lapse_count == 0,
            s.remove_lapse_count == 0,
            s.retention_ratio == DEFAULT_MEASURED_RETENTION,
            s.interval_factor == DEFAULT_INTERVAL_FACTOR,
            s.lapse_interval_factor == DEFAULT_LAPSE_INTERVAL_FACTOR,
            s.measured_retention == (DEFAULT_MEASURED_RETENTION, DEFAULT_INTERVAL_FACTOR),
            s.max_lapses == DEFAULT_MAX_LAPSES,
            s.time_per_new_card == DEFAULT_TIME_PER_NEW_CARD,
            s.time_per_review_card == DEFAULT_TIME_PER_REVIEW_CARD,
            s.time_per_lapsed_card == DEFAULT_TIME_PER_LAPSED_CARD,
    {
        AnkiSim {
            deck: Vec::new(),
            cards_added: 0,
            days_past: 0,
            time_spent_on_new: 0,
            time_spent_on_review: 0,
            review_count: 0,
            lapse_count: 0,
            remove_lapse_count: 0,
            retention_ratio: DEFAULT_MEASURED_RETENTION,
            interval_factor: DEFAULT_INTERVAL_FACTOR,
            lapse_interval_factor: DEFAULT_LAPSE_INTERVAL_FACTOR,
            measured_retention: (DEFAULT_MEASURED_RETENTION, DEFAULT_INTERVAL_FACTOR),
            max_lapses: DEFAULT_MAX_LAPSES,
            time_per_new_card: DEFAULT_TIME_PER_NEW_CARD,
            time_per_review_card: DEFAULT_TIME_PER_REVIEW_CARD,
            time_per_lapsed_card: DEFAULT_TIME_PER_LAPSED_CARD,
        }
    }

    /// The derived per-review recall probability, Q20.
    pub fn average_retention_ratio(&self) -> (r: u64)
        ensures
            r == self.retention_ratio,
    {
        self.retention_ratio
    }

    /// Accepted for interface parity with the stochastic engine; clusters
    /// carry no per-card variance, so this is the identity.
    pub fn with_difficulty_variance(self, variance: u64) -> (s: Self)
        ensures
            s == self,
    {
        let _ = variance;
        self
    }

    /// Sets the remembered-branch interval multiplier and recomputes the
    /// derived retention ratio.
    pub fn with_interval_factor(self, factor: u64) -> (s: Self)
        ensures
            s == (AnkiSim {
                interval_factor: factor,
                retention_ratio: retention_model_s(
                    self.measured_retention.0 as int,
                    self.measured_retention.1 as int,
                    factor as int,
                ) as u64,
                ..self
            }),
            self.wf() ==> s.wf(),
    {
        let retention_ratio = retention_model(
            self.measured_retention.0,
            self.measured_retention.1,
            factor,
        );
        let s = AnkiSim { interval_factor: factor, retention_ratio, ..self };
        proof {
            assert(s@.deck =~= self@.deck);
        }
        s
    }

    /// Sets the multiplier applied to an interval on the lapsed branch.
    pub fn with_lapse_interval_factor(self, factor: u64) -> (s: Self)
        ensures
            s == (AnkiSim { lapse_interval_factor: factor, ..self }),
            self.wf() ==> s.wf(),
    {
        let s = AnkiSim { lapse_interval_factor: factor, ..self };
        proof {
            assert(s@.deck =~= self@.deck);
        }
        s
    }

    /// Sets the measured reference pair and recomputes the derived
    /// retention ratio.
    pub fn with_measured_retention_ratio(self, ratio: u64, interval: u64) -> (s: Self)
        ensures
            s == (AnkiSim {
                measured_retention: (ratio, interval),
                retention_ratio: retention_model_s(
                    ratio as int,
                    interval as int,
                    self.interval_factor as int,
                ) as u64,
                ..self
            }),
            self.wf() ==> s.wf(),
    {
        let retention_ratio = retention_model(ratio, interval, self.interval_factor);
        let s = AnkiSim { measured_retention: (ratio, interval), retention_ratio, ..self };
        proof {
            assert(s@.deck =~= self@.deck);
        }
        s
    }

    /// Sets the failure count at which lapsed mass is removed for good.
    pub fn with_max_lapses(self, lapses: u64) -> (s: Self)
        ensures
            s == (AnkiSim { max_lapses: lapses, ..self }),
            self.wf() ==> s.wf(),
    {
        let s = AnkiSim { max_lapses: lapses, ..self };
        proof {
            assert(s@.deck =~= self@.deck);
        }
        s
    }

    /// Q20 seconds spent on each new card before it becomes a normal
    /// review card.
    pub fn with_seconds_per_new_card(self, time: u64) -> (s: Self)
        ensures
            s == (AnkiSim { time_per_new_card: time, ..self }),
            self.wf() ==> s.wf(),
    {
        let s = AnkiSim { time_per_new_card: time, ..self };
        proof {
            assert(s@.deck =~= self@.deck);
        }
        s
    }

    /// Q20 seconds spent on each unit of review mass.
    pub fn with_seconds_per_review_card(self, time: u64) -> (s: Self)
        ensures
            s == (AnkiSim { time_per_review_card: time, ..self }),
            self.wf() ==> s.wf(),
    {
        let s = AnkiSim { time_per_review_card: time, ..self };
        proof {
            assert(s@.deck =~= self@.deck);
        }
        s
    }

    /// Q20 extra seconds spent on each unit of lapsed mass.
    pub fn with_seconds_per_lapsed_card(self, time: u64) -> (s: Self)
        ensures
            s == (AnkiSim { time_per_lapsed_card: time, ..self }),
            self.wf() ==> s.wf(),
    {
        let s = AnkiSim { time_per_lapsed_card: time, ..self };
        proof {
            assert(s@.deck =~= self@.deck);
        }
        s
    }

    /// Simulates a single day, computing exactly `day_s` of the view.
    fn simulate_day(&mut self)
        requires
            old(self).wf(),
        ensures
            final(self)@ == day_s(old(self)@),
            final(self).wf(),
            final(self).measured_retention == old(self).measured_retention,
    {
        self.days_past = sat_add(self.days_past, 1);
        let ghost vstart = AnaView {
            days_past: sat_add_s(old(self)@.days_past, 1),
            ..old(self)@
        };
        proof {
            assert(self@ =~= vstart);
        }
        let deck_size = self.deck.len();
        let mut i: usize = 0;
        while i < deck_size
            invariant
                i <= deck_size,
                deck_size <= self.deck@.len(),
                deck_size as int == vstart.deck.len(),
                view_wf(vstart),
                self@ == advance_from_s(vstart, 0, i as int),
                self.measured_retention == old(self).measured_retention,
            decreases deck_size - i,
        {
            proof {
                lemma_advance_from_props(vstart, 0, i as int);
            }
            let ghost prev = self@;
            let c = self.deck[i];
            if c.days_waited >= c.interval {
                self.review_count = sat_add(self.review_count, c.card_count);
                self.time_spent_on_review = sat_add(
                    self.time_spent_on_review,
                    fx_mul(self.time_per_review_card, c.card_count),
                );
                let gi = fx_mul(c.interval, self.interval_factor);
                let good_interval = if gi >= ONE { gi } else { ONE };
                let li = fx_mul(c.interval, self.lapse_interval_factor);
                let lapse_interval = if li >= ONE { li } else { ONE };
                let good_mass = fx_mul(c.card_count, self.retention_ratio);
                let lapse_mass = sat_sub(c.card_count, good_mass);
                self.deck[i] = CardCluster {
                    interval: good_interval,
                    days_waited: 0,
                    lapses: c.lapses,
                    card_count: good_mass,
                };
                if c.lapses < self.max_lapses {
                    self.deck.push(CardCluster {
                        interval: lapse_interval,
                        days_waited: 0,
                        lapses: c.lapses + 1,
                        card_count: lapse_mass,
                    });
                    self.lapse_count = sat_add(self.lapse_count, lapse_mass);
                    self.time_spent_on_review = sat_add(
                        self.time_spent_on_review,
                        fx_mul(self.time_per_lapsed_card, lapse_mass),
                    );
                } else {
                    self.lapse_count = sat_add(self.lapse_count, lapse_mass);
                    self.remove_lapse_count = sat_add(self.remove_lapse_count, lapse_mass);
                }
            } else {
                let mut waiting = c;
                waiting.days_waited = sat_add(waiting.days_waited, ONE);
                self.deck[i] = waiting;
            }
            proof {
                assert(self@.deck =~= advance_cluster_s(prev, i as int).deck);
                assert(self@ =~= advance_cluster_s(prev, i as int));
                lemma_advance_from_snoc(vstart, 0, i as int);
            }
            i = i + 1;
        }
        proof {
            lemma_advance_from_props(vstart, 0, deck_size as int);
        }
    }

    /// Simulates `n` days in order.  On the first run the deck is seeded
    /// with one cluster of mass one; each day adds one abstract new card
    /// of mass one, accrues its time, and advances every cluster.  After
    /// each day the deck's running counters are added whole to the
    /// population accumulators — the running total at that day, not the
    /// delta — and a run of at least one day leaves those population
    /// totals in the counters.  Counters never decrease across runs.
    pub fn simulate_n_days(&mut self, n: u32)
        requires
            old(self).wf(),
        ensures
            final(self)@ == n_days_view_s(old(self)@, n as int),
            final(self).wf(),
            final(self).measured_retention == old(self).measured_retention,
            final(self).review_count >= old(self).review_count,
            final(self).lapse_count >= old(self).lapse_count,
            final(self).remove_lapse_count >= old(self).remove_lapse_count,
            final(self).time_spent_on_review >= old(self).time_spent_on_review,
            final(self).time_spent_on_new >= old(self).time_spent_on_new,
            final(self).cards_added >= old(self).cards_added,
    {
        if self.deck.len() == 0 {
            self.deck.push(CardCluster::new());
        }
        proof {
            assert(self@.deck =~= seeded_s(old(self)@).deck);
            assert(self@ =~= seeded_s(old(self)@));
        }
        let ghost vseed = seeded_s(old(self)@);
        let mut review_time_acc: u64 = 0;
        let mut review_count_acc: u64 = 0;
        let mut lapse_count_acc: u64 = 0;
        let mut remove_lapse_count_acc: u64 = 0;
        let mut d: u32 = 0;
        while d < n
            invariant
                d <= n,
                view_wf(vseed),
                vseed == seeded_s(old(self)@),
                self@ == advance_days_s(vseed, d as int),
                self.measured_retention == old(self).measured_retention,
                pop_totals_s(vseed, n as int, (PopAcc {
                    time_review: 0,
                    review_count: 0,
                    lapse_count: 0,
                    removed: 0,
                })) == pop_totals_s(self@, n as int - d as int, (PopAcc {
                    time_review: review_time_acc as int,
                    review_count: review_count_acc as int,
                    lapse_count: lapse_count_acc as int,
                    removed: remove_lapse_count_acc as int,
                })),
                d >= 1 ==> review_time_acc >= old(self).time_spent_on_review
                    && review_count_acc >= old(self).review_count
                    && lapse_count_acc >= old(self).lapse_count
                    && remove_lapse_count_acc >= old(self).remove_lapse_count,
            decreases n - d,
        {
            proof {
                lemma_advance_days_monotone(vseed, d as int);
            }
            let ghost before = self@;
            let ghost acc_before = PopAcc {
                time_review: review_time_acc as int,
                review_count: review_count_acc as int,
                lapse_count: lapse_count_acc as int,
                removed: remove_lapse_count_acc as int,
            };
            self.cards_added = sat_add(self.cards_added, ONE);
            self.time_spent_on_new = sat_add(self.time_spent_on_new, self.time_per_new_card);
            proof {
                assert(self@ =~= (AnaView {
                    cards_added: sat_add_s(before.cards_added, ONE as int),
                    time_new: sat_add_s(before.time_new, before.per_new),
                    ..before
                }));
                let v1 = AnaView {
                    cards_added: sat_add_s(before.cards_added, ONE as int),
                    time_new: sat_add_s(before.time_new, before.per_new),
                    ..before
                };
                assert(view_wf(v1));
            }
            self.simulate_day();
            review_time_acc = sat_add(review_time_acc, self.time_spent_on_review);
            review_count_acc = sat_add(review_count_acc, self.review_count);
            lapse_count_acc = sat_add(lapse_count_acc, self.lapse_count);
            remove_lapse_count_acc = sat_add(remove_lapse_count_acc, self.remove_lapse_count);
            proof {
                lemma_advance_days_snoc(vseed, d as int);
                assert(self@ == day_with_new_unit_s(before));
                assert(pop_totals_s(before, n as int - d as int, acc_before)
                    == pop_totals_s(self@, n as int - d as int - 1, (PopAcc {
                        time_review: sat_add_s(acc_before.time_review, self@.time_review),
                        review_count: sat_add_s(acc_before.review_count, self@.review_count),
                        lapse_count: sat_add_s(acc_before.lapse_count, self@.lapse_count),
                        removed: sat_add_s(acc_before.removed, self@.removed),
                    })));
                assert(self@ == advance_days_s(vseed, d as int + 1));
                lemma_advance_days_monotone(vseed, d as int + 1);
            }
            d = d + 1;
        }
        if n >= 1 {
            self.time_spent_on_review = review_time_acc;
            self.review_count = review_count_acc;
            self.lapse_count = lapse_count_acc;
            self.remove_lapse_count = remove_lapse_count_acc;
        }
        proof {
            lemma_advance_days_monotone(vseed, n as int);
            if n == 0 {
                assert(advance_days_s(vseed, 0) == vseed);
                assert(self@ == n_days_view_s(old(self)@, 0));
            } else {
                assert(self@ =~= n_days_view_s(old(self)@, n as int));
            }
        }
    }

    /// Number of durably known cards, Q20 mass: the closed-form long-run
    /// survival estimate `(cards_added - removed) * retained_fraction`.
    /// `None` when the derived retention ratio is degenerate (zero, or at
    /// least one), where the underlying logarithm is undefined.
    pub fn known_cards(&self) -> (r: Option<u64>)
        ensures
            1 <= self.retention_ratio <= ONE - 1 ==> r == Some(fx_mul_s(
                sat_sub_s(self.cards_added as int, self.remove_lapse_count as int),
                retained_fraction_s(self.retention_ratio as int),
            ) as u64),
            (self.retention_ratio == 0 || self.retention_ratio > ONE - 1) ==> r is None,
    {
        if 1 <= self.retention_ratio && self.retention_ratio <= ONE - 1 {
            let retained = retained_fraction(self.retention_ratio);
            let base = sat_sub(self.cards_added, self.remove_lapse_count);
            Some(fx_mul(base, retained))
        } else {
            None
        }
    }

    /// Cards learned per hour of total study time, Q20.  `None` when no
    /// time has elapsed yet or the retention ratio is degenerate: the
    /// value is undefined, in the way a floating-point division by zero
    /// would be non-finite, and no error is raised.
    pub fn cards_learned_per_hour(&self) -> (r: Option<u64>)
        ensures
            ({
                let total = sat_add_s(
                    self.time_spent_on_new as int,
                    self.time_spent_on_review as int,
                );
                &&& (1 <= self.retention_ratio <= ONE - 1 && total > 0) ==> r == Some(
                    per_hour_s(
                        fx_mul_s(
                            sat_sub_s(self.cards_added as int, self.remove_lapse_count as int),
                            retained_fraction_s(self.retention_ratio as int),
                        ),
                        total,
                    ) as u64)
                &&& (self.retention_ratio == 0 || self.retention_ratio > ONE - 1 || total == 0)
                    ==> r is None
            }),
    {
        let known = self.known_cards();
        let total = sat_add(self.time_spent_on_new, self.time_spent_on_review);
        match known {
            None => None,
            Some(k) => {
                proof {
                    if 1 <= self.retention_ratio <= ONE - 1 {
                        crate::retention::lemma_neg_log2_range(self.retention_ratio as int);
                        lemma_fx_mul_nonneg(
                            crate::retention::neg_log2_s(self.retention_ratio as int),
                            crate::fx::ONE as int,
                        );
                        crate::fx::lemma_fx_div_nonneg(
                            (ONE - self.retention_ratio) as int,
                            fx_mul_s(
                                crate::retention::neg_log2_s(self.retention_ratio as int),
                                crate::retention::LN2 as int,
                            ),
                        );
                        lemma_fx_mul_nonneg(
                            sat_sub_s(self.cards_added as int, self.remove_lapse_count as int),
                            retained_fraction_s(self.retention_ratio as int),
                        );
                    }
                }
                if total == 0 {
                    None
                } else {
                    Some(per_hour(k, total))
                }
            },
        }
    }

    /// Hours spent on reviews, Q20.
    pub fn review_time(&self) -> (r: u64)
        ensures
            r == self.time_spent_on_review / 3600,
    {
        self.time_spent_on_review / 3600
    }

    /// Hours spent on new cards, Q20.
    pub fn new_time(&self) -> (r: u64)
        ensures
            r == self.time_spent_on_new / 3600,
    {
        self.time_spent_on_new / 3600
    }

    /// Lapsed mass per unit of review mass, Q20; `None` before any
    /// review mass has accrued, where the quotient is undefined.
    pub fn lapses_per_review(&self) -> (r: Option<u64>)
        ensures
            self.review_count == 0 ==> r is None,
            self.review_count > 0 ==> r == Some(
                fx_div_s(self.lapse_count as int, self.review_count as int) as u64),
    {
        if self.review_count == 0 {
            None
        } else {
            Some(fx_div(self.lapse_count, self.review_count))
        }
    }
}

} // verus!

//! The stochastic engine: a per-card Monte Carlo simulator.
//!
//! A deck of individually simulated cards advances one day at a time; a
//! due card's recall outcome is drawn from the simulator's own seeded
//! random source.  Every state transition is exact in the contracts; only
//! which outcome a draw selects is left to chance.

use vstd::prelude::*;
use crate::fx::{ONE, sat_add, sat_sub, fx_mul, fx_div, fx_from_int, per_hour};
use crate::fx::{sat_add_s, sat_sub_s, fx_mul_s, fx_div_s, fx_from_int_s, per_hour_s, max_s, min_s};
use crate::fx::lemma_sat_add_assoc;
use vstd::arithmetic::mul::lemma_mul_inequality;
use crate::retention::{retention_model, retention_model_s};
use crate::rng::{rng_from_seed, rng_below};
use crate::defaults::{DEFAULT_MEASURED_RETENTION, DEFAULT_INTERVAL_FACTOR,
    DEFAULT_LAPSE_INTERVAL_FACTOR, DEFAULT_DIFFICULTY_VARIANCE, DEFAULT_MAX_LAPSES,
    DEFAULT_TIME_PER_NEW_CARD, DEFAULT_TIME_PER_REVIEW_CARD, DEFAULT_TIME_PER_LAPSED_CARD,
    RATIO_MIN, RATIO_MAX, TENTH, FIFTH};

verus! {

/// One simulated flashcard's scheduling state.
#[derive(Clone, Copy)]
pub struct Card {
    /// Days until the next review, Q20, never below `ONE`.
    pub interval: u64,
    /// Q20 days since this card was last reviewed.
    pub days_waited: u64,
    /// This card's own per-review recall probability, Q20.
    pub retention_ratio: u64,
    /// Failed reviews so far.
    pub lapses: u64,
}

/// A card's invariant: its interval never drops below one day.
pub open spec fn card_wf(c: Card) -> bool {
    c.interval >= ONE
}

/// New interval after a remembered review: the old interval times the
/// growth factor, lowered by a tenth of that product and raised by the
/// drawn jitter (up to a fifth of it), floored at one day.
pub open spec fn good_interval_s(interval: int, factor: int, jitter: int) -> int {
    let g = fx_mul_s(interval, factor);
    max_s(sat_add_s(sat_sub_s(g, fx_mul_s(g, TENTH as int)), jitter), ONE as int)
}

/// New interval after a lapsed review: scaled by the lapse factor and
/// floored at one day.
pub open spec fn lapse_interval_s(interval: int, lapse_factor: int) -> int {
    max_s(fx_mul_s(interval, lapse_factor), ONE as int)
}

/// Applies one due review's outcome to a card.  Returns true exactly when
/// the failure happens at or past the configured maximum lapse count, in
/// which case the card is left unchanged for the caller to drop; with a
/// maximum of zero every failed review therefore removes its card.  The
/// surviving card's interval never drops below one day.
pub fn review_due_card(
    card: &mut Card,
    remembered: bool,
    jitter: u64,
    interval_factor: u64,
    lapse_interval_factor: u64,
    max_lapses: u64,
) -> (removed: bool)
    requires
        card_wf(*old(card)),
    ensures
        remembered ==> !removed
            && final(card).interval == good_interval_s(
                old(card).interval as int, interval_factor as int, jitter as int)
            && final(card).days_waited == 0
            && final(card).lapses == old(card).lapses
            && final(card).retention_ratio == old(card).retention_ratio,
        !remembered && old(card).lapses < max_lapses ==> !removed
            && final(card).interval == lapse_interval_s(
                old(card).interval as int, lapse_interval_factor as int)
            && final(card).days_waited == 0
            && final(card).lapses == old(card).lapses + 1
            && final(card).retention_ratio == old(card).retention_ratio,
        !remembered && old(card).lapses >= max_lapses ==> removed && *final(card) == *old(card),
        card_wf(*final(card)),
{
    if remembered {
        let g = fx_mul(card.interval, interval_factor);
        let base = sat_sub(g, fx_mul(g, TENTH));
        let ni = sat_add(base, jitter);
        card.interval = if ni >= ONE { ni } else { ONE };
        card.days_waited = 0;
        false
    } else if card.lapses < max_lapses {
        let li = fx_mul(card.interval, lapse_interval_factor);
        card.interval = if li >= ONE { li } else { ONE };
        card.days_waited = 0;
        card.lapses = card.lapses + 1;
        false
    } else {
        true
    }
}

/// Whether a card is due for review today.
pub open spec fn due_s(c: Card) -> bool {
    c.days_waited >= c.interval
}

/// A per-card recall probability clamped into its permitted band.
pub open spec fn clamp_ratio_s(x: int) -> int {
    min_s(max_s(x, RATIO_MIN as int), RATIO_MAX as int)
}

/// A card after a remembered review with the given drawn jitter.
pub open spec fn good_card_s(c: Card, interval_factor: int, jitter: int) -> Card {
    Card {
        interval: good_interval_s(c.interval as int, interval_factor, jitter) as u64,
        days_waited: 0,
        retention_ratio: c.retention_ratio,
        lapses: c.lapses,
    }
}

/// A card after a lapsed review below the maximum lapse count.
pub open spec fn lapsed_card_s(c: Card, lapse_interval_factor: int) -> Card {
    Card {
        interval: lapse_interval_s(c.interval as int, lapse_interval_factor) as u64,
        days_waited: 0,
        retention_ratio: c.retention_ratio,
        lapses: (c.lapses + 1) as u64,
    }
}

/// A card that was not yet due and waits one more day, otherwise
/// unchanged.
pub open spec fn aged_card_s(c: Card) -> Card {
    Card {
        interval: c.interval,
        days_waited: sat_add_s(c.days_waited as int, ONE as int) as u64,
        retention_ratio: c.retention_ratio,
        lapses: c.lapses,
    }
}

/// Number of cards in `s` that are due for review.
pub open spec fn due_count_s(s: Seq<Card>) -> int
    decreases s.len(),
{
    if s.len() == 0 {
        0
    } else {
        (if due_s(s[0]) { 1int } else { 0int }) + due_count_s(s.drop_first())
    }
}

/// A due count lies between zero and the deck size.
pub proof fn lemma_due_count_bounds(s: Seq<Card>)
    ensures
        0 <= due_count_s(s) <= s.len(),
    decreases s.len(),
{
    if s.len() > 0 {
        lemma_due_count_bounds(s.drop_first());
    }
}

/// Appending a card adds its due-ness to the count.
pub proof fn lemma_due_count_snoc(s: Seq<Card>, x: Card)
    ensures
        due_count_s(s.push(x)) == due_count_s(s) + (if due_s(x) { 1int } else { 0int }),
    decreases s.len(),
{
    if s.len() == 0 {
        assert(s.push(x).drop_first() =~= s);
    } else {
        assert(s.push(x).drop_first() =~= s.drop_first().push(x));
        lemma_due_count_snoc(s.drop_first(), x);
    }
}

/// Number of cards in `s` whose interval is at least `t`.
pub open spec fn count_at_least_s(s: Seq<Card>, t: int) -> int
    decreases s.len(),
{
    if s.len() == 0 {
        0
    } else {
        count_at_least_s(s.drop_last(), t) + (if s.last().interval >= t { 1int } else { 0int })
    }
}

/// The stochastic simulator: a deck of cards, accumulated counters, the
/// derived retention ratio, and the configuration it derives from.
pub struct AnkiSim {
    /// The deck of live cards.
    pub deck: Vec<Card>,
    /// Cards added so far.
    pub cards_added: u64,
    /// Q20 seconds spent introducing new cards.
    pub time_spent_on_new: u64,
    /// Q20 seconds spent on reviews, lapsed reviews included.
    pub time_spent_on_review: u64,
    /// Days simulated so far.
    pub days_past: u64,
    /// Reviews performed so far.
    pub review_count: u64,
    /// Failed reviews so far.
    pub lapse_count: u64,
    /// Cards permanently dropped after lapsing past the maximum.
    pub remove_lapse_count: u64,
    /// Derived per-review recall probability, Q20; recomputed whenever the
    /// interval factor or the measured reference pair changes.
    pub retention_ratio: u64,
    /// Multiplier for card intervals on a remembered answer, Q20.
    pub interval_factor: u64,
    /// Multiplier for card intervals on a failed answer, Q20.
    pub lapse_interval_factor: u64,
    /// Measured reference pair: a recall ratio and the interval factor it
    /// was observed at, both Q20.
    pub measured_retention: (u64, u64),
    /// Spread of per-card recall probability around the mean, Q20.
    pub difficulty_variance: u64,
    /// Failure count at which a card is permanently dropped.
    pub max_lapses: u64,
    /// Q20 seconds accrued per new card.
    pub time_per_new_card: u64,
    /// Q20 seconds accrued per review.
    pub time_per_review_card: u64,
    /// Q20 extra seconds accrued per lapsed review.
    pub time_per_lapsed_card: u64,
    /// The simulator's own random source, seeded explicitly so that a run
    /// can be replayed.
    pub rng: rand::rngs::StdRng,
}

/// The stochastic simulator's state as mathematical values, without the
/// random source.
#[verifier::ext_equal]
pub ghost struct StochView {
    pub deck: Seq<Card>,
    pub cards_added: int,
    pub time_new: int,
    pub time_review: int,
    pub days_past: int,
    pub review_count: int,
    pub lapse_count: int,
    pub removed: int,
    pub retention: int,
    pub interval_factor: int,
    pub lapse_interval_factor: int,
    pub measured: (int, int),
    pub variance: int,
    pub max_lapses: int,
    pub per_new: int,
    pub per_review: int,
    pub per_lapsed: int,
}

impl View for AnkiSim {
    type V = StochView;

    open spec fn view(&self) -> StochView {
        StochView {
            deck: self.deck@,
            cards_added: self.cards_added as int,
            time_new: self.time_spent_on_new as int,
            time_review: self.time_spent_on_review as int,
            days_past: self.days_past as int,
            review_count: self.review_count as int,
            lapse_count: self.lapse_count as int,
            removed: self.remove_lapse_count as int,
            retention: self.retention_ratio as int,
            interval_factor: self.interval_factor as int,
            lapse_interval_factor: self.lapse_interval_factor as int,
            measured: (self.measured_retention.0 as int, self.measured_retention.1 as int),
            variance: self.difficulty_variance as int,
            max_lapses: self.max_lapses as int,
            per_new: self.time_per_new_card as int,
            per_review: self.time_per_review_card as int,
            per_lapsed: self.time_per_lapsed_card as int,
        }
    }
}

/// One simulated day as a function of the state and the drawn outcomes.
/// `draws` holds one entry per due-card review, scanned in slot order: the
/// Bernoulli recall outcome and the interval jitter.  A due card is
/// reviewed (the review counter and time grow), and its slot is either
/// updated in place — the remembered transition, or the lapse transition
/// below the maximum lapse count — or, at the maximum, the card is dropped
/// by swapping the last card into its slot, which is then processed in
/// turn; a card that is not due ages one day.  When `draws` runs out,
/// further reviews are read as failures, so the function is total and
/// every slot is processed whatever the draws.
pub open spec fn day_from_s(v: StochView, i: int, draws: Seq<(bool, u64)>) -> StochView
    decreases v.deck.len() - i when 0 <= i <= v.deck.len()
{
    if i >= v.deck.len() {
        v
    } else {
        let c = v.deck[i];
        if due_s(c) {
            let remembered = if draws.len() == 0 { false } else { draws[0].0 };
            let jitter = if draws.len() == 0 { 0 } else { draws[0].1 as int };
            let rest = if draws.len() == 0 { draws } else { draws.drop_first() };
            let v1 = StochView {
                review_count: sat_add_s(v.review_count, 1),
                time_review: sat_add_s(v.time_review, v.per_review),
                ..v
            };
            if remembered {
                let v2 = StochView {
                    deck: v1.deck.update(i, good_card_s(c, v.interval_factor, jitter)),
                    ..v1
                };
                day_from_s(v2, i + 1, rest)
            } else if c.lapses < v.max_lapses {
                let v2 = StochView {
                    deck: v1.deck.update(i, lapsed_card_s(c, v.lapse_interval_factor)),
                    lapse_count: sat_add_s(v1.lapse_count, 1),
                    time_review: sat_add_s(v1.time_review, v.per_lapsed),
                    ..v1
                };
                day_from_s(v2, i + 1, rest)
            } else {
                let v2 = StochView {
                    deck: v1.deck.update(i, v1.deck.last()).drop_last(),
                    lapse_count: sat_add_s(v1.lapse_count, 1),
                    removed: sat_add_s(v1.removed, 1),
                    ..v1
                };
                day_from_s(v2, i, rest)
            }
        } else {
            let v2 = StochView { deck: v.deck.update(i, aged_card_s(c)), ..v };
            day_from_s(v2, i + 1, draws)
        }
    }
}

/// The deck after a batch of new cards with the given drawn per-card
/// recall ratios: each card starts with a one-day interval and accrues
/// the per-new-card time and the added-card count.
pub open spec fn add_cards_s(v: StochView, ratios: Seq<u64>) -> StochView
    decreases ratios.len(),
{
    if ratios.len() == 0 {
        v
    } else {
        let v1 = StochView {
            deck: v.deck.push(Card {
                interval: ONE,
                days_waited: 0,
                retention_ratio: ratios[0],
                lapses: 0,
            }),
            cards_added: sat_add_s(v.cards_added, 1),
            time_new: sat_add_s(v.time_new, v.per_new),
            ..v
        };
        add_cards_s(v1, ratios.drop_first())
    }
}

/// The drawn per-card ratios a batch of new cards can carry: clamped into
/// the permitted band, and degenerate to the clamped global ratio when
/// the difficulty variance is zero.
pub open spec fn valid_ratios_s(ratios: Seq<u64>, n: int, retention: int, variance: int) -> bool {
    &&& ratios.len() == n
    &&& forall|j: int| 0 <= j < n ==> RATIO_MIN <= #[trigger] ratios[j] <= RATIO_MAX
        && (variance == 0 ==> ratios[j] as int == clamp_ratio_s(retention))
}

/// The state at the start of a simulated day: only the day counter has
/// advanced.
pub open spec fn day_start_s(v: StochView) -> StochView {
    StochView { days_past: sat_add_s(v.days_past, 1), ..v }
}

/// Bounds under which one day's saturating counter arithmetic is exact:
/// each counter has room for one increment per deck card, and the review
/// time has room for every card's worst-case cost.
pub open spec fn day_counters_fit(v: StochView) -> bool {
    &&& v.review_count + v.deck.len() <= u64::MAX
    &&& v.lapse_count + v.deck.len() <= u64::MAX
    &&& v.removed + v.deck.len() <= u64::MAX
    &&& v.time_review + v.deck.len() * (v.per_review + v.per_lapsed) <= u64::MAX
}

/// One full day of `simulate_n_days`: some validly drawn batch of
/// `n_new` cards is added, then the day runs on some drawn outcomes.
pub open spec fn sim_day_rel(a: StochView, b: StochView, n_new: int) -> bool {
    exists|ratios: Seq<u64>, draws: Seq<(bool, u64)>|
        valid_ratios_s(ratios, n_new, a.retention, a.variance)
            && b == #[trigger] day_from_s(day_start_s(add_cards_s(a, ratios)), 0, draws)
}

/// The configuration fields two simulator states share when no setter ran
/// between them.
pub open spec fn same_settings(a: AnkiSim, b: AnkiSim) -> bool {
    &&& b.retention_ratio == a.retention_ratio
    &&& b.interval_factor == a.interval_factor
    &&& b.lapse_interval_factor == a.lapse_interval_factor
    &&& b.measured_retention == a.measured_retention
    &&& b.difficulty_variance == a.difficulty_variance
    &&& b.max_lapses == a.max_lapses
    &&& b.time_per_new_card == a.time_per_new_card
    &&& b.time_per_review_card == a.time_per_review_card
    &&& b.time_per_lapsed_card == a.time_per_lapsed_card
}

impl AnkiSim {
    /// The simulator's invariant: every deck interval is at least one day
    /// and the derived retention ratio lies below one.
    pub open spec fn wf(self) -> bool {
        &&& forall|i: int| 0 <= i < self.deck@.len() ==> #[trigger] card_wf(self.deck@[i])
        &&& self.retention_ratio <= ONE - 1
    }

    /// A fresh simulator with the documented defaults and a fixed seed.
    pub fn new() -> (s: Self)
        ensures
            s.wf(),
            s.deck@.len() == 0,
            s.cards_added == 0,
            s.time_spent_on_new == 0,
            s.time_spent_on_review == 0,
            s.days_past == 0,
            s.review_count == 0,
            s.lapse_count == 0,
            s.remove_lapse_count == 0,
            s.retention_ratio == DEFAULT_MEASURED_RETENTION,
            s.interval_factor == DEFAULT_INTERVAL_FACTOR,
            s.lapse_interval_factor == DEFAULT_LAPSE_INTERVAL_FACTOR,
            s.measured_retention == (DEFAULT_MEASURED_RETENTION, DEFAULT_INTERVAL_FACTOR),
            s.difficulty_variance == DEFAULT_DIFFICULTY_VARIANCE,
            s.max_lapses == DEFAULT_MAX_LAPSES,
            s.time_per_new_card == DEFAULT_TIME_PER_NEW_CARD,
            s.time_per_review_card == DEFAULT_TIME_PER_REVIEW_CARD,
            s.time_per_lapsed_card == DEFAULT_TIME_PER_LAPSED_CARD,
    {
        AnkiSim {
            deck: Vec::new(),
            cards_added: 0,
            time_spent_on_new: 0,
            time_spent_on_review: 0,
            days_past: 0,
            review_count: 0,
            lapse_count: 0,
            remove_lapse_count: 0,
            retention_ratio: DEFAULT_MEASURED_RETENTION,
            interval_factor: DEFAULT_INTERVAL_FACTOR,
            lapse_interval_factor: DEFAULT_LAPSE_INTERVAL_FACTOR,
            measured_retention: (DEFAULT_MEASURED_RETENTION, DEFAULT_INTERVAL_FACTOR),
            difficulty_variance: DEFAULT_DIFFICULTY_VARIANCE,
            max_lapses: DEFAULT_MAX_LAPSES,
            time_per_new_card: DEFAULT_TIME_PER_NEW_CARD,
            time_per_review_card: DEFAULT_TIME_PER_REVIEW_CARD,
            time_per_lapsed_card: DEFAULT_TIME_PER_LAPSED_CARD,
            rng: rng_from_seed(0),
        }
    }

    /// The derived per-review recall probability, Q20.
    pub fn average_retention_ratio(&self) -> (r: u64)
        ensures
            r == self.retention_ratio,
    {
        self.retention_ratio
    }

    /// Reseeds the simulator's random source, for reproducible runs.
    pub fn with_seed(self, seed: u64) -> (s: Self)
        ensures
            s == (AnkiSim { rng: s.rng, ..self }),
            self.wf() ==> s.wf(),
    {
        AnkiSim { rng: rng_from_seed(seed), ..self }
    }

    /// Sets the spread of per-card recall probability around the mean.
    pub fn with_difficulty_variance(self, variance: u64) -> (s: Self)
        ensures
            s == (AnkiSim { difficulty_variance: variance, ..self }),
            self.wf() ==> s.wf(),
    {
        AnkiSim { difficulty_variance: variance, ..self }
    }

    /// Sets the good-answer interval multiplier and recomputes the derived
    /// retention ratio.
    pub fn with_interval_factor(self, factor: u64) -> (s: Self)
        ensures
            s == (AnkiSim {
                interval_factor: factor,
                retention_ratio: retention_model_s(
                    self.measured_retention.0 as int,
                    self.measured_retention.1 as int,
                    factor as int,
                ) as u64,
                ..self
            }),
            self.wf() ==> s.wf(),
    {
        let retention_ratio = retention_model(
            self.measured_retention.0,
            self.measured_retention.1,
            factor,
        );
        AnkiSim { interval_factor: factor, retention_ratio, ..self }
    }

    /// Sets the multiplier applied to an interval on a failed answer.
    pub fn with_lapse_interval_factor(self, factor: u64) -> (s: Self)
        ensures
            s == (AnkiSim { lapse_interval_factor: factor, ..self }),
            self.wf() ==> s.wf(),
    {
        AnkiSim { lapse_interval_factor: factor, ..self }
    }

    /// Sets the measured reference pair and recomputes the derived
    /// retention ratio.
    pub fn with_measured_retention_ratio(self, ratio: u64, interval: u64) -> (s: Self)
        ensures
            s == (AnkiSim {
                measured_retention: (ratio, interval),
                retention_ratio: retention_model_s(
                    ratio as int,
                    interval as int,
                    self.interval_factor as int,
                ) as u64,
                ..self
            }),
            self.wf() ==> s.wf(),
    {
        let retention_ratio = retention_model(ratio, interval, self.interval_factor);
        AnkiSim { measured_retention: (ratio, interval), retention_ratio, ..self }
    }

    /// Sets the failure count at which a card is permanently dropped.
    pub fn with_max_lapses(self, lapses: u64) -> (s: Self)
        ensures
            s == (AnkiSim { max_lapses: lapses, ..self }),
            self.wf() ==> s.wf(),
    {
        AnkiSim { max_lapses: lapses, ..self }
    }

    /// Q20 seconds spent on each new card before it becomes a normal
    /// review card.
    pub fn with_seconds_per_new_card(self, time: u64) -> (s: Self)
        ensures
            s == (AnkiSim { time_per_new_card: time, ..self }),
            self.wf() ==> s.wf(),
    {
        AnkiSim { time_per_new_card: time, ..self }
    }

    /// Q20 seconds spent on each review.
    pub fn with_seconds_per_review_card(self, time: u64) -> (s: Self)
        ensures
            s == (AnkiSim { time_per_review_card: time, ..self }),
            self.wf() ==> s.wf(),
    {
        AnkiSim { time_per_review_card: time, ..self }
    }

    /// Q20 extra seconds spent on each lapsed review.
    pub fn with_seconds_per_lapsed_card(self, time: u64) -> (s: Self)
        ensures
            s == (AnkiSim { time_per_lapsed_card: time, ..self }),
            self.wf() ==> s.wf(),
    {
        AnkiSim { time_per_lapsed_card: time, ..self }
    }

    /// Adds `n` new cards to the deck.  Each card starts with a one-day
    /// interval and a per-card recall probability drawn around the global
    /// ratio, clamped into `[RATIO_MIN, RATIO_MAX]`; each addition accrues
    /// the per-new-card time and bumps the added-card counter.
    pub fn add_new_cards(&mut self, n: u32)
        requires
            old(self).wf(),
        ensures
            final(self).wf(),
            same_settings(*old(self), *final(self)),
            final(self).deck@.len() == old(self).deck@.len() + n,
            final(self).cards_added as int
                == sat_add_s(old(self).cards_added as int, n as int),
            final(self).time_spent_on_new as int == sat_add_s(
                old(self).time_spent_on_new as int,
                n as int * old(self).time_per_new_card as int,
            ),
            forall|i: int| 0 <= i < old(self).deck@.len()
                ==> final(self).deck@[i] == old(self).deck@[i],
            forall|i: int| old(self).deck@.len() <= i < final(self).deck@.len()
                ==> (#[trigger] final(self).deck@[i]).interval == ONE
                    && final(self).deck@[i].days_waited == 0
                    && final(self).deck@[i].lapses == 0
                    && RATIO_MIN <= final(self).deck@[i].retention_ratio <= RATIO_MAX,
            old(self).difficulty_variance == 0 ==> forall|i: int|
                old(self).deck@.len() <= i < final(self).deck@.len()
                    ==> (#[trigger] final(self).deck@[i]).retention_ratio as int
                        == clamp_ratio_s(old(self).retention_ratio as int),
            final(self).days_past == old(self).days_past,
            final(self).review_count == old(self).review_count,
            final(self).lapse_count == old(self).lapse_count,
            final(self).remove_lapse_count == old(self).remove_lapse_count,
            final(self).time_spent_on_review == old(self).time_spent_on_review,
            exists|ratios: Seq<u64>|
                valid_ratios_s(
                    ratios,
                    n as int,
                    old(self).retention_ratio as int,
                    old(self).difficulty_variance as int,
                ) && final(self)@ == #[trigger] add_cards_s(old(self)@, ratios),
    {
        let ghost mut ratios_acc: Seq<u64> = Seq::empty();
        proof {
            assert forall|rest: Seq<u64>|
                add_cards_s(old(self)@, #[trigger] (ratios_acc + rest))
                    == add_cards_s(old(self)@, rest) by {
                assert(ratios_acc + rest =~= rest);
            }
        }
        let mut j: u32 = 0;
        while j < n
            invariant
                self.wf(),
                same_settings(*old(self), *self),
                j <= n,
                self.deck@.len() == old(self).deck@.len() + j,
                self.cards_added as int == sat_add_s(old(self).cards_added as int, j as int),
                self.time_spent_on_new as int == sat_add_s(
                    old(self).time_spent_on_new as int,
                    j as int * old(self).time_per_new_card as int,
                ),
                forall|i: int| 0 <= i < old(self).deck@.len()
                    ==> self.deck@[i] == old(self).deck@[i],
                forall|i: int| old(self).deck@.len() <= i < self.deck@.len()
                    ==> (#[trigger] self.deck@[i]).interval == ONE
                        && self.deck@[i].days_waited == 0
                        && self.deck@[i].lapses == 0
                        && RATIO_MIN <= self.deck@[i].retention_ratio <= RATIO_MAX,
                old(self).difficulty_variance == 0 ==> forall|i: int|
                    old(self).deck@.len() <= i < self.deck@.len()
                        ==> (#[trigger] self.deck@[i]).retention_ratio as int
                            == clamp_ratio_s(old(self).retention_ratio as int),
                self.days_past == old(self).days_past,
                self.review_count == old(self).review_count,
                self.lapse_count == old(self).lapse_count,
                self.remove_lapse_count == old(self).remove_lapse_count,
                self.time_spent_on_review == old(self).time_spent_on_review,
                valid_ratios_s(
                    ratios_acc,
                    j as int,
                    old(self).retention_ratio as int,
                    old(self).difficulty_variance as int,
                ),
                forall|rest: Seq<u64>|
                    add_cards_s(old(self)@, #[trigger] (ratios_acc + rest))
                        == add_cards_s(self@, rest),
            decreases n - j,
        {
            proof {
                lemma_sat_add_assoc(
                    old(self).time_spent_on_new as int,
                    j as int * old(self).time_per_new_card as int,
                    old(self).time_per_new_card as int,
                );
                lemma_sat_add_assoc(old(self).cards_added as int, j as int, 1);
                let tp = old(self).time_per_new_card as int;
                assert((j + 1) as int * tp == j as int * tp + tp) by (nonlinear_arith);
            }
            let ghost prev = self@;
            let ghost prev_acc = ratios_acc;
            self.time_spent_on_new = sat_add(self.time_spent_on_new, self.time_per_new_card);
            self.cards_added = sat_add(self.cards_added, 1);
            let center = self.retention_ratio;
            let variance = self.difficulty_variance;
            let ratio = draw_ratio(&mut self.rng, center, variance);
            self.deck.push(Card {
                interval: ONE,
                days_waited: 0,
                retention_ratio: ratio,
                lapses: 0,
            });
            proof {
                ratios_acc = ratios_acc.push(ratio);
                let v1 = StochView {
                    deck: prev.deck.push(Card {
                        interval: ONE,
                        days_waited: 0,
                        retention_ratio: ratio,
                        lapses: 0,
                    }),
                    cards_added: sat_add_s(prev.cards_added, 1),
                    time_new: sat_add_s(prev.time_new, prev.per_new),
                    ..prev
                };
                assert(self@ =~= v1);
                assert forall|rest: Seq<u64>|
                    add_cards_s(old(self)@, #[trigger] (ratios_acc + rest))
                        == add_cards_s(self@, rest) by {
                    let mid = seq![ratio] + rest;
                    assert(ratios_acc + rest =~= prev_acc + mid);
                    assert(add_cards_s(old(self)@, prev_acc + mid)
                        == add_cards_s(prev, mid));
                    assert(mid[0] == ratio);
                    assert(mid.drop_first() =~= rest);
                    assert(add_cards_s(prev, mid) == add_cards_s(v1, rest));
                }
            }
            j = j + 1;
        }
        proof {
            let empty = Seq::<u64>::empty();
            assert(ratios_acc + empty =~= ratios_acc);
            assert(add_cards_s(self@, empty) == self@);
            assert(self@ == add_cards_s(old(self)@, ratios_acc));
        }
    }

    /// Simulates a single day: every card present at the start of the day
    /// is processed once, in slot order — a due card is reviewed with a
    /// randomly drawn outcome, every other card ages one day unchanged.
    /// The new state equals `day_from_s` of the old one for the sequence
    /// of outcomes that was drawn; whatever the draws, counters only grow,
    /// the deck can only shrink, every surviving card keeps an interval of
    /// at least one day, and removals match the deck shrinkage.  While the
    /// counters have room (`day_counters_fit`) the review counter grows by
    /// exactly the number of due cards, lapses never outnumber reviews,
    /// the review time is accounted exactly, and a maximum lapse count of
    /// zero turns every failed review into a removal.
    pub fn simulate_day(&mut self)
        requires
            old(self).wf(),
        ensures
            final(self).wf(),
            same_settings(*old(self), *final(self)),
            final(self).days_past as int == sat_add_s(old(self).days_past as int, 1),
            final(self).review_count >= old(self).review_count,
            final(self).lapse_count >= old(self).lapse_count,
            final(self).remove_lapse_count >= old(self).remove_lapse_count,
            final(self).time_spent_on_review >= old(self).time_spent_on_review,
            final(self).time_spent_on_new == old(self).time_spent_on_new,
            final(self).cards_added == old(self).cards_added,
            final(self).deck@.len() <= old(self).deck@.len(),
            old(self).remove_lapse_count + old(self).deck@.len() <= u64::MAX
                ==> final(self).remove_lapse_count as int == old(self).remove_lapse_count
                    + (old(self).deck@.len() - final(self).deck@.len()),
            exists|draws: Seq<(bool, u64)>|
                final(self)@ == #[trigger] day_from_s(day_start_s(old(self)@), 0, draws),
            old(self).deck@.len() == 0 ==> final(self)@ == day_start_s(old(self)@),
            day_counters_fit(old(self)@) ==> final(self).review_count as int
                == old(self).review_count + due_count_s(old(self).deck@),
            day_counters_fit(old(self)@) ==> final(self).lapse_count - old(self).lapse_count
                <= final(self).review_count - old(self).review_count,
            day_counters_fit(old(self)@)
                ==> final(self).remove_lapse_count - old(self).remove_lapse_count
                    <= final(self).lapse_count - old(self).lapse_count,
            day_counters_fit(old(self)@) ==> final(self).time_spent_on_review as int
                == old(self).time_spent_on_review
                    + (final(self).review_count - old(self).review_count)
                        * old(self).time_per_review_card
                    + (final(self).lapse_count - old(self).lapse_count
                        - (final(self).remove_lapse_count - old(self).remove_lapse_count))
                        * old(self).time_per_lapsed_card,
            day_counters_fit(old(self)@) && old(self).max_lapses == 0
                ==> final(self).lapse_count - old(self).lapse_count
                    == final(self).remove_lapse_count - old(self).remove_lapse_count,
    {
        self.days_past = sat_add(self.days_past, 1);
        let ghost vstart = day_start_s(old(self)@);
        let ghost mut draws_acc: Seq<(bool, u64)> = Seq::empty();
        proof {
            assert(self@ =~= vstart);
            assert(self.deck@.skip(0) =~= self.deck@);
            assert forall|rest: Seq<(bool, u64)>|
                day_from_s(vstart, 0, #[trigger] (draws_acc + rest))
                    == day_from_s(vstart, 0, rest) by {
                assert(draws_acc + rest =~= rest);
            }
        }
        let mut i: usize = 0;
        while i < self.deck.len()
            invariant
                self.wf(),
                same_settings(*old(self), *self),
                i <= self.deck@.len(),
                self.deck@.len() <= old(self).deck@.len(),
                self.days_past as int == sat_add_s(old(self).days_past as int, 1),
                self.review_count >= old(self).review_count,
                self.lapse_count >= old(self).lapse_count,
                self.remove_lapse_count >= old(self).remove_lapse_count,
                self.time_spent_on_review >= old(self).time_spent_on_review,
                self.time_spent_on_new == old(self).time_spent_on_new,
                self.cards_added == old(self).cards_added,
                old(self).remove_lapse_count + old(self).deck@.len() <= u64::MAX
                    ==> self.remove_lapse_count as int == old(self).remove_lapse_count
                        + (old(self).deck@.len() - self.deck@.len()),
                vstart == day_start_s(old(self)@),
                forall|rest: Seq<(bool, u64)>|
                    day_from_s(vstart, 0, #[trigger] (draws_acc + rest))
                        == day_from_s(self@, i as int, rest),
                day_counters_fit(old(self)@) ==> self.review_count as int
                    == old(self).review_count + due_count_s(old(self).deck@)
                        - due_count_s(self.deck@.skip(i as int)),
                day_counters_fit(old(self)@) ==> self.lapse_count - old(self).lapse_count
                    <= self.review_count - old(self).review_count,
                day_counters_fit(old(self)@)
                    ==> self.remove_lapse_count - old(self).remove_lapse_count
                        <= self.lapse_count - old(self).lapse_count,
                day_counters_fit(old(self)@) ==> self.time_spent_on_review as int
                    == old(self).time_spent_on_review
                        + (self.review_count - old(self).review_count)
                            * old(self).time_per_review_card
                        + (self.lapse_count - old(self).lapse_count
                            - (self.remove_lapse_count - old(self).remove_lapse_count))
                            * old(self).time_per_lapsed_card,
                day_counters_fit(old(self)@) && old(self).max_lapses == 0
                    ==> self.lapse_count - old(self).lapse_count
                        == self.remove_lapse_count - old(self).remove_lapse_count,
            decreases self.deck@.len() - i,
        {
            let ghost prev = self@;
            let ghost prev_acc = draws_acc;
            let ghost c = self.deck@[i as int];
            if self.deck[i].days_waited >= self.deck[i].interval {
                self.review_count = sat_add(self.review_count, 1);
                self.time_spent_on_review =
                    sat_add(self.time_spent_on_review, self.time_per_review_card);
                let draw = rng_below(&mut self.rng, ONE);
                let remembered = draw < self.deck[i].retention_ratio;
                let jitter = if remembered {
                    let g = fx_mul(self.deck[i].interval, self.interval_factor);
                    let width = sat_add(fx_mul(g, FIFTH), 1);
                    rng_below(&mut self.rng, width)
                } else {
                    0
                };
                let mut card = self.deck[i];
                let removed = review_due_card(
                    &mut card,
                    remembered,
                    jitter,
                    self.interval_factor,
                    self.lapse_interval_factor,
                    self.max_lapses,
                );
                proof {
                    draws_acc = draws_acc.push((remembered, jitter));
                }
                if removed {
                    self.deck.swap_remove(i);
                    self.lapse_count = sat_add(self.lapse_count, 1);
                    self.remove_lapse_count = sat_add(self.remove_lapse_count, 1);
                    proof {
                        let v1 = StochView {
                            review_count: sat_add_s(prev.review_count, 1),
                            time_review: sat_add_s(prev.time_review, prev.per_review),
                            ..prev
                        };
                        let v2 = StochView {
                            deck: v1.deck.update(i as int, v1.deck.last()).drop_last(),
                            lapse_count: sat_add_s(v1.lapse_count, 1),
                            removed: sat_add_s(v1.removed, 1),
                            ..v1
                        };
                        assert(self@ =~= v2);
                        assert forall|j: int| 0 <= j < self.deck@.len()
                            implies card_wf(#[trigger] self.deck@[j]) by {
                            if j == i as int {
                                assert(self.deck@[j] == prev.deck[prev.deck.len() - 1]);
                            } else {
                                assert(self.deck@[j] == prev.deck[j]);
                            }
                        }
                        assert forall|rest: Seq<(bool, u64)>|
                            day_from_s(vstart, 0, #[trigger] (draws_acc + rest))
                                == day_from_s(self@, i as int, rest) by {
                            let d = (remembered, jitter);
                            let mid = seq![d] + rest;
                            assert(draws_acc + rest =~= prev_acc + mid);
                            assert(day_from_s(vstart, 0, prev_acc + mid)
                                == day_from_s(prev, i as int, mid));
                            assert(mid[0] == d);
                            assert(mid.drop_first() =~= rest);
                            assert(day_from_s(prev, i as int, mid)
                                == day_from_s(v2, i as int, rest));
                        }
                        if day_counters_fit(old(self)@) {
                            let ol = old(self).deck@.len() as int;
                            let pr = old(self).time_per_review_card as int;
                            let pl = old(self).time_per_lapsed_card as int;
                            let drc = prev.review_count - old(self).review_count;
                            let dlp = prev.lapse_count - old(self).lapse_count;
                            let drm = prev.removed - old(self).remove_lapse_count;
                            lemma_due_count_bounds(old(self).deck@);
                            lemma_due_count_bounds(prev.deck.skip(i as int + 1));
                            assert(prev.deck.skip(i as int)[0] == c);
                            assert(prev.deck.skip(i as int).drop_first()
                                =~= prev.deck.skip(i as int + 1));
                            assert(due_count_s(prev.deck.skip(i as int))
                                == 1 + due_count_s(prev.deck.skip(i as int + 1)));
                            if i as int == prev.deck.len() - 1 {
                                assert(self.deck@.skip(i as int) =~= Seq::<Card>::empty());
                                assert(prev.deck.skip(i as int + 1) =~= Seq::<Card>::empty());
                            } else {
                                let lastc = prev.deck[prev.deck.len() - 1];
                                let mid = prev.deck.subrange(i as int + 1, prev.deck.len() - 1);
                                assert(prev.deck.skip(i as int + 1) =~= mid.push(lastc));
                                lemma_due_count_snoc(mid, lastc);
                                assert(self.deck@.skip(i as int)[0] == lastc);
                                assert(self.deck@.skip(i as int).drop_first() =~= mid);
                                assert(due_count_s(self.deck@.skip(i as int))
                                    == (if due_s(lastc) { 1int } else { 0int })
                                        + due_count_s(mid));
                            }
                            assert((drc + 1) * pr <= ol * pr) by {
                                lemma_mul_inequality(drc + 1, ol, pr);
                            };
                            assert((drc + 1) * pl <= ol * pl) by {
                                lemma_mul_inequality(drc + 1, ol, pl);
                            };
                            assert((dlp - drm) * pl <= drc * pl) by {
                                lemma_mul_inequality(dlp - drm, drc, pl);
                            };
                            assert((dlp + 1 - drm) * pl <= (drc + 1) * pl) by {
                                lemma_mul_inequality(dlp + 1 - drm, drc + 1, pl);
                            };
                            assert(drc * pl <= ol * pl) by {
                                lemma_mul_inequality(drc, ol, pl);
                            };
                            assert(ol * (pr + pl) == ol * pr + ol * pl) by (nonlinear_arith);
                            assert((drc + 1) * pr == drc * pr + pr) by (nonlinear_arith);
                            assert((dlp + 1 - drm) * pl == (dlp - drm) * pl + pl)
                                by (nonlinear_arith);
                        }
                    }
                } else {
                    self.deck[i] = card;
                    if !remembered {
                        self.lapse_count = sat_add(self.lapse_count, 1);
                        self.time_spent_on_review =
                            sat_add(self.time_spent_on_review, self.time_per_lapsed_card);
                    }
                    proof {
                        let v1 = StochView {
                            review_count: sat_add_s(prev.review_count, 1),
                            time_review: sat_add_s(prev.time_review, prev.per_review),
                            ..prev
                        };
                        let v2 = if remembered {
                            StochView {
                                deck: v1.deck.update(
                                    i as int,
                                    good_card_s(c, prev.interval_factor, jitter as int),
                                ),
                                ..v1
                            }
                        } else {
                            StochView {
                                deck: v1.deck.update(
                                    i as int,
                                    lapsed_card_s(c, prev.lapse_interval_factor),
                                ),
                                lapse_count: sat_add_s(v1.lapse_count, 1),
                                time_review: sat_add_s(v1.time_review, prev.per_lapsed),
                                ..v1
                            }
                        };
                        if remembered {
                            assert(card == good_card_s(c, prev.interval_factor, jitter as int));
                        } else {
                            assert(card == lapsed_card_s(c, prev.lapse_interval_factor));
                        }
                        assert(self@ =~= v2);
                        assert forall|j: int| 0 <= j < self.deck@.len()
                            implies card_wf(#[trigger] self.deck@[j]) by {
                            if j != i as int {
                                assert(self.deck@[j] == prev.deck[j]);
                            }
                        }
                        assert forall|rest: Seq<(bool, u64)>|
                            day_from_s(vstart, 0, #[trigger] (draws_acc + rest))
                                == day_from_s(self@, i as int + 1, rest) by {
                            let d = (remembered, jitter);
                            let mid = seq![d] + rest;
                            assert(draws_acc + rest =~= prev_acc + mid);
                            assert(day_from_s(vstart, 0, prev_acc + mid)
                                == day_from_s(prev, i as int, mid));
                            assert(mid[0] == d);
                            assert(mid.drop_first() =~= rest);
                            assert(day_from_s(prev, i as int, mid)
                                == day_from_s(v2, i as int + 1, rest));
                        }
                        if day_counters_fit(old(self)@) {
                            let ol = old(self).deck@.len() as int;
                            let pr = old(self).time_per_review_card as int;
                            let pl = old(self).time_per_lapsed_card as int;
                            let drc = prev.review_count - old(self).review_count;
                            let dlp = prev.lapse_count - old(self).lapse_count;
                            let drm = prev.removed - old(self).remove_lapse_count;
                            lemma_due_count_bounds(old(self).deck@);
                            lemma_due_count_bounds(prev.deck.skip(i as int + 1));
                            assert(prev.deck.skip(i as int)[0] == c);
                            assert(prev.deck.skip(i as int).drop_first()
                                =~= prev.deck.skip(i as int + 1));
                            assert(due_count_s(prev.deck.skip(i as int))
                                == 1 + due_count_s(prev.deck.skip(i as int + 1)));
                            assert(self.deck@.skip(i as int + 1)
                                =~= prev.deck.skip(i as int + 1));
                            assert((drc + 1) * pr <= ol * pr) by {
                                lemma_mul_inequality(drc + 1, ol, pr);
                            };
                            assert((drc + 1) * pl <= ol * pl) by {
                                lemma_mul_inequality(drc + 1, ol, pl);
                            };
                            assert((dlp - drm) * pl <= drc * pl) by {
                                lemma_mul_inequality(dlp - drm, drc, pl);
                            };
                            assert((dlp + 1 - drm) * pl <= (drc + 1) * pl) by {
                                lemma_mul_inequality(dlp + 1 - drm, drc + 1, pl);
                            };
                            assert(drc * pl <= ol * pl) by {
                                lemma_mul_inequality(drc, ol, pl);
                            };
                            assert(ol * (pr + pl) == ol * pr + ol * pl) by (nonlinear_arith);
                            assert((drc + 1) * pr == drc * pr + pr) by (nonlinear_arith);
                            assert((dlp + 1 - drm) * pl == (dlp - drm) * pl + pl)
                                by (nonlinear_arith);
                        }
                    }
                    i = i + 1;
                }
            } else {
                let mut card = self.deck[i];
                card.days_waited = sat_add(card.days_waited, ONE);
                self.deck[i] = card;
                proof {
                    let v2 = StochView { deck: prev.deck.update(i as int, aged_card_s(c)), ..prev };
                    assert(card == aged_card_s(c));
                    assert(self@ =~= v2);
                    assert forall|j: int| 0 <= j < self.deck@.len()
                        implies card_wf(#[trigger] self.deck@[j]) by {
                        if j != i as int {
                            assert(self.deck@[j] == prev.deck[j]);
                        } else {
                            assert(card_wf(prev.deck[i as int]));
                            assert(self.deck@[j] == card);
                        }
                    }
                    assert forall|rest: Seq<(bool, u64)>|
                        day_from_s(vstart, 0, #[trigger] (draws_acc + rest))
                            == day_from_s(self@, i as int + 1, rest) by {
                        assert(day_from_s(vstart, 0, prev_acc + rest)
                            == day_from_s(prev, i as int, rest));
                        assert(day_from_s(prev, i as int, rest)
                            == day_from_s(v2, i as int + 1, rest));
                    }
                    if day_counters_fit(old(self)@) {
                        assert(prev.deck.skip(i as int)[0] == c);
                        assert(prev.deck.skip(i as int).drop_first()
                            =~= prev.deck.skip(i as int + 1));
                        assert(self.deck@.skip(i as int + 1)
                            =~= prev.deck.skip(i as int + 1));
                        assert(due_count_s(prev.deck.skip(i as int))
                            == due_count_s(prev.deck.skip(i as int + 1)));
                    }
                }
                i = i + 1;
            }
        }
        proof {
            let empty = Seq::<(bool, u64)>::empty();
            assert(self.deck@.skip(i as int) =~= Seq::<Card>::empty());
            assert(draws_acc + empty =~= draws_acc);
            assert(day_from_s(self@, i as int, empty) == self@);
            assert(self@ == day_from_s(vstart, 0, draws_acc));
            if old(self).deck@.len() == 0 {
                assert(day_from_s(vstart, 0, draws_acc) == vstart);
            }
        }
    }

    /// Simulates `n` days strictly in order: each day adds
    /// `new_cards_per_day` cards and then runs one simulated day, so the
    /// final state is reachable by an `n`-step chain of `sim_day_rel`
    /// days.  A zero-day run changes nothing, new-card time is accounted
    /// exactly, and an empty deck with no cards added stays empty with no
    /// review time.
    pub fn simulate_n_days(&mut self, n: u32, new_cards_per_day: u32)
        requires
            old(self).wf(),
        ensures
            final(self).wf(),
            same_settings(*old(self), *final(self)),
            final(self).days_past as int == sat_add_s(old(self).days_past as int, n as int),
            final(self).cards_added as int == sat_add_s(
                old(self).cards_added as int,
                n as int * new_cards_per_day as int,
            ),
            final(self).review_count >= old(self).review_count,
            final(self).lapse_count >= old(self).lapse_count,
            final(self).remove_lapse_count >= old(self).remove_lapse_count,
            final(self).time_spent_on_review >= old(self).time_spent_on_review,
            final(self).time_spent_on_new as int == sat_add_s(
                old(self).time_spent_on_new as int,
                n as int * new_cards_per_day as int * old(self).time_per_new_card as int,
            ),
            n == 0 ==> final(self)@ == old(self)@,
            exists|trace: Seq<StochView>|
                #![trigger trace.len()]
                trace.len() == n as int + 1
                    && trace[0] == old(self)@
                    && trace[n as int] == final(self)@
                    && (forall|d: int| 0 <= d < n as int ==> sim_day_rel(
                        #[trigger] trace[d],
                        trace[d + 1],
                        new_cards_per_day as int,
                    )),
            new_cards_per_day == 0 && old(self).deck@.len() == 0
                ==> final(self).deck@.len() == 0
                    && final(self).time_spent_on_review == old(self).time_spent_on_review
                    && final(self).review_count == old(self).review_count
                    && final(self).lapse_count == old(self).lapse_count
                    && final(self).remove_lapse_count == old(self).remove_lapse_count,
    {
        let ghost mut trace: Seq<StochView> = seq![old(self)@];
        let mut d: u32 = 0;
        while d < n
            invariant
                self.wf(),
                same_settings(*old(self), *self),
                d <= n,
                trace.len() == d as int + 1,
                trace[0] == old(self)@,
                trace[d as int] == self@,
                forall|k: int| 0 <= k < d as int ==> sim_day_rel(
                    #[trigger] trace[k],
                    trace[k + 1],
                    new_cards_per_day as int,
                ),
                self.days_past as int == sat_add_s(old(self).days_past as int, d as int),
                self.cards_added as int == sat_add_s(
                    old(self).cards_added as int,
                    d as int * new_cards_per_day as int,
                ),
                self.review_count >= old(self).review_count,
                self.lapse_count >= old(self).lapse_count,
                self.remove_lapse_count >= old(self).remove_lapse_count,
                self.time_spent_on_review >= old(self).time_spent_on_review,
                self.time_spent_on_new as int == sat_add_s(
                    old(self).time_spent_on_new as int,
                    d as int * new_cards_per_day as int * old(self).time_per_new_card as int,
                ),
                d == 0 ==> self@ == old(self)@,
                new_cards_per_day == 0 && old(self).deck@.len() == 0
                    ==> self.deck@.len() == 0
                        && self.time_spent_on_review == old(self).time_spent_on_review
                        && self.review_count == old(self).review_count
                        && self.lapse_count == old(self).lapse_count
                        && self.remove_lapse_count == old(self).remove_lapse_count,
            decreases n - d,
        {
            proof {
                lemma_sat_add_assoc(old(self).days_past as int, d as int, 1);
                lemma_sat_add_assoc(
                    old(self).cards_added as int,
                    d as int * new_cards_per_day as int,
                    new_cards_per_day as int,
                );
                let np = new_cards_per_day as int;
                let pn = old(self).time_per_new_card as int;
                assert((d + 1) as int * np == d as int * np + np) by (nonlinear_arith);
                lemma_sat_add_assoc(
                    old(self).time_spent_on_new as int,
                    d as int * np * pn,
                    np * pn,
                );
                assert((d + 1) as int * np * pn == d as int * np * pn + np * pn)
                    by (nonlinear_arith);
            }
            let ghost before = self@;
            self.add_new_cards(new_cards_per_day);
            let ghost mid = self@;
            self.simulate_day();
            proof {
                let ratios = choose|ratios: Seq<u64>|
                    valid_ratios_s(
                        ratios,
                        new_cards_per_day as int,
                        before.retention,
                        before.variance,
                    ) && mid == add_cards_s(before, ratios);
                let draws = choose|draws: Seq<(bool, u64)>|
                    self@ == day_from_s(day_start_s(mid), 0, draws);
                assert(valid_ratios_s(
                    ratios,
                    new_cards_per_day as int,
                    before.retention,
                    before.variance,
                ) && self@ == day_from_s(day_start_s(add_cards_s(before, ratios)), 0, draws));
                assert(sim_day_rel(before, self@, new_cards_per_day as int));
                trace = trace.push(self@);
            }
            d = d + 1;
        }
        proof {
            assert(trace.len() == n as int + 1 && trace[0] == old(self)@
                && trace[n as int] == self@
                && (forall|k: int| 0 <= k < n as int ==> sim_day_rel(
                    #[trigger] trace[k],
                    trace[k + 1],
                    new_cards_per_day as int,
                )));
        }
    }

    /// Number of deck cards whose interval is at least `threshold`.
    fn cards_with_interval_or_greater(&self, threshold: u64) -> (count: usize)
        ensures
            count == count_at_least_s(self.deck@, threshold as int),
    {
        let mut count: usize = 0;
        let mut i: usize = 0;
        while i < self.deck.len()
            invariant
                i <= self.deck@.len(),
                count <= i,
                count == count_at_least_s(self.deck@.take(i as int), threshold as int),
            decreases self.deck@.len() - i,
        {
            proof {
                assert(self.deck@.take(i as int + 1).drop_last() =~= self.deck@.take(i as int));
                assert(self.deck@.take(i as int + 1).last() == self.deck@[i as int]);
            }
            if self.deck[i].interval >= threshold {
                count = count + 1;
            }
            i = i + 1;
        }
        proof {
            assert(self.deck@.take(self.deck@.len() as int) =~= self.deck@);
        }
        count
    }

    /// Number of durably known cards: those whose interval has reached the
    /// caller's maturity threshold (Q20 days).
    pub fn known_cards(&self, threshold: u64) -> (count: usize)
        ensures
            count == count_at_least_s(self.deck@, threshold as int),
    {
        self.cards_with_interval_or_greater(threshold)
    }

    /// Cards learned per hour of total study time, Q20, judged by the
    /// maturity threshold.  `None` when no time has elapsed yet: the
    /// quotient is undefined, in the way a floating-point division by
    /// zero would be non-finite, and no error is raised.
    pub fn cards_learned_per_hour(&self, threshold: u64) -> (r: Option<u64>)
        ensures
            sat_add_s(self.time_spent_on_new as int, self.time_spent_on_review as int) == 0
                ==> r is None,
            sat_add_s(self.time_spent_on_new as int, self.time_spent_on_review as int) > 0
                ==> r == Some(per_hour_s(
                    fx_from_int_s(count_at_least_s(self.deck@, threshold as int)),
                    sat_add_s(self.time_spent_on_new as int, self.time_spent_on_review as int),
                ) as u64),
    {
        let count = self.cards_with_interval_or_greater(threshold);
        let total = sat_add(self.time_spent_on_new, self.time_spent_on_review);
        if total == 0 {
            None
        } else {
            let amount = fx_from_int(count as u64);
            Some(per_hour(amount, total))
        }
    }

    /// Hours spent on reviews, Q20.
    pub fn review_time(&self) -> (r: u64)
        ensures
            r == self.time_spent_on_review / 3600,
    {
        self.time_spent_on_review / 3600
    }

    /// Hours spent on new cards, Q20.
    pub fn new_time(&self) -> (r: u64)
        ensures
            r == self.time_spent_on_new / 3600,
    {
        self.time_spent_on_new / 3600
    }

    /// Failed reviews per review, Q20; `None` before any review has
    /// happened, where the quotient is undefined.
    pub fn lapses_per_review(&self) -> (r: Option<u64>)
        ensures
            self.review_count == 0 ==> r is None,
            self.review_count > 0 ==> r == Some(
                fx_div_s(self.lapse_count as int, self.review_count as int) as u64),
    {
        if self.review_count == 0 {
            None
        } else {
            Some(fx_div(self.lapse_count, self.review_count))
        }
    }
}

/// Per-card recall probability: the global ratio plus the difficulty
/// spread times an approximately standard-normal deviate (a centred sum of
/// twelve uniform draws), clamped into `[RATIO_MIN, RATIO_MAX]`.
fn draw_ratio(rng: &mut rand::rngs::StdRng, center: u64, variance: u64) -> (r: u64)
    ensures
        RATIO_MIN <= r <= RATIO_MAX,
        variance == 0 ==> r as int == clamp_ratio_s(center as int),
{
    let mut sum: u64 = 0;
    let mut i: u64 = 0;
    while i < 12
        invariant
            i <= 12,
            sum <= i * ONE,
        decreases 12 - i,
    {
        let d = rng_below(rng, ONE);
        sum = sum + d;
        i = i + 1;
    }
    let val = if sum >= 6 * ONE {
        sat_add(center, fx_mul(variance, sum - 6 * ONE))
    } else {
        sat_sub(center, fx_mul(variance, 6 * ONE - sum))
    };
    let floored = if val >= RATIO_MIN { val } else { RATIO_MIN };
    if floored <= RATIO_MAX {
        floored
    } else {
        RATIO_MAX
    }
}

} // verus!

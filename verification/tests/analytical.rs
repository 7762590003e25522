use ankisim::anki_sim_ana::AnkiSim;
use ankisim::fx::{ONE, fx_mul, fx_div};
use ankisim::retention::retained_fraction;

#[test]
fn ana_new_has_documented_defaults() {
    let sim = AnkiSim::new();
    assert_eq!(sim.deck.len(), 0);
    assert_eq!(sim.cards_added, 0);
    assert_eq!(sim.days_past, 0);
    assert_eq!(sim.review_count, 0);
    assert_eq!(sim.lapse_count, 0);
    assert_eq!(sim.remove_lapse_count, 0);
    assert_eq!(sim.retention_ratio, 9 * ONE / 10);
    assert_eq!(sim.interval_factor, 5 * ONE / 2);
    assert_eq!(sim.lapse_interval_factor, 0);
    assert_eq!(sim.max_lapses, 8);
}

#[test]
fn ana_first_day_seed_cluster_not_due() {
    // Scenario: a fresh analytical simulator runs one day.  The seed
    // cluster (interval one day, zero days waited) is not yet due, so no
    // split happens and nothing is removed.
    let mut sim = AnkiSim::new()
        .with_interval_factor(5 * ONE / 2)
        .with_measured_retention_ratio(9 * ONE / 10, 5 * ONE / 2);
    assert_eq!(sim.retention_ratio, 9 * ONE / 10);
    sim.simulate_n_days(1);
    assert_eq!(sim.deck.len(), 1);
    assert_eq!(sim.remove_lapse_count, 0);
    assert_eq!(sim.review_count, 0);
    assert_eq!(sim.lapse_count, 0);
    assert_eq!(sim.days_past, 1);
    assert_eq!(sim.cards_added, ONE);
    assert_eq!(sim.time_spent_on_new, 90 * ONE);
    assert_eq!(sim.deck[0].days_waited, ONE);
    assert_eq!(sim.deck[0].interval, ONE);
    assert_eq!(sim.deck[0].card_count, ONE);
}

#[test]
fn ana_second_day_splits_mass_exactly() {
    let mut sim = AnkiSim::new();
    sim.simulate_n_days(2);
    // The seed cluster came due on day two and split.
    assert_eq!(sim.deck.len(), 2);
    let good = sim.deck[0];
    let lapsed = sim.deck[1];
    assert_eq!(good.card_count, fx_mul(ONE, 9 * ONE / 10));
    assert_eq!(good.interval, fx_mul(ONE, 5 * ONE / 2));
    assert_eq!(good.days_waited, 0);
    assert_eq!(good.lapses, 0);
    assert_eq!(lapsed.lapses, 1);
    assert_eq!(lapsed.interval, ONE);
    assert_eq!(lapsed.days_waited, 0);
    // Mass conservation: the two branches carry exactly the pre-split
    // mass, and nothing was removed.
    assert_eq!(good.card_count + lapsed.card_count, ONE);
    assert_eq!(sim.remove_lapse_count, 0);
    assert_eq!(sim.review_count, ONE);
    assert_eq!(sim.lapse_count, lapsed.card_count);
}

#[test]
fn ana_total_mass_is_conserved_over_a_long_run() {
    // Whatever splits happened, live mass plus removed mass equals the
    // seeded mass: one seed cluster, nothing else enters the deck.  Days
    // are run one at a time so the removed counter keeps the prototype's
    // running total instead of the population sum.
    let mut sim = AnkiSim::new().with_max_lapses(2).with_lapse_interval_factor(ONE / 2);
    for _ in 0..40 {
        sim.simulate_n_days(1);
    }
    let live: u64 = sim.deck.iter().map(|c| c.card_count).sum();
    // Conservation is exact: each split hands the rounding remainder to
    // the lapsed branch, so no unit of mass is ever lost or counted twice.
    assert_eq!(live + sim.remove_lapse_count, ONE);
    assert!(sim.deck.len() > 2);
}

#[test]
fn ana_counters_monotone_across_extensions() {
    let mut sim = AnkiSim::new().with_lapse_interval_factor(ONE / 2);
    sim.simulate_n_days(20);
    let reviews = sim.review_count;
    let lapses = sim.lapse_count;
    let removed = sim.remove_lapse_count;
    let time_review = sim.time_spent_on_review;
    sim.simulate_n_days(20);
    assert!(sim.review_count >= reviews);
    assert!(sim.lapse_count >= lapses);
    assert!(sim.remove_lapse_count >= removed);
    assert!(sim.time_spent_on_review >= time_review);
    assert_eq!(sim.days_past, 40);
}

#[test]
fn ana_max_lapses_zero_routes_mass_to_removed() {
    // With max_lapses = 0, a due cluster spawns no successor: the whole
    // lapsed mass moves to the removed counter.
    let mut sim = AnkiSim::new().with_max_lapses(0);
    sim.simulate_n_days(3);
    assert_eq!(sim.deck.len(), 1);
    assert!(sim.remove_lapse_count > 0);
    assert_eq!(sim.remove_lapse_count, sim.lapse_count);
}

#[test]
fn ana_learned_per_hour_undefined_before_any_time() {
    let sim = AnkiSim::new();
    assert_eq!(sim.cards_learned_per_hour(), None);
    assert_eq!(sim.lapses_per_review(), None);
}

#[test]
fn ana_known_cards_uses_survival_estimate() {
    let mut sim = AnkiSim::new();
    sim.simulate_n_days(2);
    let expected = fx_mul(2 * ONE, retained_fraction(9 * ONE / 10));
    assert_eq!(sim.known_cards(), Some(expected));
}

#[test]
fn ana_known_cards_undefined_for_degenerate_retention() {
    let sim = AnkiSim::new().with_measured_retention_ratio(0, 5 * ONE / 2);
    assert_eq!(sim.retention_ratio, 0);
    assert_eq!(sim.known_cards(), None);
    assert_eq!(sim.cards_learned_per_hour(), None);
}

#[test]
fn ana_lapses_per_review_exact_after_one_split() {
    let mut sim = AnkiSim::new();
    sim.simulate_n_days(2);
    let lapsed = ONE - fx_mul(ONE, 9 * ONE / 10);
    assert_eq!(sim.lapses_per_review(), Some(fx_div(lapsed, ONE)));
}

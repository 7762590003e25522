use ankisim::anki_sim::{AnkiSim, Card, review_due_card};
use ankisim::fx::{ONE, fx_mul};

#[test]
fn stoch_new_has_documented_defaults() {
    let sim = AnkiSim::new();
    assert_eq!(sim.deck.len(), 0);
    assert_eq!(sim.cards_added, 0);
    assert_eq!(sim.days_past, 0);
    assert_eq!(sim.review_count, 0);
    assert_eq!(sim.lapse_count, 0);
    assert_eq!(sim.remove_lapse_count, 0);
    assert_eq!(sim.retention_ratio, 9 * ONE / 10);
    assert_eq!(sim.interval_factor, 5 * ONE / 2);
    assert_eq!(sim.lapse_interval_factor, 0);
    assert_eq!(sim.measured_retention, (9 * ONE / 10, 5 * ONE / 2));
    assert_eq!(sim.difficulty_variance, ONE / 20);
    assert_eq!(sim.max_lapses, 8);
    assert_eq!(sim.time_per_new_card, 90 * ONE);
    assert_eq!(sim.time_per_review_card, 20 * ONE);
    assert_eq!(sim.time_per_lapsed_card, 40 * ONE);
}

#[test]
fn stoch_no_elapsed_time_makes_learned_per_hour_undefined() {
    // Scenario: a fresh simulator, zero simulated days: no time has
    // elapsed, so learned-per-hour is undefined.
    let mut sim = AnkiSim::new()
        .with_interval_factor(5 * ONE / 2)
        .with_measured_retention_ratio(9 * ONE / 10, 5 * ONE / 2)
        .with_difficulty_variance(0)
        .with_max_lapses(999999);
    sim.simulate_n_days(0, 10);
    assert_eq!(sim.cards_learned_per_hour(ONE), None);
    assert_eq!(sim.lapses_per_review(), None);
    // A full year of days that add no cards elapses no time either.
    let mut idle = AnkiSim::new()
        .with_interval_factor(5 * ONE / 2)
        .with_measured_retention_ratio(9 * ONE / 10, 5 * ONE / 2)
        .with_difficulty_variance(0)
        .with_max_lapses(999999);
    idle.simulate_n_days(365, 0);
    assert_eq!(idle.time_spent_on_new, 0);
    assert_eq!(idle.time_spent_on_review, 0);
    assert_eq!(idle.cards_learned_per_hour(ONE), None);
}

#[test]
fn stoch_add_new_cards_counts_and_shape() {
    let mut sim = AnkiSim::new();
    sim.add_new_cards(5);
    assert_eq!(sim.deck.len(), 5);
    assert_eq!(sim.cards_added, 5);
    assert_eq!(sim.time_spent_on_new, 5 * 90 * ONE);
    assert_eq!(sim.time_spent_on_review, 0);
    for card in &sim.deck {
        assert_eq!(card.interval, ONE);
        assert_eq!(card.days_waited, 0);
        assert_eq!(card.lapses, 0);
        assert!(card.retention_ratio >= ONE / 100);
        assert!(card.retention_ratio <= 99 * ONE / 100);
    }
}

#[test]
fn stoch_interval_floor_after_lapses() {
    // A lapse multiplier of zero would collapse intervals; they must stay
    // floored at one day for every card.
    let mut sim = AnkiSim::new()
        .with_measured_retention_ratio(ONE / 20, 5 * ONE / 2)
        .with_difficulty_variance(0)
        .with_lapse_interval_factor(0)
        .with_max_lapses(999999)
        .with_seed(7);
    sim.simulate_n_days(30, 5);
    assert!(sim.deck.len() > 0);
    for card in &sim.deck {
        assert!(card.interval >= ONE, "interval {} fell below one day", card.interval);
    }
    assert!(sim.lapse_count > 0);
}

#[test]
fn stoch_counters_monotone_across_extensions() {
    let mut sim = AnkiSim::new().with_seed(11);
    sim.simulate_n_days(15, 5);
    let reviews = sim.review_count;
    let lapses = sim.lapse_count;
    let removed = sim.remove_lapse_count;
    let days = sim.days_past;
    sim.simulate_n_days(15, 5);
    assert!(sim.review_count >= reviews);
    assert!(sim.lapse_count >= lapses);
    assert!(sim.remove_lapse_count >= removed);
    assert_eq!(sim.days_past, days + 15);
}

#[test]
fn stoch_max_lapses_zero_removes_on_first_failure() {
    // With max_lapses = 0 every failed review drops its card at once, so
    // every lapse is a removal.
    let mut sim = AnkiSim::new()
        .with_measured_retention_ratio(ONE / 50, 5 * ONE / 2)
        .with_difficulty_variance(0)
        .with_max_lapses(0)
        .with_seed(3);
    sim.add_new_cards(50);
    sim.simulate_day();
    sim.simulate_day();
    assert!(sim.remove_lapse_count > 0);
    assert_eq!(sim.remove_lapse_count, sim.lapse_count);
    assert_eq!(sim.deck.len() as u64, 50 - sim.remove_lapse_count);
}

#[test]
fn stoch_known_cards_counts_threshold() {
    let mut sim = AnkiSim::new();
    sim.add_new_cards(7);
    assert_eq!(sim.known_cards(ONE), 7);
    assert_eq!(sim.known_cards(ONE + 1), 0);
    assert_eq!(sim.known_cards(0), 7);
}

#[test]
fn stoch_successful_reviews_grow_intervals() {
    // With a very high retention ratio some reviews must succeed, which
    // multiplies intervals beyond their starting day.  This fails if the
    // random draw were not a genuine value below its bound.
    let mut sim = AnkiSim::new()
        .with_measured_retention_ratio(99 * ONE / 100, 5 * ONE / 2)
        .with_difficulty_variance(0)
        .with_seed(5);
    sim.add_new_cards(40);
    sim.simulate_n_days(4, 0);
    assert!(sim.known_cards(2 * ONE) > 0);
    assert!(sim.review_count > 0);
}

#[test]
fn stoch_same_seed_replays_identically() {
    let mut a = AnkiSim::new().with_seed(42);
    let mut b = AnkiSim::new().with_seed(42);
    a.simulate_n_days(20, 3);
    b.simulate_n_days(20, 3);
    assert_eq!(a.review_count, b.review_count);
    assert_eq!(a.lapse_count, b.lapse_count);
    assert_eq!(a.remove_lapse_count, b.remove_lapse_count);
    assert_eq!(a.deck.len(), b.deck.len());
}

#[test]
fn review_transition_removes_at_max_lapses() {
    let mut card = Card { interval: ONE, days_waited: ONE, retention_ratio: ONE / 2, lapses: 0 };
    // With a maximum of zero, the first failure removes the card.
    let removed = review_due_card(&mut card, false, 0, 5 * ONE / 2, ONE / 2, 0);
    assert!(removed);
    assert_eq!(card.lapses, 0);
    assert_eq!(card.interval, ONE);
    // Below the maximum the same failure only lapses the card, and the
    // shrunken interval is floored at one day.
    let removed2 = review_due_card(&mut card, false, 0, 5 * ONE / 2, ONE / 2, 8);
    assert!(!removed2);
    assert_eq!(card.lapses, 1);
    assert_eq!(card.interval, ONE);
    assert_eq!(card.days_waited, 0);
}

#[test]
fn review_transition_good_answer_grows_interval() {
    let mut card =
        Card { interval: 2 * ONE, days_waited: 2 * ONE, retention_ratio: ONE / 2, lapses: 3 };
    let jitter = 12345u64;
    let removed = review_due_card(&mut card, true, jitter, 5 * ONE / 2, 0, 8);
    assert!(!removed);
    // The grown interval is 5 days, lowered by a tenth and raised by the
    // drawn jitter.
    let grown = 5 * ONE;
    assert_eq!(card.interval, grown - fx_mul(grown, ONE / 10) + jitter);
    assert_eq!(card.lapses, 3);
    assert_eq!(card.days_waited, 0);
}

#[test]
fn stoch_review_and_new_time_in_hours() {
    let mut sim = AnkiSim::new().with_difficulty_variance(0);
    sim.add_new_cards(40);
    // 40 cards at 90 s each: one hour of new-card time.
    assert_eq!(sim.new_time(), ONE);
    assert_eq!(sim.review_time(), 0);
}

#[test]
fn stoch_zero_variance_cards_are_deterministic() {
    // With zero difficulty variance the normal draw degenerates to its
    // mean: every card gets exactly the clamped global ratio.
    let mut sim = AnkiSim::new().with_difficulty_variance(0);
    sim.add_new_cards(6);
    for card in &sim.deck {
        assert_eq!(card.retention_ratio, 9 * ONE / 10);
    }
    // A degenerate global ratio is clamped into the permitted band.
    let mut low = AnkiSim::new()
        .with_measured_retention_ratio(1, 5 * ONE / 2)
        .with_difficulty_variance(0);
    low.add_new_cards(3);
    for card in &low.deck {
        assert_eq!(card.retention_ratio, ONE / 100);
    }
}

use ankisim::anki_sim::AnkiSim as StochSim;
use ankisim::anki_sim_ana::AnkiSim as AnaSim;
use ankisim::fx::ONE;

fn as_float(v: u64) -> f64 {
    v as f64 / ONE as f64
}

#[test]
fn engines_agree_on_learned_per_hour() {
    // Both engines, configured identically, simulate one year.  The
    // stochastic engine adds a fixed batch of cards per day and averages
    // per card; the analytical engine adds one abstract unit per day.
    // The two maturity statistics differ by construction (a threshold
    // count against an asymptotic survival estimate), so the comparison
    // runs at a calibrated threshold and a bounded relative tolerance.
    let days = 365u32;
    let per_day = 20u32;

    let mut ana = AnaSim::new()
        .with_interval_factor(5 * ONE / 2)
        .with_measured_retention_ratio(9 * ONE / 10, 5 * ONE / 2)
        .with_lapse_interval_factor(ONE / 2)
        .with_max_lapses(8);
    ana.simulate_n_days(days);
    let ana_rate = as_float(ana.cards_learned_per_hour().unwrap());

    let mut stoch = StochSim::new()
        .with_interval_factor(5 * ONE / 2)
        .with_measured_retention_ratio(9 * ONE / 10, 5 * ONE / 2)
        .with_lapse_interval_factor(ONE / 2)
        .with_difficulty_variance(0)
        .with_max_lapses(8)
        .with_seed(1);
    stoch.simulate_n_days(days, per_day);

    let stoch_rate = as_float(stoch.cards_learned_per_hour(8 * ONE).unwrap());

    let diff = (ana_rate - stoch_rate).abs() / ana_rate;
    assert!(
        diff <= 0.05,
        "engines disagree: analytical {:.4}, stochastic {:.4}, relative difference {:.4}",
        ana_rate,
        stoch_rate,
        diff
    );
}

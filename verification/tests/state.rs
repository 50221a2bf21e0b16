use rosu_pp::OsuScoreState;

#[test]
fn state_new_is_empty() {
    let state = OsuScoreState::new();

    assert_eq!(state.max_combo, 0);
    assert_eq!(state.total_hits(), 0);
}

#[test]
fn state_total_hits_adds_everything_up() {
    let state = OsuScoreState {
        max_combo: 500,
        n300: 300,
        n100: 20,
        n50: 279,
        n_misses: 2,
    };

    assert_eq!(state.total_hits(), 601);
}

#[test]
fn state_accuracy_fraction_is_exact() {
    let state = OsuScoreState {
        max_combo: 500,
        n300: 300,
        n100: 20,
        n50: 279,
        n_misses: 2,
    };

    // 6*300 + 2*20 + 279 = 2119 out of 6*601 = 3606 points.
    assert_eq!(state.accuracy_fraction(), (2119, 3606));
    let (num, den) = state.accuracy_fraction();
    let acc = num as f64 / den as f64;
    assert!((acc - 0.587632).abs() < 1e-6);
}

#[test]
fn state_accuracy_fraction_of_empty_state() {
    let state = OsuScoreState::new();

    assert_eq!(state.accuracy_fraction(), (0, 0));
}

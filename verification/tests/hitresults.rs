use rosu_pp::{HitResultPriority, OsuScoreState, ScoreStateBuilder};

// Object count and maximum combo of the reference map the expected values
// below were computed on: 307 circles, 293 sliders, 1 spinner.
const MAP_OBJECTS: usize = 601;
const MAP_MAX_COMBO: usize = 909;

fn accuracy_percent(state: &OsuScoreState) -> f64 {
    let (num, den) = state.accuracy_fraction();
    if den == 0 {
        return 0.0;
    }
    100.0 * num as f64 / den as f64
}

#[test]
fn osu_only_accuracy() {
    let total_objects = 1234;
    let target_acc = 97.5_f32;

    let state = ScoreStateBuilder::new()
        .passed_objects(total_objects)
        .accuracy_hundredths(9750)
        .generate_hitresults(0, 0);

    let numerator = 6 * state.n300 + 2 * state.n100 + state.n50;
    let denominator = 6 * total_objects;
    let acc = 100.0 * numerator as f32 / denominator as f32;

    assert!(
        (target_acc - acc).abs() < 1.0,
        "Expected: {} | Actual: {}",
        target_acc,
        acc
    );
}

#[test]
fn osu_accuracy_and_n50() {
    let total_objects = 1234;
    let target_acc = 97.5_f32;
    let n50 = 30;

    let state = ScoreStateBuilder::new()
        .passed_objects(total_objects)
        .n50(n50)
        .accuracy_hundredths(9750)
        .generate_hitresults(0, 0);

    assert!(
        (state.n50 as i32 - n50 as i32).abs() <= 4,
        "Expected: {} | Actual: {}",
        n50,
        state.n50
    );

    let numerator = 6 * state.n300 + 2 * state.n100 + state.n50;
    let denominator = 6 * total_objects;
    let acc = 100.0 * numerator as f32 / denominator as f32;

    assert!(
        (target_acc - acc).abs() < 1.0,
        "Expected: {} | Actual: {}",
        target_acc,
        acc
    );
}

#[test]
fn osu_missing_objects() {
    let total_objects = 1234;
    let n300 = 1000;
    let n100 = 200;
    let n50 = 30;

    let state = ScoreStateBuilder::new()
        .passed_objects(total_objects)
        .n300(n300)
        .n100(n100)
        .n50(n50)
        .generate_hitresults(0, 0);

    let n_objects = state.n300 + state.n100 + state.n50 + state.n_misses;

    assert_eq!(
        total_objects, n_objects,
        "Expected: {} | Actual: {}",
        total_objects, n_objects
    );
}

#[test]
fn hitresults_n300_n100_n_misses_best() {
    let state = ScoreStateBuilder::new()
        .combo(500)
        .n300(300)
        .n100(20)
        .misses(2)
        .hitresult_priority(HitResultPriority::BestCase)
        .generate_hitresults(MAP_OBJECTS, MAP_MAX_COMBO);

    let expected = OsuScoreState {
        max_combo: 500,
        n300: 300,
        n100: 20,
        n50: 279,
        n_misses: 2,
    };

    assert_eq!(state, expected);
}

#[test]
fn hitresults_n300_n50_n_misses_best() {
    let state = ScoreStateBuilder::new()
        .combo(500)
        .n300(300)
        .n50(10)
        .misses(2)
        .hitresult_priority(HitResultPriority::BestCase)
        .generate_hitresults(MAP_OBJECTS, MAP_MAX_COMBO);

    let expected = OsuScoreState {
        max_combo: 500,
        n300: 300,
        n100: 289,
        n50: 10,
        n_misses: 2,
    };

    assert_eq!(state, expected);
}

#[test]
fn hitresults_n50_n_misses_worst() {
    let state = ScoreStateBuilder::new()
        .combo(500)
        .n50(10)
        .misses(2)
        .hitresult_priority(HitResultPriority::WorstCase)
        .generate_hitresults(MAP_OBJECTS, MAP_MAX_COMBO);

    let expected = OsuScoreState {
        max_combo: 500,
        n300: 0,
        n100: 589,
        n50: 10,
        n_misses: 2,
    };

    assert_eq!(state, expected);
}

#[test]
fn hitresults_n300_n100_n50_n_misses_worst() {
    let state = ScoreStateBuilder::new()
        .combo(500)
        .n300(300)
        .n100(50)
        .n50(10)
        .misses(2)
        .hitresult_priority(HitResultPriority::WorstCase)
        .generate_hitresults(MAP_OBJECTS, MAP_MAX_COMBO);

    let expected = OsuScoreState {
        max_combo: 500,
        n300: 300,
        n100: 50,
        n50: 249,
        n_misses: 2,
    };

    assert_eq!(state, expected);
}

#[test]
fn hitresults_acc_n_misses_best() {
    let state = ScoreStateBuilder::new()
        .combo(500)
        .accuracy_hundredths(9800)
        .misses(2)
        .hitresult_priority(HitResultPriority::BestCase)
        .generate_hitresults(MAP_OBJECTS, MAP_MAX_COMBO);

    let expected = OsuScoreState {
        max_combo: 500,
        n300: 584,
        n100: 15,
        n50: 0,
        n_misses: 2,
    };

    assert_eq!(
        state,
        expected,
        "{}% vs {}%",
        accuracy_percent(&state),
        accuracy_percent(&expected)
    );
}

#[test]
fn hitresults_acc_n100_n_misses_best() {
    let state = ScoreStateBuilder::new()
        .combo(500)
        .accuracy_hundredths(9500)
        .n100(15)
        .misses(2)
        .hitresult_priority(HitResultPriority::BestCase)
        .generate_hitresults(MAP_OBJECTS, MAP_MAX_COMBO);

    let expected = OsuScoreState {
        max_combo: 500,
        n300: 562,
        n100: 15,
        n50: 22,
        n_misses: 2,
    };

    assert_eq!(
        state,
        expected,
        "{}% vs {}%",
        accuracy_percent(&state),
        accuracy_percent(&expected)
    );
}

#[test]
fn hitresults_acc_n50_n_misses_best() {
    let state = ScoreStateBuilder::new()
        .combo(500)
        .accuracy_hundredths(9500)
        .n50(10)
        .misses(2)
        .hitresult_priority(HitResultPriority::BestCase)
        .generate_hitresults(MAP_OBJECTS, MAP_MAX_COMBO);

    let expected = OsuScoreState {
        max_combo: 500,
        n300: 560,
        n100: 29,
        n50: 10,
        n_misses: 2,
    };

    assert_eq!(
        state,
        expected,
        "{}% vs {}%",
        accuracy_percent(&state),
        accuracy_percent(&expected)
    );
}

#[test]
fn hitresults_acc_best() {
    let state = ScoreStateBuilder::new()
        .combo(500)
        .accuracy_hundredths(9000)
        .hitresult_priority(HitResultPriority::BestCase)
        .generate_hitresults(MAP_OBJECTS, MAP_MAX_COMBO);

    let expected = OsuScoreState {
        max_combo: 500,
        n300: 511,
        n100: 89,
        n50: 1,
        n_misses: 0,
    };

    assert_eq!(
        state,
        expected,
        "{}% vs {}%",
        accuracy_percent(&state),
        accuracy_percent(&expected)
    );
}

#[test]
fn hitresults_acc_worst() {
    let state = ScoreStateBuilder::new()
        .combo(500)
        .accuracy_hundredths(9000)
        .hitresult_priority(HitResultPriority::WorstCase)
        .generate_hitresults(MAP_OBJECTS, MAP_MAX_COMBO);

    let expected = OsuScoreState {
        max_combo: 500,
        n300: 528,
        n100: 4,
        n50: 69,
        n_misses: 0,
    };

    assert_eq!(
        state,
        expected,
        "{}% vs {}%",
        accuracy_percent(&state),
        accuracy_percent(&expected)
    );
}

#[test]
fn hitresults_empty_map() {
    let state = ScoreStateBuilder::new()
        .accuracy_hundredths(9750)
        .generate_hitresults(0, 0);

    let expected = OsuScoreState {
        max_combo: 0,
        n300: 0,
        n100: 0,
        n50: 0,
        n_misses: 0,
    };

    assert_eq!(state, expected);
}

#[test]
fn hitresults_misses_capped_at_objects() {
    let state = ScoreStateBuilder::new()
        .misses(20)
        .generate_hitresults(10, 50);

    assert_eq!(state.n_misses, 10);
    assert_eq!(state.n300 + state.n100 + state.n50 + state.n_misses, 10);
}

#[test]
fn hitresults_largest_supported_map() {
    let n = 0x1000_0000;

    let state = ScoreStateBuilder::new()
        .passed_objects(n)
        .accuracy_hundredths(5000)
        .generate_hitresults(0, 0);

    assert_eq!(state.n300 + state.n100 + state.n50 + state.n_misses, n);
    let acc = accuracy_percent(&state);
    assert!((acc - 50.0).abs() <= 1.0, "{}% vs 50%", acc);
}

#[test]
fn hitresults_fill_best_beats_worst_n300() {
    let best = ScoreStateBuilder::new()
        .n100(30)
        .misses(5)
        .hitresult_priority(HitResultPriority::BestCase)
        .generate_hitresults(MAP_OBJECTS, MAP_MAX_COMBO);
    let worst = ScoreStateBuilder::new()
        .n100(30)
        .misses(5)
        .hitresult_priority(HitResultPriority::WorstCase)
        .generate_hitresults(MAP_OBJECTS, MAP_MAX_COMBO);

    assert_eq!(best.n300, 566);
    assert_eq!(worst.n300, 0);
    assert_eq!(worst.n50, 566);
    assert!(best.n300 >= worst.n300);
}

#[test]
fn hitresults_acc_free_best_trades_n300_away() {
    let best = ScoreStateBuilder::new()
        .accuracy_hundredths(9000)
        .hitresult_priority(HitResultPriority::BestCase)
        .generate_hitresults(MAP_OBJECTS, MAP_MAX_COMBO);
    let worst = ScoreStateBuilder::new()
        .accuracy_hundredths(9000)
        .hitresult_priority(HitResultPriority::WorstCase)
        .generate_hitresults(MAP_OBJECTS, MAP_MAX_COMBO);

    let best_points = 6 * best.n300 + 2 * best.n100 + best.n50;
    let worst_points = 6 * worst.n300 + 2 * worst.n100 + worst.n50;
    assert_eq!(best_points, worst_points);
    assert!(best.n300 <= worst.n300);
}

#[test]
fn hitresults_acc_two_fixed_fills_rest() {
    let state = ScoreStateBuilder::new()
        .combo(500)
        .accuracy_hundredths(9500)
        .n300(550)
        .n100(20)
        .misses(2)
        .hitresult_priority(HitResultPriority::BestCase)
        .generate_hitresults(MAP_OBJECTS, MAP_MAX_COMBO);

    // With 300s and 100s fixed, the 50s are forced to the remainder
    // regardless of the requested accuracy.
    let expected = OsuScoreState {
        max_combo: 500,
        n300: 550,
        n100: 20,
        n50: 29,
        n_misses: 2,
    };

    assert_eq!(state, expected);
}

#[test]
fn hitresults_accuracy_sweep_stays_close() {
    let total_objects = 500;
    let mut acc = 2000_u32;

    while acc <= 10000 {
        let state = ScoreStateBuilder::new()
            .passed_objects(total_objects)
            .accuracy_hundredths(acc)
            .generate_hitresults(0, 0);

        let resolved = accuracy_percent(&state);
        let target = acc as f64 / 100.0;

        assert!(
            (resolved - target).abs() <= 1.0,
            "Expected: {} | Actual: {}",
            target,
            resolved
        );

        acc += 500;
    }
}

#[test]
fn hitresults_max_combo_defaults_to_map() {
    let state = ScoreStateBuilder::new().generate_hitresults(MAP_OBJECTS, MAP_MAX_COMBO);

    assert_eq!(state.max_combo, MAP_MAX_COMBO);
    assert_eq!(state.n300, MAP_OBJECTS);
}

use grammar2d::session::{
    help_line, key_action, status_line, AppState, KeyAction, RewardAccumulator, NUM_DERIVATIONS_PER_TICK,
};

#[test]
fn keys_map_to_driver_actions() {
    assert_eq!(key_action(' '), KeyAction::TogglePause);
    assert_eq!(key_action('B'), KeyAction::Derive { repeats: 1, counts_time: true });
    assert_eq!(
        key_action('T'),
        KeyAction::Derive { repeats: NUM_DERIVATIONS_PER_TICK, counts_time: false }
    );
    assert_eq!(key_action('x'), KeyAction::Derive { repeats: 1, counts_time: false });
}

#[test]
fn pause_toggles() {
    assert_eq!(AppState::Paused.toggled(), AppState::Running);
    assert_eq!(AppState::Running.toggled(), AppState::Paused);
}

#[test]
fn totals_accumulate_and_print() {
    let mut a = RewardAccumulator::new();
    a.record(5, 0);
    a.record(-12, 2);
    a.count_time();
    assert_eq!(a, RewardAccumulator { score: -7, time: 1, errors: 2 });
    assert_eq!(a.message(), "Score: -7 Time: 1 Errors: 2");
}

#[test]
fn totals_saturate() {
    let mut a = RewardAccumulator { score: i64::MAX - 1, time: i64::MAX, errors: i64::MIN + 1 };
    a.record(10, -10);
    a.count_time();
    assert_eq!(a, RewardAccumulator { score: i64::MAX, time: i64::MAX, errors: i64::MIN });
}

#[test]
fn help_line_is_padded_to_the_row() {
    assert_eq!(help_line("Hi", 6), " Hi   ");
    assert_eq!(help_line("Hello", 3), " Hello");
}

#[test]
fn status_line_puts_rule_on_the_right() {
    assert_eq!(status_line("Score: 1", "sATX", 20), " Score: 1      sATX ");
    assert_eq!(status_line("Score: 1", "sATX", 5), " Score: 1sATX ");
}

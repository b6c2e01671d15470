use arch_aim_trainer::stats::{SessionStats, COMBO_CAP};

// The counters behind the session's accuracy and average reaction: the
// percentages and the reaction-time average are computed from them in
// floating point by the program.
#[test]
fn shot_accuracy_and_combo_are_consistent() {
    let mut stats = SessionStats::new("test");
    stats.register_shot();
    assert_eq!(stats.register_hit(), 1);
    stats.register_shot();
    stats.register_miss();
    assert_eq!(stats.hits, 1);
    assert_eq!(stats.best_combo, 1);
    assert_eq!(stats.combo, 0);
    assert_eq!(stats.shots, 2);
    assert_eq!(stats.reaction_samples, 1);
    assert_eq!(stats.hits as f32 / stats.shots as f32 * 100.0, 50.0);
}

#[test]
fn new_session_starts_at_zero() {
    let stats = SessionStats::new("Static Flick");
    assert_eq!(stats.scenario, "Static Flick");
    assert_eq!(
        (stats.score, stats.shots, stats.hits, stats.combo, stats.best_combo, stats.reaction_samples),
        (0, 0, 0, 0, 0, 0)
    );
}

#[test]
fn combo_multiplier_steps_stop_at_the_cap() {
    let mut stats = SessionStats::new("cap");
    let mut last = 0;
    for expected in 1..=25u32 {
        last = stats.register_hit();
        assert_eq!(last, expected.min(COMBO_CAP));
    }
    assert_eq!(last, 20);
    assert_eq!(stats.combo, 25);
    assert_eq!(stats.best_combo, 25);
}

#[test]
fn a_miss_breaks_the_combo_but_keeps_the_best() {
    let mut stats = SessionStats::new("miss");
    stats.register_hit();
    stats.register_hit();
    stats.register_miss();
    stats.register_hit();
    assert_eq!(stats.combo, 1);
    assert_eq!(stats.best_combo, 2);
    assert_eq!(stats.hits, 3);
}

#[test]
fn tracking_contact_extends_the_combo_and_saturates() {
    let mut stats = SessionStats::new("track");
    stats.register_contact();
    stats.register_contact();
    assert_eq!(stats.combo, 2);
    assert_eq!(stats.best_combo, 2);
    assert_eq!(stats.hits, 0);
    stats.combo = u32::MAX;
    stats.best_combo = u32::MAX;
    stats.register_contact();
    assert_eq!(stats.combo, u32::MAX);
}

#[test]
fn score_adds_points() {
    let mut stats = SessionStats::new("score");
    stats.add_score(750);
    stats.add_score(17);
    assert_eq!(stats.score, 767);
}

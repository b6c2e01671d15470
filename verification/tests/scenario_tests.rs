use arch_aim_trainer::scenario::{nearest_hit_index, resolve_projectile_hits, ScenarioKind, SCENARIO_COUNT};

#[test]
fn scenarios_are_listed_in_menu_order() {
    assert_eq!(ScenarioKind::ALL.len(), SCENARIO_COUNT);
    for (index, kind) in ScenarioKind::ALL.iter().enumerate() {
        assert_eq!(ScenarioKind::from_index(index), *kind);
    }
}

#[test]
fn scenario_texts() {
    assert_eq!(ScenarioKind::StaticFlick.name(), "Static Flick");
    assert_eq!(ScenarioKind::SmoothTrack.name(), "Smooth Track");
    assert_eq!(ScenarioKind::TargetSwitch.name(), "Target Switch");
    assert_eq!(ScenarioKind::ProjectileLead.name(), "Projectile Lead");
    assert_eq!(
        ScenarioKind::TargetSwitch.subtitle(),
        "Transfer cleanly between several moving threats"
    );
    assert_eq!(ScenarioKind::SmoothTrack.instructions(), "Hold mouse 1 on the target");
    assert_eq!(
        ScenarioKind::ProjectileLead.instructions(),
        "Click to fire  |  L toggles lead guide"
    );
    assert_eq!(
        ScenarioKind::StaticFlick.instructions(),
        "Click targets as quickly and cleanly as possible"
    );
    assert_eq!(ScenarioKind::TargetSwitch.instructions(), ScenarioKind::StaticFlick.instructions());
}

#[test]
fn every_scenario_has_at_least_one_target() {
    let counts: Vec<usize> = ScenarioKind::ALL.iter().map(|kind| kind.target_count()).collect();
    assert_eq!(counts, vec![6, 1, 5, 3]);
    assert!(counts.iter().all(|count| *count >= 1));
}

#[test]
fn scenario_rules() {
    assert!(ScenarioKind::SmoothTrack.is_tracking());
    assert!(!ScenarioKind::ProjectileLead.is_tracking());
    assert!(ScenarioKind::ProjectileLead.uses_projectiles());
    assert!(!ScenarioKind::StaticFlick.uses_projectiles());
    let points: Vec<u64> = ScenarioKind::ALL.iter().map(|kind| kind.base_points()).collect();
    assert_eq!(points, vec![150, 0, 180, 240]);
}

#[test]
fn nearest_hit_is_the_smallest_key() {
    assert_eq!(nearest_hit_index(&vec![Some(30), None, Some(10), Some(20)]), Some(2));
    assert_eq!(nearest_hit_index(&vec![None, Some(-5), Some(4)]), Some(1));
}

#[test]
fn nearest_hit_prefers_the_first_of_equals() {
    assert_eq!(nearest_hit_index(&vec![None, Some(7), Some(7), Some(9)]), Some(1));
}

#[test]
fn no_hit_when_the_ray_meets_nothing() {
    assert_eq!(nearest_hit_index(&vec![None, None]), None);
    assert_eq!(nearest_hit_index(&Vec::new()), None);
}

#[test]
fn a_target_is_struck_by_one_projectile_per_frame() {
    let expired = vec![false, false];
    let collides = vec![vec![true, false], vec![true, false]];
    let out = resolve_projectile_hits(&expired, &collides, 2);
    assert_eq!(out.hits, vec![(0, 0)]);
    assert_eq!(out.hit_targets, vec![true, false]);
    assert_eq!(out.keep, vec![false, true]);
    assert_eq!(out.expired_projectiles, 0);
}

#[test]
fn a_later_projectile_takes_the_next_free_target() {
    let expired = vec![false, false, false];
    let collides = vec![vec![false, true, true], vec![false, true, true], vec![true, false, false]];
    let out = resolve_projectile_hits(&expired, &collides, 3);
    assert_eq!(out.hits, vec![(0, 1), (1, 2), (2, 0)]);
    assert_eq!(out.hit_targets, vec![true, true, true]);
    assert_eq!(out.keep, vec![false, false, false]);
}

#[test]
fn expired_projectiles_are_dropped_without_hitting() {
    let expired = vec![true, false, true];
    let collides = vec![vec![true], vec![false], vec![true]];
    let out = resolve_projectile_hits(&expired, &collides, 1);
    assert!(out.hits.is_empty());
    assert_eq!(out.hit_targets, vec![false]);
    assert_eq!(out.keep, vec![false, true, false]);
    assert_eq!(out.expired_projectiles, 2);
}

#[test]
fn no_projectiles_no_events() {
    let out = resolve_projectile_hits(&Vec::new(), &Vec::new(), 3);
    assert!(out.hits.is_empty());
    assert_eq!(out.hit_targets, vec![false, false, false]);
    assert!(out.keep.is_empty());
    assert_eq!(out.expired_projectiles, 0);
}

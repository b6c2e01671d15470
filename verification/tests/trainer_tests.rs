use arch_aim_trainer::scenario::ScenarioKind;
use arch_aim_trainer::trainer::{
    menu_step, paused_step, playing_step, results_step, MenuKeys, PausedAction, PlayingKeys, PlayingOutcome,
    ResultsAction, TriggerAction,
};

fn no_menu_keys() -> MenuKeys {
    MenuKeys {
        quit: false,
        digits: [false; 4],
        up: false,
        down: false,
        tuning: false,
        lead_guide: false,
        start: false,
    }
}

fn no_playing_keys() -> PlayingKeys {
    PlayingKeys { escape: false, restart: false, lead_guide: false, fire_held: false, fire_pressed: false }
}

#[test]
fn quitting_ignores_the_rest_of_the_frame() {
    let keys = MenuKeys { quit: true, digits: [false, false, true, false], tuning: true, start: true, ..no_menu_keys() };
    let out = menu_step(1, true, keys);
    assert!(out.quit);
    assert_eq!(out.selected, 1);
    assert!(out.lead_guide);
    assert!(!out.save_settings);
    assert!(!out.start_session);
}

#[test]
fn number_keys_select_the_highest_pressed() {
    let keys = MenuKeys { digits: [true, true, false, false], ..no_menu_keys() };
    assert_eq!(menu_step(3, false, keys).selected, 1);
    let keys = MenuKeys { digits: [false, false, false, true], ..no_menu_keys() };
    assert_eq!(menu_step(0, false, keys).selected, 3);
}

#[test]
fn up_and_down_wrap_around_the_menu() {
    assert_eq!(menu_step(0, false, MenuKeys { up: true, ..no_menu_keys() }).selected, 3);
    assert_eq!(menu_step(3, false, MenuKeys { down: true, ..no_menu_keys() }).selected, 0);
    assert_eq!(menu_step(2, false, MenuKeys { up: true, down: true, ..no_menu_keys() }).selected, 2);
    assert_eq!(menu_step(1, false, MenuKeys { down: true, ..no_menu_keys() }).selected, 2);
}

#[test]
fn tuning_and_lead_toggle_are_saved() {
    let out = menu_step(0, true, MenuKeys { lead_guide: true, ..no_menu_keys() });
    assert!(!out.lead_guide);
    assert!(out.save_settings);
    let out = menu_step(0, true, MenuKeys { tuning: true, ..no_menu_keys() });
    assert!(out.lead_guide);
    assert!(out.save_settings);
    let out = menu_step(0, true, no_menu_keys());
    assert!(!out.save_settings);
    assert!(!out.start_session);
    assert!(!out.quit);
}

#[test]
fn enter_starts_a_session() {
    let out = menu_step(2, false, MenuKeys { start: true, ..no_menu_keys() });
    assert!(out.start_session);
    assert_eq!(out.selected, 2);
}

#[test]
fn escape_pauses_and_resumes() {
    let keys = PlayingKeys { escape: true, restart: true, fire_pressed: true, ..no_playing_keys() };
    assert_eq!(playing_step(ScenarioKind::StaticFlick, true, keys), PlayingOutcome::Pause);
    assert_eq!(paused_step(false, true, true, true), PausedAction::Resume);
    assert_eq!(paused_step(true, false, false, false), PausedAction::Resume);
}

#[test]
fn pause_screen_restarts_or_returns_to_menu() {
    assert_eq!(paused_step(false, false, true, true), PausedAction::Restart);
    assert_eq!(paused_step(false, false, false, true), PausedAction::ToMenu);
    assert_eq!(paused_step(false, false, false, false), PausedAction::Stay);
}

#[test]
fn results_screen_runs_again_or_returns_to_menu() {
    assert_eq!(results_step(true, false, false, false), ResultsAction::Restart);
    assert_eq!(results_step(false, true, true, false), ResultsAction::Restart);
    assert_eq!(results_step(false, false, false, true), ResultsAction::ToMenu);
    assert_eq!(results_step(false, false, true, false), ResultsAction::ToMenu);
    assert_eq!(results_step(false, false, false, false), ResultsAction::Stay);
}

#[test]
fn restart_key_restarts_during_play() {
    let keys = PlayingKeys { restart: true, ..no_playing_keys() };
    assert_eq!(playing_step(ScenarioKind::TargetSwitch, false, keys), PlayingOutcome::Restart);
}

#[test]
fn tracking_scores_while_the_trigger_is_held() {
    let held = PlayingKeys { fire_held: true, ..no_playing_keys() };
    assert_eq!(
        playing_step(ScenarioKind::SmoothTrack, true, held),
        PlayingOutcome::Run { lead_guide: true, save_settings: false, trigger: TriggerAction::Track }
    );
    let pressed = PlayingKeys { fire_pressed: true, ..no_playing_keys() };
    assert_eq!(
        playing_step(ScenarioKind::SmoothTrack, true, pressed),
        PlayingOutcome::Run { lead_guide: true, save_settings: false, trigger: TriggerAction::Idle }
    );
}

#[test]
fn clicks_fire_rays_or_projectiles() {
    let pressed = PlayingKeys { fire_pressed: true, fire_held: true, ..no_playing_keys() };
    assert_eq!(
        playing_step(ScenarioKind::StaticFlick, false, pressed),
        PlayingOutcome::Run { lead_guide: false, save_settings: false, trigger: TriggerAction::FireHitscan }
    );
    assert_eq!(
        playing_step(ScenarioKind::ProjectileLead, false, pressed),
        PlayingOutcome::Run { lead_guide: false, save_settings: false, trigger: TriggerAction::FireProjectile }
    );
    let held = PlayingKeys { fire_held: true, ..no_playing_keys() };
    assert_eq!(
        playing_step(ScenarioKind::TargetSwitch, false, held),
        PlayingOutcome::Run { lead_guide: false, save_settings: false, trigger: TriggerAction::Idle }
    );
}

#[test]
fn lead_guide_toggles_only_in_the_projectile_drill() {
    let keys = PlayingKeys { lead_guide: true, ..no_playing_keys() };
    assert_eq!(
        playing_step(ScenarioKind::ProjectileLead, true, keys),
        PlayingOutcome::Run { lead_guide: false, save_settings: true, trigger: TriggerAction::Idle }
    );
    assert_eq!(
        playing_step(ScenarioKind::StaticFlick, true, keys),
        PlayingOutcome::Run { lead_guide: true, save_settings: false, trigger: TriggerAction::Idle }
    );
}

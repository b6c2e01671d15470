//! The trainer's screens and the decisions taken on each frame's input.
//!
//! Each function here maps the keys pressed on one frame to what the trainer
//! does next; the caller performs the effects (moving the cursor grab,
//! writing settings, building a new arena).
use vstd::prelude::*;
use crate::scenario::{ScenarioKind, SCENARIO_COUNT};

verus! {

/// The screen the trainer shows.
#[derive(Clone, Copy, Debug, PartialEq, Eq, Structural)]
pub enum Mode {
    Menu,
    Playing,
    Paused,
    Results,
}

/// Keys pressed on the menu during one frame.
#[derive(Clone, Copy, Debug)]
pub struct MenuKeys {
    /// `Q`.
    pub quit: bool,
    /// `1` to `4`.
    pub digits: [bool; 4],
    pub up: bool,
    pub down: bool,
    /// Any of the tuning keys `Z X C V B N G H J K`.
    pub tuning: bool,
    /// `L`.
    pub lead_guide: bool,
    /// `Enter`.
    pub start: bool,
}

/// What the menu does with one frame's keys.
#[derive(Clone, Copy, Debug)]
pub struct MenuOutcome {
    /// Leave the trainer; nothing else of the frame applies.
    pub quit: bool,
    /// Menu position selected after the frame.
    pub selected: usize,
    /// Lead-guide setting after the frame.
    pub lead_guide: bool,
    /// Whether the settings changed and are to be written.
    pub save_settings: bool,
    /// Whether a session starts with the selected scenario.
    pub start_session: bool,
}

/// Selection after the number keys: the highest number pressed wins.
pub open spec fn select_by_digits(selected: int, digits: Seq<bool>) -> int {
    if digits[3] {
        3
    } else if digits[2] {
        2
    } else if digits[1] {
        1
    } else if digits[0] {
        0
    } else {
        selected
    }
}

/// One step up the menu, wrapping from the first entry to the last.
pub open spec fn step_up(selected: int) -> int {
    if selected == 0 {
        SCENARIO_COUNT - 1
    } else {
        selected - 1
    }
}

/// One step down the menu, wrapping from the last entry to the first.
pub open spec fn step_down(selected: int) -> int {
    (selected + 1) % (SCENARIO_COUNT as int)
}

/// Selection after one frame of menu keys: number keys, then `Up`, then
/// `Down`.
pub open spec fn menu_selection(selected: int, keys: MenuKeys) -> int {
    let a = select_by_digits(selected, keys.digits@);
    let b = if keys.up { step_up(a) } else { a };
    if keys.down { step_down(b) } else { b }
}

/// Handles one frame of menu input.
pub fn menu_step(selected: usize, lead_guide: bool, keys: MenuKeys) -> (out: MenuOutcome)
    requires
        selected < SCENARIO_COUNT,
    ensures
        out.quit == keys.quit,
        keys.quit ==> out.selected == selected && out.lead_guide == lead_guide && !out.save_settings
            && !out.start_session,
        !keys.quit ==> {
            &&& out.selected == menu_selection(selected as int, keys)
            &&& out.lead_guide == (lead_guide != keys.lead_guide)
            &&& out.save_settings == (keys.tuning || keys.lead_guide)
            &&& out.start_session == keys.start
        },
        out.selected < SCENARIO_COUNT,
{
    if keys.quit {
        return MenuOutcome { quit: true, selected, lead_guide, save_settings: false, start_session: false };
    }
    let mut chosen = selected;
    if keys.digits[0] {
        chosen = 0;
    }
    if keys.digits[1] {
        chosen = 1;
    }
    if keys.digits[2] {
        chosen = 2;
    }
    if keys.digits[3] {
        chosen = 3;
    }
    if keys.up {
        chosen = if chosen == 0 { SCENARIO_COUNT - 1 } else { chosen - 1 };
    }
    if keys.down {
        chosen = (chosen + 1) % SCENARIO_COUNT;
    }
    let new_lead = if keys.lead_guide { !lead_guide } else { lead_guide };
    MenuOutcome {
        quit: false,
        selected: chosen,
        lead_guide: new_lead,
        save_settings: keys.tuning || keys.lead_guide,
        start_session: keys.start,
    }
}

/// Law: `Up` and `Down` step through every scenario of the menu, each undoing
/// the other.
pub proof fn law_up_and_down_are_inverse(selected: int)
    requires
        0 <= selected < SCENARIO_COUNT,
    ensures
        0 <= step_up(selected) < SCENARIO_COUNT,
        0 <= step_down(selected) < SCENARIO_COUNT,
        step_down(step_up(selected)) == selected,
        step_up(step_down(selected)) == selected,
{
}

/// Law: `Down` moves to the next scenario and `Up` to the previous one, both
/// wrapping around; a frame's selection is the highest number key pressed (or
/// the current entry), moved one entry down for `Down` and one up for `Up`.
pub proof fn law_menu_selection_steps(selected: int, keys: MenuKeys)
    requires
        0 <= selected < SCENARIO_COUNT,
    ensures
        step_down(selected) == (selected + 1) % 4,
        step_up(selected) == (selected + 3) % 4,
        selected < 3 ==> step_down(selected) == selected + 1,
        selected > 0 ==> step_up(selected) == selected - 1,
        menu_selection(selected, keys) == ((if keys.digits@[3] {
            3
        } else if keys.digits@[2] {
            2
        } else if keys.digits@[1] {
            1
        } else if keys.digits@[0] {
            0
        } else {
            selected
        }) + (if keys.down { 1int } else { 0int }) + (if keys.up { 3int } else { 0int })) % 4,
{
}

/// Law: what mouse 1 does in each drill. The tracking drill tracks exactly
/// while mouse 1 is held; a press fires a projectile exactly in the
/// projectile drill, and an instant ray exactly in the flick and switch
/// drills.
pub proof fn law_trigger_per_drill(kind: ScenarioKind, fire_held: bool, fire_pressed: bool)
    ensures
        (trigger_for(kind, fire_held, fire_pressed) == TriggerAction::Track) <==> (kind == ScenarioKind::SmoothTrack
            && fire_held),
        (trigger_for(kind, fire_held, fire_pressed) == TriggerAction::FireProjectile) <==> (kind
            == ScenarioKind::ProjectileLead && fire_pressed),
        (trigger_for(kind, fire_held, fire_pressed) == TriggerAction::FireHitscan) <==> ((kind
            == ScenarioKind::StaticFlick || kind == ScenarioKind::TargetSwitch) && fire_pressed),
{
}

/// What the pause screen does with one frame's keys.
#[derive(Clone, Copy, Debug, PartialEq, Eq, Structural)]
pub enum PausedAction {
    /// Back to the running session.
    Resume,
    /// A fresh session of the same scenario.
    Restart,
    /// Back to the menu.
    ToMenu,
    Stay,
}

/// Handles one frame of input on the pause screen: `Enter` or `Esc` resumes,
/// else `R` restarts, else `M` returns to the menu.
pub fn paused_step(enter: bool, escape: bool, restart: bool, menu: bool) -> (action: PausedAction)
    ensures
        action == if enter || escape {
            PausedAction::Resume
        } else if restart {
            PausedAction::Restart
        } else if menu {
            PausedAction::ToMenu
        } else {
            PausedAction::Stay
        },
{
    if enter || escape {
        PausedAction::Resume
    } else if restart {
        PausedAction::Restart
    } else if menu {
        PausedAction::ToMenu
    } else {
        PausedAction::Stay
    }
}

/// What the results screen does with one frame's keys.
#[derive(Clone, Copy, Debug, PartialEq, Eq, Structural)]
pub enum ResultsAction {
    /// Run the scenario again.
    Restart,
    /// Back to the menu.
    ToMenu,
    Stay,
}

/// Handles one frame of input on the results screen: `Enter` or `R` runs the
/// scenario again, else `M` or `Esc` returns to the menu.
pub fn results_step(enter: bool, restart: bool, menu: bool, escape: bool) -> (action: ResultsAction)
    ensures
        action == if enter || restart {
            ResultsAction::Restart
        } else if menu || escape {
            ResultsAction::ToMenu
        } else {
            ResultsAction::Stay
        },
{
    if enter || restart {
        ResultsAction::Restart
    } else if menu || escape {
        ResultsAction::ToMenu
    } else {
        ResultsAction::Stay
    }
}

/// What the trigger does during a frame of play.
#[derive(Clone, Copy, Debug, PartialEq, Eq, Structural)]
pub enum TriggerAction {
    /// Nothing this frame.
    Idle,
    /// Tracking drill with the trigger held: score contact with the target.
    Track,
    /// Launch a projectile.
    FireProjectile,
    /// Fire an instant ray.
    FireHitscan,
}

/// The trigger's action: tracking drills score while mouse 1 is held; other
/// drills fire once per press, with projectiles or instant rays.
pub open spec fn trigger_for(kind: ScenarioKind, fire_held: bool, fire_pressed: bool) -> TriggerAction {
    if kind == ScenarioKind::SmoothTrack {
        if fire_held { TriggerAction::Track } else { TriggerAction::Idle }
    } else if fire_pressed {
        if kind == ScenarioKind::ProjectileLead {
            TriggerAction::FireProjectile
        } else {
            TriggerAction::FireHitscan
        }
    } else {
        TriggerAction::Idle
    }
}

/// Keys and buttons during one frame of play.
#[derive(Clone, Copy, Debug)]
pub struct PlayingKeys {
    pub escape: bool,
    /// `R`.
    pub restart: bool,
    /// `L`.
    pub lead_guide: bool,
    /// Mouse 1 is down.
    pub fire_held: bool,
    /// Mouse 1 went down this frame.
    pub fire_pressed: bool,
}

/// What one frame of play does.
#[derive(Clone, Copy, Debug, PartialEq, Eq, Structural)]
pub enum PlayingOutcome {
    /// Open the pause screen; nothing else of the frame applies.
    Pause,
    /// Start the session over; nothing else of the frame applies.
    Restart,
    /// Run the frame.
    Run {
        lead_guide: bool,
        save_settings: bool,
        trigger: TriggerAction,
    },
}

/// Handles one frame of input during play: `Esc` pauses, else `R` restarts,
/// else the frame runs; `L` toggles the lead guide in the projectile drill
/// only, and the toggle is saved.
pub fn playing_step(kind: ScenarioKind, lead_guide: bool, keys: PlayingKeys) -> (out: PlayingOutcome)
    ensures
        out == if keys.escape {
            PlayingOutcome::Pause
        } else if keys.restart {
            PlayingOutcome::Restart
        } else {
            let toggle = keys.lead_guide && kind == ScenarioKind::ProjectileLead;
            PlayingOutcome::Run {
                lead_guide: lead_guide != toggle,
                save_settings: toggle,
                trigger: trigger_for(kind, keys.fire_held, keys.fire_pressed),
            }
        },
{
    if keys.escape {
        return PlayingOutcome::Pause;
    }
    if keys.restart {
        return PlayingOutcome::Restart;
    }
    let toggle = keys.lead_guide && kind.uses_projectiles();
    let trigger = if kind.is_tracking() {
        if keys.fire_held { TriggerAction::Track } else { TriggerAction::Idle }
    } else if keys.fire_pressed {
        if kind.uses_projectiles() {
            TriggerAction::FireProjectile
        } else {
            TriggerAction::FireHitscan
        }
    } else {
        TriggerAction::Idle
    };
    PlayingOutcome::Run {
        lead_guide: if toggle { !lead_guide } else { lead_guide },
        save_settings: toggle,
        trigger,
    }
}

} // verus!

//! From a map action's kind and parameters to the action the trigger run
//! time carries out.

use vstd::prelude::*;

use crate::text::{lemma_upper_of_is_upper_text, to_ascii_upper, upper_text};
use crate::trigger_params::{
    action_house_param, action_timer_ticks_param, house_param, name_opt, timer_param, trim_text, trimmed,
};
use crate::triggers::TriggerAction;

verus! {

/// Kinds of map action that act on the trigger run time.
#[derive(Clone, Copy, Debug, PartialEq, Eq, Structural)]
pub enum RuntimeActionKind {
    Win,
    Lose,
    AllowWin,
    LockInput,
    UnlockInput,
    DestroyTrigger,
    TimerStart,
    TimerStop,
    TimerExtend,
    TimerShorten,
    TimerSet,
    EnableTrigger,
    DisableTrigger,
}

/// The house an action names, else `fallback`.
pub open spec fn house_or(params: Seq<String>, fallback: Seq<char>) -> Seq<char> {
    match house_param(params, false) {
        Some(h) => h,
        None => fallback,
    }
}

/// The action of kind `kind` with parameters `params` and target trigger
/// `target`: a victory goes to the named house (else `local`), trimmed and
/// upper-cased; a defeat carries the named house as its reason (else
/// nothing); timers take their ticks from the parameters.
pub open spec fn prepared(kind: RuntimeActionKind, params: Seq<String>, target: Option<u32>, local: Seq<char>, a: TriggerAction) -> bool {
    match kind {
        RuntimeActionKind::Win => a matches TriggerAction::Win { house } && house@ == upper_text(
            trimmed(house_or(params, local)),
        ),
        RuntimeActionKind::Lose => a matches TriggerAction::Lose { reason } && reason@ == house_or(params, Seq::empty()),
        RuntimeActionKind::AllowWin => a is AllowWin,
        RuntimeActionKind::LockInput => a is LockInput,
        RuntimeActionKind::UnlockInput => a is UnlockInput,
        RuntimeActionKind::DestroyTrigger => a == TriggerAction::DestroyTrigger { target },
        RuntimeActionKind::TimerStart => a == TriggerAction::TimerStart { target },
        RuntimeActionKind::TimerStop => a == TriggerAction::TimerStop { target },
        RuntimeActionKind::TimerExtend => a == TriggerAction::TimerExtend { target, ticks: timer_param(params) },
        RuntimeActionKind::TimerShorten => a == TriggerAction::TimerShorten { target, ticks: timer_param(params) },
        RuntimeActionKind::TimerSet => a == TriggerAction::TimerSet { target, ticks: timer_param(params) },
        RuntimeActionKind::EnableTrigger => a == TriggerAction::EnableTrigger { target },
        RuntimeActionKind::DisableTrigger => a == TriggerAction::DisableTrigger { target },
    }
}

/// The run-time action for a map action of kind `kind` (see [`prepared`]).
pub fn prepare_runtime_action(
    kind: RuntimeActionKind,
    params: &[String],
    target: Option<u32>,
    local_house: &str,
) -> (a: TriggerAction)
    ensures
        prepared(kind, params@, target, local_house@, a),
{
    match kind {
        RuntimeActionKind::Win => {
            let named = action_house_param(params);
            let house = match &named {
                Some(h) => to_ascii_upper(trim_text(h.as_str())),
                None => to_ascii_upper(trim_text(local_house)),
            };
            proof {
                let t = trimmed(house_or(params@, local_house@));
                lemma_upper_of_is_upper_text(house@, t);
            }
            TriggerAction::Win { house }
        },
        RuntimeActionKind::Lose => {
            let reason = match action_house_param(params) {
                Some(h) => h,
                None => String::new(),
            };
            TriggerAction::Lose { reason }
        },
        RuntimeActionKind::AllowWin => TriggerAction::AllowWin,
        RuntimeActionKind::LockInput => TriggerAction::LockInput,
        RuntimeActionKind::UnlockInput => TriggerAction::UnlockInput,
        RuntimeActionKind::DestroyTrigger => TriggerAction::DestroyTrigger { target },
        RuntimeActionKind::TimerStart => TriggerAction::TimerStart { target },
        RuntimeActionKind::TimerStop => TriggerAction::TimerStop { target },
        RuntimeActionKind::TimerExtend => TriggerAction::TimerExtend { target, ticks: action_timer_ticks_param(params) },
        RuntimeActionKind::TimerShorten => TriggerAction::TimerShorten { target, ticks: action_timer_ticks_param(params) },
        RuntimeActionKind::TimerSet => TriggerAction::TimerSet { target, ticks: action_timer_ticks_param(params) },
        RuntimeActionKind::EnableTrigger => TriggerAction::EnableTrigger { target },
        RuntimeActionKind::DisableTrigger => TriggerAction::DisableTrigger { target },
    }
}

} // verus!

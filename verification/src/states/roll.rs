//! The stages of a dodge roll: build-up, movement and recovery, each lasting
//! its duration, and what the character does once the roll is over.
use vstd::prelude::*;

verus! {

/// The longest duration, in nanoseconds.
pub const DURATION_MAX_NS: u128 = 18446744073709551615999999999;

/// The stage an ability is in.
#[derive(Clone, Copy, Debug, PartialEq, Eq, Structural)]
pub enum StageSection {
    Buildup,
    Swing,
    Recover,
    Charge,
    Movement,
    Shoot,
}

/// How long each stage of a roll lasts, in nanoseconds.
#[derive(Clone, Copy, Debug, PartialEq, Eq, Structural)]
pub struct RollStaticData {
    pub buildup_ns: u128,
    pub movement_ns: u128,
    pub recover_ns: u128,
    pub immune_melee: bool,
}

/// A combo interrupted by a roll: the input driving it and the stage it
/// had reached.
#[derive(Clone, Copy, Debug, PartialEq, Eq, Structural)]
pub struct ComboResume {
    pub input: u32,
    pub stage: u32,
}

/// A roll in progress: its durations, the time spent in the current stage,
/// the stage, and what the character was doing before rolling (wielding,
/// sneaking, or in a combo: the input and the combo's stage).
#[derive(Clone, Copy, Debug, PartialEq, Eq, Structural)]
pub struct RollData {
    pub static_data: RollStaticData,
    pub timer_ns: u128,
    pub stage_section: StageSection,
    pub was_wielded: bool,
    pub was_sneak: bool,
    pub was_combo: Option<ComboResume>,
}

/// What a character does after one step of a roll.
#[derive(Clone, Copy, Debug, PartialEq, Eq, Structural)]
pub enum RollNext {
    /// Keeps rolling.
    Roll(RollData),
    /// Acts on the combo input again, resuming the combo at the given stage
    /// when the input starts one.
    Combo { input: u32, stage: u32 },
    Wielding,
    Sneak,
    Idle,
}

/// The timer after `dt_ns` more nanoseconds; it restarts from zero where
/// the sum does not fit in a duration.
pub open spec fn advanced(timer_ns: u128, dt_ns: u128) -> u128 {
    if timer_ns + dt_ns <= DURATION_MAX_NS {
        (timer_ns + dt_ns) as u128
    } else {
        0
    }
}

/// One step of a roll that has lasted `timer_ns` in its stage, `dt_ns`
/// nanoseconds later; `combo_pressed` tells whether the combo input is held.
pub open spec fn roll_next_spec(data: RollData, dt_ns: u128, combo_pressed: bool) -> RollNext {
    let s = data.static_data;
    match data.stage_section {
        StageSection::Buildup => if data.timer_ns < s.buildup_ns {
            RollNext::Roll(RollData { timer_ns: advanced(data.timer_ns, dt_ns), ..data })
        } else {
            RollNext::Roll(RollData { timer_ns: 0, stage_section: StageSection::Movement, ..data })
        },
        StageSection::Movement => if data.timer_ns < s.movement_ns {
            RollNext::Roll(RollData { timer_ns: advanced(data.timer_ns, dt_ns), ..data })
        } else {
            RollNext::Roll(RollData { timer_ns: 0, stage_section: StageSection::Recover, ..data })
        },
        StageSection::Recover => if data.timer_ns < s.recover_ns {
            RollNext::Roll(RollData { timer_ns: advanced(data.timer_ns, dt_ns), ..data })
        } else {
            match data.was_combo {
                Some(c) => if combo_pressed {
                    RollNext::Combo { input: c.input, stage: c.stage }
                } else {
                    RollNext::Wielding
                },
                None => if data.was_wielded {
                    RollNext::Wielding
                } else if data.was_sneak {
                    RollNext::Sneak
                } else {
                    RollNext::Idle
                },
            }
        },
        _ => RollNext::Idle,
    }
}

fn advance(timer_ns: u128, dt_ns: u128) -> (r: u128)
    ensures
        r == advanced(timer_ns, dt_ns),
{
    if dt_ns <= DURATION_MAX_NS && timer_ns <= DURATION_MAX_NS - dt_ns {
        timer_ns + dt_ns
    } else {
        0
    }
}

impl RollData {
    /// One step of the roll, `dt_ns` nanoseconds later; `combo_pressed`
    /// tells whether the combo input is held.
    pub fn behavior(&self, dt_ns: u128, combo_pressed: bool) -> (r: RollNext)
        ensures
            r == roll_next_spec(*self, dt_ns, combo_pressed),
    {
        let s = self.static_data;
        match self.stage_section {
            StageSection::Buildup => {
                if self.timer_ns < s.buildup_ns {
                    RollNext::Roll(RollData { timer_ns: advance(self.timer_ns, dt_ns), ..*self })
                } else {
                    RollNext::Roll(RollData { timer_ns: 0, stage_section: StageSection::Movement, ..*self })
                }
            },
            StageSection::Movement => {
                if self.timer_ns < s.movement_ns {
                    RollNext::Roll(RollData { timer_ns: advance(self.timer_ns, dt_ns), ..*self })
                } else {
                    RollNext::Roll(RollData { timer_ns: 0, stage_section: StageSection::Recover, ..*self })
                }
            },
            StageSection::Recover => {
                if self.timer_ns < s.recover_ns {
                    RollNext::Roll(RollData { timer_ns: advance(self.timer_ns, dt_ns), ..*self })
                } else {
                    match self.was_combo {
                        Some(c) => {
                            if combo_pressed {
                                RollNext::Combo { input: c.input, stage: c.stage }
                            } else {
                                RollNext::Wielding
                            }
                        },
                        None => {
                            if self.was_wielded {
                                RollNext::Wielding
                            } else if self.was_sneak {
                                RollNext::Sneak
                            } else {
                                RollNext::Idle
                            }
                        },
                    }
                }
            },
            _ => RollNext::Idle,
        }
    }
}

/// A finished roll (its recovery over) puts the character back in what it
/// was doing: a combo it interrupted resumes while the combo input is held,
/// and otherwise the weapon is held; without a combo, a character that was
/// wielding wields again, one that was sneaking (and not wielding) sneaks
/// again, and any other stands idle. A roll still under way keeps rolling.
pub proof fn finished_roll_restores_stance(data: RollData, dt_ns: u128, combo_pressed: bool)
    ensures
        ({
            let r = roll_next_spec(data, dt_ns, combo_pressed);
            let finished = data.stage_section == StageSection::Recover && data.timer_ns >= data.static_data.recover_ns;
            &&& finished && data.was_combo is Some && combo_pressed ==> r == RollNext::Combo {
                input: data.was_combo.unwrap().input,
                stage: data.was_combo.unwrap().stage,
            }
            &&& finished && data.was_combo is Some && !combo_pressed ==> r == RollNext::Wielding
            &&& finished && data.was_combo is None ==> (r == RollNext::Wielding <==> data.was_wielded)
            &&& finished && data.was_combo is None ==> (r == RollNext::Sneak <==> (!data.was_wielded && data.was_sneak))
            &&& finished && data.was_combo is None ==> (r == RollNext::Idle <==> (!data.was_wielded && !data.was_sneak))
            &&& (data.stage_section == StageSection::Buildup || data.stage_section == StageSection::Movement || (
            data.stage_section == StageSection::Recover && !finished)) ==> r is Roll
        }),
{
}

/// Each stage lasts its duration: the roll stays in a stage exactly while
/// the time spent in it is below the stage's duration, and rolling never
/// changes the durations or what the character was doing before.
pub proof fn stages_last_their_durations(data: RollData, dt_ns: u128, combo_pressed: bool)
    ensures
        ({
            let r = roll_next_spec(data, dt_ns, combo_pressed);
            let s = data.static_data;
            let stays = r matches RollNext::Roll(n) && n.stage_section == data.stage_section;
            &&& data.stage_section == StageSection::Buildup ==> (stays <==> data.timer_ns < s.buildup_ns)
            &&& data.stage_section == StageSection::Movement ==> (stays <==> data.timer_ns < s.movement_ns)
            &&& data.stage_section == StageSection::Recover ==> (stays <==> data.timer_ns < s.recover_ns)
            &&& r matches RollNext::Roll(n) ==> n.static_data == s && n.was_wielded == data.was_wielded && n.was_sneak
                == data.was_sneak && n.was_combo == data.was_combo
        }),
{
}

/// A roll only moves forward: each step either stays in its stage with more
/// time spent (or the timer restarted when it would overflow), enters the
/// next stage with the timer at zero, or ends the roll.
pub proof fn roll_moves_forward(data: RollData, dt_ns: u128, combo_pressed: bool)
    ensures
        match roll_next_spec(data, dt_ns, combo_pressed) {
            RollNext::Roll(next) => (next.stage_section == data.stage_section && next.timer_ns == advanced(
                data.timer_ns,
                dt_ns,
            )) || (next.timer_ns == 0 && ((data.stage_section == StageSection::Buildup && next.stage_section
                == StageSection::Movement) || (data.stage_section == StageSection::Movement && next.stage_section
                == StageSection::Recover))),
            _ => data.stage_section != StageSection::Buildup && data.stage_section != StageSection::Movement,
        },
{
}

/// Time adds up: a timer that has room moves on by exactly the elapsed
/// time, and one that would pass the longest duration starts again at zero.
pub proof fn timers_add_up(timer_ns: u128, dt_ns: u128)
    ensures
        timer_ns + dt_ns <= DURATION_MAX_NS ==> advanced(timer_ns, dt_ns) == timer_ns + dt_ns,
        timer_ns + dt_ns > DURATION_MAX_NS ==> advanced(timer_ns, dt_ns) == 0,
{
}
} // verus!

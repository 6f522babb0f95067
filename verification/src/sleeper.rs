use vstd::prelude::*;

verus! {

/// How awake a sleeper is, from asleep to fighting.
#[derive(Clone, Copy, Debug, PartialEq, Eq, Structural)]
pub enum SleeperState {
    Dormant,
    Investigating,
    Alerted,
    Combat,
}

impl Default for SleeperState {
    fn default() -> (s: Self)
        ensures
            s == SleeperState::Dormant,
    {
        SleeperState::Dormant
    }
}

/// The name a state is shown by.
pub open spec fn state_name(s: SleeperState) -> Seq<char> {
    match s {
        SleeperState::Dormant => "Dormant"@,
        SleeperState::Investigating => "Investigating"@,
        SleeperState::Alerted => "Alerted"@,
        SleeperState::Combat => "Combat"@,
    }
}

/// Alerted and fighting sleepers attack.
pub open spec fn hostile(s: SleeperState) -> bool {
    s == SleeperState::Alerted || s == SleeperState::Combat
}

/// Every state but dormancy moves the sleeper.
pub open spec fn active(s: SleeperState) -> bool {
    s != SleeperState::Dormant
}

/// How awake a state is, from 0 (dormant) to 3 (fighting).
pub open spec fn wakefulness(s: SleeperState) -> int {
    match s {
        SleeperState::Dormant => 0,
        SleeperState::Investigating => 1,
        SleeperState::Alerted => 2,
        SleeperState::Combat => 3,
    }
}

impl SleeperState {
    /// Alerted and fighting sleepers attack.
    pub fn is_hostile(self) -> (b: bool)
        ensures
            b == hostile(self),
    {
        match self {
            SleeperState::Alerted | SleeperState::Combat => true,
            _ => false,
        }
    }

    /// Every state but dormancy moves the sleeper.
    pub fn is_active(self) -> (b: bool)
        ensures
            b == active(self),
    {
        match self {
            SleeperState::Investigating | SleeperState::Alerted | SleeperState::Combat => true,
            SleeperState::Dormant => false,
        }
    }

    /// The name the state is shown by.
    pub fn name(&self) -> (n: &'static str)
        ensures
            n@ == state_name(*self),
    {
        match self {
            SleeperState::Dormant => "Dormant",
            SleeperState::Investigating => "Investigating",
            SleeperState::Alerted => "Alerted",
            SleeperState::Combat => "Combat",
        }
    }
}

/// The kinds of sleeper.
#[derive(Clone, Copy, Debug, PartialEq, Eq, Structural)]
pub enum SleeperArchetype {
    Drone,
    Spitter,
    Scout,
    Tank,
}

impl Default for SleeperArchetype {
    fn default() -> (a: Self)
        ensures
            a == SleeperArchetype::Drone,
    {
        SleeperArchetype::Drone
    }
}

/// Which of its speeds a sleeper's navigation runs at.
#[derive(Clone, Copy, Debug, PartialEq, Eq, Structural)]
pub enum SleeperPace {
    /// The archetype's walking speed.
    Walk,
    /// A fifth faster than walking.
    HurriedWalk,
    /// The archetype's chasing speed.
    Chase,
}

/// What a sleeper does on the tick its alert level moves it into a new state.
#[derive(Clone, Copy, Debug, PartialEq, Eq, Structural)]
pub struct StateEntry {
    /// Pick a point near the centre of its zone to investigate.
    pub pick_investigate_point: bool,
    /// Restart the investigation clock.
    pub restart_investigation: bool,
    /// Scream, waking those nearby, and start the scream cooldown.
    pub scream: bool,
    /// Forget every target and stop moving.
    pub forget_targets: bool,
    /// The pace to set, if any.
    pub pace: Option<SleeperPace>,
}

/// Only scouts scream, and only when entering an alerted or fighting state
/// with the cooldown over.
pub open spec fn screams_on_entry(to: SleeperState, archetype: SleeperArchetype, scream_ready: bool) -> bool {
    (to == SleeperState::Alerted || to == SleeperState::Combat) && archetype == SleeperArchetype::Scout
        && scream_ready
}

/// The entry effects of moving from `from` to `to`; nothing when the state
/// stays.
pub open spec fn entry_effects(
    from: SleeperState,
    to: SleeperState,
    archetype: SleeperArchetype,
    scream_ready: bool,
    has_investigate_point: bool,
    zone_known: bool,
) -> StateEntry {
    if from == to {
        StateEntry {
            pick_investigate_point: false,
            restart_investigation: false,
            scream: false,
            forget_targets: false,
            pace: None,
        }
    } else {
        StateEntry {
            pick_investigate_point: to == SleeperState::Investigating && !has_investigate_point
                && zone_known,
            restart_investigation: to == SleeperState::Investigating,
            scream: screams_on_entry(to, archetype, scream_ready),
            forget_targets: to == SleeperState::Dormant,
            pace: match to {
                SleeperState::Investigating | SleeperState::Alerted => Some(SleeperPace::Walk),
                SleeperState::Combat => Some(SleeperPace::Chase),
                SleeperState::Dormant => None,
            },
        }
    }
}

/// Decides what a sleeper does when its alert level calls for the state `to`
/// while it is in `from`. `scream_ready` tells that its scream cooldown is
/// over, `has_investigate_point` that it already has a point to investigate,
/// and `zone_known` that its zone's centre is known.
pub fn enter_state(
    from: SleeperState,
    to: SleeperState,
    archetype: SleeperArchetype,
    scream_ready: bool,
    has_investigate_point: bool,
    zone_known: bool,
) -> (e: StateEntry)
    ensures
        e == entry_effects(from, to, archetype, scream_ready, has_investigate_point, zone_known),
{
    if from == to {
        return StateEntry {
            pick_investigate_point: false,
            restart_investigation: false,
            scream: false,
            forget_targets: false,
            pace: None,
        };
    }
    let is_scout = archetype == SleeperArchetype::Scout;
    match to {
        SleeperState::Investigating => StateEntry {
            pick_investigate_point: !has_investigate_point && zone_known,
            restart_investigation: true,
            scream: false,
            forget_targets: false,
            pace: Some(SleeperPace::Walk),
        },
        SleeperState::Alerted => StateEntry {
            pick_investigate_point: false,
            restart_investigation: false,
            scream: is_scout && scream_ready,
            forget_targets: false,
            pace: Some(SleeperPace::Walk),
        },
        SleeperState::Combat => StateEntry {
            pick_investigate_point: false,
            restart_investigation: false,
            scream: is_scout && scream_ready,
            forget_targets: false,
            pace: Some(SleeperPace::Chase),
        },
        SleeperState::Dormant => StateEntry {
            pick_investigate_point: false,
            restart_investigation: false,
            scream: false,
            forget_targets: true,
            pace: None,
        },
    }
}

/// What a sleeper does in the rest of a tick, in the state it is in.
#[derive(Clone, Copy, Debug, PartialEq, Eq, Structural)]
pub struct StateBehavior {
    /// The state it ends the tick in.
    pub state: SleeperState,
    /// Let its alert level decay, and by how many decay steps (0, 1 or 2).
    pub decay_steps: u8,
    /// Drop its investigation point and stop moving.
    pub abandon_investigation: bool,
    /// Head for its investigation point.
    pub follow_investigate_point: bool,
    /// Make the nearest player its target.
    pub target_nearest: bool,
    /// Keep heading for its current target.
    pub follow_target: bool,
    /// Forget its current target.
    pub drop_target: bool,
    /// The pace to set, if any.
    pub pace: Option<SleeperPace>,
}

/// The behaviour of a sleeper in `state` for the rest of a tick.
/// `investigation_over` tells that its investigation clock has run out,
/// `calm_after_decay` that after that double decay its alert level is below
/// the investigating threshold, `has_investigate_point` that it has a point to
/// investigate, `has_target` that it has a target, `player_near` that a
/// player exists to target, and `below_alerted` that its alert level is under
/// the alerted threshold.
pub open spec fn behavior_of(
    state: SleeperState,
    investigation_over: bool,
    calm_after_decay: bool,
    has_investigate_point: bool,
    has_target: bool,
    player_near: bool,
    below_alerted: bool,
) -> StateBehavior {
    match state {
        SleeperState::Dormant => StateBehavior {
            state,
            decay_steps: 1,
            abandon_investigation: false,
            follow_investigate_point: false,
            target_nearest: false,
            follow_target: false,
            drop_target: false,
            pace: None,
        },
        SleeperState::Investigating => {
            let gives_up = investigation_over && calm_after_decay;
            StateBehavior {
                state: if gives_up {
                    SleeperState::Dormant
                } else {
                    state
                },
                decay_steps: if investigation_over {
                    2
                } else {
                    0
                },
                abandon_investigation: gives_up,
                follow_investigate_point: !gives_up && has_investigate_point,
                target_nearest: false,
                follow_target: false,
                drop_target: false,
                pace: None,
            }
        },
        SleeperState::Alerted => StateBehavior {
            state,
            decay_steps: 0,
            abandon_investigation: false,
            follow_investigate_point: false,
            target_nearest: !has_target && player_near,
            follow_target: has_target,
            drop_target: false,
            pace: Some(SleeperPace::HurriedWalk),
        },
        SleeperState::Combat => StateBehavior {
            state: if !player_near && below_alerted {
                SleeperState::Alerted
            } else {
                state
            },
            decay_steps: 0,
            abandon_investigation: false,
            follow_investigate_point: false,
            target_nearest: player_near,
            follow_target: false,
            drop_target: !player_near,
            pace: Some(SleeperPace::Chase),
        },
    }
}

/// Decides the rest of a sleeper's tick; see [`behavior_of`] for what the
/// flags tell.
pub fn state_behavior(
    state: SleeperState,
    investigation_over: bool,
    calm_after_decay: bool,
    has_investigate_point: bool,
    has_target: bool,
    player_near: bool,
    below_alerted: bool,
) -> (b: StateBehavior)
    ensures
        b == behavior_of(
            state,
            investigation_over,
            calm_after_decay,
            has_investigate_point,
            has_target,
            player_near,
            below_alerted,
        ),
{
    match state {
        SleeperState::Dormant => StateBehavior {
            state,
            decay_steps: 1,
            abandon_investigation: false,
            follow_investigate_point: false,
            target_nearest: false,
            follow_target: false,
            drop_target: false,
            pace: None,
        },
        SleeperState::Investigating => {
            let gives_up = investigation_over && calm_after_decay;
            StateBehavior {
                state: if gives_up {
                    SleeperState::Dormant
                } else {
                    state
                },
                decay_steps: if investigation_over {
                    2
                } else {
                    0
                },
                abandon_investigation: gives_up,
                follow_investigate_point: !gives_up && has_investigate_point,
                target_nearest: false,
                follow_target: false,
                drop_target: false,
                pace: None,
            }
        },
        SleeperState::Alerted => StateBehavior {
            state,
            decay_steps: 0,
            abandon_investigation: false,
            follow_investigate_point: false,
            target_nearest: !has_target && player_near,
            follow_target: has_target,
            drop_target: false,
            pace: Some(SleeperPace::HurriedWalk),
        },
        SleeperState::Combat => StateBehavior {
            state: if !player_near && below_alerted {
                SleeperState::Alerted
            } else {
                state
            },
            decay_steps: 0,
            abandon_investigation: false,
            follow_investigate_point: false,
            target_nearest: player_near,
            follow_target: false,
            drop_target: !player_near,
            pace: Some(SleeperPace::Chase),
        },
    }
}

/// The hash behind a sleeper's deterministic offsets: the bits that are then
/// scaled into `[-1, 1]`.
pub open spec fn scatter_bits_spec(seed: u32, axis: u32) -> u32 {
    let n = ((seed as int * 73856093) % 0x1_0000_0000) as u32 ^ ((axis * 31) as u32);
    ((n as int * 73856093) % 0x1_0000_0000) as u32 ^ (n >> 16u32)
}

/// The hash behind a sleeper's deterministic offsets, before it is scaled.
pub fn scatter_bits(seed: u32, axis: u32) -> (r: u32)
    requires
        axis * 31 <= u32::MAX,
    ensures
        r == scatter_bits_spec(seed, axis),
{
    let n = seed.wrapping_mul(73856093) ^ (axis * 31);
    n.wrapping_mul(73856093) ^ (n >> 16)
}

/// A hostile sleeper is an active one.
pub proof fn law_hostile_sleepers_are_active(s: SleeperState)
    ensures
        hostile(s) ==> active(s),
{
}

/// Only scouts scream, and only on waking into a hostile state.
pub proof fn law_only_scouts_scream(
    from: SleeperState,
    to: SleeperState,
    archetype: SleeperArchetype,
    scream_ready: bool,
    has_investigate_point: bool,
    zone_known: bool,
)
    ensures
        entry_effects(from, to, archetype, scream_ready, has_investigate_point, zone_known).scream
            ==> archetype == SleeperArchetype::Scout && hostile(to) && from != to && scream_ready,
{
}

/// The rest of a tick never wakes a sleeper further: it stays in its state or
/// calms down by one state at a time (investigation giving up, or a fight with
/// nobody left to fight).
pub proof fn law_behavior_never_wakes(
    state: SleeperState,
    investigation_over: bool,
    calm_after_decay: bool,
    has_investigate_point: bool,
    has_target: bool,
    player_near: bool,
    below_alerted: bool,
)
    ensures
        ({
            let b = behavior_of(
                state,
                investigation_over,
                calm_after_decay,
                has_investigate_point,
                has_target,
                player_near,
                below_alerted,
            );
            wakefulness(b.state) == wakefulness(state) || wakefulness(b.state) == wakefulness(state) - 1
                || (state == SleeperState::Investigating && b.state == SleeperState::Dormant)
        }),
        behavior_of(
            state,
            investigation_over,
            calm_after_decay,
            has_investigate_point,
            has_target,
            player_near,
            below_alerted,
        ).state != state ==> wakefulness(
            behavior_of(
                state,
                investigation_over,
                calm_after_decay,
                has_investigate_point,
                has_target,
                player_near,
                below_alerted,
            ).state,
        ) < wakefulness(state),
{
}

/// An alerted sleeper stays alerted, hurries, and heads for its target when
/// it has one; without one it takes the nearest player, if there is one.
pub proof fn law_alerted_sleepers_go_for_their_target(
    investigation_over: bool,
    calm_after_decay: bool,
    has_investigate_point: bool,
    has_target: bool,
    player_near: bool,
    below_alerted: bool,
)
    ensures
        ({
            let b = behavior_of(
                SleeperState::Alerted,
                investigation_over,
                calm_after_decay,
                has_investigate_point,
                has_target,
                player_near,
                below_alerted,
            );
            &&& b.state == SleeperState::Alerted
            &&& b.follow_target == has_target
            &&& b.target_nearest == (!has_target && player_near)
            &&& !b.drop_target
            &&& b.pace == Some(SleeperPace::HurriedWalk)
            &&& b.decay_steps == 0
        }),
{
}

/// A fighting sleeper chases the nearest player while one is near; with no
/// player near it drops its target, and falls back to alerted once its alert
/// level is under the alerted threshold.
pub proof fn law_fighting_sleepers_chase_the_nearest_player(
    investigation_over: bool,
    calm_after_decay: bool,
    has_investigate_point: bool,
    has_target: bool,
    player_near: bool,
    below_alerted: bool,
)
    ensures
        ({
            let b = behavior_of(
                SleeperState::Combat,
                investigation_over,
                calm_after_decay,
                has_investigate_point,
                has_target,
                player_near,
                below_alerted,
            );
            &&& b.target_nearest == player_near
            &&& b.drop_target == !player_near
            &&& b.pace == Some(SleeperPace::Chase)
            &&& (b.state == SleeperState::Alerted) == (!player_near && below_alerted)
            &&& (b.state == SleeperState::Combat) == !(!player_near && below_alerted)
            &&& b.decay_steps == 0
        }),
{
}

/// An investigating sleeper heads for its point until its investigation clock
/// runs out; then its alert decays twice, and if that leaves it calm it gives
/// up, drops the point and falls dormant.
pub proof fn law_investigating_sleepers_give_up_when_calm(
    investigation_over: bool,
    calm_after_decay: bool,
    has_investigate_point: bool,
    has_target: bool,
    player_near: bool,
    below_alerted: bool,
)
    ensures
        ({
            let b = behavior_of(
                SleeperState::Investigating,
                investigation_over,
                calm_after_decay,
                has_investigate_point,
                has_target,
                player_near,
                below_alerted,
            );
            let gives_up = investigation_over && calm_after_decay;
            &&& b.decay_steps == (if investigation_over { 2u8 } else { 0u8 })
            &&& (b.state == SleeperState::Dormant) == gives_up
            &&& (b.state == SleeperState::Investigating) == !gives_up
            &&& b.abandon_investigation == gives_up
            &&& b.follow_investigate_point == (!gives_up && has_investigate_point)
            &&& !b.target_nearest && !b.follow_target && !b.drop_target
        }),
{
}

/// A dormant sleeper only lets its alert decay by one step.
pub proof fn law_dormant_sleepers_only_calm_down(
    investigation_over: bool,
    calm_after_decay: bool,
    has_investigate_point: bool,
    has_target: bool,
    player_near: bool,
    below_alerted: bool,
)
    ensures
        behavior_of(
            SleeperState::Dormant,
            investigation_over,
            calm_after_decay,
            has_investigate_point,
            has_target,
            player_near,
            below_alerted,
        ) == (StateBehavior {
            state: SleeperState::Dormant,
            decay_steps: 1,
            abandon_investigation: false,
            follow_investigate_point: false,
            target_nearest: false,
            follow_target: false,
            drop_target: false,
            pace: None,
        }),
{
}

/// Only an alerted sleeper with a target keeps heading for it, and only an
/// investigating one heads for its point.
pub proof fn law_who_follows_what(
    state: SleeperState,
    investigation_over: bool,
    calm_after_decay: bool,
    has_investigate_point: bool,
    has_target: bool,
    player_near: bool,
    below_alerted: bool,
)
    ensures
        ({
            let b = behavior_of(
                state,
                investigation_over,
                calm_after_decay,
                has_investigate_point,
                has_target,
                player_near,
                below_alerted,
            );
            &&& b.follow_target ==> state == SleeperState::Alerted && has_target
            &&& b.follow_investigate_point ==> state == SleeperState::Investigating && has_investigate_point
        }),
{
}

/// Changing state restarts the investigation exactly when the sleeper starts
/// investigating, makes it forget its targets exactly when it falls dormant,
/// sets the walking pace on becoming investigating or alerted and the chasing
/// pace on entering a fight, and picks a point to investigate only when it has
/// none and its zone is known; staying in a state does nothing.
pub proof fn law_state_entry_effects(
    from: SleeperState,
    to: SleeperState,
    archetype: SleeperArchetype,
    scream_ready: bool,
    has_investigate_point: bool,
    zone_known: bool,
)
    ensures
        ({
            let e = entry_effects(from, to, archetype, scream_ready, has_investigate_point, zone_known);
            &&& from == to ==> !e.pick_investigate_point && !e.restart_investigation && !e.scream
                && !e.forget_targets && e.pace is None
            &&& from != to ==> {
                &&& e.restart_investigation == (to == SleeperState::Investigating)
                &&& e.forget_targets == (to == SleeperState::Dormant)
                &&& e.pick_investigate_point == (to == SleeperState::Investigating && !has_investigate_point
                    && zone_known)
                &&& (to == SleeperState::Investigating || to == SleeperState::Alerted) ==> e.pace == Some(
                    SleeperPace::Walk,
                )
                &&& to == SleeperState::Combat ==> e.pace == Some(SleeperPace::Chase)
                &&& to == SleeperState::Dormant ==> e.pace is None
                &&& e.scream == ((to == SleeperState::Alerted || to == SleeperState::Combat)
                    && archetype == SleeperArchetype::Scout && scream_ready)
            }
        }),
{
}

} // verus!

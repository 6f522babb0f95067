use vstd::prelude::*;

verus! {

/// What a classic bot is doing; an engaged bot names its target by the
/// target's entity bits.
#[derive(Clone, Copy, Debug, PartialEq, Eq, Structural)]
pub enum BotBehaviorState {
    Idle,
    Searching,
    Engaging(u64),
    Retreating,
    Repositioning,
}

/// Kinds of bot: deciding for itself, or driven by an outside agent.
#[derive(Clone, Copy, Debug, PartialEq, Eq, Structural)]
pub enum BotType {
    Classic,
    ExternalAgent,
}

/// The nearest living player a bot sees, and how the distances and health
/// compare with the bot's thresholds.
#[derive(Clone, Copy, Debug, PartialEq, Eq, Structural)]
pub struct PlayerSighting {
    /// The player's entity bits.
    pub target: u64,
    /// Close enough to engage (under 15 m).
    pub within_engage_range: bool,
    /// Close enough to come back from repositioning (under 12 m).
    pub within_close_range: bool,
    /// Far enough to lose (over 20 m).
    pub beyond_pursuit_range: bool,
    /// The bot is weak (under 30) and the player strong (over 50).
    pub outmatched: bool,
    /// The bot has recovered (over 70 health).
    pub recovered: bool,
}

/// The behaviour a bot decides on: with no player in sight it idles; otherwise
/// it engages what comes close, retreats when outmatched, and searches when the
/// player gets away.
pub open spec fn next_behavior(state: BotBehaviorState, sight: Option<PlayerSighting>) -> BotBehaviorState {
    match sight {
        None => BotBehaviorState::Idle,
        Some(s) => match state {
            BotBehaviorState::Idle | BotBehaviorState::Searching => if s.within_engage_range {
                BotBehaviorState::Engaging(s.target)
            } else {
                BotBehaviorState::Searching
            },
            BotBehaviorState::Engaging(_) => if s.outmatched {
                BotBehaviorState::Retreating
            } else if s.beyond_pursuit_range {
                BotBehaviorState::Searching
            } else {
                BotBehaviorState::Engaging(s.target)
            },
            BotBehaviorState::Retreating => if s.recovered && s.within_engage_range {
                BotBehaviorState::Engaging(s.target)
            } else if s.beyond_pursuit_range {
                BotBehaviorState::Searching
            } else {
                BotBehaviorState::Retreating
            },
            BotBehaviorState::Repositioning => if s.within_close_range {
                BotBehaviorState::Engaging(s.target)
            } else {
                BotBehaviorState::Searching
            },
        },
    }
}

/// One decision of a classic bot: see [`next_behavior`].
pub fn decide_bot_behavior(state: BotBehaviorState, sight: Option<PlayerSighting>) -> (next: BotBehaviorState)
    ensures
        next == next_behavior(state, sight),
{
    match sight {
        None => BotBehaviorState::Idle,
        Some(s) => match state {
            BotBehaviorState::Idle | BotBehaviorState::Searching => {
                if s.within_engage_range {
                    BotBehaviorState::Engaging(s.target)
                } else {
                    BotBehaviorState::Searching
                }
            },
            BotBehaviorState::Engaging(_) => {
                if s.outmatched {
                    BotBehaviorState::Retreating
                } else if s.beyond_pursuit_range {
                    BotBehaviorState::Searching
                } else {
                    BotBehaviorState::Engaging(s.target)
                }
            },
            BotBehaviorState::Retreating => {
                if s.recovered && s.within_engage_range {
                    BotBehaviorState::Engaging(s.target)
                } else if s.beyond_pursuit_range {
                    BotBehaviorState::Searching
                } else {
                    BotBehaviorState::Retreating
                }
            },
            BotBehaviorState::Repositioning => {
                if s.within_close_range {
                    BotBehaviorState::Engaging(s.target)
                } else {
                    BotBehaviorState::Searching
                }
            },
        },
    }
}

/// What a bot does when, acting, it finds that its target no longer exists:
/// an engaged bot goes back to searching; any other behaviour stays.
pub fn behavior_after_target_lost(state: BotBehaviorState) -> (next: BotBehaviorState)
    ensures
        next == if state is Engaging {
            BotBehaviorState::Searching
        } else {
            state
        },
{
    match state {
        BotBehaviorState::Engaging(_) => BotBehaviorState::Searching,
        other => other,
    }
}

/// An engaged bot always engages the player it sees, never one out of sight.
pub proof fn law_bots_engage_the_player_in_sight(state: BotBehaviorState, sight: Option<PlayerSighting>)
    ensures
        next_behavior(state, sight) matches BotBehaviorState::Engaging(t) ==> sight matches Some(s) && s.target == t,
{
}

/// Without a player in sight a bot idles, whatever it was doing.
pub proof fn law_bots_idle_without_players(state: BotBehaviorState)
    ensures
        next_behavior(state, None) == BotBehaviorState::Idle,
{
}

/// An engaged bot that is not outmatched gives up the pursuit and searches
/// once its player is beyond pursuit range, and otherwise keeps engaging the
/// player it sees.
pub proof fn law_engaged_bots_pursue_within_range(t: u64, s: PlayerSighting)
    requires
        !s.outmatched,
    ensures
        s.beyond_pursuit_range ==> next_behavior(BotBehaviorState::Engaging(t), Some(s))
            == BotBehaviorState::Searching,
        !s.beyond_pursuit_range ==> next_behavior(BotBehaviorState::Engaging(t), Some(s))
            == BotBehaviorState::Engaging(s.target),
{
}

/// An engaged bot that is outmatched retreats, however far the player is.
pub proof fn law_outmatched_bots_retreat(t: u64, s: PlayerSighting)
    requires
        s.outmatched,
    ensures
        next_behavior(BotBehaviorState::Engaging(t), Some(s)) == BotBehaviorState::Retreating,
{
}

/// An idle or searching bot engages a sighted player within engage range and
/// otherwise searches.
pub proof fn law_watchful_bots_engage_close_players(state: BotBehaviorState, s: PlayerSighting)
    requires
        state == BotBehaviorState::Idle || state == BotBehaviorState::Searching,
    ensures
        s.within_engage_range ==> next_behavior(state, Some(s)) == BotBehaviorState::Engaging(s.target),
        !s.within_engage_range ==> next_behavior(state, Some(s)) == BotBehaviorState::Searching,
{
}

/// A retreating bot turns back to fight only once it has recovered and the
/// player is within engage range; it searches when the player is beyond
/// pursuit range, and otherwise keeps retreating.
pub proof fn law_retreating_bots_return_when_recovered(s: PlayerSighting)
    ensures
        s.recovered && s.within_engage_range ==> next_behavior(BotBehaviorState::Retreating, Some(s))
            == BotBehaviorState::Engaging(s.target),
        !(s.recovered && s.within_engage_range) && s.beyond_pursuit_range ==> next_behavior(
            BotBehaviorState::Retreating,
            Some(s),
        ) == BotBehaviorState::Searching,
        !(s.recovered && s.within_engage_range) && !s.beyond_pursuit_range ==> next_behavior(
            BotBehaviorState::Retreating,
            Some(s),
        ) == BotBehaviorState::Retreating,
{
}

/// A repositioning bot engages a player within close range and otherwise
/// searches.
pub proof fn law_repositioning_bots_engage_only_close_players(s: PlayerSighting)
    ensures
        s.within_close_range ==> next_behavior(BotBehaviorState::Repositioning, Some(s))
            == BotBehaviorState::Engaging(s.target),
        !s.within_close_range ==> next_behavior(BotBehaviorState::Repositioning, Some(s))
            == BotBehaviorState::Searching,
{
}

/// A bot only ever retreats from a fight: the retreating behaviour comes from
/// an outmatched engagement or from retreating already.
pub proof fn law_retreat_only_from_a_fight(state: BotBehaviorState, sight: Option<PlayerSighting>)
    ensures
        next_behavior(state, sight) == BotBehaviorState::Retreating ==> (state is Engaging
            || state == BotBehaviorState::Retreating) && sight is Some,
{
}

} // verus!

use vstd::prelude::*;

use crate::geometry::{
    beyond_one_and_half, beyond_one_and_half_spec, translate, translate_spec,
    within, within_spec, Point, Steer,
};
use crate::rng::{chance_one_in, random_offset};

verus! {

/// Pursuit speed, in world units per second.
pub const ATTACK_SPEED: u32 = 80;

/// Speed of an idle stroll, in world units per second.
pub const WANDER_SPEED: u32 = 20;

/// Speed of a plain chaser that always runs at the player.
pub const CHASE_SPEED: u32 = 60;

/// Distance under which a destination counts as reached.
pub const ARRIVE_DISTANCE: u32 = 4;

/// Shortest distance of a freshly picked stroll destination.
pub const WANDER_MIN_RADIUS: i32 = 50;

/// Longest distance of a freshly picked stroll destination.
pub const WANDER_MAX_RADIUS: i32 = 300;

/// A standing enemy starts to stroll with odds of one in this many per tick.
pub const STAND_TO_WANDER_ODDS: u32 = 1000;

/// What an enemy is doing.
#[derive(Debug, Clone, Copy, PartialEq, Eq, Structural)]
pub enum AggressiveAiState {
    /// Just spawned: picks a stroll destination on its next tick.
    ImmediateWander,
    /// Hit by an unseen shooter: runs to where the shot came from.
    CheckLocation(Point),
    /// Chasing the player.
    Attack,
    /// Idle.
    Stand,
    /// Strolling to a destination.
    Wander(Point),
    /// Chasing the player for good.
    KillMode,
}

/// An enemy's brain: how far it sees and what it is doing.
#[derive(Debug, Clone, Copy, PartialEq, Eq, Structural)]
pub struct AggressiveAi {
    pub view_range: u32,
    pub state: AggressiveAiState,
}

/// Moving toward `target` at `speed`, unless `target` is reached, in which case the mover
/// stops and stands.
pub open spec fn travel_spec(
    pos: Point,
    target: Point,
    speed: u32,
    state: AggressiveAiState,
) -> (AggressiveAiState, Steer) {
    if within_spec(pos, target, ARRIVE_DISTANCE as int) {
        (AggressiveAiState::Stand, Steer::Stop)
    } else {
        (state, Steer::Toward(target, speed))
    }
}

/// One tick of the state machine, for an enemy at `pos` and the player at `player`.
/// `roll` is the draw that may start a stroll from `Stand`; `wander_to` is the destination
/// that a new stroll would take.
pub open spec fn ai_step_spec(
    ai: AggressiveAi,
    pos: Point,
    player: Point,
    roll: bool,
    wander_to: Point,
) -> (AggressiveAiState, Steer) {
    let sees = within_spec(player, pos, ai.view_range as int);
    match ai.state {
        AggressiveAiState::Attack => {
            if beyond_one_and_half_spec(player, pos, ai.view_range as int) {
                (AggressiveAiState::Stand, Steer::Keep)
            } else {
                (AggressiveAiState::Attack, Steer::Toward(player, ATTACK_SPEED))
            }
        },
        AggressiveAiState::Stand => {
            if sees {
                (AggressiveAiState::Attack, Steer::Keep)
            } else if roll {
                (AggressiveAiState::Wander(wander_to), Steer::Keep)
            } else {
                (AggressiveAiState::Stand, Steer::Keep)
            }
        },
        AggressiveAiState::Wander(p) => travel_spec(
            pos,
            p,
            WANDER_SPEED,
            if sees { AggressiveAiState::Attack } else { AggressiveAiState::Wander(p) },
        ),
        AggressiveAiState::ImmediateWander => (AggressiveAiState::Wander(wander_to), Steer::Keep),
        AggressiveAiState::CheckLocation(p) => travel_spec(
            pos,
            p,
            ATTACK_SPEED,
            if sees { AggressiveAiState::Attack } else { AggressiveAiState::CheckLocation(p) },
        ),
        AggressiveAiState::KillMode => (AggressiveAiState::KillMode, Steer::Toward(player, ATTACK_SPEED)),
    }
}

/// A stroll offset that a tick may draw: between `WANDER_MIN_RADIUS` and
/// `WANDER_MAX_RADIUS` long.
pub open spec fn wander_offset(d: Point) -> bool {
    WANDER_MIN_RADIUS * WANDER_MIN_RADIUS <= d.x * d.x + d.y * d.y
        <= WANDER_MAX_RADIUS * WANDER_MAX_RADIUS
}

/// `state` and `steer` are what one tick gives for some stroll draw and some stroll
/// offset that a tick may draw.
pub open spec fn ai_tick_outcome(
    ai: AggressiveAi,
    pos: Point,
    player: Point,
    state: AggressiveAiState,
    steer: Steer,
) -> bool {
    exists|roll: bool, d: Point|
        #![trigger ai_step_spec(ai, pos, player, roll, translate_spec(pos, d))]
        wander_offset(d) && (state, steer) == ai_step_spec(ai, pos, player, roll, translate_spec(pos, d))
}

/// The state after a hit whose shot came from `origin`.
pub open spec fn on_hit_spec(state: AggressiveAiState, origin: Point) -> AggressiveAiState {
    if state == AggressiveAiState::KillMode {
        AggressiveAiState::KillMode
    } else {
        AggressiveAiState::CheckLocation(origin)
    }
}

fn travel(
    pos: Point,
    target: Point,
    speed: u32,
    state: AggressiveAiState,
) -> (r: (AggressiveAiState, Steer))
    ensures
        r == travel_spec(pos, target, speed, state),
{
    if within(pos, target, ARRIVE_DISTANCE) {
        (AggressiveAiState::Stand, Steer::Stop)
    } else {
        (state, Steer::Toward(target, speed))
    }
}

impl AggressiveAi {
    pub fn with_view_range(view_range: u32) -> (r: AggressiveAi)
        ensures
            r.view_range == view_range,
            r.state == AggressiveAiState::ImmediateWander,
    {
        AggressiveAi { view_range, state: AggressiveAiState::ImmediateWander }
    }

    /// One tick with the random draws given: `roll` may start a stroll from `Stand`,
    /// `wander_to` is where a new stroll goes.
    pub fn step(&mut self, pos: Point, player: Point, roll: bool, wander_to: Point) -> (r: Steer)
        ensures
            (final(self).state, r) == ai_step_spec(*old(self), pos, player, roll, wander_to),
            final(self).view_range == old(self).view_range,
    {
        let sees = within(player, pos, self.view_range);
        let (state, steer) = match self.state {
            AggressiveAiState::Attack => {
                if beyond_one_and_half(player, pos, self.view_range) {
                    (AggressiveAiState::Stand, Steer::Keep)
                } else {
                    (AggressiveAiState::Attack, Steer::Toward(player, ATTACK_SPEED))
                }
            },
            AggressiveAiState::Stand => {
                if sees {
                    (AggressiveAiState::Attack, Steer::Keep)
                } else if roll {
                    (AggressiveAiState::Wander(wander_to), Steer::Keep)
                } else {
                    (AggressiveAiState::Stand, Steer::Keep)
                }
            },
            AggressiveAiState::Wander(p) => travel(
                pos,
                p,
                WANDER_SPEED,
                if sees { AggressiveAiState::Attack } else { AggressiveAiState::Wander(p) },
            ),
            AggressiveAiState::ImmediateWander => (AggressiveAiState::Wander(wander_to), Steer::Keep),
            AggressiveAiState::CheckLocation(p) => travel(
                pos,
                p,
                ATTACK_SPEED,
                if sees { AggressiveAiState::Attack } else { AggressiveAiState::CheckLocation(p) },
            ),
            AggressiveAiState::KillMode => (AggressiveAiState::KillMode, Steer::Toward(player, ATTACK_SPEED)),
        };
        self.state = state;
        steer
    }

    /// One tick, drawing the stroll odds and destination at random. Whatever is drawn, a
    /// new destination lies between `WANDER_MIN_RADIUS` and `WANDER_MAX_RADIUS` from `pos`,
    /// held inside the representable world.
    pub fn tick(&mut self, pos: Point, player: Point) -> (r: Steer)
        ensures
            final(self).view_range == old(self).view_range,
            ai_tick_outcome(*old(self), pos, player, final(self).state, r),
    {
        let roll = chance_one_in(STAND_TO_WANDER_ODDS);
        let d = random_offset(WANDER_MIN_RADIUS, WANDER_MAX_RADIUS);
        let wander_to = translate(pos, d);
        self.step(pos, player, roll, wander_to)
    }

    /// React to a hit by a shot fired from `origin`: go and look, unless in kill mode.
    pub fn on_hit(&mut self, origin: Point)
        ensures
            final(self).state == on_hit_spec(old(self).state, origin),
            final(self).view_range == old(self).view_range,
    {
        if self.state != AggressiveAiState::KillMode {
            self.state = AggressiveAiState::CheckLocation(origin);
        }
    }

    /// Switch to permanent pursuit.
    pub fn enter_kill_mode(&mut self)
        ensures
            final(self).state == AggressiveAiState::KillMode,
            final(self).view_range == old(self).view_range,
    {
        self.state = AggressiveAiState::KillMode;
    }
}

/// Once in kill mode, an enemy stays there whatever the tick or hit brings, and keeps
/// running at the player.
pub proof fn law_kill_mode_is_permanent(
    ai: AggressiveAi,
    pos: Point,
    player: Point,
    roll: bool,
    wander_to: Point,
    origin: Point,
)
    requires
        ai.state == AggressiveAiState::KillMode,
    ensures
        ai_step_spec(ai, pos, player, roll, wander_to)
            == (AggressiveAiState::KillMode, Steer::Toward(player, ATTACK_SPEED)),
        on_hit_spec(ai.state, origin) == AggressiveAiState::KillMode,
{
}

/// A plain chaser always runs straight at the player.
pub fn attack_player(player: Point) -> (r: Steer)
    ensures
        r == Steer::Toward(player, CHASE_SPEED),
{
    Steer::Toward(player, CHASE_SPEED)
}

} // verus!

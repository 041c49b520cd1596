use survival_core::ai::{
    attack_player, AggressiveAi, AggressiveAiState, ATTACK_SPEED, CHASE_SPEED, WANDER_SPEED,
};
use survival_core::geometry::{Point, Steer};

fn p(x: i32, y: i32) -> Point {
    Point::new(x, y)
}

#[test]
fn new_ai_starts_wandering() {
    let ai = AggressiveAi::with_view_range(20);
    assert_eq!(ai.view_range, 20);
    assert_eq!(ai.state, AggressiveAiState::ImmediateWander);
}

#[test]
fn standing_enemy_attacks_player_in_view() {
    let mut ai = AggressiveAi { view_range: 20, state: AggressiveAiState::Stand };
    let s = ai.step(p(0, 0), p(10, 0), false, p(0, 0));
    assert_eq!(ai.state, AggressiveAiState::Attack);
    assert_eq!(s, Steer::Keep);
}

#[test]
fn attacking_enemy_stands_when_player_beyond_one_and_half_range() {
    let mut ai = AggressiveAi { view_range: 20, state: AggressiveAiState::Attack };
    let s = ai.step(p(0, 0), p(31, 0), false, p(0, 0));
    assert_eq!(ai.state, AggressiveAiState::Stand);
    assert_eq!(s, Steer::Keep);
}

#[test]
fn attacking_enemy_keeps_chasing_at_one_and_half_range() {
    let mut ai = AggressiveAi { view_range: 20, state: AggressiveAiState::Attack };
    let s = ai.step(p(0, 0), p(30, 0), false, p(0, 0));
    assert_eq!(ai.state, AggressiveAiState::Attack);
    assert_eq!(s, Steer::Toward(p(30, 0), ATTACK_SPEED));
}

#[test]
fn stand_to_attack_to_stand_scenario() {
    let mut ai = AggressiveAi { view_range: 20, state: AggressiveAiState::Stand };
    ai.step(p(100, 100), p(110, 100), false, p(0, 0));
    assert_eq!(ai.state, AggressiveAiState::Attack);
    ai.step(p(100, 100), p(131, 100), false, p(0, 0));
    assert_eq!(ai.state, AggressiveAiState::Stand);
}

#[test]
fn standing_enemy_starts_wandering_on_roll() {
    let mut ai = AggressiveAi { view_range: 20, state: AggressiveAiState::Stand };
    ai.step(p(0, 0), p(500, 0), true, p(70, 10));
    assert_eq!(ai.state, AggressiveAiState::Wander(p(70, 10)));
    let mut quiet = AggressiveAi { view_range: 20, state: AggressiveAiState::Stand };
    quiet.step(p(0, 0), p(500, 0), false, p(70, 10));
    assert_eq!(quiet.state, AggressiveAiState::Stand);
}

#[test]
fn immediate_wander_picks_destination() {
    let mut ai = AggressiveAi::with_view_range(20);
    let s = ai.step(p(0, 0), p(500, 0), false, p(-40, 90));
    assert_eq!(ai.state, AggressiveAiState::Wander(p(-40, 90)));
    assert_eq!(s, Steer::Keep);
}

#[test]
fn wander_moves_then_stops_on_arrival() {
    let mut ai = AggressiveAi { view_range: 20, state: AggressiveAiState::Wander(p(100, 0)) };
    let s = ai.step(p(0, 0), p(1000, 1000), false, p(0, 0));
    assert_eq!(s, Steer::Toward(p(100, 0), WANDER_SPEED));
    assert_eq!(ai.state, AggressiveAiState::Wander(p(100, 0)));
    let s = ai.step(p(97, 0), p(1000, 1000), false, p(0, 0));
    assert_eq!(s, Steer::Stop);
    assert_eq!(ai.state, AggressiveAiState::Stand);
}

#[test]
fn wander_sees_player_and_attacks() {
    let mut ai = AggressiveAi { view_range: 50, state: AggressiveAiState::Wander(p(100, 0)) };
    let s = ai.step(p(0, 0), p(0, 10), false, p(0, 0));
    assert_eq!(ai.state, AggressiveAiState::Attack);
    assert_eq!(s, Steer::Toward(p(100, 0), WANDER_SPEED));
}

#[test]
fn check_location_runs_at_attack_speed() {
    let mut ai = AggressiveAi { view_range: 20, state: AggressiveAiState::CheckLocation(p(0, 200)) };
    let s = ai.step(p(0, 0), p(1000, 0), false, p(0, 0));
    assert_eq!(s, Steer::Toward(p(0, 200), ATTACK_SPEED));
    let s = ai.step(p(0, 199), p(1000, 0), false, p(0, 0));
    assert_eq!(s, Steer::Stop);
    assert_eq!(ai.state, AggressiveAiState::Stand);
}

#[test]
fn hit_sends_enemy_to_look_unless_kill_mode() {
    let mut ai = AggressiveAi { view_range: 20, state: AggressiveAiState::Stand };
    ai.on_hit(p(5, 6));
    assert_eq!(ai.state, AggressiveAiState::CheckLocation(p(5, 6)));
    ai.enter_kill_mode();
    ai.on_hit(p(7, 8));
    assert_eq!(ai.state, AggressiveAiState::KillMode);
}

#[test]
fn kill_mode_pursues_forever() {
    let mut ai = AggressiveAi { view_range: 20, state: AggressiveAiState::KillMode };
    for _ in 0..5 {
        let s = ai.step(p(0, 0), p(5000, 0), true, p(1, 1));
        assert_eq!(s, Steer::Toward(p(5000, 0), ATTACK_SPEED));
        assert_eq!(ai.state, AggressiveAiState::KillMode);
    }
}

#[test]
fn random_tick_from_immediate_wander_picks_nearby_point() {
    for _ in 0..200 {
        let mut ai = AggressiveAi::with_view_range(20);
        ai.tick(p(1000, -1000), p(9000, 9000));
        match ai.state {
            AggressiveAiState::Wander(w) => {
                let dx = (w.x - 1000) as i64;
                let dy = (w.y + 1000) as i64;
                assert!(dx * dx + dy * dy <= 300 * 300);
                assert!(dx * dx + dy * dy >= 50 * 50);
            }
            other => panic!("unexpected state {:?}", other),
        }
    }
}

#[test]
fn plain_chaser_runs_at_player() {
    assert_eq!(attack_player(p(3, 4)), Steer::Toward(p(3, 4), CHASE_SPEED));
}

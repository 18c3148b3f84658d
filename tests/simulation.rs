use battlecity::constants::{
    GAME_TICK_INTERVAL, HEALTH_SPAWN_TIME, ARMOR_SPAWN_TIME, PLAYER_LIVES, PLAYER_SHOT_INTERVAL,
    PLAYER_SPAWN_HEALTH,
};
use battlecity::game::{Game, GameState};
use battlecity::player::Player;
use battlecity::transform::LookDirection;
use battlecity::wall::{Wall, WallType};

fn open_grid(columns: i32, rows: i32) -> Vec<Vec<Wall>> {
    (0..rows).map(|y| (0..columns).map(|x| Wall::new([x, y])).collect()).collect()
}

fn set(walls: &mut Vec<Vec<Wall>>, x: usize, y: usize, kind: WallType) {
    let w = Wall::new([x as i32, y as i32]);
    walls[y][x] = match kind {
        WallType::Brick => w.brick(),
        WallType::Concrete => w.concrete(),
        WallType::Net => w.net(),
        WallType::Empty => w.empty(),
        WallType::Border => w.border(),
    };
}

const FIRE: [bool; 4] = [false, false, false, false];

/// A combatant that has died with its last life.
fn spent(id: u32, spawn: [i32; 2]) -> Player {
    let mut p = Player::new(id, spawn, LookDirection::Up);
    for _ in 0..PLAYER_LIVES {
        while p.get_is_alive() {
            p.damage();
        }
        if p.can_respawn() {
            p.respawn();
        }
    }
    p
}

#[test]
fn shot_at_brick_clears_it() {
    let mut walls = open_grid(8, 8);
    set(&mut walls, 0, 1, WallType::Brick);
    let players = vec![
        Player::new(0, [0, 0], LookDirection::Down),
        Player::new(1, [7, 7], LookDirection::Up),
    ];
    let mut g = Game::from_parts(8, 8, walls, players);
    g.set_player_input(0, FIRE, true);
    g.update_with_draws(PLAYER_SHOT_INTERVAL, 0, 0);
    assert_eq!(g.walls()[1][0].variant(), WallType::Empty);
    assert_eq!(g.bullets().len(), 0);
    assert_eq!(g.animations().len(), 1);
    assert_eq!(g.animations()[0].get_position(), [0, 1]);
    for p in g.players() {
        assert_eq!(p.get_health(), PLAYER_SPAWN_HEALTH);
        assert!(p.get_is_alive());
    }
}

#[test]
fn shot_at_concrete_or_border_leaves_it() {
    for kind in [WallType::Concrete, WallType::Border] {
        let mut walls = open_grid(4, 4);
        set(&mut walls, 1, 2, kind);
        let mut g = Game::from_parts(4, 4, walls, vec![Player::new(0, [1, 1], LookDirection::Down)]);
        g.set_player_input(0, FIRE, true);
        g.update_with_draws(PLAYER_SHOT_INTERVAL, 0, 0);
        assert_eq!(g.walls()[2][1].variant(), kind);
        assert_eq!(g.bullets().len(), 0);
        assert_eq!(g.animations().len(), 1);
    }
}

#[test]
fn shot_leaving_grid_vanishes_quietly() {
    let mut g = Game::from_parts(3, 3, open_grid(3, 3), vec![Player::new(0, [0, 0], LookDirection::Up)]);
    g.set_player_input(0, FIRE, true);
    g.update_with_draws(PLAYER_SHOT_INTERVAL, 0, 0);
    assert_eq!(g.bullets().len(), 0);
    assert_eq!(g.animations().len(), 0);
}

#[test]
fn shot_flies_one_tile_per_tick() {
    let mut g = Game::from_parts(6, 2, open_grid(6, 2), vec![Player::new(0, [0, 0], LookDirection::Right)]);
    g.set_player_input(0, FIRE, true);
    g.update_with_draws(PLAYER_SHOT_INTERVAL, 0, 0);
    assert_eq!(g.bullets().len(), 1);
    assert_eq!(g.bullets()[0].get_position(), [1, 0]);
    g.set_player_input(0, FIRE, false);
    g.update_with_draws(GAME_TICK_INTERVAL, 0, 0);
    assert_eq!(g.bullets()[0].get_position(), [2, 0]);
}

#[test]
fn shots_entering_one_tile_destroy_each_other() {
    let players = vec![
        Player::new(0, [1, 1], LookDirection::Right),
        Player::new(1, [3, 1], LookDirection::Left),
    ];
    let mut g = Game::from_parts(6, 3, open_grid(6, 3), players);
    g.set_player_input(0, FIRE, true);
    g.set_player_input(1, FIRE, true);
    g.update_with_draws(PLAYER_SHOT_INTERVAL, 0, 0);
    assert_eq!(g.bullets().len(), 0);
    assert_eq!(g.animations().len(), 1);
    assert_eq!(g.animations()[0].get_position(), [2, 1]);
    for p in g.players() {
        assert_eq!(p.get_health(), PLAYER_SPAWN_HEALTH);
    }
}

#[test]
fn shots_passing_head_on_destroy_each_other() {
    let players = vec![
        Player::new(0, [1, 1], LookDirection::Right),
        Player::new(1, [4, 1], LookDirection::Left),
    ];
    let mut g = Game::from_parts(6, 3, open_grid(6, 3), players);
    g.set_player_input(0, FIRE, true);
    g.set_player_input(1, FIRE, true);
    g.update_with_draws(PLAYER_SHOT_INTERVAL, 0, 0);
    assert_eq!(g.bullets().len(), 2);
    assert_eq!(g.bullets()[0].get_position(), [2, 1]);
    assert_eq!(g.bullets()[1].get_position(), [3, 1]);
    g.update_with_draws(GAME_TICK_INTERVAL, 0, 0);
    assert_eq!(g.bullets().len(), 0);
    assert_eq!(g.animations().len(), 1);
    for p in g.players() {
        assert_eq!(p.get_health(), PLAYER_SPAWN_HEALTH);
    }
}

#[test]
fn last_hit_kills_and_credits_the_shooter() {
    let players = vec![
        Player::new(0, [0, 0], LookDirection::Right),
        Player::new(1, [1, 0], LookDirection::Left),
    ];
    let mut g = Game::from_parts(4, 4, open_grid(4, 4), players);
    g.set_player_input(0, FIRE, true);
    for _ in 0..PLAYER_SPAWN_HEALTH - 1 {
        g.update_with_draws(PLAYER_SHOT_INTERVAL, 0, 0);
    }
    assert_eq!(g.players()[1].get_armor(), 0);
    assert_eq!(g.players()[1].get_health(), 1);
    g.update_with_draws(PLAYER_SHOT_INTERVAL, 0, 0);
    let victim = &g.players()[1];
    assert_eq!(victim.get_health(), 0);
    assert!(!victim.get_is_alive());
    assert_eq!(victim.get_lives(), PLAYER_LIVES - 1);
    assert_eq!(g.players()[0].get_kills(), 1);
}

#[test]
fn dead_combatant_respawns_when_firing() {
    let players = vec![
        Player::new(0, [0, 0], LookDirection::Right),
        Player::new(1, [1, 0], LookDirection::Left),
    ];
    let mut g = Game::from_parts(4, 4, open_grid(4, 4), players);
    g.set_player_input(0, FIRE, true);
    for _ in 0..PLAYER_SPAWN_HEALTH {
        g.update_with_draws(PLAYER_SHOT_INTERVAL, 0, 0);
    }
    assert!(!g.players()[1].get_is_alive());
    g.set_player_input(0, FIRE, false);
    g.set_player_input(1, FIRE, true);
    g.update_with_draws(GAME_TICK_INTERVAL, 0, 0);
    assert!(g.players()[1].get_is_alive());
    assert_eq!(g.players()[1].get_position(), [1, 0]);
    assert_eq!(g.players()[1].get_health(), PLAYER_SPAWN_HEALTH);
}

#[test]
fn won_once_every_opponent_is_spent() {
    let players = vec![
        Player::new(0, [1, 1], LookDirection::Down),
        spent(1, [4, 4]),
        spent(2, [1, 4]),
        spent(3, [4, 1]),
    ];
    let mut g = Game::from_parts(6, 6, open_grid(6, 6), players);
    g.resume();
    assert_eq!(g.state(), GameState::Playing);
    g.update_with_draws(1, 0, 0);
    assert_eq!(g.state(), GameState::Won);
    assert_eq!(g.state_time(), 0);
}

#[test]
fn lost_once_the_human_is_spent() {
    let players = vec![spent(0, [1, 1]), Player::new(1, [4, 4], LookDirection::Up)];
    let mut g = Game::from_parts(6, 6, open_grid(6, 6), players);
    g.resume();
    g.update_with_draws(1, 0, 0);
    assert_eq!(g.state(), GameState::Lost);
}

#[test]
fn menu_phase_is_not_judged() {
    let players = vec![Player::new(0, [1, 1], LookDirection::Down), spent(1, [4, 4])];
    let mut g = Game::from_parts(6, 6, open_grid(6, 6), players);
    g.update_with_draws(1, 0, 0);
    assert_eq!(g.state(), GameState::Menu);
}

#[test]
fn movement_blocked_by_wall_and_combatant() {
    let mut walls = open_grid(4, 4);
    set(&mut walls, 1, 0, WallType::Brick);
    let players = vec![
        Player::new(0, [0, 0], LookDirection::Down),
        Player::new(1, [0, 1], LookDirection::Up),
    ];
    let mut g = Game::from_parts(4, 4, walls, players);
    g.set_player_input(0, [false, true, false, false], false);
    g.update_with_draws(GAME_TICK_INTERVAL, 0, 0);
    assert_eq!(g.players()[0].get_position(), [0, 0]);
    assert_eq!(*g.players()[0].get_direction(), LookDirection::Right);
    g.set_player_input(0, [false, false, true, false], false);
    g.update_with_draws(GAME_TICK_INTERVAL, 0, 0);
    assert_eq!(g.players()[0].get_position(), [0, 0]);
    g.set_player_input(0, [false, false, false, true], false);
    g.update_with_draws(GAME_TICK_INTERVAL, 0, 0);
    assert_eq!(g.players()[0].get_position(), [0, 0]);
    assert_eq!(*g.players()[0].get_direction(), LookDirection::Left);
}

#[test]
fn movement_steps_and_remembers_previous() {
    let mut walls = open_grid(4, 4);
    set(&mut walls, 2, 1, WallType::Net);
    let mut g = Game::from_parts(4, 4, walls, vec![Player::new(0, [1, 1], LookDirection::Up)]);
    g.set_player_input(0, [false, true, false, false], false);
    g.update_with_draws(GAME_TICK_INTERVAL, 0, 0);
    assert_eq!(g.players()[0].get_position(), [2, 1]);
    assert_eq!(g.players()[0].get_previous_position(), [1, 1]);
    // no tick yet: nothing moves
    g.update_with_draws(1, 0, 0);
    assert_eq!(g.players()[0].get_position(), [2, 1]);
}

#[test]
fn pickups_spawn_onto_the_only_empty_tile() {
    let mut walls = open_grid(3, 3);
    for y in 0..3 {
        for x in 0..3 {
            set(&mut walls, x, y, WallType::Brick);
        }
    }
    set(&mut walls, 2, 2, WallType::Empty);
    let mut g = Game::from_parts(3, 3, walls, vec![Player::new(0, [0, 0], LookDirection::Down)]);
    let dt = if ARMOR_SPAWN_TIME > HEALTH_SPAWN_TIME { ARMOR_SPAWN_TIME } else { HEALTH_SPAWN_TIME };
    g.update_with_draws(dt, 5, 11);
    assert_eq!(g.pickups().len(), 2);
    for p in g.pickups() {
        assert_eq!(p.get_position(), [2, 2]);
    }
}

#[test]
fn pickup_spot_follows_the_draw() {
    let mut g = Game::from_parts(3, 1, open_grid(3, 1), vec![Player::new(0, [0, 0], LookDirection::Down)]);
    g.update_with_draws(ARMOR_SPAWN_TIME, 4, 0);
    // empty tiles are (0,0), (1,0), (2,0); draw 4 picks index 1
    assert_eq!(g.pickups()[0].get_position(), [1, 0]);
}

#[test]
fn pickup_is_collected_by_combatant_on_it() {
    let mut g = Game::from_parts(2, 1, open_grid(2, 1), vec![Player::new(0, [0, 0], LookDirection::Down)]);
    g.update_with_draws(ARMOR_SPAWN_TIME, 1, 1);
    let lying = g.pickups().len();
    assert!(lying >= 1);
    g.set_player_input(0, [false, true, false, false], false);
    g.update_with_draws(GAME_TICK_INTERVAL, 0, 0);
    g.set_player_input(0, FIRE, false);
    g.update_with_draws(GAME_TICK_INTERVAL, 0, 0);
    assert_eq!(g.pickups().len(), 0);
    assert_eq!(g.players()[0].get_armor(), 1);
}

#[test]
fn opponent_plans_around_blocked_tile() {
    let mut walls = open_grid(4, 4);
    set(&mut walls, 1, 0, WallType::Brick);
    let players = vec![
        Player::new(0, [0, 0], LookDirection::Down),
        Player::new(1, [2, 0], LookDirection::Down),
    ];
    let mut g = Game::from_parts(4, 4, walls, players);
    g.resume();
    g.update_with_draws(1, 0, 0);
    let bot = &g.players()[1];
    // left is brick, so the next preference (down) is chosen
    assert_eq!(bot.get_pressed_direction(), Some(LookDirection::Down));
    // aligned in the row: faces the human, and fires at close range
    assert_eq!(*bot.get_direction(), LookDirection::Left);
    assert!(bot.get_is_fire_pressed());
}

#[test]
fn opponent_without_free_direction_stays() {
    let mut walls = open_grid(3, 3);
    for (x, y) in [(1, 0), (0, 1), (2, 1), (1, 2)] {
        set(&mut walls, x, y, WallType::Concrete);
    }
    let players = vec![
        Player::new(0, [0, 0], LookDirection::Down),
        Player::new(1, [1, 1], LookDirection::Down),
    ];
    let mut g = Game::from_parts(3, 3, walls, players);
    g.resume();
    g.update_with_draws(1, 0, 0);
    assert_eq!(g.players()[1].get_pressed_direction(), None);
    assert!(!g.players()[1].get_is_fire_pressed());
}

#[test]
fn opponent_with_clear_sight_fires_from_afar() {
    let players = vec![
        Player::new(0, [0, 0], LookDirection::Down),
        Player::new(1, [0, 5], LookDirection::Left),
    ];
    let mut g = Game::from_parts(3, 6, open_grid(3, 6), players);
    g.resume();
    g.update_with_draws(1, 0, 0);
    assert_eq!(*g.players()[1].get_direction(), LookDirection::Up);
    assert!(g.players()[1].get_is_fire_pressed());
    assert_eq!(g.players()[1].get_pressed_direction(), Some(LookDirection::Up));
}

#[test]
fn opponent_behind_wall_holds_fire() {
    let mut walls = open_grid(3, 6);
    set(&mut walls, 0, 2, WallType::Concrete);
    let players = vec![
        Player::new(0, [0, 0], LookDirection::Down),
        Player::new(1, [0, 5], LookDirection::Left),
    ];
    let mut g = Game::from_parts(3, 6, walls, players);
    g.resume();
    g.update_with_draws(1, 0, 0);
    assert!(!g.players()[1].get_is_fire_pressed());
}

#[test]
fn new_game_has_four_combatants_in_cleared_corners() {
    let g = Game::new(10, 8);
    assert_eq!(g.state(), GameState::Menu);
    let ps = g.players();
    assert_eq!(ps.len(), 4);
    assert_eq!(ps[0].get_position(), [0, 0]);
    assert_eq!(ps[1].get_position(), [9, 7]);
    assert_eq!(ps[2].get_position(), [0, 7]);
    assert_eq!(ps[3].get_position(), [9, 0]);
    assert_eq!(*ps[0].get_direction(), LookDirection::Down);
    let walls = g.walls();
    assert_eq!(walls.len(), 8);
    for p in ps {
        let [x, y] = p.get_position();
        assert_eq!(walls[y as usize][x as usize].variant(), WallType::Empty);
    }
    assert_eq!(walls[2][2].variant(), WallType::Empty);
    assert_eq!(walls[4][5].variant() == WallType::Border, false);
}

#[test]
fn reset_returns_to_a_fresh_menu() {
    let players = vec![
        Player::new(0, [0, 0], LookDirection::Right),
        Player::new(1, [1, 0], LookDirection::Left),
    ];
    let mut g = Game::from_parts(5, 5, open_grid(5, 5), players);
    g.resume();
    g.set_player_input(0, FIRE, true);
    g.update_with_draws(PLAYER_SHOT_INTERVAL, 0, 0);
    g.reset();
    assert_eq!(g.state(), GameState::Menu);
    assert_eq!(g.state_time(), 0);
    assert_eq!(g.bullets().len(), 0);
    assert_eq!(g.pickups().len(), 0);
    assert_eq!(g.animations().len(), 0);
    assert_eq!(g.time_since_tick(), 0);
    for p in g.players() {
        assert_eq!(p.get_lives(), PLAYER_LIVES);
        assert_eq!(p.get_kills(), 0);
        assert_eq!(p.get_health(), PLAYER_SPAWN_HEALTH);
    }
    assert_eq!(g.walls()[0][0].variant(), WallType::Empty);
}

#[test]
fn random_frame_keeps_the_game_consistent() {
    let mut g = Game::new_default();
    g.resume();
    for _ in 0..50 {
        g.update_dt(GAME_TICK_INTERVAL);
    }
    for p in g.players() {
        assert_eq!(p.get_is_alive(), p.get_health() > 0);
    }
}

#[test]
fn facing_blocked_reports_edge_and_solid() {
    let mut walls = open_grid(3, 3);
    set(&mut walls, 1, 2, WallType::Brick);
    let g = Game::from_parts(3, 3, walls.clone(), vec![Player::new(0, [0, 0], LookDirection::Up)]);
    assert!(g.human_facing_blocked());
    let g = Game::from_parts(3, 3, walls.clone(), vec![Player::new(0, [1, 1], LookDirection::Down)]);
    assert!(g.human_facing_blocked());
    let g = Game::from_parts(3, 3, walls, vec![Player::new(0, [1, 1], LookDirection::Up)]);
    assert!(!g.human_facing_blocked());
    assert_eq!(g.tick_interval(), GAME_TICK_INTERVAL);
}

#[test]
fn two_shots_into_one_brick_are_both_stopped() {
    let mut walls = open_grid(5, 3);
    set(&mut walls, 2, 1, WallType::Brick);
    let players = vec![
        Player::new(0, [1, 1], LookDirection::Right),
        Player::new(1, [3, 1], LookDirection::Left),
    ];
    let mut g = Game::from_parts(5, 3, walls, players);
    g.set_player_input(0, FIRE, true);
    g.set_player_input(1, FIRE, true);
    g.update_with_draws(PLAYER_SHOT_INTERVAL, 0, 0);
    assert_eq!(g.walls()[1][2].variant(), WallType::Empty);
    assert_eq!(g.bullets().len(), 0);
    assert_eq!(g.animations().len(), 2);
    for a in g.animations() {
        assert_eq!(a.get_position(), [2, 1]);
    }
}

#[test]
fn second_shot_into_a_fresh_kill_is_stopped_without_damage() {
    let mut victim = Player::new(2, [2, 1], LookDirection::Up);
    while victim.get_health() > 1 {
        victim.damage();
    }
    let players = vec![
        Player::new(0, [1, 1], LookDirection::Right),
        Player::new(1, [3, 1], LookDirection::Left),
        victim,
    ];
    let mut g = Game::from_parts(5, 3, open_grid(5, 3), players);
    g.set_player_input(0, FIRE, true);
    g.set_player_input(1, FIRE, true);
    g.update_with_draws(PLAYER_SHOT_INTERVAL, 0, 0);
    let v = &g.players()[2];
    assert!(!v.get_is_alive());
    assert_eq!(v.get_health(), 0);
    assert_eq!(v.get_lives(), PLAYER_LIVES - 1);
    assert_eq!(g.players()[0].get_kills(), 1);
    assert_eq!(g.players()[1].get_kills(), 0);
    assert_eq!(g.bullets().len(), 0);
    assert_eq!(g.animations().len(), 2);
}

fn kill_race(first_id: u32, second_id: u32) -> Game {
    let mut victim = Player::new(3, [2, 1], LookDirection::Up);
    while victim.get_health() > 1 {
        victim.damage();
    }
    let west = if first_id == 1 { [1, 1] } else { [3, 1] };
    let east = if first_id == 1 { [3, 1] } else { [1, 1] };
    let face = |p: [i32; 2]| if p[0] < 2 { LookDirection::Right } else { LookDirection::Left };
    let players = vec![
        Player::new(0, [0, 2], LookDirection::Down),
        Player::new(first_id, west, face(west)),
        Player::new(second_id, east, face(east)),
        victim,
    ];
    let mut g = Game::from_parts(5, 3, open_grid(5, 3), players);
    g.set_player_input(1, FIRE, true);
    g.set_player_input(2, FIRE, true);
    g.update_with_draws(PLAYER_SHOT_INTERVAL, 0, 0);
    g
}

#[test]
fn kill_credit_does_not_depend_on_shot_order() {
    for (a, b) in [(1, 2), (2, 1)] {
        let g = kill_race(a, b);
        assert!(!g.players()[3].get_is_alive());
        let by_id = |id: u32| g.players().iter().find(|p| p.get_id() == id).unwrap().get_kills();
        assert_eq!(by_id(1), 1);
        assert_eq!(by_id(2), 0);
    }
}

fn crossing(human_first: bool) -> Game {
    let a = Player::new(0, [0, 1], LookDirection::Right);
    let b = Player::new(1, [2, 2], LookDirection::Up);
    let players = if human_first { vec![a, b] } else { vec![b, a] };
    let mut g = Game::from_parts(4, 4, open_grid(4, 4), players);
    g.set_player_input(0, FIRE, true);
    g.set_player_input(1, FIRE, true);
    g.update_with_draws(PLAYER_SHOT_INTERVAL, 0, 0);
    g.set_player_input(0, FIRE, false);
    g.set_player_input(1, FIRE, false);
    g.update_with_draws(GAME_TICK_INTERVAL, 0, 0);
    g
}

#[test]
fn meeting_explosion_tile_does_not_depend_on_order() {
    for human_first in [true, false] {
        let g = crossing(human_first);
        assert_eq!(g.bullets().len(), 0);
        assert_eq!(g.animations().len(), 1);
        // one enters (2,1) where the other is, which enters (2,0): the first
        // of the two tiles row by row is (2,0)
        assert_eq!(g.animations()[0].get_position(), [2, 0]);
    }
}

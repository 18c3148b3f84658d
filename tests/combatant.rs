use battlecity::animation::{AnimMode, AnimSheet, Animation};
use battlecity::constants::{
    ANIMATION_FRAME_TIME, EXPLOSION_FRAME_COUNT, PLAYER_LIVES, PLAYER_MAX_ARMOR, PLAYER_MAX_HEALTH,
    PLAYER_SHOT_INTERVAL, PLAYER_SPAWN_HEALTH, SPAWN_FRAME_COUNT,
};
use battlecity::pickup::{Pickup, PickupSpawnSystem, PickupType};
use battlecity::player::Player;
use battlecity::projectile::Projectile;
use battlecity::transform::LookDirection;

#[test]
fn new_player_starts_at_spawn() {
    let p = Player::new(2, [4, 5], LookDirection::Up);
    assert_eq!(p.get_id(), 2);
    assert_eq!(p.get_position(), [4, 5]);
    assert_eq!(p.get_previous_position(), [4, 5]);
    assert_eq!(p.get_spawn(), [4, 5]);
    assert_eq!(*p.get_direction(), LookDirection::Up);
    assert_eq!(p.get_health(), PLAYER_SPAWN_HEALTH);
    assert_eq!(p.get_armor(), 0);
    assert_eq!(p.get_lives(), PLAYER_LIVES);
    assert_eq!(p.get_kills(), 0);
    assert!(p.get_is_alive());
    assert!(p.is_visible());
    assert_eq!(p.get_pressed_direction(), None);
}

#[test]
fn armor_absorbs_before_health() {
    let mut p = Player::new(1, [0, 0], LookDirection::Down);
    assert!(p.add_armor());
    assert_eq!(p.get_armor(), 1);
    assert!(!p.damage());
    assert_eq!(p.get_armor(), 0);
    assert_eq!(p.get_health(), PLAYER_SPAWN_HEALTH);
    assert!(!p.damage());
    assert_eq!(p.get_health(), PLAYER_SPAWN_HEALTH - 1);
}

#[test]
fn last_health_point_kills_and_costs_a_life() {
    let mut p = Player::new(1, [0, 0], LookDirection::Down);
    while p.get_health() > 1 {
        p.damage();
    }
    assert_eq!(p.get_armor(), 0);
    assert_eq!(p.get_health(), 1);
    assert!(p.damage());
    assert_eq!(p.get_health(), 0);
    assert!(!p.get_is_alive());
    assert!(!p.is_visible());
    assert_eq!(p.get_lives(), PLAYER_LIVES - 1);
}

#[test]
fn respawn_restores_spawn_state() {
    let mut p = Player::new(1, [3, 3], LookDirection::Left);
    p.set_position([4, 3]);
    p.set_direction(LookDirection::Up);
    while p.get_is_alive() {
        p.damage();
    }
    assert!(p.can_respawn());
    p.respawn();
    assert!(p.get_is_alive());
    assert_eq!(p.get_position(), [3, 3]);
    assert_eq!(p.get_previous_position(), [3, 3]);
    assert_eq!(*p.get_direction(), LookDirection::Left);
    assert_eq!(p.get_health(), PLAYER_SPAWN_HEALTH);
}

#[test]
fn lives_run_out_after_each_death() {
    let mut p = Player::new(1, [0, 0], LookDirection::Down);
    for _ in 0..PLAYER_LIVES {
        while p.get_is_alive() {
            p.damage();
        }
        if p.can_respawn() {
            p.respawn();
        }
    }
    assert_eq!(p.get_lives(), 0);
    assert!(!p.can_respawn());
    assert!(!p.get_is_alive());
}

#[test]
fn reset_restores_lives_and_kills() {
    let mut p = Player::new(1, [2, 2], LookDirection::Down);
    p.inc_kill_count();
    while p.get_is_alive() {
        p.damage();
    }
    p.reset();
    assert_eq!(p.get_lives(), PLAYER_LIVES);
    assert_eq!(p.get_kills(), 0);
    assert!(p.get_is_alive());
}

#[test]
fn pickups_are_capped_at_maximum() {
    let mut p = Player::new(1, [0, 0], LookDirection::Down);
    for _ in 0..PLAYER_MAX_ARMOR + 3 {
        p.add_armor();
    }
    assert_eq!(p.get_armor(), PLAYER_MAX_ARMOR);
    for _ in 0..PLAYER_MAX_HEALTH + 3 {
        p.add_health();
    }
    assert_eq!(p.get_health(), PLAYER_MAX_HEALTH);
}

#[test]
fn pressed_direction_follows_priority() {
    let mut p = Player::new(1, [0, 0], LookDirection::Down);
    p.set_move_pressed(3, true);
    assert_eq!(p.get_pressed_direction(), Some(LookDirection::Left));
    p.set_move_pressed(2, true);
    assert_eq!(p.get_pressed_direction(), Some(LookDirection::Down));
    p.set_move_pressed(1, true);
    assert_eq!(p.get_pressed_direction(), Some(LookDirection::Right));
    p.set_move_pressed(0, true);
    assert_eq!(p.get_pressed_direction(), Some(LookDirection::Up));
    p.set_move_pressed(0, false);
    assert_eq!(p.get_pressed_direction(), Some(LookDirection::Right));
    p.set_fire_pressed(true);
    assert!(p.get_is_fire_pressed());
}

#[test]
fn shooting_waits_for_reload() {
    let mut p = Player::new(1, [0, 0], LookDirection::Down);
    assert!(p.is_reloading());
    assert!(!p.shoot());
    p.on_frame(PLAYER_SHOT_INTERVAL - 1);
    assert!(!p.shoot());
    p.on_frame(1);
    assert!(!p.is_reloading());
    assert!(p.shoot());
    assert!(p.is_reloading());
}

#[test]
fn frame_index_by_facing_and_armor() {
    let mut p = Player::new(1, [0, 0], LookDirection::Right);
    assert_eq!(p.frame_index(), 1);
    p.set_direction(LookDirection::Left);
    assert_eq!(p.frame_index(), 3);
    p.add_armor();
    assert_eq!(p.frame_index(), 7);
}

#[test]
fn explosion_plays_once_then_finishes() {
    let mut a = Animation::new_explosion([2, 3]);
    assert_eq!(a.get_position(), [2, 3]);
    assert_eq!(a.sheet(), AnimSheet::Explosion);
    for k in 1..EXPLOSION_FRAME_COUNT {
        a.on_frame(ANIMATION_FRAME_TIME);
        assert_eq!(a.current_frame(), k);
        assert!(!a.is_finished());
    }
    a.on_frame(ANIMATION_FRAME_TIME - 1);
    assert!(!a.is_finished());
    a.on_frame(1);
    assert!(a.is_finished());
    assert_eq!(a.current_frame(), EXPLOSION_FRAME_COUNT - 1);
}

#[test]
fn spawn_marker_loops() {
    let mut a = Animation::new_spawn([1, 1]);
    for _ in 0..SPAWN_FRAME_COUNT {
        a.on_frame(ANIMATION_FRAME_TIME);
    }
    assert_eq!(a.current_frame(), 0);
    assert!(!a.is_finished());
    let mut b = Animation::new([0, 0], AnimSheet::Spawn, 3, 10, AnimMode::Loop);
    b.on_frame(25);
    assert_eq!(b.current_frame(), 1);
    b.set_position([4, 4]);
    assert_eq!(b.get_position(), [4, 4]);
    assert_eq!(b.get_previous_position(), [0, 0]);
}

#[test]
fn spawn_timer_is_due_after_its_interval() {
    let mut s = PickupSpawnSystem::new(PickupType::Armor, 100);
    assert!(s.get_pickup_to_spawn().is_none());
    s.on_frame(60);
    assert!(!s.is_due());
    s.on_frame(40);
    let p = s.get_pickup_to_spawn().unwrap();
    assert_eq!(p.get_variant(), PickupType::Armor);
    s.reset_spawn_timer();
    assert!(!s.is_due());
}

#[test]
fn pickup_and_projectile_accessors() {
    let mut p = Pickup::new(PickupType::Health, [1, 2]);
    p.set_position([3, 4]);
    assert_eq!(p.get_position(), [3, 4]);
    assert_eq!(p.get_variant(), PickupType::Health);
    let mut b = Projectile::new(7, [2, 2], LookDirection::Left);
    assert_eq!(b.next_position(), [1, 2]);
    b.set_position([1, 2]);
    assert_eq!(b.get_position(), [1, 2]);
    assert_eq!(b.get_owner_id(), 7);
    assert_eq!(b.get_direction(), LookDirection::Left);
}

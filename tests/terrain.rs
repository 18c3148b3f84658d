use battlecity::transform::LookDirection;
use battlecity::wall::{carve_safe_zone, generate_walls, walls_from_draws, Wall, WallType};

#[test]
fn wall_builders_set_the_kind() {
    let w = Wall::new([3, 4]);
    assert_eq!(w.variant(), WallType::Empty);
    assert_eq!(w.position, [3, 4]);
    assert_eq!(Wall::new([0, 0]).brick().variant(), WallType::Brick);
    assert_eq!(Wall::new([0, 0]).concrete().variant(), WallType::Concrete);
    assert_eq!(Wall::new([0, 0]).net().variant(), WallType::Net);
    assert_eq!(Wall::new([0, 0]).border().variant(), WallType::Border);
    assert_eq!(Wall::new([0, 0]).brick().empty().variant(), WallType::Empty);
}

#[test]
fn solidity_by_kind() {
    assert!(Wall::new([0, 0]).brick().is_solid());
    assert!(Wall::new([0, 0]).concrete().is_solid());
    assert!(Wall::new([0, 0]).border().is_solid());
    assert!(!Wall::new([0, 0]).net().is_solid());
    assert!(!Wall::new([0, 0]).is_solid());
}

#[test]
fn damage_destroys_only_brick() {
    let mut b = Wall::new([1, 2]).brick();
    b.damage();
    assert_eq!(b.variant(), WallType::Empty);
    assert_eq!(b.position, [1, 2]);
    for w in [
        Wall::new([0, 0]).concrete(),
        Wall::new([0, 0]).border(),
        Wall::new([0, 0]).net(),
        Wall::new([0, 0]),
    ] {
        let mut d = w;
        d.damage();
        assert_eq!(d.variant(), w.variant());
    }
}

#[test]
fn steps_in_each_direction() {
    assert_eq!(LookDirection::Up.position_from(&[3, 3]), [3, 2]);
    assert_eq!(LookDirection::Down.position_from(&[3, 3]), [3, 4]);
    assert_eq!(LookDirection::Left.position_from(&[3, 3]), [2, 3]);
    assert_eq!(LookDirection::Right.position_from(&[3, 3]), [4, 3]);
}

#[test]
fn draws_choose_inner_kinds_and_ring_is_border() {
    // 4 x 4: inner tiles are (1,1), (2,1), (1,2), (2,2) at indices 5, 6, 9, 10.
    let mut draws = vec![0u8; 16];
    draws[5] = 6; // 6 % 6 == 0: brick
    draws[6] = 2; // concrete
    draws[9] = 3; // net
    draws[10] = 5; // empty
    let walls = walls_from_draws(4, 4, &draws);
    assert_eq!(walls.len(), 4);
    assert_eq!(walls[1][1].variant(), WallType::Brick);
    assert_eq!(walls[1][2].variant(), WallType::Concrete);
    assert_eq!(walls[2][1].variant(), WallType::Net);
    assert_eq!(walls[2][2].variant(), WallType::Empty);
    for y in 0..4 {
        assert_eq!(walls[y].len(), 4);
        for x in 0..4 {
            assert_eq!(walls[y][x].position, [x as i32, y as i32]);
            let ring = x == 0 || y == 0 || x == 3 || y == 3;
            assert_eq!(walls[y][x].variant() == WallType::Border, ring);
        }
    }
}

#[test]
fn draw_one_and_four_give_brick_and_empty() {
    let mut draws = vec![0u8; 9];
    draws[4] = 1;
    assert_eq!(walls_from_draws(3, 3, &draws)[1][1].variant(), WallType::Brick);
    draws[4] = 4;
    assert_eq!(walls_from_draws(3, 3, &draws)[1][1].variant(), WallType::Empty);
}

#[test]
fn generated_grid_has_border_ring_only() {
    let walls = generate_walls(6, 5);
    assert_eq!(walls.len(), 5);
    for y in 0..5 {
        assert_eq!(walls[y].len(), 6);
        for x in 0..6 {
            let ring = x == 0 || y == 0 || x == 5 || y == 4;
            assert_eq!(walls[y][x].variant() == WallType::Border, ring);
        }
    }
}

#[test]
fn carve_clears_square_and_clips_to_grid() {
    let mut walls: Vec<Vec<Wall>> = (0..5)
        .map(|y| (0..5).map(|x| Wall::new([x, y]).brick()).collect())
        .collect();
    carve_safe_zone(&mut walls, [0, 0], 2);
    for y in 0..5 {
        for x in 0..5 {
            let inside = x <= 2 && y <= 2;
            let expected = if inside { WallType::Empty } else { WallType::Brick };
            assert_eq!(walls[y][x].variant(), expected);
            assert_eq!(walls[y][x].position, [x as i32, y as i32]);
        }
    }
}

#[test]
fn carve_with_negative_radius_changes_nothing() {
    let mut walls: Vec<Vec<Wall>> = (0..3)
        .map(|y| (0..3).map(|x| Wall::new([x, y]).concrete()).collect())
        .collect();
    carve_safe_zone(&mut walls, [1, 1], -1);
    assert!(walls.iter().all(|r| r.iter().all(|w| w.variant() == WallType::Concrete)));
    let mut empty: Vec<Vec<Wall>> = vec![];
    carve_safe_zone(&mut empty, [0, 0], 3);
    assert!(empty.is_empty());
}

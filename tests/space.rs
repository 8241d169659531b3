use space_server::world::{Ballistic, DisplayType, Space};

#[derive(Debug, Clone, Copy, PartialEq)]
struct Body {
    x: f64,
    y: f64,
    vx: f64,
    vy: f64,
}

impl Body {
    fn at(x: f64, y: f64) -> Body {
        Body { x, y, vx: 0.0, vy: 0.0 }
    }
}

impl Ballistic for Body {
    fn projectile(&self, angle: u64) -> Body {
        let a = f64::from_bits(angle);
        Body { x: self.x, y: self.y, vx: a.cos(), vy: a.sin() }
    }
}

fn basic_space() -> Space<Body> {
    Space::new()
}

#[test]
fn add_ship_no_ships() {
    let mut space = basic_space();
    space.spawn_ship(1, Body::at(0.0, 0.0));
    assert_eq!(1, space.ship_count());
}

#[test]
fn add_ship_other_ship_exists() {
    let mut space = basic_space();
    space.spawn_ship(1, Body::at(0.0, 0.0));
    space.spawn_ship(2, Body::at(0.0, 0.0));
    assert_eq!(2, space.ship_count());
}

#[test]
fn add_ship_same_ship_exists() {
    let mut space = basic_space();
    space.spawn_ship(1, Body::at(0.0, 0.0));
    space.spawn_ship(1, Body::at(0.0, 0.0));
    assert_eq!(1, space.ship_count());
}

#[test]
fn remove_ship_ship_exists() {
    let mut space = basic_space();
    space.spawn_ship(1, Body::at(0.0, 0.0));
    space.remove_ship(1);
    assert_eq!(0, space.ship_count());
}

#[test]
fn remove_ship_no_ship() {
    let mut space = basic_space();
    space.remove_ship(1);
    assert_eq!(0, space.ship_count());
}

#[test]
fn move_non_existing_ship_no_panic() {
    let mut space = basic_space();
    space.move_ship(1, None);
}

#[test]
fn space_add_ship_when_no_ships() {
    let mut space: Space<Body> = Space::new();
    let id = space.add_ship(Body::at(0.0, 0.0)).unwrap();
    assert_eq!(1, id);
    assert_eq!(1, space.ship_count());
}

#[test]
fn space_add_ship_when_other_ship_exists() {
    let mut space: Space<Body> = Space::new();
    space.add_ship(Body::at(0.0, 0.0));
    let id = space.add_ship(Body::at(0.0, 0.0)).unwrap();
    assert_eq!(2, id);
    assert_eq!(2, space.ship_count());
}

#[test]
fn space_remove_existing_ship() {
    let mut space: Space<Body> = Space::new();
    let id = space.add_ship(Body::at(0.0, 0.0)).unwrap();
    assert!(space.remove_ship(id));
    assert_eq!(0, space.ship_count());
}

#[test]
fn space_remove_non_existing_ship() {
    let mut space: Space<Body> = Space::new();
    let id = space.add_ship(Body::at(0.0, 0.0)).unwrap();
    space.remove_ship(id);
    assert!(!space.remove_ship(id));
    assert_eq!(0, space.ship_count());
}

#[test]
fn space_move_existing_ship() {
    let mut space: Space<Body> = Space::new();
    let id = space.add_ship(Body::at(0.0, 0.0)).unwrap();
    assert!(space.move_ship(id, Some(0.0f64.to_bits())));
    assert!(space.move_ship(id, None));
}

#[test]
fn space_move_non_existing_ship() {
    let mut space: Space<Body> = Space::new();
    assert!(!space.move_ship(1, None));
}

#[test]
fn space_shoot_existing_ship() {
    let mut space: Space<Body> = Space::new();
    let id = space.add_ship(Body::at(0.0, 0.0)).unwrap();
    assert!(space.shoot(id, 0.0f64.to_bits()));
    assert_eq!(1, space.bullet_count());
}

#[test]
fn space_shoot_non_existing_ship() {
    let mut space: Space<Body> = Space::new();
    assert!(!space.shoot(1, 0.0f64.to_bits()));
    assert_eq!(0, space.bullet_count());
}

#[test]
fn add_ship_takes_one_above_largest_id() {
    let mut space: Space<Body> = Space::new();
    space.spawn_ship(7, Body::at(0.0, 0.0));
    space.spawn_ship(3, Body::at(0.0, 0.0));
    assert_eq!(Some(8), space.add_ship(Body::at(0.0, 0.0)));
}

#[test]
fn add_ship_refused_when_no_id_left() {
    let mut space: Space<Body> = Space::new();
    space.spawn_ship(255, Body::at(0.0, 0.0));
    assert_eq!(None, space.add_ship(Body::at(0.0, 0.0)));
    assert_eq!(1, space.ship_count());
}

#[test]
fn add_then_remove_restores_count_and_second_remove_is_noop() {
    let mut space: Space<Body> = Space::new();
    space.spawn_ship(4, Body::at(1.0, 1.0));
    let before = space.ship_count();
    let id = space.add_ship(Body::at(2.0, 2.0)).unwrap();
    assert!(space.remove_ship(id));
    assert_eq!(before, space.ship_count());
    assert!(!space.remove_ship(id));
    assert_eq!(before, space.ship_count());
    assert_eq!(4, space.ship(0).id);
}

#[test]
fn shoot_places_bullet_at_ship() {
    let mut space: Space<Body> = Space::new();
    let id = space.add_ship(Body::at(12.5, 40.0)).unwrap();
    assert!(space.shoot(id, 0.0f64.to_bits()));
    assert_eq!(1, space.bullet_count());
    let bullet = space.bullet(0);
    assert_eq!(id, bullet.owner_id);
    assert_eq!(12.5, bullet.body.x);
    assert_eq!(40.0, bullet.body.y);
    assert!(!space.shoot(id + 1, 0.0f64.to_bits()));
    assert_eq!(1, space.bullet_count());
}

#[test]
fn move_ship_sets_and_clears_steering() {
    let mut space: Space<Body> = Space::new();
    let id = space.add_ship(Body::at(0.0, 0.0)).unwrap();
    let angle = 1.5f64.to_bits();
    space.move_ship(id, Some(angle));
    assert_eq!(Some(angle), space.ship(0).steering);
    space.move_ship(id, None);
    assert_eq!(None, space.ship(0).steering);
}

#[test]
fn ship_touching_planet_respawns_with_fresh_body() {
    let mut space: Space<Body> = Space::new();
    space.add_planet(Body::at(50.0, 50.0));
    let id = space.add_ship(Body { x: 50.0, y: 50.0, vx: 3.0, vy: -1.0 }).unwrap();
    space.settle_ships(&vec![true], &vec![vec![]], vec![Body::at(12.0, 99.5)]);
    let ship = space.ship(0);
    assert_eq!(id, ship.id);
    assert_eq!(Body::at(12.0, 99.5), ship.body);
    assert_eq!(0.0, ship.body.vx);
    assert_eq!(0.0, ship.body.vy);
    assert_eq!(1, ship.deaths);
    assert_eq!(0, ship.kills);
}

#[test]
fn bullet_hit_scores_kill_and_death_in_same_tick() {
    let mut space: Space<Body> = Space::new();
    let a = space.add_ship(Body::at(10.0, 10.0)).unwrap();
    let b = space.add_ship(Body::at(20.0, 10.0)).unwrap();
    assert!(space.shoot(a, 0.0f64.to_bits()));
    // the bullet (index 0) touches ship b (index 1); it also touches a, its owner
    let contacts = vec![vec![true], vec![true]];
    space.settle_ships(&vec![false, false], &contacts, vec![Body::at(1.0, 1.0), Body::at(2.0, 2.0)]);
    assert_eq!(a, space.ship(0).id);
    assert_eq!(b, space.ship(1).id);
    assert_eq!(1, space.ship(0).kills);
    assert_eq!(0, space.ship(0).deaths);
    assert_eq!(Body::at(10.0, 10.0), space.ship(0).body);
    assert_eq!(0, space.ship(1).kills);
    assert_eq!(1, space.ship(1).deaths);
    assert_eq!(Body::at(2.0, 2.0), space.ship(1).body);
}

#[test]
fn two_bullets_give_two_kills_and_one_respawn() {
    let mut space: Space<Body> = Space::new();
    let a = space.add_ship(Body::at(10.0, 10.0)).unwrap();
    space.add_ship(Body::at(20.0, 10.0)).unwrap();
    space.shoot(a, 0.0f64.to_bits());
    space.shoot(a, 0.5f64.to_bits());
    let contacts = vec![vec![false, false], vec![true, true]];
    space.settle_ships(&vec![false, true], &contacts, vec![Body::at(1.0, 1.0), Body::at(2.0, 2.0)]);
    assert_eq!(2, space.ship(0).kills);
    assert_eq!(1, space.ship(1).deaths);
}

#[test]
fn retire_bullets_keeps_order_of_the_rest() {
    let mut space: Space<Body> = Space::new();
    let a = space.add_ship(Body::at(1.0, 0.0)).unwrap();
    for k in 0..4 {
        space.set_ship_body(0, Body::at(k as f64, 0.0));
        space.shoot(a, 0.0f64.to_bits());
    }
    space.retire_bullets(&vec![true, false, true, false]);
    assert_eq!(2, space.bullet_count());
    assert_eq!(1.0, space.bullet(0).body.x);
    assert_eq!(3.0, space.bullet(1).body.x);
}

#[test]
fn display_list_puts_planets_first() {
    let mut space: Space<Body> = Space::new();
    space.spawn_ship(5, Body::at(0.0, 0.0));
    space.add_planet(Body::at(1.0, 1.0));
    space.add_planet(Body::at(2.0, 2.0));
    let list = space.display_list();
    assert_eq!(
        vec![
            (DisplayType::Planet, None),
            (DisplayType::Planet, None),
            (DisplayType::Ship, Some(5)),
        ],
        list
    );
}

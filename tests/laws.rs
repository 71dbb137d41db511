use rustyhex::control::{MonsterController, MoveController, PlayerController};
use rustyhex::hex::{modulo, Direction, Position, RelativeDir};
use rustyhex::rng::Rng;
use rustyhex::ui::{Key, Mod, UI};
use rustyhex::view::{each_in_vrect, MapView, RelativeMap};
use rustyhex::world::{Action, Controller, Creature, GameMap, Object, Tile};

const ALL: [Direction; 6] =
    [Direction::N, Direction::NE, Direction::SE, Direction::S, Direction::SW, Direction::NW];

fn pos(x: i64, y: i64) -> Position {
    Position { x, y }
}

#[test]
fn turn_laws() {
    for d in ALL {
        assert_eq!(d.turn(RelativeDir::FORWARD), d);
        assert_eq!(d.turn(RelativeDir::RIGHT).turn(RelativeDir::LEFT), d);
        assert_eq!(
            d.turn(RelativeDir::BACKWARD),
            d.turn(RelativeDir::RIGHT).turn(RelativeDir::RIGHT).turn(RelativeDir::RIGHT)
        );
    }
    assert_eq!(Direction::N.turn(RelativeDir::RIGHT), Direction::NE);
    assert_eq!(Direction::N.turn(RelativeDir::LEFT), Direction::NW);
    assert_eq!(Direction::SE.turn(RelativeDir::BACKWARD), Direction::NW);
    assert_eq!(Direction::N.turn_by_int(-7), Direction::NW);
    assert_eq!(Direction::S.turn_by_int(i64::MAX), Direction::SW);
    let mut d = Direction::SW;
    d.turn_mut(RelativeDir::RIGHT);
    assert_eq!(d, Direction::NW);
}

#[test]
fn relative_direction_codes() {
    assert_eq!(RelativeDir::FORWARD.to_int(), 0);
    assert_eq!(RelativeDir::RIGHT.to_int(), 1);
    assert_eq!(RelativeDir::BACKWARD.to_int(), 3);
    assert_eq!(RelativeDir::LEFT.to_int(), 5);
    assert_eq!(Direction::NW.to_uint(), 5);
    assert_eq!(Direction::N.relative_to(Direction::NE), Direction::NW);
    assert_eq!(Direction::S.relative_to(Direction::NE), Direction::SE);
}

#[test]
fn neighbor_then_opposite_returns() {
    let p = pos(-3, 17);
    for d in ALL {
        let n = p.neighbor(d);
        assert_ne!(n, p);
        assert!(n.is_neighbor(p));
        assert_eq!(n.neighbor(d.turn(RelativeDir::BACKWARD)), p);
    }
    assert_eq!(p.neighbor(Direction::NW), pos(-4, 16));
    assert_eq!(p.neighbor(Direction::SE), pos(-2, 18));
}

#[test]
fn neighbour_offsets() {
    let o = pos(0, 0);
    assert!(o.is_neighbor(pos(0, 1)));
    assert!(o.is_neighbor(pos(1, 1)));
    assert!(o.is_neighbor(pos(-1, -1)));
    assert!(!o.is_neighbor(pos(1, -1)));
    assert!(!o.is_neighbor(pos(-1, 1)));
    assert!(!o.is_neighbor(o));
    assert!(!pos(i64::MAX, 0).is_neighbor(pos(i64::MIN, 0)));
    assert_eq!(pos(5, 7).relative_to(pos(2, 9)), pos(3, -2));
}

#[test]
fn wrap_laws() {
    let map = GameMap::filled(Tile::FLOOR);
    for p in [pos(0, 0), pos(-1, -33), pos(100, 31), pos(i64::MIN, i64::MAX)] {
        let w = map.wrap_position(p);
        assert!(0 <= w.x && w.x < 32 && 0 <= w.y && w.y < 32);
        assert_eq!(map.wrap_position(w), w);
    }
    assert_eq!(map.wrap_position(pos(-1, -33)), pos(31, 31));
    assert_eq!(map.wrap_position(pos(5 + 32, 9)), map.wrap_position(pos(5, 9)));
    assert_eq!(modulo(-1, 32), 31);
    assert_eq!(modulo(-64, 32), 0);
    assert_eq!(modulo(i64::MIN, 6), 4);
}

#[test]
fn each_around_order() {
    let v = pos(0, 0).each_around(1, 0, 1, 1);
    assert_eq!(v, vec![pos(-1, -2), pos(0, -1), pos(1, -1), pos(-1, -1), pos(0, 0), pos(1, 0)]);
    let mut map = GameMap::filled(Tile::FLOOR);
    let id = map.spawn_creature(pos(0, 0), Direction::N, Controller::Player).unwrap();
    let rect = map.roster[id].each_in_view_rect();
    assert_eq!(rect.len(), 13 * 21);
    assert_eq!(rect[0], pos(-10, -15));
    assert_eq!(rect[10], pos(0, -10));
}

#[test]
fn symmetric_creatures_see_symmetric_masks() {
    let mut map = GameMap::filled(Tile::FLOOR);
    let a = map.spawn_creature(pos(5, 5), Direction::N, Controller::Monster).unwrap();
    let b = map.spawn_creature(pos(-5, -5), Direction::N, Controller::Monster).unwrap();
    let tiles = map.tiles.clone();
    map.roster[a].update_visibility(&tiles);
    map.roster[b].update_visibility(&tiles);
    for x in 0..32 {
        for y in 0..32 {
            assert_eq!(
                map.roster[a].sees(pos(x, y)),
                map.roster[b].sees(pos(x - 10, y - 10)),
                "cell ({}, {})",
                x,
                y
            );
        }
    }
}

#[test]
fn seen_cells_are_known_and_near() {
    let mut rng = Rng::new(42);
    let mut map = GameMap::new(&mut rng);
    let id = map.spawn_random_creature(&mut rng, Controller::Player).unwrap();
    let tiles = map.tiles.clone();
    for step in 0..50 {
        map.roster[id].update_visibility(&tiles);
        let c = &map.roster[id];
        let p = c.pos;
        for x in 0..32i64 {
            for y in 0..32i64 {
                if c.sees(pos(x, y)) {
                    assert!(c.knows(pos(x, y)));
                    let dx = (x - p.x).rem_euclid(32).min((p.x - x).rem_euclid(32));
                    let dy = (y - p.y).rem_euclid(32).min((p.y - y).rem_euclid(32));
                    assert!(dx <= 9 && dy <= 9, "step {} cell ({}, {})", step, x, y);
                }
            }
        }
        let a = if step % 3 == 0 { Action::TURN(RelativeDir::RIGHT) } else { Action::MOVE(RelativeDir::FORWARD) };
        Creature::tick(&mut map, id, a);
    }
}

#[test]
fn tick_does_one_thing() {
    let mut map = GameMap::filled(Tile::FLOOR);
    let id = map.spawn_creature(pos(4, 4), Direction::N, Controller::Monster).unwrap();
    let start = map.roster[id].last_hit_time;
    assert_eq!(start, 1000);
    assert!(!Creature::tick(&mut map, id, Action::TURN(RelativeDir::RIGHT)));
    assert_eq!(map.roster[id].action, Some(Action::TURN(RelativeDir::RIGHT)));
    assert_eq!((map.roster[id].pre_action_ticks, map.roster[id].post_action_ticks), (5, 5));
    for i in 0..5u64 {
        assert!(!Creature::tick(&mut map, id, Action::WAIT));
        assert_eq!(map.roster[id].pre_action_ticks, 4 - i);
        assert_eq!(map.roster[id].dir, Direction::N);
    }
    assert!(Creature::tick(&mut map, id, Action::WAIT));
    assert_eq!(map.roster[id].dir, Direction::NE);
    assert_eq!(map.roster[id].action, None);
    for i in 0..5u64 {
        assert!(!Creature::tick(&mut map, id, Action::WAIT));
        assert_eq!(map.roster[id].post_action_ticks, 4 - i);
    }
    assert!(!Creature::tick(&mut map, id, Action::WAIT));
    assert_eq!(map.roster[id].action, Some(Action::WAIT));
    assert_eq!(map.roster[id].last_hit_time, start + 13);
}

#[test]
fn action_costs() {
    let mut map = GameMap::filled(Tile::FLOOR);
    let id = map.spawn_creature(pos(1, 1), Direction::N, Controller::Monster).unwrap();
    let cr = &map.roster[id];
    let table = [
        (Action::MOVE(RelativeDir::FORWARD), 10, 10),
        (Action::MOVE(RelativeDir::LEFT), 10, 10),
        (Action::MOVE(RelativeDir::BACKWARD), 15, 10),
        (Action::RUN(RelativeDir::FORWARD), 5, 5),
        (Action::RUN(RelativeDir::BACKWARD), 15, 10),
        (Action::RUN(RelativeDir::RIGHT), 10, 10),
        (Action::TURN(RelativeDir::LEFT), 5, 5),
        (Action::MELEE(RelativeDir::RIGHT), 2, 10),
        (Action::WAIT, 1, 0),
        (Action::USE, 0, 0),
    ];
    for (a, pre, post) in table {
        assert_eq!(a.pre_ticks(cr, &map), pre);
        assert_eq!(a.post_ticks(cr, &map), post);
    }
    map.spawn_object(pos(1, 1), Object::medkit());
    let cr = &map.roster[id];
    assert_eq!(Action::USE.pre_ticks(cr, &map), 30);
    assert_eq!(Action::USE.post_ticks(cr, &map), 30);
}

#[test]
fn spawning_rules() {
    let mut map = GameMap::filled(Tile::FLOOR);
    map.set_tile(pos(3, 3), Tile::WALL);
    assert_eq!(map.spawn_creature(pos(3, 3), Direction::N, Controller::Monster), None);
    let a = map.spawn_creature(pos(36, 3), Direction::S, Controller::Monster).unwrap();
    assert_eq!(map.roster[a].pos, pos(4, 3));
    assert_eq!(map.spawn_creature(pos(4, 3), Direction::N, Controller::Monster), None);
    let b = map.spawn_creature(pos(5, 3), Direction::N, Controller::Monster).unwrap();
    assert_eq!(map.creature_at(pos(5, 3)), Some(b));
    map.spawn_object(pos(3, 3), Object::medkit());
    assert!(map.objects_at(pos(3, 3)).is_empty());
    map.spawn_object(pos(4, 3), Object::medkit());
    map.spawn_object(pos(36, 35), Object::medkit());
    assert_eq!(map.objects_at(pos(4, 3)).len(), 2);
    let mut ids = map.creature_ids();
    ids.sort();
    assert_eq!(ids, vec![a, b]);
}

#[test]
fn random_grid_and_spawns() {
    let mut rng = Rng::new(1);
    let mut map = GameMap::new(&mut rng);
    let walls = map.tiles.iter().filter(|t| **t == Tile::WALL).count();
    assert!(walls > 200 && walls < 500, "{} walls", walls);
    for _ in 0..30 {
        let id = map.spawn_random_creature(&mut rng, Controller::Monster).unwrap();
        let c = &map.roster[id];
        assert_eq!(map.at(c.pos), Tile::FLOOR);
        assert_eq!(map.creature_at(c.pos), Some(id));
    }
    assert_eq!(map.creature_ids().len(), 30);
}

#[test]
fn rng_ranges() {
    let mut rng = Rng::new(0);
    let first = rng.next_u64();
    assert_eq!(first, 0xE220_A839_7B1D_CDAF);
    for _ in 0..1000 {
        let r = rng.gen_int_range(-3, 4);
        assert!((-3..4).contains(&r));
    }
    let r = rng.gen_int_range(i64::MIN, i64::MAX);
    assert!(r < i64::MAX);
}

#[test]
fn key_mapping() {
    let mut ui = UI::new();
    assert_eq!(ui.keyevent_to_action(&Key::Up, &[]), Some(Action::MOVE(RelativeDir::FORWARD)));
    assert_eq!(ui.keyevent_to_action(&Key::J, &[]), Some(Action::MOVE(RelativeDir::BACKWARD)));
    assert_eq!(ui.keyevent_to_action(&Key::H, &[]), Some(Action::TURN(RelativeDir::LEFT)));
    assert_eq!(ui.keyevent_to_action(&Key::Right, &[]), Some(Action::TURN(RelativeDir::RIGHT)));
    assert_eq!(ui.keyevent_to_action(&Key::K, &[Mod::LShift]), Some(Action::RUN(RelativeDir::FORWARD)));
    assert_eq!(ui.keyevent_to_action(&Key::L, &[Mod::LShift]), Some(Action::MOVE(RelativeDir::RIGHT)));
    assert_eq!(
        ui.keyevent_to_action(&Key::L, &[Mod::LShift, Mod::LCtrl]),
        Some(Action::MELEE(RelativeDir::RIGHT))
    );
    assert_eq!(ui.keyevent_to_action(&Key::U, &[Mod::LCtrl]), Some(Action::USE));
    assert_eq!(ui.keyevent_to_action(&Key::Comma, &[]), Some(Action::WAIT));
    assert_eq!(ui.keyevent_to_action(&Key::Other, &[Mod::LCtrl]), None);
    assert!(!ui.exit);
    assert_eq!(ui.keyevent_to_action(&Key::Escape, &[]), Some(Action::WAIT));
    assert!(ui.exit);
    let mut ui = UI::new();
    ui.set_player(3);
    ui.check_exit_input(Some(Key::K));
    assert!(!ui.exit);
    ui.check_exit_input(Some(Key::Escape));
    assert!(ui.exit);
    assert_eq!(ui.player, Some(3));
}

#[test]
fn relative_map_translation() {
    let mut map = GameMap::filled(Tile::FLOOR);
    map.set_tile(pos(10, 9), Tile::WALL);
    let origin = pos(10, 10);
    let expect = [
        (Direction::N, pos(10, 9)),
        (Direction::S, pos(10, 11)),
        (Direction::NW, pos(9, 9)),
        (Direction::SE, pos(11, 11)),
        (Direction::NE, pos(11, 10)),
        (Direction::SW, pos(9, 10)),
    ];
    for (d, world) in expect {
        let rm = RelativeMap::new(&map, origin, d);
        assert_eq!(rm.translate(pos(0, -1)), world);
        assert_eq!(rm.translate(pos(0, -1)), origin.neighbor(d));
        assert_eq!(rm.at(pos(0, -1)), map.at(world));
        assert_eq!(rm.creature_at(pos(0, -1)), None);
        assert!(rm.objects_at(pos(0, -1)).is_empty());
        assert!(std::ptr::eq(rm.base(), &map));
    }
    assert_eq!(MapView::translate(&map, pos(3, 4)), pos(3, 4));
}

#[test]
fn hit_clock_and_life() {
    let mut map = GameMap::filled(Tile::FLOOR);
    let id = map.spawn_creature(pos(6, 6), Direction::N, Controller::Monster).unwrap();
    Creature::hit(&mut map, id);
    assert_eq!(map.roster[id].life, 2);
    assert_eq!(map.roster[id].last_hit_time, 0);
    Creature::hit(&mut map, id);
    Creature::hit(&mut map, id);
    assert!(!map.roster[id].alive());
    assert_eq!(map.creature_at(pos(6, 6)), None);
    let mut c = Creature::new(pos(1, 2), Direction::S, Controller::Player);
    assert!(c.is_player());
    assert_eq!(c.position(), pos(1, 2));
    c.mark_visible(pos(33, 2));
    assert!(c.sees(pos(1, 2)));
    assert!(!c.knows(pos(1, 2)));
    c.mark_known(pos(1, -30));
    assert!(c.knows(pos(1, 2)));
    c.turn(RelativeDir::LEFT);
    assert_eq!(c.dir, Direction::SE);
}

#[test]
fn vrect_scan_reads_through_the_frame() {
    let mut map = GameMap::filled(Tile::FLOOR);
    map.set_tile(pos(9, 10), Tile::WALL);
    let rm = RelativeMap::new(&map, pos(10, 10), Direction::SE);
    let cells = each_in_vrect(&rm, pos(0, 0), 1, 1);
    assert_eq!(cells.len(), 9);
    assert_eq!(cells[0].0, pos(-1, -2));
    assert_eq!(cells[4].0, pos(0, 0));
    assert_eq!(cells[8].0, pos(1, 1));
    for (p, t) in &cells {
        assert_eq!(*t, map.at(rm.translate(*p)));
    }
    // SE frame: local (1, 0) is world (10 - 0, 10 - 0 + 1).
    assert_eq!(rm.translate(pos(1, 0)), pos(10, 11));
    assert_eq!(rm.translate(pos(0, 1)), pos(9, 9));
    let walls = cells.iter().filter(|(_, t)| *t == Tile::WALL).count();
    assert_eq!(walls, 1);
    assert_eq!(cells[8].1, Tile::WALL);
    let direct = each_in_vrect(&map, pos(9, 10), 0, 0);
    assert_eq!(direct, vec![(pos(9, 10), Tile::WALL)]);
}

#[test]
fn random_draws_are_replayable() {
    let map = GameMap::filled(Tile::FLOOR);
    let mut a = Rng::new(99);
    let mut b = Rng::new(99);
    let p = map.random_pos(&mut a);
    let x = b.gen_int_range(0, 32);
    let y = b.gen_int_range(0, 32);
    assert_eq!(p, pos(x, y));
    assert_eq!(a.state, b.state);

    let mut r1 = Rng::new(5);
    let mut r2 = Rng::new(5);
    let grid = GameMap::new(&mut r1);
    for i in 0..1024 {
        let t = if r2.gen_int_range(0, 3) == 0 { Tile::WALL } else { Tile::FLOOR };
        assert_eq!(grid.tiles[i], t);
    }
    assert_eq!(r1.state, r2.state);
}

#[test]
fn random_spawn_takes_first_free_draw() {
    let mut map = GameMap::filled(Tile::FLOOR);
    let mut probe = Rng::new(11);
    let first = map.random_pos(&mut probe);
    let facing = Direction::N.turn_by_int(probe.gen_int_range(0, 6));
    let mut rng = Rng::new(11);
    let id = map.spawn_random_creature(&mut rng, Controller::Monster).unwrap();
    assert_eq!(map.roster[id].pos, first);
    assert_eq!(map.roster[id].dir, facing);
    assert_eq!(rng.state, probe.state);
}

#[test]
fn random_spawn_finds_the_last_free_cell() {
    let mut map = GameMap::filled(Tile::WALL);
    map.set_tile(pos(17, 3), Tile::FLOOR);
    let mut rng = Rng::new(3);
    let id = map.spawn_random_creature(&mut rng, Controller::Monster).unwrap();
    assert_eq!(map.roster[id].pos, pos(17, 3));
    assert_eq!(map.spawn_random_creature(&mut rng, Controller::Monster), None);
    assert_eq!(map.roster.len(), 1);
}

#[test]
fn controllers_answer_as_stated() {
    let mut map = GameMap::filled(Tile::FLOOR);
    let monster = map.spawn_creature(pos(4, 4), Direction::N, Controller::Monster).unwrap();
    let mut ctl = MonsterController::new(21);
    let mut shadow = Rng::new(21);
    for _ in 0..20 {
        let roll = shadow.gen_int_range(0, 10);
        let expect = MonsterController::decide(&map, monster, roll);
        assert_eq!(ctl.get_move(&map, monster), expect);
        assert_eq!(ctl.rng.state, shadow.state);
    }
    let mut player = PlayerController::new();
    assert_eq!(player.get_move(&map, monster), Action::WAIT);
    player.pending = Action::USE;
    assert_eq!(player.get_move(&map, monster), Action::USE);
}

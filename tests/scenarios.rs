use rustyhex::control::{MonsterController, MoveController};
use rustyhex::hex::{Direction, Position, RelativeDir};
use rustyhex::world::{Action, Controller, Creature, GameMap, Object, Tile};

fn pos(x: i64, y: i64) -> Position {
    Position { x, y }
}

fn spawn(map: &mut GameMap, x: i64, y: i64, dir: Direction, c: Controller) -> usize {
    map.spawn_creature(pos(x, y), dir, c).expect("cell is free floor")
}

/// Ticks until the creature is idle and asks for an action, then schedules `a`.
fn schedule(map: &mut GameMap, id: usize, a: Action) {
    let redraw = Creature::tick(map, id, a);
    assert!(!redraw);
    assert_eq!(map.roster[id].action, Some(a));
}

#[test]
fn medkit_pickup() {
    let mut map = GameMap::filled(Tile::FLOOR);
    let id = spawn(&mut map, 5, 5, Direction::N, Controller::Monster);
    assert_eq!(map.roster[id].life, 3);
    map.spawn_object(pos(5, 5), Object::medkit());
    schedule(&mut map, id, Action::USE);
    assert_eq!(map.roster[id].pre_action_ticks, 30);
    assert_eq!(map.roster[id].post_action_ticks, 30);
    for _ in 0..30 {
        assert!(!Creature::tick(&mut map, id, Action::WAIT));
        assert_eq!(map.roster[id].life, 3);
    }
    assert!(Creature::tick(&mut map, id, Action::WAIT));
    assert_eq!(map.roster[id].life, 4);
    assert!(map.objects_at(pos(5, 5)).is_empty());
}

#[test]
fn blocked_step() {
    let mut map = GameMap::filled(Tile::FLOOR);
    map.set_tile(pos(5, 4), Tile::WALL);
    let id = spawn(&mut map, 5, 5, Direction::N, Controller::Monster);
    schedule(&mut map, id, Action::MOVE(RelativeDir::FORWARD));
    for _ in 0..10 {
        assert!(!Creature::tick(&mut map, id, Action::WAIT));
    }
    assert!(Creature::tick(&mut map, id, Action::WAIT));
    assert_eq!(map.roster[id].pos, pos(5, 5));
    assert!(map.roster[id].knows(pos(5, 4)));
    assert_eq!(map.roster[id].post_action_ticks, 10);
    assert_eq!(map.creature_at(pos(5, 5)), Some(id));
}

#[test]
fn melee_kill() {
    let mut map = GameMap::filled(Tile::FLOOR);
    let attacker = spawn(&mut map, 0, 0, Direction::N, Controller::Monster);
    let target = spawn(&mut map, 0, -1, Direction::N, Controller::Monster);
    assert_eq!(map.roster[target].pos, pos(0, 31));
    map.roster[target].life = 1;
    schedule(&mut map, attacker, Action::MELEE(RelativeDir::FORWARD));
    assert_eq!(map.roster[attacker].pre_action_ticks, 2);
    for _ in 0..2 {
        assert!(!Creature::tick(&mut map, attacker, Action::WAIT));
    }
    assert!(Creature::tick(&mut map, attacker, Action::WAIT));
    assert_eq!(map.creature_at(pos(0, 31)), None);
    assert!(!map.roster[target].alive());
    assert_eq!(map.roster[target].last_hit_time, 0);
    assert_eq!(map.roster[attacker].post_action_ticks, 10);
}

#[test]
fn melee_wounds_without_killing() {
    let mut map = GameMap::filled(Tile::FLOOR);
    let attacker = spawn(&mut map, 3, 3, Direction::S, Controller::Monster);
    let target = spawn(&mut map, 3, 4, Direction::N, Controller::Monster);
    Creature::melee(&mut map, attacker, RelativeDir::FORWARD);
    assert_eq!(map.roster[target].life, 2);
    assert_eq!(map.roster[target].last_hit_time, 0);
    assert_eq!(map.creature_at(pos(3, 4)), Some(target));
}

#[test]
fn wrap_around_move() {
    let mut map = GameMap::filled(Tile::FLOOR);
    let id = spawn(&mut map, 0, 5, Direction::SW, Controller::Monster);
    schedule(&mut map, id, Action::MOVE(RelativeDir::FORWARD));
    for _ in 0..10 {
        Creature::tick(&mut map, id, Action::WAIT);
    }
    assert!(Creature::tick(&mut map, id, Action::WAIT));
    assert_eq!(map.roster[id].pos, pos(31, 5));
    assert_eq!(map.creature_at(pos(31, 5)), Some(id));
    assert_eq!(map.creature_at(pos(0, 5)), None);
}

#[test]
fn move_across_east_edge_wraps() {
    let mut map = GameMap::filled(Tile::FLOOR);
    let id = spawn(&mut map, 31, 7, Direction::NE, Controller::Monster);
    Creature::walk(&mut map, id, RelativeDir::FORWARD);
    assert_eq!(map.roster[id].pos, pos(0, 7));
}

#[test]
fn move_into_occupied_cell_stays() {
    let mut map = GameMap::filled(Tile::FLOOR);
    let a = spawn(&mut map, 8, 8, Direction::N, Controller::Monster);
    let b = spawn(&mut map, 8, 7, Direction::N, Controller::Monster);
    Creature::walk(&mut map, a, RelativeDir::FORWARD);
    assert_eq!(map.roster[a].pos, pos(8, 8));
    assert_eq!(map.roster[b].pos, pos(8, 7));
    assert!(map.roster[a].knows(pos(8, 7)));
}

#[test]
fn walled_in_creature_cannot_move() {
    let mut map = GameMap::filled(Tile::FLOOR);
    let centre = pos(10, 10);
    for d in [Direction::N, Direction::NE, Direction::SE, Direction::S, Direction::SW, Direction::NW] {
        map.set_tile(centre.neighbor(d), Tile::WALL);
    }
    let id = spawn(&mut map, 10, 10, Direction::N, Controller::Monster);
    let actions = [
        Action::MOVE(RelativeDir::FORWARD),
        Action::MOVE(RelativeDir::BACKWARD),
        Action::MOVE(RelativeDir::LEFT),
        Action::MOVE(RelativeDir::RIGHT),
        Action::RUN(RelativeDir::FORWARD),
        Action::RUN(RelativeDir::BACKWARD),
        Action::TURN(RelativeDir::LEFT),
        Action::MELEE(RelativeDir::FORWARD),
        Action::USE,
        Action::WAIT,
    ];
    for a in actions {
        for _ in 0..40 {
            Creature::tick(&mut map, id, a);
            assert_eq!(map.roster[id].pos, centre);
        }
    }
}

#[test]
fn use_on_empty_cell_is_free_and_does_nothing() {
    let mut map = GameMap::filled(Tile::FLOOR);
    let id = spawn(&mut map, 2, 2, Direction::N, Controller::Monster);
    schedule(&mut map, id, Action::USE);
    assert_eq!(map.roster[id].pre_action_ticks, 0);
    assert_eq!(map.roster[id].post_action_ticks, 0);
    assert!(Creature::tick(&mut map, id, Action::WAIT));
    assert_eq!(map.roster[id].life, 3);
    assert_eq!(map.roster[id].pos, pos(2, 2));
    assert_eq!(map.roster[id].action, None);
}

#[test]
fn visibility_cone() {
    let mut map = GameMap::filled(Tile::FLOOR);
    let id = spawn(&mut map, 16, 16, Direction::N, Controller::Player);
    let tiles = map.tiles.clone();
    map.roster[id].update_visibility(&tiles);
    let c = &map.roster[id];
    assert!(c.sees(pos(16, 15)));
    // Nine steps ahead is the last cell the ten-step flood reaches.
    assert!(c.sees(pos(16, 7)));
    assert!(!c.sees(pos(16, 6)));
    assert!(!c.sees(pos(16, 5)));
    assert!(!c.sees(pos(16, 17)));
    assert!(c.sees(pos(16, 16)));
}

#[test]
fn walls_block_sight() {
    let mut map = GameMap::filled(Tile::FLOOR);
    map.set_tile(pos(16, 14), Tile::WALL);
    let id = spawn(&mut map, 16, 16, Direction::N, Controller::Player);
    let tiles = map.tiles.clone();
    map.roster[id].update_visibility(&tiles);
    let c = &map.roster[id];
    assert!(c.sees(pos(16, 14)));
    assert!(!c.sees(pos(16, 13)));
}

#[test]
fn monster_reaction() {
    let mut map = GameMap::filled(Tile::FLOOR);
    let _player = spawn(&mut map, 10, 10, Direction::N, Controller::Player);
    let monster = spawn(&mut map, 10, 9, Direction::S, Controller::Monster);
    for roll in 0..10 {
        assert_eq!(
            MonsterController::decide(&map, monster, roll),
            Action::MELEE(RelativeDir::FORWARD)
        );
    }
    let mut ctl = MonsterController::new(7);
    assert_eq!(ctl.get_move(&map, monster), Action::MELEE(RelativeDir::FORWARD));
}

#[test]
fn monster_turns_away_from_monster() {
    let mut map = GameMap::filled(Tile::FLOOR);
    let _other = spawn(&mut map, 10, 10, Direction::N, Controller::Monster);
    let monster = spawn(&mut map, 10, 9, Direction::S, Controller::Monster);
    assert_eq!(MonsterController::decide(&map, monster, 5), Action::TURN(RelativeDir::LEFT));
}

#[test]
fn monster_wanders_by_roll() {
    let mut map = GameMap::filled(Tile::FLOOR);
    let monster = spawn(&mut map, 10, 9, Direction::S, Controller::Monster);
    assert_eq!(MonsterController::decide(&map, monster, 0), Action::TURN(RelativeDir::LEFT));
    assert_eq!(MonsterController::decide(&map, monster, 1), Action::TURN(RelativeDir::RIGHT));
    assert_eq!(MonsterController::decide(&map, monster, 2), Action::MOVE(RelativeDir::FORWARD));
    map.set_tile(pos(10, 10), Tile::WALL);
    assert_eq!(MonsterController::decide(&map, monster, 9), Action::TURN(RelativeDir::LEFT));
}

#[test]
fn driver_turn_skips_dead_and_refreshes_sight() {
    let mut map = GameMap::filled(Tile::FLOOR);
    let player = spawn(&mut map, 16, 16, Direction::N, Controller::Player);
    let monster = spawn(&mut map, 16, 15, Direction::S, Controller::Monster);
    assert!(map.roster[player].awaits_action());
    assert!(!map.advance(player, player, Action::TURN(RelativeDir::RIGHT)));
    assert!(!map.roster[player].awaits_action());
    assert!(!map.roster[player].sees(pos(16, 15)));
    for _ in 0..5 {
        assert!(!map.advance(player, player, Action::WAIT));
    }
    assert!(map.advance(player, player, Action::WAIT));
    assert_eq!(map.roster[player].dir, Direction::NE);
    assert!(map.roster[player].sees(pos(17, 16)));
    assert!(map.roster[player].knows(pos(17, 16)));
    map.roster[monster].life = 1;
    Creature::hit(&mut map, monster);
    let before = map.roster[monster].last_hit_time;
    assert!(!map.advance(monster, player, Action::WAIT));
    assert_eq!(map.roster[monster].last_hit_time, before);
}

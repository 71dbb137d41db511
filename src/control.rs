use crate::hex::{adjacent, turned, RelativeDir};
use crate::rng::{mix, Rng, GOLDEN_GAMMA};
use crate::world::{Action, Controller, Creature, GameMap, Tile, WorldState};
use vstd::prelude::*;

verus! {

/// What a monster does about the cell along its facing turned by `rd`: attack a player
/// there, turn away from another monster, or nothing if the cell is empty.
pub open spec fn reaction(s: WorldState, id: int, rd: RelativeDir) -> Option<Action> {
    let k = s.roster[id];
    match s.occupant(adjacent(k.pos, turned(k.dir, rd))) {
        Some(c) => if s.roster[c as int].controller == Controller::Player {
            Some(Action::MELEE(rd))
        } else {
            Some(Action::TURN(RelativeDir::LEFT))
        },
        None => None,
    }
}

/// A monster's next action, given a roll in `0..10`: react to the first occupied cell
/// among front, front-left and front-right; otherwise turn left on 0, right on 1, and
/// else step forward if the cell ahead is not a wall, or turn left if it is.
pub open spec fn monster_policy(s: WorldState, id: int, roll: int) -> Action {
    if reaction(s, id, RelativeDir::FORWARD).is_some() {
        reaction(s, id, RelativeDir::FORWARD).unwrap()
    } else if reaction(s, id, RelativeDir::LEFT).is_some() {
        reaction(s, id, RelativeDir::LEFT).unwrap()
    } else if reaction(s, id, RelativeDir::RIGHT).is_some() {
        reaction(s, id, RelativeDir::RIGHT).unwrap()
    } else if roll == 0 {
        Action::TURN(RelativeDir::LEFT)
    } else if roll == 1 {
        Action::TURN(RelativeDir::RIGHT)
    } else if s.tile_at(adjacent(s.roster[id].pos, s.roster[id].dir)) != Tile::WALL {
        Action::MOVE(RelativeDir::FORWARD)
    } else {
        Action::TURN(RelativeDir::LEFT)
    }
}

/// Something that chooses a creature's next action.
pub trait MoveController {
    fn get_move(&mut self, map: &GameMap, id: usize) -> (r: Action)
        requires
            map.wf(),
            id < map@.roster.len(),
    ;
}

/// Chooses for the protagonist: hands out the action the input source delivered.
pub struct PlayerController {
    pub pending: Action,
}

impl PlayerController {
    /// A controller whose first answer is to wait.
    pub fn new() -> (r: PlayerController)
        ensures
            r.pending == Action::WAIT,
    {
        PlayerController { pending: Action::WAIT }
    }
}

impl MoveController for PlayerController {
    fn get_move(&mut self, map: &GameMap, id: usize) -> (r: Action)
        ensures
            r == old(self).pending,
            *final(self) == *old(self),
    {
        self.pending
    }
}

/// Chooses for a monster, by its reactive policy and its own random source.
pub struct MonsterController {
    pub rng: Rng,
}

impl MonsterController {
    /// A monster controller whose random source starts from `seed`.
    pub fn new(seed: u64) -> (r: MonsterController)
        ensures
            r.rng.state == seed,
    {
        MonsterController { rng: Rng::new(seed) }
    }

    /// The reaction of monster `id` to the cell along its facing turned by `rd`.
    fn react(map: &GameMap, id: usize, rd: RelativeDir) -> (r: Option<Action>)
        requires
            map.wf(),
            id < map@.roster.len(),
        ensures
            r == reaction(map@, id as int, rd),
    {
        let cr = &map.roster[id];
        assert(map@.roster[id as int].wf());
        let pos = cr.pos.neighbor(cr.dir.turn(rd));
        match map.creature_at(pos) {
            None => None,
            Some(c) => {
                if map.roster[c].is_player() {
                    Some(Action::MELEE(rd))
                } else {
                    Some(Action::TURN(RelativeDir::LEFT))
                }
            },
        }
    }

    /// The action of monster `id` for a given roll in `0..10`.
    pub fn decide(map: &GameMap, id: usize, roll: i64) -> (r: Action)
        requires
            map.wf(),
            id < map@.roster.len(),
        ensures
            r == monster_policy(map@, id as int, roll as int),
    {
        let dirs = [RelativeDir::FORWARD, RelativeDir::LEFT, RelativeDir::RIGHT];
        let mut i: usize = 0;
        while i < 3
            invariant
                map.wf(),
                id < map@.roster.len(),
                dirs@ == seq![RelativeDir::FORWARD, RelativeDir::LEFT, RelativeDir::RIGHT],
                i <= 3,
                forall|j: int| 0 <= j < i ==> reaction(map@, id as int, #[trigger] dirs@[j]).is_none(),
            decreases 3 - i,
        {
            match MonsterController::react(map, id, dirs[i]) {
                Some(a) => {
                    return a;
                },
                None => {},
            }
            i = i + 1;
        }
        assert(reaction(map@, id as int, dirs@[0]).is_none());
        assert(reaction(map@, id as int, dirs@[1]).is_none());
        assert(reaction(map@, id as int, dirs@[2]).is_none());
        if roll == 0 {
            Action::TURN(RelativeDir::LEFT)
        } else if roll == 1 {
            Action::TURN(RelativeDir::RIGHT)
        } else {
            let cr = &map.roster[id];
            assert(map@.roster[id as int].wf());
            let front = cr.pos.neighbor(cr.dir);
            if map.at(front).is_passable() {
                Action::MOVE(RelativeDir::FORWARD)
            } else {
                Action::TURN(RelativeDir::LEFT)
            }
        }
    }
}

impl MoveController for MonsterController {
    /// Draws a roll in `0..10` and answers by the monster policy.
    fn get_move(&mut self, map: &GameMap, id: usize) -> (r: Action)
        ensures
            r == monster_policy(map@, id as int, (mix(final(self).rng.state) as int) % 10),
            final(self).rng.state == (old(self).rng.state as int + GOLDEN_GAMMA as int)
                % 0x1_0000_0000_0000_0000int,
    {
        let roll = self.rng.gen_int_range(0, 10);
        MonsterController::decide(map, id, roll)
    }
}

impl Creature {
    /// Whether the protagonist controls this creature.
    pub fn is_player(&self) -> (r: bool)
        ensures
            r == (self.controller == Controller::Player),
    {
        match self.controller {
            Controller::Player => true,
            Controller::Monster => false,
        }
    }
}

} // verus!

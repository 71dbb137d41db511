use crate::hex::RelativeDir;
use crate::world::Action;
use vstd::prelude::*;

verus! {

/// A key the player can press.
#[derive(Clone, Copy, PartialEq, Eq, Structural, Debug)]
pub enum Key {
    K,
    J,
    H,
    L,
    U,
    Up,
    Down,
    Left,
    Right,
    Escape,
    Period,
    Comma,
    Other,
}

/// A modifier held with a key.
#[derive(Clone, Copy, PartialEq, Eq, Structural, Debug)]
pub enum Mod {
    LCtrl,
    LShift,
    Other,
}

/// The relative direction a key stands for, if any: k/Up forward, j/Down backward,
/// h/Left left, l/Right right.
pub open spec fn key_dir(key: Key) -> Option<RelativeDir> {
    match key {
        Key::K | Key::Up => Some(RelativeDir::FORWARD),
        Key::J | Key::Down => Some(RelativeDir::BACKWARD),
        Key::H | Key::Left => Some(RelativeDir::LEFT),
        Key::L | Key::Right => Some(RelativeDir::RIGHT),
        _ => None,
    }
}

/// The action a key press asks for. Escape, `.` and `,` wait; `u` uses. A direction key
/// attacks with the attack modifier; with the strafe modifier it runs forward or moves
/// another way; otherwise it moves forward or backward, or turns left or right.
pub open spec fn key_action(key: Key, attack: bool, strafe: bool) -> Option<Action> {
    match key {
        Key::Escape | Key::Period | Key::Comma => Some(Action::WAIT),
        Key::U => Some(Action::USE),
        _ => match key_dir(key) {
            Some(d) => if attack {
                Some(Action::MELEE(d))
            } else if strafe {
                if d == RelativeDir::FORWARD {
                    Some(Action::RUN(d))
                } else {
                    Some(Action::MOVE(d))
                }
            } else if d == RelativeDir::FORWARD || d == RelativeDir::BACKWARD {
                Some(Action::MOVE(d))
            } else {
                Some(Action::TURN(d))
            },
            None => None,
        },
    }
}

/// Whether `m` holds modifier `x`.
fn has_mod(m: &[Mod], x: Mod) -> (r: bool)
    ensures
        r == m@.contains(x),
{
    let mut i: usize = 0;
    while i < m.len()
        invariant
            i <= m@.len(),
            forall|j: int| 0 <= j < i ==> m@[j] != x,
        decreases m@.len() - i,
    {
        if m[i] == x {
            return true;
        }
        i = i + 1;
    }
    false
}

/// The player's side of the interface: which creature is the protagonist, and whether
/// the player asked to quit.
pub struct UI {
    pub player: Option<usize>,
    pub exit: bool,
}

impl UI {
    /// No protagonist yet, and no request to quit.
    pub fn new() -> (r: UI)
        ensures
            r.player.is_none(),
            !r.exit,
    {
        UI { player: None, exit: false }
    }

    /// Makes creature `p` the protagonist.
    pub fn set_player(&mut self, p: usize)
        ensures
            final(self).player == Some(p),
            final(self).exit == old(self).exit,
    {
        self.player = Some(p);
    }

    /// The action that pressing `key` with modifiers `m` asks for; left Ctrl attacks and
    /// left Shift strafes. Escape also raises the quit flag.
    pub fn keyevent_to_action(&mut self, key: &Key, m: &[Mod]) -> (r: Option<Action>)
        ensures
            r == key_action(*key, m@.contains(Mod::LCtrl), m@.contains(Mod::LShift)),
            final(self).exit == (old(self).exit || *key == Key::Escape),
            final(self).player == old(self).player,
    {
        let attack = has_mod(m, Mod::LCtrl);
        let strafe = has_mod(m, Mod::LShift);
        let dir = match *key {
            Key::K | Key::Up => Some(RelativeDir::FORWARD),
            Key::J | Key::Down => Some(RelativeDir::BACKWARD),
            Key::H | Key::Left => Some(RelativeDir::LEFT),
            Key::L | Key::Right => Some(RelativeDir::RIGHT),
            _ => None,
        };
        match *key {
            Key::Escape => {
                self.exit = true;
                return Some(Action::WAIT);
            },
            Key::Period | Key::Comma => {
                return Some(Action::WAIT);
            },
            Key::U => {
                return Some(Action::USE);
            },
            _ => {},
        }
        match (dir, strafe, attack) {
            (Some(d), _, true) => Some(Action::MELEE(d)),
            (Some(d), true, _) => {
                if d == RelativeDir::FORWARD {
                    Some(Action::RUN(d))
                } else {
                    Some(Action::MOVE(d))
                }
            },
            (Some(d), false, _) => {
                match d {
                    RelativeDir::FORWARD | RelativeDir::BACKWARD => Some(Action::MOVE(d)),
                    _ => Some(Action::TURN(d)),
                }
            },
            _ => None,
        }
    }

    /// Raises the quit flag if the key polled while the protagonist is dead is Escape.
    pub fn check_exit_input(&mut self, polled: Option<Key>)
        ensures
            final(self).exit == (old(self).exit || polled == Some(Key::Escape)),
            final(self).player == old(self).player,
    {
        match polled {
            Some(Key::Escape) => {
                self.exit = true;
            },
            _ => {},
        }
    }
}

} // verus!

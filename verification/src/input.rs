//! Keyboard shortcuts.
use vstd::prelude::*;

verus! {

/// What a key press asks the player to do.
#[derive(Debug, PartialEq, Eq, Structural, Clone, Copy)]
pub enum Action {
    Skip,
    SkipPrevious,
    Play,
    Pause,
    PauseToggle,
    Shuffle,
    Stop,
}

/// A pressed key: one that types text, or any other key.
#[derive(Debug)]
pub enum KeyPress {
    Character(String),
    Other,
}

/// The action that a key stands for: `l` skips, `h` skips back and the
/// space bar toggles pausing; every other key stands for nothing.
pub open spec fn action_for(key: KeyPress) -> Option<Action> {
    match key {
        KeyPress::Character(c) => if c@ == seq!['l'] {
            Some(Action::Skip)
        } else if c@ == seq!['h'] {
            Some(Action::SkipPrevious)
        } else if c@ == seq![' '] {
            Some(Action::PauseToggle)
        } else {
            None
        },
        KeyPress::Other => None,
    }
}

/// The action that a key press stands for, if any.
pub fn key_to_action(key: &KeyPress) -> (r: Option<Action>)
    ensures
        r == action_for(*key),
{
    match key {
        KeyPress::Character(c) => {
            let l = String::from_str("l");
            let h = String::from_str("h");
            let space = String::from_str(" ");
            proof {
                reveal_strlit("l");
                reveal_strlit("h");
                reveal_strlit(" ");
                assert(l@ =~= seq!['l']);
                assert(h@ =~= seq!['h']);
                assert(space@ =~= seq![' ']);
            }
            if *c == l {
                Some(Action::Skip)
            } else if *c == h {
                Some(Action::SkipPrevious)
            } else if *c == space {
                Some(Action::PauseToggle)
            } else {
                None
            }
        },
        KeyPress::Other => None,
    }
}

} // verus!

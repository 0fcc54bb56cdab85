//! The remapping session: what to do with each key of the physical keyboard
//! while the virtual keyboard stands in for it.

use crate::key_converter::{InputKey, Layout};
use crate::keyboard::{char_to_shifted, looked_up, KeyInput, CHAR_TO_SHIFTED};
use crate::remapper::{keys_for, Remapper};
use vstd::prelude::*;

verus! {

/// The key that switches between remapping and passing keys through.
pub const ESCAPE: char = '\x1B';

/// The key that asks which chord produces the symbol typed next.
pub const CONTROL: char = '\x07';

/// The key that makes the symbol asked for the shifted form of the next key.
pub const SHIFT_KEY: char = '\x0E';

/// What the session does with the next key.
#[derive(Clone, Copy, Debug, PartialEq, Eq, Structural)]
pub enum Mode {
    /// Keys go to the matcher.
    Remap,
    /// Keys are typed as they are.
    PassThrough,
    /// The next key names the symbol to give a hint for.
    Hint,
    /// The shifted form of the next key names the symbol to give a hint for.
    ShiftedHint,
}

/// What the caller is to do after a key.
#[derive(Clone, Copy, Debug, PartialEq, Eq, Structural)]
pub enum Action {
    /// Nothing.
    Nothing,
    /// Type this symbol on the virtual keyboard.
    Press(char),
    /// Show the two keys of a chord, left hand first.
    Notify(char, char),
}

/// The action that shows the keys of a chord, or none without a chord.
pub open spec fn notice(keys: Option<(char, char)>) -> Action {
    match keys {
        Some((left, right)) => Action::Notify(left, right),
        None => Action::Nothing,
    }
}

/// The action that types a symbol, or none without a symbol.
pub open spec fn typing(symbol: Option<char>) -> Action {
    match symbol {
        Some(symbol) => Action::Press(symbol),
        None => Action::Nothing,
    }
}

/// A remapping session: a matcher and the mode.
pub struct Session {
    remapper: Remapper,
    mode: Mode,
}

impl Session {
    /// The matcher of the session.
    pub closed spec fn remapper(&self) -> Remapper {
        self.remapper
    }

    /// The mode of the session.
    pub closed spec fn mode(&self) -> Mode {
        self.mode
    }

    /// The mode, the two queues of the matcher and the action after the key
    /// transition `input` in this state.
    ///
    /// A key going up changes nothing. While remapping, the escape key turns
    /// to passing through, the control key asks for a hint, and any other key
    /// goes to the matcher, whose symbol is typed. While passing through, the
    /// escape key turns back to remapping and any other key is typed as it
    /// is. A hint is given for the key that follows the control key, or for
    /// the shifted form of the key that follows the shift key after it: the
    /// keys of the chord of that symbol are shown, if it has a chord, and the
    /// session remaps again.
    pub open spec fn after(&self, input: KeyInput) -> (
        Mode,
        Seq<(usize, u64)>,
        Seq<(usize, u64)>,
        Action,
    ) {
        let left = self.remapper().left_queue();
        let right = self.remapper().right_queue();
        let layout = self.remapper().layout();
        let params = self.remapper().assignment();
        if !input.down {
            (self.mode(), left, right, Action::Nothing)
        } else {
            match self.mode() {
                Mode::Remap => if input.character == ESCAPE {
                    (Mode::PassThrough, left, right, Action::Nothing)
                } else if input.character == CONTROL {
                    (Mode::Hint, left, right, Action::Nothing)
                } else {
                    let (left, right, symbol) = self.remapper().after_key(
                        input.character,
                        input.time,
                    );
                    (Mode::Remap, left, right, typing(symbol))
                },
                Mode::PassThrough => if input.character == ESCAPE {
                    (Mode::Remap, left, right, Action::Nothing)
                } else {
                    (Mode::PassThrough, left, right, Action::Press(input.character))
                },
                Mode::Hint => if input.character == SHIFT_KEY {
                    (Mode::ShiftedHint, left, right, Action::Nothing)
                } else {
                    (Mode::Remap, left, right, notice(keys_for(layout, params, input.character)))
                },
                Mode::ShiftedHint => match looked_up(CHAR_TO_SHIFTED@, input.character) {
                    Some(shifted) => (
                        Mode::Remap,
                        left,
                        right,
                        notice(keys_for(layout, params, shifted)),
                    ),
                    None => (Mode::Remap, left, right, Action::Nothing),
                },
            }
        }
    }

    /// A session that remaps, with a new matcher for `layout` with the
    /// assignment `params` and the window `cutoff`.
    pub fn new(layout: Layout, params: Vec<InputKey>, cutoff: u64) -> (session: Session)
        ensures
            session.mode() == Mode::Remap,
            *session.remapper().layout() == layout,
            session.remapper().assignment() == params@,
            session.remapper().window() == cutoff,
            session.remapper().left_queue().len() == 0,
            session.remapper().right_queue().len() == 0,
    {
        Session { remapper: Remapper::new(layout, params, cutoff), mode: Mode::Remap }
    }

    /// Takes one key transition of the physical keyboard and says what to do.
    pub fn step(&mut self, input: KeyInput) -> (action: Action)
        ensures
            final(self).remapper().layout() == old(self).remapper().layout(),
            final(self).remapper().assignment() == old(self).remapper().assignment(),
            final(self).remapper().window() == old(self).remapper().window(),
            (
                final(self).mode(),
                final(self).remapper().left_queue(),
                final(self).remapper().right_queue(),
                action,
            ) == old(self).after(input),
    {
        if !input.down {
            return Action::Nothing;
        }
        match self.mode {
            Mode::Remap => {
                if input.character == ESCAPE {
                    self.mode = Mode::PassThrough;
                    Action::Nothing
                } else if input.character == CONTROL {
                    self.mode = Mode::Hint;
                    Action::Nothing
                } else {
                    match self.remapper.push_key(input.character, input.time) {
                        Some(symbol) => Action::Press(symbol),
                        None => Action::Nothing,
                    }
                }
            },
            Mode::PassThrough => {
                if input.character == ESCAPE {
                    self.mode = Mode::Remap;
                    Action::Nothing
                } else {
                    Action::Press(input.character)
                }
            },
            Mode::Hint => {
                if input.character == SHIFT_KEY {
                    self.mode = Mode::ShiftedHint;
                    Action::Nothing
                } else {
                    self.mode = Mode::Remap;
                    Self::hint(&self.remapper, input.character)
                }
            },
            Mode::ShiftedHint => {
                self.mode = Mode::Remap;
                match char_to_shifted(input.character) {
                    Some(shifted) => Self::hint(&self.remapper, shifted),
                    None => Action::Nothing,
                }
            },
        }
    }

    fn hint(remapper: &Remapper, symbol: char) -> (action: Action)
        ensures
            action == notice(keys_for(remapper.layout(), remapper.assignment(), symbol)),
    {
        match remapper.keys_for(symbol) {
            Some((left, right)) => Action::Notify(left, right),
            None => Action::Nothing,
        }
    }

    /// The mode of the session.
    pub fn current_mode(&self) -> (mode: Mode)
        ensures
            mode == self.mode(),
    {
        self.mode
    }
}

} // verus!

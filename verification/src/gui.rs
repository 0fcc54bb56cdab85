//! The typing trainer: a line of characters to type through the matcher,
//! with what was typed wrong standing in front of it until it is deleted.

use crate::key_converter::{InputKey, Layout};
use crate::remapper::{keys_for, Remapper};
use vstd::prelude::*;
use vstd::string::*;

verus! {

/// The output symbol that deletes the last wrong character.
pub const BACKSPACE: char = '\u{2190}';

/// The key that ends the exercise.
pub const QUIT_KEY: char = '`';

/// The key that asks for the full hint.
pub const HINT_KEY: char = '=';

/// The number of characters of the line that are shown.
pub const SHOWN: usize = 16;

/// What the trainer shows of the chord to strike next.
#[derive(Clone, Copy, Debug, PartialEq, Eq, Structural)]
pub enum Hint {
    /// The keys of both hands.
    Both(char, char),
    /// The key of the left hand alone.
    Left(char),
    /// The key of the right hand alone.
    Right(char),
    /// No key.
    Neither,
}

/// What the trainer shows.
#[derive(Debug)]
pub enum Screen {
    /// Nothing is left to type.
    Finished,
    /// The line goes on.
    Frame {
        /// The first characters of the line.
        text: Vec<char>,
        /// The place of the character to type next.
        caret: usize,
        /// The hint for that character; none where no chord of the layout
        /// produces it.
        hint: Option<Hint>,
    },
}

/// The line, the number of wrong characters in front of it, and whether the
/// full hint shows, after the matcher gave `symbol`. Nothing changes without
/// a symbol. The delete symbol takes the last wrong character away, if there
/// is one. With no wrong character in front, the symbol that the line starts
/// with is taken off it and the full hint goes. Any other symbol is wrong:
/// it goes in front of the line, and the full hint shows.
pub open spec fn typed(target: Seq<char>, garbage: nat, hinted: bool, symbol: Option<char>) -> (
    Seq<char>,
    nat,
    bool,
) {
    match symbol {
        None => (target, garbage, hinted),
        Some(symbol) => if symbol == BACKSPACE {
            if garbage > 0 {
                (target.remove(0), (garbage - 1) as nat, hinted)
            } else {
                (target, garbage, hinted)
            }
        } else if garbage == 0 && target.len() > 0 && target[0] == symbol {
            (target.remove(0), garbage, false)
        } else {
            (target.insert(0, symbol), garbage + 1, true)
        },
    }
}

/// The hint to show for the keys `keys` of a chord: both keys where the full
/// hint shows, else what the trainer was set to show from the start.
pub open spec fn hint_shown(keys: (char, char), hinted: bool, start_hint: u8) -> Hint {
    if hinted {
        Hint::Both(keys.0, keys.1)
    } else if start_hint == 0 {
        Hint::Left(keys.0)
    } else if start_hint == 1 {
        Hint::Right(keys.1)
    } else {
        Hint::Neither
    }
}

/// Whether a line and its count of wrong characters fit: the wrong
/// characters stand in front of at least one character that is still to be
/// typed.
pub open spec fn line_fits(target: Seq<char>, garbage: nat) -> bool {
    if target.len() == 0 {
        garbage == 0
    } else {
        garbage < target.len()
    }
}

/// A line that fits and is not yet typed to its end still fits after any
/// symbol.
pub proof fn lemma_typed_fits(target: Seq<char>, garbage: nat, hinted: bool, symbol: Option<char>)
    requires
        line_fits(target, garbage),
        target.len() > 0,
    ensures
        line_fits(
            typed(target, garbage, hinted, symbol).0,
            typed(target, garbage, hinted, symbol).1,
        ),
{
}

/// The trainer.
pub struct App {
    remapper: Remapper,
    target: Vec<char>,
    garbage_index: usize,
    hinted: bool,
    start_hint: u8,
}

impl App {
    /// The matcher that the trainer types through.
    pub closed spec fn remapper(&self) -> Remapper {
        self.remapper
    }

    /// The line: the wrong characters, last typed first, then what is still
    /// to be typed.
    pub closed spec fn target(&self) -> Seq<char> {
        self.target@
    }

    /// The number of wrong characters in front of the line.
    pub closed spec fn garbage(&self) -> nat {
        self.garbage_index as nat
    }

    /// Whether the full hint shows.
    pub closed spec fn hinted(&self) -> bool {
        self.hinted
    }

    /// What the hint shows before the full hint is asked for: 0 the left
    /// key, 1 the right key, anything else no key.
    pub closed spec fn start_hint(&self) -> u8 {
        self.start_hint
    }

    /// The invariant of a trainer: its line and its count of wrong
    /// characters fit.
    pub open spec fn wf(&self) -> bool {
        line_fits(self.target(), self.garbage())
    }

    /// A trainer for the line `target`, typed through a new matcher for
    /// `layout` with the assignment `params` and the window `cutoff`.
    pub fn new(layout: Layout, params: Vec<InputKey>, cutoff: u64, target: String) -> (app: App)
        ensures
            app.wf(),
            *app.remapper().layout() == layout,
            app.remapper().assignment() == params@,
            app.remapper().window() == cutoff,
            app.remapper().left_queue().len() == 0,
            app.remapper().right_queue().len() == 0,
            app.target() == target@,
            app.garbage() == 0,
            !app.hinted(),
            app.start_hint() == 2,
    {
        let line = target.as_str();
        let len = line.unicode_len();
        let mut chars: Vec<char> = Vec::new();
        let mut i: usize = 0;
        while i < len
            invariant
                i <= len,
                len == line@.len(),
                chars@ == line@.take(i as int),
            decreases len - i,
        {
            chars.push(line.get_char(i));
            proof {
                assert(line@.take(i + 1) =~= line@.take(i as int).push(line@[i as int]));
            }
            i += 1;
        }
        proof {
            assert(line@.take(len as int) =~= line@);
        }
        App {
            remapper: Remapper::new(layout, params, cutoff),
            target: chars,
            garbage_index: 0,
            hinted: false,
            start_hint: 2,
        }
    }

    /// Takes the press of the key that reports `character` at `time`; says
    /// whether the exercise is to end. The quit key ends it and changes
    /// nothing. The hint key makes the full hint show. Any other key goes to
    /// the matcher, and what the matcher gives is typed on the line. A
    /// trainer whose line is typed to its end takes no more keys.
    pub fn update(&mut self, character: char, time: u64) -> (quit: bool)
        requires
            old(self).wf(),
            old(self).target().len() > 0,
        ensures
            final(self).wf(),
            quit == (character == QUIT_KEY),
            final(self).start_hint() == old(self).start_hint(),
            final(self).remapper().layout() == old(self).remapper().layout(),
            final(self).remapper().assignment() == old(self).remapper().assignment(),
            final(self).remapper().window() == old(self).remapper().window(),
            character == QUIT_KEY ==> {
                &&& final(self).remapper() == old(self).remapper()
                &&& final(self).target() == old(self).target()
                &&& final(self).garbage() == old(self).garbage()
                &&& final(self).hinted() == old(self).hinted()
            },
            character == HINT_KEY ==> {
                &&& final(self).remapper() == old(self).remapper()
                &&& final(self).target() == old(self).target()
                &&& final(self).garbage() == old(self).garbage()
                &&& final(self).hinted()
            },
            character != QUIT_KEY && character != HINT_KEY ==> {
                let (left, right, symbol) = old(self).remapper().after_key(character, time);
                &&& final(self).remapper().left_queue() == left
                &&& final(self).remapper().right_queue() == right
                &&& (final(self).target(), final(self).garbage(), final(self).hinted()) == typed(
                    old(self).target(),
                    old(self).garbage(),
                    old(self).hinted(),
                    symbol,
                )
            },
    {
        if character == QUIT_KEY {
            return true;
        }
        if character == HINT_KEY {
            self.hinted = true;
            return false;
        }
        if let Some(symbol) = self.remapper.push_key(character, time) {
            if symbol == BACKSPACE {
                if self.garbage_index > 0 {
                    self.garbage_index -= 1;
                    self.target.remove(0);
                }
            } else if self.garbage_index == 0 && self.target.len() > 0 && self.target[0]
                == symbol {
                self.target.remove(0);
                self.hinted = false;
            } else {
                self.target.insert(0, symbol);

                self.garbage_index += 1;
                self.hinted = true;
            }
        }
        false
    }

    /// What to show: the first `SHOWN` characters of the line, the place of
    /// the character to type next, and the hint for it.
    pub fn view(&self) -> (screen: Screen)
        requires
            self.wf(),
        ensures
            self.target().len() == 0 ==> screen is Finished,
            self.target().len() > 0 ==> (screen matches Screen::Frame { text, caret, hint } && {
                &&& text@ == self.target().take(
                    if self.target().len() < SHOWN {
                        self.target().len() as int
                    } else {
                        SHOWN as int
                    },
                )
                &&& caret == self.garbage()
                &&& hint == match keys_for(
                    self.remapper().layout(),
                    self.remapper().assignment(),
                    self.target()[self.garbage() as int],
                ) {
                    Some(keys) => Some(hint_shown(keys, self.hinted(), self.start_hint())),
                    None => None,
                }
            }),
    {
        if self.target.len() == 0 {
            return Screen::Finished;
        }
        let next = self.target[self.garbage_index];
        let hint = match self.remapper.keys_for(next) {
            Some(keys) => Some(
                if self.hinted {
                    Hint::Both(keys.0, keys.1)
                } else if self.start_hint == 0 {
                    Hint::Left(keys.0)
                } else if self.start_hint == 1 {
                    Hint::Right(keys.1)
                } else {
                    Hint::Neither
                },
            ),
            None => None,
        };
        let shown = if self.target.len() < SHOWN {
            self.target.len()
        } else {
            SHOWN
        };
        let mut text: Vec<char> = Vec::new();
        let mut i: usize = 0;
        while i < shown
            invariant
                i <= shown,
                shown <= self.target@.len(),
                text@ == self.target@.take(i as int),
            decreases shown - i,
        {
            text.push(self.target[i]);
            proof {
                assert(self.target@.take(i + 1) =~= self.target@.take(i as int).push(
                    self.target@[i as int],
                ));
            }
            i += 1;
        }
        Screen::Frame { text, caret: self.garbage_index, hint }
    }

    /// Whether nothing is left to type.
    pub fn finished(&self) -> (done: bool)
        ensures
            done == (self.target().len() == 0),
    {
        self.target.len() == 0
    }
}

} // verus!

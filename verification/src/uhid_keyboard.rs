//! The plain virtual keyboard: the key press behind each letter and the
//! eight-byte report that holds it down.

use crate::keyboard::{joined, lemma_first_entry, looked_up, SHIFT};
use vstd::prelude::*;

verus! {

/// The key code and the modifier bits that produce each character that the
/// plain keyboard can type.
pub const PRESS_MAP: [(char, (u8, u8)); 57] = [
    ('a', (4, 0)), ('A', (4, SHIFT)), ('b', (5, 0)), ('B', (5, SHIFT)), ('c', (6, 0)),
    ('C', (6, SHIFT)), ('d', (7, 0)), ('D', (7, SHIFT)), ('e', (8, 0)), ('E', (8, SHIFT)),
    ('f', (9, 0)), ('F', (9, SHIFT)), ('g', (10, 0)), ('G', (10, SHIFT)), ('h', (11, 0)),
    ('H', (11, SHIFT)), ('i', (12, 0)), ('I', (12, SHIFT)), ('j', (13, 0)), ('J', (13, SHIFT)),
    ('k', (14, 0)), ('K', (14, SHIFT)), ('l', (15, 0)), ('L', (15, SHIFT)), ('m', (16, 0)),
    ('M', (16, SHIFT)), ('n', (17, 0)), ('N', (17, SHIFT)), ('o', (18, 0)), ('O', (18, SHIFT)),
    ('p', (19, 0)), ('P', (19, SHIFT)), ('q', (20, 0)), ('Q', (20, SHIFT)), ('r', (21, 0)),
    ('R', (21, SHIFT)), ('s', (22, 0)), ('S', (22, SHIFT)), ('t', (23, 0)), ('T', (23, SHIFT)),
    ('u', (24, 0)), ('U', (24, SHIFT)), ('v', (25, 0)), ('V', (25, SHIFT)), ('w', (26, 0)),
    ('W', (26, SHIFT)), ('x', (27, 0)), ('X', (27, SHIFT)), ('y', (28, 0)), ('Y', (28, SHIFT)),
    ('z', (29, 0)), ('Z', (29, SHIFT)), ('\n', (40, 0)), (' ', (44, 0)), ('\'', (52, 0)),
    (',', (54, 0)), ('.', (55, 0)),
];

/// The key and the modifiers that produce one character.
pub struct KeyPress {
    key: u8,
    mods: u8,
}

impl KeyPress {
    /// The key code.
    pub closed spec fn key_code(&self) -> u8 {
        self.key
    }

    /// The modifier bits.
    pub closed spec fn modifiers(&self) -> u8 {
        self.mods
    }

    /// The press of key `key` with all the modifiers of `in_mods`.
    pub fn new(key: u8, in_mods: &[u8]) -> (press: KeyPress)
        ensures
            press.key_code() == key,
            press.modifiers() == joined(in_mods@),
    {
        let mut mods: u8 = 0;

        let mut i: usize = 0;
        while i < in_mods.len()
            invariant
                i <= in_mods@.len(),
                mods == joined(in_mods@.take(i as int)),
            decreases in_mods@.len() - i,
        {
            proof {
                assert(in_mods@.take(i + 1).drop_last() =~= in_mods@.take(i as int));
            }
            mods |= in_mods[i];
            i += 1;
        }
        proof {
            assert(in_mods@.take(i as int) =~= in_mods@);
        }

        KeyPress { key, mods }
    }

    /// The report that holds the key down: the modifier bits, a reserved
    /// byte, the key in the first slot, and five empty slots.
    pub fn to_input(&self) -> (report: [u8; 8])
        ensures
            report@ == seq![self.modifiers(), 0u8, self.key_code(), 0u8, 0u8, 0u8, 0u8, 0u8],
    {
        let report = [self.mods, 0, self.key, 0, 0, 0, 0, 0];
        assert(report@ =~= seq![self.mods, 0u8, self.key, 0u8, 0u8, 0u8, 0u8, 0u8]);
        report
    }
}

/// The key press that types `character` on the plain keyboard, if it can be
/// typed there.
pub fn press_for(character: char) -> (found: Option<KeyPress>)
    ensures
        match looked_up(PRESS_MAP@, character) {
            Some((key, mods)) => found matches Some(press) && press.key_code() == key
                && press.modifiers() == mods,
            None => found.is_none(),
        },
{
    let mut i: usize = 0;
    while i < PRESS_MAP.len()
        invariant
            i <= PRESS_MAP@.len(),
            forall|j: int| 0 <= j < i ==> (#[trigger] PRESS_MAP@[j]).0 != character,
        decreases PRESS_MAP@.len() - i,
    {
        let pair = PRESS_MAP[i];
        if pair.0 == character {
            proof {
                lemma_first_entry(PRESS_MAP@, character, PRESS_MAP@.len() as int);
            }
            return Some(KeyPress { key: (pair.1).0, mods: (pair.1).1 });
        }
        i += 1;
    }
    proof {
        lemma_first_entry(PRESS_MAP@, character, PRESS_MAP@.len() as int);
    }
    None
}

} // verus!

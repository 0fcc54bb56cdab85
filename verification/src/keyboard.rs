//! The keyboard boundary: the report of keys held down that a virtual
//! keyboard sends, the key press that stands for an output symbol, and the
//! decoded key event of the physical keyboard.

use crate::key_converter::{Layout, TimedKeyEvent};
use vstd::prelude::*;

verus! {

/// The modifier bit of the control key.
pub const CTRL: u8 = 0b0000_0001;

/// The modifier bit of the shift key.
pub const SHIFT: u8 = 0b0000_0010;

/// The modifier bit of the alt key.
pub const ALT: u8 = 0b0000_0100;

/// The first byte of a report that holds a key.
pub const FIRST_SLOT: usize = 2;

/// The place behind the last byte of a report that this library fills.
pub const SLOTS_END: usize = 7;

/// The modifier bit of a key code, or zero for a key that is no modifier.
pub open spec fn modifier_of(key: u8) -> u8 {
    if key == 224 {
        CTRL
    } else if key == 225 {
        SHIFT
    } else if key == 226 {
        ALT
    } else {
        0
    }
}

/// The least key slot below `upto` of a report that holds `value`, if any.
pub open spec fn slot_below(report: Seq<u8>, value: u8, upto: int) -> Option<int>
    decreases upto,
{
    if upto <= FIRST_SLOT {
        None
    } else {
        match slot_below(report, value, upto - 1) {
            Some(slot) => Some(slot),
            None => if report[upto - 1] == value {
                Some(upto - 1)
            } else {
                None
            },
        }
    }
}

/// The least key slot of a report that holds `value`, if any.
pub open spec fn slot_of(report: Seq<u8>, value: u8) -> Option<int> {
    slot_below(report, value, SLOTS_END as int)
}

/// What `slot_below` finds: the least key slot below `upto` holding `value`.
pub proof fn lemma_slot_below(report: Seq<u8>, value: u8, upto: int)
    ensures
        match slot_below(report, value, upto) {
            Some(slot) => {
                &&& FIRST_SLOT <= slot < upto
                &&& report[slot] == value
                &&& forall|i: int| FIRST_SLOT <= i < slot ==> report[i] != value
            },
            None => forall|i: int| FIRST_SLOT <= i < upto ==> report[i] != value,
        },
    decreases upto,
{
    if upto > FIRST_SLOT {
        lemma_slot_below(report, value, upto - 1);
    }
}

/// A report after key `key` went down, and whether the report has room for
/// it. A modifier sets its bit in the first byte. Any other key that the
/// report already holds changes nothing; else it takes the first empty slot;
/// with no empty slot the report stays and the key is refused.
pub open spec fn report_after_push(report: Seq<u8>, key: u8) -> (Seq<u8>, bool) {
    if modifier_of(key) != 0 {
        (report.update(0, report[0] | modifier_of(key)), true)
    } else {
        match slot_of(report, key) {
            Some(_) => (report, true),
            None => match slot_of(report, 0) {
                Some(slot) => (report.update(slot, key), true),
                None => (report, false),
            },
        }
    }
}

/// A report after key `key` went up. A modifier clears its bit in the first
/// byte. Any other key leaves the first slot that holds it.
pub open spec fn report_after_pop(report: Seq<u8>, key: u8) -> Seq<u8> {
    if modifier_of(key) != 0 {
        report.update(0, report[0] & !modifier_of(key))
    } else {
        match slot_of(report, key) {
            Some(slot) => report.update(slot, 0),
            None => report,
        }
    }
}

/// A modifier that went down is set in the report, one that went up is
/// clear, and neither touches the bits of the other modifiers or the key
/// slots.
pub proof fn lemma_modifier_moves(report: Seq<u8>, key: u8)
    requires
        report.len() == 8,
        modifier_of(key) != 0,
    ensures
        report_after_push(report, key).1,
        report_after_push(report, key).0[0] & modifier_of(key) == modifier_of(key),
        report_after_pop(report, key)[0] & modifier_of(key) == 0,
        report_after_push(report, key).0[0] & !modifier_of(key) == report[0] & !modifier_of(key),
        report_after_pop(report, key)[0] & !modifier_of(key) == report[0] & !modifier_of(key),
        forall|i: int| 1 <= i < 8 ==> report_after_push(report, key).0[i] == report[i],
        forall|i: int| 1 <= i < 8 ==> report_after_pop(report, key)[i] == report[i],
{
    let mods = report[0];
    let bit = modifier_of(key);
    assert((mods | bit) & bit == bit) by (bit_vector);
    assert((mods & !bit) & bit == 0) by (bit_vector);
    assert((mods | bit) & !bit == mods & !bit) by (bit_vector);
    assert((mods & !bit) & !bit == mods & !bit) by (bit_vector);
}

/// A key that is no modifier and went down is held in a slot, unless the
/// report had neither the key nor an empty slot; when it goes up, the first
/// slot that held it is empty. Neither touches the modifier bits.
pub proof fn lemma_key_moves(report: Seq<u8>, key: u8)
    requires
        report.len() == 8,
        modifier_of(key) == 0,
    ensures
        report_after_push(report, key).1 ==> slot_of(report_after_push(report, key).0, key)
            is Some,
        !report_after_push(report, key).1 ==> slot_of(report, key) is None && slot_of(report, 0)
            is None,
        key != 0 ==> (slot_of(report, key) matches Some(slot) ==> report_after_pop(
            report,
            key,
        )[slot] == 0),
        report_after_push(report, key).0[0] == report[0],
        report_after_pop(report, key)[0] == report[0],
{
    lemma_slot_below(report, key, SLOTS_END as int);
    lemma_slot_below(report, 0, SLOTS_END as int);
    let pushed = report_after_push(report, key).0;
    lemma_slot_below(pushed, key, SLOTS_END as int);
    match slot_of(report, key) {
        Some(slot) => {
            assert(pushed[slot] == key);
        },
        None => {
            match slot_of(report, 0) {
                Some(slot) => {
                    assert(pushed[slot] == key);
                },
                None => {},
            }
        },
    }
}

/// All the bytes of `mods` joined by bitwise or.
pub open spec fn joined(mods: Seq<u8>) -> u8
    decreases mods.len(),
{
    if mods.len() == 0 {
        0
    } else {
        joined(mods.drop_last()) | mods.last()
    }
}

/// The keys that a keyboard holds down, as the eight bytes of its report:
/// the modifier bits, a reserved byte, and the key slots.
pub struct BoardState {
    state: [u8; 8],
}

impl BoardState {
    /// The eight bytes of the report.
    pub closed spec fn view(&self) -> Seq<u8> {
        self.state@
    }

    /// The report with no key down.
    pub fn clear() -> (board: BoardState)
        ensures
            board@ == seq![0u8, 0u8, 0u8, 0u8, 0u8, 0u8, 0u8, 0u8],
    {
        let board = BoardState { state: [0, 0, 0, 0, 0, 0, 0, 0] };
        assert(board.state@ =~= seq![0u8, 0u8, 0u8, 0u8, 0u8, 0u8, 0u8, 0u8]);
        board
    }

    /// The report with the modifiers `mods` and the one key `key` down.
    pub fn new_single(mods: u8, key: u8) -> (board: BoardState)
        ensures
            board@ == seq![mods, 0u8, key, 0u8, 0u8, 0u8, 0u8, 0u8],
    {
        let board = BoardState { state: [mods, 0, key, 0, 0, 0, 0, 0] };
        assert(board.state@ =~= seq![mods, 0u8, key, 0u8, 0u8, 0u8, 0u8, 0u8]);
        board
    }

    fn get_key_mod(character: u8) -> (bit: u8)
        ensures
            bit == modifier_of(character),
    {
        match character {
            224 => CTRL,
            225 => SHIFT,
            226 => ALT,
            _ => 0b0000_0000,
        }
    }

    /// Puts key `key` down; says whether the report has room for it.
    pub fn push_key(&mut self, key: u8) -> (held: bool)
        ensures
            (final(self)@, held) == report_after_push(old(self)@, key),
            final(self)@.len() == 8,
    {
        let key_mod = Self::get_key_mod(key);

        if key_mod != 0b0000_0000 {
            let mods = self.state[0] | key_mod;
            self.state[0] = mods;
            return true;
        }
        let mut index: usize = 0;
        let mut i: usize = FIRST_SLOT;
        while i < SLOTS_END
            invariant
                FIRST_SLOT <= i <= SLOTS_END,
                modifier_of(key) == 0,
                self.state == old(self).state,
                slot_below(self.state@, key, i as int).is_none(),
                index == match slot_below(self.state@, 0, i as int) {
                    Some(slot) => slot,
                    None => 0,
                },
            decreases SLOTS_END - i,
        {
            proof {
                lemma_slot_below(self.state@, 0, i as int);
            }
            if self.state[i] == key {
                proof {
                    lemma_slot_below(self.state@, key, i as int);
                    lemma_slot_below(self.state@, key, SLOTS_END as int);
                }
                return true;
            }
            if index == 0 && self.state[i] == 0 {
                index = i;
            }
            i += 1;
        }

        if index == 0 {
            proof {
                lemma_slot_below(self.state@, 0, SLOTS_END as int);
            }
            return false;
        }
        proof {
            lemma_slot_below(self.state@, 0, SLOTS_END as int);
        }
        self.state[index] = key;

        true
    }

    /// Lets key `key` up.
    pub fn pop_key(&mut self, key: u8)
        ensures
            final(self)@ == report_after_pop(old(self)@, key),
            final(self)@.len() == 8,
    {
        let key_mod = Self::get_key_mod(key);

        if key_mod != 0b0000_0000 {
            let mods = self.state[0] & !key_mod;
            self.state[0] = mods;
            return ;
        }
        let mut i: usize = FIRST_SLOT;
        while i < SLOTS_END
            invariant
                FIRST_SLOT <= i <= SLOTS_END,
                modifier_of(key) == 0,
                self.state == old(self).state,
                slot_below(self.state@, key, i as int).is_none(),
            decreases SLOTS_END - i,
        {
            if self.state[i] == key {
                proof {
                    lemma_slot_below(self.state@, key, i as int);
                    lemma_slot_below(self.state@, key, SLOTS_END as int);
                }
                self.state[i] = 0;
                return ;
            }
            i += 1;
        }
    }

    /// The eight bytes of the report, as they go to the device.
    pub fn report(&self) -> (bytes: [u8; 8])
        ensures
            bytes@ == self@,
    {
        self.state
    }
}

/// The key and the modifiers that produce one output symbol.
#[derive(Clone, Copy)]
pub struct KeyPress {
    key: u8,
    mods: u8,
}

impl KeyPress {
    /// The key code.
    pub closed spec fn key_code(&self) -> u8 {
        self.key
    }

    /// The modifier bits.
    pub closed spec fn modifiers(&self) -> u8 {
        self.mods
    }

    /// The press of key `key` with all the modifiers of `in_mods`.
    pub fn new(key: u8, in_mods: &[u8]) -> (press: KeyPress)
        ensures
            press.key_code() == key,
            press.modifiers() == joined(in_mods@),
    {
        let mut mods: u8 = 0b0000_0000;

        let mut i: usize = 0;
        while i < in_mods.len()
            invariant
                i <= in_mods@.len(),
                mods == joined(in_mods@.take(i as int)),
            decreases in_mods@.len() - i,
        {
            proof {
                assert(in_mods@.take(i + 1).drop_last() =~= in_mods@.take(i as int));
            }
            mods |= in_mods[i];
            i += 1;
        }
        proof {
            assert(in_mods@.take(i as int) =~= in_mods@);
        }

        KeyPress { key, mods }
    }

    /// Adds the modifier bits of `new`.
    pub fn add_mod(&mut self, new: u8)
        ensures
            final(self).key_code() == old(self).key_code(),
            final(self).modifiers() == old(self).modifiers() | new,
    {
        self.mods |= new;
    }

    /// The report that holds the key down.
    pub fn to_press(&self) -> (board: BoardState)
        ensures
            board@ == seq![self.modifiers(), 0u8, self.key_code(), 0u8, 0u8, 0u8, 0u8, 0u8],
    {
        BoardState::new_single(self.mods, self.key)
    }

    /// The report that lets the key up: no key down at all.
    pub fn to_release(&self) -> (board: BoardState)
        ensures
            board@ == seq![0u8, 0u8, 0u8, 0u8, 0u8, 0u8, 0u8, 0u8],
    {
        BoardState::clear()
    }

    /// The key code.
    pub fn key(&self) -> (key: u8)
        ensures
            key == self.key_code(),
    {
        self.key
    }

    /// The modifier bits.
    pub fn mods(&self) -> (mods: u8)
        ensures
            mods == self.modifiers(),
    {
        self.mods
    }
}

/// The key code of each character that a key of the keyboard stands for.
pub const CHAR_TO_KEYCODE: [(char, u8); 61] = [
    ('a', 4), ('b', 5), ('c', 6), ('d', 7), ('e', 8), ('f', 9), ('g', 10), ('h', 11), ('i', 12),
    ('j', 13), ('k', 14), ('l', 15), ('m', 16), ('n', 17), ('o', 18), ('p', 19), ('q', 20),
    ('r', 21), ('s', 22), ('t', 23), ('u', 24), ('v', 25), ('w', 26), ('x', 27), ('y', 28),
    ('z', 29), ('1', 30), ('2', 31), ('3', 32), ('4', 33), ('5', 34), ('6', 35), ('7', 36),
    ('8', 37), ('9', 38), ('0', 39), ('\u{21B2}', 40), ('\x1B', 41), ('\u{2190}', 42),
    ('\u{2192}', 43), (' ', 44), ('-', 45), ('=', 46), ('[', 47), (']', 48), ('\\', 49),
    (';', 51), ('\'', 52), ('`', 53), (',', 54), ('.', 55), ('/', 56), ('\u{21E8}', 79),
    ('\u{21E6}', 80), ('\u{21E9}', 81), ('\u{21E7}', 82), ('\u{1F50A}', 128), ('\u{1F507}', 129),
    ('\x07', 224), ('\x0E', 225), ('\u{21B9}', 226),
];

/// The key code and the modifier bits that produce each output symbol.
pub const CHAR_TO_KEYPRESS: [(char, (u8, u8)); 98] = [
    ('a', (4, 0)), ('A', (4, SHIFT)), ('b', (5, 0)), ('B', (5, SHIFT)), ('c', (6, 0)),
    ('C', (6, SHIFT)), ('d', (7, 0)), ('D', (7, SHIFT)), ('e', (8, 0)), ('E', (8, SHIFT)),
    ('f', (9, 0)), ('F', (9, SHIFT)), ('g', (10, 0)), ('G', (10, SHIFT)), ('h', (11, 0)),
    ('H', (11, SHIFT)), ('i', (12, 0)), ('I', (12, SHIFT)), ('j', (13, 0)), ('J', (13, SHIFT)),
    ('k', (14, 0)), ('K', (14, SHIFT)), ('l', (15, 0)), ('L', (15, SHIFT)), ('m', (16, 0)),
    ('M', (16, SHIFT)), ('n', (17, 0)), ('N', (17, SHIFT)), ('o', (18, 0)), ('O', (18, SHIFT)),
    ('p', (19, 0)), ('P', (19, SHIFT)), ('q', (20, 0)), ('Q', (20, SHIFT)), ('r', (21, 0)),
    ('R', (21, SHIFT)), ('s', (22, 0)), ('S', (22, SHIFT)), ('t', (23, 0)), ('T', (23, SHIFT)),
    ('u', (24, 0)), ('U', (24, SHIFT)), ('v', (25, 0)), ('V', (25, SHIFT)), ('w', (26, 0)),
    ('W', (26, SHIFT)), ('x', (27, 0)), ('X', (27, SHIFT)), ('y', (28, 0)), ('Y', (28, SHIFT)),
    ('z', (29, 0)), ('Z', (29, SHIFT)), ('1', (30, 0)), ('!', (30, SHIFT)), ('2', (31, 0)),
    ('@', (31, SHIFT)), ('3', (32, 0)), ('#', (32, SHIFT)), ('4', (33, 0)), ('$', (33, SHIFT)),
    ('5', (34, 0)), ('%', (34, SHIFT)), ('6', (35, 0)), ('^', (35, SHIFT)), ('7', (36, 0)),
    ('&', (36, SHIFT)), ('8', (37, 0)), ('*', (37, SHIFT)), ('9', (38, 0)), ('(', (38, SHIFT)),
    ('0', (39, 0)), (')', (39, SHIFT)), ('\u{21B2}', (40, 0)), ('\u{2190}', (42, 0)),
    ('\u{2192}', (43, 0)), (' ', (44, 0)), ('-', (45, 0)), ('_', (45, SHIFT)), ('=', (46, 0)),
    ('+', (46, SHIFT)), ('[', (47, 0)), ('{', (47, SHIFT)), (']', (48, 0)), ('}', (48, SHIFT)),
    ('\\', (49, 0)), ('|', (49, SHIFT)), (';', (51, 0)), (':', (51, SHIFT)), ('\'', (52, 0)),
    ('"', (52, SHIFT)), ('`', (53, 0)), ('~', (53, SHIFT)), (',', (54, 0)), ('<', (54, SHIFT)),
    ('.', (55, 0)), ('>', (55, SHIFT)), ('/', (56, 0)), ('?', (56, SHIFT)),
];

/// The character that stands for each event code of the physical keyboard.
pub const CODE_TO_CHAR: [(u16, char); 61] = [
    (1, '\x1B'), (2, '1'), (3, '2'), (4, '3'), (5, '4'), (6, '5'), (7, '6'), (8, '7'), (9, '8'),
    (10, '9'), (11, '0'), (12, '-'), (13, '='), (14, '\u{2190}'), (15, '\u{2192}'), (16, 'q'),
    (17, 'w'), (18, 'e'), (19, 'r'), (20, 't'), (21, 'y'), (22, 'u'), (23, 'i'), (24, 'o'),
    (25, 'p'), (26, '['), (27, ']'), (28, '\u{21B2}'), (29, '\x07'), (30, 'a'), (31, 's'),
    (32, 'd'), (33, 'f'), (34, 'g'), (35, 'h'), (36, 'j'), (37, 'k'), (38, 'l'), (39, ';'),
    (40, '\''), (41, '`'), (42, '\x0E'), (43, '\\'), (44, 'z'), (45, 'x'), (46, 'c'), (47, 'v'),
    (48, 'b'), (49, 'n'), (50, 'm'), (51, ','), (52, '.'), (56, '\u{21B9}'), (57, ' '),
    (103, '\u{21E7}'), (105, '\u{21E6}'), (106, '\u{21E8}'), (108, '\u{21E9}'), (111, '\x7F'),
    (114, '\u{1F507}'), (115, '\u{1F50A}'),
];

/// The shifted form of each character that has one.
pub const CHAR_TO_SHIFTED: [(char, char); 46] = [
    ('`', '~'), ('1', '!'), ('2', '@'), ('3', '#'), ('4', '$'), ('5', '%'), ('6', '^'),
    ('7', '&'), ('8', '*'), ('9', '('), ('0', ')'), ('-', '_'), ('=', '+'), ('q', 'Q'),
    ('w', 'W'), ('e', 'E'), ('r', 'R'), ('t', 'T'), ('y', 'Y'), ('u', 'U'), ('i', 'I'),
    ('o', 'O'), ('p', 'P'), ('[', '{'), (']', '}'), ('\\', '|'), ('a', 'A'), ('s', 'S'),
    ('d', 'D'), ('f', 'F'), ('g', 'G'), ('h', 'H'), ('j', 'J'), ('k', 'K'), ('l', 'L'),
    (';', ':'), ('\'', '"'), ('z', 'Z'), ('x', 'X'), ('c', 'C'), ('v', 'V'), ('b', 'B'),
    ('n', 'N'), ('m', 'M'), (',', '<'), ('.', '>'),
];

/// The event type of a key transition.
pub const EV_KEY: u16 = 1;

/// The least place below `limit` of `table` whose pair starts with `key`.
pub open spec fn first_entry<K, V>(table: Seq<(K, V)>, key: K, limit: int) -> Option<int>
    decreases limit,
{
    if limit <= 0 {
        None
    } else {
        match first_entry(table, key, limit - 1) {
            Some(at) => Some(at),
            None => if table[limit - 1].0 == key {
                Some(limit - 1)
            } else {
                None
            },
        }
    }
}

/// What `table` maps `key` to: the second part of its first pair that
/// starts with `key`.
pub open spec fn looked_up<K, V>(table: Seq<(K, V)>, key: K) -> Option<V> {
    match first_entry(table, key, table.len() as int) {
        Some(at) => Some(table[at].1),
        None => None,
    }
}

/// What `first_entry` finds: the least place below `limit` whose pair starts
/// with `key`.
pub proof fn lemma_first_entry<K, V>(table: Seq<(K, V)>, key: K, limit: int)
    ensures
        match first_entry(table, key, limit) {
            Some(at) => {
                &&& 0 <= at < limit
                &&& table[at].0 == key
                &&& forall|i: int| 0 <= i < at ==> (#[trigger] table[i]).0 != key
            },
            None => forall|i: int| 0 <= i < limit ==> (#[trigger] table[i]).0 != key,
        },
    decreases limit,
{
    if limit > 0 {
        lemma_first_entry(table, key, limit - 1);
    }
}

/// The key code of `character`, if a key stands for it.
pub fn char_to_keycode(character: char) -> (found: Option<u8>)
    ensures
        found == looked_up(CHAR_TO_KEYCODE@, character),
{
    let mut i: usize = 0;
    while i < CHAR_TO_KEYCODE.len()
        invariant
            i <= CHAR_TO_KEYCODE@.len(),
            forall|j: int| 0 <= j < i ==> (#[trigger] CHAR_TO_KEYCODE@[j]).0 != character,
        decreases CHAR_TO_KEYCODE@.len() - i,
    {
        let pair = CHAR_TO_KEYCODE[i];
        if pair.0 == character {
            proof {
                lemma_first_entry(CHAR_TO_KEYCODE@, character, CHAR_TO_KEYCODE@.len() as int);
            }
            return Some(pair.1);
        }
        i += 1;
    }
    proof {
        lemma_first_entry(CHAR_TO_KEYCODE@, character, CHAR_TO_KEYCODE@.len() as int);
    }
    None
}

/// The key press that produces `character`, if there is one.
pub fn char_to_keypress(character: char) -> (found: Option<KeyPress>)
    ensures
        match looked_up(CHAR_TO_KEYPRESS@, character) {
            Some((key, mods)) => found matches Some(press) && press.key_code() == key
                && press.modifiers() == mods,
            None => found.is_none(),
        },
{
    let mut i: usize = 0;
    while i < CHAR_TO_KEYPRESS.len()
        invariant
            i <= CHAR_TO_KEYPRESS@.len(),
            forall|j: int| 0 <= j < i ==> (#[trigger] CHAR_TO_KEYPRESS@[j]).0 != character,
        decreases CHAR_TO_KEYPRESS@.len() - i,
    {
        let pair = CHAR_TO_KEYPRESS[i];
        if pair.0 == character {
            proof {
                lemma_first_entry(CHAR_TO_KEYPRESS@, character, CHAR_TO_KEYPRESS@.len() as int);
            }
            return Some(KeyPress { key: (pair.1).0, mods: (pair.1).1 });
        }
        i += 1;
    }
    proof {
        lemma_first_entry(CHAR_TO_KEYPRESS@, character, CHAR_TO_KEYPRESS@.len() as int);
    }
    None
}

/// The character that stands for the event code `code`, if any.
pub fn code_to_char(code: u16) -> (found: Option<char>)
    ensures
        found == looked_up(CODE_TO_CHAR@, code),
{
    let mut i: usize = 0;
    while i < CODE_TO_CHAR.len()
        invariant
            i <= CODE_TO_CHAR@.len(),
            forall|j: int| 0 <= j < i ==> (#[trigger] CODE_TO_CHAR@[j]).0 != code,
        decreases CODE_TO_CHAR@.len() - i,
    {
        let pair = CODE_TO_CHAR[i];
        if pair.0 == code {
            proof {
                lemma_first_entry(CODE_TO_CHAR@, code, CODE_TO_CHAR@.len() as int);
            }
            return Some(pair.1);
        }
        i += 1;
    }
    proof {
        lemma_first_entry(CODE_TO_CHAR@, code, CODE_TO_CHAR@.len() as int);
    }
    None
}

/// The shifted form of `character`, if it has one.
pub fn char_to_shifted(character: char) -> (found: Option<char>)
    ensures
        found == looked_up(CHAR_TO_SHIFTED@, character),
{
    let mut i: usize = 0;
    while i < CHAR_TO_SHIFTED.len()
        invariant
            i <= CHAR_TO_SHIFTED@.len(),
            forall|j: int| 0 <= j < i ==> (#[trigger] CHAR_TO_SHIFTED@[j]).0 != character,
        decreases CHAR_TO_SHIFTED@.len() - i,
    {
        let pair = CHAR_TO_SHIFTED[i];
        if pair.0 == character {
            proof {
                lemma_first_entry(CHAR_TO_SHIFTED@, character, CHAR_TO_SHIFTED@.len() as int);
            }
            return Some(pair.1);
        }
        i += 1;
    }
    proof {
        lemma_first_entry(CHAR_TO_SHIFTED@, character, CHAR_TO_SHIFTED@.len() as int);
    }
    None
}

/// One key transition of the physical keyboard.
#[derive(Clone, Copy, Debug)]
pub struct KeyInput {
    /// The character that stands for the key.
    pub character: char,
    /// When the key moved, by the clock of the event source.
    pub time: u64,
    /// Whether the key went down.
    pub down: bool,
}

/// What a raw event of type `kind` with the code `code` and the value
/// `value` at `time` decodes to: a key going down (value 1) or up (value 0)
/// whose code is below 255 and stands for a character; nothing otherwise.
pub open spec fn decoded(kind: u16, code: u16, value: i32, time: u64) -> Option<KeyInput> {
    if (value == 1 || value == 0) && kind == EV_KEY && code < 255 {
        match looked_up(CODE_TO_CHAR@, code) {
            Some(character) => Some(KeyInput { character, time, down: value == 1 }),
            None => None,
        }
    } else {
        None
    }
}

impl KeyInput {
    /// The transition by hand and key index, where a key of `layout` reports
    /// its character.
    pub fn locate(&self, layout: &Layout) -> (event: Option<TimedKeyEvent>)
        ensures
            event == match layout.locate_spec(self.character) {
                Some((hand, index)) => Some(
                    TimedKeyEvent {
                        hand,
                        key_index: index as usize,
                        timestamp: self.time,
                        is_press: self.down,
                    },
                ),
                None => None,
            },
    {
        match layout.locate(self.character) {
            Some((hand, key_index)) => Some(
                TimedKeyEvent { hand, key_index, timestamp: self.time, is_press: self.down },
            ),
            None => None,
        }
    }

    /// Decodes one raw event of the physical keyboard.
    pub fn decode(kind: u16, code: u16, value: i32, time: u64) -> (input: Option<KeyInput>)
        ensures
            input == decoded(kind, code, value, time),
    {
        let down = value == 1;
        if !(down || value == 0) || kind != EV_KEY || code >= 255 {
            return None;
        }
        match code_to_char(code) {
            Some(character) => Some(KeyInput { character, time, down }),
            None => None,
        }
    }
}

} // verus!

//! The chord domain: the keys of each hand, the output alphabet, the table of
//! how often one symbol follows another, and the chord that stands for a pair
//! of keys.

use vstd::prelude::*;

verus! {

/// The hand that strikes a key.
#[derive(Clone, Copy, Debug, PartialEq, Eq, Structural)]
pub enum Hand {
    Left,
    Right,
}

/// One physical key of one hand.
#[derive(Clone, Copy, Debug, PartialEq, Eq, Structural)]
pub struct Key {
    /// The character under which the event source reports the key.
    pub symbol: char,
    /// The effort of striking the key alone, in fixed-point units; positive.
    pub cost: u32,
    /// The finger that normally strikes the key.
    pub group: u8,
}

/// One key transition as the event source reports it: the key by its hand
/// and its index within the hand, the time by the clock of the event source,
/// and whether the key went down.
#[derive(Clone, Copy, Debug, PartialEq, Eq, Structural)]
pub struct TimedKeyEvent {
    pub hand: Hand,
    pub key_index: usize,
    pub timestamp: u64,
    pub is_press: bool,
}

/// A chord: one key of the left hand and one of the right, each by its index
/// within its hand.
#[derive(Clone, Copy, Debug, PartialEq, Eq, Structural)]
pub struct InputKey {
    pub left: usize,
    pub right: usize,
}

/// The largest number of keys that one hand may have: a key index is stored
/// in one byte.
pub const MAX_HAND_KEYS: usize = 256;

/// The fixed configuration that the cost model, the search and the matcher
/// share.
///
/// A value of this type always satisfies `wf`: `new` is the only way to make
/// one, and nothing changes it afterwards.
#[derive(Debug)]
pub struct Layout {
    left_keys: Vec<Key>,
    right_keys: Vec<Key>,
    out_keys: Vec<char>,
    pair_probs: Vec<u32>,
}

/// Whether every key of a hand has a positive cost.
pub open spec fn costs_positive(keys: Seq<Key>) -> bool {
    forall|i: int| 0 <= i < keys.len() ==> (#[trigger] keys[i]).cost > 0
}

/// The conditions under which four tables make up a layout.
pub open spec fn tables_valid(
    left_keys: Seq<Key>,
    right_keys: Seq<Key>,
    out_keys: Seq<char>,
    pair_probs: Seq<u32>,
) -> bool {
    &&& left_keys.len() <= MAX_HAND_KEYS
    &&& right_keys.len() <= MAX_HAND_KEYS
    &&& costs_positive(left_keys)
    &&& costs_positive(right_keys)
    &&& out_keys.len() <= left_keys.len() * right_keys.len()
    &&& pair_probs.len() == out_keys.len() * out_keys.len()
}

/// The position of the first key of `keys` that reports `symbol`, if any.
pub open spec fn key_position(keys: Seq<Key>, symbol: char) -> Option<int>
    decreases keys.len(),
{
    if keys.len() == 0 {
        None
    } else if keys[0].symbol == symbol {
        Some(0)
    } else {
        match key_position(keys.drop_first(), symbol) {
            Some(i) => Some(i + 1),
            None => None,
        }
    }
}

/// What `key_position` finds: the least index whose key reports the symbol.
pub proof fn lemma_key_position(keys: Seq<Key>, symbol: char)
    ensures
        match key_position(keys, symbol) {
            Some(i) => {
                &&& 0 <= i < keys.len()
                &&& keys[i].symbol == symbol
                &&& forall|j: int| 0 <= j < i ==> (#[trigger] keys[j]).symbol != symbol
            },
            None => forall|j: int| 0 <= j < keys.len() ==> (#[trigger] keys[j]).symbol != symbol,
        },
    decreases keys.len(),
{
    if keys.len() > 0 && keys[0].symbol != symbol {
        let rest = keys.drop_first();
        lemma_key_position(rest, symbol);
        match key_position(rest, symbol) {
            Some(i) => {
                assert forall|j: int| 0 <= j < i + 1 implies (#[trigger] keys[j]).symbol
                    != symbol by {
                    if j > 0 {
                        assert(keys[j] == rest[j - 1]);
                    }
                }
            },
            None => {
                assert forall|j: int| 0 <= j < keys.len() implies (#[trigger] keys[j]).symbol
                    != symbol by {
                    if j > 0 {
                        assert(keys[j] == rest[j - 1]);
                    }
                }
            },
        }
    }
}

fn all_costs_positive(keys: &Vec<Key>) -> (ok: bool)
    ensures
        ok == costs_positive(keys@),
{
    let mut i: usize = 0;
    while i < keys.len()
        invariant
            i <= keys.len(),
            forall|j: int| 0 <= j < i ==> (#[trigger] keys@[j]).cost > 0,
        decreases keys.len() - i,
    {
        if keys[i].cost == 0 {
            return false;
        }
        i += 1;
    }
    true
}

fn copy_keys(keys: &Vec<Key>) -> (copy: Vec<Key>)
    ensures
        copy@ == keys@,
{
    let mut copy: Vec<Key> = Vec::new();
    let mut i: usize = 0;
    while i < keys.len()
        invariant
            i <= keys@.len(),
            copy@ == keys@.take(i as int),
        decreases keys@.len() - i,
    {
        copy.push(keys[i]);
        proof {
            assert(keys@.take(i + 1) =~= keys@.take(i as int).push(keys@[i as int]));
        }
        i += 1;
    }
    proof {
        assert(keys@.take(i as int) =~= keys@);
    }
    copy
}

fn find_key(keys: &Vec<Key>, symbol: char) -> (found: Option<usize>)
    ensures
        match found {
            Some(i) => key_position(keys@, symbol) == Some(i as int),
            None => key_position(keys@, symbol).is_none(),
        },
{
    let mut i: usize = 0;
    while i < keys.len()
        invariant
            i <= keys.len(),
            forall|j: int| 0 <= j < i ==> (#[trigger] keys@[j]).symbol != symbol,
        decreases keys.len() - i,
    {
        if keys[i].symbol == symbol {
            proof {
                lemma_key_position(keys@, symbol);
            }
            return Some(i);
        }
        i += 1;
    }
    proof {
        lemma_key_position(keys@, symbol);
    }
    None
}

impl Layout {
    /// The keys of the left hand, by key index.
    pub closed spec fn left(&self) -> Seq<Key> {
        self.left_keys@
    }

    /// The keys of the right hand, by key index.
    pub closed spec fn right(&self) -> Seq<Key> {
        self.right_keys@
    }

    /// The output alphabet, in the order of an assignment's scored slots.
    pub closed spec fn alphabet(&self) -> Seq<char> {
        self.out_keys@
    }

    /// The transition table: how often symbol `curr` follows symbol `prev`,
    /// at `prev * M + curr` where `M` is the size of the alphabet.
    pub closed spec fn weights(&self) -> Seq<u32> {
        self.pair_probs@
    }

    /// The invariant of a layout: each hand has at most `MAX_HAND_KEYS` keys,
    /// every key has a positive cost, the alphabet is no larger than the
    /// chord space, and the transition table is square over the alphabet.
    #[verifier::type_invariant]
    pub open spec fn wf(&self) -> bool {
        tables_valid(self.left(), self.right(), self.alphabet(), self.weights())
    }

    /// The number of chords: one for each pair of a left and a right key.
    pub open spec fn chords(&self) -> nat {
        self.left().len() * self.right().len()
    }

    /// The size of the output alphabet.
    pub open spec fn symbols(&self) -> nat {
        self.alphabet().len()
    }

    /// Whether `key` names a key of each hand.
    pub open spec fn has_chord(&self, key: InputKey) -> bool {
        key.left < self.left().len() && key.right < self.right().len()
    }

    /// The weight of the transition from symbol `prev` to symbol `curr`.
    pub open spec fn weight(&self, prev: int, curr: int) -> int {
        self.weights()[prev * self.symbols() + curr] as int
    }

    /// The hand and key index of the key that reports `symbol`: the first such
    /// key of the left hand, else the first of the right hand.
    pub open spec fn locate_spec(&self, symbol: char) -> Option<(Hand, int)> {
        match key_position(self.left(), symbol) {
            Some(i) => Some((Hand::Left, i)),
            None => match key_position(self.right(), symbol) {
                Some(i) => Some((Hand::Right, i)),
                None => None,
            },
        }
    }

    /// Whether the scored slots of `params`, one for each symbol, all hold
    /// chords of this layout.
    pub open spec fn scores(&self, params: Seq<InputKey>) -> bool {
        &&& self.symbols() <= params.len()
        &&& forall|i: int| 0 <= i < self.symbols() ==> self.has_chord(#[trigger] params[i])
    }

    /// Whether `params` is an assignment over this layout: one slot for each
    /// chord, every slot holding a chord of the layout.
    pub open spec fn assigns(&self, params: Seq<InputKey>) -> bool {
        &&& params.len() == self.chords()
        &&& forall|i: int| 0 <= i < params.len() ==> self.has_chord(#[trigger] params[i])
    }

    /// The chord at place `at` of the canonical order.
    pub open spec fn chord_at(&self, at: int) -> InputKey {
        InputKey {
            left: (at / self.right().len() as int) as usize,
            right: (at % self.right().len() as int) as usize,
        }
    }

    /// The identity assignment: every chord at its canonical place.
    pub open spec fn identity(&self) -> Seq<InputKey> {
        Seq::new(self.chords(), |at: int| self.chord_at(at))
    }

    /// An assignment over the layout can be scored.
    pub proof fn lemma_assignment_scores(&self, params: Seq<InputKey>)
        requires
            self.wf(),
            self.assigns(params),
        ensures
            self.scores(params),
    {
    }

    /// A layout has at most 65536 chords, and no more symbols than chords.
    pub proof fn lemma_sizes(&self)
        requires
            self.wf(),
        ensures
            self.symbols() <= self.chords() <= 65536,
            self.weights().len() == self.symbols() * self.symbols() <= 0x1_0000_0000,
    {
        let left = self.left().len();
        let right = self.right().len();
        let count = self.symbols();
        assert(left * right <= 65536) by (nonlinear_arith)
            requires
                left <= 256,
                right <= 256,
        ;
        assert(count * count <= 0x1_0000_0000) by (nonlinear_arith)
            requires
                count <= 65536,
        ;
    }

    /// Builds a layout from its four tables, or refuses them.
    pub fn new(
        left_keys: Vec<Key>,
        right_keys: Vec<Key>,
        out_keys: Vec<char>,
        pair_probs: Vec<u32>,
    ) -> (made: Option<Layout>)
        ensures
            made.is_some() == tables_valid(left_keys@, right_keys@, out_keys@, pair_probs@),
            made matches Some(layout) ==> {
                &&& layout.wf()
                &&& layout.left() == left_keys@
                &&& layout.right() == right_keys@
                &&& layout.alphabet() == out_keys@
                &&& layout.weights() == pair_probs@
            },
    {
        if left_keys.len() > MAX_HAND_KEYS || right_keys.len() > MAX_HAND_KEYS {
            return None;
        }
        if !all_costs_positive(&left_keys) || !all_costs_positive(&right_keys) {
            return None;
        }
        let left: u64 = left_keys.len() as u64;
        let right: u64 = right_keys.len() as u64;
        assert(left * right <= 65536) by (nonlinear_arith)
            requires
                left <= 256,
                right <= 256,
        ;
        let chords: u64 = left * right;
        let symbols: u64 = out_keys.len() as u64;
        if symbols > chords {
            return None;
        }
        assert(symbols * symbols <= 65536 * 65536) by (nonlinear_arith)
            requires
                symbols <= 65536,
        ;
        if pair_probs.len() as u64 != symbols * symbols {
            return None;
        }
        Some(Layout { left_keys, right_keys, out_keys, pair_probs })
    }

    /// The keys of the left hand.
    pub fn left_keys(&self) -> (keys: &Vec<Key>)
        ensures
            keys@ == self.left(),
            self.wf(),
    {
        proof {
            use_type_invariant(self);
        }
        &self.left_keys
    }

    /// The keys of the right hand.
    pub fn right_keys(&self) -> (keys: &Vec<Key>)
        ensures
            keys@ == self.right(),
            self.wf(),
    {
        proof {
            use_type_invariant(self);
        }
        &self.right_keys
    }

    /// The output alphabet.
    pub fn out_keys(&self) -> (symbols: &Vec<char>)
        ensures
            symbols@ == self.alphabet(),
            self.wf(),
    {
        proof {
            use_type_invariant(self);
        }
        &self.out_keys
    }

    /// The transition table.
    pub fn pair_probs(&self) -> (weights: &Vec<u32>)
        ensures
            weights@ == self.weights(),
            self.wf(),
    {
        proof {
            use_type_invariant(self);
        }
        &self.pair_probs
    }

    /// The number of chords.
    pub fn chord_count(&self) -> (n: usize)
        ensures
            n == self.chords(),
            self.wf(),
    {
        proof {
            use_type_invariant(self);
            self.lemma_sizes();
        }
        self.left_keys.len() * self.right_keys.len()
    }

    /// The size of the output alphabet.
    pub fn out_count(&self) -> (n: usize)
        ensures
            n == self.symbols(),
            self.wf(),
    {
        proof {
            use_type_invariant(self);
        }
        self.out_keys.len()
    }

    /// The place of the transition from `prev` to `curr` in the transition
    /// table.
    pub fn index_pair(&self, prev: usize, curr: usize) -> (at: usize)
        requires
            prev < self.symbols(),
            curr < self.symbols(),
        ensures
            at == prev * self.symbols() + curr,
            at < self.weights().len(),
    {
        let count = self.out_keys.len();
        let ghost size = self.pair_probs@.len() as int;
        proof {
            use_type_invariant(self);
            self.lemma_sizes();
        }
        assert(0 <= prev * count <= 65535 * 65536 && prev * count + curr < size)
            by (nonlinear_arith)
            requires
                prev < count,
                curr < count,
                count <= 65536,
                size == count * count,
        ;
        prev * count + curr
    }

    /// The hand and key index of the key that reports `symbol`.
    pub fn locate(&self, symbol: char) -> (found: Option<(Hand, usize)>)
        ensures
            match found {
                Some((hand, index)) => self.locate_spec(symbol) == Some((hand, index as int)),
                None => self.locate_spec(symbol).is_none(),
            },
            found matches Some((hand, index)) ==> match hand {
                Hand::Left => index < self.left().len(),
                Hand::Right => index < self.right().len(),
            },
    {
        proof {
            lemma_key_position(self.left_keys@, symbol);
            lemma_key_position(self.right_keys@, symbol);
        }
        match find_key(&self.left_keys, symbol) {
            Some(index) => Some((Hand::Left, index)),
            None => match find_key(&self.right_keys, symbol) {
                Some(index) => Some((Hand::Right, index)),
                None => None,
            },
        }
    }

    /// Whether the scored slots of `params` all hold chords of this layout.
    pub fn can_score(&self, params: &Vec<InputKey>) -> (ok: bool)
        ensures
            ok == self.scores(params@),
    {
        let count = self.out_keys.len();
        if params.len() < count {
            return false;
        }
        let mut i: usize = 0;
        while i < count
            invariant
                i <= count,
                count == self.symbols(),
                count <= params@.len(),
                forall|j: int| 0 <= j < i ==> self.has_chord(#[trigger] params@[j]),
            decreases count - i,
        {
            let key = params[i];
            if key.left >= self.left_keys.len() || key.right >= self.right_keys.len() {
                assert(!self.has_chord(params@[i as int]));
                return false;
            }
            i += 1;
        }
        true
    }

    /// The identity assignment: every chord of the layout once, in the
    /// canonical order `left * right_count + right`.
    pub fn in_keys(&self) -> (params: Vec<InputKey>)
        ensures
            params@ == self.identity(),
            self.assigns(params@),
            forall|at: int|
                0 <= at < params@.len() ==> (#[trigger] params@[at]).index_spec(self) == at,
    {
        let left_count = self.left_keys.len();
        let right_count = self.right_keys.len();
        let mut params: Vec<InputKey> = Vec::new();
        let mut left: usize = 0;
        while left < left_count
            invariant
                left <= left_count,
                left_count == self.left().len(),
                right_count == self.right().len(),
                params@.len() == left * right_count,
                forall|at: int|
                    0 <= at < params@.len() ==> #[trigger] params@[at] == self.chord_at(at),
            decreases left_count - left,
        {
            let mut right: usize = 0;
            while right < right_count
                invariant
                    left < left_count,
                    right <= right_count,
                    left_count == self.left().len(),
                    right_count == self.right().len(),
                    params@.len() == left * right_count + right,
                    forall|at: int|
                        0 <= at < params@.len() ==> #[trigger] params@[at] == self.chord_at(at),
                decreases right_count - right,
            {
                proof {
                    let at = left * right_count + right;
                    vstd::arithmetic::div_mod::lemma_fundamental_div_mod_converse(
                        at as int,
                        right_count as int,
                        left as int,
                        right as int,
                    );
                }
                params.push(InputKey { left, right });
                right += 1;
            }
            assert((left + 1) * right_count == left * right_count + right_count)
                by (nonlinear_arith);
            left += 1;
        }
        proof {
            use_type_invariant(self);
            assert(left_count * right_count == self.chords());
            assert(params@ =~= self.identity());
            assert forall|at: int| 0 <= at < params@.len() implies self.has_chord(
                #[trigger] params@[at],
            ) && params@[at].index_spec(self) == at by {
                self.lemma_chord_at(at);
            }
        }
        params
    }

    /// A chord of the layout stands at its own index in the canonical order.
    pub proof fn lemma_index_of_chord(&self, key: InputKey)
        requires
            self.wf(),
            self.has_chord(key),
        ensures
            0 <= key.index_spec(self) < self.chords(),
            self.chord_at(key.index_spec(self)) == key,
    {
        let left = self.left().len() as int;
        let right = self.right().len() as int;
        let at = key.index_spec(self);
        assert(0 <= key.left * right && at < left * right) by (nonlinear_arith)
            requires
                at == key.left * right + key.right,
                0 <= key.left < left,
                0 <= key.right < right,
        ;
        vstd::arithmetic::div_mod::lemma_fundamental_div_mod_converse(
            at,
            right,
            key.left as int,
            key.right as int,
        );
    }

    /// The chord at a place of the canonical order is a chord of the layout,
    /// and that place is its index.
    pub proof fn lemma_chord_at(&self, at: int)
        requires
            self.wf(),
            0 <= at < self.chords(),
        ensures
            self.has_chord(self.chord_at(at)),
            self.chord_at(at).index_spec(self) == at,
    {
        let right = self.right().len() as int;
        let left = self.left().len() as int;
        assert(right > 0) by (nonlinear_arith)
            requires
                0 <= at < left * right,
                0 <= left,
                0 <= right,
        ;
        vstd::arithmetic::div_mod::lemma_fundamental_div_mod(at, right);
        vstd::arithmetic::div_mod::lemma_div_pos_is_pos(at, right);
        vstd::arithmetic::div_mod::lemma_mod_bound(at, right);
        let q = at / right;
        assert(q < left) by (nonlinear_arith)
            requires
                at == right * q + at % right,
                0 <= at % right,
                at < left * right,
                right > 0,
        ;
        assert(right * q == q * right) by (nonlinear_arith);
        assert(self.chord_at(at).left == q);
        assert(self.chord_at(at).right == at % right);
    }
}

impl Clone for Layout {
    fn clone(&self) -> (copy: Layout)
        ensures
            copy.wf(),
            copy.left() == self.left(),
            copy.right() == self.right(),
            copy.alphabet() == self.alphabet(),
            copy.weights() == self.weights(),
    {
        proof {
            use_type_invariant(self);
        }
        let mut out_keys: Vec<char> = Vec::new();
        let mut i: usize = 0;
        while i < self.out_keys.len()
            invariant
                i <= self.out_keys@.len(),
                out_keys@ == self.out_keys@.take(i as int),
            decreases self.out_keys@.len() - i,
        {
            out_keys.push(self.out_keys[i]);
            proof {
                assert(self.out_keys@.take(i + 1) =~= self.out_keys@.take(i as int).push(
                    self.out_keys@[i as int],
                ));
            }
            i += 1;
        }
        let mut pair_probs: Vec<u32> = Vec::new();
        let mut j: usize = 0;
        while j < self.pair_probs.len()
            invariant
                j <= self.pair_probs@.len(),
                pair_probs@ == self.pair_probs@.take(j as int),
            decreases self.pair_probs@.len() - j,
        {
            pair_probs.push(self.pair_probs[j]);
            proof {
                assert(self.pair_probs@.take(j + 1) =~= self.pair_probs@.take(j as int).push(
                    self.pair_probs@[j as int],
                ));
            }
            j += 1;
        }
        proof {
            assert(self.out_keys@.take(i as int) =~= self.out_keys@);
            assert(self.pair_probs@.take(j as int) =~= self.pair_probs@);
        }
        Layout {
            left_keys: copy_keys(&self.left_keys),
            right_keys: copy_keys(&self.right_keys),
            out_keys,
            pair_probs,
        }
    }
}

impl InputKey {
    /// The chord of left key `left` and right key `right`.
    pub fn new(left: usize, right: usize) -> (key: InputKey)
        ensures
            key == (InputKey { left, right }),
    {
        InputKey { left, right }
    }

    /// Whether this is the chord of left key `left` and right key `right`.
    pub fn compare(&self, left: usize, right: usize) -> (same: bool)
        ensures
            same == (self.left == left && self.right == right),
    {
        self.left == left && self.right == right
    }

    /// The place of the chord in the canonical order of the chord space.
    pub open spec fn index_spec(self, layout: &Layout) -> int {
        self.left * layout.right().len() + self.right
    }

    /// The cost of the chord by itself: the costs of its two keys.
    pub open spec fn intrinsic_cost(self, layout: &Layout) -> int {
        layout.left()[self.left as int].cost + layout.right()[self.right as int].cost
    }

    /// Whether following `prev` with this chord makes one finger move between
    /// two keys: on either hand the two chords use different keys of the same
    /// finger group.
    pub open spec fn collides(self, prev: InputKey, layout: &Layout) -> bool {
        ||| (self.left != prev.left && layout.left()[self.left as int].group
            == layout.left()[prev.left as int].group)
        ||| (self.right != prev.right && layout.right()[self.right as int].group
            == layout.right()[prev.right as int].group)
    }

    /// The cost of this chord when it follows `prev`: its intrinsic cost,
    /// doubled where the two collide.
    pub open spec fn pair_cost(self, prev: InputKey, layout: &Layout) -> int {
        if self.collides(prev, layout) {
            2 * self.intrinsic_cost(layout)
        } else {
            self.intrinsic_cost(layout)
        }
    }

    /// The two-byte record of the chord: each key index reduced to one byte.
    pub open spec fn bytes_spec(self) -> Seq<u8> {
        seq![(self.left % 256) as u8, (self.right % 256) as u8]
    }

    /// The chord that a two-byte record stands for.
    pub open spec fn from_bytes_spec(bytes: Seq<u8>) -> InputKey {
        InputKey { left: bytes[0] as usize, right: bytes[1] as usize }
    }

    /// The place of the chord in the canonical order of the chord space.
    pub fn index(&self, layout: &Layout) -> (at: usize)
        requires
            layout.has_chord(*self),
        ensures
            at == self.index_spec(layout),
            at < layout.chords(),
    {
        proof {
            use_type_invariant(layout);
        }
        let right_count = layout.right_keys.len();
        let ghost left_count = layout.left_keys@.len() as int;
        assert(0 <= self.left * right_count <= 255 * 256 && self.left * right_count + self.right
            < left_count * right_count) by (nonlinear_arith)
            requires
                self.left < left_count,
                self.right < right_count,
                left_count <= 256,
                right_count <= 256,
        ;
        self.left * right_count + self.right
    }

    /// The cost of this chord when it follows `prev`.
    pub fn get_cost(&self, prev: &InputKey, layout: &Layout) -> (cost: u64)
        requires
            layout.has_chord(*self),
            layout.has_chord(*prev),
        ensures
            cost == self.pair_cost(*prev, layout),
    {
        let left = &layout.left_keys[self.left];
        let right = &layout.right_keys[self.right];
        let base: u64 = left.cost as u64 + right.cost as u64;
        let same_left = self.left != prev.left && left.group == layout.left_keys[prev.left].group;
        let same_right = self.right != prev.right && right.group
            == layout.right_keys[prev.right].group;
        if same_left || same_right {
            2 * base
        } else {
            base
        }
    }

    /// The two-byte record of the chord.
    pub fn as_bytes(&self) -> (bytes: [u8; 2])
        ensures
            bytes@ == self.bytes_spec(),
    {
        let left = (self.left % 256) as u8;
        let right = (self.right % 256) as u8;
        let bytes = [left, right];
        assert(bytes@ =~= self.bytes_spec());
        bytes
    }

    /// The chord that a two-byte record stands for.
    pub fn from_bytes(bytes: [u8; 2]) -> (key: InputKey)
        ensures
            key == Self::from_bytes_spec(bytes@),
    {
        InputKey { left: bytes[0] as usize, right: bytes[1] as usize }
    }
}

/// A chord's record reads back as the same chord: every chord of a layout,
/// since a hand has at most 256 keys.
pub proof fn lemma_record_round_trip(layout: &Layout, key: InputKey)
    requires
        layout.wf(),
        layout.has_chord(key),
    ensures
        InputKey::from_bytes_spec(key.bytes_spec()) == key,
{
}

/// Reading a record and writing it again gives the same two bytes.
pub proof fn lemma_bytes_round_trip(bytes: Seq<u8>)
    requires
        bytes.len() == 2,
    ensures
        InputKey::from_bytes_spec(bytes).bytes_spec() == bytes,
{
    assert(InputKey::from_bytes_spec(bytes).bytes_spec() =~= bytes);
}

/// Where two chords use different left keys of one finger group, the cost of
/// the later one is twice its intrinsic cost.
pub proof fn lemma_cost_doubles_left(layout: &Layout, current: InputKey, previous: InputKey)
    requires
        layout.has_chord(current),
        layout.has_chord(previous),
        current.left != previous.left,
        layout.left()[current.left as int].group == layout.left()[previous.left as int].group,
    ensures
        current.pair_cost(previous, layout) == 2 * current.intrinsic_cost(layout),
{
}

/// Where two chords use different right keys of one finger group, the cost of
/// the later one is twice its intrinsic cost.
pub proof fn lemma_cost_doubles_right(layout: &Layout, current: InputKey, previous: InputKey)
    requires
        layout.has_chord(current),
        layout.has_chord(previous),
        current.right != previous.right,
        layout.right()[current.right as int].group
            == layout.right()[previous.right as int].group,
    ensures
        current.pair_cost(previous, layout) == 2 * current.intrinsic_cost(layout),
{
}

/// Where on each hand the two chords use the same key or keys of different
/// finger groups, the cost of the later one is its intrinsic cost.
pub proof fn lemma_cost_plain(layout: &Layout, current: InputKey, previous: InputKey)
    requires
        layout.has_chord(current),
        layout.has_chord(previous),
        current.left == previous.left || layout.left()[current.left as int].group
            != layout.left()[previous.left as int].group,
        current.right == previous.right || layout.right()[current.right as int].group
            != layout.right()[previous.right as int].group,
    ensures
        current.pair_cost(previous, layout) == current.intrinsic_cost(layout),
{
}

/// A pair cost is positive and below 2^34.
pub proof fn lemma_pair_cost_bounds(layout: &Layout, current: InputKey, previous: InputKey)
    requires
        layout.wf(),
        layout.has_chord(current),
    ensures
        0 < current.intrinsic_cost(layout) <= current.pair_cost(previous, layout) <= 2
            * current.intrinsic_cost(layout) < 0x4_0000_0000,
{
}

} // verus!

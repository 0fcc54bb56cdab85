//! The realtime chord matcher: it pairs the oldest pending key press of each
//! hand and gives the symbol that the assignment puts on that chord.

use crate::key_converter::{Hand, InputKey, Layout, TimedKeyEvent};
use std::collections::VecDeque;
use vstd::prelude::*;

verus! {

/// Whether a pending press at `stamp` is still inside the window of length
/// `cutoff` that ends at `time`.
pub open spec fn fresh(stamp: u64, time: u64, cutoff: u64) -> bool {
    stamp + cutoff >= time
}

/// The entries of `queue` that are still inside the window ending at `time`,
/// in their order.
pub open spec fn recent(queue: Seq<(usize, u64)>, time: u64, cutoff: u64) -> Seq<(usize, u64)>
    decreases queue.len(),
{
    if queue.len() == 0 {
        queue
    } else {
        let kept = recent(queue.drop_last(), time, cutoff);
        if fresh(queue.last().1, time, cutoff) {
            kept.push(queue.last())
        } else {
            kept
        }
    }
}

/// Whether the time stamps of `queue` never go down.
pub open spec fn time_ordered(queue: Seq<(usize, u64)>) -> bool {
    forall|i: int, j: int| 0 <= i <= j < queue.len() ==> queue[i].1 <= queue[j].1
}

/// The least slot below `limit` of `params` that holds `key`, if any.
pub open spec fn first_slot(params: Seq<InputKey>, limit: int, key: InputKey) -> Option<int>
    decreases limit,
{
    if limit <= 0 {
        None
    } else {
        match first_slot(params, limit - 1, key) {
            Some(slot) => Some(slot),
            None => if params[limit - 1] == key {
                Some(limit - 1)
            } else {
                None
            },
        }
    }
}

/// The number of slots of `params` that stand for a symbol: one for each
/// symbol of the alphabet, as far as `params` goes.
pub open spec fn scored_slots(layout: &Layout, params: Seq<InputKey>) -> int {
    if params.len() < layout.symbols() {
        params.len() as int
    } else {
        layout.symbols() as int
    }
}

/// The symbol whose slot is the first of the first `limit` slots of `params`
/// to hold `key`, if any.
pub open spec fn symbol_within(
    layout: &Layout,
    params: Seq<InputKey>,
    limit: int,
    key: InputKey,
) -> Option<char> {
    match first_slot(params, limit, key) {
        Some(slot) => Some(layout.alphabet()[slot]),
        None => None,
    }
}

/// The symbol that the assignment `params` puts on the chord `key`: that of
/// the first scored slot holding the chord, if any.
pub open spec fn symbol_of(layout: &Layout, params: Seq<InputKey>, key: InputKey) -> Option<char> {
    symbol_within(layout, params, scored_slots(layout, params), key)
}

/// The least place below `limit` of `alphabet` that holds `symbol`, if any.
pub open spec fn first_place(alphabet: Seq<char>, symbol: char, limit: int) -> Option<int>
    decreases limit,
{
    if limit <= 0 {
        None
    } else {
        match first_place(alphabet, symbol, limit - 1) {
            Some(place) => Some(place),
            None => if alphabet[limit - 1] == symbol {
                Some(limit - 1)
            } else {
                None
            },
        }
    }
}

/// What `first_place` finds: the least place below `limit` holding `symbol`.
pub proof fn lemma_first_place(alphabet: Seq<char>, symbol: char, limit: int)
    ensures
        match first_place(alphabet, symbol, limit) {
            Some(place) => {
                &&& 0 <= place < limit
                &&& alphabet[place] == symbol
                &&& forall|i: int| 0 <= i < place ==> alphabet[i] != symbol
            },
            None => forall|i: int| 0 <= i < limit ==> alphabet[i] != symbol,
        },
    decreases limit,
{
    if limit > 0 {
        lemma_first_place(alphabet, symbol, limit - 1);
    }
}

/// The characters of the two keys to strike for `symbol` under the
/// assignment `params`, left hand first: those of the chord in the slot of
/// the symbol's first place in the alphabet. There are none where the symbol
/// is not in the alphabet, where `params` has no such slot, or where the slot
/// holds no chord of the layout.
pub open spec fn keys_for(layout: &Layout, params: Seq<InputKey>, symbol: char) -> Option<
    (char, char),
> {
    match first_place(layout.alphabet(), symbol, layout.symbols() as int) {
        Some(place) => if place < params.len() && layout.has_chord(params[place]) {
            Some(
                (
                    layout.left()[params[place].left as int].symbol,
                    layout.right()[params[place].right as int].symbol,
                ),
            )
        } else {
            None
        },
        None => None,
    }
}

/// The two queues after a press of key `index` of `hand` at `time` has been
/// appended to its own queue and the other queue has lost what is older than
/// the window.
pub open spec fn queues_after_press(
    left: Seq<(usize, u64)>,
    right: Seq<(usize, u64)>,
    hand: Hand,
    index: usize,
    time: u64,
    cutoff: u64,
) -> (Seq<(usize, u64)>, Seq<(usize, u64)>) {
    match hand {
        Hand::Left => (left.push((index, time)), recent(right, time, cutoff)),
        Hand::Right => (recent(left, time, cutoff), right.push((index, time))),
    }
}

/// What `first_slot` finds: the least slot below `limit` that holds `key`.
pub proof fn lemma_first_slot(params: Seq<InputKey>, limit: int, key: InputKey)
    ensures
        match first_slot(params, limit, key) {
            Some(slot) => {
                &&& 0 <= slot < limit
                &&& params[slot] == key
                &&& forall|i: int| 0 <= i < slot ==> params[i] != key
            },
            None => forall|i: int| 0 <= i < limit ==> params[i] != key,
        },
    decreases limit,
{
    if limit > 0 {
        lemma_first_slot(params, limit - 1, key);
    }
}

/// The least slot that holds a chord depends on the slots below the limit
/// alone.
pub proof fn lemma_first_slot_agrees(a: Seq<InputKey>, b: Seq<InputKey>, limit: int, key: InputKey)
    requires
        forall|slot: int| 0 <= slot < limit ==> a[slot] == b[slot],
    ensures
        first_slot(a, limit, key) == first_slot(b, limit, key),
    decreases limit,
{
    if limit > 0 {
        lemma_first_slot_agrees(a, b, limit - 1, key);
    }
}

/// Two assignments that hold the same chords in the scored slots give every
/// chord the same symbol, whatever stands in the slots behind them.
pub proof fn lemma_symbol_ignores_padding(
    layout: &Layout,
    a: Seq<InputKey>,
    b: Seq<InputKey>,
    key: InputKey,
)
    requires
        layout.symbols() <= a.len(),
        layout.symbols() <= b.len(),
        forall|slot: int| 0 <= slot < layout.symbols() ==> a[slot] == b[slot],
    ensures
        symbol_of(layout, a, key) == symbol_of(layout, b, key),
{
    lemma_first_slot_agrees(a, b, layout.symbols() as int, key);
}

/// While the other hand has nothing pending, every press of one hand stays
/// pending, however old the presses before it are: a queue is never pruned by
/// presses of its own hand.
pub proof fn lemma_same_hand_backlog(
    left: Seq<(usize, u64)>,
    right: Seq<(usize, u64)>,
    hand: Hand,
    index: usize,
    time: u64,
    cutoff: u64,
)
    requires
        match hand {
            Hand::Left => right.len() == 0,
            Hand::Right => left.len() == 0,
        },
    ensures
        queues_after_press(left, right, hand, index, time, cutoff) == match hand {
            Hand::Left => (left.push((index, time)), right),
            Hand::Right => (left, right.push((index, time))),
        },
{
}

/// What `recent` keeps of a queue whose time stamps never go down: the
/// entries behind a prefix, so pruning only ever trims the front.
pub proof fn lemma_recent_trims_front(queue: Seq<(usize, u64)>, time: u64, cutoff: u64)
    requires
        time_ordered(queue),
    ensures
        recent(queue, time, cutoff).len() <= queue.len(),
        recent(queue, time, cutoff) == queue.skip(
            queue.len() - recent(queue, time, cutoff).len(),
        ),
        forall|i: int|
            0 <= i < queue.len() - recent(queue, time, cutoff).len() ==> !fresh(
                (#[trigger] queue[i]).1,
                time,
                cutoff,
            ),
        forall|i: int|
            queue.len() - recent(queue, time, cutoff).len() <= i < queue.len() ==> fresh(
                (#[trigger] queue[i]).1,
                time,
                cutoff,
            ),
    decreases queue.len(),
{
    if queue.len() > 0 {
        let front = queue.drop_last();
        lemma_recent_trims_front(front, time, cutoff);
        let kept = recent(front, time, cutoff);
        let all = recent(queue, time, cutoff);
        let dropped = front.len() - kept.len();
        assert forall|i: int| 0 <= i < front.len() implies #[trigger] front[i] == queue[i] by {}
        if fresh(queue.last().1, time, cutoff) {
            assert(all =~= queue.skip(dropped));
            assert forall|i: int| 0 <= i < dropped implies !fresh(
                (#[trigger] queue[i]).1,
                time,
                cutoff,
            ) by {
                assert(front[i] == queue[i]);
            }
            assert forall|i: int| dropped <= i < queue.len() implies fresh(
                (#[trigger] queue[i]).1,
                time,
                cutoff,
            ) by {
                if i < front.len() {
                    assert(front[i] == queue[i]);
                }
            }
        } else {
            if kept.len() > 0 {
                assert(fresh(front[dropped].1, time, cutoff));
                assert(queue[dropped].1 <= queue[queue.len() - 1].1);
            }
            assert(all =~= queue.skip(queue.len() as int));
            assert forall|i: int| 0 <= i < queue.len() implies !fresh(
                (#[trigger] queue[i]).1,
                time,
                cutoff,
            ) by {
                if i < front.len() {
                    assert(front[i] == queue[i]);
                }
            }
        }
    } else {
        assert(queue =~= queue.skip(0));
    }
}

/// Pruning a queue whose time stamps never go down leaves such a queue.
pub proof fn lemma_recent_keeps_order(queue: Seq<(usize, u64)>, time: u64, cutoff: u64)
    ensures
        time_ordered(queue) ==> time_ordered(recent(queue, time, cutoff)),
{
    if time_ordered(queue) {
        lemma_recent_trims_front(queue, time, cutoff);
    }
}

/// What `recent` keeps of any queue: every entry inside the window and no
/// entry outside it.
pub proof fn lemma_recent_keeps_fresh(queue: Seq<(usize, u64)>, time: u64, cutoff: u64)
    ensures
        recent(queue, time, cutoff).len() <= queue.len(),
        forall|i: int|
            0 <= i < recent(queue, time, cutoff).len() ==> fresh(
                (#[trigger] recent(queue, time, cutoff)[i]).1,
                time,
                cutoff,
            ) && queue.contains(recent(queue, time, cutoff)[i]),
        forall|i: int|
            0 <= i < queue.len() && fresh((#[trigger] queue[i]).1, time, cutoff) ==> recent(
                queue,
                time,
                cutoff,
            ).contains(queue[i]),
    decreases queue.len(),
{
    if queue.len() > 0 {
        let front = queue.drop_last();
        lemma_recent_keeps_fresh(front, time, cutoff);
        let kept = recent(front, time, cutoff);
        let all = recent(queue, time, cutoff);
        assert forall|i: int| 0 <= i < all.len() implies fresh((#[trigger] all[i]).1, time, cutoff)
            && queue.contains(all[i]) by {
            if i < kept.len() {
                assert(all[i] == kept[i]);
                assert(front.contains(kept[i]));
                let at = choose|at: int| 0 <= at < front.len() && front[at] == kept[i];
                assert(queue[at] == all[i]);
            } else {
                assert(all[i] == queue[queue.len() - 1]);
            }
        }
        assert forall|i: int|
            0 <= i < queue.len() && fresh(
                (#[trigger] queue[i]).1,
                time,
                cutoff,
            ) implies all.contains(queue[i]) by {
            if i < front.len() {
                assert(front[i] == queue[i]);
                assert(kept.contains(front[i]));
                let at = choose|at: int| 0 <= at < kept.len() && kept[at] == front[i];
                assert(all[at] == queue[i]);
            } else {
                assert(all[all.len() - 1] == queue[i]);
            }
        }
    }
}

/// The pairing step on two queues: where both hold a press, the two oldest
/// leave and make a chord, whose symbol under `params` is the output; where
/// either is empty, nothing changes and there is no output.
pub open spec fn queues_after_pairing(
    layout: &Layout,
    params: Seq<InputKey>,
    left: Seq<(usize, u64)>,
    right: Seq<(usize, u64)>,
) -> (Seq<(usize, u64)>, Seq<(usize, u64)>, Option<char>) {
    if left.len() > 0 && right.len() > 0 {
        (
            left.drop_first(),
            right.drop_first(),
            symbol_of(layout, params, InputKey { left: left[0].0, right: right[0].0 }),
        )
    } else {
        (left, right, None)
    }
}

/// Whether a press at `time` comes no earlier than every entry of `queue`.
pub open spec fn follows(queue: Seq<(usize, u64)>, time: u64) -> bool {
    forall|i: int| 0 <= i < queue.len() ==> (#[trigger] queue[i]).1 <= time
}

/// A loaded assignment together with its inverse: for every chord of the
/// layout the symbol that the assignment puts on it, worked out once.
pub struct SymbolTable {
    layout: Layout,
    params: Vec<InputKey>,
    symbols: Vec<Option<char>>,
}

/// The matcher: a loaded assignment, the window, and one queue of pending
/// presses for each hand.
pub struct Remapper {
    table: SymbolTable,
    cutoff: u64,
    left_keys: VecDeque<(usize, u64)>,
    right_keys: VecDeque<(usize, u64)>,
}

/// Drops from `queue` every entry that is older than the window ending at
/// `time`.
fn prune(queue: &mut VecDeque<(usize, u64)>, time: u64, cutoff: u64)
    ensures
        final(queue)@ == recent(old(queue)@, time, cutoff),
{
    let oldest = time.saturating_sub(cutoff);
    let mut kept: VecDeque<(usize, u64)> = VecDeque::new();
    let mut i: usize = 0;
    while i < queue.len()
        invariant
            i <= queue@.len(),
            oldest == if time >= cutoff {
                time - cutoff
            } else {
                0
            },
            kept@ == recent(queue@.take(i as int), time, cutoff),
        decreases queue@.len() - i,
    {
        let entry = queue[i];
        proof {
            assert(queue@.take(i + 1).drop_last() =~= queue@.take(i as int));
        }
        if entry.1 >= oldest {
            kept.push_back(entry);
        }
        i += 1;
    }
    proof {
        assert(queue@.take(i as int) =~= queue@);
    }
    *queue = kept;
}

impl SymbolTable {
    /// The layout that the table was made for.
    pub closed spec fn layout(&self) -> &Layout {
        &self.layout
    }

    /// The loaded assignment: slot `i` holds the chord of symbol `i`.
    pub closed spec fn assignment(&self) -> Seq<InputKey> {
        self.params@
    }

    #[verifier::type_invariant]
    spec fn inv(&self) -> bool {
        &&& self.layout.wf()
        &&& self.symbols@.len() == self.layout.chords()
        &&& forall|at: int|
            0 <= at < self.symbols@.len() ==> #[trigger] self.symbols@[at] == symbol_of(
                &self.layout,
                self.params@,
                self.layout.chord_at(at),
            )
    }

    /// The table of the assignment `params` over `layout`.
    pub fn new(layout: Layout, params: Vec<InputKey>) -> (made: SymbolTable)
        ensures
            *made.layout() == layout,
            made.assignment() == params@,
    {
        let chords = layout.chord_count();
        let symbol_count = layout.out_count();
        let scored = if params.len() < symbol_count {
            params.len()
        } else {
            symbol_count
        };
        let mut symbols: Vec<Option<char>> = Vec::new();
        while symbols.len() < chords
            invariant
                symbols@.len() <= chords,
                forall|at: int| 0 <= at < symbols@.len() ==> (#[trigger] symbols@[at]).is_none(),
            decreases chords - symbols@.len(),
        {
            symbols.push(None);
        }
        let mut slot: usize = 0;
        while slot < scored
            invariant
                layout.wf(),
                slot <= scored,
                scored == scored_slots(&layout, params@),
                symbols@.len() == chords == layout.chords(),
                forall|at: int|
                    0 <= at < symbols@.len() ==> #[trigger] symbols@[at] == symbol_within(
                        &layout,
                        params@,
                        slot as int,
                        layout.chord_at(at),
                    ),
            decreases scored - slot,
        {
            let key = params[slot];
            if key.left < layout.left_keys().len() && key.right < layout.right_keys().len() {
                let at = key.index(&layout);
                proof {
                    layout.lemma_index_of_chord(key);
                }
                if symbols[at].is_none() {
                    let symbol = layout.out_keys()[slot];
                    symbols.set(at, Some(symbol));
                }
            }
            proof {
                assert forall|at: int| 0 <= at < symbols@.len() implies #[trigger] symbols@[at]
                    == symbol_within(&layout, params@, slot + 1, layout.chord_at(at)) by {
                    layout.lemma_chord_at(at);
                    lemma_first_slot(params@, slot as int, layout.chord_at(at));
                }
            }
            slot += 1;
        }
        SymbolTable { layout, params, symbols }
    }

    /// The layout that the table was made for.
    pub fn layout_ref(&self) -> (layout: &Layout)
        ensures
            layout == self.layout(),
            layout.wf(),
    {
        proof {
            use_type_invariant(self);
        }
        &self.layout
    }

    /// The loaded assignment.
    pub fn params(&self) -> (params: &Vec<InputKey>)
        ensures
            params@ == self.assignment(),
    {
        &self.params
    }

    /// The characters of the two keys to strike for `symbol`, left hand
    /// first.
    pub fn keys_for(&self, symbol: char) -> (keys: Option<(char, char)>)
        ensures
            keys == keys_for(self.layout(), self.assignment(), symbol),
    {
        let alphabet = self.layout.out_keys();
        let mut place: usize = 0;
        while place < alphabet.len()
            invariant
                place <= alphabet@.len(),
                alphabet@ == self.layout.alphabet(),
                forall|i: int| 0 <= i < place ==> alphabet@[i] != symbol,
            decreases alphabet@.len() - place,
        {
            if alphabet[place] == symbol {
                proof {
                    lemma_first_place(alphabet@, symbol, alphabet@.len() as int);
                }
                if place >= self.params.len() {
                    return None;
                }
                let key = self.params[place];
                let left = self.layout.left_keys();
                let right = self.layout.right_keys();
                if key.left >= left.len() || key.right >= right.len() {
                    return None;
                }
                return Some((left[key.left].symbol, right[key.right].symbol));
            }
            place += 1;
        }
        proof {
            lemma_first_place(alphabet@, symbol, alphabet@.len() as int);
        }
        None
    }

    /// The symbol that the assignment puts on the chord of left key `left`
    /// and right key `right`.
    pub fn symbol(&self, left: usize, right: usize) -> (found: Option<char>)
        ensures
            found == symbol_of(self.layout(), self.assignment(), InputKey { left, right }),
    {
        proof {
            use_type_invariant(self);
        }
        let key = InputKey { left, right };
        if left < self.layout.left_keys().len() && right < self.layout.right_keys().len() {
            let at = key.index(&self.layout);
            proof {
                self.layout.lemma_index_of_chord(key);
            }
            self.symbols[at]
        } else {
            let scored = if self.params.len() < self.layout.out_count() {
                self.params.len()
            } else {
                self.layout.out_count()
            };
            let mut slot: usize = 0;
            while slot < scored
                invariant
                    slot <= scored,
                    scored == scored_slots(&self.layout, self.params@),
                    key == (InputKey { left, right }),
                    forall|i: int| 0 <= i < slot ==> self.params@[i] != key,
                decreases scored - slot,
            {
                if self.params[slot].compare(left, right) {
                    proof {
                        lemma_first_slot(self.params@, scored as int, key);
                    }
                    return Some(self.layout.out_keys()[slot]);
                }
                slot += 1;
            }
            proof {
                lemma_first_slot(self.params@, scored as int, key);
            }
            None
        }
    }
}

impl Remapper {
    /// The layout that the matcher was made for.
    pub closed spec fn layout(&self) -> &Layout {
        self.table.layout()
    }

    /// The loaded assignment: slot `i` holds the chord of symbol `i`.
    pub closed spec fn assignment(&self) -> Seq<InputKey> {
        self.table.assignment()
    }

    /// The length of the window within which two presses make a chord.
    pub closed spec fn window(&self) -> u64 {
        self.cutoff
    }

    /// The pending presses of the left hand, oldest first: key index and time.
    pub closed spec fn left_queue(&self) -> Seq<(usize, u64)> {
        self.left_keys@
    }

    /// The pending presses of the right hand, oldest first.
    pub closed spec fn right_queue(&self) -> Seq<(usize, u64)> {
        self.right_keys@
    }

    /// The two queues and the output after a press of key `index` of `hand`
    /// at `time` in this state: the press joins the queue of its hand, the
    /// other queue loses what is older than the window, and the pairing step
    /// runs.
    pub open spec fn after_event(&self, hand: Hand, index: usize, time: u64) -> (
        Seq<(usize, u64)>,
        Seq<(usize, u64)>,
        Option<char>,
    ) {
        let (left, right) = queues_after_press(
            self.left_queue(),
            self.right_queue(),
            hand,
            index,
            time,
            self.window(),
        );
        queues_after_pairing(self.layout(), self.assignment(), left, right)
    }

    /// The two queues and the output after a press of the key that reports
    /// `key` at `time` in this state. A character that no key reports joins
    /// no queue, and the pairing step still runs.
    pub open spec fn after_key(&self, key: char, time: u64) -> (
        Seq<(usize, u64)>,
        Seq<(usize, u64)>,
        Option<char>,
    ) {
        match self.layout().locate_spec(key) {
            Some((hand, index)) => self.after_event(hand, index as usize, time),
            None => queues_after_pairing(
                self.layout(),
                self.assignment(),
                self.left_queue(),
                self.right_queue(),
            ),
        }
    }

    /// Whether at least one hand has nothing pending.
    pub open spec fn settled(&self) -> bool {
        self.left_queue().len() == 0 || self.right_queue().len() == 0
    }

    /// Whether the time stamps of neither queue ever go down.
    pub open spec fn ordered(&self) -> bool {
        time_ordered(self.left_queue()) && time_ordered(self.right_queue())
    }

    /// A matcher for `layout` with the assignment `params` and the window
    /// `cutoff`, nothing pending.
    pub fn new(layout: Layout, params: Vec<InputKey>, cutoff: u64) -> (made: Remapper)
        ensures
            *made.layout() == layout,
            made.assignment() == params@,
            made.window() == cutoff,
            made.left_queue().len() == 0,
            made.right_queue().len() == 0,
    {
        Remapper {
            table: SymbolTable::new(layout, params),
            cutoff,
            left_keys: VecDeque::new(),
            right_keys: VecDeque::new(),
        }
    }

    /// Takes a press of key `index` of `hand` at `time`: appends it to the
    /// queue of its hand, drops from the other queue what is older than the
    /// window, and pairs the two oldest presses where both hands have one.
    pub fn push_event(&mut self, hand: Hand, index: usize, time: u64) -> (out: Option<char>)
        ensures
            final(self).layout() == old(self).layout(),
            final(self).assignment() == old(self).assignment(),
            final(self).window() == old(self).window(),
            (final(self).left_queue(), final(self).right_queue(), out) == old(self).after_event(
                hand,
                index,
                time,
            ),
            old(self).settled() ==> final(self).settled(),
            old(self).ordered() && follows(
                match hand {
                    Hand::Left => old(self).left_queue(),
                    Hand::Right => old(self).right_queue(),
                },
                time,
            ) ==> final(self).ordered(),
    {
        proof {
            lemma_recent_keeps_order(old(self).left_queue(), time, old(self).window());
            lemma_recent_keeps_order(old(self).right_queue(), time, old(self).window());
        }
        match hand {
            Hand::Left => {
                self.left_keys.push_back((index, time));
                prune(&mut self.right_keys, time, self.cutoff);
            },
            Hand::Right => {
                self.right_keys.push_back((index, time));
                prune(&mut self.left_keys, time, self.cutoff);
            },
        }
        self.pair()
    }

    /// Takes one key transition. A key going down is taken as `push_event`
    /// takes it; a key going up changes nothing and gives nothing.
    pub fn push(&mut self, event: TimedKeyEvent) -> (out: Option<char>)
        ensures
            final(self).layout() == old(self).layout(),
            final(self).assignment() == old(self).assignment(),
            final(self).window() == old(self).window(),
            (final(self).left_queue(), final(self).right_queue(), out) == if event.is_press {
                old(self).after_event(event.hand, event.key_index, event.timestamp)
            } else {
                (old(self).left_queue(), old(self).right_queue(), None)
            },
            old(self).settled() ==> final(self).settled(),
    {
        if event.is_press {
            self.push_event(event.hand, event.key_index, event.timestamp)
        } else {
            None
        }
    }

    /// Takes a press of the key that reports `key` at `time`, as `push_event`
    /// does; a character that no key reports is not queued, and the pairing
    /// step still runs.
    pub fn push_key(&mut self, key: char, time: u64) -> (out: Option<char>)
        ensures
            final(self).layout() == old(self).layout(),
            final(self).assignment() == old(self).assignment(),
            final(self).window() == old(self).window(),
            (final(self).left_queue(), final(self).right_queue(), out) == old(self).after_key(
                key,
                time,
            ),
            old(self).settled() ==> final(self).settled(),
            old(self).ordered() && follows(old(self).left_queue(), time) && follows(
                old(self).right_queue(),
                time,
            ) ==> final(self).ordered(),
    {
        match self.table.layout_ref().locate(key) {
            Some((hand, index)) => self.push_event(hand, index, time),
            None => self.pair(),
        }
    }

    fn pair(&mut self) -> (out: Option<char>)
        ensures
            final(self).layout() == old(self).layout(),
            final(self).assignment() == old(self).assignment(),
            final(self).window() == old(self).window(),
            (final(self).left_queue(), final(self).right_queue(), out) == queues_after_pairing(
                old(self).layout(),
                old(self).assignment(),
                old(self).left_queue(),
                old(self).right_queue(),
            ),
    {
        if self.left_keys.len() == 0 || self.right_keys.len() == 0 {
            return None;
        }
        let left = self.left_keys.pop_front();
        let right = self.right_keys.pop_front();
        match (left, right) {
            (Some(left), Some(right)) => self.table.symbol(left.0, right.0),
            _ => None,
        }
    }

    /// The number of presses of `hand` that are pending.
    pub fn pending(&self, hand: Hand) -> (n: usize)
        ensures
            n == match hand {
                Hand::Left => self.left_queue().len(),
                Hand::Right => self.right_queue().len(),
            },
    {
        match hand {
            Hand::Left => self.left_keys.len(),
            Hand::Right => self.right_keys.len(),
        }
    }

    /// The loaded assignment.
    pub fn params(&self) -> (params: &Vec<InputKey>)
        ensures
            params@ == self.assignment(),
    {
        self.table.params()
    }

    /// The layout that the matcher was made for.
    pub fn layout_ref(&self) -> (layout: &Layout)
        ensures
            layout == self.layout(),
            layout.wf(),
    {
        self.table.layout_ref()
    }

    /// The characters of the two keys to strike for `symbol` under the
    /// loaded assignment, left hand first.
    pub fn keys_for(&self, symbol: char) -> (keys: Option<(char, char)>)
        ensures
            keys == keys_for(self.layout(), self.assignment(), symbol),
    {
        self.table.keys_for(symbol)
    }
}

} // verus!

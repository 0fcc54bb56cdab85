//! The persisted assignment table: one two-byte record for each symbol of
//! the alphabet, in the order of the alphabet.

use crate::key_converter::{InputKey, Layout};
use crate::remapper::{lemma_first_slot_agrees, scored_slots, symbol_of};
use vstd::prelude::*;

verus! {

/// Why a search has no table to persist.
#[derive(Clone, Copy, Debug, PartialEq, Eq, Structural)]
pub enum SearchError {
    /// The search never evaluated a candidate, so there is no best
    /// assignment.
    NoSolution,
}

/// The records of the first `count` slots of `params`, one after the other.
pub open spec fn records(params: Seq<InputKey>, count: int) -> Seq<u8>
    decreases count,
{
    if count <= 0 {
        Seq::empty()
    } else {
        records(params, count - 1) + params[count - 1].bytes_spec()
    }
}

/// The chord that `bytes` gives to slot `slot`: that of the record at the
/// slot's place where the bytes reach that far, else the chord of the first
/// key of each hand.
pub open spec fn loaded_slot(bytes: Seq<u8>, slot: int) -> InputKey {
    if 2 * slot + 2 <= bytes.len() {
        InputKey::from_bytes_spec(bytes.subrange(2 * slot, 2 * slot + 2))
    } else {
        InputKey { left: 0, right: 0 }
    }
}

/// The assignment of `slots` slots that `bytes` stands for.
pub open spec fn loaded(bytes: Seq<u8>, slots: nat) -> Seq<InputKey> {
    Seq::new(slots, |slot: int| loaded_slot(bytes, slot))
}

/// The records of `count` slots take two bytes each, and the record of each
/// slot stands at twice the slot's index.
pub proof fn lemma_records(params: Seq<InputKey>, count: int)
    requires
        0 <= count,
    ensures
        records(params, count).len() == 2 * count,
        forall|slot: int|
            0 <= slot < count ==> #[trigger] records(params, count).subrange(
                2 * slot,
                2 * slot + 2,
            ) == params[slot].bytes_spec(),
    decreases count,
{
    if count > 0 {
        lemma_records(params, count - 1);
        let before = records(params, count - 1);
        let all = records(params, count);
        assert forall|slot: int| 0 <= slot < count implies #[trigger] all.subrange(
            2 * slot,
            2 * slot + 2,
        ) == params[slot].bytes_spec() by {
            if slot < count - 1 {
                assert(all.subrange(2 * slot, 2 * slot + 2) =~= before.subrange(
                    2 * slot,
                    2 * slot + 2,
                ));
            } else {
                assert(all.subrange(2 * slot, 2 * slot + 2) =~= params[slot].bytes_spec());
            }
        }
    }
}

/// A table that was written from an assignment reads back with the same
/// chord in every scored slot, where those chords are chords of the layout;
/// every slot behind them reads as the chord of the first key of each hand.
pub proof fn lemma_table_round_trip(layout: &Layout, params: Seq<InputKey>)
    requires
        layout.wf(),
        layout.scores(params),
    ensures
        forall|slot: int|
            0 <= slot < layout.symbols() ==> #[trigger] loaded_slot(
                records(params, layout.symbols() as int),
                slot,
            ) == params[slot],
        forall|slot: int|
            layout.symbols() <= slot ==> #[trigger] loaded_slot(
                records(params, layout.symbols() as int),
                slot,
            ) == (InputKey { left: 0, right: 0 }),
{
    let count = layout.symbols() as int;
    let bytes = records(params, count);
    lemma_records(params, count);
    assert forall|slot: int| 0 <= slot < count implies #[trigger] loaded_slot(bytes, slot)
        == params[slot] by {
        assert(bytes.subrange(2 * slot, 2 * slot + 2) == params[slot].bytes_spec());
        assert(layout.has_chord(params[slot]));
        crate::key_converter::lemma_record_round_trip(layout, params[slot]);
    }
}

/// The symbol of every chord is the same under an assignment that scores
/// and under the table that was written from it and read back: the matcher
/// works with the very table that the search left.
pub proof fn lemma_loaded_table_gives_same_symbols(
    layout: &Layout,
    params: Seq<InputKey>,
    key: InputKey,
)
    requires
        layout.wf(),
        layout.scores(params),
    ensures
        symbol_of(
            layout,
            loaded(records(params, layout.symbols() as int), layout.chords()),
            key,
        ) == symbol_of(layout, params, key),
{
    layout.lemma_sizes();
    lemma_table_round_trip(layout, params);
    let read = loaded(records(params, layout.symbols() as int), layout.chords());
    assert(scored_slots(layout, read) == scored_slots(layout, params));
    lemma_first_slot_agrees(read, params, layout.symbols() as int, key);
}

/// The table of the assignment `params`: the records of its scored slots.
pub fn encode_table(layout: &Layout, params: &Vec<InputKey>) -> (bytes: Vec<u8>)
    ensures
        bytes@ == records(params@, scored_slots(layout, params@)),
        bytes@.len() == 2 * scored_slots(layout, params@),
{
    let count = if params.len() < layout.out_count() {
        params.len()
    } else {
        layout.out_count()
    };
    let mut bytes: Vec<u8> = Vec::new();
    let mut slot: usize = 0;
    while slot < count
        invariant
            slot <= count,
            count <= params@.len(),
            bytes@ == records(params@, slot as int),
        decreases count - slot,
    {
        let record = params[slot].as_bytes();
        bytes.push(record[0]);
        bytes.push(record[1]);
        proof {
            assert(bytes@ =~= records(params@, slot as int) + params@[slot as int].bytes_spec());
        }
        slot += 1;
    }
    proof {
        lemma_records(params@, count as int);
    }
    bytes
}

/// What a finished search persists: the table of the best assignment that
/// it saw among the `evaluated` candidates, or its failure where it
/// evaluated no candidate or kept no best assignment.
pub fn persist(layout: &Layout, evaluated: u64, best: Option<&Vec<InputKey>>) -> (out: Result<
    Vec<u8>,
    SearchError,
>)
    ensures
        match best {
            Some(params) if evaluated > 0 => out matches Ok(bytes) && bytes@ == records(
                params@,
                scored_slots(layout, params@),
            ),
            _ => out == Err::<Vec<u8>, SearchError>(SearchError::NoSolution),
        },
{
    if evaluated == 0 {
        return Err(SearchError::NoSolution);
    }
    match best {
        Some(params) => Ok(encode_table(layout, params)),
        None => Err(SearchError::NoSolution),
    }
}

/// The assignment that the table `bytes` stands for: as many records as are
/// whole are read, a slot for each chord of the layout at most; every slot
/// that no record covers holds the chord of the first key of each hand.
pub fn load_table(layout: &Layout, bytes: &[u8]) -> (params: Vec<InputKey>)
    ensures
        params@ == loaded(bytes@, layout.chords()),
        params@.len() == layout.chords(),
{
    let slots = layout.chord_count();
    proof {
        layout.lemma_sizes();
    }
    let mut params: Vec<InputKey> = Vec::new();
    let mut slot: usize = 0;
    while slot < slots
        invariant
            slot <= slots,
            slots <= 65536,
            params@.len() == slot,
            forall|at: int| 0 <= at < slot ==> #[trigger] params@[at] == loaded_slot(bytes@, at),
        decreases slots - slot,
    {
        if 2 * slot + 2 <= bytes.len() {
            let record = [bytes[2 * slot], bytes[2 * slot + 1]];
            proof {
                assert(record@ =~= bytes@.subrange(2 * slot, 2 * slot + 2));
            }
            params.push(InputKey::from_bytes(record));
        } else {
            params.push(InputKey::new(0, 0));
        }
        slot += 1;
    }
    proof {
        assert(params@ =~= loaded(bytes@, layout.chords()));
    }
    params
}

} // verus!

//! The layout search: what an assignment costs, and the random move from one
//! assignment to a neighbour.

use crate::exchange::{
    exchange, lemma_transposed_permutes, picks_within, random_between, transposed,
};
use crate::key_converter::{InputKey, Layout};
use vstd::prelude::*;

verus! {

/// The cost of reaching each of the first `upto` symbols from symbol `prev`:
/// the pair cost of the two chords times the weight of the transition.
pub open spec fn row_cost(layout: &Layout, params: Seq<InputKey>, prev: int, upto: int) -> int
    decreases upto,
{
    if upto <= 0 {
        0
    } else {
        row_cost(layout, params, prev, upto - 1) + params[upto - 1].pair_cost(params[prev], layout)
            * layout.weight(prev, upto - 1)
    }
}

/// The cost of all transitions that start at one of the first `rows` symbols.
pub open spec fn rows_cost(layout: &Layout, params: Seq<InputKey>, rows: int) -> int
    decreases rows,
{
    if rows <= 0 {
        0
    } else {
        rows_cost(layout, params, rows - 1) + row_cost(
            layout,
            params,
            rows - 1,
            layout.symbols() as int,
        )
    }
}

/// The cost of an assignment: over every ordered pair of symbols, a symbol
/// with itself included, the pair cost of their chords times the weight of
/// the transition. Only the scored slots count.
pub open spec fn assignment_cost(layout: &Layout, params: Seq<InputKey>) -> int {
    rows_cost(layout, params, layout.symbols() as int)
}

/// The largest value of one term of the cost.
pub open spec fn term_max() -> int {
    0x4_0000_0000int * 0x1_0000_0000int
}

/// One term of the cost lies between zero and `term_max`.
proof fn lemma_term_bound(layout: &Layout, params: Seq<InputKey>, prev: int, curr: int)
    requires
        layout.wf(),
        layout.scores(params),
        0 <= prev < layout.symbols(),
        0 <= curr < layout.symbols(),
    ensures
        0 <= params[curr].pair_cost(params[prev], layout) * layout.weight(prev, curr) <= term_max(),
        0 <= prev * layout.symbols() + curr < layout.weights().len(),
{
    layout.lemma_sizes();
    crate::key_converter::lemma_pair_cost_bounds(layout, params[curr], params[prev]);
    let count = layout.symbols() as int;
    assert(0 <= prev * count + curr < count * count) by (nonlinear_arith)
        requires
            0 <= prev < count,
            0 <= curr < count,
    ;
    let cost = params[curr].pair_cost(params[prev], layout);
    let weight = layout.weight(prev, curr);
    assert(0 <= cost * weight <= 0x4_0000_0000 * 0x1_0000_0000) by (nonlinear_arith)
        requires
            0 <= cost <= 0x4_0000_0000,
            0 <= weight <= 0x1_0000_0000,
    ;
}

/// The cost of part of a row is at most `term_max` for each of its terms.
proof fn lemma_row_bound(layout: &Layout, params: Seq<InputKey>, prev: int, upto: int)
    requires
        layout.wf(),
        layout.scores(params),
        0 <= prev < layout.symbols(),
        0 <= upto <= layout.symbols(),
    ensures
        0 <= row_cost(layout, params, prev, upto) <= upto * term_max(),
    decreases upto,
{
    if upto > 0 {
        lemma_row_bound(layout, params, prev, upto - 1);
        lemma_term_bound(layout, params, prev, upto - 1);
        assert((upto - 1) * term_max() + term_max() == upto * term_max()) by (nonlinear_arith);
    }
}

/// The cost of the first rows is at most `term_max` for each of their terms.
proof fn lemma_rows_bound(layout: &Layout, params: Seq<InputKey>, rows: int)
    requires
        layout.wf(),
        layout.scores(params),
        0 <= rows <= layout.symbols(),
    ensures
        0 <= rows_cost(layout, params, rows) <= rows * (65536 * term_max()),
    decreases rows,
{
    if rows > 0 {
        lemma_rows_bound(layout, params, rows - 1);
        lemma_row_bound(layout, params, rows - 1, layout.symbols() as int);
        layout.lemma_sizes();
        let count = layout.symbols() as int;
        assert(count * term_max() <= 65536 * term_max()) by (nonlinear_arith)
            requires
                count <= 65536,
                term_max() >= 0,
        ;
        let step = 65536 * term_max();
        assert((rows - 1) * step + step == rows * step) by (nonlinear_arith);
    }
}

/// The cost of an assignment is not negative and fits in 128 bits.
pub proof fn lemma_cost_bounds(layout: &Layout, params: Seq<InputKey>)
    requires
        layout.wf(),
        layout.scores(params),
    ensures
        0 <= assignment_cost(layout, params) <= u128::MAX,
{
    layout.lemma_sizes();
    lemma_rows_bound(layout, params, layout.symbols() as int);
    let count = layout.symbols() as int;
    assert(count * (65536 * term_max()) <= 65536 * (65536 * term_max())) by (nonlinear_arith)
        requires
            count <= 65536,
            term_max() >= 0,
    ;
}

/// The cost of part of a row depends on the scored slots alone.
proof fn lemma_row_agrees(
    layout: &Layout,
    a: Seq<InputKey>,
    b: Seq<InputKey>,
    prev: int,
    upto: int,
)
    requires
        0 <= prev < layout.symbols(),
        0 <= upto <= layout.symbols(),
        forall|i: int| 0 <= i < layout.symbols() ==> a[i] == b[i],
    ensures
        row_cost(layout, a, prev, upto) == row_cost(layout, b, prev, upto),
    decreases upto,
{
    if upto > 0 {
        lemma_row_agrees(layout, a, b, prev, upto - 1);
    }
}

/// The cost of the first rows depends on the scored slots alone.
proof fn lemma_rows_agree(layout: &Layout, a: Seq<InputKey>, b: Seq<InputKey>, rows: int)
    requires
        0 <= rows <= layout.symbols(),
        forall|i: int| 0 <= i < layout.symbols() ==> a[i] == b[i],
    ensures
        rows_cost(layout, a, rows) == rows_cost(layout, b, rows),
    decreases rows,
{
    if rows > 0 {
        lemma_rows_agree(layout, a, b, rows - 1);
        lemma_row_agrees(layout, a, b, rows - 1, layout.symbols() as int);
    }
}

/// Two assignments that hold the same chords in the scored slots cost the
/// same, whatever stands in the slots behind them.
pub proof fn lemma_padding_invariance(layout: &Layout, a: Seq<InputKey>, b: Seq<InputKey>)
    requires
        forall|i: int| 0 <= i < layout.symbols() ==> a[i] == b[i],
    ensures
        assignment_cost(layout, a) == assignment_cost(layout, b),
{
    lemma_rows_agree(layout, a, b, layout.symbols() as int);
}

/// Exchanges among the slots behind the scored ones leave the scored slots
/// as they were, and so the cost.
pub proof fn lemma_padding_moves(layout: &Layout, params: Seq<InputKey>, picks: Seq<(usize, usize)>)
    requires
        picks_within(picks, params.len()),
        forall|k: int|
            0 <= k < picks.len() ==> layout.symbols() <= (#[trigger] picks[k]).0
                && layout.symbols() <= picks[k].1,
    ensures
        transposed(params, picks).len() == params.len(),
        forall|i: int| 0 <= i < layout.symbols() ==> transposed(params, picks)[i] == params[i],
        assignment_cost(layout, transposed(params, picks)) == assignment_cost(layout, params),
    decreases picks.len(),
{
    if picks.len() > 0 {
        let before = picks.drop_last();
        assert forall|k: int| 0 <= k < before.len() implies (#[trigger] before[k]).0 < params.len()
            && before[k].1 < params.len() && layout.symbols() <= before[k].0 && layout.symbols()
            <= before[k].1 by {
            assert(before[k] == picks[k]);
        }
        lemma_padding_moves(layout, params, before);
        let last = picks[picks.len() - 1];
        assert(last.0 < params.len() && layout.symbols() <= last.0);
    }
    lemma_padding_invariance(layout, transposed(params, picks), params);
}

/// Exchanges turn an assignment over a layout into an assignment over it:
/// every neighbour of an assignment can be scored.
pub proof fn lemma_transposed_assigns(
    layout: &Layout,
    params: Seq<InputKey>,
    picks: Seq<(usize, usize)>,
)
    requires
        layout.wf(),
        layout.assigns(params),
        picks_within(picks, params.len()),
    ensures
        layout.assigns(transposed(params, picks)),
        layout.scores(transposed(params, picks)),
    decreases picks.len(),
{
    if picks.len() > 0 {
        let before = picks.drop_last();
        assert forall|k: int| 0 <= k < before.len() implies (#[trigger] before[k]).0 < params.len()
            && before[k].1 < params.len() by {
            assert(before[k] == picks[k]);
        }
        lemma_transposed_assigns(layout, params, before);
        let last = picks[picks.len() - 1];
        assert(last.0 < params.len() && last.1 < params.len());
    }
}

fn copy_of(param: &Vec<InputKey>) -> (out: Vec<InputKey>)
    ensures
        out@ == param@,
{
    let mut out: Vec<InputKey> = Vec::new();
    let mut i: usize = 0;
    while i < param.len()
        invariant
            i <= param@.len(),
            out@ == param@.take(i as int),
        decreases param@.len() - i,
    {
        out.push(param[i]);
        proof {
            assert(param@.take(i + 1) =~= param@.take(i as int).push(param@[i as int]));
        }
        i += 1;
    }
    proof {
        assert(param@.take(i as int) =~= param@);
    }
    out
}

/// The search problem over one layout.
pub struct Problem {
    pub layout: Layout,
}

impl Problem {
    /// The search problem over `layout`.
    pub fn new(layout: Layout) -> (problem: Problem)
        ensures
            problem.layout == layout,
    {
        Problem { layout }
    }

    /// The cost of the assignment `param`; lower is better.
    pub fn cost(&self, param: &Vec<InputKey>) -> (cost: u128)
        requires
            self.layout.scores(param@),
        ensures
            cost == assignment_cost(&self.layout, param@),
    {
        let layout = &self.layout;
        let count = layout.out_count();
        let weights = layout.pair_probs();
        let mut cost: u128 = 0;
        let mut prev_index: usize = 0;
        while prev_index < count
            invariant
                layout.wf(),
                layout.scores(param@),
                count == layout.symbols(),
                weights@ == layout.weights(),
                prev_index <= count,
                cost == rows_cost(layout, param@, prev_index as int),
            decreases count - prev_index,
        {
            let prev = &param[prev_index];
            let mut row: u128 = 0;
            let mut curr_index: usize = 0;
            while curr_index < count
                invariant
                    layout.wf(),
                    layout.scores(param@),
                    count == layout.symbols(),
                    weights@ == layout.weights(),
                    prev_index < count,
                    curr_index <= count,
                    *prev == param@[prev_index as int],
                    row == row_cost(layout, param@, prev_index as int, curr_index as int),
                decreases count - curr_index,
            {
                proof {
                    layout.lemma_sizes();
                    lemma_term_bound(layout, param@, prev_index as int, curr_index as int);
                    lemma_row_bound(layout, param@, prev_index as int, curr_index as int);
                    lemma_row_bound(layout, param@, prev_index as int, curr_index + 1);
                    assert((curr_index + 1) * term_max() <= 65536 * term_max()) by (nonlinear_arith)
                        requires
                            curr_index + 1 <= 65536,
                            term_max() >= 0,
                    ;
                }
                let pair = param[curr_index].get_cost(prev, layout);
                let weight = weights[layout.index_pair(prev_index, curr_index)];
                row = row + (pair as u128) * (weight as u128);
                curr_index += 1;
            }
            proof {
                layout.lemma_sizes();
                lemma_rows_bound(layout, param@, prev_index as int);
                lemma_rows_bound(layout, param@, prev_index + 1);
                assert((prev_index + 1) * (65536 * term_max()) <= 65536 * (65536 * term_max()))
                    by (nonlinear_arith)
                    requires
                        prev_index + 1 <= 65536,
                        term_max() >= 0,
                ;
            }
            cost = cost + row;
            prev_index += 1;
        }
        cost
    }

    /// The assignment `param` after the exchanges of `picks`, each of two
    /// slots, one after the other.
    pub fn transpose(param: &Vec<InputKey>, picks: &Vec<(usize, usize)>) -> (out: Vec<InputKey>)
        requires
            picks_within(picks@, param@.len()),
        ensures
            out@ == transposed(param@, picks@),
            out@.len() == param@.len(),
            out@.to_multiset() == param@.to_multiset(),
    {
        let mut out = copy_of(param);
        let mut k: usize = 0;
        while k < picks.len()
            invariant
                k <= picks@.len(),
                picks_within(picks@, param@.len()),
                out@.len() == param@.len(),
                out@ == transposed(param@, picks@.take(k as int)),
            decreases picks@.len() - k,
        {
            let pick = picks[k];
            proof {
                assert(picks@.take(k + 1).drop_last() =~= picks@.take(k as int));
            }
            exchange(&mut out, pick.0, pick.1);
            k += 1;
        }
        proof {
            assert(picks@.take(k as int) =~= picks@);
            lemma_transposed_permutes(param@, picks@);
        }
        out
    }

    /// A random neighbour of the assignment `param`: `extent + 1` exchanges,
    /// each of two slots drawn from the whole assignment, the slots behind the
    /// scored ones included. `extent` is the magnitude of the move, rounded up
    /// to a whole number.
    pub fn anneal(&self, param: &Vec<InputKey>, extent: u64) -> (out: Vec<InputKey>)
        requires
            param@.len() > 0,
        ensures
            out@.len() == param@.len(),
            out@.to_multiset() == param@.to_multiset(),
            exists|picks: Seq<(usize, usize)>|
                picks.len() == extent + 1 && picks_within(picks, param@.len()) && out@
                    == transposed(param@, picks),
            self.layout.assigns(param@) ==> self.layout.assigns(out@) && self.layout.scores(out@),
    {
        let len = param.len();
        let mut out = copy_of(param);
        let ghost mut picks: Seq<(usize, usize)> = Seq::empty();
        let mut done: u64 = 0;
        loop
            invariant_except_break
                picks.len() == done,
            invariant
                len == param@.len(),
                len > 0,
                done <= extent,
                picks_within(picks, param@.len()),
                out@.len() == param@.len(),
                out@ == transposed(param@, picks),
            ensures
                picks.len() == extent + 1,
                picks_within(picks, param@.len()),
                out@ == transposed(param@, picks),
            decreases extent - done,
        {
            let first = random_between(0, len);
            let second = random_between(0, len);
            proof {
                let ghost grown = picks.push((first, second));
                assert(grown.drop_last() =~= picks);
                picks = grown;
            }
            exchange(&mut out, first, second);
            if done == extent {
                break;
            }
            done += 1;
        }
        proof {
            lemma_transposed_permutes(param@, picks);
            use_type_invariant(&self.layout);
            if self.layout.assigns(param@) {
                lemma_transposed_assigns(&self.layout, param@, picks);
            }
        }
        out
    }
}

} // verus!

use argmin::solver::simulatedannealing::{Anneal, SimulatedAnnealing};
use kybr::exchange::{exchange, shuffle};
use kybr::key_converter::{InputKey, Key, Layout};
use kybr::problem::Problem;
use rand::rngs::StdRng;
use rand::{Rng, SeedableRng};
use std::cell::RefCell;

fn key(symbol: char, cost: u32, group: u8) -> Key {
    Key { symbol, cost, group }
}

/// Two keys a hand, two symbols. The two right keys share a finger, the two
/// left keys do not, and the transitions between the two symbols weigh most.
fn small_layout() -> Layout {
    let left = vec![key('q', 4, 0), key('w', 1, 1)];
    let right = vec![key('o', 4, 0), key('p', 1, 0)];
    Layout::new(left, right, vec!['a', 'b'], vec![1, 50, 50, 1]).expect("a valid layout")
}

fn sorted(params: &[InputKey]) -> Vec<(usize, usize)> {
    let mut chords: Vec<(usize, usize)> = params.iter().map(|k| (k.left, k.right)).collect();
    chords.sort();
    chords
}

#[test]
fn transpose_makes_its_exchanges_in_order() {
    let params = small_layout().in_keys();
    let out = Problem::transpose(&params, &vec![(0, 1), (1, 2), (3, 3)]);
    assert_eq!(
        out,
        vec![InputKey::new(0, 1), InputKey::new(1, 0), InputKey::new(0, 0), InputKey::new(1, 1)]
    );
    assert_eq!(Problem::transpose(&params, &Vec::new()), params);
    assert_eq!(Problem::transpose(&params, &vec![(2, 0), (0, 2)]), params);
}

#[test]
fn exchange_swaps_two_slots() {
    let mut items = vec![10, 20, 30];
    exchange(&mut items, 0, 2);
    assert_eq!(items, vec![30, 20, 10]);
    exchange(&mut items, 1, 1);
    assert_eq!(items, vec![30, 20, 10]);
}

#[test]
fn neighbour_holds_the_same_chords() {
    let problem = Problem::new(small_layout());
    let params = problem.layout.in_keys();
    for extent in [0, 1, 2, 7, 100] {
        let out = problem.anneal(&params, extent);
        assert_eq!(out.len(), params.len());
        assert_eq!(sorted(&out), sorted(&params));
    }
}

#[test]
fn neighbour_of_a_single_slot_is_that_slot() {
    let left = vec![key('q', 1, 0)];
    let right = vec![key('o', 1, 0)];
    let problem =
        Problem::new(Layout::new(left, right, vec!['a'], vec![1]).expect("a valid layout"));
    let params = problem.layout.in_keys();
    assert_eq!(problem.anneal(&params, 5), params);
}

#[test]
fn neighbours_are_drawn_and_not_always_the_start() {
    let left: Vec<Key> = (0..13).map(|_| key('l', 1, 0)).collect();
    let right: Vec<Key> = (0..14).map(|_| key('r', 1, 0)).collect();
    let problem = Problem::new(Layout::new(left, right, vec![], vec![]).expect("a valid layout"));
    let params = problem.layout.in_keys();
    let mut changed = 0;
    let mut padding_moved = 0;
    for _ in 0..200 {
        let out = problem.anneal(&params, 0);
        assert_eq!(sorted(&out), sorted(&params));
        let moved: Vec<usize> = (0..params.len()).filter(|&at| out[at] != params[at]).collect();
        // One exchange moves two slots or none.
        assert!(moved.is_empty() || moved.len() == 2);
        if !moved.is_empty() {
            changed += 1;
        }
        if moved.iter().any(|&at| at >= 98) {
            padding_moved += 1;
        }
    }
    assert!(changed > 100);
    assert!(padding_moved > 10);
}

#[test]
fn one_more_exchange_than_the_extent() {
    let left: Vec<Key> = (0..13).map(|_| key('l', 1, 0)).collect();
    let right: Vec<Key> = (0..14).map(|_| key('r', 1, 0)).collect();
    let problem = Problem::new(Layout::new(left, right, vec![], vec![]).expect("a valid layout"));
    let params = problem.layout.in_keys();
    for extent in 0..6u64 {
        for _ in 0..50 {
            let out = problem.anneal(&params, extent);
            let moved = (0..params.len()).filter(|&at| out[at] != params[at]).count();
            assert!(moved as u64 <= 2 * (extent + 1));
        }
    }
    let most = (0..50)
        .map(|_| {
            let out = problem.anneal(&params, 5);
            (0..params.len()).filter(|&at| out[at] != params[at]).count()
        })
        .max()
        .unwrap_or(0);
    assert!(most > 2);
}

#[test]
fn shuffle_keeps_the_items_and_changes_their_order() {
    let items: Vec<u32> = (0..20).collect();
    let mut different = 0;
    for _ in 0..50 {
        let mut mixed = items.clone();
        shuffle(&mut mixed);
        let mut back = mixed.clone();
        back.sort();
        assert_eq!(back, items);
        if mixed != items {
            different += 1;
        }
    }
    assert!(different > 40);
    let mut one = vec!['x'];
    shuffle(&mut one);
    assert_eq!(one, vec!['x']);
}

/// The search over one layout, its moves drawn from a seeded generator.
struct Seeded {
    problem: Problem,
    rng: RefCell<StdRng>,
}

impl argmin::core::CostFunction for Seeded {
    type Param = Vec<InputKey>;
    type Output = f64;

    fn cost(&self, param: &Self::Param) -> Result<Self::Output, argmin::core::Error> {
        Ok(self.problem.cost(param) as f64)
    }
}

impl Anneal for Seeded {
    type Param = Vec<InputKey>;
    type Output = Vec<InputKey>;
    type Float = f64;

    fn anneal(
        &self,
        param: &Self::Param,
        extent: Self::Float,
    ) -> Result<Self::Output, argmin::core::Error> {
        let mut rng = self.rng.borrow_mut();
        let count = extent.ceil() as u64 + 1;
        let picks: Vec<(usize, usize)> = (0..count)
            .map(|_| (rng.gen_range(0..param.len()), rng.gen_range(0..param.len())))
            .collect();
        Ok(Problem::transpose(param, &picks))
    }
}

fn best_after(iterations: u64) -> (Vec<InputKey>, f64) {
    let search = Seeded {
        problem: Problem::new(small_layout()),
        rng: RefCell::new(StdRng::seed_from_u64(7)),
    };
    let start = search.problem.layout.in_keys();
    let solver = SimulatedAnnealing::new_with_rng(4.0, StdRng::seed_from_u64(11))
        .expect("a positive temperature");
    let result = argmin::core::Executor::new(search, solver)
        .configure(|state| state.param(start).max_iters(iterations))
        .run()
        .expect("the search runs");
    let state = result.state();
    let best = argmin::core::State::get_best_param(state).expect("a best assignment").clone();
    (best, argmin::core::State::get_best_cost(state))
}

#[test]
fn best_cost_never_rises_and_ends_below_the_identity() {
    let problem = Problem::new(small_layout());
    let start = problem.layout.in_keys();
    // 8 * 1 + 10 * 50 + 16 * 50 + 5 * 1
    assert_eq!(problem.cost(&start), 1313);
    let mut last = 1313.0;
    for iterations in [1, 5, 20, 100, 500, 2000] {
        let (best, cost) = best_after(iterations);
        assert_eq!(problem.cost(&best) as f64, cost);
        assert_eq!(sorted(&best), sorted(&start));
        assert!(cost <= last);
        last = cost;
    }
    assert!(last < 1313.0);
    // The best there is: the two cheapest chords that share no finger.
    assert_eq!(last, 357.0);
}

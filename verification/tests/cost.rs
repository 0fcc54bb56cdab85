use kybr::key_converter::{Hand, InputKey, Key, Layout};
use kybr::problem::Problem;

fn key(symbol: char, cost: u32, group: u8) -> Key {
    Key { symbol, cost, group }
}

fn left_keys() -> Vec<Key> {
    vec![key('q', 3, 0), key('w', 2, 1), key('e', 1, 1)]
}

fn right_keys() -> Vec<Key> {
    vec![key('i', 1, 0), key('o', 2, 0), key('p', 3, 1)]
}

/// Three keys a hand, two symbols, the given transition weights.
fn layout_with(weights: Vec<u32>) -> Layout {
    Layout::new(left_keys(), right_keys(), vec!['a', 'b'], weights).expect("a valid layout")
}

fn layout() -> Layout {
    layout_with(vec![1, 10, 2, 3])
}

#[test]
fn pair_cost_is_intrinsic_without_a_shared_finger() {
    let layout = layout();
    let current = InputKey::new(0, 0);
    let previous = InputKey::new(1, 2);
    assert_eq!(current.get_cost(&previous, &layout), 4);
}

#[test]
fn pair_cost_doubles_for_two_left_keys_of_one_finger() {
    let layout = layout();
    let current = InputKey::new(1, 0);
    let previous = InputKey::new(2, 0);
    assert_eq!(current.get_cost(&previous, &layout), 6);
    assert_eq!(previous.get_cost(&current, &layout), 4);
}

#[test]
fn pair_cost_doubles_for_two_right_keys_of_one_finger() {
    let layout = layout();
    let current = InputKey::new(0, 0);
    let previous = InputKey::new(0, 1);
    assert_eq!(current.get_cost(&previous, &layout), 8);
    assert_eq!(previous.get_cost(&current, &layout), 10);
}

#[test]
fn pair_cost_doubles_once_where_both_hands_collide() {
    let layout = layout();
    let current = InputKey::new(1, 0);
    let previous = InputKey::new(2, 1);
    assert_eq!(current.get_cost(&previous, &layout), 6);
}

#[test]
fn pair_cost_of_a_chord_after_itself_is_intrinsic() {
    let layout = layout();
    for left in 0..3 {
        for right in 0..3 {
            let chord = InputKey::new(left, right);
            let expected = u64::from(left_keys()[left].cost + right_keys()[right].cost);
            assert_eq!(chord.get_cost(&chord, &layout), expected);
        }
    }
}

#[test]
fn pair_cost_of_the_largest_base_costs_does_not_wrap() {
    let left = vec![key('q', u32::MAX, 0), key('w', 1, 0)];
    let right = vec![key('i', u32::MAX, 0)];
    let layout = Layout::new(left, right, vec!['a'], vec![u32::MAX]).expect("a valid layout");
    let current = InputKey::new(0, 0);
    let previous = InputKey::new(1, 0);
    assert_eq!(current.get_cost(&previous, &layout), 4 * u64::from(u32::MAX));
    let problem = Problem::new(layout);
    let params = vec![InputKey::new(0, 0), InputKey::new(1, 0)];
    let expected = 2 * u128::from(u32::MAX) * u128::from(u32::MAX);
    assert_eq!(problem.cost(&params), expected);
}

#[test]
fn assignment_cost_sums_every_ordered_pair_with_its_weight() {
    let problem = Problem::new(layout());
    let params = problem.layout.in_keys();
    // 4 * 1 + 10 * 10 + 8 * 2 + 5 * 3
    assert_eq!(problem.cost(&params), 135);
}

#[test]
fn assignment_cost_counts_self_transitions() {
    let problem = Problem::new(layout_with(vec![7, 0, 0, 0]));
    let params = problem.layout.in_keys();
    assert_eq!(problem.cost(&params), 28);
    let problem = Problem::new(layout_with(vec![0, 0, 0, 5]));
    assert_eq!(problem.cost(&params), 25);
}

#[test]
fn assignment_cost_reads_the_weight_of_previous_then_current() {
    let params = vec![InputKey::new(0, 0), InputKey::new(0, 1)];
    let forward = Problem::new(layout_with(vec![0, 1, 0, 0]));
    assert_eq!(forward.cost(&params), 10);
    let backward = Problem::new(layout_with(vec![0, 0, 1, 0]));
    assert_eq!(backward.cost(&params), 8);
}

#[test]
fn assignment_cost_of_an_empty_alphabet_is_zero() {
    let layout = Layout::new(left_keys(), right_keys(), vec![], vec![]).expect("a valid layout");
    let problem = Problem::new(layout);
    let params = problem.layout.in_keys();
    assert_eq!(problem.cost(&params), 0);
    assert_eq!(problem.cost(&Vec::new()), 0);
}

#[test]
fn padding_slots_never_change_the_cost() {
    let problem = Problem::new(layout());
    let params = problem.layout.in_keys();
    let cost = problem.cost(&params);
    let mut moved = params.clone();
    moved.swap(2, 8);
    moved.swap(3, 5);
    moved.swap(7, 4);
    assert_eq!(problem.cost(&moved), cost);
    let picks = vec![(2, 8), (8, 3), (5, 5), (6, 2)];
    assert_eq!(problem.cost(&Problem::transpose(&params, &picks)), cost);
    let mut cut = params.clone();
    cut.truncate(2);
    assert_eq!(problem.cost(&cut), cost);
}

#[test]
fn scored_slots_do_change_the_cost() {
    let problem = Problem::new(layout());
    let mut params = problem.layout.in_keys();
    params.swap(1, 8);
    // Slots (0, 0) and (2, 2): 4 * 1 + 4 * 10 + 4 * 2 + 4 * 3
    assert_eq!(problem.cost(&params), 64);
}

#[test]
fn can_score_asks_for_a_chord_of_the_layout_in_every_scored_slot() {
    let layout = layout();
    assert!(layout.can_score(&layout.in_keys()));
    assert!(layout.can_score(&vec![InputKey::new(2, 2), InputKey::new(0, 0)]));
    assert!(!layout.can_score(&vec![InputKey::new(2, 2)]));
    assert!(!layout.can_score(&vec![InputKey::new(3, 0), InputKey::new(0, 0)]));
    assert!(!layout.can_score(&vec![InputKey::new(0, 0), InputKey::new(0, 3)]));
    assert!(layout.can_score(&vec![
        InputKey::new(0, 0),
        InputKey::new(0, 1),
        InputKey::new(9, 9)
    ]));
}

#[test]
fn layout_refuses_a_key_without_cost() {
    let mut left = left_keys();
    left[1].cost = 0;
    assert!(Layout::new(left, right_keys(), vec!['a'], vec![1]).is_none());
    let mut right = right_keys();
    right[2].cost = 0;
    assert!(Layout::new(left_keys(), right, vec!['a'], vec![1]).is_none());
}

#[test]
fn layout_refuses_more_symbols_than_chords() {
    let left = vec![key('q', 1, 0)];
    let right = vec![key('i', 1, 0)];
    assert!(Layout::new(left.clone(), right.clone(), vec!['a'], vec![1]).is_some());
    assert!(Layout::new(left, right, vec!['a', 'b'], vec![1, 1, 1, 1]).is_none());
}

#[test]
fn layout_refuses_a_transition_table_of_the_wrong_size() {
    assert!(Layout::new(left_keys(), right_keys(), vec!['a', 'b'], vec![1, 2, 3]).is_none());
    assert!(Layout::new(left_keys(), right_keys(), vec!['a', 'b'], vec![1, 2, 3, 4, 5]).is_none());
    assert!(Layout::new(left_keys(), right_keys(), vec!['a', 'b'], vec![0, 0, 0, 0]).is_some());
}

#[test]
fn layout_refuses_a_hand_of_more_keys_than_a_byte_counts() {
    let many: Vec<Key> = (0..257).map(|_| key('x', 1, 0)).collect();
    let full: Vec<Key> = (0..256).map(|_| key('x', 1, 0)).collect();
    assert!(Layout::new(many.clone(), right_keys(), vec![], vec![]).is_none());
    assert!(Layout::new(left_keys(), many, vec![], vec![]).is_none());
    let layout = Layout::new(full.clone(), full, vec![], vec![]).expect("a valid layout");
    assert_eq!(layout.chord_count(), 65536);
}

#[test]
fn layout_hands_back_its_tables() {
    let layout = layout();
    assert_eq!(layout.left_keys(), &left_keys());
    assert_eq!(layout.right_keys(), &right_keys());
    assert_eq!(layout.out_keys(), &vec!['a', 'b']);
    assert_eq!(layout.pair_probs(), &vec![1, 10, 2, 3]);
    assert_eq!(layout.chord_count(), 9);
    assert_eq!(layout.out_count(), 2);
}

#[test]
fn identity_assignment_lists_every_chord_in_canonical_order() {
    let layout = layout();
    let params = layout.in_keys();
    assert_eq!(params.len(), 9);
    for (at, chord) in params.iter().enumerate() {
        assert_eq!(*chord, InputKey::new(at / 3, at % 3));
        assert_eq!(chord.index(&layout), at);
    }
}

#[test]
fn chord_space_of_thirteen_by_fourteen_keys_has_182_chords() {
    let left: Vec<Key> = (0..13).map(|_| key('l', 1, 0)).collect();
    let right: Vec<Key> = (0..14).map(|_| key('r', 1, 0)).collect();
    let layout = Layout::new(left, right, vec![], vec![]).expect("a valid layout");
    assert_eq!(layout.chord_count(), 182);
    let params = layout.in_keys();
    assert_eq!(params[0], InputKey::new(0, 0));
    assert_eq!(params[13], InputKey::new(0, 13));
    assert_eq!(params[14], InputKey::new(1, 0));
    assert_eq!(params[181], InputKey::new(12, 13));
    assert_eq!(InputKey::new(5, 9).index(&layout), 79);
}

#[test]
fn index_pair_is_row_of_previous_column_of_current() {
    let layout = Layout::new(left_keys(), right_keys(), vec!['a', 'b', 'c'], vec![0; 9])
        .expect("a valid layout");
    assert_eq!(layout.index_pair(0, 0), 0);
    assert_eq!(layout.index_pair(0, 2), 2);
    assert_eq!(layout.index_pair(1, 0), 3);
    assert_eq!(layout.index_pair(2, 1), 7);
    assert_eq!(layout.index_pair(2, 2), 8);
}

#[test]
fn locate_tries_the_left_hand_first() {
    let left = vec![key('q', 1, 0), key('x', 1, 0), key('q', 1, 0)];
    let right = vec![key('x', 1, 0), key('p', 1, 0)];
    let layout = Layout::new(left, right, vec![], vec![]).expect("a valid layout");
    assert_eq!(layout.locate('q'), Some((Hand::Left, 0)));
    assert_eq!(layout.locate('x'), Some((Hand::Left, 1)));
    assert_eq!(layout.locate('p'), Some((Hand::Right, 1)));
    assert_eq!(layout.locate('z'), None);
}

#[test]
fn compare_asks_for_both_keys() {
    let chord = InputKey::new(4, 7);
    assert!(chord.compare(4, 7));
    assert!(!chord.compare(7, 4));
    assert!(!chord.compare(4, 6));
    assert!(!chord.compare(5, 7));
}

#[test]
fn record_of_every_chord_reads_back_as_the_chord() {
    for left in 0..13 {
        for right in 0..14 {
            let chord = InputKey::new(left, right);
            let bytes = chord.as_bytes();
            assert_eq!(bytes, [left as u8, right as u8]);
            assert_eq!(InputKey::from_bytes(bytes), chord);
        }
    }
    assert_eq!(InputKey::from_bytes(InputKey::new(255, 255).as_bytes()), InputKey::new(255, 255));
}

#[test]
fn record_keeps_the_low_byte_of_a_key_index() {
    assert_eq!(InputKey::new(256, 511).as_bytes(), [0, 255]);
    assert_eq!(InputKey::from_bytes([200, 3]), InputKey::new(200, 3));
}

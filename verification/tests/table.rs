use kybr::key_converter::{Hand, InputKey, Key, Layout};
use kybr::remapper::Remapper;
use kybr::table::{encode_table, load_table, persist, SearchError};

fn key(symbol: char, cost: u32, group: u8) -> Key {
    Key { symbol, cost, group }
}

/// Three keys a hand, three symbols.
fn layout() -> Layout {
    let left = vec![key('q', 3, 0), key('w', 2, 1), key('e', 1, 1)];
    let right = vec![key('i', 1, 0), key('o', 2, 0), key('p', 3, 1)];
    Layout::new(left, right, vec!['a', 'b', 'c'], vec![1; 9]).expect("a valid layout")
}

#[test]
fn table_holds_one_record_for_each_symbol_and_no_padding() {
    let layout = layout();
    let mut params = layout.in_keys();
    params.swap(0, 8);
    params.swap(1, 4);
    assert_eq!(encode_table(&layout, &params), vec![2, 2, 1, 1, 0, 2]);
}

#[test]
fn table_of_a_short_assignment_holds_what_there_is() {
    let layout = layout();
    assert_eq!(encode_table(&layout, &vec![InputKey::new(1, 2)]), vec![1, 2]);
    assert_eq!(encode_table(&layout, &Vec::new()), Vec::<u8>::new());
}

#[test]
fn persist_writes_the_best_assignment() {
    let layout = layout();
    let params = layout.in_keys();
    assert_eq!(persist(&layout, 1, Some(&params)), Ok(vec![0, 0, 0, 1, 0, 2]));
    assert_eq!(persist(&layout, u64::MAX, Some(&params)), Ok(vec![0, 0, 0, 1, 0, 2]));
}

#[test]
fn persist_fails_without_a_solution() {
    let layout = layout();
    assert_eq!(persist(&layout, 10, None), Err(SearchError::NoSolution));
    assert_eq!(persist(&layout, 0, None), Err(SearchError::NoSolution));
}

#[test]
fn persist_fails_where_no_candidate_was_evaluated() {
    let layout = layout();
    let params = layout.in_keys();
    assert_eq!(persist(&layout, 0, Some(&params)), Err(SearchError::NoSolution));
}

#[test]
fn load_reads_every_whole_record() {
    let layout = layout();
    let params = load_table(&layout, &[2, 1, 0, 2, 1, 1]);
    assert_eq!(params.len(), 9);
    assert_eq!(params[0], InputKey::new(2, 1));
    assert_eq!(params[1], InputKey::new(0, 2));
    assert_eq!(params[2], InputKey::new(1, 1));
    for slot in 3..9 {
        assert_eq!(params[slot], InputKey::new(0, 0));
    }
}

#[test]
fn load_of_a_short_file_defaults_the_rest() {
    let layout = layout();
    let params = load_table(&layout, &[2, 1]);
    assert_eq!(params.len(), 9);
    assert_eq!(params[0], InputKey::new(2, 1));
    for slot in 1..9 {
        assert_eq!(params[slot], InputKey::new(0, 0));
    }
    let empty = load_table(&layout, &[]);
    assert_eq!(empty, vec![InputKey::new(0, 0); 9]);
}

#[test]
fn load_drops_a_trailing_half_record() {
    let layout = layout();
    let params = load_table(&layout, &[2, 1, 1]);
    assert_eq!(params[0], InputKey::new(2, 1));
    assert_eq!(params[1], InputKey::new(0, 0));
}

#[test]
fn load_stops_at_the_size_of_the_chord_space() {
    let layout = layout();
    let bytes: Vec<u8> = (0..40).collect();
    let params = load_table(&layout, &bytes);
    assert_eq!(params.len(), 9);
    assert_eq!(params[8], InputKey::new(16, 17));
}

#[test]
fn load_keeps_key_indices_that_the_layout_lacks() {
    let layout = layout();
    let params = load_table(&layout, &[200, 255]);
    assert_eq!(params[0], InputKey::new(200, 255));
}

#[test]
fn written_table_reads_back_in_the_scored_slots() {
    let layout = layout();
    let mut params = layout.in_keys();
    params.swap(0, 7);
    params.swap(2, 5);
    let bytes = encode_table(&layout, &params);
    let read = load_table(&layout, &bytes);
    assert_eq!(read[..3], params[..3]);
    for slot in 3..9 {
        assert_eq!(read[slot], InputKey::new(0, 0));
    }
}

#[test]
fn matcher_gives_the_same_symbols_from_the_table_as_from_the_assignment() {
    let mut params = layout().in_keys();
    params.swap(0, 7);
    params.swap(2, 5);
    let bytes = encode_table(&layout(), &params);
    let read = load_table(&layout(), &bytes);
    let mut direct = Remapper::new(layout(), params, 200);
    let mut loaded = Remapper::new(layout(), read, 200);
    let mut time = 0;
    for left in 0..3 {
        for right in 0..3 {
            assert_eq!(direct.push_event(Hand::Left, left, time), None);
            assert_eq!(loaded.push_event(Hand::Left, left, time), None);
            let expected = direct.push_event(Hand::Right, right, time + 1);
            assert_eq!(loaded.push_event(Hand::Right, right, time + 1), expected);
            time += 10;
        }
    }
    assert_eq!(direct.push_event(Hand::Left, 2, time), None);
    assert_eq!(direct.push_event(Hand::Right, 1, time), Some('a'));
}

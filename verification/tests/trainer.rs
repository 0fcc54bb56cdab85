use kybr::gui::{App, Hint, Screen, BACKSPACE, HINT_KEY, QUIT_KEY, SHOWN};
use kybr::key_converter::{Key, Layout};

fn key(symbol: char, cost: u32, group: u8) -> Key {
    Key { symbol, cost, group }
}

/// Two keys a hand; the four chords type `a`, `b`, `c` and the delete symbol.
fn layout() -> Layout {
    let left = vec![key('q', 1, 0), key('w', 1, 1)];
    let right = vec![key('o', 1, 0), key('p', 1, 1)];
    Layout::new(left, right, vec!['a', 'b', 'c', BACKSPACE], vec![0; 16]).expect("a valid layout")
}

fn trainer(target: &str) -> App {
    let layout = layout();
    let params = layout.in_keys();
    App::new(layout, params, 200, target.to_owned())
}

/// Strikes the chord of a left and a right key; says what the second key did.
fn chord(app: &mut App, left: char, right: char, time: u64) -> bool {
    assert!(!app.update(left, time));
    app.update(right, time + 1)
}

fn frame(app: &App) -> (String, usize, Option<Hint>) {
    match app.view() {
        Screen::Frame { text, caret, hint } => (text.into_iter().collect(), caret, hint),
        Screen::Finished => panic!("the line is not typed to its end"),
    }
}

#[test]
fn new_trainer_shows_the_line_and_no_key() {
    let app = trainer("abc");
    assert!(!app.finished());
    assert_eq!(frame(&app), ("abc".to_owned(), 0, Some(Hint::Neither)));
}

#[test]
fn trainer_of_an_empty_line_is_finished() {
    let app = trainer("");
    assert!(app.finished());
    assert!(matches!(app.view(), Screen::Finished));
}

#[test]
fn right_symbol_takes_the_first_character_off() {
    let mut app = trainer("abc");
    assert!(!chord(&mut app, 'q', 'o', 0));
    assert_eq!(frame(&app), ("bc".to_owned(), 0, Some(Hint::Neither)));
    assert!(!chord(&mut app, 'q', 'p', 10));
    assert_eq!(frame(&app), ("c".to_owned(), 0, Some(Hint::Neither)));
    assert!(!chord(&mut app, 'w', 'o', 20));
    assert!(app.finished());
    assert!(matches!(app.view(), Screen::Finished));
}

#[test]
fn wrong_symbol_goes_in_front_and_brings_the_full_hint() {
    let mut app = trainer("abc");
    assert!(!chord(&mut app, 'w', 'o', 0));
    // The caret stands under the character that is still to be typed.
    assert_eq!(frame(&app), ("cabc".to_owned(), 1, Some(Hint::Both('q', 'o'))));
    assert!(!chord(&mut app, 'q', 'p', 10));
    assert_eq!(frame(&app), ("bcabc".to_owned(), 2, Some(Hint::Both('q', 'o'))));
}

#[test]
fn right_symbol_behind_wrong_ones_counts_as_wrong() {
    let mut app = trainer("abc");
    assert!(!chord(&mut app, 'w', 'o', 0));
    assert!(!chord(&mut app, 'q', 'o', 10));
    assert_eq!(frame(&app), ("acabc".to_owned(), 2, Some(Hint::Both('q', 'o'))));
}

#[test]
fn delete_takes_the_last_wrong_character_away() {
    let mut app = trainer("abc");
    assert!(!chord(&mut app, 'w', 'o', 0));
    assert!(!chord(&mut app, 'q', 'p', 10));
    assert!(!chord(&mut app, 'w', 'p', 20));
    assert_eq!(frame(&app), ("cabc".to_owned(), 1, Some(Hint::Both('q', 'o'))));
    assert!(!chord(&mut app, 'w', 'p', 30));
    assert_eq!(frame(&app), ("abc".to_owned(), 0, Some(Hint::Both('q', 'o'))));
    // The full hint stays until a right symbol is typed.
    assert!(!chord(&mut app, 'q', 'o', 40));
    assert_eq!(frame(&app), ("bc".to_owned(), 0, Some(Hint::Neither)));
}

#[test]
fn delete_without_a_wrong_character_changes_nothing() {
    let mut app = trainer("abc");
    assert!(!chord(&mut app, 'w', 'p', 0));
    assert_eq!(frame(&app), ("abc".to_owned(), 0, Some(Hint::Neither)));
}

#[test]
fn delete_is_never_the_character_to_type() {
    let mut app = trainer("\u{2190}a");
    assert!(!chord(&mut app, 'w', 'p', 0));
    assert_eq!(frame(&app), ("\u{2190}a".to_owned(), 0, Some(Hint::Neither)));
}

#[test]
fn hint_key_brings_the_full_hint_and_reaches_no_queue() {
    let mut app = trainer("ba");
    assert!(!app.update(HINT_KEY, 0));
    assert_eq!(frame(&app), ("ba".to_owned(), 0, Some(Hint::Both('q', 'p'))));
    assert!(!chord(&mut app, 'q', 'p', 10));
    assert_eq!(frame(&app), ("a".to_owned(), 0, Some(Hint::Neither)));
}

#[test]
fn quit_key_ends_the_exercise_and_changes_nothing() {
    let mut app = trainer("ab");
    assert!(!app.update('q', 0));
    assert!(app.update(QUIT_KEY, 1));
    assert_eq!(frame(&app), ("ab".to_owned(), 0, Some(Hint::Neither)));
    // The pending left press is still there.
    assert!(!app.update('o', 2));
    assert_eq!(frame(&app), ("b".to_owned(), 0, Some(Hint::Neither)));
}

#[test]
fn single_key_types_nothing() {
    let mut app = trainer("ab");
    assert!(!app.update('q', 0));
    assert!(!app.update('q', 10));
    assert!(!app.update('z', 20));
    assert_eq!(frame(&app), ("ab".to_owned(), 0, Some(Hint::Neither)));
}

#[test]
fn character_without_a_chord_has_no_hint() {
    let app = trainer("xa");
    assert_eq!(frame(&app), ("xa".to_owned(), 0, None));
}

#[test]
fn only_the_first_characters_of_a_long_line_show() {
    let app = trainer("abcabcabcabcabcabcabc");
    let (text, caret, _) = frame(&app);
    assert_eq!(SHOWN, 16);
    assert_eq!(text, "abcabcabcabcabca");
    assert_eq!(caret, 0);
    let app = trainer("abcabcabcabcabca");
    assert_eq!(frame(&app).0, "abcabcabcabcabca");
}

#[test]
fn line_of_characters_beyond_ascii_is_taken_by_character() {
    let mut app = trainer("\u{e9}a");
    assert_eq!(frame(&app), ("\u{e9}a".to_owned(), 0, None));
    assert!(!chord(&mut app, 'q', 'o', 0));
    assert_eq!(frame(&app), ("a\u{e9}a".to_owned(), 1, None));
}

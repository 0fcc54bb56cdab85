//! Two-handed chord keyboard remapping: the key and chord model, the cost of
//! an assignment of symbols to chords, the moves of the layout search, and the
//! matcher that pairs live key presses into symbols.

#![allow(unused_imports)]

pub mod exchange;
pub mod gui;
pub mod key_converter;
pub mod keyboard;
pub mod problem;
pub mod remapper;
pub mod session;
pub mod table;
pub mod uhid_keyboard;

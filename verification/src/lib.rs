//! Sudoku on the surface of a 9×9×9 cube: coordinates, faces, grids,
//! solution generation and checking, puzzle solving, and the rules of the
//! terminal client (key bindings, settings, shop, navigation, save codec).

pub mod board;
pub mod codec;
pub mod cube;
pub mod digits;
pub mod economy;
pub mod game_state;
pub mod grid;
pub mod i18n;
pub mod input;
pub mod play;
pub mod keymap;
pub mod layout;
pub mod menu;
pub mod navigation;
pub mod puzzle;
pub mod random;
pub mod render;
pub mod session;
pub mod settings;
pub mod shop;
pub mod status;
pub mod text;
pub mod types;
pub mod wfc;
pub mod widgets;

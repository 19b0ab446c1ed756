//! A keyboard-driven directory browser: the state machine, listing order,
//! fuzzy ranking, markdown rendering and text formatting it is built from.

pub mod app;
pub mod editor;
pub mod fuzzy;
pub mod input;
pub mod md;
pub mod nav;
pub mod order;
pub mod paths;
pub mod term;
pub mod text;
pub mod tree;
pub mod ui;


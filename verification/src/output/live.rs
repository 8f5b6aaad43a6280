//! The live view: its state, its rows and its panels.
pub mod columns;
pub mod devices;
pub mod interfaces;
pub mod layout;
pub mod logs;
pub mod shown;
pub mod table;

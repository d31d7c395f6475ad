//! The interface: its state, the order of its rows, what the screens say, its colours and
//! its keys.
pub mod order;
pub mod app;
pub mod theme;
pub mod layout;
pub mod keys;

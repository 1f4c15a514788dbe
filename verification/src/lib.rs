//! The logic of a small rhythm shooter: the volume control and the buttons of its menu, the
//! movement that the player's keys ask for, and the judging of clicks against the notes that
//! scroll past the target line.
pub mod actions;
pub mod menu;
pub mod rhythm;
pub mod state;
pub mod volume;

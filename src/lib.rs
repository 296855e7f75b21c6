//! Guesses a project's name from the marker files of its directory and its ancestors, and
//! estimates how many messages a file holds from its size.

pub mod estimate;
pub mod fallback;
pub mod markers;
pub mod resolve;
pub mod text;

//! What the operations are for: laws over their inputs and results, in terms
//! of the texts, paths and numbers that go in and come out.

pub mod commands;
pub mod finding;
pub mod information;
pub mod listening;
pub mod lyrics;
pub mod operations;
pub mod paths;
pub mod pictures;
pub mod running;
pub mod scanning;
pub mod separating;
pub mod telling;
pub mod texts;
pub mod showing;
pub mod sidecars;
pub mod tooling;
pub mod values;
pub mod window;

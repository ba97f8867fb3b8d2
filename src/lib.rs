//! Browse a ranked list of stories: a fetch cycle that turns ranked ids into
//! records in rank order, and a cursor with a scrolling viewport over them.

pub mod fetch;
pub mod state;
pub mod story;
pub mod time;

pub use fetch::{aggregate, take_candidates, Dispatcher};
pub use state::App;
pub use story::Story;
pub use time::get_relative_time;

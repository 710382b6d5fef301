//! Core logic of an interactive terminal dashboard that manages a small
//! inventory of assets persisted as a JSON array on disk: the data model,
//! the JSON codec for the backing file, the selection-index rules, the
//! event-pump timing and the dashboard state machine.

use vstd::prelude::*;

pub mod codec;
pub mod dashboard;
pub mod fetch;
pub mod model;
pub mod selection;
pub mod store;

pub use codec::read_db;
pub use codec::write_db;
pub use dashboard::key_of_char;
pub use dashboard::poll_timeout;
pub use dashboard::tick_due;
pub use dashboard::TICK_RATE_MS;
pub use dashboard::Action;
pub use dashboard::Dashboard;
pub use dashboard::Event;
pub use dashboard::Key;
pub use dashboard::MenuItem;
pub use fetch::Args;
pub use model::Asset;
pub use model::Error;
pub use selection::Selection;
pub use store::add_random_asset_to_db;
pub use store::remove_asset_at_index;

verus! {

/// The largest value the store's JSON codec writes or reads back for a
/// numeric field: the largest number with nineteen decimal digits.
pub open spec fn max_numeric() -> nat {
    9_999_999_999_999_999_999
}

} // verus!

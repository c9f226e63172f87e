pub mod bucket;
pub mod cli;
pub mod date;
pub mod digits;
pub mod entry;
pub mod error;
pub mod laws;
pub mod order;
pub mod query;
pub mod render;
pub mod sort;
pub mod vmap;
pub mod wire;

pub use bucket::{index, interval};
pub use cli::{Parse, Render};
pub use date::Date;
pub use entry::Entry;
pub use error::TimelineError;
pub use query::filter_entries;
pub use render::{text_handler, EMPTY_LINE, INDENT, INDENT_SIZE, NEWLINE, PRELUDE, PRELUDE_SIZE,
    SAME_LINE_INDENT, SAME_LINE_PRELUDE};
pub use sort::sort_entries;
pub use wire::{from_wire, to_wire, WireDate, WireEntry};

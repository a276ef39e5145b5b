//! Listing of import-path remappings, flat or grouped by context.
pub mod grouping;
pub mod laws;
pub mod listing;
pub mod order;
pub mod remapping;

pub use grouping::context_order;
pub use listing::{render_flat, render_pretty, RemappingArgs};
pub use order::{compare_contexts, compare_text};
pub use remapping::Remapping;

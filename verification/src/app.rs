//! State and decisions of the terminal interface.
pub mod content_layout;
pub mod content_state;
pub mod duplicates;
pub mod event_handler;
pub mod filter_state;
pub mod list_layout;
pub mod list_state;
pub mod screen;
pub mod sort_state;

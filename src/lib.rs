//! A view engine over a flat collection of records: it keeps filter, sort
//! and pagination state and derives the visible page and a summary of the
//! current view.
pub mod item;
pub mod ranking;
pub mod view;
pub mod engine;
pub mod laws;

pub use engine::{
    filter_by_playable, filter_by_tag, get_page_items, get_view_state, init_store, next_page,
    prev_page, set_items, set_page, sort_by_rating, sort_by_title, toggle_sort_order, ViewEngine,
    ViewState,
};
pub use item::{Item, SortKey, SortOrder};

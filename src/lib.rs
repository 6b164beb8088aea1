//! Closest-sum-under-budget search over a list of priced items sorted by price.

pub mod bin_search_utils;
pub mod items;
pub mod pairs;

pub use bin_search_utils::binary_search_leq;
pub use items::Item;
pub use pairs::get_closest_items_parallel;


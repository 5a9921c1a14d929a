//! Reading the pages of the archive.

pub mod article;
pub mod day;
pub mod html;
pub mod listing;

pub use article::parse_article;
pub use day::parse_day_page;
pub use listing::parse_listing_page;

//! The deciding core of a crawler for a newspaper archive.
//!
//! The archive has five levels: an index, years, months, days and articles.
//! A crawl walks it depth first with a bounded number of fetches in flight,
//! keeps the articles that mention a keyword, notes the pages that failed,
//! and knows when it is done.
//!
//! Nothing in this crate touches the network, the clock or the disk. The
//! caller fetches pages and reports what came back; the crate says what to
//! fetch next.
//!
//! - [`dispatcher`]: the run as a state machine, with what is proved of it.
//! - [`fetch`]: the permits that bound the fetches in flight, and the retry
//!   policy of one fetch.
//! - [`file_source`]: the name under which a result file is backed up.
//! - [`job_manager`]: the count of outstanding tasks and the signal that all
//!   are done.
//! - [`keywords`]: which texts mention a keyword.
//! - [`parsers`]: reading a page that lists others, the page of a day, and
//!   one article of it.
//! - [`records`]: levels, results and errors.
//! - [`log_expect`]: taking out a value that is known to be there.

pub mod dispatcher;
pub mod fetch;
pub mod file_source;
pub mod job_manager;
pub mod keywords;
pub mod log_expect;
pub mod parsers;
pub mod records;

pub use fetch::{FetchClient, RETRIES, THROTTLE};
pub use job_manager::JobManager;
pub use keywords::TARGETS;
pub use log_expect::LogExpect;
pub use parsers::{parse_article, parse_day_page, parse_listing_page};
pub use records::{Error, FailTarget, SuccessTarget, TargetType, ROOT};

//! Scraping the roster of listed companies from a paginated HTML directory:
//! text normalization, page-count discovery, row extraction and record assembly.

pub mod counter;
pub mod error;
pub mod html;
pub mod scrape;
pub mod table;
pub mod text;

pub use text::unescape;

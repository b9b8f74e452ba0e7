//! Interpretation of admission score tables: column layout, header
//! discovery, row decoding and the aggregation of records across faculties.

pub mod crawl;
pub mod layout;
pub mod record;
pub mod schema;
pub mod scores;
pub mod text;

//! Electronic program guide pipeline: feed conversion, channel
//! reconciliation, bulk-load planning, and program query resolution.

pub mod channel;
pub mod channel_converter;
pub mod load_plan;
pub mod models;
pub mod page;
pub mod program;
pub mod program_converter;
pub mod queries;
pub mod rating;
pub mod reconcile;
pub mod sql;
pub mod text;
mod time_source;
pub mod timestamp;
pub mod urls;

pub use page::Page;
pub use timestamp::{parse_timestamp, Timestamp};
pub use urls::{normalize_base_url, xmltv_url_all, xmltv_url_fr, xmltv_url_tnt};

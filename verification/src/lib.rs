//! Core of `fastsl`, a read-only viewer for local SwanLab logs.

pub mod api;
pub mod api_fastsl;
pub mod chart_laws;
pub mod charts;
pub mod codec;
pub mod comparison_laws;
pub mod comparisons;
pub mod json;
pub mod log_laws;
pub mod logs;
pub mod order;
pub mod overlay_laws;
pub mod page_laws;
pub mod paths;
pub mod placement;
pub mod record_laws;
pub mod records;
pub mod reply_laws;
pub mod resp;
pub mod rows;
pub mod seqs;
pub mod series;
pub mod series_laws;
pub mod server;
pub mod state_laws;
pub mod summaries;
pub mod summary_cache;
pub mod summary_laws;
pub mod tails;
pub mod text;
pub mod text_laws;
pub mod uistate;
pub mod view_laws;

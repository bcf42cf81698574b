//! The logic of a local media-research stack: which sources a run reads and how they are
//! cached, how the services of the stack are configured, and what becomes of the
//! transcripts that speech recognition returns.

pub mod cache_laws;
pub mod cache_run;
pub mod files;
pub mod json;
pub mod json_laws;
pub mod progress;
pub mod progress_laws;
pub mod report;
pub mod report_laws;
pub mod research_cache;
pub mod settings;
pub mod settings_laws;
pub mod source_laws;
pub mod stack;
pub mod sweep;
pub mod sweep_laws;
pub mod sweep_run;
pub mod text;
pub mod text_laws;
pub mod transcript;
pub mod transcript_laws;
pub mod url_laws;
pub mod watcher;

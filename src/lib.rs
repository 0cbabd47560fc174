//! Streaming extraction of statements from a database dump, the decisions
//! of a bounded dump restore pipeline, and the column transformer interface.

pub mod extract;
pub mod pipeline;
pub mod text;
pub mod transformer;

pub use extract::{list_queries_from_dump_reader, DumpFileError, StatementExtractor};
pub use pipeline::{FullRestoreTask, Message, RestoreAction, RestoreEvent, RestoreMachine};
pub use transformer::{Column, Transformer, Transformers};

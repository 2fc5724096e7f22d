//! Flattens nested JSON documents into flat key-value records.
//!
//! A JSON tree is turned into a record mapping path keys (segments joined by a
//! configurable separator) to the string form of each leaf, under a policy
//! controlling depth cutoff, array expansion and array indexing. Bulk layers
//! apply the same engine to a stream of documents in parallel chunks, to the
//! top-level entries of one large object, and to newline-delimited lines.

pub mod bulk;
pub mod columns;
pub mod flatten;
pub mod laws;
pub mod lines;
pub mod options;
pub mod parse;
pub mod record;
pub mod text;
pub mod value;

pub use bulk::{flatten_json_text, flatten_json_stream, process_stream, split_large_object, process_large_json};
pub use columns::to_columns;
pub use flatten::{flatten_json, flatten_value, flatten_entry};
pub use lines::{RecordSink, RecordingSink, LineError, process_lines};
pub use parse::ParseError;
pub use options::FlattenOptions;
pub use record::FlatRecord;
pub use text::usize_to_string;
pub use value::{JsonValue, to_json_text};

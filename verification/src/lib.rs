//! A verified codec for the WARC record format: a byte-level grammar with
//! complete and streaming modes, raw and typed record representations, and a
//! failure-deferring record builder.
pub mod builder;
pub mod encode;
pub mod error;
pub mod header;
pub mod header_map;
pub mod parser;
pub mod record;
pub mod record_type;
pub mod text;
pub mod timestamp;
pub mod truncated_type;

pub use builder::RecordBuilder;
pub use error::Error;
pub use header::WarcHeader;
pub use header_map::HeaderMap;
pub use record::BufferedBody;
pub use record::RawHeaderBlock;
pub use record::RawRecord;
pub use record::Record;
pub use record::StreamingType;
pub use record_type::RecordType;
pub use timestamp::Timestamp;
pub use truncated_type::TruncatedType;

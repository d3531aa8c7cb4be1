//! A zero-copy HTTP/1.1 request/response engine: byte scanning, incremental
//! message framing, request parsing, response head emission, an outbound
//! connection pool and a static-file cache, with machine-checked contracts.
//!
//! The library decides and computes; it touches no socket, file or clock.
//! A caller reads and writes, and hands the library plain values: the bytes
//! that a read brought, the size of a file, the time in milliseconds.

pub mod search;
pub mod text;
pub mod scanner;
pub mod content_length;
pub mod protocol;
pub mod options;
pub mod arena;
pub mod response;
pub mod request;
pub mod reader;
pub mod pool;
pub mod files;
pub mod cache;
pub mod multipart;
pub mod server;
pub mod test_data;

pub use arena::ArenaBody;
pub use cache::{CacheConfig, CacheStats, CachedFileData, ZeroCopyCache};
pub use files::{FileLoadResult, ZeroCopyFile};
pub use multipart::{RequestUtils, RequestUtilsArena};
pub use options::Options;
pub use request::Body;
pub use response::{ArenaWriter, ResponseUtil, ResponseUtilArena, Writer};
pub use test_data::TestData;

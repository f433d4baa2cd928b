/// Bucket and object metadata, byte ranges, and the storage backend interface.
pub mod api;
/// The closed set of failures and the responses that report them.
pub mod errors;
/// Requests and responses as plain values.
pub mod http;
/// The in-memory backend with its two-level locks, and a canned backend.
pub mod layers;
/// Parameters, replies and their wire forms, one module per operation.
pub mod ops;
/// Classification of requests and the dispatcher.
pub mod server;
/// Character-level helpers: copying, splitting, decimal text and parsing.
pub mod text;
/// The XML body writer and the query-string reader.
pub mod util;

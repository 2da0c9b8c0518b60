//! Binary-safe value types for HTTP requests and responses that cross a
//! sandbox boundary, and their conversions to and from a native HTTP client.

pub mod compact;
pub mod diagnostic;
pub mod header;
pub mod method;
pub mod native;
pub mod response;
pub mod structured;
pub mod text;

pub use header::Header;
pub use method::Method;
pub use response::Response;

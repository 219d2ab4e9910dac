//! A client for a columnar database that is reached over HTTP: query texts with bound
//! arguments, the requests that carry them, the decoding of rows from the binary row
//! format, and a double of the server for tests.

pub mod cursor;
pub mod decode;
pub mod encode;
pub mod endpoint;
pub mod error;
pub mod http;
pub mod materialize;
pub mod mock;
pub mod query;
pub mod request;
pub mod roundtrip;
pub mod rowbinary;
pub mod sql;
pub mod text;
pub mod watch;
pub mod window;

pub use cursor::{Fetched, RowCursor};
pub use error::{BindError, ConfigError, DecodeError, Error};
pub use query::{Query, Response};
pub use request::{ClientConfig, Compression, Method, Request};
pub use rowbinary::{Column, ColumnKind, Value};
pub use sql::Bind;

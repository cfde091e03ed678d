//! Wire protocol of a small SQL-over-request/reply service: the binary
//! encoding of query results, the request-handling state machine of the
//! server, and the rendering of a decoded result on the client.
//!
//! * `model` holds the data: typed cell values, result header, result.
//! * `format` states the wire format on sequences of bytes, and `laws` proves
//!   what holds of it: encoding and decoding are inverse, a missing marker or
//!   a length that runs past the end is rejected.
//! * `encode` and `decode` are the codec itself, verified against `format`.
//! * `server` is the request loop as a state machine.
//! * `render` lays out a result as the table that the client prints, and
//!   `client` takes a reply from its message parts to that table.
//! * `buffer` and `text` hold the calls whose behaviour is assumed.

pub mod bigendian;
pub mod buffer;
pub mod client;
pub mod decode;
pub mod encode;
pub mod format;
pub mod laws;
pub mod model;
pub mod render;
pub mod server;
pub mod text;

pub use client::{show_response, ClientError};
pub use decode::{decode_response, deserialize_header, deserialize_rows, header_length};
pub use encode::{empty_response, encode_response, serialize_header, serialize_rows};
pub use model::{DecodeError, QueryResult, QueryResultHeader, TypedValue};
pub use render::{cell_text, cell_texts, integer_text, render_result, render_table, RenderError};
pub use server::{
    query_reply, step, ReceiveMode, ServerAction, ServerEvent, ServerState, POLL_INTERVAL_MS,
};

use vstd::prelude::*;

verus! {

/// Port that server and client use when none is given.
pub const DEFAULT_PORT: u16 = 9087;

} // verus!

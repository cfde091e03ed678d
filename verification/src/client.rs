//! The client's side of one exchange: from the message parts of a reply to
//! the text that is shown.

use crate::decode::decode_response;
use crate::format::{parse_response, parts_bytes};
use crate::model::DecodeError;
use crate::render::{
    all_have_text, are_cell_texts, placeholder, render_result, table_text, RenderError,
};
use vstd::prelude::*;

verus! {

/// Why the client has nothing to show. Either way the exchange has failed
/// for good.
#[derive(Debug, Clone, Copy, PartialEq, Eq, Structural)]
pub enum ClientError {
    /// The reply could not be decoded.
    Decode(DecodeError),
    /// The reply was decoded, and the result could not be shown.
    Render(RenderError),
}

/// The text that the client shows for a reply.
///
/// The reply is decoded; a reply that cannot be decoded is an error, never a
/// table. A result without rows is shown as one fixed line, and a reply of
/// one part is enough for it. Any other result is shown as the table of the
/// texts of its cells, where the text of a floating-point cell is what
/// `float_text` gives for its bits; a blob that is not UTF-8 is an error.
pub fn show_response<F>(parts: &Vec<Vec<u8>>, float_text: F) -> (out: Result<
    String,
    ClientError,
>) where F: Fn(u64) -> String
    requires
        forall|bits: u64| call_requires(float_text, (bits,)),
    ensures
        match parse_response(parts_bytes(parts@)) {
            Err(e) => out == Err::<String, ClientError>(ClientError::Decode(e)),
            Ok(result) => if result.header.row_count == 0 {
                out matches Ok(text) && text@ == placeholder()
            } else if !all_have_text(result.rows) {
                out == Err::<String, ClientError>(ClientError::Render(RenderError::BlobNotText))
            } else {
                out matches Ok(text) && exists|texts: Vec<Vec<String>>|
                    are_cell_texts(float_text, result.rows, texts@) && text@ == table_text(
                        texts.deep_view(),
                    )
            },
        },
{
    let result = match decode_response(parts) {
        Ok(result) => result,
        Err(e) => {
            return Err(ClientError::Decode(e));
        },
    };
    match render_result(&result, float_text) {
        Ok(text) => Ok(text),
        Err(e) => Err(ClientError::Render(e)),
    }
}

} // verus!

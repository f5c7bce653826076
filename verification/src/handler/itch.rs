//! ITCH-style decoding for the handler: the feed's message format without trades.
use vstd::prelude::*;
use crate::feed::decode::{decode_frame, frame_fits, pop_result_is, pop_spec};
pub use crate::feed::error::{DecodeError, IngestError};
pub use crate::feed::message::{ItchMessage, Side};
pub use crate::feed::encode::{encode_add_order, encode_order_canceled, encode_system_event};

verus! {

/// Decoder for ITCH-style messages of types 0 to 3; type 4 is refused as unknown.
#[derive(Debug, Clone, Copy)]
pub struct ItchDecoder;

impl ItchDecoder {
    pub fn new() -> Self {
        ItchDecoder
    }

    /// Parse the next length-prefixed message of `buf`: `(message, consumed_bytes)` if
    /// a whole message is there, `None` if `buf` is shorter than a whole frame.
    pub fn pop_message<'a>(&mut self, buf: &'a [u8]) -> (r: Result<Option<(ItchMessage<'a>, usize)>, DecodeError>)
        requires
            frame_fits(buf@),
        ensures
            pop_result_is(r, pop_spec(buf@, false)),
    {
        decode_frame(buf, false)
    }
}

impl Default for ItchDecoder {
    fn default() -> Self {
        ItchDecoder::new()
    }
}

} // verus!

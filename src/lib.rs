//! Framing of multiplexed messages over one ordered byte stream.
//!
//! A frame is `varint(body_length) ++ varint(header) ++ payload`, where the
//! header packs a channel number and a four-bit message type.
pub mod decoder;
pub mod message;
pub mod session;
pub mod stream;
pub mod transform;
pub mod varint;

pub use decoder::{FrameDecoder, Phase, MAX_MESSAGE_SIZE};
pub use message::{decode_message, encode_message, FrameError, Message, CHANNEL_LIMIT};
pub use session::Session;
pub use transform::{NoTransform, Transform};

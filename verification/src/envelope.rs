//! The unit that travels over the socket transport.

use vstd::prelude::*;

verus! {

/// One message on the socket transport.
#[derive(Debug, Clone, PartialEq, Eq)]
pub enum Envelope {
    /// A chat payload for the channel `channel_id`.
    Message { channel_id: u64, content: String },
    /// A heartbeat; it carries nothing.
    KeepAlive,
}

/// What an [`Envelope`] is, as a mathematical value.
pub enum EnvelopeView {
    Message { channel_id: u64, content: Seq<char> },
    KeepAlive,
}

impl View for Envelope {
    type V = EnvelopeView;

    open spec fn view(&self) -> EnvelopeView {
        match self {
            Envelope::Message { channel_id, content } => EnvelopeView::Message {
                channel_id: *channel_id,
                content: content@,
            },
            Envelope::KeepAlive => EnvelopeView::KeepAlive,
        }
    }
}

/// The bytes received are not the wire form of any envelope.
#[derive(Debug, Clone, Copy, PartialEq, Eq)]
pub struct DecodeError;

} // verus!

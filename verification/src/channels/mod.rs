//! Channels: the ways by which messages come in and replies go out.

pub mod webhook;

use vstd::prelude::*;

use crate::json::Json;

verus! {

/// Where a reply goes.
#[derive(Debug)]
pub struct OutboundTarget {
    /// The channel.
    pub channel: String,
    /// Who is addressed, as the channel knows them.
    pub external_id: String,
    /// Where a reply is posted to, if anywhere.
    pub callback_url: Option<String>,
}

/// A reply.
#[derive(Debug)]
pub struct OutboundMessage {
    pub text: String,
    pub metadata: Json,
}

/// Whether a channel works.
#[derive(Debug)]
pub enum ChannelHealth {
    Connected,
    Disconnected { reason: String },
}

/// What a health says.
pub enum HealthV {
    Connected,
    Disconnected { reason: Seq<char> },
}

impl DeepView for ChannelHealth {
    type V = HealthV;

    open spec fn deep_view(&self) -> HealthV {
        match *self {
            ChannelHealth::Connected => HealthV::Connected,
            ChannelHealth::Disconnected { reason } => HealthV::Disconnected { reason: reason@ },
        }
    }
}

}

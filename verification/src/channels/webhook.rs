//! The webhook channel: for any system that posts JSON.
//!
//! It does not poll and holds no connections. Messages come in over HTTP, and a
//! reply is posted to a callback URL where the message named one; otherwise it
//! went back in the HTTP response.

use vstd::prelude::*;
use vstd::string::*;

use super::{ChannelHealth, HealthV, OutboundMessage, OutboundTarget};
use crate::db::rows::Read;
use crate::error::{done, CortexError, FaultV, Result};
use crate::json::{empty_object, Json, JsonV};

verus! {

/// The webhook channel.
#[derive(Debug)]
pub struct WebhookChannel {
    started: bool,
}

/// A reply to post: where to, and what.
#[derive(Debug)]
pub struct Delivery {
    pub url: String,
    pub payload: Json,
}

/// What is posted for a reply.
pub open spec fn payload_json(target: OutboundTarget, message: OutboundMessage) -> JsonV {
    empty_object().with("channel"@, JsonV::Text(target.channel@)).with(
        "external_id"@,
        JsonV::Text(target.external_id@),
    ).with("text"@, JsonV::Text(message.text@)).with("metadata"@, message.metadata.deep_view())
}

/// What came of posting a reply, by the status of the answer: anything but
/// success is an error with the status and the body.
pub open spec fn posted(status: u16, status_text: Seq<char>, body: Seq<char>) -> Read<()> {
    if 200 <= status < 300 {
        Ok(())
    } else {
        Err(FaultV::Channel("Webhook callback returned "@ + status_text + ": "@ + body))
    }
}

impl WebhookChannel {
    /// Whether the channel was started and not stopped since.
    pub closed spec fn is_started(&self) -> bool {
        self.started
    }

    /// A channel that was not started.
    pub fn new() -> (r: WebhookChannel)
        ensures
            !r.is_started(),
    {
        WebhookChannel { started: false }
    }

    /// The ID of the channel.
    pub fn id(&self) -> (r: &str)
        ensures
            r@ == "webhook"@,
    {
        "webhook"
    }

    /// The name of the channel.
    pub fn display_name(&self) -> (r: &str)
        ensures
            r@ == "Generic Webhook"@,
    {
        "Generic Webhook"
    }

    /// Starts the channel.
    pub fn start(&mut self)
        ensures
            final(self).is_started(),
    {
        self.started = true;
    }

    /// Stops the channel.
    pub fn stop(&mut self)
        ensures
            !final(self).is_started(),
    {
        self.started = false;
    }

    /// What is to be posted for a reply: nothing where there is no callback URL.
    pub fn delivery(&self, target: &OutboundTarget, message: &OutboundMessage) -> (r: Option<Delivery>)
        ensures
            match (target.callback_url, r) {
                (Some(url), Some(delivery)) => {
                    &&& delivery.url@ == url@
                    &&& delivery.payload.deep_view() == payload_json(*target, *message)
                },
                (None, None) => true,
                _ => false,
            },
    {
        match &target.callback_url {
            Some(url) => {
                let payload = Json::object().with("channel", Json::Text(target.channel.clone())).with(
                    "external_id",
                    Json::Text(target.external_id.clone()),
                ).with("text", Json::Text(message.text.clone())).with("metadata", message.metadata.copy());
                Some(Delivery { url: url.clone(), payload })
            },
            None => None,
        }
    }

    /// What came of posting a reply that was answered. `status_text` is the status
    /// as it is shown.
    pub fn delivered(&self, status: u16, status_text: &str, body: &str) -> (r: Result<()>)
        ensures
            done(r) == posted(status, status_text@, body@),
    {
        if 200 <= status && status < 300 {
            return Ok(());
        }
        let mut message = "Webhook callback returned ".to_owned();
        message.append(status_text);
        message.append(": ");
        message.append(body);
        Err(CortexError::Channel(message))
    }

    /// The error for a reply that could not be posted.
    pub fn failed(&self, reason: &str) -> (r: CortexError)
        ensures
            r.deep_view() == FaultV::Channel("Webhook callback failed: "@ + reason@),
    {
        let mut message = "Webhook callback failed: ".to_owned();
        message.append(reason);
        CortexError::Channel(message)
    }

    /// Whether the channel works: it does while it is started.
    pub fn health(&self) -> (r: ChannelHealth)
        ensures
            r.deep_view() == if self.is_started() {
                HealthV::Connected
            } else {
                HealthV::Disconnected { reason: "not started"@ }
            },
    {
        if self.started {
            ChannelHealth::Connected
        } else {
            ChannelHealth::Disconnected { reason: "not started".to_owned() }
        }
    }

    /// How long a message may be.
    pub fn max_message_length(&self) -> (r: usize)
        ensures
            r == 100_000,
    {
        100_000
    }
}

}

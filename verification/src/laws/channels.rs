//! What the webhook channel is for.

use vstd::prelude::*;

use super::provider::has_only;
use crate::channels::webhook::{payload_json, posted};
use crate::channels::{OutboundMessage, OutboundTarget};
use crate::db::rows::Read;
use crate::error::FaultV;
use crate::json::{field, JsonV};

verus! {

/// What is posted for a reply names the channel, who is addressed, what is said, and what
/// goes with it.
pub proof fn law_payload_tells_the_reply(target: OutboundTarget, message: OutboundMessage)
    ensures
        field(payload_json(target, message), "channel"@) == Some(JsonV::Text(target.channel@)),
        field(payload_json(target, message), "external_id"@) == Some(JsonV::Text(target.external_id@)),
        field(payload_json(target, message), "text"@) == Some(JsonV::Text(message.text@)),
        field(payload_json(target, message), "metadata"@) == Some(message.metadata.deep_view()),
        has_only(payload_json(target, message), set!["channel"@, "external_id"@, "text"@, "metadata"@]),
{
    reveal_strlit("channel");
    reveal_strlit("external_id");
    reveal_strlit("text");
    reveal_strlit("metadata");
    assert("channel"@.len() == 7);
    assert("external_id"@.len() == 11);
    assert("text"@.len() == 4);
    assert("metadata"@.len() == 8);
}

/// A reply was delivered if and only if the status of the answer has two hundreds in it;
/// otherwise the error tells the status and the body.
pub proof fn law_delivery_goes_by_the_status(status: u16, status_text: Seq<char>, body: Seq<char>)
    ensures
        status / 100 == 2 ==> posted(status, status_text, body) == Read::<()>::Ok(()),
        status / 100 != 2 ==> posted(status, status_text, body) == Read::<()>::Err(
            FaultV::Channel("Webhook callback returned "@ + status_text + ": "@ + body),
        ),
{
}

}

//! The producer side of the bus sink: the message built for one stored
//! record. The record's identifier becomes the message key, so a
//! downstream consumer can deduplicate by key, and the payload is the
//! envelope wire text. The transactional send itself is transport and
//! lives outside the library.

use vstd::prelude::*;

use crate::kafka_greeting_consumer::{
    encode_payload, payload_json, GreetingLogg, GreetingLoggModel, KafkaTopicPayload,
};
use crate::service::{Greeting, GreetingModel};

verus! {

/// The full record as the producer sees it: every field of the greeting,
/// as plain values.
#[derive(Debug)]
pub struct GreetingMessage {
    pub external_reference: String,
    pub id: String,
    pub to: String,
    pub from: String,
    pub heading: String,
    pub message: String,
    pub created: i64,
    pub events_created: Vec<(String, i64)>,
}

impl View for GreetingMessage {
    type V = GreetingModel;

    open spec fn view(&self) -> GreetingModel {
        GreetingModel {
            external_reference: self.external_reference@,
            id: self.id@,
            to: self.to@,
            from: self.from@,
            heading: self.heading@,
            message: self.message@,
            created: self.created as int,
            events_created: crate::service::events_map(self.events_created@),
        }
    }
}

impl GreetingMessage {
    /// The message carrying exactly the record's fields.
    pub fn of_greeting(g: &Greeting) -> (msg: GreetingMessage)
        ensures
            msg@ == g@,
    {
        let msg = GreetingMessage {
            external_reference: g.external_reference().clone(),
            id: g.id().clone(),
            to: g.to().clone(),
            from: g.from().clone(),
            heading: g.heading().clone(),
            message: g.message().clone(),
            created: g.created(),
            events_created: g.events_cloned(),
        };
        proof {
            assert(msg@ =~= g@);
        }
        msg
    }
}

/// The bus record the producer sends for one stored greeting: the record
/// identifier as the message key, and the envelope wire text as the
/// payload. `surrogate` is the storage surrogate carried in the
/// envelope's `id` slot.
pub fn bus_record(g: &Greeting, surrogate: i64) -> (r: (String, String))
    ensures
        r.0@ == g@.id,
        r.1@ == payload_json(
            GreetingLoggModel { id: surrogate as int, greeting_id: g@.id, created: g@.created },
        ),
{
    let key = g.id().clone();
    let envelope = KafkaTopicPayload {
        after: GreetingLogg { id: surrogate, greeting_id: g.id().clone(), created: g.created() },
    };
    let payload = encode_payload(&envelope);
    (key, payload)
}

} // verus!

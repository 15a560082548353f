//! The subscription requests and the answers to them.
use crate::error::{outcome, Error, ErrorView};
use crate::json::{self, json, jsons, text_of_json, Json};
use crate::wire::{is_notification, Subscription, Subscriptions};
use serde_json::Value;
use std::collections::VecDeque;
use vstd::prelude::*;

verus! {

/// The place of the head stream among the requests: after the four log filters.
pub const HEADS_REQUEST: usize = 4;

/// The parameters of a subscription to the logs that a filter selects.
pub open spec fn logs_params(filter: Json) -> Json {
    Json::Array(seq![Json::Text("logs"@), filter])
}

/// The parameters of a subscription to the headers of every commitment stage.
pub open spec fn heads_params() -> Json {
    Json::Array(seq![Json::Text("monadNewHeads"@)])
}

/// The parameters of all requests, in the order in which they are sent: one for
/// each filter, then the head stream. The filters have to be active before the
/// first header comes, for headers to mark the ends of log frames.
pub open spec fn all_params(filters: Seq<Json>) -> Seq<Json> {
    filters.map_values(|filter: Json| logs_params(filter)).push(heads_params())
}

/// A subscription request.
pub open spec fn subscribe_request(id: u64, params: Json) -> Json {
    Json::Object(
        Map::empty().insert("jsonrpc"@, Json::Text("2.0"@)).insert(
            "id"@,
            Json::Unsigned(id),
        ).insert("method"@, Json::Text("eth_subscribe"@)).insert("params"@, params),
    )
}

/// What the subscription of a request delivers.
pub open spec fn request_kind(index: nat) -> Subscription {
    if index == HEADS_REQUEST {
        Subscription::Heads
    } else {
        Subscription::Logs
    }
}

/// The state of a handshake: the parameters of its requests, how many of them are
/// confirmed, the subscriptions so far, and the notifications that came meanwhile.
#[verifier::ext_equal]
pub struct HandshakeState {
    pub params: Seq<Json>,
    pub confirmed: nat,
    pub subscriptions: Map<Seq<char>, Subscription>,
    pub queued: Seq<Json>,
}

impl HandshakeState {
    /// The next request, until all are confirmed.
    pub open spec fn request(self) -> Option<Json> {
        if self.confirmed < self.params.len() {
            Some(
                subscribe_request(
                    (self.confirmed + 1) as u64,
                    self.params[self.confirmed as int],
                ),
            )
        } else {
            None
        }
    }

    /// What a message is answered while the next request is outstanding, and the
    /// state after it: a notification is kept for later, the confirmation of the
    /// request is entered, and anything else is refused.
    pub open spec fn on_message(self, message: Json) -> (Result<bool, ErrorView>, HandshakeState) {
        if message.member("method"@).text() == Some("eth_subscription"@) {
            (Ok(false), HandshakeState { queued: self.queued.push(message), ..self })
        } else if message.member("id"@).unsigned() != Some((self.confirmed + 1) as u64) {
            (Err(ErrorView::Rpc("unexpected subscription response"@)), self)
        } else {
            match message.get("error"@) {
                Some(error) => (Err(ErrorView::Rpc(text_of_json(error))), self),
                None => match message.member("result"@).text() {
                    None => (Err(ErrorView::Rpc("missing subscription ID"@)), self),
                    Some(id) => if self.subscriptions.contains_key(id) {
                        (Err(ErrorView::Rpc("duplicate subscription ID"@)), self)
                    } else {
                        (
                            Ok(true),
                            HandshakeState {
                                confirmed: self.confirmed + 1,
                                subscriptions: self.subscriptions.insert(
                                    id,
                                    request_kind(self.confirmed),
                                ),
                                ..self
                            },
                        )
                    },
                },
            }
        }
    }
}

/// With four log filters the head stream is requested last, and its subscription
/// is the one that delivers headers.
pub proof fn law_heads_are_requested_last(filters: Seq<Json>)
    requires
        filters.len() == 4,
    ensures
        all_params(filters).len() == 5,
        forall|i: int|
            0 <= i < 4 ==> #[trigger] all_params(filters)[i] == logs_params(filters[i])
                && request_kind(i as nat) == Subscription::Logs,
        all_params(filters)[4] == heads_params(),
        request_kind(4) == Subscription::Heads,
{
}

/// No notification is lost or reordered by the handshake: whatever a message is
/// answered, what was queued stays in front, and only a notification is added.
pub proof fn law_handshake_keeps_notifications(s: HandshakeState, message: Json)
    ensures
        ({
            let (r, next) = s.on_message(message);
            next.queued == if message.member("method"@).text() == Some("eth_subscription"@) {
                s.queued.push(message)
            } else {
                s.queued
            }
        }),
{
}

/// A handshake: one request after the other, each confirmed before the next.
pub struct Handshake {
    params: Vec<Value>,
    confirmed: usize,
    subscriptions: Subscriptions,
    queued: VecDeque<Value>,
}

impl View for Handshake {
    type V = HandshakeState;

    closed spec fn view(&self) -> HandshakeState {
        HandshakeState {
            params: jsons(self.params@),
            confirmed: self.confirmed as nat,
            subscriptions: self.subscriptions@,
            queued: jsons(self.queued@),
        }
    }
}

impl Handshake {
    pub closed spec fn wf(self) -> bool {
        &&& self.subscriptions.wf()
        &&& self.confirmed <= self.params@.len()
    }

    /// Prepares the requests for these log filters.
    pub fn new(filters: Vec<Value>) -> (r: Handshake)
        ensures
            r.wf(),
            r@ == (HandshakeState {
                params: all_params(jsons(filters@)),
                confirmed: 0,
                subscriptions: Map::empty(),
                queued: Seq::empty(),
            }),
    {
        let mut params: Vec<Value> = Vec::new();
        let mut i: usize = 0;
        while i < filters.len()
            invariant
                i <= filters@.len(),
                params@.len() == i,
                forall|j: int|
                    0 <= j < i ==> json(#[trigger] params@[j]) == logs_params(json(filters@[j])),
            decreases filters@.len() - i,
        {
            let mut items: Vec<Value> = Vec::new();
            items.push(json::from_text("logs"));
            items.push(json::copy(&filters[i]));
            assert(jsons(items@) =~= seq![Json::Text("logs"@), json(filters@[i as int])]);
            params.push(json::from_items(items));
            i = i + 1;
        }
        let mut items: Vec<Value> = Vec::new();
        items.push(json::from_text("monadNewHeads"));
        assert(jsons(items@) =~= seq![Json::Text("monadNewHeads"@)]);
        params.push(json::from_items(items));
        let r = Handshake {
            params,
            confirmed: 0,
            subscriptions: Subscriptions::new(),
            queued: VecDeque::new(),
        };
        assert(jsons(r.params@) =~= all_params(jsons(filters@)));
        assert(jsons(r.queued@) =~= Seq::<Json>::empty());
        r
    }

    /// The text of the next request, until all are confirmed.
    pub fn request(&self) -> (r: Option<String>)
        requires
            self.wf(),
        ensures
            match (r, self@.request()) {
                (Some(text), Some(tree)) => {
                    &&& self@.confirmed < self@.params.len()
                    &&& text@ == text_of_json(tree)
                },
                (None, None) => self@.confirmed == self@.params.len(),
                _ => false,
            },
    {
        if self.confirmed >= self.params.len() {
            return None;
        }
        let id: u64 = self.confirmed as u64 + 1;
        let mut request = json::empty_object();
        json::set_member(&mut request, "jsonrpc", json::from_text("2.0"));
        json::set_member(&mut request, "id", json::from_unsigned(id));
        json::set_member(&mut request, "method", json::from_text("eth_subscribe"));
        json::set_member(&mut request, "params", json::copy(&self.params[self.confirmed]));
        Some(json::display(&request))
    }

    /// Takes a message while the next request is outstanding. Says whether it
    /// confirmed that request.
    pub fn on_message(&mut self, message: Value) -> (r: Result<bool, Error>)
        requires
            old(self).wf(),
            old(self)@.confirmed < old(self)@.params.len(),
        ensures
            final(self).wf(),
            (outcome(r), final(self)@) == old(self)@.on_message(json(message)),
    {
        if is_notification(&message) {
            self.queued.push_back(message);
            assert(jsons(self.queued@) =~= old(self)@.queued.push(json(message)));
            return Ok(false);
        }
        let count: usize = self.params.len();
        assert(self.confirmed < count);
        let expected: u64 = self.confirmed as u64 + 1;
        if json::as_unsigned(json::member(&message, "id")) != Some(expected) {
            return Err(Error::Rpc("unexpected subscription response".to_owned()));
        }
        if let Some(error) = json::get(&message, "error") {
            return Err(Error::Rpc(json::display(error)));
        }
        let id = match json::as_text(json::member(&message, "result")) {
            Some(id) => id,
            None => {
                return Err(Error::Rpc("missing subscription ID".to_owned()));
            },
        };
        let kind = if self.confirmed == HEADS_REQUEST {
            Subscription::Heads
        } else {
            Subscription::Logs
        };
        if !self.subscriptions.insert(id, kind) {
            return Err(Error::Rpc("duplicate subscription ID".to_owned()));
        }
        self.confirmed = self.confirmed + 1;
        Ok(true)
    }

    /// The subscriptions and the notifications that came before all were confirmed.
    pub fn finish(self) -> (r: (Subscriptions, VecDeque<Value>))
        requires
            self.wf(),
        ensures
            r.0.wf(),
            r.0@ == self@.subscriptions,
            jsons(r.1@) == self@.queued,
    {
        (self.subscriptions, self.queued)
    }
}

} // verus!

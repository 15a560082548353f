//! What the messages on the socket mean.
use crate::error::{Error, ErrorView};
use crate::json::{self, json, json_of_bytes, json_of_text, text_of_json, Json};
use crate::types::{BlockHeader, CommitState};
use serde_json::Error as JsonError;
use serde_json::Value;
use vstd::prelude::*;
use vstd::utf8::encode_utf8;

verus! {

/// What a subscription delivers.
#[derive(Clone, Copy, Debug, PartialEq, Eq, Structural)]
pub enum Subscription {
    Logs,
    Heads,
}

/// Whether two texts have the same characters.
pub(crate) fn same_text(left: &str, right: &str) -> (r: bool)
    ensures
        r == (left@ == right@),
{
    left.to_owned() == right.to_owned()
}

/// The subscriptions of a connection by the IDs that the server gave them, no ID
/// twice.
pub struct Subscriptions {
    entries: Vec<(String, Subscription)>,
}

spec fn has_id(entries: Seq<(String, Subscription)>, id: Seq<char>) -> bool {
    exists|i: int| 0 <= i < entries.len() && (#[trigger] entries[i]).0@ == id
}

spec fn kind_of(entries: Seq<(String, Subscription)>, id: Seq<char>) -> Subscription {
    entries[choose|i: int| 0 <= i < entries.len() && (#[trigger] entries[i]).0@ == id].1
}

impl View for Subscriptions {
    type V = Map<Seq<char>, Subscription>;

    closed spec fn view(&self) -> Map<Seq<char>, Subscription> {
        Map::new(
            |id: Seq<char>| has_id(self.entries@, id),
            |id: Seq<char>| kind_of(self.entries@, id),
        )
    }
}

impl Subscriptions {
    pub closed spec fn wf(self) -> bool {
        forall|i: int, j: int|
            0 <= i < j < self.entries@.len() ==> (#[trigger] self.entries@[i]).0@ != (
            #[trigger] self.entries@[j]).0@
    }

    proof fn lemma_entry(self, i: int)
        requires
            self.wf(),
            0 <= i < self.entries@.len(),
        ensures
            self@.contains_key(self.entries@[i].0@),
            self@[self.entries@[i].0@] == self.entries@[i].1,
    {
        let id = self.entries@[i].0@;
        assert(has_id(self.entries@, id));
        let k = choose|k: int| 0 <= k < self.entries@.len() && (#[trigger] self.entries@[k]).0@ == id;
        assert(k == i);
    }

    pub fn new() -> (r: Subscriptions)
        ensures
            r.wf(),
            r@ == Map::<Seq<char>, Subscription>::empty(),
    {
        let r = Subscriptions { entries: Vec::new() };
        assert(r@ =~= Map::<Seq<char>, Subscription>::empty());
        r
    }

    /// What the subscription with this ID delivers.
    pub fn get(&self, id: &str) -> (r: Option<Subscription>)
        requires
            self.wf(),
        ensures
            match r {
                Some(kind) => self@.contains_key(id@) && self@[id@] == kind,
                None => !self@.contains_key(id@),
            },
    {
        let mut i: usize = 0;
        while i < self.entries.len()
            invariant
                self.wf(),
                i <= self.entries@.len(),
                forall|j: int| 0 <= j < i ==> (#[trigger] self.entries@[j]).0@ != id@,
            decreases self.entries@.len() - i,
        {
            if same_text(self.entries[i].0.as_str(), id) {
                proof {
                    self.lemma_entry(i as int);
                }
                return Some(self.entries[i].1);
            }
            i = i + 1;
        }
        None
    }

    /// Adds a subscription. Says whether its ID was new; one that is known stays
    /// as it is.
    pub fn insert(&mut self, id: &str, kind: Subscription) -> (r: bool)
        requires
            old(self).wf(),
        ensures
            final(self).wf(),
            r == !old(self)@.contains_key(id@),
            final(self)@ == if r {
                old(self)@.insert(id@, kind)
            } else {
                old(self)@
            },
    {
        if self.get(id).is_some() {
            return false;
        }
        let ghost start = *self;
        self.entries.push((id.to_owned(), kind));
        proof {
            let n = start.entries@.len() as int;
            assert forall|i: int| 0 <= i < n implies (#[trigger] self.entries@[i])
                == start.entries@[i] && start.entries@[i].0@ != id@ by {
                start.lemma_entry(i);
            }
            assert(self.wf());
            let map = start@.insert(id@, kind);
            assert forall|key: Seq<char>| #[trigger] self@.contains_key(key) implies map.contains_key(
                key,
            ) && self@[key] == map[key] by {
                let k = choose|k: int|
                    0 <= k < self.entries@.len() && (#[trigger] self.entries@[k]).0@ == key;
                self.lemma_entry(k);
                if k < n {
                    start.lemma_entry(k);
                }
            }
            assert forall|key: Seq<char>| #[trigger] map.contains_key(key) implies self@.contains_key(
                key,
            ) by {
                if key == id@ {
                    self.lemma_entry(n);
                } else {
                    let k = choose|k: int|
                        0 <= k < start.entries@.len() && (#[trigger] start.entries@[k]).0@ == key;
                    assert(self.entries@[k] == start.entries@[k]);
                    self.lemma_entry(k);
                }
            }
            assert(self@ =~= map);
        }
        true
    }
}

/// What a pushed message delivers: the kind of its subscription and its payload,
/// or the error that it is answered with.
pub open spec fn notified(message: Json, subscriptions: Map<Seq<char>, Subscription>) -> Result<
    (Subscription, Json),
    ErrorView,
> {
    let params = message.member("params"@);
    match message.get("error"@) {
        Some(error) => Err(ErrorView::Rpc(text_of_json(error))),
        None => if message.member("method"@).text() != Some("eth_subscription"@) {
            Err(ErrorView::Rpc("unexpected WebSocket message"@))
        } else {
            match params.member("subscription"@).text() {
                None => Err(ErrorView::Rpc("missing subscription ID"@)),
                Some(id) => if subscriptions.contains_key(id) {
                    Ok((subscriptions[id], params.member("result"@)))
                } else {
                    Err(ErrorView::Rpc("unknown subscription"@))
                },
            }
        },
    }
}

/// Whether a message is a subscription notification, by its method.
pub(crate) fn is_notification(value: &Value) -> (r: bool)
    ensures
        r == (json(*value).member("method"@).text() == Some("eth_subscription"@)),
{
    match json::as_text(json::member(value, "method")) {
        Some(method) => same_text(method, "eth_subscription"),
        None => false,
    }
}

/// Whether a message is read as what it delivers.
pub open spec fn sorts(
    message: Json,
    subscriptions: Map<Seq<char>, Subscription>,
    r: Result<(Subscription, &Value), Error>,
) -> bool {
    match (r, notified(message, subscriptions)) {
        (Ok((kind, payload)), Ok((expected, tree))) => kind == expected && json(*payload) == tree,
        (Err(error), Err(expected)) => error@ == expected,
        _ => false,
    }
}

/// Reads a pushed message.
pub fn notification<'a>(value: &'a Value, subscriptions: &Subscriptions) -> (r: Result<
    (Subscription, &'a Value),
    Error,
>)
    requires
        subscriptions.wf(),
    ensures
        sorts(json(*value), subscriptions@, r),
{
    if let Some(error) = json::get(value, "error") {
        return Err(Error::Rpc(json::display(error)));
    }
    if !is_notification(value) {
        return Err(Error::Rpc("unexpected WebSocket message".to_owned()));
    }
    let params = json::member(value, "params");
    let id = match json::as_text(json::member(params, "subscription")) {
        Some(id) => id,
        None => {
            return Err(Error::Rpc("missing subscription ID".to_owned()));
        },
    };
    match subscriptions.get(id) {
        Some(kind) => Ok((kind, json::member(params, "result"))),
        None => Err(Error::Rpc("unknown subscription".to_owned())),
    }
}

/// The commitment stage that a header's payload names.
pub open spec fn commit_state(payload: Json) -> Option<CommitState> {
    match payload.member("commitState"@).text() {
        None => None,
        Some(stage) => if stage == "Proposed"@ {
            Some(CommitState::Proposed)
        } else if stage == "Voted"@ {
            Some(CommitState::Voted)
        } else if stage == "Finalized"@ {
            Some(CommitState::Finalized)
        } else if stage == "Verified"@ {
            Some(CommitState::Verified)
        } else {
            None
        },
    }
}

/// Whether a header's payload is read as the decoded header with its stage.
pub open spec fn reads_head(
    payload: Json,
    decoded: Result<BlockHeader, String>,
    r: Result<(BlockHeader, CommitState), Error>,
) -> bool {
    match decoded {
        Err(message) => r matches Err(e) && e@ == ErrorView::Rpc(message@),
        Ok(header) => match commit_state(payload) {
            None => r matches Err(e) && e@ == ErrorView::Rpc("expected Monad commitState"@),
            Some(stage) => r == Ok::<(BlockHeader, CommitState), Error>((header, stage)),
        },
    }
}

/// Reads a header's payload, given the header that was decoded from it or the
/// message of the decoding error.
pub fn parse_head(payload: &Value, decoded: Result<BlockHeader, String>) -> (r: Result<
    (BlockHeader, CommitState),
    Error,
>)
    ensures
        reads_head(json(*payload), decoded, r),
{
    let header = match decoded {
        Ok(header) => header,
        Err(message) => {
            return Err(Error::Rpc(message));
        },
    };
    if let Some(stage) = json::as_text(json::member(payload, "commitState")) {
        if same_text(stage, "Proposed") {
            return Ok((header, CommitState::Proposed));
        }
        if same_text(stage, "Voted") {
            return Ok((header, CommitState::Voted));
        }
        if same_text(stage, "Finalized") {
            return Ok((header, CommitState::Finalized));
        }
        if same_text(stage, "Verified") {
            return Ok((header, CommitState::Verified));
        }
    }
    Err(Error::Rpc("expected Monad commitState".to_owned()))
}

/// What came from the socket.
pub enum SocketEvent {
    Text(String),
    Binary(Vec<u8>),
    Ping(Vec<u8>),
    Pong,
    /// A close frame, or the end of the stream.
    Closed,
    /// The socket reported an error.
    Failed(String),
    /// Any other frame.
    Other,
}

/// What to do about it.
pub enum SocketAction {
    /// Hand this message on.
    Deliver(Value),
    /// Answer with a pong of these bytes and read on.
    Pong(Vec<u8>),
    /// Read on.
    Wait,
}

/// Whether a parsed message was delivered, or its parse error reported.
pub open spec fn delivers(r: Result<SocketAction, Error>, tree: Result<Json, Seq<char>>) -> bool {
    match tree {
        Ok(tree) => r matches Ok(SocketAction::Deliver(value)) && json(value) == tree,
        Err(message) => r matches Err(e) && e@ == ErrorView::Rpc(message),
    }
}

/// Hands on what was parsed, or reports the parse error.
pub fn deliver(result: Result<Value, JsonError>) -> (r: Result<SocketAction, Error>)
    ensures
        match result {
            Ok(value) => r == Ok::<SocketAction, Error>(SocketAction::Deliver(value)),
            Err(error) => r matches Err(e) && e@ == ErrorView::Rpc(json::message(error)),
        },
{
    match result {
        Ok(value) => Ok(SocketAction::Deliver(value)),
        Err(error) => Err(Error::Rpc(json::error_text(&error))),
    }
}

/// Whether an event of the socket is decided about as it should be.
pub open spec fn handles(event: SocketEvent, r: Result<SocketAction, Error>) -> bool {
    match event {
        SocketEvent::Text(text) => delivers(r, json_of_text(text@)),
        SocketEvent::Binary(bytes) => delivers(r, json_of_bytes(bytes@)),
        SocketEvent::Ping(data) => r matches Ok(SocketAction::Pong(reply)) && reply@ == data@,
        SocketEvent::Pong => r matches Ok(SocketAction::Wait),
        SocketEvent::Other => r matches Ok(SocketAction::Wait),
        SocketEvent::Closed => r matches Err(e) && e@ == ErrorView::Transport(
            "subscription closed; explicitly initialize a new client from complete state"@,
        ),
        SocketEvent::Failed(message) => r matches Err(e) && e@ == ErrorView::Transport(message@),
    }
}

/// A text frame and a binary frame of the same text's UTF-8 bytes are answered
/// alike: with the same message, or with the same error.
pub proof fn law_text_and_binary_frames_agree(
    text: Seq<char>,
    one: Result<SocketAction, Error>,
    two: Result<SocketAction, Error>,
)
    requires
        delivers(one, json_of_text(text)),
        delivers(two, json_of_bytes(encode_utf8(text))),
    ensures
        match (one, two) {
            (Ok(SocketAction::Deliver(left)), Ok(SocketAction::Deliver(right))) => json(left)
                == json(right),
            (Err(left), Err(right)) => left is Rpc && left@ == right@,
            _ => false,
        },
{
}

/// Decides about one event of the socket.
pub fn read_json(event: SocketEvent) -> (r: Result<SocketAction, Error>)
    ensures
        handles(event, r),
{
    match event {
        SocketEvent::Text(text) => deliver(json::parse_text(text.as_str())),
        SocketEvent::Binary(bytes) => deliver(json::parse_bytes(&bytes)),
        SocketEvent::Ping(data) => Ok(SocketAction::Pong(data)),
        SocketEvent::Pong => Ok(SocketAction::Wait),
        SocketEvent::Other => Ok(SocketAction::Wait),
        SocketEvent::Closed => Err(
            Error::Transport(
                "subscription closed; explicitly initialize a new client from complete state".to_owned(),
            ),
        ),
        SocketEvent::Failed(message) => Err(Error::Transport(message)),
    }
}

} // verus!

//! What messages mean, said of the members of JSON objects themselves.
use crate::error::{Error, ErrorView};
use crate::handshake::{all_params, HandshakeState};
use crate::json::{json, json_of_bytes, json_of_text, jsons, text_of_json, Json};
use crate::types::{BlockHeader, CommitState};
use crate::wire::{
    commit_state, handles, notified, reads_head, sorts, SocketAction, SocketEvent, Subscription,
};
use serde_json::Value;
use vstd::prelude::*;
use vstd::utf8::encode_utf8;

verus! {

proof fn lemma_keys_differ()
    ensures
        "error"@ != "method"@,
        "error"@ != "params"@,
        "error"@ != "id"@,
        "error"@ != "result"@,
        "method"@ != "params"@,
        "method"@ != "id"@,
        "method"@ != "result"@,
        "params"@ != "id"@,
        "id"@ != "result"@,
        "subscription"@ != "result"@,
        "jsonrpc"@ != "id"@,
        "jsonrpc"@ != "method"@,
        "jsonrpc"@ != "params"@,
{
    reveal_strlit("error");
    reveal_strlit("method");
    reveal_strlit("params");
    reveal_strlit("id");
    reveal_strlit("result");
    reveal_strlit("subscription");
    reveal_strlit("jsonrpc");
    assert("method"@[0] == 'm' && "params"@[0] == 'p' && "result"@[0] == 'r');
    assert("error"@.len() == 5 && "method"@.len() == 6 && "id"@.len() == 2);
    assert("subscription"@.len() == 12 && "jsonrpc"@.len() == 7);
}

/// An object has the members that it has and no other value has any; a missing
/// member reads as null; only a text has characters, and only an unsigned integer
/// has an unsigned value.
pub proof fn law_values_are_what_they_hold(tree: Json, key: Seq<char>)
    ensures
        match tree {
            Json::Object(members) => if members.contains_key(key) {
                tree.get(key) == Some(members[key]) && tree.member(key) == members[key]
            } else {
                tree.get(key) is None && tree.member(key) == Json::Null
            },
            _ => tree.get(key) is None && tree.member(key) == Json::Null,
        },
        tree.text() == match tree {
            Json::Text(text) => Some(text),
            _ => None,
        },
        tree.unsigned() == match tree {
            Json::Unsigned(number) => Some(number),
            _ => None,
        },
{
}

/// The trees of several values are the trees of each, in order.
pub proof fn law_trees_keep_their_places(values: Seq<Value>, i: int)
    requires
        0 <= i < values.len(),
    ensures
        jsons(values).len() == values.len(),
        jsons(values)[i] == json(values[i]),
{
}

/// Whether this object is a notification of the subscription with this ID, and
/// `params` its parameters.
pub open spec fn notifies(
    members: Map<Seq<char>, Json>,
    params: Map<Seq<char>, Json>,
    id: Seq<char>,
) -> bool {
    &&& !members.contains_key("error"@)
    &&& members.contains_key("method"@) && members["method"@] == Json::Text("eth_subscription"@)
    &&& members.contains_key("params"@) && members["params"@] == Json::Object(params)
    &&& params.contains_key("subscription"@) && params["subscription"@] == Json::Text(id)
}

/// A notification is of the kind that the table holds for its ID, whatever its
/// payload and its other members are, and delivers that payload unchanged. One of
/// an ID that the table does not hold is refused as unknown.
pub proof fn law_notifications_go_by_their_table(
    members: Map<Seq<char>, Json>,
    params: Map<Seq<char>, Json>,
    id: Seq<char>,
    subscriptions: Map<Seq<char>, Subscription>,
    r: Result<(Subscription, &Value), Error>,
)
    requires
        notifies(members, params, id),
        sorts(Json::Object(members), subscriptions, r),
    ensures
        subscriptions.contains_key(id) ==> (r matches Ok((kind, payload)) && kind
            == subscriptions[id] && json(*payload) == if params.contains_key("result"@) {
            params["result"@]
        } else {
            Json::Null
        }),
        !subscriptions.contains_key(id) ==> (r matches Err(e) && e@ == ErrorView::Rpc(
            "unknown subscription"@,
        )),
{
}

/// Every other message is refused: one with an error member for that error,
/// whatever else it holds; one that is no notification as unexpected; one without
/// an ID as missing it. So only notifications of known IDs are delivered.
pub proof fn law_other_messages_are_refused(
    message: Json,
    subscriptions: Map<Seq<char>, Subscription>,
    r: Result<(Subscription, &Value), Error>,
)
    requires
        sorts(message, subscriptions, r),
    ensures
        match message {
            Json::Object(members) => if members.contains_key("error"@) {
                r matches Err(e) && e@ == ErrorView::Rpc(text_of_json(members["error"@]))
            } else if !members.contains_key("method"@) || members["method"@] != Json::Text(
                "eth_subscription"@,
            ) {
                r matches Err(e) && e@ == ErrorView::Rpc("unexpected WebSocket message"@)
            } else if !(members.contains_key("params"@) && (
            members["params"@] matches Json::Object(params) && params.contains_key("subscription"@)
                && params["subscription"@] is Text)) {
                r matches Err(e) && e@ == ErrorView::Rpc("missing subscription ID"@)
            } else {
                r is Ok <==> subscriptions.contains_key(
                    members["params"@]->Object_0["subscription"@]->Text_0,
                )
            },
            _ => r matches Err(e) && e@ == ErrorView::Rpc("unexpected WebSocket message"@),
        },
{
}

/// Two messages that differ only in their payload are sorted alike.
pub proof fn law_payloads_do_not_sort(
    members: Map<Seq<char>, Json>,
    params: Map<Seq<char>, Json>,
    payload: Json,
    subscriptions: Map<Seq<char>, Subscription>,
)
    requires
        members.contains_key("params"@),
        members["params"@] == Json::Object(params),
    ensures
        ({
            let other = members.insert(
                "params"@,
                Json::Object(params.insert("result"@, payload)),
            );
            match (
                notified(Json::Object(members), subscriptions),
                notified(Json::Object(other), subscriptions),
            ) {
                (Ok((kind, _)), Ok((same, delivered))) => kind == same && delivered == payload,
                (Err(error), Err(same)) => error == same,
                _ => false,
            }
        }),
{
    lemma_keys_differ();
}

/// Members that a notification is not known by do not matter.
pub proof fn law_further_members_do_not_sort(
    members: Map<Seq<char>, Json>,
    params: Map<Seq<char>, Json>,
    key: Seq<char>,
    value: Json,
    subscriptions: Map<Seq<char>, Subscription>,
)
    ensures
        key != "error"@ && key != "method"@ && key != "params"@ ==> notified(
            Json::Object(members.insert(key, value)),
            subscriptions,
        ) == notified(Json::Object(members), subscriptions),
        key != "subscription"@ && key != "result"@ ==> notified(
            Json::Object(
                members.insert("params"@, Json::Object(params.insert(key, value))),
            ),
            subscriptions,
        ) == notified(
            Json::Object(members.insert("params"@, Json::Object(params))),
            subscriptions,
        ),
{
    lemma_keys_differ();
}

/// The text by which a payload names a stage.
pub open spec fn stage_name(stage: CommitState) -> Seq<char> {
    match stage {
        CommitState::Proposed => "Proposed"@,
        CommitState::Voted => "Voted"@,
        CommitState::Finalized => "Finalized"@,
        CommitState::Verified => "Verified"@,
    }
}

proof fn lemma_stage_names_differ()
    ensures
        "Proposed"@ != "Voted"@,
        "Proposed"@ != "Finalized"@,
        "Proposed"@ != "Verified"@,
        "Voted"@ != "Finalized"@,
        "Voted"@ != "Verified"@,
        "Finalized"@ != "Verified"@,
{
    reveal_strlit("Proposed");
    reveal_strlit("Voted");
    reveal_strlit("Finalized");
    reveal_strlit("Verified");
    assert("Proposed"@[0] == 'P' && "Verified"@[0] == 'V');
    assert("Voted"@.len() == 5 && "Finalized"@.len() == 9 && "Verified"@.len() == 8);
}

/// Every stage is read back from its name, whatever other members the payload has,
/// and the header is handed on with it.
pub proof fn law_stages_are_read_back_from_their_names(
    members: Map<Seq<char>, Json>,
    stage: CommitState,
    header: BlockHeader,
    r: Result<(BlockHeader, CommitState), Error>,
)
    requires
        members.contains_key("commitState"@),
        members["commitState"@] == Json::Text(stage_name(stage)),
    ensures
        commit_state(Json::Object(members)) == Some(stage),
        reads_head(Json::Object(members), Ok(header), r) ==> r == Ok::<
            (BlockHeader, CommitState),
            Error,
        >((header, stage)),
{
    lemma_stage_names_differ();
}

/// A payload that names no stage is refused, but for a header that could not be
/// decoded, which is reported first.
pub proof fn law_payloads_without_a_stage_are_refused(
    payload: Json,
    decoded: Result<BlockHeader, String>,
    r: Result<(BlockHeader, CommitState), Error>,
)
    requires
        reads_head(payload, decoded, r),
    ensures
        decoded matches Err(message) ==> (r matches Err(e) && e@ == ErrorView::Rpc(message@)),
        decoded is Ok && (forall|stage: CommitState|
            !(payload matches Json::Object(members) && members.contains_key("commitState"@)
                && members["commitState"@] == Json::Text(#[trigger] stage_name(stage))))
            ==> (r matches Err(e) && e@ == ErrorView::Rpc("expected Monad commitState"@)),
{
    lemma_stage_names_differ();
    assert(stage_name(CommitState::Proposed) == "Proposed"@);
    assert(stage_name(CommitState::Voted) == "Voted"@);
    assert(stage_name(CommitState::Finalized) == "Finalized"@);
    assert(stage_name(CommitState::Verified) == "Verified"@);
}

/// The stage depends on the stage member alone.
pub proof fn law_only_the_stage_member_counts(
    members: Map<Seq<char>, Json>,
    others: Map<Seq<char>, Json>,
)
    requires
        members.contains_key("commitState"@),
        others.contains_key("commitState"@),
        members["commitState"@] == others["commitState"@],
    ensures
        commit_state(Json::Object(members)) == commit_state(Json::Object(others)),
{
}

/// Data frames are parsed and handed on, or their parse error is reported; a ping
/// is answered with its own bytes; other frames are passed by; the end of the
/// stream and a failing socket are errors of the transport.
pub proof fn law_frames_are_handled_by_their_kind(event: SocketEvent, r: Result<SocketAction, Error>)
    requires
        handles(event, r),
    ensures
        match event {
            SocketEvent::Text(text) => match json_of_bytes(encode_utf8(text@)) {
                Ok(tree) => r matches Ok(SocketAction::Deliver(value)) && json(value) == tree,
                Err(message) => r matches Err(Error::Rpc(said)) && said@ == message,
            },
            SocketEvent::Binary(bytes) => match json_of_bytes(bytes@) {
                Ok(tree) => r matches Ok(SocketAction::Deliver(value)) && json(value) == tree,
                Err(message) => r matches Err(Error::Rpc(said)) && said@ == message,
            },
            SocketEvent::Ping(data) => r matches Ok(SocketAction::Pong(reply)) && reply@ == data@,
            SocketEvent::Pong | SocketEvent::Other => r matches Ok(SocketAction::Wait),
            SocketEvent::Closed => r matches Err(Error::Transport(said)) && said@
                == "subscription closed; explicitly initialize a new client from complete state"@,
            SocketEvent::Failed(message) => r matches Err(Error::Transport(said)) && said@
                == message@,
        },
        event matches SocketEvent::Text(text) ==> json_of_text(text@) == json_of_bytes(
            encode_utf8(text@),
        ),
{
}

/// Each filter is requested as an array of exactly two items, the text `logs` and
/// the filter itself, in the order of the filters; after them the head stream is
/// requested as an array of its name alone. So the filters can be read back from
/// the requests.
pub proof fn law_filters_are_requested_as_they_are(filters: Seq<Json>)
    ensures
        all_params(filters).len() == filters.len() + 1,
        forall|i: int|
            0 <= i < filters.len() ==> (#[trigger] all_params(filters)[i] matches Json::Array(items)
                && items.len() == 2 && items[0] == Json::Text("logs"@) && items[1] == filters[i]),
        all_params(filters)[filters.len() as int] matches Json::Array(items) && items.len() == 1
            && items[0] == Json::Text("monadNewHeads"@),
{
}

/// Two lists of filters with the same requests are the same.
pub proof fn law_requests_tell_the_filters_apart(a: Seq<Json>, b: Seq<Json>)
    requires
        all_params(a) == all_params(b),
    ensures
        a == b,
{
    law_filters_are_requested_as_they_are(a);
    law_filters_are_requested_as_they_are(b);
    assert forall|i: int| 0 <= i < a.len() implies a[i] == b[i] by {
        assert(all_params(a)[i]->Array_0[1] == a[i]);
        assert(all_params(b)[i]->Array_0[1] == b[i]);
    }
    assert(a =~= b);
}

/// While requests are left, the next one is an object of exactly four members: the
/// protocol's version, the number of the request counted from one, the method, and
/// the parameters of the first request that is not confirmed.
pub proof fn law_requests_hold_four_members(state: HandshakeState)
    requires
        state.confirmed < u64::MAX,
    ensures
        state.request() is Some <==> state.confirmed < state.params.len(),
        state.request() matches Some(request) ==> (request matches Json::Object(members) && {
            &&& forall|key: Seq<char>| #[trigger]
                members.contains_key(key) <==> key == "jsonrpc"@ || key == "id"@ || key
                    == "method"@ || key == "params"@
            &&& members["jsonrpc"@] == Json::Text("2.0"@)
            &&& members["id"@] matches Json::Unsigned(id) && id == state.confirmed + 1
            &&& members["method"@] == Json::Text("eth_subscribe"@)
            &&& members["params"@] == state.params[state.confirmed as int]
        }),
{
    lemma_keys_differ();
}

/// What a message does to a handshake, by its members. A notification is queued
/// behind the others and changes nothing else. A confirmation is the answer to the
/// outstanding request, without an error and with an ID that is new; the ID is
/// entered, as that of the head stream for the request after four filters and as
/// one of logs otherwise. Any other message is refused and changes nothing.
pub proof fn law_handshakes_take_what_they_wait_for(
    state: HandshakeState,
    members: Map<Seq<char>, Json>,
)
    requires
        state.confirmed < u64::MAX,
    ensures
        ({
            let message = Json::Object(members);
            let (answer, next) = state.on_message(message);
            let outstanding = members.contains_key("id"@) && members["id"@] == Json::Unsigned(
                (state.confirmed + 1) as u64,
            );
            if members.contains_key("method"@) && members["method"@] == Json::Text(
                "eth_subscription"@,
            ) {
                &&& answer == Ok::<bool, ErrorView>(false)
                &&& next.queued == state.queued.push(message)
                &&& next.confirmed == state.confirmed
                &&& next.subscriptions == state.subscriptions
                &&& next.params == state.params
            } else if !outstanding {
                &&& answer == Err::<bool, ErrorView>(
                    ErrorView::Rpc("unexpected subscription response"@),
                )
                &&& next == state
            } else if members.contains_key("error"@) {
                &&& answer == Err::<bool, ErrorView>(
                    ErrorView::Rpc(text_of_json(members["error"@])),
                )
                &&& next == state
            } else if !(members.contains_key("result"@) && members["result"@] is Text) {
                &&& answer == Err::<bool, ErrorView>(ErrorView::Rpc("missing subscription ID"@))
                &&& next == state
            } else if state.subscriptions.contains_key(members["result"@]->Text_0) {
                &&& answer == Err::<bool, ErrorView>(ErrorView::Rpc("duplicate subscription ID"@))
                &&& next == state
            } else {
                &&& answer == Ok::<bool, ErrorView>(true)
                &&& next.confirmed == state.confirmed + 1
                &&& next.subscriptions == state.subscriptions.insert(
                    members["result"@]->Text_0,
                    if state.confirmed == 4 {
                        Subscription::Heads
                    } else {
                        Subscription::Logs
                    },
                )
                &&& next.queued == state.queued
                &&& next.params == state.params
            }
        }),
{
}

/// A message that is no object is never what a handshake waits for.
pub proof fn law_handshakes_refuse_what_is_no_object(state: HandshakeState, message: Json)
    requires
        !(message is Object),
    ensures
        state.on_message(message) == (
            Err::<bool, ErrorView>(ErrorView::Rpc("unexpected subscription response"@)),
            state,
        ),
{
}

} // verus!

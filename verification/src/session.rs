//! What holds of a client from its first request on: the order of the requests,
//! the way of the notifications from the socket to the reducer, and what a call
//! for the next update gives.
use crate::client::{steps, ActionView, ClientState, Event};
use crate::error::{Error, ErrorView};
use crate::handshake::{all_params, subscribe_request, HandshakeState};
use crate::json::{json, Json};
use crate::pending::Frame;
use crate::replay::{
    computes, law_answers_follow_the_replay, law_updates_are_the_moves, stamps,
};
use crate::seed::{noted, seeds, SearchState, SeedActionView};
use crate::stream::Note;
use crate::synchronizer::{answers, SyncState};
use crate::types::{
    BlockHeader, BlockView, CommitState, HeaderView, LogView, PoolModel, RpcLog, Update,
    UpdateView, B256,
};
use crate::wire::{commit_state, notified, Subscription};
use vstd::prelude::*;

verus! {

/// Whether a message is a subscription notification.
pub open spec fn is_pushed(message: Json) -> bool {
    message.member("method"@).text() == Some("eth_subscription"@)
}

/// Whether a message confirms the request with this ID.
pub open spec fn confirms(message: Json, id: u64) -> bool {
    &&& !is_pushed(message)
    &&& message.member("id"@).unsigned() == Some(id)
    &&& message.get("error"@) is None
    &&& message.member("result"@).text() is Some
}

/// A handshake under way: its state, the requests that were sent, and the error
/// that ended it, if one did.
pub struct Subscribing {
    pub state: HandshakeState,
    pub sent: Seq<Json>,
    pub error: Option<ErrorView>,
}

/// The request that follows the confirmed ones, as a sequence: empty when all are
/// confirmed.
pub open spec fn next_request(state: HandshakeState) -> Seq<Json> {
    if state.confirmed < state.params.len() {
        seq![
            subscribe_request(
                (state.confirmed + 1) as u64,
                state.params[state.confirmed as int],
            ),
        ]
    } else {
        Seq::empty()
    }
}

/// The state of a handshake that was just prepared.
pub open spec fn prepared(filters: Seq<Json>) -> HandshakeState {
    HandshakeState {
        params: all_params(filters),
        confirmed: 0,
        subscriptions: Map::empty(),
        queued: Seq::empty(),
    }
}

/// A handshake after these messages. A request is sent at the start and whenever
/// one is confirmed; messages after an error or after the last confirmation are
/// not taken.
pub open spec fn subscribing(filters: Seq<Json>, messages: Seq<Json>) -> Subscribing
    decreases messages.len(),
{
    if messages.len() == 0 {
        Subscribing {
            state: prepared(filters),
            sent: next_request(prepared(filters)),
            error: None,
        }
    } else {
        let prior = subscribing(filters, messages.drop_last());
        if prior.error is Some || prior.state.confirmed >= prior.state.params.len() {
            prior
        } else {
            let (answer, next) = prior.state.on_message(messages.last());
            match answer {
                Err(error) => Subscribing { state: next, error: Some(error), ..prior },
                Ok(false) => Subscribing { state: next, ..prior },
                Ok(true) => Subscribing {
                    state: next,
                    sent: prior.sent + next_request(next),
                    error: None,
                },
            }
        }
    }
}

/// Requests go out one by one, in the order of their parameters: those that were
/// sent are the confirmed ones and at most one more, every confirmed one was
/// confirmed by a message, and after an error no more is sent. So the head stream
/// is requested only when all log filters are confirmed.
pub proof fn law_requests_wait_for_their_turn(filters: Seq<Json>, messages: Seq<Json>)
    ensures
        ({
            let run = subscribing(filters, messages);
            let params = all_params(filters);
            &&& run.state.params == params
            &&& run.state.confirmed <= params.len()
            &&& run.sent.len() == if run.state.confirmed < params.len() {
                run.state.confirmed + 1
            } else {
                params.len()
            }
            &&& forall|i: int|
                0 <= i < run.sent.len() ==> #[trigger] run.sent[i] == subscribe_request(
                    (i + 1) as u64,
                    params[i],
                )
            &&& forall|i: int|
                0 <= i < run.state.confirmed ==> #[trigger] has_confirmation(
                    messages,
                    (i + 1) as u64,
                )
        }),
        messages.len() > 0 && subscribing(filters, messages.drop_last()).error is Some
            ==> subscribing(filters, messages) == subscribing(filters, messages.drop_last()),
        subscribing(filters, messages).sent.len() == filters.len() + 1 ==> forall|i: int|
            0 <= i < filters.len() ==> #[trigger] has_confirmation(messages, (i + 1) as u64),
    decreases messages.len(),
{
    let run = subscribing(filters, messages);
    if messages.len() > 0 {
        let shorter = messages.drop_last();
        law_requests_wait_for_their_turn(filters, shorter);
        let prior = subscribing(filters, shorter);
        assert forall|i: int|
            0 <= i < run.state.confirmed implies #[trigger] has_confirmation(
            messages,
            (i + 1) as u64,
        ) by {
            if i < prior.state.confirmed {
                assert(has_confirmation(shorter, (i + 1) as u64));
                let k = choose|k: int|
                    0 <= k < shorter.len() && confirms(#[trigger] shorter[k], (i + 1) as u64);
                assert(messages[k] == shorter[k]);
            } else {
                assert(confirms(messages[messages.len() - 1], (i + 1) as u64));
            }
        }
    }
}

/// Whether one of the messages confirms the request with this ID.
pub open spec fn has_confirmation(messages: Seq<Json>, id: u64) -> bool {
    exists|k: int| 0 <= k < messages.len() && confirms(#[trigger] messages[k], id)
}

/// Whether a request was outstanding before each of these messages, so that the
/// handshake took them all.
pub open spec fn awaited(filters: Seq<Json>, messages: Seq<Json>) -> bool
    decreases messages.len(),
{
    messages.len() > 0 ==> {
        let prior = subscribing(filters, messages.drop_last());
        &&& awaited(filters, messages.drop_last())
        &&& prior.error is None
        &&& prior.state.confirmed < prior.state.params.len()
    }
}

/// The notifications among the messages, in order.
pub open spec fn pushed_among(messages: Seq<Json>) -> Seq<Json>
    decreases messages.len(),
{
    if messages.len() == 0 {
        Seq::empty()
    } else if is_pushed(messages.last()) {
        pushed_among(messages.drop_last()).push(messages.last())
    } else {
        pushed_among(messages.drop_last())
    }
}

proof fn lemma_handshake_queue(filters: Seq<Json>, messages: Seq<Json>)
    requires
        awaited(filters, messages),
    ensures
        subscribing(filters, messages).state.queued == pushed_among(messages),
    decreases messages.len(),
{
    if messages.len() > 0 {
        lemma_handshake_queue(filters, messages.drop_last());
    }
}

/// What the payloads of logs and headers decode to, or the decoding errors'
/// messages.
#[verifier::ext_equal]
pub struct Decoders {
    pub log: spec_fn(Json) -> Result<LogView, Seq<char>>,
    pub head: spec_fn(Json) -> Result<HeaderView, Seq<char>>,
}

impl Decoders {
    /// The notification that a log's payload stands for.
    pub open spec fn log_note(self, payload: Json) -> Result<Note, ErrorView> {
        match (self.log)(payload) {
            Ok(log) => Ok(Note::Log(log)),
            Err(message) => Err(ErrorView::Rpc(message)),
        }
    }

    /// The notification that a header's payload stands for.
    pub open spec fn head_note(self, payload: Json) -> Result<Note, ErrorView> {
        match (self.head)(payload) {
            Err(message) => Err(ErrorView::Rpc(message)),
            Ok(header) => match commit_state(payload) {
                Some(stage) => Ok(Note::Head(header, stage)),
                None => Err(ErrorView::Rpc("expected Monad commitState"@)),
            },
        }
    }

    /// The notification that a message stands for.
    pub open spec fn note(
        self,
        message: Json,
        subscriptions: Map<Seq<char>, Subscription>,
    ) -> Result<Note, ErrorView> {
        match notified(message, subscriptions) {
            Ok((Subscription::Logs, payload)) => self.log_note(payload),
            Ok((Subscription::Heads, payload)) => self.head_note(payload),
            Err(error) => Err(error),
        }
    }
}

/// What came of a search for the seed: the header it found or the error it met, if
/// the messages sufficed for either, the search after it, and the messages that it
/// did not read.
pub struct Sought {
    pub result: Option<Result<HeaderView, ErrorView>>,
    pub state: SearchState,
    pub unread: Seq<Result<Json, ErrorView>>,
}

/// Scanning moves the cursor and nothing else: past a header that it stops at, or
/// to the end of the queue.
pub proof fn law_scanning_only_moves_the_cursor(s: SearchState)
    ensures
        s.scan().1 == (SearchState { cursor: s.scan().1.cursor, ..s }),
        s.scan().0 is Ok && s.scan().0->Ok_0 is DecodeHead ==> s.cursor < s.scan().1.cursor
            <= s.queued.len(),
        s.cursor <= s.queued.len() && s.scan().0 is Ok && s.scan().0->Ok_0 is Read
            ==> s.scan().1.cursor == s.queued.len(),
    decreases s.queued.len() - s.cursor,
{
    if s.cursor < s.queued.len() {
        law_scanning_only_moves_the_cursor(SearchState { cursor: s.cursor + 1, ..s });
    }
}

/// Searches for the seed: looks through what is queued, reads a message whenever
/// nothing is left to look at, and ends with the first header that can seed the
/// model or with the first error.
pub open spec fn seeking(
    s: SearchState,
    incoming: Seq<Result<Json, ErrorView>>,
    decoders: Decoders,
) -> Sought
    decreases incoming.len(), s.queued.len() - s.cursor,
{
    proof {
        law_scanning_only_moves_the_cursor(s);
    }
    let (asked, next) = s.scan();
    match asked {
        Err(error) => Sought { result: Some(Err(error)), state: next, unread: incoming },
        Ok(SeedActionView::Read) => if incoming.len() == 0 {
            Sought { result: None, state: next, unread: incoming }
        } else {
            match incoming[0] {
                Err(error) => Sought {
                    result: Some(Err(error)),
                    state: next,
                    unread: incoming.drop_first(),
                },
                Ok(message) => seeking(next.queue(message), incoming.drop_first(), decoders),
            }
        },
        Ok(SeedActionView::DecodeHead(payload)) => {
            let (found, after) = next.look(payload, (decoders.head)(payload));
            match found {
                Err(error) => Sought { result: Some(Err(error)), state: after, unread: incoming },
                Ok(Some(header)) => Sought {
                    result: Some(Ok(header)),
                    state: after,
                    unread: incoming,
                },
                Ok(None) => seeking(after, incoming, decoders),
            }
        },
    }
}

/// The header that a message brings and its stage, nothing for a log, or the error
/// that the message is.
pub open spec fn glance(
    message: Result<Json, ErrorView>,
    subscriptions: Map<Seq<char>, Subscription>,
    decoders: Decoders,
) -> Result<Option<(HeaderView, CommitState)>, ErrorView> {
    match message {
        Err(error) => Err(error),
        Ok(message) => match notified(message, subscriptions) {
            Err(error) => Err(error),
            Ok((Subscription::Logs, _)) => Ok(None),
            Ok((Subscription::Heads, payload)) => match decoders.head_note(payload) {
                Ok(Note::Head(header, stage)) => Ok(Some((header, stage))),
                Ok(Note::Log(_)) => Ok(None),
                Err(error) => Err(error),
            },
        },
    }
}

/// Whether a message proposes the block with this hash.
pub open spec fn proposes(
    message: Result<Json, ErrorView>,
    subscriptions: Map<Seq<char>, Subscription>,
    decoders: Decoders,
    hash: B256,
) -> bool {
    glance(message, subscriptions, decoders) matches Ok(Some((header, stage))) && stage
        == CommitState::Proposed && header.hash == hash
}

/// Whether the message at this index ends the search: it is an error, or it
/// finalizes a block that an earlier message proposed.
pub open spec fn ends_search(
    messages: Seq<Result<Json, ErrorView>>,
    subscriptions: Map<Seq<char>, Subscription>,
    decoders: Decoders,
    k: int,
) -> bool {
    match glance(messages[k], subscriptions, decoders) {
        Err(_) => true,
        Ok(None) => false,
        Ok(Some((header, stage))) => stage == CommitState::Finalized && exists|j: int|
            0 <= j < k && proposes(#[trigger] messages[j], subscriptions, decoders, header.hash),
    }
}

/// The search as a walk over the messages, with the proposals seen so far.
spec fn seek(
    proposed: Set<B256>,
    messages: Seq<Result<Json, ErrorView>>,
    subscriptions: Map<Seq<char>, Subscription>,
    decoders: Decoders,
) -> Option<Result<HeaderView, ErrorView>>
    decreases messages.len(),
{
    if messages.len() == 0 {
        None
    } else {
        let rest = messages.drop_first();
        match glance(messages[0], subscriptions, decoders) {
            Err(error) => Some(Err(error)),
            Ok(None) => seek(proposed, rest, subscriptions, decoders),
            Ok(Some((header, stage))) => if seeds(proposed, header.hash, stage) {
                Some(Ok(header))
            } else {
                seek(noted(proposed, header.hash, stage), rest, subscriptions, decoders)
            },
        }
    }
}

/// What the search has not looked at yet.
spec fn ahead(s: SearchState, incoming: Seq<Result<Json, ErrorView>>) -> Seq<
    Result<Json, ErrorView>,
> {
    all_read(s.queued.skip(s.cursor as int)) + incoming
}

proof fn lemma_ahead(s: SearchState, incoming: Seq<Result<Json, ErrorView>>)
    requires
        s.cursor < s.queued.len(),
    ensures
        ahead(s, incoming).len() > 0,
        ahead(s, incoming)[0] == Ok::<Json, ErrorView>(s.queued[s.cursor as int]),
        ahead(s, incoming).drop_first() == ahead(
            SearchState { cursor: s.cursor + 1, ..s },
            incoming,
        ),
{
    let next = SearchState { cursor: s.cursor + 1, ..s };
    assert(ahead(s, incoming).drop_first() =~= ahead(next, incoming));
}

/// Scanning is walking over the logs.
proof fn lemma_scan_walks(
    s: SearchState,
    incoming: Seq<Result<Json, ErrorView>>,
    decoders: Decoders,
)
    requires
        s.cursor <= s.queued.len(),
    ensures
        ({
            let (asked, next) = s.scan();
            let outcome = seek(s.proposed, ahead(s, incoming), s.subscriptions, decoders);
            match asked {
                Err(error) => outcome == Some(Err::<HeaderView, ErrorView>(error)),
                Ok(SeedActionView::Read) => outcome == seek(
                    s.proposed,
                    incoming,
                    s.subscriptions,
                    decoders,
                ),
                Ok(SeedActionView::DecodeHead(payload)) => match decoders.head_note(payload) {
                    Ok(Note::Head(header, stage)) => outcome == if seeds(
                        s.proposed,
                        header.hash,
                        stage,
                    ) {
                        Some(Ok::<HeaderView, ErrorView>(header))
                    } else {
                        seek(
                            noted(s.proposed, header.hash, stage),
                            ahead(next, incoming),
                            s.subscriptions,
                            decoders,
                        )
                    },
                    Ok(Note::Log(_)) => false,
                    Err(error) => outcome == Some(Err::<HeaderView, ErrorView>(error)),
                },
            }
        }),
    decreases s.queued.len() - s.cursor,
{
    if s.cursor < s.queued.len() {
        lemma_ahead(s, incoming);
        lemma_scan_walks(SearchState { cursor: s.cursor + 1, ..s }, incoming, decoders);
    } else {
        assert(ahead(s, incoming) =~= incoming);
    }
}

proof fn lemma_seeking_walks(
    s: SearchState,
    incoming: Seq<Result<Json, ErrorView>>,
    decoders: Decoders,
)
    requires
        s.cursor <= s.queued.len(),
    ensures
        ({
            let run = seeking(s, incoming, decoders);
            &&& run.result == seek(s.proposed, ahead(s, incoming), s.subscriptions, decoders)
            &&& run.result matches Some(Ok(_)) ==> all_read(run.state.queued) + run.unread
                == all_read(s.queued) + incoming
        }),
    decreases incoming.len(), s.queued.len() - s.cursor,
{
    law_scanning_only_moves_the_cursor(s);
    lemma_scan_walks(s, incoming, decoders);
    let (asked, next) = s.scan();
    match asked {
        Err(_) => {},
        Ok(SeedActionView::Read) => {
            if incoming.len() > 0 {
                if let Ok(message) = incoming[0] {
                    let more = next.queue(message);
                    let rest = incoming.drop_first();
                    lemma_seeking_walks(more, rest, decoders);
                    assert(ahead(more, rest) =~= incoming);
                    assert(all_read(more.queued) + rest =~= all_read(s.queued) + incoming);
                }
            }
        },
        Ok(SeedActionView::DecodeHead(payload)) => {
            let (found, after) = next.look(payload, (decoders.head)(payload));
            if let Ok(None) = found {
                lemma_seeking_walks(after, incoming, decoders);
            }
        },
    }
}

proof fn lemma_seek_from(
    messages: Seq<Result<Json, ErrorView>>,
    subscriptions: Map<Seq<char>, Subscription>,
    decoders: Decoders,
    proposed: Set<B256>,
    i: int,
)
    requires
        0 <= i <= messages.len(),
        forall|hash: B256| #[trigger]
            proposed.contains(hash) <==> exists|j: int|
                0 <= j < i && proposes(#[trigger] messages[j], subscriptions, decoders, hash),
    ensures
        match seek(proposed, messages.skip(i), subscriptions, decoders) {
            None => forall|k: int|
                i <= k < messages.len() ==> !#[trigger] ends_search(
                    messages,
                    subscriptions,
                    decoders,
                    k,
                ),
            Some(result) => exists|k: int|
                i <= k < messages.len() && #[trigger] ends_with(
                    messages,
                    subscriptions,
                    decoders,
                    k,
                    result,
                ) && forall|j: int|
                    i <= j < k ==> !#[trigger] ends_search(messages, subscriptions, decoders, j),
        },
    decreases messages.len() - i,
{
    if i < messages.len() {
        let rest = messages.skip(i);
        assert(rest[0] == messages[i]);
        assert(rest.drop_first() =~= messages.skip(i + 1));
        let glanced = glance(messages[i], subscriptions, decoders);
        let next = match glanced {
            Ok(Some((header, stage))) => noted(proposed, header.hash, stage),
            _ => proposed,
        };
        if ends_search(messages, subscriptions, decoders, i) {
            let result = seek(proposed, rest, subscriptions, decoders)->Some_0;
            assert(ends_with(messages, subscriptions, decoders, i, result));
        } else {
            assert forall|hash: B256| #[trigger]
                next.contains(hash) <==> exists|j: int|
                    0 <= j < i + 1 && proposes(
                        #[trigger] messages[j],
                        subscriptions,
                        decoders,
                        hash,
                    ) by {
                if proposed.contains(hash) {
                    let j = choose|j: int|
                        0 <= j < i && proposes(
                            #[trigger] messages[j],
                            subscriptions,
                            decoders,
                            hash,
                        );
                    assert(0 <= j < i + 1);
                }
                assert(proposes(messages[i], subscriptions, decoders, hash) ==> next.contains(
                    hash,
                ));
            }
            lemma_seek_from(messages, subscriptions, decoders, next, i + 1);
            if let Some(result) = seek(next, messages.skip(i + 1), subscriptions, decoders) {
                let k = choose|k: int|
                    i + 1 <= k < messages.len() && #[trigger] ends_with(
                        messages,
                        subscriptions,
                        decoders,
                        k,
                        result,
                    ) && forall|j: int|
                        i + 1 <= j < k ==> !#[trigger] ends_search(
                            messages,
                            subscriptions,
                            decoders,
                            j,
                        );
                assert(ends_with(messages, subscriptions, decoders, k, result));
            }
        }
    }
}

/// Whether the message at this index ends the search with this result: its error,
/// or the header that it brings.
pub open spec fn ends_with(
    messages: Seq<Result<Json, ErrorView>>,
    subscriptions: Map<Seq<char>, Subscription>,
    decoders: Decoders,
    k: int,
    result: Result<HeaderView, ErrorView>,
) -> bool {
    &&& ends_search(messages, subscriptions, decoders, k)
    &&& match glance(messages[k], subscriptions, decoders) {
        Err(error) => result == Err::<HeaderView, ErrorView>(error),
        Ok(Some((header, _))) => result == Ok::<HeaderView, ErrorView>(header),
        Ok(None) => false,
    }
}

/// A fresh search over the queued messages and then those that are read finds the
/// first finalized header whose own proposal came before it, logs and all other
/// headers passed by in the order in which they came, or ends with the first error
/// before that. Where it ends with neither, no message is one.
pub proof fn law_search_finds_the_first_proposed_finalization(
    s: SearchState,
    incoming: Seq<Result<Json, ErrorView>>,
    decoders: Decoders,
)
    requires
        s.proposed == Set::<B256>::empty(),
        s.cursor == 0,
    ensures
        ({
            let messages = all_read(s.queued) + incoming;
            match seeking(s, incoming, decoders).result {
                None => forall|k: int|
                    0 <= k < messages.len() ==> !#[trigger] ends_search(
                        messages,
                        s.subscriptions,
                        decoders,
                        k,
                    ),
                Some(result) => exists|k: int|
                    0 <= k < messages.len() && #[trigger] ends_with(
                        messages,
                        s.subscriptions,
                        decoders,
                        k,
                        result,
                    ) && forall|j: int|
                        0 <= j < k ==> !#[trigger] ends_search(
                            messages,
                            s.subscriptions,
                            decoders,
                            j,
                        ),
            }
        }),
{
    let messages = all_read(s.queued) + incoming;
    lemma_seeking_walks(s, incoming, decoders);
    assert(ahead(s, incoming) =~= messages);
    assert(messages.skip(0) =~= messages);
    lemma_seek_from(messages, s.subscriptions, decoders, s.proposed, 0);
}

/// No notification is lost, repeated or reordered on the way to the client: what
/// it starts with, followed by what is still to be read, is every notification
/// that came during the handshake followed by every message after it, in the order
/// in which they came.
pub proof fn law_startup_keeps_every_notification<M>(
    filters: Seq<Json>,
    messages: Seq<Json>,
    search: SearchState,
    incoming: Seq<Result<Json, ErrorView>>,
    decoders: Decoders,
    client: ClientState<M>,
)
    requires
        awaited(filters, messages),
        search.queued == subscribing(filters, messages).state.queued,
        search.cursor == 0,
        seeking(search, incoming, decoders).result matches Some(Ok(_)),
        client.queued == seeking(search, incoming, decoders).state.queued,
    ensures
        all_read(client.queued) + seeking(search, incoming, decoders).unread == all_read(
            pushed_among(messages),
        ) + incoming,
{
    lemma_handshake_queue(filters, messages);
    lemma_seeking_walks(search, incoming, decoders);
}

/// What came of a call for the next update: its result, if the messages sufficed
/// for one, the reducer after it, and the messages that it did not look at.
#[verifier::reject_recursive_types(M)]
pub struct Outcome<M> {
    pub result: Option<Result<UpdateView, ErrorView>>,
    pub sync: SyncState<M>,
    pub unread: Seq<Result<Json, ErrorView>>,
}

/// The reducer's answer to a notification, or its failure over one that could not
/// be made out.
pub open spec fn takes<M>(
    sync: SyncState<M>,
    note: Result<Note, ErrorView>,
    replay: spec_fn(M, Seq<Frame>) -> Result<PoolModel<M>, ErrorView>,
) -> (Result<Option<UpdateView>, ErrorView>, SyncState<M>) {
    match note {
        Ok(note) => sync.on_note(note, replay),
        Err(error) => (Err(error), sync.fail()),
    }
}

/// Feeds messages to the reducer in order, until one of them gives an update or an
/// error. A message that could not be read is its error.
pub open spec fn feed<M>(
    sync: SyncState<M>,
    subscriptions: Map<Seq<char>, Subscription>,
    messages: Seq<Result<Json, ErrorView>>,
    decoders: Decoders,
    replay: spec_fn(M, Seq<Frame>) -> Result<PoolModel<M>, ErrorView>,
) -> Outcome<M>
    decreases messages.len(),
{
    if messages.len() == 0 {
        Outcome { result: None, sync, unread: messages }
    } else {
        let unread = messages.drop_first();
        let note = match messages[0] {
            Ok(message) => decoders.note(message, subscriptions),
            Err(error) => Err(error),
        };
        let (answer, next) = takes(sync, note, replay);
        match answer {
            Ok(Some(update)) => Outcome { result: Some(Ok(update)), sync: next, unread },
            Ok(None) => feed(next, subscriptions, unread, decoders, replay),
            Err(error) => Outcome { result: Some(Err(error)), sync: next, unread },
        }
    }
}

/// Goes on from the reducer's answer to a notification.
spec fn goes_on<M>(
    answered: (Result<Option<UpdateView>, ErrorView>, SyncState<M>),
    subscriptions: Map<Seq<char>, Subscription>,
    messages: Seq<Result<Json, ErrorView>>,
    decoders: Decoders,
    replay: spec_fn(M, Seq<Frame>) -> Result<PoolModel<M>, ErrorView>,
) -> Outcome<M> {
    match answered.0 {
        Ok(Some(update)) => Outcome {
            result: Some(Ok(update)),
            sync: answered.1,
            unread: messages,
        },
        Ok(None) => feed(answered.1, subscriptions, messages, decoders, replay),
        Err(error) => Outcome { result: Some(Err(error)), sync: answered.1, unread: messages },
    }
}

/// Messages that were all read.
pub open spec fn all_read(messages: Seq<Json>) -> Seq<Result<Json, ErrorView>> {
    messages.map_values(|message: Json| Ok::<Json, ErrorView>(message))
}

/// One event of a call for the next update, the action that it led to and the
/// client after it.
#[verifier::reject_recursive_types(M)]
pub struct Move<M> {
    pub event: Event,
    pub action: ActionView,
    pub state: ClientState<M>,
}

/// Whether an event is what the client waits for: after a read, whatever came;
/// after a payload, what it decodes to.
pub open spec fn obeys(action: ActionView, event: Event, decoders: Decoders) -> bool {
    match action {
        ActionView::Read => event is Message,
        ActionView::DecodeLog(payload) => event matches Event::Log(decoded) && (
        decoders.log)(payload) == match decoded {
            Ok(log) => Ok::<LogView, Seq<char>>(log@),
            Err(message) => Err(message@),
        },
        ActionView::DecodeHead(payload) => event matches Event::Head(value, decoded) && json(value)
            == payload && (decoders.head)(payload) == match decoded {
            Ok(header) => Ok::<HeaderView, Seq<char>>(header@),
            Err(message) => Err(message@),
        },
        ActionView::Return(_) => false,
    }
}

/// Whether these are the moves of one call for the next update, from its begin.
pub open spec fn calls<
    M,
    S,
    F: Fn(&M) -> S,
    G: Fn(S, &BlockHeader, &Vec<RpcLog>) -> Result<S, Error>,
    H: Fn(S) -> Result<PoolModel<M>, Error>,
>(
    start: ClientState<M>,
    moves: Seq<Move<M>>,
    decoders: Decoders,
    state: F,
    apply: G,
    build: H,
) -> bool
    decreases moves.len(),
{
    let last = moves.last();
    if moves.len() == 0 {
        false
    } else if moves.len() == 1 {
        &&& last.event is Begin
        &&& steps(start, last.event, state, apply, build, last.action, last.state)
    } else {
        let earlier = moves.drop_last();
        &&& calls(start, earlier, decoders, state, apply, build)
        &&& obeys(earlier.last().action, last.event, decoders)
        &&& steps(
            earlier.last().state,
            last.event,
            state,
            apply,
            build,
            last.action,
            last.state,
        )
    }
}

/// What one move read from the socket.
pub open spec fn read_by(event: Event) -> Seq<Result<Json, ErrorView>> {
    match event {
        Event::Message(Ok(message)) => seq![Ok(json(message))],
        Event::Message(Err(error)) => seq![Err(error@)],
        _ => Seq::empty(),
    }
}

/// What the moves read from the socket, in order.
pub open spec fn received<M>(moves: Seq<Move<M>>) -> Seq<Result<Json, ErrorView>>
    decreases moves.len(),
{
    if moves.len() == 0 {
        Seq::empty()
    } else {
        received(moves.drop_last()) + read_by(moves.last().event)
    }
}

/// A result with its update by its view.
pub open spec fn returned(r: Result<Update, ErrorView>) -> Result<UpdateView, ErrorView> {
    match r {
        Ok(update) => Ok(update@),
        Err(error) => Err(error),
    }
}

/// What will come of a call that has got as far as this action, once `incoming` is
/// read.
spec fn outlook<M>(
    client: ClientState<M>,
    action: ActionView,
    incoming: Seq<Result<Json, ErrorView>>,
    decoders: Decoders,
    replay: spec_fn(M, Seq<Frame>) -> Result<PoolModel<M>, ErrorView>,
) -> Outcome<M> {
    let messages = all_read(client.queued) + incoming;
    let subscriptions = client.subscriptions;
    match action {
        ActionView::Read => feed(client.sync, subscriptions, messages, decoders, replay),
        ActionView::DecodeLog(payload) => goes_on(
            takes(client.sync, decoders.log_note(payload), replay),
            subscriptions,
            messages,
            decoders,
            replay,
        ),
        ActionView::DecodeHead(payload) => goes_on(
            takes(client.sync, decoders.head_note(payload), replay),
            subscriptions,
            messages,
            decoders,
            replay,
        ),
        ActionView::Return(r) => Outcome {
            result: Some(returned(r)),
            sync: client.sync,
            unread: messages,
        },
    }
}

proof fn lemma_take<M>(
    client: ClientState<M>,
    message: Json,
    incoming: Seq<Result<Json, ErrorView>>,
    decoders: Decoders,
    replay: spec_fn(M, Seq<Frame>) -> Result<PoolModel<M>, ErrorView>,
)
    ensures
        ({
            let (action, next) = client.take(message);
            &&& outlook(next, action, incoming, decoders, replay) == goes_on(
                takes(client.sync, decoders.note(message, client.subscriptions), replay),
                client.subscriptions,
                all_read(client.queued) + incoming,
                decoders,
                replay,
            )
            &&& !(action is Read)
            &&& next.subscriptions == client.subscriptions
        }),
{
}

proof fn lemma_advance<M>(
    client: ClientState<M>,
    incoming: Seq<Result<Json, ErrorView>>,
    decoders: Decoders,
    replay: spec_fn(M, Seq<Frame>) -> Result<PoolModel<M>, ErrorView>,
)
    ensures
        ({
            let (action, next) = client.advance();
            &&& outlook(next, action, incoming, decoders, replay) == feed(
                client.sync,
                client.subscriptions,
                all_read(client.queued) + incoming,
                decoders,
                replay,
            )
            &&& action is Read ==> next.queued.len() == 0
            &&& next.subscriptions == client.subscriptions
        }),
{
    if client.queued.len() > 0 {
        let fewer = ClientState { queued: client.queued.drop_first(), ..client };
        let messages = all_read(client.queued) + incoming;
        lemma_take(fewer, client.queued[0], incoming, decoders, replay);
        assert(messages[0] == Ok::<Json, ErrorView>(client.queued[0]));
        assert(messages.drop_first() =~= all_read(fewer.queued) + incoming);
    }
}

proof fn lemma_move<
    M,
    S,
    F: Fn(&M) -> S,
    G: Fn(S, &BlockHeader, &Vec<RpcLog>) -> Result<S, Error>,
    H: Fn(S) -> Result<PoolModel<M>, Error>,
>(
    was: ClientState<M>,
    before: ActionView,
    event: Event,
    state: F,
    apply: G,
    build: H,
    action: ActionView,
    now: ClientState<M>,
    incoming: Seq<Result<Json, ErrorView>>,
    decoders: Decoders,
    replay: spec_fn(M, Seq<Frame>) -> Result<PoolModel<M>, ErrorView>,
)
    requires
        computes(replay, state, apply, build),
        before is Read ==> was.queued.len() == 0,
        obeys(before, event, decoders),
        steps(was, event, state, apply, build, action, now),
    ensures
        outlook(was, before, read_by(event) + incoming, decoders, replay) == outlook(
            now,
            action,
            incoming,
            decoders,
            replay,
        ),
        action is Read ==> now.queued.len() == 0,
        now.subscriptions == was.subscriptions,
{
    let later = read_by(event) + incoming;
    let messages = all_read(was.queued) + later;
    match event {
        Event::Begin => {},
        Event::Message(Ok(message)) => {
            lemma_take(was, json(message), incoming, decoders, replay);
            assert(messages[0] == Ok::<Json, ErrorView>(json(message)));
            assert(messages.drop_first() =~= all_read(was.queued) + incoming);
        },
        Event::Message(Err(error)) => {
            assert(messages[0] == Err::<Json, ErrorView>(error@));
            assert(messages.drop_first() =~= all_read(was.queued) + incoming);
        },
        Event::Log(decoded) => {
            assert(later =~= incoming);
            if let Ok(log) = decoded {
                lemma_advance(was.with(was.sync.on_log(log@).1), incoming, decoders, replay);
            }
        },
        Event::Head(payload, decoded) => {
            assert(later =~= incoming);
            if let Ok(header) = decoded {
                if let Some(stage) = commit_state(json(payload)) {
                    let (r, sync) = choose|r: Result<Option<Update>, Error>, sync: SyncState<M>|
                     #[trigger]
                        answers(was.sync, header@, stage, state, apply, build, r, sync) && (
                        action,
                        now,
                    ) == was.answered(r, sync);
                    law_answers_follow_the_replay(
                        was.sync,
                        header@,
                        stage,
                        state,
                        apply,
                        build,
                        replay,
                        r,
                        sync,
                    );
                    lemma_advance(was.with(sync), incoming, decoders, replay);
                }
            }
        },
    }
}

proof fn lemma_moves<
    M,
    S,
    F: Fn(&M) -> S,
    G: Fn(S, &BlockHeader, &Vec<RpcLog>) -> Result<S, Error>,
    H: Fn(S) -> Result<PoolModel<M>, Error>,
>(
    start: ClientState<M>,
    moves: Seq<Move<M>>,
    decoders: Decoders,
    state: F,
    apply: G,
    build: H,
    incoming: Seq<Result<Json, ErrorView>>,
    replay: spec_fn(M, Seq<Frame>) -> Result<PoolModel<M>, ErrorView>,
)
    requires
        !start.sync.failed,
        computes(replay, state, apply, build),
        calls(start, moves, decoders, state, apply, build),
    ensures
        feed(
            start.sync,
            start.subscriptions,
            all_read(start.queued) + (received(moves) + incoming),
            decoders,
            replay,
        ) == outlook(moves.last().state, moves.last().action, incoming, decoders, replay),
        moves.last().action is Read ==> moves.last().state.queued.len() == 0,
        moves.last().state.subscriptions == start.subscriptions,
    decreases moves.len(),
{
    let last = moves.last();
    let earlier = moves.drop_last();
    if moves.len() == 1 {
        assert(received(earlier) =~= Seq::<Result<Json, ErrorView>>::empty());
        assert(received(moves) + incoming =~= incoming);
        lemma_advance(start, incoming, decoders, replay);
    } else {
        let later = read_by(last.event) + incoming;
        lemma_moves(start, earlier, decoders, state, apply, build, later, replay);
        assert(received(earlier) + later =~= received(moves) + incoming);
        lemma_move(
            earlier.last().state,
            earlier.last().action,
            last.event,
            state,
            apply,
            build,
            last.action,
            last.state,
            incoming,
            decoders,
            replay,
        );
    }
}

/// A call for the next update returns what feeding the queued messages and then
/// those read from the socket to the reducer gives: logs and headers in the order
/// in which they came, up to the first update or error. The reducer ends in the
/// same state, and every message after that one is left for the next call. A
/// client that has failed before returns that its stream is discontinuous and
/// reads nothing.
pub proof fn law_calls_feed_the_messages_in_order<
    M,
    S,
    F: Fn(&M) -> S,
    G: Fn(S, &BlockHeader, &Vec<RpcLog>) -> Result<S, Error>,
    H: Fn(S) -> Result<PoolModel<M>, Error>,
>(
    start: ClientState<M>,
    moves: Seq<Move<M>>,
    decoders: Decoders,
    state: F,
    apply: G,
    build: H,
    replay: spec_fn(M, Seq<Frame>) -> Result<PoolModel<M>, ErrorView>,
    r: Result<Update, ErrorView>,
)
    requires
        computes(replay, state, apply, build),
        calls(start, moves, decoders, state, apply, build),
        moves.last().action == ActionView::Return(r),
    ensures
        !start.sync.failed ==> feed(
            start.sync,
            start.subscriptions,
            all_read(start.queued) + received(moves),
            decoders,
            replay,
        ) == (Outcome {
            result: Some(returned(r)),
            sync: moves.last().state.sync,
            unread: all_read(moves.last().state.queued),
        }),
        start.sync.failed ==> {
            &&& r == Err::<Update, ErrorView>(ErrorView::Discontinuous)
            &&& moves.last().state == start
            &&& received(moves).len() == 0
        },
{
    let none = Seq::<Result<Json, ErrorView>>::empty();
    if start.sync.failed {
        lemma_failed_call(start, moves, decoders, state, apply, build);
    } else {
        lemma_moves(start, moves, decoders, state, apply, build, none, replay);
        assert(received(moves) + none =~= received(moves));
        assert(all_read(moves.last().state.queued) + none =~= all_read(
            moves.last().state.queued,
        ));
    }
}

proof fn lemma_failed_call<
    M,
    S,
    F: Fn(&M) -> S,
    G: Fn(S, &BlockHeader, &Vec<RpcLog>) -> Result<S, Error>,
    H: Fn(S) -> Result<PoolModel<M>, Error>,
>(
    start: ClientState<M>,
    moves: Seq<Move<M>>,
    decoders: Decoders,
    state: F,
    apply: G,
    build: H,
)
    requires
        start.sync.failed,
        calls(start, moves, decoders, state, apply, build),
    ensures
        moves.last().action == ActionView::Return(Err(ErrorView::Discontinuous)),
        moves.last().state == start,
        received(moves).len() == 0,
    decreases moves.len(),
{
    if moves.len() == 1 {
        assert(received(moves.drop_last()).len() == 0);
    } else {
        lemma_failed_call(start, moves.drop_last(), decoders, state, apply, build);
    }
}

/// A call that returns an update has moved the model to that update's block, by
/// the distance that it names, at least one; any other call leaves the model as
/// it was. So every published finalization is returned by exactly one call.
pub proof fn law_calls_return_what_they_publish<M>(
    sync: SyncState<M>,
    subscriptions: Map<Seq<char>, Subscription>,
    messages: Seq<Result<Json, ErrorView>>,
    decoders: Decoders,
    replay: spec_fn(M, Seq<Frame>) -> Result<PoolModel<M>, ErrorView>,
    stand: spec_fn(HeaderView) -> BlockView,
)
    requires
        stamps(replay, stand),
    ensures
        ({
            let end = feed(sync, subscriptions, messages, decoders, replay);
            match end.result {
                Some(Ok(update)) => {
                    &&& end.sync.model.block@ == stand(update.block)
                    &&& end.sync.model.block.number == sync.model.block.number + update.blocks
                    &&& update.blocks >= 1
                },
                _ => end.sync.model == sync.model,
            }
        }),
    decreases messages.len(),
{
    if messages.len() > 0 {
        let note = match messages[0] {
            Ok(message) => decoders.note(message, subscriptions),
            Err(error) => Err(error),
        };
        let (answer, next) = takes(sync, note, replay);
        if let Ok(Note::Head(header, commitment)) = note {
            law_updates_are_the_moves(sync, header, commitment, replay, stand);
        }
        assert(answer == Ok::<Option<UpdateView>, ErrorView>(None) ==> next.model == sync.model);
        law_calls_return_what_they_publish(
            next,
            subscriptions,
            messages.drop_first(),
            decoders,
            replay,
            stand,
        );
    }
}

} // verus!

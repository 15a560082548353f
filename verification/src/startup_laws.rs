//! How a client is started and what each event leads to, said of the inputs
//! themselves.
use crate::client::{seed_agrees, starts, steps, ActionView, ClientState, Event, EventDrivenSdk};
use crate::error::{Error, ErrorView};
use crate::json::{json, Json};
use crate::message_laws::{law_stages_are_read_back_from_their_names, stage_name};
use crate::seed::{noted, seeds, SearchState, SeedActionView};
use crate::synchronizer::{answers, SyncState};
use crate::types::{
    BlockHeader, BlockView, CommitState, Config, HeaderView, PoolModel, RpcLog, Update,
    B256,
};
use crate::wire::{notified, Subscription};
use vstd::prelude::*;

verus! {

/// A snapshot that stands at the pinned block and lists the configured token third
/// from zero is never refused for disagreement, whatever else it lists; any other
/// one is refused for exactly that. One that agrees is refused only for an unknown
/// hash or with an error of its validation, and where neither holds a client is
/// started: at this very model, with these subscriptions and these notifications.
pub proof fn law_agreeing_snapshots_start_a_client<M, V: Fn(&M) -> Result<(), Error>>(
    model: PoolModel<M>,
    seed: BlockView,
    config: Config,
    subscriptions: Map<Seq<char>, Subscription>,
    queued: Seq<Json>,
    validate: V,
    r: Result<EventDrivenSdk<M>, Error>,
)
    requires
        starts(model, seed, config, subscriptions, queued, validate, r),
    ensures
        ({
            let same_block = model.block.number == seed.number && model.block.hash == seed.hash
                && model.block.context@ == seed.context;
            let agrees = same_block && model.tokens@[3] == config.wmon;
            &&& !agrees ==> (r matches Err(error) && error@ == ErrorView::InvalidData(
                "seed disagrees with subscription context or WMON configuration"@,
            ))
            &&& agrees && model.block.hash is None ==> (r matches Err(error) && error@
                == ErrorView::InvalidData("event seed requires a known finalized block hash"@))
            &&& agrees && model.block.hash is Some ==> (r matches Err(error) ==> call_ensures(
                validate,
                (&model.image,),
                Err(error),
            ))
            &&& r matches Ok(sdk) ==> {
                &&& call_ensures(validate, (&model.image,), Ok(()))
                &&& sdk@.sync.model == model
                &&& forall|hash: B256| !#[trigger] sdk@.sync.pending.contains_key(hash)
                &&& sdk@.sync.active is None
                &&& !sdk@.sync.failed
                &&& sdk@.subscriptions == subscriptions
                &&& sdk@.queued == queued
            }
        }),
{
}

/// Two snapshots with the same block and the same token 3 agree with a pinned block
/// and a configuration alike, whatever else they hold.
pub proof fn law_only_the_block_and_token_three_count<M>(
    one: PoolModel<M>,
    two: PoolModel<M>,
    seed: BlockView,
    config: Config,
)
    requires
        one.block@ == two.block@,
        one.tokens@[3] == two.tokens@[3],
    ensures
        seed_agrees(one, seed, config) == seed_agrees(two, seed, config),
        seed_agrees(one, seed, config) <==> one.block@ == seed && one.tokens@[3] == config.wmon,
{
}

/// A proposal adds its hash to those that were seen, and no other header adds one;
/// a header seeds the model exactly when it is finalized and its hash was seen.
pub proof fn law_proposals_are_noted_by_their_hash(
    proposed: Set<B256>,
    hash: B256,
    stage: CommitState,
    other: B256,
)
    ensures
        noted(proposed, hash, stage).contains(other) <==> proposed.contains(other) || (stage
            == CommitState::Proposed && other == hash),
        seeds(proposed, hash, stage) <==> stage == CommitState::Finalized && proposed.contains(
            hash,
        ),
{
}

/// Looking at a decoded header finds it exactly when its payload names it finalized
/// and its hash was proposed before; a proposal is noted, and nothing else changes,
/// whatever other members the payload has.
pub proof fn law_headers_are_looked_at_by_hash_and_stage(
    s: SearchState,
    members: Map<Seq<char>, Json>,
    header: HeaderView,
    stage: CommitState,
)
    requires
        members.contains_key("commitState"@),
        members["commitState"@] == Json::Text(stage_name(stage)),
    ensures
        ({
            let (found, next) = s.look(Json::Object(members), Ok(header));
            &&& found == Ok::<Option<HeaderView>, ErrorView>(
                if stage == CommitState::Finalized && s.proposed.contains(header.hash) {
                    Some(header)
                } else {
                    None
                },
            )
            &&& next.proposed == if stage == CommitState::Proposed {
                s.proposed.insert(header.hash)
            } else {
                s.proposed
            }
            &&& next.cursor == s.cursor
            &&& next.queued == s.queued
            &&& next.subscriptions == s.subscriptions
        }),
{
    law_stages_are_read_back_from_their_names(
        members,
        stage,
        arbitrary(),
        arbitrary(),
    );
}

/// A header that could not be decoded, or whose payload names no stage, ends the
/// search with that error and changes nothing.
pub proof fn law_unreadable_headers_end_the_search(
    s: SearchState,
    payload: Json,
    decoded: Result<HeaderView, Seq<char>>,
)
    ensures
        decoded matches Err(message) ==> s.look(payload, decoded) == (
            Err::<Option<HeaderView>, ErrorView>(ErrorView::Rpc(message)),
            s,
        ),
        decoded is Ok && !(payload matches Json::Object(members) && members.contains_key(
            "commitState"@,
        ) && members["commitState"@] is Text) ==> s.look(payload, decoded) == (
            Err::<Option<HeaderView>, ErrorView>(ErrorView::Rpc("expected Monad commitState"@)),
            s,
        ),
{
}

/// Scanning takes the queued messages one by one: a log is passed by, a header's
/// payload is asked to be decoded, a refused message is reported, each counted as
/// looked at; with none left a message is asked for.
pub proof fn law_scanning_takes_one_message_at_a_time(s: SearchState)
    ensures
        s.cursor >= s.queued.len() ==> s.scan() == (
            Ok::<SeedActionView, ErrorView>(SeedActionView::Read),
            s,
        ),
        s.cursor < s.queued.len() ==> ({
            let behind = SearchState { cursor: s.cursor + 1, ..s };
            s.scan() == match notified(s.queued[s.cursor as int], s.subscriptions) {
                Ok((Subscription::Logs, _)) => behind.scan(),
                Ok((Subscription::Heads, payload)) => (
                    Ok::<SeedActionView, ErrorView>(SeedActionView::DecodeHead(payload)),
                    behind,
                ),
                Err(error) => (Err::<SeedActionView, ErrorView>(error), behind),
            }
        }),
{
    let behind = SearchState { cursor: s.cursor + 1, ..s };
    if s.cursor < s.queued.len() {
        assert(behind.queued == s.queued);
    }
}

/// A queued message comes last and changes nothing else.
pub proof fn law_queued_messages_come_last(s: SearchState, message: Json)
    ensures
        s.queue(message).queued.len() == s.queued.len() + 1,
        s.queue(message).queued[s.queued.len() as int] == message,
        forall|i: int| 0 <= i < s.queued.len() ==> #[trigger] s.queue(message).queued[i]
            == s.queued[i],
        s.queue(message).cursor == s.cursor,
        s.queue(message).proposed == s.proposed,
        s.queue(message).subscriptions == s.subscriptions,
{
}

/// What comes before a decision of the reducer: a failed read and a failed decoding
/// are returned and fail the stream; a message that is read leads to the decoding
/// of its payload by the kind of its subscription, or is returned as its error; and
/// a call on a failed stream returns that it is discontinuous. None of these
/// changes the model or loses a queued message.
pub proof fn law_events_lead_to_their_actions<
    M,
    S,
    F: Fn(&M) -> S,
    G: Fn(S, &BlockHeader, &Vec<RpcLog>) -> Result<S, Error>,
    H: Fn(S) -> Result<PoolModel<M>, Error>,
>(
    was: ClientState<M>,
    event: Event,
    state: F,
    apply: G,
    build: H,
    action: ActionView,
    now: ClientState<M>,
)
    requires
        steps(was, event, state, apply, build, action, now),
    ensures
        match event {
            Event::Begin => was.sync.failed ==> action == ActionView::Return(
                Err(ErrorView::Discontinuous),
            ) && now == was,
            Event::Message(Err(error)) => {
                &&& action == ActionView::Return(Err(error@))
                &&& gave_up(was, now)
            },
            Event::Message(Ok(message)) => match notified(json(message), was.subscriptions) {
                Ok((Subscription::Logs, payload)) => action == ActionView::DecodeLog(payload)
                    && now == was,
                Ok((Subscription::Heads, payload)) => action == ActionView::DecodeHead(payload)
                    && now == was,
                Err(error) => action == ActionView::Return(Err(error)) && gave_up(was, now),
            },
            Event::Log(Err(message)) => {
                &&& action == ActionView::Return(Err(ErrorView::Rpc(message@)))
                &&& gave_up(was, now)
            },
            Event::Head(_, Err(message)) => {
                &&& action == ActionView::Return(Err(ErrorView::Rpc(message@)))
                &&& gave_up(was, now)
            },
            Event::Head(payload, Ok(_)) => !(json(payload) matches Json::Object(members)
                && members.contains_key("commitState"@) && members["commitState"@] is Text) ==> {
                &&& action == ActionView::Return(
                    Err(ErrorView::Rpc("expected Monad commitState"@)),
                )
                &&& gave_up(was, now)
            },
            Event::Log(Ok(_)) => true,
        },
        now.subscriptions == was.subscriptions,
{
}

/// Whether the stream was failed and nothing else changed.
pub open spec fn gave_up<M>(was: ClientState<M>, now: ClientState<M>) -> bool {
    &&& now.sync.failed
    &&& now.sync.model == was.sync.model
    &&& now.sync.pending == was.sync.pending
    &&& now.sync.active == was.sync.active
    &&& now.subscriptions == was.subscriptions
    &&& now.queued == was.queued
}

/// A decoded log is handed to the reducer as it is. One that it takes leads on to
/// the next message, the oldest that is queued or else one to be read; one that it
/// refuses is returned with its error.
pub proof fn law_decoded_logs_reach_the_reducer<
    M,
    S,
    F: Fn(&M) -> S,
    G: Fn(S, &BlockHeader, &Vec<RpcLog>) -> Result<S, Error>,
    H: Fn(S) -> Result<PoolModel<M>, Error>,
>(
    was: ClientState<M>,
    log: RpcLog,
    state: F,
    apply: G,
    build: H,
    action: ActionView,
    now: ClientState<M>,
)
    requires
        steps(was, Event::Log(Ok(log)), state, apply, build, action, now),
    ensures
        was.sync.on_log(log@).0 matches Err(error) ==> {
            &&& action == ActionView::Return(Err(error))
            &&& now.sync == was.sync.on_log(log@).1
            &&& now.queued == was.queued
        },
        was.sync.on_log(log@).0 is Ok ==> turns_to_the_next(
            was,
            was.sync.on_log(log@).1,
            action,
            now,
        ),
{
}

/// A decoded header is handed to the reducer as it is, with the stage that its
/// payload names. What the reducer answers is returned, an update or an error;
/// where it answers with neither, the client turns to the next message.
pub proof fn law_decoded_headers_reach_the_reducer<
    M,
    S,
    F: Fn(&M) -> S,
    G: Fn(S, &BlockHeader, &Vec<RpcLog>) -> Result<S, Error>,
    H: Fn(S) -> Result<PoolModel<M>, Error>,
>(
    was: ClientState<M>,
    payload: serde_json::Value,
    members: Map<Seq<char>, Json>,
    stage: CommitState,
    header: BlockHeader,
    state: F,
    apply: G,
    build: H,
    action: ActionView,
    now: ClientState<M>,
)
    requires
        steps(was, Event::Head(payload, Ok(header)), state, apply, build, action, now),
        json(payload) == Json::Object(members),
        members.contains_key("commitState"@),
        members["commitState"@] == Json::Text(stage_name(stage)),
    ensures
        exists|r: Result<Option<Update>, Error>, sync: SyncState<M>| #[trigger]
            answers(was.sync, header@, stage, state, apply, build, r, sync) && match r {
                Ok(Some(update)) => action == ActionView::Return(Ok(update)) && now.sync == sync
                    && now.queued == was.queued,
                Ok(None) => turns_to_the_next(was, sync, action, now),
                Err(error) => action == ActionView::Return(Err(error@)) && now.sync == sync
                    && now.queued == was.queued,
            },
{
    law_stages_are_read_back_from_their_names(members, stage, header, arbitrary());
    let (r, sync) = choose|r: Result<Option<Update>, Error>, sync: SyncState<M>| #[trigger]
        answers(was.sync, header@, stage, state, apply, build, r, sync) && (action, now)
            == was.answered(r, sync);
    assert(answers(was.sync, header@, stage, state, apply, build, r, sync));
}

/// Whether the client went on from this state of its reducer to the next message:
/// with none queued it reads one; else it takes the oldest off the queue and asks
/// for its payload to be decoded, or returns its error and fails.
pub open spec fn turns_to_the_next<M>(
    was: ClientState<M>,
    sync: SyncState<M>,
    action: ActionView,
    now: ClientState<M>,
) -> bool {
    if was.queued.len() == 0 {
        action == ActionView::Read && now.sync == sync && now.queued == was.queued
    } else {
        &&& now.queued == was.queued.subrange(1, was.queued.len() as int)
        &&& match notified(was.queued[0], was.subscriptions) {
            Ok((Subscription::Logs, payload)) => action == ActionView::DecodeLog(payload)
                && now.sync == sync,
            Ok((Subscription::Heads, payload)) => action == ActionView::DecodeHead(payload)
                && now.sync == sync,
            Err(error) => {
                &&& action == ActionView::Return(Err(error))
                &&& now.sync.failed
                &&& now.sync.model == sync.model
            },
        }
    }
}

/// A call on a stream that has not failed turns to the next message at once.
pub proof fn law_calls_begin_with_the_next_message<
    M,
    S,
    F: Fn(&M) -> S,
    G: Fn(S, &BlockHeader, &Vec<RpcLog>) -> Result<S, Error>,
    H: Fn(S) -> Result<PoolModel<M>, Error>,
>(
    was: ClientState<M>,
    state: F,
    apply: G,
    build: H,
    action: ActionView,
    now: ClientState<M>,
)
    requires
        steps(was, Event::Begin, state, apply, build, action, now),
        !was.sync.failed,
    ensures
        turns_to_the_next(was, was.sync, action, now),
{
}

} // verus!

//! The decisions of the running client.
use crate::error::{Error, ErrorView};
use crate::json::{self, json, jsons, Json};
use crate::synchronizer::{answers, EventSynchronizer, SyncState};
use crate::types::{Block, BlockHeader, BlockView, Config, PoolModel, RpcLog, Update};
use crate::wire::{commit_state, notification, notified, parse_head, Subscription, Subscriptions};
use serde_json::Value;
use std::collections::VecDeque;
use vstd::prelude::*;

verus! {

/// Something that the client was waiting for.
pub enum Event {
    /// The caller asks for the next update.
    Begin,
    /// A message was read from the socket, or reading failed.
    Message(Result<Value, Error>),
    /// A log was decoded from its payload, or decoding failed with this message.
    Log(Result<RpcLog, String>),
    /// A header was decoded from this payload, or decoding failed with this message.
    Head(Value, Result<BlockHeader, String>),
}

/// What the client waits for next.
pub enum Action {
    /// Read a message from the socket.
    Read,
    /// Decode the log in this payload.
    DecodeLog(Value),
    /// Decode the header in this payload and hand both back.
    DecodeHead(Value),
    /// Give this to the caller.
    Return(Result<Update, Error>),
}

/// An [`Action`] with its payloads as trees and its error by its view.
pub enum ActionView {
    Read,
    DecodeLog(Json),
    DecodeHead(Json),
    Return(Result<Update, ErrorView>),
}

impl View for Action {
    type V = ActionView;

    open spec fn view(&self) -> ActionView {
        match self {
            Action::Read => ActionView::Read,
            Action::DecodeLog(payload) => ActionView::DecodeLog(json(*payload)),
            Action::DecodeHead(payload) => ActionView::DecodeHead(json(*payload)),
            Action::Return(Ok(update)) => ActionView::Return(Ok(*update)),
            Action::Return(Err(error)) => ActionView::Return(Err(error@)),
        }
    }
}

/// What a client knows: its reducer, its subscriptions, and the notifications
/// that it has not looked at.
#[verifier::ext_equal]
#[verifier::reject_recursive_types(M)]
pub struct ClientState<M> {
    pub sync: SyncState<M>,
    pub subscriptions: Map<Seq<char>, Subscription>,
    pub queued: Seq<Json>,
}

impl<M> ClientState<M> {
    /// The same state with another state of the reducer.
    pub open spec fn with(self, sync: SyncState<M>) -> ClientState<M> {
        ClientState { sync, ..self }
    }

    /// Gives up with an error.
    pub open spec fn give_up(self, error: ErrorView) -> (ActionView, ClientState<M>) {
        (ActionView::Return(Err(error)), self.with(self.sync.fail()))
    }

    /// Looks at a message.
    pub open spec fn take(self, message: Json) -> (ActionView, ClientState<M>) {
        match notified(message, self.subscriptions) {
            Ok((Subscription::Logs, payload)) => (ActionView::DecodeLog(payload), self),
            Ok((Subscription::Heads, payload)) => (ActionView::DecodeHead(payload), self),
            Err(error) => self.give_up(error),
        }
    }

    /// Turns to the next message: the oldest that is queued, else one to be read.
    pub open spec fn advance(self) -> (ActionView, ClientState<M>) {
        if self.queued.len() == 0 {
            (ActionView::Read, self)
        } else {
            (ClientState { queued: self.queued.drop_first(), ..self }).take(self.queued[0])
        }
    }

    /// What the reducer's answer to a header leads to.
    pub open spec fn answered(self, r: Result<Option<Update>, Error>, sync: SyncState<M>) -> (
        ActionView,
        ClientState<M>,
    ) {
        match r {
            Ok(Some(update)) => (ActionView::Return(Ok(update)), self.with(sync)),
            Ok(None) => self.with(sync).advance(),
            Err(error) => (ActionView::Return(Err(error@)), self.with(sync)),
        }
    }
}

/// Whether a model agrees with the header that it was pinned to and with the
/// configured token.
pub open spec fn seed_agrees<M>(model: PoolModel<M>, seed: BlockView, config: Config) -> bool {
    model.block@ == seed && model.tokens@[3] == config.wmon
}

/// A client between two events. It holds the reducer, the subscriptions and the
/// notifications to come, and nothing that could read the chain.
pub struct EventDrivenSdk<M> {
    synchronizer: EventSynchronizer<M>,
    subscriptions: Subscriptions,
    queued: VecDeque<Value>,
}

impl<M> View for EventDrivenSdk<M> {
    type V = ClientState<M>;

    closed spec fn view(&self) -> ClientState<M> {
        ClientState {
            sync: self.synchronizer@,
            subscriptions: self.subscriptions@,
            queued: jsons(self.queued@),
        }
    }
}

/// Whether a snapshot was started from or refused as it should be.
pub open spec fn starts<M, V: Fn(&M) -> Result<(), Error>>(
    model: PoolModel<M>,
    seed: BlockView,
    config: Config,
    subscriptions: Map<Seq<char>, Subscription>,
    queued: Seq<Json>,
    validate: V,
    r: Result<EventDrivenSdk<M>, Error>,
) -> bool {
    match r {
        Ok(sdk) => {
            &&& seed_agrees(model, seed, config)
            &&& model.block.hash is Some
            &&& call_ensures(validate, (&model.image,), Ok(()))
            &&& sdk.wf()
            &&& sdk@ == (ClientState { sync: SyncState::seeded(model), subscriptions, queued })
        },
        Err(error) => if !seed_agrees(model, seed, config) {
            error@ == ErrorView::InvalidData(
                "seed disagrees with subscription context or WMON configuration"@,
            )
        } else if model.block.hash is None {
            error@ == ErrorView::InvalidData("event seed requires a known finalized block hash"@)
        } else {
            call_ensures(validate, (&model.image,), Err(error))
        },
    }
}

impl<M> EventDrivenSdk<M> {
    pub closed spec fn wf(self) -> bool {
        self.synchronizer.wf() && self.subscriptions.wf()
    }

    /// Starts from the snapshot that was taken at the block `seed`.
    pub fn from_snapshot<V: Fn(&M) -> Result<(), Error>>(
        model: PoolModel<M>,
        seed: &Block,
        config: &Config,
        subscriptions: Subscriptions,
        queued: VecDeque<Value>,
        validate: V,
    ) -> (r: Result<EventDrivenSdk<M>, Error>)
        requires
            subscriptions.wf(),
            model.block@ == seed@ ==> model.tokens@.len() > 3,
            forall|image: &M| call_requires(validate, (image,)),
        ensures
            starts(model, seed@, *config, subscriptions@, jsons(queued@), validate, r),
    {
        if !model.block.same(seed) || model.tokens[3] != config.wmon {
            return Err(
                Error::InvalidData(
                    "seed disagrees with subscription context or WMON configuration".to_owned(),
                ),
            );
        }
        match EventSynchronizer::from_model(model, validate) {
            Ok(synchronizer) => Ok(EventDrivenSdk { synchronizer, subscriptions, queued }),
            Err(error) => Err(error),
        }
    }

    /// The last published model.
    pub fn model(&self) -> (model: &PoolModel<M>)
        ensures
            *model == self@.sync.model,
    {
        self.synchronizer.model()
    }

    fn give_up(&mut self, error: Error) -> (action: Action)
        requires
            old(self).wf(),
        ensures
            final(self).wf(),
            (action@, final(self)@) == old(self)@.give_up(error@),
    {
        self.synchronizer.abandon();
        Action::Return(Err(error))
    }

    fn take(&mut self, message: Value) -> (action: Action)
        requires
            old(self).wf(),
        ensures
            final(self).wf(),
            (action@, final(self)@) == old(self)@.take(json(message)),
    {
        match notification(&message, &self.subscriptions) {
            Ok((Subscription::Logs, payload)) => Action::DecodeLog(json::copy(payload)),
            Ok((Subscription::Heads, payload)) => Action::DecodeHead(json::copy(payload)),
            Err(error) => self.give_up(error),
        }
    }

    fn advance(&mut self) -> (action: Action)
        requires
            old(self).wf(),
        ensures
            final(self).wf(),
            (action@, final(self)@) == old(self)@.advance(),
    {
        let ghost start = self@;
        match self.queued.pop_front() {
            Some(message) => {
                proof {
                    assert(jsons(self.queued@) =~= start.queued.drop_first());
                    assert(json(message) == start.queued[0]);
                    assert(self@ =~= (ClientState { queued: start.queued.drop_first(), ..start }));
                }
                self.take(message)
            },
            None => Action::Read,
        }
    }

    /// Goes on from one event to what the client waits for next. `state`, `apply`
    /// and `build` replay finalized blocks over the model, as in
    /// [`EventSynchronizer::on_head`].
    pub fn next_update<
        S,
        F: Fn(&M) -> S,
        G: Fn(S, &BlockHeader, &Vec<RpcLog>) -> Result<S, Error>,
        H: Fn(S) -> Result<PoolModel<M>, Error>,
    >(&mut self, event: Event, state: F, apply: G, build: H) -> (action: Action)
        requires
            old(self).wf(),
            forall|image: &M| call_requires(state, (image,)),
            forall|from: S, block: &BlockHeader, logs: &Vec<RpcLog>|
                call_requires(apply, (from, block, logs)),
            forall|last: S| call_requires(build, (last,)),
        ensures
            final(self).wf(),
            steps(old(self)@, event, state, apply, build, action@, final(self)@),
    {
        match event {
            Event::Begin => {
                if self.synchronizer.has_failed() {
                    return Action::Return(Err(Error::Discontinuous));
                }
                self.advance()
            },
            Event::Message(Err(error)) => self.give_up(error),
            Event::Message(Ok(message)) => self.take(message),
            Event::Log(Err(message)) => self.give_up(Error::Rpc(message)),
            Event::Log(Ok(log)) => match self.synchronizer.on_log(log) {
                Ok(()) => self.advance(),
                Err(error) => Action::Return(Err(error)),
            },
            Event::Head(payload, decoded) => {
                let (header, stage) = match parse_head(&payload, decoded) {
                    Ok(head) => head,
                    Err(error) => {
                        return self.give_up(error);
                    },
                };
                let ghost start = self@;
                let ghost tree = header@;
                let r = self.synchronizer.on_head(header, stage, state, apply, build);
                let ghost sync = self.synchronizer@;
                assert(answers(start.sync, tree, stage, state, apply, build, r, sync));
                assert(self@ =~= start.with(sync));
                match r {
                    Ok(Some(update)) => Action::Return(Ok(update)),
                    Ok(None) => self.advance(),
                    Err(error) => Action::Return(Err(error)),
                }
            },
        }
    }
}

/// Whether a client that was in state `was` may answer an event with `action` and
/// go to state `now`.
pub open spec fn steps<
    M,
    S,
    F: Fn(&M) -> S,
    G: Fn(S, &BlockHeader, &Vec<RpcLog>) -> Result<S, Error>,
    H: Fn(S) -> Result<PoolModel<M>, Error>,
>(
    was: ClientState<M>,
    event: Event,
    state: F,
    apply: G,
    build: H,
    action: ActionView,
    now: ClientState<M>,
) -> bool {
    match event {
        Event::Begin => (action, now) == if was.sync.failed {
            (ActionView::Return(Err(ErrorView::Discontinuous)), was)
        } else {
            was.advance()
        },
        Event::Message(Err(error)) => (action, now) == was.give_up(error@),
        Event::Message(Ok(message)) => (action, now) == was.take(json(message)),
        Event::Log(Err(message)) => (action, now) == was.give_up(ErrorView::Rpc(message@)),
        Event::Log(Ok(log)) => {
            let (answer, sync) = was.sync.on_log(log@);
            (action, now) == match answer {
                Ok(()) => was.with(sync).advance(),
                Err(error) => (ActionView::Return(Err(error)), was.with(sync)),
            }
        },
        Event::Head(_, Err(message)) => (action, now) == was.give_up(ErrorView::Rpc(message@)),
        Event::Head(payload, Ok(header)) => match commit_state(json(payload)) {
            None => (action, now) == was.give_up(ErrorView::Rpc("expected Monad commitState"@)),
            Some(stage) => exists|r: Result<Option<Update>, Error>, sync: SyncState<M>| #[trigger]
                answers(was.sync, header@, stage, state, apply, build, r, sync) && (action, now)
                    == was.answered(r, sync),
        },
    }
}

} // verus!

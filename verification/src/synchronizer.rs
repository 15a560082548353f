//! The reducer: from an ordered stream of headers and logs to finalized models.
use crate::ancestry::{line, names, settled, trace};
use crate::error::{outcome, Error, ErrorView};
use crate::pending::{above, filed, lists, log_views, Frame, Pending};
use crate::types::{
    BlockHeader, CommitState, HeaderView, LogView, PoolModel, RpcLog, Update, B256,
};
use vstd::prelude::*;

verus! {

/// What a synchronizer knows: the last published model, the proposed blocks by
/// their hashes, the block whose logs are arriving, and whether the stream has
/// failed.
#[verifier::ext_equal]
#[verifier::reject_recursive_types(M)]
pub struct SyncState<M> {
    pub model: PoolModel<M>,
    pub pending: Map<B256, Frame>,
    pub active: Option<B256>,
    pub failed: bool,
}

/// What a header asks for: to be refused, to be noted without publishing, or to
/// publish the model that these frames lead to.
pub enum HeadPlan {
    Refuse(ErrorView),
    Keep,
    Publish(Seq<Frame>),
}

impl<M> SyncState<M> {
    /// Every frame is filed under its own hash with its own logs, and the block
    /// whose logs are arriving is pending.
    pub open spec fn wf(self) -> bool {
        &&& filed(self.pending)
        &&& self.active matches Some(hash) ==> self.pending.contains_key(hash)
    }

    /// The state at the start of a stream.
    pub open spec fn seeded(model: PoolModel<M>) -> SyncState<M> {
        SyncState { model, pending: Map::empty(), active: None, failed: false }
    }

    /// The same state, its stream failed.
    pub open spec fn fail(self) -> SyncState<M> {
        SyncState { failed: true, ..self }
    }

    /// The same state, the log frame that was open now closed.
    pub open spec fn sealed(self) -> SyncState<M> {
        match self.active {
            Some(hash) => SyncState {
                pending: self.pending.insert(
                    hash,
                    Frame { complete: true, ..self.pending[hash] },
                ),
                active: None,
                ..self
            },
            None => self,
        }
    }

    /// The frame that a proposal opens: what was known of the block stays.
    pub open spec fn opened(self, header: HeaderView) -> Frame {
        Frame {
            header,
            logs: if self.pending.contains_key(header.hash) {
                self.pending[header.hash].logs
            } else {
                Map::empty()
            },
            complete: false,
        }
    }

    /// The state after a model was published at block `number`.
    pub open spec fn published(self, model: PoolModel<M>, number: u64) -> SyncState<M> {
        SyncState { model, pending: above(self.pending, number), ..self }
    }

    /// What a log is answered, and the state after it.
    pub open spec fn on_log(self, log: LogView) -> (Result<(), ErrorView>, SyncState<M>) {
        let frame = self.pending[log.block_hash];
        if self.failed {
            (Err(ErrorView::Discontinuous), self)
        } else if log.removed {
            (Err(ErrorView::Discontinuous), self.fail())
        } else if log.block_number <= self.model.block.number {
            (Ok(()), self)
        } else if self.active != Some(log.block_hash) || frame.complete || frame.header.number
            != log.block_number {
            (Err(ErrorView::Discontinuous), self.fail())
        } else if !frame.logs.contains_key(log.position()) {
            (
                Ok(()),
                SyncState {
                    pending: self.pending.insert(
                        log.block_hash,
                        Frame { logs: frame.logs.insert(log.position(), log), ..frame },
                    ),
                    ..self
                },
            )
        } else if frame.logs[log.position()] == log {
            (Ok(()), self)
        } else {
            (Err(ErrorView::InvalidData("conflicting subscription logs"@)), self.fail())
        }
    }

    /// What a header asks for, and the state after it, before any model that it
    /// leads to is published.
    pub open spec fn on_head(self, header: HeaderView, commitment: CommitState) -> (
        HeadPlan,
        SyncState<M>,
    ) {
        let current = self.model.block;
        let next = self.sealed();
        if self.failed {
            (HeadPlan::Refuse(ErrorView::Discontinuous), self)
        } else if header.number <= current.number {
            if commitment == CommitState::Finalized && header.number == current.number && Some(
                header.hash,
            ) != current.hash {
                (HeadPlan::Refuse(ErrorView::Discontinuous), next.fail())
            } else {
                (HeadPlan::Keep, next)
            }
        } else {
            match commitment {
                CommitState::Proposed => {
                    let noted = SyncState { active: Some(header.hash), ..next };
                    if next.pending.contains_key(header.hash) && next.pending[header.hash].header
                        != header {
                        (
                            HeadPlan::Refuse(
                                ErrorView::InvalidData("conflicting proposal header"@),
                            ),
                            noted.fail(),
                        )
                    } else {
                        (
                            HeadPlan::Keep,
                            SyncState {
                                pending: next.pending.insert(header.hash, next.opened(header)),
                                ..noted
                            },
                        )
                    }
                },
                CommitState::Finalized => {
                    if settled(next.pending, current.number, current.hash, header) {
                        (
                            HeadPlan::Publish(
                                line(next.pending, current.number, current.hash, header),
                            ),
                            next,
                        )
                    } else {
                        (HeadPlan::Refuse(ErrorView::Discontinuous), next.fail())
                    }
                },
                CommitState::Voted => (HeadPlan::Keep, next),
                CommitState::Verified => (HeadPlan::Keep, next),
            }
        }
    }
}

/// Whether `apply` may turn the pool state `from` into `result` when it is handed
/// the header of the frame and its logs in order.
pub open spec fn applied<S, G: Fn(S, &BlockHeader, &Vec<RpcLog>) -> Result<S, Error>>(
    apply: G,
    from: S,
    frame: Frame,
    result: Result<S, Error>,
) -> bool {
    exists|header: &BlockHeader, logs: &Vec<RpcLog>|
        header@ == frame.header && lists(log_views(logs@), frame.logs) && #[trigger] call_ensures(
            apply,
            (from, header, logs),
            result,
        )
}

/// Whether `states` are pool states that `apply` may lead through: the first one
/// taken from the image, each later one from the one before it and the frame in
/// its place.
pub open spec fn passes<
    M,
    S,
    F: Fn(&M) -> S,
    G: Fn(S, &BlockHeader, &Vec<RpcLog>) -> Result<S, Error>,
>(state: F, apply: G, image: M, chain: Seq<Frame>, states: Seq<S>) -> bool {
    &&& 1 <= states.len() <= chain.len() + 1
    &&& call_ensures(state, (&image,), states[0])
    &&& forall|i: int, j: int|
        0 <= i && j == i + 1 && j < states.len() ==> applied(
            apply,
            #[trigger] states[i],
            chain[i],
            Ok(#[trigger] states[j]),
        )
}

/// Whether replaying the frames over the image may end in `result`: all of them
/// applied and the model built from the last state, or the first error that
/// `apply` or `build` gave.
pub open spec fn replays<
    M,
    S,
    F: Fn(&M) -> S,
    G: Fn(S, &BlockHeader, &Vec<RpcLog>) -> Result<S, Error>,
    H: Fn(S) -> Result<PoolModel<M>, Error>,
>(
    state: F,
    apply: G,
    build: H,
    image: M,
    chain: Seq<Frame>,
    result: Result<PoolModel<M>, Error>,
) -> bool {
    exists|states: Seq<S>| #[trigger]
        passes(state, apply, image, chain, states) && if states.len() == chain.len() + 1 {
            call_ensures(build, (states.last(),), result)
        } else {
            result matches Err(error) && applied(
                apply,
                states.last(),
                chain[states.len() - 1],
                Err(error),
            )
        }
}

/// Whether a header was answered as it asked: refused with the error of its plan,
/// noted with nothing published, or, where it settles a line of frames, answered
/// with the update and the model that replaying them gave, or with the error
/// that replaying them gave and the model left as it was.
pub open spec fn answers<
    M,
    S,
    F: Fn(&M) -> S,
    G: Fn(S, &BlockHeader, &Vec<RpcLog>) -> Result<S, Error>,
    H: Fn(S) -> Result<PoolModel<M>, Error>,
>(
    was: SyncState<M>,
    header: HeaderView,
    commitment: CommitState,
    state: F,
    apply: G,
    build: H,
    r: Result<Option<Update>, Error>,
    now: SyncState<M>,
) -> bool {
    let (plan, next) = was.on_head(header, commitment);
    match plan {
        HeadPlan::Refuse(error) => (r matches Err(e) && e@ == error) && now == next,
        HeadPlan::Keep => (r matches Ok(None)) && now == next,
        HeadPlan::Publish(chain) => match r {
            Ok(Some(update)) => {
                &&& update.block@ == header
                &&& update.blocks == chain.len()
                &&& now == next.published(now.model, header.number)
                &&& replays(state, apply, build, was.model.image, chain, Ok(now.model))
            },
            Ok(None) => false,
            Err(error) => {
                &&& now == next.fail()
                &&& replays(state, apply, build, was.model.image, chain, Err(error))
            },
        },
    }
}

/// A reducer for one ordered connection: log notifications and the headers of
/// every commitment stage, in the order in which they were pushed. A header
/// closes the log frame of the block before it. Only the ancestry of a finalized
/// header is published; abandoned proposals are dropped. After an error the
/// stream is not continued, and the last published model stays.
pub struct EventSynchronizer<M> {
    model: PoolModel<M>,
    pending: Pending,
    active: Option<B256>,
    failed: bool,
}

impl<M> View for EventSynchronizer<M> {
    type V = SyncState<M>;

    closed spec fn view(&self) -> SyncState<M> {
        SyncState {
            model: self.model,
            pending: self.pending@,
            active: self.active,
            failed: self.failed,
        }
    }
}

/// Whether a seed was started from or refused as it should be.
pub open spec fn begins<M, V: Fn(&M) -> Result<(), Error>>(
    model: PoolModel<M>,
    validate: V,
    r: Result<EventSynchronizer<M>, Error>,
) -> bool {
    match r {
        Ok(synchronizer) => {
            &&& model.block.hash is Some
            &&& call_ensures(validate, (&model.image,), Ok(()))
            &&& synchronizer.wf()
            &&& synchronizer@ == SyncState::seeded(model)
        },
        Err(error) => if model.block.hash is None {
            error@ == ErrorView::InvalidData("event seed requires a known finalized block hash"@)
        } else {
            call_ensures(validate, (&model.image,), Err(error))
        },
    }
}

impl<M> EventSynchronizer<M> {
    pub closed spec fn wf(self) -> bool {
        &&& self.pending.wf()
        &&& self.active matches Some(hash) ==> self.pending@.contains_key(hash)
    }

    /// A well-formed synchronizer holds a well-formed state.
    pub proof fn lemma_state_is_well_formed(self)
        requires
            self.wf(),
        ensures
            self@.wf(),
    {
        self.pending.lemma_filed();
    }

    /// Starts from a finalized seed whose successors the stream will cover. The
    /// seed's hash must be known and its image must pass `validate`.
    pub fn from_model<V: Fn(&M) -> Result<(), Error>>(model: PoolModel<M>, validate: V) -> (r:
        Result<EventSynchronizer<M>, Error>)
        requires
            forall|image: &M| call_requires(validate, (image,)),
        ensures
            begins(model, validate, r),
    {
        if model.block.hash.is_none() {
            return Err(
                Error::InvalidData("event seed requires a known finalized block hash".to_owned()),
            );
        }
        let validated = validate(&model.image);
        assert(call_ensures(validate, (&model.image,), validated));
        match validated {
            Err(error) => {
                return Err(error);
            },
            Ok(unit) => {
                assert(unit == ());
            },
        }
        let synchronizer = EventSynchronizer {
            model,
            pending: Pending::new(),
            active: None,
            failed: false,
        };
        assert(synchronizer@ =~= SyncState::seeded(model));
        Ok(synchronizer)
    }

    /// The last published model.
    pub fn model(&self) -> (model: &PoolModel<M>)
        ensures
            *model == self@.model,
    {
        &self.model
    }

    /// Whether the stream has failed.
    pub fn has_failed(&self) -> (r: bool)
        ensures
            r == self@.failed,
    {
        self.failed
    }

    /// Fails the stream, for an error that was met outside the reducer.
    pub fn abandon(&mut self)
        requires
            old(self).wf(),
        ensures
            final(self).wf(),
            final(self)@ == old(self)@.fail(),
    {
        self.failed = true;
    }

    /// Takes a log notification.
    pub fn on_log(&mut self, log: RpcLog) -> (r: Result<(), Error>)
        requires
            old(self).wf(),
        ensures
            final(self).wf(),
            (outcome(r), final(self)@) == old(self)@.on_log(log@),
    {
        if self.failed {
            return Err(Error::Discontinuous);
        }
        let result = self.apply_log(log);
        if result.is_err() {
            self.failed = true;
        }
        assert(self@ =~= old(self)@.on_log(log@).1);
        result
    }

    fn apply_log(&mut self, log: RpcLog) -> (r: Result<(), Error>)
        requires
            old(self).wf(),
            !old(self)@.failed,
        ensures
            final(self).wf(),
            !final(self)@.failed,
            outcome(r) == old(self)@.on_log(log@).0,
            ({
                let next = old(self)@.on_log(log@).1;
                final(self)@ == (SyncState { failed: false, ..next })
            }),
    {
        if log.removed {
            return Err(Error::Discontinuous);
        }
        if log.block_number <= self.model.block.number {
            return Ok(());
        }
        if self.active != Some(log.block_hash) {
            return Err(Error::Discontinuous);
        }
        let r = self.pending.record(log);
        assert(self@ =~= (SyncState { failed: false, ..old(self)@.on_log(log@).1 }));
        r
    }

    /// Takes a header notification. Where it finalizes a line of proposed blocks,
    /// their logs are replayed in order: `state` copies the pool state out of the
    /// model's image, `apply` advances it by one block, and `build` makes the
    /// model that is then published.
    pub fn on_head<
        S,
        F: Fn(&M) -> S,
        G: Fn(S, &BlockHeader, &Vec<RpcLog>) -> Result<S, Error>,
        H: Fn(S) -> Result<PoolModel<M>, Error>,
    >(
        &mut self,
        header: BlockHeader,
        commitment: CommitState,
        state: F,
        apply: G,
        build: H,
    ) -> (r: Result<Option<Update>, Error>)
        requires
            old(self).wf(),
            forall|image: &M| call_requires(state, (image,)),
            forall|from: S, block: &BlockHeader, logs: &Vec<RpcLog>|
                call_requires(apply, (from, block, logs)),
            forall|last: S| call_requires(build, (last,)),
        ensures
            final(self).wf(),
            answers(old(self)@, header@, commitment, state, apply, build, r, final(self)@),
    {
        if self.failed {
            return Err(Error::Discontinuous);
        }
        let result = self.apply_head(header, commitment, state, apply, build);
        if result.is_err() {
            self.failed = true;
        }
        result
    }

    fn apply_head<
        S,
        F: Fn(&M) -> S,
        G: Fn(S, &BlockHeader, &Vec<RpcLog>) -> Result<S, Error>,
        H: Fn(S) -> Result<PoolModel<M>, Error>,
    >(
        &mut self,
        header: BlockHeader,
        commitment: CommitState,
        state: F,
        apply: G,
        build: H,
    ) -> (r: Result<Option<Update>, Error>)
        requires
            old(self).wf(),
            !old(self)@.failed,
            forall|image: &M| call_requires(state, (image,)),
            forall|from: S, block: &BlockHeader, logs: &Vec<RpcLog>|
                call_requires(apply, (from, block, logs)),
            forall|last: S| call_requires(build, (last,)),
        ensures
            final(self).wf(),
            !final(self)@.failed,
            answers(
                old(self)@,
                header@,
                commitment,
                state,
                apply,
                build,
                r,
                (SyncState { failed: r is Err, ..final(self)@ }),
            ),
    {
        // The source sends every log of a block before the next header, so this
        // header closes the frame that was open.
        if let Some(hash) = self.active {
            self.active = None;
            if !self.pending.close(hash) {
                return Err(Error::Discontinuous);
            }
        }
        let ghost next = old(self)@.sealed();
        assert(self@ =~= next);
        let current: u64 = self.model.block.number;
        if header.number <= current {
            if commitment == CommitState::Finalized && header.number == current && Some(
                header.hash,
            ) != self.model.block.hash {
                return Err(Error::Discontinuous);
            }
            return Ok(None);
        }
        if commitment == CommitState::Proposed {
            self.active = Some(header.hash);
            // A repeated frame keeps its logs; logs are filed by position, so none
            // is replayed twice.
            if !self.pending.propose(&header) {
                return Err(Error::InvalidData("conflicting proposal header".to_owned()));
            }
            assert(self@ =~= old(self)@.on_head(header@, commitment).1);
            return Ok(None);
        }
        if commitment != CommitState::Finalized {
            return Ok(None);
        }
        let path = match trace(&self.pending, current, self.model.block.hash, &header) {
            Some(path) => path,
            None => {
                return Err(Error::Discontinuous);
            },
        };
        let ghost chain = line(next.pending, current, self.model.block.hash, header@);
        let model = match self.replay(&path, Ghost(chain), state, apply, build) {
            Ok(model) => model,
            Err(error) => {
                return Err(error);
            },
        };
        let blocks: u64 = header.number - current;
        let number: u64 = header.number;
        self.model = model;
        self.pending.retain_above(number);
        assert(self@ =~= next.published(self@.model, number));
        Ok(Some(Update { block: header, blocks }))
    }

    /// Replays the frames that `path` names, oldest first, over the published
    /// model.
    fn replay<
        S,
        F: Fn(&M) -> S,
        G: Fn(S, &BlockHeader, &Vec<RpcLog>) -> Result<S, Error>,
        H: Fn(S) -> Result<PoolModel<M>, Error>,
    >(
        &self,
        path: &Vec<B256>,
        Ghost(chain): Ghost<Seq<Frame>>,
        state: F,
        apply: G,
        build: H,
    ) -> (r: Result<PoolModel<M>, Error>)
        requires
            self.pending.wf(),
            names(path@, chain),
            forall|i: int|
                0 <= i < chain.len() ==> self.pending@.contains_key(
                    (#[trigger] chain[i]).header.hash,
                ) && self.pending@[chain[i].header.hash] == chain[i],
            forall|image: &M| call_requires(state, (image,)),
            forall|from: S, block: &BlockHeader, logs: &Vec<RpcLog>|
                call_requires(apply, (from, block, logs)),
            forall|last: S| call_requires(build, (last,)),
        ensures
            replays(state, apply, build, self.model.image, chain, r),
    {
        let mut next: S = state(&self.model.image);
        let mut left: usize = path.len();
        let ghost mut states: Seq<S> = seq![next];
        while left > 0
            invariant
                self.pending.wf(),
                names(path@, chain),
                forall|i: int|
                    0 <= i < chain.len() ==> self.pending@.contains_key(
                        (#[trigger] chain[i]).header.hash,
                    ) && self.pending@[chain[i].header.hash] == chain[i],
                forall|from: S, block: &BlockHeader, logs: &Vec<RpcLog>|
                    call_requires(apply, (from, block, logs)),
                left <= path@.len(),
                states.len() == path@.len() - left + 1,
                states.last() == next,
                passes(state, apply, self.model.image, chain, states),
            decreases left,
        {
            let ghost i = path@.len() - left;
            assert(path@[left - 1] == chain[i].header.hash);
            let block = self.pending.fetch(path[left - 1]);
            let ghost from = next;
            let advanced = apply(next, &block.header, &block.logs);
            assert(applied(apply, from, chain[i], advanced));
            match advanced {
                Ok(state_after) => {
                    proof {
                        let longer = states.push(state_after);
                        assert forall|a: int, b: int|
                            0 <= a && b == a + 1 && b < longer.len() implies applied(
                            apply,
                            #[trigger] longer[a],
                            chain[a],
                            Ok(#[trigger] longer[b]),
                        ) by {
                            if b < states.len() {
                                assert(longer[a] == states[a] && longer[b] == states[b]);
                            }
                        }
                        states = longer;
                    }
                    next = state_after;
                },
                Err(error) => {
                    return Err(error);
                },
            }
            left = left - 1;
        }
        build(next)
    }
}

} // verus!

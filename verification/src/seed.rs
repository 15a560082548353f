//! The search for the finalized header that the first snapshot is pinned to.
use crate::error::{Error, ErrorView};
use crate::json::{self, json, jsons, Json};
use crate::types::{BlockHeader, CommitState, HeaderView, B256};
use crate::wire::{commit_state, notification, notified, parse_head, Subscription, Subscriptions};
use serde_json::Value;
use std::collections::VecDeque;
use vstd::prelude::*;

verus! {

/// The state of a search: the hashes of the proposals that were seen, the
/// notifications that came so far and how many of them were looked at, and the
/// subscriptions that they belong to.
#[verifier::ext_equal]
pub struct SearchState {
    pub proposed: Set<B256>,
    pub cursor: nat,
    pub queued: Seq<Json>,
    pub subscriptions: Map<Seq<char>, Subscription>,
}

impl SearchState {
    /// The same search with one more notification.
    pub open spec fn queue(self, message: Json) -> SearchState {
        SearchState { queued: self.queued.push(message), ..self }
    }

    /// Looks at the queued notifications in order, past the logs, up to the first
    /// header or the first message that is refused; asks for a message when there
    /// is none left.
    pub open spec fn scan(self) -> (Result<SeedActionView, ErrorView>, SearchState)
        decreases self.queued.len() - self.cursor,
    {
        let next = SearchState { cursor: self.cursor + 1, ..self };
        if self.cursor >= self.queued.len() {
            (Ok(SeedActionView::Read), self)
        } else {
            match notified(self.queued[self.cursor as int], self.subscriptions) {
                Ok((Subscription::Logs, _)) => next.scan(),
                Ok((Subscription::Heads, payload)) => (
                    Ok(SeedActionView::DecodeHead(payload)),
                    next,
                ),
                Err(error) => (Err(error), next),
            }
        }
    }

    /// Looks at a header: notes a proposal, and finds the header if it can seed the
    /// model.
    pub open spec fn look(self, payload: Json, decoded: Result<HeaderView, Seq<char>>) -> (
        Result<Option<HeaderView>, ErrorView>,
        SearchState,
    ) {
        match decoded {
            Err(message) => (Err(ErrorView::Rpc(message)), self),
            Ok(header) => match commit_state(payload) {
                None => (Err(ErrorView::Rpc("expected Monad commitState"@)), self),
                Some(stage) => (
                    Ok(
                        if seeds(self.proposed, header.hash, stage) {
                            Some(header)
                        } else {
                            None
                        },
                    ),
                    SearchState { proposed: noted(self.proposed, header.hash, stage), ..self },
                ),
            },
        }
    }
}

/// The proposals seen, once a header was looked at.
pub open spec fn noted(proposed: Set<B256>, hash: B256, stage: CommitState) -> Set<B256> {
    if stage == CommitState::Proposed {
        proposed.insert(hash)
    } else {
        proposed
    }
}

/// Whether a header can seed the model: it is finalized, and its own proposal was
/// seen.
pub open spec fn seeds(proposed: Set<B256>, hash: B256, stage: CommitState) -> bool {
    stage == CommitState::Finalized && proposed.contains(hash)
}

/// The proposals among several headers.
pub open spec fn all_noted(heads: Seq<(B256, CommitState)>) -> Set<B256>
    decreases heads.len(),
{
    if heads.len() == 0 {
        Set::empty()
    } else {
        noted(all_noted(heads.drop_last()), heads.last().0, heads.last().1)
    }
}

/// A header seeds the model exactly when it is finalized and an earlier header of
/// the same connection proposed that very block.
pub proof fn law_seed_was_proposed(
    heads: Seq<(B256, CommitState)>,
    hash: B256,
    stage: CommitState,
)
    ensures
        seeds(all_noted(heads), hash, stage) <==> stage == CommitState::Finalized
            && heads.contains((hash, CommitState::Proposed)),
    decreases heads.len(),
{
    if heads.len() > 0 {
        let shorter = heads.drop_last();
        let target = (hash, CommitState::Proposed);
        law_seed_was_proposed(shorter, hash, CommitState::Finalized);
        if shorter.contains(target) {
            let i = choose|i: int| 0 <= i < shorter.len() && shorter[i] == target;
            assert(heads[i] == target);
        }
        if heads.last() == target {
            assert(heads[heads.len() - 1] == target);
        }
        if heads.contains(target) && heads.last() != target {
            let i = choose|i: int| 0 <= i < heads.len() && heads[i] == target;
            assert(shorter[i] == target);
        }
    }
}

/// What the search asks for next.
pub enum SeedAction {
    /// Read a message from the socket and queue it.
    Read,
    /// Decode the header in this payload and hand both back.
    DecodeHead(Value),
}

/// A [`SeedAction`] with its payload as a tree.
pub enum SeedActionView {
    Read,
    DecodeHead(Json),
}

impl View for SeedAction {
    type V = SeedActionView;

    open spec fn view(&self) -> SeedActionView {
        match self {
            SeedAction::Read => SeedActionView::Read,
            SeedAction::DecodeHead(payload) => SeedActionView::DecodeHead(json(*payload)),
        }
    }
}

/// What the search asks for, or its error, by their views.
pub open spec fn asked(r: Result<SeedAction, Error>) -> Result<SeedActionView, ErrorView> {
    match r {
        Ok(action) => Ok(action@),
        Err(error) => Err(error@),
    }
}

/// What looking at a header gave, by its view.
pub open spec fn found(r: Result<Option<BlockHeader>, Error>) -> Result<
    Option<HeaderView>,
    ErrorView,
> {
    match r {
        Ok(Some(header)) => Ok(Some(header@)),
        Ok(None) => Ok(None),
        Err(error) => Err(error@),
    }
}

/// A decoded header, or the message of the decoding error, by their views.
pub open spec fn decoding(decoded: Result<BlockHeader, String>) -> Result<HeaderView, Seq<char>> {
    match decoded {
        Ok(header) => Ok(header@),
        Err(message) => Err(message@),
    }
}

/// A search for the seed. It looks at the queued notifications and keeps them all
/// for the client that will be started.
pub struct SeedSearch {
    proposed: Vec<B256>,
    cursor: usize,
    queued: VecDeque<Value>,
    subscriptions: Subscriptions,
}

impl View for SeedSearch {
    type V = SearchState;

    closed spec fn view(&self) -> SearchState {
        SearchState {
            proposed: self.proposed@.to_set(),
            cursor: self.cursor as nat,
            queued: jsons(self.queued@),
            subscriptions: self.subscriptions@,
        }
    }
}

impl SeedSearch {
    pub closed spec fn wf(self) -> bool {
        &&& self.subscriptions.wf()
        &&& self.cursor <= self.queued@.len()
    }

    /// Starts with what the handshake left.
    pub fn new(subscriptions: Subscriptions, queued: VecDeque<Value>) -> (r: SeedSearch)
        requires
            subscriptions.wf(),
        ensures
            r.wf(),
            r@ == (SearchState {
                proposed: Set::empty(),
                cursor: 0,
                queued: jsons(queued@),
                subscriptions: subscriptions@,
            }),
    {
        let r = SeedSearch { proposed: Vec::new(), cursor: 0, queued, subscriptions };
        assert(r.proposed@.to_set() =~= Set::<B256>::empty());
        r
    }

    /// Queues a message that was read.
    pub fn queue(&mut self, message: Value)
        requires
            old(self).wf(),
        ensures
            final(self).wf(),
            final(self)@ == old(self)@.queue(json(message)),
    {
        self.queued.push_back(message);
        assert(jsons(self.queued@) =~= old(self)@.queued.push(json(message)));
    }

    /// Looks at the queued notifications up to the next header.
    pub fn advance(&mut self) -> (r: Result<SeedAction, Error>)
        requires
            old(self).wf(),
        ensures
            final(self).wf(),
            (asked(r), final(self)@) == old(self)@.scan(),
    {
        while self.cursor < self.queued.len()
            invariant
                self.wf(),
                self@.scan() == old(self)@.scan(),
            decreases self.queued@.len() - self.cursor,
        {
            let ghost index = self.cursor as int;
            let value = &self.queued[self.cursor];
            assert(json(*value) == self@.queued[index]);
            let read = notification(value, &self.subscriptions);
            match read {
                Ok((Subscription::Heads, payload)) => {
                    let payload = json::copy(payload);
                    self.cursor = self.cursor + 1;
                    return Ok(SeedAction::DecodeHead(payload));
                },
                Ok((Subscription::Logs, _)) => {
                    self.cursor = self.cursor + 1;
                },
                Err(error) => {
                    self.cursor = self.cursor + 1;
                    return Err(error);
                },
            }
        }
        Ok(SeedAction::Read)
    }

    /// Whether a proposal with this hash was seen.
    fn saw(&self, hash: B256) -> (r: bool)
        ensures
            r == self@.proposed.contains(hash),
    {
        let mut i: usize = 0;
        while i < self.proposed.len()
            invariant
                i <= self.proposed@.len(),
                forall|j: int| 0 <= j < i ==> self.proposed@[j] != hash,
            decreases self.proposed@.len() - i,
        {
            if self.proposed[i] == hash {
                return true;
            }
            i = i + 1;
        }
        false
    }

    /// Looks at a header, given its payload and the header that was decoded from it
    /// or the message of the decoding error. Returns the header if it can seed the
    /// model: a finalized one whose proposal was seen on this connection.
    pub fn on_head(&mut self, payload: &Value, decoded: Result<BlockHeader, String>) -> (r: Result<
        Option<BlockHeader>,
        Error,
    >)
        requires
            old(self).wf(),
        ensures
            final(self).wf(),
            (found(r), final(self)@) == old(self)@.look(json(*payload), decoding(decoded)),
            match (decoded, commit_state(json(*payload))) {
                (Err(message), _) => {
                    &&& r matches Err(e) && e@ == ErrorView::Rpc(message@)
                    &&& final(self)@ == old(self)@
                },
                (Ok(_), None) => {
                    &&& r matches Err(e) && e@ == ErrorView::Rpc("expected Monad commitState"@)
                    &&& final(self)@ == old(self)@
                },
                (Ok(header), Some(stage)) => {
                    &&& final(self)@ == (SearchState {
                        proposed: noted(old(self)@.proposed, header.hash, stage),
                        ..old(self)@
                    })
                    &&& r == Ok::<Option<BlockHeader>, Error>(
                        if seeds(old(self)@.proposed, header.hash, stage) {
                            Some(header)
                        } else {
                            None
                        },
                    )
                },
            },
    {
        let (header, stage) = match parse_head(payload, decoded) {
            Ok(head) => head,
            Err(error) => {
                return Err(error);
            },
        };
        let known: bool = self.saw(header.hash);
        if stage == CommitState::Proposed && !known {
            self.proposed.push(header.hash);
        }
        assert(self.proposed@.to_set() =~= noted(old(self)@.proposed, header.hash, stage)) by {
            if self.proposed@ != old(self).proposed@ {
                assert(self.proposed@ == old(self).proposed@.push(header.hash));
                assert forall|hash: B256| #[trigger] self.proposed@.contains(hash) <==> old(
                    self,
                ).proposed@.contains(hash) || hash == header.hash by {
                    let n = old(self).proposed@.len() as int;
                    assert(self.proposed@[n] == header.hash);
                    if old(self).proposed@.contains(hash) {
                        let i = old(self).proposed@.index_of(hash);
                        assert(self.proposed@[i] == hash);
                    }
                }
            }
        }
        if stage == CommitState::Finalized && known {
            Ok(Some(header))
        } else {
            Ok(None)
        }
    }

    /// The subscriptions, and every notification from the start of the handshake.
    pub fn finish(self) -> (r: (Subscriptions, VecDeque<Value>))
        requires
            self.wf(),
        ensures
            r.0.wf(),
            r.0@ == self@.subscriptions,
            jsons(r.1@) == self@.queued,
    {
        (self.subscriptions, self.queued)
    }
}

} // verus!

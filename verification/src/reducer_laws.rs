//! What the reducer does with each kind of notification, said of its answers and of
//! the fields of its states themselves.
use crate::ancestry::{ancestry, line, settled};
use crate::error::{Error, ErrorView};
use crate::laws::law_settled_line_is_published;
use crate::pending::{lists, log_views, Frame};
use crate::synchronizer::{
    answers, applied, begins, passes, replays, EventSynchronizer, HeadPlan, SyncState,
};
use crate::types::{
    BlockHeader, CommitState, HeaderView, LogView, PoolModel, RpcLog, Update, B256,
};
use vstd::prelude::*;

verus! {

/// Whether the frames of `now` are those of `was`, each with its header and its
/// logs, the one whose logs were arriving closed and every other one open or
/// closed as it was.
pub open spec fn only_closes<M>(was: SyncState<M>, now: SyncState<M>) -> bool {
    &&& forall|hash: B256| #[trigger]
        now.pending.contains_key(hash) <==> was.pending.contains_key(hash)
    &&& forall|hash: B256| #[trigger]
        was.pending.contains_key(hash) ==> {
            &&& now.pending[hash].header == was.pending[hash].header
            &&& now.pending[hash].logs == was.pending[hash].logs
            &&& now.pending[hash].complete == (was.pending[hash].complete || was.active == Some(
                hash,
            ))
        }
}

/// A header at or below the published block is passed by, whatever its stage and
/// however far below it is, unless it finalizes another block at the published
/// number, which is discontinuous. A voted or verified header above it is passed by
/// too. Either way the published model stays, and the frame that was open is
/// closed; the stream fails exactly with an error.
pub proof fn law_other_heads_pass_by<
    M,
    S,
    F: Fn(&M) -> S,
    G: Fn(S, &BlockHeader, &Vec<RpcLog>) -> Result<S, Error>,
    H: Fn(S) -> Result<PoolModel<M>, Error>,
>(
    was: SyncState<M>,
    header: HeaderView,
    commitment: CommitState,
    state: F,
    apply: G,
    build: H,
    r: Result<Option<Update>, Error>,
    now: SyncState<M>,
)
    requires
        was.active matches Some(hash) ==> was.pending.contains_key(hash),
        !was.failed,
        answers(was, header, commitment, state, apply, build, r, now),
        header.number <= was.model.block.number || commitment == CommitState::Voted || commitment
            == CommitState::Verified,
    ensures
        (r matches Ok(None)) <==> !(commitment == CommitState::Finalized && header.number
            == was.model.block.number && was.model.block.hash != Some(header.hash)),
        !(r matches Ok(None)) ==> (r matches Err(error) && error@ == ErrorView::Discontinuous),
        now.failed == (r is Err),
        now.model == was.model,
        now.active is None,
        only_closes(was, now),
{
}

/// A proposal above the published block opens its frame: its header is held, with
/// the logs that were held for it before or none, and every other frame is left as
/// it was but for the one that was open, which is closed. A proposal whose hash is
/// held with a different header is refused as conflicting, and no frame changes but
/// for that closing. The published model stays.
pub proof fn law_proposals_open_their_frame<
    M,
    S,
    F: Fn(&M) -> S,
    G: Fn(S, &BlockHeader, &Vec<RpcLog>) -> Result<S, Error>,
    H: Fn(S) -> Result<PoolModel<M>, Error>,
>(
    was: SyncState<M>,
    header: HeaderView,
    state: F,
    apply: G,
    build: H,
    r: Result<Option<Update>, Error>,
    now: SyncState<M>,
)
    requires
        was.active matches Some(hash) ==> was.pending.contains_key(hash),
        !was.failed,
        header.number > was.model.block.number,
        answers(was, header, CommitState::Proposed, state, apply, build, r, now),
    ensures
        now.model == was.model,
        now.active == Some(header.hash),
        now.failed == (r is Err),
        was.pending.contains_key(header.hash) && was.pending[header.hash].header != header ==> {
            &&& r matches Err(error) && error@ == ErrorView::InvalidData(
                "conflicting proposal header"@,
            )
            &&& only_closes(was, now)
        },
        was.pending.contains_key(header.hash) ==> was.pending[header.hash].header == header ==> {
            &&& r matches Ok(None)
            &&& now.pending[header.hash].logs == was.pending[header.hash].logs
        },
        !was.pending.contains_key(header.hash) ==> {
            &&& r matches Ok(None)
            &&& now.pending[header.hash].logs == Map::<(u64, u64), LogView>::empty()
        },
        r is Ok ==> {
            &&& now.pending.contains_key(header.hash)
            &&& now.pending[header.hash].header == header
            &&& !now.pending[header.hash].complete
        },
        forall|hash: B256| #[trigger]
            now.pending.contains_key(hash) && hash != header.hash ==> was.pending.contains_key(
                hash,
            ),
        forall|hash: B256| #[trigger]
            was.pending.contains_key(hash) && hash != header.hash ==> {
                &&& now.pending.contains_key(hash)
                &&& now.pending[hash].header == was.pending[hash].header
                &&& now.pending[hash].logs == was.pending[hash].logs
                &&& now.pending[hash].complete == (was.pending[hash].complete || was.active
                    == Some(hash))
            },
{
}

/// Whether `chain` is the line of held blocks from the published one up to this
/// header: every block of it proposed and its frame closed by now, one for each
/// number, each the parent of the next, and the last one the header in every field.
pub open spec fn is_line<M>(s: SyncState<M>, header: HeaderView, chain: Seq<Frame>) -> bool {
    &&& chain.len() > 0
    &&& chain.len() == header.number - s.model.block.number
    &&& forall|i: int|
        0 <= i < chain.len() ==> {
            let hash = (#[trigger] chain[i]).header.hash;
            &&& s.pending.contains_key(hash)
            &&& s.pending[hash].header == chain[i].header
            &&& s.pending[hash].logs == chain[i].logs
            &&& s.pending[hash].complete || s.active == Some(hash)
            &&& chain[i].complete
            &&& chain[i].header.number == s.model.block.number + 1 + i
        }
    &&& forall|i: int, j: int|
        0 <= i && j == i + 1 && j < chain.len() ==> (#[trigger] chain[j]).header.parent_hash == (
        #[trigger] chain[i]).header.hash
    &&& s.model.block.hash == Some(chain[0].header.parent_hash)
    &&& chain[chain.len() - 1].header == header
}

/// Whether `apply` may give `result` when it is handed this frame: its header, and
/// its logs as a list that holds each of them once, sorted by transaction and then
/// by log index.
pub open spec fn advances<S, G: Fn(S, &BlockHeader, &Vec<RpcLog>) -> Result<S, Error>>(
    apply: G,
    from: S,
    frame: Frame,
    result: Result<S, Error>,
) -> bool {
    exists|block: &BlockHeader, logs: &Vec<RpcLog>| #[trigger]
        call_ensures(apply, (from, block, logs), result) && hands_over(block, logs, frame)
}

/// Whether these are the frame's header and its logs, sorted and each once.
pub open spec fn hands_over(block: &BlockHeader, logs: &Vec<RpcLog>, frame: Frame) -> bool {
    &&& block.number == frame.header.number
    &&& block.hash == frame.header.hash
    &&& block.parent_hash == frame.header.parent_hash
    &&& block.context@ == frame.header.context
    &&& forall|i: int, j: int|
        0 <= i < j < logs@.len() ==> (#[trigger] logs@[i]).transaction_index < (
        #[trigger] logs@[j]).transaction_index || (logs@[i].transaction_index
            == logs@[j].transaction_index && logs@[i].log_index < logs@[j].log_index)
    &&& forall|i: int|
        0 <= i < logs@.len() ==> {
            let position = ((#[trigger] logs@[i]).transaction_index, logs@[i].log_index);
            frame.logs.contains_key(position) && frame.logs[position] == logs@[i]@
        }
    &&& forall|position: (u64, u64)| #[trigger]
        frame.logs.contains_key(position) ==> exists|i: int|
            0 <= i < logs@.len() && (#[trigger] logs@[i]).transaction_index == position.0
                && logs@[i].log_index == position.1
}

/// Whether `states` are the pool states on the way: the first taken from the image,
/// each later one made by `apply` from the one before it and the frame in its
/// place.
pub open spec fn way<
    M,
    S,
    F: Fn(&M) -> S,
    G: Fn(S, &BlockHeader, &Vec<RpcLog>) -> Result<S, Error>,
>(state: F, apply: G, image: M, chain: Seq<Frame>, states: Seq<S>) -> bool {
    &&& states.len() > 0
    &&& call_ensures(state, (&image,), states[0])
    &&& forall|i: int, j: int|
        0 <= i && j == i + 1 && j < states.len() ==> advances(
            apply,
            #[trigger] states[i],
            chain[i],
            Ok(#[trigger] states[j]),
        )
}

proof fn lemma_way<
    M,
    S,
    F: Fn(&M) -> S,
    G: Fn(S, &BlockHeader, &Vec<RpcLog>) -> Result<S, Error>,
>(state: F, apply: G, image: M, chain: Seq<Frame>, states: Seq<S>)
    requires
        passes(state, apply, image, chain, states),
    ensures
        way(state, apply, image, chain, states),
{
    assert forall|i: int, j: int| 0 <= i && j == i + 1 && j < states.len() implies advances(
        apply,
        #[trigger] states[i],
        chain[i],
        Ok(#[trigger] states[j]),
    ) by {
        assert(applied(apply, states[i], chain[i], Ok(states[j])));
        lemma_advances(apply, states[i], chain[i], Ok(states[j]));
    }
}

proof fn lemma_advances<S, G: Fn(S, &BlockHeader, &Vec<RpcLog>) -> Result<S, Error>>(
    apply: G,
    from: S,
    frame: Frame,
    result: Result<S, Error>,
)
    requires
        applied(apply, from, frame, result),
    ensures
        advances(apply, from, frame, result),
{
    let (block, logs) = choose|block: &BlockHeader, logs: &Vec<RpcLog>|
        block@ == frame.header && lists(log_views(logs@), frame.logs)
            && #[trigger] call_ensures(apply, (from, block, logs), result);
    let list = log_views(logs@);
    assert forall|i: int| 0 <= i < logs@.len() implies list[i] == (#[trigger] logs@[i])@ by {}
    assert forall|i: int, j: int| 0 <= i < j < logs@.len() implies (
    #[trigger] logs@[i]).transaction_index < (#[trigger] logs@[j]).transaction_index || (
    logs@[i].transaction_index == logs@[j].transaction_index && logs@[i].log_index
        < logs@[j].log_index) by {
        assert(list[i] == logs@[i]@ && list[j] == logs@[j]@);
    }
    assert forall|i: int| 0 <= i < logs@.len() implies {
        let position = ((#[trigger] logs@[i]).transaction_index, logs@[i].log_index);
        frame.logs.contains_key(position) && frame.logs[position] == logs@[i]@
    } by {
        assert(list[i] == logs@[i]@);
    }
    assert forall|position: (u64, u64)| #[trigger] frame.logs.contains_key(position) implies exists|
        i: int,
    |
        0 <= i < logs@.len() && (#[trigger] logs@[i]).transaction_index == position.0
            && logs@[i].log_index == position.1 by {
        let i = choose|i: int| 0 <= i < list.len() && (#[trigger] list[i]).position() == position;
        assert(list[i] == logs@[i]@);
    }
    assert(hands_over(block, logs, frame));
}

/// A finalized header above the published block settles its line. Where the held
/// blocks form one, they are applied oldest first to the published image, each with
/// all its logs in order. If all of that and the building of the model go well, the
/// answer is an update that names the header and the length of the line, the built
/// model is published, and exactly the blocks above the header stay held. If not,
/// the first error is passed on, and the model stays. Where there is no such line
/// the header is discontinuous, and the model stays too.
pub proof fn law_finalized_heads_settle_their_line<
    M,
    S,
    F: Fn(&M) -> S,
    G: Fn(S, &BlockHeader, &Vec<RpcLog>) -> Result<S, Error>,
    H: Fn(S) -> Result<PoolModel<M>, Error>,
>(
    was: SyncState<M>,
    header: HeaderView,
    state: F,
    apply: G,
    build: H,
    r: Result<Option<Update>, Error>,
    now: SyncState<M>,
    chain: Seq<Frame>,
)
    requires
        was.active matches Some(hash) ==> was.pending.contains_key(hash),
        !was.failed,
        header.number > was.model.block.number,
        answers(was, header, CommitState::Finalized, state, apply, build, r, now),
    ensures
        now.active is None,
        now.failed == (r is Err),
        is_line(was, header, chain) ==> match r {
            Ok(Some(update)) => {
                &&& update.block@ == header
                &&& update.blocks == header.number - was.model.block.number
                &&& exists|states: Seq<S>| #[trigger]
                    way(state, apply, was.model.image, chain, states) && states.len()
                        == chain.len() + 1 && call_ensures(
                        build,
                        (states[chain.len() as int],),
                        Ok(now.model),
                    )
                &&& forall|hash: B256| #[trigger]
                    now.pending.contains_key(hash) <==> was.pending.contains_key(hash)
                        && was.pending[hash].header.number > header.number
                &&& forall|hash: B256| #[trigger]
                    now.pending.contains_key(hash) ==> {
                        &&& now.pending[hash].header == was.pending[hash].header
                        &&& now.pending[hash].logs == was.pending[hash].logs
                        &&& now.pending[hash].complete == (was.pending[hash].complete || was.active
                            == Some(hash))
                    }
            },
            Ok(None) => false,
            Err(error) => {
                &&& now.model == was.model
                &&& only_closes(was, now)
                &&& exists|states: Seq<S>| #[trigger]
                    way(state, apply, was.model.image, chain, states) && states.len() <= chain.len()
                        + 1 && if states.len() == chain.len() + 1 {
                        call_ensures(build, (states[chain.len() as int],), Err(error))
                    } else {
                        advances(
                            apply,
                            states[states.len() - 1],
                            chain[states.len() - 1],
                            Err(error),
                        )
                    }
            },
        },
        (forall|other: Seq<Frame>| !#[trigger] is_line(was, header, other)) ==> {
            &&& r matches Err(error) && error@ == ErrorView::Discontinuous
            &&& now.model == was.model
            &&& only_closes(was, now)
        },
{
    let pending = was.sealed().pending;
    let number = was.model.block.number;
    let hash = was.model.block.hash;
    if settled(pending, number, hash, header) {
        let found = line(pending, number, hash, header);
        assert(ancestry(pending, number, hash, header, found));
        assert forall|i: int| 0 <= i < found.len() implies {
            let hash = (#[trigger] found[i]).header.hash;
            &&& was.pending.contains_key(hash)
            &&& was.pending[hash].header == found[i].header
            &&& was.pending[hash].logs == found[i].logs
            &&& was.pending[hash].complete || was.active == Some(hash)
            &&& found[i].complete
            &&& found[i].header.number == number + 1 + i
        } by {
            assert(pending.contains_key(found[i].header.hash));
        }
        assert(is_line(was, header, found));
    }
    if is_line(was, header, chain) {
        assert forall|i: int| 0 <= i < chain.len() implies {
            &&& pending.contains_key((#[trigger] chain[i]).header.hash)
            &&& pending[chain[i].header.hash] == chain[i]
            &&& chain[i].complete
            &&& chain[i].header.number == number + 1 + i
        } by {
            assert(pending[chain[i].header.hash] =~= chain[i]);
        }
        assert(ancestry(pending, number, hash, header, chain));
        law_settled_line_is_published(was, header, chain);
        let image = was.model.image;
        let result: Result<PoolModel<M>, Error> = match r {
            Ok(_) => Ok(now.model),
            Err(error) => Err(error),
        };
        assert(replays(state, apply, build, image, chain, result));
        let states = choose|states: Seq<S>| #[trigger]
            passes(state, apply, image, chain, states) && if states.len() == chain.len() + 1 {
                call_ensures(build, (states.last(),), result)
            } else {
                result matches Err(error) && applied(
                    apply,
                    states.last(),
                    chain[states.len() - 1],
                    Err(error),
                )
            };
        lemma_way(state, apply, image, chain, states);
        if states.len() < chain.len() + 1 {
            lemma_advances(apply, states.last(), chain[states.len() - 1], Err(result->Err_0));
        }
    }
}

/// After an error nothing is taken: every header and every log is discontinuous and
/// changes nothing.
pub proof fn law_nothing_follows_an_error<
    M,
    S,
    F: Fn(&M) -> S,
    G: Fn(S, &BlockHeader, &Vec<RpcLog>) -> Result<S, Error>,
    H: Fn(S) -> Result<PoolModel<M>, Error>,
>(
    was: SyncState<M>,
    log: LogView,
    header: HeaderView,
    commitment: CommitState,
    state: F,
    apply: G,
    build: H,
    r: Result<Option<Update>, Error>,
    now: SyncState<M>,
)
    requires
        was.failed,
    ensures
        answers(was, header, commitment, state, apply, build, r, now) ==> now == was && (
        r matches Err(error) && error@ == ErrorView::Discontinuous),
        was.on_log(log) == (Err::<(), ErrorView>(ErrorView::Discontinuous), was),
{
}

/// A log is taken exactly when it was not taken back and is either one of a block
/// at or below the published one, or one of the block whose frame is open, with
/// that block's number, and at a position where no different log is held. A
/// different log there is a conflict; anything else is discontinuous.
pub proof fn law_logs_are_taken_into_the_open_frame<M>(was: SyncState<M>, log: LogView)
    requires
        was.active matches Some(hash) ==> was.pending.contains_key(hash),
        !was.failed,
    ensures
        ({
            let (answer, now) = was.on_log(log);
            let frame = was.pending[log.block_hash];
            let position = (log.transaction_index, log.log_index);
            let passed = log.block_number <= was.model.block.number;
            let fits = was.active == Some(log.block_hash) && !frame.complete && frame.header.number
                == log.block_number;
            let clashes = frame.logs.contains_key(position) && frame.logs[position] != log;
            &&& answer is Ok <==> !log.removed && (passed || (fits && !clashes))
            &&& answer is Err ==> answer == Err::<(), ErrorView>(
                if !log.removed && !passed && fits && clashes {
                    ErrorView::InvalidData("conflicting subscription logs"@)
                } else {
                    ErrorView::Discontinuous
                },
            )
            &&& now.failed == (answer is Err)
            &&& now.model == was.model
            &&& now.active == was.active
            &&& forall|hash: B256| #[trigger]
                now.pending.contains_key(hash) <==> was.pending.contains_key(hash)
            &&& forall|hash: B256| #[trigger]
                was.pending.contains_key(hash) ==> {
                    &&& now.pending[hash].header == was.pending[hash].header
                    &&& now.pending[hash].complete == was.pending[hash].complete
                    &&& now.pending[hash].logs == if answer is Ok && !passed && hash
                        == log.block_hash {
                        was.pending[hash].logs.insert(position, log)
                    } else {
                        was.pending[hash].logs
                    }
                }
        }),
{
    let position = (log.transaction_index, log.log_index);
    let frame = was.pending[log.block_hash];
    if frame.logs.contains_key(position) && frame.logs[position] == log {
        assert(frame.logs.insert(position, log) =~= frame.logs);
    }
}

/// A seed without a known hash is refused for that. One with a hash is refused only
/// with an error of its validation, and where that gives none it is started from:
/// at this very model, with nothing held, no frame open and no failure.
pub proof fn law_valid_seeds_are_started_from<M, V: Fn(&M) -> Result<(), Error>>(
    model: PoolModel<M>,
    validate: V,
    r: Result<EventSynchronizer<M>, Error>,
)
    requires
        begins(model, validate, r),
    ensures
        model.block.hash is None ==> (r matches Err(error) && error@ == ErrorView::InvalidData(
            "event seed requires a known finalized block hash"@,
        )),
        model.block.hash is Some ==> (r matches Err(error) ==> call_ensures(
            validate,
            (&model.image,),
            Err(error),
        )),
        r is Ok ==> call_ensures(validate, (&model.image,), Ok(())),
        r matches Ok(synchronizer) ==> {
            &&& synchronizer@.model == model
            &&& forall|hash: B256| !#[trigger] synchronizer@.pending.contains_key(hash)
            &&& synchronizer@.active is None
            &&& !synchronizer@.failed
        },
{
}

} // verus!

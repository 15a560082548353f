//! The reducer's steps where replaying blocks is a function of the image and the
//! blocks.
//!
//! The reducer takes the pool model's functions as arguments and believes nothing
//! of them. Most of what holds over several steps holds for pool models that give
//! the same result for the same blocks; here that is said, and each step becomes
//! a function of the state and the notification.
use crate::ancestry::{ancestry, line};
use crate::error::{outcome, Error, ErrorView};
use crate::laws::law_settled_line_is_published;
use crate::pending::{above, law_replay_order_is_fixed, lists, log_views, Frame};
use crate::stream::Note;
use crate::synchronizer::{answers, applied, passes, replays, HeadPlan, SyncState};
use crate::types::{
    BlockHeader, BlockView, CommitState, HeaderView, PoolModel, RpcLog, Update, UpdateView,
};
use vstd::prelude::*;

verus! {

/// Whether the pool model's functions give equal results for equal blocks.
pub open spec fn repeatable<
    M,
    S,
    F: Fn(&M) -> S,
    G: Fn(S, &BlockHeader, &Vec<RpcLog>) -> Result<S, Error>,
    H: Fn(S) -> Result<PoolModel<M>, Error>,
>(state: F, apply: G, build: H) -> bool {
    &&& forall|image: &M, one: S, two: S| #[trigger]
        call_ensures(state, (image,), one) && #[trigger] call_ensures(state, (image,), two) ==> one
            == two
    &&& forall|
        from: S,
        block: &BlockHeader,
        logs: &Vec<RpcLog>,
        one: Result<S, Error>,
        same_block: &BlockHeader,
        same_logs: &Vec<RpcLog>,
        two: Result<S, Error>,
    | #[trigger]
        call_ensures(apply, (from, block, logs), one) && #[trigger] call_ensures(
            apply,
            (from, same_block, same_logs),
            two,
        ) && block@ == same_block@ && log_views(logs@) == log_views(same_logs@) ==> outcome(one)
            == outcome(two)
    &&& forall|last: S, one: Result<PoolModel<M>, Error>, two: Result<PoolModel<M>, Error>|
     #[trigger]
        call_ensures(build, (last,), one) && #[trigger] call_ensures(build, (last,), two)
            ==> outcome(one) == outcome(two)
}

/// Whether `replay` is what replaying frames over an image gives.
pub open spec fn computes<
    M,
    S,
    F: Fn(&M) -> S,
    G: Fn(S, &BlockHeader, &Vec<RpcLog>) -> Result<S, Error>,
    H: Fn(S) -> Result<PoolModel<M>, Error>,
>(
    replay: spec_fn(M, Seq<Frame>) -> Result<PoolModel<M>, ErrorView>,
    state: F,
    apply: G,
    build: H,
) -> bool {
    forall|image: M, chain: Seq<Frame>, result: Result<PoolModel<M>, Error>| #[trigger]
        replays(state, apply, build, image, chain, result) ==> outcome(result) == replay(
            image,
            chain,
        )
}

/// What replaying frames over an image gives, and an error where it gives nothing.
pub open spec fn replayed<
    M,
    S,
    F: Fn(&M) -> S,
    G: Fn(S, &BlockHeader, &Vec<RpcLog>) -> Result<S, Error>,
    H: Fn(S) -> Result<PoolModel<M>, Error>,
>(state: F, apply: G, build: H) -> spec_fn(M, Seq<Frame>) -> Result<PoolModel<M>, ErrorView> {
    |image: M, chain: Seq<Frame>|
        if exists|result: Result<PoolModel<M>, Error>|
            replays(state, apply, build, image, chain, result) {
            outcome(
                choose|result: Result<PoolModel<M>, Error>|
                    replays(state, apply, build, image, chain, result),
            )
        } else {
            Err(ErrorView::Discontinuous)
        }
}

/// Whether a replayed model stands at the last block that was replayed, `stand`
/// being the block that a model makes of a header.
pub open spec fn stamps<M>(
    replay: spec_fn(M, Seq<Frame>) -> Result<PoolModel<M>, ErrorView>,
    stand: spec_fn(HeaderView) -> BlockView,
) -> bool {
    &&& forall|header: HeaderView|
        (#[trigger] stand(header)).number == header.number && stand(header).hash == Some(
            header.hash,
        )
    &&& forall|image: M, chain: Seq<Frame>|
        chain.len() > 0 ==> (#[trigger] replay(image, chain) matches Ok(model) ==> model.block@
            == stand(chain.last().header))
}

proof fn lemma_applied_alike<
    M,
    S,
    F: Fn(&M) -> S,
    G: Fn(S, &BlockHeader, &Vec<RpcLog>) -> Result<S, Error>,
    H: Fn(S) -> Result<PoolModel<M>, Error>,
>(
    state: F,
    apply: G,
    build: H,
    from: S,
    frame: Frame,
    one: Result<S, Error>,
    two: Result<S, Error>,
)
    requires
        repeatable(state, apply, build),
        applied(apply, from, frame, one),
        applied(apply, from, frame, two),
    ensures
        outcome(one) == outcome(two),
{
    let (block, logs) = choose|block: &BlockHeader, logs: &Vec<RpcLog>|
        block@ == frame.header && lists(log_views(logs@), frame.logs)
            && #[trigger] call_ensures(apply, (from, block, logs), one);
    let (same_block, same_logs) = choose|block: &BlockHeader, logs: &Vec<RpcLog>|
        block@ == frame.header && lists(log_views(logs@), frame.logs)
            && #[trigger] call_ensures(apply, (from, block, logs), two);
    law_replay_order_is_fixed(log_views(logs@), log_views(same_logs@), frame.logs);
}

proof fn lemma_passes_alike<
    M,
    S,
    F: Fn(&M) -> S,
    G: Fn(S, &BlockHeader, &Vec<RpcLog>) -> Result<S, Error>,
    H: Fn(S) -> Result<PoolModel<M>, Error>,
>(
    state: F,
    apply: G,
    build: H,
    image: M,
    chain: Seq<Frame>,
    one: Seq<S>,
    two: Seq<S>,
    k: int,
)
    requires
        repeatable(state, apply, build),
        passes(state, apply, image, chain, one),
        passes(state, apply, image, chain, two),
        0 <= k < one.len(),
        k < two.len(),
    ensures
        one[k] == two[k],
    decreases k,
{
    if k > 0 {
        lemma_passes_alike(state, apply, build, image, chain, one, two, k - 1);
        assert(applied(apply, one[k - 1], chain[k - 1], Ok(one[k])));
        assert(applied(apply, two[k - 1], chain[k - 1], Ok(two[k])));
        lemma_applied_alike(
            state,
            apply,
            build,
            one[k - 1],
            chain[k - 1],
            Ok(one[k]),
            Ok(two[k]),
        );
    }
}

/// A repeatable pool model gives one result for the same frames over the same
/// image: the same model, or the same error.
pub proof fn law_replay_is_determined<
    M,
    S,
    F: Fn(&M) -> S,
    G: Fn(S, &BlockHeader, &Vec<RpcLog>) -> Result<S, Error>,
    H: Fn(S) -> Result<PoolModel<M>, Error>,
>(
    state: F,
    apply: G,
    build: H,
    image: M,
    chain: Seq<Frame>,
    one: Result<PoolModel<M>, Error>,
    two: Result<PoolModel<M>, Error>,
)
    requires
        repeatable(state, apply, build),
        replays(state, apply, build, image, chain, one),
        replays(state, apply, build, image, chain, two),
    ensures
        outcome(one) == outcome(two),
{
    let ones = choose|states: Seq<S>| #[trigger]
        passes(state, apply, image, chain, states) && if states.len() == chain.len() + 1 {
            call_ensures(build, (states.last(),), one)
        } else {
            one matches Err(error) && applied(
                apply,
                states.last(),
                chain[states.len() - 1],
                Err(error),
            )
        };
    let twos = choose|states: Seq<S>| #[trigger]
        passes(state, apply, image, chain, states) && if states.len() == chain.len() + 1 {
            call_ensures(build, (states.last(),), two)
        } else {
            two matches Err(error) && applied(
                apply,
                states.last(),
                chain[states.len() - 1],
                Err(error),
            )
        };
    let k = if ones.len() < twos.len() {
        ones.len() - 1
    } else {
        twos.len() - 1
    };
    lemma_passes_alike(state, apply, build, image, chain, ones, twos, k);
    if ones.len() < twos.len() {
        assert(applied(apply, twos[k], chain[k], Ok(twos[k + 1])));
        lemma_applied_alike(
            state,
            apply,
            build,
            twos[k],
            chain[k],
            Ok(twos[k + 1]),
            Err(one->Err_0),
        );
    } else if twos.len() < ones.len() {
        assert(applied(apply, ones[k], chain[k], Ok(ones[k + 1])));
        lemma_applied_alike(
            state,
            apply,
            build,
            ones[k],
            chain[k],
            Ok(ones[k + 1]),
            Err(two->Err_0),
        );
    } else if ones.len() < chain.len() + 1 {
        lemma_applied_alike(
            state,
            apply,
            build,
            ones[k],
            chain[k],
            Err(one->Err_0),
            Err(two->Err_0),
        );
    }
}

/// What a repeatable pool model gives is a function of the image and the frames.
pub proof fn law_repeatable_pools_compute<
    M,
    S,
    F: Fn(&M) -> S,
    G: Fn(S, &BlockHeader, &Vec<RpcLog>) -> Result<S, Error>,
    H: Fn(S) -> Result<PoolModel<M>, Error>,
>(state: F, apply: G, build: H)
    requires
        repeatable(state, apply, build),
    ensures
        computes(replayed(state, apply, build), state, apply, build),
{
    assert forall|image: M, chain: Seq<Frame>, result: Result<PoolModel<M>, Error>| #[trigger]
        replays(state, apply, build, image, chain, result) implies outcome(result) == replayed(
        state,
        apply,
        build,
    )(image, chain) by {
        let chosen = choose|result: Result<PoolModel<M>, Error>|
            replays(state, apply, build, image, chain, result);
        law_replay_is_determined(state, apply, build, image, chain, result, chosen);
    }
}

/// Where `apply` leaves a pool state that stands at the block it applied and
/// `build` keeps that block, a replayed model stands at the last frame's block.
pub proof fn law_replayed_models_carry_their_stamp<
    M,
    S,
    F: Fn(&M) -> S,
    G: Fn(S, &BlockHeader, &Vec<RpcLog>) -> Result<S, Error>,
    H: Fn(S) -> Result<PoolModel<M>, Error>,
>(
    state: F,
    apply: G,
    build: H,
    stand: spec_fn(HeaderView) -> BlockView,
    stamp: spec_fn(S) -> BlockView,
)
    requires
        forall|header: HeaderView|
            (#[trigger] stand(header)).number == header.number && stand(header).hash == Some(
                header.hash,
            ),
        forall|from: S, block: &BlockHeader, logs: &Vec<RpcLog>, to: S| #[trigger]
            call_ensures(apply, (from, block, logs), Ok(to)) ==> stamp(to) == stand(block@),
        forall|last: S, model: PoolModel<M>| #[trigger]
            call_ensures(build, (last,), Ok(model)) ==> model.block@ == stamp(last),
    ensures
        stamps(replayed(state, apply, build), stand),
{
    let replay = replayed(state, apply, build);
    assert forall|image: M, chain: Seq<Frame>|
        chain.len() > 0 && #[trigger] replay(image, chain) is Ok implies replay(
        image,
        chain,
    )->Ok_0.block@ == stand(chain.last().header) by {
        let result = choose|result: Result<PoolModel<M>, Error>|
            replays(state, apply, build, image, chain, result);
        let model = result->Ok_0;
        let states = choose|states: Seq<S>| #[trigger]
            passes(state, apply, image, chain, states) && if states.len() == chain.len() + 1 {
                call_ensures(build, (states.last(),), result)
            } else {
                result matches Err(error) && applied(
                    apply,
                    states.last(),
                    chain[states.len() - 1],
                    Err(error),
                )
            };
        let last = chain.len() - 1;
        assert(call_ensures(build, (states.last(),), Ok(model)));
        assert(applied(apply, states[last], chain[last], Ok(states[last + 1])));
    }
}

impl<M> SyncState<M> {
    /// What a notification is answered, and the state after it: a log that is
    /// taken and a header that publishes nothing are answered with `None`.
    pub open spec fn on_note(
        self,
        note: Note,
        replay: spec_fn(M, Seq<Frame>) -> Result<PoolModel<M>, ErrorView>,
    ) -> (Result<Option<UpdateView>, ErrorView>, SyncState<M>) {
        match note {
            Note::Log(log) => {
                let (answer, next) = self.on_log(log);
                match answer {
                    Ok(_) => (Ok(None), next),
                    Err(error) => (Err(error), next),
                }
            },
            Note::Head(header, commitment) => {
                let (plan, next) = self.on_head(header, commitment);
                match plan {
                    HeadPlan::Refuse(error) => (Err(error), next),
                    HeadPlan::Keep => (Ok(None), next),
                    HeadPlan::Publish(chain) => match replay(self.model.image, chain) {
                        Ok(model) => (
                            Ok(Some(UpdateView { block: header, blocks: chain.len() as u64 })),
                            next.published(model, header.number),
                        ),
                        Err(error) => (Err(error), next.fail()),
                    },
                }
            },
        }
    }
}

/// An answer with its update and its error by their views.
pub open spec fn reply(r: Result<Option<Update>, Error>) -> Result<Option<UpdateView>, ErrorView> {
    match r {
        Ok(Some(update)) => Ok(Some(update@)),
        Ok(None) => Ok(None),
        Err(error) => Err(error@),
    }
}

/// A header is answered as [`SyncState::on_note`] says, with the results that
/// replaying gives.
pub proof fn law_answers_follow_the_replay<
    M,
    S,
    F: Fn(&M) -> S,
    G: Fn(S, &BlockHeader, &Vec<RpcLog>) -> Result<S, Error>,
    H: Fn(S) -> Result<PoolModel<M>, Error>,
>(
    was: SyncState<M>,
    header: HeaderView,
    commitment: CommitState,
    state: F,
    apply: G,
    build: H,
    replay: spec_fn(M, Seq<Frame>) -> Result<PoolModel<M>, ErrorView>,
    r: Result<Option<Update>, Error>,
    now: SyncState<M>,
)
    requires
        computes(replay, state, apply, build),
        answers(was, header, commitment, state, apply, build, r, now),
    ensures
        (reply(r), now) == was.on_note(Note::Head(header, commitment), replay),
{
    if let HeadPlan::Publish(chain) = was.on_head(header, commitment).0 {
        let image = was.model.image;
        match r {
            Ok(Some(update)) => {
                let result: Result<PoolModel<M>, Error> = Ok(now.model);
                assert(replays(state, apply, build, image, chain, result));
                assert(outcome(result) == replay(image, chain));
            },
            Ok(None) => {},
            Err(error) => {
                let result: Result<PoolModel<M>, Error> = Err(error);
                assert(replays(state, apply, build, image, chain, result));
                assert(outcome(result) == replay(image, chain));
            },
        }
    }
}

/// A header is answered with an update exactly when the published number grows.
/// The update then names the header, which is finalized, and the distance, at
/// least one block, and the model stands at the header's block. Otherwise the
/// model stays as it was.
pub proof fn law_updates_are_the_moves<M>(
    s: SyncState<M>,
    header: HeaderView,
    commitment: CommitState,
    replay: spec_fn(M, Seq<Frame>) -> Result<PoolModel<M>, ErrorView>,
    stand: spec_fn(HeaderView) -> BlockView,
)
    requires
        stamps(replay, stand),
    ensures
        ({
            let (answer, now) = s.on_note(Note::Head(header, commitment), replay);
            &&& (answer matches Ok(Some(_))) <==> now.model.block.number > s.model.block.number
            &&& match answer {
                Ok(Some(update)) => {
                    &&& commitment == CommitState::Finalized
                    &&& update.block == header
                    &&& now.model.block@ == stand(header)
                    &&& update.blocks == now.model.block.number - s.model.block.number
                    &&& update.blocks >= 1
                },
                _ => now.model == s.model,
            }
        }),
{
    let pending = s.sealed().pending;
    let number = s.model.block.number;
    let hash = s.model.block.hash;
    if let HeadPlan::Publish(chain) = s.on_head(header, commitment).0 {
        assert(ancestry(pending, number, hash, header, line(pending, number, hash, header)));
        assert(chain.len() == header.number - number);
        if let Ok(model) = replay(s.model.image, chain) {
            assert(model.block@ == stand(header));
            assert(model.block@.number == stand(header).number);
        }
    }
}

/// Whether the pool state that is taken out of a built model is the one that it
/// was built from.
pub open spec fn gives_back<
    M,
    S,
    F: Fn(&M) -> S,
    H: Fn(S) -> Result<PoolModel<M>, Error>,
>(state: F, build: H) -> bool {
    forall|last: S, model: PoolModel<M>, again: S| #[trigger]
        call_ensures(build, (last,), Ok(model)) && #[trigger] call_ensures(
            state,
            (&model.image,),
            again,
        ) ==> again == last
}

/// Replaying two lines one after the other ends as replaying them at once may.
pub proof fn law_replays_compose<
    M,
    S,
    F: Fn(&M) -> S,
    G: Fn(S, &BlockHeader, &Vec<RpcLog>) -> Result<S, Error>,
    H: Fn(S) -> Result<PoolModel<M>, Error>,
>(
    state: F,
    apply: G,
    build: H,
    image: M,
    left: Seq<Frame>,
    right: Seq<Frame>,
    mid: PoolModel<M>,
    result: Result<PoolModel<M>, Error>,
)
    requires
        gives_back(state, build),
        replays(state, apply, build, image, left, Ok(mid)),
        replays(state, apply, build, mid.image, right, result),
    ensures
        replays(state, apply, build, image, left + right, result),
{
    let ones = choose|states: Seq<S>| #[trigger]
        passes(state, apply, image, left, states) && states.len() == left.len() + 1
            && call_ensures(build, (states.last(),), Ok(mid));
    let twos = choose|states: Seq<S>| #[trigger]
        passes(state, apply, mid.image, right, states) && if states.len() == right.len() + 1 {
            call_ensures(build, (states.last(),), result)
        } else {
            result matches Err(error) && applied(
                apply,
                states.last(),
                right[states.len() - 1],
                Err(error),
            )
        };
    assert(twos[0] == ones.last());
    let n = left.len() as int;
    let chain = left + right;
    let states = ones + twos.drop_first();
    assert forall|i: int| 0 <= i < twos.len() implies states[n + i] == #[trigger] twos[i] by {}
    assert forall|i: int, j: int| 0 <= i && j == i + 1 && j < states.len() implies applied(
        apply,
        #[trigger] states[i],
        chain[i],
        Ok(#[trigger] states[j]),
    ) by {
        if i < n {
            assert(applied(apply, ones[i], left[i], Ok(ones[j])));
        } else {
            assert(applied(apply, twos[i - n], right[i - n], Ok(twos[j - n])));
        }
    }
    assert(passes(state, apply, image, chain, states));
    assert(states.last() == twos.last());
    if twos.len() < right.len() + 1 {
        assert(chain[states.len() - 1] == right[twos.len() - 1]);
    }
}

/// Finalizing an ancestor first makes no difference in the end: a header that is
/// finalized after one of its ancestors leaves the reducer in the same state, the
/// model included, as when it is finalized at once, and the distances of the two
/// updates add up to the distance of the one.
pub proof fn law_finalizing_in_steps_ends_alike<
    M,
    S,
    F: Fn(&M) -> S,
    G: Fn(S, &BlockHeader, &Vec<RpcLog>) -> Result<S, Error>,
    H: Fn(S) -> Result<PoolModel<M>, Error>,
>(
    was: SyncState<M>,
    first: HeaderView,
    last: HeaderView,
    state: F,
    apply: G,
    build: H,
    one: Update,
    mid: SyncState<M>,
    two: Update,
    end: SyncState<M>,
    r: Result<Option<Update>, Error>,
    direct: SyncState<M>,
)
    requires
        repeatable(state, apply, build),
        gives_back(state, build),
        answers(was, first, CommitState::Finalized, state, apply, build, Ok(Some(one)), mid),
        mid.model.block.number == first.number,
        mid.model.block.hash == Some(first.hash),
        answers(mid, last, CommitState::Finalized, state, apply, build, Ok(Some(two)), end),
        answers(was, last, CommitState::Finalized, state, apply, build, r, direct),
    ensures
        one.blocks == first.number - was.model.block.number,
        two.blocks == last.number - first.number,
        r matches Ok(Some(update)) && update.blocks == one.blocks + two.blocks && update.block@
            == last && two.block@ == last,
        direct == end,
{
    let pending = was.sealed().pending;
    let number = was.model.block.number;
    let hash = was.model.block.hash;
    let left = line(pending, number, hash, first);
    assert(ancestry(pending, number, hash, first, left));
    let kept = mid.sealed().pending;
    assert(mid.active is None);
    assert(kept == above(pending, first.number));
    let right = line(kept, first.number, Some(first.hash), last);
    assert(ancestry(kept, first.number, Some(first.hash), last, right));
    let chain = left + right;
    assert forall|i: int| 0 <= i < chain.len() implies {
        &&& pending.contains_key((#[trigger] chain[i]).header.hash)
        &&& pending[chain[i].header.hash] == chain[i]
        &&& chain[i].complete
        &&& chain[i].header.number == number + 1 + i
    } by {
        if i < left.len() {
            assert(chain[i] == left[i]);
        } else {
            assert(chain[i] == right[i - left.len()]);
            assert(kept.contains_key(right[i - left.len()].header.hash));
        }
    }
    assert forall|i: int, j: int| 0 <= i && j == i + 1 && j < chain.len() implies (
    #[trigger] chain[j]).header.parent_hash == (#[trigger] chain[i]).header.hash by {
        if j < left.len() {
            assert(chain[i] == left[i] && chain[j] == left[j]);
        } else if i >= left.len() {
            assert(chain[i] == right[i - left.len()] && chain[j] == right[j - left.len()]);
        } else {
            assert(chain[i] == left.last() && chain[j] == right[0]);
        }
    }
    assert(chain[0] == left[0]);
    assert(chain.last() == right.last());
    assert(ancestry(pending, number, hash, last, chain));
    law_settled_line_is_published(was, last, chain);
    let image = was.model.image;
    law_replays_compose(state, apply, build, image, left, right, mid.model, Ok(end.model));
    match r {
        Ok(Some(update)) => {
            law_replay_is_determined(
                state,
                apply,
                build,
                image,
                chain,
                Ok(end.model),
                Ok(direct.model),
            );
            assert(outcome(Ok::<PoolModel<M>, Error>(end.model)) == outcome(
                Ok::<PoolModel<M>, Error>(direct.model),
            ));
            assert(above(above(pending, first.number), last.number) =~= above(
                pending,
                last.number,
            ));
            assert(direct =~= end);
        },
        Ok(None) => {},
        Err(error) => {
            law_replay_is_determined(
                state,
                apply,
                build,
                image,
                chain,
                Ok(end.model),
                Err(error),
            );
        },
    }
}

} // verus!

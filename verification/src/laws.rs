//! What holds of the reducer over several notifications.
use crate::ancestry::{ancestry, law_ancestry_is_unique, line, settled};
use crate::client::{steps, ActionView, ClientState, Event};
use crate::error::{Error, ErrorView};
use crate::json::json;
use crate::pending::Frame;
use crate::synchronizer::{answers, HeadPlan, SyncState};
use crate::types::{
    BlockHeader, CommitState, HeaderView, LogView, PoolModel, RpcLog, Update, B256,
};
use crate::wire::commit_state;
use vstd::prelude::*;

verus! {

/// A failed stream is not continued: every log and every header is refused as
/// discontinuous, and nothing changes.
pub proof fn law_failed_stream_stays_failed<M>(
    s: SyncState<M>,
    log: LogView,
    header: HeaderView,
    commitment: CommitState,
)
    requires
        s.failed,
    ensures
        s.on_log(log) == (Err::<(), ErrorView>(ErrorView::Discontinuous), s),
        s.on_head(header, commitment) == (HeadPlan::Refuse(ErrorView::Discontinuous), s),
{
}

/// A log never changes the published model, and it fails the stream exactly when
/// it is refused.
pub proof fn law_logs_do_not_publish<M>(s: SyncState<M>, log: LogView)
    ensures
        s.on_log(log).1.model == s.model,
        s.on_log(log).1.failed == (s.on_log(log).0 is Err),
{
}

/// Only a header that is answered with an update changes the published model: an
/// error leaves it as it was, and fails the stream.
pub proof fn law_errors_are_atomic<
    M,
    S,
    F: Fn(&M) -> S,
    G: Fn(S, &BlockHeader, &Vec<RpcLog>) -> Result<S, Error>,
    H: Fn(S) -> Result<PoolModel<M>, Error>,
>(
    was: SyncState<M>,
    header: HeaderView,
    commitment: CommitState,
    state: F,
    apply: G,
    build: H,
    r: Result<Option<Update>, Error>,
    now: SyncState<M>,
)
    requires
        answers(was, header, commitment, state, apply, build, r, now),
    ensures
        !(r matches Ok(Some(_))) ==> now.model == was.model,
        now.failed == (r is Err),
{
}

/// Only a finalized header above the published block publishes anything.
pub proof fn law_only_finalized_heads_publish<M>(
    s: SyncState<M>,
    header: HeaderView,
    commitment: CommitState,
)
    requires
        s.on_head(header, commitment).0 is Publish,
    ensures
        !s.failed,
        commitment == CommitState::Finalized,
        header.number > s.model.block.number,
{
}

/// A log that was taken is taken again without effect.
pub proof fn law_repeated_logs_change_nothing<M>(s: SyncState<M>, log: LogView)
    requires
        s.wf(),
        s.on_log(log).0 is Ok,
    ensures
        s.on_log(log).1.on_log(log) == (Ok::<(), ErrorView>(()), s.on_log(log).1),
{
    let next = s.on_log(log).1;
    assert(next.on_log(log).1 =~= next);
}

/// Two logs that are each acceptable and do not contend for one position may
/// arrive in either order.
pub proof fn law_logs_commute<M>(s: SyncState<M>, left: LogView, right: LogView)
    requires
        s.wf(),
        s.on_log(left).0 is Ok,
        s.on_log(right).0 is Ok,
        left.position() != right.position() || left == right,
    ensures
        s.on_log(left).1.on_log(right).0 is Ok,
        s.on_log(right).1.on_log(left).0 is Ok,
        s.on_log(left).1.on_log(right).1 == s.on_log(right).1.on_log(left).1,
{
    let one = s.on_log(left).1.on_log(right).1;
    let two = s.on_log(right).1.on_log(left).1;
    if left.block_number > s.model.block.number && right.block_number > s.model.block.number {
        let hash = left.block_hash;
        assert(right.block_hash == hash);
        assert(one.pending[hash].logs =~= two.pending[hash].logs);
    }
    assert(one.pending =~= two.pending);
    assert(one =~= two);
}

/// A proposal that repeats a known header opens the frame again and keeps the
/// logs that were seen.
pub proof fn law_repeated_proposals_keep_their_logs<M>(s: SyncState<M>, header: HeaderView)
    requires
        s.wf(),
        !s.failed,
        header.number > s.model.block.number,
        s.pending.contains_key(header.hash),
        s.pending[header.hash].header == header,
    ensures
        ({
            let (plan, next) = s.on_head(header, CommitState::Proposed);
            &&& plan is Keep
            &&& next.active == Some(header.hash)
            &&& next.pending[header.hash] == (Frame {
                complete: false,
                ..s.pending[header.hash]
            })
        }),
{
}

/// Whatever header comes next, of whatever stage, closes the frame that was open,
/// unless it proposes that very block again.
pub proof fn law_next_header_closes_the_frame<M>(
    s: SyncState<M>,
    hash: B256,
    header: HeaderView,
    commitment: CommitState,
)
    requires
        s.wf(),
        !s.failed,
        s.active == Some(hash),
        header.hash != hash || commitment != CommitState::Proposed,
    ensures
        s.on_head(header, commitment).1.pending.contains_key(hash),
        s.on_head(header, commitment).1.pending[hash] == (Frame {
            complete: true,
            ..s.pending[hash]
        }),
{
}

/// A log of an unsettled block is refused once a header other than a proposal of
/// its block has come.
pub proof fn law_late_logs_are_refused<M>(
    s: SyncState<M>,
    header: HeaderView,
    commitment: CommitState,
    log: LogView,
)
    requires
        log.block_hash != header.hash || commitment != CommitState::Proposed,
        log.block_number > s.model.block.number,
    ensures
        s.on_head(header, commitment).1.on_log(log).0 == Err::<(), ErrorView>(
            ErrorView::Discontinuous,
        ),
{
}

/// A line of closed frames from the published block to a finalized header is what
/// that header publishes, whatever else is pending.
pub proof fn law_settled_line_is_published<M>(
    s: SyncState<M>,
    header: HeaderView,
    chain: Seq<Frame>,
)
    requires
        !s.failed,
        ancestry(
            s.sealed().pending,
            s.model.block.number,
            s.model.block.hash,
            header,
            chain,
        ),
    ensures
        s.on_head(header, CommitState::Finalized) == (HeadPlan::Publish(chain), s.sealed()),
{
    let pending = s.sealed().pending;
    let number = s.model.block.number;
    let hash = s.model.block.hash;
    assert(settled(pending, number, hash, header));
    law_ancestry_is_unique(
        pending,
        number,
        hash,
        header,
        chain,
        line(pending, number, hash, header),
    );
}

/// A proposal that is not part of the line, such as an abandoned sibling, has no
/// part in what is published: without it the same line is settled.
pub proof fn law_abandoned_proposals_take_no_part(
    pending: Map<B256, Frame>,
    number: u64,
    hash: Option<B256>,
    header: HeaderView,
    chain: Seq<Frame>,
    orphan: B256,
)
    requires
        ancestry(pending, number, hash, header, chain),
        forall|i: int| 0 <= i < chain.len() ==> (#[trigger] chain[i]).header.hash != orphan,
    ensures
        ancestry(pending.remove(orphan), number, hash, header, chain),
{
}

/// A finalized header above the published block that was never proposed is
/// refused; no empty block is made up for it.
pub proof fn law_missing_proposal_is_refused<M>(s: SyncState<M>, header: HeaderView)
    requires
        s.wf(),
        !s.failed,
        header.number > s.model.block.number,
        !s.pending.contains_key(header.hash),
    ensures
        s.on_head(header, CommitState::Finalized) == (
            HeadPlan::Refuse(ErrorView::Discontinuous),
            s.sealed().fail(),
        ),
{
    let pending = s.sealed().pending;
    let number = s.model.block.number;
    let hash = s.model.block.hash;
    assert forall|chain: Seq<Frame>| !ancestry(pending, number, hash, header, chain) by {
        if ancestry(pending, number, hash, header, chain) {
            assert(chain[chain.len() - 1].header.hash == header.hash);
        }
    }
}

/// A finalized header at the published number with another hash is refused.
pub proof fn law_forked_finalization_is_refused<M>(s: SyncState<M>, header: HeaderView)
    requires
        header.number == s.model.block.number,
        s.model.block.hash != Some(header.hash),
    ensures
        s.on_head(header, CommitState::Finalized).0 == HeadPlan::Refuse(ErrorView::Discontinuous),
{
}

/// An update tells how far the model moved, at least one block; what it settled
/// or passed by is no longer pending, and what lies above it stays as it was.
pub proof fn law_updates_settle_their_blocks<
    M,
    S,
    F: Fn(&M) -> S,
    G: Fn(S, &BlockHeader, &Vec<RpcLog>) -> Result<S, Error>,
    H: Fn(S) -> Result<PoolModel<M>, Error>,
>(
    was: SyncState<M>,
    header: HeaderView,
    commitment: CommitState,
    state: F,
    apply: G,
    build: H,
    update: Update,
    now: SyncState<M>,
)
    requires
        answers(was, header, commitment, state, apply, build, Ok(Some(update)), now),
    ensures
        update.block@ == header,
        update.blocks == header.number - was.model.block.number,
        update.blocks >= 1,
        now.active is None,
        forall|hash: B256| #[trigger]
            now.pending.contains_key(hash) <==> was.sealed().pending.contains_key(hash)
                && was.sealed().pending[hash].header.number > header.number,
        forall|hash: B256| #[trigger]
            now.pending.contains_key(hash) ==> now.pending[hash] == was.sealed().pending[hash],
{
    let pending = was.sealed().pending;
    let number = was.model.block.number;
    let hash = was.model.block.hash;
    assert(ancestry(pending, number, hash, header, line(pending, number, hash, header)));
}

/// The state stays well-formed: frames under their own hashes, each with logs of
/// its own block only, and the open frame pending.
pub proof fn law_states_stay_well_formed<M>(
    s: SyncState<M>,
    log: LogView,
    header: HeaderView,
    commitment: CommitState,
    model: PoolModel<M>,
)
    requires
        s.wf(),
    ensures
        SyncState::seeded(model).wf(),
        s.on_log(log).1.wf(),
        s.on_head(header, commitment).1.wf(),
        s.on_head(header, commitment).0 is Publish ==> s.on_head(header, commitment).1.published(
            model,
            header.number,
        ).wf(),
{
    let logged = s.on_log(log).1;
    assert forall|h: B256| #[trigger] logged.pending.contains_key(h) implies logged.pending[h].header.hash
        == h && logged.pending[h].owns_its_logs() by {
        assert(s.pending.contains_key(h));
        assert(s.pending[h].owns_its_logs());
    }
    let sealed = s.sealed();
    assert forall|h: B256| #[trigger] sealed.pending.contains_key(h) implies sealed.pending[h].header.hash
        == h && sealed.pending[h].owns_its_logs() by {
        assert(s.pending.contains_key(h));
        assert(s.pending[h].owns_its_logs());
    }
    let noted = s.on_head(header, commitment).1;
    assert forall|h: B256| #[trigger] noted.pending.contains_key(h) implies noted.pending[h].header.hash
        == h && noted.pending[h].owns_its_logs() by {
        if sealed.pending.contains_key(h) {
            assert(sealed.pending[h].owns_its_logs());
        }
    }
}

/// The state after a run of logs.
pub open spec fn fed<M>(s: SyncState<M>, logs: Seq<LogView>) -> SyncState<M>
    decreases logs.len(),
{
    if logs.len() == 0 {
        s
    } else {
        fed(s, logs.drop_last()).on_log(logs.last()).1
    }
}

/// Whether the logs all belong to this block and none contradicts another.
pub open spec fn of_block(logs: Seq<LogView>, header: HeaderView) -> bool {
    &&& forall|i: int|
        0 <= i < logs.len() ==> {
            &&& (#[trigger] logs[i]).block_hash == header.hash
            &&& logs[i].block_number == header.number
            &&& !logs[i].removed
        }
    &&& forall|i: int, j: int|
        0 <= i < logs.len() && 0 <= j < logs.len() && (#[trigger] logs[i]).position() == (
        #[trigger] logs[j]).position() ==> logs[i] == logs[j]
}

/// Whether the map files exactly these logs, each under its position.
pub open spec fn files(map: Map<(u64, u64), LogView>, logs: Seq<LogView>) -> bool {
    &&& forall|i: int|
        0 <= i < logs.len() ==> map.contains_key((#[trigger] logs[i]).position())
            && map[logs[i].position()] == logs[i]
    &&& forall|p: (u64, u64)| #[trigger]
        map.contains_key(p) ==> exists|i: int|
            0 <= i < logs.len() && (#[trigger] logs[i]).position() == p
}

proof fn lemma_fed<M>(s: SyncState<M>, header: HeaderView, logs: Seq<LogView>)
    requires
        !s.failed,
        s.active == Some(header.hash),
        header.number > s.model.block.number,
        s.pending.contains_key(header.hash),
        s.pending[header.hash] == (Frame { header, logs: Map::empty(), complete: false }),
        of_block(logs, header),
    ensures
        ({
            let n = fed(s, logs);
            &&& !n.failed
            &&& n.active == s.active
            &&& n.model == s.model
            &&& n.pending == s.pending.insert(header.hash, n.pending[header.hash])
            &&& n.pending[header.hash].header == header
            &&& !n.pending[header.hash].complete
            &&& files(n.pending[header.hash].logs, logs)
        }),
    decreases logs.len(),
{
    if logs.len() == 0 {
        assert(s.pending =~= s.pending.insert(header.hash, s.pending[header.hash]));
    } else {
        let shorter = logs.drop_last();
        let log = logs.last();
        assert forall|i: int| 0 <= i < shorter.len() implies #[trigger] shorter[i] == logs[i] by {}
        lemma_fed(s, header, shorter);
        let prior = fed(s, shorter);
        let next = fed(s, logs);
        let map = prior.pending[header.hash].logs;
        assert(log == logs[logs.len() - 1]);
        if map.contains_key(log.position()) {
            let i = choose|i: int|
                0 <= i < shorter.len() && (#[trigger] shorter[i]).position() == log.position();
            assert(shorter[i] == logs[i]);
            assert(logs[i] == log);
        }
        let filed = next.pending[header.hash].logs;
        assert forall|i: int| 0 <= i < logs.len() implies filed.contains_key(
            (#[trigger] logs[i]).position(),
        ) && filed[logs[i].position()] == logs[i] by {
            if i < shorter.len() {
                assert(shorter[i] == logs[i]);
            }
        }
        assert forall|p: (u64, u64)| #[trigger] filed.contains_key(p) implies exists|i: int|
            0 <= i < logs.len() && (#[trigger] logs[i]).position() == p by {
            if p == log.position() {
                assert(logs[logs.len() - 1].position() == p);
            } else {
                let i = choose|i: int|
                    0 <= i < shorter.len() && (#[trigger] shorter[i]).position() == p;
                assert(logs[i] == shorter[i]);
            }
        }
        assert(next.pending =~= s.pending.insert(header.hash, next.pending[header.hash]));
    }
}

/// Finalizing a fresh child of the published block replays exactly the logs that
/// were pushed for it: in whatever order and however often they came, each is
/// filed once under its position.
pub proof fn law_finalized_block_replays_its_logs_once<M>(
    s: SyncState<M>,
    header: HeaderView,
    logs: Seq<LogView>,
)
    requires
        s.wf(),
        !s.failed,
        !s.pending.contains_key(header.hash),
        header.number == s.model.block.number + 1,
        Some(header.parent_hash) == s.model.block.hash,
        of_block(logs, header),
    ensures
        ({
            let proposed = s.on_head(header, CommitState::Proposed).1;
            let (plan, next) = fed(proposed, logs).on_head(header, CommitState::Finalized);
            &&& s.on_head(header, CommitState::Proposed).0 is Keep
            &&& !fed(proposed, logs).failed
            &&& plan matches HeadPlan::Publish(chain) && {
                &&& chain.len() == 1
                &&& chain[0].header == header
                &&& files(chain[0].logs, logs)
            }
            &&& next.model == s.model
        }),
{
    let proposed = s.on_head(header, CommitState::Proposed).1;
    lemma_fed(proposed, header, logs);
    let full = fed(proposed, logs);
    let frame = Frame { complete: true, ..full.pending[header.hash] };
    let chain = seq![frame];
    assert(full.sealed().pending[header.hash] == frame);
    assert(ancestry(
        full.sealed().pending,
        full.model.block.number,
        full.model.block.hash,
        header,
        chain,
    ));
    law_settled_line_is_published(full, header, chain);
}

/// Pushing a whole frame a second time, proposal and logs, changes nothing.
pub proof fn law_repeated_frames_change_nothing<M>(
    s: SyncState<M>,
    header: HeaderView,
    logs: Seq<LogView>,
)
    requires
        s.wf(),
        !s.failed,
        !s.pending.contains_key(header.hash),
        header.number > s.model.block.number,
        of_block(logs, header),
    ensures
        ({
            let once = fed(s.on_head(header, CommitState::Proposed).1, logs);
            &&& !once.failed
            &&& fed(once.on_head(header, CommitState::Proposed).1, logs) == once
        }),
{
    let proposed = s.on_head(header, CommitState::Proposed).1;
    lemma_fed(proposed, header, logs);
    let once = fed(proposed, logs);
    let again = once.on_head(header, CommitState::Proposed).1;
    assert(again.pending =~= once.pending);
    assert(again =~= once);
    lemma_fed_known(once, header, logs, logs);
}

proof fn lemma_fed_known<M>(
    s: SyncState<M>,
    header: HeaderView,
    known: Seq<LogView>,
    logs: Seq<LogView>,
)
    requires
        !s.failed,
        s.active == Some(header.hash),
        header.number > s.model.block.number,
        s.pending[header.hash].header == header,
        !s.pending[header.hash].complete,
        of_block(known, header),
        files(s.pending[header.hash].logs, known),
        logs.len() <= known.len(),
        forall|i: int| 0 <= i < logs.len() ==> #[trigger] logs[i] == known[i],
    ensures
        fed(s, logs) == s,
    decreases logs.len(),
{
    if logs.len() > 0 {
        let shorter = logs.drop_last();
        assert forall|i: int| 0 <= i < shorter.len() implies #[trigger] shorter[i] == known[i] by {
            assert(logs[i] == known[i]);
        }
        lemma_fed_known(s, header, known, shorter);
        assert(logs.last() == known[logs.len() - 1]);
    }
}

/// Notifications for other blocks leave a closed frame alone, so several proposed
/// blocks stay side by side until a finalized header settles them.
pub proof fn law_other_frames_are_left_alone<M>(
    s: SyncState<M>,
    hash: B256,
    log: LogView,
    header: HeaderView,
    commitment: CommitState,
)
    requires
        s.pending.contains_key(hash),
        s.active != Some(hash),
    ensures
        log.block_hash != hash ==> s.on_log(log).1.pending.contains_key(hash) && s.on_log(
            log,
        ).1.pending[hash] == s.pending[hash],
        header.hash != hash ==> s.on_head(header, commitment).1.pending.contains_key(hash)
            && s.on_head(header, commitment).1.pending[hash] == s.pending[hash],
{
}

/// Only an update that is given to the caller changes the client's model, and an
/// error that is given to the caller fails its stream for good.
pub proof fn law_client_errors_are_final<
    M,
    S,
    F: Fn(&M) -> S,
    G: Fn(S, &BlockHeader, &Vec<RpcLog>) -> Result<S, Error>,
    H: Fn(S) -> Result<PoolModel<M>, Error>,
>(
    was: ClientState<M>,
    event: Event,
    state: F,
    apply: G,
    build: H,
    action: ActionView,
    now: ClientState<M>,
)
    requires
        steps(was, event, state, apply, build, action, now),
    ensures
        !(action matches ActionView::Return(Ok(_))) ==> now.sync.model == was.sync.model,
        action matches ActionView::Return(Err(_)) ==> now.sync.failed,
        was.sync.failed && event is Begin ==> action == ActionView::Return(
            Err(ErrorView::Discontinuous),
        ) && now == was,
        now.subscriptions == was.subscriptions,
{
    if let Event::Head(payload, Ok(header)) = event {
        if let Some(stage) = commit_state(json(payload)) {
            let (r, sync) = choose|r: Result<Option<Update>, Error>, sync: SyncState<M>| #[trigger]
                answers(was.sync, header@, stage, state, apply, build, r, sync) && (action, now)
                    == was.answered(r, sync);
            law_errors_are_atomic(was.sync, header@, stage, state, apply, build, r, sync);
        }
    }
}

/// A message is read only when no notification is queued, and the queue is worked
/// off from its front, one message at a time.
pub proof fn law_queued_notifications_come_first<M>(client: ClientState<M>)
    ensures
        client.advance().0 is Read <==> client.queued.len() == 0,
        client.queued.len() > 0 ==> client.advance().1.queued == client.queued.drop_first(),
{
}

} // verus!

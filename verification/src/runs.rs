//! What holds over whole runs of the reducer, and of two runs side by side.
//!
//! A run is a sequence of notifications taken one after the other from a state,
//! each answered as [`SyncState::on_note`] says.
use crate::ancestry::{ancestry, line};
use crate::error::ErrorView;
use crate::laws::{fed, law_settled_line_is_published, law_states_stay_well_formed};
use crate::pending::Frame;
use crate::replay::{law_updates_are_the_moves, stamps};
use crate::stream::Note;
use crate::synchronizer::{HeadPlan, SyncState};
use crate::types::{BlockView, CommitState, HeaderView, LogView, PoolModel, UpdateView, B256};
use vstd::prelude::*;

verus! {

/// The state after a run.
pub open spec fn after<M>(
    s: SyncState<M>,
    notes: Seq<Note>,
    replay: spec_fn(M, Seq<Frame>) -> Result<PoolModel<M>, ErrorView>,
) -> SyncState<M>
    decreases notes.len(),
{
    if notes.len() == 0 {
        s
    } else {
        after(s, notes.drop_last(), replay).on_note(notes.last(), replay).1
    }
}

/// What the notifications of a run are answered, in order.
pub open spec fn replies<M>(
    s: SyncState<M>,
    notes: Seq<Note>,
    replay: spec_fn(M, Seq<Frame>) -> Result<PoolModel<M>, ErrorView>,
) -> Seq<Result<Option<UpdateView>, ErrorView>>
    decreases notes.len(),
{
    if notes.len() == 0 {
        Seq::empty()
    } else {
        let shorter = notes.drop_last();
        replies(s, shorter, replay).push(after(s, shorter, replay).on_note(notes.last(), replay).0)
    }
}

/// The block of the last update among the answers, or the seed's block.
pub open spec fn last_block(
    answers: Seq<Result<Option<UpdateView>, ErrorView>>,
    seed: BlockView,
    stand: spec_fn(HeaderView) -> BlockView,
) -> BlockView
    decreases answers.len(),
{
    if answers.len() == 0 {
        seed
    } else {
        match answers.last() {
            Ok(Some(update)) => stand(update.block),
            _ => last_block(answers.drop_last(), seed, stand),
        }
    }
}

/// At any time, errors or not, the model stands at the block of the last update
/// that was answered, or at the seed's block where there was none; a hash that
/// the seed knows is known ever after.
pub proof fn law_model_stands_at_the_last_update<M>(
    seed: PoolModel<M>,
    notes: Seq<Note>,
    replay: spec_fn(M, Seq<Frame>) -> Result<PoolModel<M>, ErrorView>,
    stand: spec_fn(HeaderView) -> BlockView,
)
    requires
        stamps(replay, stand),
        seed.block.hash is Some,
    ensures
        ({
            let s = SyncState::seeded(seed);
            let now = after(s, notes, replay);
            &&& now.model.block@ == last_block(replies(s, notes, replay), seed.block@, stand)
            &&& now.model.block.hash is Some
        }),
    decreases notes.len(),
{
    if notes.len() > 0 {
        let s = SyncState::seeded(seed);
        let shorter = notes.drop_last();
        law_model_stands_at_the_last_update(seed, shorter, replay, stand);
        let prior = after(s, shorter, replay);
        let answers = replies(s, notes, replay);
        assert(answers.drop_last() =~= replies(s, shorter, replay));
        match notes.last() {
            Note::Log(_) => {},
            Note::Head(header, commitment) => {
                law_updates_are_the_moves(prior, header, commitment, replay, stand);
                assert(stand(header).hash is Some);
                assert(after(s, notes, replay).model.block@.hash == after(
                    s,
                    notes,
                    replay,
                ).model.block.hash);
            },
        }
    }
}

/// Whether the state is well-formed and every frame lies above the published block.
pub open spec fn orderly<M>(s: SyncState<M>) -> bool {
    &&& s.wf()
    &&& forall|hash: B256| #[trigger]
        s.pending.contains_key(hash) ==> s.pending[hash].header.number > s.model.block.number
}

proof fn lemma_orderly_step<M>(
    s: SyncState<M>,
    note: Note,
    replay: spec_fn(M, Seq<Frame>) -> Result<PoolModel<M>, ErrorView>,
    stand: spec_fn(HeaderView) -> BlockView,
)
    requires
        stamps(replay, stand),
        orderly(s),
    ensures
        orderly(s.on_note(note, replay).1),
{
    let now = s.on_note(note, replay).1;
    match note {
        Note::Log(log) => {
            law_states_stay_well_formed(s, log, arbitrary(), arbitrary(), s.model);
            assert forall|hash: B256| #[trigger] now.pending.contains_key(hash) implies s.pending.contains_key(
                hash,
            ) && now.pending[hash].header == s.pending[hash].header by {}
        },
        Note::Head(header, commitment) => {
            law_states_stay_well_formed(s, arbitrary(), header, commitment, now.model);
            law_updates_are_the_moves(s, header, commitment, replay, stand);
            assert forall|hash: B256| #[trigger] now.pending.contains_key(hash) implies now.pending[hash].header.number
                > now.model.block.number by {
                assert(s.pending.contains_key(hash) || hash == header.hash);
                assert(stand(header).number == header.number);
            }
        },
    }
}

/// At any time, errors or not, every proposal that is held lies above the
/// published block, is filed under its own hash, and holds logs of its own block
/// only, each under its position. So a finalization leaves nothing at or below
/// its number.
pub proof fn law_held_proposals_lie_above_the_published_block<M>(
    seed: PoolModel<M>,
    notes: Seq<Note>,
    replay: spec_fn(M, Seq<Frame>) -> Result<PoolModel<M>, ErrorView>,
    stand: spec_fn(HeaderView) -> BlockView,
    hash: B256,
)
    requires
        stamps(replay, stand),
        after(SyncState::seeded(seed), notes, replay).pending.contains_key(hash),
    ensures
        ({
            let s = after(SyncState::seeded(seed), notes, replay);
            let frame = s.pending[hash];
            &&& frame.header.hash == hash
            &&& frame.header.number > s.model.block.number
            &&& frame.owns_its_logs()
        }),
{
    lemma_orderly(seed, notes, replay, stand);
}

proof fn lemma_orderly<M>(
    seed: PoolModel<M>,
    notes: Seq<Note>,
    replay: spec_fn(M, Seq<Frame>) -> Result<PoolModel<M>, ErrorView>,
    stand: spec_fn(HeaderView) -> BlockView,
)
    requires
        stamps(replay, stand),
    ensures
        orderly(after(SyncState::seeded(seed), notes, replay)),
    decreases notes.len(),
{
    if notes.len() > 0 {
        let shorter = notes.drop_last();
        lemma_orderly(seed, shorter, replay, stand);
        lemma_orderly_step(
            after(SyncState::seeded(seed), shorter, replay),
            notes.last(),
            replay,
            stand,
        );
    }
}

/// Whether every one of these logs is taken.
pub open spec fn taken<M>(s: SyncState<M>, logs: Seq<LogView>) -> bool {
    logs.len() > 0 ==> !fed(s, logs).failed
}

/// Whether one of the logs has this position and belongs to an unsettled block.
spec fn fresh<M>(s: SyncState<M>, logs: Seq<LogView>, p: (u64, u64)) -> bool {
    exists|i: int|
        0 <= i < logs.len() && (#[trigger] logs[i]).position() == p && logs[i].block_number
            > s.model.block.number
}

proof fn lemma_failure_stays<M>(s: SyncState<M>, logs: Seq<LogView>)
    requires
        s.failed,
    ensures
        fed(s, logs) == s,
    decreases logs.len(),
{
    if logs.len() > 0 {
        lemma_failure_stays(s, logs.drop_last());
    }
}

/// Whether the open frame gained these logs and nothing else changed.
spec fn gained<M>(s: SyncState<M>, logs: Seq<LogView>, n: SyncState<M>) -> bool {
    &&& n == (SyncState { pending: n.pending, ..s })
    &&& n.pending.dom() == s.pending.dom()
    &&& forall|h: B256|
        s.pending.contains_key(h) && s.active != Some(h) ==> #[trigger] n.pending[h]
            == s.pending[h]
    &&& forall|i: int|
        0 <= i < logs.len() && (#[trigger] logs[i]).block_number > s.model.block.number
            ==> s.active == Some(logs[i].block_hash)
    &&& s.active matches Some(h) ==> {
        let old_logs = s.pending[h].logs;
        let new_logs = n.pending[h].logs;
        &&& n.pending[h] == (Frame { logs: new_logs, ..s.pending[h] })
        &&& forall|p: (u64, u64)| #[trigger]
            new_logs.contains_key(p) <==> old_logs.contains_key(p) || fresh(s, logs, p)
        &&& forall|p: (u64, u64)| #[trigger]
            old_logs.contains_key(p) ==> new_logs[p] == old_logs[p]
        &&& forall|i: int|
            0 <= i < logs.len() && (#[trigger] logs[i]).block_number > s.model.block.number
                ==> new_logs[logs[i].position()] == logs[i]
    }
}

proof fn lemma_fresh<M>(s: SyncState<M>, logs: Seq<LogView>, p: (u64, u64))
    requires
        logs.len() > 0,
    ensures
        fresh(s, logs, p) <==> fresh(s, logs.drop_last(), p) || (logs.last().position() == p
            && logs.last().block_number > s.model.block.number),
{
    let shorter = logs.drop_last();
    if fresh(s, shorter, p) {
        let i = choose|i: int|
            0 <= i < shorter.len() && (#[trigger] shorter[i]).position() == p
                && shorter[i].block_number > s.model.block.number;
        assert(logs[i] == shorter[i]);
    }
    assert(logs[logs.len() - 1] == logs.last());
    if fresh(s, logs, p) {
        let i = choose|i: int|
            0 <= i < logs.len() && (#[trigger] logs[i]).position() == p && logs[i].block_number
                > s.model.block.number;
        if i < shorter.len() {
            assert(shorter[i] == logs[i]);
        }
    }
}

proof fn lemma_taken<M>(s: SyncState<M>, logs: Seq<LogView>)
    requires
        s.wf(),
        !s.failed,
        taken(s, logs),
    ensures
        gained(s, logs, fed(s, logs)),
    decreases logs.len(),
{
    let n = fed(s, logs);
    if logs.len() == 0 {
        assert(n =~= (SyncState { pending: n.pending, ..s }));
    } else {
        let shorter = logs.drop_last();
        let log = logs.last();
        let prior = fed(s, shorter);
        lemma_taken(s, shorter);
        assert forall|i: int| 0 <= i < logs.len() implies #[trigger] logs[i] == if i
            < shorter.len() {
            shorter[i]
        } else {
            log
        } by {}
        if log.block_number <= s.model.block.number {
            assert(n == prior);
            assert forall|p: (u64, u64)| fresh(s, logs, p) == #[trigger] fresh(s, shorter, p) by {
                lemma_fresh(s, logs, p);
            }
            if let Some(h) = s.active {
                assert forall|p: (u64, u64)| #[trigger] n.pending[h].logs.contains_key(p)
                    <==> s.pending[h].logs.contains_key(p) || fresh(s, logs, p) by {
                    lemma_fresh(s, logs, p);
                }
            }
        } else {
            let h = log.block_hash;
            assert(s.active == Some(h));
            assert(n.pending.dom() =~= s.pending.dom());
            let old_logs = s.pending[h].logs;
            let mid_logs = prior.pending[h].logs;
            let new_logs = n.pending[h].logs;
            assert(new_logs == mid_logs.insert(log.position(), log)) by {
                if mid_logs.contains_key(log.position()) {
                    assert(mid_logs =~= mid_logs.insert(log.position(), log));
                }
            }
            assert forall|p: (u64, u64)| #[trigger] new_logs.contains_key(p)
                <==> old_logs.contains_key(p) || fresh(s, logs, p) by {
                lemma_fresh(s, logs, p);
            }
            assert forall|p: (u64, u64)| #[trigger] old_logs.contains_key(p) implies new_logs[p]
                == old_logs[p] by {
                assert(mid_logs.contains_key(p));
            }
            assert forall|i: int|
                0 <= i < logs.len() && (#[trigger] logs[i]).block_number
                    > s.model.block.number implies new_logs[logs[i].position()] == logs[i] by {
                if i < shorter.len() {
                    assert(shorter[i] == logs[i]);
                    assert(fresh(s, shorter, logs[i].position()));
                    assert(mid_logs.contains_key(logs[i].position()));
                }
            }
            assert(n =~= (SyncState { pending: n.pending, ..s }));
        }
    }
}

/// From one state, two runs of taken logs with the same set of logs lead to the
/// same state: neither their order nor repetitions matter.
pub proof fn law_log_order_does_not_matter<M>(s: SyncState<M>, a: Seq<LogView>, b: Seq<LogView>)
    requires
        s.wf(),
        taken(s, a),
        taken(s, b),
        a.to_set() == b.to_set(),
    ensures
        fed(s, a) == fed(s, b),
{
    if s.failed {
        lemma_failure_stays(s, a);
        lemma_failure_stays(s, b);
    } else {
        lemma_taken(s, a);
        lemma_taken(s, b);
        let one = fed(s, a);
        let two = fed(s, b);
        if let Some(h) = s.active {
            let left = one.pending[h].logs;
            let right = two.pending[h].logs;
            lemma_same_logs(s, a, b, h);
            lemma_same_logs(s, b, a, h);
            assert(left =~= right);
        }
        assert(one.pending =~= two.pending);
    }
}

proof fn lemma_same_logs<M>(s: SyncState<M>, a: Seq<LogView>, b: Seq<LogView>, h: B256)
    requires
        s.active == Some(h),
        gained(s, a, fed(s, a)),
        gained(s, b, fed(s, b)),
        a.to_set() == b.to_set(),
    ensures
        forall|p: (u64, u64)| #[trigger]
            fed(s, a).pending[h].logs.contains_key(p) ==> {
                &&& fed(s, b).pending[h].logs.contains_key(p)
                &&& fed(s, b).pending[h].logs[p] == fed(s, a).pending[h].logs[p]
            },
{
    let left = fed(s, a).pending[h].logs;
    let right = fed(s, b).pending[h].logs;
    assert forall|p: (u64, u64)| #[trigger] left.contains_key(p) implies right.contains_key(p)
        && right[p] == left[p] by {
        if !s.pending[h].logs.contains_key(p) {
            let i = choose|i: int|
                0 <= i < a.len() && (#[trigger] a[i]).position() == p && a[i].block_number
                    > s.model.block.number;
            assert(a.to_set().contains(a[i]));
            assert(b.contains(a[i]));
            let j = choose|j: int| 0 <= j < b.len() && b[j] == a[i];
            assert(b[j].position() == p);
            assert(fresh(s, b, p));
        }
    }
}

/// Some logs and the header that comes after them.
pub struct Round {
    pub logs: Seq<LogView>,
    pub header: HeaderView,
    pub commitment: CommitState,
}

/// The state after several rounds.
pub open spec fn through<M>(
    s: SyncState<M>,
    rounds: Seq<Round>,
    replay: spec_fn(M, Seq<Frame>) -> Result<PoolModel<M>, ErrorView>,
) -> SyncState<M>
    decreases rounds.len(),
{
    if rounds.len() == 0 {
        s
    } else {
        let round = rounds.last();
        fed(through(s, rounds.drop_last(), replay), round.logs).on_note(
            Note::Head(round.header, round.commitment),
            replay,
        ).1
    }
}

/// What the header at the end of the last round is answered.
pub open spec fn last_reply<M>(
    s: SyncState<M>,
    rounds: Seq<Round>,
    replay: spec_fn(M, Seq<Frame>) -> Result<PoolModel<M>, ErrorView>,
) -> Result<Option<UpdateView>, ErrorView> {
    let round = rounds.last();
    fed(through(s, rounds.drop_last(), replay), round.logs).on_note(
        Note::Head(round.header, round.commitment),
        replay,
    ).0
}

/// Whether every log of every round is taken.
pub open spec fn all_taken<M>(
    s: SyncState<M>,
    rounds: Seq<Round>,
    replay: spec_fn(M, Seq<Frame>) -> Result<PoolModel<M>, ErrorView>,
) -> bool
    decreases rounds.len(),
{
    rounds.len() > 0 ==> {
        &&& all_taken(s, rounds.drop_last(), replay)
        &&& taken(through(s, rounds.drop_last(), replay), rounds.last().logs)
    }
}

/// Whether the rounds have the same headers and the same sets of logs.
pub open spec fn alike(a: Seq<Round>, b: Seq<Round>) -> bool {
    &&& a.len() == b.len()
    &&& forall|i: int|
        #![trigger a[i]]
        #![trigger b[i]]
        0 <= i < a.len() ==> {
            &&& a[i].header == b[i].header
            &&& a[i].commitment == b[i].commitment
            &&& a[i].logs.to_set() == b[i].logs.to_set()
        }
}

proof fn lemma_fed_stays_well_formed<M>(s: SyncState<M>, logs: Seq<LogView>)
    requires
        s.wf(),
    ensures
        fed(s, logs).wf(),
    decreases logs.len(),
{
    if logs.len() > 0 {
        lemma_fed_stays_well_formed(s, logs.drop_last());
        law_states_stay_well_formed(
            fed(s, logs.drop_last()),
            logs.last(),
            arbitrary(),
            arbitrary(),
            s.model,
        );
    }
}

proof fn lemma_through_stays_well_formed<M>(
    s: SyncState<M>,
    rounds: Seq<Round>,
    replay: spec_fn(M, Seq<Frame>) -> Result<PoolModel<M>, ErrorView>,
)
    requires
        s.wf(),
    ensures
        through(s, rounds, replay).wf(),
    decreases rounds.len(),
{
    if rounds.len() > 0 {
        let round = rounds.last();
        let prior = through(s, rounds.drop_last(), replay);
        lemma_through_stays_well_formed(s, rounds.drop_last(), replay);
        lemma_fed_stays_well_formed(prior, round.logs);
        law_states_stay_well_formed(
            fed(prior, round.logs),
            arbitrary(),
            round.header,
            round.commitment,
            through(s, rounds, replay).model,
        );
    }
}

/// Two runs from one state that get the same headers, and between them the same
/// sets of logs in any order and with any of them repeated, answer every header
/// alike and are in the same state after it.
pub proof fn law_runs_with_the_same_logs_end_alike<M>(
    s: SyncState<M>,
    a: Seq<Round>,
    b: Seq<Round>,
    replay: spec_fn(M, Seq<Frame>) -> Result<PoolModel<M>, ErrorView>,
)
    requires
        s.wf(),
        alike(a, b),
        all_taken(s, a, replay),
        all_taken(s, b, replay),
    ensures
        through(s, a, replay) == through(s, b, replay),
        a.len() > 0 ==> last_reply(s, a, replay) == last_reply(s, b, replay),
    decreases a.len(),
{
    if a.len() > 0 {
        let left = a.drop_last();
        let right = b.drop_last();
        assert forall|i: int| #![trigger left[i]] #![trigger right[i]]
            0 <= i < left.len() implies {
            &&& left[i].header == right[i].header
            &&& left[i].commitment == right[i].commitment
            &&& left[i].logs.to_set() == right[i].logs.to_set()
        } by {
            assert(left[i] == a[i] && right[i] == b[i]);
        }
        law_runs_with_the_same_logs_end_alike(s, left, right, replay);
        lemma_through_stays_well_formed(s, left, replay);
        assert(a[a.len() - 1] == a.last() && b[a.len() - 1] == b.last());
        law_log_order_does_not_matter(
            through(s, left, replay),
            a.last().logs,
            b.last().logs,
        );
    }
}

/// Whether a notification proposes one of these blocks or is a log of one.
pub open spec fn concerns(orphans: Set<B256>, note: Note) -> bool {
    match note {
        Note::Log(log) => orphans.contains(log.block_hash),
        Note::Head(header, commitment) => commitment == CommitState::Proposed
            && orphans.contains(header.hash),
    }
}

/// The notifications without the proposals and the logs of these blocks.
pub open spec fn without(orphans: Set<B256>, notes: Seq<Note>) -> Seq<Note>
    decreases notes.len(),
{
    if notes.len() == 0 {
        Seq::empty()
    } else if concerns(orphans, notes.last()) {
        without(orphans, notes.drop_last())
    } else {
        without(orphans, notes.drop_last()).push(notes.last())
    }
}

/// The updates among the answers, in order.
pub open spec fn updates(answers: Seq<Result<Option<UpdateView>, ErrorView>>) -> Seq<UpdateView>
    decreases answers.len(),
{
    if answers.len() == 0 {
        Seq::empty()
    } else {
        match answers.last() {
            Ok(Some(update)) => updates(answers.drop_last()).push(update),
            _ => updates(answers.drop_last()),
        }
    }
}

/// Whether a run meets no error, and none of these blocks lies on a line that it
/// publishes.
pub open spec fn abandons<M>(
    s: SyncState<M>,
    notes: Seq<Note>,
    replay: spec_fn(M, Seq<Frame>) -> Result<PoolModel<M>, ErrorView>,
    orphans: Set<B256>,
) -> bool
    decreases notes.len(),
{
    notes.len() > 0 ==> {
        let prior = after(s, notes.drop_last(), replay);
        &&& abandons(s, notes.drop_last(), replay, orphans)
        &&& prior.on_note(notes.last(), replay).0 is Ok
        &&& notes.last() matches Note::Head(header, commitment) ==> (prior.on_head(
            header,
            commitment,
        ).0 matches HeadPlan::Publish(chain) ==> forall|i: int|
            0 <= i < chain.len() ==> !orphans.contains((#[trigger] chain[i]).header.hash))
    }
}

/// Whether two states agree but for these blocks and for what the next header
/// closes anyway.
spec fn agree<M>(orphans: Set<B256>, s: SyncState<M>, t: SyncState<M>) -> bool {
    &&& s.model == t.model
    &&& !s.failed && !t.failed
    &&& s.wf() && t.wf()
    &&& forall|h: B256|
        !orphans.contains(h) ==> (#[trigger] s.pending.contains_key(h) <==> t.pending.contains_key(
            h,
        ))
    &&& forall|h: B256|
        !orphans.contains(h) && #[trigger] s.pending.contains_key(h) ==> {
            &&& s.pending[h].header == t.pending[h].header
            &&& s.pending[h].logs == t.pending[h].logs
        }
    &&& forall|h: B256| #[trigger]
        s.pending.contains_key(h) ==> s.pending[h].complete == (s.active != Some(h))
    &&& forall|h: B256| #[trigger]
        t.pending.contains_key(h) ==> t.pending[h].complete == (t.active != Some(h))
    &&& s.active matches Some(h) ==> orphans.contains(h) || t.active == Some(h)
}

proof fn lemma_orphan_step<M>(
    orphans: Set<B256>,
    s: SyncState<M>,
    t: SyncState<M>,
    note: Note,
    replay: spec_fn(M, Seq<Frame>) -> Result<PoolModel<M>, ErrorView>,
)
    requires
        agree(orphans, s, t),
        concerns(orphans, note),
        s.on_note(note, replay).0 is Ok,
    ensures
        s.on_note(note, replay).0 == Ok::<Option<UpdateView>, ErrorView>(None),
        agree(orphans, s.on_note(note, replay).1, t),
{
    let next = s.on_note(note, replay).1;
    match note {
        Note::Log(log) => {
            law_states_stay_well_formed(s, log, arbitrary(), arbitrary(), s.model);
            assert forall|h: B256| #[trigger] next.pending.contains_key(h) <==> s.pending.contains_key(
                h,
            ) by {}
        },
        Note::Head(header, commitment) => {
            law_states_stay_well_formed(s, arbitrary(), header, commitment, s.model);
            assert forall|h: B256| !orphans.contains(h) implies (
            #[trigger] next.pending.contains_key(h) <==> s.pending.contains_key(h)) by {}
            assert forall|h: B256|
                !orphans.contains(h) && #[trigger] next.pending.contains_key(h) implies {
                &&& next.pending[h].header == s.pending[h].header
                &&& next.pending[h].logs == s.pending[h].logs
            } by {}
        },
    }
}

proof fn lemma_sealed_alike<M>(orphans: Set<B256>, s: SyncState<M>, t: SyncState<M>)
    requires
        agree(orphans, s, t),
    ensures
        forall|h: B256|
            !orphans.contains(h) ==> (#[trigger] s.sealed().pending.contains_key(h)
                <==> t.sealed().pending.contains_key(h)),
        forall|h: B256|
            !orphans.contains(h) && #[trigger] s.sealed().pending.contains_key(h)
                ==> s.sealed().pending[h] == t.sealed().pending[h],
        forall|h: B256| #[trigger]
            s.sealed().pending.contains_key(h) ==> s.sealed().pending[h].complete,
        forall|h: B256| #[trigger]
            t.sealed().pending.contains_key(h) ==> t.sealed().pending[h].complete,
{
    assert forall|h: B256| #[trigger] s.sealed().pending.contains_key(h) implies s.sealed().pending[h]
        == (Frame { complete: true, ..s.pending[h] }) && s.pending.contains_key(h) by {
        assert(s.pending.contains_key(h));
    }
    assert forall|h: B256| #[trigger] t.sealed().pending.contains_key(h) implies t.sealed().pending[h]
        == (Frame { complete: true, ..t.pending[h] }) && t.pending.contains_key(h) by {
        assert(t.pending.contains_key(h));
    }
    assert forall|h: B256| !orphans.contains(h) implies (
    #[trigger] s.sealed().pending.contains_key(h) <==> t.sealed().pending.contains_key(h)) by {
        assert(s.pending.contains_key(h) <==> t.pending.contains_key(h));
    }
    assert forall|h: B256|
        !orphans.contains(h) && #[trigger] s.sealed().pending.contains_key(
            h,
        ) implies s.sealed().pending[h] == t.sealed().pending[h] by {
        assert(s.pending.contains_key(h));
        assert(t.sealed().pending.contains_key(h));
    }
}

proof fn lemma_line_carries_over<M>(
    orphans: Set<B256>,
    s: SyncState<M>,
    t: SyncState<M>,
    header: HeaderView,
    chain: Seq<Frame>,
)
    requires
        agree(orphans, s, t),
        s.on_head(header, CommitState::Finalized).0 == HeadPlan::Publish(chain),
        forall|i: int|
            0 <= i < chain.len() ==> !orphans.contains((#[trigger] chain[i]).header.hash),
    ensures
        t.on_head(header, CommitState::Finalized) == (HeadPlan::Publish(chain), t.sealed()),
{
    lemma_sealed_alike(orphans, s, t);
    let number = s.model.block.number;
    let hash = s.model.block.hash;
    assert(chain == line(s.sealed().pending, number, hash, header));
    assert(ancestry(s.sealed().pending, number, hash, header, chain));
    assert(ancestry(t.sealed().pending, number, hash, header, chain));
    law_settled_line_is_published(t, header, chain);
}

proof fn lemma_kept_step<M>(
    orphans: Set<B256>,
    s: SyncState<M>,
    t: SyncState<M>,
    note: Note,
    replay: spec_fn(M, Seq<Frame>) -> Result<PoolModel<M>, ErrorView>,
)
    requires
        agree(orphans, s, t),
        !concerns(orphans, note),
        s.on_note(note, replay).0 is Ok,
        note matches Note::Head(header, commitment) ==> (s.on_head(
            header,
            commitment,
        ).0 matches HeadPlan::Publish(chain) ==> forall|i: int|
            0 <= i < chain.len() ==> !orphans.contains((#[trigger] chain[i]).header.hash)),
    ensures
        t.on_note(note, replay).0 == s.on_note(note, replay).0,
        agree(orphans, s.on_note(note, replay).1, t.on_note(note, replay).1),
{
    let next = s.on_note(note, replay).1;
    let other = t.on_note(note, replay).1;
    match note {
        Note::Log(log) => {
            law_states_stay_well_formed(s, log, arbitrary(), arbitrary(), s.model);
            law_states_stay_well_formed(t, log, arbitrary(), arbitrary(), t.model);
            if log.block_number > s.model.block.number {
                assert(s.pending.contains_key(log.block_hash));
            }
        },
        Note::Head(header, commitment) => {
            law_states_stay_well_formed(s, arbitrary(), header, commitment, next.model);
            law_states_stay_well_formed(t, arbitrary(), header, commitment, next.model);
            lemma_sealed_alike(orphans, s, t);
            if let HeadPlan::Publish(chain) = s.on_head(header, commitment).0 {
                lemma_line_carries_over(orphans, s, t, header, chain);
            } else {
                if commitment == CommitState::Proposed {
                    assert(s.sealed().pending.contains_key(header.hash)
                        <==> t.sealed().pending.contains_key(header.hash));
                }
            }
            assert(t.on_note(note, replay).0 == s.on_note(note, replay).0);
            assert forall|h: B256| !orphans.contains(h) implies (
            #[trigger] next.pending.contains_key(h) <==> other.pending.contains_key(h)) by {
                assert(s.sealed().pending.contains_key(h) <==> t.sealed().pending.contains_key(h));
            }
            assert forall|h: B256|
                !orphans.contains(h) && #[trigger] next.pending.contains_key(h) implies {
                &&& next.pending[h].header == other.pending[h].header
                &&& next.pending[h].logs == other.pending[h].logs
            } by {
                assert(s.sealed().pending.contains_key(h) <==> t.sealed().pending.contains_key(h));
            }
            assert forall|h: B256| #[trigger]
                next.pending.contains_key(h) implies next.pending[h].complete == (next.active
                != Some(h)) by {
                assert(s.sealed().pending.contains_key(h) || h == header.hash);
            }
            assert forall|h: B256| #[trigger]
                other.pending.contains_key(h) implies other.pending[h].complete == (other.active
                != Some(h)) by {
                assert(t.sealed().pending.contains_key(h) || h == header.hash);
            }
        },
    }
}

proof fn lemma_orphans_change_nothing<M>(
    seed: PoolModel<M>,
    notes: Seq<Note>,
    replay: spec_fn(M, Seq<Frame>) -> Result<PoolModel<M>, ErrorView>,
    orphans: Set<B256>,
)
    requires
        abandons(SyncState::seeded(seed), notes, replay, orphans),
    ensures
        ({
            let s = SyncState::seeded(seed);
            let kept = without(orphans, notes);
            &&& agree(orphans, after(s, notes, replay), after(s, kept, replay))
            &&& updates(replies(s, notes, replay)) == updates(replies(s, kept, replay))
            &&& forall|i: int|
                0 <= i < replies(s, kept, replay).len() ==> (#[trigger] replies(
                    s,
                    kept,
                    replay,
                )[i]) is Ok
        }),
    decreases notes.len(),
{
    let s = SyncState::seeded(seed);
    if notes.len() > 0 {
        let shorter = notes.drop_last();
        let note = notes.last();
        lemma_orphans_change_nothing(seed, shorter, replay, orphans);
        let fewer = without(orphans, shorter);
        let one = after(s, shorter, replay);
        let two = after(s, fewer, replay);
        assert(replies(s, notes, replay).drop_last() =~= replies(s, shorter, replay));
        if concerns(orphans, note) {
            lemma_orphan_step(orphans, one, two, note, replay);
        } else {
            lemma_kept_step(orphans, one, two, note, replay);
            let kept = fewer.push(note);
            assert(kept.drop_last() =~= fewer);
            assert(replies(s, kept, replay).drop_last() =~= replies(s, fewer, replay));
            assert forall|i: int| 0 <= i < replies(s, kept, replay).len() implies (
            #[trigger] replies(s, kept, replay)[i]) is Ok by {
                if i < replies(s, fewer, replay).len() {
                    assert(replies(s, kept, replay)[i] == replies(s, fewer, replay)[i]);
                }
            }
        }
    }
}

/// Abandoned proposals and their logs never influence what is published: a run
/// without errors publishes the same updates and ends in the same model when the
/// proposals and the logs of blocks on no published line are left out, and it
/// meets no error then either.
pub proof fn law_abandoned_blocks_change_nothing<M>(
    seed: PoolModel<M>,
    notes: Seq<Note>,
    replay: spec_fn(M, Seq<Frame>) -> Result<PoolModel<M>, ErrorView>,
    orphans: Set<B256>,
)
    requires
        abandons(SyncState::seeded(seed), notes, replay, orphans),
    ensures
        ({
            let s = SyncState::seeded(seed);
            let kept = without(orphans, notes);
            &&& after(s, notes, replay).model == after(s, kept, replay).model
            &&& updates(replies(s, notes, replay)) == updates(replies(s, kept, replay))
            &&& !after(s, kept, replay).failed
            &&& forall|i: int|
                0 <= i < replies(s, kept, replay).len() ==> (#[trigger] replies(
                    s,
                    kept,
                    replay,
                )[i]) is Ok
        }),
{
    lemma_orphans_change_nothing(seed, notes, replay, orphans);
}

/// Two runs from one seed that differ only in proposals and logs of blocks that
/// neither publishes answer with the same updates and end in the same model.
pub proof fn law_runs_apart_in_abandoned_blocks_publish_alike<M>(
    seed: PoolModel<M>,
    a: Seq<Note>,
    b: Seq<Note>,
    replay: spec_fn(M, Seq<Frame>) -> Result<PoolModel<M>, ErrorView>,
    orphans: Set<B256>,
)
    requires
        abandons(SyncState::seeded(seed), a, replay, orphans),
        abandons(SyncState::seeded(seed), b, replay, orphans),
        without(orphans, a) == without(orphans, b),
    ensures
        after(SyncState::seeded(seed), a, replay).model == after(
            SyncState::seeded(seed),
            b,
            replay,
        ).model,
        updates(replies(SyncState::seeded(seed), a, replay)) == updates(
            replies(SyncState::seeded(seed), b, replay),
        ),
{
    law_abandoned_blocks_change_nothing(seed, a, replay, orphans);
    law_abandoned_blocks_change_nothing(seed, b, replay, orphans);
}

} // verus!

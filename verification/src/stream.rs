//! What holds of the reducer over a whole stream of notifications.
use crate::ancestry::{ancestry, line};
use crate::error::{Error, ErrorView};
use crate::laws::{law_settled_line_is_published, law_states_stay_well_formed};
use crate::pending::{in_order, lists, log_views, Frame};
use crate::synchronizer::{answers, applied, passes, replays, HeadPlan, SyncState};
use crate::types::{
    BlockHeader, CommitState, HeaderView, LogView, PoolModel, RpcLog, Update, B256,
};
use vstd::prelude::*;

verus! {

/// A notification.
pub enum Note {
    Log(LogView),
    Head(HeaderView, CommitState),
}

/// Whether a notification was taken without an error and led from one state to the
/// other. A model that it published stands at the number of its header.
pub open spec fn accepted<M>(was: SyncState<M>, note: Note, now: SyncState<M>) -> bool {
    match note {
        Note::Log(log) => was.on_log(log).0 is Ok && now == was.on_log(log).1,
        Note::Head(header, commitment) => {
            let (plan, next) = was.on_head(header, commitment);
            match plan {
                HeadPlan::Refuse(_) => false,
                HeadPlan::Keep => now == next,
                HeadPlan::Publish(_) => now == next.published(now.model, header.number)
                    && now.model.block.number == header.number,
            }
        },
    }
}

/// Whether a reducer that started from the seed may be in this state after these
/// notifications, all of them accepted.
pub open spec fn reached<M>(seed: PoolModel<M>, notes: Seq<Note>, s: SyncState<M>) -> bool
    decreases notes.len(),
{
    if notes.len() == 0 {
        s == SyncState::seeded(seed)
    } else {
        exists|prior: SyncState<M>|
            reached(seed, notes.drop_last(), prior) && #[trigger] accepted(prior, notes.last(), s)
    }
}

/// Whether this header was proposed.
pub open spec fn proposed(notes: Seq<Note>, header: HeaderView) -> bool {
    notes.contains(Note::Head(header, CommitState::Proposed))
}

/// Whether this log was pushed for the block with this header.
pub open spec fn pushed(notes: Seq<Note>, header: HeaderView, log: LogView) -> bool {
    &&& notes.contains(Note::Log(log))
    &&& log.block_hash == header.hash
    &&& log.block_number == header.number
}

/// Whether the frame was proposed and holds exactly the logs that were pushed for
/// its block.
pub open spec fn faithful(notes: Seq<Note>, frame: Frame) -> bool {
    &&& proposed(notes, frame.header)
    &&& forall|log: LogView| #[trigger]
        frame.carries(log) <==> pushed(notes, frame.header, log)
}

/// Whether the headers were all proposed and lead, oldest first, from the block
/// with this number and hash upwards, each the parent of the next.
pub open spec fn proposed_line(
    notes: Seq<Note>,
    number: u64,
    hash: Option<B256>,
    headers: Seq<HeaderView>,
) -> bool {
    &&& headers.len() > 0
    &&& Some(headers[0].parent_hash) == hash
    &&& forall|i: int|
        0 <= i < headers.len() ==> proposed(notes, #[trigger] headers[i]) && headers[i].number
            == number + 1 + i
    &&& forall|i: int, j: int|
        0 <= i && j == i + 1 && j < headers.len() ==> (#[trigger] headers[j]).parent_hash == (
        #[trigger] headers[i]).hash
}

/// What a state keeps of the notifications that led to it.
spec fn remembers<M>(notes: Seq<Note>, s: SyncState<M>) -> bool {
    let current = s.model.block.number;
    &&& s.wf()
    &&& !s.failed
    &&& forall|hash: B256| #[trigger]
        s.pending.contains_key(hash) ==> {
            &&& s.pending[hash].header.number > current
            &&& s.pending[hash].complete || s.active == Some(hash)
            &&& faithful(notes, s.pending[hash])
        }
    &&& forall|log: LogView|
        #![trigger notes.contains(Note::Log(log))]
        notes.contains(Note::Log(log)) && log.block_number > current ==> {
            &&& s.pending.contains_key(log.block_hash)
            &&& s.pending[log.block_hash].header.number == log.block_number
        }
    &&& forall|header: HeaderView| #[trigger]
        proposed(notes, header) && header.number > current ==> {
            &&& s.pending.contains_key(header.hash)
            &&& s.pending[header.hash].header == header
        }
}

proof fn lemma_longer(notes: Seq<Note>, note: Note)
    ensures
        forall|other: Note| #[trigger]
            notes.push(note).contains(other) <==> notes.contains(other) || other == note,
{
    let longer = notes.push(note);
    assert forall|other: Note| #[trigger] longer.contains(other) <==> notes.contains(other) || other
        == note by {
        if notes.contains(other) {
            let i = choose|i: int| 0 <= i < notes.len() && notes[i] == other;
            assert(longer[i] == other);
        }
        if other == note {
            assert(longer[notes.len() as int] == other);
        }
        if longer.contains(other) && other != note {
            let i = choose|i: int| 0 <= i < longer.len() && longer[i] == other;
            assert(notes[i] == other);
        }
    }
}

/// The memory over a log.
proof fn lemma_remembers_log<M>(notes: Seq<Note>, log: LogView, was: SyncState<M>)
    requires
        remembers(notes, was),
        was.on_log(log).0 is Ok,
    ensures
        remembers(notes.push(Note::Log(log)), was.on_log(log).1),
{
    let longer = notes.push(Note::Log(log));
    let now = was.on_log(log).1;
    lemma_longer(notes, Note::Log(log));
    assert forall|hash: B256| #[trigger] now.pending.contains_key(hash) implies {
        &&& now.pending[hash].header.number > now.model.block.number
        &&& now.pending[hash].complete || now.active == Some(hash)
        &&& faithful(longer, now.pending[hash])
    } by {
        let old_frame = was.pending[hash];
        let frame = now.pending[hash];
        assert(was.pending.contains_key(hash));
        assert(faithful(notes, old_frame));
        assert(proposed(longer, frame.header));
        assert forall|other: LogView| #[trigger] frame.carries(other) <==> pushed(
            longer,
            frame.header,
            other,
        ) by {
            assert(old_frame.carries(other) <==> pushed(notes, frame.header, other));
        }
    }
    assert(now.wf()) by {
        law_states_stay_well_formed(was, log, arbitrary(), arbitrary(), was.model);
    }
    assert forall|header: HeaderView| #[trigger] proposed(longer, header) implies proposed(
        notes,
        header,
    ) by {}
}

/// The memory over a header that publishes nothing.
proof fn lemma_remembers_kept<M>(
    notes: Seq<Note>,
    header: HeaderView,
    commitment: CommitState,
    was: SyncState<M>,
)
    requires
        remembers(notes, was),
        was.on_head(header, commitment).0 is Keep,
    ensures
        remembers(
            notes.push(Note::Head(header, commitment)),
            was.on_head(header, commitment).1,
        ),
{
    let longer = notes.push(Note::Head(header, commitment));
    let now = was.on_head(header, commitment).1;
    lemma_longer(notes, Note::Head(header, commitment));
    assert(now.wf()) by {
        law_states_stay_well_formed(was, arbitrary(), header, commitment, was.model);
    }
    assert forall|hash: B256| #[trigger] now.pending.contains_key(hash) implies {
        &&& now.pending[hash].header.number > now.model.block.number
        &&& now.pending[hash].complete || now.active == Some(hash)
        &&& faithful(longer, now.pending[hash])
    } by {
        let frame = now.pending[hash];
        if was.pending.contains_key(hash) {
            let old_frame = was.pending[hash];
            assert(faithful(notes, old_frame));
            assert(proposed(longer, frame.header));
            assert forall|other: LogView| #[trigger] frame.carries(other) <==> pushed(
                longer,
                frame.header,
                other,
            ) by {
                assert(old_frame.carries(other) <==> pushed(notes, frame.header, other));
            }
        } else {
            assert(frame.header == header && commitment == CommitState::Proposed);
            assert(proposed(longer, header));
            assert forall|other: LogView| #[trigger] frame.carries(other) <==> pushed(
                longer,
                frame.header,
                other,
            ) by {
                if notes.contains(Note::Log(other)) && other.block_hash == header.hash
                    && other.block_number == header.number {
                    assert(was.pending.contains_key(other.block_hash));
                }
            }
        }
    }
    assert forall|other: HeaderView| #[trigger] proposed(longer, other) && other.number
        > now.model.block.number implies {
        &&& now.pending.contains_key(other.hash)
        &&& now.pending[other.hash].header == other
    } by {
        if proposed(notes, other) {
            assert(was.pending.contains_key(other.hash));
        }
    }
}

/// The memory over a published model that stands at its header.
proof fn lemma_remembers_published<M>(
    notes: Seq<Note>,
    header: HeaderView,
    commitment: CommitState,
    was: SyncState<M>,
    model: PoolModel<M>,
)
    requires
        remembers(notes, was),
        was.on_head(header, commitment).0 is Publish,
        model.block.number == header.number,
    ensures
        remembers(
            notes.push(Note::Head(header, commitment)),
            was.on_head(header, commitment).1.published(model, header.number),
        ),
{
    let longer = notes.push(Note::Head(header, commitment));
    let now = was.on_head(header, commitment).1.published(model, header.number);
    lemma_longer(notes, Note::Head(header, commitment));
    assert(now.wf()) by {
        law_states_stay_well_formed(was, arbitrary(), header, commitment, model);
    }
    assert forall|hash: B256| #[trigger] now.pending.contains_key(hash) implies {
        &&& now.pending[hash].header.number > now.model.block.number
        &&& now.pending[hash].complete || now.active == Some(hash)
        &&& faithful(longer, now.pending[hash])
    } by {
        let frame = now.pending[hash];
        let old_frame = was.pending[hash];
        assert(was.pending.contains_key(hash));
        assert(faithful(notes, old_frame));
        assert(proposed(longer, frame.header));
        assert forall|other: LogView| #[trigger] frame.carries(other) <==> pushed(
            longer,
            frame.header,
            other,
        ) by {
            assert(old_frame.carries(other) <==> pushed(notes, frame.header, other));
        }
    }
    assert forall|other: HeaderView| #[trigger] proposed(longer, other) && other.number
        > now.model.block.number implies {
        &&& now.pending.contains_key(other.hash)
        &&& now.pending[other.hash].header == other
    } by {
        assert(proposed(notes, other));
    }
}

proof fn lemma_remembers<M>(seed: PoolModel<M>, notes: Seq<Note>, s: SyncState<M>)
    requires
        reached(seed, notes, s),
    ensures
        remembers(notes, s),
    decreases notes.len(),
{
    if notes.len() > 0 {
        let shorter = notes.drop_last();
        let prior = choose|prior: SyncState<M>|
            reached(seed, shorter, prior) && #[trigger] accepted(prior, notes.last(), s);
        lemma_remembers(seed, shorter, prior);
        match notes.last() {
            Note::Log(log) => lemma_remembers_log(shorter, log, prior),
            Note::Head(header, commitment) => if prior.on_head(header, commitment).0 is Keep {
                lemma_remembers_kept(shorter, header, commitment, prior);
            } else {
                lemma_remembers_published(shorter, header, commitment, prior, s.model);
            },
        }
        assert(shorter.push(notes.last()) =~= notes);
    }
}

/// What a finalized header publishes is complete: every block of its line was
/// proposed, and exactly the logs that were pushed for the block are replayed,
/// however the notifications of several blocks were interleaved and repeated.
pub proof fn law_published_blocks_are_complete<M>(
    seed: PoolModel<M>,
    notes: Seq<Note>,
    s: SyncState<M>,
    header: HeaderView,
    chain: Seq<Frame>,
)
    requires
        reached(seed, notes, s),
        s.on_head(header, CommitState::Finalized).0 == HeadPlan::Publish(chain),
    ensures
        ancestry(
            s.sealed().pending,
            s.model.block.number,
            s.model.block.hash,
            header,
            chain,
        ),
        forall|i: int| 0 <= i < chain.len() ==> faithful(notes, #[trigger] chain[i]),
{
    lemma_remembers(seed, notes, s);
    let pending = s.sealed().pending;
    assert(ancestry(pending, s.model.block.number, s.model.block.hash, header, chain));
    assert forall|i: int| 0 <= i < chain.len() implies faithful(notes, #[trigger] chain[i]) by {
        lemma_sealed_is_faithful(notes, s, chain[i].header.hash);
    }
}

proof fn lemma_sealed_is_faithful<M>(notes: Seq<Note>, s: SyncState<M>, hash: B256)
    requires
        remembers(notes, s),
        s.sealed().pending.contains_key(hash),
    ensures
        s.pending.contains_key(hash),
        s.sealed().pending[hash] == (Frame { complete: true, ..s.pending[hash] }),
        faithful(notes, s.sealed().pending[hash]),
{
    let frame = s.sealed().pending[hash];
    let open_frame = s.pending[hash];
    assert(s.pending.contains_key(hash));
    assert(faithful(notes, open_frame));
    assert forall|log: LogView| #[trigger] frame.carries(log) <==> pushed(
        notes,
        frame.header,
        log,
    ) by {
        assert(open_frame.carries(log) <==> pushed(notes, frame.header, log));
    }
}

/// A finalized header is published when its line of ancestors down to the
/// published block was proposed on the stream: one block or several at once, with
/// or without logs, whatever stages in between were skipped and whatever siblings
/// were proposed. The frames of that line are then replayed, each with exactly
/// the logs that were pushed for it.
pub proof fn law_proposed_lines_are_published<M>(
    seed: PoolModel<M>,
    notes: Seq<Note>,
    s: SyncState<M>,
    headers: Seq<HeaderView>,
)
    requires
        reached(seed, notes, s),
        proposed_line(notes, s.model.block.number, s.model.block.hash, headers),
    ensures
        s.on_head(headers.last(), CommitState::Finalized).0 matches HeadPlan::Publish(chain) && {
            &&& chain.len() == headers.len()
            &&& forall|i: int|
                0 <= i < chain.len() ==> (#[trigger] chain[i]).header == headers[i] && faithful(
                    notes,
                    chain[i],
                )
        },
{
    lemma_remembers(seed, notes, s);
    let pending = s.sealed().pending;
    let number = s.model.block.number;
    let chain = Seq::new(headers.len(), |i: int| pending[headers[i].hash]);
    assert forall|i: int| 0 <= i < chain.len() implies {
        &&& pending.contains_key((#[trigger] chain[i]).header.hash)
        &&& pending[chain[i].header.hash] == chain[i]
        &&& chain[i].complete
        &&& chain[i].header == headers[i]
        &&& chain[i].header.number == number + 1 + i
        &&& faithful(notes, chain[i])
    } by {
        assert(proposed(notes, headers[i]));
        assert(s.pending.contains_key(headers[i].hash));
        lemma_sealed_is_faithful(notes, s, headers[i].hash);
    }
    assert forall|i: int, j: int| 0 <= i && j == i + 1 && j < chain.len() implies (
    #[trigger] chain[j]).header.parent_hash == (#[trigger] chain[i]).header.hash by {
        assert(headers[j].parent_hash == headers[i].hash);
    }
    assert(chain[0].header == headers[0]);
    assert(chain[chain.len() - 1].header == headers[chain.len() - 1]);
    assert(ancestry(pending, number, s.model.block.hash, headers.last(), chain));
    law_settled_line_is_published(s, headers.last(), chain);
}

/// An accepted notification never moves the published model back, and changes it
/// only by moving it forward to the number of a finalized header.
pub proof fn law_published_numbers_only_grow<M>(was: SyncState<M>, note: Note, now: SyncState<M>)
    requires
        accepted(was, note, now),
    ensures
        now.model == was.model || now.model.block.number > was.model.block.number,
{
}

/// Where `apply` leaves a pool state that stands at the block it applied and
/// `build` keeps that block, the model of an update stands at the header that
/// published it, and the header counts as accepted.
pub proof fn law_updates_carry_their_stamp<
    M,
    S,
    F: Fn(&M) -> S,
    G: Fn(S, &BlockHeader, &Vec<RpcLog>) -> Result<S, Error>,
    H: Fn(S) -> Result<PoolModel<M>, Error>,
>(
    was: SyncState<M>,
    header: HeaderView,
    commitment: CommitState,
    state: F,
    apply: G,
    build: H,
    update: Update,
    now: SyncState<M>,
    stamp: spec_fn(S) -> (u64, B256),
)
    requires
        answers(was, header, commitment, state, apply, build, Ok(Some(update)), now),
        forall|from: S, block: &BlockHeader, logs: &Vec<RpcLog>, to: S| #[trigger]
            call_ensures(apply, (from, block, logs), Ok(to)) ==> stamp(to) == (
                block.number,
                block.hash,
            ),
        forall|last: S, model: PoolModel<M>| #[trigger]
            call_ensures(build, (last,), Ok(model)) ==> model.block.number == stamp(last).0
                && model.block.hash == Some(stamp(last).1),
    ensures
        now.model.block.number == header.number,
        now.model.block.hash == Some(header.hash),
        accepted(was, Note::Head(header, commitment), now),
{
    let pending = was.sealed().pending;
    let number = was.model.block.number;
    let hash = was.model.block.hash;
    let chain = line(pending, number, hash, header);
    assert(ancestry(pending, number, hash, header, chain));
    let image = was.model.image;
    assert(replays(state, apply, build, image, chain, Ok(now.model)));
    let states = choose|states: Seq<S>| #[trigger]
        passes(state, apply, image, chain, states) && states.len() == chain.len() + 1
            && call_ensures(build, (states.last(),), Ok(now.model));
    let last = chain.len() - 1;
    assert(applied(apply, states[last], chain[last], Ok(states[last + 1])));
}

/// A log that is taken, and a header that is answered without an error and
/// without an update, count as accepted.
pub proof fn law_quiet_answers_are_accepted<
    M,
    S,
    F: Fn(&M) -> S,
    G: Fn(S, &BlockHeader, &Vec<RpcLog>) -> Result<S, Error>,
    H: Fn(S) -> Result<PoolModel<M>, Error>,
>(
    was: SyncState<M>,
    log: LogView,
    header: HeaderView,
    commitment: CommitState,
    state: F,
    apply: G,
    build: H,
    now: SyncState<M>,
)
    ensures
        was.on_log(log).0 is Ok ==> accepted(was, Note::Log(log), was.on_log(log).1),
        answers(was, header, commitment, state, apply, build, Ok(None), now) ==> accepted(
            was,
            Note::Head(header, commitment),
            now,
        ),
{
}

/// The latest header among the notifications, with its stage.
pub open spec fn latest(notes: Seq<Note>) -> Option<(HeaderView, CommitState)>
    decreases notes.len(),
{
    if notes.len() == 0 {
        None
    } else {
        match notes.last() {
            Note::Head(header, commitment) => Some((header, commitment)),
            Note::Log(_) => latest(notes.drop_last()),
        }
    }
}

/// Whether the latest header proposed the block of this log.
pub open spec fn frame_is_open(notes: Seq<Note>, log: LogView) -> bool {
    latest(notes) matches Some((header, commitment)) && commitment == CommitState::Proposed
        && header.hash == log.block_hash && header.number == log.block_number
}

/// Whether another log of the same block came before at the position of this one.
pub open spec fn clashes(notes: Seq<Note>, log: LogView) -> bool {
    exists|other: LogView| #[trigger]
        notes.contains(Note::Log(other)) && other.block_hash == log.block_hash
            && other.block_number == log.block_number && other.position() == log.position() && other
            != log
}

/// The frame that is open is the one that the latest header proposed.
proof fn lemma_latest_is_open<M>(seed: PoolModel<M>, notes: Seq<Note>, s: SyncState<M>)
    requires
        reached(seed, notes, s),
    ensures
        match latest(notes) {
            Some((header, commitment)) => {
                &&& commitment == CommitState::Proposed && header.number > s.model.block.number
                    ==> s.active == Some(header.hash) && s.pending[header.hash].header == header
                    && !s.pending[header.hash].complete
                &&& commitment != CommitState::Proposed || header.number <= s.model.block.number
                    ==> s.active is None
            },
            None => s.active is None,
        },
    decreases notes.len(),
{
    if notes.len() > 0 {
        let shorter = notes.drop_last();
        let prior = choose|prior: SyncState<M>|
            reached(seed, shorter, prior) && #[trigger] accepted(prior, notes.last(), s);
        lemma_remembers(seed, shorter, prior);
        if let Note::Log(_) = notes.last() {
            lemma_latest_is_open(seed, shorter, prior);
        }
    }
}

/// What a log is answered, in terms of what came before. After a stream without
/// errors, a log that was not taken back is taken exactly when its block is
/// already settled, or when the latest header proposed its block and no other log
/// of that block came at its position. Such a clash is reported as one; whatever
/// else is refused is discontinuous.
pub proof fn law_log_answers_follow_the_history<M>(
    seed: PoolModel<M>,
    notes: Seq<Note>,
    s: SyncState<M>,
    log: LogView,
)
    requires
        reached(seed, notes, s),
    ensures
        s.on_log(log).0 == if log.removed {
            Err::<(), ErrorView>(ErrorView::Discontinuous)
        } else if log.block_number <= s.model.block.number {
            Ok(())
        } else if !frame_is_open(notes, log) {
            Err(ErrorView::Discontinuous)
        } else if clashes(notes, log) {
            Err(ErrorView::InvalidData("conflicting subscription logs"@))
        } else {
            Ok(())
        },
{
    lemma_remembers(seed, notes, s);
    lemma_latest_is_open(seed, notes, s);
    let frame = s.pending[log.block_hash];
    if !log.removed && log.block_number > s.model.block.number && s.active == Some(
        log.block_hash,
    ) {
        assert(s.pending.contains_key(log.block_hash));
        assert(faithful(notes, frame));
        assert(frame.owns_its_logs());
        if frame.header.number == log.block_number {
            if frame.logs.contains_key(log.position()) {
                let held = frame.logs[log.position()];
                assert(frame.carries(held));
                assert(pushed(notes, frame.header, held));
            }
            if clashes(notes, log) {
                let other = choose|other: LogView| #[trigger]
                    notes.contains(Note::Log(other)) && other.block_hash == log.block_hash
                        && other.block_number == log.block_number && other.position()
                        == log.position() && other != log;
                assert(pushed(notes, frame.header, other));
                assert(frame.carries(other));
            }
        }
    }
}

/// Whether `apply` may turn the pool state `from` into `result` when it is handed
/// the header and exactly the logs that were pushed for its block, each once, in
/// the order of their positions.
pub open spec fn handed<S, G: Fn(S, &BlockHeader, &Vec<RpcLog>) -> Result<S, Error>>(
    notes: Seq<Note>,
    header: HeaderView,
    apply: G,
    from: S,
    result: Result<S, Error>,
) -> bool {
    exists|block: &BlockHeader, logs: &Vec<RpcLog>| #[trigger]
        call_ensures(apply, (from, block, logs), result) && block@ == header && in_order(
            log_views(logs@),
        ) && forall|log: LogView| #[trigger]
            log_views(logs@).contains(log) <==> pushed(notes, header, log)
}

/// Whether applying the blocks one after the other to the image, oldest first, may
/// end in `result`: the model that is built from the last pool state, or the first
/// error that `apply` or `build` gives.
pub open spec fn folds<
    M,
    S,
    F: Fn(&M) -> S,
    G: Fn(S, &BlockHeader, &Vec<RpcLog>) -> Result<S, Error>,
    H: Fn(S) -> Result<PoolModel<M>, Error>,
>(
    notes: Seq<Note>,
    headers: Seq<HeaderView>,
    state: F,
    apply: G,
    build: H,
    image: M,
    result: Result<PoolModel<M>, Error>,
) -> bool {
    exists|states: Seq<S>| #[trigger]
        leads(notes, headers, state, apply, image, states) && if states.len() == headers.len()
            + 1 {
            call_ensures(build, (states.last(),), result)
        } else {
            result matches Err(error) && handed(
                notes,
                headers[states.len() - 1],
                apply,
                states.last(),
                Err(error),
            )
        }
}

/// Whether `states` are pool states that the blocks lead through.
pub open spec fn leads<
    M,
    S,
    F: Fn(&M) -> S,
    G: Fn(S, &BlockHeader, &Vec<RpcLog>) -> Result<S, Error>,
>(
    notes: Seq<Note>,
    headers: Seq<HeaderView>,
    state: F,
    apply: G,
    image: M,
    states: Seq<S>,
) -> bool {
    &&& 1 <= states.len() <= headers.len() + 1
    &&& call_ensures(state, (&image,), states[0])
    &&& forall|i: int, j: int|
        0 <= i && j == i + 1 && j < states.len() ==> handed(
            notes,
            headers[i],
            apply,
            #[trigger] states[i],
            Ok(#[trigger] states[j]),
        )
}

proof fn lemma_handed<S, G: Fn(S, &BlockHeader, &Vec<RpcLog>) -> Result<S, Error>>(
    notes: Seq<Note>,
    frame: Frame,
    apply: G,
    from: S,
    result: Result<S, Error>,
)
    requires
        faithful(notes, frame),
        applied(apply, from, frame, result),
    ensures
        handed(notes, frame.header, apply, from, result),
{
    let (block, logs) = choose|block: &BlockHeader, logs: &Vec<RpcLog>|
        block@ == frame.header && lists(log_views(logs@), frame.logs) && #[trigger] call_ensures(
            apply,
            (from, block, logs),
            result,
        );
    let list = log_views(logs@);
    assert forall|log: LogView| #[trigger] list.contains(log) <==> pushed(
        notes,
        frame.header,
        log,
    ) by {
        assert(frame.carries(log) <==> pushed(notes, frame.header, log));
        if list.contains(log) {
            let i = choose|i: int| 0 <= i < list.len() && list[i] == log;
            assert(frame.logs.contains_key(list[i].position()));
        }
        if frame.carries(log) {
            let i = choose|i: int|
                0 <= i < list.len() && (#[trigger] list[i]).position() == log.position();
            assert(list[i] == log);
        }
    }
}

proof fn lemma_folds<
    M,
    S,
    F: Fn(&M) -> S,
    G: Fn(S, &BlockHeader, &Vec<RpcLog>) -> Result<S, Error>,
    H: Fn(S) -> Result<PoolModel<M>, Error>,
>(
    notes: Seq<Note>,
    chain: Seq<Frame>,
    headers: Seq<HeaderView>,
    state: F,
    apply: G,
    build: H,
    image: M,
    result: Result<PoolModel<M>, Error>,
)
    requires
        chain.len() == headers.len(),
        forall|i: int|
            0 <= i < chain.len() ==> (#[trigger] chain[i]).header == headers[i] && faithful(
                notes,
                chain[i],
            ),
        replays(state, apply, build, image, chain, result),
    ensures
        folds(notes, headers, state, apply, build, image, result),
{
    let states = choose|states: Seq<S>| #[trigger]
        passes(state, apply, image, chain, states) && if states.len() == chain.len() + 1 {
            call_ensures(build, (states.last(),), result)
        } else {
            result matches Err(error) && applied(
                apply,
                states.last(),
                chain[states.len() - 1],
                Err(error),
            )
        };
    assert forall|i: int, j: int| 0 <= i && j == i + 1 && j < states.len() implies handed(
        notes,
        headers[i],
        apply,
        #[trigger] states[i],
        Ok(#[trigger] states[j]),
    ) by {
        assert(chain[i].header == headers[i]);
        lemma_handed(notes, chain[i], apply, states[i], Ok(states[j]));
    }
    assert(leads(notes, headers, state, apply, image, states));
    if states.len() < chain.len() + 1 {
        let k = states.len() - 1;
        assert(chain[k].header == headers[k]);
        lemma_handed(notes, chain[k], apply, states.last(), Err(result->Err_0));
    }
}

/// A finalized header above the published block is answered by what was proposed
/// before. Where its line of ancestors down to the published block was proposed,
/// the blocks of that line are applied to the published image, oldest first, each
/// with exactly its own logs: the answer is an update that names the header and
/// the length of the line, with the model that this leads to, or the first error
/// of the pool model unchanged, with the published model left as it was. Without
/// such a line the answer is that the stream is discontinuous, and the published
/// model stays too.
pub proof fn law_finalizations_follow_the_proposals<
    M,
    S,
    F: Fn(&M) -> S,
    G: Fn(S, &BlockHeader, &Vec<RpcLog>) -> Result<S, Error>,
    H: Fn(S) -> Result<PoolModel<M>, Error>,
>(
    seed: PoolModel<M>,
    notes: Seq<Note>,
    s: SyncState<M>,
    header: HeaderView,
    headers: Seq<HeaderView>,
    state: F,
    apply: G,
    build: H,
    r: Result<Option<Update>, Error>,
    now: SyncState<M>,
)
    requires
        reached(seed, notes, s),
        header.number > s.model.block.number,
        answers(s, header, CommitState::Finalized, state, apply, build, r, now),
    ensures
        proposed_line(notes, s.model.block.number, s.model.block.hash, headers) && headers.last()
            == header ==> match r {
            Ok(Some(update)) => {
                &&& update.block@ == header
                &&& update.blocks == headers.len()
                &&& folds(notes, headers, state, apply, build, s.model.image, Ok(now.model))
            },
            Ok(None) => false,
            Err(error) => {
                &&& folds(notes, headers, state, apply, build, s.model.image, Err(error))
                &&& now.model == s.model
            },
        },
        !line_was_proposed(notes, s.model.block.number, s.model.block.hash, header) ==> {
            &&& r matches Err(error) && error@ == ErrorView::Discontinuous
            &&& now.model == s.model
        },
{
    let number = s.model.block.number;
    let hash = s.model.block.hash;
    if proposed_line(notes, number, hash, headers) && headers.last() == header {
        law_proposed_lines_are_published(seed, notes, s, headers);
        let chain = s.on_head(header, CommitState::Finalized).0->Publish_0;
        match r {
            Ok(Some(_)) => lemma_folds(
                notes,
                chain,
                headers,
                state,
                apply,
                build,
                s.model.image,
                Ok(now.model),
            ),
            Ok(None) => {},
            Err(error) => lemma_folds(
                notes,
                chain,
                headers,
                state,
                apply,
                build,
                s.model.image,
                Err(error),
            ),
        }
    }
    if !line_was_proposed(notes, number, hash, header) {
        lemma_remembers(seed, notes, s);
        if let HeadPlan::Publish(chain) = s.on_head(header, CommitState::Finalized).0 {
            law_published_blocks_are_complete(seed, notes, s, header, chain);
            let line = Seq::new(chain.len(), |i: int| chain[i].header);
            assert forall|i: int| 0 <= i < line.len() implies proposed(
                notes,
                #[trigger] line[i],
            ) && line[i].number == number + 1 + i by {
                assert(faithful(notes, chain[i]));
            }
            assert forall|i: int, j: int| 0 <= i && j == i + 1 && j < line.len() implies (
            #[trigger] line[j]).parent_hash == (#[trigger] line[i]).hash by {
                assert(chain[j].header.parent_hash == chain[i].header.hash);
            }
            assert(line[0] == chain[0].header);
            assert(line.last() == chain.last().header);
            assert(proposed_line(notes, number, hash, line));
        }
    }
}

/// Whether the header ends some line of proposed headers from this block upwards.
pub open spec fn line_was_proposed(
    notes: Seq<Note>,
    number: u64,
    hash: Option<B256>,
    header: HeaderView,
) -> bool {
    exists|headers: Seq<HeaderView>| #[trigger]
        proposed_line(notes, number, hash, headers) && headers.last() == header
}

} // verus!

//! What the contracts see of a value is all of it, and the order of logs.
use crate::client::{Action, ActionView};
use crate::error::{outcome, Error, ErrorView};
use crate::json::json;
use crate::pending::{above, in_order, lists, log_views, Frame};
use crate::seed::{asked, decoding, found, SeedAction, SeedActionView};
use crate::synchronizer::EventSynchronizer;
use crate::types::{
    before, mainnet_wmon, Block, BlockHeader, HeaderView, LogView, RpcLog, Update, B256,
};
use vstd::prelude::*;

verus! {

/// The views of headers, logs, blocks and updates hold every field as it is.
pub proof fn law_views_hold_every_field(
    header: BlockHeader,
    log: RpcLog,
    block: Block,
    update: Update,
)
    ensures
        header@.number == header.number,
        header@.hash == header.hash,
        header@.parent_hash == header.parent_hash,
        header@.context == header.context@,
        log@.address == log.address,
        log@.topics == log.topics@,
        log@.data == log.data@,
        log@.block_hash == log.block_hash,
        log@.block_number == log.block_number,
        log@.transaction_index == log.transaction_index,
        log@.log_index == log.log_index,
        log@.removed == log.removed,
        block@.number == block.number,
        block@.hash == block.hash,
        block@.context == block.context@,
        update@.block == update.block@,
        update@.blocks == update.blocks,
{
}

/// The view of an error is of its variant and holds its text.
pub proof fn law_errors_are_seen_as_they_are(error: Error)
    ensures
        match error {
            Error::InvalidData(text) => error@ == ErrorView::InvalidData(text@),
            Error::Discontinuous => error@ == ErrorView::Discontinuous,
            Error::Transport(text) => error@ == ErrorView::Transport(text@),
            Error::Rpc(text) => error@ == ErrorView::Rpc(text@),
            Error::Arithmetic => error@ == ErrorView::Arithmetic,
            Error::Abi(text) => error@ == ErrorView::Abi(text@),
            Error::ContractUpgraded => error@ == ErrorView::ContractUpgraded,
            Error::Model(text) => error@ == ErrorView::Model(text@),
        },
{
}

/// A result is seen with its value as it is and its error by its view.
pub proof fn law_outcomes_are_seen_as_they_are<T>(value: T, error: Error)
    ensures
        outcome(Ok::<T, Error>(value)) == Ok::<T, ErrorView>(value),
        outcome(Err::<T, Error>(error)) == Err::<T, ErrorView>(error@),
{
}

/// Actions are seen by their variants, with their payloads' trees, updates and
/// errors.
pub proof fn law_actions_are_seen_as_they_are(action: Action, asking: SeedAction)
    ensures
        match action {
            Action::Read => action@ == ActionView::Read,
            Action::DecodeLog(payload) => action@ == ActionView::DecodeLog(json(payload)),
            Action::DecodeHead(payload) => action@ == ActionView::DecodeHead(json(payload)),
            Action::Return(Ok(update)) => action@ == ActionView::Return(Ok(update)),
            Action::Return(Err(error)) => action@ == ActionView::Return(Err(error@)),
        },
        match asking {
            SeedAction::Read => asking@ == SeedActionView::Read,
            SeedAction::DecodeHead(payload) => asking@ == SeedActionView::DecodeHead(
                json(payload),
            ),
        },
{
}

/// What the search for the seed takes and gives is seen as it is.
pub proof fn law_search_results_are_seen_as_they_are(
    action: SeedAction,
    header: BlockHeader,
    message: String,
    error: Error,
)
    ensures
        asked(Ok(action)) == Ok::<SeedActionView, ErrorView>(action@),
        asked(Err(error)) == Err::<SeedActionView, ErrorView>(error@),
        found(Ok(Some(header))) == Ok::<Option<HeaderView>, ErrorView>(Some(header@)),
        found(Ok(None)) == Ok::<Option<HeaderView>, ErrorView>(None),
        found(Err(error)) == Err::<Option<HeaderView>, ErrorView>(error@),
        decoding(Ok(header)) == Ok::<HeaderView, Seq<char>>(header@),
        decoding(Err(message)) == Err::<HeaderView, Seq<char>>(message@),
{
}

/// A log's position is its transaction's index and its own. Positions are ordered
/// by the first and then by the second; of two that differ exactly one comes
/// before the other, and the order is transitive.
pub proof fn law_positions_are_ordered(log: LogView, a: (u64, u64), b: (u64, u64), c: (u64, u64))
    ensures
        log.position() == (log.transaction_index, log.log_index),
        a.0 < b.0 ==> before(a, b),
        a.0 == b.0 ==> before(a, b) == (a.1 < b.1),
        a.0 > b.0 ==> !before(a, b),
        before(a, b) && before(b, c) ==> before(a, c),
        a != b ==> before(a, b) != before(b, a),
{
}

/// Logs are listed with each held log once, in the order of transactions and then
/// of logs, and nothing else.
pub proof fn law_lists_are_sorted_and_complete(
    list: Seq<LogView>,
    logs: Map<(u64, u64), LogView>,
    i: int,
    j: int,
)
    requires
        lists(list, logs),
    ensures
        in_order(list),
        0 <= i < j < list.len() ==> list[i].transaction_index < list[j].transaction_index || (
        list[i].transaction_index == list[j].transaction_index && list[i].log_index
            < list[j].log_index),
        0 <= i < list.len() ==> logs.contains_key(
            (list[i].transaction_index, list[i].log_index),
        ) && logs[(list[i].transaction_index, list[i].log_index)] == list[i],
        forall|p: (u64, u64)| #[trigger]
            logs.contains_key(p) ==> exists|k: int|
                0 <= k < list.len() && (#[trigger] list[k]).transaction_index == p.0
                    && list[k].log_index == p.1,
{
    if 0 <= i < j < list.len() {
        assert(before(list[i].position(), list[j].position()));
    }
    if 0 <= i < list.len() {
        assert(logs.contains_key(list[i].position()));
    }
    assert forall|p: (u64, u64)| #[trigger] logs.contains_key(p) implies exists|k: int|
        0 <= k < list.len() && (#[trigger] list[k]).transaction_index == p.0 && list[k].log_index
            == p.1 by {
        let k = choose|k: int| 0 <= k < list.len() && (#[trigger] list[k]).position() == p;
        assert(list[k].transaction_index == p.0);
    }
}

/// The logs of a list are seen one by one, in its order.
pub proof fn law_listed_logs_keep_their_places(logs: Seq<RpcLog>, i: int)
    requires
        0 <= i < logs.len(),
    ensures
        log_views(logs).len() == logs.len(),
        log_views(logs)[i] == logs[i]@,
{
}

/// Of the held blocks exactly those above a number are kept, unchanged.
pub proof fn law_kept_blocks_lie_above(pending: Map<B256, Frame>, number: u64, hash: B256)
    ensures
        above(pending, number).contains_key(hash) <==> pending.contains_key(hash)
            && pending[hash].header.number > number,
        above(pending, number).contains_key(hash) ==> above(pending, number)[hash]
            == pending[hash],
{
}

/// The mainnet token is the one with the address
/// 0x3bd359c1119da7da1d913d1c4d2b7c461115433a.
pub proof fn law_mainnet_wmon_has_its_address()
    ensures
        mainnet_wmon().high * 0x1_0000_0000_0000_0000_0000_0000_0000_0000 + mainnet_wmon().low
            == 0x3bd359c1119da7da1d913d1c4d2b7c461115433aint,
{
}

/// In every synchronizer the frame that is open is held, each block is held under
/// its own hash, and its logs are its own, each under its position.
pub proof fn law_synchronizers_hold_what_they_say<M>(
    synchronizer: EventSynchronizer<M>,
    hash: B256,
    p: (u64, u64),
)
    requires
        synchronizer.wf(),
    ensures
        synchronizer@.active == Some(hash) ==> synchronizer@.pending.contains_key(hash),
        synchronizer@.pending.contains_key(hash) ==> synchronizer@.pending[hash].header.hash
            == hash,
        synchronizer@.pending.contains_key(hash) && synchronizer@.pending[hash].logs.contains_key(p)
            ==> {
            let log = synchronizer@.pending[hash].logs[p];
            &&& log.transaction_index == p.0
            &&& log.log_index == p.1
            &&& log.block_hash == hash
            &&& log.block_number == synchronizer@.pending[hash].header.number
            &&& !log.removed
        },
{
    synchronizer.lemma_state_is_well_formed();
}

} // verus!

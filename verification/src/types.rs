//! The values that travel between the stream, the reducer and the pool model.
use vstd::prelude::*;

verus! {

/// A 32-byte value, such as a block hash, as its two big-endian halves.
#[derive(Clone, Copy, Debug, PartialEq, Eq, PartialOrd, Ord, Hash, Structural)]
pub struct B256 {
    pub high: u128,
    pub low: u128,
}

/// A 20-byte account address: its first four bytes and its last sixteen, both
/// big-endian.
#[derive(Clone, Copy, Debug, PartialEq, Eq, PartialOrd, Ord, Hash, Structural)]
pub struct Address {
    pub high: u32,
    pub low: u128,
}

/// The settings of a client.
#[derive(Clone, Debug)]
pub struct Config {
    /// The wrapped native token, which the seed must list as its token 3.
    pub wmon: Address,
}

/// WMON on Monad mainnet: 0x3bd359c1119da7da1d913d1c4d2b7c461115433a.
pub open spec fn mainnet_wmon() -> Address {
    Address { high: 0x3bd359c1, low: 0x119da7da1d913d1c4d2b7c461115433a }
}

impl Default for Config {
    fn default() -> (config: Config)
        ensures
            config.wmon == mainnet_wmon(),
    {
        Config { wmon: Address { high: 0x3bd359c1, low: 0x119da7da1d913d1c4d2b7c461115433a } }
    }
}

/// The commitment stage that a header notification reports.
#[derive(Clone, Copy, Debug, PartialEq, Eq, Structural)]
pub enum CommitState {
    Proposed,
    Voted,
    Finalized,
    Verified,
}

/// A block header. `context` holds the fields that only the pool model reads
/// (the base fee among them), encoded; the reducer compares it as a whole.
#[derive(Debug, PartialEq, Eq)]
pub struct BlockHeader {
    pub number: u64,
    pub hash: B256,
    pub parent_hash: B256,
    pub context: Vec<u8>,
}

/// A [`BlockHeader`] with its context as a sequence.
pub struct HeaderView {
    pub number: u64,
    pub hash: B256,
    pub parent_hash: B256,
    pub context: Seq<u8>,
}

impl View for BlockHeader {
    type V = HeaderView;

    open spec fn view(&self) -> HeaderView {
        HeaderView {
            number: self.number,
            hash: self.hash,
            parent_hash: self.parent_hash,
            context: self.context@,
        }
    }
}

impl Clone for BlockHeader {
    fn clone(&self) -> (copy: BlockHeader)
        ensures
            copy@ == self@,
    {
        let context = self.context.clone();
        assert(context@ =~= self.context@);
        BlockHeader {
            number: self.number,
            hash: self.hash,
            parent_hash: self.parent_hash,
            context,
        }
    }
}

impl BlockHeader {
    /// Whether two headers agree in every field.
    pub fn same(&self, other: &BlockHeader) -> (r: bool)
        ensures
            r == (self@ == other@),
    {
        let equal: bool = self.context == other.context;
        assert(equal == (self.context@ =~= other.context@));
        self.number == other.number && self.hash == other.hash && self.parent_hash
            == other.parent_hash && equal
    }
}

/// A log notification.
#[derive(Debug, PartialEq, Eq)]
pub struct RpcLog {
    pub address: Address,
    pub topics: Vec<B256>,
    pub data: Vec<u8>,
    pub block_hash: B256,
    pub block_number: u64,
    pub transaction_index: u64,
    pub log_index: u64,
    pub removed: bool,
}

/// An [`RpcLog`] with its topics and data as sequences.
pub struct LogView {
    pub address: Address,
    pub topics: Seq<B256>,
    pub data: Seq<u8>,
    pub block_hash: B256,
    pub block_number: u64,
    pub transaction_index: u64,
    pub log_index: u64,
    pub removed: bool,
}

impl LogView {
    /// The place of the log within its block.
    pub open spec fn position(self) -> (u64, u64) {
        (self.transaction_index, self.log_index)
    }
}

/// Whether one position comes before another: by transaction, then by log.
pub open spec fn before(left: (u64, u64), right: (u64, u64)) -> bool {
    left.0 < right.0 || (left.0 == right.0 && left.1 < right.1)
}

impl View for RpcLog {
    type V = LogView;

    open spec fn view(&self) -> LogView {
        LogView {
            address: self.address,
            topics: self.topics@,
            data: self.data@,
            block_hash: self.block_hash,
            block_number: self.block_number,
            transaction_index: self.transaction_index,
            log_index: self.log_index,
            removed: self.removed,
        }
    }
}

impl Clone for RpcLog {
    fn clone(&self) -> (copy: RpcLog)
        ensures
            copy@ == self@,
    {
        let topics = self.topics.clone();
        let data = self.data.clone();
        assert(topics@ =~= self.topics@);
        assert(data@ =~= self.data@);
        RpcLog {
            address: self.address,
            topics,
            data,
            block_hash: self.block_hash,
            block_number: self.block_number,
            transaction_index: self.transaction_index,
            log_index: self.log_index,
            removed: self.removed,
        }
    }
}

/// Whether two lists of topics are equal.
fn same_topics(left: &Vec<B256>, right: &Vec<B256>) -> (r: bool)
    ensures
        r == (left@ == right@),
{
    if left.len() != right.len() {
        return false;
    }
    for i in 0..left.len()
        invariant
            left@.len() == right@.len(),
            forall|j: int| 0 <= j < i ==> left@[j] == right@[j],
    {
        if left[i] != right[i] {
            return false;
        }
    }
    assert(left@ =~= right@);
    true
}

impl RpcLog {
    /// Whether two logs agree in every field.
    pub fn same(&self, other: &RpcLog) -> (r: bool)
        ensures
            r == (self@ == other@),
    {
        let topics: bool = same_topics(&self.topics, &other.topics);
        let data: bool = self.data == other.data;
        assert(data == (self.data@ =~= other.data@));
        self.address == other.address && topics && data && self.block_hash == other.block_hash
            && self.block_number == other.block_number && self.transaction_index
            == other.transaction_index && self.log_index == other.log_index && self.removed
            == other.removed
    }
}

/// The block that a model stands at. `context` holds what else the pool model
/// keeps of it, encoded. A snapshot of the latest state may not know its hash.
#[derive(Clone, Debug, PartialEq, Eq)]
pub struct Block {
    pub number: u64,
    pub hash: Option<B256>,
    pub context: Vec<u8>,
}

/// A [`Block`] with its context as a sequence.
pub struct BlockView {
    pub number: u64,
    pub hash: Option<B256>,
    pub context: Seq<u8>,
}

impl View for Block {
    type V = BlockView;

    open spec fn view(&self) -> BlockView {
        BlockView { number: self.number, hash: self.hash, context: self.context@ }
    }
}

impl Block {
    /// Whether two blocks agree in every field.
    pub fn same(&self, other: &Block) -> (r: bool)
        ensures
            r == (self@ == other@),
    {
        let equal: bool = self.context == other.context;
        assert(equal == (self.context@ =~= other.context@));
        self.number == other.number && self.hash == other.hash && equal
    }
}

/// An immutable pool model: the block it stands at, the tokens it lists in
/// registry order, and the quoting image itself, which the library carries and
/// never looks into.
#[derive(Clone, Debug, PartialEq, Eq)]
pub struct PoolModel<M> {
    pub block: Block,
    pub tokens: Vec<Address>,
    pub image: M,
}

/// A published finalization: the block and how many blocks it moved the model.
#[derive(Clone, Debug, PartialEq, Eq)]
pub struct Update {
    pub block: BlockHeader,
    pub blocks: u64,
}

/// An [`Update`] with its header by its view.
pub struct UpdateView {
    pub block: HeaderView,
    pub blocks: u64,
}

impl View for Update {
    type V = UpdateView;

    open spec fn view(&self) -> UpdateView {
        UpdateView { block: self.block@, blocks: self.blocks }
    }
}

} // verus!

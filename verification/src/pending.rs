//! The blocks that were proposed and are not settled yet, with their logs.
use crate::error::{Error, ErrorView};
use crate::types::{before, BlockHeader, HeaderView, LogView, RpcLog, B256};
use vstd::prelude::*;

verus! {

/// A proposed block as the reducer knows it: its header, the logs seen so far
/// by their positions, and whether its log frame was closed by a later header.
#[verifier::ext_equal]
pub struct Frame {
    pub header: HeaderView,
    pub logs: Map<(u64, u64), LogView>,
    pub complete: bool,
}

impl Frame {
    /// Every log of the frame sits at its own position and names the frame's
    /// block, and none was taken back.
    pub open spec fn owns_its_logs(self) -> bool {
        forall|p: (u64, u64)| #[trigger]
            self.logs.contains_key(p) ==> {
                &&& self.logs[p].position() == p
                &&& self.logs[p].block_hash == self.header.hash
                &&& self.logs[p].block_number == self.header.number
                &&& !self.logs[p].removed
            }
    }

    /// Whether the frame holds this log.
    pub open spec fn carries(self, log: LogView) -> bool {
        self.logs.contains_key(log.position()) && self.logs[log.position()] == log
    }
}

/// The logs with their contents as sequences.
pub open spec fn log_views(logs: Seq<RpcLog>) -> Seq<LogView> {
    logs.map_values(|log: RpcLog| log@)
}

/// Whether the logs stand in the order of their positions, none twice.
pub open spec fn in_order(logs: Seq<LogView>) -> bool {
    forall|i: int, j: int|
        0 <= i < j < logs.len() ==> before(
            (#[trigger] logs[i]).position(),
            (#[trigger] logs[j]).position(),
        )
}

/// Whether `list` holds exactly the logs of `logs`, in the order of their
/// positions.
pub open spec fn lists(list: Seq<LogView>, logs: Map<(u64, u64), LogView>) -> bool {
    &&& in_order(list)
    &&& forall|i: int|
        0 <= i < list.len() ==> logs.contains_key((#[trigger] list[i]).position())
            && logs[list[i].position()] == list[i]
    &&& forall|p: (u64, u64)| #[trigger]
        logs.contains_key(p) ==> exists|i: int|
            0 <= i < list.len() && (#[trigger] list[i]).position() == p
}

/// Whether some log of the list has this position.
pub open spec fn occupied(list: Seq<LogView>, p: (u64, u64)) -> bool {
    exists|i: int| 0 <= i < list.len() && (#[trigger] list[i]).position() == p
}

/// The log of the list that has this position.
pub open spec fn at(list: Seq<LogView>, p: (u64, u64)) -> LogView {
    list[choose|i: int| 0 <= i < list.len() && (#[trigger] list[i]).position() == p]
}

/// The logs of a list, by their positions.
pub open spec fn by_position(list: Seq<LogView>) -> Map<(u64, u64), LogView> {
    Map::new(|p: (u64, u64)| occupied(list, p), |p: (u64, u64)| at(list, p))
}

proof fn lemma_by_position(list: Seq<LogView>)
    requires
        in_order(list),
    ensures
        lists(list, by_position(list)),
{
    let map = by_position(list);
    assert forall|i: int| 0 <= i < list.len() implies map.contains_key(
        (#[trigger] list[i]).position(),
    ) && map[list[i].position()] == list[i] by {
        let p = list[i].position();
        assert(occupied(list, p));
        let k = choose|k: int| 0 <= k < list.len() && (#[trigger] list[k]).position() == p;
        assert(list[k].position() == p);
        if k < i {
            assert(before(list[k].position(), list[i].position()));
        } else if i < k {
            assert(before(list[i].position(), list[k].position()));
        }
    }
}

proof fn lemma_lists_unique(
    list: Seq<LogView>,
    left: Map<(u64, u64), LogView>,
    right: Map<(u64, u64), LogView>,
)
    requires
        lists(list, left),
        lists(list, right),
    ensures
        left == right,
{
    assert forall|p: (u64, u64)| left.contains_key(p) implies right.contains_key(p) && left[p]
        == right[p] by {
        let i = choose|i: int| 0 <= i < list.len() && (#[trigger] list[i]).position() == p;
        assert(list[i].position() == p);
    }
    assert forall|p: (u64, u64)| right.contains_key(p) implies left.contains_key(p) by {
        let i = choose|i: int| 0 <= i < list.len() && (#[trigger] list[i]).position() == p;
        assert(list[i].position() == p);
    }
    assert(left =~= right);
}

proof fn lemma_lists_drop_last(list: Seq<LogView>, logs: Map<(u64, u64), LogView>)
    requires
        lists(list, logs),
        list.len() > 0,
    ensures
        lists(list.drop_last(), logs.remove(list.last().position())),
{
    let shorter = list.drop_last();
    let top = list[list.len() - 1];
    let fewer = logs.remove(top.position());
    assert forall|i: int| 0 <= i < shorter.len() implies fewer.contains_key(
        (#[trigger] shorter[i]).position(),
    ) && fewer[shorter[i].position()] == shorter[i] by {
        assert(shorter[i] == list[i]);
        assert(before(list[i].position(), top.position()));
    }
    assert forall|i: int, j: int| 0 <= i < j < shorter.len() implies before(
        (#[trigger] shorter[i]).position(),
        (#[trigger] shorter[j]).position(),
    ) by {
        assert(shorter[i] == list[i] && shorter[j] == list[j]);
    }
    assert forall|p: (u64, u64)| #[trigger] fewer.contains_key(p) implies exists|i: int|
        0 <= i < shorter.len() && (#[trigger] shorter[i]).position() == p by {
        let i = choose|i: int| 0 <= i < list.len() && (#[trigger] list[i]).position() == p;
        assert(shorter[i] == list[i]);
    }
}

/// The order in which a frame's logs are replayed is fixed by their positions.
pub proof fn law_replay_order_is_fixed(
    left: Seq<LogView>,
    right: Seq<LogView>,
    logs: Map<(u64, u64), LogView>,
)
    requires
        lists(left, logs),
        lists(right, logs),
    ensures
        left == right,
    decreases left.len(),
{
    if left.len() == 0 {
        if right.len() > 0 {
            assert(logs.contains_key(right[0].position()));
        }
        assert(left =~= right);
    } else {
        let top = left[left.len() - 1];
        assert(logs.contains_key(top.position()));
        let i = choose|i: int|
            0 <= i < right.len() && (#[trigger] right[i]).position() == top.position();
        let other = right[right.len() - 1];
        assert(logs.contains_key(other.position()));
        let j = choose|j: int|
            0 <= j < left.len() && (#[trigger] left[j]).position() == other.position();
        if i < right.len() - 1 {
            assert(before(right[i].position(), other.position()));
            if j < left.len() - 1 {
                assert(before(left[j].position(), top.position()));
            }
        }
        assert(top.position() == other.position());
        assert(logs[top.position()] == top && logs[other.position()] == other);
        lemma_lists_drop_last(left, logs);
        lemma_lists_drop_last(right, logs);
        law_replay_order_is_fixed(
            left.drop_last(),
            right.drop_last(),
            logs.remove(top.position()),
        );
        assert(left =~= left.drop_last().push(top));
        assert(right =~= right.drop_last().push(other));
    }
}

proof fn lemma_insert_in_order(list: Seq<LogView>, k: int, log: LogView)
    requires
        in_order(list),
        0 <= k <= list.len(),
        forall|i: int| 0 <= i < k ==> before((#[trigger] list[i]).position(), log.position()),
        forall|i: int|
            k <= i < list.len() ==> before(log.position(), (#[trigger] list[i]).position()),
    ensures
        in_order(list.insert(k, log)),
        by_position(list.insert(k, log)) == by_position(list).insert(log.position(), log),
{
    let longer = list.insert(k, log);
    let map = by_position(list).insert(log.position(), log);
    assert forall|i: int, j: int| 0 <= i < j < longer.len() implies before(
        (#[trigger] longer[i]).position(),
        (#[trigger] longer[j]).position(),
    ) by {
        let a = if i < k { i } else { i - 1 };
        let b = if j < k { j } else { j - 1 };
        if i == k {
            assert(longer[j] == list[b]);
        } else if j == k {
            assert(longer[i] == list[a]);
        } else {
            assert(longer[i] == list[a]);
            assert(longer[j] == list[b]);
            assert(before(list[a].position(), list[b].position()));
        }
    }
    lemma_by_position(list);
    lemma_by_position(longer);
    assert(longer[k] == log);
    assert forall|i: int| 0 <= i < longer.len() implies map.contains_key(
        (#[trigger] longer[i]).position(),
    ) && map[longer[i].position()] == longer[i] by {
        if i < k {
            assert(longer[i] == list[i]);
        } else if i > k {
            assert(longer[i] == list[i - 1]);
        }
    }
    assert forall|p: (u64, u64)| #[trigger] map.contains_key(p) implies exists|i: int|
        0 <= i < longer.len() && (#[trigger] longer[i]).position() == p by {
        if p == log.position() {
            assert(longer[k].position() == p);
        } else {
            let i = choose|i: int| 0 <= i < list.len() && (#[trigger] list[i]).position() == p;
            if i < k {
                assert(longer[i] == list[i]);
            } else {
                assert(longer[i + 1] == list[i]);
            }
        }
    }
    lemma_lists_unique(longer, by_position(longer), map);
}

/// A proposed block, its logs stored in the order in which they will be
/// replayed.
pub(crate) struct PendingBlock {
    pub header: BlockHeader,
    pub logs: Vec<RpcLog>,
    pub complete: bool,
}

impl PendingBlock {
    pub(crate) open spec fn wf(self) -> bool {
        &&& in_order(log_views(self.logs@))
        &&& forall|i: int|
            0 <= i < self.logs@.len() ==> {
                &&& (#[trigger] self.logs@[i]).block_hash == self.header.hash
                &&& self.logs@[i].block_number == self.header.number
                &&& !self.logs@[i].removed
            }
    }

    pub(crate) open spec fn frame(self) -> Frame {
        Frame {
            header: self.header@,
            logs: by_position(log_views(self.logs@)),
            complete: self.complete,
        }
    }

    /// Files a log of this block under its position. A log that is already there
    /// changes nothing; another one at the same position is refused.
    fn insert_log(&mut self, log: RpcLog) -> (r: Result<(), Error>)
        requires
            old(self).wf(),
            log.block_hash == old(self).header.hash,
            log.block_number == old(self).header.number,
            !log.removed,
        ensures
            final(self).wf(),
            final(self).header == old(self).header,
            final(self).complete == old(self).complete,
            ({
                let logs = old(self).frame().logs;
                let p = log@.position();
                if !logs.contains_key(p) {
                    r is Ok && final(self).frame().logs == logs.insert(p, log@)
                } else if logs[p] == log@ {
                    r is Ok && final(self).frame().logs == logs
                } else {
                    &&& r matches Err(e) && e@ == ErrorView::InvalidData(
                        "conflicting subscription logs"@,
                    )
                    &&& final(self).frame().logs == logs
                }
            }),
    {
        let ghost list = log_views(self.logs@);
        proof {
            lemma_by_position(list);
        }
        let mut k: usize = 0;
        while k < self.logs.len() && (self.logs[k].transaction_index < log.transaction_index || (
        self.logs[k].transaction_index == log.transaction_index && self.logs[k].log_index
            < log.log_index))
            invariant
                k <= self.logs@.len(),
                list == log_views(self.logs@),
                forall|i: int| 0 <= i < k ==> before((#[trigger] list[i]).position(), log@.position()),
            decreases self.logs@.len() - k,
        {
            assert(list[k as int] == self.logs@[k as int]@);
            k = k + 1;
        }
        if k < self.logs.len() && self.logs[k].transaction_index == log.transaction_index
            && self.logs[k].log_index == log.log_index {
            assert(list[k as int] == self.logs@[k as int]@);
            if self.logs[k].same(&log) {
                return Ok(());
            }
            return Err(Error::InvalidData("conflicting subscription logs".to_owned()));
        }
        proof {
            assert forall|i: int| k <= i < list.len() implies before(
                log@.position(),
                (#[trigger] list[i]).position(),
            ) by {
                assert(list[k as int] == self.logs@[k as int]@);
                if i > k {
                    assert(before(list[k as int].position(), list[i].position()));
                }
            }
            lemma_insert_in_order(list, k as int, log@);
            assert(!by_position(list).contains_key(log@.position()));
        }
        let ghost before_insert = self.logs@;
        self.logs.insert(k, log);
        proof {
            assert(log_views(self.logs@) =~= list.insert(k as int, log@));
            assert forall|i: int| 0 <= i < self.logs@.len() implies {
                &&& (#[trigger] self.logs@[i]).block_hash == self.header.hash
                &&& self.logs@[i].block_number == self.header.number
                &&& !self.logs@[i].removed
            } by {
                if i < k {
                    assert(self.logs@[i] == before_insert[i]);
                } else if i > k {
                    assert(self.logs@[i] == before_insert[i - 1]);
                }
            }
        }
        Ok(())
    }
}

/// Whether a block with this hash is stored.
spec fn holds(blocks: Seq<PendingBlock>, hash: B256) -> bool {
    exists|i: int| 0 <= i < blocks.len() && (#[trigger] blocks[i]).header.hash == hash
}

/// The stored block with this hash.
spec fn holder(blocks: Seq<PendingBlock>, hash: B256) -> PendingBlock {
    blocks[choose|i: int| 0 <= i < blocks.len() && (#[trigger] blocks[i]).header.hash == hash]
}

/// The pending blocks, no two with the same hash.
pub(crate) struct Pending {
    blocks: Vec<PendingBlock>,
}

impl View for Pending {
    type V = Map<B256, Frame>;

    closed spec fn view(&self) -> Map<B256, Frame> {
        Map::new(
            |hash: B256| holds(self.blocks@, hash),
            |hash: B256| holder(self.blocks@, hash).frame(),
        )
    }
}

/// The frames of the blocks above `number`.
pub open spec fn above(pending: Map<B256, Frame>, number: u64) -> Map<B256, Frame> {
    Map::new(
        |hash: B256| pending.contains_key(hash) && pending[hash].header.number > number,
        |hash: B256| pending[hash],
    )
}

/// Whether every frame is filed under its own hash and owns its logs.
pub open spec fn filed(pending: Map<B256, Frame>) -> bool {
    forall|hash: B256| #[trigger]
        pending.contains_key(hash) ==> pending[hash].header.hash == hash
            && pending[hash].owns_its_logs()
}

impl Pending {
    pub(crate) closed spec fn wf(self) -> bool {
        &&& forall|i: int| 0 <= i < self.blocks@.len() ==> (#[trigger] self.blocks@[i]).wf()
        &&& forall|i: int, j: int|
            0 <= i < j < self.blocks@.len() ==> (#[trigger] self.blocks@[i]).header.hash != (
            #[trigger] self.blocks@[j]).header.hash
    }

    /// The view reads off the blocks.
    proof fn lemma_entry(self, i: int)
        requires
            self.wf(),
            0 <= i < self.blocks@.len(),
        ensures
            self@.contains_key(self.blocks@[i].header.hash),
            self@[self.blocks@[i].header.hash] == self.blocks@[i].frame(),
    {
        let hash = self.blocks@[i].header.hash;
        assert(holds(self.blocks@, hash));
        let k = choose|k: int|
            0 <= k < self.blocks@.len() && (#[trigger] self.blocks@[k]).header.hash == hash;
        assert(self.blocks@[k].header.hash == hash);
        assert(k == i);
    }

    proof fn lemma_holder(self, hash: B256) -> (i: int)
        requires
            self.wf(),
            self@.contains_key(hash),
        ensures
            0 <= i < self.blocks@.len(),
            self.blocks@[i].header.hash == hash,
            self@[hash] == self.blocks@[i].frame(),
    {
        let i = choose|i: int|
            0 <= i < self.blocks@.len() && (#[trigger] self.blocks@[i]).header.hash == hash;
        self.lemma_entry(i);
        i
    }

    pub(crate) proof fn lemma_filed(self)
        requires
            self.wf(),
        ensures
            filed(self@),
    {
        assert forall|hash: B256| #[trigger] self@.contains_key(hash) implies self@[hash].header.hash
            == hash && self@[hash].owns_its_logs() by {
            let i = self.lemma_holder(hash);
            let block = self.blocks@[i];
            let list = log_views(block.logs@);
            lemma_by_position(list);
            assert forall|p: (u64, u64)| #[trigger] self@[hash].logs.contains_key(p) implies {
                &&& self@[hash].logs[p].position() == p
                &&& self@[hash].logs[p].block_hash == self@[hash].header.hash
                &&& self@[hash].logs[p].block_number == self@[hash].header.number
                &&& !self@[hash].logs[p].removed
            } by {
                let k = choose|k: int| 0 <= k < list.len() && (#[trigger] list[k]).position() == p;
                assert(list[k] == block.logs@[k]@);
            }
        }
    }

    pub(crate) fn new() -> (pending: Pending)
        ensures
            pending.wf(),
            pending@ == Map::<B256, Frame>::empty(),
    {
        let pending = Pending { blocks: Vec::new() };
        assert(pending@ =~= Map::<B256, Frame>::empty());
        pending
    }

    /// Where the block with this hash is stored.
    fn find(&self, hash: B256) -> (r: Option<usize>)
        requires
            self.wf(),
        ensures
            match r {
                Some(i) => {
                    &&& i < self.blocks@.len()
                    &&& self.blocks@[i as int].header.hash == hash
                    &&& self@.contains_key(hash)
                    &&& self@[hash] == self.blocks@[i as int].frame()
                },
                None => !self@.contains_key(hash),
            },
    {
        let mut i: usize = 0;
        while i < self.blocks.len()
            invariant
                self.wf(),
                i <= self.blocks@.len(),
                forall|j: int| 0 <= j < i ==> (#[trigger] self.blocks@[j]).header.hash != hash,
            decreases self.blocks@.len() - i,
        {
            if self.blocks[i].header.hash == hash {
                proof {
                    self.lemma_entry(i as int);
                }
                return Some(i);
            }
            i = i + 1;
        }
        None
    }

    /// The block with this hash.
    pub(crate) fn get(&self, hash: B256) -> (r: Option<&PendingBlock>)
        requires
            self.wf(),
        ensures
            match r {
                Some(block) => {
                    &&& block.wf()
                    &&& self@.contains_key(hash)
                    &&& self@[hash] == block.frame()
                },
                None => !self@.contains_key(hash),
            },
    {
        match self.find(hash) {
            Some(i) => Some(&self.blocks[i]),
            None => None,
        }
    }

    /// A block that is known to be there.
    pub(crate) fn fetch(&self, hash: B256) -> (block: &PendingBlock)
        requires
            self.wf(),
            self@.contains_key(hash),
        ensures
            block.wf(),
            block.header@ == self@[hash].header,
            lists(log_views(block.logs@), self@[hash].logs),
    {
        let ghost k = self.lemma_holder(hash);
        let count: usize = self.blocks.len();
        let mut i: usize = 0;
        while self.blocks[i].header.hash != hash
            invariant
                self.wf(),
                count == self.blocks@.len(),
                i <= k < count,
                self.blocks@[k].header.hash == hash,
            decreases k - i,
        {
            i = i + 1;
        }
        proof {
            self.lemma_entry(i as int);
            lemma_by_position(log_views(self.blocks@[i as int].logs@));
        }
        &self.blocks[i]
    }

    /// Replacing the block at an index replaces the frame under its hash.
    proof fn lemma_replaced(self, next: Pending, i: int)
        requires
            self.wf(),
            0 <= i < self.blocks@.len(),
            next.blocks@.len() == self.blocks@.len(),
            next.blocks@[i].wf(),
            next.blocks@[i].header.hash == self.blocks@[i].header.hash,
            forall|j: int|
                0 <= j < self.blocks@.len() && j != i ==> #[trigger] next.blocks@[j]
                    == self.blocks@[j],
        ensures
            next.wf(),
            next@ == self@.insert(self.blocks@[i].header.hash, next.blocks@[i].frame()),
    {
        assert forall|j: int| 0 <= j < next.blocks@.len() implies (
        #[trigger] next.blocks@[j]).header.hash == self.blocks@[j].header.hash by {}
        assert(next.wf()) by {
            assert forall|a: int, b: int| 0 <= a < b < next.blocks@.len() implies (
            #[trigger] next.blocks@[a]).header.hash != (#[trigger] next.blocks@[b]).header.hash by {
                assert(self.blocks@[a].header.hash != self.blocks@[b].header.hash);
            }
            assert forall|a: int| 0 <= a < next.blocks@.len() implies (
            #[trigger] next.blocks@[a]).wf() by {
                assert(self.blocks@[a].wf());
            }
        }
        let hash = self.blocks@[i].header.hash;
        let map = self@.insert(hash, next.blocks@[i].frame());
        assert forall|h: B256| #[trigger] next@.contains_key(h) implies map.contains_key(h)
            && next@[h] == map[h] by {
            let k = next.lemma_holder(h);
            self.lemma_entry(k);
        }
        assert forall|h: B256| #[trigger] map.contains_key(h) implies next@.contains_key(h) by {
            if h == hash {
                next.lemma_entry(i);
            } else {
                let k = self.lemma_holder(h);
                next.lemma_entry(k);
            }
        }
        assert(next@ =~= map);
    }

    /// Closes the log frame of a block. Says whether the block was there.
    pub(crate) fn close(&mut self, hash: B256) -> (r: bool)
        requires
            old(self).wf(),
        ensures
            final(self).wf(),
            r == old(self)@.contains_key(hash),
            r ==> final(self)@ == old(self)@.insert(
                hash,
                Frame { complete: true, ..old(self)@[hash] },
            ),
            !r ==> final(self)@ == old(self)@,
    {
        match self.find(hash) {
            Some(i) => {
                let ghost start = *self;
                self.blocks[i].complete = true;
                proof {
                    start.lemma_replaced(*self, i as int);
                }
                true
            },
            None => false,
        }
    }

    /// Opens the log frame of a proposed block, new or seen before. A header that
    /// contradicts the one held under its hash is refused.
    pub(crate) fn propose(&mut self, header: &BlockHeader) -> (r: bool)
        requires
            old(self).wf(),
        ensures
            final(self).wf(),
            r == (old(self)@.contains_key(header.hash) ==> old(self)@[header.hash].header
                == header@),
            !r ==> final(self)@ == old(self)@,
            r ==> final(self)@ == old(self)@.insert(
                header.hash,
                (Frame {
                    header: header@,
                    logs: if old(self)@.contains_key(header.hash) {
                        old(self)@[header.hash].logs
                    } else {
                        Map::empty()
                    },
                    complete: false,
                }),
            ),
    {
        match self.find(header.hash) {
            Some(i) => {
                if !self.blocks[i].header.same(header) {
                    return false;
                }
                let ghost start = *self;
                self.blocks[i].complete = false;
                proof {
                    start.lemma_replaced(*self, i as int);
                }
                true
            },
            None => {
                let ghost start = *self;
                let block = PendingBlock {
                    header: header.clone(),
                    logs: Vec::new(),
                    complete: false,
                };
                self.blocks.push(block);
                proof {
                    start.lemma_pushed(*self, block);
                    assert(log_views(block.logs@) =~= Seq::<LogView>::empty());
                    assert(block.frame().logs =~= Map::<(u64, u64), LogView>::empty());
                }
                true
            },
        }
    }

    proof fn lemma_pushed(self, next: Pending, block: PendingBlock)
        requires
            self.wf(),
            block.wf(),
            next.blocks@ == self.blocks@.push(block),
            !self@.contains_key(block.header.hash),
        ensures
            next.wf(),
            next@ == self@.insert(block.header.hash, block.frame()),
    {
        let n = self.blocks@.len() as int;
        assert forall|a: int| 0 <= a < n implies (#[trigger] next.blocks@[a]) == self.blocks@[a]
            && self.blocks@[a].header.hash != block.header.hash by {
            self.lemma_entry(a);
        }
        assert(next.wf());
        let map = self@.insert(block.header.hash, block.frame());
        assert forall|h: B256| #[trigger] next@.contains_key(h) implies map.contains_key(h)
            && next@[h] == map[h] by {
            let k = next.lemma_holder(h);
            if k < n {
                self.lemma_entry(k);
            }
        }
        assert forall|h: B256| #[trigger] map.contains_key(h) implies next@.contains_key(h) by {
            if h == block.header.hash {
                next.lemma_entry(n);
            } else {
                let k = self.lemma_holder(h);
                next.lemma_entry(k);
            }
        }
        assert(next@ =~= map);
    }

    /// Files a log in the open frame of its block.
    pub(crate) fn record(&mut self, log: RpcLog) -> (r: Result<(), Error>)
        requires
            old(self).wf(),
            !log.removed,
        ensures
            final(self).wf(),
            ({
                let pending = old(self)@;
                let hash = log.block_hash;
                let p = log@.position();
                if !pending.contains_key(hash) || pending[hash].complete
                    || pending[hash].header.number != log.block_number {
                    &&& r matches Err(e) && e@ == ErrorView::Discontinuous
                    &&& final(self)@ == pending
                } else if !pending[hash].logs.contains_key(p) {
                    &&& r is Ok
                    &&& final(self)@ == pending.insert(
                        hash,
                        Frame { logs: pending[hash].logs.insert(p, log@), ..pending[hash] },
                    )
                } else if pending[hash].logs[p] == log@ {
                    r is Ok && final(self)@ == pending
                } else {
                    &&& r matches Err(e) && e@ == ErrorView::InvalidData(
                        "conflicting subscription logs"@,
                    )
                    &&& final(self)@ == pending
                }
            }),
    {
        match self.find(log.block_hash) {
            Some(i) => {
                if self.blocks[i].complete || self.blocks[i].header.number != log.block_number {
                    return Err(Error::Discontinuous);
                }
                let ghost start = *self;
                let r = self.blocks[i].insert_log(log);
                proof {
                    start.lemma_replaced(*self, i as int);
                    assert(r is Err || start@[log.block_hash].logs.contains_key(log@.position())
                        ==> self@ =~= start@);
                }
                r
            },
            None => Err(Error::Discontinuous),
        }
    }

    /// Drops the blocks up to `number`.
    pub(crate) fn retain_above(&mut self, number: u64)
        requires
            old(self).wf(),
        ensures
            final(self).wf(),
            final(self)@ == above(old(self)@, number),
    {
        let ghost start = *self;
        let mut i: usize = 0;
        while i < self.blocks.len()
            invariant
                start.wf(),
                self.wf(),
                i <= self.blocks@.len(),
                forall|j: int| 0 <= j < i ==> (#[trigger] self.blocks@[j]).header.number > number,
                forall|h: B256| #[trigger]
                    self@.contains_key(h) ==> start@.contains_key(h) && start@[h] == self@[h],
                forall|h: B256| #[trigger]
                    start@.contains_key(h) && start@[h].header.number > number
                        ==> self@.contains_key(h),
            decreases self.blocks@.len() - i,
        {
            if self.blocks[i].header.number > number {
                i = i + 1;
            } else {
                let ghost prior = *self;
                self.blocks.remove(i);
                proof {
                    prior.lemma_entry(i as int);
                    prior.lemma_removed(*self, i as int);
                }
            }
        }
        proof {
            assert forall|h: B256| #[trigger] self@.contains_key(h) implies self@[h].header.number
                > number by {
                let k = self.lemma_holder(h);
            }
            assert(self@ =~= above(start@, number));
        }
    }

    proof fn lemma_removed(self, next: Pending, i: int)
        requires
            self.wf(),
            0 <= i < self.blocks@.len(),
            next.blocks@ == self.blocks@.remove(i),
        ensures
            next.wf(),
            next@ == self@.remove(self.blocks@[i].header.hash),
    {
        let hash = self.blocks@[i].header.hash;
        assert forall|a: int| 0 <= a < next.blocks@.len() implies (#[trigger] next.blocks@[a])
            == self.blocks@[if a < i { a } else { a + 1 }] by {}
        assert(next.wf());
        let map = self@.remove(hash);
        assert forall|h: B256| #[trigger] next@.contains_key(h) implies map.contains_key(h)
            && next@[h] == map[h] by {
            let k = next.lemma_holder(h);
            let m = if k < i { k } else { k + 1 };
            self.lemma_entry(m);
            assert(self.blocks@[m].header.hash != self.blocks@[i].header.hash);
        }
        assert forall|h: B256| #[trigger] map.contains_key(h) implies next@.contains_key(h) by {
            let k = self.lemma_holder(h);
            let m = if k < i { k } else { k - 1 };
            assert(next.blocks@[m] == self.blocks@[k]);
            next.lemma_entry(m);
        }
        assert(next@ =~= map);
    }
}

} // verus!

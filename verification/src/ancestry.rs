//! The line of pending blocks that a finalized header settles.
use crate::pending::{filed, Frame, Pending};
use crate::types::{BlockHeader, HeaderView, B256};
use vstd::prelude::*;

verus! {

/// Whether `chain` leads, oldest block first, from the published block (its
/// number and hash) to `header`: closed frames of consecutive numbers, each the
/// parent of the next, the first one a child of the published block and the
/// last one the header itself.
pub open spec fn ancestry(
    pending: Map<B256, Frame>,
    number: u64,
    hash: Option<B256>,
    header: HeaderView,
    chain: Seq<Frame>,
) -> bool {
    &&& number < header.number
    &&& chain.len() == header.number - number
    &&& forall|i: int|
        0 <= i < chain.len() ==> {
            &&& pending.contains_key((#[trigger] chain[i]).header.hash)
            &&& pending[chain[i].header.hash] == chain[i]
            &&& chain[i].complete
            &&& chain[i].header.number == number + 1 + i
        }
    &&& forall|i: int, j: int|
        0 <= i && j == i + 1 && j < chain.len() ==> (#[trigger] chain[j]).header.parent_hash == (
        #[trigger] chain[i]).header.hash
    &&& Some(chain[0].header.parent_hash) == hash
    &&& chain.last().header == header
}

/// Whether some line of closed frames leads from the published block to `header`.
pub open spec fn settled(
    pending: Map<B256, Frame>,
    number: u64,
    hash: Option<B256>,
    header: HeaderView,
) -> bool {
    exists|chain: Seq<Frame>| ancestry(pending, number, hash, header, chain)
}

/// That line.
pub open spec fn line(
    pending: Map<B256, Frame>,
    number: u64,
    hash: Option<B256>,
    header: HeaderView,
) -> Seq<Frame> {
    choose|chain: Seq<Frame>| ancestry(pending, number, hash, header, chain)
}

/// A header has at most one line of ancestors: its parent hashes fix it.
pub proof fn law_ancestry_is_unique(
    pending: Map<B256, Frame>,
    number: u64,
    hash: Option<B256>,
    header: HeaderView,
    left: Seq<Frame>,
    right: Seq<Frame>,
)
    requires
        ancestry(pending, number, hash, header, left),
        ancestry(pending, number, hash, header, right),
    ensures
        left == right,
{
    assert forall|k: int| 0 <= k < left.len() implies #[trigger] left[left.len() - 1 - k]
        == right[left.len() - 1 - k] by {
        lemma_agree_from_the_top(pending, number, hash, header, left, right, k as nat);
    }
    assert forall|i: int| 0 <= i < left.len() implies left[i] == right[i] by {
        let k = left.len() - 1 - i;
        assert(left[left.len() - 1 - k] == right[left.len() - 1 - k]);
    }
    assert(left =~= right);
}

proof fn lemma_agree_from_the_top(
    pending: Map<B256, Frame>,
    number: u64,
    hash: Option<B256>,
    header: HeaderView,
    left: Seq<Frame>,
    right: Seq<Frame>,
    k: nat,
)
    requires
        ancestry(pending, number, hash, header, left),
        ancestry(pending, number, hash, header, right),
        k < left.len(),
    ensures
        left[left.len() - 1 - k] == right[left.len() - 1 - k],
    decreases k,
{
    let i = left.len() - 1 - k;
    if k == 0 {
        assert(left[i].header.hash == header.hash);
        assert(right[i].header.hash == header.hash);
    } else {
        lemma_agree_from_the_top(pending, number, hash, header, left, right, (k - 1) as nat);
        assert(left[i + 1] == right[i + 1]);
        assert(left[i + 1].header.parent_hash == left[i].header.hash);
        assert(right[i + 1].header.parent_hash == right[i].header.hash);
    }
}

/// Whether `path` names the blocks of `chain`, newest first.
pub open spec fn names(path: Seq<B256>, chain: Seq<Frame>) -> bool {
    &&& path.len() == chain.len()
    &&& forall|k: int|
        0 <= k < path.len() ==> #[trigger] path[k] == chain[chain.len() - 1 - k].header.hash
}

/// Walks from a finalized header down to the published block. Returns the hashes
/// of the line, newest first, or `None` where no line of closed frames connects
/// the two.
pub(crate) fn trace(
    pending: &Pending,
    published: u64,
    published_hash: Option<B256>,
    header: &BlockHeader,
) -> (r: Option<Vec<B256>>)
    requires
        pending.wf(),
        published < header.number,
    ensures
        match r {
            Some(path) => settled(pending@, published, published_hash, header@) && names(
                path@,
                line(pending@, published, published_hash, header@),
            ),
            None => !settled(pending@, published, published_hash, header@),
        },
{
    proof {
        pending.lemma_filed();
    }
    let mut path: Vec<B256> = Vec::new();
    let mut hash: B256 = header.hash;
    let mut number: u64 = header.number;
    while number > published
        invariant
            pending.wf(),
            filed(pending@),
            published <= number <= header.number,
            path@.len() == header.number - number,
            path@.len() == 0 ==> hash == header.hash,
            path@.len() > 0 ==> hash == pending@[path@.last()].header.parent_hash,
            forall|k: int|
                0 <= k < path@.len() ==> {
                    &&& pending@.contains_key(#[trigger] path@[k])
                    &&& pending@[path@[k]].complete
                    &&& pending@[path@[k]].header.number == header.number - k
                    &&& k == 0 ==> pending@[path@[k]].header == header@
                },
            forall|j: int, k: int|
                0 <= j && k == j + 1 && k < path@.len()
                    ==> pending@[#[trigger] path@[j]].header.parent_hash == #[trigger] path@[k],
            forall|chain: Seq<Frame>| #[trigger]
                ancestry(pending@, published, published_hash, header@, chain) ==> agrees(
                    path@,
                    hash,
                    chain,
                ),
        decreases number,
    {
        let ghost i = number - published - 1;
        let block = match pending.get(hash) {
            Some(block) => block,
            None => {
                assert forall|chain: Seq<Frame>| !ancestry(
                    pending@,
                    published,
                    published_hash,
                    header@,
                    chain,
                ) by {
                    if ancestry(pending@, published, published_hash, header@, chain) {
                        assert(agrees(path@, hash, chain));
                        assert(chain[i].header.hash == hash);
                    }
                }
                return None;
            },
        };
        let newest: bool = number == header.number;
        if !block.complete || block.header.number != number || (newest && !block.header.same(
            header,
        )) {
            assert forall|chain: Seq<Frame>| !ancestry(
                pending@,
                published,
                published_hash,
                header@,
                chain,
            ) by {
                if ancestry(pending@, published, published_hash, header@, chain) {
                    assert(agrees(path@, hash, chain));
                    assert(chain[i].header.hash == hash);
                    assert(chain[i] == block.frame());
                }
            }
            return None;
        }
        let ghost earlier = path@;
        path.push(hash);
        let ghost child = hash;
        hash = block.header.parent_hash;
        number = number - 1;
        proof {
            assert forall|k: int| 0 <= k < path@.len() implies {
                &&& pending@.contains_key(#[trigger] path@[k])
                &&& pending@[path@[k]].complete
                &&& pending@[path@[k]].header.number == header.number - k
                &&& k == 0 ==> pending@[path@[k]].header == header@
            } by {
                if k < earlier.len() {
                    assert(path@[k] == earlier[k]);
                }
            }
            assert forall|j: int, k: int|
                0 <= j && k == j + 1 && k < path@.len() implies pending@[#[trigger] path@[j]].header.parent_hash
                == #[trigger] path@[k] by {
                assert(path@[j] == earlier[j]);
                if k < earlier.len() {
                    assert(path@[k] == earlier[k]);
                }
            }
            assert forall|chain: Seq<Frame>| #[trigger]
                ancestry(pending@, published, published_hash, header@, chain) implies agrees(
                path@,
                hash,
                chain,
            ) by {
                assert(agrees(earlier, child, chain));
                assert(chain[i].header.hash == child);
                assert(chain[i] == block.frame());
                assert forall|k: int| 0 <= k < path@.len() implies #[trigger] path@[k]
                    == chain[chain.len() - 1 - k].header.hash by {
                    if k < earlier.len() {
                        assert(path@[k] == earlier[k]);
                    }
                }
            }
        }
    }
    let linked: bool = Some(hash) == published_hash;
    proof {
        let n = path@.len();
        let built = Seq::new(n, |i: int| pending@[path@[n - 1 - i]]);
        if linked {
            assert forall|i: int| 0 <= i < built.len() implies {
                &&& pending@.contains_key((#[trigger] built[i]).header.hash)
                &&& pending@[built[i].header.hash] == built[i]
                &&& built[i].complete
                &&& built[i].header.number == published + 1 + i
            } by {
                assert(pending@.contains_key(path@[n - 1 - i]));
            }
            assert forall|i: int, j: int| 0 <= i && j == i + 1 && j < built.len() implies (
            #[trigger] built[j]).header.parent_hash == (#[trigger] built[i]).header.hash by {
                let k = n - 1 - i;
                assert(pending@.contains_key(path@[k]));
                assert(path@[k - 1] == path@[n - 1 - j]);
            }
            assert(path@[0] == path@[n - 1 - (n - 1)]);
            assert(ancestry(pending@, published, published_hash, header@, built));
            let chain = line(pending@, published, published_hash, header@);
            assert(ancestry(pending@, published, published_hash, header@, chain));
            assert(agrees(path@, hash, chain));
        } else {
            assert forall|chain: Seq<Frame>| !ancestry(
                pending@,
                published,
                published_hash,
                header@,
                chain,
            ) by {
                if ancestry(pending@, published, published_hash, header@, chain) {
                    assert(agrees(path@, hash, chain));
                    assert(pending@.contains_key(path@[n - 1]));
                    assert(path@[n - 1] == chain[0].header.hash);
                }
            }
        }
    }
    if linked {
        Some(path)
    } else {
        None
    }
}

/// Whether `path` names the newest blocks of `chain` and `next` the one below.
spec fn agrees(path: Seq<B256>, next: B256, chain: Seq<Frame>) -> bool {
    &&& path.len() <= chain.len()
    &&& forall|k: int|
        0 <= k < path.len() ==> #[trigger] path[k] == chain[chain.len() - 1 - k].header.hash
    &&& path.len() < chain.len() ==> next == chain[chain.len() - 1 - path.len()].header.hash
}

} // verus!

//! Single steps of the reducer. The pool is the list of the logs it was handed.
use event_driven_sdk::{
    Address, Block, BlockHeader, CommitState, Config, Error, EventSynchronizer, PoolModel, RpcLog,
    Update, B256,
};

type Image = Vec<(u64, Vec<(u64, u64)>)>;

fn hash(number: u64) -> B256 {
    B256 { high: 1, low: number as u128 }
}

fn header(number: u64) -> BlockHeader {
    BlockHeader { number, hash: hash(number), parent_hash: hash(number - 1), context: vec![1] }
}

fn log(h: &BlockHeader, transaction_index: u64, log_index: u64) -> RpcLog {
    RpcLog {
        address: Address { high: 1, low: 2 },
        topics: vec![hash(7)],
        data: vec![1, 2],
        block_hash: h.hash,
        block_number: h.number,
        transaction_index,
        log_index,
        removed: false,
    }
}

fn seed() -> PoolModel<Image> {
    PoolModel {
        block: Block { number: 10, hash: Some(hash(10)), context: vec![] },
        tokens: vec![],
        image: vec![],
    }
}

fn fine(_: &Image) -> Result<(), Error> {
    Ok(())
}

fn state(image: &Image) -> (u64, Image) {
    (10, image.clone())
}

fn apply(
    (_, mut image): (u64, Image),
    header: &BlockHeader,
    logs: &Vec<RpcLog>,
) -> Result<(u64, Image), Error> {
    let positions = logs.iter().map(|l| (l.transaction_index, l.log_index)).collect();
    image.push((header.number, positions));
    Ok((header.number, image))
}

fn build((number, image): (u64, Image)) -> Result<PoolModel<Image>, Error> {
    Ok(PoolModel {
        block: Block { number, hash: Some(hash(number)), context: vec![] },
        tokens: vec![],
        image,
    })
}

fn start() -> EventSynchronizer<Image> {
    EventSynchronizer::from_model(seed(), fine).unwrap_or_else(|e| panic!("{e:?}"))
}

fn head(
    sync: &mut EventSynchronizer<Image>,
    h: BlockHeader,
    stage: CommitState,
) -> Result<Option<Update>, Error> {
    sync.on_head(h, stage, state, apply, build)
}

#[test]
fn seeds_need_a_hash_and_a_valid_image() {
    let mut unknown = seed();
    unknown.block.hash = None;
    assert_eq!(
        EventSynchronizer::from_model(unknown, fine).err(),
        Some(Error::InvalidData(
            "event seed requires a known finalized block hash".to_string()
        ))
    );
    let refuse = |_: &Image| Err(Error::Model("bad image".to_string()));
    assert_eq!(
        EventSynchronizer::from_model(seed(), refuse).err(),
        Some(Error::Model("bad image".to_string()))
    );
    assert_eq!(start().model(), &seed());
}

#[test]
fn logs_are_replayed_once_in_the_order_of_their_positions() {
    let mut sync = start();
    let h = header(11);
    assert_eq!(head(&mut sync, h.clone(), CommitState::Proposed), Ok(None));
    for (t, l) in [(2, 0), (0, 9), (1, 3), (0, 9), (0, 1), (2, 0), (1, 2)] {
        assert_eq!(sync.on_log(log(&h, t, l)), Ok(()));
    }
    let update = head(&mut sync, h.clone(), CommitState::Finalized);
    assert_eq!(update, Ok(Some(Update { block: h, blocks: 1 })));
    let order = vec![(0, 1), (0, 9), (1, 2), (1, 3), (2, 0)];
    assert_eq!(sync.model().image, vec![(11, order)]);
}

#[test]
fn logs_in_either_order_give_the_same_model() {
    let mut images = Vec::new();
    for order in [[(0, 0), (3, 1)], [(3, 1), (0, 0)]] {
        let mut sync = start();
        let h = header(11);
        head(&mut sync, h.clone(), CommitState::Proposed).unwrap();
        for (t, l) in order {
            sync.on_log(log(&h, t, l)).unwrap();
        }
        head(&mut sync, h, CommitState::Finalized).unwrap();
        images.push(sync.model().image.clone());
    }
    assert_eq!(images[0], images[1]);
    assert_eq!(images[0], vec![(11, vec![(0, 0), (3, 1)])]);
}

#[test]
fn a_log_must_belong_to_the_open_frame() {
    let h = header(11);
    let mut without_frame = start();
    assert_eq!(without_frame.on_log(log(&h, 0, 0)), Err(Error::Discontinuous));

    let mut other_number = start();
    head(&mut other_number, h.clone(), CommitState::Proposed).unwrap();
    let mut wrong = log(&h, 0, 0);
    wrong.block_number = 12;
    assert_eq!(other_number.on_log(wrong), Err(Error::Discontinuous));

    let mut taken_back = start();
    head(&mut taken_back, h.clone(), CommitState::Proposed).unwrap();
    let mut removed = log(&h, 0, 0);
    removed.removed = true;
    assert_eq!(taken_back.on_log(removed), Err(Error::Discontinuous));

    let mut late = start();
    head(&mut late, h.clone(), CommitState::Proposed).unwrap();
    head(&mut late, h.clone(), CommitState::Voted).unwrap();
    assert_eq!(late.on_log(log(&h, 0, 0)), Err(Error::Discontinuous));
}

#[test]
fn logs_of_published_blocks_are_ignored() {
    let mut sync = start();
    assert_eq!(sync.on_log(log(&header(10), 0, 0)), Ok(()));
    assert_eq!(sync.on_log(log(&header(3), 0, 0)), Ok(()));
    // Even so, one that was taken back is refused.
    let mut removed = log(&header(3), 0, 0);
    removed.removed = true;
    assert_eq!(sync.on_log(removed), Err(Error::Discontinuous));
}

#[test]
fn conflicting_logs_at_one_position_are_refused() {
    let changes: [fn(&mut RpcLog); 3] =
        [|l| l.data = vec![9], |l| l.topics = vec![], |l| l.address.low = 5];
    for change in changes {
        let mut sync = start();
        let h = header(11);
        head(&mut sync, h.clone(), CommitState::Proposed).unwrap();
        sync.on_log(log(&h, 0, 0)).unwrap();
        let mut other = log(&h, 0, 0);
        change(&mut other);
        assert_eq!(
            sync.on_log(other),
            Err(Error::InvalidData("conflicting subscription logs".to_string()))
        );
        // The failed stream is not continued.
        assert_eq!(sync.on_log(log(&h, 0, 0)), Err(Error::Discontinuous));
        assert_eq!(head(&mut sync, h, CommitState::Finalized), Err(Error::Discontinuous));
        assert_eq!(sync.model(), &seed());
    }
}

#[test]
fn conflicting_proposals_are_refused() {
    let changes: [fn(&mut BlockHeader); 3] =
        [|h| h.context = vec![2], |h| h.parent_hash = hash(3), |h| h.number = 12];
    for change in changes {
        let mut sync = start();
        head(&mut sync, header(11), CommitState::Proposed).unwrap();
        let mut other = header(11);
        change(&mut other);
        assert_eq!(
            head(&mut sync, other, CommitState::Proposed),
            Err(Error::InvalidData("conflicting proposal header".to_string()))
        );
    }
}

#[test]
fn a_finalized_header_must_be_the_one_proposed() {
    let mut sync = start();
    head(&mut sync, header(11), CommitState::Proposed).unwrap();
    let mut other = header(11);
    other.context = vec![2];
    assert_eq!(head(&mut sync, other, CommitState::Finalized), Err(Error::Discontinuous));
}

#[test]
fn headers_at_or_below_the_published_block() {
    let mut sync = start();
    for stage in [
        CommitState::Proposed,
        CommitState::Voted,
        CommitState::Finalized,
        CommitState::Verified,
    ] {
        assert_eq!(head(&mut sync, header(10), stage), Ok(None));
        assert_eq!(head(&mut sync, header(9), stage), Ok(None));
    }
    let mut fork = header(10);
    fork.hash = hash(77);
    assert_eq!(head(&mut sync, fork.clone(), CommitState::Proposed), Ok(None));
    assert_eq!(head(&mut sync, fork, CommitState::Finalized), Err(Error::Discontinuous));
}

#[test]
fn broken_ancestry_is_refused() {
    // A gap in the numbers.
    let mut gap = start();
    head(&mut gap, header(12), CommitState::Proposed).unwrap();
    assert_eq!(head(&mut gap, header(12), CommitState::Finalized), Err(Error::Discontinuous));

    // A parent of another number.
    let mut skewed = start();
    let mut child = header(13);
    child.parent_hash = hash(11);
    head(&mut skewed, header(11), CommitState::Proposed).unwrap();
    head(&mut skewed, child.clone(), CommitState::Proposed).unwrap();
    assert_eq!(head(&mut skewed, child, CommitState::Finalized), Err(Error::Discontinuous));

    // A line that does not start at the published block.
    let mut elsewhere = start();
    let mut orphan = header(11);
    orphan.parent_hash = hash(99);
    head(&mut elsewhere, orphan.clone(), CommitState::Proposed).unwrap();
    assert_eq!(
        head(&mut elsewhere, orphan, CommitState::Finalized),
        Err(Error::Discontinuous)
    );
    assert_eq!(elsewhere.model(), &seed());
}

#[test]
fn finalization_keeps_what_lies_above() {
    let mut sync = start();
    for number in 11..=14 {
        let h = header(number);
        head(&mut sync, h.clone(), CommitState::Proposed).unwrap();
        sync.on_log(log(&h, number, 0)).unwrap();
    }
    let first = head(&mut sync, header(12), CommitState::Finalized).unwrap().unwrap();
    assert_eq!(first.blocks, 2);
    assert_eq!(sync.model().image, vec![(11, vec![(11, 0)]), (12, vec![(12, 0)])]);
    let second = head(&mut sync, header(14), CommitState::Finalized).unwrap().unwrap();
    assert_eq!(second.blocks, 2);
    assert_eq!(sync.model().block.number, 14);
    assert_eq!(sync.model().image.len(), 4);
}

#[test]
fn interleaved_frames_are_replayed_with_exactly_their_own_logs() {
    let mut sync = start();
    let (first, second) = (header(11), header(12));
    let mut sibling = header(11);
    sibling.hash = hash(1111);
    // Frames of one line and of an abandoned sibling, cut into pieces.
    for (h, positions) in [
        (&first, vec![(4, 4)]),
        (&sibling, vec![(0, 0), (4, 4)]),
        (&second, vec![(1, 1)]),
        (&first, vec![(0, 2), (4, 4)]),
        (&second, vec![(1, 0), (1, 1)]),
    ] {
        assert_eq!(head(&mut sync, h.clone(), CommitState::Proposed), Ok(None));
        for (t, l) in positions {
            assert_eq!(sync.on_log(log(h, t, l)), Ok(()));
        }
    }
    assert_eq!(head(&mut sync, first, CommitState::Verified), Ok(None));
    let update = head(&mut sync, second.clone(), CommitState::Finalized);
    assert_eq!(update, Ok(Some(Update { block: second, blocks: 2 })));
    assert_eq!(
        sync.model().image,
        vec![(11, vec![(0, 2), (4, 4)]), (12, vec![(1, 0), (1, 1)])]
    );
    assert_eq!(sync.model().block.number, 12);
    assert_eq!(sync.model().block.hash, Some(hash(12)));
}

#[test]
fn a_model_that_cannot_be_built_is_not_published() {
    let mut sync = start();
    head(&mut sync, header(11), CommitState::Proposed).unwrap();
    let refuse = |_: (u64, Image)| -> Result<PoolModel<Image>, Error> {
        Err(Error::Model("invalid".to_string()))
    };
    assert_eq!(
        sync.on_head(header(11), CommitState::Finalized, state, apply, refuse),
        Err(Error::Model("invalid".to_string()))
    );
    assert_eq!(sync.model(), &seed());
    assert!(sync.has_failed());
    assert_eq!(head(&mut sync, header(11), CommitState::Finalized), Err(Error::Discontinuous));
}

#[test]
fn the_first_error_of_a_replay_is_reported() {
    let mut sync = start();
    for number in 11..=13 {
        head(&mut sync, header(number), CommitState::Proposed).unwrap();
    }
    let stop = |s: (u64, Image), h: &BlockHeader, logs: &Vec<RpcLog>| {
        if h.number == 12 {
            Err(Error::Arithmetic)
        } else {
            assert!(h.number < 12);
            apply(s, h, logs)
        }
    };
    assert_eq!(
        sync.on_head(header(13), CommitState::Finalized, state, stop, build),
        Err(Error::Arithmetic)
    );
    assert_eq!(sync.model(), &seed());
}

#[test]
fn an_abandoned_stream_is_not_continued() {
    let mut sync = start();
    assert!(!sync.has_failed());
    sync.abandon();
    assert_eq!(head(&mut sync, header(11), CommitState::Proposed), Err(Error::Discontinuous));
}

#[test]
fn the_default_configuration_names_mainnet_wmon() {
    let expected = "3bd359c1119da7da1d913d1c4d2b7c461115433a";
    let wmon = Config::default().wmon;
    assert_eq!(format!("{:08x}{:032x}", wmon.high, wmon.low), expected);
}

#[test]
fn headers_and_logs_compare_by_every_field() {
    let h = header(11);
    assert!(h.same(&h.clone()));
    assert!(!h.same(&header(12)));
    let l = log(&h, 1, 2);
    assert!(l.same(&l.clone()));
    assert!(!l.same(&log(&h, 1, 3)));
    let b = seed().block;
    assert!(b.same(&b.clone()));
    let mut other = seed().block;
    other.context = vec![1];
    assert!(!b.same(&other));
}

#[test]
fn finalizing_in_steps_ends_in_the_same_model() {
    let mut models = Vec::new();
    for steps in [vec![(12, 2), (14, 2)], vec![(14, 4)]] {
        let mut sync = start();
        for number in 11..=14 {
            let h = header(number);
            head(&mut sync, h.clone(), CommitState::Proposed).unwrap();
            sync.on_log(log(&h, number, 0)).unwrap();
        }
        for (number, blocks) in steps {
            assert_eq!(
                head(&mut sync, header(number), CommitState::Finalized),
                Ok(Some(Update { block: header(number), blocks }))
            );
        }
        models.push(sync.model().clone());
    }
    assert_eq!(models[0], models[1]);
    assert_eq!(models[0].image.len(), 4);
}

#[test]
fn runs_with_the_same_logs_answer_alike() {
    let run = |first: Vec<(u64, u64)>, second: Vec<(u64, u64)>| {
        let mut sync = start();
        let mut answers = Vec::new();
        for (number, positions) in [(11, first), (12, second)] {
            let h = header(number);
            answers.push(head(&mut sync, h.clone(), CommitState::Proposed));
            for (t, l) in positions {
                assert_eq!(sync.on_log(log(&h, t, l)), Ok(()));
            }
            answers.push(head(&mut sync, h.clone(), CommitState::Voted));
            answers.push(head(&mut sync, h, CommitState::Finalized));
        }
        (answers, sync.model().clone())
    };
    let a = run(vec![(0, 1), (2, 0)], vec![(5, 5), (1, 0), (1, 1)]);
    let b = run(vec![(2, 0), (0, 1), (2, 0)], vec![(1, 1), (1, 0), (5, 5), (1, 1)]);
    assert_eq!(a, b);
    assert_eq!(a.1.image, vec![(11, vec![(0, 1), (2, 0)]), (12, vec![(1, 0), (1, 1), (5, 5)])]);
}

#[test]
fn abandoned_blocks_leave_no_trace_in_a_run() {
    let run = |with_orphans: bool| {
        let mut sync = start();
        let mut updates = Vec::new();
        for number in 11..=13 {
            let h = header(number);
            head(&mut sync, h.clone(), CommitState::Proposed).unwrap();
            sync.on_log(log(&h, 0, number)).unwrap();
            if with_orphans {
                let mut orphan = h.clone();
                orphan.hash = hash(1000 + number);
                head(&mut sync, orphan.clone(), CommitState::Proposed).unwrap();
                sync.on_log(log(&orphan, 7, 7)).unwrap();
            }
            updates.push(head(&mut sync, h, CommitState::Finalized).unwrap().unwrap());
        }
        (updates, sync.model().clone())
    };
    assert_eq!(run(true), run(false));
    assert_eq!(run(true).0.len(), 3);
}

#[test]
fn the_model_stands_at_the_last_update_even_after_an_error() {
    let mut sync = start();
    assert_eq!(sync.model().block.number, 10);
    head(&mut sync, header(11), CommitState::Proposed).unwrap();
    assert_eq!(sync.model().block.hash, Some(hash(10)));
    let update = head(&mut sync, header(11), CommitState::Finalized).unwrap().unwrap();
    assert_eq!(sync.model().block.number, update.block.number);
    // What was settled is gone, so finalizing beyond it needs a new proposal.
    assert_eq!(head(&mut sync, header(12), CommitState::Finalized), Err(Error::Discontinuous));
    assert_eq!(sync.model().block.hash, Some(update.block.hash));
}

#[test]
fn a_log_is_taken_by_what_came_before_it() {
    let other = |h: &BlockHeader| {
        let mut l = log(h, 0, 0);
        l.data = vec![9];
        l
    };
    // A repeated frame still knows what was taken in the first one.
    let mut repeated = start();
    for h in [header(11), header(12), header(11)] {
        head(&mut repeated, h.clone(), CommitState::Proposed).unwrap();
        assert_eq!(repeated.on_log(log(&h, 0, 0)), Ok(()));
    }
    assert_eq!(
        repeated.on_log(other(&header(11))),
        Err(Error::InvalidData("conflicting subscription logs".to_string()))
    );
    // Another header in between, of whatever stage, closes the frame.
    for stage in [CommitState::Voted, CommitState::Verified] {
        let mut closed = start();
        head(&mut closed, header(11), CommitState::Proposed).unwrap();
        head(&mut closed, header(10), stage).unwrap();
        assert_eq!(closed.on_log(log(&header(11), 0, 0)), Err(Error::Discontinuous));
    }
    // A log of a settled block says nothing about a block above it.
    let mut settled = start();
    let mut old = other(&header(11));
    old.block_number = 9;
    assert_eq!(settled.on_log(old), Ok(()));
    head(&mut settled, header(11), CommitState::Proposed).unwrap();
    assert_eq!(settled.on_log(log(&header(11), 0, 0)), Ok(()));
}

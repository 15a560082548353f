//! The reducer and the client over a small pool: token balances that transfers
//! move and that a listing sets.
use event_driven_sdk::wire::read_json;
use event_driven_sdk::{
    Action, Address, Block, BlockHeader, CommitState as C, Config, Error, Event, EventDrivenSdk,
    EventSynchronizer, Handshake, PoolModel, RpcLog, SeedAction, SeedSearch, SocketAction,
    SocketEvent, Subscriptions, Update, B256,
};
use serde_json::Value;
use std::collections::VecDeque;

const TRANSFER: u128 = 1;
const LISTING: u128 = 2;
const UPGRADED: u128 = 3;

#[derive(Clone, Debug, PartialEq)]
struct State {
    number: u64,
    hash: Option<B256>,
    context: Vec<u8>,
    tokens: Vec<Address>,
    balances: Vec<u64>,
}

#[derive(Clone, Debug, PartialEq)]
struct Image {
    state: State,
}

fn hash(number: u64, fork: u128) -> B256 {
    B256 { high: fork, low: number as u128 }
}

fn token(index: usize) -> Address {
    Address { high: 7, low: index as u128 }
}

fn header(number: u64) -> BlockHeader {
    BlockHeader {
        number,
        hash: hash(number, 0),
        parent_hash: hash(number - 1, 0),
        context: vec![9, number as u8],
    }
}

fn seed_state() -> State {
    State {
        number: 100,
        hash: Some(hash(100, 0)),
        context: vec![9, 100],
        tokens: (0..16).map(token).collect(),
        balances: vec![1000; 16],
    }
}

fn model_of(state: State) -> PoolModel<Image> {
    PoolModel {
        block: Block { number: state.number, hash: state.hash, context: state.context.clone() },
        tokens: state.tokens.clone(),
        image: Image { state },
    }
}

fn valid(image: &Image) -> Result<(), Error> {
    if image.state.tokens.len() == image.state.balances.len() {
        Ok(())
    } else {
        Err(Error::Model("lengths differ".to_string()))
    }
}

fn state(image: &Image) -> State {
    image.state.clone()
}

fn apply(mut state: State, header: &BlockHeader, logs: &Vec<RpcLog>) -> Result<State, Error> {
    for log in logs {
        match log.topics[0].low {
            TRANSFER => {
                if log.data.len() != 9 {
                    return Err(Error::Abi("transfer".to_string()));
                }
                let index = state
                    .tokens
                    .iter()
                    .position(|t| *t == log.address)
                    .ok_or(Error::Abi("token".to_string()))?;
                let amount = u64::from_be_bytes(log.data[1..9].try_into().unwrap());
                let balance = state.balances[index];
                state.balances[index] = if log.data[0] == 0 {
                    balance.checked_add(amount)
                } else {
                    balance.checked_sub(amount)
                }
                .ok_or(Error::Arithmetic)?;
            }
            LISTING => {
                state.tokens.push(log.address);
                state.balances.push(u64::from_be_bytes(log.data[1..9].try_into().unwrap()));
            }
            _ => return Err(Error::ContractUpgraded),
        }
    }
    state.number = header.number;
    state.hash = Some(header.hash);
    state.context = header.context.clone();
    Ok(state)
}

fn build(state: State) -> Result<PoolModel<Image>, Error> {
    Ok(model_of(state))
}

fn log(kind: u128, address: Address, tag: u8, amount: u64, h: &BlockHeader, index: u64) -> RpcLog {
    let mut data = vec![tag];
    data.extend_from_slice(&amount.to_be_bytes());
    RpcLog {
        address,
        topics: vec![B256 { high: 0, low: kind }],
        data,
        block_hash: h.hash,
        block_number: h.number,
        transaction_index: index / 2,
        log_index: index,
        removed: false,
    }
}

/// The logs of the block `stage` places above the seed.
fn logs(stage: u64) -> Vec<RpcLog> {
    let h = header(100 + stage);
    let mut all = vec![
        log(TRANSFER, token(stage as usize), 0, 10 * stage, &h, 0),
        log(TRANSFER, token(0), 1, stage, &h, 1),
        log(TRANSFER, token(1), 0, 2 * stage, &h, 2),
    ];
    if stage == 11 {
        // A listing sets the absolute balance; a later transfer in the same block
        // moves it.
        all.push(log(LISTING, token(16), 0, 500, &h, 3));
        all.push(log(TRANSFER, token(16), 1, 20, &h, 4));
    }
    all
}

/// The state after the given stage, computed without the library.
fn checkpoint(stage: u64) -> State {
    let mut s = seed_state();
    for k in 1..=stage {
        s.balances[k as usize] += 10 * k;
        s.balances[0] -= k;
        s.balances[1] += 2 * k;
        if k == 11 {
            s.tokens.push(token(16));
            s.balances.push(480);
        }
    }
    s.number = 100 + stage;
    s.hash = Some(hash(100 + stage, 0));
    s.context = vec![9, (100 + stage) as u8];
    s
}

fn start(stage: u64) -> EventSynchronizer<Image> {
    EventSynchronizer::from_model(model_of(checkpoint(stage)), valid).unwrap()
}

fn head(
    sdk: &mut EventSynchronizer<Image>,
    h: BlockHeader,
    stage: C,
) -> Result<Option<Update>, Error> {
    sdk.on_head(h, stage, state, apply, build)
}

fn current(sdk: &EventSynchronizer<Image>) -> &State {
    &sdk.model().image.state
}

#[test]
fn subscription_logs_reproduce_every_contract_checkpoint_including_prefunded_listing() {
    let mut sdk = start(0);
    for stage in 1..=11 {
        let expected = checkpoint(stage);
        let h = header(100 + stage);
        let previous = current(&sdk).clone();
        assert!(head(&mut sdk, h.clone(), C::Proposed).unwrap().is_none());
        // Separate filters are delivered in groups, not in global log order.
        for log in logs(stage).into_iter().rev() {
            sdk.on_log(log.clone()).unwrap();
            sdk.on_log(log).unwrap(); // Overlapping filters must deduplicate.
        }
        assert_eq!(current(&sdk), &previous);
        assert!(head(&mut sdk, h.clone(), C::Voted).unwrap().is_none());
        assert_eq!(current(&sdk), &previous);
        let update = head(&mut sdk, h.clone(), C::Finalized).unwrap().unwrap();
        assert_eq!(update.blocks, 1);
        assert_eq!(update.block, h);
        assert_eq!(current(&sdk), &expected);
        assert!(head(&mut sdk, h, C::Verified).unwrap().is_none());
    }
    assert_eq!(sdk.model().tokens.len(), 17);
    assert!(current(&sdk).balances[16] != 0);
}

#[test]
fn repeated_proposal_frames_do_not_apply_balance_deltas_twice() {
    let mut sdk = start(4);
    for _ in 0..2 {
        head(&mut sdk, header(105), C::Proposed).unwrap();
        for log in logs(5) {
            sdk.on_log(log).unwrap();
        }
    }
    head(&mut sdk, header(105), C::Finalized).unwrap().unwrap();
    assert_eq!(current(&sdk), &checkpoint(5));
}

#[test]
fn skipped_intermediate_commitments_and_multiple_pending_blocks_need_no_reads() {
    let mut sdk = start(0);
    for stage in 1..=3 {
        head(&mut sdk, header(100 + stage), C::Proposed).unwrap();
        for log in logs(stage) {
            sdk.on_log(log).unwrap();
        }
    }
    let update = head(&mut sdk, header(103), C::Finalized).unwrap().unwrap();
    assert_eq!(update.blocks, 3);
    assert_eq!(current(&sdk), &checkpoint(3));
}

#[test]
fn abandoned_proposals_never_change_the_finalized_model() {
    let mut sdk = start(0);
    let mut orphan = header(101);
    orphan.hash = hash(101, 1);
    head(&mut sdk, orphan.clone(), C::Proposed).unwrap();
    for mut log in logs(1) {
        log.block_hash = orphan.hash;
        sdk.on_log(log).unwrap();
    }
    let canonical = header(101);
    head(&mut sdk, canonical.clone(), C::Proposed).unwrap();
    // The winning block has no pool logs.
    head(&mut sdk, canonical, C::Finalized).unwrap().unwrap();
    let mut expected = seed_state();
    expected.number = 101;
    expected.hash = Some(hash(101, 0));
    expected.context = vec![9, 101];
    assert_eq!(current(&sdk), &expected);
    // The abandoned block is gone: a child of it cannot be finalized.
    let mut child = header(102);
    child.parent_hash = orphan.hash;
    head(&mut sdk, child.clone(), C::Proposed).unwrap();
    assert_eq!(head(&mut sdk, child, C::Finalized), Err(Error::Discontinuous));
}

#[test]
fn missing_proposal_is_reported_without_inventing_an_empty_block() {
    let mut sdk = start(0);
    let previous = current(&sdk).clone();
    let h = header(101);
    assert!(matches!(head(&mut sdk, h.clone(), C::Finalized), Err(Error::Discontinuous)));
    assert_eq!(current(&sdk), &previous);
    assert!(head(&mut sdk, h, C::Proposed).is_err());
}

#[test]
fn malformed_logs_and_balance_mismatches_are_atomic_errors_without_reseed() {
    for arithmetic in [false, true] {
        let mut sdk = start(0);
        let previous = current(&sdk).clone();
        let h = header(101);
        head(&mut sdk, h.clone(), C::Proposed).unwrap();
        let mut bad = log(TRANSFER, token(0), 1, u64::MAX, &h, 0);
        if !arithmetic {
            bad.data = vec![1];
        }
        sdk.on_log(bad).unwrap();
        let err = head(&mut sdk, h, C::Finalized).unwrap_err();
        assert!(if arithmetic {
            matches!(err, Error::Arithmetic)
        } else {
            matches!(err, Error::Abi(_))
        });
        assert_eq!(current(&sdk), &previous);
    }
}

#[test]
fn upgrade_is_explicit_and_requires_a_compatible_model() {
    let mut sdk = start(0);
    let h = header(101);
    head(&mut sdk, h.clone(), C::Proposed).unwrap();
    sdk.on_log(log(UPGRADED, token(0), 0, 0, &h, 0)).unwrap();
    assert!(matches!(head(&mut sdk, h, C::Finalized), Err(Error::ContractUpgraded)));
}

// The connection, as JSON.

fn object(members: Vec<(&str, Value)>) -> Value {
    let mut map = serde_json::Map::new();
    for (key, value) in members {
        map.insert(key.to_string(), value);
    }
    Value::Object(map)
}

fn pushed(id: &str, result: Value) -> Value {
    object(vec![
        ("jsonrpc", Value::from("2.0")),
        ("method", Value::from("eth_subscription")),
        ("params", object(vec![("subscription", Value::from(id)), ("result", result)])),
    ])
}

fn head_message(h: &BlockHeader, stage: &str) -> Value {
    pushed(
        "sub5",
        object(vec![("number", Value::from(h.number)), ("commitState", Value::from(stage))]),
    )
}

fn log_message(stage: u64, index: usize) -> Value {
    pushed(
        "sub1",
        object(vec![("stage", Value::from(stage)), ("index", Value::from(index as u64))]),
    )
}

fn decode_head(payload: &Value) -> Result<BlockHeader, String> {
    payload["number"].as_u64().map(header).ok_or("no number".to_string())
}

fn decode_log(payload: &Value) -> Result<RpcLog, String> {
    let stage = payload["stage"].as_u64().ok_or("no stage".to_string())?;
    let index = payload["index"].as_u64().ok_or("no index".to_string())?;
    Ok(logs(stage)[index as usize].clone())
}

fn filters() -> Vec<Value> {
    (0..4).map(|i| object(vec![("filter", Value::from(i as u64))])).collect()
}

fn confirmation(id: u64, result: &str) -> Value {
    object(vec![
        ("jsonrpc", Value::from("2.0")),
        ("id", Value::from(id)),
        ("result", Value::from(result)),
    ])
}

/// Runs the client until it returns, reading from `incoming`.
fn next_update(
    sdk: &mut EventDrivenSdk<Image>,
    incoming: &mut VecDeque<SocketEvent>,
    pongs: &mut Vec<Vec<u8>>,
) -> Result<Update, Error> {
    let mut event = Event::Begin;
    loop {
        event = match sdk.next_update(event, state, apply, build) {
            Action::Return(r) => return r,
            Action::DecodeLog(payload) => Event::Log(decode_log(&payload)),
            Action::DecodeHead(payload) => {
                let decoded = decode_head(&payload);
                Event::Head(payload, decoded)
            }
            Action::Read => loop {
                let next = incoming.pop_front().unwrap_or(SocketEvent::Closed);
                match read_json(next) {
                    Ok(SocketAction::Deliver(value)) => break Event::Message(Ok(value)),
                    Ok(SocketAction::Pong(data)) => pongs.push(data),
                    Ok(SocketAction::Wait) => {}
                    Err(error) => break Event::Message(Err(error)),
                }
            },
        };
    }
}

fn connected(queued_before: Vec<Value>) -> (Subscriptions, VecDeque<Value>) {
    let mut handshake = Handshake::new(filters());
    for message in queued_before {
        assert_eq!(handshake.on_message(message), Ok(false));
    }
    let mut i: u64 = 0;
    while let Some(text) = handshake.request() {
        i += 1;
        let request: Value = serde_json::from_str(&text).unwrap();
        assert_eq!(request["jsonrpc"], "2.0");
        assert_eq!(request["id"], i);
        assert_eq!(request["method"], "eth_subscribe");
        assert_eq!(request["params"][0], if i == 5 { "monadNewHeads" } else { "logs" });
        if i < 5 {
            assert_eq!(request["params"][1]["filter"], i - 1);
        } else {
            assert_eq!(request["params"].as_array().unwrap().len(), 1);
        }
        assert_eq!(handshake.on_message(confirmation(i, &format!("sub{i}"))), Ok(true));
    }
    assert_eq!(i, 5);
    handshake.finish()
}

#[test]
fn websocket_updates_issue_zero_rpc_reads_and_only_one_startup_snapshot() {
    let (subscriptions, queued) = connected(vec![]);
    let mut search = SeedSearch::new(subscriptions, queued);
    let mut startup: VecDeque<Value> =
        [head_message(&header(100), "Proposed"), head_message(&header(100), "Finalized")].into();
    let seed = loop {
        match search.advance().unwrap() {
            SeedAction::Read => search.queue(startup.pop_front().unwrap()),
            SeedAction::DecodeHead(payload) => {
                let decoded = decode_head(&payload);
                if let Some(found) = search.on_head(&payload, decoded).unwrap() {
                    break found;
                }
            }
        }
    };
    assert_eq!(seed, header(100));
    // The one snapshot.
    let model = model_of(seed_state());
    let seed_block =
        Block { number: seed.number, hash: Some(seed.hash), context: seed.context.clone() };
    let (subscriptions, queued) = search.finish();
    assert_eq!(queued.len(), 2);
    let config = Config { wmon: token(3) };
    let mut sdk =
        EventDrivenSdk::from_snapshot(model, &seed_block, &config, subscriptions, queued, valid)
            .ok()
            .unwrap();
    let mut incoming: VecDeque<SocketEvent> = VecDeque::new();
    incoming.push_back(SocketEvent::Ping(vec![1, 2, 3]));
    for stage in 1..=11 {
        let h = header(100 + stage);
        incoming.push_back(SocketEvent::Text(head_message(&h, "Proposed").to_string()));
        for index in (0..logs(stage).len()).rev() {
            incoming.push_back(SocketEvent::Text(log_message(stage, index).to_string()));
        }
        incoming.push_back(SocketEvent::Binary(head_message(&h, "Finalized").to_string().into()));
    }
    let mut pongs = Vec::new();
    for stage in 1..=11 {
        let update = next_update(&mut sdk, &mut incoming, &mut pongs).unwrap();
        assert_eq!(update.block, header(100 + stage));
        assert_eq!(&sdk.model().image.state, &checkpoint(stage));
    }
    assert_eq!(pongs, vec![vec![1, 2, 3]]);
    assert_eq!(
        next_update(&mut sdk, &mut incoming, &mut pongs),
        Err(Error::Transport(
            "subscription closed; explicitly initialize a new client from complete state"
                .to_string()
        ))
    );
    assert_eq!(next_update(&mut sdk, &mut incoming, &mut pongs), Err(Error::Discontinuous));
    assert_eq!(&sdk.model().image.state, &checkpoint(11));
}

//! Messages, the handshake, the search for the seed, and the running client.
use event_driven_sdk::wire::{deliver, notification, parse_head, read_json};
use event_driven_sdk::{
    Action, Address, Block, BlockHeader, CommitState, Config, Error, Event, EventDrivenSdk,
    Handshake, PoolModel, RpcLog, SeedAction, SeedSearch, SocketAction, SocketEvent, Subscription,
    Subscriptions, B256,
};
use serde_json::Value;
use std::collections::VecDeque;

fn parse(text: &str) -> Value {
    serde_json::from_str(text).unwrap()
}

fn rpc<T>(text: &str) -> Result<T, Error> {
    Err(Error::Rpc(text.to_string()))
}

fn subscriptions() -> Subscriptions {
    let mut s = Subscriptions::new();
    assert!(s.insert("l", Subscription::Logs));
    assert!(s.insert("h", Subscription::Heads));
    assert!(!s.insert("l", Subscription::Heads));
    assert_eq!(s.get("l"), Some(Subscription::Logs));
    assert_eq!(s.get("h"), Some(Subscription::Heads));
    assert_eq!(s.get("x"), None);
    s
}

fn header(number: u64) -> BlockHeader {
    BlockHeader {
        number,
        hash: B256 { high: 0, low: number as u128 },
        parent_hash: B256 { high: 0, low: number as u128 - 1 },
        context: vec![],
    }
}

fn pushed(id: &str, result: &str) -> Value {
    parse(&format!(
        r#"{{"method":"eth_subscription","params":{{"subscription":"{id}","result":{result}}}}}"#
    ))
}

#[test]
fn notifications_are_sorted_by_their_subscription() {
    let s = subscriptions();
    let log = pushed("l", r#"{"a":1}"#);
    assert_eq!(notification(&log, &s), Ok((Subscription::Logs, &parse(r#"{"a":1}"#))));
    let head = pushed("h", "7");
    assert_eq!(notification(&head, &s), Ok((Subscription::Heads, &parse("7"))));
    // A missing payload is null.
    let bare = parse(r#"{"method":"eth_subscription","params":{"subscription":"h"}}"#);
    assert_eq!(notification(&bare, &s), Ok((Subscription::Heads, &Value::Null)));
}

#[test]
fn other_messages_are_refused() {
    let s = subscriptions();
    let error = parse(r#"{"error":{"message":"x","code":-3},"method":"eth_subscription"}"#);
    assert_eq!(notification(&error, &s), rpc(r#"{"code":-3,"message":"x"}"#));
    let null_error = parse(r#"{"error":null}"#);
    assert_eq!(notification(&null_error, &s), rpc("null"));
    for text in ["{}", r#"{"method":"eth_other"}"#, r#"{"method":4}"#, "[]", "null"] {
        assert_eq!(notification(&parse(text), &s), rpc("unexpected WebSocket message"));
    }
    let no_id = parse(r#"{"method":"eth_subscription","params":{"subscription":5}}"#);
    assert_eq!(notification(&no_id, &s), rpc("missing subscription ID"));
    assert_eq!(notification(&pushed("x", "1"), &s), rpc("unknown subscription"));
}

#[test]
fn headers_name_their_commitment_stage() {
    for (text, stage) in [
        ("Proposed", CommitState::Proposed),
        ("Voted", CommitState::Voted),
        ("Finalized", CommitState::Finalized),
        ("Verified", CommitState::Verified),
    ] {
        let payload = parse(&format!(r#"{{"commitState":"{text}"}}"#));
        assert_eq!(parse_head(&payload, Ok(header(5))), Ok((header(5), stage)));
    }
    for text in [r#"{"commitState":"proposed"}"#, r#"{"commitState":1}"#, "{}", "[]"] {
        assert_eq!(
            parse_head(&parse(text), Ok(header(5))),
            rpc("expected Monad commitState")
        );
    }
    // A header that cannot be decoded is reported first.
    assert_eq!(parse_head(&Value::Null, Err("no header".to_string())), rpc("no header"));
}

fn delivered(r: Result<SocketAction, Error>) -> Value {
    match r {
        Ok(SocketAction::Deliver(value)) => value,
        _ => panic!("not delivered"),
    }
}

#[test]
fn socket_events_become_messages() {
    let text = SocketEvent::Text(r#" {"a": [1, true]} "#.to_string());
    assert_eq!(delivered(read_json(text)), parse(r#"{"a":[1,true]}"#));
    let bytes = SocketEvent::Binary(b"[2]".to_vec());
    assert_eq!(delivered(read_json(bytes)), parse("[2]"));
    assert!(matches!(
        read_json(SocketEvent::Ping(vec![4, 5])),
        Ok(SocketAction::Pong(data)) if data == vec![4, 5]
    ));
    assert!(matches!(read_json(SocketEvent::Pong), Ok(SocketAction::Wait)));
    assert!(matches!(read_json(SocketEvent::Other), Ok(SocketAction::Wait)));
    assert_eq!(
        read_json(SocketEvent::Closed).err(),
        Some(Error::Transport(
            "subscription closed; explicitly initialize a new client from complete state"
                .to_string()
        ))
    );
    assert_eq!(
        read_json(SocketEvent::Failed("reset".to_string())).err(),
        Some(Error::Transport("reset".to_string()))
    );
}

#[test]
fn malformed_messages_are_reported_with_the_parse_error() {
    let message = serde_json::from_str::<Value>("{").unwrap_err().to_string();
    assert_eq!(
        read_json(SocketEvent::Text("{".to_string())).err(),
        Some(Error::Rpc(message.clone()))
    );
    assert_eq!(
        read_json(SocketEvent::Binary(b"{".to_vec())).err(),
        Some(Error::Rpc(message.clone()))
    );
    assert_eq!(deliver(serde_json::from_str("{")).err(), Some(Error::Rpc(message)));
    assert_eq!(delivered(deliver(Ok(Value::Null))), Value::Null);
}

fn handshake() -> Handshake {
    Handshake::new(vec![parse("1"), parse("2"), parse("3"), parse("4")])
}

#[test]
fn requests_are_sent_in_order() {
    let mut h = handshake();
    assert_eq!(
        h.request().unwrap(),
        r#"{"id":1,"jsonrpc":"2.0","method":"eth_subscribe","params":["logs",1]}"#
    );
    for i in 1..=4 {
        let answer = parse(&format!(r#"{{"id":{i},"result":"s{i}"}}"#));
        assert_eq!(h.on_message(answer), Ok(true));
    }
    assert_eq!(
        h.request().unwrap(),
        r#"{"id":5,"jsonrpc":"2.0","method":"eth_subscribe","params":["monadNewHeads"]}"#
    );
    assert_eq!(h.on_message(parse(r#"{"id":5,"result":"s5"}"#)), Ok(true));
    assert_eq!(h.request(), None);
    let (s, queued) = h.finish();
    assert_eq!(queued.len(), 0);
    for i in 1..=4 {
        assert_eq!(s.get(&format!("s{i}")), Some(Subscription::Logs));
    }
    assert_eq!(s.get("s5"), Some(Subscription::Heads));
}

#[test]
fn notifications_during_the_handshake_are_kept_in_order() {
    let mut h = handshake();
    // Even one that would be refused later: the handshake looks at the method only.
    let odd = parse(r#"{"method":"eth_subscription","error":1}"#);
    assert_eq!(h.on_message(pushed("a", "1")), Ok(false));
    assert_eq!(h.on_message(odd.clone()), Ok(false));
    assert_eq!(h.on_message(parse(r#"{"id":1,"result":"s1"}"#)), Ok(true));
    assert_eq!(h.on_message(pushed("b", "2")), Ok(false));
    let (_, queued) = h.finish();
    assert_eq!(queued, VecDeque::from(vec![pushed("a", "1"), odd, pushed("b", "2")]));
}

#[test]
fn unexpected_answers_end_the_handshake() {
    for (text, expected) in [
        (r#"{"id":2,"result":"s"}"#, "unexpected subscription response"),
        (r#"{"id":-1,"result":"s"}"#, "unexpected subscription response"),
        (r#"{"id":1.0,"result":"s"}"#, "unexpected subscription response"),
        (r#"{"id":"1","result":"s"}"#, "unexpected subscription response"),
        (r#"{"result":"s"}"#, "unexpected subscription response"),
        (r#"{"id":1,"error":{"code":1}}"#, r#"{"code":1}"#),
        (r#"{"id":1,"result":7}"#, "missing subscription ID"),
        (r#"{"id":1}"#, "missing subscription ID"),
    ] {
        assert_eq!(handshake().on_message(parse(text)), rpc(expected));
    }
    let mut h = handshake();
    h.on_message(parse(r#"{"id":1,"result":"s"}"#)).unwrap();
    assert_eq!(
        h.on_message(parse(r#"{"id":2,"result":"s"}"#)),
        rpc("duplicate subscription ID")
    );
}

fn head(number: u64, stage: &str) -> Value {
    pushed("h", &format!(r#"{{"number":{number},"commitState":"{stage}"}}"#))
}

fn decode(payload: &Value) -> Result<BlockHeader, String> {
    payload["number"].as_u64().map(header).ok_or("no number".to_string())
}

/// Runs a search over the given messages, as far as they go.
fn search(messages: Vec<Value>) -> (Result<Option<BlockHeader>, Error>, SeedSearch) {
    let mut incoming: VecDeque<Value> = messages.into();
    let mut s = SeedSearch::new(subscriptions(), VecDeque::new());
    loop {
        match s.advance() {
            Err(error) => return (Err(error), s),
            Ok(SeedAction::Read) => match incoming.pop_front() {
                Some(message) => s.queue(message),
                None => return (Ok(None), s),
            },
            Ok(SeedAction::DecodeHead(payload)) => {
                match s.on_head(&payload, decode(&payload)) {
                    Ok(None) => {}
                    other => return (other, s),
                }
            }
        }
    }
}

#[test]
fn the_seed_is_the_first_finalized_header_that_was_proposed() {
    let messages = vec![
        head(7, "Finalized"),
        pushed("l", "1"),
        head(8, "Proposed"),
        head(9, "Proposed"),
        head(7, "Finalized"),
        head(8, "Voted"),
        pushed("l", "2"),
        head(8, "Finalized"),
    ];
    let (found, s) = search(messages.clone());
    assert_eq!(found, Ok(Some(header(8))));
    // Every notification is kept for the client.
    let (_, queued) = s.finish();
    assert_eq!(queued, VecDeque::from(messages));
}

#[test]
fn a_finalized_header_that_was_never_proposed_is_no_seed() {
    let named = |number: u64, hash: u128| BlockHeader {
        number,
        hash: B256 { high: 0, low: hash },
        parent_hash: B256 { high: 0, low: 0 },
        context: vec![],
    };
    let mut s = SeedSearch::new(subscriptions(), VecDeque::new());
    let mut look = |number: u64, hash: u128, stage: &str| {
        let payload = parse(&format!(r#"{{"commitState":"{stage}"}}"#));
        s.on_head(&payload, Ok(named(number, hash)))
    };
    assert_eq!(look(11, 1, "Proposed"), Ok(None));
    // The same number, but another block.
    assert_eq!(look(11, 2, "Finalized"), Ok(None));
    assert_eq!(look(12, 3, "Proposed"), Ok(None));
    assert_eq!(look(12, 3, "Voted"), Ok(None));
    assert_eq!(look(12, 3, "Finalized"), Ok(Some(named(12, 3))));
}

#[test]
fn a_search_ends_without_a_seed_or_with_an_error() {
    let (found, _) = search(vec![head(7, "Finalized"), head(9, "Proposed"), head(8, "Finalized")]);
    assert_eq!(found, Ok(None));
    let (found, s) = search(vec![pushed("l", "1"), pushed("x", "1"), head(1, "Proposed")]);
    assert_eq!(found, rpc("unknown subscription"));
    assert_eq!(s.finish().1.len(), 2);
    let (found, _) = search(vec![pushed("h", r#"{"commitState":"Voted"}"#)]);
    assert_eq!(found, rpc("no number"));
    let (found, _) = search(vec![head(1, "Elected")]);
    assert_eq!(found, rpc("expected Monad commitState"));
}

fn model(number: u64) -> PoolModel<u64> {
    PoolModel {
        block: Block {
            number,
            hash: Some(B256 { high: 0, low: number as u128 }),
            context: vec![],
        },
        tokens: (0..4).map(|i| Address { high: 0, low: i }).collect(),
        image: number,
    }
}

fn fine(_: &u64) -> Result<(), Error> {
    Ok(())
}

fn client(queued: Vec<Value>) -> EventDrivenSdk<u64> {
    let config = Config { wmon: Address { high: 0, low: 3 } };
    EventDrivenSdk::from_snapshot(
        model(10),
        &model(10).block,
        &config,
        subscriptions(),
        queued.into(),
        fine,
    )
    .unwrap_or_else(|e| panic!("{e:?}"))
}

fn step(sdk: &mut EventDrivenSdk<u64>, event: Event) -> Action {
    sdk.next_update(
        event,
        |image: &u64| *image,
        |_: u64, h: &BlockHeader, _: &Vec<RpcLog>| Ok(h.number),
        |image: u64| Ok(model(image)),
    )
}

#[test]
fn a_snapshot_must_agree_with_its_pin_and_its_configuration() {
    let disagrees = Some(Error::InvalidData(
        "seed disagrees with subscription context or WMON configuration".to_string(),
    ));
    let config = Config { wmon: Address { high: 0, low: 3 } };
    let attempt = |m: PoolModel<u64>, pin: Block, c: &Config| {
        EventDrivenSdk::from_snapshot(m, &pin, c, subscriptions(), VecDeque::new(), fine).err()
    };
    assert_eq!(attempt(model(10), model(10).block, &config), None);
    assert_eq!(attempt(model(10), model(11).block, &config), disagrees);
    assert_eq!(attempt(model(10), model(10).block, &Config::default()), disagrees);
    // A model whose block differs is refused whatever it lists.
    let mut bare = model(10);
    bare.tokens = vec![];
    assert_eq!(attempt(bare, model(11).block, &config), disagrees);
    let mut unknown = model(10);
    unknown.block.hash = None;
    let pin = unknown.block.clone();
    assert_eq!(
        attempt(unknown, pin, &config),
        Some(Error::InvalidData(
            "event seed requires a known finalized block hash".to_string()
        ))
    );
}

#[test]
fn queued_notifications_are_taken_before_the_socket_is_read() {
    let mut sdk = client(vec![head(10, "Finalized"), pushed("l", "1")]);
    let Action::DecodeHead(payload) = step(&mut sdk, Event::Begin) else {
        panic!("expected a header");
    };
    assert_eq!(payload["number"], 10);
    let decoded = decode(&payload);
    let Action::DecodeLog(payload) = step(&mut sdk, Event::Head(payload, decoded)) else {
        panic!("expected a log");
    };
    assert_eq!(payload, 1);
    let stale = RpcLog {
        address: Address { high: 0, low: 0 },
        topics: vec![],
        data: vec![],
        block_hash: B256 { high: 0, low: 9 },
        block_number: 9,
        transaction_index: 0,
        log_index: 0,
        removed: false,
    };
    assert!(matches!(step(&mut sdk, Event::Log(Ok(stale))), Action::Read));
}

#[test]
fn an_update_is_returned_and_the_model_moves() {
    let mut sdk = client(vec![]);
    for stage in ["Proposed", "Voted"] {
        let message = head(11, stage);
        let Action::DecodeHead(p) = step(&mut sdk, Event::Message(Ok(message))) else {
            panic!("expected a header");
        };
        let decoded = decode(&p);
        assert!(matches!(step(&mut sdk, Event::Head(p, decoded)), Action::Read));
        assert_eq!(sdk.model(), &model(10));
    }
    let payload = parse(r#"{"number":11,"commitState":"Finalized"}"#);
    match step(&mut sdk, Event::Head(payload, Ok(header(11)))) {
        Action::Return(Ok(update)) => {
            assert_eq!(update.blocks, 1);
            assert_eq!(update.block, header(11));
        }
        _ => panic!("expected an update"),
    }
    assert_eq!(sdk.model(), &model(11));
}

#[test]
fn every_error_ends_the_client() {
    let removed = RpcLog {
        address: Address { high: 0, low: 0 },
        topics: vec![],
        data: vec![],
        block_hash: B256 { high: 0, low: 9 },
        block_number: 9,
        transaction_index: 0,
        log_index: 0,
        removed: true,
    };
    let finalized = parse(r#"{"commitState":"Finalized"}"#);
    let lost = || Error::Transport("lost".to_string());
    for (event, expected) in [
        (Event::Message(Err(lost())), lost()),
        (
            Event::Message(Ok(Value::Null)),
            Error::Rpc("unexpected WebSocket message".to_string()),
        ),
        (Event::Log(Err("bad log".to_string())), Error::Rpc("bad log".to_string())),
        (Event::Log(Ok(removed)), Error::Discontinuous),
        (
            Event::Head(Value::Null, Err("bad header".to_string())),
            Error::Rpc("bad header".to_string()),
        ),
        (
            Event::Head(Value::Null, Ok(header(11))),
            Error::Rpc("expected Monad commitState".to_string()),
        ),
        (Event::Head(finalized, Ok(header(11))), Error::Discontinuous),
    ] {
        let mut sdk = client(vec![]);
        match step(&mut sdk, event) {
            Action::Return(r) => assert_eq!(r, Err(expected)),
            _ => panic!("expected an error"),
        }
        assert_eq!(sdk.model(), &model(10));
        match step(&mut sdk, Event::Begin) {
            Action::Return(r) => assert_eq!(r, Err(Error::Discontinuous)),
            _ => panic!("expected an error"),
        }
    }
}

#[test]
fn the_head_stream_waits_for_every_filter() {
    let mut h = handshake();
    let mut sent = vec![h.request().unwrap()];
    for i in 1..=5 {
        // A notification in between does not move the handshake on.
        h.on_message(pushed("x", "1")).unwrap();
        assert_eq!(h.request().as_ref(), sent.last());
        h.on_message(parse(&format!(r#"{{"id":{i},"result":"s{i}"}}"#))).unwrap();
        if let Some(request) = h.request() {
            sent.push(request);
        }
    }
    let first: Vec<Value> =
        sent.iter().map(|text| parse(text)["params"][0].clone()).collect();
    assert_eq!(first, ["logs", "logs", "logs", "logs", "monadNewHeads"]);
    // After an error the same request would still be the next one.
    let mut refused = handshake();
    let request = refused.request();
    assert!(refused.on_message(parse(r#"{"id":1,"error":"no"}"#)).is_err());
    assert_eq!(refused.request(), request);
}

#[test]
fn startup_hands_every_notification_on_in_order() {
    let mut h = handshake();
    let early = [head(9, "Proposed"), head(10, "Proposed")];
    h.on_message(early[0].clone()).unwrap();
    for i in 1..=5 {
        let id = ["l", "l2", "l3", "l4", "h"][i - 1];
        h.on_message(parse(&format!(r#"{{"id":{i},"result":"{id}"}}"#))).unwrap();
        if i == 4 {
            h.on_message(early[1].clone()).unwrap();
        }
    }
    let (subscriptions, queued) = h.finish();
    let mut s = SeedSearch::new(subscriptions, queued);
    let late = [pushed("l3", "5"), head(10, "Finalized")];
    let mut reads = late.iter().cloned();
    let seed = loop {
        match s.advance().unwrap() {
            SeedAction::Read => s.queue(reads.next().unwrap()),
            SeedAction::DecodeHead(payload) => {
                if let Some(seed) = s.on_head(&payload, decode(&payload)).unwrap() {
                    break seed;
                }
            }
        }
    };
    assert_eq!(seed, header(10));
    let (_, queued) = s.finish();
    assert_eq!(queued, VecDeque::from([early, late].concat()));
}

#[test]
fn a_call_takes_messages_up_to_the_first_update() {
    let queue = vec![
        head(11, "Proposed"),
        head(11, "Finalized"),
        head(12, "Proposed"),
        head(12, "Finalized"),
    ];
    let mut sdk = client(queue);
    for number in [11, 12] {
        let mut event = Event::Begin;
        let update = loop {
            event = match step(&mut sdk, event) {
                Action::DecodeHead(payload) => {
                    let decoded = decode(&payload);
                    Event::Head(payload, decoded)
                }
                Action::Return(result) => break result.unwrap(),
                _ => panic!("nothing is to be read"),
            };
        };
        assert_eq!(update.block, header(number));
        assert_eq!(update.blocks, 1);
        assert_eq!(sdk.model(), &model(number));
    }
    assert!(matches!(step(&mut sdk, Event::Begin), Action::Read));
}

#[test]
fn text_and_binary_frames_are_answered_alike() {
    for text in [
        r#"{"a":[1,-2,0.5,null],"b":"\u00e9\n"}"#,
        "\"Zürich → 東京 🦀\"",
        "\"\\ud800\"",
        "[\n 1,\n é]",
        "\"unterminated é",
        "1 2",
        "",
    ] {
        let one = read_json(SocketEvent::Text(text.to_string()));
        let two = read_json(SocketEvent::Binary(text.as_bytes().to_vec()));
        match (one, two) {
            (Ok(SocketAction::Deliver(left)), Ok(SocketAction::Deliver(right))) => {
                assert_eq!(left, right)
            }
            (Err(left), Err(right)) => assert_eq!(left, right),
            _ => panic!("answered apart: {text}"),
        }
    }
}

#[test]
fn a_search_passes_by_everything_before_its_header_and_looks_no_further() {
    let before = vec![
        head(5, "Finalized"),
        pushed("l", "1"),
        head(6, "Proposed"),
        head(7, "Proposed"),
        head(6, "Verified"),
        head(8, "Finalized"),
    ];
    // What comes after the seed is not looked at, even where it would be refused.
    let mut queue = before.clone();
    queue.push(head(7, "Finalized"));
    queue.push(pushed("unknown", "1"));
    let mut s = SeedSearch::new(subscriptions(), queue.clone().into());
    let seed = loop {
        match s.advance() {
            Ok(SeedAction::DecodeHead(payload)) => {
                if let Some(seed) = s.on_head(&payload, decode(&payload)).unwrap() {
                    break seed;
                }
            }
            _ => panic!("expected a header"),
        }
    };
    assert_eq!(seed, header(7));
    assert_eq!(s.finish().1, VecDeque::from(queue));
    // An error that comes first ends the search.
    let mut refused = before;
    refused.push(parse("{}"));
    refused.push(head(7, "Finalized"));
    assert_eq!(search(refused).0, rpc("unexpected WebSocket message"));
}

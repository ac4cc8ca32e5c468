//! The relay: who is connected, who may call, and what is answered.

use recuros::credentials::DeviceKey;
use recuros::failure::Failure;
use recuros::forwarding::{continue_forwarding, start_forwarding, Progress, Task};
use recuros::handshake::{
    accepted_device, answer_challenge, check_device, enrol_message, hello_message, step, step_with,
    Action, Event, Phase,
};
use recuros::json::{assemble, error_note, health, rpc_error, split_payload, Json};
use recuros::relay::{
    bearer_secret, check_route, conclude, disconnected_note, end_connection, let_in, replaced_note, reply,
    request_message, response_message, Delivery, NodeConnection, Nodes, Pending, RelayError,
    DEFAULT_RELAY_ADDR, REQUEST_TIMEOUT_SECONDS,
};
use recuros::store::{init, MemoryRelayStore, RelayInit};
use recuros::wire::{
    message_text, node_step, relay_step, request_in, response_in, Frame, Step, Wire,
};

fn text(s: &str) -> Json {
    Json::Text(s.to_string())
}

fn object(members: Vec<(&str, Json)>) -> Json {
    Json::Object(
        members
            .into_iter()
            .map(|(key, value)| (key.to_string(), value))
            .collect(),
    )
}

fn ping(id: i64) -> Json {
    object(vec![
        ("jsonrpc", text("2.0")),
        ("id", Json::Int(id)),
        ("method", text("ping")),
    ])
}

fn show(value: &Json) -> String {
    format!("{:?}", value)
}

fn code_of(body: &Json) -> String {
    show(&body.field("error").unwrap().field("code").unwrap())
}

fn message_of(body: &Json) -> String {
    show(&body.field("error").unwrap().field("message").unwrap())
}

fn initialised_memory_store() -> (MemoryRelayStore, RelayInit) {
    let mut store = MemoryRelayStore::new();
    let secrets = init(&mut store, "memory").unwrap();
    (store, secrets)
}

/// Runs the relay's side of a connection against the store until it waits for
/// the node or is done.
fn relay_hears(
    store: &mut MemoryRelayStore,
    phase: Phase,
    message: Wire,
) -> Result<(Phase, Wire), Failure> {
    let (mut phase, mut action) = step(phase, Event::Message(message))?;
    loop {
        let event = match action {
            Action::Enrol { bootstrap_code, public_key } => {
                let (device_id, public_key) = store.enrol(&bootstrap_code, &public_key)?;
                Event::Enrolled { device_id, public_key }
            }
            Action::FindKey { device_id } => Event::Key(store.device_key(&device_id)),
            Action::FindUser { device_id } => Event::User(store.device_user(&device_id)),
            Action::SetActive { device_id } => {
                store.set_active(&device_id)?;
                Event::Activated
            }
            Action::Send(wire) => return Ok((phase, wire)),
        };
        (phase, action) = step(phase, event)?;
    }
}

/// Connects a node and gives its device and user.
fn connect(
    store: &mut MemoryRelayStore,
    key: &DeviceKey,
    first: Wire,
) -> Result<(String, String), Failure> {
    let (phase, challenge) = relay_hears(store, Phase::First, first)?;
    let (challenged, answer) = answer_challenge(key, challenge)?;
    let (phase, ready) = relay_hears(store, phase, answer)?;
    let device = accepted_device(&challenged, ready)?;
    match phase {
        Phase::Connected { device_id, user } => {
            assert_eq!(device_id, device);
            Ok((device, user))
        }
        _ => panic!("not connected"),
    }
}

#[test]
fn connector_bearer_header_is_parsed_without_accepting_other_schemes() {
    let header = |value: &str| Some(value.as_bytes().to_vec());
    assert_eq!(
        bearer_secret(&header("Bearer rcm_secret")).as_deref(),
        Some("rcm_secret")
    );
    assert_eq!(bearer_secret(&header("Basic rcm_secret")), None);
    assert_eq!(bearer_secret(&header("Bearer ")), None);
    assert_eq!(bearer_secret(&header("bearer x")), None);
    assert_eq!(bearer_secret(&None), None);
    assert_eq!(bearer_secret(&header("Bearer \u{e9}")), None);
    assert_eq!(bearer_secret(&Some(b"Bearer a\x7f".to_vec())), None);
    assert_eq!(bearer_secret(&Some(b"Bearer a\tb".to_vec())).as_deref(), Some("a\tb"));
}

#[test]
fn mcp_endpoint_rejects_missing_and_invalid_connector_credentials() {
    let (store, secrets) = initialised_memory_store();
    let nodes: Nodes<()> = Nodes::new();

    let refused = let_in(&store, &nodes, None, &ping(1)).unwrap_err();
    assert_eq!(refused.status, 401);
    assert_eq!(code_of(&refused.body), "Int(-32001)");
    assert!(message_of(&refused.body).contains("Missing"));
    assert_eq!(show(&refused.body.field("id").unwrap()), "Int(1)");

    let refused = let_in(&store, &nodes, Some("rcm_wrong".to_string()), &ping(2)).unwrap_err();
    assert_eq!(refused.status, 401);
    assert_eq!(code_of(&refused.body), "Int(-32001)");
    assert!(message_of(&refused.body).contains("Invalid or revoked"));

    // The generated credential itself is not a valid request without a
    // connected node, but it passes authentication and reports offline.
    let refused = let_in(&store, &nodes, Some(secrets.connector_secret), &ping(3)).unwrap_err();
    assert_eq!(refused.status, 503);
    assert_eq!(code_of(&refused.body), "Int(-32002)");
}

#[test]
fn authenticated_node_receives_and_answers_relay_requests() {
    let (mut store, secrets) = initialised_memory_store();
    let key = DeviceKey::from_bytes(vec![9; 32]);
    let (device, user) =
        connect(&mut store, &key, enrol_message(&key, &secrets.bootstrap_code)).unwrap();
    let mut nodes: Nodes<Vec<Wire>> = Nodes::new();
    assert!(nodes
        .install_node(&user, NodeConnection::new(&device, Vec::new()))
        .is_none());
    assert!(nodes.node_of("owner").is_some());

    let node = nodes.node_of("owner").unwrap();
    check_route(&store.device_user(&node.device_id), "owner").unwrap();
    let mut pending: Pending<&str> = Pending::new();
    let request_id = pending.register("waiter");
    let (asked, payload) = request_in(request_message(&request_id, ping(1))).unwrap();
    assert_eq!(asked, request_id);
    let echo = object(vec![("echo", payload)]);
    let (answered, payload) = response_in(response_message(&asked, echo)).unwrap();
    assert_eq!(pending.take(&answered), Some("waiter"));
    assert_eq!(pending.take(&answered), None);
    let response = conclude(&mut pending, &request_id, Delivery::Answered(payload)).unwrap();
    assert_eq!(show(&response), show(&object(vec![("echo", ping(1))])));
}

#[test]
fn http_mcp_forwards_over_an_authenticated_node_and_honours_revocation() {
    let (mut store, secrets) = initialised_memory_store();
    let key = DeviceKey::from_bytes(vec![10; 32]);
    let (device, user) =
        connect(&mut store, &key, enrol_message(&key, &secrets.bootstrap_code)).unwrap();
    let mut nodes: Nodes<()> = Nodes::new();
    nodes.install_node(&user, NodeConnection::new(&device, ()));

    let secret = || Some(secrets.connector_secret.clone());
    for id in [7, 8] {
        assert_eq!(let_in(&store, &nodes, secret(), &ping(id)).unwrap(), "owner");
        let answer = object(vec![("ok", Json::Int(id))]);
        let answered = reply(Ok(answer), &ping(id));
        assert_eq!(answered.status, 200);
        assert_eq!(show(&answered.body), show(&object(vec![("ok", Json::Int(id))])));
    }

    assert!(store.revoke_device(&device));
    let refused = let_in(&store, &nodes, secret(), &ping(9)).unwrap_err();
    assert_eq!(refused.status, 503);
    assert_eq!(code_of(&refused.body), "Int(-32002)");
    assert!(message_of(&refused.body).contains("offline"));
}

#[test]
fn an_enrolled_node_comes_back_with_its_key_alone() {
    let (mut store, secrets) = initialised_memory_store();
    let key = DeviceKey::from_bytes(vec![9; 32]);
    let (device, _) =
        connect(&mut store, &key, enrol_message(&key, &secrets.bootstrap_code)).unwrap();
    let (again, user) = connect(&mut store, &key, hello_message(&device)).unwrap();
    assert_eq!((again.as_str(), user.as_str()), (device.as_str(), "owner"));
    assert!(store.devices()[0].active);
    check_device(&again, &device).unwrap();
    assert!(matches!(check_device(&again, "x"), Err(Failure::OtherDevice)));

    // Another key does not answer for the device, and neither does a second
    // enrolment.
    let thief = DeviceKey::from_bytes(vec![1; 32]);
    assert!(matches!(
        connect(&mut store, &thief, hello_message(&device)),
        Err(Failure::SignatureRefused)
    ));
    assert!(matches!(
        connect(&mut store, &thief, enrol_message(&thief, &secrets.bootstrap_code)),
        Err(Failure::BootstrapRefused)
    ));
    assert!(store.revoke_device(&device));
    assert!(matches!(
        connect(&mut store, &key, hello_message(&device)),
        Err(Failure::UnknownDevice)
    ));
}

#[test]
fn a_device_revoked_during_the_handshake_is_turned_away() {
    let (mut store, secrets) = initialised_memory_store();
    let key = DeviceKey::from_bytes(vec![9; 32]);
    let first = enrol_message(&key, &secrets.bootstrap_code);
    let (phase, challenge) = relay_hears(&mut store, Phase::First, first).unwrap();
    let (device, answer) = answer_challenge(&key, challenge).unwrap();
    assert!(store.revoke_device(&device));
    assert!(matches!(
        relay_hears(&mut store, phase, answer),
        Err(Failure::UnknownDevice)
    ));
}

#[test]
fn messages_out_of_turn_are_refused() {
    let ready = || Wire::Ready { device_id: "d".to_string() };
    let Err(failure) = step(Phase::First, Event::Message(ready())) else {
        panic!("accepted")
    };
    assert_eq!(failure.message(), "expected node hello or enrolment");
    let challenged = Phase::Challenged {
        device_id: "d".to_string(),
        public_key: "k".to_string(),
        nonce: vec![1],
    };
    let Err(failure) = step(challenged, Event::Message(ready())) else {
        panic!("accepted")
    };
    assert_eq!(failure.message(), "expected node authentication");

    let key = DeviceKey::from_bytes(vec![2; 32]);
    let failure = answer_challenge(&key, ready()).unwrap_err();
    assert_eq!(failure.message(), "relay did not send a challenge");
    let bad = Wire::Challenge { device_id: "d".to_string(), nonce: "%".to_string() };
    assert!(matches!(answer_challenge(&key, bad), Err(Failure::NotBase64(_))));
    assert_eq!(
        accepted_device("e", ready()).unwrap_err().message(),
        "relay changed the challenged device id"
    );
    assert_eq!(
        accepted_device("d", hello_message("d")).unwrap_err().message(),
        "relay did not accept the device"
    );
}

#[test]
fn a_challenge_shows_its_nonce_in_base64() {
    let enrolled = Event::Enrolled { device_id: "d".to_string(), public_key: "k".to_string() };
    let Ok((_, Action::Send(wire))) = step_with(Phase::Enrolling, enrolled, vec![1, 2, 3]) else {
        panic!("no challenge")
    };
    let Wire::Challenge { device_id, nonce } = wire else {
        panic!("no challenge")
    };
    assert_eq!((device_id.as_str(), nonce.as_str()), ("d", "AQID"));
}

#[test]
fn challenges_differ() {
    let ask = || {
        let found = Event::Key(Some("k".to_string()));
        match step(Phase::Looking { device_id: "d".to_string() }, found) {
            Ok((Phase::Challenged { nonce, .. }, _)) => nonce,
            _ => panic!("no challenge"),
        }
    };
    assert_eq!(ask().len(), 32);
    assert_ne!(ask(), ask());
}

#[test]
fn an_ended_connection_is_offline_and_fails_its_requests() {
    let mut store = MemoryRelayStore::new();
    let relay = init(&mut store, "memory").unwrap();
    let key = DeviceKey::from_bytes(vec![4; 32]);
    let (device, _) = store.enrol(&relay.bootstrap_code, &key.public_key()).unwrap();
    let secret = || Some(relay.connector_secret.clone());
    let payload = object(vec![("id", text("1"))]);

    let mut nodes = Nodes::new();
    let node = NodeConnection::new(&device, ());
    let id = node.connection_id.clone();
    assert!(nodes.install_node("owner", node).is_none());
    assert_eq!(let_in(&store, &nodes, secret(), &payload).unwrap(), "owner");

    let mut pending = Pending::new();
    let first = pending.register(1);
    let second = pending.register(2);
    let mut waiters = end_connection(&mut nodes, &mut pending, "owner", &id);
    waiters.sort();
    assert_eq!(waiters, [1, 2]);
    assert!(pending.take(&first).is_none() && pending.take(&second).is_none());
    let told = let_in(&store, &nodes, secret(), &payload).unwrap_err();
    assert_eq!(told.status, 503);
    let offline = rpc_error(&payload, -32002, &RelayError::NodeOffline.message());
    assert_eq!(format!("{:?}", told.body), format!("{:?}", offline));

    // The end of an old connection leaves a newer one in place.
    let newer = NodeConnection::new(&device, ());
    assert!(nodes.install_node("owner", newer).is_none());
    assert!(end_connection(&mut nodes, &mut pending, "owner", &id).is_empty());
    assert!(let_in(&store, &nodes, secret(), &payload).is_ok());
}

#[test]
fn a_newer_connection_takes_over_and_stays() {
    let mut nodes: Nodes<u8> = Nodes::new();
    let first = NodeConnection::new("d", 1);
    let first_id = first.connection_id.clone();
    nodes.install_node("u", first);
    let previous = nodes.install_node("u", NodeConnection::new("d", 2)).unwrap();
    assert_eq!(previous.handle, 1);
    nodes.remove_node("u", &first_id);
    assert_eq!(nodes.node_of("u").unwrap().handle, 2);
    let second_id = nodes.node_of("u").unwrap().connection_id.clone();
    assert_ne!(first_id, second_id);
    nodes.remove_node("u", &second_id);
    assert!(nodes.node_of("u").is_none());
}

#[test]
fn waiting_requests_are_failed_together_or_alone() {
    let mut pending: Pending<u8> = Pending::new();
    let a = pending.register(1);
    let b = pending.register(2);
    assert!(matches!(
        conclude(&mut pending, &a, Delivery::TimedOut),
        Err(RelayError::TimedOut)
    ));
    assert_eq!(pending.take(&a), None);
    assert!(matches!(
        conclude(&mut pending, &b, Delivery::NotWritten),
        Err(RelayError::NodeOffline)
    ));
    assert!(matches!(
        conclude(&mut pending, &b, Delivery::Dropped),
        Err(RelayError::NodeOffline)
    ));
    let c = pending.register(3);
    let mut failed = pending.fail_all();
    failed.sort();
    assert_eq!(failed, [2, 3]);
    assert_eq!(pending.take(&c), None);
    let d = pending.register(4);
    assert!(matches!(
        conclude(&mut pending, &d, Delivery::NotSent),
        Err(RelayError::NodeOffline)
    ));
    assert_eq!(pending.take(&d), None);
    assert_eq!(
        show(&replaced_note()),
        show(&object(vec![("error", text("replaced by a newer node connection"))]))
    );
    assert_eq!(
        show(&disconnected_note()),
        show(&error_note("node disconnected"))
    );
}

#[test]
fn a_route_needs_the_devices_own_user() {
    assert!(check_route(&Some("u".to_string()), "u").is_ok());
    assert!(check_route(&Some("v".to_string()), "u").is_err());
    assert!(check_route(&None, "u").is_err());
    assert!(RelayError::NodeOffline.message().contains("ctx node start"));
    assert!(RelayError::TimedOut.message().contains("timeout"));
    assert_eq!(DEFAULT_RELAY_ADDR, "127.0.0.1:8788");
    assert_eq!(REQUEST_TIMEOUT_SECONDS, 30);
}

#[test]
fn a_batch_is_failed_request_by_request() {
    let notification = object(vec![("method", text("note"))]);
    let batch = Json::Array(vec![ping(1), notification, Json::Array(vec![ping(2)]), ping(3)]);
    let Json::Array(errors) = rpc_error(&batch, -32002, "gone") else {
        panic!("no batch")
    };
    let ids: Vec<String> = errors
        .iter()
        .map(|e| show(&e.field("id").unwrap()))
        .collect();
    assert_eq!(ids, ["Int(1)", "Int(3)"]);
    let single = rpc_error(&object(vec![("method", text("note"))]), -1, "m");
    assert_eq!(show(&single.field("id").unwrap()), "Null");
    assert_eq!(show(&single.field("jsonrpc").unwrap()), show(&text("2.0")));
    let null_id = object(vec![("id", Json::Null)]);
    let Json::Array(errors) = rpc_error(&Json::Array(vec![null_id]), -1, "m") else {
        panic!("no batch")
    };
    assert_eq!(errors.len(), 1);
}

#[test]
fn answers_are_assembled_as_the_requests_came() {
    let (batch, requests) = split_payload(Json::Array(vec![ping(1), ping(2)]));
    assert!(batch);
    assert_eq!(requests.len(), 2);
    let answers = vec![None, Some(Json::Int(5))];
    assert_eq!(show(&assemble(true, answers)), "Array([Int(5)])");
    let (batch, requests) = split_payload(ping(1));
    assert!(!batch);
    assert_eq!(requests.len(), 1);
    assert_eq!(show(&assemble(false, vec![Some(Json::Int(5))])), "Int(5)");
    assert_eq!(show(&assemble(false, vec![None])), "Object([])");
    assert_eq!(show(&assemble(true, vec![])), "Array([])");
}

#[test]
fn values_are_copied_whole() {
    let value = object(vec![
        ("a", Json::Array(vec![Json::Null, Json::Bool(true), Json::Int(-1)])),
        ("b", Json::Number("1.5e3".to_string())),
        ("c", object(vec![("d", text("e"))])),
    ]);
    assert_eq!(show(&value.copy()), show(&value));
    assert_eq!(show(&value.field("c").unwrap().field("d").unwrap()), show(&text("e")));
    assert!(value.field("z").is_none());
    assert!(Json::Int(1).field("a").is_none());
}

#[test]
fn the_relay_tells_of_its_health() {
    let value = health("1.2.3");
    assert_eq!(show(&value.field("ok").unwrap()), "Bool(true)");
    assert_eq!(show(&value.field("service").unwrap()), show(&text("recuros-relay")));
    assert_eq!(show(&value.field("version").unwrap()), show(&text("1.2.3")));
}

#[test]
fn frames_are_read_as_each_side_reads_them() {
    let line = || Frame::Text("{}".to_string());
    assert_eq!(message_text(line()).unwrap(), "{}");
    assert_eq!(
        message_text(Frame::Closed).unwrap_err().message(),
        "connection closed"
    );
    assert_eq!(
        message_text(Frame::Other).unwrap_err().message(),
        "expected text websocket frame"
    );
    assert!(matches!(relay_step(Frame::Closed), Ok(Step::Stop)));
    assert!(matches!(relay_step(Frame::Other), Ok(Step::Skip)));
    assert!(matches!(relay_step(line()), Ok(Step::Parse(t)) if t == "{}"));
    assert_eq!(
        node_step(Frame::Closed).unwrap_err().message(),
        "relay closed the connection"
    );
    assert!(matches!(node_step(Frame::Other), Ok(Step::Skip)));
    let dropped = || Frame::Failed("reset by peer".to_string());
    assert_eq!(message_text(dropped()).unwrap_err().message(), "reset by peer");
    assert_eq!(relay_step(dropped()).unwrap_err().message(), "reset by peer");
    assert_eq!(node_step(dropped()).unwrap_err().message(), "reset by peer");
    assert!(matches!(node_step(line()), Ok(Step::Parse(_))));
    assert!(request_in(hello_message("d")).is_none());
    assert!(response_in(request_message("r", Json::Null)).is_none());
}

#[test]
fn a_request_is_sent_only_to_a_routed_node_and_then_concluded() {
    let some = |s: &str| Some(s.to_string());
    let payload = || object(vec![("method", text("ping"))]);

    let (state, task) = start_forwarding("owner", payload());
    assert!(matches!(task, Task::FindNode(user) if user == "owner"));
    let (_, task) = continue_forwarding(state, Progress::Node(None));
    assert!(matches!(task, Task::Fail(RelayError::NodeOffline)));

    for found in [None, some("other")] {
        let (state, _) = start_forwarding("owner", payload());
        let (state, task) = continue_forwarding(state, Progress::Node(some("d")));
        assert!(matches!(task, Task::FindDeviceUser(device) if device == "d"));
        let (_, task) = continue_forwarding(state, Progress::DeviceUser(found));
        assert!(matches!(task, Task::Fail(RelayError::NodeOffline)));
    }

    let (state, _) = start_forwarding("owner", payload());
    let (state, _) = continue_forwarding(state, Progress::Node(some("d")));
    let (state, task) = continue_forwarding(state, Progress::DeviceUser(some("owner")));
    assert!(matches!(task, Task::Register));
    let mut pending = Pending::new();
    let id = pending.register(1);
    let (state, task) = continue_forwarding(state, Progress::Registered(id.clone()));
    let Task::Send(Wire::Request { request_id, payload: sent }) = task else {
        panic!("not sent")
    };
    assert_eq!(request_id, id);
    assert_eq!(format!("{:?}", sent), format!("{:?}", payload()));
    let (_, task) = continue_forwarding(state, Progress::Delivered(Delivery::TimedOut));
    let Task::Conclude { request_id, delivery } = task else {
        panic!("not concluded")
    };
    assert_eq!(request_id, id);
    assert!(matches!(
        conclude(&mut pending, &request_id, delivery),
        Err(RelayError::TimedOut)
    ));
    assert!(pending.take(&id).is_none());
}

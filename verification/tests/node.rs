//! The local node: its pairing, its key and its relay's address.

use recuros::failure::{Base64Fault, Failure};
use recuros::home::{CtxHome, FileRead};
use recuros::node::{
    complete_login, config_text, connected_note, key_path, load_or_create_key, must_save, new_key,
    node_config_path, node_dir, node_status, node_ws_url, normalise_relay_url, paired, retry_note, with_branch,
    with_relay, KeyRead, NodeConfig, RETRY_SECONDS,
};
use recuros::wire::Wire;

fn text(s: &str) -> Option<String> {
    Some(s.to_string())
}

fn config() -> NodeConfig {
    paired("https://relay.example", "device", "project/code")
}

#[test]
fn relay_and_websocket_urls_follow_the_public_scheme() {
    assert_eq!(
        node_ws_url("https://relay.example").unwrap(),
        "wss://relay.example/v1/node/connect"
    );
    assert_eq!(
        node_ws_url("http://127.0.0.1:8788").unwrap(),
        "ws://127.0.0.1:8788/v1/node/connect"
    );
}

#[test]
fn node_configuration_remembers_the_branch_it_serves() {
    let loaded = node_status(Some(config())).unwrap();
    assert_eq!(
        loaded,
        (
            "https://relay.example".to_string(),
            "device".to_string(),
            "project/code".to_string()
        )
    );
    assert_eq!(loaded.2, "project/code");
    assert_eq!(node_status(None), None);
}

#[test]
fn addresses_are_tidied_and_must_be_http() {
    assert_eq!(
        normalise_relay_url("  https://r.example// \n").unwrap(),
        "https://r.example"
    );
    assert_eq!(normalise_relay_url("http://r").unwrap(), "http://r");
    for bad in ["", "r.example", "ftp://r", "http://", "https:///", "HTTP://r"] {
        let failure = normalise_relay_url(bad).unwrap_err();
        assert_eq!(
            failure.message(),
            "relay URL must start with http:// or https://",
            "{}",
            bad
        );
    }
    assert!(matches!(node_ws_url("ws://r"), Err(Failure::RelayUrl)));
}

#[test]
fn a_node_keeps_its_files_in_its_home() {
    let home = CtxHome::at("/h".to_string());
    assert_eq!(node_dir(&home), "/h/.node");
    assert_eq!(node_config_path(&home), "/h/.node/relay.json");
    assert_eq!(key_path(&home), "/h/.node/device.ed25519");
}

#[test]
fn a_pairing_is_read_if_it_is_there() {
    assert_eq!(config_text(FileRead::Text("{}".to_string())).unwrap(), text("{}"));
    assert_eq!(config_text(FileRead::Missing).unwrap(), None);
    assert_eq!(
        config_text(FileRead::Failed("denied".to_string()))
            .unwrap_err()
            .message(),
        "denied"
    );
}

#[test]
fn a_key_is_loaded_or_made() {
    let (key, write) = load_or_create_key(KeyRead::Bytes(vec![8; 32]), "k").ok().unwrap();
    assert!(write.is_none());
    let (same, _) = load_or_create_key(KeyRead::Bytes(vec![8; 32]), "k").ok().unwrap();
    assert_eq!(key.public_key(), same.public_key());

    let (new, write) = load_or_create_key(KeyRead::Missing, "k").ok().unwrap();
    let (read_back, _) = load_or_create_key(KeyRead::Bytes(write.unwrap()), "k")
        .ok()
        .unwrap();
    assert_eq!(new.public_key(), read_back.public_key());
    let (other, _) = load_or_create_key(KeyRead::Missing, "k").ok().unwrap();
    assert_ne!(new.public_key(), other.public_key());

    let failure = load_or_create_key(KeyRead::Bytes(vec![8; 31]), "/h/key").err().unwrap();
    assert_eq!(failure.message(), "/h/key has the wrong length");
    let failure = load_or_create_key(KeyRead::Failed("denied".to_string()), "k")
        .err()
        .unwrap();
    assert_eq!(failure.message(), "denied");
}

#[test]
fn a_start_may_change_relay_and_branch() {
    let failure = with_relay(None, &None).err().unwrap();
    assert_eq!(
        failure.message(),
        "node is not paired yet; run `ctx node login --relay URL --code BOOTSTRAP_CODE`"
    );
    let kept = with_relay(Some(config()), &None).ok().unwrap();
    assert_eq!(kept.relay_url, "https://relay.example");
    let moved = with_relay(Some(config()), &text("http://other/")).ok().unwrap();
    assert_eq!(moved.relay_url, "http://other");
    assert_eq!(moved.device_id, "device");
    assert!(matches!(
        with_relay(Some(config()), &text("other")),
        Err(Failure::RelayUrl)
    ));
    let moved = with_branch(moved, &text("a/b"));
    assert_eq!((moved.branch.as_str(), moved.relay_url.as_str()), ("a/b", "http://other"));
    assert_eq!(with_branch(config(), &None).branch, "project/code");
    assert!(!must_save(&None, &None));
    assert!(must_save(&text("x"), &None) && must_save(&None, &text("x")));
}

#[test]
fn a_login_pairs_or_leaves_alone() {
    let ready = |id: &str| Wire::Ready { device_id: id.to_string() };
    let pairing = complete_login(" https://relay.example/ ", "d", ready("d"), "a/b").unwrap();
    assert_eq!(
        node_status(Some(pairing)),
        Some(("https://relay.example".to_string(), "d".to_string(), "a/b".to_string()))
    );
    let refused = [
        complete_login("relay.example", "d", ready("d"), "a/b"),
        complete_login("https://relay.example", "d", ready("e"), "a/b"),
        complete_login("https://relay.example", "d", Wire::Hello { device_id: "d".to_string() }, "a/b"),
    ];
    let words: Vec<String> = refused.into_iter().map(|r| r.unwrap_err().message()).collect();
    assert_eq!(
        words,
        [
            "relay URL must start with http:// or https://",
            "relay changed the challenged device id",
            "relay did not accept the device",
        ]
    );
}

#[test]
fn a_node_says_what_happens_to_its_connection() {
    assert_eq!(
        connected_note(&config()),
        "ctx node: connected to https://relay.example as device"
    );
    assert_eq!(
        retry_note("gone"),
        "ctx node: relay connection ended (gone); retrying in 3 seconds"
    );
    assert_eq!(RETRY_SECONDS, 3);
}

#[test]
fn every_failure_has_its_words() {
    let words = [
        (Failure::NotBase64(Base64Fault::Padding), "Invalid padding"),
        (Failure::KeyLength, "device public key has the wrong length"),
        (Failure::NotAKey, "signature error: Cannot decompress Edwards point"),
        (Failure::SignatureLength, "signature error"),
        (Failure::SignatureRefused, "invalid device signature"),
        (Failure::UnknownDevice, "unknown or revoked device"),
        (Failure::OtherDevice, "relay authenticated a different device"),
        (Failure::Randomness("x".to_string()), "OS randomness failed: x"),
    ];
    for (failure, text) in words {
        assert_eq!(failure.message(), text);
    }
}

#[test]
fn a_new_key_is_written_as_its_seed() {
    let (key, write) = new_key(vec![8; 32]);
    assert_eq!(write, vec![8; 32]);
    let (same, _) = load_or_create_key(KeyRead::Bytes(write), "k").ok().unwrap();
    assert_eq!(key.public_key(), same.public_key());
}

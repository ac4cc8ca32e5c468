//! The relay's metadata: initialising, enrolling, revoking.

use recuros::credentials::{encode_base64, hash_secret, DeviceKey};
use recuros::failure::Failure;
use recuros::storage::{clean_setting, RelayStorage, StoreChoice};
use recuros::store::{
    bootstrap_consumed, canonical_public_key, check_bootstrap, create_connector_secret,
    create_connector_with, devices, init, init_with, new_connector, new_device, plan_init, plan_init_with, require_initialised_database,
    require_initialised_directory, revocation, revoke_device, MemoryRelayStore,
};

fn text(s: &str) -> Option<String> {
    Some(s.to_string())
}

#[test]
fn metadata_store_enrolment_is_one_time_and_connector_secrets_are_scoped() {
    let mut db = MemoryRelayStore::new();
    let init = init(&mut db, "memory").unwrap();
    assert_eq!(
        db.connector_user(&init.connector_secret).as_deref(),
        Some("owner")
    );
    let key = DeviceKey::from_bytes(vec![7; 32]);
    let public_key = key.public_key();
    let (device, saved) = db.enrol(&init.bootstrap_code, &public_key).unwrap();
    assert!(!device.is_empty());
    assert_eq!(saved, public_key);
    assert!(db.enrol(&init.bootstrap_code, &public_key).is_err());
    assert_eq!(db.device_user(&device).as_deref(), Some("owner"));
    assert!(db.revoke_device(&device));
    assert!(db.device_user(&device).is_none());
}

#[test]
fn sqlite_is_the_durable_default_when_mongodb_is_not_selected() {
    let StoreChoice::Sqlite { path } = RelayStorage::default().store_at("/data/relay") else {
        panic!("no SQLite store")
    };
    assert_eq!(path, "/data/relay/relay.db");
    let mut db = MemoryRelayStore::new();
    let init = init(&mut db, "/data/relay").unwrap();
    assert_eq!(
        db.connector_user(&init.connector_secret).as_deref(),
        Some("owner")
    );
}

#[test]
fn a_store_is_initialised_once() {
    let mut db = MemoryRelayStore::new();
    assert!(matches!(db.require_initialised(), Err(Failure::NotInitialised)));
    let first = init(&mut db, "here").unwrap();
    assert!(first.bootstrap_code.starts_with("rcb_"));
    assert!(first.connector_secret.starts_with("rcm_"));
    assert_eq!(db.meta("bootstrap_used").as_deref(), Some("false"));
    assert_eq!(
        db.meta("bootstrap_hash").unwrap(),
        hash_secret(&first.bootstrap_code)
    );
    let again = init(&mut db, "here").unwrap_err();
    assert_eq!(
        again.message(),
        "here is already initialised; create another connector secret with `ctx relay token create`"
    );
    assert_eq!(
        db.meta("bootstrap_hash").unwrap(),
        hash_secret(&first.bootstrap_code)
    );
}

#[test]
fn nothing_works_on_a_store_that_was_not_initialised() {
    let mut db = MemoryRelayStore::new();
    let key = DeviceKey::from_bytes(vec![1; 32]).public_key();
    for failure in [
        create_connector_secret(&mut db, "l").unwrap_err(),
        revoke_device(&mut db, "d").unwrap_err(),
        devices(&db).unwrap_err(),
        db.enrol("code", &key).unwrap_err(),
    ] {
        assert_eq!(
            failure.message(),
            "relay is not initialised; initialise the in-memory store first"
        );
    }
}

#[test]
fn a_wrong_code_or_key_enrols_nobody() {
    let mut db = MemoryRelayStore::new();
    let init = init(&mut db, "memory").unwrap();
    let key = DeviceKey::from_bytes(vec![7; 32]).public_key();
    let refused = db.enrol("rcb_wrong", &key).unwrap_err();
    assert_eq!(
        refused.message(),
        "bootstrap code is invalid or has already been used"
    );
    assert!(matches!(
        db.enrol(&init.connector_secret, &key),
        Err(Failure::BootstrapRefused)
    ));
    assert!(matches!(
        db.enrol(&init.bootstrap_code, "AAAA"),
        Err(Failure::KeyLength)
    ));
    assert!(devices(&db).unwrap().is_empty());
    // The code is still good for the one device it is for.
    assert!(db.enrol(&init.bootstrap_code, &key).is_ok());
}

#[test]
fn devices_are_listed_by_age_with_their_state() {
    let mut db = MemoryRelayStore::new();
    let init = init(&mut db, "memory").unwrap();
    let key = DeviceKey::from_bytes(vec![7; 32]).public_key();
    db.enrol_as(&init.bootstrap_code, &key, "young", "2").unwrap();
    // A store in which the code counts as unused takes another device.
    db.set_meta("bootstrap_used", "false");
    db.enrol_as(&init.bootstrap_code, &key, "old", "1").unwrap();
    db.set_active("young").unwrap();
    db.set_active("old").unwrap();
    assert!(db.revoke_device("young"));
    assert!(!db.revoke_device("young"));
    let list = devices(&db).unwrap();
    let seen: Vec<(&str, bool, bool)> = list
        .iter()
        .map(|d| (d.id.as_str(), d.active, d.revoked))
        .collect();
    assert_eq!(seen, [("old", true, false), ("young", false, true)]);
    assert_eq!(db.device_key("old"), Some(key));
    assert_eq!(db.device_key("young"), None);
    assert!(matches!(db.set_active("young"), Err(Failure::UnknownDevice)));
    assert!(matches!(db.set_active("none"), Err(Failure::UnknownDevice)));
}

#[test]
fn revoking_an_unknown_device_is_an_error() {
    let mut db = MemoryRelayStore::new();
    init(&mut db, "memory").unwrap();
    let failure = revoke_device(&mut db, "nobody").unwrap_err();
    assert_eq!(failure.message(), "no active device named `nobody`");
    assert!(revocation(1, "d").is_ok());
    assert_eq!(
        revocation(0, "d").unwrap_err().message(),
        "no active device named `d`"
    );
}

#[test]
fn connector_secrets_lead_to_the_owner() {
    let mut db = MemoryRelayStore::new();
    init(&mut db, "memory").unwrap();
    let token = create_connector_secret(&mut db, "laptop").unwrap();
    assert!(token.starts_with("rcm_"));
    assert_eq!(db.connector_user(&token).as_deref(), Some("owner"));
    assert_eq!(db.connector_user("rcm_other"), None);
}

#[test]
fn a_durable_store_takes_the_same_decisions() {
    let hash = text(&hash_secret("code"));
    assert!(check_bootstrap(&hash, &text("false"), "code").is_ok());
    assert!(check_bootstrap(&hash, &None, "code").is_ok());
    assert!(matches!(
        check_bootstrap(&hash, &text("true"), "code"),
        Err(Failure::BootstrapRefused)
    ));
    assert!(matches!(
        check_bootstrap(&hash, &text("false"), "other"),
        Err(Failure::BootstrapRefused)
    ));
    assert_eq!(
        check_bootstrap(&None, &None, "code").unwrap_err().message(),
        "relay bootstrap state is missing"
    );
    assert!(bootstrap_consumed(1).is_ok());
    assert!(bootstrap_consumed(0).is_err());

    let kept = new_device(text("known"));
    assert_eq!((kept.id.as_str(), kept.created_at), ("known", None));
    let fresh = new_device(None);
    assert_eq!(fresh.id.len(), 26);
    assert!(fresh.created_at.is_some());

    let connector = new_connector("rcm_x");
    assert_eq!(connector.token_hash, hash_secret("rcm_x"));
    assert_eq!(connector.created_at.len(), 26);

    let plan = plan_init(&None, "p").unwrap();
    let entries: Vec<(&str, &str)> = plan
        .meta
        .iter()
        .map(|e| (e.key.as_str(), e.value.as_str()))
        .collect();
    let hash = hash_secret(&plan.init.bootstrap_code);
    assert_eq!(entries, [("bootstrap_hash", hash.as_str()), ("bootstrap_used", "false")]);
    assert_eq!((plan.user.as_str(), plan.label.as_str()), ("owner", "initial connector"));
    assert_eq!(
        plan.connector.token_hash,
        hash_secret(&plan.init.connector_secret)
    );
    assert!(plan_init(&text("h"), "p").is_err());

    assert_eq!(
        require_initialised_directory(&None, "./d").unwrap_err().message(),
        "relay is not initialised; run `ctx relay init --data ./d` first"
    );
    assert!(require_initialised_directory(&text("h"), "./d").is_ok());
    assert_eq!(
        require_initialised_database(&None).unwrap_err().message(),
        "relay is not initialised; run `ctx relay init` with this MongoDB URL first"
    );
    assert!(require_initialised_database(&text("h")).is_ok());
}

#[test]
fn keys_are_kept_in_one_form() {
    let key = DeviceKey::from_bytes(vec![7; 32]).public_key();
    assert_eq!(canonical_public_key(&key).unwrap(), key);
    assert!(canonical_public_key(&encode_base64(&[0; 31])).is_err());
}

#[test]
fn settings_come_from_the_command_line_then_the_environment() {
    let storage = RelayStorage::from_environment(
        text(" mongodb://a "),
        text("  "),
        text("mongodb://b"),
        text("db"),
    );
    assert_eq!(storage.mongodb_url.as_deref(), Some("mongodb://a"));
    assert_eq!(storage.database_name(), "db");
    let storage = RelayStorage::from_environment(None, None, text(""), None);
    assert_eq!(storage.mongodb_url, None);
    assert_eq!(storage.database_name(), "recuros_relay");
    assert_eq!(clean_setting(text(" \t ")), None);
    let storage = RelayStorage {
        mongodb_url: text("mongodb://c"),
        mongodb_database: None,
    };
    let StoreChoice::Mongo { url, database } = storage.store_at("d") else {
        panic!("no MongoDB store")
    };
    assert_eq!((url.as_str(), database.as_str()), ("mongodb://c", "recuros_relay"));
}

#[test]
fn a_connector_secret_enrols_no_device() {
    let mut store = MemoryRelayStore::new();
    init(&mut store, "memory").unwrap();
    let key = DeviceKey::from_bytes(vec![6; 32]).public_key();
    let secret = create_connector_secret(&mut store, "x").unwrap();
    assert!(matches!(store.enrol(&secret, &key), Err(Failure::BootstrapRefused)));
    assert!(devices(&store).unwrap().is_empty());
    assert_eq!(store.connector_user(&secret).as_deref(), Some("owner"));
}

#[test]
fn a_relay_is_initialised_with_the_secrets_it_is_given() {
    let owned = |s: &str| s.to_string();
    let mut db = MemoryRelayStore::new();
    assert!(matches!(
        create_connector_with(&mut db, "x", owned("rcm_b")),
        Err(Failure::NotInitialised)
    ));
    let new = init_with(&mut db, "here", owned("rcb_a"), owned("rcm_a")).unwrap();
    assert_eq!((new.bootstrap_code.as_str(), new.connector_secret.as_str()), ("rcb_a", "rcm_a"));
    assert_eq!(db.meta("bootstrap_hash"), Some(hash_secret("rcb_a")));
    assert_eq!(db.meta("bootstrap_used").as_deref(), Some("false"));
    assert_eq!(db.connector_user("rcm_a").as_deref(), Some("owner"));
    assert_eq!(db.connector_user("rcm_b"), None);
    assert_eq!(create_connector_with(&mut db, "x", owned("rcm_b")).unwrap(), "rcm_b");
    assert_eq!(db.connector_user("rcm_b").as_deref(), Some("owner"));

    let again = init_with(&mut db, "here", owned("rcb_c"), owned("rcm_c")).err().unwrap();
    assert!(matches!(again, Failure::AlreadyInitialised(place) if place == "here"));
    assert_eq!(db.meta("bootstrap_hash"), Some(hash_secret("rcb_a")));
    assert_eq!(db.connector_user("rcm_c"), None);

    let plan = plan_init_with(&None, "p", owned("rcb_a"), owned("rcm_a")).ok().unwrap();
    assert_eq!(plan.init.bootstrap_code, "rcb_a");
    assert_eq!(plan.connector.token_hash, hash_secret("rcm_a"));
    assert!(plan_init_with(&text("h"), "p", owned("rcb_a"), owned("rcm_a")).is_err());
}

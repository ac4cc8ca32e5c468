//! The relay's metadata store in memory, and the decisions that every kind of
//! store takes: who may enrol, what is printed, what is refused. It holds
//! hashes of secrets, public keys and routing state, and nothing else.

use vstd::prelude::*;

use crate::credentials::{constant_time_eq, decode_public_key, encode_public_key, fresh_id,
    hash_secret, secret};
use crate::failure::Failure;
use crate::metadata::DeviceInfo;
use crate::table::Table;
use crate::text::{is_text, same_text, text_before};
#[allow(unused_imports)]
use crate::credentials::{is_secret, is_ulid, public_key_of, public_key_text_round_trip, secret_hash};
#[allow(unused_imports)]
use crate::metadata::{named, ConnectorRow, DeviceRow, Operation, StoreView};
#[allow(unused_imports)]
use crate::table::enumerates;
#[allow(unused_imports)]
use crate::text::{lemma_text_le_transitive, lemma_text_lt_total, lemma_utf8_injective, text_le, text_lt,
    text_of};

verus! {

/// Values printed exactly once by `ctx relay init`.
#[derive(Debug, Clone)]
pub struct RelayInit {
    pub bootstrap_code: String,
    pub connector_secret: String,
}

/// A device in the store.
struct Device {
    user_id: String,
    public_key: String,
    revoked: bool,
    active: bool,
    created_at: String,
}

/// A connector in the store.
struct Connector {
    user_id: String,
    revoked: bool,
}

impl Device {
    spec fn row(self) -> DeviceRow {
        DeviceRow {
            user_id: self.user_id@,
            public_key: self.public_key@,
            revoked: self.revoked,
            active: self.active,
            created_at: self.created_at@,
        }
    }

    /// The same device in another state.
    fn in_state(&self, revoked: bool, active: bool) -> (r: Device)
        ensures
            r.row() == (DeviceRow { revoked, active, ..self.row() }),
    {
        Device {
            user_id: self.user_id.clone(),
            public_key: self.public_key.clone(),
            revoked,
            active,
            created_at: self.created_at.clone(),
        }
    }
}

impl Connector {
    spec fn row(self) -> ConnectorRow {
        ConnectorRow { user_id: self.user_id@, revoked: self.revoked }
    }
}

spec fn meta_map(meta: Map<Seq<char>, String>) -> Map<Seq<char>, Seq<char>> {
    Map::new(|key: Seq<char>| meta.dom().contains(key), |key: Seq<char>| meta[key]@)
}

spec fn device_map(devices: Map<Seq<char>, Device>) -> Map<Seq<char>, DeviceRow> {
    Map::new(|id: Seq<char>| devices.dom().contains(id), |id: Seq<char>| devices[id].row())
}

spec fn connector_map(connectors: Map<Seq<char>, Connector>) -> Map<Seq<char>, ConnectorRow> {
    Map::new(
        |hash: Seq<char>| connectors.dom().contains(hash),
        |hash: Seq<char>| connectors[hash].row(),
    )
}

/// The relay's metadata in memory.
pub struct MemoryRelayStore {
    meta: Table<String>,
    devices: Table<Device>,
    connectors: Table<Connector>,
}

impl View for MemoryRelayStore {
    type V = StoreView;

    closed spec fn view(&self) -> StoreView {
        StoreView {
            meta: meta_map(self.meta@),
            devices: device_map(self.devices@),
            connectors: connector_map(self.connectors@),
        }
    }
}

impl MemoryRelayStore {
    /// A store that holds nothing.
    pub fn new() -> (r: Self)
        ensures
            r@ == StoreView::empty(),
    {
        let r = MemoryRelayStore {
            meta: Table::new(),
            devices: Table::new(),
            connectors: Table::new(),
        };
        assert(r@ =~= StoreView::empty());
        r
    }

    /// The value under `key`.
    pub fn meta(&self, key: &str) -> (r: Option<String>)
        ensures
            text_of(r) == self@.meta_at(key@),
    {
        match self.meta.get(key) {
            Some(value) => Some(value.clone()),
            None => None,
        }
    }

    /// Puts `value` under `key`.
    pub fn set_meta(&mut self, key: &str, value: &str)
        ensures
            final(self)@ == old(self)@.with_meta(key@, value@),
    {
        self.meta.insert(key, value.to_owned());
        assert(self@ =~= old(self)@.with_meta(key@, value@));
    }

    /// Whether the store was initialised.
    pub fn require_initialised(&self) -> (r: Result<(), Failure>)
        ensures
            r == if self@.initialised() {
                Ok::<(), Failure>(())
            } else {
                Err::<(), Failure>(Failure::NotInitialised)
            },
    {
        match self.meta.get("bootstrap_hash") {
            Some(_) => Ok(()),
            None => Err(Failure::NotInitialised),
        }
    }

    /// Adds a connector of `user` by the hash of its secret. The label is for
    /// the durable stores, which keep it for their administrator.
    pub fn insert_connector(&mut self, secret: &str, user: &str, _label: &str)
        ensures
            final(self)@ == old(self)@.with_connector(secret@, user@),
    {
        let hash = hash_secret(secret);
        self.connectors.insert(
            hash.as_str(),
            Connector { user_id: user.to_owned(), revoked: false },
        );
        assert(self@ =~= old(self)@.with_connector(secret@, user@));
    }

    /// The user of the connector with this secret.
    pub fn connector_user(&self, secret: &str) -> (r: Option<String>)
        ensures
            text_of(r) == self@.connector_user(secret@),
    {
        let hash = hash_secret(secret);
        match self.connectors.get(hash.as_str()) {
            Some(connector) => if connector.revoked {
                None
            } else {
                Some(connector.user_id.clone())
            },
            None => None,
        }
    }

    /// Enrols the first device under this id: gives its id and its key.
    pub fn enrol_as(&mut self, code: &str, public_key: &str, device_id: &str, created_at: &str) -> (r:
        Result<(String, String), Failure>)
        ensures
            final(self)@ == old(self)@.after(
                Operation::Enrol {
                    code: code@,
                    public_key: public_key@,
                    device_id: device_id@,
                    created_at: created_at@,
                },
            ),
            match old(self)@.enrolment(code@, public_key@) {
                Ok(key) => {
                    &&& r matches Ok((id, saved)) && id@ == device_id@ && saved@ == public_key@
                    &&& final(self)@ == old(self)@.with_device(device_id@, public_key@, created_at@)
                },
                Err(e) => r == Err::<(String, String), Failure>(e) && final(self)@ == old(self)@,
            },
    {
        match self.require_initialised() {
            Err(e) => {
                return Err(e);
            },
            Ok(_) => {},
        }
        let saved = match canonical_public_key(public_key) {
            Ok(saved) => saved,
            Err(e) => {
                return Err(e);
            },
        };
        let expected = self.meta("bootstrap_hash");
        let used = self.meta("bootstrap_used");
        match check_bootstrap(&expected, &used, code) {
            Err(e) => {
                return Err(e);
            },
            Ok(_) => {},
        }
        self.devices.insert(
            device_id,
            Device {
                user_id: "owner".to_owned(),
                public_key: saved.clone(),
                revoked: false,
                active: false,
                created_at: created_at.to_owned(),
            },
        );
        self.set_meta("bootstrap_used", "true");
        Ok((device_id.to_owned(), saved))
    }

    /// Enrols the first device under a fresh id: gives its id and its key.
    pub fn enrol(&mut self, code: &str, public_key: &str) -> (r: Result<(String, String), Failure>)
        ensures
            match old(self)@.enrolment(code@, public_key@) {
                Ok(key) => {
                    &&& r matches Ok((id, saved)) && is_ulid(id@) && saved@ == public_key@
                    &&& exists|created_at: Seq<char>|
                        is_ulid(created_at) && final(self)@ == #[trigger] old(self)@.with_device(
                            r->Ok_0.0@,
                            public_key@,
                            created_at,
                        )
                },
                Err(e) => r == Err::<(String, String), Failure>(e) && final(self)@ == old(self)@,
            },
    {
        let device_id = fresh_id();
        let created_at = fresh_id();
        self.enrol_as(code, public_key, device_id.as_str(), created_at.as_str())
    }

    /// The public key of a device that was not revoked.
    pub fn device_key(&self, device_id: &str) -> (r: Option<String>)
        ensures
            text_of(r) == self@.device_key(device_id@),
    {
        match self.devices.get(device_id) {
            Some(device) => if device.revoked {
                None
            } else {
                Some(device.public_key.clone())
            },
            None => None,
        }
    }

    /// The user of a device that was not revoked.
    pub fn device_user(&self, device_id: &str) -> (r: Option<String>)
        ensures
            text_of(r) == self@.device_user(device_id@),
    {
        match self.devices.get(device_id) {
            Some(device) => if device.revoked {
                None
            } else {
                Some(device.user_id.clone())
            },
            None => None,
        }
    }

    /// Makes a device the one active device of its user.
    pub fn set_active(&mut self, device_id: &str) -> (r: Result<(), Failure>)
        ensures
            final(self)@ == old(self)@.after(Operation::SetActive { device_id: device_id@ }),
            if old(self)@.knows(device_id@) {
                r == Ok::<(), Failure>(()) && final(self)@ == old(self)@.with_active(device_id@)
            } else {
                r == Err::<(), Failure>(Failure::UnknownDevice) && final(self)@ == old(self)@
            },
    {
        let user = match self.device_user(device_id) {
            Some(user) => user,
            None => {
                return Err(Failure::UnknownDevice);
            },
        };
        let ghost before = self.devices@;
        let ghost keys = self.devices.keys();
        let count = self.devices.len();
        let mut i: usize = 0;
        while i < count
            invariant
                i <= count == keys.len(),
                keys == self.devices.keys(),
                enumerates(keys, before),
                self.meta == old(self).meta,
                self.connectors == old(self).connectors,
                self.devices@.dom() == before.dom(),
                forall|j: int|
                    0 <= j < keys.len() ==> self.devices@[#[trigger] keys[j]].row() == if j < i
                        && before[keys[j]].user_id@ == user@ {
                        DeviceRow { active: keys[j] == device_id@, ..before[keys[j]].row() }
                    } else {
                        before[keys[j]].row()
                    },
            decreases count - i,
        {
            let id = self.devices.key_at(i).clone();
            let device = self.devices.value_at(i);
            assert(device.row() == before[keys[i as int]].row());
            if same_text(device.user_id.as_str(), user.as_str()) {
                let changed = device.in_state(
                    device.revoked,
                    same_text(id.as_str(), device_id),
                );
                self.devices.insert(id.as_str(), changed);
                assert(self.devices@.dom() =~= before.dom());
            }
            i += 1;
        }
        proof {
            let expected = old(self)@.with_active(device_id@).devices;
            assert forall|k: Seq<char>| #[trigger] expected.dom().contains(k) implies device_map(
                self.devices@,
            )[k] == expected[k] by {
                let j = choose|j: int| 0 <= j < keys.len() && keys[j] == k;
            }
            assert(device_map(self.devices@) =~= expected);
        }
        Ok(())
    }

    /// Revokes a device. False where there is none under this id, or where it
    /// was revoked before.
    pub fn revoke_device(&mut self, device_id: &str) -> (r: bool)
        ensures
            final(self)@ == old(self)@.after(Operation::Revoke { device_id: device_id@ }),
            r == old(self)@.knows(device_id@),
            final(self)@ == if r {
                old(self)@.with_revoked(device_id@)
            } else {
                old(self)@
            },
    {
        let revoked = match self.devices.get(device_id) {
            Some(device) => if device.revoked {
                return false;
            } else {
                device.in_state(true, false)
            },
            None => {
                return false;
            },
        };
        self.devices.insert(device_id, revoked);
        assert(self@ =~= old(self)@.with_revoked(device_id@));
        true
    }

    /// The devices in the order in which the table is walked.
    spec fn rows(&self) -> Seq<DeviceRow> {
        Seq::new(
            self.devices.keys().len(),
            |i: int| self.devices@[self.devices.keys()[i]].row(),
        )
    }

    /// The devices of the owner, the older ones first.
    pub fn devices(&self) -> (r: Vec<DeviceInfo>)
        ensures
            self@.lists(r@),
    {
        let order = self.owned_by_age();
        let ghost rows = self.rows();
        let ghost keys = self.devices.keys();
        let mut list: Vec<DeviceInfo> = Vec::new();
        let mut i: usize = 0;
        while i < order.len()
            invariant
                i <= order@.len(),
                keys == self.devices.keys(),
                rows == self.rows(),
                in_age_order(rows, order@, rows.len() as int),
                list@.len() == i,
                forall|j: int|
                    0 <= j < i ==> {
                        &&& (#[trigger] list@[j]).id@ == keys[order@[j] as int]
                        &&& list@[j].active == rows[order@[j] as int].active
                        &&& list@[j].revoked == rows[order@[j] as int].revoked
                    },
            decreases order@.len() - i,
        {
            let at: usize = order[i];
            let device = self.devices.value_at(at);
            list.push(
                DeviceInfo {
                    id: self.devices.key_at(at).clone(),
                    active: device.active,
                    revoked: device.revoked,
                },
            );
            i += 1;
        }
        let _count = self.devices.len();
        proof {
            let v = self@;
            assert(enumerates(keys, self.devices@));
            assert forall|j: int| 0 <= j < list@.len() implies v.devices.dom().contains((
            #[trigger] list@[j]).id@) && v.devices[list@[j].id@] == rows[order@[j] as int] by {
                assert(keys.contains(keys[order@[j] as int]));
            }
            assert forall|id: Seq<char>|
                (v.devices.dom().contains(id) && v.devices[id].user_id == "owner"@)
                    <==> #[trigger] named(list@, id) by {
                if v.devices.dom().contains(id) && v.devices[id].user_id == "owner"@ {
                    let k = choose|k: int| 0 <= k < keys.len() && keys[k] == id;
                    assert(rows[k].user_id == "owner"@);
                    assert(placed(order@, k));
                    let j = choose|j: int| 0 <= j < order@.len() && (#[trigger] order@[j]) == k;
                    assert(list@[j].id@ == id);
                }
            }
        }
        list
    }

    /// Where the owner's devices stand, the older ones first.
    fn owned_by_age(&self) -> (order: Vec<usize>)
        ensures
            in_age_order(self.rows(), order@, self.rows().len() as int),
    {
        let ghost rows = self.rows();
        let count = self.devices.len();
        let mut order: Vec<usize> = Vec::new();
        let mut i: usize = 0;
        while i < count
            invariant
                i <= count == rows.len(),
                rows == self.rows(),
                in_age_order(rows, order@, i as int),
            decreases count - i,
        {
            let device = self.devices.value_at(i);
            if same_text(device.user_id.as_str(), "owner") {
                let mut at: usize = 0;
                while at < order.len() && !text_before(
                    device.created_at.as_str(),
                    self.devices.value_at(order[at]).created_at.as_str(),
                )
                    invariant
                        i < count == rows.len(),
                        at <= order@.len(),
                        rows == self.rows(),
                        device.row() == rows[i as int],
                        in_age_order(rows, order@, i as int),
                        forall|j: int|
                            0 <= j < at ==> text_le(
                                rows[(#[trigger] order@[j]) as int].created_at,
                                rows[i as int].created_at,
                            ),
                    decreases order@.len() - at,
                {
                    at += 1;
                }
                proof {
                    lemma_age_insert(rows, order@, i as int, at as int);
                }
                order.insert(at, i);
            }
            i += 1;
        }
        order
    }
}

/// Whether `k` occurs in `order`.
spec fn placed(order: Seq<usize>, k: int) -> bool {
    exists|j: int| 0 <= j < order.len() && (#[trigger] order[j]) == k
}

/// Whether `order` holds where the owner's devices among the first `n` stand,
/// each once, the older ones first.
spec fn in_age_order(devices: Seq<DeviceRow>, order: Seq<usize>, n: int) -> bool {
    &&& n <= devices.len()
    &&& forall|j: int|
        0 <= j < order.len() ==> 0 <= (#[trigger] order[j]) < n && devices[order[j] as int].user_id
            == "owner"@
    &&& forall|k: int|
        0 <= k < n && devices[k].user_id == "owner"@ ==> #[trigger] placed(order, k)
    &&& forall|a: int, b: int|
        0 <= a < b < order.len() ==> (#[trigger] order[a]) != (#[trigger] order[b]) && text_le(
            devices[order[a] as int].created_at,
            devices[order[b] as int].created_at,
        )
}

/// Putting the next device behind those that are not younger, and before the
/// first that is, keeps the order.
proof fn lemma_age_insert(devices: Seq<DeviceRow>, order: Seq<usize>, i: int, at: int)
    requires
        0 <= i < devices.len() <= usize::MAX,
        0 <= at <= order.len(),
        in_age_order(devices, order, i),
        devices[i].user_id == "owner"@,
        forall|j: int|
            0 <= j < at ==> text_le(
                devices[(#[trigger] order[j]) as int].created_at,
                devices[i].created_at,
            ),
        at < order.len() ==> text_lt(
            devices[i].created_at,
            devices[order[at] as int].created_at,
        ),
    ensures
        in_age_order(devices, order.insert(at, i as usize), i + 1),
{
    let after = order.insert(at, i as usize);
    assert(after[at] == i);
    assert forall|k: int| 0 <= k < i + 1 && devices[k].user_id == "owner"@ implies #[trigger] placed(
        after,
        k,
    ) by {
        if k == i {
            assert(after[at] == k);
        } else {
            assert(placed(order, k));
            let j = choose|j: int| 0 <= j < order.len() && (#[trigger] order[j]) == k;
            if j < at {
                assert(after[j] == k);
            } else {
                assert(after[j + 1] == k);
            }
        }
    }
    assert forall|a: int, b: int| 0 <= a < b < after.len() implies (#[trigger] after[a]) != (
    #[trigger] after[b]) && text_le(
        devices[after[a] as int].created_at,
        devices[after[b] as int].created_at,
    ) by {
        let x = if a < at {
            a
        } else {
            a - 1
        };
        let y = if b < at {
            b
        } else {
            b - 1
        };
        if a == at {
            let mine = devices[i].created_at;
            let first = devices[order[at] as int].created_at;
            let other = devices[order[y] as int].created_at;
            lemma_text_lt_total(mine, first);
            if y != at {
                lemma_text_le_transitive(mine, first, other);
            }
        } else if b == at {
            assert(order[x] == after[a]);
        } else {
            assert(order[x] == after[a] && order[y] == after[b]);
        }
    }
}

/// Whether `code` is the bootstrap code behind the hash `expected`, and still
/// unused.
pub fn check_bootstrap(expected: &Option<String>, used: &Option<String>, code: &str) -> (r: Result<
    (),
    Failure,
>)
    ensures
        r == bootstrap_verdict(text_of(*expected), text_of(*used), code@),
        r == match text_of(*expected) {
            None => Err::<(), Failure>(Failure::BootstrapStateMissing),
            Some(hash) => if text_of(*used) == Some("true"@) || hash != secret_hash(code@) {
                Err::<(), Failure>(Failure::BootstrapRefused)
            } else {
                Ok::<(), Failure>(())
            },
        },
{
    match expected {
        None => Err(Failure::BootstrapStateMissing),
        Some(hash) => {
            let given = hash_secret(code);
            let same = constant_time_eq(hash.as_str().as_bytes(), given.as_str().as_bytes());
            proof {
                if same {
                    lemma_utf8_injective(hash@, given@);
                }
            }
            if is_text(used, "true") || !same {
                Err(Failure::BootstrapRefused)
            } else {
                Ok(())
            }
        },
    }
}

// ---- what an administrator does ----

/// A value to keep under a key.
pub struct MetaEntry {
    pub key: String,
    pub value: String,
}

/// What a store is given when it is initialised: the two secrets to print, and
/// in their place the entries and the connector to keep.
pub struct NewRelay {
    pub init: RelayInit,
    pub meta: Vec<MetaEntry>,
    pub connector: NewConnector,
    pub user: String,
    pub label: String,
}

impl NewRelay {
    /// Whether this is what a store is given that is initialised with these two
    /// secrets.
    pub open spec fn holds(self, code: Seq<char>, secret: Seq<char>) -> bool {
        &&& self.init.bootstrap_code@ == code
        &&& self.init.connector_secret@ == secret
        &&& self.meta@.len() == 2
        &&& self.meta@[0].key@ == "bootstrap_hash"@
        &&& self.meta@[0].value@ == secret_hash(code)
        &&& self.meta@[1].key@ == "bootstrap_used"@
        &&& self.meta@[1].value@ == "false"@
        &&& self.connector.token_hash@ == secret_hash(secret)
        &&& is_ulid(self.connector.created_at@)
        &&& self.user@ == "owner"@
        &&& self.label@ == "initial connector"@
    }
}

/// What a durable store keeps of a new connector, besides its user and label.
pub struct NewConnector {
    pub token_hash: String,
    pub created_at: String,
}

/// The record of a connector with this secret.
pub fn new_connector(secret: &str) -> (r: NewConnector)
    ensures
        r.token_hash@ == secret_hash(secret@),
        is_ulid(r.created_at@),
{
    NewConnector { token_hash: hash_secret(secret), created_at: fresh_id() }
}

/// What a store that lies at `place` is given when it is initialised with these
/// two secrets, unless it was before: `bootstrap_hash` is what it holds under
/// that key.
pub fn plan_init_with(
    bootstrap_hash: &Option<String>,
    place: &str,
    bootstrap_code: String,
    connector_secret: String,
) -> (r: Result<NewRelay, Failure>)
    ensures
        match bootstrap_hash {
            Some(_) => r matches Err(Failure::AlreadyInitialised(p)) && p@ == place@,
            None => r matches Ok(new) && new.holds(bootstrap_code@, connector_secret@),
        },
{
    if bootstrap_hash.is_some() {
        return Err(Failure::AlreadyInitialised(place.to_owned()));
    }
    let mut meta: Vec<MetaEntry> = Vec::new();
    meta.push(
        MetaEntry {
            key: "bootstrap_hash".to_owned(),
            value: hash_secret(bootstrap_code.as_str()),
        },
    );
    meta.push(MetaEntry { key: "bootstrap_used".to_owned(), value: "false".to_owned() });
    let connector = new_connector(connector_secret.as_str());
    Ok(
        NewRelay {
            init: RelayInit { bootstrap_code, connector_secret },
            meta,
            connector,
            user: "owner".to_owned(),
            label: "initial connector".to_owned(),
        },
    )
}

/// What a store that lies at `place` is given when it is initialised with fresh
/// secrets, unless it was before: `bootstrap_hash` is what it holds under that
/// key.
pub fn plan_init(bootstrap_hash: &Option<String>, place: &str) -> (r: Result<NewRelay, Failure>)
    ensures
        match r {
            Ok(new) => {
                &&& bootstrap_hash is None
                &&& is_secret("rcb_"@, new.init.bootstrap_code@)
                &&& is_secret("rcm_"@, new.init.connector_secret@)
                &&& new.holds(new.init.bootstrap_code@, new.init.connector_secret@)
            },
            Err(Failure::AlreadyInitialised(p)) => bootstrap_hash is Some && p@ == place@,
            Err(e) => bootstrap_hash is None && e is Randomness,
        },
{
    if bootstrap_hash.is_some() {
        return Err(Failure::AlreadyInitialised(place.to_owned()));
    }
    match fresh_secrets() {
        Ok((bootstrap_code, connector_secret)) => plan_init_with(
            bootstrap_hash,
            place,
            bootstrap_code,
            connector_secret,
        ),
        Err(e) => Err(e),
    }
}

/// A new bootstrap code and a new connector secret.
fn fresh_secrets() -> (r: Result<(String, String), Failure>)
    ensures
        match r {
            Ok((code, token)) => is_secret("rcb_"@, code@) && is_secret("rcm_"@, token@),
            Err(e) => e is Randomness,
        },
{
    match secret("rcb_") {
        Ok(code) => match secret("rcm_") {
            Ok(token) => Ok((code, token)),
            Err(e) => Err(e),
        },
        Err(e) => Err(e),
    }
}

/// Initialises a store with these two secrets. `place` names it where it was
/// initialised before.
pub fn init_with(
    store: &mut MemoryRelayStore,
    place: &str,
    bootstrap_code: String,
    connector_secret: String,
) -> (r: Result<RelayInit, Failure>)
    ensures
        final(store)@ == old(store)@.after(
            Operation::Initialise { code: bootstrap_code@, secret: connector_secret@ },
        ),
        if old(store)@.initialised() {
            &&& r matches Err(Failure::AlreadyInitialised(p)) && p@ == place@
            &&& final(store)@ == old(store)@
        } else {
            &&& r matches Ok(new) && new.bootstrap_code@ == bootstrap_code@
                && new.connector_secret@ == connector_secret@
            &&& final(store)@ == old(store)@.with_init(bootstrap_code@, connector_secret@)
        },
{
    let hash = store.meta("bootstrap_hash");
    let new = match plan_init_with(&hash, place, bootstrap_code, connector_secret) {
        Ok(new) => new,
        Err(e) => {
            return Err(e);
        },
    };
    store.set_meta(new.meta[0].key.as_str(), new.meta[0].value.as_str());
    store.set_meta(new.meta[1].key.as_str(), new.meta[1].value.as_str());
    store.insert_connector(
        new.init.connector_secret.as_str(),
        new.user.as_str(),
        new.label.as_str(),
    );
    Ok(new.init)
}

/// Initialises a store with fresh secrets. `place` names it where it was
/// initialised before.
pub fn init(store: &mut MemoryRelayStore, place: &str) -> (r: Result<RelayInit, Failure>)
    ensures
        match r {
            Ok(new) => {
                &&& !old(store)@.initialised()
                &&& is_secret("rcb_"@, new.bootstrap_code@)
                &&& is_secret("rcm_"@, new.connector_secret@)
                &&& final(store)@ == old(store)@.with_init(
                    new.bootstrap_code@,
                    new.connector_secret@,
                )
            },
            Err(Failure::AlreadyInitialised(p)) => old(store)@.initialised() && p@ == place@
                && final(store)@ == old(store)@,
            Err(e) => !old(store)@.initialised() && e is Randomness && final(store)@ == old(
                store,
            )@,
        },
{
    if store.meta("bootstrap_hash").is_some() {
        return Err(Failure::AlreadyInitialised(place.to_owned()));
    }
    match fresh_secrets() {
        Ok((bootstrap_code, connector_secret)) => init_with(
            store,
            place,
            bootstrap_code,
            connector_secret,
        ),
        Err(e) => Err(e),
    }
}

/// Adds a connector credential with this secret, and gives it back.
pub fn create_connector_with(store: &mut MemoryRelayStore, label: &str, token: String) -> (r: Result<
    String,
    Failure,
>)
    ensures
        final(store)@ == old(store)@.after(Operation::CreateConnector { secret: token@ }),
        if old(store)@.initialised() {
            &&& r == Ok::<String, Failure>(token)
            &&& final(store)@ == old(store)@.with_connector(token@, "owner"@)
        } else {
            &&& r == Err::<String, Failure>(Failure::NotInitialised)
            &&& final(store)@ == old(store)@
        },
{
    match store.require_initialised() {
        Err(e) => Err(e),
        Ok(_) => {
            store.insert_connector(token.as_str(), "owner", label);
            Ok(token)
        },
    }
}

/// Creates a connector credential. It stands for a caller, never for a node or
/// an administrator.
pub fn create_connector_secret(store: &mut MemoryRelayStore, label: &str) -> (r: Result<
    String,
    Failure,
>)
    ensures
        match r {
            Ok(token) => {
                &&& old(store)@.initialised()
                &&& is_secret("rcm_"@, token@)
                &&& final(store)@ == old(store)@.with_connector(token@, "owner"@)
            },
            Err(e) => {
                &&& final(store)@ == old(store)@
                &&& if old(store)@.initialised() {
                    e is Randomness
                } else {
                    e == Failure::NotInitialised
                }
            },
        },
{
    match store.require_initialised() {
        Err(e) => {
            return Err(e);
        },
        Ok(_) => {},
    }
    match secret("rcm_") {
        Ok(token) => create_connector_with(store, label, token),
        Err(e) => Err(e),
    }
}

/// What a revocation that changed `changed` records comes to.
pub fn revocation(changed: u64, device_id: &str) -> (r: Result<(), Failure>)
    ensures
        match r {
            Ok(_) => changed > 0,
            Err(Failure::NoSuchDevice(id)) => changed == 0 && id@ == device_id@,
            Err(_) => false,
        },
{
    if changed == 0 {
        Err(Failure::NoSuchDevice(device_id.to_owned()))
    } else {
        Ok(())
    }
}

/// Revokes a device of an initialised store.
pub fn revoke_device(store: &mut MemoryRelayStore, device_id: &str) -> (r: Result<(), Failure>)
    ensures
        match r {
            Ok(_) => {
                &&& old(store)@.initialised()
                &&& old(store)@.knows(device_id@)
                &&& final(store)@ == old(store)@.with_revoked(device_id@)
            },
            Err(e) => {
                &&& final(store)@ == old(store)@
                &&& if old(store)@.initialised() {
                    &&& !old(store)@.knows(device_id@)
                    &&& e matches Failure::NoSuchDevice(id) && id@ == device_id@
                } else {
                    e == Failure::NotInitialised
                }
            },
        },
{
    match store.require_initialised() {
        Err(e) => {
            return Err(e);
        },
        Ok(_) => {},
    }
    let changed: u64 = if store.revoke_device(device_id) {
        1
    } else {
        0
    };
    revocation(changed, device_id)
}

/// The devices of an initialised store, without their keys.
pub fn devices(store: &MemoryRelayStore) -> (r: Result<Vec<DeviceInfo>, Failure>)
    ensures
        match r {
            Ok(list) => store@.initialised() && store@.lists(list@),
            Err(e) => !store@.initialised() && e == Failure::NotInitialised,
        },
{
    match store.require_initialised() {
        Err(e) => Err(e),
        Ok(_) => Ok(store.devices()),
    }
}

// ---- enrolment in a durable store ----

/// A device's public key in the form in which a store keeps it.
pub fn canonical_public_key(public_key: &str) -> (r: Result<String, Failure>)
    ensures
        match public_key_of(public_key@) {
            Ok(_) => r matches Ok(s) && s@ == public_key@,
            Err(e) => r == Err::<String, Failure>(e),
        },
{
    match decode_public_key(public_key) {
        Ok(key) => {
            let saved = encode_public_key(key.as_slice());
            proof {
                public_key_text_round_trip(key@, public_key@);
            }
            Ok(saved)
        },
        Err(e) => Err(e),
    }
}

/// The device that an enrolment gives: `created_at` where it is to be added.
pub struct NewDevice {
    pub id: String,
    pub created_at: Option<String>,
}

/// The device to enrol with a key under which `existing`, if any, is enrolled
/// and not revoked.
pub fn new_device(existing: Option<String>) -> (r: NewDevice)
    ensures
        match existing {
            Some(id) => r.id@ == id@ && r.created_at is None,
            None => is_ulid(r.id@) && (r.created_at matches Some(t) && is_ulid(t@)),
        },
{
    match existing {
        Some(id) => NewDevice { id, created_at: None },
        None => NewDevice { id: fresh_id(), created_at: Some(fresh_id()) },
    }
}

/// What marking the bootstrap code as used comes to, where `modified` records
/// said that it was unused.
pub fn bootstrap_consumed(modified: u64) -> (r: Result<(), Failure>)
    ensures
        r == if modified == 1 {
            Ok::<(), Failure>(())
        } else {
            Err::<(), Failure>(Failure::BootstrapRefused)
        },
{
    if modified != 1 {
        Err(Failure::BootstrapRefused)
    } else {
        Ok(())
    }
}

/// Whether the SQLite store in `dir` was initialised, by what it holds as its
/// bootstrap hash.
pub fn require_initialised_directory(bootstrap_hash: &Option<String>, dir: &str) -> (r: Result<
    (),
    Failure,
>)
    ensures
        match r {
            Ok(_) => bootstrap_hash is Some,
            Err(Failure::DirectoryNotInitialised(d)) => bootstrap_hash is None && d@ == dir@,
            Err(_) => false,
        },
{
    if bootstrap_hash.is_some() {
        Ok(())
    } else {
        Err(Failure::DirectoryNotInitialised(dir.to_owned()))
    }
}

/// Whether the MongoDB store was initialised, by what it holds as its
/// bootstrap hash.
pub fn require_initialised_database(bootstrap_hash: &Option<String>) -> (r: Result<(), Failure>)
    ensures
        r == if bootstrap_hash is Some {
            Ok::<(), Failure>(())
        } else {
            Err::<(), Failure>(Failure::DatabaseNotInitialised)
        },
{
    if bootstrap_hash.is_some() {
        Ok(())
    } else {
        Err(Failure::DatabaseNotInitialised)
    }
}

// ---- laws ----

/// Whether `code` is the bootstrap code behind the hash `expected`, and still
/// unused; where it is not, why.
pub open spec fn bootstrap_verdict(
    expected: Option<Seq<char>>,
    used: Option<Seq<char>>,
    code: Seq<char>,
) -> Result<(), Failure> {
    match expected {
        None => Err(Failure::BootstrapStateMissing),
        Some(hash) => if used == Some("true"@) || hash != secret_hash(code) {
            Err(Failure::BootstrapRefused)
        } else {
            Ok(())
        },
    }
}

/// A bootstrap code holds for an initialised store exactly where it enrols a
/// device with a key that is one.
pub proof fn the_code_that_holds_is_the_one_that_enrols(
    store: StoreView,
    code: Seq<char>,
    public_key: Seq<char>,
)
    requires
        store.initialised(),
        public_key_of(public_key) is Ok,
    ensures
        ({
            let verdict = bootstrap_verdict(
                store.meta_at("bootstrap_hash"@),
                store.meta_at("bootstrap_used"@),
                code,
            );
            &&& verdict is Ok <==> store.enrolment(code, public_key) is Ok
            &&& verdict is Err ==> verdict == Err::<(), Failure>(Failure::BootstrapRefused)
        }),
{
}

/// A code is taken where it has the hash that is kept and was not used, and in no
/// other case.
pub proof fn a_code_is_taken_by_its_hash(
    expected: Option<Seq<char>>,
    used: Option<Seq<char>>,
    code: Seq<char>,
)
    ensures
        bootstrap_verdict(expected, used, code) is Ok <==> expected == Some(secret_hash(code))
            && used != Some("true"@),
        bootstrap_verdict(expected, used, code) == Err::<(), Failure>(
            Failure::BootstrapStateMissing,
        ) <==> expected is None,
{
}

/// What a new relay is given makes it initialised: its entries, kept under their
/// keys, and its connector are what initialising a store with the two secrets
/// leaves in it.
pub proof fn what_a_new_relay_is_given_initialises_it(
    new: NewRelay,
    code: Seq<char>,
    secret: Seq<char>,
    store: StoreView,
)
    requires
        new.holds(code, secret),
    ensures
        new.meta@.len() == 2,
        store.with_meta(new.meta@[0].key@, new.meta@[0].value@).with_meta(
            new.meta@[1].key@,
            new.meta@[1].value@,
        ).meta == store.with_init(code, secret).meta,
        store.connectors.insert(
            new.connector.token_hash@,
            ConnectorRow { user_id: new.user@, revoked: false },
        ) == store.with_init(code, secret).connectors,
        new.init.bootstrap_code@ == code,
        new.init.connector_secret@ == secret,
{
}

} // verus!

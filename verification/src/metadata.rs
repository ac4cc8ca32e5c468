//! What a relay's store holds, as a value: who may call, which devices are
//! known, and what each operation makes of it.

use vstd::prelude::*;

#[allow(unused_imports)]
use crate::credentials::{public_key_of, secret_hash};
#[allow(unused_imports)]
use crate::failure::Failure;
#[allow(unused_imports)]
use crate::text::text_le;

verus! {

/// A relay's non-sensitive view of an enrolled device.
#[derive(Debug, Clone, PartialEq, Eq)]
pub struct DeviceInfo {
    pub id: String,
    pub active: bool,
    pub revoked: bool,
}

/// What the store knows of a device, besides its id.
pub struct DeviceRow {
    pub user_id: Seq<char>,
    pub public_key: Seq<char>,
    pub revoked: bool,
    pub active: bool,
    pub created_at: Seq<char>,
}

/// What the store knows of a connector, besides the hash of its secret.
pub struct ConnectorRow {
    pub user_id: Seq<char>,
    pub revoked: bool,
}

/// What a store holds.
#[verifier::ext_equal]
pub struct StoreView {
    pub meta: Map<Seq<char>, Seq<char>>,
    pub devices: Map<Seq<char>, DeviceRow>,
    pub connectors: Map<Seq<char>, ConnectorRow>,
}

impl StoreView {
    /// A store that holds nothing.
    pub open spec fn empty() -> StoreView {
        StoreView { meta: Map::empty(), devices: Map::empty(), connectors: Map::empty() }
    }

    /// The value under `key`.
    pub open spec fn meta_at(self, key: Seq<char>) -> Option<Seq<char>> {
        if self.meta.dom().contains(key) {
            Some(self.meta[key])
        } else {
            None
        }
    }

    /// Whether the store was initialised.
    pub open spec fn initialised(self) -> bool {
        self.meta_at("bootstrap_hash"@) is Some
    }

    /// Whether the bootstrap code was used.
    pub open spec fn bootstrap_used(self) -> bool {
        self.meta_at("bootstrap_used"@) == Some("true"@)
    }

    /// The user of the connector with this secret.
    pub open spec fn connector_user(self, secret: Seq<char>) -> Option<Seq<char>> {
        let hash = secret_hash(secret);
        if self.connectors.dom().contains(hash) && !self.connectors[hash].revoked {
            Some(self.connectors[hash].user_id)
        } else {
            None
        }
    }

    /// Whether `id` is a device that was not revoked.
    pub open spec fn knows(self, id: Seq<char>) -> bool {
        self.devices.dom().contains(id) && !self.devices[id].revoked
    }

    /// The public key of a device that was not revoked.
    pub open spec fn device_key(self, id: Seq<char>) -> Option<Seq<char>> {
        if self.knows(id) {
            Some(self.devices[id].public_key)
        } else {
            None
        }
    }

    /// The user of a device that was not revoked.
    pub open spec fn device_user(self, id: Seq<char>) -> Option<Seq<char>> {
        if self.knows(id) {
            Some(self.devices[id].user_id)
        } else {
            None
        }
    }

    /// The store with `value` under `key`.
    pub open spec fn with_meta(self, key: Seq<char>, value: Seq<char>) -> StoreView {
        StoreView { meta: self.meta.insert(key, value), ..self }
    }

    /// The store with a connector of `user` that has this secret.
    pub open spec fn with_connector(self, secret: Seq<char>, user: Seq<char>) -> StoreView {
        StoreView {
            connectors: self.connectors.insert(
                secret_hash(secret),
                ConnectorRow { user_id: user, revoked: false },
            ),
            ..self
        }
    }

    /// The store after it was initialised with these two secrets.
    pub open spec fn with_init(self, code: Seq<char>, secret: Seq<char>) -> StoreView {
        self.with_meta("bootstrap_hash"@, secret_hash(code)).with_meta(
            "bootstrap_used"@,
            "false"@,
        ).with_connector(secret, "owner"@)
    }

    /// What enrolling with this code and key gives: the key, or why not.
    pub open spec fn enrolment(self, code: Seq<char>, public_key: Seq<char>) -> Result<
        Seq<u8>,
        Failure,
    > {
        if !self.initialised() {
            Err(Failure::NotInitialised)
        } else {
            match public_key_of(public_key) {
                Err(e) => Err(e),
                Ok(key) => if self.bootstrap_used() || self.meta_at("bootstrap_hash"@) != Some(
                    secret_hash(code),
                ) {
                    Err(Failure::BootstrapRefused)
                } else {
                    Ok(key)
                },
            }
        }
    }

    /// The store with a new device of the owner, its bootstrap code used.
    pub open spec fn with_device(
        self,
        id: Seq<char>,
        public_key: Seq<char>,
        created_at: Seq<char>,
    ) -> StoreView {
        StoreView {
            devices: self.devices.insert(
                id,
                DeviceRow {
                    user_id: "owner"@,
                    public_key,
                    revoked: false,
                    active: false,
                    created_at,
                },
            ),
            ..self.with_meta("bootstrap_used"@, "true"@)
        }
    }

    /// The store with `id` the one active device of its user.
    pub open spec fn with_active(self, id: Seq<char>) -> StoreView {
        StoreView {
            devices: Map::new(
                |d: Seq<char>| self.devices.dom().contains(d),
                |d: Seq<char>|
                    if self.devices[d].user_id == self.devices[id].user_id {
                        DeviceRow { active: d == id, ..self.devices[d] }
                    } else {
                        self.devices[d]
                    },
            ),
            ..self
        }
    }

    /// The store with `id` revoked.
    pub open spec fn with_revoked(self, id: Seq<char>) -> StoreView {
        StoreView {
            devices: self.devices.insert(
                id,
                DeviceRow { revoked: true, active: false, ..self.devices[id] },
            ),
            ..self
        }
    }

    /// Whether `list` names the devices of the owner, each once, with its
    /// state, the older ones first.
    pub open spec fn lists(self, list: Seq<DeviceInfo>) -> bool {
        &&& forall|id: Seq<char>|
            (self.devices.dom().contains(id) && self.devices[id].user_id == "owner"@)
                <==> #[trigger] named(list, id)
        &&& forall|i: int, j: int|
            0 <= i < j < list.len() ==> (#[trigger] list[i]).id@ != (#[trigger] list[j]).id@
                && text_le(self.devices[list[i].id@].created_at, self.devices[list[j].id@].created_at)
        &&& forall|i: int|
            0 <= i < list.len() ==> (#[trigger] list[i]).active
                == self.devices[list[i].id@].active && list[i].revoked
                == self.devices[list[i].id@].revoked
    }
}

/// Whether `list` holds a device with this id.
pub open spec fn named(list: Seq<DeviceInfo>, id: Seq<char>) -> bool {
    exists|i: int| 0 <= i < list.len() && (#[trigger] list[i]).id@ == id
}

// ---- laws ----

/// Something done to a store.
pub enum Operation {
    Initialise { code: Seq<char>, secret: Seq<char> },
    CreateConnector { secret: Seq<char> },
    Enrol {
        code: Seq<char>,
        public_key: Seq<char>,
        device_id: Seq<char>,
        created_at: Seq<char>,
    },
    SetActive { device_id: Seq<char> },
    Revoke { device_id: Seq<char> },
}

impl StoreView {
    /// The store after an operation: unchanged where it was refused.
    pub open spec fn after(self, op: Operation) -> StoreView {
        match op {
            Operation::Initialise { code, secret } => if self.initialised() {
                self
            } else {
                self.with_init(code, secret)
            },
            Operation::CreateConnector { secret } => if self.initialised() {
                self.with_connector(secret, "owner"@)
            } else {
                self
            },
            Operation::Enrol { code, public_key, device_id, created_at } => match self.enrolment(
                code,
                public_key,
            ) {
                Ok(_) => self.with_device(device_id, public_key, created_at),
                Err(_) => self,
            },
            Operation::SetActive { device_id } => if self.knows(device_id) {
                self.with_active(device_id)
            } else {
                self
            },
            Operation::Revoke { device_id } => if self.knows(device_id) {
                self.with_revoked(device_id)
            } else {
                self
            },
        }
    }

    /// The store after these operations, one after the other.
    pub open spec fn after_all(self, ops: Seq<Operation>) -> StoreView
        decreases ops.len(),
    {
        if ops.len() == 0 {
            self
        } else {
            self.after_all(ops.drop_last()).after(ops.last())
        }
    }

    /// What holds of every store that started empty: before it is initialised
    /// it holds nothing, a device stands in it only once the bootstrap code
    /// was used, there is no second device, every device is the owner's, and
    /// no revoked device is active.
    pub open spec fn consistent(self) -> bool {
        &&& !self.initialised() ==> self == StoreView::empty()
        &&& forall|id: Seq<char>|
            #[trigger] self.devices.dom().contains(id) ==> {
                &&& self.bootstrap_used()
                &&& self.devices[id].user_id == "owner"@
                &&& self.devices[id].active ==> !self.devices[id].revoked
                &&& public_key_of(self.devices[id].public_key) is Ok
            }
        &&& forall|a: Seq<char>, b: Seq<char>|
            #[trigger] self.devices.dom().contains(a) && #[trigger] self.devices.dom().contains(b)
                ==> a == b
    }

    /// Whether no user has two active devices, and no revoked device is active.
    pub open spec fn one_active(self) -> bool {
        &&& forall|id: Seq<char>|
            #[trigger] self.devices.dom().contains(id) && self.devices[id].active
                ==> !self.devices[id].revoked
        &&& forall|a: Seq<char>, b: Seq<char>|
            #[trigger] self.devices.dom().contains(a) && #[trigger] self.devices.dom().contains(b)
                && self.devices[a].active && self.devices[b].active && self.devices[a].user_id
                == self.devices[b].user_id ==> a == b
    }
}

/// Nothing that is done to an empty store makes it inconsistent.
pub proof fn every_store_is_consistent(ops: Seq<Operation>)
    ensures
        StoreView::empty().after_all(ops).consistent(),
    decreases ops.len(),
{
    if ops.len() > 0 {
        every_store_is_consistent(ops.drop_last());
        operations_keep_consistency(StoreView::empty().after_all(ops.drop_last()), ops.last());
    }
}

/// Every operation keeps a consistent store consistent.
pub proof fn operations_keep_consistency(store: StoreView, op: Operation)
    requires
        store.consistent(),
    ensures
        store.after(op).consistent(),
{
    lemma_keys_differ();
    let after = store.after(op);
    match op {
        Operation::Enrol { code, public_key, device_id, created_at } => {
            if store.enrolment(code, public_key) is Ok {
                assert(forall|id: Seq<char>| !store.devices.dom().contains(id));
            }
        },
        _ => {},
    }
}

/// Every operation keeps it so that no user has two active devices and no
/// revoked device is active.
pub proof fn operations_keep_one_active_device(store: StoreView, op: Operation)
    requires
        store.one_active(),
    ensures
        store.after(op).one_active(),
{
}

/// A device that was made active is active, and no other device of its user.
pub proof fn the_active_device_is_the_last_one_set(store: StoreView, id: Seq<char>, other: Seq<char>)
    requires
        store.knows(id),
    ensures
        store.with_active(id).devices[id].active,
        store.devices.dom().contains(other) && store.devices[other].user_id
            == store.devices[id].user_id && other != id ==> !store.with_active(
            id,
        ).devices[other].active,
{
}

proof fn lemma_keys_differ()
    ensures
        "bootstrap_hash"@ != "bootstrap_used"@,
        "true"@ != "false"@,
{
    reveal_strlit("bootstrap_hash");
    reveal_strlit("bootstrap_used");
    reveal_strlit("true");
    reveal_strlit("false");
    assert("bootstrap_hash"@[10] == 'h');
    assert("bootstrap_used"@[10] == 'u');
    assert("true"@.len() != "false"@.len());
}

/// An initialised store stays so, with the same bootstrap code; and once that
/// code was used it stays used.
pub proof fn initialisation_is_final(store: StoreView, ops: Seq<Operation>)
    requires
        store.initialised(),
    ensures
        store.after_all(ops).meta_at("bootstrap_hash"@) == store.meta_at("bootstrap_hash"@),
        store.bootstrap_used() ==> store.after_all(ops).bootstrap_used(),
    decreases ops.len(),
{
    lemma_keys_differ();
    if ops.len() > 0 {
        initialisation_is_final(store, ops.drop_last());
    }
}

/// The bootstrap code enrols one device. Whatever is done after an enrolment,
/// with whatever code and key, there is no second one.
pub proof fn enrolment_is_one_time(
    store: StoreView,
    code: Seq<char>,
    public_key: Seq<char>,
    device_id: Seq<char>,
    created_at: Seq<char>,
    ops: Seq<Operation>,
    next_code: Seq<char>,
    next_key: Seq<char>,
)
    requires
        store.enrolment(code, public_key) is Ok,
    ensures
        store.with_device(device_id, public_key, created_at).after_all(ops).enrolment(
            next_code,
            next_key,
        ) == match public_key_of(next_key) {
            Ok(_) => Err::<Seq<u8>, Failure>(Failure::BootstrapRefused),
            Err(e) => Err::<Seq<u8>, Failure>(e),
        },
{
    lemma_keys_differ();
    let enrolled = store.with_device(device_id, public_key, created_at);
    initialisation_is_final(enrolled, ops);
}

/// The code that a relay was initialised with enrols a device under any key,
/// as long as nothing was enrolled with it; no code with another hash does.
pub proof fn the_bootstrap_code_enrols(
    store: StoreView,
    code: Seq<char>,
    secret: Seq<char>,
    given: Seq<char>,
    public_key: Seq<char>,
)
    requires
        !store.initialised(),
        public_key_of(public_key) is Ok,
    ensures
        store.with_init(code, secret).enrolment(given, public_key) == if secret_hash(given)
            == secret_hash(code) {
            public_key_of(public_key)
        } else {
            Err::<Seq<u8>, Failure>(Failure::BootstrapRefused)
        },
{
    lemma_keys_differ();
}

/// An enrolled device is known under its key and its user, and not active
/// before it connects.
pub proof fn an_enrolled_device_is_known(
    store: StoreView,
    id: Seq<char>,
    public_key: Seq<char>,
    created_at: Seq<char>,
)
    ensures
        store.with_device(id, public_key, created_at).device_key(id) == Some(public_key),
        store.with_device(id, public_key, created_at).device_user(id) == Some("owner"@),
        !store.with_device(id, public_key, created_at).devices[id].active,
{
}

/// A revoked device stays revoked, whatever is done to the store: it has no
/// key and no user any more.
pub proof fn revocation_is_final(store: StoreView, id: Seq<char>, ops: Seq<Operation>)
    requires
        store.consistent(),
        store.devices.dom().contains(id),
        store.devices[id].revoked,
    ensures
        store.after_all(ops).devices.dom().contains(id),
        store.after_all(ops).devices[id].revoked,
        store.after_all(ops).device_key(id) is None,
        store.after_all(ops).device_user(id) is None,
    decreases ops.len(),
{
    lemma_keys_differ();
    if ops.len() > 0 {
        revocation_is_final(store, id, ops.drop_last());
        assert(store.bootstrap_used());
        assert(store.initialised());
        initialisation_is_final(store, ops.drop_last());
    }
}

/// A connector's secret leads to the owner as soon as it was created, and ever
/// after.
pub proof fn a_connector_secret_keeps_its_user(
    store: StoreView,
    secret: Seq<char>,
    ops: Seq<Operation>,
)
    ensures
        store.with_connector(secret, "owner"@).after_all(ops).connector_user(secret) == Some(
            "owner"@,
        ),
    decreases ops.len(),
{
    if ops.len() > 0 {
        a_connector_secret_keeps_its_user(store, secret, ops.drop_last());
    }
}

/// A new connector's secret says nothing of a secret with another hash.
pub proof fn connector_secrets_are_scoped(store: StoreView, secret: Seq<char>, other: Seq<char>)
    requires
        secret_hash(secret) != secret_hash(other),
    ensures
        store.with_connector(secret, "owner"@).connector_user(other) == store.connector_user(other),
{
}

/// A connector's secret stands for a caller and never for a node: unless its
/// hash is that of the bootstrap code, it enrols no device, whatever is done to
/// the store after it was created, and creating it changed no device.
pub proof fn a_connector_secret_enrols_no_device(
    store: StoreView,
    secret: Seq<char>,
    public_key: Seq<char>,
    ops: Seq<Operation>,
)
    requires
        store.initialised(),
        store.meta_at("bootstrap_hash"@) != Some(secret_hash(secret)),
    ensures
        store.with_connector(secret, "owner"@).after_all(ops).enrolment(secret, public_key) is Err,
        store.with_connector(secret, "owner"@).devices == store.devices,
{
    let created = store.with_connector(secret, "owner"@);
    assert(created.meta == store.meta);
    assert(created.initialised());
    initialisation_is_final(created, ops);
}

/// A store keeps hashes of secrets only: secrets with the same hashes leave
/// the same store behind.
pub proof fn a_store_holds_hashes_only(
    store: StoreView,
    code_a: Seq<char>,
    secret_a: Seq<char>,
    code_b: Seq<char>,
    secret_b: Seq<char>,
)
    requires
        secret_hash(code_a) == secret_hash(code_b),
        secret_hash(secret_a) == secret_hash(secret_b),
    ensures
        store.with_init(code_a, secret_a) == store.with_init(code_b, secret_b),
{
}

/// Making a device active changes which devices of its user are active, and
/// nothing else.
pub proof fn making_active_changes_nothing_else(store: StoreView, id: Seq<char>, d: Seq<char>)
    ensures
        store.with_active(id).meta == store.meta,
        store.with_active(id).connectors == store.connectors,
        store.with_active(id).devices.dom() == store.devices.dom(),
        store.devices.dom().contains(d) ==> {
            let before = store.devices[d];
            let after = store.with_active(id).devices[d];
            &&& after.user_id == before.user_id
            &&& after.public_key == before.public_key
            &&& after.revoked == before.revoked
            &&& after.created_at == before.created_at
            &&& before.user_id != store.devices[id].user_id ==> after.active == before.active
        },
{
    assert(store.with_active(id).devices.dom() =~= store.devices.dom());
}

/// Revoking a device takes it out of use and leaves every other device as it
/// was.
pub proof fn revoking_changes_nothing_else(store: StoreView, id: Seq<char>, d: Seq<char>)
    requires
        store.devices.dom().contains(id),
    ensures
        store.with_revoked(id).meta == store.meta,
        store.with_revoked(id).connectors == store.connectors,
        store.with_revoked(id).devices.dom() == store.devices.dom(),
        !store.with_revoked(id).knows(id),
        !store.with_revoked(id).devices[id].active,
        store.with_revoked(id).devices[id].user_id == store.devices[id].user_id,
        store.with_revoked(id).devices[id].public_key == store.devices[id].public_key,
        store.with_revoked(id).devices[id].created_at == store.devices[id].created_at,
        d != id && store.devices.dom().contains(d) ==> store.with_revoked(id).devices[d]
            == store.devices[d],
{
    assert(store.with_revoked(id).devices.dom() =~= store.devices.dom());
}

/// Enrolling a device uses the bootstrap code up and leaves every other device,
/// and every connector, as it was.
pub proof fn enrolling_changes_nothing_else(
    store: StoreView,
    id: Seq<char>,
    public_key: Seq<char>,
    created_at: Seq<char>,
    d: Seq<char>,
)
    ensures
        store.with_device(id, public_key, created_at).bootstrap_used(),
        store.with_device(id, public_key, created_at).meta_at("bootstrap_hash"@) == store.meta_at(
            "bootstrap_hash"@,
        ),
        store.with_device(id, public_key, created_at).connectors == store.connectors,
        store.with_device(id, public_key, created_at).knows(id),
        store.with_device(id, public_key, created_at).devices[id].created_at == created_at,
        d != id ==> (store.with_device(id, public_key, created_at).devices.dom().contains(d)
            <==> store.devices.dom().contains(d)),
        d != id && store.devices.dom().contains(d) ==> store.with_device(
            id,
            public_key,
            created_at,
        ).devices[d] == store.devices[d],
{
    lemma_keys_differ();
}

/// An operation on a device that is unknown or revoked changes nothing, nor does
/// a second initialisation or a connector of a relay that was not initialised.
pub proof fn what_is_refused_changes_nothing(
    store: StoreView,
    id: Seq<char>,
    code: Seq<char>,
    secret: Seq<char>,
    public_key: Seq<char>,
    created_at: Seq<char>,
)
    ensures
        store.device_key(id) is None ==> store.after(Operation::SetActive { device_id: id })
            == store && store.after(Operation::Revoke { device_id: id }) == store,
        store.meta_at("bootstrap_hash"@) is Some ==> store.after(
            Operation::Initialise { code, secret },
        ) == store,
        store.meta_at("bootstrap_hash"@) is None ==> store.after(
            Operation::CreateConnector { secret },
        ) == store,
        store.enrolment(code, public_key) is Err ==> store.after(
            Operation::Enrol { code, public_key, device_id: id, created_at },
        ) == store,
{
}

/// What is done is done: a device that is known becomes active, or is revoked,
/// and a relay that was not initialised becomes so, with a connector and a code
/// that was not used.
pub proof fn what_is_asked_for_is_done(
    store: StoreView,
    id: Seq<char>,
    code: Seq<char>,
    secret: Seq<char>,
)
    ensures
        store.device_key(id) is Some ==> store.after(
            Operation::SetActive { device_id: id },
        ).devices[id].active,
        store.device_key(id) is Some ==> store.after(
            Operation::Revoke { device_id: id },
        ).devices[id].revoked,
        store.initialised() ==> store.after(
            Operation::CreateConnector { secret },
        ).connector_user(secret) == Some("owner"@),
        !store.initialised() ==> {
            let after = store.after(Operation::Initialise { code, secret });
            &&& after.initialised()
            &&& !after.bootstrap_used()
            &&& after.meta_at("bootstrap_hash"@) == Some(secret_hash(code))
            &&& after.connector_user(secret) == Some("owner"@)
            &&& after.devices == store.devices
        },
{
    lemma_keys_differ();
}

/// An enrolment succeeds with the code that was set, once, under a key that is
/// one; in every other case it fails, and says which of these it was.
pub proof fn an_enrolment_needs_code_and_key(
    store: StoreView,
    code: Seq<char>,
    public_key: Seq<char>,
)
    ensures
        store.enrolment(code, public_key) is Ok <==> {
            &&& public_key_of(public_key) is Ok
            &&& store.meta_at("bootstrap_hash"@) == Some(secret_hash(code))
            &&& store.meta_at("bootstrap_used"@) != Some("true"@)
        },
        store.enrolment(code, public_key) matches Ok(key) ==> public_key_of(public_key) == Ok::<
            Seq<u8>,
            Failure,
        >(key),
        store.meta_at("bootstrap_hash"@) is None ==> store.enrolment(code, public_key) == Err::<
            Seq<u8>,
            Failure,
        >(Failure::NotInitialised),
        store.meta_at("bootstrap_hash"@) is Some && public_key_of(public_key) is Ok
            && store.enrolment(code, public_key) is Err ==> store.enrolment(code, public_key)
            == Err::<Seq<u8>, Failure>(Failure::BootstrapRefused),
{
}

/// A listing names every device of the owner, each at one place, as active and
/// as revoked as it is, and names no other; of two, the one that was enrolled
/// later does not come first.
pub proof fn a_listing_names_each_device_once(
    store: StoreView,
    list: Seq<DeviceInfo>,
    id: Seq<char>,
    i: int,
    j: int,
)
    requires
        store.lists(list),
        0 <= i < list.len(),
        0 <= j < list.len(),
    ensures
        store.devices.dom().contains(id) && store.devices[id].user_id == "owner"@ ==> exists|k: int|
            0 <= k < list.len() && (#[trigger] list[k]).id@ == id && list[k].active
                == store.devices[id].active && list[k].revoked == store.devices[id].revoked,
        store.devices.dom().contains(list[i].id@),
        store.devices[list[i].id@].user_id == "owner"@,
        list[i].id@ == list[j].id@ ==> i == j,
        i < j ==> text_le(
            store.devices[list[i].id@].created_at,
            store.devices[list[j].id@].created_at,
        ),
{
    assert(named(list, list[i].id@));
    if store.devices.dom().contains(id) && store.devices[id].user_id == "owner"@ {
        assert(named(list, id));
        let k = choose|k: int| 0 <= k < list.len() && (#[trigger] list[k]).id@ == id;
        assert(list[k].active == store.devices[id].active);
    }
}

/// A connector leads to its user unless it was revoked; no secret leads to a
/// user without one.
pub proof fn a_secret_leads_to_its_connector(store: StoreView, secret: Seq<char>, user: Seq<char>)
    ensures
        store.connector_user(secret) == Some(user) <==> {
            &&& store.connectors.dom().contains(secret_hash(secret))
            &&& store.connectors[secret_hash(secret)].user_id == user
            &&& !store.connectors[secret_hash(secret)].revoked
        },
        StoreView::empty().connector_user(secret) is None,
        store.with_connector(secret, user).connector_user(secret) == Some(user),
        store.with_connector(secret, user).devices == store.devices,
        store.with_connector(secret, user).meta == store.meta,
{
}

} // verus!

//! The relay between connectors and nodes: which node serves a user, which
//! requests wait for an answer, and what a connector is told.

use vstd::prelude::*;

use crate::credentials::fresh_id;
use crate::json::{error_note, rpc_error, Json};
use crate::store::MemoryRelayStore;
use crate::table::Table;
use crate::text::{is_text, same_text, strip_prefix};
use crate::wire::Wire;
#[allow(unused_imports)]
use crate::credentials::is_ulid;
#[allow(unused_imports)]
use crate::json::{note, payload_error, JsonView};
#[allow(unused_imports)]
use crate::metadata::StoreView;
#[allow(unused_imports)]
use crate::table::enumerates;
#[allow(unused_imports)]
use crate::text::text_of;
#[allow(unused_imports)]
use crate::wire::WireView;

verus! {

/// Where a relay listens unless it is told otherwise.
pub const DEFAULT_RELAY_ADDR: &'static str = "127.0.0.1:8788";

/// How long the relay waits for a node's answer, in seconds.
pub const REQUEST_TIMEOUT_SECONDS: u64 = 30;

// ---- which node serves a user ----

/// A connected node; `handle` is how messages reach it.
pub struct NodeConnection<H> {
    pub connection_id: String,
    pub device_id: String,
    pub handle: H,
}

impl<H> NodeConnection<H> {
    /// A connection of this device under a fresh id.
    pub fn new(device_id: &str, handle: H) -> (r: Self)
        ensures
            is_ulid(r.connection_id@),
            r.device_id@ == device_id@,
            r.handle == handle,
    {
        NodeConnection { connection_id: fresh_id(), device_id: device_id.to_owned(), handle }
    }
}

/// The nodes without the one of `user`, if that is the connection named;
/// otherwise unchanged.
pub open spec fn without_connection<H>(
    nodes: Map<Seq<char>, NodeConnection<H>>,
    user: Seq<char>,
    connection_id: Seq<char>,
) -> Map<Seq<char>, NodeConnection<H>> {
    if nodes.dom().contains(user) && nodes[user].connection_id@ == connection_id {
        nodes.remove(user)
    } else {
        nodes
    }
}

/// The connected nodes by their users: at most one each.
pub struct Nodes<H> {
    table: Table<NodeConnection<H>>,
}

impl<H> View for Nodes<H> {
    type V = Map<Seq<char>, NodeConnection<H>>;

    closed spec fn view(&self) -> Map<Seq<char>, NodeConnection<H>> {
        self.table@
    }
}

impl<H> Nodes<H> {
    /// No nodes.
    pub fn new() -> (r: Self)
        ensures
            r@ == Map::<Seq<char>, NodeConnection<H>>::empty(),
    {
        Nodes { table: Table::new() }
    }

    /// Makes `node` the one of `user`, and gives back the one it replaces.
    pub fn install_node(&mut self, user: &str, node: NodeConnection<H>) -> (r: Option<
        NodeConnection<H>,
    >)
        ensures
            final(self)@ == old(self)@.insert(user@, node),
            match r {
                Some(previous) => old(self)@.dom().contains(user@) && previous == old(
                    self,
                )@[user@],
                None => !old(self)@.dom().contains(user@),
            },
    {
        self.table.insert(user, node)
    }

    /// Forgets a connection of `user`, unless a newer one took its place.
    pub fn remove_node(&mut self, user: &str, connection_id: &str)
        ensures
            final(self)@ == without_connection(old(self)@, user@, connection_id@),
    {
        let current = match self.table.get(user) {
            Some(node) => same_text(node.connection_id.as_str(), connection_id),
            None => false,
        };
        if current {
            self.table.remove(user);
        }
    }

    /// The node of `user`.
    pub fn node_of(&self, user: &str) -> (r: Option<&NodeConnection<H>>)
        ensures
            match r {
                Some(node) => self@.dom().contains(user@) && *node == self@[user@],
                None => !self@.dom().contains(user@),
            },
    {
        self.table.get(user)
    }
}

/// When an old connection ends after a newer one took its place, the newer one
/// stays.
pub proof fn a_newer_connection_survives<H>(
    nodes: Map<Seq<char>, NodeConnection<H>>,
    user: Seq<char>,
    newer: NodeConnection<H>,
    old_id: Seq<char>,
)
    requires
        newer.connection_id@ != old_id,
    ensures
        without_connection(nodes.insert(user, newer), user, old_id)[user] == newer,
        without_connection(nodes.insert(user, newer), user, old_id).dom().contains(user),
{
}

/// When a user's connection ends, the user has none; the other users keep
/// theirs.
pub proof fn an_ended_connection_is_forgotten<H>(
    nodes: Map<Seq<char>, NodeConnection<H>>,
    user: Seq<char>,
    node: NodeConnection<H>,
    other: Seq<char>,
)
    ensures
        !without_connection(
            nodes.insert(user, node),
            user,
            node.connection_id@,
        ).dom().contains(user),
        other != user && nodes.dom().contains(other) ==> without_connection(
            nodes.insert(user, node),
            user,
            node.connection_id@,
        )[other] == nodes[other],
{
}

// ---- which requests wait ----

/// Requests that wait for a node's answer; `W` is what wakes the waiter.
pub struct Pending<W> {
    table: Table<W>,
}

impl<W> View for Pending<W> {
    type V = Map<Seq<char>, W>;

    closed spec fn view(&self) -> Map<Seq<char>, W> {
        self.table@
    }
}

impl<W> Pending<W> {
    /// The order in which the waiters are failed.
    pub closed spec fn order(&self) -> Seq<Seq<char>> {
        self.table.keys()
    }

    /// No waiting requests.
    pub fn new() -> (r: Self)
        ensures
            r@ == Map::<Seq<char>, W>::empty(),
    {
        Pending { table: Table::new() }
    }

    /// Adds a waiter under a fresh request id.
    pub fn register(&mut self, waiter: W) -> (request_id: String)
        ensures
            is_ulid(request_id@),
            final(self)@ == old(self)@.insert(request_id@, waiter),
    {
        let request_id = fresh_id();
        self.table.insert(request_id.as_str(), waiter);
        request_id
    }

    /// Takes the waiter of a request out.
    pub fn take(&mut self, request_id: &str) -> (r: Option<W>)
        ensures
            final(self)@ == old(self)@.remove(request_id@),
            match r {
                Some(waiter) => old(self)@.dom().contains(request_id@) && waiter == old(
                    self,
                )@[request_id@],
                None => !old(self)@.dom().contains(request_id@),
            },
    {
        self.table.remove(request_id)
    }

    /// Takes every waiter out, each once.
    pub fn fail_all(&mut self) -> (r: Vec<W>)
        ensures
            final(self)@ == Map::<Seq<char>, W>::empty(),
            r@ == waiters_in(old(self).order(), old(self)@),
            enumerates(old(self).order(), old(self)@),
            r@ == Seq::new(old(self).order().len(), |i: int| old(self)@[old(self).order()[i]]),
    {
        self.table.drain()
    }
}

/// The end of a connection, however it came about: it is forgotten, unless a
/// newer one took its place, and every request that waited on it is taken out,
/// each once, to be failed.
pub fn end_connection<H, W>(
    nodes: &mut Nodes<H>,
    pending: &mut Pending<W>,
    user: &str,
    connection_id: &str,
) -> (r: Vec<W>)
    ensures
        final(nodes)@ == without_connection(old(nodes)@, user@, connection_id@),
        final(pending)@ == Map::<Seq<char>, W>::empty(),
        r@ == waiters_in(old(pending).order(), old(pending)@),
        enumerates(old(pending).order(), old(pending)@),
        r@ == Seq::new(
            old(pending).order().len(),
            |i: int| old(pending)@[old(pending).order()[i]],
        ),
{
    nodes.remove_node(user, connection_id);
    pending.fail_all()
}

/// What waiters are told when a newer connection of their node took over.
pub fn replaced_note() -> (r: Json)
    ensures
        r@ == note("error"@, "replaced by a newer node connection"@),
{
    error_note("replaced by a newer node connection")
}

/// What waiters are told when their node is gone.
pub fn disconnected_note() -> (r: Json)
    ensures
        r@ == note("error"@, "node disconnected"@),
{
    error_note("node disconnected")
}

/// A request's waiter is woken once: after it was taken out, a second answer
/// under the same id finds none, and the other waiters are untouched.
pub proof fn a_request_is_answered_once<W>(
    pending: Map<Seq<char>, W>,
    request_id: Seq<char>,
    other: Seq<char>,
)
    ensures
        !pending.remove(request_id).dom().contains(request_id),
        other != request_id && pending.dom().contains(other) ==> pending.remove(
            request_id,
        ).dom().contains(other) && pending.remove(request_id)[other] == pending[other],
{
}

// ---- forwarding ----

/// Why a request did not get an answer.
#[derive(Debug, Clone, Copy, PartialEq, Eq, Structural)]
pub enum RelayError {
    NodeOffline,
    TimedOut,
}

impl RelayError {
    /// The text of [`RelayError::message`].
    pub open spec fn text(self) -> Seq<char> {
        match self {
            RelayError::NodeOffline =>
                "The RecurOS node for this account is offline. Start `ctx node start` on the paired device."@,
            RelayError::TimedOut => "The RecurOS node did not answer before the relay timeout."@,
        }
    }

    /// The error in words.
    pub fn message(&self) -> (r: String)
        ensures
            r@ == self.text(),
    {
        match self {
            RelayError::NodeOffline =>
                "The RecurOS node for this account is offline. Start `ctx node start` on the paired device.".to_owned(),
            RelayError::TimedOut =>
                "The RecurOS node did not answer before the relay timeout.".to_owned(),
        }
    }
}

/// Whether a request of `user` may go to a node whose device the store has
/// under `device_user`: a revoked device has none, and then the node counts as
/// offline.
pub fn check_route(device_user: &Option<String>, user: &str) -> (r: Result<(), RelayError>)
    ensures
        r is Ok <==> may_go(text_of(*device_user), user@),
        r == if text_of(*device_user) == Some(user@) {
            Ok::<(), RelayError>(())
        } else {
            Err::<(), RelayError>(RelayError::NodeOffline)
        },
{
    if is_text(device_user, user) {
        Ok(())
    } else {
        Err(RelayError::NodeOffline)
    }
}

/// The message that carries a request to a node.
pub fn request_message(request_id: &str, payload: Json) -> (r: Wire)
    ensures
        r@ == (WireView::Request { request_id: request_id@, payload: payload@ }),
{
    Wire::Request { request_id: request_id.to_owned(), payload }
}

/// The message that carries a node's answer to the relay.
pub fn response_message(request_id: &str, payload: Json) -> (r: Wire)
    ensures
        r@ == (WireView::Response { request_id: request_id@, payload: payload@ }),
{
    Wire::Response { request_id: request_id.to_owned(), payload }
}

/// What became of a request that was registered.
#[derive(Debug)]
pub enum Delivery {
    /// The message could not be written down.
    NotWritten,
    /// The connection did not take the message.
    NotSent,
    /// The node answered.
    Answered(Json),
    /// The waiter was dropped without an answer.
    Dropped,
    /// The node did not answer in time.
    TimedOut,
}

/// The outcome of a request. One that was not sent, or that nobody answered in
/// time, waits no longer.
pub fn conclude<W>(pending: &mut Pending<W>, request_id: &str, delivery: Delivery) -> (r: Result<
    Json,
    RelayError,
>)
    ensures
        r == concluded(delivery),
        final(pending)@ == still_waiting(old(pending)@, request_id@, delivery),
        r == match delivery {
            Delivery::Answered(answer) => Ok::<Json, RelayError>(answer),
            Delivery::TimedOut => Err::<Json, RelayError>(RelayError::TimedOut),
            _ => Err::<Json, RelayError>(RelayError::NodeOffline),
        },
        final(pending)@ == match delivery {
            Delivery::NotSent | Delivery::TimedOut => old(pending)@.remove(request_id@),
            _ => old(pending)@,
        },
{
    match delivery {
        Delivery::NotWritten => Err(RelayError::NodeOffline),
        Delivery::NotSent => {
            pending.take(request_id);
            Err(RelayError::NodeOffline)
        },
        Delivery::Answered(answer) => Ok(answer),
        Delivery::Dropped => Err(RelayError::NodeOffline),
        Delivery::TimedOut => {
            pending.take(request_id);
            Err(RelayError::TimedOut)
        },
    }
}

// ---- what a connector is told ----

/// An HTTP answer.
#[derive(Debug)]
pub struct Reply {
    pub status: u16,
    pub body: Json,
}

impl Reply {
    /// Whether the answer has this status and says this.
    pub open spec fn says(self, status: int, body: JsonView) -> bool {
        self.status == status && self.body@ == body
    }
}

/// Whether a byte may stand in a header that is read as text.
pub open spec fn is_visible(b: u8) -> bool {
    32 <= b < 127 || b == 9
}

/// Whether every byte of a header may be read as text.
pub open spec fn is_header_text(bytes: Seq<u8>) -> bool {
    forall|i: int| 0 <= i < bytes.len() ==> is_visible(#[trigger] bytes[i])
}

/// The text of a header's bytes.
pub open spec fn header_text(bytes: Seq<u8>) -> Seq<char> {
    Seq::new(bytes.len(), |i: int| bytes[i] as char)
}

/// The secret in an `Authorization` header: what follows `Bearer `, where it
/// is not empty.
pub open spec fn bearer(header: Option<Seq<u8>>) -> Option<Seq<char>> {
    match header {
        None => None,
        Some(bytes) => {
            let text = header_text(bytes);
            if is_header_text(bytes) && "Bearer "@.is_prefix_of(text) && text.len()
                > "Bearer "@.len() {
                Some(text.skip("Bearer "@.len() as int))
            } else {
                None
            }
        },
    }
}

/// What an optional byte string holds.
pub open spec fn bytes_of(header: Option<Vec<u8>>) -> Option<Seq<u8>> {
    match header {
        Some(bytes) => Some(bytes@),
        None => None,
    }
}

/// The secret in an `Authorization` header.
pub fn bearer_secret(header: &Option<Vec<u8>>) -> (r: Option<String>)
    ensures
        text_of(r) == bearer(bytes_of(*header)),
{
    let bytes = match header {
        Some(bytes) => bytes,
        None => {
            return None;
        },
    };
    let mut text = String::new();
    let mut i: usize = 0;
    while i < bytes.len()
        invariant
            i <= bytes@.len(),
            bytes_of(*header) == Some(bytes@),
            is_header_text(bytes@.take(i as int)),
            text@ == header_text(bytes@.take(i as int)),
        decreases bytes@.len() - i,
    {
        let b: u8 = bytes[i];
        if !((32 <= b && b < 127) || b == 9) {
            assert(!is_visible(bytes@[i as int]));
            return None;
        }
        text.push(b as char);
        proof {
            let next = bytes@.take(i + 1);
            assert(next.drop_last() =~= bytes@.take(i as int));
            assert(next.last() == b);
            assert forall|j: int| 0 <= j < next.len() implies is_visible(#[trigger] next[j]) by {
                if j < i {
                    assert(bytes@.take(i as int)[j] == next[j]);
                }
            }
            assert(text@ =~= header_text(next));
        }
        i += 1;
    }
    assert(bytes@.take(bytes@.len() as int) =~= bytes@);
    match strip_prefix(text.as_str(), "Bearer ") {
        Some(secret) => if secret.as_str().is_empty() {
            None
        } else {
            Some(secret)
        },
        None => None,
    }
}

/// The secret of a caller, or what one without a usable secret is told.
pub fn require_secret(secret: Option<String>, payload: &Json) -> (r: Result<String, Reply>)
    ensures
        match secret {
            Some(s) => r == Ok::<String, Reply>(s),
            None => r matches Err(reply) && reply.says(
                401,
                payload_error(payload@, -32001, "Missing or invalid connector credential."@),
            ),
        },
{
    match secret {
        Some(s) => Ok(s),
        None => Err(
            Reply {
                status: 401,
                body: rpc_error(payload, -32001, "Missing or invalid connector credential."),
            },
        ),
    }
}

/// The user of a caller, or what one whose secret stands for no user is told.
pub fn require_user(user: Option<String>, payload: &Json) -> (r: Result<String, Reply>)
    ensures
        match user {
            Some(u) => r == Ok::<String, Reply>(u),
            None => r matches Err(reply) && reply.says(
                401,
                payload_error(payload@, -32001, "Invalid or revoked connector credential."@),
            ),
        },
{
    match user {
        Some(u) => Ok(u),
        None => Err(
            Reply {
                status: 401,
                body: rpc_error(payload, -32001, "Invalid or revoked connector credential."),
            },
        ),
    }
}

/// What a caller is told of the outcome of its request.
pub fn reply(outcome: Result<Json, RelayError>, payload: &Json) -> (r: Reply)
    ensures
        r.status == status_of(outcome),
        match outcome {
            Ok(answer) => r.says(200, answer@),
            Err(error) => r.says(503, payload_error(payload@, -32002, error.text())),
        },
{
    match outcome {
        Ok(answer) => Reply { status: 200, body: answer },
        Err(error) => {
            let message = error.message();
            Reply { status: 503, body: rpc_error(payload, -32002, message.as_str()) }
        },
    }
}

/// What a caller with this secret meets: the user it speaks for, or what it is
/// told. It is let in where its secret stands for a user, that user has a
/// connected node, and the store still knows the node's device as that user's.
pub open spec fn lets_in<H>(
    store: StoreView,
    nodes: Map<Seq<char>, NodeConnection<H>>,
    secret: Option<Seq<char>>,
    user: Seq<char>,
) -> bool {
    &&& secret is Some
    &&& store.connector_user(secret->Some_0) == Some(user)
    &&& nodes.dom().contains(user)
    &&& store.device_user(nodes[user].device_id@) == Some(user)
}

/// Lets a caller in to the node of its user.
pub fn let_in<H>(
    store: &MemoryRelayStore,
    nodes: &Nodes<H>,
    secret: Option<String>,
    payload: &Json,
) -> (r: Result<String, Reply>)
    ensures
        match admission(store@, nodes@, text_of(secret)) {
            Ok(user) => r matches Ok(u) && u@ == user,
            Err((status, code, text)) => r matches Err(reply) && reply.says(
                status,
                payload_error(payload@, code, text),
            ),
        },
        match text_of(secret) {
            None => r matches Err(reply) && reply.says(
                401,
                payload_error(payload@, -32001, "Missing or invalid connector credential."@),
            ),
            Some(s) => match store@.connector_user(s) {
                None => r matches Err(reply) && reply.says(
                    401,
                    payload_error(payload@, -32001, "Invalid or revoked connector credential."@),
                ),
                Some(user) => if lets_in(store@, nodes@, text_of(secret), user) {
                    r matches Ok(u) && u@ == user
                } else {
                    r matches Err(reply) && reply.says(
                        503,
                        payload_error(payload@, -32002, RelayError::NodeOffline.text()),
                    )
                },
            },
        },
{
    let secret = match require_secret(secret, payload) {
        Ok(secret) => secret,
        Err(refusal) => {
            return Err(refusal);
        },
    };
    let user = match require_user(store.connector_user(secret.as_str()), payload) {
        Ok(user) => user,
        Err(refusal) => {
            return Err(refusal);
        },
    };
    let route = match nodes.node_of(user.as_str()) {
        Some(node) => check_route(&store.device_user(node.device_id.as_str()), user.as_str()),
        None => Err(RelayError::NodeOffline),
    };
    match route {
        Ok(_) => Ok(user),
        Err(error) => Err(reply(Err(error), payload)),
    }
}

/// A revocation takes effect at once: a caller whose user's node runs on the
/// revoked device is no longer let in, though the node is still connected.
pub proof fn revocation_takes_effect_at_once<H>(
    store: StoreView,
    nodes: Map<Seq<char>, NodeConnection<H>>,
    secret: Option<Seq<char>>,
    user: Seq<char>,
)
    requires
        lets_in(store, nodes, secret, user),
    ensures
        !lets_in(store.with_revoked(nodes[user].device_id@), nodes, secret, user),
{
}

/// Once a connection ended and no newer one took its place, its user's node is
/// offline: no caller is let in to it, so that each is told so at once.
pub proof fn an_ended_connection_is_offline<H>(
    store: StoreView,
    nodes: Map<Seq<char>, NodeConnection<H>>,
    secret: Option<Seq<char>>,
    user: Seq<char>,
    connection_id: Seq<char>,
)
    requires
        nodes.dom().contains(user) ==> nodes[user].connection_id@ == connection_id,
    ensures
        !lets_in(store, without_connection(nodes, user, connection_id), secret, user),
{
}

/// The waiters under these ids, in their order.
pub open spec fn waiters_in<W>(order: Seq<Seq<char>>, pending: Map<Seq<char>, W>) -> Seq<W> {
    Seq::new(order.len(), |i: int| pending[order[i]])
}

/// Where a connection ends, nobody is left waiting: every waiter is taken out to
/// be failed, and there are no more of them than there were requests.
pub proof fn nobody_is_left_waiting<W>(
    order: Seq<Seq<char>>,
    pending: Map<Seq<char>, W>,
    request_id: Seq<char>,
)
    requires
        enumerates(order, pending),
        pending.dom().contains(request_id),
    ensures
        waiters_in(order, pending).contains(pending[request_id]),
        waiters_in(order, pending).len() == pending.dom().len(),
{
    assert(order.contains(request_id));
    let i = choose|i: int| 0 <= i < order.len() && order[i] == request_id;
    assert(waiters_in(order, pending)[i] == pending[request_id]);
    order.unique_seq_to_set();
    assert(order.to_set() =~= pending.dom());
}

/// The end of a connection touches the connection of its user alone, and only
/// where it is still the one that is connected.
pub proof fn the_end_of_a_connection_touches_that_connection_alone<H>(
    nodes: Map<Seq<char>, NodeConnection<H>>,
    user: Seq<char>,
    connection_id: Seq<char>,
    other: Seq<char>,
)
    ensures
        other != user ==> (without_connection(nodes, user, connection_id).dom().contains(other)
            <==> nodes.dom().contains(other)),
        other != user && nodes.dom().contains(other) ==> without_connection(
            nodes,
            user,
            connection_id,
        )[other] == nodes[other],
        without_connection(nodes, user, connection_id).dom().contains(user) <==> (
        nodes.dom().contains(user) && nodes[user].connection_id@ != connection_id),
        without_connection(nodes, user, connection_id).dom().contains(user)
            ==> without_connection(nodes, user, connection_id)[user] == nodes[user],
{
}

/// Whether a request of `user` may go to a node of this device's user.
pub open spec fn may_go(device_user: Option<Seq<char>>, user: Seq<char>) -> bool {
    device_user == Some(user)
}

/// A request goes to a device of its own user alone; a device that the store
/// does not know, or no longer, takes none.
pub proof fn a_request_stays_with_its_user(device_user: Option<Seq<char>>, user: Seq<char>)
    ensures
        may_go(device_user, user) ==> device_user is Some && device_user->Some_0 == user,
        may_go(Some(user), user),
        !may_go(None, user),
{
}

/// The outcome of a request.
pub open spec fn concluded(delivery: Delivery) -> Result<Json, RelayError> {
    match delivery {
        Delivery::Answered(answer) => Ok(answer),
        Delivery::TimedOut => Err(RelayError::TimedOut),
        _ => Err(RelayError::NodeOffline),
    }
}

/// The requests that still wait after one came to this.
pub open spec fn still_waiting<W>(
    pending: Map<Seq<char>, W>,
    request_id: Seq<char>,
    delivery: Delivery,
) -> Map<Seq<char>, W> {
    match delivery {
        Delivery::NotSent | Delivery::TimedOut => pending.remove(request_id),
        _ => pending,
    }
}

/// A request succeeds where its node answered, with that answer, and only there.
/// It timed out where the node did not answer in time; in every other case the
/// node is offline.
pub proof fn an_answer_is_handed_on(delivery: Delivery, answer: Json)
    ensures
        concluded(delivery) == Ok::<Json, RelayError>(answer) <==> delivery == Delivery::Answered(
            answer,
        ),
        concluded(delivery) == Err::<Json, RelayError>(RelayError::TimedOut) <==> delivery
            is TimedOut,
        concluded(delivery) is Err && delivery !is TimedOut ==> concluded(delivery) == Err::<
            Json,
            RelayError,
        >(RelayError::NodeOffline),
{
}

/// A request that was not sent, or that timed out, waits no longer; no other
/// request stops waiting because of it.
pub proof fn only_that_request_stops_waiting<W>(
    pending: Map<Seq<char>, W>,
    request_id: Seq<char>,
    delivery: Delivery,
    other: Seq<char>,
)
    ensures
        delivery is NotSent || delivery is TimedOut ==> !still_waiting(
            pending,
            request_id,
            delivery,
        ).dom().contains(request_id),
        other != request_id ==> (still_waiting(pending, request_id, delivery).dom().contains(other)
            <==> pending.dom().contains(other)),
        other != request_id && pending.dom().contains(other) ==> still_waiting(
            pending,
            request_id,
            delivery,
        )[other] == pending[other],
        !(delivery is NotSent || delivery is TimedOut) ==> still_waiting(
            pending,
            request_id,
            delivery,
        ) == pending,
{
}

/// The status that a caller gets.
pub open spec fn status_of(outcome: Result<Json, RelayError>) -> int {
    if outcome is Ok {
        200
    } else {
        503
    }
}

/// A caller gets 200 with an answer and 503 without one.
pub proof fn the_status_tells_whether_there_is_an_answer(outcome: Result<Json, RelayError>)
    ensures
        status_of(outcome) == 200 <==> outcome is Ok,
        status_of(outcome) == 503 <==> outcome is Err,
{
}

/// What a caller with this secret meets: its user, or the status, the code and
/// the words of the refusal.
pub open spec fn admission<H>(
    store: StoreView,
    nodes: Map<Seq<char>, NodeConnection<H>>,
    secret: Option<Seq<char>>,
) -> Result<Seq<char>, (int, int, Seq<char>)> {
    match secret {
        None => Err((401, -32001, "Missing or invalid connector credential."@)),
        Some(s) => match store.connector_user(s) {
            None => Err((401, -32001, "Invalid or revoked connector credential."@)),
            Some(user) => if lets_in(store, nodes, secret, user) {
                Ok(user)
            } else {
                Err((503, -32002, RelayError::NodeOffline.text()))
            },
        },
    }
}

/// A caller is let in as the user that its secret stands for, where that user's
/// node is connected on a device that the store knows as that user's. One whose
/// secret stands for no user gets 401; one whose node cannot be reached, 503.
pub proof fn a_caller_is_let_in_as_its_own_user<H>(
    store: StoreView,
    nodes: Map<Seq<char>, NodeConnection<H>>,
    secret: Option<Seq<char>>,
    user: Seq<char>,
)
    ensures
        admission(store, nodes, secret) == Ok::<Seq<char>, (int, int, Seq<char>)>(user) <==> {
            &&& secret matches Some(s) && store.connector_user(s) == Some(user)
            &&& nodes.dom().contains(user)
            &&& store.device_user(nodes[user].device_id@) == Some(user)
        },
        admission(store, nodes, secret) matches Err((status, _, _)) ==> (status == 401
            || status == 503) && (status == 401 <==> (secret is None || store.connector_user(
            secret->Some_0,
        ) is None)),
        admission(store, nodes, secret) matches Err((status, code, _)) ==> (code == -32001
            <==> status == 401) && (code == -32002 <==> status == 503),
{
}

/// A header gives the secret that was written behind `Bearer `, unless there is
/// none or a byte of it may not be read as text; and it gives no other.
pub proof fn the_secret_is_what_follows_bearer(bytes: Seq<u8>, secret: Seq<char>)
    ensures
        bearer(None) is None,
        bearer(Some(bytes)) == Some(secret) <==> {
            &&& forall|i: int| 0 <= i < bytes.len() ==> is_visible(#[trigger] bytes[i])
            &&& header_text(bytes) == "Bearer "@ + secret
            &&& secret.len() > 0
        },
{
    let text = header_text(bytes);
    let n = "Bearer "@.len() as int;
    if bearer(Some(bytes)) == Some(secret) {
        assert("Bearer "@ =~= text.take(n));
        assert(text =~= "Bearer "@ + secret);
    }
    if text == "Bearer "@ + secret {
        assert(text.take(n) =~= "Bearer "@);
        assert(text.skip(n) =~= secret);
    }
}

/// A header is read byte by byte, and a byte may be read as text where it is
/// printable ASCII, the space, or a tab.
pub proof fn a_header_is_read_byte_by_byte(bytes: Seq<u8>, b: u8)
    ensures
        header_text(bytes).len() == bytes.len(),
        header_text(bytes.push(b)) == header_text(bytes).push(b as char),
        is_visible(b) <==> (b == 9 || (b >= 32 && b <= 126)),
{
    assert(header_text(bytes.push(b)) =~= header_text(bytes).push(b as char));
}

/// Nobody is let in but by a secret that stands for that very user, to a node of
/// that user on a device that the store knows as that user's; and whoever comes
/// so is let in.
pub proof fn nobody_is_let_in_as_another<H>(
    store: StoreView,
    nodes: Map<Seq<char>, NodeConnection<H>>,
    secret: Seq<char>,
    user: Seq<char>,
)
    ensures
        !lets_in(store, nodes, None, user),
        lets_in(store, nodes, Some(secret), user) ==> store.connector_user(secret) == Some(user),
        store.connector_user(secret) == Some(user) && nodes.dom().contains(user)
            && store.device_user(nodes[user].device_id@) == Some(user) ==> lets_in(
            store,
            nodes,
            Some(secret),
            user,
        ),
{
}

/// An answer says what it has as its status and as its body, and nothing else.
pub proof fn an_answer_says_what_it_has(reply: Reply, status: int, body: JsonView)
    ensures
        reply.says(reply.status as int, reply.body@),
        reply.says(status, body) ==> status == reply.status && body == reply.body@,
{
}

} // verus!

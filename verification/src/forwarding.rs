//! A caller's request on its way to the node of its user: the steps that the
//! relay takes, and which of them a request gets to.

use vstd::prelude::*;

use crate::json::Json;
use crate::relay::{check_route, request_message, Delivery, RelayError};
use crate::wire::Wire;
#[allow(unused_imports)]
use crate::json::JsonView;
#[allow(unused_imports)]
use crate::metadata::StoreView;
#[allow(unused_imports)]
use crate::relay::{lets_in, NodeConnection};
#[allow(unused_imports)]
use crate::text::text_of;
#[allow(unused_imports)]
use crate::wire::WireView;

verus! {

/// How far a request is.
#[derive(Debug)]
pub enum Forwarding {
    /// The relay is looking for the user's node.
    Finding { user: String, payload: Json },
    /// The store is looking for the user of the node's device.
    Checking { user: String, payload: Json },
    /// The request is being added to those that wait.
    Registering { payload: Json },
    /// The request is on its way to the node.
    Sending { request_id: String },
    Done,
}

/// How far a request is, as a value.
pub enum ForwardingView {
    Finding { user: Seq<char>, payload: JsonView },
    Checking { user: Seq<char>, payload: JsonView },
    Registering { payload: JsonView },
    Sending { request_id: Seq<char> },
    Done,
}

impl View for Forwarding {
    type V = ForwardingView;

    open spec fn view(&self) -> ForwardingView {
        match self {
            Forwarding::Finding { user, payload } => ForwardingView::Finding {
                user: user@,
                payload: payload@,
            },
            Forwarding::Checking { user, payload } => ForwardingView::Checking {
                user: user@,
                payload: payload@,
            },
            Forwarding::Registering { payload } => ForwardingView::Registering {
                payload: payload@,
            },
            Forwarding::Sending { request_id } => ForwardingView::Sending {
                request_id: request_id@,
            },
            Forwarding::Done => ForwardingView::Done,
        }
    }
}

/// What the relay waited for.
#[derive(Debug)]
pub enum Progress {
    /// The device of the user's node, if one is connected.
    Node(Option<String>),
    /// The user that the store has for the device.
    DeviceUser(Option<String>),
    /// The request waits under this id.
    Registered(String),
    /// What became of the message.
    Delivered(Delivery),
}

/// What the relay waited for, as a value.
pub enum ProgressView {
    Node(Option<Seq<char>>),
    DeviceUser(Option<Seq<char>>),
    Registered(Seq<char>),
    Delivered(Delivery),
}

impl View for Progress {
    type V = ProgressView;

    open spec fn view(&self) -> ProgressView {
        match self {
            Progress::Node(device_id) => ProgressView::Node(text_of(*device_id)),
            Progress::DeviceUser(user) => ProgressView::DeviceUser(text_of(*user)),
            Progress::Registered(request_id) => ProgressView::Registered(request_id@),
            Progress::Delivered(delivery) => ProgressView::Delivered(*delivery),
        }
    }
}

/// What the relay does next.
#[derive(Debug)]
pub enum Task {
    /// Look for the node of this user; what comes of it is `Node`.
    FindNode(String),
    /// Look for the user of this device; what comes of it is `DeviceUser`.
    FindDeviceUser(String),
    /// Add the request to those that wait on the node; what comes of it is
    /// `Registered`.
    Register,
    /// Send this to the node and wait; what comes of it is `Delivered`.
    Send(Wire),
    /// The end: [`crate::relay::conclude`] this request.
    Conclude { request_id: String, delivery: Delivery },
    /// The end: the request was turned down.
    Fail(RelayError),
}

/// What the relay does next, as a value.
pub enum TaskView {
    FindNode(Seq<char>),
    FindDeviceUser(Seq<char>),
    Register,
    Send(WireView),
    Conclude { request_id: Seq<char>, delivery: Delivery },
    Fail(RelayError),
}

impl View for Task {
    type V = TaskView;

    open spec fn view(&self) -> TaskView {
        match self {
            Task::FindNode(user) => TaskView::FindNode(user@),
            Task::FindDeviceUser(device_id) => TaskView::FindDeviceUser(device_id@),
            Task::Register => TaskView::Register,
            Task::Send(message) => TaskView::Send(message@),
            Task::Conclude { request_id, delivery } => TaskView::Conclude {
                request_id: request_id@,
                delivery: *delivery,
            },
            Task::Fail(error) => TaskView::Fail(*error),
        }
    }
}

/// Whether this is what a request waits for.
pub open spec fn awaits(state: ForwardingView, progress: ProgressView) -> bool {
    match (state, progress) {
        (ForwardingView::Finding { .. }, ProgressView::Node(_)) => true,
        (ForwardingView::Checking { .. }, ProgressView::DeviceUser(_)) => true,
        (ForwardingView::Registering { .. }, ProgressView::Registered(_)) => true,
        (ForwardingView::Sending { .. }, ProgressView::Delivered(_)) => true,
        _ => false,
    }
}

/// How far a request is next, and what the relay then does. A user without a
/// node is offline, and so is one whose node's device the store does not have
/// as that user's.
pub open spec fn next_task(state: ForwardingView, progress: ProgressView) -> (
    ForwardingView,
    TaskView,
) {
    match (state, progress) {
        (
            ForwardingView::Finding { user, payload },
            ProgressView::Node(Some(device_id)),
        ) => (ForwardingView::Checking { user, payload }, TaskView::FindDeviceUser(device_id)),
        (ForwardingView::Checking { user, payload }, ProgressView::DeviceUser(found)) => if found
            == Some(user) {
            (ForwardingView::Registering { payload }, TaskView::Register)
        } else {
            (ForwardingView::Done, TaskView::Fail(RelayError::NodeOffline))
        },
        (
            ForwardingView::Registering { payload },
            ProgressView::Registered(request_id),
        ) => (
            ForwardingView::Sending { request_id },
            TaskView::Send(WireView::Request { request_id, payload }),
        ),
        (ForwardingView::Sending { request_id }, ProgressView::Delivered(delivery)) => (
            ForwardingView::Done,
            TaskView::Conclude { request_id, delivery },
        ),
        _ => (ForwardingView::Done, TaskView::Fail(RelayError::NodeOffline)),
    }
}

/// Starts to forward a request of `user`.
pub fn start_forwarding(user: &str, payload: Json) -> (r: (Forwarding, Task))
    ensures
        r.0@ == (ForwardingView::Finding { user: user@, payload: payload@ }),
        r.1@ == TaskView::FindNode(user@),
{
    (
        Forwarding::Finding { user: user.to_owned(), payload },
        Task::FindNode(user.to_owned()),
    )
}

/// The next step of forwarding a request.
pub fn continue_forwarding(state: Forwarding, progress: Progress) -> (r: (Forwarding, Task))
    requires
        awaits(state@, progress@),
    ensures
        (r.0@, r.1@) == next_task(state@, progress@),
{
    match (state, progress) {
        (Forwarding::Finding { user, payload }, Progress::Node(Some(device_id))) => (
            Forwarding::Checking { user, payload },
            Task::FindDeviceUser(device_id),
        ),
        (Forwarding::Checking { user, payload }, Progress::DeviceUser(found)) => match check_route(
            &found,
            user.as_str(),
        ) {
            Ok(_) => (Forwarding::Registering { payload }, Task::Register),
            Err(error) => (Forwarding::Done, Task::Fail(error)),
        },
        (Forwarding::Registering { payload }, Progress::Registered(request_id)) => {
            let message = request_message(request_id.as_str(), payload);
            (Forwarding::Sending { request_id }, Task::Send(message))
        },
        (Forwarding::Sending { request_id }, Progress::Delivered(delivery)) => (
            Forwarding::Done,
            Task::Conclude { request_id, delivery },
        ),
        _ => (Forwarding::Done, Task::Fail(RelayError::NodeOffline)),
    }
}

// ---- laws ----

/// How far a request is after this progress.
pub open spec fn forwarded(state: ForwardingView, progress: Seq<ProgressView>) -> ForwardingView
    decreases progress.len(),
{
    if progress.len() == 0 {
        state
    } else {
        next_task(forwarded(state, progress.drop_last()), progress.last()).0
    }
}

/// A request that was turned down was neither added to those that wait nor
/// sent: it waits or is sent only after its user's node was found, and the
/// store had the node's device as that user's.
pub proof fn only_routed_requests_are_sent(
    user: Seq<char>,
    payload: JsonView,
    progress: Seq<ProgressView>,
    next: ProgressView,
)
    requires
        ({
            let state = forwarded(ForwardingView::Finding { user, payload }, progress);
            let task = next_task(state, next).1;
            awaits(state, next) && (task is Register || task is Send)
        }),
    ensures
        progress.push(next).len() >= 2,
        progress.push(next)[0] matches ProgressView::Node(Some(_)),
        progress.push(next)[1] == ProgressView::DeviceUser(Some(user)),
{
    lemma_where_a_request_is(user, payload, progress);
}

/// What came before each state of a request.
proof fn lemma_where_a_request_is(
    user: Seq<char>,
    payload: JsonView,
    progress: Seq<ProgressView>,
)
    ensures
        match forwarded(ForwardingView::Finding { user, payload }, progress) {
            ForwardingView::Finding { user: u, .. } => progress.len() == 0 && u == user,
            ForwardingView::Checking { user: u, .. } => progress.len() == 1 && u == user && (
            progress[0] matches ProgressView::Node(Some(_))),
            ForwardingView::Registering { .. } => progress.len() == 2 && (progress[0] matches
                ProgressView::Node(Some(_))) && progress[1] == ProgressView::DeviceUser(Some(user)),
            _ => progress.len() > 0,
        },
    decreases progress.len(),
{
    if progress.len() > 0 {
        lemma_where_a_request_is(user, payload, progress.drop_last());
    }
}

/// A request that was sent ends with what became of it, under the id it was
/// sent with.
pub proof fn a_sent_request_is_concluded(
    payload: JsonView,
    request_id: Seq<char>,
    delivery: Delivery,
)
    ensures
        ({
            let sent = next_task(
                ForwardingView::Registering { payload },
                ProgressView::Registered(request_id),
            );
            &&& sent.1 == TaskView::Send(WireView::Request { request_id, payload })
            &&& next_task(sent.0, ProgressView::Delivered(delivery)) == (
                ForwardingView::Done,
                TaskView::Conclude { request_id, delivery },
            )
        }),
{
}

/// A request gets as far as waiting exactly where its caller is let in, by the
/// connected nodes and by what the store has at that time.
pub proof fn forwarding_is_for_those_let_in<H>(
    store: StoreView,
    nodes: Map<Seq<char>, NodeConnection<H>>,
    secret: Seq<char>,
    user: Seq<char>,
    payload: JsonView,
)
    requires
        store.connector_user(secret) == Some(user),
    ensures
        ({
            let found = if nodes.dom().contains(user) {
                Some(nodes[user].device_id@)
            } else {
                None
            };
            let first = next_task(
                ForwardingView::Finding { user, payload },
                ProgressView::Node(found),
            );
            let then = next_task(
                first.0,
                ProgressView::DeviceUser(store.device_user(nodes[user].device_id@)),
            );
            &&& lets_in(store, nodes, Some(secret), user) <==> found is Some && then.1 is Register
            &&& !nodes.dom().contains(user) ==> first == (
                ForwardingView::Done,
                TaskView::Fail(RelayError::NodeOffline),
            )
        }),
{
}

/// A request goes the whole way where its user's node is found and its device is
/// that user's: the store is asked about the device that was found, and the node
/// is sent the payload of the caller under the id that the request waits under.
pub proof fn a_request_goes_the_whole_way(
    user: Seq<char>,
    payload: JsonView,
    device_id: Seq<char>,
    request_id: Seq<char>,
)
    ensures
        ({
            let found = next_task(
                ForwardingView::Finding { user, payload },
                ProgressView::Node(Some(device_id)),
            );
            let checked = next_task(found.0, ProgressView::DeviceUser(Some(user)));
            let sent = next_task(checked.0, ProgressView::Registered(request_id));
            &&& found.1 == TaskView::FindDeviceUser(device_id)
            &&& checked.1 == TaskView::Register
            &&& sent.1 == TaskView::Send(WireView::Request { request_id, payload })
        }),
{
}

/// A request is turned down where no node is connected, and where the node's
/// device is not that user's; what it is told then is that the node is offline.
pub proof fn a_request_without_a_node_is_turned_down(
    user: Seq<char>,
    payload: JsonView,
    found: Option<Seq<char>>,
)
    ensures
        next_task(ForwardingView::Finding { user, payload }, ProgressView::Node(found)).1 is Fail
            <==> found is None,
        next_task(ForwardingView::Checking { user, payload }, ProgressView::DeviceUser(found)).1
            is Fail <==> found != Some(user),
        forall|state: ForwardingView, progress: ProgressView|
            (#[trigger] next_task(state, progress)).1 matches TaskView::Fail(error) ==> error
                == RelayError::NodeOffline && next_task(state, progress).0 is Done,
{
}

/// A request, what it waits for and what is done next are read as they stand.
pub proof fn forwarding_is_read_as_it_stands(
    a: String,
    payload: Json,
    delivery: Delivery,
    message: Wire,
    error: RelayError,
)
    ensures
        (Forwarding::Finding { user: a, payload })@ == (ForwardingView::Finding {
            user: a@,
            payload: payload@,
        }),
        (Forwarding::Checking { user: a, payload })@ == (ForwardingView::Checking {
            user: a@,
            payload: payload@,
        }),
        (Forwarding::Registering { payload })@ == (ForwardingView::Registering {
            payload: payload@,
        }),
        (Forwarding::Sending { request_id: a })@ == (ForwardingView::Sending { request_id: a@ }),
        Forwarding::Done@ == ForwardingView::Done,
        Progress::Node(Some(a))@ == ProgressView::Node(Some(a@)),
        Progress::Node(None)@ == ProgressView::Node(None),
        Progress::DeviceUser(Some(a))@ == ProgressView::DeviceUser(Some(a@)),
        Progress::DeviceUser(None)@ == ProgressView::DeviceUser(None),
        Progress::Registered(a)@ == ProgressView::Registered(a@),
        Progress::Delivered(delivery)@ == ProgressView::Delivered(delivery),
        Task::FindNode(a)@ == TaskView::FindNode(a@),
        Task::FindDeviceUser(a)@ == TaskView::FindDeviceUser(a@),
        Task::Register@ == TaskView::Register,
        Task::Send(message)@ == TaskView::Send(message@),
        (Task::Conclude { request_id: a, delivery })@ == (TaskView::Conclude {
            request_id: a@,
            delivery,
        }),
        Task::Fail(error)@ == TaskView::Fail(error),
{
}

} // verus!

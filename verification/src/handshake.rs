//! How a node proves to its relay which device it is: it names the device,
//! the relay sets a challenge, the node signs it.

use vstd::prelude::*;

use crate::credentials::{decode_base64, encode_base64, random_bytes, verify_signature, DeviceKey};
use crate::failure::Failure;
use crate::text::same_text;
use crate::wire::Wire;
#[allow(unused_imports)]
use crate::credentials::{auth_message, base64_fault_of, base64url, base64url_bytes, base64url_round_trip,
    ed25519_public_key, ed25519_signature, signature_verdict};
#[allow(unused_imports)]
use crate::metadata::StoreView;
#[allow(unused_imports)]
use crate::text::text_of;
#[allow(unused_imports)]
use crate::wire::WireView;

verus! {

// ---- the relay's side ----

/// How far the relay got with a node that connects.
pub enum Phase {
    /// Waiting for the first message.
    First,
    /// The store is enrolling the device.
    Enrolling,
    /// The store is looking for the device's key.
    Looking { device_id: String },
    /// Waiting for the answer to a challenge.
    Challenged { device_id: String, public_key: String, nonce: Vec<u8> },
    /// The signature held; the store is looking for the device's user.
    Verified { device_id: String },
    /// The store is making the device the active one.
    Activating { device_id: String, user: String },
    /// The node is connected.
    Connected { device_id: String, user: String },
}

/// What a phase says.
pub enum PhaseView {
    First,
    Enrolling,
    Looking { device_id: Seq<char> },
    Challenged { device_id: Seq<char>, public_key: Seq<char>, nonce: Seq<u8> },
    Verified { device_id: Seq<char> },
    Activating { device_id: Seq<char>, user: Seq<char> },
    Connected { device_id: Seq<char>, user: Seq<char> },
}

impl View for Phase {
    type V = PhaseView;

    open spec fn view(&self) -> PhaseView {
        match self {
            Phase::First => PhaseView::First,
            Phase::Enrolling => PhaseView::Enrolling,
            Phase::Looking { device_id } => PhaseView::Looking { device_id: device_id@ },
            Phase::Challenged { device_id, public_key, nonce } => PhaseView::Challenged {
                device_id: device_id@,
                public_key: public_key@,
                nonce: nonce@,
            },
            Phase::Verified { device_id } => PhaseView::Verified { device_id: device_id@ },
            Phase::Activating { device_id, user } => PhaseView::Activating {
                device_id: device_id@,
                user: user@,
            },
            Phase::Connected { device_id, user } => PhaseView::Connected {
                device_id: device_id@,
                user: user@,
            },
        }
    }
}

/// What the relay waited for.
pub enum Event {
    /// A message of the node.
    Message(Wire),
    /// The store enrolled a device with this key.
    Enrolled { device_id: String, public_key: String },
    /// The key that the store has for the device.
    Key(Option<String>),
    /// The user that the store has for the device.
    User(Option<String>),
    /// The store made the device the active one.
    Activated,
}

/// What an event says.
pub enum EventView {
    Message(WireView),
    Enrolled { device_id: Seq<char>, public_key: Seq<char> },
    Key(Option<Seq<char>>),
    User(Option<Seq<char>>),
    Activated,
}

impl View for Event {
    type V = EventView;

    open spec fn view(&self) -> EventView {
        match self {
            Event::Message(message) => EventView::Message(message@),
            Event::Enrolled { device_id, public_key } => EventView::Enrolled {
                device_id: device_id@,
                public_key: public_key@,
            },
            Event::Key(key) => EventView::Key(text_of(*key)),
            Event::User(user) => EventView::User(text_of(*user)),
            Event::Activated => EventView::Activated,
        }
    }
}

/// What the relay does next. Each action but the last message leads to the
/// event that the next phase waits for.
pub enum Action {
    /// Enrol a device; its outcome is `Enrolled`.
    Enrol { bootstrap_code: String, public_key: String },
    /// Look the device's key up; its outcome is `Key`.
    FindKey { device_id: String },
    /// Look the device's user up; its outcome is `User`.
    FindUser { device_id: String },
    /// Make the device the active one; its outcome is `Activated`.
    SetActive { device_id: String },
    /// Send a message; then comes a message of the node, unless the node is
    /// connected.
    Send(Wire),
}

/// What an action says.
pub enum ActionView {
    Enrol { bootstrap_code: Seq<char>, public_key: Seq<char> },
    FindKey { device_id: Seq<char> },
    FindUser { device_id: Seq<char> },
    SetActive { device_id: Seq<char> },
    Send(WireView),
}

impl View for Action {
    type V = ActionView;

    open spec fn view(&self) -> ActionView {
        match self {
            Action::Enrol { bootstrap_code, public_key } => ActionView::Enrol {
                bootstrap_code: bootstrap_code@,
                public_key: public_key@,
            },
            Action::FindKey { device_id } => ActionView::FindKey { device_id: device_id@ },
            Action::FindUser { device_id } => ActionView::FindUser { device_id: device_id@ },
            Action::SetActive { device_id } => ActionView::SetActive { device_id: device_id@ },
            Action::Send(message) => ActionView::Send(message@),
        }
    }
}

/// Whether an event is of the kind that a phase waits for.
pub open spec fn expects(phase: PhaseView, event: EventView) -> bool {
    match phase {
        PhaseView::First => event is Message,
        PhaseView::Enrolling => event is Enrolled,
        PhaseView::Looking { .. } => event is Key,
        PhaseView::Challenged { .. } => event is Message,
        PhaseView::Verified { .. } => event is User,
        PhaseView::Activating { .. } => event is Activated,
        PhaseView::Connected { .. } => false,
    }
}

/// Whether the next step sets a challenge.
pub open spec fn sets_challenge(phase: PhaseView, event: EventView) -> bool {
    match (phase, event) {
        (PhaseView::Enrolling, EventView::Enrolled { .. }) => true,
        (PhaseView::Looking { .. }, EventView::Key(Some(_))) => true,
        _ => false,
    }
}

/// The challenge to a device: what is remembered of it, and its message.
pub open spec fn challenge(device_id: Seq<char>, public_key: Seq<char>, nonce: Seq<u8>) -> (
    PhaseView,
    ActionView,
) {
    (
        PhaseView::Challenged { device_id, public_key, nonce },
        ActionView::Send(WireView::Challenge { device_id, nonce: base64url(nonce) }),
    )
}

/// What the relay does on an event, and how far it is then; where it turns the
/// node away, why. `nonce` is what a challenge that is set now asks to sign.
pub open spec fn next(phase: PhaseView, event: EventView, nonce: Seq<u8>) -> Result<
    (PhaseView, ActionView),
    Failure,
> {
    match (phase, event) {
        (
            PhaseView::First,
            EventView::Message(WireView::Enroll { bootstrap_code, public_key }),
        ) => Ok((PhaseView::Enrolling, ActionView::Enrol { bootstrap_code, public_key })),
        (PhaseView::First, EventView::Message(WireView::Hello { device_id })) => Ok(
            (PhaseView::Looking { device_id }, ActionView::FindKey { device_id }),
        ),
        (PhaseView::Enrolling, EventView::Enrolled { device_id, public_key }) => Ok(
            challenge(device_id, public_key, nonce),
        ),
        (PhaseView::Looking { device_id }, EventView::Key(Some(public_key))) => Ok(
            challenge(device_id, public_key, nonce),
        ),
        (
            PhaseView::Challenged { device_id, public_key, nonce: asked },
            EventView::Message(WireView::Authenticate { signature }),
        ) => match signature_verdict(public_key, device_id, asked, signature) {
            Ok(_) => Ok((PhaseView::Verified { device_id }, ActionView::FindUser { device_id })),
            Err(e) => Err(e),
        },
        (PhaseView::Verified { device_id }, EventView::User(Some(user))) => Ok(
            (PhaseView::Activating { device_id, user }, ActionView::SetActive { device_id }),
        ),
        (PhaseView::Activating { device_id, user }, EventView::Activated) => Ok(
            (
                PhaseView::Connected { device_id, user },
                ActionView::Send(WireView::Ready { device_id }),
            ),
        ),
        (PhaseView::First, _) => Err(Failure::ExpectedHello),
        (PhaseView::Challenged { .. }, _) => Err(Failure::ExpectedAuthentication),
        _ => Err(Failure::UnknownDevice),
    }
}

/// What a step's outcome says.
pub open spec fn outcome(r: Result<(Phase, Action), Failure>) -> Result<
    (PhaseView, ActionView),
    Failure,
> {
    match r {
        Ok((phase, action)) => Ok((phase@, action@)),
        Err(e) => Err(e),
    }
}

fn set_challenge(device_id: String, public_key: String, nonce: Vec<u8>) -> (r: (Phase, Action))
    requires
        nonce@.len() <= 0x4000_0000,
    ensures
        (r.0@, r.1@) == challenge(device_id@, public_key@, nonce@),
{
    let message = Wire::Challenge {
        device_id: device_id.clone(),
        nonce: encode_base64(nonce.as_slice()),
    };
    (Phase::Challenged { device_id, public_key, nonce }, Action::Send(message))
}

/// The relay's next step, with this nonce for a challenge.
pub fn step_with(phase: Phase, event: Event, nonce: Vec<u8>) -> (r: Result<
    (Phase, Action),
    Failure,
>)
    requires
        expects(phase@, event@),
        nonce@.len() <= 0x4000_0000,
    ensures
        outcome(r) == next(phase@, event@, nonce@),
{
    match (phase, event) {
        (Phase::First, Event::Message(message)) => match message {
            Wire::Enroll { bootstrap_code, public_key } => Ok(
                (Phase::Enrolling, Action::Enrol { bootstrap_code, public_key }),
            ),
            Wire::Hello { device_id } => Ok(
                (Phase::Looking { device_id: device_id.clone() }, Action::FindKey { device_id }),
            ),
            _ => Err(Failure::ExpectedHello),
        },
        (Phase::Enrolling, Event::Enrolled { device_id, public_key }) => Ok(
            set_challenge(device_id, public_key, nonce),
        ),
        (Phase::Looking { device_id }, Event::Key(key)) => match key {
            Some(public_key) => Ok(set_challenge(device_id, public_key, nonce)),
            None => Err(Failure::UnknownDevice),
        },
        (
            Phase::Challenged { device_id, public_key, nonce: asked },
            Event::Message(message),
        ) => match message {
            Wire::Authenticate { signature } => match verify_signature(
                public_key.as_str(),
                device_id.as_str(),
                asked.as_slice(),
                signature.as_str(),
            ) {
                Ok(_) => Ok(
                    (
                        Phase::Verified { device_id: device_id.clone() },
                        Action::FindUser { device_id },
                    ),
                ),
                Err(e) => Err(e),
            },
            _ => Err(Failure::ExpectedAuthentication),
        },
        (Phase::Verified { device_id }, Event::User(user)) => match user {
            Some(user) => Ok(
                (
                    Phase::Activating { device_id: device_id.clone(), user },
                    Action::SetActive { device_id },
                ),
            ),
            None => Err(Failure::UnknownDevice),
        },
        (Phase::Activating { device_id, user }, Event::Activated) => Ok(
            (
                Phase::Connected { device_id: device_id.clone(), user },
                Action::Send(Wire::Ready { device_id }),
            ),
        ),
        _ => Err(Failure::UnknownDevice),
    }
}

/// The relay's next step. A challenge is set with 32 fresh random bytes; where
/// there are none to be had, the step fails for that.
pub fn step(phase: Phase, event: Event) -> (r: Result<(Phase, Action), Failure>)
    requires
        expects(phase@, event@),
    ensures
        if sets_challenge(phase@, event@) {
            ||| r is Err && r->Err_0 is Randomness
            ||| exists|nonce: Seq<u8>|
                nonce.len() == 32 && outcome(r) == #[trigger] next(phase@, event@, nonce)
        } else {
            outcome(r) == next(phase@, event@, seq![])
        },
{
    let draws = match (&phase, &event) {
        (Phase::Enrolling, Event::Enrolled { .. }) => true,
        (Phase::Looking { .. }, Event::Key(key)) => key.is_some(),
        _ => false,
    };
    let nonce = if draws {
        match random_bytes(32) {
            Ok(nonce) => nonce,
            Err(e) => {
                return Err(e);
            },
        }
    } else {
        Vec::new()
    };
    assert(!draws ==> nonce@ =~= seq![]);
    step_with(phase, event, nonce)
}

// ---- the node's side ----

/// The node's answer to the relay's first message, with the device that was
/// challenged. Where the relay's challenge is `n` for some device, the answer
/// is a signature that the node's own public key accepts for it.
pub fn answer_challenge(key: &DeviceKey, message: Wire) -> (r: Result<(String, Wire), Failure>)
    ensures
        match answered(key.seed(), message@) {
            Ok((device_id, answer)) => r matches Ok((challenged, sent)) && challenged@ == device_id
                && sent@ == answer,
            Err(e) => r == Err::<(String, Wire), Failure>(e),
        },
        match message@ {
            WireView::Challenge { device_id, nonce } => match base64url_bytes(nonce) {
                Some(asked) => r matches Ok((challenged, answer)) && challenged@ == device_id
                    && answer@ == (WireView::Authenticate {
                    signature: base64url(
                        ed25519_signature(key.seed(), auth_message(device_id, asked)),
                    ),
                }) && signature_verdict(
                    base64url(ed25519_public_key(key.seed())),
                    device_id,
                    asked,
                    answer@->signature,
                ) is Ok,
                None => r == Err::<(String, Wire), Failure>(
                    Failure::NotBase64(base64_fault_of(nonce)),
                ),
            },
            _ => r == Err::<(String, Wire), Failure>(Failure::NoChallenge),
        },
{
    match message {
        Wire::Challenge { device_id, nonce } => match decode_base64(nonce.as_str()) {
            Ok(asked) => {
                let signature = key.sign_challenge(device_id.as_str(), asked.as_slice());
                Ok((device_id, Wire::Authenticate { signature }))
            },
            Err(e) => Err(e),
        },
        _ => Err(Failure::NoChallenge),
    }
}

/// The device that the relay accepted, where its message says so and it is the
/// one that it challenged.
pub fn accepted_device(challenged: &str, message: Wire) -> (r: Result<String, Failure>)
    ensures
        match acceptance(challenged@, message@) {
            Ok(device_id) => r matches Ok(device) && device@ == device_id,
            Err(e) => r == Err::<String, Failure>(e),
        },
        match message@ {
            WireView::Ready { device_id } => if device_id == challenged@ {
                r matches Ok(device) && device@ == device_id
            } else {
                r == Err::<String, Failure>(Failure::ChangedDevice)
            },
            _ => r == Err::<String, Failure>(Failure::NotAccepted),
        },
{
    match message {
        Wire::Ready { device_id } => if same_text(device_id.as_str(), challenged) {
            Ok(device_id)
        } else {
            Err(Failure::ChangedDevice)
        },
        _ => Err(Failure::NotAccepted),
    }
}

/// Whether the device that the relay accepted is the one this node is paired
/// as.
pub fn check_device(accepted: &str, paired: &str) -> (r: Result<(), Failure>)
    ensures
        r == if accepted@ == paired@ {
            Ok::<(), Failure>(())
        } else {
            Err::<(), Failure>(Failure::OtherDevice)
        },
{
    if same_text(accepted, paired) {
        Ok(())
    } else {
        Err(Failure::OtherDevice)
    }
}

/// The message with which a node asks to be enrolled.
pub fn enrol_message(key: &DeviceKey, bootstrap_code: &str) -> (r: Wire)
    ensures
        r@ == (WireView::Enroll {
            bootstrap_code: bootstrap_code@,
            public_key: base64url(ed25519_public_key(key.seed())),
        }),
{
    Wire::Enroll { bootstrap_code: bootstrap_code.to_owned(), public_key: key.public_key() }
}

/// The message with which an enrolled node greets its relay.
pub fn hello_message(device_id: &str) -> (r: Wire)
    ensures
        r@ == (WireView::Hello { device_id: device_id@ }),
{
    Wire::Hello { device_id: device_id.to_owned() }
}

// ---- laws ----

/// How far the relay is after these events, each with the nonce that a
/// challenge set on it has; nothing where it turned the node away.
pub open spec fn run(phase: PhaseView, inputs: Seq<(EventView, Seq<u8>)>) -> Option<PhaseView>
    decreases inputs.len(),
{
    if inputs.len() == 0 {
        Some(phase)
    } else {
        match run(phase, inputs.drop_last()) {
            None => None,
            Some(before) => if !expects(before, inputs.last().0) {
                None
            } else {
                match next(before, inputs.last().0, inputs.last().1) {
                    Ok((after, _)) => Some(after),
                    Err(_) => None,
                }
            },
        }
    }
}

/// How many steps a phase is away from the first.
pub open spec fn depth(phase: PhaseView) -> nat {
    match phase {
        PhaseView::First => 0,
        PhaseView::Enrolling => 1,
        PhaseView::Looking { .. } => 1,
        PhaseView::Challenged { .. } => 2,
        PhaseView::Verified { .. } => 3,
        PhaseView::Activating { .. } => 4,
        PhaseView::Connected { .. } => 5,
    }
}

proof fn lemma_depth(inputs: Seq<(EventView, Seq<u8>)>)
    ensures
        run(PhaseView::First, inputs) matches Some(phase) ==> depth(phase) == inputs.len(),
    decreases inputs.len(),
{
    if inputs.len() > 0 {
        lemma_depth(inputs.drop_last());
    }
}

/// No node gets connected unless it answered a challenge: before it is, the
/// store gave a key for the device, the relay set a challenge, the node's
/// signature held under that key for that device and that challenge, and the
/// store still knew the device and its user.
pub proof fn only_authenticated_nodes_connect(
    inputs: Seq<(EventView, Seq<u8>)>,
    device: Seq<char>,
    owner: Seq<char>,
)
    requires
        run(PhaseView::First, inputs) == Some(
            PhaseView::Connected { device_id: device, user: owner },
        ),
    ensures
        inputs.len() == 5,
        exists|public_key: Seq<char>, signature: Seq<char>|
            {
                &&& #[trigger] signature_verdict(public_key, device, inputs[1].1, signature) is Ok
                &&& inputs[2].0 == EventView::Message(WireView::Authenticate { signature })
                &&& {
                    ||| inputs[1].0 == (EventView::Enrolled { device_id: device, public_key })
                    ||| {
                        &&& inputs[0].0 == EventView::Message(
                            WireView::Hello { device_id: device },
                        )
                        &&& inputs[1].0 == EventView::Key(Some(public_key))
                    }
                }
            },
        inputs[3].0 == EventView::User(Some(owner)),
        inputs[4].0 == EventView::Activated,
{
    lemma_depth(inputs);
    let i4 = inputs.drop_last();
    let i3 = i4.drop_last();
    let i2 = i3.drop_last();
    let i1 = i2.drop_last();
    lemma_depth(i4);
    lemma_depth(i3);
    lemma_depth(i2);
    lemma_depth(i1);
    assert(i1.drop_last() =~= seq![]);
    assert(run(PhaseView::First, i1.drop_last()) == Some(PhaseView::First));
    assert(i4.last() == inputs[3] && i3.last() == inputs[2] && i2.last() == inputs[1] && i1.last()
        == inputs[0]);
    let challenged = run(PhaseView::First, i2)->Some_0;
    let public_key = challenged->public_key;
    let signature = inputs[2].0->Message_0->signature;
    assert(signature_verdict(public_key, device, inputs[1].1, signature) is Ok);
}

/// A node whose device the store knows, and whose signature holds under the
/// key there, gets connected.
pub proof fn an_authenticated_node_connects(
    device: Seq<char>,
    public_key: Seq<char>,
    nonce: Seq<u8>,
    signature: Seq<char>,
    owner: Seq<char>,
)
    requires
        signature_verdict(public_key, device, nonce, signature) is Ok,
    ensures
        run(
            PhaseView::First,
            seq![
                (EventView::Message(WireView::Hello { device_id: device }), seq![]),
                (EventView::Key(Some(public_key)), nonce),
                (EventView::Message(WireView::Authenticate { signature }), seq![]),
                (EventView::User(Some(owner)), seq![]),
                (EventView::Activated, seq![]),
            ],
        ) == Some(PhaseView::Connected { device_id: device, user: owner }),
{
    let e0 = (EventView::Message(WireView::Hello { device_id: device }), Seq::<u8>::empty());
    let e1 = (EventView::Key(Some(public_key)), nonce);
    let e2 = (EventView::Message(WireView::Authenticate { signature }), Seq::<u8>::empty());
    let e3 = (EventView::User(Some(owner)), Seq::<u8>::empty());
    let e4 = (EventView::Activated, Seq::<u8>::empty());
    let i5 = seq![e0, e1, e2, e3, e4];
    assert(i5.drop_last() =~= seq![e0, e1, e2, e3]);
    assert(seq![e0, e1, e2, e3].drop_last() =~= seq![e0, e1, e2]);
    assert(seq![e0, e1, e2].drop_last() =~= seq![e0, e1]);
    assert(seq![e0, e1].drop_last() =~= seq![e0]);
    assert(seq![e0].drop_last() =~= seq![]);
    reveal_with_fuel(run, 6);
}

/// A device that the store does not know, or that it revoked, is turned away
/// before it is challenged.
pub proof fn a_revoked_device_is_not_challenged(store: StoreView, device: Seq<char>, nonce: Seq<u8>)
    requires
        !store.knows(device),
    ensures
        next(
            PhaseView::Looking { device_id: device },
            EventView::Key(store.device_key(device)),
            nonce,
        ) == Err::<(PhaseView, ActionView), Failure>(Failure::UnknownDevice),
{
}

/// A device that was revoked while it answered its challenge does not get
/// connected.
pub proof fn a_device_revoked_meanwhile_is_turned_away(
    store: StoreView,
    device: Seq<char>,
    nonce: Seq<u8>,
)
    requires
        !store.knows(device),
    ensures
        next(
            PhaseView::Verified { device_id: device },
            EventView::User(store.device_user(device)),
            nonce,
        ) == Err::<(PhaseView, ActionView), Failure>(Failure::UnknownDevice),
{
}

/// A challenge reads back as the nonce that it was set with, so that relay and
/// node speak of the same bytes.
pub proof fn a_challenge_carries_its_nonce(
    device: Seq<char>,
    public_key: Seq<char>,
    nonce: Seq<u8>,
)
    ensures
        challenge(device, public_key, nonce).1 matches ActionView::Send(
            WireView::Challenge { device_id, nonce: text },
        ) && device_id == device && base64url_bytes(text) == Some(nonce),
{
    base64url_round_trip(nonce);
}

/// A node that the store enrolled, and whose signature holds under the key that
/// it was enrolled with, gets connected.
pub proof fn an_enrolled_node_connects(
    bootstrap_code: Seq<char>,
    device: Seq<char>,
    public_key: Seq<char>,
    nonce: Seq<u8>,
    signature: Seq<char>,
    owner: Seq<char>,
)
    requires
        signature_verdict(public_key, device, nonce, signature) is Ok,
    ensures
        run(
            PhaseView::First,
            seq![
                (EventView::Message(WireView::Enroll { bootstrap_code, public_key }), seq![]),
                (EventView::Enrolled { device_id: device, public_key }, nonce),
                (EventView::Message(WireView::Authenticate { signature }), seq![]),
                (EventView::User(Some(owner)), seq![]),
                (EventView::Activated, seq![]),
            ],
        ) == Some(PhaseView::Connected { device_id: device, user: owner }),
{
    let e0 = (
        EventView::Message(WireView::Enroll { bootstrap_code, public_key }),
        Seq::<u8>::empty(),
    );
    let e1 = (EventView::Enrolled { device_id: device, public_key }, nonce);
    let e2 = (EventView::Message(WireView::Authenticate { signature }), Seq::<u8>::empty());
    let e3 = (EventView::User(Some(owner)), Seq::<u8>::empty());
    let e4 = (EventView::Activated, Seq::<u8>::empty());
    let i5 = seq![e0, e1, e2, e3, e4];
    assert(i5.drop_last() =~= seq![e0, e1, e2, e3]);
    assert(seq![e0, e1, e2, e3].drop_last() =~= seq![e0, e1, e2]);
    assert(seq![e0, e1, e2].drop_last() =~= seq![e0, e1]);
    assert(seq![e0, e1].drop_last() =~= seq![e0]);
    assert(seq![e0].drop_last() =~= seq![]);
    reveal_with_fuel(run, 6);
}

/// The relay goes on with a first message only where it is a greeting or asks to
/// be enrolled, and hands on what that says; and with an answer to a challenge
/// only where it is a signature that holds for the key, the device and the nonce
/// of the challenge, and then with that device.
pub proof fn the_relay_goes_on_with_what_it_asked_for(
    message: WireView,
    device: Seq<char>,
    public_key: Seq<char>,
    asked: Seq<u8>,
    nonce: Seq<u8>,
)
    ensures
        next(PhaseView::First, EventView::Message(message), nonce) is Ok <==> message is Hello
            || message is Enroll,
        next(PhaseView::First, EventView::Message(message), nonce) matches Err(e) ==> e
            == Failure::ExpectedHello,
        next(PhaseView::First, EventView::Message(message), nonce) matches Ok((_, action)) ==> (
        action == match message {
            WireView::Enroll { bootstrap_code, public_key: key } => ActionView::Enrol {
                bootstrap_code,
                public_key: key,
            },
            _ => ActionView::FindKey { device_id: message->Hello_device_id },
        }),
        ({
            let phase = PhaseView::Challenged { device_id: device, public_key, nonce: asked };
            let step = next(phase, EventView::Message(message), nonce);
            &&& step is Ok <==> (message matches WireView::Authenticate { signature }
                && signature_verdict(public_key, device, asked, signature) is Ok)
            &&& step matches Ok((after, action)) ==> after == (PhaseView::Verified {
                device_id: device,
            }) && action == (ActionView::FindUser { device_id: device })
            &&& message !is Authenticate ==> step == Err::<(PhaseView, ActionView), Failure>(
                Failure::ExpectedAuthentication,
            )
        }),
{
}

/// Each step is one further than the last, and each is about the device of the
/// last: the relay asks its store for, makes active and greets the device that it
/// challenged.
pub proof fn a_handshake_is_about_one_device(
    phase: PhaseView,
    event: EventView,
    nonce: Seq<u8>,
)
    requires
        expects(phase, event),
    ensures
        next(phase, event, nonce) matches Ok((after, action)) ==> {
            &&& depth(after) == depth(phase) + 1
            &&& device_in(phase) is Some ==> device_in(after) == device_in(phase)
            &&& action matches ActionView::FindKey { device_id } ==> device_in(after) == Some(
                device_id,
            )
            &&& action matches ActionView::FindUser { device_id } ==> device_in(after) == Some(
                device_id,
            )
            &&& action matches ActionView::SetActive { device_id } ==> device_in(after) == Some(
                device_id,
            )
            &&& action matches ActionView::Send(message) ==> (match message {
                WireView::Challenge { device_id, .. } => device_in(after) == Some(device_id),
                WireView::Ready { device_id } => device_in(after) == Some(device_id)
                    && after is Connected,
                _ => false,
            })
        },
{
}

/// The device that a handshake is about.
pub open spec fn device_in(phase: PhaseView) -> Option<Seq<char>> {
    match phase {
        PhaseView::First => None,
        PhaseView::Enrolling => None,
        PhaseView::Looking { device_id } => Some(device_id),
        PhaseView::Challenged { device_id, .. } => Some(device_id),
        PhaseView::Verified { device_id } => Some(device_id),
        PhaseView::Activating { device_id, .. } => Some(device_id),
        PhaseView::Connected { device_id, .. } => Some(device_id),
    }
}

/// A fresh nonce is drawn for every challenge that is sent, and for nothing else.
pub proof fn every_challenge_draws_a_nonce(phase: PhaseView, event: EventView, nonce: Seq<u8>)
    requires
        expects(phase, event),
    ensures
        sets_challenge(phase, event) <==> (next(phase, event, nonce) matches Ok(
            (_, ActionView::Send(WireView::Challenge { .. })),
        )),
        sets_challenge(phase, event) ==> (next(phase, event, nonce) matches Ok((after, _))
            && after is Challenged && after->Challenged_nonce == nonce),
        !sets_challenge(phase, event) ==> next(phase, event, nonce) == next(phase, event, seq![]),
{
}

/// The node's answer to the relay's first message, with the device that was
/// challenged; where it does not answer, why.
pub open spec fn answered(seed: Seq<u8>, message: WireView) -> Result<
    (Seq<char>, WireView),
    Failure,
> {
    match message {
        WireView::Challenge { device_id, nonce } => match base64url_bytes(nonce) {
            Some(asked) => Ok(
                (
                    device_id,
                    WireView::Authenticate {
                        signature: base64url(
                            ed25519_signature(seed, auth_message(device_id, asked)),
                        ),
                    },
                ),
            ),
            None => Err(Failure::NotBase64(base64_fault_of(nonce))),
        },
        _ => Err(Failure::NoChallenge),
    }
}

/// A node answers the challenge that a relay set: for that device it signs that
/// nonce with its key. It answers nothing else.
pub proof fn a_node_signs_what_it_was_asked(
    seed: Seq<u8>,
    device: Seq<char>,
    public_key: Seq<char>,
    nonce: Seq<u8>,
    message: WireView,
)
    ensures
        challenge(device, public_key, nonce).1 matches ActionView::Send(sent) && (answered(
            seed,
            sent,
        ) matches Ok((challenged, answer)) && challenged == device && (answer matches
            WireView::Authenticate { signature } && base64url_bytes(signature) == Some(
            ed25519_signature(seed, auth_message(device, nonce)),
        ))),
        answered(seed, message) is Ok ==> message is Challenge,
        message !is Challenge ==> answered(seed, message) == Err::<
            (Seq<char>, WireView),
            Failure,
        >(Failure::NoChallenge),
{
    base64url_round_trip(nonce);
    base64url_round_trip(ed25519_signature(seed, auth_message(device, nonce)));
}

/// The device that the relay accepted; where it did not accept the one that it
/// challenged, why.
pub open spec fn acceptance(challenged: Seq<char>, message: WireView) -> Result<
    Seq<char>,
    Failure,
> {
    match message {
        WireView::Ready { device_id } => if device_id == challenged {
            Ok(device_id)
        } else {
            Err(Failure::ChangedDevice)
        },
        _ => Err(Failure::NotAccepted),
    }
}

/// A node takes itself for accepted where the relay says so of the device that it
/// challenged, and in no other case.
pub proof fn only_the_challenged_device_is_accepted(
    challenged: Seq<char>,
    message: WireView,
    device: Seq<char>,
)
    ensures
        acceptance(challenged, message) == Ok::<Seq<char>, Failure>(device) <==> message
            == (WireView::Ready { device_id: device }) && device == challenged,
        acceptance(challenged, message) == Err::<Seq<char>, Failure>(Failure::NotAccepted)
            <==> message !is Ready,
{
}

/// Phases, events and actions are read as they stand.
pub proof fn a_handshake_is_read_as_it_stands(a: String, b: String, n: Vec<u8>, m: Wire)
    ensures
        Phase::First@ == PhaseView::First,
        Phase::Enrolling@ == PhaseView::Enrolling,
        (Phase::Looking { device_id: a })@ == (PhaseView::Looking { device_id: a@ }),
        (Phase::Challenged { device_id: a, public_key: b, nonce: n })@ == (PhaseView::Challenged {
            device_id: a@,
            public_key: b@,
            nonce: n@,
        }),
        (Phase::Verified { device_id: a })@ == (PhaseView::Verified { device_id: a@ }),
        (Phase::Activating { device_id: a, user: b })@ == (PhaseView::Activating {
            device_id: a@,
            user: b@,
        }),
        (Phase::Connected { device_id: a, user: b })@ == (PhaseView::Connected {
            device_id: a@,
            user: b@,
        }),
        Event::Message(m)@ == EventView::Message(m@),
        (Event::Enrolled { device_id: a, public_key: b })@ == (EventView::Enrolled {
            device_id: a@,
            public_key: b@,
        }),
        Event::Key(Some(a))@ == EventView::Key(Some(a@)),
        Event::Key(None)@ == EventView::Key(None),
        Event::User(Some(a))@ == EventView::User(Some(a@)),
        Event::User(None)@ == EventView::User(None),
        Event::Activated@ == EventView::Activated,
        (Action::Enrol { bootstrap_code: a, public_key: b })@ == (ActionView::Enrol {
            bootstrap_code: a@,
            public_key: b@,
        }),
        (Action::FindKey { device_id: a })@ == (ActionView::FindKey { device_id: a@ }),
        (Action::FindUser { device_id: a })@ == (ActionView::FindUser { device_id: a@ }),
        (Action::SetActive { device_id: a })@ == (ActionView::SetActive { device_id: a@ }),
        Action::Send(m)@ == ActionView::Send(m@),
{
}

} // verus!

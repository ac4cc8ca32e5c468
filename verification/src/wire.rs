//! The messages between a node and its relay, and the frames they come in.

use vstd::prelude::*;

use crate::failure::Failure;
use crate::json::Json;
#[allow(unused_imports)]
use crate::json::JsonView;

verus! {

/// A message.
#[derive(Debug)]
pub enum Wire {
    Enroll { bootstrap_code: String, public_key: String },
    Hello { device_id: String },
    Challenge { device_id: String, nonce: String },
    Authenticate { signature: String },
    Ready { device_id: String },
    Request { request_id: String, payload: Json },
    Response { request_id: String, payload: Json },
}

/// What a message says.
pub enum WireView {
    Enroll { bootstrap_code: Seq<char>, public_key: Seq<char> },
    Hello { device_id: Seq<char> },
    Challenge { device_id: Seq<char>, nonce: Seq<char> },
    Authenticate { signature: Seq<char> },
    Ready { device_id: Seq<char> },
    Request { request_id: Seq<char>, payload: JsonView },
    Response { request_id: Seq<char>, payload: JsonView },
}

impl View for Wire {
    type V = WireView;

    open spec fn view(&self) -> WireView {
        match self {
            Wire::Enroll { bootstrap_code, public_key } => WireView::Enroll {
                bootstrap_code: bootstrap_code@,
                public_key: public_key@,
            },
            Wire::Hello { device_id } => WireView::Hello { device_id: device_id@ },
            Wire::Challenge { device_id, nonce } => WireView::Challenge {
                device_id: device_id@,
                nonce: nonce@,
            },
            Wire::Authenticate { signature } => WireView::Authenticate { signature: signature@ },
            Wire::Ready { device_id } => WireView::Ready { device_id: device_id@ },
            Wire::Request { request_id, payload } => WireView::Request {
                request_id: request_id@,
                payload: payload@,
            },
            Wire::Response { request_id, payload } => WireView::Response {
                request_id: request_id@,
                payload: payload@,
            },
        }
    }
}

/// What a websocket gives when it is asked for the next frame.
#[derive(Debug)]
pub enum Frame {
    /// There is no next frame.
    Closed,
    Text(String),
    /// A frame that holds no text.
    Other,
    /// The next frame could not be read; what was reported.
    Failed(String),
}

/// The text of a frame that must hold a message.
pub fn message_text(frame: Frame) -> (r: Result<String, Failure>)
    ensures
        r == text_in(frame),
        match frame {
            Frame::Closed => r == Err::<String, Failure>(Failure::ConnectionClosed),
            Frame::Text(text) => r == Ok::<String, Failure>(text),
            Frame::Other => r == Err::<String, Failure>(Failure::ExpectedText),
            Frame::Failed(cause) => r == Err::<String, Failure>(Failure::Outside(cause)),
        },
{
    match frame {
        Frame::Closed => Err(Failure::ConnectionClosed),
        Frame::Text(text) => Ok(text),
        Frame::Other => Err(Failure::ExpectedText),
        Frame::Failed(cause) => Err(Failure::Outside(cause)),
    }
}

/// What to do with a frame of an established connection.
#[derive(Debug)]
pub enum Step {
    /// The connection is over.
    Stop,
    /// The frame is passed over.
    Skip,
    /// The text is a message to act on.
    Parse(String),
}

/// What the relay does with a frame of an established connection. The
/// connection is over where there is no next frame, and where the next frame
/// could not be read.
pub fn relay_step(frame: Frame) -> (r: Result<Step, Failure>)
    ensures
        r == relay_does(frame),
        r == match frame {
            Frame::Closed => Ok::<Step, Failure>(Step::Stop),
            Frame::Text(text) => Ok::<Step, Failure>(Step::Parse(text)),
            Frame::Other => Ok::<Step, Failure>(Step::Skip),
            Frame::Failed(cause) => Err::<Step, Failure>(Failure::Outside(cause)),
        },
{
    match frame {
        Frame::Closed => Ok(Step::Stop),
        Frame::Text(text) => Ok(Step::Parse(text)),
        Frame::Other => Ok(Step::Skip),
        Frame::Failed(cause) => Err(Failure::Outside(cause)),
    }
}

/// What a node does with a frame of an established connection: for it the end
/// of the connection is a failure.
pub fn node_step(frame: Frame) -> (r: Result<Step, Failure>)
    ensures
        r == node_does(frame),
        r == match frame {
            Frame::Closed => Err::<Step, Failure>(Failure::RelayClosed),
            Frame::Text(text) => Ok::<Step, Failure>(Step::Parse(text)),
            Frame::Other => Ok::<Step, Failure>(Step::Skip),
            Frame::Failed(cause) => Err::<Step, Failure>(Failure::Outside(cause)),
        },
{
    match frame {
        Frame::Closed => Err(Failure::RelayClosed),
        other => relay_step(other),
    }
}

/// The request in a message to a node: its id and its payload.
pub fn request_in(message: Wire) -> (r: Option<(String, Json)>)
    ensures
        r == asked_in(message),
        match message {
            Wire::Request { request_id, payload } => r == Some((request_id, payload)),
            _ => r is None,
        },
{
    match message {
        Wire::Request { request_id, payload } => Some((request_id, payload)),
        _ => None,
    }
}

/// The response in a message to the relay: its id and its payload.
pub fn response_in(message: Wire) -> (r: Option<(String, Json)>)
    ensures
        r == answered_in(message),
        match message {
            Wire::Response { request_id, payload } => r == Some((request_id, payload)),
            _ => r is None,
        },
{
    match message {
        Wire::Response { request_id, payload } => Some((request_id, payload)),
        _ => None,
    }
}

// ---- laws ----

/// The text of a frame that must hold a message, or why there is none.
pub open spec fn text_in(frame: Frame) -> Result<String, Failure> {
    match frame {
        Frame::Closed => Err(Failure::ConnectionClosed),
        Frame::Text(text) => Ok(text),
        Frame::Other => Err(Failure::ExpectedText),
        Frame::Failed(cause) => Err(Failure::Outside(cause)),
    }
}

/// What the relay does with a frame.
pub open spec fn relay_does(frame: Frame) -> Result<Step, Failure> {
    match frame {
        Frame::Closed => Ok(Step::Stop),
        Frame::Text(text) => Ok(Step::Parse(text)),
        Frame::Other => Ok(Step::Skip),
        Frame::Failed(cause) => Err(Failure::Outside(cause)),
    }
}

/// What a node does with a frame.
pub open spec fn node_does(frame: Frame) -> Result<Step, Failure> {
    match frame {
        Frame::Closed => Err(Failure::RelayClosed),
        Frame::Text(text) => Ok(Step::Parse(text)),
        Frame::Other => Ok(Step::Skip),
        Frame::Failed(cause) => Err(Failure::Outside(cause)),
    }
}

/// The request in a message.
pub open spec fn asked_in(message: Wire) -> Option<(String, Json)> {
    match message {
        Wire::Request { request_id, payload } => Some((request_id, payload)),
        _ => None,
    }
}

/// The response in a message.
pub open spec fn answered_in(message: Wire) -> Option<(String, Json)> {
    match message {
        Wire::Response { request_id, payload } => Some((request_id, payload)),
        _ => None,
    }
}

/// A text frame gives its text, to all who read frames, and no other frame gives
/// any. A frame that could not be read is a failure to all of them, with the
/// cause that was reported.
pub proof fn only_text_frames_give_text(frame: Frame, text: String)
    ensures
        text_in(frame) == Ok::<String, Failure>(text) <==> frame == Frame::Text(text),
        relay_does(frame) == Ok::<Step, Failure>(Step::Parse(text)) <==> frame == Frame::Text(text),
        node_does(frame) == Ok::<Step, Failure>(Step::Parse(text)) <==> frame == Frame::Text(text),
        text_in(frame) == Err::<String, Failure>(Failure::Outside(text)) <==> frame
            == Frame::Failed(text),
        relay_does(frame) == Err::<Step, Failure>(Failure::Outside(text)) <==> frame
            == Frame::Failed(text),
        node_does(frame) == Err::<Step, Failure>(Failure::Outside(text)) <==> frame
            == Frame::Failed(text),
{
}

/// The end of a connection ends the relay's work on it and fails the node, which
/// then connects again. Every other frame is the same to the two, and what holds
/// no text is passed over by both, but not where a message must come.
pub proof fn the_end_is_a_failure_to_the_node_alone(frame: Frame)
    ensures
        relay_does(frame) == Ok::<Step, Failure>(Step::Stop) <==> frame is Closed,
        node_does(frame) == Err::<Step, Failure>(Failure::RelayClosed) <==> frame is Closed,
        node_does(frame) != Ok::<Step, Failure>(Step::Stop),
        frame !is Closed ==> relay_does(frame) == node_does(frame),
        relay_does(frame) == Ok::<Step, Failure>(Step::Skip) <==> frame is Other,
        text_in(frame) == Err::<String, Failure>(Failure::ExpectedText) <==> frame is Other,
        text_in(frame) == Err::<String, Failure>(Failure::ConnectionClosed) <==> frame is Closed,
{
}

/// What is sent as a request is read as that request, and what is sent as a
/// response as that response; neither is read out of any other message.
pub proof fn what_is_sent_is_what_is_read(message: Wire, id: String, payload: Json)
    ensures
        asked_in(message) == Some((id, payload)) <==> message == (Wire::Request {
            request_id: id,
            payload,
        }),
        answered_in(message) == Some((id, payload)) <==> message == (Wire::Response {
            request_id: id,
            payload,
        }),
        asked_in(message) is None || answered_in(message) is None,
{
}

/// A message is read as it stands: its view is of the same kind and holds the
/// same texts.
pub proof fn messages_are_read_as_they_stand(a: String, b: String, payload: Json)
    ensures
        (Wire::Enroll { bootstrap_code: a, public_key: b })@ == (WireView::Enroll {
            bootstrap_code: a@,
            public_key: b@,
        }),
        (Wire::Hello { device_id: a })@ == (WireView::Hello { device_id: a@ }),
        (Wire::Challenge { device_id: a, nonce: b })@ == (WireView::Challenge {
            device_id: a@,
            nonce: b@,
        }),
        (Wire::Authenticate { signature: a })@ == (WireView::Authenticate { signature: a@ }),
        (Wire::Ready { device_id: a })@ == (WireView::Ready { device_id: a@ }),
        (Wire::Request { request_id: a, payload })@ == (WireView::Request {
            request_id: a@,
            payload: payload@,
        }),
        (Wire::Response { request_id: a, payload })@ == (WireView::Response {
            request_id: a@,
            payload: payload@,
        }),
{
}

} // verus!

//! What can go wrong between a node and its relay.

use vstd::prelude::*;
use vstd::string::StringExecFns;

use crate::text::push_decimal;
#[allow(unused_imports)]
use crate::text::{decimal, lemma_mentions, lemma_mentions_within, mentions};

verus! {

/// Why a text is not unpadded URL-safe base64.
#[derive(Debug, Clone, Copy, PartialEq, Eq, Structural)]
pub enum Base64Fault {
    /// The byte at this offset is no symbol.
    Byte { offset: usize, byte: u8 },
    /// No bytes have this many symbols.
    Length(usize),
    /// The last symbol, at this offset, has bits behind the last byte.
    LastSymbol { offset: usize, byte: u8 },
    /// There is padding.
    Padding,
}

impl Base64Fault {
    /// The text of [`Base64Fault::message`].
    pub open spec fn text(self) -> Seq<char> {
        match self {
            Base64Fault::Byte { offset, byte } => "Invalid symbol "@ + decimal(byte as nat)
                + ", offset "@ + decimal(offset as nat) + "."@,
            Base64Fault::Length(n) => "Invalid input length: "@ + decimal(n as nat),
            Base64Fault::LastSymbol { offset, byte } => "Invalid last symbol "@ + decimal(
                byte as nat,
            ) + ", offset "@ + decimal(offset as nat) + "."@,
            Base64Fault::Padding => "Invalid padding"@,
        }
    }

    /// The fault in words.
    pub fn message(&self) -> (r: String)
        ensures
            r@ == self.text(),
    {
        match *self {
            Base64Fault::Byte { offset, byte } => {
                let mut out = "Invalid symbol ".to_owned();
                push_decimal(&mut out, byte as u64);
                out.append(", offset ");
                push_decimal(&mut out, offset as u64);
                out.append(".");
                out
            },
            Base64Fault::Length(n) => {
                let mut out = "Invalid input length: ".to_owned();
                push_decimal(&mut out, n as u64);
                out
            },
            Base64Fault::LastSymbol { offset, byte } => {
                let mut out = "Invalid last symbol ".to_owned();
                push_decimal(&mut out, byte as u64);
                out.append(", offset ");
                push_decimal(&mut out, offset as u64);
                out.append(".");
                out
            },
            Base64Fault::Padding => "Invalid padding".to_owned(),
        }
    }
}

/// A request that a relay or a node turns down, and why.
#[derive(Debug)]
pub enum Failure {
    /// The store at this place already holds a bootstrap code.
    AlreadyInitialised(String),
    /// The store in memory holds no bootstrap code yet.
    NotInitialised,
    /// The SQLite store in this directory holds no bootstrap code yet.
    DirectoryNotInitialised(String),
    /// The MongoDB store holds no bootstrap code yet.
    DatabaseNotInitialised,
    /// The store holds a bootstrap hash but lost what belongs to it.
    BootstrapStateMissing,
    /// The bootstrap code is wrong, or it was used before.
    BootstrapRefused,
    /// The text is not unpadded URL-safe base64.
    NotBase64(Base64Fault),
    /// A public key that is not 32 bytes long.
    KeyLength,
    /// 32 bytes that are no Ed25519 public key.
    NotAKey,
    /// A signature that is not 64 bytes long.
    SignatureLength,
    /// A signature that the device's key did not make over this challenge.
    SignatureRefused,
    /// A device id that the store does not know, or knows as revoked.
    UnknownDevice,
    /// There is no active device to revoke under this id.
    NoSuchDevice(String),
    /// The operating system gave no random bytes.
    Randomness(String),
    /// A relay URL that is neither `http://` nor `https://`.
    RelayUrl,
    /// The node holds no pairing.
    NotPaired,
    /// A key file, by its path, that is not 32 bytes long.
    KeyFileLength(String),
    /// The other side closed the connection where a message was due.
    ConnectionClosed,
    /// A websocket frame that holds no text where a message was due.
    ExpectedText,
    /// A first message that neither greets nor enrols.
    ExpectedHello,
    /// A message other than the answer to the challenge.
    ExpectedAuthentication,
    /// A first message of the relay that is no challenge.
    NoChallenge,
    /// A message of the relay other than that it accepts the device.
    NotAccepted,
    /// The relay accepted another device than it challenged.
    ChangedDevice,
    /// The relay accepted another device than this node is paired as.
    OtherDevice,
    /// The relay closed the connection of a running node.
    RelayClosed,
    /// What the store, the disk or the connection reported.
    Outside(String),
}

impl Failure {
    /// The text of [`Failure::message`].
    pub open spec fn text(self) -> Seq<char> {
        match self {
            Failure::AlreadyInitialised(place) => place@
                + " is already initialised; create another connector secret with `ctx relay token create`"@,
            Failure::NotInitialised =>
                "relay is not initialised; initialise the in-memory store first"@,
            Failure::DirectoryNotInitialised(dir) =>
                "relay is not initialised; run `ctx relay init --data "@ + dir@ + "` first"@,
            Failure::DatabaseNotInitialised =>
                "relay is not initialised; run `ctx relay init` with this MongoDB URL first"@,
            Failure::BootstrapStateMissing => "relay bootstrap state is missing"@,
            Failure::BootstrapRefused => "bootstrap code is invalid or has already been used"@,
            Failure::NotBase64(fault) => fault.text(),
            Failure::KeyLength => "device public key has the wrong length"@,
            Failure::NotAKey => "signature error: Cannot decompress Edwards point"@,
            Failure::SignatureLength => "signature error"@,
            Failure::SignatureRefused => "invalid device signature"@,
            Failure::UnknownDevice => "unknown or revoked device"@,
            Failure::NoSuchDevice(id) => "no active device named `"@ + id@ + "`"@,
            Failure::Randomness(cause) => "OS randomness failed: "@ + cause@,
            Failure::RelayUrl => "relay URL must start with http:// or https://"@,
            Failure::NotPaired =>
                "node is not paired yet; run `ctx node login --relay URL --code BOOTSTRAP_CODE`"@,
            Failure::KeyFileLength(path) => path@ + " has the wrong length"@,
            Failure::ConnectionClosed => "connection closed"@,
            Failure::ExpectedText => "expected text websocket frame"@,
            Failure::ExpectedHello => "expected node hello or enrolment"@,
            Failure::ExpectedAuthentication => "expected node authentication"@,
            Failure::NoChallenge => "relay did not send a challenge"@,
            Failure::NotAccepted => "relay did not accept the device"@,
            Failure::ChangedDevice => "relay changed the challenged device id"@,
            Failure::OtherDevice => "relay authenticated a different device"@,
            Failure::RelayClosed => "relay closed the connection"@,
            Failure::Outside(cause) => cause@,
        }
    }

    /// The failure in words.
    pub fn message(&self) -> (r: String)
        ensures
            r@ == self.text(),
    {
        match self {
            Failure::AlreadyInitialised(place) => {
                let mut out = place.clone();
                out.append(
                    " is already initialised; create another connector secret with `ctx relay token create`",
                );
                out
            },
            Failure::NotInitialised =>
                "relay is not initialised; initialise the in-memory store first".to_owned(),
            Failure::DirectoryNotInitialised(dir) => {
                let mut out = "relay is not initialised; run `ctx relay init --data ".to_owned();
                out.append(dir.as_str());
                out.append("` first");
                out
            },
            Failure::DatabaseNotInitialised =>
                "relay is not initialised; run `ctx relay init` with this MongoDB URL first".to_owned(),
            Failure::BootstrapStateMissing => "relay bootstrap state is missing".to_owned(),
            Failure::BootstrapRefused =>
                "bootstrap code is invalid or has already been used".to_owned(),
            Failure::NotBase64(fault) => fault.message(),
            Failure::KeyLength => "device public key has the wrong length".to_owned(),
            Failure::NotAKey => "signature error: Cannot decompress Edwards point".to_owned(),
            Failure::SignatureLength => "signature error".to_owned(),
            Failure::SignatureRefused => "invalid device signature".to_owned(),
            Failure::UnknownDevice => "unknown or revoked device".to_owned(),
            Failure::NoSuchDevice(id) => {
                let mut out = "no active device named `".to_owned();
                out.append(id.as_str());
                out.append("`");
                out
            },
            Failure::Randomness(cause) => {
                let mut out = "OS randomness failed: ".to_owned();
                out.append(cause.as_str());
                out
            },
            Failure::RelayUrl => "relay URL must start with http:// or https://".to_owned(),
            Failure::NotPaired =>
                "node is not paired yet; run `ctx node login --relay URL --code BOOTSTRAP_CODE`".to_owned(),
            Failure::KeyFileLength(path) => {
                let mut out = path.clone();
                out.append(" has the wrong length");
                out
            },
            Failure::ConnectionClosed => "connection closed".to_owned(),
            Failure::ExpectedText => "expected text websocket frame".to_owned(),
            Failure::ExpectedHello => "expected node hello or enrolment".to_owned(),
            Failure::ExpectedAuthentication => "expected node authentication".to_owned(),
            Failure::NoChallenge => "relay did not send a challenge".to_owned(),
            Failure::NotAccepted => "relay did not accept the device".to_owned(),
            Failure::ChangedDevice => "relay changed the challenged device id".to_owned(),
            Failure::OtherDevice => "relay authenticated a different device".to_owned(),
            Failure::RelayClosed => "relay closed the connection".to_owned(),
            Failure::Outside(cause) => cause.clone(),
        }
    }
}

// ---- laws ----

/// A failure in words says which place, directory, device or file it is about,
/// and what was reported of it. What came from outside is told as it came, and a
/// fault in a text as what it is.
pub proof fn a_failure_says_what_it_is_about(s: String, fault: Base64Fault)
    ensures
        s@.is_prefix_of(Failure::AlreadyInitialised(s).text()),
        mentions(Failure::DirectoryNotInitialised(s).text(), s@),
        mentions(Failure::NoSuchDevice(s).text(), s@),
        s@.is_suffix_of(Failure::Randomness(s).text()),
        s@.is_prefix_of(Failure::KeyFileLength(s).text()),
        Failure::Outside(s).text() == s@,
        Failure::NotBase64(fault).text() == fault.text(),
{
    lemma_mentions("relay is not initialised; run `ctx relay init --data "@, s@, "` first"@);
    lemma_mentions("no active device named `"@, s@, "`"@);
    let n = s@.len() as int;
    assert(Failure::AlreadyInitialised(s).text().take(n) =~= s@);
    assert(Failure::KeyFileLength(s).text().take(n) =~= s@);
    let chance = Failure::Randomness(s).text();
    assert(chance.skip(chance.len() - n) =~= s@);
}

/// A fault in a text says which byte it is and where it stands, or how long the
/// text is.
pub proof fn a_fault_says_where_it_is(offset: usize, byte: u8)
    ensures
        mentions((Base64Fault::Byte { offset, byte }).text(), decimal(byte as nat)),
        mentions((Base64Fault::Byte { offset, byte }).text(), decimal(offset as nat)),
        mentions((Base64Fault::LastSymbol { offset, byte }).text(), decimal(byte as nat)),
        mentions((Base64Fault::LastSymbol { offset, byte }).text(), decimal(offset as nat)),
        decimal(offset as nat).is_suffix_of(Base64Fault::Length(offset).text()),
{
    lemma_fault_place("Invalid symbol "@, offset, byte);
    lemma_fault_place("Invalid last symbol "@, offset, byte);
    let text = Base64Fault::Length(offset).text();
    let number = decimal(offset as nat);
    assert(text.skip(text.len() - number.len()) =~= number);
}

proof fn lemma_fault_place(start: Seq<char>, offset: usize, byte: u8)
    ensures
        mentions(
            start + decimal(byte as nat) + ", offset "@ + decimal(offset as nat) + "."@,
            decimal(byte as nat),
        ),
        mentions(
            start + decimal(byte as nat) + ", offset "@ + decimal(offset as nat) + "."@,
            decimal(offset as nat),
        ),
{
    let p0 = start;
    let p1 = decimal(byte as nat);
    let p2 = ", offset "@;
    let p3 = decimal(offset as nat);
    let p4 = "."@;
    let s0 = p0;
    let s1 = s0 + p1;
    let s2 = s1 + p2;
    let s3 = s2 + p3;
    let s4 = s3 + p4;
    lemma_mentions(s0, p1, seq![]);
    lemma_mentions_within(seq![], s1, p2, p1);
    lemma_mentions_within(seq![], s2, p3, p1);
    lemma_mentions_within(seq![], s3, p4, p1);
    lemma_mentions(s2, p3, seq![]);
    lemma_mentions_within(seq![], s3, p4, p3);
}

} // verus!

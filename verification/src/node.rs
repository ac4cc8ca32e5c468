//! The local node: which relay it belongs to, under which device and branch,
//! and with which key.

use vstd::prelude::*;
use vstd::string::StringExecFns;

use crate::credentials::{random_bytes, DeviceKey};
use crate::failure::Failure;
use crate::handshake::accepted_device;
use crate::home::{join_path, CtxHome, FileRead};
use crate::text::{starts_with, strip_prefix, trim, trim_end_matches};
use crate::wire::Wire;
#[allow(unused_imports)]
use crate::home::path_in;
#[allow(unused_imports)]
use crate::text::{lemma_mentions, mentions, strip_trailing, text_of, trimmed};
#[allow(unused_imports)]
use crate::wire::WireView;

verus! {

/// How long a node waits before it connects again, in seconds.
pub const RETRY_SECONDS: u64 = 3;

/// A node's pairing.
#[derive(Debug)]
pub struct NodeConfig {
    pub relay_url: String,
    pub device_id: String,
    pub branch: String,
}

/// What a pairing says.
pub struct NodeConfigView {
    pub relay_url: Seq<char>,
    pub device_id: Seq<char>,
    pub branch: Seq<char>,
}

impl View for NodeConfig {
    type V = NodeConfigView;

    open spec fn view(&self) -> NodeConfigView {
        NodeConfigView {
            relay_url: self.relay_url@,
            device_id: self.device_id@,
            branch: self.branch@,
        }
    }
}

// ---- where it lies ----

/// Where a node keeps its own files.
pub fn node_dir(home: &CtxHome) -> (r: String)
    ensures
        r@ == path_in(home@, ".node"@),
{
    home.file(".node")
}

/// Where the pairing lies.
pub fn node_config_path(home: &CtxHome) -> (r: String)
    ensures
        r@ == path_in(path_in(home@, ".node"@), "relay.json"@),
{
    join_path(node_dir(home).as_str(), "relay.json")
}

/// Where the device's key lies.
pub fn key_path(home: &CtxHome) -> (r: String)
    ensures
        r@ == path_in(path_in(home@, ".node"@), "device.ed25519"@),
{
    join_path(node_dir(home).as_str(), "device.ed25519")
}

/// The text of the pairing, if there is one.
pub fn config_text(read: FileRead) -> (r: Result<Option<String>, Failure>)
    ensures
        match read {
            FileRead::Text(text) => r == Ok::<Option<String>, Failure>(Some(text)),
            FileRead::Missing => r == Ok::<Option<String>, Failure>(None),
            FileRead::Failed(cause) => r == Err::<Option<String>, Failure>(Failure::Outside(cause)),
        },
{
    match read {
        FileRead::Text(text) => Ok(Some(text)),
        FileRead::Missing => Ok(None),
        FileRead::Failed(cause) => Err(Failure::Outside(cause)),
    }
}

/// What may be told of a pairing: the relay, the device and the branch.
pub fn node_status(config: Option<NodeConfig>) -> (r: Option<(String, String, String)>)
    ensures
        match config {
            Some(c) => r == Some((c.relay_url, c.device_id, c.branch)),
            None => r is None,
        },
{
    match config {
        Some(c) => Some((c.relay_url, c.device_id, c.branch)),
        None => None,
    }
}

// ---- the device's key ----

/// What reading the key file gave.
pub enum KeyRead {
    Bytes(Vec<u8>),
    /// There is no such file.
    Missing,
    /// What the system reported.
    Failed(String),
}

/// The key with this seed, and the bytes to write for it.
pub fn new_key(bytes: Vec<u8>) -> (r: (DeviceKey, Vec<u8>))
    requires
        bytes@.len() == 32,
    ensures
        r.0.seed() == bytes@,
        r.1@ == bytes@,
{
    let mut copy: Vec<u8> = Vec::new();
    copy.extend_from_slice(bytes.as_slice());
    assert(copy@ =~= bytes@);
    (DeviceKey::from_bytes(bytes), copy)
}

/// The device's key, and the bytes to write where it is a new one.
pub fn load_or_create_key(read: KeyRead, path: &str) -> (r: Result<
    (DeviceKey, Option<Vec<u8>>),
    Failure,
>)
    ensures
        read matches KeyRead::Bytes(bytes) ==> match key_in(bytes@) {
            Some(seed) => r matches Ok((key, write)) && key.seed() == seed && write is None,
            None => r is Err,
        },
        r matches Ok((key, Some(bytes))) ==> key_in(bytes@) == Some(key.seed()),
        match read {
            KeyRead::Bytes(bytes) => if bytes@.len() == 32 {
                r matches Ok((key, write)) && key.seed() == bytes@ && write is None
            } else {
                r matches Err(Failure::KeyFileLength(p)) && p@ == path@
            },
            KeyRead::Missing => match r {
                Ok((key, write)) => key.seed().len() == 32 && (write matches Some(bytes) && bytes@
                    == key.seed()),
                Err(e) => e is Randomness,
            },
            KeyRead::Failed(cause) => r matches Err(Failure::Outside(c)) && c@ == cause@,
        },
{
    match read {
        KeyRead::Bytes(bytes) => if bytes.len() == 32 {
            Ok((DeviceKey::from_bytes(bytes), None))
        } else {
            Err(Failure::KeyFileLength(path.to_owned()))
        },
        KeyRead::Missing => match random_bytes(32) {
            Ok(bytes) => {
                let (key, write) = new_key(bytes);
                Ok((key, Some(write)))
            },
            Err(e) => Err(e),
        },
        KeyRead::Failed(cause) => Err(Failure::Outside(cause)),
    }
}

// ---- the relay's address ----

/// Whether a relay's address is one of the two that it may be.
pub open spec fn is_relay_url(url: Seq<char>) -> bool {
    "http://"@.is_prefix_of(url) || "https://"@.is_prefix_of(url)
}

/// A relay's address without the white space around it and the slashes at its
/// end.
pub open spec fn tidy_url(raw: Seq<char>) -> Seq<char> {
    strip_trailing(trimmed(raw), '/')
}

/// A relay's address as it is kept.
pub fn normalise_relay_url(raw: &str) -> (r: Result<String, Failure>)
    ensures
        if is_relay_url(tidy_url(raw@)) {
            r matches Ok(url) && url@ == tidy_url(raw@)
        } else {
            r == Err::<String, Failure>(Failure::RelayUrl)
        },
{
    let url = trim_end_matches(trim(raw).as_str(), '/');
    if starts_with(url.as_str(), "http://") || starts_with(url.as_str(), "https://") {
        Ok(url)
    } else {
        Err(Failure::RelayUrl)
    }
}

/// Where a node connects: encrypted where the relay's address is.
pub open spec fn websocket_url(relay_url: Seq<char>) -> Option<Seq<char>> {
    if "https://"@.is_prefix_of(relay_url) {
        Some("wss://"@ + relay_url.skip("https://"@.len() as int) + "/v1/node/connect"@)
    } else if "http://"@.is_prefix_of(relay_url) {
        Some("ws://"@ + relay_url.skip("http://"@.len() as int) + "/v1/node/connect"@)
    } else {
        None
    }
}

/// Where a node connects.
pub fn node_ws_url(relay_url: &str) -> (r: Result<String, Failure>)
    ensures
        match websocket_url(relay_url@) {
            Some(url) => r matches Ok(u) && u@ == url,
            None => r == Err::<String, Failure>(Failure::RelayUrl),
        },
{
    let (scheme, rest) = match strip_prefix(relay_url, "https://") {
        Some(rest) => ("wss://", rest),
        None => match strip_prefix(relay_url, "http://") {
            Some(rest) => ("ws://", rest),
            None => {
                return Err(Failure::RelayUrl);
            },
        },
    };
    let mut out = scheme.to_owned();
    out.append(rest.as_str());
    out.append("/v1/node/connect");
    Ok(out)
}

/// An address that was kept leads to a place to connect to, and it names a
/// host: something stands behind its scheme.
pub proof fn a_kept_address_can_be_connected_to(raw: Seq<char>)
    requires
        is_relay_url(tidy_url(raw)),
    ensures
        websocket_url(tidy_url(raw)) is Some,
        "https://"@.is_prefix_of(tidy_url(raw)) ==> tidy_url(raw).len() > "https://"@.len(),
        "http://"@.is_prefix_of(tidy_url(raw)) ==> tidy_url(raw).len() > "http://"@.len(),
        tidy_url(raw).last() != '/',
{
    reveal_strlit("http://");
    reveal_strlit("https://");
    let url = tidy_url(raw);
    lemma_strip_trailing_last(trimmed(raw), '/');
    if "https://"@.is_prefix_of(url) && url.len() == "https://"@.len() {
        assert("https://"@ =~= url);
        assert("https://"@.last() == '/');
    }
    if "http://"@.is_prefix_of(url) && url.len() == "http://"@.len() {
        assert("http://"@ =~= url);
        assert("http://"@.last() == '/');
    }
}

proof fn lemma_strip_trailing_last(s: Seq<char>, c: char)
    ensures
        strip_trailing(s, c).len() > 0 ==> strip_trailing(s, c).last() != c,
    decreases s.len(),
{
    if s.len() > 0 && s.last() == c {
        lemma_strip_trailing_last(s.drop_last(), c);
    }
}

/// Whether a node's connection is encrypted is decided by the relay's address
/// alone.
pub proof fn the_connection_follows_the_scheme(relay_url: Seq<char>)
    ensures
        websocket_url(relay_url) matches Some(url) ==> ("wss://"@.is_prefix_of(url)
            <==> "https://"@.is_prefix_of(relay_url)),
        websocket_url(relay_url) is Some <==> is_relay_url(relay_url),
{
    reveal_strlit("http://");
    reveal_strlit("https://");
    reveal_strlit("ws://");
    reveal_strlit("wss://");
    let secure = "https://"@.is_prefix_of(relay_url);
    if secure {
        let url = "wss://"@ + relay_url.skip("https://"@.len() as int) + "/v1/node/connect"@;
        assert(url.subrange(0, 6) =~= "wss://"@);
    } else if "http://"@.is_prefix_of(relay_url) {
        let url = "ws://"@ + relay_url.skip("http://"@.len() as int) + "/v1/node/connect"@;
        assert(url[1] == 's' && url[2] == ':');
        if "wss://"@.is_prefix_of(url) {
            assert(url.subrange(0, 6)[2] == 's');
        }
    }
}

// ---- pairing and starting ----

/// The pairing that a login gives.
pub fn paired(relay_url: &str, device_id: &str, branch: &str) -> (r: NodeConfig)
    ensures
        r@ == (NodeConfigView {
            relay_url: relay_url@,
            device_id: device_id@,
            branch: branch@,
        }),
{
    NodeConfig {
        relay_url: relay_url.to_owned(),
        device_id: device_id.to_owned(),
        branch: branch.to_owned(),
    }
}

/// What a login comes to: the pairing, where the address is one that a relay
/// may have and the relay's last message accepts the device that it challenged;
/// otherwise why not.
pub open spec fn login_outcome(
    raw_url: Seq<char>,
    challenged: Seq<char>,
    message: WireView,
    branch: Seq<char>,
) -> Result<NodeConfigView, Failure> {
    if !is_relay_url(tidy_url(raw_url)) {
        Err(Failure::RelayUrl)
    } else {
        match message {
            WireView::Ready { device_id } => if device_id == challenged {
                Ok(NodeConfigView { relay_url: tidy_url(raw_url), device_id, branch })
            } else {
                Err(Failure::ChangedDevice)
            },
            _ => Err(Failure::NotAccepted),
        }
    }
}

/// The pairing that a login leaves: its own, and where it failed the one that
/// there was.
pub open spec fn pairing_after(
    kept: Option<NodeConfigView>,
    outcome: Result<NodeConfigView, Failure>,
) -> Option<NodeConfigView> {
    match outcome {
        Ok(pairing) => Some(pairing),
        Err(_) => kept,
    }
}

/// The end of a login to the relay at `raw_url`, which challenged the device
/// `challenged` and last sent `message`: the pairing to save, or why there is
/// none.
pub fn complete_login(raw_url: &str, challenged: &str, message: Wire, branch: &str) -> (r: Result<
    NodeConfig,
    Failure,
>)
    ensures
        match login_outcome(raw_url@, challenged@, message@, branch@) {
            Ok(pairing) => r matches Ok(config) && config@ == pairing,
            Err(e) => r == Err::<NodeConfig, Failure>(e),
        },
{
    let relay_url = match normalise_relay_url(raw_url) {
        Ok(relay_url) => relay_url,
        Err(e) => {
            return Err(e);
        },
    };
    match accepted_device(challenged, message) {
        Ok(device_id) => Ok(paired(relay_url.as_str(), device_id.as_str(), branch)),
        Err(e) => Err(e),
    }
}

/// A login pairs the node with the relay at that address, as the device that
/// the relay challenged and then accepted, under that branch; one that was
/// refused leaves the pairing that there was.
pub proof fn a_login_pairs_or_leaves_alone(
    kept: Option<NodeConfigView>,
    raw_url: Seq<char>,
    challenged: Seq<char>,
    message: WireView,
    branch: Seq<char>,
)
    ensures
        login_outcome(raw_url, challenged, message, branch) is Ok <==> is_relay_url(
            tidy_url(raw_url),
        ) && message == (WireView::Ready { device_id: challenged }),
        pairing_after(kept, login_outcome(raw_url, challenged, message, branch)) == if is_relay_url(
            tidy_url(raw_url),
        ) && message == (WireView::Ready { device_id: challenged }) {
            Some(
                NodeConfigView { relay_url: tidy_url(raw_url), device_id: challenged, branch },
            )
        } else {
            kept
        },
{
}

/// The pairing to start with: that which is kept, with another relay where one
/// is given.
pub fn with_relay(config: Option<NodeConfig>, relay: &Option<String>) -> (r: Result<
    NodeConfig,
    Failure,
>)
    ensures
        match started(view_of(config), text_of(*relay)) {
            Ok(pairing) => r matches Ok(c) && c@ == pairing,
            Err(e) => r == Err::<NodeConfig, Failure>(e),
        },
        match config {
            None => r == Err::<NodeConfig, Failure>(Failure::NotPaired),
            Some(kept) => match text_of(*relay) {
                None => r matches Ok(c) && c@ == kept@,
                Some(raw) => if is_relay_url(tidy_url(raw)) {
                    r matches Ok(c) && c@ == (NodeConfigView {
                        relay_url: tidy_url(raw),
                        ..kept@
                    })
                } else {
                    r == Err::<NodeConfig, Failure>(Failure::RelayUrl)
                },
            },
        },
{
    let kept = match config {
        Some(kept) => kept,
        None => {
            return Err(Failure::NotPaired);
        },
    };
    match relay {
        None => Ok(kept),
        Some(raw) => match normalise_relay_url(raw.as_str()) {
            Ok(relay_url) => Ok(
                NodeConfig { relay_url, device_id: kept.device_id, branch: kept.branch },
            ),
            Err(e) => Err(e),
        },
    }
}

/// The pairing with another branch where one is given.
pub fn with_branch(config: NodeConfig, branch: &Option<String>) -> (r: NodeConfig)
    ensures
        r@ == on_branch(config@, text_of(*branch)),
        r@ == match text_of(*branch) {
            None => config@,
            Some(b) => NodeConfigView { branch: b, ..config@ },
        },
{
    match branch {
        None => config,
        Some(b) => NodeConfig {
            relay_url: config.relay_url,
            device_id: config.device_id,
            branch: b.clone(),
        },
    }
}

/// Whether the pairing is to be written again: where anything was given.
pub fn must_save(relay: &Option<String>, branch: &Option<String>) -> (r: bool)
    ensures
        r == is_to_be_saved(text_of(*relay), text_of(*branch)),
        r == (relay is Some || branch is Some),
{
    relay.is_some() || branch.is_some()
}

/// What a node says when it is connected.
pub fn connected_note(config: &NodeConfig) -> (r: String)
    ensures
        r@ == connected_text(config@),
        r@ == "ctx node: connected to "@ + config.relay_url@ + " as "@ + config.device_id@,
{
    let mut out = "ctx node: connected to ".to_owned();
    out.append(config.relay_url.as_str());
    out.append(" as ");
    out.append(config.device_id.as_str());
    out
}

/// What a node says when it lost its connection.
pub fn retry_note(error: &str) -> (r: String)
    ensures
        r@ == lost_text(error@),
        r@ == "ctx node: relay connection ended ("@ + error@ + "); retrying in 3 seconds"@,
{
    let mut out = "ctx node: relay connection ended (".to_owned();
    out.append(error);
    out.append("); retrying in 3 seconds");
    out
}

// ---- laws ----

/// A pairing is read as it stands.
pub proof fn a_pairing_is_read_as_it_stands(relay_url: String, device_id: String, branch: String)
    ensures
        (NodeConfig { relay_url, device_id, branch })@.relay_url == relay_url@,
        (NodeConfig { relay_url, device_id, branch })@.device_id == device_id@,
        (NodeConfig { relay_url, device_id, branch })@.branch == branch@,
        view_of(None) is None,
        view_of(Some(NodeConfig { relay_url, device_id, branch })) == Some(
            (NodeConfig { relay_url, device_id, branch })@,
        ),
{
}

/// What a pairing says, where there is one.
pub open spec fn view_of(config: Option<NodeConfig>) -> Option<NodeConfigView> {
    match config {
        Some(c) => Some(c@),
        None => None,
    }
}

/// The seed that a key file holds.
pub open spec fn key_in(bytes: Seq<u8>) -> Option<Seq<u8>> {
    if bytes.len() == 32 {
        Some(bytes)
    } else {
        None
    }
}

/// A key file holds a key where it holds its 32 bytes and nothing else, and then
/// that one.
pub proof fn a_key_file_holds_the_bytes_of_its_key(bytes: Seq<u8>, seed: Seq<u8>)
    ensures
        key_in(bytes) == Some(seed) <==> bytes == seed && seed.len() == 32,
        key_in(bytes) is None <==> bytes.len() != 32,
{
}

/// The pairing to start with.
pub open spec fn started(kept: Option<NodeConfigView>, relay: Option<Seq<char>>) -> Result<
    NodeConfigView,
    Failure,
> {
    match (kept, relay) {
        (None, _) => Err(Failure::NotPaired),
        (Some(kept), None) => Ok(kept),
        (Some(kept), Some(raw)) => if is_relay_url(tidy_url(raw)) {
            Ok(NodeConfigView { relay_url: tidy_url(raw), ..kept })
        } else {
            Err(Failure::RelayUrl)
        },
    }
}

/// The pairing on another branch.
pub open spec fn on_branch(config: NodeConfigView, branch: Option<Seq<char>>) -> NodeConfigView {
    match branch {
        None => config,
        Some(branch) => NodeConfigView { branch, ..config },
    }
}

/// Whether a pairing is to be written again.
pub open spec fn is_to_be_saved(relay: Option<Seq<char>>, branch: Option<Seq<char>>) -> bool {
    relay is Some || branch is Some
}

/// Starting keeps the device that was paired. The relay and the branch are those
/// that were kept, but where others are given, and a pairing that so becomes
/// another is written again.
pub proof fn starting_keeps_the_device(
    kept: NodeConfigView,
    relay: Option<Seq<char>>,
    branch: Option<Seq<char>>,
)
    ensures
        started(Some(kept), relay) is Ok <==> (relay matches Some(raw) ==> is_relay_url(
            tidy_url(raw),
        )),
        started(Some(kept), relay) matches Err(e) ==> e == Failure::RelayUrl,
        started(None, relay) == Err::<NodeConfigView, Failure>(Failure::NotPaired),
        started(Some(kept), relay) matches Ok(c) ==> {
            let used = on_branch(c, branch);
            &&& used.device_id == kept.device_id
            &&& used.relay_url == (match relay {
                Some(raw) => tidy_url(raw),
                None => kept.relay_url,
            })
            &&& used.branch == (match branch {
                Some(given) => given,
                None => kept.branch,
            })
            &&& used != kept ==> is_to_be_saved(relay, branch)
        },
        is_to_be_saved(relay, branch) ==> relay is Some || branch is Some,
{
}

/// Either scheme makes an address that a relay may have. What stands behind it
/// is kept where the node connects to, encrypted where the address was.
pub proof fn the_host_is_kept(host: Seq<char>)
    ensures
        is_relay_url("https://"@ + host),
        is_relay_url("http://"@ + host),
        websocket_url("https://"@ + host) == Some("wss://"@ + host + "/v1/node/connect"@),
        websocket_url("http://"@ + host) == Some("ws://"@ + host + "/v1/node/connect"@),
{
    reveal_strlit("http://");
    reveal_strlit("https://");
    let secure = "https://"@ + host;
    let plain = "http://"@ + host;
    assert(secure.take(8) =~= "https://"@);
    assert(plain.take(7) =~= "http://"@);
    assert(secure.skip(8) =~= host);
    assert(plain.skip(7) =~= host);
    if "https://"@.is_prefix_of(plain) {
        assert(plain.take(8)[4] == plain[4]);
    }
}

/// What a node says when it is connected, as a text.
pub open spec fn connected_text(config: NodeConfigView) -> Seq<char> {
    "ctx node: connected to "@ + config.relay_url + " as "@ + config.device_id
}

/// What a node says when it lost its connection, as a text.
pub open spec fn lost_text(error: Seq<char>) -> Seq<char> {
    "ctx node: relay connection ended ("@ + error + "); retrying in 3 seconds"@
}

/// What a node says names its relay and its device, and the error that it met.
pub proof fn a_node_says_what_happened(config: NodeConfigView, error: Seq<char>)
    ensures
        mentions(connected_text(config), config.relay_url),
        config.device_id.is_suffix_of(connected_text(config)),
        mentions(lost_text(error), error),
{
    let before = "ctx node: connected to "@;
    let after = " as "@ + config.device_id;
    assert(connected_text(config) =~= before + config.relay_url + after);
    lemma_mentions(before, config.relay_url, after);
    let text = connected_text(config);
    assert(text.skip(text.len() - config.device_id.len()) =~= config.device_id);
    lemma_mentions(
        "ctx node: relay connection ended ("@,
        error,
        "); retrying in 3 seconds"@,
    );
}

} // verus!

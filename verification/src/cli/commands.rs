//! The other commands: packs, syncing, verifying, the node and the relay.

use vstd::prelude::*;
use vstd::string::StringExecFns;

use crate::home::{join_path, CtxHome};
use crate::metadata::DeviceInfo;
use crate::store::RelayInit;
use crate::text::{chars_of, push_decimal};
#[allow(unused_imports)]
use crate::home::path_in;
#[allow(unused_imports)]
use crate::text::{ascii_lowercase_of, decimal, text_of};

verus! {

// ---- how a command ends ----

/// What is printed of a failure, and whether the program still succeeds: a
/// hook must never break an agent's session.
pub fn failure_note(hook: bool, error: &str) -> (r: (String, bool))
    ensures
        r.0@ == (if hook {
            "ctx hook: "@
        } else {
            "error: "@
        }) + error@ + "\n"@,
        r.1 == hook,
{
    let start = if hook {
        "ctx hook: "
    } else {
        "error: "
    };
    let mut out = start.to_owned();
    out.append(error);
    out.append("\n");
    (out, hook)
}

// ---- packs ----

/// The budget of a pack: what is asked for; prose has none of its own, and the
/// others the branch's.
pub fn pack_budget(asked: Option<u32>, prose: bool, unlimited: u32) -> (r: Option<u32>)
    ensures
        r == budget(asked, prose, unlimited),
        r == match asked {
            Some(b) => Some(b),
            None => if prose {
                Some(unlimited)
            } else {
                None
            },
        },
{
    match asked {
        Some(b) => Some(b),
        None => if prose {
            Some(unlimited)
        } else {
            None
        },
    }
}

/// Whether two texts differ at most in the case of ASCII letters.
pub open spec fn same_but_for_case(a: Seq<char>, b: Seq<char>) -> bool {
    a.len() == b.len() && forall|i: int|
        0 <= i < a.len() ==> ascii_lowercase_of(#[trigger] a[i]) == ascii_lowercase_of(b[i])
}

fn small(c: char) -> (r: char)
    ensures
        r == ascii_lowercase_of(c),
{
    if 'A' <= c && c <= 'Z' {
        ((c as u8) + 32u8) as char
    } else {
        c
    }
}

/// Whether a file of this name is an `AGENTS.md`, of which only one section is
/// replaced.
pub fn is_agents_file(name: &str) -> (r: bool)
    ensures
        r == same_but_for_case(name@, "AGENTS.md"@),
{
    let a = chars_of(name);
    let b = chars_of("AGENTS.md");
    if a.len() != b.len() {
        return false;
    }
    let mut i: usize = 0;
    while i < a.len()
        invariant
            i <= a@.len() == b@.len(),
            a@ == name@,
            b@ == "AGENTS.md"@,
            forall|j: int|
                0 <= j < i ==> ascii_lowercase_of(#[trigger] a@[j]) == ascii_lowercase_of(b@[j]),
        decreases a@.len() - i,
    {
        if small(a[i]) != small(b[i]) {
            assert(ascii_lowercase_of(name@[i as int]) != ascii_lowercase_of("AGENTS.md"@[i as int]));
            return false;
        }
        i += 1;
    }
    true
}

/// What is said of a pack that was written to a file.
pub fn pack_written(path: &str, claims: u64, tokens: u64) -> (r: String)
    ensures
        r@ == "wrote "@ + path@ + " ("@ + decimal(claims as nat) + " claims, ~"@ + decimal(
            tokens as nat,
        ) + " tokens)\n"@,
{
    let mut out = "wrote ".to_owned();
    out.append(path);
    out.append(" (");
    push_decimal(&mut out, claims);
    out.append(" claims, ~");
    push_decimal(&mut out, tokens);
    out.append(" tokens)\n");
    out
}

/// What is said of a pack that was copied.
pub fn pack_copied(claims: u64, tokens: u64) -> (r: String)
    ensures
        r@ == "copied "@ + decimal(claims as nat) + " claims (~"@ + decimal(tokens as nat)
            + " tokens) to the clipboard: paste it into any chat\n"@,
{
    let mut out = "copied ".to_owned();
    push_decimal(&mut out, claims);
    out.append(" claims (~");
    push_decimal(&mut out, tokens);
    out.append(" tokens) to the clipboard: paste it into any chat\n");
    out
}

/// What is said of a map that was written to a file.
pub fn map_written(path: &str) -> (r: String)
    ensures
        r@ == "wrote "@ + path@ + " (renders on GitHub and in most markdown viewers)\n"@,
{
    let mut out = "wrote ".to_owned();
    out.append(path);
    out.append(" (renders on GitHub and in most markdown viewers)\n");
    out
}

// ---- syncing and verifying ----

/// What `ctx sync` says: where the store was synced with, or that it has no
/// remote.
pub fn sync_report(remote: &Option<String>, committed: bool, root: &str) -> (r: String)
    ensures
        r@ == match text_of(*remote) {
            Some(url) => "synced with "@ + url + "\n"@,
            None => "committed locally"@ + (if committed {
                ""@
            } else {
                ": nothing new"@
            }) + " (no remote yet; to sync: git -C \""@ + root@
                + "\" remote add origin <private repo url>)\n"@,
        },
{
    match remote {
        Some(url) => {
            let mut out = "synced with ".to_owned();
            out.append(url.as_str());
            out.append("\n");
            out
        },
        None => {
            let news = if committed {
                ""
            } else {
                ": nothing new"
            };
            let mut out = "committed locally".to_owned();
            out.append(news);
            out.append(" (no remote yet; to sync: git -C \"");
            out.append(root);
            out.append("\" remote add origin <private repo url>)\n");
            out
        },
    }
}

/// How another machine's state compares with this one's.
#[derive(Debug)]
pub enum Comparison {
    InSync,
    /// It lacks this many claims.
    Behind(u64),
    AheadOrDiverged,
}

/// What `ctx verify` says of another machine's state.
pub fn comparison_note(c: &Comparison) -> (r: String)
    ensures
        r@ == match *c {
            Comparison::InSync => "in-sync\n"@,
            Comparison::Behind(n) => "behind: that side is missing "@ + decimal(n as nat)
                + " claim(s) this machine has\n"@,
            Comparison::AheadOrDiverged =>
                "ahead-or-diverged: that side has claims this machine hasn't seen; run `ctx sync`\n"@,
        },
{
    match c {
        Comparison::InSync => "in-sync\n".to_owned(),
        Comparison::Behind(n) => {
            let mut out = "behind: that side is missing ".to_owned();
            push_decimal(&mut out, *n);
            out.append(" claim(s) this machine has\n");
            out
        },
        Comparison::AheadOrDiverged =>
            "ahead-or-diverged: that side has claims this machine hasn't seen; run `ctx sync`\n".to_owned(),
    }
}

/// What `ctx verify` says of this machine's own state.
pub fn state_note(root: &str, branch: &str) -> (r: String)
    ensures
        r@ == root@ + "  "@ + branch@ + "\n"@,
{
    let mut out = root.to_owned();
    out.append("  ");
    out.append(branch);
    out.append("\n");
    out
}

/// Whether there is a store to rebuild the index of.
pub fn require_store(has_store: bool, root: &str) -> (r: Result<(), String>)
    ensures
        match r {
            Ok(_) => has_store,
            Err(text) => !has_store && text@ == "no RecurOS store at "@ + root@,
        },
{
    if has_store {
        return Ok(());
    }
    let mut text = "no RecurOS store at ".to_owned();
    text.append(root);
    Err(text)
}

/// What is said of a rebuilt index; `elapsed` is how long it took.
pub fn reindexed_note(claims: u64, shards: u64, elapsed: &str) -> (r: String)
    ensures
        r@ == "reindexed "@ + decimal(claims as nat) + " claims from "@ + decimal(shards as nat)
            + " shards in "@ + elapsed@ + "\n"@,
{
    let mut out = "reindexed ".to_owned();
    push_decimal(&mut out, claims);
    out.append(" claims from ");
    push_decimal(&mut out, shards);
    out.append(" shards in ");
    out.append(elapsed);
    out.append("\n");
    out
}

// ---- fixtures ----

/// Where the questions for `ctx eval` lie.
pub fn fixtures_path(given: Option<String>, home: &CtxHome) -> (r: String)
    ensures
        r@ == match text_of(given) {
            Some(path) => path,
            None => path_in(path_in(home@, "refs"@), "eval.yaml"@),
        },
{
    match given {
        Some(path) => path,
        None => join_path(home.refs_dir().as_str(), "eval.yaml"),
    }
}

/// What is said of example questions once they are written; a failure where a
/// file is there already.
pub fn example_note(present: bool, path: &str) -> (r: Result<String, String>)
    ensures
        match r {
            Ok(text) => !present && text@ == "wrote "@ + path@
                + ": edit it with real questions, then run `ctx eval`\n"@,
            Err(text) => present && text@ == path@ + " already exists"@,
        },
{
    if present {
        let mut text = path.to_owned();
        text.append(" already exists");
        return Err(text);
    }
    let mut out = "wrote ".to_owned();
    out.append(path);
    out.append(": edit it with real questions, then run `ctx eval`\n");
    Ok(out)
}

// ---- the node ----

/// What is said of a pairing that was made.
pub fn paired_note(device: &str, branch: &str) -> (r: String)
    ensures
        r@ == "paired this device as "@ + device@ + "\nit will serve branch "@ + branch@
            + "\nstart it when remote MCP access is wanted: ctx node start\n"@,
{
    let mut out = "paired this device as ".to_owned();
    out.append(device);
    out.append("\nit will serve branch ");
    out.append(branch);
    out.append("\nstart it when remote MCP access is wanted: ctx node start\n");
    out
}

/// What `ctx node status` says of a pairing: its relay, device and branch.
pub fn node_note(node: &Option<(String, String, String)>) -> (r: String)
    ensures
        r@ == match *node {
            Some((relay, device, branch)) => "paired relay: "@ + relay@ + "\ndevice: "@ + device@
                + "\nserving branch: "@ + branch@ + "\nstart remote access: ctx node start\n"@,
            None =>
                "node is not paired; run `ctx node login --relay URL --code BOOTSTRAP_CODE`\n"@,
        },
{
    match node {
        Some((relay, device, branch)) => {
            let mut out = "paired relay: ".to_owned();
            out.append(relay.as_str());
            out.append("\ndevice: ");
            out.append(device.as_str());
            out.append("\nserving branch: ");
            out.append(branch.as_str());
            out.append("\nstart remote access: ctx node start\n");
            out
        },
        None =>
            "node is not paired; run `ctx node login --relay URL --code BOOTSTRAP_CODE`\n".to_owned(),
    }
}

// ---- the relay ----

/// What `ctx relay init` prints: the two secrets, once, and what to run.
pub fn relay_initialised(data: &str, init: &RelayInit) -> (r: String)
    ensures
        r@ == "relay initialised in "@ + data@
            + "\n\nBootstrap code (shown only once; pair the first node with it):\n"@
            + init.bootstrap_code@
            + "\n\nConnector secret (shown only once; send it as Authorization: Bearer to /mcp):\n"@
            + init.connector_secret@ + "\n\nRun: ctx relay serve --data "@ + data@ + "\n"@,
{
    let mut out = "relay initialised in ".to_owned();
    out.append(data);
    out.append("\n\nBootstrap code (shown only once; pair the first node with it):\n");
    out.append(init.bootstrap_code.as_str());
    out.append(
        "\n\nConnector secret (shown only once; send it as Authorization: Bearer to /mcp):\n",
    );
    out.append(init.connector_secret.as_str());
    out.append("\n\nRun: ctx relay serve --data ");
    out.append(data);
    out.append("\n");
    out
}

/// What `ctx relay token` prints.
pub fn token_note(secret: &str) -> (r: String)
    ensures
        r@ == "connector secret (shown only once): "@ + secret@ + "\n"@,
{
    let mut out = "connector secret (shown only once): ".to_owned();
    out.append(secret);
    out.append("\n");
    out
}

/// The line of a device.
pub open spec fn device_line(d: DeviceInfo) -> Seq<char> {
    d.id@ + "  "@ + (if d.active {
        "active"@
    } else {
        "inactive"@
    }) + (if d.revoked {
        ", revoked"@
    } else {
        ""@
    }) + "\n"@
}

/// The lines of devices.
pub open spec fn device_lines(devices: Seq<DeviceInfo>) -> Seq<char>
    decreases devices.len(),
{
    if devices.len() == 0 {
        seq![]
    } else {
        device_lines(devices.drop_last()) + device_line(devices.last())
    }
}

fn device_text(d: &DeviceInfo) -> (r: String)
    ensures
        r@ == device_line(*d),
{
    let state = if d.active {
        "active"
    } else {
        "inactive"
    };
    let revoked = if d.revoked {
        ", revoked"
    } else {
        ""
    };
    let mut out = d.id.clone();
    out.append("  ");
    out.append(state);
    out.append(revoked);
    out.append("\n");
    out
}

/// What `ctx relay device ls` prints.
pub fn devices_note(devices: &Vec<DeviceInfo>) -> (r: String)
    ensures
        r@ == if devices@.len() == 0 {
            "no devices enrolled\n"@
        } else {
            device_lines(devices@)
        },
{
    if devices.len() == 0 {
        return "no devices enrolled\n".to_owned();
    }
    let mut out = String::new();
    let mut i: usize = 0;
    assert(out@ =~= device_lines(devices@.take(0)));
    while i < devices.len()
        invariant
            i <= devices@.len(),
            out@ == device_lines(devices@.take(i as int)),
        decreases devices@.len() - i,
    {
        proof {
            let next = devices@.take(i + 1);
            assert(next.drop_last() =~= devices@.take(i as int));
            assert(next.last() == devices@[i as int]);
        }
        out.append(device_text(&devices[i]).as_str());
        i += 1;
    }
    assert(devices@.take(devices@.len() as int) =~= devices@);
    out
}

/// What is said of a revoked device.
pub fn revoked_note(id: &str) -> (r: String)
    ensures
        r@ == "revoked device "@ + id@ + "\n"@,
{
    let mut out = "revoked device ".to_owned();
    out.append(id);
    out.append("\n");
    out
}

/// What a relay says when it starts to serve.
pub fn listening_note(addr: &str) -> (r: String)
    ensures
        r@ == "ctx relay listening on http://"@ + addr@
            + ". Put TLS in front of it before exposing it publicly."@,
{
    let mut out = "ctx relay listening on http://".to_owned();
    out.append(addr);
    out.append(". Put TLS in front of it before exposing it publicly.");
    out
}

// ---- laws ----

/// Two names are the same but for case where each letter of one is the letter of
/// the other, small or capital: case never matters, anything else does.
pub proof fn only_case_is_passed_over(a: Seq<char>, b: Seq<char>)
    ensures
        same_but_for_case(a, a),
        same_but_for_case(a, b) ==> same_but_for_case(b, a) && a.len() == b.len(),
        a.len() != b.len() ==> !same_but_for_case(a, b),
        same_but_for_case(a, b) ==> forall|i: int|
            0 <= i < a.len() ==> #[trigger] a[i] == b[i] || a[i] as u32 == b[i] as u32 + 32
                || b[i] as u32 == a[i] as u32 + 32,
        (forall|i: int| 0 <= i < a.len() ==> #[trigger] a[i] == b[i]) && a.len() == b.len()
            ==> same_but_for_case(a, b),
{
    if same_but_for_case(a, b) {
        assert forall|i: int| 0 <= i < a.len() implies #[trigger] a[i] == b[i] || a[i] as u32
            == b[i] as u32 + 32 || b[i] as u32 == a[i] as u32 + 32 by {
            assert(ascii_lowercase_of(a[i]) == ascii_lowercase_of(b[i]));
        }
        assert forall|i: int| 0 <= i < b.len() implies ascii_lowercase_of(#[trigger] b[i])
            == ascii_lowercase_of(a[i]) by {
            assert(ascii_lowercase_of(a[i]) == ascii_lowercase_of(b[i]));
        }
    }
}

/// Devices are listed one below the other, each once and in order.
pub proof fn devices_stand_in_order(a: Seq<DeviceInfo>, b: Seq<DeviceInfo>, device: DeviceInfo)
    ensures
        device_lines(a + b) == device_lines(a) + device_lines(b),
        device_lines(seq![device]) == device_line(device),
    decreases b.len(),
{
    let one = seq![device];
    assert(one.drop_last() =~= seq![]);
    assert(device_lines(one.drop_last()) =~= seq![]);
    assert(one.last() == device);
    assert(device_lines(one) =~= device_line(device));
    if b.len() == 0 {
        assert(a + b =~= a);
        assert(device_lines(a) + device_lines(b) =~= device_lines(a));
    } else {
        devices_stand_in_order(a, b.drop_last(), device);
        assert((a + b).drop_last() =~= a + b.drop_last());
        assert((a + b).last() == b.last());
        assert(device_lines(a + b) =~= device_lines(a) + device_lines(b));
    }
}

/// A device's line starts with its id, and tells whether it is active and whether
/// it was revoked.
pub proof fn a_device_is_told_by_its_state(d: DeviceInfo)
    ensures
        (d.id@ + "  "@ + if d.active {
            "active"@
        } else {
            "inactive"@
        }).is_prefix_of(device_line(d)),
        d.revoked <==> ", revoked\n"@.is_suffix_of(device_line(d)),
{
    reveal_strlit("active");
    reveal_strlit("inactive");
    reveal_strlit(", revoked");
    reveal_strlit(", revoked\n");
    reveal_strlit("\n");
    reveal_strlit("");
    let state = if d.active {
        "active"@
    } else {
        "inactive"@
    };
    let head = d.id@ + "  "@ + state;
    let line = device_line(d);
    assert(line.take(head.len() as int) =~= head);
    assert(state.last() == 'e');
    if d.revoked {
        assert(", revoked"@ + "\n"@ =~= ", revoked\n"@);
        assert(line =~= head + ", revoked\n"@);
        assert(line.skip(head.len() as int) =~= ", revoked\n"@);
    } else {
        assert(line =~= head + "\n"@);
        assert(line[line.len() - 2] == 'e');
        if ", revoked\n"@.is_suffix_of(line) {
            let tail = line.skip(line.len() - ", revoked\n"@.len());
            assert(tail[tail.len() - 2] == line[line.len() - 2]);
        }
    }
}

/// The budget of a pack; nothing where the usual one holds.
pub open spec fn budget(asked: Option<u32>, prose: bool, unlimited: u32) -> Option<u32> {
    match asked {
        Some(b) => Some(b),
        None => if prose {
            Some(unlimited)
        } else {
            None
        },
    }
}

/// A budget that is asked for holds, whatever the shape; without one prose has
/// no limit, and every other shape the usual one.
pub proof fn the_budget_that_is_asked_for_holds(asked: u32, prose: bool, unlimited: u32)
    ensures
        budget(Some(asked), prose, unlimited) == Some(asked),
        budget(None, true, unlimited) == Some(unlimited),
        budget(None, false, unlimited) is None,
{
}

} // verus!

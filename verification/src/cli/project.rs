//! `ctx init`, `ctx status`, `ctx use` and the session hook: a repository and
//! the branch that it is bound to.

use vstd::prelude::*;
use vstd::string::StringExecFns;

use crate::slug::slug;
use crate::text::{chars_of, contains_char, join, push_decimal, push_padded_number, replace_line_feeds,
    same_text, trim};
#[allow(unused_imports)]
use crate::slug::{has_capital, idea_name, idea_names_are_stable};
#[allow(unused_imports)]
use crate::text::{decimal, joined, lemma_mentions, lemma_mentions_within, lemma_regrouped,
    line_feeds_replaced, mentions, padded_left, text_of, texts, trimmed};

verus! {

// ---- which repository ----

/// A directory, and whether a `.git` lies in it.
#[derive(Debug)]
pub struct Candidate {
    pub path: String,
    pub has_git: bool,
}

/// The first directory with a `.git` in it.
pub open spec fn first_with_git(dirs: Seq<Candidate>) -> Option<Seq<char>>
    decreases dirs.len(),
{
    if dirs.len() == 0 {
        None
    } else if dirs[0].has_git {
        Some(dirs[0].path@)
    } else {
        first_with_git(dirs.drop_first())
    }
}

/// The root of the repository that `start` lies in: the nearest of it and the
/// directories above it, from the inside out, with a `.git`; else `start`.
pub fn repo_root(start: &str, dirs: &Vec<Candidate>) -> (r: String)
    ensures
        r@ == match first_with_git(dirs@) {
            Some(path) => path,
            None => start@,
        },
{
    let mut i: usize = 0;
    assert(dirs@.skip(0) =~= dirs@);
    while i < dirs.len()
        invariant
            i <= dirs@.len(),
            first_with_git(dirs@) == first_with_git(dirs@.skip(i as int)),
        decreases dirs@.len() - i,
    {
        assert(dirs@.skip(i as int)[0] == dirs@[i as int]);
        assert(dirs@.skip(i as int).drop_first() =~= dirs@.skip(i + 1));
        if dirs[i].has_git {
            return dirs[i].path.clone();
        }
        i += 1;
    }
    start.to_owned()
}

// ---- what it is bound to ----

/// A repository's binding: a project and a branch of it.
#[derive(Debug)]
pub struct Bound {
    pub project: String,
    pub branch: String,
}

/// What a binding says.
pub struct BoundView {
    pub project: Seq<char>,
    pub branch: Seq<char>,
}

impl View for Bound {
    type V = BoundView;

    open spec fn view(&self) -> BoundView {
        BoundView { project: self.project@, branch: self.branch@ }
    }
}

/// What an optional binding says.
pub open spec fn bound_view(b: Option<Bound>) -> Option<BoundView> {
    match b {
        Some(b) => Some(b@),
        None => None,
    }
}

/// The binding that `ctx init` makes: what it is told, else what there is,
/// else the directory's name and `code`.
pub open spec fn chosen_binding(
    project: Option<Seq<char>>,
    branch: Option<Seq<char>>,
    existing: Option<BoundView>,
    dir_name: Option<Seq<char>>,
) -> BoundView {
    BoundView {
        project: idea_name(
            match (project, existing, dir_name) {
                (Some(p), _, _) => p,
                (None, Some(b), _) => b.project,
                (None, None, Some(name)) => name,
                (None, None, None) => seq![],
            },
        ),
        branch: idea_name(
            match (branch, existing) {
                (Some(b), _) => b,
                (None, Some(b)) => b.branch,
                (None, None) => "code"@,
            },
        ),
    }
}

/// The binding that `ctx init` makes, and whether it is to be written: not
/// where it is the one that there is. Running it again, with the same
/// told or with nothing told, makes the same binding, whatever the directory
/// is called by then.
pub fn choose_binding(
    project: Option<String>,
    branch: Option<String>,
    existing: &Option<Bound>,
    dir_name: Option<String>,
) -> (r: (Bound, bool))
    ensures
        r.0@ == chosen_binding(
            text_of(project),
            text_of(branch),
            bound_view(*existing),
            text_of(dir_name),
        ),
        r.1 == (bound_view(*existing) != Some(r.0@)),
        forall|later: Option<Seq<char>>| #[trigger]
            chosen_binding(None, None, Some(r.0@), later) == r.0@,
        forall|later: Option<Seq<char>>| #[trigger]
            chosen_binding(text_of(project), text_of(branch), Some(r.0@), later) == r.0@,
{
    let project = match project {
        Some(p) => p,
        None => match existing {
            Some(b) => b.project.clone(),
            None => match dir_name {
                Some(name) => name,
                None => {
                    let none = String::new();
                    assert(none@ =~= seq![]);
                    none
                },
            },
        },
    };
    let branch = match branch {
        Some(b) => b,
        None => match existing {
            Some(b) => b.branch.clone(),
            None => "code".to_owned(),
        },
    };
    let bound = Bound { project: slug(project.as_str()), branch: slug(branch.as_str()) };
    let write = match existing {
        Some(b) => !(same_text(b.project.as_str(), bound.project.as_str()) && same_text(
            b.branch.as_str(),
            bound.branch.as_str(),
        )),
        None => true,
    };
    (bound, write)
}

/// Running `ctx init` again, with the same told or with nothing told, leaves
/// the binding that the first run made as it is, whatever the directory is
/// called by then. Told again, a name is made again as it was; not told, it is
/// made out of itself, so this holds where it has no ASCII capital, which no
/// name of an ASCII text has.
pub proof fn init_is_idempotent(
    project: Option<Seq<char>>,
    branch: Option<Seq<char>>,
    existing: Option<BoundView>,
    dir_name: Option<Seq<char>>,
    later_dir_name: Option<Seq<char>>,
)
    ensures
        ({
            let bound = chosen_binding(project, branch, existing, dir_name);
            &&& !has_capital(bound.project) && !has_capital(bound.branch) ==> {
                &&& chosen_binding(None, None, Some(bound), later_dir_name) == bound
                &&& chosen_binding(project, branch, Some(bound), later_dir_name) == bound
            }
            &&& project is Some && branch is Some ==> chosen_binding(
                project,
                branch,
                Some(bound),
                later_dir_name,
            ) == bound
        }),
{
    let told = match (project, existing, dir_name) {
        (Some(p), _, _) => p,
        (None, Some(b), _) => b.project,
        (None, None, Some(name)) => name,
        (None, None, None) => seq![],
    };
    idea_names_are_stable(told);
    let lane = match (branch, existing) {
        (Some(b), _) => b,
        (None, Some(b)) => b.branch,
        (None, None) => "code"@,
    };
    idea_names_are_stable(lane);
}

// ---- what init says ----

/// A document that a repository holds a copy of.
#[derive(Debug)]
pub struct Document {
    /// What it is called.
    pub name: String,
    /// Where the copy lies.
    pub file: String,
}

/// The capital of a small ASCII letter; any other character itself.
pub open spec fn ascii_capital_of(c: char) -> char {
    if 'a' <= c <= 'z' {
        (c as u32 - 32) as char
    } else {
        c
    }
}

/// `s` with its ASCII letters as capitals.
pub open spec fn in_capitals(s: Seq<char>) -> Seq<char> {
    Seq::new(s.len(), |i: int| ascii_capital_of(s[i]))
}

fn capital(c: char) -> (r: char)
    ensures
        r == ascii_capital_of(c),
{
    if 'a' <= c && c <= 'z' {
        ((c as u8) - 32u8) as char
    } else {
        c
    }
}

/// The copy of the document of this name: a markdown file in `.ctx`, named in
/// capitals.
pub fn document(name: &str) -> (r: Document)
    ensures
        r.name@ == name@,
        r.file@ == ".ctx/"@ + in_capitals(name@) + ".md"@,
{
    let cs = chars_of(name);
    let mut capitals = String::new();
    let mut i: usize = 0;
    while i < cs.len()
        invariant
            i <= cs@.len(),
            cs@ == name@,
            capitals@ == in_capitals(cs@.take(i as int)),
        decreases cs@.len() - i,
    {
        capitals.push(capital(cs[i]));
        assert(capitals@ =~= in_capitals(cs@.take(i + 1)));
        i += 1;
    }
    assert(cs@.take(cs@.len() as int) =~= cs@);
    let mut file = ".ctx/".to_owned();
    file.append(capitals.as_str());
    file.append(".md");
    Document { name: name.to_owned(), file }
}

/// What became of the copy of a document.
#[derive(Debug, Clone, Copy, PartialEq, Eq, Structural)]
pub enum CopyState {
    Written,
    Unchanged,
    LeftAlone,
    NoDocument,
}

/// What is said of the copy of a document.
pub open spec fn copy_line(state: CopyState, doc: Document, project: Seq<char>) -> Seq<char> {
    match state {
        CopyState::LeftAlone => "  ! "@ + doc.file@ + "  was edited by hand; left as is\n"@,
        CopyState::NoDocument => ""@,
        _ => "  ✓ "@ + doc.file@ + "  the "@ + doc.name@ + " from "@ + project
            + "'s research\n"@,
    }
}

fn copy_note(state: CopyState, doc: &Document, project: &str) -> (r: String)
    ensures
        r@ == copy_line(state, *doc, project@),
{
    match state {
        CopyState::LeftAlone => {
            let mut out = "  ! ".to_owned();
            out.append(doc.file.as_str());
            out.append("  was edited by hand; left as is\n");
            out
        },
        CopyState::NoDocument => "".to_owned(),
        _ => {
            let mut out = "  ✓ ".to_owned();
            out.append(doc.file.as_str());
            out.append("  the ");
            out.append(doc.name.as_str());
            out.append(" from ");
            out.append(project);
            out.append("'s research\n");
            out
        },
    }
}

/// What `ctx init` says first: what was bound and written. `store` is where a
/// store was created, `state` what became of the copy of `doc`.
pub fn init_head(bound: &Bound, store: &Option<String>, doc: &Document, state: CopyState) -> (r:
    String)
    ensures
        r@ == "RecurOS: "@ + bound.project@ + "/"@ + bound.branch@ + "\n"@ + (match text_of(
            *store,
        ) {
            Some(root) => "  created store at "@ + root + "\n"@,
            None => ""@,
        }) + "  ✓ .ctx/       config.yaml binds this repo to "@ + bound.project@ + "/"@
            + bound.branch@ + "; commands.md for agents (commit it)\n"@
            + "  ✓ AGENTS.md   RecurOS section added; your own content is kept (commit it)\n"@
            + copy_line(state, *doc, bound.project@),
{
    let created = match store {
        Some(root) => {
            let mut out = "  created store at ".to_owned();
            out.append(root.as_str());
            out.append("\n");
            out
        },
        None => "".to_owned(),
    };
    let copied = copy_note(state, doc, bound.project.as_str());
    let mut out = "RecurOS: ".to_owned();
    out.append(bound.project.as_str());
    out.append("/");
    out.append(bound.branch.as_str());
    out.append("\n");
    out.append(created.as_str());
    out.append("  ✓ .ctx/       config.yaml binds this repo to ");
    out.append(bound.project.as_str());
    out.append("/");
    out.append(bound.branch.as_str());
    out.append("; commands.md for agents (commit it)\n");
    out.append("  ✓ AGENTS.md   RecurOS section added; your own content is kept (commit it)\n");
    out.append(copied.as_str());
    out
}

/// What is said of an agent that is none of those that are known.
pub fn unknown_agent(name: &str, known: &Vec<String>) -> (r: String)
    ensures
        r@ == "unknown agent `"@ + name@ + "` ("@ + joined(texts(known@), ", "@) + ")"@,
{
    let mut out = "unknown agent `".to_owned();
    out.append(name);
    out.append("` (");
    out.append(join(known, ", ").as_str());
    out.append(")");
    out
}

/// The steps of wiring an agent, one below the other.
pub open spec fn step_lines(steps: Seq<Seq<char>>) -> Seq<char>
    decreases steps.len(),
{
    if steps.len() == 0 {
        seq![]
    } else {
        step_lines(steps.drop_last()) + "    "@ + line_feeds_replaced(steps.last(), "\n    "@)
            + "\n"@
    }
}

/// What is said of an agent that was wired.
pub fn agent_note(agent: &str, steps: &Vec<String>) -> (r: String)
    ensures
        r@ == "  "@ + agent@ + ":\n"@ + step_lines(texts(steps@)),
{
    let ghost all = texts(steps@);
    let mut lines = String::new();
    let mut i: usize = 0;
    assert(lines@ =~= step_lines(all.take(0)));
    while i < steps.len()
        invariant
            i <= steps@.len(),
            all == texts(steps@),
            lines@ == step_lines(all.take(i as int)),
        decreases steps@.len() - i,
    {
        proof {
            let next = all.take(i + 1);
            assert(next.drop_last() =~= all.take(i as int));
            assert(next.last() == steps@[i as int]@);
        }
        lines.append("    ");
        lines.append(replace_line_feeds(steps[i].as_str(), "\n    ").as_str());
        lines.append("\n");
        i += 1;
    }
    assert(all.take(all.len() as int) =~= all);
    let mut out = "  ".to_owned();
    out.append(agent);
    out.append(":\n");
    out.append(lines.as_str());
    out
}

/// What is said where no agent is there.
pub fn no_agents_note() -> (r: String)
    ensures
        r@ == "  · no agents detected; AGENTS.md alone works with most of them\n"@,
{
    "  · no agents detected; AGENTS.md alone works with most of them\n".to_owned()
}

/// What is said where the agents had to be given the program's own path.
pub fn off_path_note(on_path: bool, command: &str) -> (r: String)
    ensures
        r@ == if on_path {
            ""@
        } else {
            "\n  note: `ctx` isn't on your PATH, so configs point at "@ + command@
                + "\n        put ctx on PATH (see README) and re-run `ctx init` before committing them\n"@
        },
{
    if on_path {
        return "".to_owned();
    }
    let mut out = "\n  note: `ctx` isn't on your PATH, so configs point at ".to_owned();
    out.append(command);
    out.append(
        "\n        put ctx on PATH (see README) and re-run `ctx init` before committing them\n",
    );
    out
}

/// What `ctx init` says last: what to do next. An empty branch can be filled
/// from the code; a store without a remote can be given one.
pub fn init_tail(empty: bool, has_remote: bool, root: &str) -> (r: String)
    ensures
        r@ == "\nNext:\n"@ + (if empty {
            "  ctx onboard       # a prompt that fills this from your own code\n"@
        } else {
            ""@
        }) + "  ctx save \"Use SQLite, not Postgres\" -k decision -w \"no server to run\"\n  ctx pack          # see exactly what your agents will see\n"@
            + (if has_remote {
            ""@
        } else {
            "  sync across machines: create a PRIVATE git repo, then\n    git -C \""@ + root@
                + "\" remote add origin <url> && ctx sync\n"@
        }),
{
    let onboard = if empty {
        "  ctx onboard       # a prompt that fills this from your own code\n"
    } else {
        ""
    };
    let sync = if has_remote {
        "".to_owned()
    } else {
        let mut out =
            "  sync across machines: create a PRIVATE git repo, then\n    git -C \"".to_owned();
        out.append(root);
        out.append("\" remote add origin <url> && ctx sync\n");
        out
    };
    let mut out = "\nNext:\n".to_owned();
    out.append(onboard);
    out.append(
        "  ctx save \"Use SQLite, not Postgres\" -k decision -w \"no server to run\"\n  ctx pack          # see exactly what your agents will see\n",
    );
    out.append(sync.as_str());
    out
}

// ---- status ----

/// Where the store lies, and where it is synced with.
pub fn status_store(root: &str, remote: &Option<String>) -> (r: String)
    ensures
        r@ == "store    "@ + root@ + "\nremote   "@ + (match text_of(*remote) {
            Some(url) => url,
            None => "none (local only)"@,
        }) + "\n"@,
{
    let mut out = "store    ".to_owned();
    out.append(root);
    out.append("\nremote   ");
    match remote {
        Some(url) => out.append(url.as_str()),
        None => out.append("none (local only)"),
    }
    out.append("\n");
    out
}

/// Which repository is bound to which branch, by its path and the branch.
pub fn status_repo(bound: &Option<(String, String)>) -> (r: String)
    ensures
        r@ == match *bound {
            Some((root, branch)) => "repo     "@ + root@ + " → "@ + branch@ + "\n"@,
            None => "repo     not bound (run `ctx init` in a project)\n"@,
        },
{
    match bound {
        Some((root, branch)) => {
            let mut out = "repo     ".to_owned();
            out.append(root.as_str());
            out.append(" → ");
            out.append(branch.as_str());
            out.append("\n");
            out
        },
        None => "repo     not bound (run `ctx init` in a project)\n".to_owned(),
    }
}

/// The branch that commands work on.
pub fn status_branch(branch: &str) -> (r: String)
    ensures
        r@ == "branch   "@ + branch@ + "\n"@,
{
    let mut out = "branch   ".to_owned();
    out.append(branch);
    out.append("\n");
    out
}

/// The node's pairing: its relay, its device and its branch.
pub fn status_node(node: &Option<(String, String, String)>) -> (r: String)
    ensures
        r@ == match *node {
            Some((relay, device, branch)) => "node     "@ + device@ + " via "@ + relay@ + " ("@
                + branch@ + ")\n"@,
            None =>
                "node     not paired (optional: `ctx node login --relay URL --code CODE`)\n"@,
        },
{
    match node {
        Some((relay, device, branch)) => {
            let mut out = "node     ".to_owned();
            out.append(device.as_str());
            out.append(" via ");
            out.append(relay.as_str());
            out.append(" (");
            out.append(branch.as_str());
            out.append(")\n");
            out
        },
        None =>
            "node     not paired (optional: `ctx node login --relay URL --code CODE`)\n".to_owned(),
    }
}

/// How many claims there are of a kind.
#[derive(Debug)]
pub struct KindCount {
    pub kind: String,
    pub count: u64,
}

/// The lines of the kinds.
pub open spec fn kind_lines(kinds: Seq<KindCount>) -> Seq<char>
    decreases kinds.len(),
{
    if kinds.len() == 0 {
        seq![]
    } else {
        kind_lines(kinds.drop_last()) + "         "@ + padded_left(
            decimal(kinds.last().count as nat),
            5,
        ) + " "@ + kinds.last().kind@ + "\n"@
    }
}

/// How many claims there are, in all and of each kind.
pub fn status_claims(total: u64, kinds: &Vec<KindCount>) -> (r: String)
    ensures
        r@ == "claims   "@ + decimal(total as nat) + " total\n"@ + kind_lines(kinds@),
{
    let mut lines = String::new();
    let mut i: usize = 0;
    assert(lines@ =~= kind_lines(kinds@.take(0)));
    while i < kinds.len()
        invariant
            i <= kinds@.len(),
            lines@ == kind_lines(kinds@.take(i as int)),
        decreases kinds@.len() - i,
    {
        proof {
            let next = kinds@.take(i + 1);
            assert(next.drop_last() =~= kinds@.take(i as int));
            assert(next.last() == kinds@[i as int]);
        }
        lines.append("         ");
        push_padded_number(&mut lines, kinds[i].count, 5);
        lines.append(" ");
        lines.append(kinds[i].kind.as_str());
        lines.append("\n");
        i += 1;
    }
    assert(kinds@.take(kinds@.len() as int) =~= kinds@);
    let mut out = "claims   ".to_owned();
    push_decimal(&mut out, total);
    out.append(" total\n");
    out.append(lines.as_str());
    out
}

/// How many proposals wait.
pub fn status_review(pending: u64) -> (r: String)
    ensures
        r@ == if pending > 0 {
            "review   "@ + decimal(pending as nat) + " pending proposal(s): `ctx review`\n"@
        } else {
            ""@
        },
{
    if pending == 0 {
        return "".to_owned();
    }
    let mut out = "review   ".to_owned();
    push_decimal(&mut out, pending);
    out.append(" pending proposal(s): `ctx review`\n");
    out
}

// ---- use ----

/// What `ctx use` is given.
#[derive(Debug)]
pub enum Chosen {
    /// This branch, by its full name.
    Exactly(String),
    /// What the store makes of this name.
    Resolve(String),
}

/// The branch that `ctx use` means. Outside a repository a bare name is an
/// idea, and chats write to its research. `default` is the branch that there
/// always is.
pub fn use_target(raw: &str, bound: bool, default: &str) -> (r: Chosen)
    ensures
        r@ == chosen_branch(raw@, bound, default@),
        if !bound && !trimmed(raw@).contains('/') && trimmed(raw@) != default@ {
            r matches Chosen::Exactly(b) && b@ == idea_name(trimmed(raw@)) + "/research"@
        } else {
            r matches Chosen::Resolve(name) && name@ == trimmed(raw@)
        },
{
    let name = trim(raw);
    if !bound && !contains_char(name.as_str(), '/') && !same_text(name.as_str(), default) {
        let mut branch = slug(name.as_str());
        branch.append("/research");
        Chosen::Exactly(branch)
    } else {
        Chosen::Resolve(name)
    }
}

/// What `ctx use` says, and what it notes of a branch that holds nothing yet.
pub fn use_note(branch: &str, known: bool) -> (r: (String, String))
    ensures
        r.0@ == "active branch: "@ + branch@ + "\n"@,
        r.1@ == if known {
            ""@
        } else {
            "note: `"@ + branch@ + "` has nothing saved yet; chats will start saving there\n"@
        },
{
    let mut said = "active branch: ".to_owned();
    said.append(branch);
    said.append("\n");
    let noted = if known {
        "".to_owned()
    } else {
        let mut out = "note: `".to_owned();
        out.append(branch);
        out.append("` has nothing saved yet; chats will start saving there\n");
        out
    };
    (said, noted)
}

// ---- the session hook ----

/// Whether a starting session has a context: there is a store, and this
/// repository is bound.
pub fn session_has_context(has_store: bool, bound: bool) -> (r: bool)
    ensures
        r == has_context(has_store, bound),
        r == (has_store && bound),
{
    has_store && bound
}

/// What a starting session is told of a document: something only where a new
/// version was written.
pub fn session_document_note(doc: &Document, written: bool) -> (r: String)
    ensures
        r@ == if written {
            "RecurOS: a new version of the "@ + doc.name@
                + " was saved since your last session; "@ + doc.file@
                + " is updated. Re-read it before continuing.\n\n"@
        } else {
            ""@
        },
{
    if !written {
        return "".to_owned();
    }
    let mut out = "RecurOS: a new version of the ".to_owned();
    out.append(doc.name.as_str());
    out.append(" was saved since your last session; ");
    out.append(doc.file.as_str());
    out.append(" is updated. Re-read it before continuing.\n\n");
    out
}

/// What a starting session is told of its context: the new version where it
/// changed, else nothing, so that the prompt before it stays the same.
pub fn session_context_note(block: &Option<String>) -> (r: String)
    ensures
        r@ == match text_of(*block) {
            Some(text) =>
                "RecurOS: this project's context changed since AGENTS.md was loaded. Current version:\n\n"@
                + text + "\n"@,
            None => ""@,
        },
{
    match block {
        Some(text) => {
            let mut out =
                "RecurOS: this project's context changed since AGENTS.md was loaded. Current version:\n\n".to_owned();
            out.append(text.as_str());
            out.append("\n");
            out
        },
        None => "".to_owned(),
    }
}

/// What is noted of a pull that failed.
pub fn pull_skipped(cause: &str) -> (r: String)
    ensures
        r@ == "ctx: pull skipped ("@ + cause@ + ")\n"@,
{
    let mut out = "ctx: pull skipped (".to_owned();
    out.append(cause);
    out.append(")\n");
    out
}

// ---- onboard ----

/// What `ctx onboard` prints: the prompt, or that it was copied, for one of
/// the tools that `tools` names. It fails where this directory is not bound.
pub fn onboard(bound: bool, prompt: &str, clip: bool, tools: &str) -> (r: Result<String, String>)
    ensures
        match r {
            Ok(text) => bound && text@ == if clip {
                "copied. Paste it into "@ + tools@ + ".\n"@
            } else {
                prompt@
            },
            Err(text) => !bound && text@
                == "this directory isn't wired yet. Run `ctx init` first"@,
        },
{
    if !bound {
        return Err("this directory isn't wired yet. Run `ctx init` first".to_owned());
    }
    if clip {
        let mut out = "copied. Paste it into ".to_owned();
        out.append(tools);
        out.append(".\n");
        Ok(out)
    } else {
        Ok(prompt.to_owned())
    }
}

// ---- laws ----

/// The root of a repository is the first directory with a repository in it, of
/// those that lead up; there is none exactly where none has one.
pub proof fn the_nearest_repository_is_found(dirs: Seq<Candidate>)
    ensures
        match first_with_git(dirs) {
            Some(path) => exists|i: int|
                {
                    &&& 0 <= i < dirs.len()
                    &&& (#[trigger] dirs[i]).has_git
                    &&& dirs[i].path@ == path
                    &&& forall|j: int| 0 <= j < i ==> !(#[trigger] dirs[j]).has_git
                },
            None => forall|i: int| 0 <= i < dirs.len() ==> !(#[trigger] dirs[i]).has_git,
        },
    decreases dirs.len(),
{
    if dirs.len() > 0 && !dirs[0].has_git {
        let rest = dirs.drop_first();
        the_nearest_repository_is_found(rest);
        match first_with_git(rest) {
            Some(path) => {
                let i = choose|i: int|
                    {
                        &&& 0 <= i < rest.len()
                        &&& (#[trigger] rest[i]).has_git
                        &&& rest[i].path@ == path
                        &&& forall|j: int| 0 <= j < i ==> !(#[trigger] rest[j]).has_git
                    };
                assert(dirs[i + 1] == rest[i]);
                assert forall|j: int| 0 <= j < i + 1 implies !(#[trigger] dirs[j]).has_git by {
                    if j > 0 {
                        assert(rest[j - 1] == dirs[j]);
                    }
                }
            },
            None => {
                assert forall|i: int| 0 <= i < dirs.len() implies !(#[trigger] dirs[i]).has_git by {
                    if i > 0 {
                        assert(rest[i - 1] == dirs[i]);
                    }
                }
            },
        }
    } else if dirs.len() > 0 {
        assert(dirs[0].has_git);
    }
}

/// What `ctx init` is told counts before what there is, and what there is before
/// the directory's name and the usual lane. A project and a lane are chosen each
/// by itself.
pub proof fn what_is_told_counts_first(
    told: Seq<char>,
    kept: BoundView,
    project: Option<Seq<char>>,
    branch: Option<Seq<char>>,
    existing: Option<BoundView>,
    dir_name: Option<Seq<char>>,
)
    ensures
        chosen_binding(Some(told), branch, existing, dir_name).project == idea_name(told),
        chosen_binding(project, Some(told), existing, dir_name).branch == idea_name(told),
        chosen_binding(None, branch, Some(kept), dir_name).project == idea_name(kept.project),
        chosen_binding(project, None, Some(kept), dir_name).branch == idea_name(kept.branch),
        chosen_binding(None, branch, None, Some(told)).project == idea_name(told),
        chosen_binding(None, branch, None, None).project == idea_name(Seq::<char>::empty()),
        chosen_binding(project, None, None, dir_name).branch == idea_name("code"@),
{
}

/// A binding is read as it stands.
pub proof fn a_binding_is_read_as_it_stands(b: Bound)
    ensures
        b@.project == b.project@,
        b@.branch == b.branch@,
        bound_view(Some(b)) == Some(b@),
        bound_view(None) is None,
{
}

/// A document's copy is named by its name in capitals, letter by letter.
pub proof fn capitals_keep_their_places(s: Seq<char>)
    ensures
        in_capitals(s).len() == s.len(),
        forall|i: int|
            0 <= i < s.len() && 'a' <= #[trigger] s[i] <= 'z' ==> in_capitals(s)[i] as u32 + 32
                == s[i] as u32,
        forall|i: int|
            0 <= i < s.len() && !('a' <= #[trigger] s[i] <= 'z') ==> in_capitals(s)[i] == s[i],
{
}

/// What is said of a document's copy names its file, unless there is no
/// document; one that was edited by hand is told apart.
pub proof fn a_copy_is_told_of(state: CopyState, doc: Document, project: Seq<char>)
    ensures
        state is NoDocument <==> copy_line(state, doc, project).len() == 0,
        !(state is NoDocument) ==> mentions(copy_line(state, doc, project), doc.file@),
        state is LeftAlone ==> "  ! "@.is_prefix_of(copy_line(state, doc, project)),
        state is Written || state is Unchanged ==> mentions(
            copy_line(state, doc, project),
            doc.name@ + " from "@ + project,
        ) && copy_line(state, doc, project) == copy_line(CopyState::Written, doc, project),
{
    lemma_copy_texts(doc, project);
    reveal_strlit("");
}

proof fn lemma_copy_texts(doc: Document, project: Seq<char>)
    ensures
        ({
            let edited = "  ! "@ + doc.file@ + "  was edited by hand; left as is\n"@;
            &&& mentions(edited, doc.file@)
            &&& "  ! "@.is_prefix_of(edited)
            &&& edited.len() > 0
        }),
        ({
            let kept = "  ✓ "@ + doc.file@ + "  the "@ + doc.name@ + " from "@ + project
                + "'s research\n"@;
            &&& mentions(kept, doc.file@)
            &&& mentions(kept, doc.name@ + " from "@ + project)
            &&& kept.len() > 0
        }),
{
    reveal_strlit("  ! ");
    let edited = "  ! "@ + doc.file@ + "  was edited by hand; left as is\n"@;
    lemma_mentions("  ! "@, doc.file@, "  was edited by hand; left as is\n"@);
    assert(edited.take(4) =~= "  ! "@);
    let head = "  ✓ "@ + doc.file@ + "  the "@;
    let source = doc.name@ + " from "@ + project;
    let end = "'s research\n"@;
    reveal_strlit("'s research\n");
    lemma_mentions("  ✓ "@, doc.file@, "  the "@);
    lemma_mentions_within(seq![], head, source, doc.file@);
    lemma_mentions_within(seq![], head + source, end, doc.file@);
    lemma_mentions(head, source, end);
    lemma_regrouped(head, doc.name@, " from "@, project);
}

/// The steps for an agent stand one below the other, each indented.
pub proof fn steps_stand_in_order(a: Seq<Seq<char>>, b: Seq<Seq<char>>, step: Seq<char>)
    ensures
        step_lines(a + b) == step_lines(a) + step_lines(b),
        step_lines(seq![step]) == "    "@ + line_feeds_replaced(step, "\n    "@) + "\n"@,
    decreases b.len(),
{
    let one = seq![step];
    assert(one.drop_last() =~= seq![]);
    assert(step_lines(one.drop_last()) =~= seq![]);
    assert(one.last() == step);
    assert(step_lines(one) =~= "    "@ + line_feeds_replaced(step, "\n    "@) + "\n"@);
    if b.len() == 0 {
        assert(a + b =~= a);
        assert(step_lines(a) + step_lines(b) =~= step_lines(a));
    } else {
        steps_stand_in_order(a, b.drop_last(), step);
        assert((a + b).drop_last() =~= a + b.drop_last());
        assert((a + b).last() == b.last());
        assert(step_lines(a + b) =~= step_lines(a) + step_lines(b));
    }
}

/// The counts of kinds stand one below the other, each with its kind.
pub proof fn kinds_stand_in_order(a: Seq<KindCount>, b: Seq<KindCount>, kind: KindCount)
    ensures
        kind_lines(a + b) == kind_lines(a) + kind_lines(b),
        kind_lines(seq![kind]) == "         "@ + padded_left(decimal(kind.count as nat), 5) + " "@ + kind.kind@ + "\n"@,
    decreases b.len(),
{
    let one = seq![kind];
    assert(one.drop_last() =~= seq![]);
    assert(kind_lines(one.drop_last()) =~= seq![]);
    assert(one.last() == kind);
    assert(kind_lines(one) =~= "         "@ + padded_left(decimal(kind.count as nat), 5) + " "@ + kind.kind@ + "\n"@);
    if b.len() == 0 {
        assert(a + b =~= a);
        assert(kind_lines(a) + kind_lines(b) =~= kind_lines(a));
    } else {
        kinds_stand_in_order(a, b.drop_last(), kind);
        assert((a + b).drop_last() =~= a + b.drop_last());
        assert((a + b).last() == b.last());
        assert(kind_lines(a + b) =~= kind_lines(a) + kind_lines(b));
    }
}

/// Which branch is meant, as a value.
pub enum ChosenView {
    Exactly(Seq<char>),
    Resolve(Seq<char>),
}

impl View for Chosen {
    type V = ChosenView;

    open spec fn view(&self) -> ChosenView {
        match self {
            Chosen::Exactly(name) => ChosenView::Exactly(name@),
            Chosen::Resolve(name) => ChosenView::Resolve(name@),
        }
    }
}

/// Which branch `ctx use` means.
pub open spec fn chosen_branch(raw: Seq<char>, bound: bool, default: Seq<char>) -> ChosenView {
    let name = trimmed(raw);
    if !bound && !name.contains('/') && name != default {
        ChosenView::Exactly(idea_name(name) + "/research"@)
    } else {
        ChosenView::Resolve(name)
    }
}

/// Outside a repository the bare name of an idea means its research, and only
/// there: a name with a slash, the usual branch, and every name within a
/// repository is taken as it is, without the white space around it.
pub proof fn a_bare_name_means_research_outside_a_repository(
    raw: Seq<char>,
    bound: bool,
    default: Seq<char>,
)
    ensures
        chosen_branch(raw, bound, default) is Exactly <==> !bound && !trimmed(raw).contains('/')
            && trimmed(raw) != default,
        chosen_branch(raw, bound, default) matches ChosenView::Resolve(name) ==> name == trimmed(
            raw,
        ),
        chosen_branch(raw, bound, default) matches ChosenView::Exactly(name) ==> {
            &&& idea_name(trimmed(raw)).is_prefix_of(name)
            &&& "/research"@.is_suffix_of(name)
            &&& name.len() == idea_name(trimmed(raw)).len() + "/research"@.len()
        },
{
    let idea = idea_name(trimmed(raw));
    let name = idea + "/research"@;
    assert(name.take(idea.len() as int) =~= idea);
    assert(name.skip(idea.len() as int) =~= "/research"@);
}

/// Whether a session has a context to show.
pub open spec fn has_context(has_store: bool, bound: bool) -> bool {
    has_store && bound
}

/// A session has a context to show only where there is a store and the
/// repository is bound, and there it has one.
pub proof fn a_context_needs_a_store_and_a_binding(has_store: bool, bound: bool)
    ensures
        has_context(true, true),
        !has_store ==> !has_context(has_store, bound),
        !bound ==> !has_context(has_store, bound),
{
}

} // verus!

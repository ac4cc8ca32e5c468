//! `ctx remove`: what is meant, what is asked before, what is taken away and
//! what is said of it.

use vstd::prelude::*;
use vstd::string::StringExecFns;

use crate::cli::changes::{total, Holding};
use crate::cli::output::{holdings_text, plural, tag};
use crate::credentials::parses_as_ulid;
use crate::slug::slug;
use crate::text::{contains_char, join, starts_with, trim};
#[allow(unused_imports)]
use crate::cli::changes::{claims_held, docs_held};
#[allow(unused_imports)]
use crate::cli::output::{counted, holdings, tag_text, taggable};
#[allow(unused_imports)]
use crate::credentials::is_ulid;
#[allow(unused_imports)]
use crate::slug::{idea_name, idea_names_are_safe};
#[allow(unused_imports)]
use crate::text::{joined, joining_keeps_every_part, lemma_mentions, lemma_mentions_within,
    lemma_regrouped, mentions, texts, trimmed};

verus! {

// ---- what is meant ----

/// What `ctx remove` is given.
#[derive(Debug)]
pub enum Target {
    Claim(String),
    Branch(String),
    Idea(String),
}

/// What a target says.
pub enum TargetView {
    Claim(Seq<char>),
    Branch(Seq<char>),
    Idea(Seq<char>),
}

impl View for Target {
    type V = TargetView;

    open spec fn view(&self) -> TargetView {
        match self {
            Target::Claim(s) => TargetView::Claim(s@),
            Target::Branch(s) => TargetView::Branch(s@),
            Target::Idea(s) => TargetView::Idea(s@),
        }
    }
}

/// What a text means to `ctx remove`: a claim by its tag, content id or id; a
/// branch by its name with a slash; else an idea.
pub open spec fn meant(raw: Seq<char>) -> TargetView {
    let t = trimmed(raw);
    if "c:"@.is_prefix_of(t) || "b3:"@.is_prefix_of(t) || is_ulid(t) {
        TargetView::Claim(t)
    } else if t.contains('/') {
        TargetView::Branch(t)
    } else {
        TargetView::Idea(idea_name(t))
    }
}

/// What a text means to `ctx remove`.
pub fn removal_target(raw: &str) -> (r: Target)
    ensures
        r@ == meant(raw@),
{
    let t = trim(raw);
    if starts_with(t.as_str(), "c:") || starts_with(t.as_str(), "b3:") || parses_as_ulid(
        t.as_str(),
    ) {
        Target::Claim(t)
    } else if contains_char(t.as_str(), '/') {
        Target::Branch(t)
    } else {
        Target::Idea(slug(t.as_str()))
    }
}

// ---- the steps ----

/// How far a removal got.
pub enum Removal {
    /// The claim that is meant is being looked up.
    FindingClaim,
    /// A claim is being archived.
    Archiving { cid: String, first_line: String },
    /// What a branch holds is being counted.
    CountingBranch { branch: String },
    /// The user is being asked about a branch.
    AskingBranch { branch: String },
    /// A branch is being removed.
    RemovingBranch { branch: String },
    /// What an idea holds is being counted.
    CountingIdea { idea: String },
    /// The user is being asked about an idea.
    AskingIdea { idea: String },
    /// An idea is being removed.
    RemovingIdea { idea: String },
    /// There is nothing left to do.
    Done,
}

/// What a removal's state says.
pub enum RemovalView {
    FindingClaim,
    Archiving { cid: Seq<char>, first_line: Seq<char> },
    CountingBranch { branch: Seq<char> },
    AskingBranch { branch: Seq<char> },
    RemovingBranch { branch: Seq<char> },
    CountingIdea { idea: Seq<char> },
    AskingIdea { idea: Seq<char> },
    RemovingIdea { idea: Seq<char> },
    Done,
}

impl View for Removal {
    type V = RemovalView;

    open spec fn view(&self) -> RemovalView {
        match self {
            Removal::FindingClaim => RemovalView::FindingClaim,
            Removal::Archiving { cid, first_line } => RemovalView::Archiving {
                cid: cid@,
                first_line: first_line@,
            },
            Removal::CountingBranch { branch } => RemovalView::CountingBranch { branch: branch@ },
            Removal::AskingBranch { branch } => RemovalView::AskingBranch { branch: branch@ },
            Removal::RemovingBranch { branch } => RemovalView::RemovingBranch { branch: branch@ },
            Removal::CountingIdea { idea } => RemovalView::CountingIdea { idea: idea@ },
            Removal::AskingIdea { idea } => RemovalView::AskingIdea { idea: idea@ },
            Removal::RemovingIdea { idea } => RemovalView::RemovingIdea { idea: idea@ },
            Removal::Done => RemovalView::Done,
        }
    }
}

/// What the store or the user answered.
pub enum Answer {
    /// The claim that is meant.
    Claim { archived: bool, cid: String, first_line: String },
    /// The claim was archived.
    Archived,
    /// The branch's name as the store writes it, what it holds, and whether
    /// the store knows it.
    Branch { name: String, held: Holding, known: bool },
    /// The branches of the idea, and what each holds.
    Idea { branches: Vec<String>, held: Vec<Holding> },
    /// Whether the user confirmed.
    Confirmed(bool),
    /// What was removed.
    Removed { branches: u64, gone: Holding },
}

/// What an answer says.
pub enum AnswerView {
    Claim { archived: bool, cid: Seq<char>, first_line: Seq<char> },
    Archived,
    Branch { name: Seq<char>, held: Holding, known: bool },
    Idea { branches: Seq<Seq<char>>, held: Seq<Holding> },
    Confirmed(bool),
    Removed { branches: int, gone: Holding },
}

impl View for Answer {
    type V = AnswerView;

    open spec fn view(&self) -> AnswerView {
        match self {
            Answer::Claim { archived, cid, first_line } => AnswerView::Claim {
                archived: *archived,
                cid: cid@,
                first_line: first_line@,
            },
            Answer::Archived => AnswerView::Archived,
            Answer::Branch { name, held, known } => AnswerView::Branch {
                name: name@,
                held: *held,
                known: *known,
            },
            Answer::Idea { branches, held } => AnswerView::Idea {
                branches: texts(branches@),
                held: held@,
            },
            Answer::Confirmed(yes) => AnswerView::Confirmed(*yes),
            Answer::Removed { branches, gone } => AnswerView::Removed {
                branches: *branches as int,
                gone: *gone,
            },
        }
    }
}

/// What is to be done next.
pub enum Order {
    /// Look a claim up; the answer is `Claim`.
    FindClaim(String),
    /// Archive the claim that was found; the answer is `Archived`.
    Archive,
    /// Count what a branch holds; the answer is `Branch`.
    CountBranch(String),
    /// Count what an idea holds; the answer is `Idea`.
    CountIdea(String),
    /// Have this confirmed; the answer is `Confirmed`.
    Ask(String),
    /// Remove a branch; the answer is `Removed`.
    RemoveBranch(String),
    /// Remove an idea; the answer is `Removed`.
    RemoveIdea(String),
    /// Print this; nothing was changed.
    Stop(String),
    /// Print this, refresh `AGENTS.md` and sync.
    Finish(String),
    /// Fail with this.
    Fail(String),
}

/// What an order says.
pub enum OrderView {
    FindClaim(Seq<char>),
    Archive,
    CountBranch(Seq<char>),
    CountIdea(Seq<char>),
    Ask(Seq<char>),
    RemoveBranch(Seq<char>),
    RemoveIdea(Seq<char>),
    Stop(Seq<char>),
    Finish(Seq<char>),
    Fail(Seq<char>),
}

impl View for Order {
    type V = OrderView;

    open spec fn view(&self) -> OrderView {
        match self {
            Order::FindClaim(s) => OrderView::FindClaim(s@),
            Order::Archive => OrderView::Archive,
            Order::CountBranch(s) => OrderView::CountBranch(s@),
            Order::CountIdea(s) => OrderView::CountIdea(s@),
            Order::Ask(s) => OrderView::Ask(s@),
            Order::RemoveBranch(s) => OrderView::RemoveBranch(s@),
            Order::RemoveIdea(s) => OrderView::RemoveIdea(s@),
            Order::Stop(s) => OrderView::Stop(s@),
            Order::Finish(s) => OrderView::Finish(s@),
            Order::Fail(s) => OrderView::Fail(s@),
        }
    }
}

/// The first step of a removal.
pub open spec fn first_step(raw: Seq<char>) -> (RemovalView, OrderView) {
    match meant(raw) {
        TargetView::Claim(t) => (RemovalView::FindingClaim, OrderView::FindClaim(t)),
        TargetView::Branch(branch) => (
            RemovalView::CountingBranch { branch },
            OrderView::CountBranch(branch),
        ),
        TargetView::Idea(idea) => (RemovalView::CountingIdea { idea }, OrderView::CountIdea(idea)),
    }
}

/// What is said at the end of every removal.
pub open spec fn closing() -> Seq<char> {
    "gone from packs, search and AGENTS.md; still in the history (the log is never erased)\n"@
}

/// The question before a branch is deleted.
pub open spec fn branch_question(branch: Seq<char>, held: Holding) -> Seq<char> {
    "Delete branch "@ + branch + " ("@ + holdings(held.claims as int, held.docs as int) + ")?"@
}

/// The question before an idea is deleted.
pub open spec fn idea_question(
    idea: Seq<char>,
    branches: Seq<Seq<char>>,
    held: Seq<Holding>,
) -> Seq<char> {
    "Delete the idea `"@ + idea + "` ("@ + joined(branches, ", "@) + ": "@ + holdings(
        claims_held(held) as int,
        docs_held(held) as int,
    ) + ")?"@
}

/// What is said of a deleted branch.
pub open spec fn branch_deleted(branch: Seq<char>, gone: Holding) -> Seq<char> {
    "deleted "@ + branch + ": "@ + holdings(gone.claims as int, gone.docs as int) + "\n"@
}

/// What is said of a deleted idea.
pub open spec fn idea_deleted(idea: Seq<char>, branches: int, gone: Holding) -> Seq<char> {
    "deleted "@ + idea + ": "@ + counted(branches, "branch"@, "branches"@) + ", "@ + holdings(
        gone.claims as int,
        gone.docs as int,
    ) + "\n"@
}

/// Whether an answer is of the kind that a state waits for, and can be put in
/// words: a claim's content id can be cut to a tag, and sums fit a machine
/// word.
pub open spec fn answers(state: RemovalView, answer: AnswerView) -> bool {
    match (state, answer) {
        (RemovalView::FindingClaim, AnswerView::Claim { cid, .. }) => taggable(cid),
        (RemovalView::Archiving { cid, .. }, AnswerView::Archived) => taggable(cid),
        (RemovalView::CountingBranch { .. }, AnswerView::Branch { .. }) => true,
        (RemovalView::CountingIdea { .. }, AnswerView::Idea { held, .. }) => claims_held(held)
            <= u64::MAX && docs_held(held) <= u64::MAX,
        (RemovalView::AskingBranch { .. }, AnswerView::Confirmed(_)) => true,
        (RemovalView::AskingIdea { .. }, AnswerView::Confirmed(_)) => true,
        (RemovalView::RemovingBranch { .. }, AnswerView::Removed { .. }) => true,
        (RemovalView::RemovingIdea { .. }, AnswerView::Removed { .. }) => true,
        _ => false,
    }
}

/// What is done after an answer, and how far the removal is then. With `cloud`
/// the removal must reach the cloud, so a claim that was deleted before, which
/// may have gone no further than this machine, is synced again.
pub open spec fn next_step(state: RemovalView, answer: AnswerView, cloud: bool) -> (
    RemovalView,
    OrderView,
) {
    match (state, answer) {
        (
            RemovalView::FindingClaim,
            AnswerView::Claim { archived, cid, first_line },
        ) => if archived && cloud {
            (RemovalView::Done, OrderView::Finish(tag_text(cid) + " is already deleted\n"@))
        } else if archived {
            (RemovalView::Done, OrderView::Stop(tag_text(cid) + " is already deleted\n"@))
        } else {
            (RemovalView::Archiving { cid, first_line }, OrderView::Archive)
        },
        (RemovalView::Archiving { cid, first_line }, _) => (
            RemovalView::Done,
            OrderView::Finish(
                "deleted "@ + tag_text(cid) + " \""@ + first_line + "\"\n"@ + closing(),
            ),
        ),
        (
            RemovalView::CountingBranch { branch },
            AnswerView::Branch { name, held, known },
        ) => if held.claims == 0 && held.docs == 0 && !known {
            (RemovalView::Done, OrderView::Fail("no branch named `"@ + branch + "`"@))
        } else {
            (
                RemovalView::AskingBranch { branch: name },
                OrderView::Ask(branch_question(name, held)),
            )
        },
        (
            RemovalView::CountingIdea { idea },
            AnswerView::Idea { branches, held },
        ) => if branches.len() == 0 {
            (
                RemovalView::Done,
                OrderView::Fail(
                    "no idea named `"@ + idea
                        + "`. To delete one claim, use its tag: ctx delete c:xxxx"@,
                ),
            )
        } else {
            (
                RemovalView::AskingIdea { idea },
                OrderView::Ask(idea_question(idea, branches, held)),
            )
        },
        (RemovalView::AskingBranch { branch }, AnswerView::Confirmed(true)) => (
            RemovalView::RemovingBranch { branch },
            OrderView::RemoveBranch(branch),
        ),
        (RemovalView::AskingIdea { idea }, AnswerView::Confirmed(true)) => (
            RemovalView::RemovingIdea { idea },
            OrderView::RemoveIdea(idea),
        ),
        (RemovalView::RemovingBranch { branch }, AnswerView::Removed { gone, .. }) => (
            RemovalView::Done,
            OrderView::Finish(branch_deleted(branch, gone) + closing()),
        ),
        (RemovalView::RemovingIdea { idea }, AnswerView::Removed { branches, gone }) => (
            RemovalView::Done,
            OrderView::Finish(idea_deleted(idea, branches, gone) + closing()),
        ),
        _ => (RemovalView::Done, OrderView::Stop("nothing deleted\n"@)),
    }
}

/// Starts the removal of what `raw` means.
pub fn start_removal(raw: &str) -> (r: (Removal, Order))
    ensures
        (r.0@, r.1@) == first_step(raw@),
{
    match removal_target(raw) {
        Target::Claim(t) => (Removal::FindingClaim, Order::FindClaim(t)),
        Target::Branch(branch) => (
            Removal::CountingBranch { branch: branch.clone() },
            Order::CountBranch(branch),
        ),
        Target::Idea(idea) => (
            Removal::CountingIdea { idea: idea.clone() },
            Order::CountIdea(idea),
        ),
    }
}

fn end_with_closing(out: &mut String)
    ensures
        final(out)@ == old(out)@ + closing(),
{
    out.append(
        "gone from packs, search and AGENTS.md; still in the history (the log is never erased)\n",
    );
}

fn claim_found(archived: bool, cid: String, first_line: String, cloud: bool) -> (r: (
    Removal,
    Order,
))
    requires
        taggable(cid@),
    ensures
        (r.0@, r.1@) == next_step(
            RemovalView::FindingClaim,
            AnswerView::Claim { archived, cid: cid@, first_line: first_line@ },
            cloud,
        ),
{
    if archived {
        let mut out = tag(cid.as_str());
        out.append(" is already deleted\n");
        if cloud {
            (Removal::Done, Order::Finish(out))
        } else {
            (Removal::Done, Order::Stop(out))
        }
    } else {
        (Removal::Archiving { cid, first_line }, Order::Archive)
    }
}

fn claim_archived(cid: String, first_line: String, cloud: bool) -> (r: (Removal, Order))
    requires
        taggable(cid@),
    ensures
        (r.0@, r.1@) == next_step(
            RemovalView::Archiving { cid: cid@, first_line: first_line@ },
            AnswerView::Archived,
            cloud,
        ),
{
    let mut out = "deleted ".to_owned();
    out.append(tag(cid.as_str()).as_str());
    out.append(" \"");
    out.append(first_line.as_str());
    out.append("\"\n");
    end_with_closing(&mut out);
    (Removal::Done, Order::Finish(out))
}

fn branch_counted(branch: String, name: String, held: Holding, known: bool, cloud: bool) -> (r: (
    Removal,
    Order,
))
    ensures
        (r.0@, r.1@) == next_step(
            RemovalView::CountingBranch { branch: branch@ },
            AnswerView::Branch { name: name@, held, known },
            cloud,
        ),
{
    if held.claims == 0 && held.docs == 0 && !known {
        let mut text = "no branch named `".to_owned();
        text.append(branch.as_str());
        text.append("`");
        return (Removal::Done, Order::Fail(text));
    }
    let mut out = "Delete branch ".to_owned();
    out.append(name.as_str());
    out.append(" (");
    out.append(holdings_text(held.claims, held.docs).as_str());
    out.append(")?");
    (Removal::AskingBranch { branch: name }, Order::Ask(out))
}

fn idea_counted(idea: String, branches: Vec<String>, held: Vec<Holding>, cloud: bool) -> (r: (
    Removal,
    Order,
))
    requires
        claims_held(held@) <= u64::MAX,
        docs_held(held@) <= u64::MAX,
    ensures
        (r.0@, r.1@) == next_step(
            RemovalView::CountingIdea { idea: idea@ },
            AnswerView::Idea { branches: texts(branches@), held: held@ },
            cloud,
        ),
{
    if branches.len() == 0 {
        let mut text = "no idea named `".to_owned();
        text.append(idea.as_str());
        text.append("`. To delete one claim, use its tag: ctx delete c:xxxx");
        return (Removal::Done, Order::Fail(text));
    }
    let sum = total(&held);
    let mut out = "Delete the idea `".to_owned();
    out.append(idea.as_str());
    out.append("` (");
    out.append(join(&branches, ", ").as_str());
    out.append(": ");
    out.append(holdings_text(sum.claims, sum.docs).as_str());
    out.append(")?");
    (Removal::AskingIdea { idea }, Order::Ask(out))
}

fn branch_removed(branch: &str, gone: Holding) -> (r: String)
    ensures
        r@ == branch_deleted(branch@, gone) + closing(),
{
    let mut out = "deleted ".to_owned();
    out.append(branch);
    out.append(": ");
    out.append(holdings_text(gone.claims, gone.docs).as_str());
    out.append("\n");
    end_with_closing(&mut out);
    out
}

fn idea_removed(idea: &str, branches: u64, gone: Holding) -> (r: String)
    ensures
        r@ == idea_deleted(idea@, branches as int, gone) + closing(),
{
    let mut out = "deleted ".to_owned();
    out.append(idea);
    out.append(": ");
    out.append(plural(branches, "branch", "branches").as_str());
    out.append(", ");
    out.append(holdings_text(gone.claims, gone.docs).as_str());
    out.append("\n");
    end_with_closing(&mut out);
    out
}

/// The next step of a removal, which `cloud` has reach the cloud.
pub fn continue_removal(state: Removal, answer: Answer, cloud: bool) -> (r: (Removal, Order))
    requires
        answers(state@, answer@),
    ensures
        (r.0@, r.1@) == next_step(state@, answer@, cloud),
{
    match (state, answer) {
        (Removal::FindingClaim, Answer::Claim { archived, cid, first_line }) => claim_found(
            archived,
            cid,
            first_line,
            cloud,
        ),
        (Removal::Archiving { cid, first_line }, Answer::Archived) => claim_archived(
            cid,
            first_line,
            cloud,
        ),
        (Removal::CountingBranch { branch }, Answer::Branch { name, held, known }) => branch_counted(
            branch,
            name,
            held,
            known,
            cloud,
        ),
        (Removal::CountingIdea { idea }, Answer::Idea { branches, held }) => idea_counted(
            idea,
            branches,
            held,
            cloud,
        ),
        (Removal::AskingBranch { branch }, Answer::Confirmed(yes)) => if yes {
            (
                Removal::RemovingBranch { branch: branch.clone() },
                Order::RemoveBranch(branch),
            )
        } else {
            (Removal::Done, Order::Stop("nothing deleted\n".to_owned()))
        },
        (Removal::AskingIdea { idea }, Answer::Confirmed(yes)) => if yes {
            (Removal::RemovingIdea { idea: idea.clone() }, Order::RemoveIdea(idea))
        } else {
            (Removal::Done, Order::Stop("nothing deleted\n".to_owned()))
        },
        (Removal::RemovingBranch { branch }, Answer::Removed { gone, .. }) => (
            Removal::Done,
            Order::Finish(branch_removed(branch.as_str(), gone)),
        ),
        (Removal::RemovingIdea { idea }, Answer::Removed { branches, gone }) => (
            Removal::Done,
            Order::Finish(idea_removed(idea.as_str(), branches, gone)),
        ),
        _ => (Removal::Done, Order::Stop("nothing deleted\n".to_owned())),
    }
}

// ---- laws ----

/// A claim's tag, as it is printed between its brackets, means that claim to
/// `ctx remove`.
pub proof fn a_tag_means_its_claim(short: Seq<char>)
    requires
        trimmed("c:"@ + short) == "c:"@ + short,
    ensures
        meant("c:"@ + short) == TargetView::Claim("c:"@ + short),
{
    let t = "c:"@ + short;
    assert(t.subrange(0, "c:"@.len() as int) =~= "c:"@);
}

/// No branch and no idea is removed unless the user confirmed it: the order to
/// remove one comes only on a yes, and only for what was asked about.
pub proof fn nothing_is_removed_unconfirmed(state: RemovalView, answer: AnswerView, cloud: bool)
    ensures
        next_step(state, answer, cloud).1 matches OrderView::RemoveBranch(branch) ==> answer
            == AnswerView::Confirmed(true) && state == (RemovalView::AskingBranch { branch }),
        next_step(state, answer, cloud).1 matches OrderView::RemoveIdea(idea) ==> answer
            == AnswerView::Confirmed(true) && state == (RemovalView::AskingIdea { idea }),
{
}

/// A refusal changes nothing: the removal is over, and it says so.
pub proof fn a_refusal_ends_the_removal(state: RemovalView, cloud: bool)
    requires
        state is AskingBranch || state is AskingIdea,
    ensures
        next_step(state, AnswerView::Confirmed(false), cloud) == (
            RemovalView::Done,
            OrderView::Stop("nothing deleted\n"@),
        ),
{
}

/// What must reach the cloud does not end without a sync: it stops early only
/// where the user declined, so that nothing is to be synced.
pub proof fn the_cloud_is_not_passed_over(state: RemovalView, answer: AnswerView)
    requires
        answers(state, answer),
    ensures
        next_step(state, answer, true).1 is Stop ==> answer == AnswerView::Confirmed(false) && (
        state is AskingBranch || state is AskingIdea),
        next_step(state, answer, true).0 is Done ==> {
            let order = next_step(state, answer, true).1;
            order is Finish || order is Fail || answer == AnswerView::Confirmed(false)
        },
{
}

/// What the store does not have is refused, and nothing is removed: a branch
/// that holds nothing and that the store does not know, and an idea without
/// branches.
pub proof fn an_unknown_target_is_refused(
    branch: Seq<char>,
    name: Seq<char>,
    idea: Seq<char>,
    held: Holding,
    cloud: bool,
)
    requires
        held.claims == 0 && held.docs == 0,
    ensures
        next_step(
            RemovalView::CountingBranch { branch },
            AnswerView::Branch { name, held, known: false },
            cloud,
        ) == (RemovalView::Done, OrderView::Fail("no branch named `"@ + branch + "`"@)),
        next_step(
            RemovalView::CountingIdea { idea },
            AnswerView::Idea { branches: seq![], held: seq![] },
            cloud,
        ) == (
            RemovalView::Done,
            OrderView::Fail(
                "no idea named `"@ + idea
                    + "`. To delete one claim, use its tag: ctx delete c:xxxx"@,
            ),
        ),
{
}

/// A branch is refused as unknown only where the store does not know it and it
/// holds nothing. Where it is known, or holds a claim or a document, it is asked
/// about, by its name and with what it holds.
pub proof fn a_branch_that_is_there_is_asked_about(
    branch: Seq<char>,
    name: Seq<char>,
    held: Holding,
    known: bool,
    cloud: bool,
)
    ensures
        ({
            let (state, order) = next_step(
                RemovalView::CountingBranch { branch },
                AnswerView::Branch { name, held, known },
                cloud,
            );
            &&& order is Ask <==> known || held.claims > 0 || held.docs > 0
            &&& order is Fail <==> !known && held.claims == 0 && held.docs == 0
            &&& order matches OrderView::Ask(question) ==> {
                &&& state == (RemovalView::AskingBranch { branch: name })
                &&& mentions(question, name)
                &&& mentions(question, holdings(held.claims as int, held.docs as int))
            }
            &&& order matches OrderView::Fail(text) ==> state is Done && mentions(text, branch)
        }),
{
    let p0 = "Delete branch "@;
    let p2 = " ("@;
    let what = holdings(held.claims as int, held.docs as int);
    lemma_mentions(p0, name, p2);
    lemma_mentions_within(seq![], p0 + name + p2, what, name);
    lemma_mentions_within(seq![], p0 + name + p2 + what, ")?"@, name);
    lemma_mentions(p0 + name + p2, what, ")?"@);
    lemma_mentions("no branch named `"@, branch, "`"@);
}

/// An idea is refused as unknown only where it has no branches. Otherwise it is
/// asked about, by its name, with every one of its branches and what they hold
/// together.
pub proof fn an_idea_that_is_there_is_asked_about(
    idea: Seq<char>,
    branches: Seq<Seq<char>>,
    held: Seq<Holding>,
    cloud: bool,
)
    ensures
        ({
            let (state, order) = next_step(
                RemovalView::CountingIdea { idea },
                AnswerView::Idea { branches, held },
                cloud,
            );
            &&& order is Ask <==> branches.len() > 0
            &&& order is Fail <==> branches.len() == 0
            &&& order matches OrderView::Ask(question) ==> {
                &&& state == (RemovalView::AskingIdea { idea })
                &&& mentions(question, idea)
                &&& mentions(
                    question,
                    holdings(claims_held(held) as int, docs_held(held) as int),
                )
                &&& forall|i: int|
                    0 <= i < branches.len() ==> mentions(question, #[trigger] branches[i])
            }
            &&& order matches OrderView::Fail(text) ==> state is Done && mentions(text, idea)
        }),
{
    let p0 = "Delete the idea `"@;
    let p1 = idea;
    let p2 = "` ("@;
    let p3 = joined(branches, ", "@);
    let p4 = ": "@;
    let p5 = holdings(claims_held(held) as int, docs_held(held) as int);
    let p6 = ")?"@;
    let s0 = p0;
    let s1 = s0 + p1;
    let s2 = s1 + p2;
    let s3 = s2 + p3;
    let s4 = s3 + p4;
    let s5 = s4 + p5;
    let s6 = s5 + p6;
    lemma_mentions(s0, p1, seq![]);
    lemma_mentions_within(seq![], s1, p2, p1);
    lemma_mentions_within(seq![], s2, p3, p1);
    lemma_mentions_within(seq![], s3, p4, p1);
    lemma_mentions_within(seq![], s4, p5, p1);
    lemma_mentions_within(seq![], s5, p6, p1);
    lemma_mentions(s4, p5, seq![]);
    lemma_mentions_within(seq![], s5, p6, p5);
    assert(idea_question(idea, branches, held) == s6);
    joining_keeps_every_part(branches, ", "@, seq![]);
    assert forall|i: int| 0 <= i < branches.len() implies mentions(s6, #[trigger] branches[i]) by {
        lemma_mentions_within(s2, p3, p4, branches[i]);
        lemma_mentions_within(seq![], s4, p5, branches[i]);
        lemma_mentions_within(seq![], s5, p6, branches[i]);
    }
    lemma_mentions(
        "no idea named `"@,
        idea,
        "`. To delete one claim, use its tag: ctx delete c:xxxx"@,
    );
}

proof fn lemma_deleted_texts(branch: Seq<char>, idea: Seq<char>, branches: int, gone: Holding)
    ensures
        mentions(
            branch_deleted(branch, gone),
            branch + ": "@ + holdings(gone.claims as int, gone.docs as int),
        ),
        mentions(
            idea_deleted(idea, branches, gone),
            idea + ": "@ + counted(branches, "branch"@, "branches"@) + ", "@ + holdings(
                gone.claims as int,
                gone.docs as int,
            ),
        ),
{
    let what = holdings(gone.claims as int, gone.docs as int);
    let told = branch + ": "@ + what;
    lemma_mentions("deleted "@, told, "\n"@);
    lemma_regrouped("deleted "@, branch, ": "@, what);
    let number = counted(branches, "branch"@, "branches"@);
    let head = idea + ": "@ + number;
    let all = head + ", "@ + what;
    lemma_mentions("deleted "@, all, "\n"@);
    lemma_regrouped("deleted "@, head, ", "@, what);
    lemma_regrouped("deleted "@, idea, ": "@, number);
}

/// What was confirmed is removed, that and nothing else, and what came of it is
/// told by its name and its counts.
pub proof fn a_confirmed_removal_is_carried_out(
    branch: Seq<char>,
    idea: Seq<char>,
    branches: int,
    gone: Holding,
    cloud: bool,
)
    requires
        branches >= 0,
    ensures
        next_step(RemovalView::AskingBranch { branch }, AnswerView::Confirmed(true), cloud) == (
            RemovalView::RemovingBranch { branch },
            OrderView::RemoveBranch(branch),
        ),
        next_step(RemovalView::AskingIdea { idea }, AnswerView::Confirmed(true), cloud) == (
            RemovalView::RemovingIdea { idea },
            OrderView::RemoveIdea(idea),
        ),
        next_step(
            RemovalView::RemovingBranch { branch },
            AnswerView::Removed { branches, gone },
            cloud,
        ).1 matches OrderView::Finish(text) && mentions(
            text,
            branch + ": "@ + holdings(gone.claims as int, gone.docs as int),
        ),
        next_step(
            RemovalView::RemovingIdea { idea },
            AnswerView::Removed { branches, gone },
            cloud,
        ).1 matches OrderView::Finish(text) && mentions(
            text,
            idea + ": "@ + counted(branches, "branch"@, "branches"@) + ", "@ + holdings(
                gone.claims as int,
                gone.docs as int,
            ),
        ),
{
    lemma_deleted_texts(branch, idea, branches, gone);
    let what = holdings(gone.claims as int, gone.docs as int);
    let told = branch + ": "@ + what;
    lemma_mentions_within(seq![], branch_deleted(branch, gone), closing(), told);
    let all = idea + ": "@ + counted(branches, "branch"@, "branches"@) + ", "@ + what;
    lemma_mentions_within(seq![], idea_deleted(idea, branches, gone), closing(), all);
}

/// A claim that is not deleted yet is archived, and then told of by its tag and
/// its first line; one that is deleted is not archived again.
pub proof fn a_claim_is_archived_once(
    archived: bool,
    cid: Seq<char>,
    first_line: Seq<char>,
    cloud: bool,
)
    ensures
        next_step(
            RemovalView::FindingClaim,
            AnswerView::Claim { archived, cid, first_line },
            cloud,
        ).1 is Archive <==> !archived,
        !archived ==> next_step(
            RemovalView::FindingClaim,
            AnswerView::Claim { archived, cid, first_line },
            cloud,
        ).0 == (RemovalView::Archiving { cid, first_line }),
        next_step(
            RemovalView::Archiving { cid, first_line },
            AnswerView::Archived,
            cloud,
        ).1 matches OrderView::Finish(text) && mentions(
            text,
            tag_text(cid) + " \""@ + first_line + "\""@,
        ),
{
    let told = tag_text(cid) + " \""@ + first_line + "\""@;
    reveal_strlit("\"");
    reveal_strlit("\n");
    reveal_strlit("\"\n");
    assert("\""@ + "\n"@ =~= "\"\n"@);
    let line = "deleted "@ + tag_text(cid) + " \""@ + first_line + "\"\n"@;
    assert("deleted "@ + told + "\n"@ =~= line);
    lemma_mentions("deleted "@, told, "\n"@);
    lemma_mentions_within(seq![], line, closing(), told);
}

/// What a text means is decided by how it reads without the white space around
/// it: a tag, a content id or an id means a claim, any other text with a slash a
/// branch, and every other an idea.
pub proof fn a_target_is_read_by_its_form(raw: Seq<char>)
    ensures
        meant(raw) is Claim <==> "c:"@.is_prefix_of(trimmed(raw)) || "b3:"@.is_prefix_of(
            trimmed(raw),
        ) || is_ulid(trimmed(raw)),
        meant(raw) is Branch <==> !(meant(raw) is Claim) && trimmed(raw).contains('/'),
        meant(raw) matches TargetView::Claim(id) ==> id == trimmed(raw),
        meant(raw) matches TargetView::Branch(name) ==> name == trimmed(raw),
        meant(raw) matches TargetView::Idea(idea) ==> idea == idea_name(trimmed(raw))
            && !idea.contains('/'),
{
    idea_names_are_safe(trimmed(raw));
}

/// A removal starts with looking at what is meant, and changes nothing yet.
pub proof fn a_removal_starts_with_looking(raw: Seq<char>)
    ensures
        meant(raw) matches TargetView::Claim(id) ==> first_step(raw) == (
            RemovalView::FindingClaim,
            OrderView::FindClaim(id),
        ),
        meant(raw) matches TargetView::Branch(branch) ==> first_step(raw) == (
            RemovalView::CountingBranch { branch },
            OrderView::CountBranch(branch),
        ),
        meant(raw) matches TargetView::Idea(idea) ==> first_step(raw) == (
            RemovalView::CountingIdea { idea },
            OrderView::CountIdea(idea),
        ),
{
}

/// Answers and orders are read as they stand.
pub proof fn answers_and_orders_are_read_as_they_stand(
    flag: bool,
    a: String,
    b: String,
    names: Vec<String>,
    one: Holding,
    held: Vec<Holding>,
    n: u64,
)
    ensures
        (Answer::Claim { archived: flag, cid: a, first_line: b })@ == (AnswerView::Claim {
            archived: flag,
            cid: a@,
            first_line: b@,
        }),
        Answer::Archived@ == AnswerView::Archived,
        (Answer::Branch { name: a, held: one, known: flag })@ == (AnswerView::Branch {
            name: a@,
            held: one,
            known: flag,
        }),
        (Answer::Idea { branches: names, held })@ == (AnswerView::Idea {
            branches: texts(names@),
            held: held@,
        }),
        Answer::Confirmed(flag)@ == AnswerView::Confirmed(flag),
        (Answer::Removed { branches: n, gone: one })@ == (AnswerView::Removed {
            branches: n as int,
            gone: one,
        }),
        Order::FindClaim(a)@ == OrderView::FindClaim(a@),
        Order::Archive@ == OrderView::Archive,
        Order::CountBranch(a)@ == OrderView::CountBranch(a@),
        Order::CountIdea(a)@ == OrderView::CountIdea(a@),
        Order::Ask(a)@ == OrderView::Ask(a@),
        Order::RemoveBranch(a)@ == OrderView::RemoveBranch(a@),
        Order::RemoveIdea(a)@ == OrderView::RemoveIdea(a@),
        Order::Stop(a)@ == OrderView::Stop(a@),
        Order::Finish(a)@ == OrderView::Finish(a@),
        Order::Fail(a)@ == OrderView::Fail(a@),
        (Removal::Archiving { cid: a, first_line: b })@ == (RemovalView::Archiving {
            cid: a@,
            first_line: b@,
        }),
        (Removal::CountingBranch { branch: a })@ == (RemovalView::CountingBranch { branch: a@ }),
        (Removal::AskingBranch { branch: a })@ == (RemovalView::AskingBranch { branch: a@ }),
        (Removal::RemovingBranch { branch: a })@ == (RemovalView::RemovingBranch { branch: a@ }),
        (Removal::CountingIdea { idea: a })@ == (RemovalView::CountingIdea { idea: a@ }),
        (Removal::AskingIdea { idea: a })@ == (RemovalView::AskingIdea { idea: a@ }),
        (Removal::RemovingIdea { idea: a })@ == (RemovalView::RemovingIdea { idea: a@ }),
        Target::Claim(a)@ == TargetView::Claim(a@),
        Target::Branch(a)@ == TargetView::Branch(a@),
        Target::Idea(a)@ == TargetView::Idea(a@),
{
}

/// Whatever was deleted, what is said of it ends by telling where it is gone from
/// and that the history still has it.
pub proof fn every_deletion_tells_what_is_kept(
    state: RemovalView,
    answer: AnswerView,
    cloud: bool,
)
    requires
        state is Archiving || ((state is RemovingBranch || state is RemovingIdea)
            && answer is Removed),
    ensures
        next_step(state, answer, cloud).1 matches OrderView::Finish(text)
            && "gone from packs, search and AGENTS.md; still in the history (the log is never erased)\n"@.is_suffix_of(
            text,
        ),
{
    let before = match (state, answer) {
        (RemovalView::RemovingBranch { branch }, AnswerView::Removed { gone, .. }) =>
            branch_deleted(branch, gone),
        (RemovalView::RemovingIdea { idea }, AnswerView::Removed { branches, gone }) =>
            idea_deleted(idea, branches, gone),
        (RemovalView::Archiving { cid, first_line }, _) => "deleted "@ + tag_text(cid) + " \""@
            + first_line + "\"\n"@,
        _ => seq![],
    };
    lemma_ends_with(before, closing());
}

proof fn lemma_ends_with(before: Seq<char>, end: Seq<char>)
    ensures
        end.is_suffix_of(before + end),
{
    let all = before + end;
    assert(all.skip(all.len() - end.len()) =~= end);
}

} // verus!

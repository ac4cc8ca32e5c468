//! `ctx rename`: the same context under a new name.

use vstd::prelude::*;
use vstd::string::StringExecFns;

use crate::cli::changes::{total, Holding};
use crate::cli::output::{holdings_text, plural};
use crate::slug::slug;
use crate::text::is_text;
#[allow(unused_imports)]
use crate::cli::changes::{claims_held, docs_held};
#[allow(unused_imports)]
use crate::cli::output::{claims_counted, counted, holdings};
#[allow(unused_imports)]
use crate::slug::idea_name;
#[allow(unused_imports)]
use crate::text::{lemma_mentions, lemma_mentions_within, lemma_regrouped, mentions, text_of};

verus! {

/// How far a renaming got.
pub enum Renaming {
    /// What the idea holds is being counted.
    Counting { from: String, to: String },
    /// The user is being asked.
    Asking { from: String, to: String },
    /// The idea is being renamed.
    Moving { from: String, to: String },
    /// There is nothing left to do.
    Done,
}

/// What a renaming's state says.
pub enum RenamingView {
    Counting { from: Seq<char>, to: Seq<char> },
    Asking { from: Seq<char>, to: Seq<char> },
    Moving { from: Seq<char>, to: Seq<char> },
    Done,
}

impl View for Renaming {
    type V = RenamingView;

    open spec fn view(&self) -> RenamingView {
        match self {
            Renaming::Counting { from, to } => RenamingView::Counting { from: from@, to: to@ },
            Renaming::Asking { from, to } => RenamingView::Asking { from: from@, to: to@ },
            Renaming::Moving { from, to } => RenamingView::Moving { from: from@, to: to@ },
            Renaming::Done => RenamingView::Done,
        }
    }
}

/// How much was renamed.
#[derive(Debug, Clone, Copy)]
pub struct Moved {
    pub claims: u64,
    pub docs: u64,
    pub branches: u64,
}

/// What the store or the user answered.
pub enum RenameAnswer {
    /// What each branch of the idea holds.
    Counted(Vec<Holding>),
    /// Whether the user confirmed.
    Confirmed(bool),
    /// What was renamed, and which project and branch this repository is bound
    /// to.
    Renamed { moved: Moved, project: Option<String>, branch: String },
}

/// What an answer says.
pub enum RenameAnswerView {
    Counted(Seq<Holding>),
    Confirmed(bool),
    Renamed { moved: Moved, project: Option<Seq<char>>, branch: Seq<char> },
}

impl View for RenameAnswer {
    type V = RenameAnswerView;

    open spec fn view(&self) -> RenameAnswerView {
        match self {
            RenameAnswer::Counted(held) => RenameAnswerView::Counted(held@),
            RenameAnswer::Confirmed(yes) => RenameAnswerView::Confirmed(*yes),
            RenameAnswer::Renamed { moved, project, branch } => RenameAnswerView::Renamed {
                moved: *moved,
                project: text_of(*project),
                branch: branch@,
            },
        }
    }
}

/// What is to be done next.
pub enum RenameOrder {
    /// Count what the branches of an idea hold; the answer is `Counted`.
    Count(String),
    /// Have this confirmed; the answer is `Confirmed`.
    Ask(String),
    /// Rename an idea; the answer is `Renamed`.
    Move { from: String, to: String },
    /// Print this; nothing was changed.
    Stop(String),
    /// Print this; then, where there is more, bind this repository to the new
    /// name and print that; then refresh `AGENTS.md` and sync.
    Finish { said: String, rebound: Option<String> },
    /// Fail with this.
    Fail(String),
}

/// What an order says.
pub enum RenameOrderView {
    Count(Seq<char>),
    Ask(Seq<char>),
    Move { from: Seq<char>, to: Seq<char> },
    Stop(Seq<char>),
    Finish { said: Seq<char>, rebound: Option<Seq<char>> },
    Fail(Seq<char>),
}

impl View for RenameOrder {
    type V = RenameOrderView;

    open spec fn view(&self) -> RenameOrderView {
        match self {
            RenameOrder::Count(s) => RenameOrderView::Count(s@),
            RenameOrder::Ask(s) => RenameOrderView::Ask(s@),
            RenameOrder::Move { from, to } => RenameOrderView::Move { from: from@, to: to@ },
            RenameOrder::Stop(s) => RenameOrderView::Stop(s@),
            RenameOrder::Finish { said, rebound } => RenameOrderView::Finish {
                said: said@,
                rebound: text_of(*rebound),
            },
            RenameOrder::Fail(s) => RenameOrderView::Fail(s@),
        }
    }
}

/// The question before an idea is renamed.
pub open spec fn rename_question(from: Seq<char>, to: Seq<char>, held: Seq<Holding>) -> Seq<char> {
    "Rename "@ + from + " to "@ + to + " ("@ + holdings(
        claims_held(held) as int,
        docs_held(held) as int,
    ) + ")? Nothing is lost; the old name is kept as history."@
}

/// What is said of a renaming.
pub open spec fn renamed_text(from: Seq<char>, to: Seq<char>, moved: Moved) -> Seq<char> {
    "renamed "@ + from + " to "@ + to + ": "@ + claims_counted(moved.claims as int) + ", "@
        + counted(moved.docs as int, "document"@, "documents"@) + " across "@ + counted(
        moved.branches as int,
        "branch"@,
        "branches"@,
    ) + "\n"@
}

/// What is said of a repository that follows its idea to the new name.
pub open spec fn rebound_text(to: Seq<char>, branch: Seq<char>) -> Seq<char> {
    "  this repo now uses "@ + to + "/"@ + branch + "\n"@
}

/// Whether an answer is of the kind that a state waits for, and sums fit a
/// machine word.
pub open spec fn answers_rename(state: RenamingView, answer: RenameAnswerView) -> bool {
    match (state, answer) {
        (RenamingView::Counting { .. }, RenameAnswerView::Counted(held)) => claims_held(held)
            <= u64::MAX && docs_held(held) <= u64::MAX,
        (RenamingView::Asking { .. }, RenameAnswerView::Confirmed(_)) => true,
        (RenamingView::Moving { .. }, RenameAnswerView::Renamed { .. }) => true,
        _ => false,
    }
}

/// What is done after an answer, and how far the renaming is then. A
/// repository that is bound to the old name follows it.
pub open spec fn next_rename_step(state: RenamingView, answer: RenameAnswerView) -> (
    RenamingView,
    RenameOrderView,
) {
    match (state, answer) {
        (
            RenamingView::Counting { from, to },
            RenameAnswerView::Counted(held),
        ) => if held.len() == 0 {
            (RenamingView::Done, RenameOrderView::Fail("no idea named `"@ + from + "`"@))
        } else {
            (
                RenamingView::Asking { from, to },
                RenameOrderView::Ask(rename_question(from, to, held)),
            )
        },
        (RenamingView::Asking { from, to }, RenameAnswerView::Confirmed(true)) => (
            RenamingView::Moving { from, to },
            RenameOrderView::Move { from, to },
        ),
        (
            RenamingView::Moving { from, to },
            RenameAnswerView::Renamed { moved, project, branch },
        ) => (
            RenamingView::Done,
            RenameOrderView::Finish {
                said: renamed_text(from, to, moved),
                rebound: if project == Some(from) {
                    Some(rebound_text(to, branch))
                } else {
                    None
                },
            },
        ),
        _ => (RenamingView::Done, RenameOrderView::Stop("nothing renamed\n"@)),
    }
}

/// Starts to rename an idea.
pub fn start_rename(from: &str, to: &str) -> (r: (Renaming, RenameOrder))
    ensures
        r.0@ == (RenamingView::Counting { from: idea_name(from@), to: idea_name(to@) }),
        r.1@ == RenameOrderView::Count(idea_name(from@)),
{
    let from = slug(from);
    let to = slug(to);
    (Renaming::Counting { from: from.clone(), to }, RenameOrder::Count(from))
}

fn idea_counted(from: String, to: String, held: Vec<Holding>) -> (r: (Renaming, RenameOrder))
    requires
        claims_held(held@) <= u64::MAX,
        docs_held(held@) <= u64::MAX,
    ensures
        (r.0@, r.1@) == next_rename_step(
            RenamingView::Counting { from: from@, to: to@ },
            RenameAnswerView::Counted(held@),
        ),
{
    if held.len() == 0 {
        let mut text = "no idea named `".to_owned();
        text.append(from.as_str());
        text.append("`");
        return (Renaming::Done, RenameOrder::Fail(text));
    }
    let sum = total(&held);
    let mut out = "Rename ".to_owned();
    out.append(from.as_str());
    out.append(" to ");
    out.append(to.as_str());
    out.append(" (");
    out.append(holdings_text(sum.claims, sum.docs).as_str());
    out.append(")? Nothing is lost; the old name is kept as history.");
    (Renaming::Asking { from, to }, RenameOrder::Ask(out))
}

fn idea_renamed(from: &str, to: &str, moved: Moved) -> (r: String)
    ensures
        r@ == renamed_text(from@, to@, moved),
{
    let mut out = "renamed ".to_owned();
    out.append(from);
    out.append(" to ");
    out.append(to);
    out.append(": ");
    out.append(plural(moved.claims, "claim", "claims").as_str());
    out.append(", ");
    out.append(plural(moved.docs, "document", "documents").as_str());
    out.append(" across ");
    out.append(plural(moved.branches, "branch", "branches").as_str());
    out.append("\n");
    out
}

fn repo_rebound(to: &str, branch: &str) -> (r: String)
    ensures
        r@ == rebound_text(to@, branch@),
{
    let mut out = "  this repo now uses ".to_owned();
    out.append(to);
    out.append("/");
    out.append(branch);
    out.append("\n");
    out
}

/// The next step of a renaming.
pub fn continue_rename(state: Renaming, answer: RenameAnswer) -> (r: (Renaming, RenameOrder))
    requires
        answers_rename(state@, answer@),
    ensures
        (r.0@, r.1@) == next_rename_step(state@, answer@),
{
    match (state, answer) {
        (Renaming::Counting { from, to }, RenameAnswer::Counted(held)) => idea_counted(
            from,
            to,
            held,
        ),
        (Renaming::Asking { from, to }, RenameAnswer::Confirmed(yes)) => if yes {
            (
                Renaming::Moving { from: from.clone(), to: to.clone() },
                RenameOrder::Move { from, to },
            )
        } else {
            (Renaming::Done, RenameOrder::Stop("nothing renamed\n".to_owned()))
        },
        (
            Renaming::Moving { from, to },
            RenameAnswer::Renamed { moved, project, branch },
        ) => {
            let said = idea_renamed(from.as_str(), to.as_str(), moved);
            let rebound = if is_text(&project, from.as_str()) {
                Some(repo_rebound(to.as_str(), branch.as_str()))
            } else {
                None
            };
            (Renaming::Done, RenameOrder::Finish { said, rebound })
        },
        _ => (Renaming::Done, RenameOrder::Stop("nothing renamed\n".to_owned())),
    }
}

/// What is said at the end of a renaming: first of `AGENTS.md`, where it
/// changed, then of the chats, which `chats` names.
pub fn rename_closing(agents_changed: bool, chats: &str) -> (r: (String, String))
    ensures
        r.0@ == if agents_changed {
            "  AGENTS.md updated\n"@
        } else {
            ""@
        },
        r.1@ == "  synced: "@ + chats@ + " see the new name\n"@,
{
    let agents = if agents_changed {
        "  AGENTS.md updated\n".to_owned()
    } else {
        "".to_owned()
    };
    let mut cloud = "  synced: ".to_owned();
    cloud.append(chats);
    cloud.append(" see the new name\n");
    (agents, cloud)
}

/// No idea is renamed unless the user confirmed it, and then to the name that
/// was asked about.
pub proof fn nothing_is_renamed_unconfirmed(state: RenamingView, answer: RenameAnswerView)
    ensures
        next_rename_step(state, answer).1 matches RenameOrderView::Move { from, to } ==> answer
            == RenameAnswerView::Confirmed(true) && state == (RenamingView::Asking { from, to }),
{
}

/// An idea without branches is refused, and nothing is renamed.
pub proof fn an_unknown_idea_is_not_renamed(from: Seq<char>, to: Seq<char>)
    ensures
        next_rename_step(
            RenamingView::Counting { from, to },
            RenameAnswerView::Counted(seq![]),
        ) == (RenamingView::Done, RenameOrderView::Fail("no idea named `"@ + from + "`"@)),
{
}

proof fn lemma_rebound_text(to: Seq<char>, branch: Seq<char>)
    ensures
        mentions(rebound_text(to, branch), to + "/"@ + branch),
{
    let name = to + "/"@ + branch;
    lemma_mentions("  this repo now uses "@, name, "\n"@);
    lemma_regrouped("  this repo now uses "@, to, "/"@, branch);
}

proof fn lemma_rename_question(from: Seq<char>, to: Seq<char>, held: Seq<Holding>)
    ensures
        mentions(rename_question(from, to, held), from + " to "@ + to),
        mentions(
            rename_question(from, to, held),
            holdings(claims_held(held) as int, docs_held(held) as int),
        ),
{
    let p0 = "Rename "@;
    let p1 = from + " to "@ + to;
    let p2 = " ("@;
    let p3 = holdings(claims_held(held) as int, docs_held(held) as int);
    let p4 = ")? Nothing is lost; the old name is kept as history."@;
    let s0 = p0;
    let s1 = s0 + p1;
    let s2 = s1 + p2;
    let s3 = s2 + p3;
    let s4 = s3 + p4;
    lemma_mentions(s0, p1, seq![]);
    lemma_mentions_within(seq![], s1, p2, p1);
    lemma_mentions_within(seq![], s2, p3, p1);
    lemma_mentions_within(seq![], s3, p4, p1);
    lemma_mentions(s2, p3, seq![]);
    lemma_mentions_within(seq![], s3, p4, p3);
    lemma_regrouped("Rename "@, from, " to "@, to);
    assert(rename_question(from, to, held) == s4);
}

proof fn lemma_renamed_text(from: Seq<char>, to: Seq<char>, moved: Moved)
    ensures
        mentions(renamed_text(from, to, moved), from + " to "@ + to),
        mentions(renamed_text(from, to, moved), counted(moved.claims as int, "claim"@, "claims"@)),
        mentions(
            renamed_text(from, to, moved),
            counted(moved.docs as int, "document"@, "documents"@),
        ),
        mentions(
            renamed_text(from, to, moved),
            counted(moved.branches as int, "branch"@, "branches"@),
        ),
{
    let p0 = "renamed "@;
    let p1 = from + " to "@ + to;
    let p2 = ": "@;
    let p3 = claims_counted(moved.claims as int);
    let p4 = ", "@;
    let p5 = counted(moved.docs as int, "document"@, "documents"@);
    let p6 = " across "@;
    let p7 = counted(moved.branches as int, "branch"@, "branches"@);
    let p8 = "\n"@;
    let s0 = p0;
    let s1 = s0 + p1;
    let s2 = s1 + p2;
    let s3 = s2 + p3;
    let s4 = s3 + p4;
    let s5 = s4 + p5;
    let s6 = s5 + p6;
    let s7 = s6 + p7;
    let s8 = s7 + p8;
    lemma_mentions(s0, p1, seq![]);
    lemma_mentions_within(seq![], s1, p2, p1);
    lemma_mentions_within(seq![], s2, p3, p1);
    lemma_mentions_within(seq![], s3, p4, p1);
    lemma_mentions_within(seq![], s4, p5, p1);
    lemma_mentions_within(seq![], s5, p6, p1);
    lemma_mentions_within(seq![], s6, p7, p1);
    lemma_mentions_within(seq![], s7, p8, p1);
    lemma_mentions(s2, p3, seq![]);
    lemma_mentions_within(seq![], s3, p4, p3);
    lemma_mentions_within(seq![], s4, p5, p3);
    lemma_mentions_within(seq![], s5, p6, p3);
    lemma_mentions_within(seq![], s6, p7, p3);
    lemma_mentions_within(seq![], s7, p8, p3);
    lemma_mentions(s4, p5, seq![]);
    lemma_mentions_within(seq![], s5, p6, p5);
    lemma_mentions_within(seq![], s6, p7, p5);
    lemma_mentions_within(seq![], s7, p8, p5);
    lemma_mentions(s6, p7, seq![]);
    lemma_mentions_within(seq![], s7, p8, p7);
    lemma_regrouped("renamed "@, from, " to "@, to);
    assert(renamed_text(from, to, moved) == s8);
}

/// A finished renaming binds this repository anew exactly where it was bound to
/// the old name. It then says so, by the new name and the lane that it keeps;
/// one that is bound to another idea, or to none, keeps what it had.
pub proof fn only_the_renamed_idea_is_rebound(
    from: Seq<char>,
    to: Seq<char>,
    moved: Moved,
    project: Option<Seq<char>>,
    branch: Seq<char>,
)
    ensures
        next_rename_step(
            RenamingView::Moving { from, to },
            RenameAnswerView::Renamed { moved, project, branch },
        ).1 matches RenameOrderView::Finish { said, rebound } && {
            &&& rebound is Some <==> project == Some(from)
            &&& rebound matches Some(text) ==> mentions(text, to + "/"@ + branch)
        },
        project is None ==> (next_rename_step(
            RenamingView::Moving { from, to },
            RenameAnswerView::Renamed { moved, project, branch },
        ).1 matches RenameOrderView::Finish { rebound, .. } && rebound is None),
{
    lemma_rebound_text(to, branch);
}

/// An idea with branches is asked about before it is renamed, by both names and
/// with what it holds; only one without branches is refused.
pub proof fn an_idea_that_is_there_is_asked_about(
    from: Seq<char>,
    to: Seq<char>,
    held: Seq<Holding>,
)
    ensures
        ({
            let (state, order) = next_rename_step(
                RenamingView::Counting { from, to },
                RenameAnswerView::Counted(held),
            );
            &&& order is Ask <==> held.len() > 0
            &&& order is Fail <==> held.len() == 0
            &&& order matches RenameOrderView::Ask(question) ==> {
                &&& state == (RenamingView::Asking { from, to })
                &&& mentions(question, from + " to "@ + to)
                &&& mentions(
                    question,
                    holdings(claims_held(held) as int, docs_held(held) as int),
                )
            }
        }),
{
    lemma_rename_question(from, to, held);
}

/// What was confirmed is renamed, and what came of it is told by both names and
/// all of its counts; what was declined is not.
pub proof fn a_confirmed_renaming_is_carried_out(
    from: Seq<char>,
    to: Seq<char>,
    moved: Moved,
    project: Option<Seq<char>>,
    branch: Seq<char>,
)
    ensures
        next_rename_step(RenamingView::Asking { from, to }, RenameAnswerView::Confirmed(true)) == (
            RenamingView::Moving { from, to },
            RenameOrderView::Move { from, to },
        ),
        next_rename_step(RenamingView::Asking { from, to }, RenameAnswerView::Confirmed(false)) == (
            RenamingView::Done,
            RenameOrderView::Stop("nothing renamed\n"@),
        ),
        next_rename_step(
            RenamingView::Moving { from, to },
            RenameAnswerView::Renamed { moved, project, branch },
        ).1 matches RenameOrderView::Finish { said, .. } && {
            &&& mentions(said, from + " to "@ + to)
            &&& mentions(said, counted(moved.claims as int, "claim"@, "claims"@))
            &&& mentions(said, counted(moved.docs as int, "document"@, "documents"@))
            &&& mentions(said, counted(moved.branches as int, "branch"@, "branches"@))
        },
{
    lemma_renamed_text(from, to, moved);
}

/// Answers and orders are read as they stand.
pub proof fn answers_and_orders_are_read_as_they_stand(
    flag: bool,
    a: String,
    b: String,
    held: Vec<Holding>,
    moved: Moved,
    project: Option<String>,
)
    ensures
        RenameAnswer::Counted(held)@ == RenameAnswerView::Counted(held@),
        RenameAnswer::Confirmed(flag)@ == RenameAnswerView::Confirmed(flag),
        (RenameAnswer::Renamed { moved, project, branch: a })@ == (RenameAnswerView::Renamed {
            moved,
            project: text_of(project),
            branch: a@,
        }),
        RenameOrder::Count(a)@ == RenameOrderView::Count(a@),
        RenameOrder::Ask(a)@ == RenameOrderView::Ask(a@),
        (RenameOrder::Move { from: a, to: b })@ == (RenameOrderView::Move { from: a@, to: b@ }),
        RenameOrder::Stop(a)@ == RenameOrderView::Stop(a@),
        RenameOrder::Fail(a)@ == RenameOrderView::Fail(a@),
        (RenameOrder::Finish { said: a, rebound: project })@ == (RenameOrderView::Finish {
            said: a@,
            rebound: text_of(project),
        }),
        (Renaming::Counting { from: a, to: b })@ == (RenamingView::Counting { from: a@, to: b@ }),
        (Renaming::Asking { from: a, to: b })@ == (RenamingView::Asking { from: a@, to: b@ }),
        (Renaming::Moving { from: a, to: b })@ == (RenamingView::Moving { from: a@, to: b@ }),
{
}

} // verus!

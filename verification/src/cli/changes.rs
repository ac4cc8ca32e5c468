//! What `ctx remove` and `ctx rename` share: what is asked before something is
//! hidden or renamed, how much that is, and what is said of reaching the cloud.

use vstd::prelude::*;
use vstd::string::StringExecFns;

use crate::text::{same_text, trim};
#[allow(unused_imports)]
use crate::text::{lemma_mentions, lemma_mentions_within, mentions, stands_at, trimmed};

verus! {

// ---- asking ----

/// What to do before something is hidden or renamed.
#[derive(Debug)]
pub enum Confirmation {
    /// It was confirmed already.
    Given,
    /// Ask with this text.
    Ask(String),
    /// Nobody is there to ask; fail with this text.
    Refuse(String),
}

/// What to do before something is hidden or renamed. Without a terminal it
/// must have been confirmed, so that no script does it by accident.
pub fn confirm(question: &str, yes: bool, terminal: bool) -> (r: Confirmation)
    ensures
        r@ == confirmation(question@, yes, terminal),
        match r {
            Confirmation::Given => yes,
            Confirmation::Ask(text) => !yes && terminal && text@ == question@ + " [y/N] "@,
            Confirmation::Refuse(text) => !yes && !terminal && text@ == question@
                + " Re-run with --yes to confirm."@,
        },
{
    if yes {
        return Confirmation::Given;
    }
    let mut text = question.to_owned();
    if terminal {
        text.append(" [y/N] ");
        Confirmation::Ask(text)
    } else {
        text.append(" Re-run with --yes to confirm.");
        Confirmation::Refuse(text)
    }
}

/// Whether an answer is a yes.
pub open spec fn is_yes(answer: Seq<char>) -> bool {
    trimmed(answer) == "y"@ || trimmed(answer) == "Y"@ || trimmed(answer) == "yes"@
}

/// Whether an answer is a yes.
pub fn answered_yes(answer: &str) -> (r: bool)
    ensures
        r == is_yes(answer@),
{
    let answer = trim(answer);
    same_text(answer.as_str(), "y") || same_text(answer.as_str(), "Y") || same_text(
        answer.as_str(),
        "yes",
    )
}

// ---- reaching the cloud ----

/// What a sync came to.
#[derive(Debug)]
pub enum Synced {
    /// The store was synced with its remote.
    Remote,
    /// The store has no remote.
    LocalOnly,
    /// What went wrong.
    Failed(String),
}

/// What is said of a sync.
#[derive(Debug)]
pub enum SyncNote {
    Silent,
    /// Printed.
    Say(String),
    /// Printed as a warning.
    Warn(String),
    /// The command fails with this text.
    Fail(String),
}

/// What is said of a sync after a change that chats should see at once; `chats`
/// names them. Where it must reach the cloud, not reaching it is a failure.
pub fn sync_note(synced: Synced, strict: bool, chats: &str) -> (r: SyncNote)
    ensures
        r@ == told_of_sync(synced@, strict, chats@),
        match synced {
            Synced::Remote => r matches SyncNote::Say(text) && text@ == "synced: "@ + chats@
                + " see this now\n"@,
            Synced::LocalOnly => if strict {
                r matches SyncNote::Fail(text) && text@
                    == "done on this machine, but there's no git remote, so the cloud can't see it"@
            } else {
                r is Silent
            },
            Synced::Failed(cause) => if strict {
                r matches SyncNote::Fail(text) && text@
                    == "done on this machine, but couldn't reach the cloud; run `ctx sync` when online: "@
                    + cause@
            } else {
                r matches SyncNote::Warn(text) && text@ == "warning: couldn't sync ("@ + cause@
                    + "); chats will see this after your next `ctx sync`\n"@
            },
        },
{
    match synced {
        Synced::Remote => {
            let mut text = "synced: ".to_owned();
            text.append(chats);
            text.append(" see this now\n");
            SyncNote::Say(text)
        },
        Synced::LocalOnly => if strict {
            SyncNote::Fail(
                "done on this machine, but there's no git remote, so the cloud can't see it".to_owned(),
            )
        } else {
            SyncNote::Silent
        },
        Synced::Failed(cause) => if strict {
            let mut text =
                "done on this machine, but couldn't reach the cloud; run `ctx sync` when online: ".to_owned();
            text.append(cause.as_str());
            SyncNote::Fail(text)
        } else {
            let mut text = "warning: couldn't sync (".to_owned();
            text.append(cause.as_str());
            text.append("); chats will see this after your next `ctx sync`\n");
            SyncNote::Warn(text)
        },
    }
}

// ---- totals ----

/// What a branch holds: claims, and versions of documents.
#[derive(Debug, Clone, Copy)]
pub struct Holding {
    pub claims: u64,
    pub docs: u64,
}

/// The claims of all branches.
pub open spec fn claims_held(held: Seq<Holding>) -> nat
    decreases held.len(),
{
    if held.len() == 0 {
        0
    } else {
        claims_held(held.drop_last()) + held.last().claims as nat
    }
}

/// The document versions of all branches.
pub open spec fn docs_held(held: Seq<Holding>) -> nat
    decreases held.len(),
{
    if held.len() == 0 {
        0
    } else {
        docs_held(held.drop_last()) + held.last().docs as nat
    }
}

proof fn lemma_held_grows(held: Seq<Holding>, i: int)
    requires
        0 <= i <= held.len(),
    ensures
        claims_held(held.take(i)) <= claims_held(held),
        docs_held(held.take(i)) <= docs_held(held),
    decreases held.len() - i,
{
    if i < held.len() {
        lemma_held_grows(held, i + 1);
        assert(held.take(i + 1).drop_last() =~= held.take(i));
    } else {
        assert(held.take(i) =~= held);
    }
}

/// What branches hold together.
pub fn total(held: &Vec<Holding>) -> (r: Holding)
    requires
        claims_held(held@) <= u64::MAX,
        docs_held(held@) <= u64::MAX,
    ensures
        r.claims == claims_held(held@),
        r.docs == docs_held(held@),
{
    let mut claims: u64 = 0;
    let mut docs: u64 = 0;
    let mut i: usize = 0;
    while i < held.len()
        invariant
            i <= held@.len(),
            claims_held(held@) <= u64::MAX,
            docs_held(held@) <= u64::MAX,
            claims == claims_held(held@.take(i as int)),
            docs == docs_held(held@.take(i as int)),
        decreases held@.len() - i,
    {
        proof {
            let next = held@.take(i + 1);
            assert(next.drop_last() =~= held@.take(i as int));
            assert(next.last() == held@[i as int]);
            lemma_held_grows(held@, i + 1);
        }
        claims = claims + held[i].claims;
        docs = docs + held[i].docs;
        i += 1;
    }
    assert(held@.take(held@.len() as int) =~= held@);
    Holding { claims, docs }
}

// ---- laws ----

/// What several branches hold together is the sum of what each holds.
pub proof fn holdings_add_up(a: Seq<Holding>, b: Seq<Holding>, one: Holding)
    ensures
        claims_held(a + b) == claims_held(a) + claims_held(b),
        docs_held(a + b) == docs_held(a) + docs_held(b),
        claims_held(seq![one]) == one.claims,
        docs_held(seq![one]) == one.docs,
    decreases b.len(),
{
    let single = seq![one];
    assert(single.drop_last() =~= seq![]);
    assert(claims_held(single.drop_last()) == 0 && docs_held(single.drop_last()) == 0);
    if b.len() == 0 {
        assert(a + b =~= a);
    } else {
        holdings_add_up(a, b.drop_last(), one);
        assert((a + b).drop_last() =~= a + b.drop_last());
    }
}

/// Only a yes is a yes: an answer counts as one by the word alone, not by the
/// white space around it, and neither silence nor any other word does.
pub proof fn only_a_yes_is_a_yes(answer: Seq<char>)
    ensures
        is_yes(answer) <==> trimmed(answer) == seq!['y'] || trimmed(answer) == seq!['Y'] || trimmed(
            answer,
        ) == seq!['y', 'e', 's'],
        trimmed(answer).len() == 0 ==> !is_yes(answer),
{
    reveal_strlit("y");
    reveal_strlit("Y");
    reveal_strlit("yes");
    assert("y"@ =~= seq!['y']);
    assert("Y"@ =~= seq!['Y']);
    assert("yes"@ =~= seq!['y', 'e', 's']);
}

/// How far a question is, as a value.
pub enum ConfirmationView {
    Given,
    Ask(Seq<char>),
    Refuse(Seq<char>),
}

impl View for Confirmation {
    type V = ConfirmationView;

    open spec fn view(&self) -> ConfirmationView {
        match self {
            Confirmation::Given => ConfirmationView::Given,
            Confirmation::Ask(text) => ConfirmationView::Ask(text@),
            Confirmation::Refuse(text) => ConfirmationView::Refuse(text@),
        }
    }
}

/// How a question is put.
pub open spec fn confirmation(question: Seq<char>, yes: bool, terminal: bool) -> ConfirmationView {
    if yes {
        ConfirmationView::Given
    } else if terminal {
        ConfirmationView::Ask(question + " [y/N] "@)
    } else {
        ConfirmationView::Refuse(question + " Re-run with --yes to confirm."@)
    }
}

/// Nothing goes ahead on its own: without a yes that was given beforehand the
/// user is asked the question, and where nobody is there to ask it is refused
/// with the question.
pub proof fn nothing_is_confirmed_by_itself(question: Seq<char>, yes: bool, terminal: bool)
    ensures
        confirmation(question, yes, terminal) is Given <==> yes,
        confirmation(question, yes, terminal) is Ask <==> !yes && terminal,
        confirmation(question, yes, terminal) is Refuse <==> !yes && !terminal,
        confirmation(question, yes, terminal) matches ConfirmationView::Ask(text)
            ==> question.is_prefix_of(text),
        confirmation(question, yes, terminal) matches ConfirmationView::Refuse(text)
            ==> question.is_prefix_of(text) && mentions(text, "--yes"@),
{
    let asked = question + " [y/N] "@;
    assert(asked.take(question.len() as int) =~= question);
    let refused = question + " Re-run with --yes to confirm."@;
    assert(refused.take(question.len() as int) =~= question);
    reveal_strlit("--yes");
    reveal_strlit(" Re-run with --yes to confirm.");
    let end = " Re-run with --yes to confirm."@;
    assert(end.subrange(13, 18) =~= "--yes"@);
    assert(stands_at(end, "--yes"@, 13));
    lemma_mentions_within(question, end, seq![], "--yes"@);
}

/// How far a sync got, as a value.
pub enum SyncedView {
    Remote,
    LocalOnly,
    Failed(Seq<char>),
}

impl View for Synced {
    type V = SyncedView;

    open spec fn view(&self) -> SyncedView {
        match self {
            Synced::Remote => SyncedView::Remote,
            Synced::LocalOnly => SyncedView::LocalOnly,
            Synced::Failed(cause) => SyncedView::Failed(cause@),
        }
    }
}

/// What is said of a sync, as a value.
pub enum SyncNoteView {
    Silent,
    Say(Seq<char>),
    Warn(Seq<char>),
    Fail(Seq<char>),
}

impl View for SyncNote {
    type V = SyncNoteView;

    open spec fn view(&self) -> SyncNoteView {
        match self {
            SyncNote::Silent => SyncNoteView::Silent,
            SyncNote::Say(text) => SyncNoteView::Say(text@),
            SyncNote::Warn(text) => SyncNoteView::Warn(text@),
            SyncNote::Fail(text) => SyncNoteView::Fail(text@),
        }
    }
}

/// What is said of a sync.
pub open spec fn told_of_sync(synced: SyncedView, strict: bool, chats: Seq<char>) -> SyncNoteView {
    match synced {
        SyncedView::Remote => SyncNoteView::Say("synced: "@ + chats + " see this now\n"@),
        SyncedView::LocalOnly => if strict {
            SyncNoteView::Fail(
                "done on this machine, but there's no git remote, so the cloud can't see it"@,
            )
        } else {
            SyncNoteView::Silent
        },
        SyncedView::Failed(cause) => if strict {
            SyncNoteView::Fail(
                "done on this machine, but couldn't reach the cloud; run `ctx sync` when online: "@
                    + cause,
            )
        } else {
            SyncNoteView::Warn(
                "warning: couldn't sync ("@ + cause
                    + "); chats will see this after your next `ctx sync`\n"@,
            )
        },
    }
}

/// What must reach the cloud fails exactly where it did not; what need not never
/// fails, and warns exactly where the sync failed. A failed sync is told with
/// its cause, and one that reached the cloud as such.
pub proof fn a_strict_sync_must_reach_the_cloud(
    synced: SyncedView,
    strict: bool,
    chats: Seq<char>,
)
    ensures
        told_of_sync(synced, strict, chats) is Fail <==> strict && !(synced is Remote),
        told_of_sync(synced, strict, chats) is Say <==> synced is Remote,
        told_of_sync(synced, strict, chats) is Warn <==> !strict && synced is Failed,
        told_of_sync(synced, strict, chats) is Silent <==> !strict && synced is LocalOnly,
        synced matches SyncedView::Failed(cause) ==> match told_of_sync(synced, strict, chats) {
            SyncNoteView::Fail(text) => mentions(text, cause),
            SyncNoteView::Warn(text) => mentions(text, cause),
            _ => false,
        },
        told_of_sync(SyncedView::Remote, strict, chats) matches SyncNoteView::Say(text) && mentions(
            text,
            chats,
        ),
{
    lemma_mentions("synced: "@, chats, " see this now\n"@);
    if let SyncedView::Failed(cause) = synced {
        lemma_mentions(
            "done on this machine, but couldn't reach the cloud; run `ctx sync` when online: "@,
            cause,
            seq![],
        );
        lemma_mentions(
            "warning: couldn't sync ("@,
            cause,
            "); chats will see this after your next `ctx sync`\n"@,
        );
    }
}

} // verus!

//! Claims as they are printed, reviewed, searched and saved.

use vstd::prelude::*;
use vstd::string::StringExecFns;

use crate::cli::output::{tag, utc_date};
use crate::text::{contains_char, join, lines_of, push_padded, push_spaces, replace_line_feeds, same_text};
#[allow(unused_imports)]
use crate::cli::output::{tag_text, taggable, utc_date_of};
#[allow(unused_imports)]
use crate::text::{joined, joining_keeps_every_part, lemma_mentions, lemma_mentions_within,
    line_feeds_replaced, lines, mentions, padded, spaces, text_of, texts};

verus! {

/// The state of a claim.
#[derive(Debug, Clone, Copy, PartialEq, Eq, Structural)]
pub enum Status {
    Active,
    Proposed,
    Superseded,
    Rejected,
    Archived,
}

/// A claim as it is printed. `t_tx` is when it was recorded, in seconds since
/// 1970; `first_line` is its text cut to one line; `kind`, `status_name` and
/// `confidence` are words.
#[derive(Debug)]
pub struct Claim {
    pub id: String,
    pub cid: String,
    pub t_tx: i64,
    pub kind: String,
    pub text: String,
    pub first_line: String,
    pub why: Option<String>,
    pub refs: Vec<String>,
    pub entities: Vec<String>,
    pub branch: String,
    pub status: Status,
    pub status_name: String,
    pub confidence: String,
    pub src: String,
}

// ---- one claim ----

/// The line that every claim gets.
pub open spec fn claim_line(c: Claim, date: Seq<char>, show_branch: bool, default: Seq<char>) -> Seq<
    char,
> {
    date + " "@ + tag_text(c.cid@) + "  "@ + padded(c.kind@, 10) + "  "@ + c.first_line@ + (
    if c.text@.contains('\n') {
        " …"@
    } else {
        ""@
    }) + (if c.status == Status::Active {
        ""@
    } else {
        " ("@ + c.status_name@ + ")"@
    }) + (if show_branch && c.branch@ != default {
        "  · "@ + c.branch@
    } else {
        ""@
    }) + "\n"@
}

/// Lines, each behind twenty spaces.
pub open spec fn indented(ls: Seq<Seq<char>>) -> Seq<char>
    decreases ls.len(),
{
    if ls.len() == 0 {
        seq![]
    } else {
        indented(ls.drop_last()) + spaces(20) + ls.last() + "\n"@
    }
}

/// The lines of `s` but the first.
pub open spec fn more_lines(s: Seq<char>) -> Seq<Seq<char>> {
    if lines(s).len() == 0 {
        seq![]
    } else {
        lines(s).skip(1)
    }
}

/// What is printed of a claim in full, below its line.
pub open spec fn claim_details(c: Claim) -> Seq<char> {
    indented(more_lines(c.text@)) + (match text_of(c.why) {
        Some(why) => spaces(20) + "why:  "@ + line_feeds_replaced(why, " "@) + "\n"@,
        None => ""@,
    }) + (if c.refs@.len() > 0 {
        spaces(20) + "refs: "@ + joined(texts(c.refs@), ", "@) + "\n"@
    } else {
        ""@
    }) + (if c.entities@.len() > 0 {
        spaces(20) + "tags: "@ + joined(texts(c.entities@), ", "@) + "\n"@
    } else {
        ""@
    }) + (spaces(20) + c.id@ + " · "@ + c.branch@ + " · "@ + c.status_name@ + " · "@
        + c.confidence@ + " · from "@ + c.src@ + "\n"@)
}

/// What is printed of a claim that was recorded on `date`.
pub open spec fn claim_text(
    c: Claim,
    date: Seq<char>,
    verbose: bool,
    show_branch: bool,
    default: Seq<char>,
) -> Seq<char> {
    claim_line(c, date, show_branch, default) + if verbose {
        claim_details(c)
    } else {
        ""@
    }
}

fn state_note(c: &Claim) -> (r: String)
    ensures
        r@ == if c.status == Status::Active {
            ""@
        } else {
            " ("@ + c.status_name@ + ")"@
        },
{
    if c.status == Status::Active {
        "".to_owned()
    } else {
        let mut out = " (".to_owned();
        out.append(c.status_name.as_str());
        out.append(")");
        out
    }
}

fn branch_note(c: &Claim, show_branch: bool, default: &str) -> (r: String)
    ensures
        r@ == if show_branch && c.branch@ != default@ {
            "  · "@ + c.branch@
        } else {
            ""@
        },
{
    if show_branch && !same_text(c.branch.as_str(), default) {
        let mut out = "  · ".to_owned();
        out.append(c.branch.as_str());
        out
    } else {
        "".to_owned()
    }
}

fn line_of(c: &Claim, date: &str, show_branch: bool, default: &str) -> (r: String)
    requires
        taggable(c.cid@),
    ensures
        r@ == claim_line(*c, date@, show_branch, default@),
{
    let more = if contains_char(c.text.as_str(), '\n') {
        " …"
    } else {
        ""
    };
    let state = state_note(c);
    let branch = branch_note(c, show_branch, default);
    let mut kind = String::new();
    push_padded(&mut kind, c.kind.as_str(), 10);
    assert(kind@ =~= padded(c.kind@, 10));
    let mut out = date.to_owned();
    out.append(" ");
    out.append(tag(c.cid.as_str()).as_str());
    out.append("  ");
    out.append(kind.as_str());
    out.append("  ");
    out.append(c.first_line.as_str());
    out.append(more);
    out.append(state.as_str());
    out.append(branch.as_str());
    out.append("\n");
    out
}

fn more_lines_of(text: &str) -> (r: String)
    ensures
        r@ == indented(more_lines(text@)),
{
    let mut out = String::new();
    let ls = lines_of(text);
    let ghost all = texts(ls@);
    let ghost more = more_lines(text@);
    if ls.len() == 0 {
        assert(out@ =~= indented(more));
        return out;
    }
    let mut i: usize = 1;
    assert(out@ =~= indented(more.take(0)));
    while i < ls.len()
        invariant
            1 <= i <= ls@.len(),
            all == texts(ls@),
            more == all.skip(1),
            out@ == indented(more.take(i - 1)),
        decreases ls@.len() - i,
    {
        push_spaces(&mut out, 20);
        out.append(ls[i].as_str());
        out.append("\n");
        proof {
            let next = more.take(i as int);
            assert(next.drop_last() =~= more.take(i - 1));
            assert(next.last() == ls@[i as int]@);
        }
        i += 1;
    }
    assert(more.take(more.len() as int) =~= more);
    out
}

fn labelled(label: &str, text: &str) -> (r: String)
    ensures
        r@ == spaces(20) + label@ + text@ + "\n"@,
{
    let mut out = String::new();
    push_spaces(&mut out, 20);
    assert(out@ =~= spaces(20));
    out.append(label);
    out.append(text);
    out.append("\n");
    out
}

fn why_note(c: &Claim) -> (r: String)
    ensures
        r@ == match text_of(c.why) {
            Some(why) => spaces(20) + "why:  "@ + line_feeds_replaced(why, " "@) + "\n"@,
            None => ""@,
        },
{
    match &c.why {
        Some(why) => labelled("why:  ", replace_line_feeds(why.as_str(), " ").as_str()),
        None => "".to_owned(),
    }
}

fn list_note(label: &str, items: &Vec<String>) -> (r: String)
    ensures
        r@ == if items@.len() > 0 {
            spaces(20) + label@ + joined(texts(items@), ", "@) + "\n"@
        } else {
            ""@
        },
{
    if items.len() > 0 {
        labelled(label, join(items, ", ").as_str())
    } else {
        "".to_owned()
    }
}

fn origin_note(c: &Claim) -> (r: String)
    ensures
        r@ == spaces(20) + c.id@ + " · "@ + c.branch@ + " · "@ + c.status_name@ + " · "@
            + c.confidence@ + " · from "@ + c.src@ + "\n"@,
{
    let mut out = String::new();
    push_spaces(&mut out, 20);
    assert(out@ =~= spaces(20));
    out.append(c.id.as_str());
    out.append(" · ");
    out.append(c.branch.as_str());
    out.append(" · ");
    out.append(c.status_name.as_str());
    out.append(" · ");
    out.append(c.confidence.as_str());
    out.append(" · from ");
    out.append(c.src.as_str());
    out.append("\n");
    out
}

fn details_of(c: &Claim) -> (r: String)
    ensures
        r@ == claim_details(*c),
{
    let why = why_note(c);
    let refs = list_note("refs: ", &c.refs);
    let tags = list_note("tags: ", &c.entities);
    let origin = origin_note(c);
    let mut out = more_lines_of(c.text.as_str());
    out.append(why.as_str());
    out.append(refs.as_str());
    out.append(tags.as_str());
    out.append(origin.as_str());
    out
}

/// What is printed of a claim that was recorded on `date`.
pub fn print_claim_dated(
    c: &Claim,
    date: &str,
    verbose: bool,
    show_branch: bool,
    default: &str,
) -> (r: String)
    requires
        taggable(c.cid@),
    ensures
        r@ == claim_text(*c, date@, verbose, show_branch, default@),
{
    let mut out = line_of(c, date, show_branch, default);
    if verbose {
        out.append(details_of(c).as_str());
    } else {
        out.append("");
    }
    out
}

/// What is printed of a claim: nothing where the moment at which it was
/// recorded has no date.
pub fn print_claim(c: &Claim, verbose: bool, show_branch: bool, default: &str) -> (r: Option<
    String,
>)
    requires
        taggable(c.cid@),
    ensures
        text_of(r) == match utc_date_of(c.t_tx) {
            Some(date) => Some(claim_text(*c, date, verbose, show_branch, default@)),
            None => None,
        },
{
    match utc_date(c.t_tx) {
        Some(date) => Some(print_claim_dated(c, date.as_str(), verbose, show_branch, default)),
        None => None,
    }
}

/// A step in a claim's history.
#[derive(Debug)]
pub struct StatusChange {
    pub t_tx: i64,
    pub to: String,
    pub reason: Option<String>,
}

/// What is printed of a step in a claim's history, taken on `date`.
pub open spec fn change_line(h: StatusChange, date: Seq<char>) -> Seq<char> {
    spaces(20) + date + "  → "@ + h.to@ + (match text_of(h.reason) {
        Some(reason) => ": "@ + reason,
        None => ""@,
    }) + "\n"@
}

/// What is printed of a step in a claim's history, taken on `date`.
pub fn print_change_dated(h: &StatusChange, date: &str) -> (r: String)
    ensures
        r@ == change_line(*h, date@),
{
    let mut out = String::new();
    push_spaces(&mut out, 20);
    out.append(date);
    out.append("  → ");
    out.append(h.to.as_str());
    match &h.reason {
        Some(reason) => {
            out.append(": ");
            out.append(reason.as_str());
        },
        None => out.append(""),
    }
    out.append("\n");
    assert(out@ =~= change_line(*h, date@));
    out
}

/// What is printed of a step in a claim's history.
pub fn print_change(h: &StatusChange) -> (r: Option<String>)
    ensures
        text_of(r) == match utc_date_of(h.t_tx) {
            Some(date) => Some(change_line(*h, date)),
            None => None,
        },
{
    match utc_date(h.t_tx) {
        Some(date) => Some(print_change_dated(h, date.as_str())),
        None => None,
    }
}

// ---- which claims ----

/// The states that a search or the log shows; an empty list shows all. What
/// was deleted stays out, so that no hit is buried under its own history.
pub open spec fn shown(all: bool) -> Seq<Status> {
    if all {
        seq![]
    } else {
        seq![Status::Active, Status::Proposed, Status::Superseded, Status::Rejected]
    }
}

/// The states that a search or the log shows; an empty list shows all.
pub fn visible_statuses(all: bool) -> (r: Vec<Status>)
    ensures
        r@ == shown(all),
{
    let mut out: Vec<Status> = Vec::new();
    if !all {
        out.push(Status::Active);
        out.push(Status::Proposed);
        out.push(Status::Superseded);
        out.push(Status::Rejected);
    }
    assert(out@ =~= shown(all));
    out
}

/// Without asking for all, every state but the deleted one is shown.
pub proof fn only_deleted_claims_are_hidden(status: Status)
    ensures
        shown(false).contains(status) <==> status != Status::Archived,
{
    let s = shown(false);
    assert(s[0] == Status::Active && s[1] == Status::Proposed && s[2] == Status::Superseded && s[3]
        == Status::Rejected);
}

/// How many claims the log shows: all where none is asked for.
pub fn log_limit(limit: usize) -> (r: Option<usize>)
    ensures
        r == most_shown(limit),
        r == if limit > 0 {
            Some(limit)
        } else {
            None
        },
{
    if limit > 0 {
        Some(limit)
    } else {
        None
    }
}

// ---- review ----

/// What is printed of a proposal.
pub open spec fn proposal_text(c: Claim) -> Seq<char> {
    tag_text(c.cid@) + "  "@ + c.kind@ + " → "@ + c.branch@ + "  (from "@ + c.src@ + ")\n    "@
        + line_feeds_replaced(c.text@, "\n    "@) + "\n"@ + (match text_of(c.why) {
        Some(why) => "    why: "@ + why + "\n"@,
        None => ""@,
    })
}

/// What is printed of proposals.
pub open spec fn proposals_text(pending: Seq<Claim>) -> Seq<char>
    decreases pending.len(),
{
    if pending.len() == 0 {
        seq![]
    } else {
        proposals_text(pending.drop_last()) + proposal_text(pending.last())
    }
}

/// What `ctx review` prints.
pub open spec fn review_text(pending: Seq<Claim>) -> Seq<char> {
    if pending.len() == 0 {
        "no pending proposals\n"@
    } else {
        proposals_text(pending)
            + "\naccept: ctx review accept c:XXXX    reject: ctx review reject c:XXXX --reason \"...\"\n"@
    }
}

fn proposal(c: &Claim) -> (r: String)
    requires
        taggable(c.cid@),
    ensures
        r@ == proposal_text(*c),
{
    let why = match &c.why {
        Some(why) => {
            let mut out = "    why: ".to_owned();
            out.append(why.as_str());
            out.append("\n");
            out
        },
        None => "".to_owned(),
    };
    let mut out = tag(c.cid.as_str());
    out.append("  ");
    out.append(c.kind.as_str());
    out.append(" → ");
    out.append(c.branch.as_str());
    out.append("  (from ");
    out.append(c.src.as_str());
    out.append(")\n    ");
    out.append(replace_line_feeds(c.text.as_str(), "\n    ").as_str());
    out.append("\n");
    out.append(why.as_str());
    out
}

/// What `ctx review` prints.
pub fn review(pending: &Vec<Claim>) -> (r: String)
    requires
        forall|i: int| 0 <= i < pending@.len() ==> taggable((#[trigger] pending@[i]).cid@),
    ensures
        r@ == review_text(pending@),
{
    if pending.len() == 0 {
        return "no pending proposals\n".to_owned();
    }
    let mut out = String::new();
    let mut i: usize = 0;
    assert(out@ =~= proposals_text(pending@.take(0)));
    while i < pending.len()
        invariant
            i <= pending@.len(),
            forall|i: int| 0 <= i < pending@.len() ==> taggable((#[trigger] pending@[i]).cid@),
            out@ == proposals_text(pending@.take(i as int)),
        decreases pending@.len() - i,
    {
        proof {
            let next = pending@.take(i + 1);
            assert(next.drop_last() =~= pending@.take(i as int));
            assert(next.last() == pending@[i as int]);
        }
        out.append(proposal(&pending[i]).as_str());
        i += 1;
    }
    assert(pending@.take(pending@.len() as int) =~= pending@);
    out.append(
        "\naccept: ctx review accept c:XXXX    reject: ctx review reject c:XXXX --reason \"...\"\n",
    );
    out
}

/// A verdict on a proposal.
#[derive(Debug, Clone, Copy, PartialEq, Eq, Structural)]
pub enum Verdict {
    Accept,
    Reject,
}

/// What is said of a verdict once it took effect; a failure where the claim is
/// no proposal. The claim's next state comes with it.
pub fn decide(c: &Claim, verdict: Verdict) -> (r: Result<(Status, String), String>)
    requires
        taggable(c.cid@),
    ensures
        match decided(c.status, verdict) {
            Some(status) => r matches Ok((s, _)) && s == status,
            None => r is Err,
        },
        match r {
            Ok((status, text)) => c.status == Status::Proposed && match verdict {
                Verdict::Accept => status == Status::Active && text@ == "accepted "@ + tag_text(
                    c.cid@,
                ) + " into "@ + c.branch@ + "\n"@,
                Verdict::Reject => status == Status::Rejected && text@ == "rejected "@ + tag_text(
                    c.cid@,
                ) + " (the reason is kept)\n"@,
            },
            Err(text) => c.status != Status::Proposed && text@ == tag_text(c.cid@) + " is "@
                + c.status_name@ + ", not proposed"@,
        },
{
    if c.status != Status::Proposed {
        let mut text = tag(c.cid.as_str());
        text.append(" is ");
        text.append(c.status_name.as_str());
        text.append(", not proposed");
        return Err(text);
    }
    match verdict {
        Verdict::Accept => {
            let mut text = "accepted ".to_owned();
            text.append(tag(c.cid.as_str()).as_str());
            text.append(" into ");
            text.append(c.branch.as_str());
            text.append("\n");
            Ok((Status::Active, text))
        },
        Verdict::Reject => {
            let mut text = "rejected ".to_owned();
            text.append(tag(c.cid.as_str()).as_str());
            text.append(" (the reason is kept)\n");
            Ok((Status::Rejected, text))
        },
    }
}

// ---- saving ----

/// Where a text comes from.
#[derive(Debug)]
pub enum Source {
    Clipboard,
    Stdin,
    Given(String),
    File(String),
}

/// Where the text of a claim to save comes from: a dash, or no text where
/// input is piped in, means standard input.
pub fn claim_source(text: Option<String>, terminal: bool) -> (r: Result<Source, String>)
    ensures
        match claim_read_from(text_of(text), terminal) {
            Some(source) => r matches Ok(s) && s@ == source,
            None => r is Err,
        },
        match text_of(text) {
            Some(t) => if t == "-"@ {
                r matches Ok(Source::Stdin)
            } else {
                r matches Ok(Source::Given(g)) && g@ == t
            },
            None => if terminal {
                r matches Err(e) && e@
                    == "nothing to save: `ctx save \"your claim\"`, or `ctx save --paste`"@
            } else {
                r matches Ok(Source::Stdin)
            },
        },
{
    match text {
        Some(t) => if same_text(t.as_str(), "-") {
            Ok(Source::Stdin)
        } else {
            Ok(Source::Given(t))
        },
        None => if terminal {
            Err("nothing to save: `ctx save \"your claim\"`, or `ctx save --paste`".to_owned())
        } else {
            Ok(Source::Stdin)
        },
    }
}

/// Where the text of a document to save comes from, and whether a fence around
/// it is taken off. A file is taken as it is: it may merely contain a fence.
/// What is pasted or piped comes from a chat. `dash` says that the file is a
/// dash.
pub fn document_source(paste: bool, file: Option<String>, dash: bool, terminal: bool) -> (r: Result<
    (Source, bool),
    String,
>)
    ensures
        match document_read_from(paste, text_of(file), dash, terminal) {
            Some((source, unwrap)) => r matches Ok((s, u)) && s@ == source && u == unwrap,
            None => r is Err,
        },
        if paste {
            r matches Ok((Source::Clipboard, true))
        } else {
            match text_of(file) {
                Some(path) => if dash {
                    r matches Ok((Source::Stdin, true))
                } else {
                    r matches Ok((Source::File(p), false)) && p@ == path
                },
                None => if terminal {
                    r matches Err(e) && e@ == "give a file, `-` for stdin, or --paste"@
                } else {
                    r matches Ok((Source::Stdin, true))
                },
            }
        },
{
    if paste {
        return Ok((Source::Clipboard, true));
    }
    match file {
        Some(path) => if dash {
            Ok((Source::Stdin, true))
        } else {
            Ok((Source::File(path), false))
        },
        None => if terminal {
            Err("give a file, `-` for stdin, or --paste".to_owned())
        } else {
            Ok((Source::Stdin, true))
        },
    }
}

/// What is said of a saved claim.
pub fn saved_note(cid: &str, kind: &str, branch: &str) -> (r: String)
    requires
        taggable(cid@),
    ensures
        r@ == "saved "@ + tag_text(cid@) + " "@ + kind@ + " -> "@ + branch@ + "\n"@,
{
    let mut out = "saved ".to_owned();
    out.append(tag(cid).as_str());
    out.append(" ");
    out.append(kind);
    out.append(" -> ");
    out.append(branch);
    out.append("\n");
    out
}

/// What is said of a claim that was recorded before.
pub fn duplicate_note(cid: &str, id: &str) -> (r: String)
    requires
        taggable(cid@),
    ensures
        r@ == "already recorded as "@ + tag_text(cid@) + " ("@ + id@ + ")\n"@,
{
    let mut out = "already recorded as ".to_owned();
    out.append(tag(cid).as_str());
    out.append(" (");
    out.append(id);
    out.append(")\n");
    out
}

/// What is said of the claims of a pasted block: those that were saved to
/// `branch`, then those that were recorded before.
pub open spec fn pasted_text(
    saved: Seq<Seq<char>>,
    duplicates: Seq<Seq<char>>,
    branch: Seq<char>,
) -> Seq<char>
    decreases saved.len() + duplicates.len(),
{
    if duplicates.len() > 0 {
        pasted_text(saved, duplicates.drop_last(), branch) + ("already recorded "@ + tag_text(
            duplicates.last(),
        ) + "\n"@)
    } else if saved.len() > 0 {
        pasted_text(saved.drop_last(), duplicates, branch) + ("saved "@ + tag_text(saved.last())
            + " -> "@ + branch + "\n"@)
    } else {
        seq![]
    }
}

/// What is said of the claims of a pasted block, by their content ids.
pub fn pasted_note(saved: &Vec<String>, duplicates: &Vec<String>, branch: &str) -> (r: String)
    requires
        forall|i: int| 0 <= i < saved@.len() ==> taggable((#[trigger] saved@[i])@),
        forall|i: int| 0 <= i < duplicates@.len() ==> taggable((#[trigger] duplicates@[i])@),
    ensures
        r@ == pasted_text(texts(saved@), texts(duplicates@), branch@),
{
    let ghost s = texts(saved@);
    let ghost d = texts(duplicates@);
    let mut out = String::new();
    let mut i: usize = 0;
    assert(out@ =~= pasted_text(s.take(0), d.take(0), branch@));
    while i < saved.len()
        invariant
            i <= saved@.len(),
            s == texts(saved@),
            forall|i: int| 0 <= i < saved@.len() ==> taggable((#[trigger] saved@[i])@),
            out@ == pasted_text(s.take(i as int), d.take(0), branch@),
        decreases saved@.len() - i,
    {
        let ghost before = out@;
        out.append("saved ");
        out.append(tag(saved[i].as_str()).as_str());
        out.append(" -> ");
        out.append(branch);
        out.append("\n");
        proof {
            let next = s.take(i + 1);
            assert(next.drop_last() =~= s.take(i as int));
            assert(next.last() == saved@[i as int]@);
            assert(out@ =~= before + ("saved "@ + tag_text(saved@[i as int]@) + " -> "@ + branch@
                + "\n"@));
        }
        i += 1;
    }
    assert(s.take(s.len() as int) =~= s);
    let mut j: usize = 0;
    while j < duplicates.len()
        invariant
            j <= duplicates@.len(),
            d == texts(duplicates@),
            forall|i: int| 0 <= i < duplicates@.len() ==> taggable((#[trigger] duplicates@[i])@),
            out@ == pasted_text(s, d.take(j as int), branch@),
        decreases duplicates@.len() - j,
    {
        let ghost before = out@;
        out.append("already recorded ");
        out.append(tag(duplicates[j].as_str()).as_str());
        out.append("\n");
        proof {
            let next = d.take(j + 1);
            assert(next.drop_last() =~= d.take(j as int));
            assert(next.last() == duplicates@[j as int]@);
            assert(out@ =~= before + ("already recorded "@ + tag_text(duplicates@[j as int]@)
                + "\n"@));
        }
        j += 1;
    }
    assert(d.take(d.len() as int) =~= d);
    out
}

/// What is said of an archived claim.
pub fn archived_note(cid: &str) -> (r: String)
    requires
        taggable(cid@),
    ensures
        r@ == "archived "@ + tag_text(cid@) + " (still in the log; hidden from packs)\n"@,
{
    let mut out = "archived ".to_owned();
    out.append(tag(cid).as_str());
    out.append(" (still in the log; hidden from packs)\n");
    out
}

/// What is said of a rated claim.
pub fn rated_note(cid: &str) -> (r: String)
    requires
        taggable(cid@),
    ensures
        r@ == "noted "@ + tag_text(cid@) + "\n"@,
{
    let mut out = "noted ".to_owned();
    out.append(tag(cid).as_str());
    out.append("\n");
    out
}

// ---- laws ----

/// Proposals are listed one below the other: of two listings put together, the
/// one stands behind the other, and one proposal is listed as its own text.
pub proof fn proposals_stand_in_order(a: Seq<Claim>, b: Seq<Claim>, c: Claim)
    ensures
        proposals_text(a + b) == proposals_text(a) + proposals_text(b),
        proposals_text(seq![c]) == proposal_text(c),
        proposals_text(a.push(c)) == proposals_text(a) + proposal_text(c),
    decreases b.len(),
{
    let one = seq![c];
    assert(one.drop_last() =~= seq![]);
    assert(proposals_text(one.drop_last()) =~= seq![]);
    assert(one.last() == c);
    assert(proposals_text(one) =~= proposal_text(c));
    assert(a.push(c).drop_last() =~= a);
    if b.len() == 0 {
        assert(a + b =~= a);
        assert(proposals_text(a) + proposals_text(b) =~= proposals_text(a));
    } else {
        proposals_stand_in_order(a, b.drop_last(), c);
        assert((a + b).drop_last() =~= a + b.drop_last());
        assert((a + b).last() == b.last());
        assert(proposals_text(a + b) =~= proposals_text(a) + proposals_text(b));
    }
}

/// A review shows every pending proposal, whatever else is pending, and the
/// proposals in their order; only without any does it say that there are none.
pub proof fn a_review_shows_every_proposal(pending: Seq<Claim>)
    ensures
        forall|i: int|
            0 <= i < pending.len() ==> mentions(
                review_text(pending),
                proposal_text(#[trigger] pending[i]),
            ),
        pending.len() > 0 ==> proposals_text(pending).is_prefix_of(review_text(pending)),
        pending.len() == 0 ==> review_text(pending) == "no pending proposals\n"@,
{
    let end =
        "\naccept: ctx review accept c:XXXX    reject: ctx review reject c:XXXX --reason \"...\"\n"@;
    assert forall|i: int| 0 <= i < pending.len() implies mentions(
        review_text(pending),
        proposal_text(#[trigger] pending[i]),
    ) by {
        let c = pending[i];
        let before = pending.take(i);
        let after = pending.skip(i + 1);
        proposals_stand_in_order(before, after, c);
        proposals_stand_in_order(before.push(c), after, c);
        assert(before.push(c) + after =~= pending);
        lemma_mentions(proposals_text(before), proposal_text(c), proposals_text(after));
        lemma_mentions_within(seq![], proposals_text(pending), end, proposal_text(c));
    }
    if pending.len() > 0 {
        assert(review_text(pending).take(proposals_text(pending).len() as int) =~= proposals_text(
            pending,
        ));
    }
}

/// A proposal is shown with its tag, its kind, its branch, where it comes from
/// and all of its text, and with its reason where it has one.
pub proof fn a_proposal_is_shown_whole(c: Claim)
    ensures
        mentions(proposal_text(c), tag_text(c.cid@)),
        mentions(proposal_text(c), c.kind@),
        mentions(proposal_text(c), c.branch@),
        mentions(proposal_text(c), c.src@),
        mentions(proposal_text(c), line_feeds_replaced(c.text@, "\n    "@)),
        text_of(c.why) matches Some(why) ==> mentions(proposal_text(c), why),
{
    let reason = match text_of(c.why) {
        Some(why) => "    why: "@ + why + "\n"@,
        None => ""@,
    };
    let p0 = tag_text(c.cid@);
    let p1 = "  "@;
    let p2 = c.kind@;
    let p3 = " → "@;
    let p4 = c.branch@;
    let p5 = "  (from "@;
    let p6 = c.src@;
    let p7 = ")\n    "@;
    let p8 = line_feeds_replaced(c.text@, "\n    "@);
    let p9 = "\n"@;
    let p10 = reason;
    let s0 = p0;
    let s1 = s0 + p1;
    let s2 = s1 + p2;
    let s3 = s2 + p3;
    let s4 = s3 + p4;
    let s5 = s4 + p5;
    let s6 = s5 + p6;
    let s7 = s6 + p7;
    let s8 = s7 + p8;
    let s9 = s8 + p9;
    let s10 = s9 + p10;
    lemma_mentions(seq![], p0, p1);
    lemma_mentions_within(seq![], s1, p2, p0);
    lemma_mentions_within(seq![], s2, p3, p0);
    lemma_mentions_within(seq![], s3, p4, p0);
    lemma_mentions_within(seq![], s4, p5, p0);
    lemma_mentions_within(seq![], s5, p6, p0);
    lemma_mentions_within(seq![], s6, p7, p0);
    lemma_mentions_within(seq![], s7, p8, p0);
    lemma_mentions_within(seq![], s8, p9, p0);
    lemma_mentions_within(seq![], s9, p10, p0);
    lemma_mentions(s1, p2, seq![]);
    lemma_mentions_within(seq![], s2, p3, p2);
    lemma_mentions_within(seq![], s3, p4, p2);
    lemma_mentions_within(seq![], s4, p5, p2);
    lemma_mentions_within(seq![], s5, p6, p2);
    lemma_mentions_within(seq![], s6, p7, p2);
    lemma_mentions_within(seq![], s7, p8, p2);
    lemma_mentions_within(seq![], s8, p9, p2);
    lemma_mentions_within(seq![], s9, p10, p2);
    lemma_mentions(s3, p4, seq![]);
    lemma_mentions_within(seq![], s4, p5, p4);
    lemma_mentions_within(seq![], s5, p6, p4);
    lemma_mentions_within(seq![], s6, p7, p4);
    lemma_mentions_within(seq![], s7, p8, p4);
    lemma_mentions_within(seq![], s8, p9, p4);
    lemma_mentions_within(seq![], s9, p10, p4);
    lemma_mentions(s5, p6, seq![]);
    lemma_mentions_within(seq![], s6, p7, p6);
    lemma_mentions_within(seq![], s7, p8, p6);
    lemma_mentions_within(seq![], s8, p9, p6);
    lemma_mentions_within(seq![], s9, p10, p6);
    lemma_mentions(s7, p8, seq![]);
    lemma_mentions_within(seq![], s8, p9, p8);
    lemma_mentions_within(seq![], s9, p10, p8);
    assert(proposal_text(c) == s10);
    if let Some(why) = text_of(c.why) {
        lemma_mentions("    why: "@, why, "\n"@);
        lemma_mentions_within(s9, p10, seq![], why);
    }
}

/// A claim's line starts with its date and holds its tag, its kind and its
/// first line. It says where the claim has more lines, its state where that is
/// not active, and its branch where that is asked for and not the usual one.
pub proof fn a_line_tells_of_its_claim(
    c: Claim,
    date: Seq<char>,
    show_branch: bool,
    default: Seq<char>,
)
    ensures
        mentions(claim_line(c, date, show_branch, default), date + " "@ + tag_text(c.cid@)),
        mentions(claim_line(c, date, show_branch, default), c.kind@),
        mentions(claim_line(c, date, show_branch, default), c.first_line@),
        c.text@.contains('\n') ==> mentions(
            claim_line(c, date, show_branch, default),
            " …"@,
        ),
        c.status != Status::Active ==> mentions(
            claim_line(c, date, show_branch, default),
            " ("@ + c.status_name@ + ")"@,
        ),
        show_branch && c.branch@ != default ==> mentions(
            claim_line(c, date, show_branch, default),
            "  · "@ + c.branch@,
        ),
        claim_line(c, date, false, default) == claim_line(c, date, true, c.branch@),
        !c.text@.contains('\n') && c.status == Status::Active && !(show_branch && c.branch@
            != default) ==> (c.first_line@ + "\n"@).is_suffix_of(
            claim_line(c, date, show_branch, default),
        ),
{
    let more = if c.text@.contains('\n') {
        " …"@
    } else {
        ""@
    };
    let state = if c.status == Status::Active {
        ""@
    } else {
        " ("@ + c.status_name@ + ")"@
    };
    let branch = if show_branch && c.branch@ != default {
        "  · "@ + c.branch@
    } else {
        ""@
    };
    lemma_mentions(seq![], c.kind@, spaces(10 - c.kind@.len()));
    let p0 = date + " "@ + tag_text(c.cid@);
    let p1 = "  "@;
    let p2 = padded(c.kind@, 10);
    let p3 = "  "@;
    let p4 = c.first_line@;
    let p5 = more;
    let p6 = state;
    let p7 = branch;
    let p8 = "\n"@;
    let s0 = p0;
    let s1 = s0 + p1;
    let s2 = s1 + p2;
    let s3 = s2 + p3;
    let s4 = s3 + p4;
    let s5 = s4 + p5;
    let s6 = s5 + p6;
    let s7 = s6 + p7;
    let s8 = s7 + p8;
    lemma_mentions(seq![], p0, p1);
    lemma_mentions_within(seq![], s1, p2, p0);
    lemma_mentions_within(seq![], s2, p3, p0);
    lemma_mentions_within(seq![], s3, p4, p0);
    lemma_mentions_within(seq![], s4, p5, p0);
    lemma_mentions_within(seq![], s5, p6, p0);
    lemma_mentions_within(seq![], s6, p7, p0);
    lemma_mentions_within(seq![], s7, p8, p0);
    lemma_mentions_within(s1, p2, seq![], c.kind@);
    lemma_mentions_within(seq![], s2, p3, c.kind@);
    lemma_mentions_within(seq![], s3, p4, c.kind@);
    lemma_mentions_within(seq![], s4, p5, c.kind@);
    lemma_mentions_within(seq![], s5, p6, c.kind@);
    lemma_mentions_within(seq![], s6, p7, c.kind@);
    lemma_mentions_within(seq![], s7, p8, c.kind@);
    lemma_mentions(s3, p4, seq![]);
    lemma_mentions_within(seq![], s4, p5, p4);
    lemma_mentions_within(seq![], s5, p6, p4);
    lemma_mentions_within(seq![], s6, p7, p4);
    lemma_mentions_within(seq![], s7, p8, p4);
    lemma_mentions(s4, p5, seq![]);
    lemma_mentions_within(seq![], s5, p6, p5);
    lemma_mentions_within(seq![], s6, p7, p5);
    lemma_mentions_within(seq![], s7, p8, p5);
    lemma_mentions(s5, p6, seq![]);
    lemma_mentions_within(seq![], s6, p7, p6);
    lemma_mentions_within(seq![], s7, p8, p6);
    lemma_mentions(s6, p7, seq![]);
    lemma_mentions_within(seq![], s7, p8, p7);
    assert(claim_line(c, date, show_branch, default) == s8);
    if !c.text@.contains('\n') && c.status == Status::Active && !(show_branch && c.branch@
        != default) {
        reveal_strlit("");
        assert(s7 =~= s3 + p4);
        assert(s8 =~= s3 + (p4 + p8));
        assert(s8.skip(s3.len() as int) =~= p4 + p8);
    }
}

/// More words on a claim stand behind its line, which stays as it is.
pub proof fn details_stand_behind_the_line(
    c: Claim,
    date: Seq<char>,
    show_branch: bool,
    default: Seq<char>,
)
    ensures
        claim_text(c, date, false, show_branch, default) == claim_line(
            c,
            date,
            show_branch,
            default,
        ),
        claim_text(c, date, true, show_branch, default) == claim_text(
            c,
            date,
            false,
            show_branch,
            default,
        ) + claim_details(c),
{
    reveal_strlit("");
    assert(claim_line(c, date, show_branch, default) + ""@ =~= claim_line(
        c,
        date,
        show_branch,
        default,
    ));
}

/// Indented lines stand one below the other, each behind its indent.
pub proof fn indented_lines_stand_in_order(a: Seq<Seq<char>>, b: Seq<Seq<char>>, line: Seq<char>)
    ensures
        indented(a + b) == indented(a) + indented(b),
        indented(seq![line]) == spaces(20) + line + "\n"@,
    decreases b.len(),
{
    let one = seq![line];
    assert(one.drop_last() =~= seq![]);
    assert(indented(one.drop_last()) =~= seq![]);
    assert(one.last() == line);
    assert(indented(one) =~= spaces(20) + line + "\n"@);
    if b.len() == 0 {
        assert(a + b =~= a);
        assert(indented(a) + indented(b) =~= indented(a));
    } else {
        indented_lines_stand_in_order(a, b.drop_last(), line);
        assert((a + b).drop_last() =~= a + b.drop_last());
        assert((a + b).last() == b.last());
        assert(indented(a + b) =~= indented(a) + indented(b));
    }
}

/// The other lines of a text are all of its lines behind the first.
pub proof fn the_other_lines_follow_the_first(s: Seq<char>)
    ensures
        lines(s).len() == 0 ==> more_lines(s).len() == 0,
        lines(s).len() > 0 ==> lines(s) == seq![lines(s)[0]] + more_lines(s),
{
    if lines(s).len() > 0 {
        assert(lines(s) =~= seq![lines(s)[0]] + lines(s).skip(1));
    }
}

/// The details of a claim are its other lines, then its reason, every reference
/// and every tag where it has them, and at the end its id, its branch, its
/// state, how sure it is and where it comes from.
pub proof fn details_are_complete(c: Claim)
    ensures
        indented(more_lines(c.text@)).is_prefix_of(claim_details(c)),
        text_of(c.why) matches Some(why) ==> mentions(
            claim_details(c),
            "why:  "@ + line_feeds_replaced(why, " "@) + "\n"@,
        ),
        forall|i: int|
            0 <= i < c.refs@.len() ==> mentions(claim_details(c), (#[trigger] c.refs@[i])@),
        forall|i: int|
            0 <= i < c.entities@.len() ==> mentions(
                claim_details(c),
                (#[trigger] c.entities@[i])@,
            ),
        c.refs@.len() > 0 ==> mentions(
            claim_details(c),
            "refs: "@ + joined(texts(c.refs@), ", "@) + "\n"@,
        ),
        c.entities@.len() > 0 ==> mentions(
            claim_details(c),
            "tags: "@ + joined(texts(c.entities@), ", "@) + "\n"@,
        ),
        (c.id@ + " · "@ + c.branch@ + " · "@ + c.status_name@ + " · "@ + c.confidence@
            + " · from "@ + c.src@ + "\n"@).is_suffix_of(claim_details(c)),
{
    let refs = joined(texts(c.refs@), ", "@);
    let tags = joined(texts(c.entities@), ", "@);
    let last = c.id@ + " · "@ + c.branch@ + " · "@ + c.status_name@ + " · "@
        + c.confidence@ + " · from "@ + c.src@ + "\n"@;
    let p0 = indented(more_lines(c.text@));
    let p1 = match text_of(c.why) {
        Some(why) => spaces(20) + "why:  "@ + line_feeds_replaced(why, " "@) + "\n"@,
        None => ""@,
    };
    let p2 = if c.refs@.len() > 0 {
        spaces(20) + "refs: "@ + refs + "\n"@
    } else {
        ""@
    };
    let p3 = if c.entities@.len() > 0 {
        spaces(20) + "tags: "@ + tags + "\n"@
    } else {
        ""@
    };
    let p4 = spaces(20) + c.id@ + " · "@ + c.branch@ + " · "@ + c.status_name@ + " · "@
        + c.confidence@ + " · from "@ + c.src@ + "\n"@;
    let s1 = p0 + p1;
    let s2 = s1 + p2;
    let s3 = s2 + p3;
    let all = s3 + p4;
    assert(claim_details(c) == all);
    assert(all.take(p0.len() as int) =~= p0);
    assert(p4 =~= spaces(20) + last);
    assert(all =~= (s3 + spaces(20)) + last);
    assert(all.skip((s3 + spaces(20)).len() as int) =~= last);
    if let Some(why) = text_of(c.why) {
        let said = "why:  "@ + line_feeds_replaced(why, " "@) + "\n"@;
        assert(p1 =~= spaces(20) + said);
        lemma_mentions(spaces(20), said, seq![]);
        lemma_mentions_within(p0, p1, p2, said);
        lemma_mentions_within(seq![], s2, p3, said);
        lemma_mentions_within(seq![], s3, p4, said);
    }
    if c.refs@.len() > 0 {
        let said = "refs: "@ + refs + "\n"@;
        assert(p2 =~= spaces(20) + said);
        lemma_mentions(spaces(20), said, seq![]);
        lemma_mentions_within(s1, p2, p3, said);
        lemma_mentions_within(seq![], s3, p4, said);
        joining_keeps_every_part(texts(c.refs@), ", "@, seq![]);
        assert forall|i: int| 0 <= i < c.refs@.len() implies mentions(
            claim_details(c),
            (#[trigger] c.refs@[i])@,
        ) by {
            let one = texts(c.refs@)[i];
            lemma_mentions_within("refs: "@, refs, "\n"@, one);
            lemma_mentions_within(spaces(20), said, seq![], one);
            lemma_mentions_within(s1, p2, p3, one);
            lemma_mentions_within(seq![], s3, p4, one);
        }
    }
    if c.entities@.len() > 0 {
        let said = "tags: "@ + tags + "\n"@;
        assert(p3 =~= spaces(20) + said);
        lemma_mentions(spaces(20), said, seq![]);
        lemma_mentions_within(s2, p3, p4, said);
        joining_keeps_every_part(texts(c.entities@), ", "@, seq![]);
        assert forall|i: int| 0 <= i < c.entities@.len() implies mentions(
            claim_details(c),
            (#[trigger] c.entities@[i])@,
        ) by {
            let one = texts(c.entities@)[i];
            lemma_mentions_within("tags: "@, tags, "\n"@, one);
            lemma_mentions_within(spaces(20), said, seq![], one);
            lemma_mentions_within(s2, p3, p4, one);
        }
    }
}

/// A step of a claim's history is shown with its date and its state, and with
/// its reason where it has one.
pub proof fn a_step_is_shown_whole(h: StatusChange, date: Seq<char>)
    ensures
        mentions(change_line(h, date), date),
        mentions(change_line(h, date), h.to@),
        text_of(h.reason) matches Some(reason) ==> (": "@ + reason + "\n"@).is_suffix_of(
            change_line(h, date),
        ),
        h.reason is None ==> (h.to@ + "\n"@).is_suffix_of(change_line(h, date)),
{
    let why = match text_of(h.reason) {
        Some(reason) => ": "@ + reason,
        None => ""@,
    };
    let p0 = spaces(20);
    let p1 = date;
    let p2 = "  → "@;
    let p3 = h.to@;
    let p4 = why;
    let p5 = "\n"@;
    let s0 = p0;
    let s1 = s0 + p1;
    let s2 = s1 + p2;
    let s3 = s2 + p3;
    let s4 = s3 + p4;
    let s5 = s4 + p5;
    lemma_mentions(s0, p1, seq![]);
    lemma_mentions_within(seq![], s1, p2, p1);
    lemma_mentions_within(seq![], s2, p3, p1);
    lemma_mentions_within(seq![], s3, p4, p1);
    lemma_mentions_within(seq![], s4, p5, p1);
    lemma_mentions(s2, p3, seq![]);
    lemma_mentions_within(seq![], s3, p4, p3);
    lemma_mentions_within(seq![], s4, p5, p3);
    assert(change_line(h, date) == s5);
    reveal_strlit("");
    match text_of(h.reason) {
        Some(reason) => {
            assert(s5 =~= s3 + (": "@ + reason + "\n"@));
            assert(s5.skip(s3.len() as int) =~= ": "@ + reason + "\n"@);
        },
        None => {
            assert(s5 =~= s2 + (p3 + p5));
            assert(s5.skip(s2.len() as int) =~= p3 + p5);
        },
    }
}

/// What was pasted is told claim by claim: first every one that was saved, with
/// its branch, then every one that was there before, each in its order.
pub proof fn every_pasted_claim_is_told(
    saved: Seq<Seq<char>>,
    duplicates: Seq<Seq<char>>,
    branch: Seq<char>,
    cid: Seq<char>,
)
    ensures
        pasted_text(seq![], seq![], branch) == Seq::<char>::empty(),
        pasted_text(saved.push(cid), seq![], branch) == pasted_text(saved, seq![], branch) + (
        "saved "@ + tag_text(cid) + " -> "@ + branch + "\n"@),
        pasted_text(saved, duplicates.push(cid), branch) == pasted_text(saved, duplicates, branch)
            + ("already recorded "@ + tag_text(cid) + "\n"@),
{
    assert(saved.push(cid).drop_last() =~= saved);
    assert(duplicates.push(cid).drop_last() =~= duplicates);
}

/// What a verdict makes of a claim in this state; nothing where it is no
/// proposal.
pub open spec fn decided(status: Status, verdict: Verdict) -> Option<Status> {
    if status != Status::Proposed {
        None
    } else {
        match verdict {
            Verdict::Accept => Some(Status::Active),
            Verdict::Reject => Some(Status::Rejected),
        }
    }
}

/// Only a proposal is decided on, and once: what was accepted is active, what
/// was rejected is rejected, and neither is a proposal any more.
pub proof fn a_proposal_is_decided_once(status: Status, verdict: Verdict, again: Verdict)
    ensures
        decided(status, verdict) is Some <==> status == Status::Proposed,
        decided(status, Verdict::Accept) matches Some(after) ==> after == Status::Active,
        decided(status, Verdict::Reject) matches Some(after) ==> after == Status::Rejected,
        decided(status, verdict) matches Some(after) ==> decided(after, again) is None,
{
}

/// How many claims a log shows at most; all of them where that is zero.
pub open spec fn most_shown(limit: usize) -> Option<usize> {
    if limit > 0 {
        Some(limit)
    } else {
        None
    }
}

/// A limit is kept as it is given, and none is set exactly by a zero.
pub proof fn a_limit_is_kept(limit: usize)
    ensures
        most_shown(limit) is None <==> limit == 0,
        most_shown(limit) matches Some(n) ==> n == limit,
{
}

/// Where a text comes from, as a value.
pub enum SourceView {
    Clipboard,
    Stdin,
    Given(Seq<char>),
    File(Seq<char>),
}

impl View for Source {
    type V = SourceView;

    open spec fn view(&self) -> SourceView {
        match self {
            Source::Clipboard => SourceView::Clipboard,
            Source::Stdin => SourceView::Stdin,
            Source::Given(text) => SourceView::Given(text@),
            Source::File(path) => SourceView::File(path@),
        }
    }
}

/// Where a claim to save comes from; nothing where there is nothing to save.
pub open spec fn claim_read_from(text: Option<Seq<char>>, terminal: bool) -> Option<SourceView> {
    match text {
        Some(t) => if t == "-"@ {
            Some(SourceView::Stdin)
        } else {
            Some(SourceView::Given(t))
        },
        None => if terminal {
            None
        } else {
            Some(SourceView::Stdin)
        },
    }
}

/// A claim that is given is saved as it is given. One that is not, or only as a
/// dash, is read from what is piped in; there is none only where nothing is.
pub proof fn a_claim_is_taken_as_given(text: Seq<char>, terminal: bool)
    ensures
        text != seq!['-'] ==> claim_read_from(Some(text), terminal) == Some(SourceView::Given(text)),
        claim_read_from(Some(seq!['-']), terminal) == Some(SourceView::Stdin),
        claim_read_from(None, terminal) is None <==> terminal,
        claim_read_from(None, false) == Some(SourceView::Stdin),
{
    reveal_strlit("-");
    assert("-"@ =~= seq!['-']);
}

/// Where a document to save comes from, and whether a fence around it is taken
/// off; nothing where there is none.
pub open spec fn document_read_from(
    paste: bool,
    file: Option<Seq<char>>,
    dash: bool,
    terminal: bool,
) -> Option<(SourceView, bool)> {
    if paste {
        Some((SourceView::Clipboard, true))
    } else {
        match file {
            Some(path) => if dash {
                Some((SourceView::Stdin, true))
            } else {
                Some((SourceView::File(path), false))
            },
            None => if terminal {
                None
            } else {
                Some((SourceView::Stdin, true))
            },
        }
    }
}

/// A file is taken literally, and is the one that was named; whatever was pasted
/// or piped in has its fence taken off. Pasting counts before a file, and there
/// is no document only where nothing is given and nothing is piped in.
pub proof fn only_a_file_is_taken_literally(
    paste: bool,
    file: Option<Seq<char>>,
    dash: bool,
    terminal: bool,
)
    ensures
        document_read_from(paste, file, dash, terminal) is None <==> !paste && file is None
            && terminal,
        document_read_from(paste, file, dash, terminal) matches Some((source, unwrap)) ==> {
            &&& !unwrap <==> source is File
            &&& source is Clipboard <==> paste
            &&& source is File <==> !paste && file is Some && !dash
            &&& source matches SourceView::File(path) ==> file == Some(path)
            &&& !(source is Given)
        },
{
}

} // verus!

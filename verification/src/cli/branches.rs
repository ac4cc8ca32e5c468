//! `ctx branch`: which branches there are, and what is said of changing them.

use vstd::prelude::*;
use vstd::string::StringExecFns;

use crate::cli::output::utc_date;
use crate::text::{contains_char, push_decimal, push_padded, push_padded_number, same_text, text_before};
#[allow(unused_imports)]
use crate::cli::output::utc_date_of;
#[allow(unused_imports)]
use crate::text::{decimal, lemma_mentions, lemma_mentions_within, lemma_text_le_transitive,
    lemma_text_lt_total, mentions, padded, spaces, padded_left, text_le,
    text_lt, text_of, texts};

verus! {

// ---- their names ----

/// The names of branches that are defined, and behind them those that only
/// hold claims.
pub open spec fn gathered(defined: Seq<Seq<char>>, counted: Seq<Seq<char>>) -> Seq<Seq<char>>
    decreases counted.len(),
{
    if counted.len() == 0 {
        defined
    } else {
        let before = gathered(defined, counted.drop_last());
        if before.contains(counted.last()) {
            before
        } else {
            before.push(counted.last())
        }
    }
}

/// `v` with `x` behind all that do not come after it.
pub open spec fn put_in_order(v: Seq<Seq<char>>, x: Seq<char>) -> Seq<Seq<char>>
    decreases v.len(),
{
    if v.len() == 0 {
        seq![x]
    } else if text_lt(x, v[0]) {
        seq![x] + v
    } else {
        seq![v[0]] + put_in_order(v.drop_first(), x)
    }
}

/// The texts of `v` in order.
pub open spec fn in_order(v: Seq<Seq<char>>) -> Seq<Seq<char>>
    decreases v.len(),
{
    if v.len() == 0 {
        seq![]
    } else {
        put_in_order(in_order(v.drop_last()), v.last())
    }
}

/// Whether no text of `v` comes before one that stands before it.
pub open spec fn is_in_order(v: Seq<Seq<char>>) -> bool {
    forall|i: int, j: int| 0 <= i < j < v.len() ==> text_le(#[trigger] v[i], #[trigger] v[j])
}

proof fn lemma_put_in_order(v: Seq<Seq<char>>, x: Seq<char>)
    requires
        is_in_order(v),
    ensures
        is_in_order(put_in_order(v, x)),
        put_in_order(v, x).to_multiset() == v.to_multiset().insert(x),
    decreases v.len(),
{
    broadcast use vstd::seq_lib::group_to_multiset_ensures;

    let r = put_in_order(v, x);
    if v.len() == 0 {
        assert(r =~= v.push(x));
    } else if text_lt(x, v[0]) {
        assert(r =~= v.insert(0, x));
        lemma_text_lt_total(x, v[0]);
        assert forall|i: int, j: int| 0 <= i < j < r.len() implies text_le(
            #[trigger] r[i],
            #[trigger] r[j],
        ) by {
            assert(r[j] == v[j - 1]);
            if i == 0 {
                if j > 1 {
                    lemma_text_le_transitive(x, v[0], v[j - 1]);
                }
            } else {
                assert(r[i] == v[i - 1]);
            }
        }
    } else {
        let rest = v.drop_first();
        assert forall|i: int, j: int| 0 <= i < j < rest.len() implies text_le(
            #[trigger] rest[i],
            #[trigger] rest[j],
        ) by {
            assert(rest[i] == v[i + 1] && rest[j] == v[j + 1]);
        }
        lemma_put_in_order(rest, x);
        let tail = put_in_order(rest, x);
        assert(v =~= rest.insert(0, v[0]));
        assert(r =~= tail.insert(0, v[0]));
        assert(r.to_multiset() =~= v.to_multiset().insert(x));
        assert forall|i: int, j: int| 0 <= i < j < r.len() implies text_le(
            #[trigger] r[i],
            #[trigger] r[j],
        ) by {
            assert(r[j] == tail[j - 1]);
            if i == 0 {
                assert(tail.to_multiset().count(tail[j - 1]) > 0);
                assert(tail[j - 1] == x || rest.to_multiset().count(tail[j - 1]) > 0);
                if tail[j - 1] != x {
                    assert(rest.contains(tail[j - 1]));
                    let k = choose|k: int| 0 <= k < rest.len() && rest[k] == tail[j - 1];
                    assert(v[k + 1] == tail[j - 1]);
                }
            } else {
                assert(r[i] == tail[i - 1]);
            }
        }
    }
}

/// Putting names in order puts them in order, and neither loses nor adds one.
pub proof fn names_in_order(v: Seq<Seq<char>>)
    ensures
        is_in_order(in_order(v)),
        in_order(v).to_multiset() == v.to_multiset(),
    decreases v.len(),
{
    broadcast use vstd::seq_lib::group_to_multiset_ensures;

    if v.len() > 0 {
        let front = v.drop_last();
        names_in_order(front);
        lemma_put_in_order(in_order(front), v.last());
        assert(front.push(v.last()) =~= v);
    } else {
        assert(in_order(v) =~= v);
    }
}

fn has_name(names: &Vec<String>, name: &str) -> (r: bool)
    ensures
        r == texts(names@).contains(name@),
{
    let ghost all = texts(names@);
    let mut i: usize = 0;
    while i < names.len()
        invariant
            i <= names@.len(),
            all == texts(names@),
            forall|j: int| 0 <= j < i ==> #[trigger] all[j] != name@,
        decreases names@.len() - i,
    {
        if same_text(names[i].as_str(), name) {
            assert(all[i as int] == name@);
            return true;
        }
        i += 1;
    }
    false
}

fn insert_in_order(v: &mut Vec<String>, x: &str)
    ensures
        texts(final(v)@) == put_in_order(texts(old(v)@), x@),
{
    let ghost all = texts(v@);
    let mut i: usize = 0;
    assert(all.skip(0) =~= all);
    assert(all.take(0) + put_in_order(all, x@) =~= put_in_order(all, x@));
    while i < v.len() && !text_before(x, v[i].as_str())
        invariant
            i <= v@.len(),
            all == texts(v@),
            put_in_order(all, x@) == all.take(i as int) + put_in_order(all.skip(i as int), x@),
        decreases v@.len() - i,
    {
        proof {
            let rest = all.skip(i as int);
            assert(rest[0] == v@[i as int]@);
            assert(rest.drop_first() =~= all.skip(i + 1));
            let tail = put_in_order(all.skip(i + 1), x@);
            assert(all.take(i as int) + (seq![rest[0]] + tail) =~= all.take(i + 1) + tail);
        }
        i += 1;
    }
    proof {
        let rest = all.skip(i as int);
        if i < v@.len() {
            assert(rest[0] == v@[i as int]@);
            assert(all.take(i as int) + (seq![x@] + rest) =~= all.insert(i as int, x@));
        } else {
            assert(all.take(i as int) + seq![x@] =~= all.insert(i as int, x@));
        }
    }
    v.insert(i, x.to_owned());
    assert(texts(v@) =~= all.insert(i as int, x@));
}

/// The names that `ctx branch ls` shows: of the branches that are defined, and
/// of those that only hold claims.
pub fn branch_names(defined: Vec<String>, counted: &Vec<String>) -> (r: Vec<String>)
    ensures
        texts(r@) == in_order(gathered(texts(defined@), texts(counted@))),
{
    let ghost given = texts(defined@);
    let ghost more = texts(counted@);
    let mut names = defined;
    let mut i: usize = 0;
    while i < counted.len()
        invariant
            i <= counted@.len(),
            more == texts(counted@),
            texts(names@) == gathered(given, more.take(i as int)),
        decreases counted@.len() - i,
    {
        proof {
            let next = more.take(i + 1);
            assert(next.drop_last() =~= more.take(i as int));
            assert(next.last() == counted@[i as int]@);
        }
        let ghost before = texts(names@);
        if !has_name(&names, counted[i].as_str()) {
            names.push(counted[i].clone());
            assert(texts(names@) =~= before.push(counted@[i as int]@));
        }
        i += 1;
    }
    assert(more.take(more.len() as int) =~= more);
    let ghost all = texts(names@);
    let mut out: Vec<String> = Vec::new();
    let mut j: usize = 0;
    assert(texts(out@) =~= in_order(all.take(0)));
    while j < names.len()
        invariant
            j <= names@.len(),
            all == texts(names@),
            texts(out@) == in_order(all.take(j as int)),
        decreases names@.len() - j,
    {
        proof {
            let next = all.take(j + 1);
            assert(next.drop_last() =~= all.take(j as int));
            assert(next.last() == names@[j as int]@);
        }
        insert_in_order(&mut out, names[j].as_str());
        j += 1;
    }
    assert(all.take(all.len() as int) =~= all);
    out
}

// ---- their lines ----

/// A branch as `ctx branch ls` shows it. `last_tx` is when a claim was last
/// recorded on it, in seconds since 1970.
#[derive(Debug)]
pub struct BranchInfo {
    pub name: String,
    pub current: bool,
    pub active: u64,
    pub proposed: u64,
    pub last_tx: Option<i64>,
    pub parent: Option<String>,
    pub archived: bool,
}

/// The line of a branch on which a claim was last recorded on `last`.
pub open spec fn branch_line(b: BranchInfo, last: Seq<char>) -> Seq<char> {
    (if b.current {
        "*"@
    } else {
        " "@
    }) + " "@ + padded(b.name@, 28) + " "@ + padded_left(decimal(b.active as nat), 5)
        + " claims "@ + padded_left(decimal(b.proposed as nat), 3) + " proposed   last "@ + last + (
    match text_of(b.parent) {
        Some(parent) => "  (inherits from "@ + parent + ")"@,
        None => ""@,
    }) + (if b.archived {
        "  [archived]"@
    } else {
        ""@
    }) + "\n"@
}

/// The date that stands in a branch's line: a dash where it holds no claim.
pub open spec fn last_date(b: BranchInfo) -> Option<Seq<char>> {
    match b.last_tx {
        Some(moment) => utc_date_of(moment),
        None => Some("-"@),
    }
}

/// The line of a branch on which a claim was last recorded on `last`.
pub fn print_branch_dated(b: &BranchInfo, last: &str) -> (r: String)
    ensures
        r@ == branch_line(*b, last@),
{
    let mark = if b.current {
        "*"
    } else {
        " "
    };
    let archived = if b.archived {
        "  [archived]"
    } else {
        ""
    };
    let parent = match &b.parent {
        Some(parent) => {
            let mut out = "  (inherits from ".to_owned();
            out.append(parent.as_str());
            out.append(")");
            out
        },
        None => "".to_owned(),
    };
    let mut name = String::new();
    push_padded(&mut name, b.name.as_str(), 28);
    assert(name@ =~= padded(b.name@, 28));
    let mut active = String::new();
    push_padded_number(&mut active, b.active, 5);
    assert(active@ =~= padded_left(decimal(b.active as nat), 5));
    let mut proposed = String::new();
    push_padded_number(&mut proposed, b.proposed, 3);
    assert(proposed@ =~= padded_left(decimal(b.proposed as nat), 3));
    let mut out = mark.to_owned();
    out.append(" ");
    out.append(name.as_str());
    out.append(" ");
    out.append(active.as_str());
    out.append(" claims ");
    out.append(proposed.as_str());
    out.append(" proposed   last ");
    out.append(last);
    out.append(parent.as_str());
    out.append(archived);
    out.append("\n");
    out
}

/// The line of a branch: nothing where the moment at which a claim was last
/// recorded has no date.
pub fn print_branch(b: &BranchInfo) -> (r: Option<String>)
    ensures
        text_of(r) == match last_date(*b) {
            Some(last) => Some(branch_line(*b, last)),
            None => None,
        },
{
    match b.last_tx {
        Some(moment) => match utc_date(moment) {
            Some(last) => Some(print_branch_dated(b, last.as_str())),
            None => None,
        },
        None => Some(print_branch_dated(b, "-")),
    }
}

// ---- changing them ----

/// What is said where there are no branches.
pub fn no_branches_note() -> (r: String)
    ensures
        r@ == "no branches yet: `ctx init` in a project creates research and code\n"@,
{
    "no branches yet: `ctx init` in a project creates research and code\n".to_owned()
}

/// Whether a branch that `name` stands for may be created: it must belong to a
/// project.
pub fn check_new_branch(name: &str, branch: &str) -> (r: Result<(), String>)
    ensures
        match r {
            Ok(_) => branch@.contains('/'),
            Err(text) => !branch@.contains('/') && text@
                == "branches live in a project: use `project/"@ + name@
                + "`, or run inside a bound repo"@,
        },
{
    if contains_char(branch, '/') {
        return Ok(());
    }
    let mut text = "branches live in a project: use `project/".to_owned();
    text.append(name);
    text.append("`, or run inside a bound repo");
    Err(text)
}

/// What is said of a new branch.
pub fn created_note(branch: &str) -> (r: String)
    ensures
        r@ == "created "@ + branch@ + "\n"@,
{
    let mut out = "created ".to_owned();
    out.append(branch);
    out.append("\n");
    out
}

/// What is said of a merge.
pub fn merged_note(merged: u64, skipped: u64, from: &str, into: &str) -> (r: String)
    ensures
        r@ == "merged "@ + decimal(merged as nat) + " claim(s) from "@ + from@ + " into "@ + into@
            + " ("@ + decimal(skipped as nat) + " skipped: already there or not held)\n"@,
{
    let mut out = "merged ".to_owned();
    push_decimal(&mut out, merged);
    out.append(" claim(s) from ");
    out.append(from);
    out.append(" into ");
    out.append(into);
    out.append(" (");
    push_decimal(&mut out, skipped);
    out.append(" skipped: already there or not held)\n");
    out
}

/// What is said of an archived branch.
pub fn archived_branch_note(branch: &str, flipped: u64) -> (r: String)
    ensures
        r@ == "archived "@ + branch@ + " ("@ + decimal(flipped as nat)
            + " claims flipped; nothing deleted)\n"@,
{
    let mut out = "archived ".to_owned();
    out.append(branch);
    out.append(" (");
    push_decimal(&mut out, flipped);
    out.append(" claims flipped; nothing deleted)\n");
    out
}

/// The branches that are listed are those that are defined and those that hold
/// claims: none is left out, none is added, and none is listed twice that was
/// not defined twice.
pub proof fn every_branch_is_listed(defined: Seq<Seq<char>>, counted: Seq<Seq<char>>)
    ensures
        forall|name: Seq<char>|
            #[trigger] gathered(defined, counted).contains(name) <==> defined.contains(name)
                || counted.contains(name),
        defined.is_prefix_of(gathered(defined, counted)),
        (forall|i: int, j: int|
            0 <= i < j < defined.len() ==> #[trigger] defined[i] != #[trigger] defined[j]) ==> (
        forall|i: int, j: int|
            0 <= i < j < gathered(defined, counted).len() ==> #[trigger] gathered(
                defined,
                counted,
            )[i] != #[trigger] gathered(defined, counted)[j]),
    decreases counted.len(),
{
    if counted.len() == 0 {
        assert(defined.take(defined.len() as int) =~= defined);
    } else {
        let front = counted.drop_last();
        let last = counted.last();
        every_branch_is_listed(defined, front);
        let before = gathered(defined, front);
        let after = gathered(defined, counted);
        assert(before.take(defined.len() as int) == defined);
        assert(after.take(defined.len() as int) =~= defined);
        assert forall|name: Seq<char>|
            #[trigger] after.contains(name) <==> defined.contains(name) || counted.contains(name) by {
            if counted.contains(name) {
                let k = choose|k: int| 0 <= k < counted.len() && counted[k] == name;
                if k < front.len() {
                    assert(front[k] == name);
                    assert(before.contains(name));
                }
            }
            if before.contains(name) {
                let k = choose|k: int| 0 <= k < before.len() && before[k] == name;
                assert(after[k] == name);
                if front.contains(name) {
                    let j = choose|j: int| 0 <= j < front.len() && front[j] == name;
                    assert(counted[j] == name);
                }
            }
            if after.contains(name) && !before.contains(name) {
                let k = choose|k: int| 0 <= k < after.len() && after[k] == name;
                if k < before.len() {
                    assert(before[k] == name);
                }
                assert(counted[counted.len() - 1] == name);
            }
            if !before.contains(last) {
                assert(after[after.len() - 1] == last);
            }
            assert(counted[counted.len() - 1] == last);
        }
        if forall|i: int, j: int|
            0 <= i < j < defined.len() ==> #[trigger] defined[i] != #[trigger] defined[j] {
            assert forall|i: int, j: int| 0 <= i < j < after.len() implies #[trigger] after[i]
                != #[trigger] after[j] by {
                if j < before.len() {
                    assert(before[i] == after[i] && before[j] == after[j]);
                } else {
                    assert(before[i] == after[i]);
                    assert(before.contains(before[i]));
                }
            }
        }
    }
}

/// A branch's line holds its name, its counts, when it last changed, and its
/// parent where it has one.
pub proof fn a_line_tells_of_its_branch(b: BranchInfo, last: Seq<char>)
    ensures
        mentions(branch_line(b, last), b.name@),
        mentions(branch_line(b, last), decimal(b.active as nat) + " claims "@),
        mentions(branch_line(b, last), decimal(b.proposed as nat) + " proposed   last "@ + last),
        text_of(b.parent) matches Some(parent) ==> mentions(
            branch_line(b, last),
            "  (inherits from "@ + parent + ")"@,
        ),
{
    let parent = match text_of(b.parent) {
        Some(parent) => "  (inherits from "@ + parent + ")"@,
        None => ""@,
    };
    let archived = if b.archived {
        "  [archived]"@
    } else {
        ""@
    };
    let star = if b.current {
        "*"@
    } else {
        " "@
    };
    let active = decimal(b.active as nat);
    let proposed = decimal(b.proposed as nat);
    let claims = active + " claims "@;
    let rest = proposed + " proposed   last "@ + last;
    lemma_mentions(seq![], b.name@, spaces(28 - b.name@.len()));
    lemma_mentions(spaces(5 - active.len()), claims, seq![]);
    lemma_mentions(spaces(3 - proposed.len()), rest, seq![]);
    let p0 = star;
    let p1 = " "@;
    let p2 = padded(b.name@, 28);
    let p3 = " "@;
    let p4 = spaces(5 - active.len()) + claims;
    let p5 = spaces(3 - proposed.len()) + rest;
    let p6 = parent;
    let p7 = archived;
    let p8 = "\n"@;
    let s0 = p0;
    let s1 = s0 + p1;
    let s2 = s1 + p2;
    let s3 = s2 + p3;
    let s4 = s3 + p4;
    let s5 = s4 + p5;
    let s6 = s5 + p6;
    let s7 = s6 + p7;
    let s8 = s7 + p8;
    lemma_mentions_within(s1, p2, seq![], b.name@);
    lemma_mentions_within(seq![], s2, p3, b.name@);
    lemma_mentions_within(seq![], s3, p4, b.name@);
    lemma_mentions_within(seq![], s4, p5, b.name@);
    lemma_mentions_within(seq![], s5, p6, b.name@);
    lemma_mentions_within(seq![], s6, p7, b.name@);
    lemma_mentions_within(seq![], s7, p8, b.name@);
    lemma_mentions_within(s3, p4, seq![], claims);
    lemma_mentions_within(seq![], s4, p5, claims);
    lemma_mentions_within(seq![], s5, p6, claims);
    lemma_mentions_within(seq![], s6, p7, claims);
    lemma_mentions_within(seq![], s7, p8, claims);
    lemma_mentions_within(s4, p5, seq![], rest);
    lemma_mentions_within(seq![], s5, p6, rest);
    lemma_mentions_within(seq![], s6, p7, rest);
    lemma_mentions_within(seq![], s7, p8, rest);
    lemma_mentions(s5, p6, seq![]);
    lemma_mentions_within(seq![], s6, p7, p6);
    lemma_mentions_within(seq![], s7, p8, p6);
    lemma_branch_line(b, last, star, parent, archived);
    assert(branch_line(b, last) == s8);
}

/// A branch's line starts with a star exactly where it is the current one.
pub proof fn the_current_branch_is_marked(b: BranchInfo, last: Seq<char>)
    ensures
        branch_line(b, last).len() > 0,
        branch_line(b, last)[0] == '*' <==> b.current,
{
    reveal_strlit("*");
    reveal_strlit(" ");
}

/// A branch's line ends with whether it is archived, and a line without a
/// parent says nothing else behind the date.
pub proof fn an_archived_branch_is_marked(b: BranchInfo, last: Seq<char>)
    ensures
        b.archived ==> "  [archived]\n"@.is_suffix_of(branch_line(b, last)),
        !b.archived && b.parent is None ==> (last + "\n"@).is_suffix_of(branch_line(b, last)),
{
    let star = if b.current {
        "*"@
    } else {
        " "@
    };
    let head = star + " "@ + padded(b.name@, 28) + " "@ + padded_left(decimal(b.active as nat), 5)
        + " claims "@ + padded_left(decimal(b.proposed as nat), 3) + " proposed   last "@;
    let parent = match text_of(b.parent) {
        Some(parent) => "  (inherits from "@ + parent + ")"@,
        None => ""@,
    };
    lemma_line_end(head, last, parent);
    if b.archived {
        assert(branch_line(b, last) == head + last + parent + "  [archived]"@ + "\n"@);
    } else if b.parent is None {
        assert(branch_line(b, last) == head + last + ""@ + ""@ + "\n"@);
    }
}

proof fn lemma_line_end(head: Seq<char>, last: Seq<char>, parent: Seq<char>)
    ensures
        "  [archived]\n"@.is_suffix_of(head + last + parent + "  [archived]"@ + "\n"@),
        (last + "\n"@).is_suffix_of(head + last + ""@ + ""@ + "\n"@),
{
    reveal_strlit("");
    reveal_strlit("\n");
    reveal_strlit("  [archived]");
    reveal_strlit("  [archived]\n");
    let front = head + last + parent;
    assert("  [archived]"@ + "\n"@ =~= "  [archived]\n"@);
    let all = front + "  [archived]"@ + "\n"@;
    assert(all =~= front + "  [archived]\n"@);
    assert(all.skip(front.len() as int) =~= "  [archived]\n"@);
    let plain = head + last + ""@ + ""@ + "\n"@;
    assert(plain =~= head + (last + "\n"@));
    assert(plain.skip(head.len() as int) =~= last + "\n"@);
}

/// A branch's line, with its counts and what stands behind them put together.
proof fn lemma_branch_line(
    b: BranchInfo,
    last: Seq<char>,
    star: Seq<char>,
    parent: Seq<char>,
    archived: Seq<char>,
)
    requires
        star == (if b.current {
            "*"@
        } else {
            " "@
        }),
        parent == (match text_of(b.parent) {
            Some(parent) => "  (inherits from "@ + parent + ")"@,
            None => ""@,
        }),
        archived == (if b.archived {
            "  [archived]"@
        } else {
            ""@
        }),
    ensures
        ({
            let active = decimal(b.active as nat);
            let proposed = decimal(b.proposed as nat);
            branch_line(b, last) == star + " "@ + padded(b.name@, 28) + " "@ + (spaces(
                5 - active.len(),
            ) + (active + " claims "@)) + (spaces(3 - proposed.len()) + (proposed
                + " proposed   last "@ + last)) + parent + archived + "\n"@
        }),
{
    let active = decimal(b.active as nat);
    let proposed = decimal(b.proposed as nat);
    let head = star + " "@ + padded(b.name@, 28) + " "@;
    let a = head + padded_left(active, 5) + " claims "@ + padded_left(proposed, 3)
        + " proposed   last "@ + last;
    let c = head + (spaces(5 - active.len()) + (active + " claims "@)) + (spaces(3 - proposed.len())
        + (proposed + " proposed   last "@ + last));
    assert(a =~= c);
}

} // verus!

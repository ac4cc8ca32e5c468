//! `ctx list`: the ideas that there are, with their branches and sizes.

use vstd::prelude::*;
use vstd::string::StringExecFns;
use vstd::utf8::encode_utf8;

use crate::cli::output::{holdings_text, plural};
use crate::text::{chars_of, is_text, join, push_padded, same_text, text_before, text_between};
#[allow(unused_imports)]
use crate::cli::output::{claims_counted, counted, holdings};
#[allow(unused_imports)]
use crate::text::{joined, joining_keeps_every_part, lemma_mentions, lemma_mentions_within,
    lemma_text_lt_total, lemma_text_lt_transitive, mentions, padded, spaces, text_lt, text_of, texts};

verus! {

// ---- sorted names ----

/// `v` with `x` in its place, unless it is there.
pub open spec fn sorted_insert(v: Seq<Seq<char>>, x: Seq<char>) -> Seq<Seq<char>>
    decreases v.len(),
{
    if v.len() == 0 {
        seq![x]
    } else if v[0] == x {
        v
    } else if text_lt(x, v[0]) {
        seq![x] + v
    } else {
        seq![v[0]] + sorted_insert(v.drop_first(), x)
    }
}

/// The texts of `v` in order, each once.
pub open spec fn sorted_set(v: Seq<Seq<char>>) -> Seq<Seq<char>>
    decreases v.len(),
{
    if v.len() == 0 {
        seq![]
    } else {
        sorted_insert(sorted_set(v.drop_last()), v.last())
    }
}

/// Whether the texts of `v` are in order and no two are the same.
pub open spec fn is_sorted_set(v: Seq<Seq<char>>) -> bool {
    forall|i: int, j: int| 0 <= i < j < v.len() ==> text_lt(#[trigger] v[i], #[trigger] v[j])
}

/// Putting a text in its place keeps the order and adds that text alone.
pub proof fn sorted_insert_keeps_order(v: Seq<Seq<char>>, x: Seq<char>)
    requires
        is_sorted_set(v),
    ensures
        is_sorted_set(sorted_insert(v, x)),
        forall|y: Seq<char>|
            #[trigger] sorted_insert(v, x).contains(y) <==> y == x || v.contains(y),
    decreases v.len(),
{
    let r = sorted_insert(v, x);
    if v.len() == 0 {
        assert(r[0] == x);
    } else if v[0] == x {
        assert(v.contains(x));
    } else if text_lt(x, v[0]) {
        assert forall|i: int, j: int| 0 <= i < j < r.len() implies text_lt(
            #[trigger] r[i],
            #[trigger] r[j],
        ) by {
            if i == 0 {
                if j > 1 {
                    lemma_text_lt_transitive(x, v[0], v[j - 1]);
                }
            } else {
                assert(r[i] == v[i - 1] && r[j] == v[j - 1]);
            }
        }
        assert forall|y: Seq<char>| #[trigger] r.contains(y) <==> y == x || v.contains(y) by {
            if v.contains(y) {
                let k = choose|k: int| 0 <= k < v.len() && v[k] == y;
                assert(r[k + 1] == y);
            }
            if r.contains(y) {
                let k = choose|k: int| 0 <= k < r.len() && r[k] == y;
                if k > 0 {
                    assert(v[k - 1] == y);
                }
            }
            assert(r[0] == x);
        }
    } else {
        let rest = v.drop_first();
        assert forall|i: int, j: int| 0 <= i < j < rest.len() implies text_lt(
            #[trigger] rest[i],
            #[trigger] rest[j],
        ) by {
            assert(rest[i] == v[i + 1] && rest[j] == v[j + 1]);
        }
        sorted_insert_keeps_order(rest, x);
        let tail = sorted_insert(rest, x);
        lemma_text_lt_total(v[0], x);
        assert forall|i: int, j: int| 0 <= i < j < r.len() implies text_lt(
            #[trigger] r[i],
            #[trigger] r[j],
        ) by {
            assert(r[j] == tail[j - 1]);
            if i == 0 {
                assert(tail.contains(tail[j - 1]));
                if r[j] != x {
                    let k = choose|k: int| 0 <= k < rest.len() && rest[k] == r[j];
                    assert(v[k + 1] == r[j]);
                }
            } else {
                assert(r[i] == tail[i - 1]);
            }
        }
        assert forall|y: Seq<char>| #[trigger] r.contains(y) <==> y == x || v.contains(y) by {
            if v.contains(y) {
                let k = choose|k: int| 0 <= k < v.len() && v[k] == y;
                if k == 0 {
                    assert(r[0] == y);
                } else {
                    assert(rest[k - 1] == y);
                    assert(tail.contains(y));
                    let m = choose|m: int| 0 <= m < tail.len() && tail[m] == y;
                    assert(r[m + 1] == y);
                }
            }
            if y == x {
                assert(tail.contains(x));
                let m = choose|m: int| 0 <= m < tail.len() && tail[m] == x;
                assert(r[m + 1] == x);
            }
            if r.contains(y) {
                let k = choose|k: int| 0 <= k < r.len() && r[k] == y;
                if k == 0 {
                    assert(v[0] == y);
                } else {
                    assert(tail[k - 1] == y);
                    assert(tail.contains(y));
                    if y != x {
                        let m = choose|m: int| 0 <= m < rest.len() && rest[m] == y;
                        assert(v[m + 1] == y);
                    }
                }
            }
        }
    }
}

/// A sorted set is in order, and it holds the same texts.
pub proof fn sorted_set_is_sorted(v: Seq<Seq<char>>)
    ensures
        is_sorted_set(sorted_set(v)),
        forall|y: Seq<char>| #[trigger] sorted_set(v).contains(y) <==> v.contains(y),
    decreases v.len(),
{
    if v.len() > 0 {
        let front = v.drop_last();
        sorted_set_is_sorted(front);
        sorted_insert_keeps_order(sorted_set(front), v.last());
        assert forall|y: Seq<char>| #[trigger] sorted_set(v).contains(y) <==> v.contains(y) by {
            if v.contains(y) {
                let k = choose|k: int| 0 <= k < v.len() && v[k] == y;
                if k < front.len() {
                    assert(front[k] == y);
                }
            }
            if front.contains(y) {
                let k = choose|k: int| 0 <= k < front.len() && front[k] == y;
                assert(v[k] == y);
            }
            assert(v[v.len() - 1] == v.last());
        }
    }
}

/// Puts `x` in its place in `v`, unless it is there.
fn insert_sorted(v: &mut Vec<String>, x: &str)
    ensures
        texts(final(v)@) == sorted_insert(texts(old(v)@), x@),
{
    let ghost all = texts(v@);
    let mut i: usize = 0;
    assert(all.skip(0) =~= all);
    assert(all.take(0) + sorted_insert(all, x@) =~= sorted_insert(all, x@));
    while i < v.len() && !same_text(v[i].as_str(), x) && !text_before(x, v[i].as_str())
        invariant
            i <= v@.len(),
            all == texts(v@),
            sorted_insert(all, x@) == all.take(i as int) + sorted_insert(all.skip(i as int), x@),
        decreases v@.len() - i,
    {
        proof {
            let rest = all.skip(i as int);
            assert(rest[0] == v@[i as int]@);
            assert(rest.drop_first() =~= all.skip(i + 1));
            let tail = sorted_insert(all.skip(i + 1), x@);
            assert(all.take(i as int) + (seq![rest[0]] + tail) =~= all.take(i + 1) + tail);
        }
        i += 1;
    }
    proof {
        let rest = all.skip(i as int);
        if i < v@.len() {
            assert(rest[0] == v@[i as int]@);
            if rest[0] == x@ {
                assert(all.take(i as int) + rest =~= all);
            } else {
                assert(all.take(i as int) + (seq![x@] + rest) =~= all.insert(i as int, x@));
            }
        } else {
            assert(all.take(i as int) + seq![x@] =~= all.insert(i as int, x@));
        }
    }
    if i < v.len() && same_text(v[i].as_str(), x) {
        return;
    }
    v.insert(i, x.to_owned());
    assert(texts(v@) =~= all.insert(i as int, x@));
}

/// The texts of `v` in order, each once.
pub fn sorted_names(v: &Vec<String>) -> (r: Vec<String>)
    ensures
        texts(r@) == sorted_set(texts(v@)),
{
    let ghost all = texts(v@);
    let mut out: Vec<String> = Vec::new();
    let mut i: usize = 0;
    assert(texts(out@) =~= sorted_set(all.take(0)));
    while i < v.len()
        invariant
            i <= v@.len(),
            all == texts(v@),
            texts(out@) == sorted_set(all.take(i as int)),
        decreases v@.len() - i,
    {
        proof {
            let next = all.take(i + 1);
            assert(next.drop_last() =~= all.take(i as int));
            assert(next.last() == v@[i as int]@);
        }
        insert_sorted(&mut out, v[i].as_str());
        i += 1;
    }
    assert(all.take(all.len() as int) =~= all);
    out
}

// ---- ideas and their branches ----

/// Where the first slash of `s` stands; its length where there is none.
pub open spec fn slash_at(s: Seq<char>) -> int
    decreases s.len(),
{
    if s.len() == 0 || s[0] == '/' {
        0
    } else {
        1 + slash_at(s.drop_first())
    }
}

/// The idea that a branch belongs to: what stands before the first slash of
/// its name.
pub open spec fn idea_of(branch: Seq<char>) -> Option<Seq<char>> {
    if 0 <= slash_at(branch) < branch.len() {
        Some(branch.take(slash_at(branch)))
    } else {
        None
    }
}

/// The idea that a branch belongs to.
pub fn idea_of_branch(branch: &str) -> (r: Option<String>)
    ensures
        text_of(r) == idea_of(branch@),
{
    let cs = chars_of(branch);
    let mut i: usize = 0;
    assert(cs@.skip(0) =~= cs@);
    while i < cs.len() && cs[i] != '/'
        invariant
            i <= cs@.len(),
            slash_at(cs@) == i + slash_at(cs@.skip(i as int)),
        decreases cs@.len() - i,
    {
        assert(cs@.skip(i as int)[0] == cs@[i as int]);
        assert(cs@.skip(i as int).drop_first() =~= cs@.skip(i + 1));
        i += 1;
    }
    if i < cs.len() {
        assert(cs@.skip(i as int)[0] == cs@[i as int]);
        let idea = text_between(&cs, 0, i);
        assert(idea@ =~= cs@.take(i as int));
        Some(idea)
    } else {
        None
    }
}

/// A branch and what deleting it would take away.
#[derive(Debug)]
pub struct BranchRow {
    pub name: String,
    pub claims: u64,
    pub docs: u64,
    pub archived: bool,
}

/// What a row says.
pub struct RowView {
    pub name: Seq<char>,
    pub claims: nat,
    pub docs: nat,
    pub archived: bool,
}

impl View for BranchRow {
    type V = RowView;

    open spec fn view(&self) -> RowView {
        RowView {
            name: self.name@,
            claims: self.claims as nat,
            docs: self.docs as nat,
            archived: self.archived,
        }
    }
}

/// What rows say.
pub open spec fn row_views(rows: Seq<BranchRow>) -> Seq<RowView> {
    Seq::new(rows.len(), |i: int| rows[i]@)
}

/// The claims of all rows.
pub open spec fn claims_in(rows: Seq<RowView>) -> nat
    decreases rows.len(),
{
    if rows.len() == 0 {
        0
    } else {
        claims_in(rows.drop_last()) + rows.last().claims
    }
}

/// The document versions of all rows.
pub open spec fn docs_in(rows: Seq<RowView>) -> nat
    decreases rows.len(),
{
    if rows.len() == 0 {
        0
    } else {
        docs_in(rows.drop_last()) + rows.last().docs
    }
}

/// The rows of an idea's branches.
pub open spec fn rows_of(rows: Seq<RowView>, idea: Seq<char>) -> Seq<RowView>
    decreases rows.len(),
{
    if rows.len() == 0 {
        seq![]
    } else if idea_of(rows.last().name) == Some(idea) {
        rows_of(rows.drop_last(), idea).push(rows.last())
    } else {
        rows_of(rows.drop_last(), idea)
    }
}

/// The ideas that the rows' branches belong to.
pub open spec fn ideas_named(rows: Seq<RowView>) -> Seq<Seq<char>>
    decreases rows.len(),
{
    if rows.len() == 0 {
        seq![]
    } else {
        match idea_of(rows.last().name) {
            Some(idea) => ideas_named(rows.drop_last()).push(idea),
            None => ideas_named(rows.drop_last()),
        }
    }
}

/// Whether nothing of an idea is left: every branch of it is archived and
/// empty.
pub open spec fn all_gone(rows: Seq<RowView>) -> bool {
    forall|i: int|
        0 <= i < rows.len() ==> (#[trigger] rows[i]).archived && rows[i].claims + rows[i].docs == 0
}

/// Those of `ideas` that are gone, or those that are not.
pub open spec fn with_state(rows: Seq<RowView>, ideas: Seq<Seq<char>>, gone: bool) -> Seq<Seq<char>>
    decreases ideas.len(),
{
    if ideas.len() == 0 {
        seq![]
    } else {
        let before = with_state(rows, ideas.drop_last(), gone);
        if all_gone(rows_of(rows, ideas.last())) == gone {
            before.push(ideas.last())
        } else {
            before
        }
    }
}

/// The ideas that are left, in order.
pub open spec fn live_ideas(rows: Seq<RowView>) -> Seq<Seq<char>> {
    with_state(rows, sorted_set(ideas_named(rows)), false)
}

/// The ideas that are gone, in order.
pub open spec fn gone_ideas(rows: Seq<RowView>) -> Seq<Seq<char>> {
    with_state(rows, sorted_set(ideas_named(rows)), true)
}

// ---- the text ----

/// The longest name among the rows, in bytes.
pub open spec fn longest(rows: Seq<RowView>) -> nat
    decreases rows.len(),
{
    if rows.len() == 0 {
        0
    } else {
        let before = longest(rows.drop_last());
        let len = encode_utf8(rows.last().name).len();
        if len > before {
            len
        } else {
            before
        }
    }
}

/// The longest name among the branches of `ideas`, in bytes.
pub open spec fn longest_of(rows: Seq<RowView>, ideas: Seq<Seq<char>>) -> nat
    decreases ideas.len(),
{
    if ideas.len() == 0 {
        0
    } else {
        let before = longest_of(rows, ideas.drop_last());
        let len = longest(rows_of(rows, ideas.last()));
        if len > before {
            len
        } else {
            before
        }
    }
}

/// How wide the column of names is: as wide as the longest, from 24 to 44.
pub open spec fn column(rows: Seq<RowView>) -> int {
    let len = longest_of(rows, live_ideas(rows));
    if len < 24 {
        24
    } else if len > 44 {
        44
    } else {
        len as int
    }
}

/// The line of a branch.
pub open spec fn row_line(row: RowView, active: Option<Seq<char>>, width: int) -> Seq<char> {
    "  "@ + (if active == Some(row.name) {
        "*"@
    } else {
        " "@
    }) + " "@ + padded(row.name, width) + " "@ + claims_counted(row.claims as int) + (if row.docs
        > 0 {
        ", "@ + counted(row.docs as int, "document"@, "documents"@)
    } else {
        ""@
    }) + (if row.archived {
        "  [deleted]"@
    } else {
        ""@
    }) + "\n"@
}

/// The lines of an idea's branches.
pub open spec fn row_lines(rows: Seq<RowView>, active: Option<Seq<char>>, width: int) -> Seq<char>
    decreases rows.len(),
{
    if rows.len() == 0 {
        seq![]
    } else {
        row_lines(rows.drop_last(), active, width) + row_line(rows.last(), active, width)
    }
}

/// What is said of deleting an idea.
pub open spec fn deletion_line(idea: Seq<char>, claims: int, docs: int) -> Seq<char> {
    if claims + docs > 0 {
        "    delete the whole idea:  ctx delete "@ + idea + " --cloud   ("@ + holdings(
            claims,
            docs,
        ) + ")\n"@
    } else {
        "    empty:  ctx delete "@ + idea + " --cloud\n"@
    }
}

/// All that is said of an idea whose branches have these rows.
pub open spec fn idea_block(
    idea: Seq<char>,
    rows: Seq<RowView>,
    active: Option<Seq<char>>,
    bound: Option<Seq<char>>,
    width: int,
) -> Seq<char> {
    idea + (if bound == Some(idea) {
        "  (this repo)"@
    } else {
        ""@
    }) + "\n"@ + row_lines(rows, active, width) + deletion_line(
        idea,
        claims_in(rows) as int,
        docs_in(rows) as int,
    ) + "\n"@
}

/// All that is said of these ideas.
pub open spec fn idea_blocks(
    rows: Seq<RowView>,
    ideas: Seq<Seq<char>>,
    active: Option<Seq<char>>,
    bound: Option<Seq<char>>,
    width: int,
) -> Seq<char>
    decreases ideas.len(),
{
    if ideas.len() == 0 {
        seq![]
    } else {
        idea_blocks(rows, ideas.drop_last(), active, bound, width) + idea_block(
            ideas.last(),
            rows_of(rows, ideas.last()),
            active,
            bound,
            width,
        )
    }
}

/// What is said of the ideas that are gone.
pub open spec fn gone_note(gone: Seq<Seq<char>>, all: bool) -> Seq<char> {
    if gone.len() == 0 {
        ""@
    } else if all {
        "\n"@ + counted(gone.len() as int, "deleted idea"@, "deleted ideas"@) + ": "@ + joined(
            gone,
            ", "@,
        ) + "\nStill in the log: `ctx log --all --branch <idea>/<lane>`.\n"@
    } else {
        counted(gone.len() as int, "deleted idea"@, "deleted ideas"@)
            + " hidden; `ctx list -a` names them.\n"@
    }
}

/// What `ctx list` prints of these branches: the ideas that are left with
/// their branches, and those that are gone by name, if at all. `active` is the
/// branch that chats write to, `bound` the idea of this repository; `chats`
/// names the chats.
pub open spec fn listing(
    rows: Seq<RowView>,
    active: Option<Seq<char>>,
    bound: Option<Seq<char>>,
    all: bool,
    chats: Seq<char>,
) -> Seq<char> {
    let live = live_ideas(rows);
    let gone = gone_ideas(rows);
    if live.len() == 0 && (gone.len() == 0 || !all) {
        "no ideas yet. Start one with: ctx new \"<your idea>\"\n"@
    } else {
        idea_blocks(rows, live, active, bound, column(rows)) + (if live.len() > 0 {
            "Deleting hides it here, on GitHub, and in "@ + chats
                + ".\nNothing leaves the log: `ctx log --all` still shows it.\n"@
        } else {
            ""@
        }) + gone_note(gone, all)
    }
}

fn copy_row(row: &BranchRow) -> (r: BranchRow)
    ensures
        r@ == row@,
{
    BranchRow {
        name: row.name.clone(),
        claims: row.claims,
        docs: row.docs,
        archived: row.archived,
    }
}

/// The rows of an idea hold no more than all rows.
proof fn lemma_rows_of_total(rows: Seq<RowView>, idea: Seq<char>)
    ensures
        claims_in(rows_of(rows, idea)) <= claims_in(rows),
        docs_in(rows_of(rows, idea)) <= docs_in(rows),
    decreases rows.len(),
{
    if rows.len() > 0 {
        lemma_rows_of_total(rows.drop_last(), idea);
        let before = rows_of(rows.drop_last(), idea);
        assert(before.push(rows.last()).drop_last() =~= before);
    }
}

proof fn lemma_totals_grow(rows: Seq<RowView>, i: int)
    requires
        0 <= i <= rows.len(),
    ensures
        claims_in(rows.take(i)) <= claims_in(rows),
        docs_in(rows.take(i)) <= docs_in(rows),
    decreases rows.len() - i,
{
    if i < rows.len() {
        lemma_totals_grow(rows, i + 1);
        assert(rows.take(i + 1).drop_last() =~= rows.take(i));
    } else {
        assert(rows.take(i) =~= rows);
    }
}

fn idea_rows(rows: &Vec<BranchRow>, idea: &str) -> (r: Vec<BranchRow>)
    ensures
        row_views(r@) == rows_of(row_views(rows@), idea@),
{
    let ghost all = row_views(rows@);
    let mut out: Vec<BranchRow> = Vec::new();
    let mut i: usize = 0;
    assert(row_views(out@) =~= rows_of(all.take(0), idea@));
    while i < rows.len()
        invariant
            i <= rows@.len(),
            all == row_views(rows@),
            row_views(out@) == rows_of(all.take(i as int), idea@),
        decreases rows@.len() - i,
    {
        proof {
            let next = all.take(i + 1);
            assert(next.drop_last() =~= all.take(i as int));
            assert(next.last() == rows@[i as int]@);
        }
        let ghost before = row_views(out@);
        let of = idea_of_branch(rows[i].name.as_str());
        if is_text(&of, idea) {
            out.push(copy_row(&rows[i]));
            assert(row_views(out@) =~= before.push(rows@[i as int]@));
        }
        i += 1;
    }
    assert(all.take(all.len() as int) =~= all);
    out
}

fn named_ideas(rows: &Vec<BranchRow>) -> (r: Vec<String>)
    ensures
        texts(r@) == ideas_named(row_views(rows@)),
{
    let ghost all = row_views(rows@);
    let mut out: Vec<String> = Vec::new();
    let mut i: usize = 0;
    assert(texts(out@) =~= ideas_named(all.take(0)));
    while i < rows.len()
        invariant
            i <= rows@.len(),
            all == row_views(rows@),
            texts(out@) == ideas_named(all.take(i as int)),
        decreases rows@.len() - i,
    {
        proof {
            let next = all.take(i + 1);
            assert(next.drop_last() =~= all.take(i as int));
            assert(next.last() == rows@[i as int]@);
        }
        let ghost before = texts(out@);
        match idea_of_branch(rows[i].name.as_str()) {
            Some(idea) => {
                let ghost text = idea@;
                out.push(idea);
                assert(texts(out@) =~= before.push(text));
            },
            None => {},
        }
        i += 1;
    }
    assert(all.take(all.len() as int) =~= all);
    out
}

fn is_gone(rows: &Vec<BranchRow>) -> (r: bool)
    ensures
        r == all_gone(row_views(rows@)),
{
    let ghost all = row_views(rows@);
    let mut i: usize = 0;
    while i < rows.len()
        invariant
            i <= rows@.len(),
            all == row_views(rows@),
            forall|j: int|
                0 <= j < i ==> (#[trigger] all[j]).archived && all[j].claims + all[j].docs == 0,
        decreases rows@.len() - i,
    {
        if !(rows[i].archived && rows[i].claims == 0 && rows[i].docs == 0) {
            assert(!(all[i as int].archived && all[i as int].claims + all[i as int].docs == 0));
            return false;
        }
        i += 1;
    }
    true
}

fn ideas_in_state(rows: &Vec<BranchRow>, ideas: &Vec<String>, gone: bool) -> (r: Vec<String>)
    ensures
        texts(r@) == with_state(row_views(rows@), texts(ideas@), gone),
{
    let ghost all = texts(ideas@);
    let ghost views = row_views(rows@);
    let mut out: Vec<String> = Vec::new();
    let mut i: usize = 0;
    assert(texts(out@) =~= with_state(views, all.take(0), gone));
    while i < ideas.len()
        invariant
            i <= ideas@.len(),
            all == texts(ideas@),
            views == row_views(rows@),
            texts(out@) == with_state(views, all.take(i as int), gone),
        decreases ideas@.len() - i,
    {
        proof {
            let next = all.take(i + 1);
            assert(next.drop_last() =~= all.take(i as int));
            assert(next.last() == ideas@[i as int]@);
        }
        let ghost before = texts(out@);
        let mine = idea_rows(rows, ideas[i].as_str());
        if is_gone(&mine) == gone {
            out.push(ideas[i].clone());
            assert(texts(out@) =~= before.push(ideas@[i as int]@));
        }
        i += 1;
    }
    assert(all.take(all.len() as int) =~= all);
    out
}

fn longest_name(rows: &Vec<BranchRow>) -> (r: usize)
    ensures
        r == longest(row_views(rows@)),
{
    let ghost all = row_views(rows@);
    let mut len: usize = 0;
    let mut i: usize = 0;
    while i < rows.len()
        invariant
            i <= rows@.len(),
            all == row_views(rows@),
            len == longest(all.take(i as int)),
        decreases rows@.len() - i,
    {
        proof {
            let next = all.take(i + 1);
            assert(next.drop_last() =~= all.take(i as int));
            assert(next.last() == rows@[i as int]@);
        }
        let this: usize = rows[i].name.as_str().as_bytes().len();
        if this > len {
            len = this;
        }
        i += 1;
    }
    assert(all.take(all.len() as int) =~= all);
    len
}

fn column_width(rows: &Vec<BranchRow>, live: &Vec<String>) -> (r: usize)
    requires
        texts(live@) == live_ideas(row_views(rows@)),
    ensures
        r == column(row_views(rows@)),
{
    let ghost views = row_views(rows@);
    let ghost all = texts(live@);
    let mut len: usize = 0;
    let mut i: usize = 0;
    while i < live.len()
        invariant
            i <= live@.len(),
            all == texts(live@),
            views == row_views(rows@),
            len == longest_of(views, all.take(i as int)),
        decreases live@.len() - i,
    {
        proof {
            let next = all.take(i + 1);
            assert(next.drop_last() =~= all.take(i as int));
            assert(next.last() == live@[i as int]@);
        }
        let mine = idea_rows(rows, live[i].as_str());
        let this = longest_name(&mine);
        if this > len {
            len = this;
        }
        i += 1;
    }
    assert(all.take(all.len() as int) =~= all);
    if len < 24 {
        24
    } else if len > 44 {
        44
    } else {
        len
    }
}

fn documents_note(docs: u64) -> (r: String)
    ensures
        r@ == if docs > 0 {
            ", "@ + counted(docs as int, "document"@, "documents"@)
        } else {
            ""@
        },
{
    if docs > 0 {
        let mut out = ", ".to_owned();
        out.append(plural(docs, "document", "documents").as_str());
        out
    } else {
        "".to_owned()
    }
}

fn row_text(row: &BranchRow, active: &Option<String>, width: usize) -> (r: String)
    ensures
        r@ == row_line(row@, text_of(*active), width as int),
{
    let mark = if is_text(active, row.name.as_str()) {
        "*"
    } else {
        " "
    };
    let mut name = String::new();
    push_padded(&mut name, row.name.as_str(), width);
    assert(name@ =~= padded(row.name@, width as int));
    let documents = documents_note(row.docs);
    let deleted = if row.archived {
        "  [deleted]"
    } else {
        ""
    };
    let mut out = "  ".to_owned();
    out.append(mark);
    out.append(" ");
    out.append(name.as_str());
    out.append(" ");
    out.append(plural(row.claims, "claim", "claims").as_str());
    out.append(documents.as_str());
    out.append(deleted);
    out.append("\n");
    out
}

fn rows_text(rows: &Vec<BranchRow>, active: &Option<String>, width: usize) -> (r: String)
    ensures
        r@ == row_lines(row_views(rows@), text_of(*active), width as int),
{
    let ghost all = row_views(rows@);
    let mut out = String::new();
    let mut i: usize = 0;
    assert(out@ =~= row_lines(all.take(0), text_of(*active), width as int));
    while i < rows.len()
        invariant
            i <= rows@.len(),
            all == row_views(rows@),
            out@ == row_lines(all.take(i as int), text_of(*active), width as int),
        decreases rows@.len() - i,
    {
        proof {
            let next = all.take(i + 1);
            assert(next.drop_last() =~= all.take(i as int));
            assert(next.last() == rows@[i as int]@);
        }
        out.append(row_text(&rows[i], active, width).as_str());
        i += 1;
    }
    assert(all.take(all.len() as int) =~= all);
    out
}

fn sums(rows: &Vec<BranchRow>) -> (r: (u64, u64))
    requires
        claims_in(row_views(rows@)) + docs_in(row_views(rows@)) <= u64::MAX,
    ensures
        r.0 == claims_in(row_views(rows@)),
        r.1 == docs_in(row_views(rows@)),
{
    let ghost all = row_views(rows@);
    let mut claims: u64 = 0;
    let mut docs: u64 = 0;
    let mut i: usize = 0;
    while i < rows.len()
        invariant
            i <= rows@.len(),
            all == row_views(rows@),
            claims_in(all) + docs_in(all) <= u64::MAX,
            claims == claims_in(all.take(i as int)),
            docs == docs_in(all.take(i as int)),
        decreases rows@.len() - i,
    {
        proof {
            let next = all.take(i + 1);
            assert(next.drop_last() =~= all.take(i as int));
            assert(next.last() == rows@[i as int]@);
            lemma_totals_grow(all, i + 1);
        }
        claims = claims + rows[i].claims;
        docs = docs + rows[i].docs;
        i += 1;
    }
    assert(all.take(all.len() as int) =~= all);
    (claims, docs)
}

fn deletion_text(idea: &str, claims: u64, docs: u64) -> (r: String)
    requires
        claims + docs <= u64::MAX,
    ensures
        r@ == deletion_line(idea@, claims as int, docs as int),
{
    if claims + docs > 0 {
        let mut out = "    delete the whole idea:  ctx delete ".to_owned();
        out.append(idea);
        out.append(" --cloud   (");
        out.append(holdings_text(claims, docs).as_str());
        out.append(")\n");
        out
    } else {
        let mut out = "    empty:  ctx delete ".to_owned();
        out.append(idea);
        out.append(" --cloud\n");
        out
    }
}

fn idea_text(
    idea: &str,
    rows: &Vec<BranchRow>,
    active: &Option<String>,
    bound: &Option<String>,
    width: usize,
) -> (r: String)
    requires
        claims_in(row_views(rows@)) + docs_in(row_views(rows@)) <= u64::MAX,
    ensures
        r@ == idea_block(
            idea@,
            row_views(rows@),
            text_of(*active),
            text_of(*bound),
            width as int,
        ),
{
    let here = if is_text(bound, idea) {
        "  (this repo)"
    } else {
        ""
    };
    let (claims, docs) = sums(rows);
    let mut out = idea.to_owned();
    out.append(here);
    out.append("\n");
    out.append(rows_text(rows, active, width).as_str());
    out.append(deletion_text(idea, claims, docs).as_str());
    out.append("\n");
    out
}

fn gone_text(gone: &Vec<String>, all: bool) -> (r: String)
    ensures
        r@ == gone_note(texts(gone@), all),
{
    if gone.len() == 0 {
        return "".to_owned();
    }
    let count: u64 = gone.len() as u64;
    if all {
        let mut out = "\n".to_owned();
        out.append(plural(count, "deleted idea", "deleted ideas").as_str());
        out.append(": ");
        out.append(join(gone, ", ").as_str());
        out.append("\nStill in the log: `ctx log --all --branch <idea>/<lane>`.\n");
        out
    } else {
        let mut out = plural(count, "deleted idea", "deleted ideas");
        out.append(" hidden; `ctx list -a` names them.\n");
        out
    }
}

/// What `ctx list` prints.
pub fn list(
    rows: &Vec<BranchRow>,
    active: &Option<String>,
    bound: &Option<String>,
    all: bool,
    chats: &str,
) -> (r: String)
    requires
        claims_in(row_views(rows@)) + docs_in(row_views(rows@)) <= u64::MAX,
    ensures
        r@ == listing(row_views(rows@), text_of(*active), text_of(*bound), all, chats@),
{
    let ghost views = row_views(rows@);
    let ideas = sorted_names(&named_ideas(rows));
    let live = ideas_in_state(rows, &ideas, false);
    let gone = ideas_in_state(rows, &ideas, true);
    if live.len() == 0 && (gone.len() == 0 || !all) {
        return "no ideas yet. Start one with: ctx new \"<your idea>\"\n".to_owned();
    }
    let width = column_width(rows, &live);
    let ghost names = texts(live@);
    let mut out = String::new();
    let mut i: usize = 0;
    assert(out@ =~= idea_blocks(
        views,
        names.take(0),
        text_of(*active),
        text_of(*bound),
        width as int,
    ));
    while i < live.len()
        invariant
            i <= live@.len(),
            views == row_views(rows@),
            names == texts(live@),
            claims_in(views) + docs_in(views) <= u64::MAX,
            out@ == idea_blocks(
                views,
                names.take(i as int),
                text_of(*active),
                text_of(*bound),
                width as int,
            ),
        decreases live@.len() - i,
    {
        proof {
            let next = names.take(i + 1);
            assert(next.drop_last() =~= names.take(i as int));
            assert(next.last() == live@[i as int]@);
            lemma_rows_of_total(views, live@[i as int]@);
        }
        let mine = idea_rows(rows, live[i].as_str());
        out.append(idea_text(live[i].as_str(), &mine, active, bound, width).as_str());
        i += 1;
    }
    assert(names.take(names.len() as int) =~= names);
    let closing = if live.len() > 0 {
        let mut text = "Deleting hides it here, on GitHub, and in ".to_owned();
        text.append(chats);
        text.append(".\nNothing leaves the log: `ctx log --all` still shows it.\n");
        text
    } else {
        "".to_owned()
    };
    out.append(closing.as_str());
    out.append(gone_text(&gone, all).as_str());
    out
}

/// Every idea that a branch belongs to is either left or gone, and not both.
pub proof fn every_idea_is_left_or_gone(rows: Seq<RowView>, idea: Seq<char>)
    ensures
        ideas_named(rows).contains(idea) <==> live_ideas(rows).contains(idea) || gone_ideas(
            rows,
        ).contains(idea),
        !(live_ideas(rows).contains(idea) && gone_ideas(rows).contains(idea)),
{
    let ideas = sorted_set(ideas_named(rows));
    sorted_set_is_sorted(ideas_named(rows));
    assert(ideas.contains(idea) <==> ideas_named(rows).contains(idea));
    lemma_with_state(rows, ideas, false, idea);
    lemma_with_state(rows, ideas, true, idea);
}

proof fn lemma_with_state(rows: Seq<RowView>, ideas: Seq<Seq<char>>, gone: bool, idea: Seq<char>)
    ensures
        with_state(rows, ideas, gone).contains(idea) <==> ideas.contains(idea) && all_gone(
            rows_of(rows, idea),
        ) == gone,
    decreases ideas.len(),
{
    if ideas.len() > 0 {
        let front = ideas.drop_last();
        lemma_with_state(rows, front, gone, idea);
        let before = with_state(rows, front, gone);
        let after = with_state(rows, ideas, gone);
        if ideas.contains(idea) {
            let k = choose|k: int| 0 <= k < ideas.len() && ideas[k] == idea;
            if k < front.len() {
                assert(front[k] == idea);
            }
        }
        if front.contains(idea) {
            let k = choose|k: int| 0 <= k < front.len() && front[k] == idea;
            assert(ideas[k] == idea);
        }
        assert(ideas[ideas.len() - 1] == ideas.last());
        if before.contains(idea) {
            let k = choose|k: int| 0 <= k < before.len() && before[k] == idea;
            assert(after[k] == idea);
        }
        if after.contains(idea) {
            let k = choose|k: int| 0 <= k < after.len() && after[k] == idea;
            if k < before.len() {
                assert(before[k] == idea);
            }
        }
        if all_gone(rows_of(rows, ideas.last())) == gone {
            assert(after[after.len() - 1] == ideas.last());
        }
    }
}

/// An idea is what stands before the first slash of a branch's name; a name
/// without a slash belongs to none.
pub proof fn an_idea_stands_before_the_slash(idea: Seq<char>, lane: Seq<char>)
    requires
        !idea.contains('/'),
    ensures
        idea_of(idea.push('/') + lane) == Some(idea),
        idea_of(idea) is None,
{
    lemma_slash_at(idea, lane);
    assert((idea.push('/') + lane).take(idea.len() as int) =~= idea);
}

proof fn lemma_slash_at(a: Seq<char>, b: Seq<char>)
    requires
        !a.contains('/'),
    ensures
        slash_at(a) == a.len(),
        slash_at(a.push('/') + b) == a.len(),
    decreases a.len(),
{
    let all = a.push('/') + b;
    if a.len() == 0 {
        assert(all[0] == '/');
    } else {
        let rest = a.drop_first();
        assert forall|i: int| 0 <= i < rest.len() implies #[trigger] rest[i] != '/' by {
            assert(a[i + 1] == rest[i]);
        }
        assert(a[0] != '/');
        lemma_slash_at(rest, b);
        assert(all[0] == a[0]);
        assert(all.drop_first() =~= rest.push('/') + b);
    }
}

/// The branches of an idea are the rows whose names say so, all of them and in
/// their order.
pub proof fn an_idea_has_its_branches(a: Seq<RowView>, b: Seq<RowView>, idea: Seq<char>)
    ensures
        rows_of(a + b, idea) == rows_of(a, idea) + rows_of(b, idea),
        forall|row: RowView|
            #[trigger] rows_of(seq![row], idea) == if idea_of(row.name) == Some(idea) {
                seq![row]
            } else {
                seq![]
            },
    decreases b.len(),
{
    assert forall|row: RowView|
        #[trigger] rows_of(seq![row], idea) == if idea_of(row.name) == Some(idea) {
            seq![row]
        } else {
            seq![]
        } by {
        let one = seq![row];
        assert(one.drop_last() =~= seq![]);
        assert(rows_of(one.drop_last(), idea) =~= seq![]);
        assert(one.last() == row);
        assert(Seq::<RowView>::empty().push(row) =~= one);
    }
    if b.len() == 0 {
        assert(a + b =~= a);
        assert(rows_of(a, idea) + rows_of(b, idea) =~= rows_of(a, idea));
    } else {
        an_idea_has_its_branches(a, b.drop_last(), idea);
        assert((a + b).drop_last() =~= a + b.drop_last());
        assert((a + b).last() == b.last());
        assert(rows_of(a + b, idea) =~= rows_of(a, idea) + rows_of(b, idea));
    }
}

proof fn lemma_rows_of(rows: Seq<RowView>, idea: Seq<char>)
    ensures
        forall|row: RowView|
            #[trigger] rows_of(rows, idea).contains(row) <==> rows.contains(row) && idea_of(
                row.name,
            ) == Some(idea),
    decreases rows.len(),
{
    if rows.len() > 0 {
        let front = rows.drop_last();
        lemma_rows_of(front, idea);
        assert forall|row: RowView|
            #[trigger] rows_of(rows, idea).contains(row) <==> rows.contains(row) && idea_of(
                row.name,
            ) == Some(idea) by {
            let before = rows_of(front, idea);
            let after = rows_of(rows, idea);
            if rows.contains(row) {
                let k = choose|k: int| 0 <= k < rows.len() && rows[k] == row;
                if k < front.len() {
                    assert(front[k] == row);
                    if idea_of(row.name) == Some(idea) {
                        assert(before.contains(row));
                        let j = choose|j: int| 0 <= j < before.len() && before[j] == row;
                        assert(after[j] == row);
                    }
                } else if idea_of(row.name) == Some(idea) {
                    assert(after[after.len() - 1] == row);
                }
            }
            if after.contains(row) {
                let j = choose|j: int| 0 <= j < after.len() && after[j] == row;
                if j < before.len() {
                    assert(before[j] == row);
                    assert(before.contains(row));
                    let k = choose|k: int| 0 <= k < front.len() && front[k] == row;
                    assert(rows[k] == row);
                } else {
                    assert(rows[rows.len() - 1] == row);
                }
            }
        }
    }
}

proof fn lemma_ideas_named(rows: Seq<RowView>, idea: Seq<char>)
    ensures
        ideas_named(rows).contains(idea) <==> exists|i: int|
            0 <= i < rows.len() && idea_of((#[trigger] rows[i]).name) == Some(idea),
    decreases rows.len(),
{
    if rows.len() > 0 {
        let front = rows.drop_last();
        lemma_ideas_named(front, idea);
        let before = ideas_named(front);
        let after = ideas_named(rows);
        if after.contains(idea) {
            let k = choose|k: int| 0 <= k < after.len() && after[k] == idea;
            if k < before.len() {
                assert(before[k] == idea);
                let i = choose|i: int|
                    0 <= i < front.len() && idea_of((#[trigger] front[i]).name) == Some(idea);
                assert(rows[i] == front[i]);
            } else {
                assert(idea_of(rows[rows.len() - 1].name) == Some(idea));
            }
        }
        if exists|i: int| 0 <= i < rows.len() && idea_of((#[trigger] rows[i]).name) == Some(idea) {
            let i = choose|i: int|
                0 <= i < rows.len() && idea_of((#[trigger] rows[i]).name) == Some(idea);
            if i < front.len() {
                assert(front[i] == rows[i]);
                let k = choose|k: int| 0 <= k < before.len() && before[k] == idea;
                assert(after[k] == idea);
            } else {
                assert(after[after.len() - 1] == idea);
            }
        }
    }
}

/// An idea is left where one of its branches is not archived, or still holds a
/// claim or a document. It is gone only where it has branches and every one of
/// them is archived and empty.
pub proof fn an_idea_is_gone_with_all_its_branches(rows: Seq<RowView>, idea: Seq<char>)
    ensures
        live_ideas(rows).contains(idea) <==> exists|i: int|
            {
                &&& 0 <= i < rows.len()
                &&& idea_of((#[trigger] rows[i]).name) == Some(idea)
                &&& !rows[i].archived || rows[i].claims > 0 || rows[i].docs > 0
            },
        gone_ideas(rows).contains(idea) <==> (exists|i: int|
            0 <= i < rows.len() && idea_of((#[trigger] rows[i]).name) == Some(idea)) && (forall|
            i: int,
        |
            0 <= i < rows.len() && idea_of((#[trigger] rows[i]).name) == Some(idea)
                ==> rows[i].archived && rows[i].claims == 0 && rows[i].docs == 0),
{
    let named = sorted_set(ideas_named(rows));
    sorted_set_is_sorted(ideas_named(rows));
    assert(named.contains(idea) <==> ideas_named(rows).contains(idea));
    lemma_ideas_named(rows, idea);
    lemma_with_state(rows, named, false, idea);
    lemma_with_state(rows, named, true, idea);
    lemma_rows_of(rows, idea);
    let own = rows_of(rows, idea);
    if !all_gone(own) {
        let k = choose|k: int|
            0 <= k < own.len() && !((#[trigger] own[k]).archived && own[k].claims + own[k].docs
                == 0);
        assert(own.contains(own[k]));
        let i = choose|i: int| 0 <= i < rows.len() && rows[i] == own[k];
        assert(idea_of(rows[i].name) == Some(idea));
    }
    assert forall|i: int|
        0 <= i < rows.len() && idea_of((#[trigger] rows[i]).name) == Some(idea) && all_gone(
            own,
        ) implies rows[i].archived && rows[i].claims == 0 && rows[i].docs == 0 by {
        assert(rows.contains(rows[i]));
        assert(own.contains(rows[i]));
        let k = choose|k: int| 0 <= k < own.len() && own[k] == rows[i];
        assert(own[k].archived);
    }
}

proof fn lemma_with_state_sorted(rows: Seq<RowView>, ideas: Seq<Seq<char>>, gone: bool)
    requires
        is_sorted_set(ideas),
    ensures
        is_sorted_set(with_state(rows, ideas, gone)),
    decreases ideas.len(),
{
    if ideas.len() > 0 {
        let front = ideas.drop_last();
        assert forall|i: int, j: int| 0 <= i < j < front.len() implies text_lt(
            #[trigger] front[i],
            #[trigger] front[j],
        ) by {
            assert(front[i] == ideas[i] && front[j] == ideas[j]);
        }
        lemma_with_state_sorted(rows, front, gone);
        let before = with_state(rows, front, gone);
        let after = with_state(rows, ideas, gone);
        assert forall|i: int, j: int| 0 <= i < j < after.len() implies text_lt(
            #[trigger] after[i],
            #[trigger] after[j],
        ) by {
            assert(after[i] == before[i]);
            if j < before.len() {
                assert(after[j] == before[j]);
            } else {
                lemma_with_state(rows, front, gone, before[i]);
                assert(before.contains(before[i]));
                let k = choose|k: int| 0 <= k < front.len() && front[k] == before[i];
                assert(text_lt(ideas[k], ideas[ideas.len() - 1]));
            }
        }
    }
}

/// Ideas are named once each, in the order of their names.
pub proof fn ideas_are_named_in_order(rows: Seq<RowView>)
    ensures
        forall|i: int, j: int|
            0 <= i < j < live_ideas(rows).len() ==> text_lt(
                #[trigger] live_ideas(rows)[i],
                #[trigger] live_ideas(rows)[j],
            ),
        forall|i: int, j: int|
            0 <= i < j < gone_ideas(rows).len() ==> text_lt(
                #[trigger] gone_ideas(rows)[i],
                #[trigger] gone_ideas(rows)[j],
            ),
{
    sorted_set_is_sorted(ideas_named(rows));
    lemma_with_state_sorted(rows, sorted_set(ideas_named(rows)), false);
    lemma_with_state_sorted(rows, sorted_set(ideas_named(rows)), true);
}

/// What several branches hold together is the sum of what each holds.
pub proof fn holdings_add_up(a: Seq<RowView>, b: Seq<RowView>, row: RowView)
    ensures
        claims_in(a + b) == claims_in(a) + claims_in(b),
        docs_in(a + b) == docs_in(a) + docs_in(b),
        claims_in(seq![row]) == row.claims,
        docs_in(seq![row]) == row.docs,
    decreases b.len(),
{
    let one = seq![row];
    assert(one.drop_last() =~= seq![]);
    assert(claims_in(one.drop_last()) == 0 && docs_in(one.drop_last()) == 0);
    if b.len() == 0 {
        assert(a + b =~= a);
    } else {
        holdings_add_up(a, b.drop_last(), row);
        assert((a + b).drop_last() =~= a + b.drop_last());
    }
}

/// Rows are read as they stand, each in its place.
pub proof fn rows_are_read_in_place(rows: Seq<BranchRow>)
    ensures
        row_views(rows).len() == rows.len(),
        forall|i: int|
            0 <= i < rows.len() ==> (#[trigger] row_views(rows)[i]).name == rows[i].name@
                && row_views(rows)[i].claims == rows[i].claims && row_views(rows)[i].docs
                == rows[i].docs && row_views(rows)[i].archived == rows[i].archived,
{
}

proof fn lemma_longest(rows: Seq<RowView>)
    ensures
        forall|i: int|
            0 <= i < rows.len() ==> encode_utf8((#[trigger] rows[i]).name).len() <= longest(rows),
        longest(rows) > 0 ==> exists|i: int|
            0 <= i < rows.len() && encode_utf8((#[trigger] rows[i]).name).len() == longest(rows),
    decreases rows.len(),
{
    if rows.len() > 0 {
        let front = rows.drop_last();
        lemma_longest(front);
        assert forall|i: int| 0 <= i < rows.len() implies encode_utf8((#[trigger] rows[i]).name).len()
            <= longest(rows) by {
            if i < front.len() {
                assert(front[i] == rows[i]);
            }
        }
        if longest(rows) > 0 {
            if encode_utf8(rows.last().name).len() > longest(front) {
                assert(rows[rows.len() - 1] == rows.last());
            } else {
                let i = choose|i: int|
                    0 <= i < front.len() && encode_utf8((#[trigger] front[i]).name).len()
                        == longest(front);
                assert(rows[i] == front[i]);
            }
        }
    }
}

proof fn lemma_longest_of(rows: Seq<RowView>, ideas: Seq<Seq<char>>)
    ensures
        forall|i: int|
            0 <= i < ideas.len() ==> longest(rows_of(rows, #[trigger] ideas[i])) <= longest_of(
                rows,
                ideas,
            ),
        longest_of(rows, ideas) > 0 ==> exists|i: int|
            0 <= i < ideas.len() && longest(rows_of(rows, #[trigger] ideas[i])) == longest_of(
                rows,
                ideas,
            ),
    decreases ideas.len(),
{
    if ideas.len() > 0 {
        let front = ideas.drop_last();
        lemma_longest_of(rows, front);
        assert forall|i: int| 0 <= i < ideas.len() implies longest(
            rows_of(rows, #[trigger] ideas[i]),
        ) <= longest_of(rows, ideas) by {
            if i < front.len() {
                assert(front[i] == ideas[i]);
            }
        }
        if longest_of(rows, ideas) > 0 {
            if longest(rows_of(rows, ideas.last())) > longest_of(rows, front) {
                assert(ideas[ideas.len() - 1] == ideas.last());
            } else {
                let i = choose|i: int|
                    0 <= i < front.len() && longest(rows_of(rows, #[trigger] front[i]))
                        == longest_of(rows, front);
                assert(ideas[i] == front[i]);
            }
        }
    }
}

/// The column of names is as wide as the longest name of an idea that is left,
/// within its bounds.
pub proof fn the_column_fits_the_names(rows: Seq<RowView>, row: RowView)
    ensures
        24 <= column(rows) <= 44,
        rows.contains(row) && (idea_of(row.name) matches Some(idea) && live_ideas(rows).contains(
            idea,
        )) ==> encode_utf8(row.name).len() <= column(rows) || column(rows) == 44,
        column(rows) > 24 ==> exists|i: int|
            {
                &&& 0 <= i < rows.len()
                &&& idea_of((#[trigger] rows[i]).name) is Some
                &&& encode_utf8(rows[i].name).len() >= column(rows)
            },
{
    let live = live_ideas(rows);
    lemma_longest_of(rows, live);
    if rows.contains(row) {
        if let Some(idea) = idea_of(row.name) {
            if live.contains(idea) {
                let k = choose|k: int| 0 <= k < live.len() && live[k] == idea;
                lemma_rows_of(rows, idea);
                let own = rows_of(rows, idea);
                assert(own.contains(row));
                let j = choose|j: int| 0 <= j < own.len() && own[j] == row;
                lemma_longest(own);
                assert(encode_utf8(own[j].name).len() <= longest(own));
                assert(longest(rows_of(rows, live[k])) <= longest_of(rows, live));
            }
        }
    }
    if column(rows) > 24 {
        let k = choose|k: int|
            0 <= k < live.len() && longest(rows_of(rows, #[trigger] live[k])) == longest_of(
                rows,
                live,
            );
        let own = rows_of(rows, live[k]);
        lemma_longest(own);
        let j = choose|j: int|
            0 <= j < own.len() && encode_utf8((#[trigger] own[j]).name).len() == longest(own);
        lemma_rows_of(rows, live[k]);
        assert(own.contains(own[j]));
        let i = choose|i: int| 0 <= i < rows.len() && rows[i] == own[j];
        assert(idea_of(rows[i].name) is Some);
    }
}

/// A branch's line holds its name and its counts; documents are counted where
/// there are any.
pub proof fn a_line_tells_of_its_branch(row: RowView, active: Option<Seq<char>>, width: int)
    ensures
        mentions(row_line(row, active, width), row.name),
        mentions(row_line(row, active, width), claims_counted(row.claims as int)),
        row.docs > 0 ==> mentions(
            row_line(row, active, width),
            ", "@ + counted(row.docs as int, "document"@, "documents"@),
        ),
        row.docs == 0 && !row.archived ==> (claims_counted(row.claims as int) + "\n"@).is_suffix_of(
            row_line(row, active, width),
        ),
{
    reveal_strlit("");
    let mark = if active == Some(row.name) {
        "*"@
    } else {
        " "@
    };
    let docs = if row.docs > 0 {
        ", "@ + counted(row.docs as int, "document"@, "documents"@)
    } else {
        ""@
    };
    let gone = if row.archived {
        "  [deleted]"@
    } else {
        ""@
    };
    let head = "  "@ + mark + " "@;
    let name = padded(row.name, width);
    let claims = claims_counted(row.claims as int);
    let s1 = head + name;
    let s2 = s1 + " "@;
    let s3 = s2 + claims;
    let s4 = s3 + docs;
    let s5 = s4 + gone;
    let line = s5 + "\n"@;
    assert(row_line(row, active, width) == line);
    lemma_mentions(seq![], row.name, spaces(width - row.name.len()));
    lemma_mentions_within(head, name, seq![], row.name);
    lemma_mentions_within(seq![], s1, " "@, row.name);
    lemma_mentions_within(seq![], s2, claims, row.name);
    lemma_mentions_within(seq![], s3, docs, row.name);
    lemma_mentions_within(seq![], s4, gone, row.name);
    lemma_mentions_within(seq![], s5, "\n"@, row.name);
    lemma_mentions(s2, claims, seq![]);
    lemma_mentions_within(seq![], s3, docs, claims);
    lemma_mentions_within(seq![], s4, gone, claims);
    lemma_mentions_within(seq![], s5, "\n"@, claims);
    lemma_mentions(s3, docs, seq![]);
    lemma_mentions_within(seq![], s4, gone, docs);
    lemma_mentions_within(seq![], s5, "\n"@, docs);
    if row.docs == 0 && !row.archived {
        assert(s3 + docs =~= s3);
        assert(s4 + gone =~= s3);
        assert(line =~= s2 + (claims + "\n"@));
        assert(line.skip(s2.len() as int) =~= claims + "\n"@);
    }
}

/// A deleted branch is marked so at the end of its line, and only there.
pub proof fn a_deleted_branch_is_marked(row: RowView, active: Option<Seq<char>>, width: int)
    ensures
        row_line(RowView { archived: true, ..row }, active, width) == row_line(
            RowView { archived: false, ..row },
            active,
            width,
        ).drop_last() + "  [deleted]\n"@,
{
    reveal_strlit("\n");
    reveal_strlit("");
    reveal_strlit("  [deleted]");
    reveal_strlit("  [deleted]\n");
    let deleted = row_line(RowView { archived: true, ..row }, active, width);
    let kept = row_line(RowView { archived: false, ..row }, active, width);
    let body = deleted.take(deleted.len() - "  [deleted]\n"@.len());
    assert("  [deleted]"@ + "\n"@ =~= "  [deleted]\n"@);
    assert(kept.drop_last() =~= body);
    assert(deleted =~= body + "  [deleted]\n"@);
}

/// The branch that chats write to, and no other, is marked with a star; nothing
/// else of a line depends on it.
pub proof fn the_active_branch_is_marked(row: RowView, active: Option<Seq<char>>, width: int)
    ensures
        row_line(row, active, width).take(4) == if active == Some(row.name) {
            "  * "@
        } else {
            "    "@
        },
        row_line(row, active, width).skip(3) == row_line(row, None, width).skip(3),
{
    reveal_strlit("  ");
    reveal_strlit("*");
    reveal_strlit(" ");
    reveal_strlit("  * ");
    reveal_strlit("    ");
    let mark = if active == Some(row.name) {
        "*"@
    } else {
        " "@
    };
    let line = row_line(row, active, width);
    let plain = row_line(row, None, width);
    assert(line.take(4) =~= "  "@ + mark + " "@);
    assert("  "@ + mark + " "@ =~= if active == Some(row.name) {
        "  * "@
    } else {
        "    "@
    });
    assert(line.skip(3) =~= plain.skip(3));
}

/// The lines of branches stand one below the other, each once and in order.
pub proof fn branch_lines_stand_in_order(
    a: Seq<RowView>,
    b: Seq<RowView>,
    row: RowView,
    active: Option<Seq<char>>,
    width: int,
)
    ensures
        row_lines(a + b, active, width) == row_lines(a, active, width) + row_lines(
            b,
            active,
            width,
        ),
        row_lines(seq![row], active, width) == row_line(row, active, width),
    decreases b.len(),
{
    let one = seq![row];
    assert(one.drop_last() =~= seq![]);
    assert(row_lines(one.drop_last(), active, width) =~= seq![]);
    assert(row_lines(one, active, width) =~= row_line(row, active, width));
    if b.len() == 0 {
        assert(a + b =~= a);
        assert(row_lines(a, active, width) + row_lines(b, active, width) =~= row_lines(
            a,
            active,
            width,
        ));
    } else {
        branch_lines_stand_in_order(a, b.drop_last(), row, active, width);
        assert((a + b).drop_last() =~= a + b.drop_last());
        assert((a + b).last() == b.last());
        assert(row_lines(a + b, active, width) =~= row_lines(a, active, width) + row_lines(
            b,
            active,
            width,
        ));
    }
}

/// The line on deleting an idea names it, and says what it holds, or that it
/// holds nothing.
pub proof fn the_deletion_line_tells_what_goes(idea: Seq<char>, claims: nat, docs: nat)
    ensures
        mentions(deletion_line(idea, claims as int, docs as int), "ctx delete "@ + idea + " --cloud"@),
        claims > 0 || docs > 0 ==> mentions(
            deletion_line(idea, claims as int, docs as int),
            "("@ + holdings(claims as int, docs as int) + ")"@,
        ),
        claims == 0 && docs == 0 ==> "    empty:"@.is_prefix_of(
            deletion_line(idea, claims as int, docs as int),
        ),
{
    reveal_strlit("    empty:");
    reveal_strlit("    empty:  ");
    reveal_strlit("    empty:  ctx delete ");
    reveal_strlit("    delete the whole idea:  ");
    reveal_strlit("    delete the whole idea:  ctx delete ");
    reveal_strlit("ctx delete ");
    reveal_strlit(" --cloud");
    reveal_strlit(" --cloud   (");
    reveal_strlit(" --cloud\n");
    reveal_strlit("   ");
    reveal_strlit("(");
    reveal_strlit(")");
    reveal_strlit(")\n");
    reveal_strlit("\n");
    let line = deletion_line(idea, claims as int, docs as int);
    let command = "ctx delete "@ + idea + " --cloud"@;
    if claims + docs > 0 {
        let held = "("@ + holdings(claims as int, docs as int) + ")"@;
        assert(line =~= "    delete the whole idea:  "@ + command + ("   "@ + held + "\n"@));
        lemma_mentions("    delete the whole idea:  "@, command, "   "@ + held + "\n"@);
        assert(line =~= "    delete the whole idea:  "@ + command + "   "@ + held + "\n"@);
        lemma_mentions("    delete the whole idea:  "@ + command + "   "@, held, "\n"@);
    } else {
        assert(line =~= "    empty:  "@ + command + "\n"@);
        lemma_mentions("    empty:  "@, command, "\n"@);
        assert(line.take("    empty:"@.len() as int) =~= "    empty:"@);
    }
}

/// The block of an idea starts with its name, marked where this repository
/// belongs to it, and holds the lines of all its branches and the line on
/// deleting it with what they hold together.
pub proof fn a_block_tells_of_its_idea(
    idea: Seq<char>,
    rows: Seq<RowView>,
    active: Option<Seq<char>>,
    bound: Option<Seq<char>>,
    width: int,
)
    ensures
        (idea + if bound == Some(idea) {
            "  (this repo)\n"@
        } else {
            "\n"@
        }).is_prefix_of(idea_block(idea, rows, active, bound, width)),
        mentions(
            idea_block(idea, rows, active, bound, width),
            row_lines(rows, active, width) + deletion_line(
                idea,
                claims_in(rows) as int,
                docs_in(rows) as int,
            ),
        ),
{
    reveal_strlit("  (this repo)");
    reveal_strlit("  (this repo)\n");
    reveal_strlit("");
    reveal_strlit("\n");
    let block = idea_block(idea, rows, active, bound, width);
    let head = idea + if bound == Some(idea) {
        "  (this repo)\n"@
    } else {
        "\n"@
    };
    let body = row_lines(rows, active, width) + deletion_line(
        idea,
        claims_in(rows) as int,
        docs_in(rows) as int,
    );
    assert(block =~= head + body + "\n"@);
    lemma_mentions(head, body, "\n"@);
    assert(block.take(head.len() as int) =~= head);
}

/// The blocks of ideas stand one below the other, each once and in order.
pub proof fn blocks_stand_in_order(
    rows: Seq<RowView>,
    a: Seq<Seq<char>>,
    b: Seq<Seq<char>>,
    idea: Seq<char>,
    active: Option<Seq<char>>,
    bound: Option<Seq<char>>,
    width: int,
)
    ensures
        idea_blocks(rows, a + b, active, bound, width) == idea_blocks(rows, a, active, bound, width)
            + idea_blocks(rows, b, active, bound, width),
        idea_blocks(rows, seq![idea], active, bound, width) == idea_block(
            idea,
            rows_of(rows, idea),
            active,
            bound,
            width,
        ),
    decreases b.len(),
{
    let one = seq![idea];
    assert(one.drop_last() =~= seq![]);
    assert(idea_blocks(rows, one.drop_last(), active, bound, width) =~= seq![]);
    assert(idea_blocks(rows, one, active, bound, width) =~= idea_block(
        idea,
        rows_of(rows, idea),
        active,
        bound,
        width,
    ));
    if b.len() == 0 {
        assert(a + b =~= a);
        assert(idea_blocks(rows, a, active, bound, width) + idea_blocks(
            rows,
            b,
            active,
            bound,
            width,
        ) =~= idea_blocks(rows, a, active, bound, width));
    } else {
        blocks_stand_in_order(rows, a, b.drop_last(), idea, active, bound, width);
        assert((a + b).drop_last() =~= a + b.drop_last());
        assert((a + b).last() == b.last());
        assert(idea_blocks(rows, a + b, active, bound, width) =~= idea_blocks(
            rows,
            a,
            active,
            bound,
            width,
        ) + idea_blocks(rows, b, active, bound, width));
    }
}

proof fn lemma_block_among_blocks(
    rows: Seq<RowView>,
    ideas: Seq<Seq<char>>,
    k: int,
    active: Option<Seq<char>>,
    bound: Option<Seq<char>>,
    width: int,
)
    requires
        0 <= k < ideas.len(),
    ensures
        mentions(
            idea_blocks(rows, ideas, active, bound, width),
            idea_block(ideas[k], rows_of(rows, ideas[k]), active, bound, width),
        ),
{
    let idea = ideas[k];
    let before = ideas.take(k);
    let after = ideas.skip(k + 1);
    blocks_stand_in_order(rows, before + seq![idea], after, idea, active, bound, width);
    blocks_stand_in_order(rows, before, seq![idea], idea, active, bound, width);
    assert(before + seq![idea] + after =~= ideas);
    lemma_mentions(
        idea_blocks(rows, before, active, bound, width),
        idea_block(idea, rows_of(rows, idea), active, bound, width),
        idea_blocks(rows, after, active, bound, width),
    );
}

/// What is said of the ideas that are gone counts them, and where all are asked
/// for names every one; of none nothing is said.
pub proof fn the_gone_are_counted_and_named(gone: Seq<Seq<char>>, all: bool)
    ensures
        gone.len() == 0 ==> gone_note(gone, all) == Seq::<char>::empty(),
        gone.len() > 0 ==> mentions(
            gone_note(gone, all),
            counted(gone.len() as int, "deleted idea"@, "deleted ideas"@),
        ),
        all ==> forall|i: int|
            0 <= i < gone.len() ==> mentions(gone_note(gone, all), #[trigger] gone[i]),
{
    reveal_strlit("");
    assert(""@ =~= Seq::<char>::empty());
    let number = counted(gone.len() as int, "deleted idea"@, "deleted ideas"@);
    if gone.len() > 0 && all {
        let names = joined(gone, ", "@);
        let end = "\nStill in the log: `ctx log --all --branch <idea>/<lane>`.\n"@;
        let s1 = "\n"@ + number;
        let s2 = s1 + ": "@;
        let s3 = s2 + names;
        lemma_mentions("\n"@, number, seq![]);
        lemma_mentions_within(seq![], s1, ": "@, number);
        lemma_mentions_within(seq![], s2, names, number);
        lemma_mentions_within(seq![], s3, end, number);
        assert forall|i: int| 0 <= i < gone.len() implies mentions(
            gone_note(gone, all),
            #[trigger] gone[i],
        ) by {
            joining_keeps_every_part(gone, ", "@, seq![]);
            lemma_mentions_within(s2, names, end, gone[i]);
        }
    } else if gone.len() > 0 {
        lemma_mentions(seq![], number, " hidden; `ctx list -a` names them.\n"@);
    }
}

/// Where there is an idea to show, the listing starts with the blocks of all
/// that are left, each idea's among them, and ends with what is said of those
/// that are gone; otherwise it says that there are none.
pub proof fn the_listing_shows_every_idea(
    rows: Seq<RowView>,
    active: Option<Seq<char>>,
    bound: Option<Seq<char>>,
    all: bool,
    chats: Seq<char>,
    idea: Seq<char>,
)
    ensures
        live_ideas(rows).contains(idea) ==> mentions(
            listing(rows, active, bound, all, chats),
            idea_block(idea, rows_of(rows, idea), active, bound, column(rows)),
        ),
        live_ideas(rows).len() > 0 || (all && gone_ideas(rows).len() > 0) ==> {
            &&& idea_blocks(rows, live_ideas(rows), active, bound, column(rows)).is_prefix_of(
                listing(rows, active, bound, all, chats),
            )
            &&& gone_note(gone_ideas(rows), all).is_suffix_of(
                listing(rows, active, bound, all, chats),
            )
        },
        live_ideas(rows).len() == 0 && (!all || gone_ideas(rows).len() == 0) ==> listing(
            rows,
            active,
            bound,
            all,
            chats,
        ) == "no ideas yet. Start one with: ctx new \"<your idea>\"\n"@,
{
    let live = live_ideas(rows);
    let gone = gone_ideas(rows);
    let width = column(rows);
    let blocks = idea_blocks(rows, live, active, bound, width);
    let told = if live.len() > 0 {
        "Deleting hides it here, on GitHub, and in "@ + chats
            + ".\nNothing leaves the log: `ctx log --all` still shows it.\n"@
    } else {
        ""@
    };
    let note = gone_note(gone, all);
    let text = listing(rows, active, bound, all, chats);
    if live.len() > 0 || (all && gone.len() > 0) {
        assert(text == blocks + told + note);
        lemma_parts_of(blocks, told, note);
    }
    if live.contains(idea) {
        let k = choose|k: int| 0 <= k < live.len() && live[k] == idea;
        let block = idea_block(idea, rows_of(rows, idea), active, bound, width);
        lemma_block_among_blocks(rows, live, k, active, bound, width);
        lemma_mentions_within(seq![], blocks, told, block);
        lemma_mentions_within(seq![], blocks + told, note, block);
    }
}

proof fn lemma_parts_of(a: Seq<char>, b: Seq<char>, c: Seq<char>)
    ensures
        a.is_prefix_of(a + b + c),
        c.is_suffix_of(a + b + c),
{
    assert((a + b + c).take(a.len() as int) =~= a);
    assert((a + b + c).skip((a + b).len() as int) =~= c);
}

} // verus!

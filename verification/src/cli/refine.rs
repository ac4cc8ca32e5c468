//! `ctx refine`: which near-duplicates are shown, and in what words.

use vstd::prelude::*;
use vstd::string::StringExecFns;

use crate::cli::claims::Claim;
use crate::cli::output::tag;
#[allow(unused_imports)]
use crate::cli::output::{tag_text, taggable};

verus! {

/// `v` with `x` behind all that rank no lower.
pub open spec fn put_by_rank(v: Seq<int>, ranks: Seq<u64>, x: int) -> Seq<int>
    decreases v.len(),
{
    if v.len() == 0 {
        seq![x]
    } else if ranks[v[0]] >= ranks[x] {
        seq![v[0]] + put_by_rank(v.drop_first(), ranks, x)
    } else {
        seq![x] + v
    }
}

/// The first `n` places by their ranks, the highest first; of two with the
/// same rank, the earlier place.
pub open spec fn by_rank(ranks: Seq<u64>, n: nat) -> Seq<int>
    decreases n,
{
    if n == 0 {
        seq![]
    } else {
        put_by_rank(by_rank(ranks, (n - 1) as nat), ranks, n - 1)
    }
}

/// Whether place `a` is shown before place `b`.
pub open spec fn ranks_before(ranks: Seq<u64>, a: int, b: int) -> bool {
    ranks[a] > ranks[b] || (ranks[a] == ranks[b] && a < b)
}

/// The places of `v` as whole numbers.
pub open spec fn places(v: Seq<usize>) -> Seq<int> {
    Seq::new(v.len(), |i: int| v[i] as int)
}

/// The places of the pairs that are shown: the thirty that rank highest.
pub open spec fn shown_pairs(ranks: Seq<u64>) -> Seq<int> {
    let all = by_rank(ranks, ranks.len());
    all.take(if all.len() < 30 { all.len() as int } else { 30 })
}

fn insert_by_rank(v: &mut Vec<usize>, ranks: &Vec<u64>, x: usize)
    requires
        x < ranks@.len(),
        forall|i: int| 0 <= i < old(v)@.len() ==> (#[trigger] old(v)@[i]) < ranks@.len(),
    ensures
        places(final(v)@) == put_by_rank(places(old(v)@), ranks@, x as int),
        forall|i: int| 0 <= i < final(v)@.len() ==> (#[trigger] final(v)@[i]) < ranks@.len(),
{
    let ghost all = places(v@);
    let mut i: usize = 0;
    assert(all.skip(0) =~= all);
    assert(all.take(0) + put_by_rank(all, ranks@, x as int) =~= put_by_rank(
        all,
        ranks@,
        x as int,
    ));
    while i < v.len() && ranks[v[i]] >= ranks[x]
        invariant
            i <= v@.len(),
            x < ranks@.len(),
            all == places(v@),
            forall|i: int| 0 <= i < v@.len() ==> (#[trigger] v@[i]) < ranks@.len(),
            put_by_rank(all, ranks@, x as int) == all.take(i as int) + put_by_rank(
                all.skip(i as int),
                ranks@,
                x as int,
            ),
        decreases v@.len() - i,
    {
        proof {
            let rest = all.skip(i as int);
            assert(rest[0] == v@[i as int]);
            assert(rest.drop_first() =~= all.skip(i + 1));
            let tail = put_by_rank(all.skip(i + 1), ranks@, x as int);
            assert(all.take(i as int) + (seq![rest[0]] + tail) =~= all.take(i + 1) + tail);
        }
        i += 1;
    }
    proof {
        let rest = all.skip(i as int);
        if i < v@.len() {
            assert(rest[0] == v@[i as int]);
            assert(all.take(i as int) + (seq![x as int] + rest) =~= all.insert(i as int, x as int));
        } else {
            assert(all.take(i as int) + seq![x as int] =~= all.insert(i as int, x as int));
        }
    }
    v.insert(i, x);
    assert(places(v@) =~= all.insert(i as int, x as int));
}

/// The places of the pairs that are shown, by the pairs' ranks.
pub fn most_similar(ranks: &Vec<u64>) -> (r: Vec<usize>)
    ensures
        places(r@) == shown_pairs(ranks@),
{
    let mut order: Vec<usize> = Vec::new();
    let mut i: usize = 0;
    assert(places(order@) =~= by_rank(ranks@, 0));
    while i < ranks.len()
        invariant
            i <= ranks@.len(),
            places(order@) == by_rank(ranks@, i as nat),
            forall|j: int| 0 <= j < order@.len() ==> (#[trigger] order@[j]) < ranks@.len(),
        decreases ranks@.len() - i,
    {
        insert_by_rank(&mut order, ranks, i);
        i += 1;
    }
    let count: usize = if order.len() < 30 {
        order.len()
    } else {
        30
    };
    let ghost all = places(order@);
    let mut out: Vec<usize> = Vec::new();
    let mut j: usize = 0;
    assert(places(out@) =~= all.take(0));
    while j < count
        invariant
            j <= count <= order@.len(),
            all == places(order@),
            places(out@) == all.take(j as int),
        decreases count - j,
    {
        let ghost before = places(out@);
        out.push(order[j]);
        assert(places(out@) =~= before.push(all[j as int]));
        assert(all.take(j + 1) =~= all.take(j as int).push(all[j as int]));
        j += 1;
    }
    out
}

proof fn lemma_put_by_rank(v: Seq<int>, ranks: Seq<u64>, x: int)
    requires
        forall|i: int| 0 <= i < v.len() ==> #[trigger] v[i] < x,
        forall|i: int, j: int|
            0 <= i < j < v.len() ==> ranks_before(ranks, #[trigger] v[i], #[trigger] v[j]),
    ensures
        forall|i: int, j: int|
            0 <= i < j < put_by_rank(v, ranks, x).len() ==> ranks_before(
                ranks,
                #[trigger] put_by_rank(v, ranks, x)[i],
                #[trigger] put_by_rank(v, ranks, x)[j],
            ),
        put_by_rank(v, ranks, x).len() == v.len() + 1,
        forall|y: int| #[trigger] put_by_rank(v, ranks, x).contains(y) <==> y == x || v.contains(y),
    decreases v.len(),
{
    let r = put_by_rank(v, ranks, x);
    if v.len() == 0 {
        assert(r[0] == x);
    } else if ranks[v[0]] >= ranks[x] {
        let rest = v.drop_first();
        assert forall|i: int| 0 <= i < rest.len() implies #[trigger] rest[i] < x by {
            assert(rest[i] == v[i + 1]);
        }
        assert forall|i: int, j: int| 0 <= i < j < rest.len() implies ranks_before(
            ranks,
            #[trigger] rest[i],
            #[trigger] rest[j],
        ) by {
            assert(rest[i] == v[i + 1] && rest[j] == v[j + 1]);
        }
        lemma_put_by_rank(rest, ranks, x);
        let tail = put_by_rank(rest, ranks, x);
        assert forall|y: int| #[trigger] r.contains(y) <==> y == x || v.contains(y) by {
            if v.contains(y) {
                let k = choose|k: int| 0 <= k < v.len() && v[k] == y;
                if k == 0 {
                    assert(r[0] == y);
                } else {
                    assert(rest[k - 1] == y);
                    assert(tail.contains(y));
                }
            }
            if tail.contains(y) {
                let m = choose|m: int| 0 <= m < tail.len() && tail[m] == y;
                assert(r[m + 1] == y);
            }
            assert(tail.contains(x));
            if r.contains(y) {
                let k = choose|k: int| 0 <= k < r.len() && r[k] == y;
                if k == 0 {
                    assert(v[0] == y);
                } else {
                    assert(tail[k - 1] == y);
                    assert(tail.contains(y));
                    if y != x {
                        let m = choose|m: int| 0 <= m < rest.len() && rest[m] == y;
                        assert(v[m + 1] == y);
                    }
                }
            }
        }
        assert forall|i: int, j: int| 0 <= i < j < r.len() implies ranks_before(
            ranks,
            #[trigger] r[i],
            #[trigger] r[j],
        ) by {
            assert(r[j] == tail[j - 1]);
            if i == 0 {
                assert(tail.contains(tail[j - 1]));
                if r[j] != x {
                    let k = choose|k: int| 0 <= k < rest.len() && rest[k] == r[j];
                    assert(v[k + 1] == r[j]);
                }
            } else {
                assert(r[i] == tail[i - 1]);
            }
        }
    } else {
        assert forall|i: int, j: int| 0 <= i < j < r.len() implies ranks_before(
            ranks,
            #[trigger] r[i],
            #[trigger] r[j],
        ) by {
            assert(r[j] == v[j - 1]);
            if i == 0 {
                if j > 1 {
                    assert(ranks_before(ranks, v[0], v[j - 1]));
                }
            } else {
                assert(r[i] == v[i - 1]);
            }
        }
        assert forall|y: int| #[trigger] r.contains(y) <==> y == x || v.contains(y) by {
            if v.contains(y) {
                let k = choose|k: int| 0 <= k < v.len() && v[k] == y;
                assert(r[k + 1] == y);
            }
            assert(r[0] == x);
            if r.contains(y) {
                let k = choose|k: int| 0 <= k < r.len() && r[k] == y;
                if k > 0 {
                    assert(v[k - 1] == y);
                }
            }
        }
    }
}

/// The order by rank holds each of the first `n` places once, the highest rank
/// first, and of two with the same rank the earlier.
pub proof fn ranking_is_an_order(ranks: Seq<u64>, n: nat)
    ensures
        by_rank(ranks, n).len() == n,
        forall|y: int| #[trigger] by_rank(ranks, n).contains(y) <==> 0 <= y < n,
        forall|i: int, j: int|
            0 <= i < j < n ==> ranks_before(
                ranks,
                #[trigger] by_rank(ranks, n)[i],
                #[trigger] by_rank(ranks, n)[j],
            ),
    decreases n,
{
    if n > 0 {
        let m = (n - 1) as nat;
        ranking_is_an_order(ranks, m);
        let before = by_rank(ranks, m);
        assert forall|i: int| 0 <= i < before.len() implies #[trigger] before[i] < n - 1 by {
            assert(before.contains(before[i]));
        }
        lemma_put_by_rank(before, ranks, n - 1);
    }
}

/// What is said of two claims that are nearly the same; `percent` is how much.
pub fn similar_note(percent: &str, older: &Claim, newer: &Claim) -> (r: String)
    requires
        taggable(older.cid@),
        taggable(newer.cid@),
    ensures
        r@ == percent@ + "% similar\n  "@ + tag_text(older.cid@) + " "@ + older.first_line@
            + "\n  "@ + tag_text(newer.cid@) + " "@ + newer.first_line@
            + "\n  merge: ctx save \"<combined>\" --supersedes "@ + newer.id@
            + "   then: ctx archive "@ + older.id@ + "\n"@,
{
    let mut out = percent.to_owned();
    out.append("% similar\n  ");
    out.append(tag(older.cid.as_str()).as_str());
    out.append(" ");
    out.append(older.first_line.as_str());
    out.append("\n  ");
    out.append(tag(newer.cid.as_str()).as_str());
    out.append(" ");
    out.append(newer.first_line.as_str());
    out.append("\n  merge: ctx save \"<combined>\" --supersedes ");
    out.append(newer.id.as_str());
    out.append("   then: ctx archive ");
    out.append(older.id.as_str());
    out.append("\n");
    out
}

/// What is said where no two claims are as similar as `threshold`.
pub fn no_duplicates_note(branch: &str, threshold: &str) -> (r: String)
    ensures
        r@ == "no near-duplicates on "@ + branch@ + " at similarity ≥ "@ + threshold@ + "\n"@,
{
    let mut out = "no near-duplicates on ".to_owned();
    out.append(branch);
    out.append(" at similarity ≥ ");
    out.append(threshold);
    out.append("\n");
    out
}

/// The pairs that are shown are the most similar ones, thirty at most: each is
/// one of those that there are, none is shown twice, the more similar stand
/// first, and none that is left out is more similar than one that is shown.
pub proof fn the_most_similar_are_shown(ranks: Seq<u64>)
    ensures
        shown_pairs(ranks).len() == if ranks.len() < 30 {
            ranks.len() as int
        } else {
            30
        },
        forall|i: int|
            0 <= i < shown_pairs(ranks).len() ==> 0 <= #[trigger] shown_pairs(ranks)[i]
                < ranks.len(),
        forall|i: int, j: int|
            0 <= i < j < shown_pairs(ranks).len() ==> {
                let a = #[trigger] shown_pairs(ranks)[i];
                let b = #[trigger] shown_pairs(ranks)[j];
                ranks[a] > ranks[b] || (ranks[a] == ranks[b] && a < b)
            },
        forall|i: int, left: int|
            0 <= i < shown_pairs(ranks).len() && 0 <= left < ranks.len() && !shown_pairs(
                ranks,
            ).contains(left) ==> ranks[#[trigger] shown_pairs(ranks)[i]] >= #[trigger] ranks[left],
{
    let n = ranks.len();
    ranking_is_an_order(ranks, n);
    let all = by_rank(ranks, n);
    let shown = shown_pairs(ranks);
    assert forall|i: int| 0 <= i < shown.len() implies 0 <= #[trigger] shown[i] < n by {
        assert(all.contains(all[i]));
    }
    assert forall|i: int, j: int| 0 <= i < j < shown.len() implies ({
        let a = #[trigger] shown[i];
        let b = #[trigger] shown[j];
        ranks[a] > ranks[b] || (ranks[a] == ranks[b] && a < b)
    }) by {
        assert(shown[i] == all[i] && shown[j] == all[j]);
        assert(ranks_before(ranks, all[i], all[j]));
    }
    assert forall|i: int, left: int|
        0 <= i < shown.len() && 0 <= left < n && !shown.contains(left) implies ranks[
    #[trigger] shown[i]] >= #[trigger] ranks[left] by {
        assert(all.contains(left));
        let k = choose|k: int| 0 <= k < all.len() && all[k] == left;
        if k < shown.len() {
            assert(shown[k] == left);
        }
        assert(shown[i] == all[i]);
        assert(ranks_before(ranks, all[i], all[k]));
    }
}

/// Places are read as they stand.
pub proof fn places_are_read_in_place(v: Seq<usize>)
    ensures
        places(v).len() == v.len(),
        forall|i: int| 0 <= i < v.len() ==> #[trigger] places(v)[i] == v[i],
{
}

} // verus!

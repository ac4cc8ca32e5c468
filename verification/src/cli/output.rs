//! Counts, tags and dates as they are printed.

use vstd::prelude::*;
use vstd::string::StringExecFns;
use vstd::utf8::{encode_scalar, encode_utf8};

use crate::text::{chars_of, push_decimal, strip_prefix};
#[allow(unused_imports)]
use crate::text::{decimal, text_of};

verus! {

// ---- counts ----

/// `n` things: the word in the singular for one, else in the plural.
pub open spec fn counted(n: int, one: Seq<char>, many: Seq<char>) -> Seq<char> {
    decimal(n as nat) + " "@ + if n == 1 {
        one
    } else {
        many
    }
}

/// `n` things in words.
pub fn plural(n: u64, one: &str, many: &str) -> (r: String)
    ensures
        r@ == counted(n as int, one@, many@),
{
    let mut out = String::new();
    push_decimal(&mut out, n);
    out.append(" ");
    if n == 1 {
        out.append(one);
    } else {
        out.append(many);
    }
    assert(out@ =~= counted(n as int, one@, many@));
    out
}

/// "3 claims".
pub open spec fn claims_counted(n: int) -> Seq<char> {
    counted(n, "claim"@, "claims"@)
}

/// "3 document versions".
pub open spec fn versions_counted(n: int) -> Seq<char> {
    counted(n, "document version"@, "document versions"@)
}

/// "3 claims, 1 document version".
pub open spec fn holdings(claims: int, docs: int) -> Seq<char> {
    claims_counted(claims) + ", "@ + versions_counted(docs)
}

/// Claims and document versions in words.
pub fn holdings_text(claims: u64, docs: u64) -> (r: String)
    ensures
        r@ == holdings(claims as int, docs as int),
{
    let mut out = plural(claims, "claim", "claims");
    out.append(", ");
    out.append(plural(docs, "document version", "document versions").as_str());
    out
}

// ---- tags ----

/// How many bytes `c` takes in UTF-8.
pub open spec fn width(c: char) -> nat {
    encode_utf8(seq![c]).len()
}

/// The start of `s` that takes exactly `n` bytes, where there is one.
pub open spec fn byte_prefix(s: Seq<char>, n: nat) -> Option<Seq<char>>
    decreases s.len(),
{
    if n == 0 {
        Some(seq![])
    } else if s.len() == 0 || width(s[0]) > n {
        None
    } else {
        match byte_prefix(s.drop_first(), (n - width(s[0])) as nat) {
            Some(rest) => Some(seq![s[0]] + rest),
            None => None,
        }
    }
}

/// The hexadecimal part of a claim's content id.
pub open spec fn hex_part(cid: Seq<char>) -> Seq<char> {
    if "b3:"@.is_prefix_of(cid) {
        cid.skip("b3:"@.len() as int)
    } else {
        cid
    }
}

/// Up to four bytes of a content id, behind its scheme.
pub open spec fn short_id(cid: Seq<char>) -> Option<Seq<char>> {
    if encode_utf8(hex_part(cid)).len() <= 4 {
        Some(hex_part(cid))
    } else {
        byte_prefix(hex_part(cid), 4)
    }
}

/// Whether a content id can be cut to a tag: a character may not be cut
/// through.
pub open spec fn taggable(cid: Seq<char>) -> bool {
    short_id(cid) is Some
}

/// `[c:7f2a]`.
pub open spec fn tag_text(cid: Seq<char>) -> Seq<char> {
    "[c:"@ + short_id(cid)->Some_0 + "]"@
}

fn short_id_of(cid: &str) -> (r: Option<String>)
    ensures
        text_of(r) == short_id(cid@),
{
    let hex = match strip_prefix(cid, "b3:") {
        Some(hex) => hex,
        None => cid.to_owned(),
    };
    if hex.as_str().as_bytes().len() <= 4 {
        return Some(hex);
    }
    let cs = chars_of(hex.as_str());
    let mut out = String::new();
    let mut left: usize = 4;
    let mut i: usize = 0;
    assert(cs@.skip(0) =~= cs@);
    while left > 0
        invariant
            i <= cs@.len(),
            left <= 4,
            short_id(cid@) == byte_prefix(cs@, 4),
            byte_prefix(cs@, 4) == match byte_prefix(cs@.skip(i as int), left as nat) {
                Some(rest) => Some(out@ + rest),
                None => None,
            },
        decreases cs@.len() - i,
    {
        if i == cs.len() {
            return None;
        }
        let mut one = String::new();
        one.push(cs[i]);
        let ghost c = cs@[i as int];
        assert(one@ =~= seq![c]);
        let wide: usize = one.as_str().as_bytes().len();
        let ghost rest = cs@.skip(i as int);
        assert(rest[0] == c);
        assert(rest.drop_first() =~= cs@.skip(i + 1));
        if wide > left {
            return None;
        }
        let ghost before = out@;
        out.push(cs[i]);
        proof {
            match byte_prefix(rest.drop_first(), (left - wide) as nat) {
                Some(tail) => {
                    assert(before + (seq![c] + tail) =~= out@ + tail);
                },
                None => {},
            }
        }
        left -= wide;
        i += 1;
    }
    assert(out@ + Seq::<char>::empty() =~= out@);
    Some(out)
}

/// Whether a content id can be cut to a tag.
pub fn is_taggable(cid: &str) -> (r: bool)
    ensures
        r == taggable(cid@),
{
    short_id_of(cid).is_some()
}

/// `[c:7f2a]` from a full content id.
pub fn tag(cid: &str) -> (r: String)
    requires
        taggable(cid@),
    ensures
        r@ == tag_text(cid@),
{
    let mut out = "[c:".to_owned();
    match short_id_of(cid) {
        Some(short) => out.append(short.as_str()),
        None => {},
    }
    out.append("]");
    out
}

// ---- dates ----

/// The date in UTC of a moment, by its seconds since 1970, as `%Y-%m-%d`.
pub uninterp spec fn utc_date_of(seconds: i64) -> Option<Seq<char>>;

/// `chrono::DateTime::from_timestamp`, formatted as `%Y-%m-%d`: nothing where
/// the moment is out of the range of dates that chrono has.
#[verifier::external_body]
pub(crate) fn utc_date(seconds: i64) -> (r: Option<String>)
    ensures
        text_of(r) == utc_date_of(seconds),
{
    chrono::DateTime::from_timestamp(seconds, 0).map(|t| t.format("%Y-%m-%d").to_string())
}

/// The seconds since 1970 at which a day starts in UTC, where there is such a
/// day.
pub uninterp spec fn utc_midnight_of(year: i32, month: u32, day: u32) -> Option<i64>;

/// `chrono::NaiveDate::from_ymd_opt`, at midnight in UTC as a timestamp. A day
/// starts a whole number of days after the first of 1970.
#[verifier::external_body]
fn utc_midnight(year: i32, month: u32, day: u32) -> (r: Option<i64>)
    ensures
        r == utc_midnight_of(year, month, day),
        r matches Some(t) ==> t % 86400 == 0,
{
    let date = chrono::NaiveDate::from_ymd_opt(year, month, day);
    date.map(|d| d.and_time(chrono::NaiveTime::default()).and_utc().timestamp())
}

/// From when on `ctx log --since` shows claims: the start of that day in UTC.
pub fn since_moment(year: i32, month: u32, day: u32) -> (r: Option<i64>)
    ensures
        r == utc_midnight_of(year, month, day),
        r matches Some(t) ==> t % 86400 == 0,
{
    utc_midnight(year, month, day)
}

// ---- laws ----

/// A count is its number in front of the word for it, which is the one for a
/// single thing exactly where there is one.
pub proof fn a_count_agrees_with_its_number(n: nat, one: Seq<char>, many: Seq<char>)
    ensures
        (decimal(n) + " "@).is_prefix_of(counted(n as int, one, many)),
        counted(1, one, many).skip((decimal(1) + " "@).len() as int) == one,
        n != 1 ==> counted(n as int, one, many).skip((decimal(n) + " "@).len() as int) == many,
{
    let word = if n == 1 {
        one
    } else {
        many
    };
    let head = decimal(n) + " "@;
    assert(counted(n as int, one, many) == head + word);
    assert((head + word).take(head.len() as int) =~= head);
    assert((head + word).skip(head.len() as int) =~= word);
    let first = decimal(1) + " "@;
    assert((first + one).skip(first.len() as int) =~= one);
}

/// What is held is told by both of its counts.
pub proof fn holdings_tell_both_counts(claims: int, docs: int)
    ensures
        counted(claims, "claim"@, "claims"@).is_prefix_of(holdings(claims, docs)),
        counted(docs, "document version"@, "document versions"@).is_suffix_of(
            holdings(claims, docs),
        ),
{
    let a = counted(claims, "claim"@, "claims"@);
    let b = counted(docs, "document version"@, "document versions"@);
    assert((a + ", "@ + b).take(a.len() as int) =~= a);
    assert((a + ", "@ + b).skip((a + ", "@).len() as int) =~= b);
}

/// The bytes of a text start with those of its first character.
proof fn lemma_first_width(s: Seq<char>)
    requires
        s.len() > 0,
    ensures
        encode_utf8(s).len() == width(s[0]) + encode_utf8(s.drop_first()).len(),
{
    let one = seq![s[0]];
    assert(one.drop_first() =~= seq![]);
    assert(encode_utf8(one.drop_first()) =~= seq![]);
    assert(encode_utf8(one) =~= encode_scalar(s[0] as u32));
}

proof fn lemma_byte_prefix(s: Seq<char>, n: nat)
    ensures
        match byte_prefix(s, n) {
            Some(p) => p.is_prefix_of(s) && encode_utf8(p).len() == n,
            None => forall|p: Seq<char>| p.is_prefix_of(s) ==> #[trigger] encode_utf8(p).len() != n,
        },
    decreases s.len(),
{
    if n == 0 {
        assert(s.take(0) =~= seq![]);
    } else if s.len() > 0 {
        let rest = s.drop_first();
        if width(s[0]) <= n {
            let m = (n - width(s[0])) as nat;
            lemma_byte_prefix(rest, m);
            if let Some(q) = byte_prefix(rest, m) {
                let p = seq![s[0]] + q;
                assert(p.drop_first() =~= q);
                lemma_first_width(p);
                assert(rest.take(q.len() as int) =~= q);
                assert(s.take(p.len() as int) =~= p);
            }
        }
        if byte_prefix(s, n) is None {
            assert forall|p: Seq<char>| p.is_prefix_of(s) implies #[trigger] encode_utf8(p).len()
                != n by {
                if p.len() > 0 {
                    lemma_first_width(p);
                    assert(p[0] == s.take(p.len() as int)[0]);
                    let q = p.drop_first();
                    assert(rest.take(q.len() as int) =~= q) by {
                        assert(s.take(p.len() as int) =~= p);
                        assert forall|i: int| 0 <= i < q.len() implies rest.take(q.len() as int)[i]
                            == q[i] by {
                            assert(q[i] == p[i + 1]);
                            assert(s.take(p.len() as int)[i + 1] == s[i + 1]);
                        }
                    }
                    assert(q.is_prefix_of(rest));
                }
            }
        }
    } else {
        assert forall|p: Seq<char>| p.is_prefix_of(s) implies #[trigger] encode_utf8(p).len() != n by {
            assert(p =~= seq![]);
        }
    }
}

/// A claim's short id is the start of its content id, without what names the
/// hash: all of it where it has up to four bytes, and else its first four.
pub proof fn a_short_id_is_the_start_of_its_id(cid: Seq<char>, hex: Seq<char>)
    ensures
        hex_part("b3:"@ + hex) == hex,
        !"b3:"@.is_prefix_of(hex) ==> hex_part(hex) == hex,
        short_id(cid) matches Some(short) ==> {
            &&& short.is_prefix_of(hex_part(cid))
            &&& if encode_utf8(hex_part(cid)).len() <= 4 {
                short == hex_part(cid)
            } else {
                encode_utf8(short).len() == 4
            }
        },
        encode_utf8(hex_part(cid)).len() <= 4 ==> taggable(cid),
        taggable(cid) ==> tag_text(cid) == "[c:"@ + short_id(cid)->Some_0 + "]"@,
{
    assert(("b3:"@ + hex).take("b3:"@.len() as int) =~= "b3:"@);
    assert(("b3:"@ + hex).skip("b3:"@.len() as int) =~= hex);
    lemma_byte_prefix(hex_part(cid), 4);
    assert(hex_part(cid).take(hex_part(cid).len() as int) =~= hex_part(cid));
}

} // verus!

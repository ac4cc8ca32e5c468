//! Names that are safe in a path: the words of a text in lower case, with a
//! dash between each two.

use vstd::prelude::*;
use vstd::string::StringExecFns;

use crate::text::{chars_of, lowercase, same_text};
#[allow(unused_imports)]
use crate::text::{ascii_lowercase_of, joined, lowercase_of};

verus! {

/// An ASCII letter or digit.
pub open spec fn is_alphanumeric(c: char) -> bool {
    '0' <= c <= '9' || 'a' <= c <= 'z' || 'A' <= c <= 'Z'
}

/// Whether `c` is part of a word: a letter, a digit or, in names of ideas, an
/// underscore.
pub open spec fn in_word(c: char, underscore: bool) -> bool {
    is_alphanumeric(c) || (underscore && c == '_')
}

/// `c` in lower case.
pub open spec fn lower(c: char) -> Seq<char> {
    if c as u32 <= 127 {
        seq![ascii_lowercase_of(c)]
    } else {
        lowercase_of(c)
    }
}

/// `s` in lower case.
pub open spec fn lowered(s: Seq<char>) -> Seq<char>
    decreases s.len(),
{
    if s.len() == 0 {
        seq![]
    } else {
        lowered(s.drop_last()) + lower(s.last())
    }
}

/// The words of `s`: its longest runs of characters that are part of a word.
pub open spec fn words(s: Seq<char>, underscore: bool) -> Seq<Seq<char>>
    decreases s.len(),
{
    if s.len() == 0 {
        seq![]
    } else {
        let before = words(s.drop_last(), underscore);
        let c = s.last();
        if !in_word(c, underscore) {
            before
        } else if before.len() > 0 && in_word(s.drop_last().last(), underscore) {
            before.update(before.len() - 1, before.last().push(c))
        } else {
            before.push(seq![c])
        }
    }
}

/// The words of `s` in lower case, with a dash between each two.
pub open spec fn dashed(s: Seq<char>, underscore: bool) -> Seq<char> {
    joined(words(lowered(s), underscore), "-"@)
}

/// The name of the shard of a machine with this host name. `cloud` is taken,
/// so a host of that name gets a suffix.
pub open spec fn machine_name(hostname: Seq<char>) -> Seq<char> {
    let name = dashed(hostname, false);
    if name.len() == 0 {
        "machine"@
    } else if name == "cloud"@ {
        "cloud-host"@
    } else {
        name
    }
}

/// The name under which an idea, a project or a lane is kept.
pub open spec fn idea_name(s: Seq<char>) -> Seq<char> {
    let name = dashed(s, true);
    if name.len() == 0 {
        "project"@
    } else {
        name
    }
}

/// `s` in lower case.
fn lowered_chars(s: &str) -> (r: Vec<char>)
    ensures
        r@ == lowered(s@),
        !has_capital(r@),
{
    let cs = chars_of(s);
    let mut out: Vec<char> = Vec::new();
    let mut i: usize = 0;
    while i < cs.len()
        invariant
            i <= cs@.len(),
            out@ == lowered(cs@.take(i as int)),
            !has_capital(out@),
        decreases cs@.len() - i,
    {
        let low = lowercase(cs[i]);
        proof {
            let next = cs@.take(i + 1);
            assert(next.drop_last() =~= cs@.take(i as int));
            assert(next.last() == cs@[i as int]);
            assert(low@ == lower(cs@[i as int]));
        }
        let ghost before = out@;
        let mut j: usize = 0;
        while j < low.len()
            invariant
                j <= low@.len(),
                out@ == before + low@.take(j as int),
                forall|k: int| 0 <= k < low@.len() ==> !('A' <= #[trigger] low@[k] <= 'Z'),
                !has_capital(out@),
            decreases low@.len() - j,
        {
            out.push(low[j]);
            assert(before + low@.take(j + 1) =~= (before + low@.take(j as int)).push(low@[j as int]));
            j += 1;
        }
        assert(low@.take(low@.len() as int) =~= low@);
        i += 1;
    }
    assert(cs@.take(cs@.len() as int) =~= cs@);
    out
}

/// What `joined` makes of one more word, or of one more character in the last.
proof fn lemma_joined_step(parts: Seq<Seq<char>>, sep: Seq<char>, c: char)
    ensures
        joined(parts.push(seq![c]), sep) == if parts.len() == 0 {
            seq![c]
        } else {
            (joined(parts, sep) + sep).push(c)
        },
        parts.len() > 0 ==> joined(parts.update(parts.len() - 1, parts.last().push(c)), sep)
            == joined(parts, sep).push(c),
{
    let more = parts.push(seq![c]);
    assert(more.drop_last() =~= parts);
    if parts.len() > 0 {
        assert(joined(parts, sep) + sep + seq![c] =~= (joined(parts, sep) + sep).push(c));
        let longer = parts.update(parts.len() - 1, parts.last().push(c));
        assert(longer.drop_last() =~= parts.drop_last());
        if parts.len() == 1 {
            assert(joined(longer, sep) == parts[0].push(c));
        } else {
            let head = joined(parts.drop_last(), sep) + sep;
            assert(head + parts.last().push(c) =~= (head + parts.last()).push(c));
        }
    }
}

/// The words of `s` in lower case, with a dash between each two.
fn dash(s: &str, underscore: bool) -> (r: String)
    ensures
        r@ == dashed(s@, underscore),
        !has_capital(r@),
{
    let cs = lowered_chars(s);
    let mut out = String::new();
    let mut inside = false;
    let mut i: usize = 0;
    while i < cs.len()
        invariant
            i <= cs@.len(),
            out@ == joined(words(cs@.take(i as int), underscore), "-"@),
            inside == (i > 0 && in_word(cs@[i - 1], underscore)),
            out@.len() == 0 <==> words(cs@.take(i as int), underscore).len() == 0,
            inside ==> words(cs@.take(i as int), underscore).len() > 0,
            !has_capital(cs@),
            !has_capital(out@),
        decreases cs@.len() - i,
    {
        let c = cs[i];
        let ghost before = words(cs@.take(i as int), underscore);
        proof {
            let next = cs@.take(i + 1);
            assert(next.drop_last() =~= cs@.take(i as int));
            assert(next.last() == c);
            if i > 0 {
                assert(cs@.take(i as int).last() == cs@[i - 1]);
            }
            lemma_joined_step(before, "-"@, c);
            reveal_strlit("-");
        }
        let word = ('0' <= c && c <= '9') || ('a' <= c && c <= 'z') || ('A' <= c && c <= 'Z') || (
        underscore && c == '_');
        if word {
            if !inside && !out.as_str().is_empty() {
                out.append("-");
            }
            out.push(c);
            assert(before.len() == 0 ==> out@ =~= seq![c]);
        }
        inside = word;
        i += 1;
    }
    assert(cs@.take(cs@.len() as int) =~= cs@);
    out
}

/// Turns a host name into the name of its machine's shard. The name holds no
/// capital, and taken as a host name it is that name again.
pub fn machine_slug(hostname: &str) -> (r: String)
    ensures
        r@ == machine_name(hostname@),
        is_safe_name(r@, false),
        !has_capital(r@),
        machine_name(r@) == r@,
{
    proof {
        machine_names_are_safe(hostname@);
        machine_names_are_stable(hostname@);
        lemma_given_names();
    }
    let name = dash(hostname, false);
    if name.as_str().is_empty() {
        "machine".to_owned()
    } else if same_text(name.as_str(), "cloud") {
        "cloud-host".to_owned()
    } else {
        name
    }
}

/// Turns a text into the name of an idea, a project or a lane. The name holds
/// no capital, and it names that idea again.
pub fn slug(s: &str) -> (r: String)
    ensures
        r@ == idea_name(s@),
        is_safe_name(r@, true),
        !has_capital(r@),
        idea_name(r@) == r@,
{
    proof {
        idea_names_are_safe(s@);
        idea_names_are_stable(s@);
        lemma_given_names();
    }
    let name = dash(s, true);
    if name.as_str().is_empty() {
        "project".to_owned()
    } else {
        name
    }
}

// ---- laws ----

/// Whether every character of `s` is part of a word.
pub open spec fn is_word(s: Seq<char>, underscore: bool) -> bool {
    s.len() > 0 && forall|i: int| 0 <= i < s.len() ==> in_word(#[trigger] s[i], underscore)
}

spec fn all_words(ws: Seq<Seq<char>>, underscore: bool) -> bool {
    forall|i: int| 0 <= i < ws.len() ==> is_word(#[trigger] ws[i], underscore)
}

/// Whether `s` is safe as a name in a path: words with one dash between each
/// two, and nothing else.
pub open spec fn is_safe_name(s: Seq<char>, underscore: bool) -> bool {
    &&& s.len() > 0
    &&& forall|i: int| 0 <= i < s.len() ==> in_word(#[trigger] s[i], underscore) || s[i] == '-'
    &&& s[0] != '-'
    &&& s.last() != '-'
    &&& forall|i: int| 0 < i < s.len() ==> !(#[trigger] s[i] == '-' && s[i - 1] == '-')
}

/// A small ASCII letter, or an ASCII character that is no letter.
spec fn is_plain(c: char) -> bool {
    c as u32 <= 127 && !('A' <= c <= 'Z')
}

spec fn all_plain(s: Seq<char>) -> bool {
    forall|i: int| 0 <= i < s.len() ==> is_plain(#[trigger] s[i])
}

/// Whether `s` holds an ASCII capital.
pub open spec fn has_capital(s: Seq<char>) -> bool {
    exists|i: int| 0 <= i < s.len() && 'A' <= #[trigger] s[i] <= 'Z'
}

/// Whether every character of `s` is ASCII.
pub open spec fn is_ascii_text(s: Seq<char>) -> bool {
    forall|i: int| 0 <= i < s.len() ==> (#[trigger] s[i]) as u32 <= 127
}

proof fn lemma_words_are_words(s: Seq<char>, underscore: bool)
    ensures
        all_words(words(s, underscore), underscore),
        all_plain(s) ==> forall|i: int|
            0 <= i < words(s, underscore).len() ==> all_plain(#[trigger] words(s, underscore)[i]),
    decreases s.len(),
{
    if s.len() > 0 {
        let front = s.drop_last();
        lemma_words_are_words(front, underscore);
        let before = words(front, underscore);
        let after = words(s, underscore);
        let c = s.last();
        if all_plain(s) {
            assert forall|i: int| 0 <= i < front.len() implies is_plain(#[trigger] front[i]) by {
                assert(s[i] == front[i]);
            }
        }
        assert forall|i: int| 0 <= i < after.len() implies is_word(#[trigger] after[i], underscore)
            && (all_plain(s) ==> all_plain(after[i])) by {
            if i < before.len() {
                assert(is_word(before[i], underscore));
                assert(all_plain(s) ==> all_plain(before[i]));
            }
            if after[i] == before.last().push(c) && before.len() > 0 {
                let w = after[i];
                assert forall|j: int| 0 <= j < w.len() implies in_word(#[trigger] w[j], underscore)
                    && (all_plain(s) ==> is_plain(w[j])) by {
                    if j < w.len() - 1 {
                        assert(w[j] == before.last()[j]);
                        assert(is_word(before[before.len() - 1], underscore));
                    }
                }
            }
        }
    }
}

/// A word behind a text that does not end inside a word is one more word.
proof fn lemma_words_behind(front: Seq<char>, w: Seq<char>, underscore: bool)
    requires
        is_word(w, underscore),
        front.len() > 0 ==> !in_word(front.last(), underscore),
    ensures
        words(front + w, underscore) == words(front, underscore).push(w),
    decreases w.len(),
{
    let all = front + w;
    let c = w.last();
    assert(all.last() == c);
    if w.len() == 1 {
        assert(all.drop_last() =~= front);
        assert(w =~= seq![c]);
    } else {
        let shorter = w.drop_last();
        assert forall|i: int| 0 <= i < shorter.len() implies in_word(
            #[trigger] shorter[i],
            underscore,
        ) by {
            assert(w[i] == shorter[i]);
        }
        lemma_words_behind(front, shorter, underscore);
        assert(all.drop_last() =~= front + shorter);
        assert(all.drop_last().last() == shorter.last());
        let before = words(front, underscore).push(shorter);
        assert(before.last().push(c) =~= w);
        assert(before.update(before.len() - 1, w) =~= words(front, underscore).push(w));
    }
}

/// Words with a dash between each two are the words of that text, and the text
/// is a safe name.
proof fn lemma_words_of_joined(ws: Seq<Seq<char>>, underscore: bool)
    requires
        all_words(ws, underscore),
    ensures
        words(joined(ws, "-"@), underscore) == ws,
        ws.len() > 0 ==> is_safe_name(joined(ws, "-"@), underscore),
        ws.len() == 0 ==> joined(ws, "-"@) == Seq::<char>::empty(),
    decreases ws.len(),
{
    reveal_strlit("-");
    if ws.len() == 1 {
        let w = ws[0];
        assert(is_word(w, underscore));
        lemma_words_behind(seq![], w, underscore);
        assert(Seq::<char>::empty() + w =~= w);
        assert(words(seq![], underscore).push(w) =~= ws);
        assert(in_word(w[0], underscore) && in_word(w[w.len() - 1], underscore));
        assert(is_safe_name(w, underscore));
    } else if ws.len() > 1 {
        let rest = ws.drop_last();
        let w = ws.last();
        assert forall|i: int| 0 <= i < rest.len() implies is_word(#[trigger] rest[i], underscore) by {
            assert(ws[i] == rest[i]);
        }
        lemma_words_of_joined(rest, underscore);
        let head = joined(rest, "-"@);
        let front = head + "-"@;
        assert(front.last() == '-');
        assert(front.drop_last() =~= head);
        assert(words(front, underscore) == words(head, underscore));
        assert(is_word(ws[ws.len() - 1], underscore));
        lemma_words_behind(front, w, underscore);
        assert(rest.push(w) =~= ws);
        let all = front + w;
        assert(all == joined(ws, "-"@));
        assert forall|i: int| 0 <= i < all.len() implies in_word(#[trigger] all[i], underscore)
            || all[i] == '-' by {
            if i < head.len() {
                assert(all[i] == head[i]);
            } else if i > head.len() {
                assert(all[i] == w[i - front.len()]);
            }
        }
        assert(all[0] == head[0]);
        assert(all.last() == w.last());
        assert(in_word(w[w.len() - 1], underscore));
        assert forall|i: int| 0 < i < all.len() implies !(#[trigger] all[i] == '-' && all[i - 1]
            == '-') by {
            if i < head.len() {
                assert(all[i] == head[i] && all[i - 1] == head[i - 1]);
            } else if i == head.len() {
                assert(all[i - 1] == head.last());
            } else {
                assert(all[i] == w[i - front.len()]);
                assert(in_word(w[i - front.len()], underscore));
            }
        }
    }
}

proof fn lemma_lowered_ascii(s: Seq<char>)
    requires
        is_ascii_text(s),
    ensures
        all_plain(lowered(s)),
        all_plain(s) ==> lowered(s) == s,
    decreases s.len(),
{
    if s.len() > 0 {
        let front = s.drop_last();
        assert forall|i: int| 0 <= i < front.len() implies (#[trigger] front[i]) as u32 <= 127 by {
            assert(s[i] == front[i]);
        }
        lemma_lowered_ascii(front);
        let c = s.last();
        assert(c == s[s.len() - 1]);
        let low = lowered(s);
        assert(low =~= lowered(front).push(ascii_lowercase_of(c)));
        if all_plain(s) {
            assert forall|i: int| 0 <= i < front.len() implies is_plain(#[trigger] front[i]) by {
                assert(s[i] == front[i]);
            }
            assert(is_plain(s[s.len() - 1]));
            assert(low =~= s);
        }
    }
}

/// The characters of joined words are those of the words and dashes.
proof fn lemma_joined_plain(ws: Seq<Seq<char>>)
    requires
        forall|i: int| 0 <= i < ws.len() ==> all_plain(#[trigger] ws[i]),
    ensures
        all_plain(joined(ws, "-"@)),
    decreases ws.len(),
{
    reveal_strlit("-");
    if ws.len() == 1 {
        assert(all_plain(ws[0]));
    } else if ws.len() > 1 {
        let rest = ws.drop_last();
        assert forall|i: int| 0 <= i < rest.len() implies all_plain(#[trigger] rest[i]) by {
            assert(ws[i] == rest[i]);
        }
        lemma_joined_plain(rest);
        assert(all_plain(ws[ws.len() - 1]));
        let all = joined(ws, "-"@);
        let head = joined(rest, "-"@);
        assert forall|i: int| 0 <= i < all.len() implies is_plain(#[trigger] all[i]) by {
            if i < head.len() {
                assert(all[i] == head[i]);
            } else if i > head.len() {
                assert(all[i] == ws.last()[i - head.len() - 1]);
            }
        }
    }
}

proof fn lemma_dashed(s: Seq<char>, underscore: bool)
    ensures
        dashed(s, underscore).len() > 0 ==> is_safe_name(dashed(s, underscore), underscore),
        is_ascii_text(s) ==> !has_capital(dashed(s, underscore)),
        !has_capital(dashed(s, underscore)) ==> dashed(dashed(s, underscore), underscore)
            == dashed(s, underscore),
{
    let ws = words(lowered(s), underscore);
    let name = dashed(s, underscore);
    lemma_words_are_words(lowered(s), underscore);
    lemma_words_of_joined(ws, underscore);
    if is_ascii_text(s) {
        lemma_lowered_ascii(s);
        lemma_joined_plain(ws);
        assert forall|i: int| 0 <= i < name.len() implies !('A' <= #[trigger] name[i] <= 'Z') by {
            assert(is_plain(name[i]));
        }
    }
    if !has_capital(name) {
        assert forall|i: int| 0 <= i < name.len() implies (#[trigger] name[i]) as u32 <= 127
            && is_plain(name[i]) by {
            assert(in_word(name[i], underscore) || name[i] == '-');
        }
        lemma_lowered_ascii(name);
    }
}

/// A plain safe name is its own dashed form.
proof fn lemma_plain_word_is_fixed(w: Seq<char>, underscore: bool)
    requires
        is_word(w, underscore),
        all_plain(w),
    ensures
        dashed(w, underscore) == w,
{
    assert forall|i: int| 0 <= i < w.len() implies (#[trigger] w[i]) as u32 <= 127 by {
        assert(is_plain(w[i]));
    }
    lemma_lowered_ascii(w);
    lemma_words_behind(seq![], w, underscore);
    assert(Seq::<char>::empty() + w =~= w);
    assert(words(w, underscore) =~= seq![w]);
}

proof fn lemma_given_names()
    ensures
        dashed("machine"@, false) == "machine"@,
        dashed("cloud-host"@, false) == "cloud-host"@,
        dashed("project"@, true) == "project"@,
        is_safe_name("machine"@, false),
        is_safe_name("cloud-host"@, false),
        is_safe_name("project"@, true),
        "machine"@ != "cloud"@,
        "cloud-host"@ != "cloud"@,
        !has_capital("machine"@),
        !has_capital("cloud-host"@),
        !has_capital("project"@),
{
    reveal_strlit("machine");
    reveal_strlit("cloud-host");
    reveal_strlit("project");
    reveal_strlit("cloud");
    reveal_strlit("host");
    reveal_strlit("-");
    lemma_plain_word_is_fixed("machine"@, false);
    lemma_plain_word_is_fixed("project"@, true);
    assert("machine"@.len() != "cloud"@.len());
    assert("cloud-host"@.len() != "cloud"@.len());
    let ws = seq!["cloud"@, "host"@];
    assert(is_word("cloud"@, false) && is_word("host"@, false));
    lemma_words_of_joined(ws, false);
    assert(ws.drop_last() =~= seq!["cloud"@]);
    assert(joined(seq!["cloud"@], "-"@) == "cloud"@);
    assert(ws.last() == "host"@);
    assert("cloud"@ + "-"@ + "host"@ =~= "cloud-host"@);
    assert(joined(ws, "-"@) == "cloud-host"@);
    assert forall|i: int| 0 <= i < "cloud-host"@.len() implies is_plain(
        #[trigger] "cloud-host"@[i],
    ) by {}
    assert forall|i: int| 0 <= i < "cloud-host"@.len() implies (#[trigger] "cloud-host"@[i]) as u32
        <= 127 by {}
    lemma_lowered_ascii("cloud-host"@);
}

/// The name of a machine's shard is safe in a path, and never the one that is
/// kept for the cloud.
pub proof fn machine_names_are_safe(hostname: Seq<char>)
    ensures
        is_safe_name(machine_name(hostname), false),
        machine_name(hostname) != "cloud"@,
{
    lemma_dashed(hostname, false);
    lemma_given_names();
}

/// The name of an idea is safe in a path: it holds no slash and no space.
pub proof fn idea_names_are_safe(s: Seq<char>)
    ensures
        is_safe_name(idea_name(s), true),
        !idea_name(s).contains('/'),
        !idea_name(s).contains(' '),
{
    lemma_dashed(s, true);
    lemma_given_names();
}

/// The name of a machine's shard, taken as a host name, is that name again,
/// where putting the host name in lower case leaves no ASCII capital. Of an
/// ASCII host name it leaves none.
pub proof fn machine_names_are_stable(hostname: Seq<char>)
    ensures
        is_ascii_text(hostname) ==> !has_capital(machine_name(hostname)),
        !has_capital(machine_name(hostname)) ==> machine_name(machine_name(hostname))
            == machine_name(hostname),
{
    lemma_dashed(hostname, false);
    lemma_given_names();
}

/// The name of an idea names that idea again, where putting it in lower case
/// leaves no ASCII capital. Of an ASCII text it leaves none.
pub proof fn idea_names_are_stable(s: Seq<char>)
    ensures
        is_ascii_text(s) ==> !has_capital(idea_name(s)),
        !has_capital(idea_name(s)) ==> idea_name(idea_name(s)) == idea_name(s),
{
    lemma_dashed(s, true);
    lemma_given_names();
}

/// The characters of `s` that are part of a word, in order.
pub open spec fn word_characters(s: Seq<char>, underscore: bool) -> Seq<char> {
    s.filter(|c: char| in_word(c, underscore))
}

/// `s` without its dashes.
pub open spec fn without_dashes(s: Seq<char>) -> Seq<char> {
    s.filter(|c: char| c != '-')
}

/// Words one behind the other, with nothing between them.
spec fn run_together(ws: Seq<Seq<char>>) -> Seq<char>
    decreases ws.len(),
{
    if ws.len() == 0 {
        seq![]
    } else {
        run_together(ws.drop_last()) + ws.last()
    }
}

proof fn lemma_word_characters(s: Seq<char>, underscore: bool)
    ensures
        run_together(words(s, underscore)) == word_characters(s, underscore),
        words(s, underscore).len() == 0 <==> word_characters(s, underscore).len() == 0,
    decreases s.len(),
{
    reveal(Seq::filter);
    if s.len() > 0 {
        let front = s.drop_last();
        let c = s.last();
        let before = words(front, underscore);
        lemma_word_characters(front, underscore);
        if in_word(c, underscore) {
            if before.len() > 0 && in_word(front.last(), underscore) {
                let last = before.last().push(c);
                let after = before.update(before.len() - 1, last);
                assert(after.drop_last() =~= before.drop_last());
                assert(run_together(after) =~= run_together(before).push(c));
            } else {
                let after = before.push(seq![c]);
                assert(after.drop_last() =~= before);
                assert(run_together(after) =~= run_together(before).push(c));
            }
        }
    }
}

proof fn lemma_word_has_no_dash(w: Seq<char>, underscore: bool)
    requires
        forall|i: int| 0 <= i < w.len() ==> in_word(#[trigger] w[i], underscore),
    ensures
        without_dashes(w) == w,
    decreases w.len(),
{
    reveal(Seq::filter);
    if w.len() > 0 {
        let front = w.drop_last();
        assert forall|i: int| 0 <= i < front.len() implies in_word(
            #[trigger] front[i],
            underscore,
        ) by {
            assert(w[i] == front[i]);
        }
        lemma_word_has_no_dash(front, underscore);
        assert(in_word(w[w.len() - 1], underscore));
        assert(front.push(w.last()) =~= w);
    }
}

proof fn lemma_joined_without_dashes(ws: Seq<Seq<char>>, underscore: bool)
    requires
        all_words(ws, underscore),
    ensures
        without_dashes(joined(ws, "-"@)) == run_together(ws),
    decreases ws.len(),
{
    reveal(Seq::filter);
    reveal_strlit("-");
    let other = |c: char| c != '-';
    if ws.len() > 0 {
        let w = ws.last();
        assert(is_word(ws[ws.len() - 1], underscore));
        lemma_word_has_no_dash(w, underscore);
        let rest = ws.drop_last();
        assert forall|i: int| 0 <= i < rest.len() implies is_word(#[trigger] rest[i], underscore) by {
            assert(ws[i] == rest[i]);
        }
        lemma_joined_without_dashes(rest, underscore);
        if ws.len() == 1 {
            assert(run_together(rest) =~= seq![]);
            assert(run_together(ws) =~= w);
            assert(ws[0] == w);
        } else {
            let head = joined(rest, "-"@);
            assert((head + "-"@).drop_last() =~= head);
            assert(without_dashes(head + "-"@) == without_dashes(head));
            Seq::filter_distributes_over_add(head + "-"@, w, other);
        }
    }
}

/// A text of words and dashes that neither starts with a dash nor holds two in
/// a row is its words joined, up to a dash at its end.
proof fn lemma_joined_words(s: Seq<char>, underscore: bool)
    requires
        forall|i: int| 0 <= i < s.len() ==> in_word(#[trigger] s[i], underscore) || s[i] == '-',
        s.len() > 0 ==> s[0] != '-',
        forall|i: int| 0 < i < s.len() ==> !(#[trigger] s[i] == '-' && s[i - 1] == '-'),
    ensures
        s.len() > 0 ==> words(s, underscore).len() > 0,
        joined(words(s, underscore), "-"@) == if s.len() > 0 && s.last() == '-' {
            s.drop_last()
        } else {
            s
        },
    decreases s.len(),
{
    reveal_strlit("-");
    if s.len() > 0 {
        let front = s.drop_last();
        let c = s.last();
        let before = words(front, underscore);
        assert forall|i: int| 0 <= i < front.len() implies in_word(#[trigger] front[i], underscore)
            || front[i] == '-' by {
            assert(s[i] == front[i]);
        }
        assert forall|i: int| 0 < i < front.len() implies !(#[trigger] front[i] == '-' && front[i
            - 1] == '-') by {
            assert(s[i] == front[i]);
        }
        lemma_joined_words(front, underscore);
        assert(c == s[s.len() - 1]);
        if front.len() == 0 {
            assert(before =~= seq![]);
            assert(words(s, underscore) =~= seq![seq![c]]);
            assert(joined(words(s, underscore), "-"@) =~= s);
        } else if c == '-' {
            assert(front.last() == s[s.len() - 2]);
            assert(s[s.len() - 1] == '-');
            assert(words(s, underscore) == before);
        } else if front.last() == '-' {
            let after = before.push(seq![c]);
            assert(words(s, underscore) == after);
            assert(after.drop_last() =~= before);
            assert(front.drop_last() + "-"@ =~= front);
            assert(joined(after, "-"@) =~= s);
        } else {
            assert(in_word(front[front.len() - 1], underscore));
            let last = before.last().push(c);
            let after = before.update(before.len() - 1, last);
            assert(words(s, underscore) == after);
            assert(after.drop_last() =~= before.drop_last());
            assert(joined(after, "-"@) =~= joined(before, "-"@).push(c));
            assert(front.push(c) =~= s);
        }
    }
}

proof fn lemma_safe_name_is_fixed(s: Seq<char>, underscore: bool)
    requires
        is_safe_name(s, underscore),
        !has_capital(s),
    ensures
        dashed(s, underscore) == s,
{
    assert forall|i: int| 0 <= i < s.len() implies (#[trigger] s[i]) as u32 <= 127 && is_plain(
        s[i],
    ) by {
        assert(in_word(s[i], underscore) || s[i] == '-');
    }
    lemma_lowered_ascii(s);
    lemma_joined_words(s, underscore);
}

/// A safe name without capitals is the name of its own shard, but for the one
/// that is kept for the cloud.
pub proof fn a_safe_machine_name_is_kept(s: Seq<char>)
    requires
        is_safe_name(s, false),
        !has_capital(s),
        s != "cloud"@,
    ensures
        machine_name(s) == s,
{
    lemma_safe_name_is_fixed(s, false);
}

/// A safe name without capitals is its own name as an idea.
pub proof fn a_safe_idea_name_is_kept(s: Seq<char>)
    requires
        is_safe_name(s, true),
        !has_capital(s),
    ensures
        idea_name(s) == s,
{
    lemma_safe_name_is_fixed(s, true);
}

/// The name of a machine's shard is made of the letters and digits of its host
/// name in lower case, all of them and in order, with dashes between. Without
/// any it is `machine`, and where they would make `cloud` it is `cloud-host`.
pub proof fn machine_names_keep_their_characters(hostname: Seq<char>)
    ensures
        word_characters(lowered(hostname), false).len() == 0 ==> machine_name(hostname)
            == "machine"@,
        dashed(hostname, false) == "cloud"@ ==> machine_name(hostname) == "cloud-host"@,
        word_characters(lowered(hostname), false).len() > 0 && dashed(hostname, false) != "cloud"@
            ==> without_dashes(machine_name(hostname)) == word_characters(lowered(hostname), false),
{
    reveal_strlit("cloud");
    let ws = words(lowered(hostname), false);
    lemma_words_are_words(lowered(hostname), false);
    lemma_word_characters(lowered(hostname), false);
    lemma_joined_without_dashes(ws, false);
    lemma_words_of_joined(ws, false);
}

/// The name of an idea is made of the letters, digits and underscores of its
/// text in lower case, all of them and in order, with dashes between. Without
/// any it is `project`.
pub proof fn idea_names_keep_their_characters(s: Seq<char>)
    ensures
        word_characters(lowered(s), true).len() == 0 ==> idea_name(s) == "project"@,
        word_characters(lowered(s), true).len() > 0 ==> without_dashes(idea_name(s))
            == word_characters(lowered(s), true),
{
    let ws = words(lowered(s), true);
    lemma_words_are_words(lowered(s), true);
    lemma_word_characters(lowered(s), true);
    lemma_joined_without_dashes(ws, true);
    lemma_words_of_joined(ws, true);
}

/// Words end where a character stands that is part of none: on its two sides
/// they are found apart from each other, and nothing of them is run together.
pub proof fn other_characters_part_words(a: Seq<char>, c: char, b: Seq<char>, underscore: bool)
    requires
        !in_word(c, underscore),
    ensures
        words(a.push(c) + b, underscore) == words(a, underscore) + words(b, underscore),
    decreases b.len(),
{
    let all = a.push(c) + b;
    if b.len() == 0 {
        assert(all =~= a.push(c));
        assert(a.push(c).drop_last() =~= a);
        assert(words(a, underscore) + words(b, underscore) =~= words(a, underscore));
    } else {
        let front = b.drop_last();
        other_characters_part_words(a, c, front, underscore);
        assert(all.drop_last() =~= a.push(c) + front);
        assert(all.last() == b.last());
        let left = words(a, underscore);
        let right = words(front, underscore);
        let before = left + right;
        if in_word(b.last(), underscore) {
            if front.len() == 0 {
                assert(all.drop_last().last() == c);
                assert(right =~= seq![]);
                assert(before.push(seq![b.last()]) =~= left + words(b, underscore));
            } else {
                assert(all.drop_last().last() == front.last());
                if in_word(front.last(), underscore) {
                    lemma_ends_in_a_word(front, underscore);
                    let more = before.last().push(b.last());
                    assert(before.last() == right.last());
                    assert(before.update(before.len() - 1, more) =~= left + right.update(
                        right.len() - 1,
                        more,
                    ));
                } else {
                    assert(before.push(seq![b.last()]) =~= left + right.push(seq![b.last()]));
                }
            }
        }
    }
}

proof fn lemma_ends_in_a_word(s: Seq<char>, underscore: bool)
    requires
        s.len() > 0,
        in_word(s.last(), underscore),
    ensures
        words(s, underscore).len() > 0,
{
}

/// A text of word characters alone is one word.
pub proof fn a_word_is_one_word(s: Seq<char>, underscore: bool)
    requires
        s.len() > 0,
        forall|i: int| 0 <= i < s.len() ==> in_word(#[trigger] s[i], underscore),
    ensures
        words(s, underscore) == seq![s],
    decreases s.len(),
{
    let front = s.drop_last();
    if front.len() == 0 {
        assert(words(front, underscore) =~= seq![]);
        assert(words(s, underscore) =~= seq![seq![s.last()]]);
        assert(seq![s.last()] =~= s);
    } else {
        assert forall|i: int| 0 <= i < front.len() implies in_word(
            #[trigger] front[i],
            underscore,
        ) by {
            assert(s[i] == front[i]);
        }
        a_word_is_one_word(front, underscore);
        assert(front.push(s.last()) =~= s);
        assert(words(s, underscore) =~= seq![s]);
    }
}

/// A text is put in lower case piece by piece. A capital of ASCII becomes its
/// small letter, which is the one that far behind it; no other character of ASCII
/// changes.
pub proof fn lower_case_goes_piece_by_piece(a: Seq<char>, b: Seq<char>, c: char)
    ensures
        lowered(a + b) == lowered(a) + lowered(b),
        'A' <= c <= 'Z' ==> lowered(seq![c]) == seq![(c as u32 - 'A' as u32 + 'a' as u32) as char],
        c as u32 <= 127 && !('A' <= c <= 'Z') ==> lowered(seq![c]) == seq![c],
        in_word(c, false) <==> ('0' <= c <= '9' || 'a' <= c <= 'z' || 'A' <= c <= 'Z'),
        in_word(c, true) <==> in_word(c, false) || c == '_',
    decreases b.len(),
{
    let one = seq![c];
    assert(one.drop_last() =~= Seq::<char>::empty());
    assert(lowered(Seq::<char>::empty()) =~= Seq::<char>::empty());
    assert(lowered(one) == lowered(one.drop_last()) + lower(c));
    assert(lowered(one) =~= lower(c));
    if b.len() == 0 {
        assert(a + b =~= a);
        assert(lowered(a) + lowered(b) =~= lowered(a));
    } else {
        lower_case_goes_piece_by_piece(a, b.drop_last(), c);
        assert((a + b).drop_last() =~= a + b.drop_last());
        assert((lowered(a) + lowered(b.drop_last())) + lower(b.last()) =~= lowered(a) + (lowered(
            b.drop_last(),
        ) + lower(b.last())));
    }
}

} // verus!

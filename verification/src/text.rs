//! Text as a sequence of characters: the few operations on it that the rest
//! of the library is stated in, each with its meaning as a spec function.

use vstd::prelude::*;
use vstd::string::StringExecFns;
use vstd::utf8::encode_utf8;

verus! {

/// `String::push`: the character is added at the end.
pub assume_specification[ String::push ](s: &mut String, c: char)
    ensures
        final(s)@ == old(s)@.push(c),
;

/// What `char::to_lowercase` yields for `c`.
pub uninterp spec fn lowercase_of(c: char) -> Seq<char>;

/// The small letter of an ASCII capital; any other character itself.
pub open spec fn ascii_lowercase_of(c: char) -> char {
    if 'A' <= c <= 'Z' {
        (c as u32 + 32) as char
    } else {
        c
    }
}

/// `char::to_lowercase`: the characters that `c` maps to in lower case. The
/// mapping is that of the Unicode Character Database, as its documentation
/// says. Stated of it are its part on ASCII, where it is one character, the
/// small letter of a capital and else `c` itself; and that nothing maps to an
/// ASCII capital.
#[verifier::external_body]
pub(crate) fn lowercase(c: char) -> (r: Vec<char>)
    ensures
        r@ == lowercase_of(c),
        c as u32 <= 127 ==> r@ == seq![ascii_lowercase_of(c)],
        forall|i: int| 0 <= i < r@.len() ==> !('A' <= #[trigger] r@[i] <= 'Z'),
{
    c.to_lowercase().collect()
}

/// The characters of `s`, in order.
pub fn chars_of(s: &str) -> (r: Vec<char>)
    ensures
        r@ == s@,
{
    let mut out: Vec<char> = Vec::new();
    for c in it: s.chars()
        invariant
            out@ == s@.take(it.index()),
            it.seq() == s@,
    {
        out.push(c);
        assert(s@.take(it.index() + 1) =~= s@.take(it.index()).push(c));
    }
    assert(s@.take(s@.len() as int) =~= s@);
    out
}

/// The characters of `cs` from `from` up to `to`, as a string.
pub fn text_between(cs: &Vec<char>, from: usize, to: usize) -> (r: String)
    requires
        from <= to <= cs@.len(),
    ensures
        r@ == cs@.subrange(from as int, to as int),
{
    let mut out = String::new();
    let mut i: usize = from;
    while i < to
        invariant
            from <= i <= to <= cs@.len(),
            out@ == cs@.subrange(from as int, i as int),
        decreases to - i,
    {
        out.push(cs[i]);
        assert(cs@.subrange(from as int, i + 1) =~= cs@.subrange(from as int, i as int).push(
            cs@[i as int],
        ));
        i += 1;
    }
    out
}

/// Two texts with the same bytes are the same text.
pub proof fn lemma_utf8_injective(a: Seq<char>, b: Seq<char>)
    requires
        encode_utf8(a) == encode_utf8(b),
    ensures
        a == b,
{
    broadcast use vstd::utf8::encode_utf8_decode_utf8;

    assert(vstd::utf8::decode_utf8(encode_utf8(a)) == a);
    assert(vstd::utf8::decode_utf8(encode_utf8(b)) == b);
}

/// Whether two byte strings are equal.
pub fn same_bytes(a: &[u8], b: &[u8]) -> (r: bool)
    ensures
        r == (a@ == b@),
{
    if a.len() != b.len() {
        return false;
    }
    let mut i: usize = 0;
    while i < a.len()
        invariant
            i <= a@.len(),
            a@.len() == b@.len(),
            forall|j: int| 0 <= j < i ==> a@[j] == b@[j],
        decreases a@.len() - i,
    {
        if a[i] != b[i] {
            return false;
        }
        i += 1;
    }
    assert(a@ =~= b@);
    true
}

/// Whether two texts are equal.
pub fn same_text(a: &str, b: &str) -> (r: bool)
    ensures
        r == (a@ == b@),
{
    let r = same_bytes(a.as_bytes(), b.as_bytes());
    proof {
        if r {
            lemma_utf8_injective(a@, b@);
        }
    }
    r
}

/// The texts of a vector of strings.
pub open spec fn texts(v: Seq<String>) -> Seq<Seq<char>> {
    Seq::new(v.len(), |i: int| v[i]@)
}

/// The text of an optional string.
pub open spec fn text_of(v: Option<String>) -> Option<Seq<char>> {
    match v {
        Some(s) => Some(s@),
        None => None,
    }
}

/// Whether an optional string holds exactly `s`.
pub fn is_text(v: &Option<String>, s: &str) -> (r: bool)
    ensures
        r == (text_of(*v) == Some(s@)),
{
    match v {
        Some(t) => same_text(t.as_str(), s),
        None => false,
    }
}

// ---- white space ----

/// Unicode's `White_Space` property.
pub open spec fn is_white_space(c: char) -> bool {
    ||| '\u{9}' <= c <= '\u{d}'
    ||| c == ' '
    ||| c == '\u{85}'
    ||| c == '\u{a0}'
    ||| c == '\u{1680}'
    ||| '\u{2000}' <= c <= '\u{200a}'
    ||| c == '\u{2028}'
    ||| c == '\u{2029}'
    ||| c == '\u{202f}'
    ||| c == '\u{205f}'
    ||| c == '\u{3000}'
}

/// Whether `c` is white space.
pub fn white_space(c: char) -> (r: bool)
    ensures
        r == is_white_space(c),
{
    ('\u{9}' <= c && c <= '\u{d}') || c == ' ' || c == '\u{85}' || c == '\u{a0}' || c == '\u{1680}'
        || ('\u{2000}' <= c && c <= '\u{200a}') || c == '\u{2028}' || c == '\u{2029}' || c
        == '\u{202f}' || c == '\u{205f}' || c == '\u{3000}'
}

/// `s` without the white space it starts with.
pub open spec fn trim_start(s: Seq<char>) -> Seq<char>
    decreases s.len(),
{
    if s.len() > 0 && is_white_space(s[0]) {
        trim_start(s.drop_first())
    } else {
        s
    }
}

/// `s` without the white space it ends with.
pub open spec fn trim_end(s: Seq<char>) -> Seq<char>
    decreases s.len(),
{
    if s.len() > 0 && is_white_space(s.last()) {
        trim_end(s.drop_last())
    } else {
        s
    }
}

/// `s` without the white space around it.
pub open spec fn trimmed(s: Seq<char>) -> Seq<char> {
    trim_end(trim_start(s))
}

/// `s` without the white space around it.
pub fn trim(s: &str) -> (r: String)
    ensures
        r@ == trimmed(s@),
{
    let cs = chars_of(s);
    let mut from: usize = 0;
    assert(cs@.skip(0) =~= cs@);
    while from < cs.len() && white_space(cs[from])
        invariant
            from <= cs@.len(),
            trim_start(cs@) == trim_start(cs@.skip(from as int)),
        decreases cs@.len() - from,
    {
        assert(cs@.skip(from as int).drop_first() =~= cs@.skip(from + 1));
        from += 1;
    }
    let mut to: usize = cs.len();
    let ghost head = cs@.skip(from as int);
    assert(trim_start(cs@) == head);
    assert(cs@.subrange(from as int, to as int) =~= head);
    while to > from && white_space(cs[to - 1])
        invariant
            from <= to <= cs@.len(),
            trim_end(head) == trim_end(cs@.subrange(from as int, to as int)),
        decreases to,
    {
        let ghost now = cs@.subrange(from as int, to as int);
        assert(now.last() == cs@[to - 1]);
        assert(now.drop_last() =~= cs@.subrange(from as int, to - 1));
        to -= 1;
    }
    let ghost now = cs@.subrange(from as int, to as int);
    assert(now.len() > 0 ==> now.last() == cs@[to - 1]);
    text_between(&cs, from, to)
}

// ---- runs of one character ----

/// `s` without the `c`s it ends with.
pub open spec fn strip_trailing(s: Seq<char>, c: char) -> Seq<char>
    decreases s.len(),
{
    if s.len() > 0 && s.last() == c {
        strip_trailing(s.drop_last(), c)
    } else {
        s
    }
}

/// `s` without the `c`s it ends with.
pub fn trim_end_matches(s: &str, c: char) -> (r: String)
    ensures
        r@ == strip_trailing(s@, c),
{
    let cs = chars_of(s);
    let mut to: usize = cs.len();
    assert(cs@.take(to as int) =~= cs@);
    while to > 0 && cs[to - 1] == c
        invariant
            to <= cs@.len(),
            strip_trailing(cs@, c) == strip_trailing(cs@.take(to as int), c),
        decreases to,
    {
        assert(cs@.take(to as int).last() == cs@[to - 1]);
        assert(cs@.take(to as int).drop_last() =~= cs@.take(to - 1));
        to -= 1;
    }
    assert(to > 0 ==> cs@.take(to as int).last() == cs@[to - 1]);
    text_between(&cs, 0, to)
}

// ---- parts ----

/// Whether `s` starts with `prefix`.
pub fn starts_with(s: &str, prefix: &str) -> (r: bool)
    ensures
        r == prefix@.is_prefix_of(s@),
{
    let cs = chars_of(s);
    let ps = chars_of(prefix);
    if cs.len() < ps.len() {
        return false;
    }
    let mut i: usize = 0;
    while i < ps.len()
        invariant
            i <= ps@.len() <= cs@.len(),
            ps@ == prefix@,
            cs@ == s@,
            forall|j: int| 0 <= j < i ==> ps@[j] == cs@[j],
        decreases ps@.len() - i,
    {
        if ps[i] != cs[i] {
            assert(s@.subrange(0, prefix@.len() as int)[i as int] != prefix@[i as int]);
            return false;
        }
        i += 1;
    }
    assert(prefix@ =~= s@.subrange(0, prefix@.len() as int));
    true
}

/// What follows `prefix` in `s`, where `s` starts with it.
pub fn strip_prefix(s: &str, prefix: &str) -> (r: Option<String>)
    ensures
        r is Some <==> prefix@.is_prefix_of(s@),
        r matches Some(t) ==> t@ == s@.skip(prefix@.len() as int),
{
    if starts_with(s, prefix) {
        let cs = chars_of(s);
        let ps = chars_of(prefix);
        let t = text_between(&cs, ps.len(), cs.len());
        assert(t@ =~= s@.skip(prefix@.len() as int));
        Some(t)
    } else {
        None
    }
}

/// Whether `c` occurs in `s`.
pub fn contains_char(s: &str, c: char) -> (r: bool)
    ensures
        r == s@.contains(c),
{
    let cs = chars_of(s);
    let mut i: usize = 0;
    while i < cs.len()
        invariant
            i <= cs@.len(),
            cs@ == s@,
            forall|j: int| 0 <= j < i ==> cs@[j] != c,
        decreases cs@.len() - i,
    {
        if cs[i] == c {
            return true;
        }
        i += 1;
    }
    false
}

/// Whether `s` ends with `c`.
pub fn ends_with_char(s: &str, c: char) -> (r: bool)
    ensures
        r == (s@.len() > 0 && s@.last() == c),
{
    let cs = chars_of(s);
    cs.len() > 0 && cs[cs.len() - 1] == c
}

// ---- lines ----

/// Where the first line feed of `s` stands; its length where there is none.
pub open spec fn line_end(s: Seq<char>) -> int
    decreases s.len(),
{
    if s.len() == 0 || s[0] == '\n' {
        0
    } else {
        1 + line_end(s.drop_first())
    }
}

/// `s` without one carriage return at its end.
pub open spec fn without_carriage_return(s: Seq<char>) -> Seq<char> {
    if s.len() > 0 && s.last() == '\r' {
        s.drop_last()
    } else {
        s
    }
}

pub proof fn lemma_line_end_bounds(s: Seq<char>)
    ensures
        0 <= line_end(s) <= s.len(),
        line_end(s) < s.len() ==> s[line_end(s)] == '\n',
        forall|i: int| 0 <= i < line_end(s) ==> s[i] != '\n',
    decreases s.len(),
{
    if s.len() > 0 && s[0] != '\n' {
        let rest = s.drop_first();
        lemma_line_end_bounds(rest);
        assert forall|i: int| 0 <= i < line_end(s) implies s[i] != '\n' by {
            if i > 0 {
                assert(rest[i - 1] == s[i]);
            }
        }
        if line_end(rest) < rest.len() {
            assert(rest[line_end(rest)] == s[line_end(rest) + 1]);
        }
    }
}

/// The lines of `s`. A line ends with a line feed, with or without a carriage
/// return before it; the last one may end with the text instead.
pub open spec fn lines(s: Seq<char>) -> Seq<Seq<char>>
    decreases s.len(),
{
    if s.len() == 0 {
        seq![]
    } else if !(0 <= line_end(s) < s.len()) {
        seq![s]
    } else {
        seq![without_carriage_return(s.take(line_end(s)))] + lines(s.skip(line_end(s) + 1))
    }
}

/// The lines of `s`.
pub fn lines_of(s: &str) -> (r: Vec<String>)
    ensures
        texts(r@) == lines(s@),
{
    let cs = chars_of(s);
    let mut out: Vec<String> = Vec::new();
    let mut start: usize = 0;
    assert(cs@.skip(0) =~= cs@);
    assert(texts(out@) + lines(cs@) =~= lines(cs@));
    while start < cs.len()
        invariant
            start <= cs@.len(),
            texts(out@) + lines(cs@.skip(start as int)) == lines(cs@),
        decreases cs@.len() - start,
    {
        let ghost rest = cs@.skip(start as int);
        let mut end: usize = start;
        while end < cs.len() && cs[end] != '\n'
            invariant
                start <= end <= cs@.len(),
                forall|i: int| start <= i < end ==> cs@[i] != '\n',
            decreases cs@.len() - end,
        {
            end += 1;
        }
        proof {
            lemma_line_end_bounds(rest);
            let e = line_end(rest);
            assert(e == end - start) by {
                if e < end - start {
                    assert(rest[e] == cs@[start + e]);
                }
                if e > end - start {
                    assert(rest[end - start] == cs@[end as int]);
                }
            }
        }
        let ghost before = texts(out@);
        if end == cs.len() {
            let line = text_between(&cs, start, end);
            assert(line@ =~= rest);
            out.push(line);
            assert(texts(out@) =~= before.push(rest));
            assert(before + lines(rest) =~= before.push(rest));
            assert(cs@.skip(end as int) =~= Seq::<char>::empty());
            assert(texts(out@) + lines(cs@.skip(end as int)) =~= texts(out@));
            start = end;
        } else {
            let stop: usize = if end > start && cs[end - 1] == '\r' {
                end - 1
            } else {
                end
            };
            let line = text_between(&cs, start, stop);
            proof {
                let taken = rest.take(end - start);
                assert(taken.len() > 0 ==> taken.last() == cs@[end - 1]);
                assert(line@ =~= without_carriage_return(taken));
                assert(rest.skip(end - start + 1) =~= cs@.skip(end + 1));
            }
            out.push(line);
            assert(texts(out@) =~= before.push(line@));
            assert(before + lines(rest) =~= texts(out@) + lines(cs@.skip(end + 1)));
            start = end + 1;
        }
    }
    assert(cs@.skip(start as int) =~= Seq::<char>::empty());
    assert(texts(out@) + lines(cs@.skip(start as int)) =~= texts(out@));
    out
}

/// The texts one after the other, with `sep` between each two.
pub open spec fn joined(parts: Seq<Seq<char>>, sep: Seq<char>) -> Seq<char>
    decreases parts.len(),
{
    if parts.len() == 0 {
        seq![]
    } else if parts.len() == 1 {
        parts[0]
    } else {
        joined(parts.drop_last(), sep) + sep + parts.last()
    }
}

/// The parts with `sep` between each two.
pub fn join(parts: &Vec<String>, sep: &str) -> (r: String)
    ensures
        r@ == joined(texts(parts@), sep@),
{
    let mut out = String::new();
    let mut i: usize = 0;
    let ghost all = texts(parts@);
    while i < parts.len()
        invariant
            i <= parts@.len(),
            all == texts(parts@),
            out@ == joined(all.take(i as int), sep@),
        decreases parts@.len() - i,
    {
        if i > 0 {
            out.append(sep);
        }
        out.append(parts[i].as_str());
        proof {
            let next = all.take(i + 1);
            assert(next.drop_last() =~= all.take(i as int));
            assert(next.last() == parts@[i as int]@);
            if i == 0 {
                assert(out@ =~= next[0]);
            }
        }
        i += 1;
    }
    assert(all.take(all.len() as int) =~= all);
    out
}

/// `s` with `by` in the place of each line feed.
pub open spec fn line_feeds_replaced(s: Seq<char>, by: Seq<char>) -> Seq<char>
    decreases s.len(),
{
    if s.len() == 0 {
        seq![]
    } else {
        line_feeds_replaced(s.drop_last(), by) + if s.last() == '\n' {
            by
        } else {
            seq![s.last()]
        }
    }
}

/// `s` with `by` in the place of each line feed.
pub fn replace_line_feeds(s: &str, by: &str) -> (r: String)
    ensures
        r@ == line_feeds_replaced(s@, by@),
{
    let cs = chars_of(s);
    let mut out = String::new();
    let mut i: usize = 0;
    while i < cs.len()
        invariant
            i <= cs@.len(),
            out@ == line_feeds_replaced(cs@.take(i as int), by@),
        decreases cs@.len() - i,
    {
        proof {
            let next = cs@.take(i + 1);
            assert(next.drop_last() =~= cs@.take(i as int));
            assert(next.last() == cs@[i as int]);
        }
        let ghost before = out@;
        if cs[i] == '\n' {
            out.append(by);
        } else {
            out.push(cs[i]);
            assert(out@ =~= before + seq![cs@[i as int]]);
        }
        i += 1;
    }
    assert(cs@.take(cs@.len() as int) =~= cs@);
    out
}

// ---- numbers and columns ----

/// The digit for `d`, where `d` is below ten.
pub open spec fn digit(d: nat) -> char {
    ('0' as u32 + d) as char
}

/// `n` in decimal.
pub open spec fn decimal(n: nat) -> Seq<char>
    decreases n,
{
    if n < 10 {
        seq![digit(n)]
    } else {
        decimal(n / 10).push(digit(n % 10))
    }
}

/// Adds `n` in decimal to `out`.
pub fn push_decimal(out: &mut String, n: u64)
    ensures
        final(out)@ == old(out)@ + decimal(n as nat),
    decreases n,
{
    let ghost before = out@;
    if n >= 10 {
        push_decimal(out, n / 10);
    }
    let d: u8 = (n % 10) as u8;
    out.push((48u8 + d) as char);
    assert(out@ =~= before + decimal(n as nat));
}

/// `width` spaces; none where `width` is not positive.
pub open spec fn spaces(width: int) -> Seq<char> {
    Seq::new(
        if width > 0 {
            width as nat
        } else {
            0
        },
        |i: int| ' ',
    )
}

/// `s` filled up with spaces behind it to `width` characters.
pub open spec fn padded(s: Seq<char>, width: int) -> Seq<char> {
    s + spaces(width - s.len())
}

/// `s` filled up with spaces before it to `width` characters.
pub open spec fn padded_left(s: Seq<char>, width: int) -> Seq<char> {
    spaces(width - s.len()) + s
}

/// Adds `width` spaces to `out`.
pub fn push_spaces(out: &mut String, width: usize)
    ensures
        final(out)@ == old(out)@ + spaces(width as int),
{
    let ghost before = out@;
    let mut i: usize = 0;
    assert(out@ =~= before + spaces(0));
    while i < width
        invariant
            i <= width,
            out@ == before + spaces(i as int),
        decreases width - i,
    {
        out.push(' ');
        assert(out@ =~= before + spaces(i + 1));
        i += 1;
    }
}

/// Adds `s` to `out`, filled up with spaces behind it to `width` characters.
pub fn push_padded(out: &mut String, s: &str, width: usize)
    ensures
        final(out)@ == old(out)@ + padded(s@, width as int),
{
    let ghost before = out@;
    let len = chars_of(s).len();
    out.append(s);
    if len < width {
        push_spaces(out, width - len);
    }
    assert(out@ =~= before + padded(s@, width as int));
}

/// Adds `n` to `out`, filled up with spaces before it to `width` characters.
pub fn push_padded_number(out: &mut String, n: u64, width: usize)
    ensures
        final(out)@ == old(out)@ + padded_left(decimal(n as nat), width as int),
{
    let ghost before = out@;
    let mut number = String::new();
    push_decimal(&mut number, n);
    assert(number@ =~= decimal(n as nat));
    let len = chars_of(number.as_str()).len();
    if len < width {
        push_spaces(out, width - len);
    }
    out.append(number.as_str());
    assert(out@ =~= before + padded_left(decimal(n as nat), width as int));
}

// ---- order ----

/// The order of texts by their first differing character; a text comes before
/// the longer ones that start with it.
pub open spec fn text_lt(a: Seq<char>, b: Seq<char>) -> bool
    decreases a.len(),
{
    if b.len() == 0 {
        false
    } else if a.len() == 0 {
        true
    } else if a[0] != b[0] {
        a[0] < b[0]
    } else {
        text_lt(a.drop_first(), b.drop_first())
    }
}

/// Not after, in the order of texts.
pub open spec fn text_le(a: Seq<char>, b: Seq<char>) -> bool {
    !text_lt(b, a)
}

/// Whether `a` comes before `b`.
pub fn text_before(a: &str, b: &str) -> (r: bool)
    ensures
        r == text_lt(a@, b@),
{
    let x = chars_of(a);
    let y = chars_of(b);
    let mut i: usize = 0;
    assert(x@.skip(0) =~= x@);
    assert(y@.skip(0) =~= y@);
    while i < x.len() && i < y.len() && x[i] == y[i]
        invariant
            i <= x@.len(),
            i <= y@.len(),
            text_lt(x@, y@) == text_lt(x@.skip(i as int), y@.skip(i as int)),
        decreases x@.len() - i,
    {
        assert(x@.skip(i as int).drop_first() =~= x@.skip(i + 1));
        assert(y@.skip(i as int).drop_first() =~= y@.skip(i + 1));
        i += 1;
    }
    if i == y.len() {
        false
    } else if i == x.len() {
        true
    } else {
        x[i] < y[i]
    }
}

/// The order of texts is strict: no text comes before itself, and of two
/// different texts exactly one comes first.
pub proof fn lemma_text_lt_total(a: Seq<char>, b: Seq<char>)
    ensures
        a == b ==> !text_lt(a, b),
        a != b ==> text_lt(a, b) != text_lt(b, a),
    decreases a.len(),
{
    if a.len() > 0 && b.len() > 0 && a[0] == b[0] {
        let x = a.drop_first();
        let y = b.drop_first();
        lemma_text_lt_total(x, y);
        if x == y {
            assert(a =~= seq![a[0]] + x);
            assert(b =~= seq![b[0]] + y);
        }
    } else if a.len() == 0 && b.len() == 0 {
        assert(a =~= b);
    }
}

/// The order of texts is transitive.
pub proof fn lemma_text_lt_transitive(a: Seq<char>, b: Seq<char>, c: Seq<char>)
    requires
        text_lt(a, b),
        text_lt(b, c),
    ensures
        text_lt(a, c),
    decreases a.len(),
{
    if a.len() > 0 && b.len() > 0 && c.len() > 0 && a[0] == b[0] && b[0] == c[0] {
        lemma_text_lt_transitive(a.drop_first(), b.drop_first(), c.drop_first());
    }
}

/// "Not after" is transitive.
pub proof fn lemma_text_le_transitive(a: Seq<char>, b: Seq<char>, c: Seq<char>)
    requires
        text_le(a, b),
        text_le(b, c),
    ensures
        text_le(a, c),
{
    lemma_text_lt_total(a, b);
    lemma_text_lt_total(b, c);
    lemma_text_lt_total(a, c);
    if text_lt(c, a) {
        if a == b {
        } else {
            lemma_text_lt_transitive(c, a, b);
        }
    }
}

// ---- laws ----

/// Whether `part` stands in `s` from place `i` on.
pub open spec fn stands_at(s: Seq<char>, part: Seq<char>, i: int) -> bool {
    0 <= i && i + part.len() <= s.len() && s.subrange(i, i + part.len()) == part
}

/// Whether `part` stands somewhere in `s`.
pub open spec fn mentions(s: Seq<char>, part: Seq<char>) -> bool {
    exists|i: int| stands_at(s, part, i)
}

/// A text mentions what stands between its other parts.
pub proof fn lemma_mentions(before: Seq<char>, part: Seq<char>, after: Seq<char>)
    ensures
        mentions(before + part + after, part),
        mentions(before + part, part),
        mentions(part + after, part),
{
    let all = before + part + after;
    assert(all.subrange(before.len() as int, (before.len() + part.len()) as int) =~= part);
    assert(stands_at(all, part, before.len() as int));
    let front = before + part;
    assert(front.subrange(before.len() as int, (before.len() + part.len()) as int) =~= part);
    assert(stands_at(front, part, before.len() as int));
    let back = part + after;
    assert(back.subrange(0, part.len() as int) =~= part);
    assert(stands_at(back, part, 0));
}

/// A text mentions what a part of it mentions.
pub proof fn lemma_mentions_within(
    before: Seq<char>,
    s: Seq<char>,
    after: Seq<char>,
    part: Seq<char>,
)
    requires
        mentions(s, part),
    ensures
        mentions(before + s + after, part),
        mentions(before + s, part),
        mentions(s + after, part),
{
    let i = choose|i: int| stands_at(s, part, i);
    let k = before.len();
    let all = before + s + after;
    assert(all.subrange(k + i, k + i + part.len()) =~= s.subrange(i, i + part.len()));
    assert(stands_at(all, part, k + i));
    let front = before + s;
    assert(front.subrange(k + i, k + i + part.len()) =~= s.subrange(i, i + part.len()));
    assert(stands_at(front, part, k + i));
    let back = s + after;
    assert(back.subrange(i, i + part.len()) =~= s.subrange(i, i + part.len()));
    assert(stands_at(back, part, i));
}

/// Strings are read as their texts, each in its place.
pub proof fn strings_are_read_in_place(v: Seq<String>, one: String)
    ensures
        texts(v).len() == v.len(),
        forall|i: int| 0 <= i < v.len() ==> #[trigger] texts(v)[i] == v[i]@,
        text_of(Some(one)) == Some(one@),
        text_of(None) is None,
{
}

proof fn lemma_trim_start(s: Seq<char>) -> (a: int)
    ensures
        0 <= a <= s.len(),
        trim_start(s) == s.skip(a),
        forall|i: int| 0 <= i < a ==> is_white_space(#[trigger] s[i]),
        a < s.len() ==> !is_white_space(s[a]),
    decreases s.len(),
{
    if s.len() > 0 && is_white_space(s[0]) {
        let rest = s.drop_first();
        let b = lemma_trim_start(rest);
        assert(rest.skip(b) =~= s.skip(b + 1));
        assert forall|i: int| 0 <= i < b + 1 implies is_white_space(#[trigger] s[i]) by {
            if i > 0 {
                assert(rest[i - 1] == s[i]);
            }
        }
        b + 1
    } else {
        assert(s.skip(0) =~= s);
        0
    }
}

proof fn lemma_trim_end(s: Seq<char>) -> (b: int)
    ensures
        0 <= b <= s.len(),
        trim_end(s) == s.take(b),
        forall|i: int| b <= i < s.len() ==> is_white_space(#[trigger] s[i]),
        b > 0 ==> !is_white_space(s[b - 1]),
    decreases s.len(),
{
    if s.len() > 0 && is_white_space(s.last()) {
        let rest = s.drop_last();
        let b = lemma_trim_end(rest);
        assert(rest.take(b) =~= s.take(b));
        assert forall|i: int| b <= i < s.len() implies is_white_space(#[trigger] s[i]) by {
            if i < rest.len() {
                assert(rest[i] == s[i]);
            }
        }
        b
    } else {
        assert(s.take(s.len() as int) =~= s);
        s.len() as int
    }
}

/// Trimming takes the white space at both ends away, all of it and nothing
/// else.
pub proof fn trimming_takes_white_space_alone(s: Seq<char>)
    ensures
        exists|a: int, b: int|
            {
                &&& 0 <= a <= b <= s.len()
                &&& trimmed(s) == #[trigger] s.subrange(a, b)
                &&& forall|i: int| 0 <= i < a ==> is_white_space(#[trigger] s[i])
                &&& forall|i: int| b <= i < s.len() ==> is_white_space(#[trigger] s[i])
                &&& a < b ==> !is_white_space(s[a]) && !is_white_space(s[b - 1])
            },
{
    let a = lemma_trim_start(s);
    let rest = s.skip(a);
    let n = lemma_trim_end(rest);
    let b = a + n;
    assert(rest.take(n) =~= s.subrange(a, b));
    assert forall|i: int| b <= i < s.len() implies is_white_space(#[trigger] s[i]) by {
        assert(rest[i - a] == s[i]);
    }
    if a < b {
        assert(rest[n - 1] == s[b - 1]);
    }
}

/// Taking a character off the end takes every one of it there, and nothing
/// else.
pub proof fn stripping_takes_that_character_alone(s: Seq<char>, c: char)
    ensures
        exists|k: int|
            {
                &&& 0 <= k <= s.len()
                &&& strip_trailing(s, c) == #[trigger] s.take(k)
                &&& forall|i: int| k <= i < s.len() ==> #[trigger] s[i] == c
                &&& k > 0 ==> s[k - 1] != c
            },
    decreases s.len(),
{
    if s.len() > 0 && s.last() == c {
        let front = s.drop_last();
        stripping_takes_that_character_alone(front, c);
        let k = choose|k: int|
            {
                &&& 0 <= k <= front.len()
                &&& strip_trailing(front, c) == #[trigger] front.take(k)
                &&& forall|i: int| k <= i < front.len() ==> #[trigger] front[i] == c
                &&& k > 0 ==> front[k - 1] != c
            };
        assert(front.take(k) =~= s.take(k));
        assert forall|i: int| k <= i < s.len() implies #[trigger] s[i] == c by {
            if i < front.len() {
                assert(front[i] == s[i]);
            }
        }
        if k > 0 {
            assert(front[k - 1] == s[k - 1]);
        }
    } else {
        assert(s.take(s.len() as int) =~= s);
    }
}

/// Joining puts the separator between each two parts, and nowhere else: one
/// more part stands behind what was there and a separator. Every part is in it.
pub proof fn joining_keeps_every_part(parts: Seq<Seq<char>>, sep: Seq<char>, more: Seq<char>)
    ensures
        joined(Seq::<Seq<char>>::empty(), sep) == Seq::<char>::empty(),
        joined(seq![more], sep) == more,
        parts.len() > 0 ==> joined(parts.push(more), sep) == joined(parts, sep) + sep + more,
        forall|i: int| 0 <= i < parts.len() ==> mentions(joined(parts, sep), #[trigger] parts[i]),
    decreases parts.len(),
{
    assert(parts.push(more).drop_last() =~= parts);
    if parts.len() > 0 {
        let front = parts.drop_last();
        let last = parts.last();
        joining_keeps_every_part(front, sep, last);
        assert forall|i: int| 0 <= i < parts.len() implies mentions(
            joined(parts, sep),
            #[trigger] parts[i],
        ) by {
            if parts.len() == 1 {
                lemma_mentions(seq![], last, seq![]);
                assert(Seq::<char>::empty() + last =~= last);
            } else if i == parts.len() - 1 {
                lemma_mentions(joined(front, sep) + sep, last, seq![]);
            } else {
                assert(front[i] == parts[i]);
                lemma_mentions_within(seq![], joined(front, sep), sep + last, parts[i]);
                assert(joined(front, sep) + (sep + last) =~= joined(parts, sep));
            }
        }
    }
}

/// Replacing line feeds replaces each of them, and leaves every other character
/// in its place.
pub proof fn replacing_goes_character_by_character(a: Seq<char>, b: Seq<char>, by: Seq<char>)
    ensures
        line_feeds_replaced(a + b, by) == line_feeds_replaced(a, by) + line_feeds_replaced(b, by),
        line_feeds_replaced(seq!['\n'], by) == by,
        forall|c: char| c != '\n' ==> #[trigger] line_feeds_replaced(seq![c], by) == seq![c],
        !a.contains('\n') ==> line_feeds_replaced(a, by) == a,
    decreases a.len() + b.len(),
{
    assert forall|c: char| #[trigger] line_feeds_replaced(seq![c], by) == if c == '\n' {
        by
    } else {
        seq![c]
    } by {
        let one = seq![c];
        assert(one.drop_last() =~= seq![]);
        assert(line_feeds_replaced(one.drop_last(), by) =~= seq![]);
        assert(one.last() == c);
        assert(line_feeds_replaced(one, by) =~= if c == '\n' {
            by
        } else {
            seq![c]
        });
    }
    if b.len() == 0 {
        assert(a + b =~= a);
        assert(line_feeds_replaced(a, by) + line_feeds_replaced(b, by) =~= line_feeds_replaced(
            a,
            by,
        ));
    } else {
        let front = b.drop_last();
        replacing_goes_character_by_character(a, front, by);
        assert((a + b).drop_last() =~= a + front);
        assert((a + b).last() == b.last());
        assert(line_feeds_replaced(a + b, by) =~= line_feeds_replaced(a, by) + line_feeds_replaced(
            b,
            by,
        ));
    }
    if !a.contains('\n') && a.len() > 0 {
        let front = a.drop_last();
        assert forall|i: int| 0 <= i < front.len() implies #[trigger] front[i] != '\n' by {
            assert(a[i] == front[i]);
        }
        replacing_goes_character_by_character(front, seq![], by);
        assert(a.last() != '\n') by {
            assert(a[a.len() - 1] == a.last());
        }
        assert(front.push(a.last()) =~= a);
        assert(front + seq![a.last()] =~= a);
    }
}

proof fn lemma_line_end_of(a: Seq<char>, b: Seq<char>)
    requires
        !a.contains('\n'),
    ensures
        line_end(a) == a.len(),
        line_end(a.push('\n') + b) == a.len(),
    decreases a.len(),
{
    let all = a.push('\n') + b;
    if a.len() == 0 {
        assert(all[0] == '\n');
    } else {
        let rest = a.drop_first();
        assert forall|i: int| 0 <= i < rest.len() implies #[trigger] rest[i] != '\n' by {
            assert(a[i + 1] == rest[i]);
        }
        assert(a[0] != '\n');
        lemma_line_end_of(rest, b);
        assert(all[0] == a[0]);
        assert(all.drop_first() =~= rest.push('\n') + b);
    }
}

/// The lines of a text are what stands between its line feeds: the first line
/// is all before the first of them, but for a carriage return in front of it,
/// and the others are the lines of the rest. A last line needs no line feed.
pub proof fn lines_stand_between_line_feeds(a: Seq<char>, b: Seq<char>)
    requires
        !a.contains('\n'),
    ensures
        lines(Seq::<char>::empty()) == Seq::<Seq<char>>::empty(),
        a.len() > 0 ==> lines(a) == seq![a],
        (a.len() == 0 || a.last() != '\r') ==> lines(a.push('\n') + b) == seq![a] + lines(b),
        lines(a.push('\r').push('\n') + b) == seq![a] + lines(b),
{
    lemma_line_end_of(a, b);
    let all = a.push('\n') + b;
    assert(all.take(a.len() as int) =~= a);
    assert(all.skip(a.len() as int + 1) =~= b);
    let returned = a.push('\r');
    assert forall|i: int| 0 <= i < returned.len() implies #[trigger] returned[i] != '\n' by {
        if i < a.len() {
            assert(a[i] == returned[i]);
        }
    }
    lemma_line_end_of(returned, b);
    let crlf = returned.push('\n') + b;
    assert(crlf.take(returned.len() as int) =~= returned);
    assert(crlf.skip(returned.len() as int + 1) =~= b);
    assert(returned.drop_last() =~= a);
}

/// The number that decimal digits stand for.
pub open spec fn number_in(digits: Seq<char>) -> int
    decreases digits.len(),
{
    if digits.len() == 0 {
        0
    } else {
        10 * number_in(digits.drop_last()) + (digits.last() as u32 - '0' as u32)
    }
}

/// A number's digits stand for that number, are digits, and do not start with a
/// zero unless they are that zero alone.
pub proof fn digits_stand_for_their_number(n: nat)
    ensures
        number_in(decimal(n)) == n,
        decimal(n).len() > 0,
        forall|i: int| 0 <= i < decimal(n).len() ==> '0' <= #[trigger] decimal(n)[i] <= '9',
        n > 0 ==> decimal(n)[0] != '0',
    decreases n,
{
    if n < 10 {
        assert(decimal(n).drop_last() =~= seq![]);
        assert(number_in(seq![]) == 0);
    } else {
        digits_stand_for_their_number(n / 10);
        assert(decimal(n).drop_last() =~= decimal(n / 10));
    }
}

/// Padding adds spaces on one side, as many as the width asks for.
pub proof fn padding_adds_spaces(s: Seq<char>, width: int)
    ensures
        s.is_prefix_of(padded(s, width)),
        s.is_suffix_of(padded_left(s, width)),
        padded(s, width).len() == if width > s.len() {
            width
        } else {
            s.len() as int
        },
        padded_left(s, width).len() == padded(s, width).len(),
        forall|i: int| s.len() <= i < padded(s, width).len() ==> #[trigger] padded(s, width)[i]
            == ' ',
        forall|i: int|
            0 <= i < padded_left(s, width).len() - s.len() ==> #[trigger] padded_left(s, width)[i]
                == ' ',
{
}

/// One text comes before another where it is less at the first place at which
/// they differ, or where it ends there.
pub proof fn texts_are_ordered_by_their_first_difference(a: Seq<char>, b: Seq<char>)
    ensures
        text_lt(a, b) <==> exists|k: int|
            {
                &&& 0 <= k <= a.len()
                &&& k < b.len()
                &&& #[trigger] a.take(k) == b.take(k)
                &&& (k == a.len() || a[k] < b[k])
            },
        text_le(a, b) <==> a == b || text_lt(a, b),
    decreases a.len(),
{
    lemma_text_lt_total(a, b);
    if b.len() == 0 || a.len() == 0 {
        assert(a.take(0) =~= b.take(0));
    } else if a[0] != b[0] {
        assert(a.take(0) =~= b.take(0));
        assert forall|k: int| 0 <= k <= a.len() && k < b.len() && #[trigger] a.take(k) == b.take(
            k,
        ) implies k == 0 by {
            if k > 0 {
                assert(a.take(k)[0] == a[0]);
                assert(b.take(k)[0] == b[0]);
            }
        }
    } else {
        let x = a.drop_first();
        let y = b.drop_first();
        texts_are_ordered_by_their_first_difference(x, y);
        if text_lt(a, b) {
            let k = choose|k: int|
                {
                    &&& 0 <= k <= x.len()
                    &&& k < y.len()
                    &&& #[trigger] x.take(k) == y.take(k)
                    &&& (k == x.len() || x[k] < y[k])
                };
            assert(a.take(k + 1) =~= seq![a[0]] + x.take(k));
            assert(b.take(k + 1) =~= seq![b[0]] + y.take(k));
        }
        assert forall|k: int|
            {
                &&& 0 <= k <= a.len()
                &&& k < b.len()
                &&& #[trigger] a.take(k) == b.take(k)
                &&& (k == a.len() || a[k] < b[k])
            } implies text_lt(a, b) by {
            assert(k > 0);
            assert(x.take(k - 1) =~= a.take(k).drop_first());
            assert(y.take(k - 1) =~= b.take(k).drop_first());
            assert(x.take(k - 1) == y.take(k - 1));
        }
    }
}

/// Parts that are put together first stand where they would have stood.
pub proof fn lemma_regrouped(a: Seq<char>, b: Seq<char>, c: Seq<char>, d: Seq<char>)
    ensures
        a + (b + c + d) == a + b + c + d,
        a + (b + c) == a + b + c,
{
    assert(a + (b + c + d) =~= a + b + c + d);
    assert(a + (b + c) =~= a + b + c);
}

/// Of ASCII, the space and what stands from the tab to the carriage return are
/// white space, and nothing that can be seen is.
pub proof fn nothing_visible_is_white_space(c: char)
    ensures
        c as u32 <= 127 ==> (is_white_space(c) <==> c == ' ' || 9 <= c as u32 <= 13),
        0x21 <= c as u32 <= 0x7e ==> !is_white_space(c),
        is_white_space(c) ==> c as u32 <= 0x3000,
{
}

} // verus!

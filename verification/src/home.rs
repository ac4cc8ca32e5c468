//! The RecurOS home directory: where things lie in it, and what its files must
//! hold.

use vstd::prelude::*;
use vstd::string::StringExecFns;

use crate::slug::machine_slug;
use crate::text::{ends_with_char, lines_of, same_text, trim};
#[allow(unused_imports)]
use crate::slug::{in_word, is_safe_name, machine_name, machine_names_are_safe};
#[allow(unused_imports)]
use crate::text::{is_white_space, lemma_line_end_bounds, line_end, lines, text_of, texts, trim_end,
    trim_start, trimmed, without_carriage_return};

verus! {

/// What may go wrong with the home directory.
#[derive(Debug)]
pub enum HomeError {
    /// There is neither a `CTX_HOME` nor a home directory.
    NoHome,
    /// What the system reported of a path.
    Io { path: String, source: String },
}

impl HomeError {
    /// The text of [`HomeError::message`].
    pub open spec fn text(self) -> Seq<char> {
        match self {
            HomeError::NoHome => "cannot determine home directory; set CTX_HOME"@,
            HomeError::Io { path, source } => path@ + ": "@ + source@,
        }
    }

    /// Whether this is what the system reported of a path.
    pub open spec fn is_io(self, at: Seq<char>, cause: Seq<char>) -> bool {
        match self {
            HomeError::Io { path, source } => path@ == at && source@ == cause,
            HomeError::NoHome => false,
        }
    }

    /// The error in words.
    pub fn message(&self) -> (r: String)
        ensures
            r@ == self.text(),
    {
        match self {
            HomeError::NoHome => "cannot determine home directory; set CTX_HOME".to_owned(),
            HomeError::Io { path, source } => {
                let mut out = path.clone();
                out.append(": ");
                out.append(source.as_str());
                out
            },
        }
    }
}

/// What reading a text file gave.
#[derive(Debug)]
pub enum FileRead {
    Text(String),
    /// There is no such file.
    Missing,
    /// What the system reported.
    Failed(String),
}

impl FileRead {
    /// What the file holds; nothing where there is none.
    pub open spec fn contents(self) -> Seq<char> {
        match self {
            FileRead::Text(text) => text@,
            _ => seq![],
        }
    }
}

/// The path of `name` in the directory `base`.
pub open spec fn path_in(base: Seq<char>, name: Seq<char>) -> Seq<char> {
    if base.len() == 0 {
        name
    } else if base.last() == '/' {
        base + name
    } else {
        base + "/"@ + name
    }
}

/// The path of `name` in the directory `base`.
pub fn join_path(base: &str, name: &str) -> (r: String)
    ensures
        r@ == path_in(base@, name@),
{
    if base.is_empty() {
        return name.to_owned();
    }
    let mut out = base.to_owned();
    if !ends_with_char(base, '/') {
        out.append("/");
    }
    out.append(name);
    out
}

/// The RecurOS home: a single private git repository that holds the log.
#[derive(Debug)]
pub struct CtxHome {
    root: String,
}

impl View for CtxHome {
    type V = Seq<char>;

    closed spec fn view(&self) -> Seq<char> {
        self.root@
    }
}

impl CtxHome {
    /// The home that `CTX_HOME` names, if it names one, otherwise `ctx` in the
    /// user's home directory.
    pub fn locate(ctx_home: Option<String>, home_dir: Option<String>) -> (r: Result<Self, HomeError>)
        ensures
            match located(text_of(ctx_home), text_of(home_dir)) {
                Some(root) => r matches Ok(home) && home@ == root,
                None => r is Err,
            },
            match (text_of(ctx_home), text_of(home_dir)) {
                (Some(named), _) if named.len() > 0 => r matches Ok(home) && home@ == named,
                (_, Some(dir)) => r matches Ok(home) && home@ == path_in(dir, "ctx"@),
                (_, None) => r == Err::<CtxHome, HomeError>(HomeError::NoHome),
            },
    {
        match ctx_home {
            Some(named) => if !named.as_str().is_empty() {
                return Ok(CtxHome { root: named });
            },
            None => {},
        }
        match home_dir {
            Some(dir) => Ok(CtxHome { root: join_path(dir.as_str(), "ctx") }),
            None => Err(HomeError::NoHome),
        }
    }

    /// The home at this path.
    pub fn at(root: String) -> (r: Self)
        ensures
            r@ == root@,
    {
        CtxHome { root }
    }

    /// The home's path.
    pub fn root(&self) -> (r: &str)
        ensures
            r@ == self@,
    {
        self.root.as_str()
    }

    /// Where the log lies.
    pub fn log_dir(&self) -> (r: String)
        ensures
            r@ == path_in(self@, "log"@),
    {
        join_path(self.root.as_str(), "log")
    }

    /// Where references lie.
    pub fn refs_dir(&self) -> (r: String)
        ensures
            r@ == path_in(self@, "refs"@),
    {
        join_path(self.root.as_str(), "refs")
    }

    /// Where what can be rebuilt lies.
    pub fn cache_dir(&self) -> (r: String)
        ensures
            r@ == path_in(self@, ".cache"@),
    {
        join_path(self.root.as_str(), ".cache")
    }

    /// Where the index lies.
    pub fn db_path(&self) -> (r: String)
        ensures
            r@ == path_in(path_in(self@, ".cache"@), "ctx.db"@),
    {
        join_path(self.cache_dir().as_str(), "ctx.db")
    }

    /// A file or directory of the home.
    pub fn file(&self, name: &str) -> (r: String)
        ensures
            r@ == path_in(self@, name@),
    {
        join_path(self.root.as_str(), name)
    }

    /// The directories that a home consists of.
    pub fn layout(&self) -> (r: Vec<String>)
        ensures
            texts(r@) == seq![
                path_in(self@, "log"@),
                path_in(self@, "refs"@),
                path_in(self@, ".cache"@),
                path_in(self@, "packs"@),
            ],
    {
        let mut dirs: Vec<String> = Vec::new();
        dirs.push(self.log_dir());
        dirs.push(self.refs_dir());
        dirs.push(self.cache_dir());
        dirs.push(self.file("packs"));
        proof {
            let expected = seq![
                path_in(self@, "log"@),
                path_in(self@, "refs"@),
                path_in(self@, ".cache"@),
                path_in(self@, "packs"@),
            ];
            assert(texts(dirs@) =~= expected);
        }
        dirs
    }
}

// ---- lines that a file must hold ----

/// Whether one of the lines of `s` is `line`, white space around it aside.
pub open spec fn has_line(s: Seq<char>, line: Seq<char>) -> bool {
    exists|i: int| 0 <= i < lines(s).len() && trimmed(#[trigger] lines(s)[i]) == line
}

/// Those of `required` that `s` has no line for.
pub open spec fn missing_lines(s: Seq<char>, required: Seq<Seq<char>>) -> Seq<Seq<char>>
    decreases required.len(),
{
    if required.len() == 0 {
        seq![]
    } else {
        let before = missing_lines(s, required.drop_last());
        if has_line(s, required.last()) {
            before
        } else {
            before.push(required.last())
        }
    }
}

/// `s` with its last line ended.
pub open spec fn with_last_line_ended(s: Seq<char>) -> Seq<char> {
    if s.len() > 0 && s.last() != '\n' {
        s.push('\n')
    } else {
        s
    }
}

/// Lines one below the other.
pub open spec fn as_lines(parts: Seq<Seq<char>>) -> Seq<char>
    decreases parts.len(),
{
    if parts.len() == 0 {
        seq![]
    } else {
        (as_lines(parts.drop_last()) + parts.last()).push('\n')
    }
}

/// `s` with those of `required` that it has no line for below it.
pub open spec fn with_lines(s: Seq<char>, required: Seq<Seq<char>>) -> Seq<char> {
    if missing_lines(s, required).len() == 0 {
        s
    } else {
        with_last_line_ended(s) + as_lines(missing_lines(s, required))
    }
}

fn is_line_of(have: &Vec<String>, line: &str) -> (r: bool)
    ensures
        r == exists|i: int| 0 <= i < have@.len() && trimmed(#[trigger] have@[i]@) == line@,
{
    let mut i: usize = 0;
    while i < have.len()
        invariant
            i <= have@.len(),
            forall|j: int| 0 <= j < i ==> trimmed(#[trigger] have@[j]@) != line@,
        decreases have@.len() - i,
    {
        if same_text(trim(have[i].as_str()).as_str(), line) {
            return true;
        }
        i += 1;
    }
    false
}

/// The text that a file with this text must be given so that it has a line for
/// each of `required`; nothing where it has them all.
pub fn ensure_lines(existing: &str, required: &Vec<String>) -> (r: Option<String>)
    ensures
        r is None <==> missing_lines(existing@, texts(required@)).len() == 0,
        r matches Some(t) ==> t@ == with_lines(existing@, texts(required@)),
{
    let have = lines_of(existing);
    let ghost all = texts(required@);
    let mut missing: Vec<String> = Vec::new();
    let mut i: usize = 0;
    assert(texts(missing@) =~= missing_lines(existing@, all.take(0)));
    while i < required.len()
        invariant
            i <= required@.len(),
            all == texts(required@),
            texts(have@) == lines(existing@),
            texts(missing@) == missing_lines(existing@, all.take(i as int)),
        decreases required@.len() - i,
    {
        let found = is_line_of(&have, required[i].as_str());
        proof {
            let next = all.take(i + 1);
            assert(next.drop_last() =~= all.take(i as int));
            assert(next.last() == required@[i as int]@);
            assert(found == has_line(existing@, next.last())) by {
                if found {
                    let j = choose|j: int|
                        0 <= j < have@.len() && trimmed(#[trigger] have@[j]@) == next.last();
                    assert(texts(have@)[j] == lines(existing@)[j]);
                }
                if has_line(existing@, next.last()) {
                    let j = choose|j: int|
                        0 <= j < lines(existing@).len() && trimmed(#[trigger] lines(existing@)[j])
                            == next.last();
                    assert(texts(have@)[j] == have@[j]@);
                }
            }
        }
        let ghost before = texts(missing@);
        if !found {
            missing.push(required[i].clone());
            assert(texts(missing@) =~= before.push(required@[i as int]@));
        }
        i += 1;
    }
    assert(all.take(all.len() as int) =~= all);
    let ghost rest = texts(missing@);
    if missing.len() == 0 {
        return None;
    }
    let mut out = existing.to_owned();
    if !existing.is_empty() && !ends_with_char(existing, '\n') {
        out.push('\n');
    }
    let ghost start = out@;
    let mut j: usize = 0;
    assert(start + as_lines(rest.take(0)) =~= start);
    while j < missing.len()
        invariant
            j <= missing@.len(),
            rest == texts(missing@),
            out@ == start + as_lines(rest.take(j as int)),
        decreases missing@.len() - j,
    {
        out.append(missing[j].as_str());
        out.push('\n');
        proof {
            let next = rest.take(j + 1);
            assert(next.drop_last() =~= rest.take(j as int));
            assert(next.last() == missing@[j as int]@);
            assert(out@ =~= start + as_lines(next));
        }
        j += 1;
    }
    assert(rest.take(rest.len() as int) =~= rest);
    Some(out)
}

/// The lines that `.gitignore` must hold. `.machine` names this machine's
/// shard: committed, it would make a second machine write into the first one's.
pub open spec fn ignored() -> Seq<Seq<char>> {
    seq![".cache/"@, ".machine"@, ".node/"@]
}

/// The text that `.gitignore`, at `path`, must be given; nothing where it is
/// as it should be.
fn ensure_gitignore(read: FileRead, path: &str) -> (r: Result<Option<String>, HomeError>)
    ensures
        read is Failed <==> r is Err,
        r matches Err(e) ==> e.is_io(path@, read->Failed_0@),
        r matches Ok(t) ==> (t is Some <==> missing_lines(read.contents(), ignored()).len() > 0),
        r matches Ok(Some(t)) ==> t@ == with_lines(read.contents(), ignored()),
{
    let existing = match read {
        FileRead::Text(text) => text,
        FileRead::Missing => String::new(),
        FileRead::Failed(cause) => {
            return Err(HomeError::Io { path: path.to_owned(), source: cause });
        },
    };
    assert(existing@ =~= read.contents());
    let mut required: Vec<String> = Vec::new();
    required.push(".cache/".to_owned());
    required.push(".machine".to_owned());
    required.push(".node/".to_owned());
    assert(texts(required@) =~= ignored());
    Ok(ensure_lines(existing.as_str(), &required))
}

/// The text that `.gitattributes` is given where there is none. Shards already
/// keep concurrent appends in different files; should two clones of a machine
/// still touch one, a union merge keeps the lines of both.
fn ensure_gitattributes(present: bool) -> (r: Option<String>)
    ensures
        text_of(r) == if present {
            None
        } else {
            Some("* text=auto eol=lf\nlog/**/*.jsonl merge=union\n"@)
        },
{
    if present {
        None
    } else {
        Some("* text=auto eol=lf\nlog/**/*.jsonl merge=union\n".to_owned())
    }
}

/// What is left to do once a home's directories are there.
#[derive(Debug)]
pub struct Ensured {
    /// Whether the home was not there before.
    pub created: bool,
    /// The text to give to `.gitignore`.
    pub gitignore: Option<String>,
    /// The text to give to `.gitattributes`.
    pub gitattributes: Option<String>,
    /// Whether to make it a git repository.
    pub init_git: bool,
}

impl CtxHome {
    /// What is left to do once the home's directories are there, by what was
    /// found: whether the log was there before, what `.gitignore` holds, and
    /// whether `.gitattributes` and `.git` are there. No file that the user
    /// may have edited is overwritten.
    pub fn ensure(&self, had_log: bool, gitignore: FileRead, has_attributes: bool, has_git: bool)
        -> (r: Result<Ensured, HomeError>)
        ensures
            r matches Ok(e) ==> e@ == to_ensure(
                had_log,
                gitignore.contents(),
                has_attributes,
                has_git,
            ),
            gitignore is Failed <==> r is Err,
            r matches Err(e) ==> e.is_io(path_in(self@, ".gitignore"@), gitignore->Failed_0@),
            r matches Ok(e) ==> e.created == !had_log && e.init_git == !has_git,
            r matches Ok(e) ==> text_of(e.gitignore) == if missing_lines(
                gitignore.contents(),
                ignored(),
            ).len() == 0 {
                None
            } else {
                Some(with_lines(gitignore.contents(), ignored()))
            },
            r matches Ok(e) ==> text_of(e.gitattributes) == if has_attributes {
                None
            } else {
                Some("* text=auto eol=lf\nlog/**/*.jsonl merge=union\n"@)
            },
    {
        let path = self.file(".gitignore");
        match ensure_gitignore(gitignore, path.as_str()) {
            Ok(gitignore) => Ok(
                Ensured {
                    created: !had_log,
                    gitignore,
                    gitattributes: ensure_gitattributes(has_attributes),
                    init_git: !has_git,
                },
            ),
            Err(e) => Err(e),
        }
    }
}

// ---- this machine's name ----

/// `gethostname::gethostname`: the host name of this machine. Nothing is
/// stated of it: it is whatever the machine is called.
#[verifier::external_body]
fn host_name() -> (r: String) {
    gethostname::gethostname().to_string_lossy().into_owned()
}

impl CtxHome {
    /// The name of this machine's shard, and the text to write to `.machine` where
    /// it does not say. `hostname` is what the machine is called.
    pub fn machine_id_for(&self, read: FileRead, hostname: &str) -> (r: Result<
        (String, Option<String>),
        HomeError,
    >)
        ensures
            r is Err <==> read is Failed,
            r matches Ok((id, write)) ==> (id@, text_of(write)) == machine_naming(
                read.contents(),
                hostname@,
            ),
            match read {
                FileRead::Text(text) if trimmed(text@).len() > 0 => r matches Ok((id, write)) && id@
                    == trimmed(text@) && write is None,
                FileRead::Failed(cause) => r matches Err(e) && e.is_io(
                    path_in(self@, ".machine"@),
                    cause@,
                ),
                _ => r matches Ok((id, write)) && id@ == machine_name(hostname@) && text_of(write)
                    == Some(machine_name(hostname@).push('\n')),
            },
    {
        match read {
            FileRead::Text(text) => {
                let id = trim(text.as_str());
                if !id.as_str().is_empty() {
                    return Ok((id, None));
                }
            },
            FileRead::Missing => {},
            FileRead::Failed(cause) => {
                return Err(HomeError::Io { path: self.file(".machine"), source: cause });
            },
        }
        let id = machine_slug(hostname);
        let mut text = id.clone();
        text.push('\n');
        Ok((id, Some(text)))
    }

    /// The name of this machine's shard, and the text to write to `.machine` where
    /// it does not say.
    pub fn machine_id(&self, read: FileRead) -> (r: Result<
        (String, Option<String>),
        HomeError,
    >)
        ensures
            match read {
                FileRead::Text(text) if trimmed(text@).len() > 0 => r matches Ok((id, write)) && id@
                    == trimmed(text@) && write is None,
                FileRead::Failed(cause) => r matches Err(e) && e.is_io(
                    path_in(self@, ".machine"@),
                    cause@,
                ),
                _ => r matches Ok((id, write)) && is_safe_name(id@, false) && id@ != "cloud"@
                    && text_of(write) == Some(id@.push('\n')),
            },
    {
        let hostname = host_name();
        proof {
            machine_names_are_safe(hostname@);
        }
        self.machine_id_for(read, hostname.as_str())
    }
}

// ---- laws ----

proof fn lemma_trim_start_push(s: Seq<char>, w: char)
    requires
        is_white_space(w),
    ensures
        trim_start(s.push(w)) == if trim_start(s).len() == 0 {
            seq![]
        } else {
            trim_start(s).push(w)
        },
    decreases s.len(),
{
    let more = s.push(w);
    if s.len() == 0 {
        assert(more.drop_first() =~= s);
        assert(trim_start(s) =~= seq![]);
    } else if is_white_space(s[0]) {
        assert(more[0] == s[0]);
        assert(more.drop_first() =~= s.drop_first().push(w));
        lemma_trim_start_push(s.drop_first(), w);
    } else {
        assert(more[0] == s[0]);
    }
}

proof fn lemma_trimmed_push(s: Seq<char>, w: char)
    requires
        is_white_space(w),
    ensures
        trimmed(s.push(w)) == trimmed(s),
{
    lemma_trim_start_push(s, w);
    let head = trim_start(s);
    if head.len() == 0 {
        assert(head =~= seq![]);
    } else {
        assert(head.push(w).drop_last() =~= head);
    }
}

proof fn lemma_trimmed_without_carriage_return(s: Seq<char>)
    ensures
        trimmed(without_carriage_return(s)) == trimmed(s),
{
    if s.len() > 0 && s.last() == '\r' {
        lemma_trimmed_push(s.drop_last(), '\r');
        assert(s.drop_last().push('\r') =~= s);
    }
}

proof fn lemma_trim_end_last(s: Seq<char>)
    ensures
        trim_end(s).len() > 0 ==> !is_white_space(trim_end(s).last()),
    decreases s.len(),
{
    if s.len() > 0 && is_white_space(s.last()) {
        lemma_trim_end_last(s.drop_last());
    }
}

/// Where the first line feed stands.
proof fn lemma_line_end_is(s: Seq<char>, e: int)
    requires
        0 <= e <= s.len(),
        e < s.len() ==> s[e] == '\n',
        forall|i: int| 0 <= i < e ==> s[i] != '\n',
    ensures
        line_end(s) == e,
{
    lemma_line_end_bounds(s);
    if line_end(s) < e {
        assert(s[line_end(s)] == '\n');
    }
    if e < line_end(s) {
        assert(s[e] != '\n');
    }
}

/// The lines of ended lines and what follows them.
proof fn lemma_lines_append(a: Seq<char>, b: Seq<char>)
    requires
        a.len() > 0 ==> a.last() == '\n',
    ensures
        lines(a + b) == lines(a) + lines(b),
    decreases a.len(),
{
    if a.len() == 0 {
        assert(a + b =~= b);
        assert(lines(a) + lines(b) =~= lines(b));
    } else {
        lemma_line_end_bounds(a);
        let e = line_end(a);
        assert(e < a.len()) by {
            if e == a.len() {
                assert(a[a.len() - 1] != '\n');
            }
        }
        let all = a + b;
        lemma_line_end_is(all, e);
        assert(all.take(e) =~= a.take(e));
        let rest = a.skip(e + 1);
        assert(all.skip(e + 1) =~= rest + b);
        assert(rest.len() > 0 ==> rest.last() == a.last());
        lemma_lines_append(rest, b);
        assert(lines(all) =~= lines(a) + lines(b));
    }
}

/// The lines of a text whose last line is ended are the same, a carriage
/// return at the end aside.
proof fn lemma_lines_ended(a: Seq<char>)
    requires
        a.len() > 0,
        a.last() != '\n',
    ensures
        lines(a.push('\n')).len() == lines(a).len(),
        forall|i: int|
            0 <= i < lines(a).len() ==> trimmed(#[trigger] lines(a.push('\n'))[i]) == trimmed(
                lines(a)[i],
            ),
    decreases a.len(),
{
    lemma_line_end_bounds(a);
    let e = line_end(a);
    let ended = a.push('\n');
    lemma_line_end_is(ended, e);
    if e == a.len() {
        assert(ended.take(e) =~= a);
        assert(ended.skip(e + 1) =~= seq![]);
        assert(lines(Seq::<char>::empty()) =~= seq![]);
        assert(lines(ended) =~= seq![without_carriage_return(a)]);
        lemma_trimmed_without_carriage_return(a);
    } else {
        let rest = a.skip(e + 1);
        assert(ended.take(e) =~= a.take(e));
        assert(rest.len() > 0) by {
            if rest.len() == 0 {
                assert(a.last() == a[e]);
            }
        }
        assert(rest.last() == a.last());
        assert(ended.skip(e + 1) =~= rest.push('\n'));
        lemma_lines_ended(rest);
        assert forall|i: int| 0 <= i < lines(a).len() implies trimmed(#[trigger] lines(ended)[i])
            == trimmed(lines(a)[i]) by {
            if i > 0 {
                assert(lines(ended)[i] == lines(rest.push('\n'))[i - 1]);
                assert(lines(a)[i] == lines(rest)[i - 1]);
            }
        }
    }
}

/// A text that can stand as a line of its own: no line feed in it and no white
/// space around it.
pub open spec fn is_line(s: Seq<char>) -> bool {
    trimmed(s) == s && forall|i: int| 0 <= i < s.len() ==> #[trigger] s[i] != '\n'
}

proof fn lemma_as_lines(parts: Seq<Seq<char>>)
    requires
        forall|i: int| 0 <= i < parts.len() ==> is_line(#[trigger] parts[i]),
    ensures
        as_lines(parts).len() > 0 ==> as_lines(parts).last() == '\n',
        lines(as_lines(parts)) == parts,
    decreases parts.len(),
{
    if parts.len() == 0 {
        assert(lines(seq![]) =~= parts);
    } else {
        let rest = parts.drop_last();
        let last = parts.last();
        assert(is_line(parts[parts.len() - 1]));
        assert forall|i: int| 0 <= i < rest.len() implies is_line(#[trigger] rest[i]) by {
            assert(parts[i] == rest[i]);
        }
        lemma_as_lines(rest);
        let ended = last.push('\n');
        assert(as_lines(parts) =~= as_lines(rest) + ended);
        lemma_lines_append(as_lines(rest), ended);
        lemma_line_end_is(ended, last.len() as int);
        assert(ended.take(last.len() as int) =~= last);
        assert(ended.skip(last.len() as int + 1) =~= seq![]);
        lemma_trim_end_last(trim_start(last));
        assert(without_carriage_return(last) == last);
        assert(lines(Seq::<char>::empty()) =~= seq![]);
        assert(lines(ended) =~= seq![last]);
        assert(lines(as_lines(parts)) =~= parts);
    }
}

proof fn lemma_missing_lines(s: Seq<char>, required: Seq<Seq<char>>)
    ensures
        forall|i: int|
            0 <= i < required.len() ==> has_line(s, #[trigger] required[i]) || missing_lines(
                s,
                required,
            ).contains(required[i]),
        forall|i: int|
            0 <= i < missing_lines(s, required).len() ==> required.contains(
                #[trigger] missing_lines(s, required)[i],
            ),
        (forall|i: int| 0 <= i < required.len() ==> has_line(s, #[trigger] required[i]))
            ==> missing_lines(s, required).len() == 0,
    decreases required.len(),
{
    if required.len() > 0 {
        let rest = required.drop_last();
        let last = required.last();
        lemma_missing_lines(s, rest);
        let before = missing_lines(s, rest);
        let after = missing_lines(s, required);
        assert forall|i: int| 0 <= i < required.len() implies has_line(s, #[trigger] required[i])
            || after.contains(required[i]) by {
            if i < rest.len() {
                assert(required[i] == rest[i]);
                if before.contains(rest[i]) {
                    let j = choose|j: int| 0 <= j < before.len() && before[j] == rest[i];
                    assert(after[j] == rest[i]);
                }
            } else if !has_line(s, last) {
                assert(after[after.len() - 1] == last);
            }
        }
        assert forall|i: int| 0 <= i < after.len() implies required.contains(#[trigger] after[i]) by {
            if i < before.len() {
                assert(after[i] == before[i]);
                let j = choose|j: int| 0 <= j < rest.len() && rest[j] == before[i];
                assert(required[j] == before[i]);
            } else {
                assert(required[required.len() - 1] == after[i]);
            }
        }
        if forall|i: int| 0 <= i < required.len() ==> has_line(s, #[trigger] required[i]) {
            assert forall|i: int| 0 <= i < rest.len() implies has_line(s, #[trigger] rest[i]) by {
                assert(required[i] == rest[i]);
            }
            assert(has_line(s, required[required.len() - 1]));
        }
    }
}

/// Making sure that a file has its lines keeps all that was in it, gives it
/// every required line, and changes nothing the second time.
pub proof fn ensuring_lines_is_safe(s: Seq<char>, required: Seq<Seq<char>>)
    requires
        forall|i: int| 0 <= i < required.len() ==> is_line(#[trigger] required[i]),
    ensures
        s.is_prefix_of(with_lines(s, required)),
        forall|i: int|
            0 <= i < required.len() ==> has_line(
                with_lines(s, required),
                #[trigger] required[i],
            ),
        missing_lines(with_lines(s, required), required).len() == 0,
        with_lines(with_lines(s, required), required) == with_lines(s, required),
{
    lemma_missing_lines(s, required);
    let missing = missing_lines(s, required);
    let after = with_lines(s, required);
    if missing.len() == 0 {
        assert(s =~= s.subrange(0, s.len() as int));
        assert forall|i: int| 0 <= i < required.len() implies has_line(
            after,
            #[trigger] required[i],
        ) by {
            assert(!missing.contains(required[i]));
        }
    } else {
        let front = with_last_line_ended(s);
        assert forall|i: int| 0 <= i < missing.len() implies is_line(#[trigger] missing[i]) by {
            let j = choose|j: int| 0 <= j < required.len() && required[j] == missing[i];
            assert(is_line(required[j]));
        }
        lemma_as_lines(missing);
        lemma_lines_append(front, as_lines(missing));
        assert(lines(after) == lines(front) + missing);
        assert(s =~= after.subrange(0, s.len() as int));
        if s.len() > 0 && s.last() != '\n' {
            lemma_lines_ended(s);
        }
        assert forall|i: int| 0 <= i < required.len() implies has_line(
            after,
            #[trigger] required[i],
        ) by {
            let line = required[i];
            if has_line(s, line) {
                let j = choose|j: int|
                    0 <= j < lines(s).len() && trimmed(#[trigger] lines(s)[j]) == line;
                assert(lines(after)[j] == lines(front)[j]);
                assert(trimmed(lines(front)[j]) == line);
                assert(trimmed(lines(after)[j]) == line);
            } else {
                let j = choose|j: int| 0 <= j < missing.len() && missing[j] == line;
                let at = lines(front).len() + j;
                assert(lines(after)[at] == missing[j]);
                assert(is_line(line));
                assert(trimmed(lines(after)[at]) == line);
            }
        }
    }
    lemma_missing_lines(after, required);
}

/// The lines of `.gitignore` can stand as lines, so that making sure of them
/// is safe.
pub proof fn ignored_lines_are_lines()
    ensures
        forall|i: int| 0 <= i < ignored().len() ==> is_line(#[trigger] ignored()[i]),
{
    reveal_strlit(".cache/");
    reveal_strlit(".machine");
    reveal_strlit(".node/");
    assert forall|i: int| 0 <= i < ignored().len() implies is_line(#[trigger] ignored()[i]) by {
        let line = ignored()[i];
        assert(!is_white_space(line[0]) && !is_white_space(line.last()));
        assert(trim_start(line) == line);
        assert(trim_end(line) == line);
    }
}

/// What is written to `.machine` reads back as the machine's name, whatever
/// the machine is called by then.
pub proof fn a_machine_keeps_its_name(hostname: Seq<char>)
    ensures
        trimmed(machine_name(hostname).push('\n')) == machine_name(hostname),
        trimmed(machine_name(hostname).push('\n')).len() > 0,
{
    machine_names_are_safe(hostname);
    let name = machine_name(hostname);
    lemma_trimmed_push(name, '\n');
    assert(in_word(name[0], false) || name[0] == '-');
    assert(in_word(name[name.len() - 1], false) || name[name.len() - 1] == '-');
    assert(trim_start(name) == name);
    assert(trim_end(name) == name);
}

/// A name in a directory stands behind it, with one slash between the two; in no
/// directory it is the name itself.
pub proof fn path_stays_within(base: Seq<char>, name: Seq<char>)
    ensures
        base.is_prefix_of(path_in(base, name)),
        name.is_suffix_of(path_in(base, name)),
        path_in(Seq::<char>::empty(), name) == name,
        base.len() > 0 && base.last() != '/' ==> path_in(base, name) == base.push('/') + name,
        base.len() > 0 && base.last() == '/' ==> path_in(base, name) == base + name,
{
    reveal_strlit("/");
    assert(base + "/"@ =~= base.push('/'));
    let path = path_in(base, name);
    assert(path.take(base.len() as int) =~= base);
    assert(path.skip(path.len() - name.len()) =~= name);
}

/// Where the home is; nothing where it cannot be told.
pub open spec fn located(named: Option<Seq<char>>, home_dir: Option<Seq<char>>) -> Option<
    Seq<char>,
> {
    match (named, home_dir) {
        (Some(path), _) if path.len() > 0 => Some(path),
        (_, Some(dir)) => Some(path_in(dir, "ctx"@)),
        (_, None) => None,
    }
}

/// A home that is named is taken, unless the name is empty; otherwise it lies in
/// the user's own directory. It cannot be told only where neither is known.
pub proof fn a_named_home_is_taken(
    path: Seq<char>,
    named: Option<Seq<char>>,
    home_dir: Option<Seq<char>>,
)
    ensures
        path.len() > 0 ==> located(Some(path), home_dir) == Some(path),
        located(Some(Seq::<char>::empty()), home_dir) == located(None, home_dir),
        located(None, Some(path)) == Some(path_in(path, "ctx"@)),
        located(named, home_dir) is None <==> (named is None || named->Some_0.len() == 0)
            && home_dir is None,
{
}

/// What is left to do for a home, as a value.
pub struct EnsuredView {
    pub created: bool,
    pub gitignore: Option<Seq<char>>,
    pub gitattributes: Option<Seq<char>>,
    pub init_git: bool,
}

impl View for Ensured {
    type V = EnsuredView;

    open spec fn view(&self) -> EnsuredView {
        EnsuredView {
            created: self.created,
            gitignore: text_of(self.gitignore),
            gitattributes: text_of(self.gitattributes),
            init_git: self.init_git,
        }
    }
}

/// What is left to do for a home.
pub open spec fn to_ensure(
    had_log: bool,
    gitignore: Seq<char>,
    has_attributes: bool,
    has_git: bool,
) -> EnsuredView {
    EnsuredView {
        created: !had_log,
        gitignore: if missing_lines(gitignore, ignored()).len() == 0 {
            None
        } else {
            Some(with_lines(gitignore, ignored()))
        },
        gitattributes: if has_attributes {
            None
        } else {
            Some("* text=auto eol=lf\nlog/**/*.jsonl merge=union\n"@)
        },
        init_git: !has_git,
    }
}

/// What is done for a home is done once: after it nothing is left to do. What
/// the user wrote to `.gitignore` stays, and every line that must be there is.
pub proof fn a_home_is_ensured_once(
    had_log: bool,
    gitignore: Seq<char>,
    has_attributes: bool,
    has_git: bool,
)
    ensures
        ({
            let first = to_ensure(had_log, gitignore, has_attributes, has_git);
            let after = match first.gitignore {
                Some(text) => text,
                None => gitignore,
            };
            let again = to_ensure(true, after, true, true);
            &&& gitignore.is_prefix_of(after)
            &&& forall|i: int|
                0 <= i < ignored().len() ==> has_line(after, #[trigger] ignored()[i])
            &&& again.gitignore is None
            &&& again.gitattributes is None
            &&& !again.created
            &&& !again.init_git
            &&& first.created == !had_log
            &&& first.init_git == !has_git
            &&& first.gitattributes is None <==> has_attributes
        }),
{
    ignored_lines_are_lines();
    ensuring_lines_is_safe(gitignore, ignored());
    let missing = missing_lines(gitignore, ignored());
    assert(gitignore.take(gitignore.len() as int) =~= gitignore);
    if missing.len() == 0 {
        assert(with_lines(gitignore, ignored()) == gitignore);
    }
}

/// The lines that are missing are those required ones that are not there, each
/// in its order; added lines stand one below the other, each ended.
pub proof fn only_missing_lines_are_added(
    s: Seq<char>,
    required: Seq<Seq<char>>,
    more: Seq<char>,
)
    ensures
        missing_lines(s, required.push(more)) == if has_line(s, more) {
            missing_lines(s, required)
        } else {
            missing_lines(s, required).push(more)
        },
        missing_lines(s, seq![]) == Seq::<Seq<char>>::empty(),
        as_lines(required.push(more)) == as_lines(required) + more.push('\n'),
        as_lines(Seq::<Seq<char>>::empty()) == Seq::<char>::empty(),
        has_line(s, more) <==> exists|i: int|
            0 <= i < lines(s).len() && trimmed(#[trigger] lines(s)[i]) == more,
{
    assert(required.push(more).drop_last() =~= required);
    assert((as_lines(required) + more).push('\n') =~= as_lines(required) + more.push('\n'));
}

/// A machine's name and what is to be written of it, by what `.machine` holds.
pub open spec fn machine_naming(kept: Seq<char>, hostname: Seq<char>) -> (
    Seq<char>,
    Option<Seq<char>>,
) {
    if trimmed(kept).len() > 0 {
        (trimmed(kept), None)
    } else {
        (machine_name(hostname), Some(machine_name(hostname).push('\n')))
    }
}

/// A machine is named once: what it wrote down gives the same name again,
/// whatever the machine is called by then, and nothing more is written. A name
/// that somebody wrote there is taken.
pub proof fn a_machine_is_named_once(
    kept: Seq<char>,
    hostname: Seq<char>,
    later: Seq<char>,
)
    ensures
        ({
            let (name, write) = machine_naming(kept, hostname);
            let after = match write {
                Some(text) => text,
                None => kept,
            };
            &&& machine_naming(after, later) == (name, None::<Seq<char>>)
            &&& trimmed(kept).len() > 0 ==> name == trimmed(kept) && write is None
            &&& trimmed(kept).len() == 0 ==> name == machine_name(hostname) && write is Some
        }),
{
    a_machine_keeps_its_name(hostname);
}

/// A text whose last line is ended is left alone, and so is an empty one; any
/// other gets the end of its line and nothing else.
pub proof fn only_an_open_line_is_ended(s: Seq<char>)
    ensures
        with_last_line_ended(Seq::<char>::empty()) == Seq::<char>::empty(),
        with_last_line_ended(s.push('\n')) == s.push('\n'),
        s.len() > 0 && s.last() != '\n' ==> with_last_line_ended(s) == s.push('\n'),
        s.is_prefix_of(with_last_line_ended(s)),
{
    assert(with_last_line_ended(s).take(s.len() as int) =~= s);
}

/// What the system reported of a path is told with that path before it, and it is
/// told of no other path and with no other words.
pub proof fn an_error_names_its_path(path: String, source: String, at: Seq<char>, cause: Seq<char>)
    ensures
        path@.is_prefix_of((HomeError::Io { path, source }).text()),
        source@.is_suffix_of((HomeError::Io { path, source }).text()),
        (HomeError::Io { path, source }).is_io(at, cause) <==> at == path@ && cause == source@,
        !HomeError::NoHome.is_io(at, cause),
{
    let text = (HomeError::Io { path, source }).text();
    assert(text.take(path@.len() as int) =~= path@);
    assert(text.skip(text.len() - source@.len()) =~= source@);
}

} // verus!

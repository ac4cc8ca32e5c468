//! JSON values as the relay sees them: it reads a request's shape and its
//! `id`, and carries the rest through.

use vstd::prelude::*;

use crate::text::same_text;

verus! {

/// A JSON value. An object lists its members, and a number that is no `i64` is
/// kept as it was written.
#[derive(Debug)]
pub enum Json {
    Null,
    Bool(bool),
    Int(i64),
    Number(String),
    Text(String),
    Array(Vec<Json>),
    Object(Vec<(String, Json)>),
}

/// What a JSON value says.
pub enum JsonView {
    Null,
    Bool(bool),
    Int(int),
    Number(Seq<char>),
    Text(Seq<char>),
    Array(Seq<JsonView>),
    Object(Seq<(Seq<char>, JsonView)>),
}

impl View for Json {
    type V = JsonView;

    open spec fn view(&self) -> JsonView
        decreases self,
    {
        match self {
            Json::Null => JsonView::Null,
            Json::Bool(b) => JsonView::Bool(*b),
            Json::Int(n) => JsonView::Int(*n as int),
            Json::Number(s) => JsonView::Number(s@),
            Json::Text(s) => JsonView::Text(s@),
            Json::Array(items) => JsonView::Array(
                Seq::new(
                    items@.len(),
                    |i: int|
                        if 0 <= i < items@.len() {
                            items@[i].view()
                        } else {
                            JsonView::Null
                        },
                ),
            ),
            Json::Object(members) => JsonView::Object(
                Seq::new(
                    members@.len(),
                    |i: int|
                        (
                            members@[i].0@,
                            if 0 <= i < members@.len() {
                                members@[i].1.view()
                            } else {
                                JsonView::Null
                            },
                        ),
                ),
            ),
        }
    }
}

/// What the values of a list say.
pub open spec fn values(items: Seq<Json>) -> Seq<JsonView> {
    Seq::new(items.len(), |i: int| items[i]@)
}

/// What the members of an object say.
pub open spec fn members_of(members: Seq<(String, Json)>) -> Seq<(Seq<char>, JsonView)> {
    Seq::new(members.len(), |i: int| (members[i].0@, members[i].1@))
}

/// The value of the first of `members` that is called `key`.
pub open spec fn lookup(members: Seq<(Seq<char>, JsonView)>, key: Seq<char>) -> Option<JsonView>
    decreases members.len(),
{
    if members.len() == 0 {
        None
    } else if members[0].0 == key {
        Some(members[0].1)
    } else {
        lookup(members.drop_first(), key)
    }
}

impl JsonView {
    /// The member of an object that is called `key`; nothing else has one.
    pub open spec fn field(self, key: Seq<char>) -> Option<JsonView> {
        match self {
            JsonView::Object(members) => lookup(members, key),
            _ => None,
        }
    }
}

impl Json {
    /// A list of values.
    pub fn array(items: Vec<Json>) -> (r: Json)
        ensures
            r@ == JsonView::Array(values(items@)),
    {
        let r = Json::Array(items);
        assert(r@->Array_0 =~= values(items@));
        r
    }

    /// An object with these members.
    pub fn object(members: Vec<(String, Json)>) -> (r: Json)
        ensures
            r@ == JsonView::Object(members_of(members@)),
    {
        let r = Json::Object(members);
        assert(r@->Object_0 =~= members_of(members@));
        r
    }

    /// The same value again.
    pub fn copy(&self) -> (r: Json)
        ensures
            r@ == self@,
        decreases self,
    {
        match self {
            Json::Null => Json::Null,
            Json::Bool(b) => Json::Bool(*b),
            Json::Int(n) => Json::Int(*n),
            Json::Number(s) => Json::Number(s.clone()),
            Json::Text(s) => Json::Text(s.clone()),
            Json::Array(items) => {
                let mut out: Vec<Json> = Vec::new();
                let mut i: usize = 0;
                while i < items.len()
                    invariant
                        i <= items@.len(),
                        self matches Json::Array(v) && v == items,
                        out@.len() == i,
                        forall|j: int| 0 <= j < i ==> (#[trigger] out@[j])@ == items@[j]@,
                    decreases items@.len() - i,
                {
                    let item = items[i].copy();
                    out.push(item);
                    i += 1;
                }
                let r = Json::Array(out);
                assert(r@->Array_0 =~= self@->Array_0);
                r
            },
            Json::Object(members) => {
                let mut out: Vec<(String, Json)> = Vec::new();
                let mut i: usize = 0;
                while i < members.len()
                    invariant
                        i <= members@.len(),
                        self matches Json::Object(v) && v == members,
                        out@.len() == i,
                        forall|j: int|
                            0 <= j < i ==> (#[trigger] out@[j]).0@ == members@[j].0@ && out@[j].1@
                                == members@[j].1@,
                    decreases members@.len() - i,
                {
                    let value = members[i].1.copy();
                    out.push((members[i].0.clone(), value));
                    i += 1;
                }
                let r = Json::Object(out);
                assert(r@->Object_0 =~= self@->Object_0);
                r
            },
        }
    }

    /// The member of an object that is called `key`.
    pub fn field(&self, key: &str) -> (r: Option<Json>)
        ensures
            r is Some <==> self@.field(key@) is Some,
            r matches Some(v) ==> self@.field(key@) == Some(v@),
    {
        match self {
            Json::Object(members) => {
                let ghost all = members_of(members@);
                assert(self@->Object_0 =~= all);
                let mut i: usize = 0;
                assert(all.skip(0) =~= all);
                while i < members.len()
                    invariant
                        i <= members@.len(),
                        all == members_of(members@),
                        self@ == JsonView::Object(all),
                        lookup(all, key@) == lookup(all.skip(i as int), key@),
                    decreases members@.len() - i,
                {
                    assert(all.skip(i as int)[0] == all[i as int]);
                    assert(all.skip(i as int).drop_first() =~= all.skip(i + 1));
                    if same_text(members[i].0.as_str(), key) {
                        return Some(members[i].1.copy());
                    }
                    i += 1;
                }
                None
            },
            _ => None,
        }
    }
}

// ---- errors ----

/// The answer to the request with this `id` that it failed.
pub open spec fn error_object(id: JsonView, code: int, message: Seq<char>) -> JsonView {
    JsonView::Object(
        seq![
            ("jsonrpc"@, JsonView::Text("2.0"@)),
            ("id"@, id),
            (
                "error"@,
                JsonView::Object(
                    seq![
                        ("code"@, JsonView::Int(code)),
                        ("message"@, JsonView::Text(message)),
                    ],
                ),
            ),
        ],
    )
}

/// The answer to one request that it failed; a request without an `id` is
/// answered with a null one.
pub open spec fn request_error(request: JsonView, code: int, message: Seq<char>) -> JsonView {
    error_object(
        match request.field("id"@) {
            Some(id) => id,
            None => JsonView::Null,
        },
        code,
        message,
    )
}

/// The answers to a batch of requests that it failed: one for each request
/// that has an `id`.
pub open spec fn batch_errors(batch: Seq<JsonView>, code: int, message: Seq<char>) -> Seq<JsonView>
    decreases batch.len(),
{
    if batch.len() == 0 {
        seq![]
    } else {
        let before = batch_errors(batch.drop_last(), code, message);
        if batch.last().field("id"@) is Some {
            before.push(request_error(batch.last(), code, message))
        } else {
            before
        }
    }
}

/// The answer to a payload, one request or a batch of them, that it failed.
pub open spec fn payload_error(payload: JsonView, code: int, message: Seq<char>) -> JsonView {
    match payload {
        JsonView::Array(batch) => JsonView::Array(batch_errors(batch, code, message)),
        request => request_error(request, code, message),
    }
}

fn request_failed(request: &Json, code: i64, message: &str) -> (r: Json)
    ensures
        r@ == request_error(request@, code as int, message@),
{
    let id = match request.field("id") {
        Some(id) => id,
        None => Json::Null,
    };
    let ghost id_view = id@;
    let mut error: Vec<(String, Json)> = Vec::new();
    error.push(("code".to_owned(), Json::Int(code)));
    error.push(("message".to_owned(), Json::Text(message.to_owned())));
    proof {
        let expected = seq![
            ("code"@, JsonView::Int(code as int)),
            ("message"@, JsonView::Text(message@)),
        ];
        assert(members_of(error@) =~= expected);
    }
    let error = Json::object(error);
    let ghost error_view = error@;
    let mut out: Vec<(String, Json)> = Vec::new();
    out.push(("jsonrpc".to_owned(), Json::Text("2.0".to_owned())));
    out.push(("id".to_owned(), id));
    out.push(("error".to_owned(), error));
    proof {
        let expected = seq![
            ("jsonrpc"@, JsonView::Text("2.0"@)),
            ("id"@, id_view),
            ("error"@, error_view),
        ];
        assert(members_of(out@) =~= expected);
    }
    Json::object(out)
}

/// The answer to a payload that it failed, in JSON-RPC's form.
pub fn rpc_error(payload: &Json, code: i64, message: &str) -> (r: Json)
    ensures
        r@ == payload_error(payload@, code as int, message@),
{
    match payload {
        Json::Array(batch) => {
            let ghost all = values(batch@);
            assert(payload@->Array_0 =~= all);
            let mut out: Vec<Json> = Vec::new();
            let mut i: usize = 0;
            assert(values(out@) =~= batch_errors(all.take(0), code as int, message@));
            while i < batch.len()
                invariant
                    i <= batch@.len(),
                    all == values(batch@),
                    values(out@) == batch_errors(all.take(i as int), code as int, message@),
                decreases batch@.len() - i,
            {
                proof {
                    let next = all.take(i + 1);
                    assert(next.drop_last() =~= all.take(i as int));
                    assert(next.last() == batch@[i as int]@);
                }
                let ghost before = values(out@);
                if batch[i].field("id").is_some() {
                    let error = request_failed(&batch[i], code, message);
                    out.push(error);
                    assert(values(out@) =~= before.push(error@));
                }
                i += 1;
            }
            assert(all.take(all.len() as int) =~= all);
            Json::array(out)
        },
        _ => request_failed(payload, code, message),
    }
}

/// The ids of the requests of a batch that have one.
pub open spec fn ids(batch: Seq<JsonView>) -> Seq<JsonView>
    decreases batch.len(),
{
    if batch.len() == 0 {
        seq![]
    } else {
        match batch.last().field("id"@) {
            Some(id) => ids(batch.drop_last()).push(id),
            None => ids(batch.drop_last()),
        }
    }
}

/// A request's failure is answered under the request's own id.
pub proof fn an_error_carries_the_id(request: JsonView, code: int, message: Seq<char>)
    requires
        !(request is Array),
    ensures
        payload_error(request, code, message).field("id"@) == Some(
            match request.field("id"@) {
                Some(id) => id,
                None => JsonView::Null,
            },
        ),
{
    reveal_strlit("jsonrpc");
    reveal_strlit("id");
    reveal_with_fuel(lookup, 3);
    let members = request_error(request, code, message)->Object_0;
    assert("jsonrpc"@.len() != "id"@.len());
    assert(members.drop_first()[0] == members[1]);
}

/// A batch's failure is answered under the ids of its requests, in their
/// order; a notification, which has no id, gets no answer.
pub proof fn batch_errors_carry_the_ids(batch: Seq<JsonView>, code: int, message: Seq<char>)
    ensures
        payload_error(JsonView::Array(batch), code, message) matches JsonView::Array(answers)
            && answers.len() == ids(batch).len() && ids(answers) == ids(batch),
    decreases batch.len(),
{
    if batch.len() > 0 {
        let rest = batch.drop_last();
        batch_errors_carry_the_ids(rest, code, message);
        let before = batch_errors(rest, code, message);
        if batch.last().field("id"@) is Some {
            let error = request_error(batch.last(), code, message);
            assert(!(batch.last() is Array));
            an_error_carries_the_id(batch.last(), code, message);
            assert(before.push(error).drop_last() =~= before);
        }
    } else {
        assert(ids(seq![]) =~= seq![]);
    }
}

// ---- answers ----

/// The requests of a payload: those of a batch, or the one it is.
pub open spec fn requests(payload: JsonView) -> Seq<JsonView> {
    match payload {
        JsonView::Array(batch) => batch,
        request => seq![request],
    }
}

/// The answers that there are.
pub open spec fn given(answers: Seq<Option<JsonView>>) -> Seq<JsonView>
    decreases answers.len(),
{
    if answers.len() == 0 {
        seq![]
    } else {
        match answers.last() {
            Some(answer) => given(answers.drop_last()).push(answer),
            None => given(answers.drop_last()),
        }
    }
}

/// The answer to a payload from those to its requests: the list of them for a
/// batch, else the one, or an empty object where there is none.
pub open spec fn assembled(batch: bool, answers: Seq<Option<JsonView>>) -> JsonView {
    if batch {
        JsonView::Array(given(answers))
    } else if answers.len() > 0 && answers[0] is Some {
        answers[0]->Some_0
    } else {
        JsonView::Object(seq![])
    }
}

/// What optional values say.
pub open spec fn optional_values(answers: Seq<Option<Json>>) -> Seq<Option<JsonView>> {
    Seq::new(
        answers.len(),
        |i: int|
            match answers[i] {
                Some(answer) => Some(answer@),
                None => None,
            },
    )
}

/// The requests of a payload, and whether it is a batch.
pub fn split_payload(payload: Json) -> (r: (bool, Vec<Json>))
    ensures
        r.0 == (payload@ is Array),
        values(r.1@) == requests(payload@),
{
    match payload {
        Json::Array(batch) => {
            assert(payload@->Array_0 =~= values(batch@));
            (true, batch)
        },
        request => {
            let mut one: Vec<Json> = Vec::new();
            let ghost view = request@;
            one.push(request);
            assert(values(one@) =~= seq![view]);
            (false, one)
        },
    }
}

/// The answer to a payload from those to its requests.
pub fn assemble(batch: bool, answers: Vec<Option<Json>>) -> (r: Json)
    ensures
        r@ == assembled(batch, optional_values(answers@)),
{
    let ghost all = optional_values(answers@);
    if batch {
        let mut out: Vec<Json> = Vec::new();
        let mut i: usize = 0;
        assert(values(out@) =~= given(all.take(0)));
        while i < answers.len()
            invariant
                i <= answers@.len(),
                all == optional_values(answers@),
                values(out@) == given(all.take(i as int)),
            decreases answers@.len() - i,
        {
            proof {
                let next = all.take(i + 1);
                assert(next.drop_last() =~= all.take(i as int));
                assert(next.last() == all[i as int]);
            }
            let ghost before = values(out@);
            match &answers[i] {
                Some(answer) => {
                    out.push(answer.copy());
                    assert(values(out@) =~= before.push(answer@));
                },
                None => {},
            }
            i += 1;
        }
        assert(all.take(all.len() as int) =~= all);
        Json::array(out)
    } else {
        if answers.len() > 0 {
            match &answers[0] {
                Some(answer) => {
                    return answer.copy();
                },
                None => {},
            }
        }
        let empty: Vec<(String, Json)> = Vec::new();
        assert(members_of(empty@) =~= seq![]);
        Json::object(empty)
    }
}

// ---- fixed answers ----

/// An object with one text member.
pub open spec fn note(key: Seq<char>, text: Seq<char>) -> JsonView {
    JsonView::Object(seq![(key, JsonView::Text(text))])
}

/// An object that says why something failed.
pub fn error_note(reason: &str) -> (r: Json)
    ensures
        r@ == note("error"@, reason@),
{
    let mut members: Vec<(String, Json)> = Vec::new();
    members.push(("error".to_owned(), Json::Text(reason.to_owned())));
    assert(members_of(members@) =~= seq![("error"@, JsonView::Text(reason@))]);
    Json::object(members)
}

/// What the relay says of its own health.
pub fn health(version: &str) -> (r: Json)
    ensures
        r@ == JsonView::Object(
            seq![
                ("ok"@, JsonView::Bool(true)),
                ("service"@, JsonView::Text("recuros-relay"@)),
                ("version"@, JsonView::Text(version@)),
            ],
        ),
{
    let mut members: Vec<(String, Json)> = Vec::new();
    members.push(("ok".to_owned(), Json::Bool(true)));
    members.push(("service".to_owned(), Json::Text("recuros-relay".to_owned())));
    members.push(("version".to_owned(), Json::Text(version.to_owned())));
    proof {
        let expected = seq![
            ("ok"@, JsonView::Bool(true)),
            ("service"@, JsonView::Text("recuros-relay"@)),
            ("version"@, JsonView::Text(version@)),
        ];
        assert(members_of(members@) =~= expected);
    }
    Json::object(members)
}

/// The answers that were given, out of those to a batch.
pub open spec fn answered(answers: Seq<Option<JsonView>>) -> Seq<Option<JsonView>> {
    answers.filter(|answer: Option<JsonView>| answer is Some)
}

proof fn lemma_given(answers: Seq<Option<JsonView>>)
    ensures
        given(answers).len() == answered(answers).len(),
        forall|i: int|
            0 <= i < given(answers).len() ==> answered(answers)[i] == Some(
                #[trigger] given(answers)[i],
            ),
        (forall|i: int| 0 <= i < answers.len() ==> (#[trigger] answers[i]) is Some)
            ==> given(answers).len() == answers.len() && forall|i: int|
            0 <= i < answers.len() ==> Some(#[trigger] given(answers)[i]) == answers[i],
    decreases answers.len(),
{
    reveal(Seq::filter);
    if answers.len() > 0 {
        let front = answers.drop_last();
        lemma_given(front);
        if forall|i: int| 0 <= i < answers.len() ==> (#[trigger] answers[i]) is Some {
            assert forall|i: int| 0 <= i < front.len() implies (#[trigger] front[i]) is Some by {
                assert(answers[i] == front[i]);
            }
            assert(answers[answers.len() - 1] is Some);
            assert forall|i: int| 0 <= i < answers.len() implies Some(
                #[trigger] given(answers)[i],
            ) == answers[i] by {
                if i < front.len() {
                    assert(given(answers)[i] == given(front)[i]);
                    assert(front[i] == answers[i]);
                }
            }
        }
    }
}

/// What is brought back of a batch is every answer that was given, in order and
/// nothing else: as many as there are, each in its place, and where every
/// request was answered the answers to all of them.
pub proof fn every_answer_is_brought_back(answers: Seq<Option<JsonView>>)
    ensures
        assembled(true, answers) matches JsonView::Array(brought) && {
            &&& brought.len() == answered(answers).len()
            &&& forall|i: int|
                0 <= i < brought.len() ==> answered(answers)[i] == Some(#[trigger] brought[i])
            &&& (forall|i: int| 0 <= i < answers.len() ==> (#[trigger] answers[i]) is Some) ==> {
                &&& brought.len() == answers.len()
                &&& forall|i: int|
                    0 <= i < answers.len() ==> Some(#[trigger] brought[i]) == answers[i]
            }
        },
{
    lemma_given(answers);
}

/// A request by itself is answered by its answer, and by an empty object where
/// it has none.
pub proof fn one_answer_is_brought_back(answer: JsonView)
    ensures
        assembled(false, seq![Some(answer)]) == answer,
        assembled(false, seq![None]) == JsonView::Object(seq![]),
{
}

/// A node that answers every request with itself answers what was sent with
/// what was sent: no request of a batch is lost, added or moved.
pub proof fn an_echo_is_what_was_sent(payload: JsonView)
    ensures
        assembled(
            payload is Array,
            Seq::new(requests(payload).len(), |i: int| Some(requests(payload)[i])),
        ) == payload,
{
    let echoed = Seq::new(requests(payload).len(), |i: int| Some(requests(payload)[i]));
    lemma_given(echoed);
    match payload {
        JsonView::Array(batch) => {
            assert forall|i: int| 0 <= i < batch.len() implies #[trigger] given(echoed)[i]
                == batch[i] by {
                assert(echoed[i] is Some);
                assert(Some(given(echoed)[i]) == echoed[i]);
            }
            assert(given(echoed) =~= batch);
        },
        _ => {},
    }
}

/// Values are read each in its place.
pub proof fn values_are_read_in_place(
    items: Seq<Json>,
    members: Seq<(String, Json)>,
    answers: Seq<Option<Json>>,
)
    ensures
        values(items).len() == items.len(),
        forall|i: int| 0 <= i < items.len() ==> #[trigger] values(items)[i] == items[i]@,
        members_of(members).len() == members.len(),
        forall|i: int|
            0 <= i < members.len() ==> #[trigger] members_of(members)[i] == (
                members[i].0@,
                members[i].1@,
            ),
        optional_values(answers).len() == answers.len(),
        forall|i: int|
            0 <= i < answers.len() ==> #[trigger] optional_values(answers)[i] == (
            match answers[i] {
                Some(answer) => Some(answer@),
                None => None::<JsonView>,
            }),
{
}

/// A value says what it holds.
pub proof fn values_say_what_they_hold(b: bool, n: i64, text: String, items: Vec<Json>)
    ensures
        Json::Null@ == JsonView::Null,
        Json::Bool(b)@ == JsonView::Bool(b),
        Json::Int(n)@ == JsonView::Int(n as int),
        Json::Number(text)@ == JsonView::Number(text@),
        Json::Text(text)@ == JsonView::Text(text@),
        Json::Array(items)@ == JsonView::Array(values(items@)),
{
    assert(Json::Array(items)@->Array_0 =~= values(items@));
}

/// A field is the first member of that name, and there is none exactly where no
/// member has it.
pub proof fn a_field_is_the_first_of_its_name(
    members: Seq<(Seq<char>, JsonView)>,
    key: Seq<char>,
)
    ensures
        match JsonView::Object(members).field(key) {
            Some(value) => exists|i: int|
                0 <= i < members.len() && #[trigger] members[i] == (key, value) && forall|j: int|
                    0 <= j < i ==> (#[trigger] members[j]).0 != key,
            None => forall|i: int| 0 <= i < members.len() ==> (#[trigger] members[i]).0 != key,
        },
    decreases members.len(),
{
    if members.len() > 0 && members[0].0 != key {
        let rest = members.drop_first();
        a_field_is_the_first_of_its_name(rest, key);
        match JsonView::Object(rest).field(key) {
            Some(value) => {
                let i = choose|i: int|
                    0 <= i < rest.len() && #[trigger] rest[i] == (key, value) && forall|j: int|
                        0 <= j < i ==> (#[trigger] rest[j]).0 != key;
                assert(members[i + 1] == (key, value));
                assert forall|j: int| 0 <= j < i + 1 implies (#[trigger] members[j]).0 != key by {
                    if j > 0 {
                        assert(rest[j - 1] == members[j]);
                    }
                }
            },
            None => {
                assert forall|i: int| 0 <= i < members.len() implies (#[trigger] members[i]).0
                    != key by {
                    if i > 0 {
                        assert(rest[i - 1] == members[i]);
                    }
                }
            },
        }
    } else if members.len() > 0 {
        assert(members[0] == (key, members[0].1));
    }
}

/// An error of a request says what kind it is, what its number is and what it
/// says, whatever the request was.
pub proof fn an_error_says_what_went_wrong(request: JsonView, code: int, message: Seq<char>)
    requires
        !(request is Array),
    ensures
        payload_error(request, code, message).field("jsonrpc"@) == Some(JsonView::Text("2.0"@)),
        payload_error(request, code, message).field("error"@) matches Some(error) && error.field(
            "code"@,
        ) == Some(JsonView::Int(code)) && error.field("message"@) == Some(JsonView::Text(message)),
        payload_error(request, code, message).field("result"@) is None,
{
    reveal_strlit("jsonrpc");
    reveal_strlit("id");
    reveal_strlit("error");
    reveal_strlit("code");
    reveal_strlit("message");
    reveal_strlit("result");
    reveal_with_fuel(lookup, 4);
    assert("jsonrpc"@.len() == 7);
    assert("id"@.len() == 2);
    assert("error"@.len() == 5);
    assert("code"@.len() == 4);
    assert("message"@.len() == 7);
    assert("result"@.len() == 6);
}

/// The requests of a batch that have an id.
pub open spec fn with_ids(batch: Seq<JsonView>) -> Seq<JsonView> {
    batch.filter(|request: JsonView| request.field("id"@) is Some)
}

/// A failed batch is answered with one error for every request that has an id,
/// in their order and nothing else.
pub proof fn every_request_of_a_batch_is_refused(
    batch: Seq<JsonView>,
    code: int,
    message: Seq<char>,
)
    ensures
        payload_error(JsonView::Array(batch), code, message) matches JsonView::Array(errors) && {
            &&& errors.len() == with_ids(batch).len()
            &&& forall|i: int|
                0 <= i < errors.len() ==> #[trigger] errors[i] == request_error(
                    with_ids(batch)[i],
                    code,
                    message,
                )
        },
        ids(batch).len() == with_ids(batch).len(),
        forall|i: int|
            0 <= i < ids(batch).len() ==> with_ids(batch)[i].field("id"@) == Some(
                #[trigger] ids(batch)[i],
            ),
    decreases batch.len(),
{
    reveal(Seq::filter);
    if batch.len() > 0 {
        every_request_of_a_batch_is_refused(batch.drop_last(), code, message);
    }
}

/// A note holds its text under its name.
pub proof fn a_note_says_its_text(key: Seq<char>, text: Seq<char>)
    ensures
        note(key, text).field(key) == Some(JsonView::Text(text)),
        forall|other: Seq<char>| other != key ==> #[trigger] note(key, text).field(other) is None,
{
    reveal_with_fuel(lookup, 2);
}

/// A single request to which nothing was answered is answered with an object
/// without members.
pub proof fn no_answer_is_an_empty_object(answers: Seq<Option<JsonView>>)
    ensures
        assembled(false, seq![]) == JsonView::Object(seq![]),
        assembled(false, seq![None::<JsonView>] + answers) == JsonView::Object(seq![]),
        assembled(true, seq![]) == JsonView::Array(seq![]),
{
    assert((seq![None::<JsonView>] + answers)[0] is None);
}

} // verus!

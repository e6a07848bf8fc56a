//! The gateway adapter: building the outbound HTTP request from a
//! `ChatRequest`, and interpreting the status and body that come back.
//! Sending the request is the caller's task; everything on either side of
//! the wire is specified and proved here.

use vstd::prelude::*;
use vstd::string::StringExecFns;
use vstd::string::StrSliceExecFns;
use crate::json::{Json, JVal, jval_of, jvals_of, jmembers_of, jvals_of_props, jmembers_of_props,
    jtext, parse_json};
use crate::model::{ChatMessage, ChatChoice, ChatResponse, ChatRequest, ChatError, MessageV,
    ChoiceV, ResponseV, RequestV, messages_view, messages_view_props, choices_view, dec_rep,
    dec_string};

verus! {

// ------------------------------------------------------------ the headers

/// A character that may stand in an HTTP header value: horizontal tab, or
/// anything that is neither a control character nor delete.
pub open spec fn header_ok_char(c: char) -> bool {
    c == '\t' || (32 <= c as u32 && c as u32 != 127)
}

/// Every character of `s` may stand in an HTTP header value.
pub open spec fn header_value_ok(s: Seq<char>) -> bool {
    forall|i: int| 0 <= i < s.len() ==> header_ok_char(#[trigger] s[i])
}

/// An `Authorization` header is owed: the key is present and non-empty.
pub open spec fn auth_needed(k: Option<Seq<char>>) -> bool {
    k matches Some(s) && s.len() > 0
}

/// The value of the `Authorization` header for key `k`.
pub open spec fn bearer_of(k: Seq<char>) -> Seq<char> {
    "Bearer "@ + k
}

/// The outbound headers: `Content-Type` always; `Authorization` exactly
/// when a non-empty key is present.
pub open spec fn spec_headers(r: RequestV) -> Seq<(Seq<char>, Seq<char>)> {
    if auth_needed(r.api_key) {
        seq![
            ("Content-Type"@, "application/json"@),
            ("Authorization"@, bearer_of(r.api_key->0)),
        ]
    } else {
        seq![("Content-Type"@, "application/json"@)]
    }
}

/// With no key, or an empty one, the outbound request carries no
/// `Authorization` header.
pub proof fn no_auth_header_without_key(r: RequestV)
    requires
        !auth_needed(r.api_key),
    ensures
        spec_headers(r).len() == 1,
        forall|i: int| 0 <= i < spec_headers(r).len() ==> #[trigger] spec_headers(r)[i].0
            != "Authorization"@,
{
    reveal_strlit("Content-Type");
    reveal_strlit("Authorization");
    assert(spec_headers(r)[0].0 == "Content-Type"@);
    assert("Content-Type"@.len() != "Authorization"@.len());
}

/// With a non-empty key the outbound request carries exactly one
/// `Authorization` header, whose value is `Bearer ` followed by the key.
pub proof fn bearer_header_with_key(r: RequestV)
    requires
        auth_needed(r.api_key),
    ensures
        spec_headers(r).len() == 2,
        spec_headers(r)[1] == ("Authorization"@, "Bearer "@ + r.api_key->0),
        spec_headers(r)[0].0 != "Authorization"@,
{
    reveal_strlit("Content-Type");
    reveal_strlit("Authorization");
    assert("Content-Type"@.len() != "Authorization"@.len());
}

/// Whether every character of `s` may stand in an HTTP header value.
fn check_header_value(s: &str) -> (r: bool)
    ensures
        r == header_value_ok(s@),
{
    let cs = crate::chars::chars_of_str(s);
    let n = cs.len();
    let mut i: usize = 0;
    while i < n
        invariant
            n == cs@.len(),
            cs@ == s@,
            i <= n,
            forall|k: int| 0 <= k < i ==> header_ok_char(#[trigger] s@[k]),
        decreases n - i,
    {
        let c = cs[i];
        if !(c == '\t' || ((c as u32) >= 32 && (c as u32) != 127)) {
            return false;
        }
        i = i + 1;
    }
    true
}

// --------------------------------------------------------------- the body

/// The JSON value of one message: `{"role": ..., "content": ...}`.
pub open spec fn message_jval(m: MessageV) -> JVal {
    JVal::Obj(seq![("role"@, JVal::Str(m.role)), ("content"@, JVal::Str(m.content))])
}

/// The JSON values of the messages, in order.
pub open spec fn messages_jvals(ms: Seq<MessageV>) -> Seq<JVal>
    decreases ms.len(),
{
    if ms.len() == 0 {
        Seq::empty()
    } else {
        messages_jvals(ms.drop_last()).push(message_jval(ms.last()))
    }
}

/// The JSON body of the outbound request: `model`, `messages`,
/// `temperature` and `max_tokens`, in that order.
pub open spec fn body_jval(r: RequestV) -> JVal {
    JVal::Obj(
        seq![
            ("model"@, JVal::Str(r.model)),
            ("messages"@, JVal::Arr(messages_jvals(r.messages))),
            ("temperature"@, JVal::Num(r.temperature)),
            ("max_tokens"@, JVal::Num(dec_rep(r.max_tokens as nat))),
        ],
    )
}

/// The serialized body text of the outbound request.
pub open spec fn body_text(r: RequestV) -> Seq<char> {
    jtext(body_jval(r))
}

/// Appending an element commutes with taking models.
proof fn jvals_of_snoc(s: Seq<Json>, x: Json)
    ensures
        jvals_of(s.push(x)) == jvals_of(s).push(jval_of(x)),
    decreases s.len(),
{
    let t = s.push(x);
    if s.len() == 0 {
        assert(t.first() == x);
        assert(t.drop_first() =~= Seq::<Json>::empty());
        assert(jvals_of(Seq::<Json>::empty()) == Seq::<JVal>::empty());
        assert(jvals_of(t) =~= jvals_of(s).push(jval_of(x)));
    } else {
        jvals_of_snoc(s.drop_first(), x);
        assert(t.first() == s.first());
        assert(t.drop_first() =~= s.drop_first().push(x));
        assert(jvals_of(t) == seq![jval_of(s.first())] + jvals_of(s.drop_first().push(x)));
        assert(seq![jval_of(s.first())] + jvals_of(s.drop_first()).push(jval_of(x))
            =~= (seq![jval_of(s.first())] + jvals_of(s.drop_first())).push(jval_of(x)));
    }
}

/// Appending a member commutes with taking models.
proof fn jmembers_of_snoc(s: Seq<(String, Json)>, x: (String, Json))
    ensures
        jmembers_of(s.push(x)) == jmembers_of(s).push((x.0@, jval_of(x.1))),
    decreases s.len(),
{
    let t = s.push(x);
    if s.len() == 0 {
        assert(t.first() == x);
        assert(t.drop_first() =~= Seq::<(String, Json)>::empty());
        assert(jmembers_of(Seq::<(String, Json)>::empty()) == Seq::<(Seq<char>, JVal)>::empty());
        assert(jmembers_of(t) =~= jmembers_of(s).push((x.0@, jval_of(x.1))));
    } else {
        jmembers_of_snoc(s.drop_first(), x);
        assert(t.first() == s.first());
        assert(t.drop_first() =~= s.drop_first().push(x));
        assert(jmembers_of(t) == seq![(s.first().0@, jval_of(s.first().1))]
            + jmembers_of(s.drop_first().push(x)));
        assert(seq![(s.first().0@, jval_of(s.first().1))]
            + jmembers_of(s.drop_first()).push((x.0@, jval_of(x.1)))
            =~= (seq![(s.first().0@, jval_of(s.first().1))] + jmembers_of(s.drop_first())).push(
            (x.0@, jval_of(x.1))));
    }
}

/// The JSON value of one message, as executable data.
fn message_json(m: &ChatMessage) -> (r: Json)
    ensures
        r@ == message_jval(m@),
{
    let mut mm: Vec<(String, Json)> = Vec::new();
    mm.push(("role".to_owned(), Json::Str(m.role.clone())));
    let ghost s1 = mm@;
    mm.push(("content".to_owned(), Json::Str(m.content.clone())));
    proof {
        assert(jmembers_of(Seq::<(String, Json)>::empty()) == Seq::<(Seq<char>, JVal)>::empty());
        jmembers_of_snoc(Seq::<(String, Json)>::empty(), s1[0]);
        assert(s1 =~= Seq::<(String, Json)>::empty().push(s1[0]));
        jmembers_of_snoc(s1, mm@[1]);
        assert(mm@ =~= s1.push(mm@[1]));
        assert(jmembers_of(mm@) =~= seq![("role"@, JVal::Str(m.role@)),
            ("content"@, JVal::Str(m.content@))]);
    }
    Json::Obj(mm)
}

/// The JSON values of the messages, as executable data.
fn messages_json(msgs: &Vec<ChatMessage>) -> (r: Vec<Json>)
    ensures
        jvals_of(r@) == messages_jvals(messages_view(msgs@)),
{
    let ghost mv = messages_view(msgs@);
    proof {
        messages_view_props(msgs@);
    }
    let n = msgs.len();
    let mut r: Vec<Json> = Vec::new();
    proof {
        assert(mv.subrange(0, 0) =~= Seq::<MessageV>::empty());
    }
    while r.len() < n
        invariant
            n == msgs@.len(),
            mv == messages_view(msgs@),
            mv.len() == n,
            forall|k: int| 0 <= k < n ==> mv[k] == #[trigger] msgs@[k]@,
            r@.len() <= n,
            jvals_of(r@) == messages_jvals(mv.subrange(0, r@.len() as int)),
        decreases n - r.len(),
    {
        let i = r.len();
        let ghost old_r = r@;
        let mj = message_json(&msgs[i]);
        r.push(mj);
        proof {
            jvals_of_snoc(old_r, mj);
            let cur = mv.subrange(0, i + 1);
            assert(cur.drop_last() =~= mv.subrange(0, i as int));
            assert(cur.last() == mv[i as int]);
            assert(r@ =~= old_r.push(mj));
            assert(jvals_of(r@) == messages_jvals(cur));
        }
    }
    proof {
        assert(mv.subrange(0, mv.len() as int) =~= mv);
    }
    r
}

/// The serialized JSON body of the outbound request.
fn body_json_text(req: &ChatRequest) -> (r: String)
    ensures
        r@ == body_text(req@),
{
    let mut bm: Vec<(String, Json)> = Vec::new();
    bm.push(("model".to_owned(), Json::Str(req.model.clone())));
    let ghost s1 = bm@;
    bm.push(("messages".to_owned(), Json::Arr(messages_json(&req.messages))));
    let ghost s2 = bm@;
    bm.push(("temperature".to_owned(), Json::Num(req.temperature.text().to_owned())));
    let ghost s3 = bm@;
    bm.push(("max_tokens".to_owned(), Json::Num(dec_string(req.max_tokens))));
    proof {
        assert(jmembers_of(Seq::<(String, Json)>::empty()) == Seq::<(Seq<char>, JVal)>::empty());
        jmembers_of_snoc(Seq::<(String, Json)>::empty(), s1[0]);
        assert(s1 =~= Seq::<(String, Json)>::empty().push(s1[0]));
        jmembers_of_snoc(s1, s2[1]);
        assert(s2 =~= s1.push(s2[1]));
        jmembers_of_snoc(s2, s3[2]);
        assert(s3 =~= s2.push(s3[2]));
        jmembers_of_snoc(s3, bm@[3]);
        assert(bm@ =~= s3.push(bm@[3]));
        assert(jmembers_of(bm@) =~= body_jval(req@)->Obj_0);
        assert(body_jval(req@) is Obj);
    }
    let b = Json::Obj(bm);
    proof {
        assert(b@ == body_jval(req@));
    }
    crate::json::to_text(&b)
}

// ---------------------------------------------------------- the request

/// Everything the caller needs to issue the HTTP POST: the target URL,
/// the headers in order, and the body text.
pub struct HttpRequestParts {
    pub url: String,
    pub headers: Vec<(String, String)>,
    pub body: String,
}

/// The models of the header pairs, in order.
pub open spec fn headers_model(s: Seq<(String, String)>) -> Seq<(Seq<char>, Seq<char>)>
    decreases s.len(),
{
    if s.len() == 0 {
        Seq::empty()
    } else {
        headers_model(s.drop_last()).push((s.last().0@, s.last().1@))
    }
}

/// Builds the outbound request: the URL is the base URL with
/// `/chat/completions` appended literally, the headers are
/// `spec_headers`, and the body is the serialized JSON of the request.
/// It fails, with the header error, exactly when a non-empty key holds a
/// character that cannot stand in a header value.
pub fn build_request(req: &ChatRequest) -> (r: Result<HttpRequestParts, ChatError>)
    ensures
        match r {
            Ok(parts) => {
                &&& auth_needed(req@.api_key) ==> header_value_ok(req@.api_key->0)
                &&& parts.url@ == req@.base_url + "/chat/completions"@
                &&& headers_model(parts.headers@) == spec_headers(req@)
                &&& parts.body@ == body_text(req@)
            },
            Err(e) => e is Header && auth_needed(req@.api_key) && !header_value_ok(
                req@.api_key->0,
            ),
        },
{
    let mut auth: Option<String> = None;
    match &req.api_key {
        Some(k) => {
            if !k.as_str().is_empty() {
                if !check_header_value(k.as_str()) {
                    return Err(ChatError::Header);
                }
                let mut b = "Bearer ".to_owned();
                b.append(k.as_str());
                auth = Some(b);
            }
        }
        None => {}
    }
    let mut headers: Vec<(String, String)> = Vec::new();
    headers.push(("Content-Type".to_owned(), "application/json".to_owned()));
    let ghost h1 = headers@;
    proof {
        assert(h1.drop_last() =~= Seq::<(String, String)>::empty());
        assert(headers_model(Seq::<(String, String)>::empty())
            == Seq::<(Seq<char>, Seq<char>)>::empty());
        assert(h1.last() == h1[0]);
        assert(headers_model(h1) =~= seq![("Content-Type"@, "application/json"@)]);
    }
    match auth {
        Some(b) => {
            headers.push(("Authorization".to_owned(), b));
            proof {
                assert(headers@.drop_last() =~= h1);
                assert(headers_model(headers@) =~= spec_headers(req@));
            }
        }
        None => {
            proof {
                assert(headers_model(headers@) =~= spec_headers(req@));
            }
        }
    }
    let mut url = req.base_url.clone();
    url.append("/chat/completions");
    let body = body_json_text(req);
    Ok(HttpRequestParts { url, headers, body })
}

// ---------------------------------------------------------- the response

/// How many members of `ms` carry the key `name`.
pub open spec fn count_key(ms: Seq<(Seq<char>, JVal)>, name: Seq<char>) -> nat
    decreases ms.len(),
{
    if ms.len() == 0 {
        0
    } else {
        count_key(ms.drop_last(), name) + (if ms.last().0 == name {
            1nat
        } else {
            0nat
        })
    }
}

/// The value of the last member of `ms` carrying the key `name`.
pub open spec fn get_key(ms: Seq<(Seq<char>, JVal)>, name: Seq<char>) -> JVal
    decreases ms.len(),
{
    if ms.len() == 0 {
        JVal::Null
    } else if ms.last().0 == name {
        ms.last().1
    } else {
        get_key(ms.drop_last(), name)
    }
}

/// The message a JSON value stands for: an object with exactly one
/// `role` and one `content` member, both strings; other members are
/// ignored.
pub open spec fn msg_of(v: JVal) -> Option<MessageV> {
    match v {
        JVal::Obj(ms) => {
            if count_key(ms, "role"@) == 1 && count_key(ms, "content"@) == 1 && get_key(
                ms,
                "role"@,
            ) is Str && get_key(ms, "content"@) is Str {
                Some(
                    MessageV {
                        role: get_key(ms, "role"@)->Str_0,
                        content: get_key(ms, "content"@)->Str_0,
                    },
                )
            } else {
                None
            }
        },
        _ => None,
    }
}

/// The choice a JSON value stands for: an object with exactly one
/// `message` member holding a message.
pub open spec fn choice_of(v: JVal) -> Option<ChoiceV> {
    match v {
        JVal::Obj(ms) => {
            if count_key(ms, "message"@) == 1 {
                match msg_of(get_key(ms, "message"@)) {
                    Some(m) => Some(ChoiceV { message: m }),
                    None => None,
                }
            } else {
                None
            }
        },
        _ => None,
    }
}

/// The choices a sequence of JSON values stands for; any ill-formed
/// element spoils the whole.
pub open spec fn choices_of(vs: Seq<JVal>) -> Option<Seq<ChoiceV>>
    decreases vs.len(),
{
    if vs.len() == 0 {
        Some(Seq::empty())
    } else {
        match (choices_of(vs.drop_last()), choice_of(vs.last())) {
            (Some(cs), Some(c)) => Some(cs.push(c)),
            _ => None,
        }
    }
}

/// The response a JSON value stands for: an object with exactly one
/// `choices` member holding an array of choices.
pub open spec fn response_of(v: JVal) -> Option<ResponseV> {
    match v {
        JVal::Obj(ms) => {
            if count_key(ms, "choices"@) == 1 {
                match get_key(ms, "choices"@) {
                    JVal::Arr(vs) => match choices_of(vs) {
                        Some(cs) => Some(ResponseV { choices: cs }),
                        None => None,
                    },
                    _ => None,
                }
            } else {
                None
            }
        },
        _ => None,
    }
}

/// One ill-formed element spoils the whole sequence of choices.
proof fn choices_of_none(vs: Seq<JVal>, k: int)
    requires
        0 <= k < vs.len(),
        choice_of(vs[k]) is None,
    ensures
        choices_of(vs) is None,
    decreases vs.len(),
{
    if k == vs.len() - 1 {
        assert(vs.last() == vs[k]);
    } else {
        assert(vs.drop_last()[k] == vs[k]);
        choices_of_none(vs.drop_last(), k);
    }
}

/// Whether two strings hold the same characters.
fn str_eq(a: &str, b: &str) -> (r: bool)
    ensures
        r == (a@ == b@),
{
    let an = a.unicode_len();
    let bn = b.unicode_len();
    if an != bn {
        return false;
    }
    let mut i: usize = 0;
    while i < an
        invariant
            an == a@.len(),
            an == b@.len(),
            i <= an,
            forall|k: int| 0 <= k < i ==> a@[k] == b@[k],
        decreases an - i,
    {
        if a.get_char(i) != b.get_char(i) {
            return false;
        }
        i = i + 1;
    }
    proof {
        assert(a@ =~= b@);
    }
    true
}

/// Finds the member carrying `name`, if exactly one does.
fn find_unique(members: &Vec<(String, Json)>, name: &str) -> (r: Option<usize>)
    ensures
        ({
            let ms = jmembers_of(members@);
            match r {
                Some(k) => count_key(ms, name@) == 1 && k < members@.len() && members@[
                    k as int
                ].0@ == name@ && get_key(ms, name@) == jval_of(members@[k as int].1),
                None => count_key(ms, name@) != 1,
            }
        }),
{
    let ghost ms = jmembers_of(members@);
    proof {
        jmembers_of_props(members@);
        assert(ms.subrange(0, 0) =~= Seq::<(Seq<char>, JVal)>::empty());
    }
    let n = members.len();
    let mut cnt: usize = 0;
    let mut fidx: Option<usize> = None;
    let mut i: usize = 0;
    while i < n
        invariant
            n == members@.len(),
            ms == jmembers_of(members@),
            ms.len() == n,
            forall|k: int| 0 <= k < n ==> ms[k] == (#[trigger] members@[k].0@, jval_of(
                members@[k].1,
            )),
            i <= n,
            cnt <= i,
            cnt == count_key(ms.subrange(0, i as int), name@),
            match fidx {
                Some(k) => k < i && members@[k as int].0@ == name@ && get_key(
                    ms.subrange(0, i as int),
                    name@,
                ) == jval_of(members@[k as int].1) && cnt >= 1,
                None => cnt == 0,
            },
        decreases n - i,
    {
        let ghost pre = ms.subrange(0, i as int);
        let ghost cur = ms.subrange(0, i + 1);
        proof {
            assert(cur.drop_last() =~= pre);
            assert(cur.last() == ms[i as int]);
        }
        if str_eq(members[i].0.as_str(), name) {
            cnt = cnt + 1;
            fidx = Some(i);
        }
        i = i + 1;
    }
    proof {
        assert(ms.subrange(0, n as int) =~= ms);
    }
    if cnt == 1 {
        fidx
    } else {
        None
    }
}

/// The string held by a JSON value, where it is one.
fn as_json_str<'a>(j: &'a Json) -> (r: Option<&'a String>)
    ensures
        match r {
            Some(s) => jval_of(*j) == JVal::Str(s@),
            None => !(jval_of(*j) is Str),
        },
{
    match j {
        Json::Str(s) => Some(s),
        _ => None,
    }
}

/// The message a JSON value stands for, as executable data.
fn msg_from_json(v: &Json) -> (r: Option<ChatMessage>)
    ensures
        match r {
            Some(m) => msg_of(v@) == Some(m@),
            None => msg_of(v@) is None,
        },
{
    match v {
        Json::Obj(members) => {
            let ri = match find_unique(members, "role") {
                Some(k) => k,
                None => {
                    return None;
                },
            };
            let ci = match find_unique(members, "content") {
                Some(k) => k,
                None => {
                    return None;
                },
            };
            let role = match as_json_str(&members[ri].1) {
                Some(s) => s.clone(),
                None => {
                    return None;
                },
            };
            let content = match as_json_str(&members[ci].1) {
                Some(s) => s.clone(),
                None => {
                    return None;
                },
            };
            Some(ChatMessage { role, content })
        },
        _ => None,
    }
}

/// The choice a JSON value stands for, as executable data.
fn choice_from_json(v: &Json) -> (r: Option<ChatChoice>)
    ensures
        match r {
            Some(c) => choice_of(v@) == Some(c@),
            None => choice_of(v@) is None,
        },
{
    match v {
        Json::Obj(members) => {
            let mi = match find_unique(members, "message") {
                Some(k) => k,
                None => {
                    return None;
                },
            };
            match msg_from_json(&members[mi].1) {
                Some(m) => Some(ChatChoice { message: m }),
                None => None,
            }
        },
        _ => None,
    }
}

/// The response a JSON value stands for, as executable data.
fn response_from_json(v: &Json) -> (r: Option<ChatResponse>)
    ensures
        match r {
            Some(resp) => response_of(v@) == Some(resp@),
            None => response_of(v@) is None,
        },
{
    match v {
        Json::Obj(members) => {
            let ci = match find_unique(members, "choices") {
                Some(k) => k,
                None => {
                    return None;
                },
            };
            match &members[ci].1 {
                Json::Arr(items) => {
                    let ghost vs = jvals_of(items@);
                    proof {
                        jvals_of_props(items@);
                        assert(vs.subrange(0, 0) =~= Seq::<JVal>::empty());
                        assert(jval_of(members@[ci as int].1) == JVal::Arr(vs));
                        assert(v@ == JVal::Obj(jmembers_of(members@)));
                    }
                    let n = items.len();
                    let mut choices: Vec<ChatChoice> = Vec::new();
                    let mut i: usize = 0;
                    while i < n
                        invariant
                            n == items@.len(),
                            vs == jvals_of(items@),
                            vs.len() == n,
                            forall|k: int| 0 <= k < n ==> vs[k] == jval_of(#[trigger] items@[k]),
                            i <= n,
                            choices@.len() == i,
                            choices_of(vs.subrange(0, i as int)) == Some(choices_view(choices@)),
                            ci < members@.len(),
                            count_key(jmembers_of(members@), "choices"@) == 1,
                            get_key(jmembers_of(members@), "choices"@) == JVal::Arr(vs),
                            v@ == JVal::Obj(jmembers_of(members@)),
                        decreases n - i,
                    {
                        let ghost pre = vs.subrange(0, i as int);
                        let ghost cur = vs.subrange(0, i + 1);
                        proof {
                            assert(cur.drop_last() =~= pre);
                            assert(cur.last() == vs[i as int]);
                        }
                        match choice_from_json(&items[i]) {
                            Some(c) => {
                                let ghost old_c = choices@;
                                choices.push(c);
                                proof {
                                    assert(choices@.drop_last() =~= old_c);
                                    assert(choices@.last() == c);
                                    assert(choices_view(choices@) == choices_view(old_c).push(c@));
                                }
                            },
                            None => {
                                proof {
                                    choices_of_none(vs, i as int);
                                }
                                return None;
                            },
                        }
                        i = i + 1;
                    }
                    proof {
                        assert(vs.subrange(0, n as int) =~= vs);
                    }
                    Some(ChatResponse { choices })
                },
                _ => None,
            }
        },
        _ => None,
    }
}

/// The success range of HTTP statuses.
pub open spec fn is_success(status: u16) -> bool {
    200 <= status < 300
}

/// Interprets what came back from the endpoint.  A non-success status
/// becomes the upstream error carrying status and body; a success status
/// with a body that is not a well-formed response becomes the parse
/// error; otherwise the parsed response is returned, its choices exactly
/// those of the body.
pub fn interpret_response(status: u16, body: &str) -> (r: Result<ChatResponse, ChatError>)
    ensures
        !is_success(status) ==> (r matches Err(e) && e matches ChatError::Upstream(st, b)
            && st == status && b@ == body@),
        is_success(status) ==> match parse_json(body@) {
            None => r matches Err(e) && e is Parse,
            Some(v) => match response_of(v) {
                None => r matches Err(e) && e is Parse,
                Some(rv) => r matches Ok(resp) && resp@ == rv,
            },
        },
{
    if !(status >= 200 && status < 300) {
        return Err(ChatError::Upstream(status, body.to_owned()));
    }
    match crate::json::parse_text(body) {
        None => Err(ChatError::Parse),
        Some(v) => match response_from_json(&v) {
            None => Err(ChatError::Parse),
            Some(resp) => Ok(resp),
        },
    }
}

} // verus!

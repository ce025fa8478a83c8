//! The control protocol: the request/response contract by which workers and
//! clients observe and mutate the task store. Text-based, one request per
//! connection: a request line, then headers, then an optional JSON body.
//! The connection handling itself — reading a complete request, writing the
//! response — stands outside; everything decided here is verified.

use vstd::prelude::*;
use vstd::string::StrSliceExecFns;
use vstd::string::StringExecFns;

use crate::error::OrchError;
use crate::json::{
    status_of_str, status_from_str, task_json, task_to_json, tasks_json, tasks_to_json,
};
use crate::scheduler::{selected_node, swept_store, swept_task};
use crate::store::{contains_id, lookup, updated_store, TaskStore};
use crate::store::assigned_store;
use crate::task::{
    env_keys_unique, is_uuid_string, now_millis, opt_view, submitted_task, task_models,
    uuid_char_ok, Task, TaskModel, TaskStatus,
};
use crate::text::{dec_str, usize_to_string};

verus! {

/// Whether `s` begins with `p`.
pub open spec fn starts_with(s: Seq<char>, p: Seq<char>) -> bool {
    s.len() >= p.len() && s.take(p.len() as int) == p
}

/// Character-wise prefix test.
pub fn str_starts_with(s: &str, p: &str) -> (r: bool)
    ensures
        r == starts_with(s@, p@),
{
    let n = s.unicode_len();
    let m = p.unicode_len();
    if n < m {
        return false;
    }
    let mut i: usize = 0;
    while i < m
        invariant
            n == s@.len(),
            m == p@.len(),
            m <= n,
            i <= m,
            forall|j: int| 0 <= j < i ==> s@[j] == p@[j],
        decreases m - i,
    {
        if s.get_char(i) != p.get_char(i) {
            return false;
        }
        i = i + 1;
    }
    proof {
        assert(s@.take(p@.len() as int) =~= p@);
    }
    true
}

/// The three request shapes the protocol answers.
pub open spec fn is_get(req: Seq<char>) -> bool {
    starts_with(req, "GET /tasks"@)
}

/// Whether the request is a task submission.
pub open spec fn is_post(req: Seq<char>) -> bool {
    starts_with(req, "POST /tasks"@)
}

/// Whether the request is a status update.
pub open spec fn is_put(req: Seq<char>) -> bool {
    starts_with(req, "PUT /tasks"@)
}

/// Whether the four characters at `i` are the blank line separating the
/// request head from its body.
pub open spec fn sep_at(s: Seq<char>, i: int) -> bool {
    0 <= i && i + 4 <= s.len() && s.subrange(i, i + 4) == "\r\n\r\n"@
}

/// The position of the last head/body separator at or before `p`, if any.
pub open spec fn last_sep_at_or_before(s: Seq<char>, p: int) -> Option<int>
    decreases p + 1,
{
    if p < 0 {
        None
    } else if sep_at(s, p) {
        Some(p)
    } else {
        last_sep_at_or_before(s, p - 1)
    }
}

/// The request body: everything after the last blank line, or the whole
/// request when there is none.
pub open spec fn body_of(s: Seq<char>) -> Seq<char> {
    match last_sep_at_or_before(s, s.len() - 4) {
        Some(k) => s.subrange(k + 4, s.len() as int),
        None => s,
    }
}

/// Below `top`, the search for the last separator passes every position
/// without one.
proof fn lemma_last_sep_down(s: Seq<char>, top: int, p: int)
    requires
        -1 <= p <= top,
        forall|q: int| p < q <= top ==> !sep_at(s, q),
    ensures
        last_sep_at_or_before(s, top) == last_sep_at_or_before(s, p),
    decreases top - p,
{
    if top > p {
        lemma_last_sep_down(s, top - 1, p);
    }
}

/// Whether the four characters at `p` are the head/body separator.
fn is_sep_here(s: &str, p: usize) -> (r: bool)
    requires
        p + 4 <= s@.len(),
        p + 4 <= usize::MAX,
    ensures
        r == sep_at(s@, p as int),
{
    proof {
        reveal_strlit("\r\n\r\n");
    }
    let r = s.get_char(p) == '\r' && s.get_char(p + 1) == '\n' && s.get_char(p + 2) == '\r'
        && s.get_char(p + 3) == '\n';
    proof {
        if r {
            assert(s@.subrange(p as int, p as int + 4) =~= "\r\n\r\n"@);
        }
        if sep_at(s@, p as int) {
            assert(s@.subrange(p as int, p as int + 4)[0] == s@[p as int]);
            assert(s@.subrange(p as int, p as int + 4)[1] == s@[p as int + 1]);
            assert(s@.subrange(p as int, p as int + 4)[2] == s@[p as int + 2]);
            assert(s@.subrange(p as int, p as int + 4)[3] == s@[p as int + 3]);
        }
    }
    r
}

/// Extracts the request body: everything after the last blank line, or the
/// whole request when there is none.
pub fn request_body<'a>(req: &'a str) -> (b: &'a str)
    ensures
        b@ == body_of(req@),
{
    let n = req.unicode_len();
    if n < 4 {
        proof {
            assert(last_sep_at_or_before(req@, n as int - 4) is None) by {
                assert(n as int - 4 < 0);
            }
        }
        return req;
    }
    let mut i: usize = n - 3;
    while i > 0
        invariant
            n == req@.len(),
            n >= 4,
            i <= n - 3,
            forall|q: int| i - 1 < q <= n - 4 ==> !sep_at(req@, q),
        decreases i,
    {
        let p = i - 1;
        if is_sep_here(req, p) {
            proof {
                lemma_last_sep_down(req@, n as int - 4, p as int);
                assert(last_sep_at_or_before(req@, p as int) == Some(p as int));
            }
            let b = req.substring_char(p + 4, n);
            return b;
        }
        i = i - 1;
    }
    proof {
        lemma_last_sep_down(req@, n as int - 4, -1);
    }
    req
}

/// Whether `c` is padding around a body: a NUL left by a read buffer, or
/// whitespace.
pub open spec fn is_pad(c: char) -> bool {
    c == '\u{0}' || c == ' ' || c == '\t' || c == '\r' || c == '\n'
}

/// `s` with padding stripped from both ends.
pub open spec fn trimmed(s: Seq<char>) -> Seq<char>
    decreases s.len(),
{
    if s.len() == 0 {
        s
    } else if is_pad(s[0]) {
        trimmed(s.drop_first())
    } else if is_pad(s[s.len() - 1]) {
        trimmed(s.drop_last())
    } else {
        s
    }
}

/// The trimmed body is the subrange between the outermost non-padding
/// characters.
proof fn lemma_trimmed_range(s: Seq<char>, lo: int, hi: int)
    requires
        0 <= lo <= hi <= s.len(),
        forall|j: int| 0 <= j < lo ==> is_pad(#[trigger] s[j]),
        forall|j: int| hi <= j < s.len() ==> is_pad(#[trigger] s[j]),
        lo < hi ==> !is_pad(s[lo]) && !is_pad(s[hi - 1]),
    ensures
        trimmed(s) == s.subrange(lo, hi),
    decreases s.len(),
{
    if s.len() == 0 {
        assert(s.subrange(lo, hi) =~= s);
    } else if is_pad(s[0]) {
        if lo == hi {
            lemma_trimmed_range(s.drop_first(), 0, 0);
            assert(s.subrange(lo, hi) =~= s.drop_first().subrange(0, 0));
        } else {
            assert(lo >= 1);
            assert(forall|j: int|
                0 <= j < lo - 1 ==> is_pad(#[trigger] s.drop_first()[j]));
            assert(forall|j: int|
                hi - 1 <= j < s.len() - 1 ==> is_pad(#[trigger] s.drop_first()[j]));
            lemma_trimmed_range(s.drop_first(), lo - 1, hi - 1);
            assert(s.subrange(lo, hi) =~= s.drop_first().subrange(lo - 1, hi - 1));
        }
    } else if is_pad(s[s.len() - 1]) {
        assert(lo == 0);
        assert(lo < hi);
        assert(hi < s.len());
        assert(forall|j: int|
            hi <= j < s.len() - 1 ==> is_pad(#[trigger] s.drop_last()[j]));
        lemma_trimmed_range(s.drop_last(), lo, hi);
        assert(s.subrange(lo, hi) =~= s.drop_last().subrange(lo, hi));
    } else {
        assert(lo == 0);
        assert(hi == s.len());
        assert(s.subrange(lo, hi) =~= s);
    }
}

/// Whether `c` is padding.
fn is_pad_char(c: char) -> (r: bool)
    ensures
        r == is_pad(c),
{
    c == '\u{0}' || c == ' ' || c == '\t' || c == '\r' || c == '\n'
}

/// Strips padding — NUL bytes left by a read buffer, and whitespace — from
/// both ends of a body.
pub fn trim_body<'a>(s: &'a str) -> (r: &'a str)
    ensures
        r@ == trimmed(s@),
{
    let n = s.unicode_len();
    let mut lo: usize = 0;
    let mut lo_done = false;
    while !lo_done
        invariant
            n == s@.len(),
            lo <= n,
            forall|j: int| 0 <= j < lo ==> is_pad(#[trigger] s@[j]),
            lo_done ==> (lo == n || !is_pad(s@[lo as int])),
        decreases 2 * (n - lo) + (if lo_done { 0int } else { 1 }),
    {
        if lo < n {
            if is_pad_char(s.get_char(lo)) {
                lo = lo + 1;
            } else {
                lo_done = true;
            }
        } else {
            lo_done = true;
        }
    }
    if lo == n {
        proof {
            lemma_trimmed_range(s@, 0, 0);
        }
        let r = s.substring_char(0, 0);
        return r;
    }
    let mut hi: usize = n;
    let mut hi_done = false;
    while !hi_done
        invariant
            n == s@.len(),
            lo < n,
            !is_pad(s@[lo as int]),
            lo < hi <= n,
            forall|j: int| hi <= j < n ==> is_pad(#[trigger] s@[j]),
            hi_done ==> !is_pad(s@[hi - 1]),
        decreases 2 * hi + (if hi_done { 0int } else { 1 }),
    {
        if is_pad_char(s.get_char(hi - 1)) {
            hi = hi - 1;
        } else {
            hi_done = true;
        }
    }
    proof {
        lemma_trimmed_range(s@, lo as int, hi as int);
    }
    let r = s.substring_char(lo, hi);
    r
}

/// Whether `c` ends the identifier segment of a request target.
pub open spec fn is_id_delim(c: char) -> bool {
    c == '/' || c == ' ' || c == '\t' || c == '\r' || c == '\n'
}

/// The position of the first segment delimiter at or after `k`.
pub open spec fn scan_id_end(s: Seq<char>, k: int) -> int
    decreases s.len() - k,
{
    if k >= s.len() {
        s.len() as int
    } else if is_id_delim(s[k]) {
        k
    } else {
        scan_id_end(s, k + 1)
    }
}

/// The identifier segment of a status-update target: the characters after
/// `PUT /tasks/` up to the next `/` or the end of the token. `None` when
/// the target has no identifier segment at all.
pub open spec fn put_id_of(s: Seq<char>) -> Option<Seq<char>> {
    if s.len() >= 11 && s[10] == '/' {
        Some(s.subrange(11, scan_id_end(s, 11)))
    } else {
        None
    }
}

/// Whether `c` ends an identifier segment.
fn is_id_delim_char(c: char) -> (r: bool)
    ensures
        r == is_id_delim(c),
{
    c == '/' || c == ' ' || c == '\t' || c == '\r' || c == '\n'
}

/// Extracts the identifier segment of a status-update target.
pub fn put_task_id<'a>(req: &'a str) -> (r: Option<&'a str>)
    ensures
        match r {
            Some(id) => put_id_of(req@) == Some(id@),
            None => put_id_of(req@) is None,
        },
{
    let n = req.unicode_len();
    if n < 11 {
        return None;
    }
    if req.get_char(10) != '/' {
        return None;
    }
    let mut e: usize = 11;
    let mut done = false;
    while !done
        invariant
            n == req@.len(),
            n >= 11,
            11 <= e <= n,
            scan_id_end(req@, 11) == scan_id_end(req@, e as int),
            done ==> (e == n || is_id_delim(req@[e as int])),
        decreases 2 * (n - e) + (if done { 0int } else { 1 }),
    {
        if e < n {
            if is_id_delim_char(req.get_char(e)) {
                done = true;
            } else {
                e = e + 1;
            }
        } else {
            done = true;
        }
    }
    proof {
        assert(scan_id_end(req@, e as int) == e as int);
    }
    let id = req.substring_char(11, e);
    Some(id)
}

/// Checks that `s` is a canonical textual UUID.
pub fn is_valid_task_id(s: &str) -> (r: bool)
    ensures
        r == is_uuid_string(s@),
{
    let n = s.unicode_len();
    if n != 36 {
        return false;
    }
    let mut i: usize = 0;
    while i < 36
        invariant
            n == s@.len(),
            n == 36,
            i <= 36,
            forall|j: int| 0 <= j < i ==> uuid_char_ok(#[trigger] s@[j], j),
        decreases 36 - i,
    {
        let c = s.get_char(i);
        let u = c as u32;
        let ok = if i == 8 || i == 13 || i == 18 || i == 23 {
            c == '-'
        } else {
            (48 <= u && u <= 57) || (97 <= u && u <= 102)
        };
        if !ok {
            return false;
        }
        i = i + 1;
    }
    true
}

/// The byte length of a body, as the Content-Length header counts it.
pub open spec fn content_length_of(body: Seq<char>) -> int {
    (vstd::utf8::encode_utf8(body).len() as usize) as int
}

/// A response carrying a JSON body.
pub open spec fn json_response(status_line: Seq<char>, body: Seq<char>) -> Seq<char> {
    "HTTP/1.1 "@ + status_line + "\r\nContent-Type: application/json\r\nContent-Length: "@
        + dec_str(content_length_of(body)) + "\r\n\r\n"@ + body
}

/// A response without a body.
pub open spec fn empty_response(status_line: Seq<char>) -> Seq<char> {
    "HTTP/1.1 "@ + status_line + "\r\nContent-Length: 0\r\n\r\n"@
}

/// Renders a response with a JSON body; the Content-Length header carries
/// the body's byte length.
fn json_response_string(status_line: &str, body: String) -> (r: String)
    ensures
        r@ == json_response(status_line@, body@),
{
    let mut out = "HTTP/1.1 ".to_owned();
    out.append(status_line);
    out.append("\r\nContent-Type: application/json\r\nContent-Length: ");
    let blen = body.as_str().len();
    let ls = usize_to_string(blen);
    out.append(ls.as_str());
    out.append("\r\n\r\n");
    out.append(body.as_str());
    proof {
        assert(out@ =~= json_response(status_line@, body@));
    }
    out
}

/// Renders a response without a body.
fn empty_response_string(status_line: &str) -> (r: String)
    ensures
        r@ == empty_response(status_line@),
{
    let mut out = "HTTP/1.1 ".to_owned();
    out.append(status_line);
    out.append("\r\nContent-Length: 0\r\n\r\n");
    proof {
        assert(out@ =~= empty_response(status_line@));
    }
    out
}

/// What the JSON parser makes of a submission body: nothing when the body
/// is not JSON; else the `name` and `image` string members, each absent
/// when missing or not a string.
pub uninterp spec fn submit_fields_of(body: Seq<char>) -> Option<
    (Option<Seq<char>>, Option<Seq<char>>),
>;

/// The views of a parsed submission body.
pub open spec fn submit_fields_view(r: Option<(Option<String>, Option<String>)>) -> Option<
    (Option<Seq<char>>, Option<Seq<char>>),
> {
    match r {
        Some(p) => Some((opt_view(p.0), opt_view(p.1))),
        None => None,
    }
}

/// Relies on `serde_json::from_str::<serde_json::Value>` to decide whether
/// the body is JSON, and on `serde_json::Value::get` and
/// `serde_json::Value::as_str` to read its `name` and `image` members; the
/// result is a function of the body alone.
#[verifier::external_body]
fn parse_submit_fields(body: &str) -> (r: Option<(Option<String>, Option<String>)>)
    ensures
        submit_fields_view(r) == submit_fields_of(body@),
{
    match serde_json::from_str::<serde_json::Value>(body) {
        Ok(v) => {
            let name = v.get("name").and_then(|x| x.as_str()).map(|x| x.to_string());
            let image = v.get("image").and_then(|x| x.as_str()).map(|x| x.to_string());
            Some((name, image))
        },
        Err(_) => None,
    }
}

/// What the JSON parser makes of a status-update body: nothing when the
/// body is not JSON, its `status` member is missing or not a string, or its
/// `container_id` member is present but neither a string nor null; else the
/// status name and the container identifier.
pub uninterp spec fn status_fields_of(body: Seq<char>) -> Option<(Seq<char>, Option<Seq<char>>)>;

/// The views of a parsed status-update body.
pub open spec fn status_fields_view(r: Option<(String, Option<String>)>) -> Option<
    (Seq<char>, Option<Seq<char>>),
> {
    match r {
        Some(p) => Some((p.0@, opt_view(p.1))),
        None => None,
    }
}

/// Relies on `serde_json::from_str::<serde_json::Value>` to decide whether
/// the body is JSON, and on `serde_json::Value::get` to read its `status`
/// and `container_id` members; the result is a function of the body alone.
#[verifier::external_body]
fn parse_status_fields(body: &str) -> (r: Option<(String, Option<String>)>)
    ensures
        status_fields_view(r) == status_fields_of(body@),
{
    let v = match serde_json::from_str::<serde_json::Value>(body) {
        Ok(v) => v,
        Err(_) => return None,
    };
    let status = match v.get("status") {
        Some(serde_json::Value::String(s)) => s.clone(),
        _ => return None,
    };
    let cid = match v.get("container_id") {
        None | Some(serde_json::Value::Null) => None,
        Some(serde_json::Value::String(s)) => Some(s.clone()),
        Some(_) => return None,
    };
    Some((status, cid))
}

/// Submits a task: builds it in `Pending` state with a server-generated
/// identifier and timestamp and inserts it into the store. The identifier
/// of a successful submission was held by no task before it — in the
/// vanishingly unlikely event of a collision the submission is refused as a
/// store fault and nothing changes.
pub fn submit_task(store: &mut TaskStore, name: String, image: String) -> (r: Result<
    Task,
    OrchError,
>)
    requires
        old(store).wf(),
    ensures
        final(store).wf(),
        match r {
            Ok(t) => {
                &&& t@.status == TaskStatus::Pending
                &&& t@.node_id is None
                &&& t@.container_id is None
                &&& t@.started_at is None
                &&& t@.name == name@
                &&& t@.image == image@
                &&& t@.memory == 256
                &&& t@.cpu_milli == 500
                &&& t@.env == Seq::<(Seq<char>, Seq<char>)>::empty()
                &&& is_uuid_string(t@.id)
                &&& !contains_id(old(store)@, t@.id)
                &&& t@ == submitted_task(t@.id, name@, image@, t@.created_at)
                &&& final(store)@ == old(store)@.push(t@)
            },
            Err(e) => final(store)@ == old(store)@ && e is TaskStoreError && old(store)@.len()
                > 0,
        },
{
    let t = Task::new(name, image);
    let copy = t.clone();
    match store.add_task(t) {
        Ok(()) => Ok(copy),
        Err(e) => Err(e),
    }
}

/// What a completed submission request does to the store and answers: a
/// body that is not JSON, or that lacks a `name` or `image` string member,
/// is malformed input — refused with 400, changing nothing; a body with
/// both members yields a fresh `Pending` task appended to the store and
/// echoed back with 201.
pub open spec fn post_outcome(
    s0: Seq<TaskModel>,
    req: Seq<char>,
    s1: Seq<TaskModel>,
    resp: Seq<char>,
) -> bool {
    match submit_fields_of(trimmed(body_of(req))) {
        None => s1 == s0 && resp == empty_response("400 BAD REQUEST"@),
        Some(f) => match (f.0, f.1) {
            (Some(name), Some(image)) => exists|id: Seq<char>, created: int|
                is_uuid_string(id) && !contains_id(s0, id) && s1 == s0.push(
                    #[trigger] submitted_task(id, name, image, created),
                ) && resp == json_response(
                    "201 CREATED"@,
                    task_json(submitted_task(id, name, image, created)),
                ),
            _ => s1 == s0 && resp == empty_response("400 BAD REQUEST"@),
        },
    }
}

/// Handles a task submission.
pub fn handle_post_task(store: &mut TaskStore, req: &str) -> (r: Result<String, OrchError>)
    requires
        old(store).wf(),
    ensures
        final(store).wf(),
        match r {
            Ok(resp) => post_outcome(old(store)@, req@, final(store)@, resp@),
            Err(e) => final(store)@ == old(store)@ && e is TaskStoreError && (submit_fields_of(
                trimmed(body_of(req@)),
            ) matches Some(f) && f.0 is Some && f.1 is Some) && old(store)@.len() > 0,
        },
{
    let body = trim_body(request_body(req));
    match parse_submit_fields(body) {
        None => Ok(empty_response_string("400 BAD REQUEST")),
        Some((name_opt, image_opt)) => match (name_opt, image_opt) {
            (Some(name), Some(image)) => match submit_task(store, name, image) {
                Ok(t) => {
                    let body = task_to_json(&t);
                    let resp = json_response_string("201 CREATED", body);
                    Ok(resp)
                },
                Err(e) => Err(e),
            },
            _ => Ok(empty_response_string("400 BAD REQUEST")),
        },
    }
}

/// The tasks of `s` in `Scheduled` state, in store order: the feed a worker
/// polls to discover newly assigned work.
pub open spec fn scheduled_of(s: Seq<TaskModel>) -> Seq<TaskModel>
    decreases s.len(),
{
    if s.len() == 0 {
        Seq::empty()
    } else if s[0].status == TaskStatus::Scheduled {
        seq![s[0]] + scheduled_of(s.drop_first())
    } else {
        scheduled_of(s.drop_first())
    }
}

/// Filtering one more task keeps it exactly when it is scheduled.
pub proof fn lemma_scheduled_push(s: Seq<TaskModel>, t: TaskModel)
    ensures
        scheduled_of(s.push(t)) == if t.status == TaskStatus::Scheduled {
            scheduled_of(s).push(t)
        } else {
            scheduled_of(s)
        },
    decreases s.len(),
{
    if s.len() == 0 {
        assert(s.push(t).drop_first() =~= s);
        if t.status == TaskStatus::Scheduled {
            assert(seq![t] + scheduled_of(s) =~= scheduled_of(s).push(t));
        }
    } else {
        assert(s.push(t).drop_first() =~= s.drop_first().push(t));
        lemma_scheduled_push(s.drop_first(), t);
        if s[0].status == TaskStatus::Scheduled && t.status == TaskStatus::Scheduled {
            assert(seq![s[0]] + scheduled_of(s.drop_first()).push(t) =~= (seq![s[0]]
                + scheduled_of(s.drop_first())).push(t));
        }
    }
}

/// Law: the feed holds exactly tasks in `Scheduled` state — never Pending,
/// Running, Complete or Failed — and each of them stands in the store.
pub proof fn lemma_feed_scheduled(s: Seq<TaskModel>)
    ensures
        forall|i: int|
            0 <= i < scheduled_of(s).len() ==> (#[trigger] scheduled_of(s)[i]).status
                == TaskStatus::Scheduled && exists|j: int|
                0 <= j < s.len() && s[j] == scheduled_of(s)[i],
    decreases s.len(),
{
    if s.len() > 0 {
        lemma_feed_scheduled(s.drop_first());
        let f = scheduled_of(s);
        let fr = scheduled_of(s.drop_first());
        assert forall|i: int|
            0 <= i < f.len() implies (#[trigger] f[i]).status == TaskStatus::Scheduled && exists|
        j: int|
            0 <= j < s.len() && s[j] == f[i] by {
            if s[0].status == TaskStatus::Scheduled {
                if i == 0 {
                    assert(f[0] == s[0]);
                } else {
                    assert(f[i] == fr[i - 1]);
                    let j = choose|j: int|
                        0 <= j < s.drop_first().len() && s.drop_first()[j] == fr[i - 1];
                    assert(s[j + 1] == f[i]);
                }
            } else {
                assert(f[i] == fr[i]);
                let j = choose|j: int|
                    0 <= j < s.drop_first().len() && s.drop_first()[j] == fr[i];
                assert(s[j + 1] == f[i]);
            }
        }
    }
}

/// Every scheduled task carries a node assignment. This holds of every
/// store the library's own operations produce; a status update that names
/// `Scheduled` for a task that was never assigned is the one way to break
/// it, since updates never touch the node field.
pub open spec fn node_discipline(s: Seq<TaskModel>) -> bool {
    forall|i: int|
        0 <= i < s.len() ==> ((#[trigger] s[i]).status == TaskStatus::Scheduled ==> s[i].node_id
            is Some)
}

/// Law: under the node discipline, every task the feed returns carries a
/// node assignment.
pub proof fn lemma_feed_has_nodes(s: Seq<TaskModel>)
    requires
        node_discipline(s),
    ensures
        forall|i: int|
            0 <= i < scheduled_of(s).len() ==> (#[trigger] scheduled_of(s)[i]).node_id is Some,
{
    lemma_feed_scheduled(s);
    assert forall|i: int|
        0 <= i < scheduled_of(s).len() implies (#[trigger] scheduled_of(s)[i]).node_id
        is Some by {
        let j = choose|j: int| 0 <= j < s.len() && s[j] == scheduled_of(s)[i];
        assert(s[j].status == TaskStatus::Scheduled);
    }
}

/// Submitting a pending task preserves the node discipline.
pub proof fn lemma_discipline_submit(s: Seq<TaskModel>, t: TaskModel)
    requires
        node_discipline(s),
        t.status == TaskStatus::Pending,
    ensures
        node_discipline(s.push(t)),
{
}

/// Assigning a node preserves the node discipline.
pub proof fn lemma_discipline_assign(s: Seq<TaskModel>, id: Seq<char>, node: Seq<char>)
    requires
        node_discipline(s),
    ensures
        node_discipline(assigned_store(s, id, node)),
{
}

/// A status update to anything but `Scheduled` preserves the node
/// discipline; one that names `Scheduled` for an unassigned task is the
/// input on which the discipline can be lost.
pub proof fn lemma_discipline_update(
    s: Seq<TaskModel>,
    id: Seq<char>,
    status: TaskStatus,
    cid: Option<Seq<char>>,
    now_ms: int,
)
    requires
        node_discipline(s),
        status != TaskStatus::Scheduled,
    ensures
        node_discipline(updated_store(s, id, status, cid, now_ms)),
{
}

/// A scheduling sweep preserves the node discipline.
pub proof fn lemma_discipline_sweep(s: Seq<TaskModel>, nodes: Seq<crate::node::Node>)
    requires
        node_discipline(s),
    ensures
        node_discipline(swept_store(s, nodes)),
{
}

/// A task in `Scheduled` state stands in the feed of its store.
pub proof fn lemma_scheduled_of_contains(s: Seq<TaskModel>, k: int)
    requires
        0 <= k < s.len(),
        s[k].status == TaskStatus::Scheduled,
    ensures
        exists|i: int| 0 <= i < scheduled_of(s).len() && #[trigger] scheduled_of(s)[i] == s[k],
    decreases s.len(),
{
    if k == 0 {
        assert(scheduled_of(s)[0] == s[0]);
    } else {
        lemma_scheduled_of_contains(s.drop_first(), k - 1);
        let i = choose|i: int|
            0 <= i < scheduled_of(s.drop_first()).len() && #[trigger] scheduled_of(
                s.drop_first(),
            )[i] == s.drop_first()[k - 1];
        assert(s.drop_first()[k - 1] == s[k]);
        if s[0].status == TaskStatus::Scheduled {
            assert(scheduled_of(s)[i + 1] == scheduled_of(s.drop_first())[i]);
        } else {
            assert(scheduled_of(s)[i] == scheduled_of(s.drop_first())[i]);
        }
    }
}

/// Law: the submit-then-schedule chain. A freshly submitted pending task
/// that some node can take stands, after one scheduling sweep, in the
/// Scheduled-feed: scheduled, under its own identifier, with a node
/// assigned.
pub proof fn lemma_submit_then_sweep_in_feed(
    s0: Seq<TaskModel>,
    t: TaskModel,
    nodes: Seq<crate::node::Node>,
)
    requires
        t.status == TaskStatus::Pending,
        selected_node(nodes, t) is Some,
    ensures
        exists|i: int|
            0 <= i < scheduled_of(swept_store(s0.push(t), nodes)).len() && (
            #[trigger] scheduled_of(swept_store(s0.push(t), nodes))[i]).id == t.id
                && scheduled_of(swept_store(s0.push(t), nodes))[i].status
                == TaskStatus::Scheduled && scheduled_of(swept_store(s0.push(t), nodes))[i].node_id
                is Some,
{
    let s1 = s0.push(t);
    let s2 = swept_store(s1, nodes);
    let k = s0.len() as int;
    assert(s1[k] == t);
    assert(s2[k] == swept_task(t, nodes));
    assert(s2[k].status == TaskStatus::Scheduled);
    assert(s2[k].id == t.id);
    assert(s2[k].node_id is Some);
    lemma_scheduled_of_contains(s2, k);
}

/// The Scheduled-task feed, as copies, in store order.
pub fn scheduled_tasks(store: &TaskStore) -> (r: Vec<Task>)
    ensures
        task_models(r@) == scheduled_of(store@),
{
    let all = match store.list_tasks() {
        Ok(v) => v,
        Err(_) => {
            proof {
                assert(false);
            }
            Vec::new()
        },
    };
    let ghost m = store@;
    proof {
        assert(task_models(all@) =~= m);
    }
    let mut out: Vec<Task> = Vec::new();
    let mut i: usize = 0;
    while i < all.len()
        invariant
            all@.len() == m.len(),
            forall|j: int| 0 <= j < m.len() ==> (#[trigger] all@[j])@ == m[j],
            i <= m.len(),
            task_models(out@) == scheduled_of(m.take(i as int)),
        decreases m.len() - i,
    {
        proof {
            assert(m.take(i as int + 1) =~= m.take(i as int).push(m[i as int]));
            lemma_scheduled_push(m.take(i as int), m[i as int]);
        }
        if all[i].status == TaskStatus::Scheduled {
            let t = all[i].clone();
            out.push(t);
            proof {
                assert(task_models(out@) =~= scheduled_of(m.take(i as int)).push(m[i as int]));
            }
        }
        i = i + 1;
    }
    proof {
        assert(m.take(m.len() as int) =~= m);
    }
    out
}

/// Handles the feed request: answers 200 with the scheduled tasks as JSON.
/// Every task of the feed is in `Scheduled` state, and when the store obeys
/// the node discipline each of them carries a node assignment.
pub fn handle_get_tasks(store: &TaskStore) -> (r: String)
    requires
        store.wf(),
    ensures
        r@ == json_response("200 OK"@, tasks_json(scheduled_of(store@))),
        forall|i: int|
            0 <= i < scheduled_of(store@).len() ==> (#[trigger] scheduled_of(store@)[i]).status
                == TaskStatus::Scheduled,
        node_discipline(store@) ==> forall|i: int|
            0 <= i < scheduled_of(store@).len() ==> (#[trigger] scheduled_of(store@)[i]).node_id
                is Some,
{
    let feed = scheduled_tasks(store);
    proof {
        lemma_feed_scheduled(store@);
        assert forall|i: int| 0 <= i < feed@.len() implies env_keys_unique(
            (#[trigger] feed@[i])@.env,
        ) by {
            assert(feed@[i]@ == task_models(feed@)[i]);
            let j = choose|j: int|
                0 <= j < store@.len() && store@[j] == task_models(feed@)[i];
            assert(env_keys_unique(store@[j].env));
        }
        if node_discipline(store@) {
            lemma_feed_has_nodes(store@);
        }
    }
    let body = tasks_to_json(&feed);
    json_response_string("200 OK", body)
}

/// The store `s1` is `s0` with the task `id` updated at some moment: the
/// store does not choose the clock's reading.
pub open spec fn updated_at_some_time(
    s0: Seq<TaskModel>,
    id: Seq<char>,
    st: TaskStatus,
    cid: Option<Seq<char>>,
    s1: Seq<TaskModel>,
) -> bool {
    exists|now: int| s1 == #[trigger] updated_store(s0, id, st, cid, now)
}

/// What a completed status-update request does to the store and answers: a
/// target without a well-formed identifier, an unparseable body, an unknown
/// status name, or an identifier no task carries is refused with 404 and
/// changes nothing; otherwise the task is updated and the answer is a bare
/// 200.
pub open spec fn put_outcome(
    s0: Seq<TaskModel>,
    req: Seq<char>,
    s1: Seq<TaskModel>,
    resp: Seq<char>,
) -> bool {
    match put_id_of(req) {
        None => s1 == s0 && resp == empty_response("404 NOT FOUND"@),
        Some(id) => if !is_uuid_string(id) {
            s1 == s0 && resp == empty_response("404 NOT FOUND"@)
        } else {
            match status_fields_of(trimmed(body_of(req))) {
                None => s1 == s0 && resp == empty_response("404 NOT FOUND"@),
                Some(f) => match status_of_str(f.0) {
                    None => s1 == s0 && resp == empty_response("404 NOT FOUND"@),
                    Some(st) => match lookup(s0, id) {
                        None => s1 == s0 && resp == empty_response("404 NOT FOUND"@),
                        Some(_) => updated_at_some_time(s0, id, st, f.1, s1) && resp
                            == empty_response("200 OK"@),
                    },
                },
            }
        },
    }
}

/// Handles a status update.
pub fn handle_update_status(store: &mut TaskStore, req: &str) -> (r: Result<String, OrchError>)
    requires
        old(store).wf(),
    ensures
        final(store).wf(),
        match r {
            Ok(resp) => put_outcome(old(store)@, req@, final(store)@, resp@),
            Err(_) => false,
        },
{
    let id = match put_task_id(req) {
        Some(id) => id,
        None => {
            return Ok(empty_response_string("404 NOT FOUND"));
        },
    };
    if !is_valid_task_id(id) {
        return Ok(empty_response_string("404 NOT FOUND"));
    }
    let body = trim_body(request_body(req));
    let parsed = match parse_status_fields(body) {
        Some(p) => p,
        None => {
            return Ok(empty_response_string("404 NOT FOUND"));
        },
    };
    let (status_name, container_id) = parsed;
    let status = match status_from_str(status_name.as_str()) {
        Some(st) => st,
        None => {
            return Ok(empty_response_string("404 NOT FOUND"));
        },
    };
    let now = now_millis();
    let ghost cidv = opt_view(container_id);
    match store.update_status(id, status, container_id, now) {
        Ok(true) => {
            proof {
                assert(status_fields_of(trimmed(body_of(req@))) == Some((status_name@, cidv)));
                assert(status_of_str(status_name@) == Some(status));
                assert(store@ == updated_store(old(store)@, id@, status, cidv, now as int));
                assert(updated_at_some_time(old(store)@, id@, status, cidv, store@));
            }
            Ok(empty_response_string("200 OK"))
        },
        Ok(false) => Ok(empty_response_string("404 NOT FOUND")),
        Err(_) => {
            proof {
                assert(false);
            }
            Ok(empty_response_string("404 NOT FOUND"))
        },
    }
}

/// Handles one complete request and yields the response to write back.
/// Routing goes by the request line's start, the feed before submissions
/// before updates; anything else is answered 404. An error is a store
/// fault: nothing was changed and no response is owed.
pub fn handle_request(store: &mut TaskStore, req: &str) -> (r: Result<String, OrchError>)
    requires
        old(store).wf(),
    ensures
        final(store).wf(),
        is_get(req@) ==> final(store)@ == old(store)@ && match r {
            Ok(resp) => resp@ == json_response("200 OK"@, tasks_json(scheduled_of(old(store)@))),
            Err(_) => false,
        },
        !is_get(req@) && is_post(req@) ==> match r {
            Ok(resp) => post_outcome(old(store)@, req@, final(store)@, resp@),
            Err(e) => final(store)@ == old(store)@ && e is TaskStoreError && (submit_fields_of(
                trimmed(body_of(req@)),
            ) matches Some(f) && f.0 is Some && f.1 is Some) && old(store)@.len() > 0,
        },
        !is_get(req@) && !is_post(req@) && is_put(req@) ==> match r {
            Ok(resp) => put_outcome(old(store)@, req@, final(store)@, resp@),
            Err(_) => false,
        },
        !is_get(req@) && !is_post(req@) && !is_put(req@) ==> final(store)@ == old(store)@
            && match r {
            Ok(resp) => resp@ == empty_response("404 NOT FOUND"@),
            Err(_) => false,
        },
{
    if str_starts_with(req, "GET /tasks") {
        let resp = handle_get_tasks(store);
        Ok(resp)
    } else if str_starts_with(req, "POST /tasks") {
        handle_post_task(store, req)
    } else if str_starts_with(req, "PUT /tasks") {
        handle_update_status(store, req)
    } else {
        Ok(empty_response_string("404 NOT FOUND"))
    }
}

} // verus!

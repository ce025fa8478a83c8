//! Verified rendering of tasks and protocol bodies as JSON text. The
//! library builds these strings itself, character by character, so that the
//! exact bytes a client sees are pinned by the specification.

use vstd::prelude::*;
use vstd::string::StrSliceExecFns;
use vstd::string::StringExecFns;

use crate::task::{env_keys_unique, env_view, opt_view, task_models, Task, TaskModel, TaskStatus};
use crate::text::{dec_digit, dec_digit_char, dec_str, int_str, i64_to_string, push_char, str_eq, u64_to_string};

verus! {

/// The lower-case hexadecimal digit character for `d`, which must lie in
/// `0 ..= 15`.
pub open spec fn hex_digit(d: int) -> char {
    if d < 10 {
        dec_digit(d)
    } else if d == 10 {
        'a'
    } else if d == 11 {
        'b'
    } else if d == 12 {
        'c'
    } else if d == 13 {
        'd'
    } else if d == 14 {
        'e'
    } else {
        'f'
    }
}

/// The hexadecimal digit character for `d`.
fn hex_digit_char(d: u32) -> (c: char)
    requires
        d < 16,
    ensures
        c == hex_digit(d as int),
{
    if d < 10 {
        dec_digit_char(d as u64)
    } else if d == 10 {
        'a'
    } else if d == 11 {
        'b'
    } else if d == 12 {
        'c'
    } else if d == 13 {
        'd'
    } else if d == 14 {
        'e'
    } else {
        'f'
    }
}

/// How one character appears inside a JSON string literal: quote and
/// backslash are escaped, control characters become `\u00XX`, everything
/// else stands as itself.
pub open spec fn esc_char(c: char) -> Seq<char> {
    if c == '"' {
        seq!['\\', '"']
    } else if c == '\\' {
        seq!['\\', '\\']
    } else if (c as u32) < 0x20 {
        seq!['\\', 'u', '0', '0', hex_digit(((c as u32) / 16) as int), hex_digit(
            ((c as u32) % 16) as int,
        )]
    } else {
        seq![c]
    }
}

/// The body of a JSON string literal for `s`: every character escaped as
/// JSON requires.
pub open spec fn json_escaped(s: Seq<char>) -> Seq<char>
    decreases s.len(),
{
    if s.len() == 0 {
        Seq::empty()
    } else {
        esc_char(s[0]) + json_escaped(s.drop_first())
    }
}

/// Escaping one more character appends its escape.
pub proof fn lemma_json_escaped_push(s: Seq<char>, c: char)
    ensures
        json_escaped(s.push(c)) == json_escaped(s) + esc_char(c),
    decreases s.len(),
{
    if s.len() == 0 {
        assert(s.push(c).drop_first() =~= s);
        assert(esc_char(c) + json_escaped(s) =~= esc_char(c));
        assert(json_escaped(s) + esc_char(c) =~= esc_char(c));
    } else {
        assert(s.push(c).drop_first() =~= s.drop_first().push(c));
        lemma_json_escaped_push(s.drop_first(), c);
        assert(esc_char(s[0]) + (json_escaped(s.drop_first()) + esc_char(c)) =~= (esc_char(s[0])
            + json_escaped(s.drop_first())) + esc_char(c));
    }
}

/// `s` as a JSON string literal, quotes included.
pub open spec fn json_quoted(s: Seq<char>) -> Seq<char> {
    seq!['"'] + json_escaped(s) + seq!['"']
}

/// Appends `s` as a JSON string literal (quotes included) to `out`.
pub fn append_json_quoted(out: &mut String, s: &str)
    ensures
        final(out)@ == old(out)@ + json_quoted(s@),
{
    push_char(out, '"');
    let n = s.unicode_len();
    let mut i: usize = 0;
    while i < n
        invariant
            n == s@.len(),
            i <= n,
            out@ =~= old(out)@ + seq!['"'] + json_escaped(s@.take(i as int)),
        decreases n - i,
    {
        let c = s.get_char(i);
        proof {
            assert(s@.take(i as int + 1) =~= s@.take(i as int).push(c));
            lemma_json_escaped_push(s@.take(i as int), c);
        }
        if c == '"' {
            push_char(out, '\\');
            push_char(out, '"');
        } else if c == '\\' {
            push_char(out, '\\');
            push_char(out, '\\');
        } else if (c as u32) < 0x20 {
            push_char(out, '\\');
            push_char(out, 'u');
            push_char(out, '0');
            push_char(out, '0');
            let d: u32 = c as u32;
            let hi = hex_digit_char(d / 16);
            push_char(out, hi);
            let lo = hex_digit_char(d % 16);
            push_char(out, lo);
        } else {
            push_char(out, c);
        }
        proof {
            assert(out@ =~= old(out)@ + seq!['"'] + json_escaped(s@.take(i as int + 1)));
        }
        i = i + 1;
    }
    push_char(out, '"');
    proof {
        assert(s@.take(n as int) =~= s@);
        assert(out@ =~= old(out)@ + json_quoted(s@));
    }
}

/// An optional string as JSON: the string literal, or `null`.
pub open spec fn json_opt_string(o: Option<Seq<char>>) -> Seq<char> {
    match o {
        Some(s) => json_quoted(s),
        None => "null"@,
    }
}

/// Appends an optional string as JSON to `out`.
pub fn append_json_opt_string(out: &mut String, o: &Option<String>)
    ensures
        final(out)@ == old(out)@ + json_opt_string(opt_view(*o)),
{
    match o {
        Some(s) => append_json_quoted(out, s.as_str()),
        None => out.append("null"),
    }
}

/// An optional integer as JSON: the number, or `null`.
pub open spec fn json_opt_int(o: Option<int>) -> Seq<char> {
    match o {
        Some(n) => int_str(n),
        None => "null"@,
    }
}

/// Appends an optional millisecond timestamp as JSON to `out`.
pub fn append_json_opt_i64(out: &mut String, o: &Option<i64>)
    ensures
        final(out)@ == old(out)@ + json_opt_int(match *o {
            Some(n) => Some(n as int),
            None => None,
        }),
{
    match o {
        Some(n) => {
            let s = i64_to_string(*n);
            out.append(s.as_str());
        },
        None => out.append("null"),
    }
}

/// A milli-count as a JSON number of units: the whole part, then the
/// fraction with trailing zeros dropped; no point when the fraction is zero.
pub open spec fn milli_str(m: int) -> Seq<char> {
    let whole = m / 1000;
    let frac = m % 1000;
    if frac == 0 {
        dec_str(whole)
    } else if frac % 100 == 0 {
        dec_str(whole) + seq!['.', dec_digit(frac / 100)]
    } else if frac % 10 == 0 {
        dec_str(whole) + seq!['.', dec_digit(frac / 100), dec_digit((frac / 10) % 10)]
    } else {
        dec_str(whole) + seq!['.', dec_digit(frac / 100), dec_digit((frac / 10) % 10), dec_digit(
            frac % 10,
        )]
    }
}

/// Appends a milli-count as a JSON number of units to `out`.
pub fn append_milli(out: &mut String, m: u32)
    ensures
        final(out)@ == old(out)@ + milli_str(m as int),
{
    let whole: u32 = m / 1000;
    let frac: u32 = m % 1000;
    let ws = u64_to_string(whole as u64);
    out.append(ws.as_str());
    if frac != 0 {
        push_char(out, '.');
        let d1 = dec_digit_char((frac / 100) as u64);
        push_char(out, d1);
        if frac % 100 != 0 {
            let d2 = dec_digit_char(((frac / 10) % 10) as u64);
            push_char(out, d2);
            if frac % 10 != 0 {
                let d3 = dec_digit_char((frac % 10) as u64);
                push_char(out, d3);
                proof {
                    assert(out@ =~= old(out)@ + milli_str(m as int));
                }
            } else {
                proof {
                    assert(out@ =~= old(out)@ + milli_str(m as int));
                }
            }
        } else {
            proof {
                assert(out@ =~= old(out)@ + milli_str(m as int));
            }
        }
    } else {
        proof {
            assert(out@ =~= old(out)@ + milli_str(m as int));
        }
    }
}

/// One environment variable as a JSON object member.
pub open spec fn env_pair_json(p: (Seq<char>, Seq<char>)) -> Seq<char> {
    json_quoted(p.0) + seq![':'] + json_quoted(p.1)
}

/// The members of the environment object, comma-separated.
pub open spec fn env_items_json(env: Seq<(Seq<char>, Seq<char>)>) -> Seq<char>
    decreases env.len(),
{
    if env.len() == 0 {
        Seq::empty()
    } else if env.len() == 1 {
        env_pair_json(env[0])
    } else {
        env_pair_json(env[0]) + seq![','] + env_items_json(env.drop_first())
    }
}

/// Rendering one more member appends it, with a comma when it is not the
/// first.
pub proof fn lemma_env_items_push(env: Seq<(Seq<char>, Seq<char>)>, p: (Seq<char>, Seq<char>))
    ensures
        env_items_json(env.push(p)) == if env.len() == 0 {
            env_pair_json(p)
        } else {
            env_items_json(env) + seq![','] + env_items_json(seq![p])
        },
    decreases env.len(),
{
    if env.len() == 0 {
        assert(env.push(p)[0] == p);
        assert(env_items_json(env.push(p)) == env_pair_json(p));
    } else {
        assert(env.push(p).drop_first() =~= env.drop_first().push(p));
        lemma_env_items_push(env.drop_first(), p);
        if env.len() == 1 {
            assert(env_items_json(env.push(p)) == env_pair_json(env[0]) + seq![',']
                + env_items_json(env.drop_first().push(p)));
        } else {
            assert(env_pair_json(env[0]) + seq![','] + (env_items_json(env.drop_first())
                + seq![','] + env_items_json(seq![p])) =~= (env_pair_json(env[0]) + seq![',']
                + env_items_json(env.drop_first())) + seq![','] + env_items_json(seq![p]));
        }
    }
}

/// The environment as a JSON object.
pub open spec fn env_json(env: Seq<(Seq<char>, Seq<char>)>) -> Seq<char> {
    seq!['{'] + env_items_json(env) + seq!['}']
}

/// Appends the environment as a JSON object to `out`. The keys must be
/// pairwise distinct, else the object would carry duplicate members.
pub fn append_env_json(out: &mut String, env: &Vec<(String, String)>)
    requires
        env_keys_unique(env_view(env@)),
    ensures
        final(out)@ == old(out)@ + env_json(env_view(env@)),
{
    let ghost m = env_view(env@);
    push_char(out, '{');
    let mut i: usize = 0;
    while i < env.len()
        invariant
            m == env_view(env@),
            i <= env@.len(),
            m.len() == env@.len(),
            forall|j: int| 0 <= j < env@.len() ==> #[trigger] m[j] == (env@[j].0@, env@[j].1@),
            out@ =~= old(out)@ + seq!['{'] + env_items_json(m.take(i as int)),
        decreases env@.len() - i,
    {
        proof {
            assert(m.take(i as int + 1) =~= m.take(i as int).push(m[i as int]));
            lemma_env_items_push(m.take(i as int), m[i as int]);
        }
        if i > 0 {
            push_char(out, ',');
        }
        append_json_quoted(out, env[i].0.as_str());
        push_char(out, ':');
        append_json_quoted(out, env[i].1.as_str());
        proof {
            assert(env_items_json(seq![m[i as int]]) == env_pair_json(m[i as int]));
            assert(out@ =~= old(out)@ + seq!['{'] + env_items_json(m.take(i as int + 1)));
        }
        i = i + 1;
    }
    push_char(out, '}');
    proof {
        assert(m.take(m.len() as int) =~= m);
        assert(out@ =~= old(out)@ + env_json(m));
    }
}

/// The protocol name of a task status.
pub open spec fn status_str(s: TaskStatus) -> Seq<char> {
    match s {
        TaskStatus::Pending => "Pending"@,
        TaskStatus::Scheduled => "Scheduled"@,
        TaskStatus::Running => "Running"@,
        TaskStatus::Complete => "Complete"@,
        TaskStatus::Failed => "Failed"@,
    }
}

/// Appends a task status as a JSON string to `out`.
pub fn append_status_json(out: &mut String, s: TaskStatus)
    ensures
        final(out)@ == old(out)@ + json_quoted(status_str(s)),
{
    match s {
        TaskStatus::Pending => append_json_quoted(out, "Pending"),
        TaskStatus::Scheduled => append_json_quoted(out, "Scheduled"),
        TaskStatus::Running => append_json_quoted(out, "Running"),
        TaskStatus::Complete => append_json_quoted(out, "Complete"),
        TaskStatus::Failed => append_json_quoted(out, "Failed"),
    }
}

/// The task status named by `s`, if any.
pub open spec fn status_of_str(s: Seq<char>) -> Option<TaskStatus> {
    if s == "Pending"@ {
        Some(TaskStatus::Pending)
    } else if s == "Scheduled"@ {
        Some(TaskStatus::Scheduled)
    } else if s == "Running"@ {
        Some(TaskStatus::Running)
    } else if s == "Complete"@ {
        Some(TaskStatus::Complete)
    } else if s == "Failed"@ {
        Some(TaskStatus::Failed)
    } else {
        None
    }
}

/// Parses a task status from its protocol name.
pub fn status_from_str(s: &str) -> (r: Option<TaskStatus>)
    ensures
        r == status_of_str(s@),
{
    if str_eq(s, "Pending") {
        Some(TaskStatus::Pending)
    } else if str_eq(s, "Scheduled") {
        Some(TaskStatus::Scheduled)
    } else if str_eq(s, "Running") {
        Some(TaskStatus::Running)
    } else if str_eq(s, "Complete") {
        Some(TaskStatus::Complete)
    } else if str_eq(s, "Failed") {
        Some(TaskStatus::Failed)
    } else {
        None
    }
}

/// The first half of a task's JSON object: identifier through environment.
pub open spec fn task_json_head(t: TaskModel) -> Seq<char> {
    "{\"id\":"@ + json_quoted(t.id) + ",\"name\":"@ + json_quoted(t.name) + ",\"image\":"@
        + json_quoted(t.image) + ",\"memory\":"@ + int_str(t.memory) + ",\"cpu\":"@ + milli_str(
        t.cpu_milli,
    ) + ",\"env\":"@ + env_json(t.env)
}

/// The second half of a task's JSON object: status through container
/// identifier.
pub open spec fn task_json_tail(t: TaskModel) -> Seq<char> {
    ",\"status\":"@ + json_quoted(status_str(t.status)) + ",\"created_at\":"@ + int_str(
        t.created_at,
    ) + ",\"started_at\":"@ + json_opt_int(t.started_at) + ",\"node_id\":"@ + json_opt_string(
        t.node_id,
    ) + ",\"container_id\":"@ + json_opt_string(t.container_id) + seq!['}']
}

/// A task as the protocol's JSON object, fields in declaration order;
/// absent optional fields are `null`.
pub open spec fn task_json(t: TaskModel) -> Seq<char> {
    task_json_head(t) + task_json_tail(t)
}

/// Appends the first half of a task's JSON object to `out`.
fn append_task_json_head(out: &mut String, t: &Task)
    requires
        env_keys_unique(t@.env),
    ensures
        final(out)@ == old(out)@ + task_json_head(t@),
{
    out.append("{\"id\":");
    append_json_quoted(out, t.id.as_str());
    out.append(",\"name\":");
    append_json_quoted(out, t.name.as_str());
    out.append(",\"image\":");
    append_json_quoted(out, t.image.as_str());
    out.append(",\"memory\":");
    let mem = i64_to_string(t.memory as i64);
    out.append(mem.as_str());
    out.append(",\"cpu\":");
    append_milli(out, t.cpu_milli);
    out.append(",\"env\":");
    append_env_json(out, &t.env);
    proof {
        assert(out@ =~= old(out)@ + task_json_head(t@));
    }
}

/// Appends the second half of a task's JSON object to `out`.
fn append_task_json_tail(out: &mut String, t: &Task)
    ensures
        final(out)@ == old(out)@ + task_json_tail(t@),
{
    out.append(",\"status\":");
    append_status_json(out, t.status);
    out.append(",\"created_at\":");
    let created = i64_to_string(t.created_at);
    out.append(created.as_str());
    out.append(",\"started_at\":");
    append_json_opt_i64(out, &t.started_at);
    out.append(",\"node_id\":");
    append_json_opt_string(out, &t.node_id);
    out.append(",\"container_id\":");
    append_json_opt_string(out, &t.container_id);
    push_char(out, '}');
    proof {
        assert(out@ =~= old(out)@ + task_json_tail(t@));
    }
}

/// Appends a task as JSON to `out`.
pub fn append_task_json(out: &mut String, t: &Task)
    requires
        env_keys_unique(t@.env),
    ensures
        final(out)@ == old(out)@ + task_json(t@),
{
    append_task_json_head(out, t);
    append_task_json_tail(out, t);
    proof {
        assert(out@ =~= old(out)@ + task_json(t@));
    }
}

/// The elements of the task array, comma-separated.
pub open spec fn tasks_json_items(l: Seq<TaskModel>) -> Seq<char>
    decreases l.len(),
{
    if l.len() == 0 {
        Seq::empty()
    } else if l.len() == 1 {
        task_json(l[0])
    } else {
        task_json(l[0]) + seq![','] + tasks_json_items(l.drop_first())
    }
}

/// Rendering one more task appends it, with a comma when it is not the
/// first.
pub proof fn lemma_tasks_json_push(l: Seq<TaskModel>, t: TaskModel)
    ensures
        tasks_json_items(l.push(t)) == if l.len() == 0 {
            task_json(t)
        } else {
            tasks_json_items(l) + seq![','] + task_json(t)
        },
    decreases l.len(),
{
    if l.len() == 0 {
        assert(l.push(t)[0] == t);
        assert(tasks_json_items(l.push(t)) == task_json(t));
    } else {
        assert(l.push(t).drop_first() =~= l.drop_first().push(t));
        lemma_tasks_json_push(l.drop_first(), t);
        if l.len() == 1 {
            assert(tasks_json_items(l.push(t)) == task_json(l[0]) + seq![',']
                + tasks_json_items(l.drop_first().push(t)));
        } else {
            assert(task_json(l[0]) + seq![','] + (tasks_json_items(l.drop_first()) + seq![',']
                + task_json(t)) =~= (task_json(l[0]) + seq![','] + tasks_json_items(
                l.drop_first(),
            )) + seq![','] + task_json(t));
        }
    }
}

/// A list of tasks as the protocol's JSON array.
pub open spec fn tasks_json(l: Seq<TaskModel>) -> Seq<char> {
    seq!['['] + tasks_json_items(l) + seq![']']
}

/// Renders a list of tasks as a JSON array. Every task's environment keys
/// must be pairwise distinct.
pub fn tasks_to_json(tasks: &Vec<Task>) -> (r: String)
    requires
        forall|i: int| 0 <= i < tasks@.len() ==> env_keys_unique((#[trigger] tasks@[i])@.env),
    ensures
        r@ == tasks_json(task_models(tasks@)),
{
    let ghost m = task_models(tasks@);
    let mut out = String::new();
    push_char(&mut out, '[');
    let mut i: usize = 0;
    while i < tasks.len()
        invariant
            m == task_models(tasks@),
            i <= tasks@.len(),
            m.len() == tasks@.len(),
            forall|j: int| 0 <= j < tasks@.len() ==> env_keys_unique((#[trigger] tasks@[j])@.env),
            out@ =~= seq!['['] + tasks_json_items(m.take(i as int)),
        decreases tasks@.len() - i,
    {
        proof {
            assert(m.take(i as int + 1) =~= m.take(i as int).push(m[i as int]));
            lemma_tasks_json_push(m.take(i as int), m[i as int]);
        }
        if i > 0 {
            push_char(&mut out, ',');
        }
        append_task_json(&mut out, &tasks[i]);
        proof {
            assert(out@ =~= seq!['['] + tasks_json_items(m.take(i as int + 1)));
        }
        i = i + 1;
    }
    push_char(&mut out, ']');
    proof {
        assert(m.take(m.len() as int) =~= m);
        assert(out@ =~= tasks_json(m));
    }
    out
}

/// A task as its own JSON document. Its environment keys must be pairwise
/// distinct.
pub fn task_to_json(t: &Task) -> (r: String)
    requires
        env_keys_unique(t@.env),
    ensures
        r@ == task_json(t@),
{
    let mut out = String::new();
    append_task_json(&mut out, t);
    proof {
        assert(out@ =~= task_json(t@));
    }
    out
}

/// The body a worker sends to report one task's state: the status and the
/// container identifier, `null` when there is none.
pub open spec fn status_report_json(status: TaskStatus, cid: Option<Seq<char>>) -> Seq<char> {
    "{\"status\":"@ + json_quoted(status_str(status)) + ",\"container_id\":"@ + json_opt_string(
        cid,
    ) + seq!['}']
}

/// Renders a worker's status report body.
pub fn status_report_body(status: TaskStatus, container_id: &Option<String>) -> (r: String)
    ensures
        r@ == status_report_json(status, opt_view(*container_id)),
{
    let mut out = String::new();
    out.append("{\"status\":");
    append_status_json(&mut out, status);
    out.append(",\"container_id\":");
    append_json_opt_string(&mut out, container_id);
    push_char(&mut out, '}');
    proof {
        assert(out@ =~= status_report_json(status, opt_view(*container_id)));
    }
    out
}

} // verus!

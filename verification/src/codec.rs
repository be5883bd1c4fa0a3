//! The on-disk document format: the canonical JSON text of a database, the
//! emitter that produces it, the parser that reads it back, and the proof
//! that the parser inverts the emitter.

use vstd::prelude::*;

use crate::jsontext::{
    ascii_bytes, dec_digits, emit_str, emit_u64, expect_bytes, is_digit, push_lit,
    spec_expect, spec_parse_str, spec_parse_u64, str_bytes,
};
use crate::model::{
    log_view, projects_view, tasks_view, Database, DatabaseV, LogEntry, LogEntryType,
    LogEntryTypeV, LogEntryV, Project, ProjectV, Task, TaskState, TaskV,
};

verus! {

// ---------------------------------------------------------------------------
// Tokens
// ---------------------------------------------------------------------------

/// `"name":`
pub open spec fn key_token(name: Seq<char>) -> Seq<u8> {
    seq![34u8] + ascii_bytes(name) + seq![34u8, 58u8]
}

/// `{"name":`
pub open spec fn tok_obj_key(name: Seq<char>) -> Seq<u8> {
    seq![123u8] + key_token(name)
}

/// `,"name":`
pub open spec fn tok_comma_key(name: Seq<char>) -> Seq<u8> {
    seq![44u8] + key_token(name)
}

/// The tag characters of a task state.
pub open spec fn state_tag(st: TaskState) -> Seq<char> {
    match st {
        TaskState::Todo => "Todo"@,
        TaskState::InProgress => "InProgress"@,
        TaskState::Blocked => "Blocked"@,
        TaskState::Cancelled => "Cancelled"@,
        TaskState::Done => "Done"@,
    }
}

// ---------------------------------------------------------------------------
// The canonical text of each part of the document
// ---------------------------------------------------------------------------

/// A state serializes as its bare quoted tag.
pub open spec fn state_json(st: TaskState) -> Seq<u8> {
    seq![34u8] + ascii_bytes(state_tag(st)) + seq![34u8]
}

/// A log entry type serializes as an externally tagged one-field object.
pub open spec fn entry_type_json(e: LogEntryTypeV) -> Seq<u8> {
    match e {
        LogEntryTypeV::Comment(text) => tok_obj_key("Comment"@) + str_bytes(text)
            + seq![125u8],
        LogEntryTypeV::StateChangedTo(st) => tok_obj_key("StateChangedTo"@) + state_json(st)
            + seq![125u8],
    }
}

pub open spec fn log_entry_json(e: LogEntryV) -> Seq<u8> {
    tok_obj_key("timestamp"@) + dec_digits(e.timestamp as nat) + tok_comma_key("entry_type"@)
        + entry_type_json(e.entry_type) + seq![125u8]
}

pub open spec fn log_items(log: Seq<LogEntryV>) -> Seq<u8>
    decreases log.len(),
{
    if log.len() == 0 {
        Seq::empty()
    } else if log.len() == 1 {
        log_entry_json(log[0])
    } else {
        log_entry_json(log[0]) + seq![44u8] + log_items(log.drop_first())
    }
}

pub open spec fn dep_items(deps: Seq<u64>) -> Seq<u8>
    decreases deps.len(),
{
    if deps.len() == 0 {
        Seq::empty()
    } else if deps.len() == 1 {
        dec_digits(deps[0] as nat)
    } else {
        dec_digits(deps[0] as nat) + seq![44u8] + dep_items(deps.drop_first())
    }
}

pub open spec fn task_json(t: TaskV) -> Seq<u8> {
    tok_obj_key("title"@) + str_bytes(t.title) + tok_comma_key("description"@) + str_bytes(
        t.description,
    ) + tok_comma_key("id"@) + dec_digits(t.id as nat) + tok_comma_key("log"@) + seq![91u8]
        + log_items(t.log) + seq![93u8] + tok_comma_key("state"@) + state_json(t.state)
        + tok_comma_key("dependencies"@) + seq![91u8] + dep_items(t.dependencies) + seq![
        93u8,
        125u8,
    ]
}

pub open spec fn task_items(tasks: Seq<TaskV>) -> Seq<u8>
    decreases tasks.len(),
{
    if tasks.len() == 0 {
        Seq::empty()
    } else if tasks.len() == 1 {
        task_json(tasks[0])
    } else {
        task_json(tasks[0]) + seq![44u8] + task_items(tasks.drop_first())
    }
}

pub open spec fn project_json(p: ProjectV) -> Seq<u8> {
    tok_obj_key("name"@) + str_bytes(p.name) + tok_comma_key("description"@) + str_bytes(
        p.description,
    ) + tok_comma_key("id"@) + dec_digits(p.id as nat) + tok_comma_key("tasks"@) + seq![91u8]
        + task_items(p.tasks) + seq![93u8] + tok_comma_key("next_task_id"@) + dec_digits(
        p.next_task_id as nat,
    ) + seq![125u8]
}

pub open spec fn project_items(ps: Seq<ProjectV>) -> Seq<u8>
    decreases ps.len(),
{
    if ps.len() == 0 {
        Seq::empty()
    } else if ps.len() == 1 {
        project_json(ps[0])
    } else {
        project_json(ps[0]) + seq![44u8] + project_items(ps.drop_first())
    }
}

/// The canonical text of the whole document.
pub open spec fn db_json(d: DatabaseV) -> Seq<u8> {
    tok_obj_key("projects"@) + seq![91u8] + project_items(d.projects) + seq![93u8]
        + tok_comma_key("next_project_id"@) + dec_digits(d.next_project_id as nat) + seq![
        125u8,
    ]
}

// ---------------------------------------------------------------------------
// Emitters
// ---------------------------------------------------------------------------

/// Appends `{"name":`.
fn emit_obj_key(out: &mut Vec<u8>, name: &str)
    requires
        vstd::string::is_ascii(name),
    ensures
        final(out)@ == old(out)@ + tok_obj_key(name@),
{
    out.push(123);
    out.push(34);
    push_lit(out, name);
    out.push(34);
    out.push(58);
    proof {
        assert(final(out)@ =~= old(out)@ + tok_obj_key(name@));
    }
}

/// Appends `,"name":`.
fn emit_comma_key(out: &mut Vec<u8>, name: &str)
    requires
        vstd::string::is_ascii(name),
    ensures
        final(out)@ == old(out)@ + tok_comma_key(name@),
{
    out.push(44);
    out.push(34);
    push_lit(out, name);
    out.push(34);
    out.push(58);
    proof {
        assert(final(out)@ =~= old(out)@ + tok_comma_key(name@));
    }
}

/// Appends the quoted tag of a state.
pub fn emit_state(out: &mut Vec<u8>, st: &TaskState)
    ensures
        final(out)@ == old(out)@ + state_json(*st),
{
    out.push(34);
    match st {
        TaskState::Todo => {
            proof {
                reveal_strlit("Todo");
            }
            push_lit(out, "Todo");
        },
        TaskState::InProgress => {
            proof {
                reveal_strlit("InProgress");
            }
            push_lit(out, "InProgress");
        },
        TaskState::Blocked => {
            proof {
                reveal_strlit("Blocked");
            }
            push_lit(out, "Blocked");
        },
        TaskState::Cancelled => {
            proof {
                reveal_strlit("Cancelled");
            }
            push_lit(out, "Cancelled");
        },
        TaskState::Done => {
            proof {
                reveal_strlit("Done");
            }
            push_lit(out, "Done");
        },
    }
    out.push(34);
    proof {
        assert(final(out)@ =~= old(out)@ + state_json(*st));
    }
}

/// Appends the externally tagged entry type object.
fn emit_entry_type(out: &mut Vec<u8>, e: &LogEntryType)
    ensures
        final(out)@ == old(out)@ + entry_type_json(e@),
{
    match e {
        LogEntryType::Comment(text) => {
            proof {
                reveal_strlit("Comment");
            }
            emit_obj_key(out, "Comment");
            emit_str(out, text);
            out.push(125);
        },
        LogEntryType::StateChangedTo(st) => {
            proof {
                reveal_strlit("StateChangedTo");
            }
            emit_obj_key(out, "StateChangedTo");
            emit_state(out, st);
            out.push(125);
        },
    }
    proof {
        assert(final(out)@ =~= old(out)@ + entry_type_json(e@));
    }
}

fn emit_log_entry(out: &mut Vec<u8>, e: &LogEntry)
    ensures
        final(out)@ == old(out)@ + log_entry_json(e@),
{
    proof {
        reveal_strlit("timestamp");
        reveal_strlit("entry_type");
    }
    emit_obj_key(out, "timestamp");
    emit_u64(out, e.timestamp);
    emit_comma_key(out, "entry_type");
    emit_entry_type(out, &e.entry_type);
    out.push(125);
    proof {
        assert(final(out)@ =~= old(out)@ + log_entry_json(e@));
    }
}

pub proof fn lemma_log_items_snoc(log: Seq<LogEntryV>, e: LogEntryV)
    ensures
        log_items(log.push(e)) == if log.len() == 0 {
            log_entry_json(e)
        } else {
            log_items(log) + seq![44u8] + log_entry_json(e)
        },
    decreases log.len(),
{
    if log.len() == 0 {
        assert(log.push(e)[0] == e);
        assert(log_items(log.push(e)) =~= log_entry_json(e));
    } else {
        assert(log.push(e).drop_first() =~= log.drop_first().push(e));
        lemma_log_items_snoc(log.drop_first(), e);
        if log.len() == 1 {
            assert(log_items(log.push(e)) =~= log_items(log) + seq![44u8] + log_entry_json(e));
        } else {
            assert(log_items(log.push(e)) =~= log_items(log) + seq![44u8] + log_entry_json(e));
        }
    }
}

pub proof fn lemma_dep_items_snoc(deps: Seq<u64>, d: u64)
    ensures
        dep_items(deps.push(d)) == if deps.len() == 0 {
            dec_digits(d as nat)
        } else {
            dep_items(deps) + seq![44u8] + dec_digits(d as nat)
        },
    decreases deps.len(),
{
    if deps.len() == 0 {
        assert(deps.push(d)[0] == d);
        assert(dep_items(deps.push(d)) =~= dec_digits(d as nat));
    } else {
        assert(deps.push(d).drop_first() =~= deps.drop_first().push(d));
        lemma_dep_items_snoc(deps.drop_first(), d);
        assert(dep_items(deps.push(d)) =~= dep_items(deps) + seq![44u8] + dec_digits(d as nat));
    }
}

pub proof fn lemma_task_items_snoc(tasks: Seq<TaskV>, t: TaskV)
    ensures
        task_items(tasks.push(t)) == if tasks.len() == 0 {
            task_json(t)
        } else {
            task_items(tasks) + seq![44u8] + task_json(t)
        },
    decreases tasks.len(),
{
    if tasks.len() == 0 {
        assert(tasks.push(t)[0] == t);
        assert(task_items(tasks.push(t)) =~= task_json(t));
    } else {
        assert(tasks.push(t).drop_first() =~= tasks.drop_first().push(t));
        lemma_task_items_snoc(tasks.drop_first(), t);
        assert(task_items(tasks.push(t)) =~= task_items(tasks) + seq![44u8] + task_json(t));
    }
}

pub proof fn lemma_project_items_snoc(ps: Seq<ProjectV>, p: ProjectV)
    ensures
        project_items(ps.push(p)) == if ps.len() == 0 {
            project_json(p)
        } else {
            project_items(ps) + seq![44u8] + project_json(p)
        },
    decreases ps.len(),
{
    if ps.len() == 0 {
        assert(ps.push(p)[0] == p);
        assert(project_items(ps.push(p)) =~= project_json(p));
    } else {
        assert(ps.push(p).drop_first() =~= ps.drop_first().push(p));
        lemma_project_items_snoc(ps.drop_first(), p);
        assert(project_items(ps.push(p)) =~= project_items(ps) + seq![44u8] + project_json(p));
    }
}

#[verifier::rlimit(100)]
#[verifier::spinoff_prover]
pub fn emit_task(out: &mut Vec<u8>, t: &Task)
    ensures
        final(out)@ == old(out)@ + task_json(t@),
{
    proof {
        reveal_strlit("title");
        reveal_strlit("description");
        reveal_strlit("id");
        reveal_strlit("log");
        reveal_strlit("state");
        reveal_strlit("dependencies");
    }
    emit_obj_key(out, "title");
    emit_str(out, &t.title);
    emit_comma_key(out, "description");
    emit_str(out, &t.description);
    emit_comma_key(out, "id");
    emit_u64(out, t.id);
    emit_comma_key(out, "log");
    out.push(91);
    let ghost mid0 = out@;
    let n = t.log.len();
    let mut k: usize = 0;
    while k < n
        invariant
            n == t.log@.len(),
            k <= n,
            out@ == mid0 + log_items(log_view(t.log@).take(k as int)),
        decreases n - k,
    {
        if k > 0 {
            out.push(44);
            proof {
                assert(out@ =~= mid0 + log_items(log_view(t.log@).take(k as int)) + seq![44u8]);
            }
        }
        emit_log_entry(out, &t.log[k]);
        proof {
            lemma_log_items_snoc(log_view(t.log@).take(k as int), t.log@[k as int]@);
            assert(log_view(t.log@).take(k as int + 1) =~= log_view(t.log@).take(
                k as int,
            ).push(t.log@[k as int]@));
            assert(out@ =~= mid0 + log_items(log_view(t.log@).take(k as int + 1)));
        }
        k = k + 1;
    }
    proof {
        assert(log_view(t.log@).take(n as int) =~= log_view(t.log@));
    }
    out.push(93);
    emit_comma_key(out, "state");
    emit_state(out, &t.state);
    emit_comma_key(out, "dependencies");
    out.push(91);
    let ghost mid1 = out@;
    let dn = t.dependencies.len();
    let mut q: usize = 0;
    while q < dn
        invariant
            dn == t.dependencies@.len(),
            q <= dn,
            out@ == mid1 + dep_items(t.dependencies@.take(q as int)),
        decreases dn - q,
    {
        if q > 0 {
            out.push(44);
            proof {
                assert(out@ =~= mid1 + dep_items(t.dependencies@.take(q as int)) + seq![44u8]);
            }
        }
        emit_u64(out, t.dependencies[q]);
        proof {
            lemma_dep_items_snoc(t.dependencies@.take(q as int), t.dependencies@[q as int]);
            assert(t.dependencies@.take(q as int + 1) =~= t.dependencies@.take(q as int).push(
                t.dependencies@[q as int],
            ));
            assert(out@ =~= mid1 + dep_items(t.dependencies@.take(q as int + 1)));
        }
        q = q + 1;
    }
    proof {
        assert(t.dependencies@.take(dn as int) =~= t.dependencies@);
    }
    out.push(93);
    out.push(125);
    proof {
        assert(final(out)@ =~= old(out)@ + task_json(t@));
    }
}

#[verifier::rlimit(80)]
fn emit_project(out: &mut Vec<u8>, p: &Project)
    ensures
        final(out)@ == old(out)@ + project_json(p@),
{
    proof {
        reveal_strlit("name");
        reveal_strlit("description");
        reveal_strlit("id");
        reveal_strlit("tasks");
        reveal_strlit("next_task_id");
    }
    emit_obj_key(out, "name");
    emit_str(out, &p.name);
    emit_comma_key(out, "description");
    emit_str(out, &p.description);
    emit_comma_key(out, "id");
    emit_u64(out, p.id);
    emit_comma_key(out, "tasks");
    out.push(91);
    let ghost mid0 = out@;
    let n = p.tasks.len();
    let mut k: usize = 0;
    while k < n
        invariant
            n == p.tasks@.len(),
            k <= n,
            out@ == mid0 + task_items(tasks_view(p.tasks@).take(k as int)),
        decreases n - k,
    {
        if k > 0 {
            out.push(44);
            proof {
                assert(out@ =~= mid0 + task_items(tasks_view(p.tasks@).take(k as int)) + seq![
                    44u8,
                ]);
            }
        }
        emit_task(out, &p.tasks[k]);
        proof {
            lemma_task_items_snoc(tasks_view(p.tasks@).take(k as int), p.tasks@[k as int]@);
            assert(tasks_view(p.tasks@).take(k as int + 1) =~= tasks_view(p.tasks@).take(
                k as int,
            ).push(p.tasks@[k as int]@));
            assert(out@ =~= mid0 + task_items(tasks_view(p.tasks@).take(k as int + 1)));
        }
        k = k + 1;
    }
    proof {
        assert(tasks_view(p.tasks@).take(n as int) =~= tasks_view(p.tasks@));
    }
    out.push(93);
    emit_comma_key(out, "next_task_id");
    emit_u64(out, p.next_task_id);
    out.push(125);
    proof {
        assert(final(out)@ =~= old(out)@ + project_json(p@));
    }
}

/// The canonical serialized form of the whole database.
pub fn flush_bytes(db: &Database) -> (r: Vec<u8>)
    ensures
        r@ == db_json(db@),
{
    proof {
        reveal_strlit("projects");
        reveal_strlit("next_project_id");
    }
    let mut out: Vec<u8> = Vec::new();
    emit_obj_key(&mut out, "projects");
    out.push(91);
    let ghost mid0 = out@;
    let n = db.projects.len();
    let mut k: usize = 0;
    while k < n
        invariant
            n == db.projects@.len(),
            k <= n,
            out@ == mid0 + project_items(projects_view(db.projects@).take(k as int)),
        decreases n - k,
    {
        if k > 0 {
            out.push(44);
            proof {
                assert(out@ =~= mid0 + project_items(
                    projects_view(db.projects@).take(k as int),
                ) + seq![44u8]);
            }
        }
        emit_project(&mut out, &db.projects[k]);
        proof {
            lemma_project_items_snoc(
                projects_view(db.projects@).take(k as int),
                db.projects@[k as int]@,
            );
            assert(projects_view(db.projects@).take(k as int + 1) =~= projects_view(
                db.projects@,
            ).take(k as int).push(db.projects@[k as int]@));
            assert(out@ =~= mid0 + project_items(
                projects_view(db.projects@).take(k as int + 1),
            ));
        }
        k = k + 1;
    }
    proof {
        assert(projects_view(db.projects@).take(n as int) =~= projects_view(db.projects@));
    }
    out.push(93);
    emit_comma_key(&mut out, "next_project_id");
    emit_u64(&mut out, db.next_project_id);
    out.push(125);
    proof {
        assert(out@ =~= db_json(db@));
    }
    out
}


// ---------------------------------------------------------------------------
// Parsers (specification)
// ---------------------------------------------------------------------------

pub open spec fn spec_parse_state(s: Seq<u8>, i: int) -> Option<(TaskState, int)> {
    match spec_expect(s, i, state_json(TaskState::Todo)) {
        Some(j) => Some((TaskState::Todo, j)),
        None => match spec_expect(s, i, state_json(TaskState::InProgress)) {
            Some(j) => Some((TaskState::InProgress, j)),
            None => match spec_expect(s, i, state_json(TaskState::Blocked)) {
                Some(j) => Some((TaskState::Blocked, j)),
                None => match spec_expect(s, i, state_json(TaskState::Cancelled)) {
                    Some(j) => Some((TaskState::Cancelled, j)),
                    None => match spec_expect(s, i, state_json(TaskState::Done)) {
                        Some(j) => Some((TaskState::Done, j)),
                        None => None,
                    },
                },
            },
        },
    }
}

pub open spec fn spec_parse_entry_type(s: Seq<u8>, i: int) -> Option<(LogEntryTypeV, int)> {
    match spec_expect(s, i, tok_obj_key("Comment"@)) {
        Some(j) => match spec_parse_str(s, j) {
            Some((text, j2)) => match spec_expect(s, j2, seq![125u8]) {
                Some(j3) => Some((LogEntryTypeV::Comment(text), j3)),
                None => None,
            },
            None => None,
        },
        None => match spec_expect(s, i, tok_obj_key("StateChangedTo"@)) {
            Some(j) => match spec_parse_state(s, j) {
                Some((st, j2)) => match spec_expect(s, j2, seq![125u8]) {
                    Some(j3) => Some((LogEntryTypeV::StateChangedTo(st), j3)),
                    None => None,
                },
                None => None,
            },
            None => None,
        },
    }
}

pub open spec fn spec_parse_log_entry(s: Seq<u8>, i: int) -> Option<(LogEntryV, int)> {
    match spec_expect(s, i, tok_obj_key("timestamp"@)) {
        Some(j) => match spec_parse_u64(s, j) {
            Some((ts, j2)) => match spec_expect(s, j2, tok_comma_key("entry_type"@)) {
                Some(j3) => match spec_parse_entry_type(s, j3) {
                    Some((et, j4)) => match spec_expect(s, j4, seq![125u8]) {
                        Some(j5) => Some((LogEntryV { timestamp: ts, entry_type: et }, j5)),
                        None => None,
                    },
                    None => None,
                },
                None => None,
            },
            None => None,
        },
        None => None,
    }
}

/// One or more log entries followed by `]`.
pub open spec fn spec_parse_log_items(s: Seq<u8>, i: int, acc: Seq<LogEntryV>) -> Option<
    (Seq<LogEntryV>, int),
>
    decreases s.len() - i,
{
    match spec_parse_log_entry(s, i) {
        Some((e, j)) => if i < j && j < s.len() {
            if s[j] == 44 {
                spec_parse_log_items(s, j + 1, acc.push(e))
            } else if s[j] == 93 {
                Some((acc.push(e), j + 1))
            } else {
                None
            }
        } else {
            None
        },
        None => None,
    }
}

/// A log array, `[` already expected at `i`.
pub open spec fn spec_parse_log(s: Seq<u8>, i: int) -> Option<(Seq<LogEntryV>, int)> {
    match spec_expect(s, i, seq![91u8]) {
        Some(j) => if j < s.len() && s[j] == 93 {
            Some((Seq::empty(), j + 1))
        } else {
            spec_parse_log_items(s, j, Seq::empty())
        },
        None => None,
    }
}

pub open spec fn spec_parse_dep_items(s: Seq<u8>, i: int, acc: Seq<u64>) -> Option<
    (Seq<u64>, int),
>
    decreases s.len() - i,
{
    match spec_parse_u64(s, i) {
        Some((d, j)) => if i < j && j < s.len() {
            if s[j] == 44 {
                spec_parse_dep_items(s, j + 1, acc.push(d))
            } else if s[j] == 93 {
                Some((acc.push(d), j + 1))
            } else {
                None
            }
        } else {
            None
        },
        None => None,
    }
}

pub open spec fn spec_parse_deps(s: Seq<u8>, i: int) -> Option<(Seq<u64>, int)> {
    match spec_expect(s, i, seq![91u8]) {
        Some(j) => if j < s.len() && s[j] == 93 {
            Some((Seq::empty(), j + 1))
        } else {
            spec_parse_dep_items(s, j, Seq::empty())
        },
        None => None,
    }
}

pub open spec fn spec_parse_task(s: Seq<u8>, i: int) -> Option<(TaskV, int)> {
    match spec_expect(s, i, tok_obj_key("title"@)) {
        Some(j1) => match spec_parse_str(s, j1) {
            Some((title, j2)) => match spec_expect(s, j2, tok_comma_key("description"@)) {
                Some(j3) => match spec_parse_str(s, j3) {
                    Some((description, j4)) => match spec_expect(s, j4, tok_comma_key("id"@)) {
                        Some(j5) => match spec_parse_u64(s, j5) {
                            Some((id, j6)) => match spec_expect(s, j6, tok_comma_key("log"@)) {
                                Some(j7) => match spec_parse_log(s, j7) {
                                    Some((log, j8)) => match spec_expect(
                                        s,
                                        j8,
                                        tok_comma_key("state"@),
                                    ) {
                                        Some(j9) => match spec_parse_state(s, j9) {
                                            Some((state, j10)) => match spec_expect(
                                                s,
                                                j10,
                                                tok_comma_key("dependencies"@),
                                            ) {
                                                Some(j11) => match spec_parse_deps(s, j11) {
                                                    Some((dependencies, j12)) => match spec_expect(
                                                        s,
                                                        j12,
                                                        seq![125u8],
                                                    ) {
                                                        Some(j13) => Some(
                                                            (
                                                                TaskV {
                                                                    title,
                                                                    description,
                                                                    id,
                                                                    log,
                                                                    state,
                                                                    dependencies,
                                                                },
                                                                j13,
                                                            ),
                                                        ),
                                                        None => None,
                                                    },
                                                    None => None,
                                                },
                                                None => None,
                                            },
                                            None => None,
                                        },
                                        None => None,
                                    },
                                    None => None,
                                },
                                None => None,
                            },
                            None => None,
                        },
                        None => None,
                    },
                    None => None,
                },
                None => None,
            },
            None => None,
        },
        None => None,
    }
}

pub open spec fn spec_parse_task_items(s: Seq<u8>, i: int, acc: Seq<TaskV>) -> Option<
    (Seq<TaskV>, int),
>
    decreases s.len() - i,
{
    match spec_parse_task(s, i) {
        Some((t, j)) => if i < j && j < s.len() {
            if s[j] == 44 {
                spec_parse_task_items(s, j + 1, acc.push(t))
            } else if s[j] == 93 {
                Some((acc.push(t), j + 1))
            } else {
                None
            }
        } else {
            None
        },
        None => None,
    }
}

pub open spec fn spec_parse_tasks(s: Seq<u8>, i: int) -> Option<(Seq<TaskV>, int)> {
    match spec_expect(s, i, seq![91u8]) {
        Some(j) => if j < s.len() && s[j] == 93 {
            Some((Seq::empty(), j + 1))
        } else {
            spec_parse_task_items(s, j, Seq::empty())
        },
        None => None,
    }
}

pub open spec fn spec_parse_project(s: Seq<u8>, i: int) -> Option<(ProjectV, int)> {
    match spec_expect(s, i, tok_obj_key("name"@)) {
        Some(j1) => match spec_parse_str(s, j1) {
            Some((name, j2)) => match spec_expect(s, j2, tok_comma_key("description"@)) {
                Some(j3) => match spec_parse_str(s, j3) {
                    Some((description, j4)) => match spec_expect(s, j4, tok_comma_key("id"@)) {
                        Some(j5) => match spec_parse_u64(s, j5) {
                            Some((id, j6)) => match spec_expect(s, j6, tok_comma_key("tasks"@)) {
                                Some(j7) => match spec_parse_tasks(s, j7) {
                                    Some((tasks, j8)) => match spec_expect(
                                        s,
                                        j8,
                                        tok_comma_key("next_task_id"@),
                                    ) {
                                        Some(j9) => match spec_parse_u64(s, j9) {
                                            Some((next_task_id, j10)) => match spec_expect(
                                                s,
                                                j10,
                                                seq![125u8],
                                            ) {
                                                Some(j11) => Some(
                                                    (
                                                        ProjectV {
                                                            name,
                                                            description,
                                                            id,
                                                            tasks,
                                                            next_task_id,
                                                        },
                                                        j11,
                                                    ),
                                                ),
                                                None => None,
                                            },
                                            None => None,
                                        },
                                        None => None,
                                    },
                                    None => None,
                                },
                                None => None,
                            },
                            None => None,
                        },
                        None => None,
                    },
                    None => None,
                },
                None => None,
            },
            None => None,
        },
        None => None,
    }
}

pub open spec fn spec_parse_project_items(s: Seq<u8>, i: int, acc: Seq<ProjectV>) -> Option<
    (Seq<ProjectV>, int),
>
    decreases s.len() - i,
{
    match spec_parse_project(s, i) {
        Some((p, j)) => if i < j && j < s.len() {
            if s[j] == 44 {
                spec_parse_project_items(s, j + 1, acc.push(p))
            } else if s[j] == 93 {
                Some((acc.push(p), j + 1))
            } else {
                None
            }
        } else {
            None
        },
        None => None,
    }
}

pub open spec fn spec_parse_projects(s: Seq<u8>, i: int) -> Option<(Seq<ProjectV>, int)> {
    match spec_expect(s, i, seq![91u8]) {
        Some(j) => if j < s.len() && s[j] == 93 {
            Some((Seq::empty(), j + 1))
        } else {
            spec_parse_project_items(s, j, Seq::empty())
        },
        None => None,
    }
}

pub open spec fn spec_parse_db(s: Seq<u8>, i: int) -> Option<(DatabaseV, int)> {
    match spec_expect(s, i, tok_obj_key("projects"@)) {
        Some(j1) => match spec_parse_projects(s, j1) {
            Some((projects, j2)) => match spec_expect(s, j2, tok_comma_key("next_project_id"@)) {
                Some(j3) => match spec_parse_u64(s, j3) {
                    Some((next_project_id, j4)) => match spec_expect(s, j4, seq![125u8]) {
                        Some(j5) => Some((DatabaseV { projects, next_project_id }, j5)),
                        None => None,
                    },
                    None => None,
                },
                None => None,
            },
            None => None,
        },
        None => None,
    }
}

/// What loading a byte document yields: the parsed database, provided the
/// whole input is consumed and the result is well-formed.
pub open spec fn spec_load(s: Seq<u8>) -> Option<DatabaseV> {
    match spec_parse_db(s, 0) {
        Some((d, end)) => if end == s.len() && d.wf() {
            Some(d)
        } else {
            None
        },
        None => None,
    }
}


// ---------------------------------------------------------------------------
// The parser inverts the emitter
// ---------------------------------------------------------------------------

/// Splits knowledge about a concatenation into its two halves.
pub proof fn lemma_subrange_cat(s: Seq<u8>, i: int, a: Seq<u8>, b: Seq<u8>)
    requires
        0 <= i,
        i + a.len() + b.len() <= s.len(),
        s.subrange(i, i + a.len() + b.len()) == a + b,
    ensures
        s.subrange(i, i + a.len() as int) == a,
        s.subrange(i + a.len() as int, i + a.len() + b.len()) == b,
{
    assert forall|k: int| 0 <= k < a.len() implies s.subrange(i, i + a.len() as int)[k]
        == a[k] by {
        assert(s.subrange(i, i + a.len() + b.len())[k] == (a + b)[k]);
    }
    assert(s.subrange(i, i + a.len() as int) =~= a);
    assert forall|k: int|
        0 <= k < b.len() implies s.subrange(i + a.len() as int, i + a.len() + b.len())[k]
        == b[k] by {
        assert(s.subrange(i, i + a.len() + b.len())[a.len() + k] == (a + b)[a.len() + k]);
        assert(s.subrange(i + a.len() as int, i + a.len() + b.len())[k] == s[i + a.len() + k]);
        assert((a + b)[a.len() + k] == b[k]);
    }
    assert(s.subrange(i + a.len() as int, i + a.len() + b.len()) =~= b);
}

/// A token match fails when some token byte disagrees with the input.
pub proof fn lemma_expect_none_at(s: Seq<u8>, i: int, w: Seq<u8>, k: int)
    requires
        0 <= i,
        0 <= k < w.len(),
        i + w.len() <= s.len() ==> s[i + k] != w[k],
    ensures
        spec_expect(s, i, w) is None,
{
    if i + w.len() <= s.len() {
        if s.subrange(i, i + w.len() as int) == w {
            assert(s[i + k] == s.subrange(i, i + w.len() as int)[k]);
        }
    }
}

pub proof fn lemma_parse_state_print(st: TaskState, s: Seq<u8>, i: int)
    requires
        0 <= i,
        i + state_json(st).len() <= s.len(),
        s.subrange(i, i + state_json(st).len() as int) == state_json(st),
    ensures
        spec_parse_state(s, i) == Some((st, i + state_json(st).len() as int)),
{
    reveal_strlit("Todo");
    reveal_strlit("InProgress");
    reveal_strlit("Blocked");
    reveal_strlit("Cancelled");
    reveal_strlit("Done");
    let w = state_json(st);
    assert(s[i + 1] == w[1]) by {
        assert(s.subrange(i, i + w.len() as int)[1] == w[1]);
    }
    assert(spec_expect(s, i, w) == Some(i + w.len() as int));
    if st != TaskState::Todo {
        lemma_expect_none_at(s, i, state_json(TaskState::Todo), 1);
    }
    if st != TaskState::InProgress {
        lemma_expect_none_at(s, i, state_json(TaskState::InProgress), 1);
    }
    if st != TaskState::Blocked {
        lemma_expect_none_at(s, i, state_json(TaskState::Blocked), 1);
    }
    if st != TaskState::Cancelled {
        lemma_expect_none_at(s, i, state_json(TaskState::Cancelled), 1);
    }
}

pub proof fn lemma_parse_entry_type_print(e: LogEntryTypeV, s: Seq<u8>, i: int)
    requires
        0 <= i,
        i + entry_type_json(e).len() <= s.len(),
        s.subrange(i, i + entry_type_json(e).len() as int) == entry_type_json(e),
    ensures
        spec_parse_entry_type(s, i) == Some((e, i + entry_type_json(e).len() as int)),
{
    reveal_strlit("Comment");
    reveal_strlit("StateChangedTo");
    let t = entry_type_json(e);
    match e {
        LogEntryTypeV::Comment(text) => {
            let a1 = tok_obj_key("Comment"@);
            let a2 = str_bytes(text);
            let a3 = seq![125u8];
            assert(t =~= a1 + (a2 + a3));
            lemma_subrange_cat(s, i, a1, a2 + a3);
            let i1 = i + a1.len() as int;
            lemma_subrange_cat(s, i1, a2, a3);
            let i2 = i1 + a2.len() as int;
            assert(spec_expect(s, i, a1) == Some(i1));
            crate::jsontext::lemma_parse_str_print(text, s, i1);
            assert(s[i2] == 125) by {
                assert(s.subrange(i2, i2 + 1) =~= a3);
                assert(s.subrange(i2, i2 + 1)[0] == 125);
            }
            assert(spec_expect(s, i2, seq![125u8]) == Some(i2 + 1)) by {
                assert(s.subrange(i2, i2 + 1) =~= seq![125u8]);
            }
        },
        LogEntryTypeV::StateChangedTo(st) => {
            let a1 = tok_obj_key("StateChangedTo"@);
            let a2 = state_json(st);
            let a3 = seq![125u8];
            assert(t =~= a1 + (a2 + a3));
            lemma_subrange_cat(s, i, a1, a2 + a3);
            let i1 = i + a1.len() as int;
            lemma_subrange_cat(s, i1, a2, a3);
            let i2 = i1 + a2.len() as int;
            assert(s[i + 2] == a1[2]) by {
                assert(s.subrange(i, i + a1.len() as int)[2] == a1[2]);
            }
            lemma_expect_none_at(s, i, tok_obj_key("Comment"@), 2);
            assert(spec_expect(s, i, a1) == Some(i1));
            lemma_parse_state_print(st, s, i1);
            assert(spec_expect(s, i2, seq![125u8]) == Some(i2 + 1)) by {
                assert(s.subrange(i2, i2 + 1) =~= seq![125u8]);
            }
        },
    }
}

pub proof fn lemma_parse_log_entry_print(e: LogEntryV, s: Seq<u8>, i: int)
    requires
        0 <= i,
        i + log_entry_json(e).len() <= s.len(),
        s.subrange(i, i + log_entry_json(e).len() as int) == log_entry_json(e),
    ensures
        spec_parse_log_entry(s, i) == Some((e, i + log_entry_json(e).len() as int)),
{
    let a1 = tok_obj_key("timestamp"@);
    let a2 = dec_digits(e.timestamp as nat);
    let a3 = tok_comma_key("entry_type"@);
    let a4 = entry_type_json(e.entry_type);
    let a5 = seq![125u8];
    let t = log_entry_json(e);
    assert(t =~= a1 + (a2 + (a3 + (a4 + a5))));
    lemma_subrange_cat(s, i, a1, a2 + (a3 + (a4 + a5)));
    let i1 = i + a1.len() as int;
    lemma_subrange_cat(s, i1, a2, a3 + (a4 + a5));
    let i2 = i1 + a2.len() as int;
    lemma_subrange_cat(s, i2, a3, a4 + a5);
    let i3 = i2 + a3.len() as int;
    lemma_subrange_cat(s, i3, a4, a5);
    let i4 = i3 + a4.len() as int;
    assert(spec_expect(s, i, a1) == Some(i1));
    assert(s[i2] == a3[0]) by {
        assert(s.subrange(i2, i2 + a3.len() as int)[0] == a3[0]);
    }
    assert(a3[0] == 44);
    crate::jsontext::lemma_parse_u64_print(e.timestamp, s, i1);
    assert(spec_expect(s, i2, a3) == Some(i3));
    lemma_parse_entry_type_print(e.entry_type, s, i3);
    assert(spec_expect(s, i4, seq![125u8]) == Some(i4 + 1)) by {
        assert(s.subrange(i4, i4 + 1) =~= seq![125u8]);
    }
}

pub proof fn lemma_parse_log_items_print(log: Seq<LogEntryV>, s: Seq<u8>, i: int, acc: Seq<
    LogEntryV,
>)
    requires
        log.len() >= 1,
        0 <= i,
        i + log_items(log).len() + 1 <= s.len(),
        s.subrange(i, i + log_items(log).len() + 1) == log_items(log) + seq![93u8],
    ensures
        spec_parse_log_items(s, i, acc) == Some((acc + log, i + log_items(log).len() + 1)),
    decreases log.len(),
{
    let e0 = log_entry_json(log[0]);
    if log.len() == 1 {
        assert(log_items(log) + seq![93u8] =~= e0 + seq![93u8]);
        lemma_subrange_cat(s, i, e0, seq![93u8]);
        lemma_parse_log_entry_print(log[0], s, i);
        let j = i + e0.len() as int;
        assert(s[j] == 93) by {
            assert(s.subrange(j, j + 1)[0] == 93);
        }
        assert(acc + log =~= acc.push(log[0]));
    } else {
        let rest = log_items(log.drop_first());
        assert(log_items(log) + seq![93u8] =~= e0 + (seq![44u8] + (rest + seq![93u8])));
        lemma_subrange_cat(s, i, e0, seq![44u8] + (rest + seq![93u8]));
        let j = i + e0.len() as int;
        lemma_subrange_cat(s, j, seq![44u8], rest + seq![93u8]);
        lemma_parse_log_entry_print(log[0], s, i);
        assert(s[j] == 44) by {
            assert(s.subrange(j, j + 1)[0] == 44);
        }
        lemma_parse_log_items_print(log.drop_first(), s, j + 1, acc.push(log[0]));
        assert(acc.push(log[0]) + log.drop_first() =~= acc + log);
    }
}

pub proof fn lemma_parse_log_print(log: Seq<LogEntryV>, s: Seq<u8>, i: int)
    requires
        0 <= i,
        i + log_items(log).len() + 2 <= s.len(),
        s.subrange(i, i + log_items(log).len() + 2) == seq![91u8] + log_items(log) + seq![93u8],
    ensures
        spec_parse_log(s, i) == Some((log, i + log_items(log).len() + 2)),
{
    let whole = seq![91u8] + log_items(log) + seq![93u8];
    assert(whole =~= seq![91u8] + (log_items(log) + seq![93u8]));
    lemma_subrange_cat(s, i, seq![91u8], log_items(log) + seq![93u8]);
    assert(s[i] == 91) by {
        assert(s.subrange(i, i + 1)[0] == 91);
    }
    assert(spec_expect(s, i, seq![91u8]) == Some(i + 1)) by {
        assert(s.subrange(i, i + 1) =~= seq![91u8]);
    }
    if log.len() == 0 {
        assert(s[i + 1] == 93) by {
            assert(s.subrange(i + 1, i + 2)[0] == 93);
        }
    } else {
        assert(s[i + 1] != 93) by {
            let e0 = log_entry_json(log[0]);
            assert(log_items(log).len() >= e0.len());
            assert(e0[0] == 123);
            assert(log_items(log)[0] == e0[0]);
            assert(s.subrange(i + 1, i + 1 + log_items(log).len() + 1)[0] == log_items(log)[0]);
        }
        lemma_parse_log_items_print(log, s, i + 1, Seq::empty());
        assert(Seq::<LogEntryV>::empty() + log =~= log);
    }
}

pub proof fn lemma_parse_dep_items_print(deps: Seq<u64>, s: Seq<u8>, i: int, acc: Seq<u64>)
    requires
        deps.len() >= 1,
        0 <= i,
        i + dep_items(deps).len() + 1 <= s.len(),
        s.subrange(i, i + dep_items(deps).len() + 1) == dep_items(deps) + seq![93u8],
    ensures
        spec_parse_dep_items(s, i, acc) == Some((acc + deps, i + dep_items(deps).len() + 1)),
    decreases deps.len(),
{
    let e0 = dec_digits(deps[0] as nat);
    if deps.len() == 1 {
        assert(dep_items(deps) + seq![93u8] =~= e0 + seq![93u8]);
        lemma_subrange_cat(s, i, e0, seq![93u8]);
        let j = i + e0.len() as int;
        assert(s[j] == 93) by {
            assert(s.subrange(j, j + 1)[0] == 93);
        }
        crate::jsontext::lemma_parse_u64_print(deps[0], s, i);
        assert(acc + deps =~= acc.push(deps[0]));
    } else {
        let rest = dep_items(deps.drop_first());
        assert(dep_items(deps) + seq![93u8] =~= e0 + (seq![44u8] + (rest + seq![93u8])));
        lemma_subrange_cat(s, i, e0, seq![44u8] + (rest + seq![93u8]));
        let j = i + e0.len() as int;
        lemma_subrange_cat(s, j, seq![44u8], rest + seq![93u8]);
        assert(s[j] == 44) by {
            assert(s.subrange(j, j + 1)[0] == 44);
        }
        crate::jsontext::lemma_parse_u64_print(deps[0], s, i);
        lemma_parse_dep_items_print(deps.drop_first(), s, j + 1, acc.push(deps[0]));
        assert(acc.push(deps[0]) + deps.drop_first() =~= acc + deps);
    }
}

pub proof fn lemma_parse_deps_print(deps: Seq<u64>, s: Seq<u8>, i: int)
    requires
        0 <= i,
        i + dep_items(deps).len() + 2 <= s.len(),
        s.subrange(i, i + dep_items(deps).len() + 2) == seq![91u8] + dep_items(deps) + seq![
            93u8,
        ],
    ensures
        spec_parse_deps(s, i) == Some((deps, i + dep_items(deps).len() + 2)),
{
    let whole = seq![91u8] + dep_items(deps) + seq![93u8];
    assert(whole =~= seq![91u8] + (dep_items(deps) + seq![93u8]));
    lemma_subrange_cat(s, i, seq![91u8], dep_items(deps) + seq![93u8]);
    assert(spec_expect(s, i, seq![91u8]) == Some(i + 1)) by {
        assert(s.subrange(i, i + 1) =~= seq![91u8]);
        assert(s.subrange(i, i + 1)[0] == 91);
    }
    if deps.len() == 0 {
        assert(s[i + 1] == 93) by {
            assert(s.subrange(i + 1, i + 2)[0] == 93);
        }
    } else {
        assert(s[i + 1] != 93) by {
            let e0 = dec_digits(deps[0] as nat);
            crate::jsontext::lemma_dec_digits_shape(deps[0] as nat);
            assert(dep_items(deps)[0] == e0[0]);
            assert(is_digit(e0[0]));
            assert(s.subrange(i + 1, i + 1 + dep_items(deps).len() + 1)[0] == dep_items(
                deps,
            )[0]);
        }
        lemma_parse_dep_items_print(deps, s, i + 1, Seq::empty());
        assert(Seq::<u64>::empty() + deps =~= deps);
    }
}


#[verifier::rlimit(100)]
#[verifier::spinoff_prover]
pub proof fn lemma_parse_task_print(t: TaskV, s: Seq<u8>, i: int)
    requires
        0 <= i,
        i + task_json(t).len() <= s.len(),
        s.subrange(i, i + task_json(t).len() as int) == task_json(t),
    ensures
        spec_parse_task(s, i) == Some((t, i + task_json(t).len() as int)),
{
    let a1 = tok_obj_key("title"@);
    let a2 = str_bytes(t.title);
    let a3 = tok_comma_key("description"@);
    let a4 = str_bytes(t.description);
    let a5 = tok_comma_key("id"@);
    let a6 = dec_digits(t.id as nat);
    let a7 = tok_comma_key("log"@);
    let a8 = seq![91u8] + log_items(t.log) + seq![93u8];
    let a9 = tok_comma_key("state"@);
    let a10 = state_json(t.state);
    let a11 = tok_comma_key("dependencies"@);
    let a12 = seq![91u8] + dep_items(t.dependencies) + seq![93u8];
    let a13 = seq![125u8];
    assert(task_json(t) =~= a1 + (a2 + (a3 + (a4 + (a5 + (a6 + (a7 + (a8 + (a9 + (a10 + (a11
        + (a12 + a13))))))))))));
    lemma_subrange_cat(s, i, a1, a2 + (a3 + (a4 + (a5 + (a6 + (a7 + (a8 + (a9 + (a10 + (a11 + (
    a12 + a13)))))))))));
    let i1 = i + a1.len() as int;
    lemma_subrange_cat(s, i1, a2, a3 + (a4 + (a5 + (a6 + (a7 + (a8 + (a9 + (a10 + (a11 + (a12
        + a13))))))))));
    let i2 = i1 + a2.len() as int;
    lemma_subrange_cat(s, i2, a3, a4 + (a5 + (a6 + (a7 + (a8 + (a9 + (a10 + (a11 + (a12
        + a13)))))))));
    let i3 = i2 + a3.len() as int;
    lemma_subrange_cat(s, i3, a4, a5 + (a6 + (a7 + (a8 + (a9 + (a10 + (a11 + (a12 + a13))))))));
    let i4 = i3 + a4.len() as int;
    lemma_subrange_cat(s, i4, a5, a6 + (a7 + (a8 + (a9 + (a10 + (a11 + (a12 + a13)))))));
    let i5 = i4 + a5.len() as int;
    lemma_subrange_cat(s, i5, a6, a7 + (a8 + (a9 + (a10 + (a11 + (a12 + a13))))));
    let i6 = i5 + a6.len() as int;
    lemma_subrange_cat(s, i6, a7, a8 + (a9 + (a10 + (a11 + (a12 + a13)))));
    let i7 = i6 + a7.len() as int;
    lemma_subrange_cat(s, i7, a8, a9 + (a10 + (a11 + (a12 + a13))));
    let i8 = i7 + a8.len() as int;
    lemma_subrange_cat(s, i8, a9, a10 + (a11 + (a12 + a13)));
    let i9 = i8 + a9.len() as int;
    lemma_subrange_cat(s, i9, a10, a11 + (a12 + a13));
    let i10 = i9 + a10.len() as int;
    lemma_subrange_cat(s, i10, a11, a12 + a13);
    let i11 = i10 + a11.len() as int;
    lemma_subrange_cat(s, i11, a12, a13);
    let i12 = i11 + a12.len() as int;
    assert(spec_expect(s, i, a1) == Some(i1));
    crate::jsontext::lemma_parse_str_print(t.title, s, i1);
    assert(spec_expect(s, i2, a3) == Some(i3));
    crate::jsontext::lemma_parse_str_print(t.description, s, i3);
    assert(spec_expect(s, i4, a5) == Some(i5));
    assert(s[i6] == a7[0]) by {
        assert(s.subrange(i6, i6 + a7.len() as int)[0] == a7[0]);
    }
    crate::jsontext::lemma_parse_u64_print(t.id, s, i5);
    assert(spec_expect(s, i6, a7) == Some(i7));
    lemma_parse_log_print(t.log, s, i7);
    assert(spec_expect(s, i8, a9) == Some(i9));
    lemma_parse_state_print(t.state, s, i9);
    assert(spec_expect(s, i10, a11) == Some(i11));
    lemma_parse_deps_print(t.dependencies, s, i11);
    assert(spec_expect(s, i12, a13) == Some(i12 + 1)) by {
        assert(s.subrange(i12, i12 + 1) =~= seq![125u8]);
    }
}

#[verifier::rlimit(100)]
#[verifier::spinoff_prover]
pub proof fn lemma_parse_task_items_print(tasks: Seq<TaskV>, s: Seq<u8>, i: int, acc: Seq<
    TaskV,
>)
    requires
        tasks.len() >= 1,
        0 <= i,
        i + task_items(tasks).len() + 1 <= s.len(),
        s.subrange(i, i + task_items(tasks).len() + 1) == task_items(tasks) + seq![93u8],
    ensures
        spec_parse_task_items(s, i, acc) == Some(
            (acc + tasks, i + task_items(tasks).len() + 1),
        ),
    decreases tasks.len(),
{
    let e0 = task_json(tasks[0]);
    if tasks.len() == 1 {
        assert(task_items(tasks) + seq![93u8] =~= e0 + seq![93u8]);
        lemma_subrange_cat(s, i, e0, seq![93u8]);
        lemma_parse_task_print(tasks[0], s, i);
        let j = i + e0.len() as int;
        assert(s[j] == 93) by {
            assert(s.subrange(j, j + 1)[0] == 93);
        }
        assert(acc + tasks =~= acc.push(tasks[0]));
    } else {
        let rest = task_items(tasks.drop_first());
        assert(task_items(tasks) + seq![93u8] =~= e0 + (seq![44u8] + (rest + seq![93u8])));
        lemma_subrange_cat(s, i, e0, seq![44u8] + (rest + seq![93u8]));
        let j = i + e0.len() as int;
        lemma_subrange_cat(s, j, seq![44u8], rest + seq![93u8]);
        lemma_parse_task_print(tasks[0], s, i);
        assert(s[j] == 44) by {
            assert(s.subrange(j, j + 1)[0] == 44);
        }
        lemma_parse_task_items_print(tasks.drop_first(), s, j + 1, acc.push(tasks[0]));
        assert(acc.push(tasks[0]) + tasks.drop_first() =~= acc + tasks);
    }
}

pub proof fn lemma_parse_tasks_print(tasks: Seq<TaskV>, s: Seq<u8>, i: int)
    requires
        0 <= i,
        i + task_items(tasks).len() + 2 <= s.len(),
        s.subrange(i, i + task_items(tasks).len() + 2) == seq![91u8] + task_items(tasks) + seq![
            93u8,
        ],
    ensures
        spec_parse_tasks(s, i) == Some((tasks, i + task_items(tasks).len() + 2)),
{
    let whole = seq![91u8] + task_items(tasks) + seq![93u8];
    assert(whole =~= seq![91u8] + (task_items(tasks) + seq![93u8]));
    lemma_subrange_cat(s, i, seq![91u8], task_items(tasks) + seq![93u8]);
    assert(spec_expect(s, i, seq![91u8]) == Some(i + 1)) by {
        assert(s.subrange(i, i + 1) =~= seq![91u8]);
        assert(s.subrange(i, i + 1)[0] == 91);
    }
    if tasks.len() == 0 {
        assert(s[i + 1] == 93) by {
            assert(s.subrange(i + 1, i + 2)[0] == 93);
        }
    } else {
        assert(s[i + 1] != 93) by {
            let e0 = task_json(tasks[0]);
            assert(e0[0] == 123);
            assert(task_items(tasks)[0] == e0[0]);
            assert(s.subrange(i + 1, i + 1 + task_items(tasks).len() + 1)[0] == task_items(
                tasks,
            )[0]);
        }
        lemma_parse_task_items_print(tasks, s, i + 1, Seq::empty());
        assert(Seq::<TaskV>::empty() + tasks =~= tasks);
    }
}


#[verifier::rlimit(100)]
#[verifier::spinoff_prover]
proof fn lemma_project_json_grouped(p: ProjectV)
    ensures
        project_json(p) == tok_obj_key("name"@) + (str_bytes(p.name) + (tok_comma_key(
            "description"@,
        ) + (str_bytes(p.description) + (tok_comma_key("id"@) + (dec_digits(p.id as nat) + (
        tok_comma_key("tasks"@) + ((seq![91u8] + task_items(p.tasks) + seq![93u8]) + (
        tok_comma_key("next_task_id"@) + (dec_digits(p.next_task_id as nat) + seq![
            125u8,
        ]))))))))),
{
    assert(project_json(p) =~= tok_obj_key("name"@) + (str_bytes(p.name) + (tok_comma_key(
        "description"@,
    ) + (str_bytes(p.description) + (tok_comma_key("id"@) + (dec_digits(p.id as nat) + (
    tok_comma_key("tasks"@) + ((seq![91u8] + task_items(p.tasks) + seq![93u8]) + (
    tok_comma_key("next_task_id"@) + (dec_digits(p.next_task_id as nat) + seq![
        125u8,
    ]))))))))));
}

#[verifier::rlimit(100)]
#[verifier::spinoff_prover]
pub proof fn lemma_parse_project_print(p: ProjectV, s: Seq<u8>, i: int)
    requires
        0 <= i,
        i + project_json(p).len() <= s.len(),
        s.subrange(i, i + project_json(p).len() as int) == project_json(p),
    ensures
        spec_parse_project(s, i) == Some((p, i + project_json(p).len() as int)),
{
    let a1 = tok_obj_key("name"@);
    let a2 = str_bytes(p.name);
    let a3 = tok_comma_key("description"@);
    let a4 = str_bytes(p.description);
    let a5 = tok_comma_key("id"@);
    let a6 = dec_digits(p.id as nat);
    let a7 = tok_comma_key("tasks"@);
    let a8 = seq![91u8] + task_items(p.tasks) + seq![93u8];
    let a9 = tok_comma_key("next_task_id"@);
    let a10 = dec_digits(p.next_task_id as nat);
    let a11 = seq![125u8];
    lemma_project_json_grouped(p);
    lemma_subrange_cat(s, i, a1, a2 + (a3 + (a4 + (a5 + (a6 + (a7 + (a8 + (a9 + (a10
        + a11)))))))));
    let i1 = i + a1.len() as int;
    lemma_subrange_cat(s, i1, a2, a3 + (a4 + (a5 + (a6 + (a7 + (a8 + (a9 + (a10 + a11))))))));
    let i2 = i1 + a2.len() as int;
    lemma_subrange_cat(s, i2, a3, a4 + (a5 + (a6 + (a7 + (a8 + (a9 + (a10 + a11)))))));
    let i3 = i2 + a3.len() as int;
    lemma_subrange_cat(s, i3, a4, a5 + (a6 + (a7 + (a8 + (a9 + (a10 + a11))))));
    let i4 = i3 + a4.len() as int;
    lemma_subrange_cat(s, i4, a5, a6 + (a7 + (a8 + (a9 + (a10 + a11)))));
    let i5 = i4 + a5.len() as int;
    lemma_subrange_cat(s, i5, a6, a7 + (a8 + (a9 + (a10 + a11))));
    let i6 = i5 + a6.len() as int;
    lemma_subrange_cat(s, i6, a7, a8 + (a9 + (a10 + a11)));
    let i7 = i6 + a7.len() as int;
    lemma_subrange_cat(s, i7, a8, a9 + (a10 + a11));
    let i8 = i7 + a8.len() as int;
    lemma_subrange_cat(s, i8, a9, a10 + a11);
    let i9 = i8 + a9.len() as int;
    lemma_subrange_cat(s, i9, a10, a11);
    let i10 = i9 + a10.len() as int;
    assert(spec_expect(s, i, a1) == Some(i1));
    crate::jsontext::lemma_parse_str_print(p.name, s, i1);
    assert(spec_expect(s, i2, a3) == Some(i3));
    crate::jsontext::lemma_parse_str_print(p.description, s, i3);
    assert(spec_expect(s, i4, a5) == Some(i5));
    assert(s[i6] == a7[0]) by {
        assert(s.subrange(i6, i6 + a7.len() as int)[0] == a7[0]);
    }
    crate::jsontext::lemma_parse_u64_print(p.id, s, i5);
    assert(spec_expect(s, i6, a7) == Some(i7));
    lemma_parse_tasks_print(p.tasks, s, i7);
    assert(spec_expect(s, i8, a9) == Some(i9));
    assert(s[i10] == a11[0]) by {
        assert(s.subrange(i10, i10 + 1)[0] == a11[0]);
    }
    crate::jsontext::lemma_parse_u64_print(p.next_task_id, s, i9);
    assert(spec_expect(s, i10, seq![125u8]) == Some(i10 + 1)) by {
        assert(s.subrange(i10, i10 + 1) =~= seq![125u8]);
    }
}

#[verifier::rlimit(100)]
#[verifier::spinoff_prover]
pub proof fn lemma_parse_project_items_print(ps: Seq<ProjectV>, s: Seq<u8>, i: int, acc: Seq<
    ProjectV,
>)
    requires
        ps.len() >= 1,
        0 <= i,
        i + project_items(ps).len() + 1 <= s.len(),
        s.subrange(i, i + project_items(ps).len() + 1) == project_items(ps) + seq![93u8],
    ensures
        spec_parse_project_items(s, i, acc) == Some(
            (acc + ps, i + project_items(ps).len() + 1),
        ),
    decreases ps.len(),
{
    let e0 = project_json(ps[0]);
    if ps.len() == 1 {
        assert(project_items(ps) + seq![93u8] =~= e0 + seq![93u8]);
        lemma_subrange_cat(s, i, e0, seq![93u8]);
        lemma_parse_project_print(ps[0], s, i);
        let j = i + e0.len() as int;
        assert(s[j] == 93) by {
            assert(s.subrange(j, j + 1)[0] == 93);
        }
        assert(acc + ps =~= acc.push(ps[0]));
    } else {
        let rest = project_items(ps.drop_first());
        assert(project_items(ps) + seq![93u8] =~= e0 + (seq![44u8] + (rest + seq![93u8])));
        lemma_subrange_cat(s, i, e0, seq![44u8] + (rest + seq![93u8]));
        let j = i + e0.len() as int;
        lemma_subrange_cat(s, j, seq![44u8], rest + seq![93u8]);
        lemma_parse_project_print(ps[0], s, i);
        assert(s[j] == 44) by {
            assert(s.subrange(j, j + 1)[0] == 44);
        }
        lemma_parse_project_items_print(ps.drop_first(), s, j + 1, acc.push(ps[0]));
        assert(acc.push(ps[0]) + ps.drop_first() =~= acc + ps);
    }
}

#[verifier::rlimit(100)]
#[verifier::spinoff_prover]
pub proof fn lemma_parse_db_print(d: DatabaseV, s: Seq<u8>, i: int)
    requires
        0 <= i,
        i + db_json(d).len() <= s.len(),
        s.subrange(i, i + db_json(d).len() as int) == db_json(d),
    ensures
        spec_parse_db(s, i) == Some((d, i + db_json(d).len() as int)),
{
    let a1 = tok_obj_key("projects"@);
    let a2 = seq![91u8] + project_items(d.projects) + seq![93u8];
    let a3 = tok_comma_key("next_project_id"@);
    let a4 = dec_digits(d.next_project_id as nat);
    let a5 = seq![125u8];
    assert(db_json(d) =~= a1 + (a2 + (a3 + (a4 + a5))));
    lemma_subrange_cat(s, i, a1, a2 + (a3 + (a4 + a5)));
    let i1 = i + a1.len() as int;
    lemma_subrange_cat(s, i1, a2, a3 + (a4 + a5));
    let i2 = i1 + a2.len() as int;
    lemma_subrange_cat(s, i2, a3, a4 + a5);
    let i3 = i2 + a3.len() as int;
    lemma_subrange_cat(s, i3, a4, a5);
    let i4 = i3 + a4.len() as int;
    assert(spec_expect(s, i, a1) == Some(i1));
    // projects array
    assert(a2 =~= seq![91u8] + (project_items(d.projects) + seq![93u8]));
    assert(spec_parse_projects(s, i1) == Some((d.projects, i2))) by {
        lemma_subrange_cat(s, i1, seq![91u8], project_items(d.projects) + seq![93u8]);
        assert(spec_expect(s, i1, seq![91u8]) == Some(i1 + 1)) by {
            assert(s.subrange(i1, i1 + 1) =~= seq![91u8]);
            assert(s.subrange(i1, i1 + 1)[0] == 91);
        }
        if d.projects.len() == 0 {
            assert(s[i1 + 1] == 93) by {
                assert(s.subrange(i1 + 1, i1 + 2)[0] == 93);
            }
        } else {
            assert(s[i1 + 1] != 93) by {
                let e0 = project_json(d.projects[0]);
                assert(e0[0] == 123);
                assert(project_items(d.projects)[0] == e0[0]);
                assert(s.subrange(i1 + 1, i1 + 1 + project_items(d.projects).len() + 1)[0]
                    == project_items(d.projects)[0]);
            }
            lemma_parse_project_items_print(d.projects, s, i1 + 1, Seq::empty());
            assert(Seq::<ProjectV>::empty() + d.projects =~= d.projects);
        }
    }
    assert(spec_expect(s, i2, a3) == Some(i3));
    assert(s[i4] == a5[0]) by {
        assert(s.subrange(i4, i4 + 1)[0] == a5[0]);
    }
    crate::jsontext::lemma_parse_u64_print(d.next_project_id, s, i3);
    assert(spec_expect(s, i4, seq![125u8]) == Some(i4 + 1)) by {
        assert(s.subrange(i4, i4 + 1) =~= seq![125u8]);
    }
    assert(DatabaseV { projects: d.projects, next_project_id: d.next_project_id } =~= d);
}

/// Loading the flushed text of a well-formed database gives the database
/// back: `load(flush(D)) == D`.
pub proof fn lemma_load_inverts_flush(d: DatabaseV)
    requires
        d.wf(),
    ensures
        spec_load(db_json(d)) == Some(d),
{
    let s = db_json(d);
    assert(s.subrange(0, s.len() as int) =~= s);
    lemma_parse_db_print(d, s, 0);
}


// ---------------------------------------------------------------------------
// Parsers (executable)
// ---------------------------------------------------------------------------

/// Consumes the single byte `b` at position `i`.
fn expect_one(s: &Vec<u8>, i: usize, b: u8) -> (r: Option<usize>)
    ensures
        match r {
            Some(end) => spec_expect(s@, i as int, seq![b]) == Some(end as int) && end == i + 1
                && i < s@.len(),
            None => spec_expect(s@, i as int, seq![b]) is None,
        },
{
    if i < s.len() && s[i] == b {
        proof {
            assert(s@.subrange(i as int, i + 1) =~= seq![b]);
        }
        Some(i + 1)
    } else {
        proof {
            if i < s@.len() {
                lemma_expect_none_at(s@, i as int, seq![b], 0);
            }
        }
        None
    }
}

fn obj_key_bytes(name: &str) -> (v: Vec<u8>)
    requires
        vstd::string::is_ascii(name),
    ensures
        v@ == tok_obj_key(name@),
        v@.len() > 0,
{
    let mut v: Vec<u8> = Vec::new();
    emit_obj_key(&mut v, name);
    proof {
        assert(v@ =~= tok_obj_key(name@));
    }
    v
}

fn comma_key_bytes(name: &str) -> (v: Vec<u8>)
    requires
        vstd::string::is_ascii(name),
    ensures
        v@ == tok_comma_key(name@),
        v@.len() > 0,
{
    let mut v: Vec<u8> = Vec::new();
    emit_comma_key(&mut v, name);
    proof {
        assert(v@ =~= tok_comma_key(name@));
    }
    v
}

fn state_bytes(st: TaskState) -> (v: Vec<u8>)
    ensures
        v@ == state_json(st),
        v@.len() > 0,
{
    let mut v: Vec<u8> = Vec::new();
    emit_state(&mut v, &st);
    proof {
        assert(v@ =~= state_json(st));
    }
    v
}

pub fn parse_state_e(s: &Vec<u8>, i: usize) -> (r: Option<(TaskState, usize)>)
    ensures
        match r {
            Some(v) => spec_parse_state(s@, i as int) == Some((v.0, v.1 as int)) && i < v.1
                <= s@.len(),
            None => spec_parse_state(s@, i as int) is None,
        },
{
    let t0 = state_bytes(TaskState::Todo);
    match expect_bytes(s, i, &t0) {
        Some(j) => {
            return Some((TaskState::Todo, j));
        },
        None => {},
    }
    let t1 = state_bytes(TaskState::InProgress);
    match expect_bytes(s, i, &t1) {
        Some(j) => {
            return Some((TaskState::InProgress, j));
        },
        None => {},
    }
    let t2 = state_bytes(TaskState::Blocked);
    match expect_bytes(s, i, &t2) {
        Some(j) => {
            return Some((TaskState::Blocked, j));
        },
        None => {},
    }
    let t3 = state_bytes(TaskState::Cancelled);
    match expect_bytes(s, i, &t3) {
        Some(j) => {
            return Some((TaskState::Cancelled, j));
        },
        None => {},
    }
    let t4 = state_bytes(TaskState::Done);
    match expect_bytes(s, i, &t4) {
        Some(j) => {
            return Some((TaskState::Done, j));
        },
        None => {},
    }
    None
}

pub fn parse_entry_type_e(s: &Vec<u8>, i: usize) -> (r: Option<(LogEntryType, usize)>)
    ensures
        match r {
            Some(v) => spec_parse_entry_type(s@, i as int) == Some((v.0@, v.1 as int)) && i
                < v.1 <= s@.len(),
            None => spec_parse_entry_type(s@, i as int) is None,
        },
{
    proof {
        reveal_strlit("Comment");
        reveal_strlit("StateChangedTo");
    }
    let tok_c = obj_key_bytes("Comment");
    match expect_bytes(s, i, &tok_c) {
        Some(j) => {
            match crate::jsontext::parse_str(s, j) {
                Some(pair) => {
                    let (text, j2) = pair;
                    match expect_one(s, j2, 125) {
                        Some(j3) => Some((LogEntryType::Comment(text), j3)),
                        None => None,
                    }
                },
                None => None,
            }
        },
        None => {
            let tok_s = obj_key_bytes("StateChangedTo");
            match expect_bytes(s, i, &tok_s) {
                Some(j) => {
                    match parse_state_e(s, j) {
                        Some(pair) => {
                            let (st, j2) = pair;
                            match expect_one(s, j2, 125) {
                                Some(j3) => Some((LogEntryType::StateChangedTo(st), j3)),
                                None => None,
                            }
                        },
                        None => None,
                    }
                },
                None => None,
            }
        },
    }
}

pub fn parse_log_entry_e(s: &Vec<u8>, i: usize) -> (r: Option<(LogEntry, usize)>)
    ensures
        match r {
            Some(v) => spec_parse_log_entry(s@, i as int) == Some((v.0@, v.1 as int)) && i
                < v.1 <= s@.len(),
            None => spec_parse_log_entry(s@, i as int) is None,
        },
{
    proof {
        reveal_strlit("timestamp");
        reveal_strlit("entry_type");
    }
    let tok_ts = obj_key_bytes("timestamp");
    let j1 = match expect_bytes(s, i, &tok_ts) {
        Some(j) => j,
        None => {
            return None;
        },
    };
    let (ts, j2) = match crate::jsontext::parse_u64(s, j1) {
        Some(pair) => pair,
        None => {
            return None;
        },
    };
    let tok_et = comma_key_bytes("entry_type");
    let j3 = match expect_bytes(s, j2, &tok_et) {
        Some(j) => j,
        None => {
            return None;
        },
    };
    let (et, j4) = match parse_entry_type_e(s, j3) {
        Some(pair) => pair,
        None => {
            return None;
        },
    };
    match expect_one(s, j4, 125) {
        Some(j5) => Some((LogEntry { timestamp: ts, entry_type: et }, j5)),
        None => None,
    }
}

pub fn parse_log_e(s: &Vec<u8>, i: usize) -> (r: Option<(Vec<LogEntry>, usize)>)
    ensures
        match r {
            Some(v) => spec_parse_log(s@, i as int) == Some((log_view(v.0@), v.1 as int)) && i
                < v.1 <= s@.len(),
            None => spec_parse_log(s@, i as int) is None,
        },
{
    let j = match expect_one(s, i, 91) {
        Some(j) => j,
        None => {
            return None;
        },
    };
    if j < s.len() && s[j] == 93 {
        let empty: Vec<LogEntry> = Vec::new();
        proof {
            assert(log_view(empty@) =~= Seq::<LogEntryV>::empty());
        }
        return Some((empty, j + 1));
    }
    let mut out: Vec<LogEntry> = Vec::new();
    proof {
        assert(log_view(out@) =~= Seq::<LogEntryV>::empty());
    }
    let mut cur: usize = j;
    loop
        invariant
            i < j <= cur <= s@.len(),
            spec_parse_log(s@, i as int) == spec_parse_log_items(s@, cur as int, log_view(
                out@,
            )),
        decreases s@.len() - cur,
    {
        match parse_log_entry_e(s, cur) {
            Some(pair) => {
                let (e, j2) = pair;
                let ghost acc0 = log_view(out@);
                let ghost ev = e@;
                if j2 < s.len() && s[j2] == 44 {
                    out.push(e);
                    proof {
                        assert(log_view(out@) =~= acc0.push(ev));
                    }
                    cur = j2 + 1;
                } else if j2 < s.len() && s[j2] == 93 {
                    out.push(e);
                    proof {
                        assert(log_view(out@) =~= acc0.push(ev));
                        assert(spec_parse_log_items(s@, cur as int, acc0) == Some(
                            (acc0.push(ev), j2 + 1 as int),
                        ));
                        assert(spec_parse_log(s@, i as int) == Some(
                            (log_view(out@), j2 + 1 as int),
                        ));
                        assert(i < j2 + 1);
                        assert(j2 + 1 <= s@.len());
                    }
                    return Some((out, j2 + 1));
                } else {
                    return None;
                }
            },
            None => {
                return None;
            },
        }
    }
}

pub fn parse_deps_e(s: &Vec<u8>, i: usize) -> (r: Option<(Vec<u64>, usize)>)
    ensures
        match r {
            Some(v) => spec_parse_deps(s@, i as int) == Some((v.0@, v.1 as int)) && i < v.1
                <= s@.len(),
            None => spec_parse_deps(s@, i as int) is None,
        },
{
    let j = match expect_one(s, i, 91) {
        Some(j) => j,
        None => {
            return None;
        },
    };
    if j < s.len() && s[j] == 93 {
        let empty: Vec<u64> = Vec::new();
        return Some((empty, j + 1));
    }
    let mut out: Vec<u64> = Vec::new();
    let mut cur: usize = j;
    loop
        invariant
            i < j <= cur <= s@.len(),
            spec_parse_deps(s@, i as int) == spec_parse_dep_items(s@, cur as int, out@),
        decreases s@.len() - cur,
    {
        match crate::jsontext::parse_u64(s, cur) {
            Some(pair) => {
                let (d, j2) = pair;
                if j2 < s.len() && s[j2] == 44 {
                    out.push(d);
                    cur = j2 + 1;
                } else if j2 < s.len() && s[j2] == 93 {
                    out.push(d);
                    proof {
                        assert(spec_parse_dep_items(s@, cur as int, out@.drop_last()) == Some(
                            (out@.drop_last().push(d), j2 + 1 as int),
                        ));
                        assert(out@.drop_last().push(d) =~= out@);
                        assert(spec_parse_deps(s@, i as int) == Some((out@, j2 + 1 as int)));
                    }
                    return Some((out, j2 + 1));
                } else {
                    return None;
                }
            },
            None => {
                return None;
            },
        }
    }
}

pub fn parse_task_e(s: &Vec<u8>, i: usize) -> (r: Option<(Task, usize)>)
    ensures
        match r {
            Some(v) => spec_parse_task(s@, i as int) == Some((v.0@, v.1 as int)) && i < v.1
                <= s@.len(),
            None => spec_parse_task(s@, i as int) is None,
        },
{
    proof {
        reveal_strlit("title");
        reveal_strlit("description");
        reveal_strlit("id");
        reveal_strlit("log");
        reveal_strlit("state");
        reveal_strlit("dependencies");
    }
    let tok = obj_key_bytes("title");
    let j1 = match expect_bytes(s, i, &tok) {
        Some(j) => j,
        None => {
            return None;
        },
    };
    let (title, j2) = match crate::jsontext::parse_str(s, j1) {
        Some(pair) => pair,
        None => {
            return None;
        },
    };
    let tok2 = comma_key_bytes("description");
    let j3 = match expect_bytes(s, j2, &tok2) {
        Some(j) => j,
        None => {
            return None;
        },
    };
    let (description, j4) = match crate::jsontext::parse_str(s, j3) {
        Some(pair) => pair,
        None => {
            return None;
        },
    };
    let tok3 = comma_key_bytes("id");
    let j5 = match expect_bytes(s, j4, &tok3) {
        Some(j) => j,
        None => {
            return None;
        },
    };
    let (id, j6) = match crate::jsontext::parse_u64(s, j5) {
        Some(pair) => pair,
        None => {
            return None;
        },
    };
    let tok4 = comma_key_bytes("log");
    let j7 = match expect_bytes(s, j6, &tok4) {
        Some(j) => j,
        None => {
            return None;
        },
    };
    let (log, j8) = match parse_log_e(s, j7) {
        Some(pair) => pair,
        None => {
            return None;
        },
    };
    let tok5 = comma_key_bytes("state");
    let j9 = match expect_bytes(s, j8, &tok5) {
        Some(j) => j,
        None => {
            return None;
        },
    };
    let (state, j10) = match parse_state_e(s, j9) {
        Some(pair) => pair,
        None => {
            return None;
        },
    };
    let tok6 = comma_key_bytes("dependencies");
    let j11 = match expect_bytes(s, j10, &tok6) {
        Some(j) => j,
        None => {
            return None;
        },
    };
    let (dependencies, j12) = match parse_deps_e(s, j11) {
        Some(pair) => pair,
        None => {
            return None;
        },
    };
    match expect_one(s, j12, 125) {
        Some(j13) => {
            let t = Task { title, description, id, log, state, dependencies };
            proof {
                assert(t@ =~= (TaskV {
                    title: t.title@,
                    description: t.description@,
                    id: t.id,
                    log: log_view(t.log@),
                    state: t.state,
                    dependencies: t.dependencies@,
                }));
            }
            Some((t, j13))
        },
        None => None,
    }
}

pub fn parse_tasks_e(s: &Vec<u8>, i: usize) -> (r: Option<(Vec<Task>, usize)>)
    ensures
        match r {
            Some(v) => spec_parse_tasks(s@, i as int) == Some((tasks_view(v.0@), v.1 as int))
                && i < v.1 <= s@.len(),
            None => spec_parse_tasks(s@, i as int) is None,
        },
{
    let j = match expect_one(s, i, 91) {
        Some(j) => j,
        None => {
            return None;
        },
    };
    if j < s.len() && s[j] == 93 {
        let empty: Vec<Task> = Vec::new();
        proof {
            assert(tasks_view(empty@) =~= Seq::<TaskV>::empty());
        }
        return Some((empty, j + 1));
    }
    let mut out: Vec<Task> = Vec::new();
    proof {
        assert(tasks_view(out@) =~= Seq::<TaskV>::empty());
    }
    let mut cur: usize = j;
    loop
        invariant
            i < j <= cur <= s@.len(),
            spec_parse_tasks(s@, i as int) == spec_parse_task_items(s@, cur as int, tasks_view(
                out@,
            )),
        decreases s@.len() - cur,
    {
        match parse_task_e(s, cur) {
            Some(pair) => {
                let (t, j2) = pair;
                let ghost acc0 = tasks_view(out@);
                let ghost tv = t@;
                if j2 < s.len() && s[j2] == 44 {
                    out.push(t);
                    proof {
                        assert(tasks_view(out@) =~= acc0.push(tv));
                    }
                    cur = j2 + 1;
                } else if j2 < s.len() && s[j2] == 93 {
                    out.push(t);
                    proof {
                        assert(tasks_view(out@) =~= acc0.push(tv));
                        assert(spec_parse_task_items(s@, cur as int, acc0) == Some(
                            (acc0.push(tv), j2 + 1 as int),
                        ));
                        assert(spec_parse_tasks(s@, i as int) == Some(
                            (tasks_view(out@), j2 + 1 as int),
                        ));
                    }
                    return Some((out, j2 + 1));
                } else {
                    return None;
                }
            },
            None => {
                return None;
            },
        }
    }
}

pub fn parse_project_e(s: &Vec<u8>, i: usize) -> (r: Option<(Project, usize)>)
    ensures
        match r {
            Some(v) => spec_parse_project(s@, i as int) == Some((v.0@, v.1 as int)) && i < v.1
                <= s@.len(),
            None => spec_parse_project(s@, i as int) is None,
        },
{
    proof {
        reveal_strlit("name");
        reveal_strlit("description");
        reveal_strlit("id");
        reveal_strlit("tasks");
        reveal_strlit("next_task_id");
    }
    let tok = obj_key_bytes("name");
    let j1 = match expect_bytes(s, i, &tok) {
        Some(j) => j,
        None => {
            return None;
        },
    };
    let (name, j2) = match crate::jsontext::parse_str(s, j1) {
        Some(pair) => pair,
        None => {
            return None;
        },
    };
    let tok2 = comma_key_bytes("description");
    let j3 = match expect_bytes(s, j2, &tok2) {
        Some(j) => j,
        None => {
            return None;
        },
    };
    let (description, j4) = match crate::jsontext::parse_str(s, j3) {
        Some(pair) => pair,
        None => {
            return None;
        },
    };
    let tok3 = comma_key_bytes("id");
    let j5 = match expect_bytes(s, j4, &tok3) {
        Some(j) => j,
        None => {
            return None;
        },
    };
    let (id, j6) = match crate::jsontext::parse_u64(s, j5) {
        Some(pair) => pair,
        None => {
            return None;
        },
    };
    let tok4 = comma_key_bytes("tasks");
    let j7 = match expect_bytes(s, j6, &tok4) {
        Some(j) => j,
        None => {
            return None;
        },
    };
    let (tasks, j8) = match parse_tasks_e(s, j7) {
        Some(pair) => pair,
        None => {
            return None;
        },
    };
    let tok5 = comma_key_bytes("next_task_id");
    let j9 = match expect_bytes(s, j8, &tok5) {
        Some(j) => j,
        None => {
            return None;
        },
    };
    let (next_task_id, j10) = match crate::jsontext::parse_u64(s, j9) {
        Some(pair) => pair,
        None => {
            return None;
        },
    };
    match expect_one(s, j10, 125) {
        Some(j11) => {
            let p = Project { name, description, id, tasks, next_task_id };
            proof {
                assert(p@ =~= (ProjectV {
                    name: p.name@,
                    description: p.description@,
                    id: p.id,
                    tasks: tasks_view(p.tasks@),
                    next_task_id: p.next_task_id,
                }));
            }
            Some((p, j11))
        },
        None => None,
    }
}

#[verifier::rlimit(100)]
#[verifier::spinoff_prover]
pub fn parse_db_e(s: &Vec<u8>, i: usize) -> (r: Option<(Database, usize)>)
    ensures
        match r {
            Some(v) => spec_parse_db(s@, i as int) == Some((v.0@, v.1 as int)) && i < v.1
                <= s@.len(),
            None => spec_parse_db(s@, i as int) is None,
        },
{
    proof {
        reveal_strlit("projects");
        reveal_strlit("next_project_id");
    }
    let tok = obj_key_bytes("projects");
    let j1 = match expect_bytes(s, i, &tok) {
        Some(j) => j,
        None => {
            return None;
        },
    };
    // projects array
    let j = match expect_one(s, j1, 91) {
        Some(j) => j,
        None => {
            return None;
        },
    };
    let mut out: Vec<Project> = Vec::new();
    proof {
        assert(projects_view(out@) =~= Seq::<ProjectV>::empty());
    }
    let mut cur: usize = j;
    let mut j2: usize = 0;
    let mut done = false;
    if j < s.len() && s[j] == 93 {
        j2 = j + 1;
        done = true;
        proof {
            assert(projects_view(out@) =~= Seq::<ProjectV>::empty());
        }
    }
    while !done
        invariant
            i < j1 < j <= cur <= s@.len(),
            spec_expect(s@, i as int, tok_obj_key("projects"@)) == Some(j1 as int),
            !done ==> spec_parse_projects(s@, j1 as int) == spec_parse_project_items(
                s@,
                cur as int,
                projects_view(out@),
            ),
            done ==> spec_parse_projects(s@, j1 as int) == Some(
                (projects_view(out@), j2 as int),
            ) && j1 < j2 <= s@.len(),
        decreases s@.len() - cur + (if done { 0int } else { 1int }),
    {
        match parse_project_e(s, cur) {
            Some(pair) => {
                let (p, jn) = pair;
                let ghost acc0 = projects_view(out@);
                let ghost pv = p@;
                if jn < s.len() && s[jn] == 44 {
                    out.push(p);
                    proof {
                        assert(projects_view(out@) =~= acc0.push(pv));
                    }
                    cur = jn + 1;
                } else if jn < s.len() && s[jn] == 93 {
                    out.push(p);
                    proof {
                        assert(projects_view(out@) =~= acc0.push(pv));
                    }
                    j2 = jn + 1;
                    done = true;
                } else {
                    return None;
                }
            },
            None => {
                return None;
            },
        }
    }
    let tok2 = comma_key_bytes("next_project_id");
    let j3 = match expect_bytes(s, j2, &tok2) {
        Some(j) => j,
        None => {
            return None;
        },
    };
    let (next_project_id, j4) = match crate::jsontext::parse_u64(s, j3) {
        Some(pair) => pair,
        None => {
            return None;
        },
    };
    match expect_one(s, j4, 125) {
        Some(j5) => {
            let db = Database { projects: out, next_project_id };
            proof {
                assert(db@ =~= (DatabaseV {
                    projects: projects_view(db.projects@),
                    next_project_id: db.next_project_id,
                }));
            }
            Some((db, j5))
        },
        None => None,
    }
}


/// Reads a database back from its serialized form: the parsed document,
/// provided the whole input is consumed and the result is well-formed.
pub fn load_bytes(s: &Vec<u8>) -> (r: Option<Database>)
    ensures
        match r {
            Some(db) => spec_load(s@) == Some(db@) && db@.wf(),
            None => spec_load(s@) is None,
        },
{
    match parse_db_e(s, 0) {
        Some(pair) => {
            let (db, end) = pair;
            if end == s.len() && db.check_wf() {
                Some(db)
            } else {
                None
            }
        },
        None => None,
    }
}

} // verus!

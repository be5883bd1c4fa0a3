//! Request dispatch: one verified function per endpoint, each parsing its
//! JSON request body, applying a domain operation, and producing the JSON
//! response, plus the router that maps method and path to a handler.

use vstd::prelude::*;

use crate::codec::{
    db_json, emit_state, emit_task, spec_parse_state, state_json, task_json, tok_comma_key,
    tok_obj_key,
};
use crate::jsontext::{
    ascii_bytes, dec_digits, emit_str, emit_u64, expect_bytes, push_lit, spec_expect,
    spec_parse_str, spec_parse_u64, str_bytes,
};
use crate::model::{
    clamped_ts, Database, DatabaseV, DbError, DependencyAction, LogEntryTypeV, LogEntryV,
    ProjectV, TaskState, TaskV, MAX_ID,
};
use crate::ops::with_task;

verus! {

/// HTTP method of a request, as far as the service distinguishes them.
#[derive(Clone, Copy, PartialEq, Eq, Structural)]
pub enum Method {
    Get,
    Post,
    Other,
}

/// What a handler hands back to the HTTP shell.
pub struct Reply {
    pub status: u16,
    pub body: Vec<u8>,
    /// Whether the database changed and must be flushed before responding.
    pub mutated: bool,
}

/// The outcome a handler is specified to produce.
#[verifier::ext_equal]
pub struct Outcome {
    pub db: DatabaseV,
    pub status: u16,
    pub body: Seq<u8>,
    pub mutated: bool,
}

// ---------------------------------------------------------------------------
// Request bodies
// ---------------------------------------------------------------------------

/// The position after `tok` at `i`, or -1 when it does not match.
pub open spec fn after_tok(s: Seq<u8>, i: int, tok: Seq<u8>) -> int {
    match spec_expect(s, i, tok) {
        Some(j) => j,
        None => -1,
    }
}

/// The whole input is consumed after a closing brace at `j`.
pub open spec fn closes_obj(s: Seq<u8>, j: int) -> bool {
    0 <= j && j + 1 == s.len() && s[j] == 125
}

/// `{"project_id":N}`
pub open spec fn req_pid(s: Seq<u8>) -> Option<u64> {
    match spec_expect(s, 0, tok_obj_key("project_id"@)) {
        Some(j) => match spec_parse_u64(s, j) {
            Some((pid, j2)) => if closes_obj(s, j2) {
                Some(pid)
            } else {
                None
            },
            None => None,
        },
        None => None,
    }
}

/// `{"project_id":N,"task_id":M` up to the position after `M`.
pub open spec fn req_pid_tid_prefix(s: Seq<u8>) -> Option<(u64, u64, int)> {
    match spec_expect(s, 0, tok_obj_key("project_id"@)) {
        Some(j) => match spec_parse_u64(s, j) {
            Some((pid, j2)) => match spec_expect(s, j2, tok_comma_key("task_id"@)) {
                Some(j3) => match spec_parse_u64(s, j3) {
                    Some((tid, j4)) => Some((pid, tid, j4)),
                    None => None,
                },
                None => None,
            },
            None => None,
        },
        None => None,
    }
}

/// `{"project_id":N,"task_id":M}`
pub open spec fn req_pid_tid(s: Seq<u8>) -> Option<(u64, u64)> {
    match req_pid_tid_prefix(s) {
        Some((pid, tid, j)) => if closes_obj(s, j) {
            Some((pid, tid))
        } else {
            None
        },
        None => None,
    }
}

/// `{"name":S,"description":S}`
pub open spec fn req_name_description(s: Seq<u8>) -> Option<(Seq<u8>, Seq<u8>)> {
    match spec_expect(s, 0, tok_obj_key("name"@)) {
        Some(j) => match spec_parse_str(s, j) {
            Some((name, j2)) => match spec_expect(s, j2, tok_comma_key("description"@)) {
                Some(j3) => match spec_parse_str(s, j3) {
                    Some((description, j4)) => if closes_obj(s, j4) {
                        Some((name, description))
                    } else {
                        None
                    },
                    None => None,
                },
                None => None,
            },
            None => None,
        },
        None => None,
    }
}

/// `{"project_id":N,"<field>":S}`
pub open spec fn req_pid_str(s: Seq<u8>, field: Seq<char>) -> Option<(u64, Seq<u8>)> {
    match spec_expect(s, 0, tok_obj_key("project_id"@)) {
        Some(j) => match spec_parse_u64(s, j) {
            Some((pid, j2)) => match spec_expect(s, j2, tok_comma_key(field)) {
                Some(j3) => match spec_parse_str(s, j3) {
                    Some((text, j4)) => if closes_obj(s, j4) {
                        Some((pid, text))
                    } else {
                        None
                    },
                    None => None,
                },
                None => None,
            },
            None => None,
        },
        None => None,
    }
}

/// `{"project_id":N,"title":S,"description":S}`
pub open spec fn req_task_create(s: Seq<u8>) -> Option<(u64, Seq<u8>, Seq<u8>)> {
    match spec_expect(s, 0, tok_obj_key("project_id"@)) {
        Some(j) => match spec_parse_u64(s, j) {
            Some((pid, j2)) => match spec_expect(s, j2, tok_comma_key("title"@)) {
                Some(j3) => match spec_parse_str(s, j3) {
                    Some((title, j4)) => match spec_expect(s, j4, tok_comma_key(
                        "description"@,
                    )) {
                        Some(j5) => match spec_parse_str(s, j5) {
                            Some((description, j6)) => if closes_obj(s, j6) {
                                Some((pid, title, description))
                            } else {
                                None
                            },
                            None => None,
                        },
                        None => None,
                    },
                    None => None,
                },
                None => None,
            },
            None => None,
        },
        None => None,
    }
}

/// `{"project_id":N,"task_id":M,"<field>":S}`
pub open spec fn req_pid_tid_str(s: Seq<u8>, field: Seq<char>) -> Option<(u64, u64, Seq<u8>)> {
    match req_pid_tid_prefix(s) {
        Some((pid, tid, j)) => match spec_expect(s, j, tok_comma_key(field)) {
            Some(j2) => match spec_parse_str(s, j2) {
                Some((text, j3)) => if closes_obj(s, j3) {
                    Some((pid, tid, text))
                } else {
                    None
                },
                None => None,
            },
            None => None,
        },
        None => None,
    }
}

/// `{"project_id":N,"task_id":M,"new_state":T}`
pub open spec fn req_task_state(s: Seq<u8>) -> Option<(u64, u64, TaskState)> {
    match req_pid_tid_prefix(s) {
        Some((pid, tid, j)) => match spec_expect(s, j, tok_comma_key("new_state"@)) {
            Some(j2) => match spec_parse_state(s, j2) {
                Some((st, j3)) => if closes_obj(s, j3) {
                    Some((pid, tid, st))
                } else {
                    None
                },
                None => None,
            },
            None => None,
        },
        None => None,
    }
}

/// `{"project_id":N,"task_id":M,"dependency":D,"action":A}`
pub open spec fn req_task_dependency(s: Seq<u8>) -> Option<(u64, u64, u64, DependencyAction)> {
    match req_pid_tid_prefix(s) {
        Some((pid, tid, j)) => match spec_expect(s, j, tok_comma_key("dependency"@)) {
            Some(j2) => match spec_parse_u64(s, j2) {
                Some((dep, j3)) => match spec_expect(s, j3, tok_comma_key("action"@)) {
                    Some(j4) => match spec_expect(
                        s,
                        j4,
                        seq![34u8] + ascii_bytes("Add"@) + seq![34u8],
                    ) {
                        Some(j5) => if closes_obj(s, j5) {
                            Some((pid, tid, dep, DependencyAction::Add))
                        } else {
                            None
                        },
                        None => match spec_expect(
                            s,
                            j4,
                            seq![34u8] + ascii_bytes("Remove"@) + seq![34u8],
                        ) {
                            Some(j5) => if closes_obj(s, j5) {
                                Some((pid, tid, dep, DependencyAction::Remove))
                            } else {
                                None
                            },
                            None => None,
                        },
                    },
                    None => None,
                },
                None => None,
            },
            None => None,
        },
        None => None,
    }
}

// ---------------------------------------------------------------------------
// Response bodies
// ---------------------------------------------------------------------------

/// `{"description":"OK","status":200}`
pub open spec fn ok_body() -> Seq<u8> {
    tok_obj_key("description"@) + str_bytes(ascii_bytes("OK"@)) + tok_comma_key("status"@)
        + dec_digits(200) + seq![125u8]
}

/// `{"description":<message>,"status":500}`
pub open spec fn err_body(msg: Seq<u8>) -> Seq<u8> {
    tok_obj_key("description"@) + str_bytes(msg) + tok_comma_key("status"@) + dec_digits(500)
        + seq![125u8]
}

/// `{"<key>":N}`
pub open spec fn id_body(key: Seq<char>, n: u64) -> Seq<u8> {
    tok_obj_key(key) + dec_digits(n as nat) + seq![125u8]
}

pub open spec fn no_project_msg(pid: u64) -> Seq<u8> {
    ascii_bytes("Could not find project with ID: "@) + dec_digits(pid as nat)
}

pub open spec fn no_task_msg(tid: u64) -> Seq<u8> {
    ascii_bytes("Could not find task with ID: "@) + dec_digits(tid as nat)
}

pub open spec fn bad_request_msg() -> Seq<u8> {
    ascii_bytes("Could not parse request"@)
}

pub open spec fn exhausted_msg() -> Seq<u8> {
    ascii_bytes("No identifier left"@)
}

/// `{"id":N,"name":S}`, one row of the project list.
pub open spec fn peek_json(p: ProjectV) -> Seq<u8> {
    tok_obj_key("id"@) + dec_digits(p.id as nat) + tok_comma_key("name"@) + str_bytes(p.name)
        + seq![125u8]
}

pub open spec fn peek_items(ps: Seq<ProjectV>) -> Seq<u8>
    decreases ps.len(),
{
    if ps.len() == 0 {
        Seq::empty()
    } else if ps.len() == 1 {
        peek_json(ps[0])
    } else {
        peek_json(ps[0]) + seq![44u8] + peek_items(ps.drop_first())
    }
}

/// `{"projects":[...]}`, the whole project list.
pub open spec fn list_body(ps: Seq<ProjectV>) -> Seq<u8> {
    tok_obj_key("projects"@) + seq![91u8] + peek_items(ps) + seq![93u8, 125u8]
}

/// `{"id":N,"state":T,"title":S}`, one row of a project's task list.
pub open spec fn task_peek_json(t: TaskV) -> Seq<u8> {
    tok_obj_key("id"@) + dec_digits(t.id as nat) + tok_comma_key("state"@) + state_json(
        t.state,
    ) + tok_comma_key("title"@) + str_bytes(t.title) + seq![125u8]
}

pub open spec fn task_peek_items(ts: Seq<TaskV>) -> Seq<u8>
    decreases ts.len(),
{
    if ts.len() == 0 {
        Seq::empty()
    } else if ts.len() == 1 {
        task_peek_json(ts[0])
    } else {
        task_peek_json(ts[0]) + seq![44u8] + task_peek_items(ts.drop_first())
    }
}

/// `{"description":S,"id":N,"name":S,"tasks":[...]}`
pub open spec fn project_details_body(p: ProjectV) -> Seq<u8> {
    tok_obj_key("description"@) + str_bytes(p.description) + tok_comma_key("id"@) + dec_digits(
        p.id as nat,
    ) + tok_comma_key("name"@) + str_bytes(p.name) + tok_comma_key("tasks"@) + seq![91u8]
        + task_peek_items(p.tasks) + seq![93u8, 125u8]
}

proof fn lemma_peek_items_snoc(ps: Seq<ProjectV>, p: ProjectV)
    ensures
        peek_items(ps.push(p)) == if ps.len() == 0 {
            peek_json(p)
        } else {
            peek_items(ps) + seq![44u8] + peek_json(p)
        },
    decreases ps.len(),
{
    if ps.len() == 0 {
        assert(ps.push(p)[0] == p);
        assert(peek_items(ps.push(p)) =~= peek_json(p));
    } else {
        assert(ps.push(p).drop_first() =~= ps.drop_first().push(p));
        lemma_peek_items_snoc(ps.drop_first(), p);
        assert(peek_items(ps.push(p)) =~= peek_items(ps) + seq![44u8] + peek_json(p));
    }
}

proof fn lemma_task_peek_items_snoc(ts: Seq<TaskV>, t: TaskV)
    ensures
        task_peek_items(ts.push(t)) == if ts.len() == 0 {
            task_peek_json(t)
        } else {
            task_peek_items(ts) + seq![44u8] + task_peek_json(t)
        },
    decreases ts.len(),
{
    if ts.len() == 0 {
        assert(ts.push(t)[0] == t);
        assert(task_peek_items(ts.push(t)) =~= task_peek_json(t));
    } else {
        assert(ts.push(t).drop_first() =~= ts.drop_first().push(t));
        lemma_task_peek_items_snoc(ts.drop_first(), t);
        assert(task_peek_items(ts.push(t)) =~= task_peek_items(ts) + seq![44u8]
            + task_peek_json(t));
    }
}

// Emitters for the response bodies.

fn emit_obj_key_d(out: &mut Vec<u8>, name: &str)
    requires
        vstd::string::is_ascii(name),
    ensures
        final(out)@ == old(out)@ + tok_obj_key(name@),
{
    out.push(123);
    out.push(34);
    push_lit(out, name);
    out.push(34);
    out.push(58);
    proof {
        assert(final(out)@ =~= old(out)@ + tok_obj_key(name@));
    }
}

fn emit_comma_key_d(out: &mut Vec<u8>, name: &str)
    requires
        vstd::string::is_ascii(name),
    ensures
        final(out)@ == old(out)@ + tok_comma_key(name@),
{
    out.push(44);
    out.push(34);
    push_lit(out, name);
    out.push(34);
    out.push(58);
    proof {
        assert(final(out)@ =~= old(out)@ + tok_comma_key(name@));
    }
}

fn build_ok() -> (r: Vec<u8>)
    ensures
        r@ == ok_body(),
{
    proof {
        reveal_strlit("description");
        reveal_strlit("OK");
        reveal_strlit("status");
    }
    let mut out: Vec<u8> = Vec::new();
    emit_obj_key_d(&mut out, "description");
    let mut ok: Vec<u8> = Vec::new();
    push_lit(&mut ok, "OK");
    emit_str(&mut out, &ok);
    emit_comma_key_d(&mut out, "status");
    emit_u64(&mut out, 200);
    out.push(125);
    proof {
        assert(out@ =~= ok_body());
    }
    out
}

fn build_err(msg: &Vec<u8>) -> (r: Vec<u8>)
    ensures
        r@ == err_body(msg@),
{
    proof {
        reveal_strlit("description");
        reveal_strlit("status");
    }
    let mut out: Vec<u8> = Vec::new();
    emit_obj_key_d(&mut out, "description");
    emit_str(&mut out, msg);
    emit_comma_key_d(&mut out, "status");
    emit_u64(&mut out, 500);
    out.push(125);
    proof {
        assert(out@ =~= err_body(msg@));
    }
    out
}

fn build_id(key: &str, n: u64) -> (r: Vec<u8>)
    requires
        vstd::string::is_ascii(key),
    ensures
        r@ == id_body(key@, n),
{
    let mut out: Vec<u8> = Vec::new();
    emit_obj_key_d(&mut out, key);
    emit_u64(&mut out, n);
    out.push(125);
    proof {
        assert(out@ =~= id_body(key@, n));
    }
    out
}

fn msg_no_project(pid: u64) -> (r: Vec<u8>)
    ensures
        r@ == no_project_msg(pid),
{
    proof {
        reveal_strlit("Could not find project with ID: ");
    }
    let mut out: Vec<u8> = Vec::new();
    push_lit(&mut out, "Could not find project with ID: ");
    emit_u64(&mut out, pid);
    proof {
        assert(out@ =~= no_project_msg(pid));
    }
    out
}

fn msg_no_task(tid: u64) -> (r: Vec<u8>)
    ensures
        r@ == no_task_msg(tid),
{
    proof {
        reveal_strlit("Could not find task with ID: ");
    }
    let mut out: Vec<u8> = Vec::new();
    push_lit(&mut out, "Could not find task with ID: ");
    emit_u64(&mut out, tid);
    proof {
        assert(out@ =~= no_task_msg(tid));
    }
    out
}

fn msg_bad_request() -> (r: Vec<u8>)
    ensures
        r@ == bad_request_msg(),
{
    proof {
        reveal_strlit("Could not parse request");
    }
    let mut out: Vec<u8> = Vec::new();
    push_lit(&mut out, "Could not parse request");
    out
}

fn msg_exhausted() -> (r: Vec<u8>)
    ensures
        r@ == exhausted_msg(),
{
    proof {
        reveal_strlit("No identifier left");
    }
    let mut out: Vec<u8> = Vec::new();
    push_lit(&mut out, "No identifier left");
    out
}


// ---------------------------------------------------------------------------
// Request parsing (executable)
// ---------------------------------------------------------------------------

fn key_tok(first: bool, name: &str) -> (v: Vec<u8>)
    requires
        vstd::string::is_ascii(name),
    ensures
        v@ == if first {
            tok_obj_key(name@)
        } else {
            tok_comma_key(name@)
        },
{
    let mut v: Vec<u8> = Vec::new();
    if first {
        emit_obj_key_d(&mut v, name);
    } else {
        emit_comma_key_d(&mut v, name);
    }
    proof {
        assert(v@ =~= if first {
            tok_obj_key(name@)
        } else {
            tok_comma_key(name@)
        });
    }
    v
}

fn at_close(s: &Vec<u8>, j: usize) -> (r: bool)
    ensures
        r == closes_obj(s@, j as int),
{
    j < s.len() && s[j] == 125 && j + 1 == s.len()
}

fn parse_req_pid(s: &Vec<u8>) -> (r: Option<u64>)
    ensures
        r == req_pid(s@),
{
    proof {
        reveal_strlit("project_id");
    }
    let tok = key_tok(true, "project_id");
    let j = match expect_bytes(s, 0, &tok) {
        Some(j) => j,
        None => {
            return None;
        },
    };
    let (pid, j2) = match crate::jsontext::parse_u64(s, j) {
        Some(pair) => pair,
        None => {
            return None;
        },
    };
    if at_close(s, j2) {
        Some(pid)
    } else {
        None
    }
}

fn parse_req_pid_tid_prefix(s: &Vec<u8>) -> (r: Option<(u64, u64, usize)>)
    ensures
        match r {
            Some(v) => req_pid_tid_prefix(s@) == Some((v.0, v.1, v.2 as int)) && v.2
                <= s@.len(),
            None => req_pid_tid_prefix(s@) is None,
        },
{
    proof {
        reveal_strlit("project_id");
        reveal_strlit("task_id");
    }
    let tok = key_tok(true, "project_id");
    let j = match expect_bytes(s, 0, &tok) {
        Some(j) => j,
        None => {
            return None;
        },
    };
    let (pid, j2) = match crate::jsontext::parse_u64(s, j) {
        Some(pair) => pair,
        None => {
            return None;
        },
    };
    let tok2 = key_tok(false, "task_id");
    let j3 = match expect_bytes(s, j2, &tok2) {
        Some(j) => j,
        None => {
            return None;
        },
    };
    let (tid, j4) = match crate::jsontext::parse_u64(s, j3) {
        Some(pair) => pair,
        None => {
            return None;
        },
    };
    Some((pid, tid, j4))
}

fn parse_req_pid_tid(s: &Vec<u8>) -> (r: Option<(u64, u64)>)
    ensures
        r == req_pid_tid(s@),
{
    match parse_req_pid_tid_prefix(s) {
        Some(triple) => {
            let (pid, tid, j) = triple;
            if at_close(s, j) {
                Some((pid, tid))
            } else {
                None
            }
        },
        None => None,
    }
}

fn parse_req_name_description(s: &Vec<u8>) -> (r: Option<(Vec<u8>, Vec<u8>)>)
    ensures
        match r {
            Some(v) => req_name_description(s@) == Some((v.0@, v.1@)),
            None => req_name_description(s@) is None,
        },
{
    proof {
        reveal_strlit("name");
        reveal_strlit("description");
    }
    let tok = key_tok(true, "name");
    let j = match expect_bytes(s, 0, &tok) {
        Some(j) => j,
        None => {
            return None;
        },
    };
    let (name, j2) = match crate::jsontext::parse_str(s, j) {
        Some(pair) => pair,
        None => {
            return None;
        },
    };
    let tok2 = key_tok(false, "description");
    let j3 = match expect_bytes(s, j2, &tok2) {
        Some(j) => j,
        None => {
            return None;
        },
    };
    let (description, j4) = match crate::jsontext::parse_str(s, j3) {
        Some(pair) => pair,
        None => {
            return None;
        },
    };
    if at_close(s, j4) {
        Some((name, description))
    } else {
        None
    }
}

fn parse_req_pid_str(s: &Vec<u8>, field: &str) -> (r: Option<(u64, Vec<u8>)>)
    requires
        vstd::string::is_ascii(field),
    ensures
        match r {
            Some(v) => req_pid_str(s@, field@) == Some((v.0, v.1@)),
            None => req_pid_str(s@, field@) is None,
        },
{
    proof {
        reveal_strlit("project_id");
    }
    let tok = key_tok(true, "project_id");
    let j = match expect_bytes(s, 0, &tok) {
        Some(j) => j,
        None => {
            return None;
        },
    };
    let (pid, j2) = match crate::jsontext::parse_u64(s, j) {
        Some(pair) => pair,
        None => {
            return None;
        },
    };
    let tok2 = key_tok(false, field);
    let j3 = match expect_bytes(s, j2, &tok2) {
        Some(j) => j,
        None => {
            return None;
        },
    };
    let (text, j4) = match crate::jsontext::parse_str(s, j3) {
        Some(pair) => pair,
        None => {
            return None;
        },
    };
    if at_close(s, j4) {
        Some((pid, text))
    } else {
        None
    }
}

fn parse_req_task_create(s: &Vec<u8>) -> (r: Option<(u64, Vec<u8>, Vec<u8>)>)
    ensures
        match r {
            Some(v) => req_task_create(s@) == Some((v.0, v.1@, v.2@)),
            None => req_task_create(s@) is None,
        },
{
    proof {
        reveal_strlit("project_id");
        reveal_strlit("title");
        reveal_strlit("description");
    }
    let tok = key_tok(true, "project_id");
    let j = match expect_bytes(s, 0, &tok) {
        Some(j) => j,
        None => {
            return None;
        },
    };
    let (pid, j2) = match crate::jsontext::parse_u64(s, j) {
        Some(pair) => pair,
        None => {
            return None;
        },
    };
    let tok2 = key_tok(false, "title");
    let j3 = match expect_bytes(s, j2, &tok2) {
        Some(j) => j,
        None => {
            return None;
        },
    };
    let (title, j4) = match crate::jsontext::parse_str(s, j3) {
        Some(pair) => pair,
        None => {
            return None;
        },
    };
    let tok3 = key_tok(false, "description");
    let j5 = match expect_bytes(s, j4, &tok3) {
        Some(j) => j,
        None => {
            return None;
        },
    };
    let (description, j6) = match crate::jsontext::parse_str(s, j5) {
        Some(pair) => pair,
        None => {
            return None;
        },
    };
    if at_close(s, j6) {
        Some((pid, title, description))
    } else {
        None
    }
}

fn parse_req_pid_tid_str(s: &Vec<u8>, field: &str) -> (r: Option<(u64, u64, Vec<u8>)>)
    requires
        vstd::string::is_ascii(field),
    ensures
        match r {
            Some(v) => req_pid_tid_str(s@, field@) == Some((v.0, v.1, v.2@)),
            None => req_pid_tid_str(s@, field@) is None,
        },
{
    let (pid, tid, j) = match parse_req_pid_tid_prefix(s) {
        Some(triple) => triple,
        None => {
            return None;
        },
    };
    let tok = key_tok(false, field);
    let j2 = match expect_bytes(s, j, &tok) {
        Some(j) => j,
        None => {
            return None;
        },
    };
    let (text, j3) = match crate::jsontext::parse_str(s, j2) {
        Some(pair) => pair,
        None => {
            return None;
        },
    };
    if at_close(s, j3) {
        Some((pid, tid, text))
    } else {
        None
    }
}

fn parse_req_task_state(s: &Vec<u8>) -> (r: Option<(u64, u64, TaskState)>)
    ensures
        r == req_task_state(s@),
{
    proof {
        reveal_strlit("new_state");
    }
    let (pid, tid, j) = match parse_req_pid_tid_prefix(s) {
        Some(triple) => triple,
        None => {
            return None;
        },
    };
    let tok = key_tok(false, "new_state");
    let j2 = match expect_bytes(s, j, &tok) {
        Some(j) => j,
        None => {
            return None;
        },
    };
    let (st, j3) = match crate::codec::parse_state_e(s, j2) {
        Some(pair) => pair,
        None => {
            return None;
        },
    };
    if at_close(s, j3) {
        Some((pid, tid, st))
    } else {
        None
    }
}

fn quoted_lit(name: &str) -> (v: Vec<u8>)
    requires
        vstd::string::is_ascii(name),
    ensures
        v@ == seq![34u8] + ascii_bytes(name@) + seq![34u8],
{
    let mut v: Vec<u8> = Vec::new();
    v.push(34);
    push_lit(&mut v, name);
    v.push(34);
    proof {
        assert(v@ =~= seq![34u8] + ascii_bytes(name@) + seq![34u8]);
    }
    v
}

fn parse_req_task_dependency(s: &Vec<u8>) -> (r: Option<(u64, u64, u64, DependencyAction)>)
    ensures
        r == req_task_dependency(s@),
{
    proof {
        reveal_strlit("dependency");
        reveal_strlit("action");
        reveal_strlit("Add");
        reveal_strlit("Remove");
    }
    let (pid, tid, j) = match parse_req_pid_tid_prefix(s) {
        Some(triple) => triple,
        None => {
            return None;
        },
    };
    let tok = key_tok(false, "dependency");
    let j2 = match expect_bytes(s, j, &tok) {
        Some(j) => j,
        None => {
            return None;
        },
    };
    let (dep, j3) = match crate::jsontext::parse_u64(s, j2) {
        Some(pair) => pair,
        None => {
            return None;
        },
    };
    let tok2 = key_tok(false, "action");
    let j4 = match expect_bytes(s, j3, &tok2) {
        Some(j) => j,
        None => {
            return None;
        },
    };
    let add_tok = quoted_lit("Add");
    match expect_bytes(s, j4, &add_tok) {
        Some(j5) => {
            if at_close(s, j5) {
                return Some((pid, tid, dep, DependencyAction::Add));
            } else {
                return None;
            }
        },
        None => {},
    }
    let rem_tok = quoted_lit("Remove");
    match expect_bytes(s, j4, &rem_tok) {
        Some(j5) => {
            if at_close(s, j5) {
                Some((pid, tid, dep, DependencyAction::Remove))
            } else {
                None
            }
        },
        None => None,
    }
}


// ---------------------------------------------------------------------------
// Endpoint specifications
// ---------------------------------------------------------------------------

pub open spec fn unchanged(db: DatabaseV, status: u16, body: Seq<u8>) -> Outcome {
    Outcome { db, status, body, mutated: false }
}

pub open spec fn spec_list_projects(db: DatabaseV) -> Outcome {
    unchanged(db, 200, list_body(db.projects))
}

pub open spec fn spec_project_details(db: DatabaseV, body: Seq<u8>) -> Outcome {
    match req_pid(body) {
        Some(pid) => {
            let f = db.find_project(pid);
            if f >= 0 {
                unchanged(db, 200, project_details_body(db.projects[f]))
            } else {
                unchanged(db, 500, err_body(no_project_msg(pid)))
            }
        },
        None => unchanged(db, 500, err_body(bad_request_msg())),
    }
}

pub open spec fn spec_task_details(db: DatabaseV, body: Seq<u8>) -> Outcome {
    match req_pid_tid(body) {
        Some(v) => {
            let f = db.find_project(v.0);
            if f >= 0 {
                let tj = db.projects[f].find_task(v.1);
                if tj >= 0 {
                    unchanged(db, 200, task_json(db.projects[f].tasks[tj]))
                } else {
                    unchanged(db, 500, err_body(no_task_msg(v.1)))
                }
            } else {
                unchanged(db, 500, err_body(no_project_msg(v.0)))
            }
        },
        None => unchanged(db, 500, err_body(bad_request_msg())),
    }
}

pub open spec fn spec_project_create(db: DatabaseV, body: Seq<u8>) -> Outcome {
    match req_name_description(body) {
        Some(nd) => if db.next_project_id < MAX_ID {
            Outcome {
                db: DatabaseV {
                    projects: db.projects.push(
                        crate::model::new_project_v(db.next_project_id, nd.0, nd.1),
                    ),
                    next_project_id: (db.next_project_id + 1) as u64,
                },
                status: 200,
                body: id_body("project_id"@, db.next_project_id),
                mutated: true,
            }
        } else {
            unchanged(db, 500, err_body(exhausted_msg()))
        },
        None => unchanged(db, 500, err_body(bad_request_msg())),
    }
}

pub open spec fn spec_project_delete(db: DatabaseV, body: Seq<u8>) -> Outcome {
    match req_pid(body) {
        Some(pid) => {
            let f = db.find_project(pid);
            if f >= 0 {
                Outcome {
                    db: DatabaseV { projects: db.projects.remove(f), ..db },
                    status: 200,
                    body: ok_body(),
                    mutated: true,
                }
            } else {
                unchanged(db, 500, err_body(no_project_msg(pid)))
            }
        },
        None => unchanged(db, 500, err_body(bad_request_msg())),
    }
}

pub open spec fn spec_project_name(db: DatabaseV, body: Seq<u8>) -> Outcome {
    match req_pid_str(body, "name"@) {
        Some(v) => {
            let f = db.find_project(v.0);
            if f >= 0 {
                Outcome {
                    db: DatabaseV {
                        projects: db.projects.update(f, (ProjectV {
                            name: v.1,
                            ..db.projects[f]
                        })),
                        ..db
                    },
                    status: 200,
                    body: ok_body(),
                    mutated: true,
                }
            } else {
                unchanged(db, 500, err_body(no_project_msg(v.0)))
            }
        },
        None => unchanged(db, 500, err_body(bad_request_msg())),
    }
}

pub open spec fn spec_project_description(db: DatabaseV, body: Seq<u8>) -> Outcome {
    match req_pid_str(body, "description"@) {
        Some(v) => {
            let f = db.find_project(v.0);
            if f >= 0 {
                Outcome {
                    db: DatabaseV {
                        projects: db.projects.update(f, (ProjectV {
                            description: v.1,
                            ..db.projects[f]
                        })),
                        ..db
                    },
                    status: 200,
                    body: ok_body(),
                    mutated: true,
                }
            } else {
                unchanged(db, 500, err_body(no_project_msg(v.0)))
            }
        },
        None => unchanged(db, 500, err_body(bad_request_msg())),
    }
}

pub open spec fn spec_task_create(db: DatabaseV, body: Seq<u8>) -> Outcome {
    match req_task_create(body) {
        Some(v) => {
            let f = db.find_project(v.0);
            if f >= 0 {
                let pv = db.projects[f];
                if pv.next_task_id < MAX_ID {
                    Outcome {
                        db: DatabaseV {
                            projects: db.projects.update(f, (ProjectV {
                                tasks: pv.tasks.push(
                                    crate::model::new_task_v(pv.next_task_id, v.1, v.2),
                                ),
                                next_task_id: (pv.next_task_id + 1) as u64,
                                ..pv
                            })),
                            ..db
                        },
                        status: 200,
                        body: id_body("task_id"@, pv.next_task_id),
                        mutated: true,
                    }
                } else {
                    unchanged(db, 500, err_body(exhausted_msg()))
                }
            } else {
                unchanged(db, 500, err_body(no_project_msg(v.0)))
            }
        },
        None => unchanged(db, 500, err_body(bad_request_msg())),
    }
}

pub open spec fn spec_task_delete(db: DatabaseV, body: Seq<u8>) -> Outcome {
    match req_pid_tid(body) {
        Some(v) => {
            let f = db.find_project(v.0);
            if f >= 0 {
                let pv = db.projects[f];
                let tj = pv.find_task(v.1);
                if tj >= 0 {
                    Outcome {
                        db: DatabaseV {
                            projects: db.projects.update(f, (ProjectV {
                                tasks: pv.tasks.remove(tj),
                                ..pv
                            })),
                            ..db
                        },
                        status: 200,
                        body: ok_body(),
                        mutated: true,
                    }
                } else {
                    unchanged(db, 500, err_body(no_task_msg(v.1)))
                }
            } else {
                unchanged(db, 500, err_body(no_project_msg(v.0)))
            }
        },
        None => unchanged(db, 500, err_body(bad_request_msg())),
    }
}

/// The outcome shared by the four task field edits.
pub open spec fn task_edit_outcome(db: DatabaseV, pid: u64, tid: u64, t2: TaskV) -> Outcome {
    let f = db.find_project(pid);
    if f >= 0 {
        let tj = db.projects[f].find_task(tid);
        if tj >= 0 {
            Outcome {
                db: with_task(db, f, tj, t2),
                status: 200,
                body: ok_body(),
                mutated: true,
            }
        } else {
            unchanged(db, 500, err_body(no_task_msg(tid)))
        }
    } else {
        unchanged(db, 500, err_body(no_project_msg(pid)))
    }
}

pub open spec fn the_task(db: DatabaseV, pid: u64, tid: u64) -> TaskV {
    db.projects[db.find_project(pid)].tasks[db.projects[db.find_project(pid)].find_task(tid)]
}

pub open spec fn spec_task_title(db: DatabaseV, body: Seq<u8>) -> Outcome {
    match req_pid_tid_str(body, "title"@) {
        Some(v) => task_edit_outcome(
            db,
            v.0,
            v.1,
            (TaskV { title: v.2, ..the_task(db, v.0, v.1) }),
        ),
        None => unchanged(db, 500, err_body(bad_request_msg())),
    }
}

pub open spec fn spec_task_description(db: DatabaseV, body: Seq<u8>) -> Outcome {
    match req_pid_tid_str(body, "description"@) {
        Some(v) => task_edit_outcome(
            db,
            v.0,
            v.1,
            (TaskV { description: v.2, ..the_task(db, v.0, v.1) }),
        ),
        None => unchanged(db, 500, err_body(bad_request_msg())),
    }
}

pub open spec fn spec_task_state(db: DatabaseV, body: Seq<u8>, now: u64) -> Outcome {
    match req_task_state(body) {
        Some(v) => {
            let tv = the_task(db, v.0, v.1);
            task_edit_outcome(db, v.0, v.1, (TaskV {
                log: tv.log.push(
                    LogEntryV {
                        timestamp: clamped_ts(tv.log, now),
                        entry_type: LogEntryTypeV::StateChangedTo(v.2),
                    },
                ),
                state: v.2,
                ..tv
            }))
        },
        None => unchanged(db, 500, err_body(bad_request_msg())),
    }
}

pub open spec fn spec_task_comment(db: DatabaseV, body: Seq<u8>, now: u64) -> Outcome {
    match req_pid_tid_str(body, "comment"@) {
        Some(v) => {
            let tv = the_task(db, v.0, v.1);
            task_edit_outcome(db, v.0, v.1, (TaskV {
                log: tv.log.push(
                    LogEntryV {
                        timestamp: clamped_ts(tv.log, now),
                        entry_type: LogEntryTypeV::Comment(v.2),
                    },
                ),
                ..tv
            }))
        },
        None => unchanged(db, 500, err_body(bad_request_msg())),
    }
}

pub open spec fn spec_task_dependency(db: DatabaseV, body: Seq<u8>) -> Outcome {
    match req_task_dependency(body) {
        Some(v) => {
            let tv = the_task(db, v.0, v.1);
            task_edit_outcome(db, v.0, v.1, (TaskV {
                dependencies: (match v.3 {
                    DependencyAction::Add => crate::model::seq_insert_sorted(
                        tv.dependencies,
                        v.2,
                    ),
                    DependencyAction::Remove => crate::model::seq_remove_val(
                        tv.dependencies,
                        v.2,
                    ),
                }),
                ..tv
            }))
        },
        None => unchanged(db, 500, err_body(bad_request_msg())),
    }
}

/// The whole route table: what any request does to the database and what it
/// answers.
pub open spec fn spec_handle(db: DatabaseV, m: Method, path: Seq<u8>, body: Seq<u8>, now: u64)
    -> Outcome {
    if m == Method::Get && path == ascii_bytes("/"@) {
        spec_list_projects(db)
    } else if m == Method::Get && path == ascii_bytes("/project"@) {
        spec_project_details(db, body)
    } else if m == Method::Get && path == ascii_bytes("/task"@) {
        spec_task_details(db, body)
    } else if m == Method::Post && path == ascii_bytes("/project/create"@) {
        spec_project_create(db, body)
    } else if m == Method::Post && path == ascii_bytes("/project/delete"@) {
        spec_project_delete(db, body)
    } else if m == Method::Post && path == ascii_bytes("/project/name"@) {
        spec_project_name(db, body)
    } else if m == Method::Post && path == ascii_bytes("/project/description"@) {
        spec_project_description(db, body)
    } else if m == Method::Post && path == ascii_bytes("/task/create"@) {
        spec_task_create(db, body)
    } else if m == Method::Post && path == ascii_bytes("/task/delete"@) {
        spec_task_delete(db, body)
    } else if m == Method::Post && path == ascii_bytes("/task/title"@) {
        spec_task_title(db, body)
    } else if m == Method::Post && path == ascii_bytes("/task/description"@) {
        spec_task_description(db, body)
    } else if m == Method::Post && path == ascii_bytes("/task/state"@) {
        spec_task_state(db, body, now)
    } else if m == Method::Post && path == ascii_bytes("/task/comment"@) {
        spec_task_comment(db, body, now)
    } else if m == Method::Post && path == ascii_bytes("/task/dependency"@) {
        spec_task_dependency(db, body)
    } else {
        unchanged(db, 404, Seq::empty())
    }
}

/// The outcome a handler call actually produced.
pub open spec fn outcome_of(db: DatabaseV, r: Reply) -> Outcome {
    Outcome { db, status: r.status, body: r.body@, mutated: r.mutated }
}


// ---------------------------------------------------------------------------
// Handlers
// ---------------------------------------------------------------------------

/// Lists every project's id and name, in ascending id order.
pub fn list_projects(db: &Database) -> (r: Reply)
    requires
        db@.wf(),
    ensures
        outcome_of(db@, r) == spec_list_projects(db@),
{
    proof {
        reveal_strlit("projects");
        reveal_strlit("id");
        reveal_strlit("name");
    }
    let mut out: Vec<u8> = Vec::new();
    emit_obj_key_d(&mut out, "projects");
    out.push(91);
    let ghost mid0 = out@;
    let n = db.projects.len();
    let mut k: usize = 0;
    while k < n
        invariant
            n == db.projects@.len(),
            k <= n,
            out@ == mid0 + peek_items(crate::model::projects_view(db.projects@).take(k as int)),
        decreases n - k,
    {
        if k > 0 {
            out.push(44);
            proof {
                assert(out@ =~= mid0 + peek_items(
                    crate::model::projects_view(db.projects@).take(k as int),
                ) + seq![44u8]);
            }
        }
        let p = &db.projects[k];
        proof {
            reveal_strlit("id");
            reveal_strlit("name");
        }
        emit_obj_key_d(&mut out, "id");
        emit_u64(&mut out, p.id);
        emit_comma_key_d(&mut out, "name");
        emit_str(&mut out, &p.name);
        out.push(125);
        proof {
            let s = crate::model::projects_view(db.projects@);
            lemma_peek_items_snoc(s.take(k as int), s[k as int]);
            assert(s.take(k as int + 1) =~= s.take(k as int).push(s[k as int]));
            assert(out@ =~= mid0 + peek_items(s.take(k as int + 1)));
        }
        k = k + 1;
    }
    proof {
        assert(crate::model::projects_view(db.projects@).take(n as int)
            =~= crate::model::projects_view(db.projects@));
    }
    out.push(93);
    out.push(125);
    let r = Reply { status: 200, body: out, mutated: false };
    proof {
        assert(r.body@ =~= list_body(db@.projects));
        assert(outcome_of(db@, r) =~~= spec_list_projects(db@));
    }
    r
}

fn build_project_details(p: &crate::model::Project) -> (r: Vec<u8>)
    ensures
        r@ == project_details_body(p@),
{
    proof {
        reveal_strlit("description");
        reveal_strlit("id");
        reveal_strlit("name");
        reveal_strlit("tasks");
        reveal_strlit("state");
        reveal_strlit("title");
    }
    let mut out: Vec<u8> = Vec::new();
    emit_obj_key_d(&mut out, "description");
    emit_str(&mut out, &p.description);
    emit_comma_key_d(&mut out, "id");
    emit_u64(&mut out, p.id);
    emit_comma_key_d(&mut out, "name");
    emit_str(&mut out, &p.name);
    emit_comma_key_d(&mut out, "tasks");
    out.push(91);
    let ghost mid0 = out@;
    let n = p.tasks.len();
    let mut k: usize = 0;
    while k < n
        invariant
            n == p.tasks@.len(),
            k <= n,
            out@ == mid0 + task_peek_items(
                crate::model::tasks_view(p.tasks@).take(k as int),
            ),
        decreases n - k,
    {
        if k > 0 {
            out.push(44);
            proof {
                assert(out@ =~= mid0 + task_peek_items(
                    crate::model::tasks_view(p.tasks@).take(k as int),
                ) + seq![44u8]);
            }
        }
        let t = &p.tasks[k];
        proof {
            reveal_strlit("id");
            reveal_strlit("state");
            reveal_strlit("title");
        }
        emit_obj_key_d(&mut out, "id");
        emit_u64(&mut out, t.id);
        emit_comma_key_d(&mut out, "state");
        emit_state(&mut out, &t.state);
        emit_comma_key_d(&mut out, "title");
        emit_str(&mut out, &t.title);
        out.push(125);
        proof {
            let s = crate::model::tasks_view(p.tasks@);
            lemma_task_peek_items_snoc(s.take(k as int), s[k as int]);
            assert(s.take(k as int + 1) =~= s.take(k as int).push(s[k as int]));
            assert(out@ =~= mid0 + task_peek_items(s.take(k as int + 1)));
        }
        k = k + 1;
    }
    proof {
        assert(crate::model::tasks_view(p.tasks@).take(n as int) =~= crate::model::tasks_view(
            p.tasks@,
        ));
    }
    out.push(93);
    out.push(125);
    proof {
        assert(out@ =~= project_details_body(p@));
    }
    out
}

/// Answers the full record of one project.
pub fn project_details(db: &Database, body: &Vec<u8>) -> (r: Reply)
    requires
        db@.wf(),
    ensures
        outcome_of(db@, r) == spec_project_details(db@, body@),
{
    match parse_req_pid(body) {
        Some(pid) => match db.get_project(pid) {
            Some(p) => Reply { status: 200, body: build_project_details(p), mutated: false },
            None => Reply {
                status: 500,
                body: build_err(&msg_no_project(pid)),
                mutated: false,
            },
        },
        None => Reply { status: 500, body: build_err(&msg_bad_request()), mutated: false },
    }
}

/// Answers the full record of one task, including its log.
pub fn task_details(db: &Database, body: &Vec<u8>) -> (r: Reply)
    requires
        db@.wf(),
    ensures
        outcome_of(db@, r) == spec_task_details(db@, body@),
{
    match parse_req_pid_tid(body) {
        Some(v) => {
            let (pid, tid) = v;
            match db.get_task(pid, tid) {
                Ok(t) => {
                    let mut out: Vec<u8> = Vec::new();
                    emit_task(&mut out, t);
                    proof {
                        assert(out@ =~= task_json(
                            db@.projects[db@.find_project(pid)].tasks[db@.projects[
                                db@.find_project(pid)].find_task(tid)],
                        ));
                    }
                    Reply { status: 200, body: out, mutated: false }
                },
                Err(DbError::NoProject) => Reply {
                    status: 500,
                    body: build_err(&msg_no_project(pid)),
                    mutated: false,
                },
                Err(_) => Reply {
                    status: 500,
                    body: build_err(&msg_no_task(tid)),
                    mutated: false,
                },
            }
        },
        None => Reply { status: 500, body: build_err(&msg_bad_request()), mutated: false },
    }
}

/// Creates a project and answers its id.
pub fn post_project_create(db: &mut Database, body: &Vec<u8>) -> (r: Reply)
    requires
        old(db)@.wf(),
    ensures
        final(db)@.wf(),
        outcome_of(final(db)@, r) == spec_project_create(old(db)@, body@),
{
    proof {
        reveal_strlit("project_id");
    }
    match parse_req_name_description(body) {
        Some(pair) => {
            let (name, description) = pair;
            match db.create_project(name, description) {
                Some(id) => Reply {
                    status: 200,
                    body: build_id("project_id", id),
                    mutated: true,
                },
                None => Reply {
                    status: 500,
                    body: build_err(&msg_exhausted()),
                    mutated: false,
                },
            }
        },
        None => Reply { status: 500, body: build_err(&msg_bad_request()), mutated: false },
    }
}

/// Deletes a project and all its tasks.
pub fn post_project_delete(db: &mut Database, body: &Vec<u8>) -> (r: Reply)
    requires
        old(db)@.wf(),
    ensures
        final(db)@.wf(),
        outcome_of(final(db)@, r) == spec_project_delete(old(db)@, body@),
{
    match parse_req_pid(body) {
        Some(pid) => {
            if db.remove_project(pid) {
                Reply { status: 200, body: build_ok(), mutated: true }
            } else {
                Reply { status: 500, body: build_err(&msg_no_project(pid)), mutated: false }
            }
        },
        None => Reply { status: 500, body: build_err(&msg_bad_request()), mutated: false },
    }
}

/// Overwrites a project's name.
pub fn post_project_name(db: &mut Database, body: &Vec<u8>) -> (r: Reply)
    requires
        old(db)@.wf(),
    ensures
        final(db)@.wf(),
        outcome_of(final(db)@, r) == spec_project_name(old(db)@, body@),
{
    proof {
        reveal_strlit("name");
    }
    match parse_req_pid_str(body, "name") {
        Some(v) => {
            let (pid, name) = v;
            if db.set_project_name(pid, name) {
                Reply { status: 200, body: build_ok(), mutated: true }
            } else {
                Reply { status: 500, body: build_err(&msg_no_project(pid)), mutated: false }
            }
        },
        None => Reply { status: 500, body: build_err(&msg_bad_request()), mutated: false },
    }
}

/// Overwrites a project's description.
pub fn post_project_description(db: &mut Database, body: &Vec<u8>) -> (r: Reply)
    requires
        old(db)@.wf(),
    ensures
        final(db)@.wf(),
        outcome_of(final(db)@, r) == spec_project_description(old(db)@, body@),
{
    proof {
        reveal_strlit("description");
    }
    match parse_req_pid_str(body, "description") {
        Some(v) => {
            let (pid, description) = v;
            if db.set_project_description(pid, description) {
                Reply { status: 200, body: build_ok(), mutated: true }
            } else {
                Reply { status: 500, body: build_err(&msg_no_project(pid)), mutated: false }
            }
        },
        None => Reply { status: 500, body: build_err(&msg_bad_request()), mutated: false },
    }
}

fn db_error_reply(pid: u64, tid: u64, e: DbError) -> (r: Reply)
    ensures
        r.status == 500 && !r.mutated,
        e == DbError::NoProject ==> r.body@ == err_body(no_project_msg(pid)),
        e == DbError::NoTask ==> r.body@ == err_body(no_task_msg(tid)),
        e == DbError::IdExhausted ==> r.body@ == err_body(exhausted_msg()),
{
    match e {
        DbError::NoProject => Reply {
            status: 500,
            body: build_err(&msg_no_project(pid)),
            mutated: false,
        },
        DbError::NoTask => Reply {
            status: 500,
            body: build_err(&msg_no_task(tid)),
            mutated: false,
        },
        DbError::IdExhausted => Reply {
            status: 500,
            body: build_err(&msg_exhausted()),
            mutated: false,
        },
    }
}

/// Creates a task, in state `Todo` with an empty log, and answers its id.
pub fn post_task_create(db: &mut Database, body: &Vec<u8>) -> (r: Reply)
    requires
        old(db)@.wf(),
    ensures
        final(db)@.wf(),
        outcome_of(final(db)@, r) == spec_task_create(old(db)@, body@),
{
    proof {
        reveal_strlit("task_id");
    }
    match parse_req_task_create(body) {
        Some(v) => {
            let (pid, title, description) = v;
            match db.create_task(pid, title, description) {
                Ok(id) => Reply { status: 200, body: build_id("task_id", id), mutated: true },
                Err(e) => db_error_reply(pid, 0, e),
            }
        },
        None => Reply { status: 500, body: build_err(&msg_bad_request()), mutated: false },
    }
}

/// Deletes a task.
pub fn post_task_delete(db: &mut Database, body: &Vec<u8>) -> (r: Reply)
    requires
        old(db)@.wf(),
    ensures
        final(db)@.wf(),
        outcome_of(final(db)@, r) == spec_task_delete(old(db)@, body@),
{
    match parse_req_pid_tid(body) {
        Some(v) => {
            let (pid, tid) = v;
            match db.remove_task(pid, tid) {
                Ok(()) => Reply { status: 200, body: build_ok(), mutated: true },
                Err(e) => db_error_reply(pid, tid, e),
            }
        },
        None => Reply { status: 500, body: build_err(&msg_bad_request()), mutated: false },
    }
}

/// Overwrites a task's title.
pub fn post_task_title(db: &mut Database, body: &Vec<u8>) -> (r: Reply)
    requires
        old(db)@.wf(),
    ensures
        final(db)@.wf(),
        outcome_of(final(db)@, r) == spec_task_title(old(db)@, body@),
{
    proof {
        reveal_strlit("title");
    }
    match parse_req_pid_tid_str(body, "title") {
        Some(v) => {
            let (pid, tid, title) = v;
            match db.set_task_title(pid, tid, title) {
                Ok(()) => Reply { status: 200, body: build_ok(), mutated: true },
                Err(e) => db_error_reply(pid, tid, e),
            }
        },
        None => Reply { status: 500, body: build_err(&msg_bad_request()), mutated: false },
    }
}

/// Overwrites a task's description.
pub fn post_task_description(db: &mut Database, body: &Vec<u8>) -> (r: Reply)
    requires
        old(db)@.wf(),
    ensures
        final(db)@.wf(),
        outcome_of(final(db)@, r) == spec_task_description(old(db)@, body@),
{
    proof {
        reveal_strlit("description");
    }
    match parse_req_pid_tid_str(body, "description") {
        Some(v) => {
            let (pid, tid, description) = v;
            match db.set_task_description(pid, tid, description) {
                Ok(()) => Reply { status: 200, body: build_ok(), mutated: true },
                Err(e) => db_error_reply(pid, tid, e),
            }
        },
        None => Reply { status: 500, body: build_err(&msg_bad_request()), mutated: false },
    }
}

/// Records a state transition: appends the log entry, then assigns the state.
pub fn post_task_state(db: &mut Database, body: &Vec<u8>, now: u64) -> (r: Reply)
    requires
        old(db)@.wf(),
    ensures
        final(db)@.wf(),
        outcome_of(final(db)@, r) == spec_task_state(old(db)@, body@, now),
{
    match parse_req_task_state(body) {
        Some(v) => {
            let (pid, tid, st) = v;
            match db.set_task_state(pid, tid, st, now) {
                Ok(()) => Reply { status: 200, body: build_ok(), mutated: true },
                Err(e) => db_error_reply(pid, tid, e),
            }
        },
        None => Reply { status: 500, body: build_err(&msg_bad_request()), mutated: false },
    }
}

/// Appends a comment to a task's log.
pub fn post_task_comment(db: &mut Database, body: &Vec<u8>, now: u64) -> (r: Reply)
    requires
        old(db)@.wf(),
    ensures
        final(db)@.wf(),
        outcome_of(final(db)@, r) == spec_task_comment(old(db)@, body@, now),
{
    proof {
        reveal_strlit("comment");
    }
    match parse_req_pid_tid_str(body, "comment") {
        Some(v) => {
            let (pid, tid, comment) = v;
            match db.add_task_comment(pid, tid, comment, now) {
                Ok(()) => Reply { status: 200, body: build_ok(), mutated: true },
                Err(e) => db_error_reply(pid, tid, e),
            }
        },
        None => Reply { status: 500, body: build_err(&msg_bad_request()), mutated: false },
    }
}

/// Edits a task's dependency set.
pub fn post_task_dependency(db: &mut Database, body: &Vec<u8>) -> (r: Reply)
    requires
        old(db)@.wf(),
    ensures
        final(db)@.wf(),
        outcome_of(final(db)@, r) == spec_task_dependency(old(db)@, body@),
{
    match parse_req_task_dependency(body) {
        Some(v) => {
            let (pid, tid, dep, action) = v;
            match db.task_dependency(pid, tid, dep, action) {
                Ok(()) => Reply { status: 200, body: build_ok(), mutated: true },
                Err(e) => db_error_reply(pid, tid, e),
            }
        },
        None => Reply { status: 500, body: build_err(&msg_bad_request()), mutated: false },
    }
}

// ---------------------------------------------------------------------------
// Routing
// ---------------------------------------------------------------------------

fn path_is(path: &Vec<u8>, lit: &str) -> (r: bool)
    requires
        vstd::string::is_ascii(lit),
    ensures
        r == (path@ == ascii_bytes(lit@)),
{
    let mut v: Vec<u8> = Vec::new();
    push_lit(&mut v, lit);
    if path.len() != v.len() {
        proof {
            assert(path@ != ascii_bytes(lit@));
        }
        return false;
    }
    match expect_bytes(path, 0, &v) {
        Some(_) => {
            proof {
                assert(path@.subrange(0, path@.len() as int) =~= path@);
            }
            true
        },
        None => {
            proof {
                if path@ == ascii_bytes(lit@) {
                    assert(path@.subrange(0, v@.len() as int) =~= v@);
                }
            }
            false
        },
    }
}

/// Maps one request to its handler, with a supplied clock reading; any
/// unmatched route answers 404 with an empty body.
pub fn handle_request_at(
    db: &mut Database,
    method: Method,
    path: &Vec<u8>,
    body: &Vec<u8>,
    now: u64,
) -> (r: Reply)
    requires
        old(db)@.wf(),
    ensures
        final(db)@.wf(),
        outcome_of(final(db)@, r) == spec_handle(old(db)@, method, path@, body@, now),
{
    proof {
        reveal_strlit("/");
        reveal_strlit("/project");
        reveal_strlit("/task");
        reveal_strlit("/project/create");
        reveal_strlit("/project/delete");
        reveal_strlit("/project/name");
        reveal_strlit("/project/description");
        reveal_strlit("/task/create");
        reveal_strlit("/task/delete");
        reveal_strlit("/task/title");
        reveal_strlit("/task/description");
        reveal_strlit("/task/state");
        reveal_strlit("/task/comment");
        reveal_strlit("/task/dependency");
    }
    match method {
        Method::Get => {
            if path_is(path, "/") {
                list_projects(db)
            } else if path_is(path, "/project") {
                project_details(db, body)
            } else if path_is(path, "/task") {
                task_details(db, body)
            } else {
                Reply { status: 404, body: Vec::new(), mutated: false }
            }
        },
        Method::Post => {
            if path_is(path, "/project/create") {
                post_project_create(db, body)
            } else if path_is(path, "/project/delete") {
                post_project_delete(db, body)
            } else if path_is(path, "/project/name") {
                post_project_name(db, body)
            } else if path_is(path, "/project/description") {
                post_project_description(db, body)
            } else if path_is(path, "/task/create") {
                post_task_create(db, body)
            } else if path_is(path, "/task/delete") {
                post_task_delete(db, body)
            } else if path_is(path, "/task/title") {
                post_task_title(db, body)
            } else if path_is(path, "/task/description") {
                post_task_description(db, body)
            } else if path_is(path, "/task/state") {
                post_task_state(db, body, now)
            } else if path_is(path, "/task/comment") {
                post_task_comment(db, body, now)
            } else if path_is(path, "/task/dependency") {
                post_task_dependency(db, body)
            } else {
                Reply { status: 404, body: Vec::new(), mutated: false }
            }
        },
        Method::Other => Reply { status: 404, body: Vec::new(), mutated: false },
    }
}

/// Relies on chrono's `Utc::now`: the current wall-clock reading as Unix
/// seconds, clamped below at zero. Nothing is assumed about its value.
#[verifier::external_body]
fn now_unix() -> u64 {
    let ts = chrono::Utc::now().timestamp();
    if ts < 0 {
        0
    } else {
        ts as u64
    }
}

/// Maps one request to its handler, timestamping new log entries with the
/// current clock reading; what `handle_request_at` answers for that reading,
/// this answers too.
pub fn handle_request(db: &mut Database, method: Method, path: &Vec<u8>, body: &Vec<u8>) -> (r:
    Reply)
    requires
        old(db)@.wf(),
    ensures
        final(db)@.wf(),
        exists|now: u64|
            outcome_of(final(db)@, r) == spec_handle(old(db)@, method, path@, body@, now),
{
    let now = now_unix();
    let r = handle_request_at(db, method, path, body, now);
    proof {
        assert(outcome_of(final(db)@, r) == spec_handle(
            old(db)@,
            method,
            path@,
            body@,
            now,
        ));
    }
    r
}

} // verus!

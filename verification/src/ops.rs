//! Domain operations: creation, lookup, mutation and deletion primitives that
//! preserve the well-formedness of the document.

use vstd::prelude::*;

use crate::model::{
    clamped_ts, find_by_id_p, find_by_id_t, log_view, projects_view, seq_insert_sorted,
    seq_remove_val, state_changes, strictly_sorted, task_ids_sorted, tasks_view, Database,
    DatabaseV, LogEntry, LogEntryType, LogEntryTypeV, LogEntryV, Project, ProjectV, Task,
    TaskState, TaskV, MAX_ID,
};
use crate::model::{project_ids_sorted, new_task_v, new_project_v, empty_db, DbError, DependencyAction};

verus! {

// ---------------------------------------------------------------------------
// Lemmas about the log
// ---------------------------------------------------------------------------

/// Appending a log entry appends its state change, if it carries one.
pub proof fn lemma_state_changes_push(log: Seq<LogEntryV>, e: LogEntryV)
    ensures
        state_changes(log.push(e)) == (match e.entry_type {
            LogEntryTypeV::StateChangedTo(s) => state_changes(log).push(s),
            LogEntryTypeV::Comment(_) => state_changes(log),
        }),
{
    assert(log.push(e).drop_last() =~= log);
    assert(log.push(e).last() == e);
}

// ---------------------------------------------------------------------------
// Lemmas about sorted id sequences
// ---------------------------------------------------------------------------

/// Inserting at the position found by a scan matches `seq_insert_sorted`.
pub proof fn lemma_insert_sorted_at(s: Seq<u64>, d: u64, pos: int)
    requires
        strictly_sorted(s),
        0 <= pos <= s.len(),
        forall|k: int| 0 <= k < pos ==> s[k] < d,
        pos < s.len() ==> d < s[pos],
    ensures
        seq_insert_sorted(s, d) == s.insert(pos, d),
    decreases s.len(),
{
    if pos == 0 {
        if s.len() == 0 {
            assert(seq_insert_sorted(s, d) =~= s.insert(0, d));
        } else {
            assert(d < s[0]);
            assert(seq_insert_sorted(s, d) =~= s.insert(0, d));
        }
    } else {
        assert(s[0] < d);
        lemma_insert_sorted_at(s.drop_first(), d, pos - 1);
        assert(seq![s[0]] + s.drop_first().insert(pos - 1, d) =~= s.insert(pos, d));
    }
}

/// Inserting an id that is already present changes nothing.
pub proof fn lemma_insert_sorted_noop(s: Seq<u64>, d: u64)
    requires
        strictly_sorted(s),
        s.contains(d),
    ensures
        seq_insert_sorted(s, d) == s,
    decreases s.len(),
{
    let i = choose|i: int| 0 <= i < s.len() && s[i] == d;
    if s[0] == d {
    } else if d < s[0] {
        assert(s[0] <= s[i]);
    } else {
        assert(s.drop_first()[i - 1] == d);
        assert(s.drop_first().contains(d));
        lemma_insert_sorted_noop(s.drop_first(), d);
        assert(seq![s[0]] + s.drop_first() =~= s);
    }
}

/// `seq_insert_sorted` keeps the sequence strictly ascending and acts as set
/// insertion on its members.
pub proof fn lemma_insert_sorted_members(s: Seq<u64>, d: u64)
    requires
        strictly_sorted(s),
    ensures
        strictly_sorted(seq_insert_sorted(s, d)),
        forall|x: u64|
            #![trigger seq_insert_sorted(s, d).contains(x)]
            seq_insert_sorted(s, d).contains(x) <==> (s.contains(x) || x == d),
    decreases s.len(),
{
    let r = seq_insert_sorted(s, d);
    if s.len() == 0 {
        assert forall|x: u64| r.contains(x) <==> (s.contains(x) || x == d) by {
            if r.contains(x) {
                let i = choose|i: int| 0 <= i < r.len() && r[i] == x;
                assert(r[i] == d);
            }
            if x == d {
                assert(r[0] == d);
            }
        }
    } else if d < s[0] {
        assert(r =~= seq![d] + s);
        assert forall|i: int, j: int| 0 <= i < j < r.len() implies r[i] < r[j] by {
            if i == 0 {
                assert(r[j] == s[j - 1]);
                assert(s[0] <= s[j - 1]);
            }
        }
        assert forall|x: u64| r.contains(x) <==> (s.contains(x) || x == d) by {
            if r.contains(x) {
                let i = choose|i: int| 0 <= i < r.len() && r[i] == x;
                if i > 0 {
                    assert(s[i - 1] == x);
                }
            }
            if s.contains(x) {
                let i = choose|i: int| 0 <= i < s.len() && s[i] == x;
                assert(r[i + 1] == x);
            }
            if x == d {
                assert(r[0] == d);
            }
        }
    } else if d == s[0] {
        assert forall|x: u64| r.contains(x) <==> (s.contains(x) || x == d) by {
            if x == d {
                assert(s[0] == d);
            }
        }
    } else {
        let t = s.drop_first();
        lemma_insert_sorted_members(t, d);
        let rt = seq_insert_sorted(t, d);
        assert(r =~= seq![s[0]] + rt);
        assert forall|i: int, j: int| 0 <= i < j < r.len() implies r[i] < r[j] by {
            if i == 0 {
                assert(r[j] == rt[j - 1]);
                assert(rt.contains(rt[j - 1]));
                if t.contains(rt[j - 1]) {
                    let k = choose|k: int| 0 <= k < t.len() && t[k] == rt[j - 1];
                    assert(s[k + 1] == rt[j - 1]);
                } else {
                    assert(rt[j - 1] == d);
                }
            } else {
                assert(r[i] == rt[i - 1] && r[j] == rt[j - 1]);
            }
        }
        assert forall|x: u64| r.contains(x) <==> (s.contains(x) || x == d) by {
            if r.contains(x) {
                let i = choose|i: int| 0 <= i < r.len() && r[i] == x;
                if i == 0 {
                    assert(s[0] == x);
                } else {
                    assert(rt[i - 1] == x);
                    assert(rt.contains(x));
                    if t.contains(x) {
                        let k = choose|k: int| 0 <= k < t.len() && t[k] == x;
                        assert(s[k + 1] == x);
                    }
                }
            }
            if s.contains(x) {
                let i = choose|i: int| 0 <= i < s.len() && s[i] == x;
                if i == 0 {
                    assert(r[0] == x);
                } else {
                    assert(t[i - 1] == x);
                    assert(t.contains(x));
                    assert(rt.contains(x));
                    let k = choose|k: int| 0 <= k < rt.len() && rt[k] == x;
                    assert(r[k + 1] == x);
                }
            }
            if x == d {
                assert(rt.contains(d));
                let k = choose|k: int| 0 <= k < rt.len() && rt[k] == d;
                assert(r[k + 1] == d);
            }
        }
    }
}

/// Adding a dependency twice is the same as adding it once.
pub proof fn lemma_insert_sorted_idempotent(s: Seq<u64>, d: u64)
    requires
        strictly_sorted(s),
    ensures
        seq_insert_sorted(seq_insert_sorted(s, d), d) == seq_insert_sorted(s, d),
{
    lemma_insert_sorted_members(s, d);
    assert(seq_insert_sorted(s, d).contains(d));
    lemma_insert_sorted_noop(seq_insert_sorted(s, d), d);
}

/// Removing at the first position carrying `d` matches `seq_remove_val`.
pub proof fn lemma_remove_val_at(s: Seq<u64>, d: u64, pos: int)
    requires
        0 <= pos < s.len(),
        forall|k: int| 0 <= k < pos ==> s[k] != d,
        s[pos] == d,
    ensures
        seq_remove_val(s, d) == s.remove(pos),
    decreases s.len(),
{
    if pos == 0 {
        assert(s.drop_first() =~= s.remove(0));
    } else {
        lemma_remove_val_at(s.drop_first(), d, pos - 1);
        assert(seq![s[0]] + s.drop_first().remove(pos - 1) =~= s.remove(pos));
    }
}

/// Removing an id that is absent changes nothing.
pub proof fn lemma_remove_val_absent(s: Seq<u64>, d: u64)
    requires
        forall|k: int| 0 <= k < s.len() ==> s[k] != d,
    ensures
        seq_remove_val(s, d) == s,
    decreases s.len(),
{
    if s.len() > 0 {
        lemma_remove_val_absent(s.drop_first(), d);
        assert(seq![s[0]] + s.drop_first() =~= s);
    } else {
        assert(seq_remove_val(s, d) =~= s);
    }
}

/// Removal keeps a strictly ascending sequence strictly ascending.
pub proof fn lemma_remove_preserves_sorted(s: Seq<u64>, pos: int)
    requires
        strictly_sorted(s),
        0 <= pos < s.len(),
    ensures
        strictly_sorted(s.remove(pos)),
{
    let r = s.remove(pos);
    assert forall|i: int, j: int| 0 <= i < j < r.len() implies r[i] < r[j] by {
        assert(r[i] == (if i < pos { s[i] } else { s[i + 1] }));
        assert(r[j] == (if j < pos { s[j] } else { s[j + 1] }));
    }
}

// ---------------------------------------------------------------------------
// Lemmas about lookup by id
// ---------------------------------------------------------------------------

/// In a sequence of distinct ids a hit determines the result of the search.
pub proof fn lemma_find_task_some(s: Seq<TaskV>, id: u64, i: int)
    requires
        task_ids_sorted(s),
        0 <= i < s.len(),
        s[i].id == id,
    ensures
        find_by_id_t(s, id) == i,
    decreases s.len(),
{
    if i == 0 {
    } else {
        assert(s[0].id < s[i].id);
        assert(s.drop_first()[i - 1].id == id);
        assert forall|a: int, b: int|
            0 <= a < b < s.drop_first().len() implies s.drop_first()[a].id
            < s.drop_first()[b].id by {
            assert(s.drop_first()[a] == s[a + 1]);
            assert(s.drop_first()[b] == s[b + 1]);
        }
        lemma_find_task_some(s.drop_first(), id, i - 1);
    }
}

/// A hit returned by the search lies in range and carries the id.
pub proof fn lemma_find_task_range(s: Seq<TaskV>, id: u64)
    ensures
        ({
            let f = find_by_id_t(s, id);
            f == -1 || (0 <= f < s.len() && s[f].id == id)
        }),
    decreases s.len(),
{
    if s.len() > 0 && s[0].id != id {
        lemma_find_task_range(s.drop_first(), id);
    }
}

/// A hit returned by the search lies in range and carries the id.
pub proof fn lemma_find_project_range(s: Seq<ProjectV>, id: u64)
    ensures
        ({
            let f = find_by_id_p(s, id);
            f == -1 || (0 <= f < s.len() && s[f].id == id)
        }),
    decreases s.len(),
{
    if s.len() > 0 && s[0].id != id {
        lemma_find_project_range(s.drop_first(), id);
    }
}

/// If no task carries the id, the search reports a miss.
pub proof fn lemma_find_task_none(s: Seq<TaskV>, id: u64)
    requires
        forall|k: int| 0 <= k < s.len() ==> s[k].id != id,
    ensures
        find_by_id_t(s, id) == -1,
    decreases s.len(),
{
    if s.len() > 0 {
        assert(forall|k: int|
            0 <= k < s.drop_first().len() ==> s.drop_first()[k] == s[k + 1]);
        lemma_find_task_none(s.drop_first(), id);
    }
}

/// In a sequence of distinct ids a hit determines the result of the search.
pub proof fn lemma_find_project_some(s: Seq<ProjectV>, id: u64, i: int)
    requires
        project_ids_sorted(s),
        0 <= i < s.len(),
        s[i].id == id,
    ensures
        find_by_id_p(s, id) == i,
    decreases s.len(),
{
    if i == 0 {
    } else {
        assert(s[0].id < s[i].id);
        assert(s.drop_first()[i - 1].id == id);
        assert forall|a: int, b: int|
            0 <= a < b < s.drop_first().len() implies s.drop_first()[a].id
            < s.drop_first()[b].id by {
            assert(s.drop_first()[a] == s[a + 1]);
            assert(s.drop_first()[b] == s[b + 1]);
        }
        lemma_find_project_some(s.drop_first(), id, i - 1);
    }
}

/// If no project carries the id, the search reports a miss.
pub proof fn lemma_find_project_none(s: Seq<ProjectV>, id: u64)
    requires
        forall|k: int| 0 <= k < s.len() ==> s[k].id != id,
    ensures
        find_by_id_p(s, id) == -1,
    decreases s.len(),
{
    if s.len() > 0 {
        assert(forall|k: int|
            0 <= k < s.drop_first().len() ==> s.drop_first()[k] == s[k + 1]);
        lemma_find_project_none(s.drop_first(), id);
    }
}

// ---------------------------------------------------------------------------
// Task operations
// ---------------------------------------------------------------------------

impl Task {
    /// Appends a timestamped entry to the log; the only way the log grows.
    pub fn new_log_entry(&mut self, entry_type: LogEntryType, now: u64)
        ensures
            final(self)@ == (TaskV {
                log: old(self)@.log.push(
                    LogEntryV {
                        timestamp: clamped_ts(old(self)@.log, now),
                        entry_type: entry_type@,
                    },
                ),
                ..old(self)@
            }),
    {
        let ghost entry_v = entry_type@;
        let n = self.log.len();
        let ts: u64 = if n > 0 {
            let last_ts = self.log[n - 1].timestamp;
            if last_ts > now {
                last_ts
            } else {
                now
            }
        } else {
            now
        };
        proof {
            if n > 0 {
                assert(old(self)@.log.last() == self.log@[n - 1]@);
            }
            assert(ts == clamped_ts(old(self)@.log, now));
        }
        self.log.push(LogEntry { timestamp: ts, entry_type });
        proof {
            assert(self@.log =~= old(self)@.log.push(
                LogEntryV { timestamp: clamped_ts(old(self)@.log, now), entry_type: entry_v },
            ));
            assert(self@ =~= (TaskV {
                log: old(self)@.log.push(
                    LogEntryV {
                        timestamp: clamped_ts(old(self)@.log, now),
                        entry_type: entry_v,
                    },
                ),
                ..old(self)@
            }));
        }
    }

    /// Records a state transition: appends `StateChangedTo(new_state)` to the
    /// log, then assigns the state, in that order.
    pub fn set_state(&mut self, new_state: TaskState, now: u64)
        requires
            old(self)@.wf(),
        ensures
            final(self)@ == (TaskV {
                log: old(self)@.log.push(
                    LogEntryV {
                        timestamp: clamped_ts(old(self)@.log, now),
                        entry_type: LogEntryTypeV::StateChangedTo(new_state),
                    },
                ),
                state: new_state,
                ..old(self)@
            }),
            final(self)@.wf(),
            state_changes(final(self)@.log) == state_changes(old(self)@.log).push(new_state),
    {
        self.new_log_entry(LogEntryType::StateChangedTo(new_state), now);
        self.state = new_state;
        proof {
            let e = LogEntryV {
                timestamp: clamped_ts(old(self)@.log, now),
                entry_type: LogEntryTypeV::StateChangedTo(new_state),
            };
            lemma_state_changes_push(old(self)@.log, e);
            assert forall|i: int, j: int|
                0 <= i < j < self@.log.len() implies self@.log[i].timestamp
                <= self@.log[j].timestamp by {
                if j == self@.log.len() - 1 && old(self)@.log.len() > 0 {
                    assert(old(self)@.log[i].timestamp <= old(self)@.log.last().timestamp);
                }
            }
        }
    }

    /// Appends a free-text comment to the log; no other field changes.
    pub fn add_comment(&mut self, text: Vec<u8>, now: u64)
        requires
            old(self)@.wf(),
        ensures
            final(self)@ == (TaskV {
                log: old(self)@.log.push(
                    LogEntryV {
                        timestamp: clamped_ts(old(self)@.log, now),
                        entry_type: LogEntryTypeV::Comment(text@),
                    },
                ),
                ..old(self)@
            }),
            final(self)@.wf(),
            state_changes(final(self)@.log) == state_changes(old(self)@.log),
    {
        let ghost text_v = text@;
        self.new_log_entry(LogEntryType::Comment(text), now);
        proof {
            let e = LogEntryV {
                timestamp: clamped_ts(old(self)@.log, now),
                entry_type: LogEntryTypeV::Comment(text_v),
            };
            lemma_state_changes_push(old(self)@.log, e);
            assert forall|i: int, j: int|
                0 <= i < j < self@.log.len() implies self@.log[i].timestamp
                <= self@.log[j].timestamp by {
                if j == self@.log.len() - 1 && old(self)@.log.len() > 0 {
                    assert(old(self)@.log[i].timestamp <= old(self)@.log.last().timestamp);
                }
            }
        }
    }

    /// Adds an id to the dependency set; idempotent, and writes no log entry.
    pub fn dep_add(&mut self, dep: u64)
        requires
            strictly_sorted(old(self)@.dependencies),
        ensures
            final(self)@ == (TaskV {
                dependencies: seq_insert_sorted(old(self)@.dependencies, dep),
                ..old(self)@
            }),
            strictly_sorted(final(self)@.dependencies),
    {
        let n = self.dependencies.len();
        let mut i: usize = 0;
        while i < n && self.dependencies[i] < dep
            invariant
                n == self.dependencies.len(),
                i <= n,
                forall|k: int| 0 <= k < i ==> old(self).dependencies@[k] < dep,
                self == old(self),
            decreases n - i,
        {
            i = i + 1;
        }
        proof {
            lemma_insert_sorted_members(old(self)@.dependencies, dep);
        }
        if i < n && self.dependencies[i] == dep {
            proof {
                lemma_insert_sorted_noop(old(self)@.dependencies, dep);
                assert(self@ =~= (TaskV {
                    dependencies: seq_insert_sorted(old(self)@.dependencies, dep),
                    ..old(self)@
                }));
            }
        } else {
            self.dependencies.insert(i, dep);
            proof {
                lemma_insert_sorted_at(old(self)@.dependencies, dep, i as int);
                assert(self@ =~= (TaskV {
                    dependencies: seq_insert_sorted(old(self)@.dependencies, dep),
                    ..old(self)@
                }));
            }
        }
    }

    /// Removes an id from the dependency set; a no-op when it is absent, and
    /// writes no log entry.
    pub fn dep_remove(&mut self, dep: u64)
        requires
            strictly_sorted(old(self)@.dependencies),
        ensures
            final(self)@ == (TaskV {
                dependencies: seq_remove_val(old(self)@.dependencies, dep),
                ..old(self)@
            }),
            strictly_sorted(final(self)@.dependencies),
    {
        let n = self.dependencies.len();
        let mut i: usize = 0;
        while i < n && self.dependencies[i] != dep
            invariant
                n == self.dependencies.len(),
                i <= n,
                forall|k: int| 0 <= k < i ==> old(self).dependencies@[k] != dep,
                self == old(self),
            decreases n - i,
        {
            i = i + 1;
        }
        if i < n {
            self.dependencies.remove(i);
            proof {
                lemma_remove_val_at(old(self)@.dependencies, dep, i as int);
                lemma_remove_preserves_sorted(old(self)@.dependencies, i as int);
                assert(self@ =~= (TaskV {
                    dependencies: seq_remove_val(old(self)@.dependencies, dep),
                    ..old(self)@
                }));
            }
        } else {
            proof {
                lemma_remove_val_absent(old(self)@.dependencies, dep);
                assert(self@ =~= (TaskV {
                    dependencies: seq_remove_val(old(self)@.dependencies, dep),
                    ..old(self)@
                }));
            }
        }
    }
}

// ---------------------------------------------------------------------------
// Well-formedness preservation lemmas
// ---------------------------------------------------------------------------

/// Replacing a task by one with the same id keeps the project well-formed.
pub proof fn lemma_wf_update_task(p: ProjectV, ti: int, t2: TaskV)
    requires
        p.wf(),
        0 <= ti < p.tasks.len(),
        t2.id == p.tasks[ti].id,
        t2.wf(),
    ensures
        (ProjectV { tasks: p.tasks.update(ti, t2), ..p }).wf(),
{
    let p2 = ProjectV { tasks: p.tasks.update(ti, t2), ..p };
    assert forall|i: int, j: int|
        0 <= i < j < p2.tasks.len() implies p2.tasks[i].id < p2.tasks[j].id by {
        assert(p.tasks[i].id < p.tasks[j].id);
    }
    assert forall|i: int| 0 <= i < p2.tasks.len() implies p2.tasks[i].id
        < p2.next_task_id by {
        assert(p.tasks[i].id < p.next_task_id);
    }
    assert forall|i: int| 0 <= i < p2.tasks.len() implies (#[trigger] p2.tasks[i]).wf() by {
        assert(p.tasks[i].wf());
    }
}

/// Replacing a project by one with the same id and counter bound keeps the
/// database well-formed.
pub proof fn lemma_wf_update_project(db: DatabaseV, pi: int, p2: ProjectV)
    requires
        db.wf(),
        0 <= pi < db.projects.len(),
        p2.id == db.projects[pi].id,
        p2.wf(),
    ensures
        (DatabaseV { projects: db.projects.update(pi, p2), ..db }).wf(),
{
    let d2 = DatabaseV { projects: db.projects.update(pi, p2), ..db };
    assert forall|i: int, j: int|
        0 <= i < j < d2.projects.len() implies d2.projects[i].id < d2.projects[j].id by {
        assert(db.projects[i].id < db.projects[j].id);
    }
    assert forall|i: int| 0 <= i < d2.projects.len() implies d2.projects[i].id
        < d2.next_project_id by {
        assert(db.projects[i].id < db.next_project_id);
    }
    assert forall|i: int| 0 <= i < d2.projects.len() implies (
    #[trigger] d2.projects[i]).wf() by {
        assert(db.projects[i].wf());
    }
}

/// Removing a task keeps the project well-formed.
pub proof fn lemma_wf_remove_task(p: ProjectV, ti: int)
    requires
        p.wf(),
        0 <= ti < p.tasks.len(),
    ensures
        (ProjectV { tasks: p.tasks.remove(ti), ..p }).wf(),
{
    let p2 = ProjectV { tasks: p.tasks.remove(ti), ..p };
    assert forall|i: int, j: int|
        0 <= i < j < p2.tasks.len() implies p2.tasks[i].id < p2.tasks[j].id by {
        assert(p2.tasks[i] == (if i < ti { p.tasks[i] } else { p.tasks[i + 1] }));
        assert(p2.tasks[j] == (if j < ti { p.tasks[j] } else { p.tasks[j + 1] }));
    }
    assert forall|i: int| 0 <= i < p2.tasks.len() implies p2.tasks[i].id
        < p2.next_task_id by {
        assert(p2.tasks[i] == (if i < ti { p.tasks[i] } else { p.tasks[i + 1] }));
    }
    assert forall|i: int| 0 <= i < p2.tasks.len() implies (#[trigger] p2.tasks[i]).wf() by {
        assert(p2.tasks[i] == (if i < ti { p.tasks[i] } else { p.tasks[i + 1] }));
        assert(p.tasks[i].wf() && (i + 1 < p.tasks.len() ==> p.tasks[i + 1].wf()));
    }
}

/// Removing a project keeps the database well-formed.
pub proof fn lemma_wf_remove_project(db: DatabaseV, pi: int)
    requires
        db.wf(),
        0 <= pi < db.projects.len(),
    ensures
        (DatabaseV { projects: db.projects.remove(pi), ..db }).wf(),
{
    let d2 = DatabaseV { projects: db.projects.remove(pi), ..db };
    assert forall|i: int, j: int|
        0 <= i < j < d2.projects.len() implies d2.projects[i].id < d2.projects[j].id by {
        assert(d2.projects[i] == (if i < pi { db.projects[i] } else { db.projects[i + 1] }));
        assert(d2.projects[j] == (if j < pi { db.projects[j] } else { db.projects[j + 1] }));
    }
    assert forall|i: int| 0 <= i < d2.projects.len() implies d2.projects[i].id
        < d2.next_project_id by {
        assert(d2.projects[i] == (if i < pi { db.projects[i] } else { db.projects[i + 1] }));
    }
    assert forall|i: int| 0 <= i < d2.projects.len() implies (
    #[trigger] d2.projects[i]).wf() by {
        assert(d2.projects[i] == (if i < pi { db.projects[i] } else { db.projects[i + 1] }));
        assert(db.projects[i].wf() && (i + 1 < db.projects.len() ==> db.projects[i + 1].wf()));
    }
}

// ---------------------------------------------------------------------------
// Project operations
// ---------------------------------------------------------------------------

impl Project {
    /// Finds the position of the task carrying `id`.
    pub fn find_task_index(&self, id: u64) -> (r: Option<usize>)
        ensures
            match r {
                Some(i) => i < self@.tasks.len() && self@.tasks[i as int].id == id,
                None => forall|k: int| 0 <= k < self@.tasks.len() ==> self@.tasks[k].id != id,
            },
    {
        let n = self.tasks.len();
        let mut i: usize = 0;
        while i < n
            invariant
                n == self.tasks.len(),
                i <= n,
                forall|k: int| 0 <= k < i ==> self@.tasks[k].id != id,
            decreases n - i,
        {
            if self.tasks[i].id == id {
                return Some(i);
            }
            i = i + 1;
        }
        None
    }

    /// Looks a task up by id.
    pub fn get_task(&self, task_id: u64) -> (r: Option<&Task>)
        requires
            self@.wf(),
        ensures
            match r {
                Some(t) => self@.find_task(task_id) >= 0 && t@ == self@.tasks[self@.find_task(
                    task_id,
                )],
                None => self@.find_task(task_id) == -1,
            },
    {
        match self.find_task_index(task_id) {
            Some(i) => {
                proof {
                    lemma_find_task_some(self@.tasks, task_id, i as int);
                }
                Some(&self.tasks[i])
            },
            None => {
                proof {
                    lemma_find_task_none(self@.tasks, task_id);
                }
                None
            },
        }
    }

    /// Creates a task in state `Todo` with an empty log and no dependencies,
    /// assigning the next fresh task id.
    pub fn create_task(&mut self, title: Vec<u8>, description: Vec<u8>) -> (r: Option<u64>)
        requires
            old(self)@.wf(),
        ensures
            match r {
                Some(id) => ({
                    &&& old(self)@.next_task_id < MAX_ID
                    &&& id == old(self)@.next_task_id
                    &&& final(self)@ == (ProjectV {
                        tasks: old(self)@.tasks.push(new_task_v(id, title@, description@)),
                        next_task_id: (old(self)@.next_task_id + 1) as u64,
                        ..old(self)@
                    })
                    &&& final(self)@.wf()
                }),
                None => old(self)@.next_task_id == MAX_ID && final(self)@ == old(self)@,
            },
    {
        if self.next_task_id >= MAX_ID {
            return None;
        }
        let id = self.next_task_id;
        self.next_task_id = id + 1;
        let task = Task {
            title,
            description,
            id,
            log: Vec::new(),
            state: TaskState::Todo,
            dependencies: Vec::new(),
        };
        let ghost tv = task@;
        self.tasks.push(task);
        proof {
            assert(tv =~= new_task_v(id, tv.title, tv.description));
            assert(final(self)@ =~= (ProjectV {
                tasks: old(self)@.tasks.push(tv),
                next_task_id: (old(self)@.next_task_id + 1) as u64,
                ..old(self)@
            }));
            assert(state_changes(tv.log).len() == 0);
            assert(tv.wf());
            let p2 = final(self)@;
            assert forall|i: int, j: int|
                0 <= i < j < p2.tasks.len() implies p2.tasks[i].id < p2.tasks[j].id by {
                if j == p2.tasks.len() - 1 {
                    assert(old(self)@.tasks[i].id < old(self)@.next_task_id);
                }
            }
            assert forall|i: int| 0 <= i < p2.tasks.len() implies p2.tasks[i].id
                < p2.next_task_id by {
                if i < p2.tasks.len() - 1 {
                    assert(old(self)@.tasks[i].id < old(self)@.next_task_id);
                }
            }
            assert forall|i: int| 0 <= i < p2.tasks.len() implies (
            #[trigger] p2.tasks[i]).wf() by {
                if i < p2.tasks.len() - 1 {
                    assert(old(self)@.tasks[i].wf());
                }
            }
        }
        Some(id)
    }

    /// Deletes the task carrying `task_id`, if any.
    pub fn remove_task(&mut self, task_id: u64) -> (r: bool)
        requires
            old(self)@.wf(),
        ensures
            ({
                let f = old(self)@.find_task(task_id);
                if f >= 0 {
                    &&& r
                    &&& final(self)@ == (ProjectV { tasks: old(self)@.tasks.remove(f), ..old(self)@ })
                    &&& final(self)@.wf()
                } else {
                    !r && final(self)@ == old(self)@
                }
            }),
    {
        match self.find_task_index(task_id) {
            Some(i) => {
                proof {
                    lemma_find_task_some(old(self)@.tasks, task_id, i as int);
                }
                self.tasks.remove(i);
                proof {
                    assert(final(self)@ =~= (ProjectV {
                        tasks: old(self)@.tasks.remove(i as int),
                        ..old(self)@
                    }));
                    lemma_wf_remove_task(old(self)@, i as int);
                }
                true
            },
            None => {
                proof {
                    lemma_find_task_none(old(self)@.tasks, task_id);
                }
                false
            },
        }
    }
}

// ---------------------------------------------------------------------------
// Database operations
// ---------------------------------------------------------------------------

impl Database {
    /// An empty database: no projects, ids starting at zero.
    pub fn new() -> (db: Database)
        ensures
            db@ == empty_db(),
            db@.wf(),
    {
        let db = Database { projects: Vec::new(), next_project_id: 0 };
        proof {
            assert(db@ =~= empty_db());
        }
        db
    }

    /// Finds the position of the project carrying `id`.
    pub fn find_project_index(&self, id: u64) -> (r: Option<usize>)
        ensures
            match r {
                Some(i) => i < self@.projects.len() && self@.projects[i as int].id == id,
                None => forall|k: int|
                    0 <= k < self@.projects.len() ==> self@.projects[k].id != id,
            },
    {
        let n = self.projects.len();
        let mut i: usize = 0;
        while i < n
            invariant
                n == self.projects.len(),
                i <= n,
                forall|k: int| 0 <= k < i ==> self@.projects[k].id != id,
            decreases n - i,
        {
            if self.projects[i].id == id {
                return Some(i);
            }
            i = i + 1;
        }
        None
    }

    /// Looks a project up by id.
    pub fn get_project(&self, project_id: u64) -> (r: Option<&Project>)
        requires
            self@.wf(),
        ensures
            match r {
                Some(p) => self@.find_project(project_id) >= 0 && p@
                    == self@.projects[self@.find_project(project_id)],
                None => self@.find_project(project_id) == -1,
            },
    {
        match self.find_project_index(project_id) {
            Some(i) => {
                proof {
                    lemma_find_project_some(self@.projects, project_id, i as int);
                }
                Some(&self.projects[i])
            },
            None => {
                proof {
                    lemma_find_project_none(self@.projects, project_id);
                }
                None
            },
        }
    }

    /// Creates a project with no tasks, assigning the next fresh project id.
    pub fn create_project(&mut self, name: Vec<u8>, description: Vec<u8>) -> (r: Option<u64>)
        requires
            old(self)@.wf(),
        ensures
            match r {
                Some(id) => ({
                    &&& old(self)@.next_project_id < MAX_ID
                    &&& id == old(self)@.next_project_id
                    &&& final(self)@ == (DatabaseV {
                        projects: old(self)@.projects.push(new_project_v(id, name@, description@)),
                        next_project_id: (old(self)@.next_project_id + 1) as u64,
                    })
                    &&& final(self)@.wf()
                }),
                None => old(self)@.next_project_id == MAX_ID && final(self)@ == old(self)@,
            },
    {
        if self.next_project_id >= MAX_ID {
            return None;
        }
        let id = self.next_project_id;
        self.next_project_id = id + 1;
        let project = Project {
            name,
            description,
            id,
            tasks: Vec::new(),
            next_task_id: 0,
        };
        let ghost pv = project@;
        self.projects.push(project);
        proof {
            assert(pv =~= new_project_v(id, pv.name, pv.description));
            assert(final(self)@ =~= (DatabaseV {
                projects: old(self)@.projects.push(pv),
                next_project_id: (old(self)@.next_project_id + 1) as u64,
            }));
            assert(pv.wf());
            let d2 = final(self)@;
            assert forall|i: int, j: int|
                0 <= i < j < d2.projects.len() implies d2.projects[i].id < d2.projects[j].id by {
                if j == d2.projects.len() - 1 {
                    assert(old(self)@.projects[i].id < old(self)@.next_project_id);
                }
            }
            assert forall|i: int| 0 <= i < d2.projects.len() implies d2.projects[i].id
                < d2.next_project_id by {
                if i < d2.projects.len() - 1 {
                    assert(old(self)@.projects[i].id < old(self)@.next_project_id);
                }
            }
            assert forall|i: int| 0 <= i < d2.projects.len() implies (
            #[trigger] d2.projects[i]).wf() by {
                if i < d2.projects.len() - 1 {
                    assert(old(self)@.projects[i].wf());
                }
            }
        }
        Some(id)
    }

    /// Deletes the project carrying `project_id` and all its tasks, if any.
    pub fn remove_project(&mut self, project_id: u64) -> (r: bool)
        requires
            old(self)@.wf(),
        ensures
            ({
                let f = old(self)@.find_project(project_id);
                if f >= 0 {
                    &&& r
                    &&& final(self)@ == (DatabaseV {
                        projects: old(self)@.projects.remove(f),
                        ..old(self)@
                    })
                    &&& final(self)@.wf()
                } else {
                    !r && final(self)@ == old(self)@
                }
            }),
    {
        match self.find_project_index(project_id) {
            Some(i) => {
                proof {
                    lemma_find_project_some(old(self)@.projects, project_id, i as int);
                }
                self.projects.remove(i);
                proof {
                    assert(final(self)@ =~= (DatabaseV {
                        projects: old(self)@.projects.remove(i as int),
                        ..old(self)@
                    }));
                    lemma_wf_remove_project(old(self)@, i as int);
                }
                true
            },
            None => {
                proof {
                    lemma_find_project_none(old(self)@.projects, project_id);
                }
                false
            },
        }
    }

    /// Overwrites the name of the project carrying `project_id`.
    pub fn set_project_name(&mut self, project_id: u64, name: Vec<u8>) -> (r: bool)
        requires
            old(self)@.wf(),
        ensures
            ({
                let f = old(self)@.find_project(project_id);
                if f >= 0 {
                    &&& r
                    &&& final(self)@ == (DatabaseV {
                        projects: old(self)@.projects.update(f, (ProjectV {
                            name: name@,
                            ..old(self)@.projects[f]
                        })),
                        ..old(self)@
                    })
                    &&& final(self)@.wf()
                } else {
                    !r && final(self)@ == old(self)@
                }
            }),
    {
        match self.find_project_index(project_id) {
            Some(i) => {
                proof {
                    lemma_find_project_some(old(self)@.projects, project_id, i as int);
                }
                self.projects[i].name = name;
                proof {
                    let f = i as int;
                    let p2 = ProjectV { name: name@, ..old(self)@.projects[f] };
                    assert(final(self)@ =~= (DatabaseV {
                        projects: old(self)@.projects.update(f, p2),
                        ..old(self)@
                    }));
                    lemma_wf_update_project(old(self)@, f, p2);
                }
                true
            },
            None => {
                proof {
                    lemma_find_project_none(old(self)@.projects, project_id);
                }
                false
            },
        }
    }

    /// Overwrites the description of the project carrying `project_id`.
    pub fn set_project_description(&mut self, project_id: u64, description: Vec<u8>) -> (r: bool)
        requires
            old(self)@.wf(),
        ensures
            ({
                let f = old(self)@.find_project(project_id);
                if f >= 0 {
                    &&& r
                    &&& final(self)@ == (DatabaseV {
                        projects: old(self)@.projects.update(f, (ProjectV {
                            description: description@,
                            ..old(self)@.projects[f]
                        })),
                        ..old(self)@
                    })
                    &&& final(self)@.wf()
                } else {
                    !r && final(self)@ == old(self)@
                }
            }),
    {
        match self.find_project_index(project_id) {
            Some(i) => {
                proof {
                    lemma_find_project_some(old(self)@.projects, project_id, i as int);
                }
                self.projects[i].description = description;
                proof {
                    let f = i as int;
                    let p2 = ProjectV { description: description@, ..old(self)@.projects[f] };
                    assert(final(self)@ =~= (DatabaseV {
                        projects: old(self)@.projects.update(f, p2),
                        ..old(self)@
                    }));
                    lemma_wf_update_project(old(self)@, f, p2);
                }
                true
            },
            None => {
                proof {
                    lemma_find_project_none(old(self)@.projects, project_id);
                }
                false
            },
        }
    }
}

// ---------------------------------------------------------------------------
// Task-level operations on the database
// ---------------------------------------------------------------------------

impl Database {
    /// Looks a task up by project and task id.
    pub fn get_task(&self, project_id: u64, task_id: u64) -> (r: Result<&Task, DbError>)
        requires
            self@.wf(),
        ensures
            match r {
                Ok(t) => ({
                    let f = self@.find_project(project_id);
                    let tj = self@.projects[f].find_task(task_id);
                    &&& f >= 0
                    &&& tj >= 0
                    &&& t@ == self@.projects[f].tasks[tj]
                }),
                Err(DbError::NoProject) => self@.find_project(project_id) == -1,
                Err(DbError::NoTask) => ({
                    let f = self@.find_project(project_id);
                    f >= 0 && self@.projects[f].find_task(task_id) == -1
                }),
                Err(DbError::IdExhausted) => false,
            },
    {
        match self.get_project(project_id) {
            Some(p) => {
                proof {
                    lemma_find_project_range(self@.projects, project_id);
                    assert(self@.projects[self@.find_project(project_id)].wf());
                }
                match p.get_task(task_id) {
                    Some(t) => Ok(t),
                    None => Err(DbError::NoTask),
                }
            },
            None => Err(DbError::NoProject),
        }
    }

    /// Creates a task inside the project carrying `project_id`.
    pub fn create_task(&mut self, project_id: u64, title: Vec<u8>, description: Vec<u8>) -> (r:
        Result<u64, DbError>)
        requires
            old(self)@.wf(),
        ensures
            match r {
                Ok(id) => ({
                    let f = old(self)@.find_project(project_id);
                    let pv = old(self)@.projects[f];
                    &&& f >= 0
                    &&& pv.next_task_id < MAX_ID
                    &&& id == pv.next_task_id
                    &&& final(self)@ == (DatabaseV {
                        projects: old(self)@.projects.update(f, (ProjectV {
                            tasks: pv.tasks.push(new_task_v(id, title@, description@)),
                            next_task_id: (pv.next_task_id + 1) as u64,
                            ..pv
                        })),
                        ..old(self)@
                    })
                    &&& final(self)@.wf()
                }),
                Err(DbError::NoProject) => old(self)@.find_project(project_id) == -1
                    && final(self)@ == old(self)@,
                Err(DbError::IdExhausted) => ({
                    let f = old(self)@.find_project(project_id);
                    &&& f >= 0
                    &&& old(self)@.projects[f].next_task_id == MAX_ID
                    &&& final(self)@ == old(self)@
                }),
                Err(DbError::NoTask) => false,
            },
    {
        let pi = match self.find_project_index(project_id) {
            Some(i) => i,
            None => {
                proof {
                    lemma_find_project_none(old(self)@.projects, project_id);
                }
                return Err(DbError::NoProject);
            },
        };
        proof {
            lemma_find_project_some(old(self)@.projects, project_id, pi as int);
            assert(old(self)@.projects[pi as int].wf());
        }
        let p = &mut self.projects[pi];
        let res = p.create_task(title, description);
        match res {
            Some(id) => {
                proof {
                    let f = pi as int;
                    let pv = old(self)@.projects[f];
                    let p2 = ProjectV {
                        tasks: pv.tasks.push(new_task_v(id, title@, description@)),
                        next_task_id: (pv.next_task_id + 1) as u64,
                        ..pv
                    };
                    assert(final(self)@ =~= (DatabaseV {
                        projects: old(self)@.projects.update(f, p2),
                        ..old(self)@
                    }));
                    lemma_wf_update_project(old(self)@, f, p2);
                }
                Ok(id)
            },
            None => {
                proof {
                    assert(final(self)@ =~= old(self)@);
                }
                Err(DbError::IdExhausted)
            },
        }
    }

    /// Deletes the task carrying `task_id` from the project carrying
    /// `project_id`.
    pub fn remove_task(&mut self, project_id: u64, task_id: u64) -> (r: Result<(), DbError>)
        requires
            old(self)@.wf(),
        ensures
            match r {
                Ok(()) => ({
                    let f = old(self)@.find_project(project_id);
                    let pv = old(self)@.projects[f];
                    let tj = pv.find_task(task_id);
                    &&& f >= 0
                    &&& tj >= 0
                    &&& final(self)@ == (DatabaseV {
                        projects: old(self)@.projects.update(f, (ProjectV {
                            tasks: pv.tasks.remove(tj),
                            ..pv
                        })),
                        ..old(self)@
                    })
                    &&& final(self)@.wf()
                }),
                Err(DbError::NoProject) => old(self)@.find_project(project_id) == -1
                    && final(self)@ == old(self)@,
                Err(DbError::NoTask) => ({
                    let f = old(self)@.find_project(project_id);
                    &&& f >= 0
                    &&& old(self)@.projects[f].find_task(task_id) == -1
                    &&& final(self)@ == old(self)@
                }),
                Err(DbError::IdExhausted) => false,
            },
    {
        let pi = match self.find_project_index(project_id) {
            Some(i) => i,
            None => {
                proof {
                    lemma_find_project_none(old(self)@.projects, project_id);
                }
                return Err(DbError::NoProject);
            },
        };
        proof {
            lemma_find_project_some(old(self)@.projects, project_id, pi as int);
            assert(old(self)@.projects[pi as int].wf());
        }
        let p = &mut self.projects[pi];
        let removed = p.remove_task(task_id);
        if removed {
            proof {
                let f = pi as int;
                let pv = old(self)@.projects[f];
                let tj = pv.find_task(task_id);
                let p2 = ProjectV { tasks: pv.tasks.remove(tj), ..pv };
                assert(final(self)@ =~= (DatabaseV {
                    projects: old(self)@.projects.update(f, p2),
                    ..old(self)@
                }));
                lemma_wf_update_project(old(self)@, f, p2);
            }
            Ok(())
        } else {
            proof {
                assert(final(self)@ =~= old(self)@);
            }
            Err(DbError::NoTask)
        }
    }
}


/// The database with the task at project index `f`, task index `tj` replaced
/// by `t2`.
pub open spec fn with_task(db: DatabaseV, f: int, tj: int, t2: TaskV) -> DatabaseV {
    DatabaseV {
        projects: db.projects.update(f, (ProjectV {
            tasks: db.projects[f].tasks.update(tj, t2),
            ..db.projects[f]
        })),
        ..db
    }
}

impl Database {
    /// Overwrites the title of a task.
    pub fn set_task_title(&mut self, project_id: u64, task_id: u64, title: Vec<u8>) -> (r:
        Result<(), DbError>)
        requires
            old(self)@.wf(),
        ensures
            match r {
                Ok(()) => ({
                    let f = old(self)@.find_project(project_id);
                    let pv = old(self)@.projects[f];
                    let tj = pv.find_task(task_id);
                    &&& f >= 0
                    &&& tj >= 0
                    &&& final(self)@ == with_task(old(self)@, f, tj, (TaskV {
                        title: title@,
                        ..pv.tasks[tj]
                    }))
                    &&& final(self)@.wf()
                }),
                Err(DbError::NoProject) => old(self)@.find_project(project_id) == -1
                    && final(self)@ == old(self)@,
                Err(DbError::NoTask) => ({
                    let f = old(self)@.find_project(project_id);
                    &&& f >= 0
                    &&& old(self)@.projects[f].find_task(task_id) == -1
                    &&& final(self)@ == old(self)@
                }),
                Err(DbError::IdExhausted) => false,
            },
    {
        let pi = match self.find_project_index(project_id) {
            Some(i) => i,
            None => {
                proof {
                    lemma_find_project_none(old(self)@.projects, project_id);
                }
                return Err(DbError::NoProject);
            },
        };
        proof {
            lemma_find_project_some(old(self)@.projects, project_id, pi as int);
            assert(old(self)@.projects[pi as int].wf());
        }
        let p = &mut self.projects[pi];
        let ti = match p.find_task_index(task_id) {
            Some(j) => j,
            None => {
                proof {
                    lemma_find_task_none(old(self)@.projects[pi as int].tasks, task_id);
                    assert(final(self)@ =~= old(self)@);
                }
                return Err(DbError::NoTask);
            },
        };
        proof {
            lemma_find_task_some(old(self)@.projects[pi as int].tasks, task_id, ti as int);
        }
        let t = &mut p.tasks[ti];
        t.title = title;
        proof {
            let f = pi as int;
            let tj = ti as int;
            let pv = old(self)@.projects[f];
            let tv = pv.tasks[tj];
            let t2 = TaskV { title: title@, ..tv };
            assert(final(self)@ =~~= with_task(old(self)@, f, tj, t2));
            assert(tv.wf());
            lemma_wf_update_task(pv, tj, t2);
            lemma_wf_update_project(old(self)@, f, (ProjectV {
                tasks: pv.tasks.update(tj, t2),
                ..pv
            }));
        }
        Ok(())
    }

    /// Overwrites the description of a task.
    pub fn set_task_description(&mut self, project_id: u64, task_id: u64, description: Vec<u8>)
        -> (r: Result<(), DbError>)
        requires
            old(self)@.wf(),
        ensures
            match r {
                Ok(()) => ({
                    let f = old(self)@.find_project(project_id);
                    let pv = old(self)@.projects[f];
                    let tj = pv.find_task(task_id);
                    &&& f >= 0
                    &&& tj >= 0
                    &&& final(self)@ == with_task(old(self)@, f, tj, (TaskV {
                        description: description@,
                        ..pv.tasks[tj]
                    }))
                    &&& final(self)@.wf()
                }),
                Err(DbError::NoProject) => old(self)@.find_project(project_id) == -1
                    && final(self)@ == old(self)@,
                Err(DbError::NoTask) => ({
                    let f = old(self)@.find_project(project_id);
                    &&& f >= 0
                    &&& old(self)@.projects[f].find_task(task_id) == -1
                    &&& final(self)@ == old(self)@
                }),
                Err(DbError::IdExhausted) => false,
            },
    {
        let pi = match self.find_project_index(project_id) {
            Some(i) => i,
            None => {
                proof {
                    lemma_find_project_none(old(self)@.projects, project_id);
                }
                return Err(DbError::NoProject);
            },
        };
        proof {
            lemma_find_project_some(old(self)@.projects, project_id, pi as int);
            assert(old(self)@.projects[pi as int].wf());
        }
        let p = &mut self.projects[pi];
        let ti = match p.find_task_index(task_id) {
            Some(j) => j,
            None => {
                proof {
                    lemma_find_task_none(old(self)@.projects[pi as int].tasks, task_id);
                    assert(final(self)@ =~= old(self)@);
                }
                return Err(DbError::NoTask);
            },
        };
        proof {
            lemma_find_task_some(old(self)@.projects[pi as int].tasks, task_id, ti as int);
        }
        let t = &mut p.tasks[ti];
        t.description = description;
        proof {
            let f = pi as int;
            let tj = ti as int;
            let pv = old(self)@.projects[f];
            let tv = pv.tasks[tj];
            let t2 = TaskV { description: description@, ..tv };
            assert(final(self)@ =~~= with_task(old(self)@, f, tj, t2));
            assert(tv.wf());
            lemma_wf_update_task(pv, tj, t2);
            lemma_wf_update_project(old(self)@, f, (ProjectV {
                tasks: pv.tasks.update(tj, t2),
                ..pv
            }));
        }
        Ok(())
    }

    /// Records a state transition on a task: appends the matching log entry,
    /// then assigns the state.
    pub fn set_task_state(&mut self, project_id: u64, task_id: u64, new_state: TaskState, now:
        u64) -> (r: Result<(), DbError>)
        requires
            old(self)@.wf(),
        ensures
            match r {
                Ok(()) => ({
                    let f = old(self)@.find_project(project_id);
                    let pv = old(self)@.projects[f];
                    let tj = pv.find_task(task_id);
                    let tv = pv.tasks[tj];
                    &&& f >= 0
                    &&& tj >= 0
                    &&& final(self)@ == with_task(old(self)@, f, tj, (TaskV {
                        log: tv.log.push(
                            LogEntryV {
                                timestamp: clamped_ts(tv.log, now),
                                entry_type: LogEntryTypeV::StateChangedTo(new_state),
                            },
                        ),
                        state: new_state,
                        ..tv
                    }))
                    &&& state_changes(final(self)@.projects[f].tasks[tj].log) == state_changes(
                        tv.log,
                    ).push(new_state)
                    &&& final(self)@.wf()
                }),
                Err(DbError::NoProject) => old(self)@.find_project(project_id) == -1
                    && final(self)@ == old(self)@,
                Err(DbError::NoTask) => ({
                    let f = old(self)@.find_project(project_id);
                    &&& f >= 0
                    &&& old(self)@.projects[f].find_task(task_id) == -1
                    &&& final(self)@ == old(self)@
                }),
                Err(DbError::IdExhausted) => false,
            },
    {
        let pi = match self.find_project_index(project_id) {
            Some(i) => i,
            None => {
                proof {
                    lemma_find_project_none(old(self)@.projects, project_id);
                }
                return Err(DbError::NoProject);
            },
        };
        proof {
            lemma_find_project_some(old(self)@.projects, project_id, pi as int);
            assert(old(self)@.projects[pi as int].wf());
        }
        let p = &mut self.projects[pi];
        let ti = match p.find_task_index(task_id) {
            Some(j) => j,
            None => {
                proof {
                    lemma_find_task_none(old(self)@.projects[pi as int].tasks, task_id);
                    assert(final(self)@ =~= old(self)@);
                }
                return Err(DbError::NoTask);
            },
        };
        proof {
            lemma_find_task_some(old(self)@.projects[pi as int].tasks, task_id, ti as int);
            assert(old(self)@.projects[pi as int].tasks[ti as int].wf());
        }
        let t = &mut p.tasks[ti];
        t.set_state(new_state, now);
        proof {
            let f = pi as int;
            let tj = ti as int;
            let pv = old(self)@.projects[f];
            let tv = pv.tasks[tj];
            let t2 = TaskV {
                log: tv.log.push(
                    LogEntryV {
                        timestamp: clamped_ts(tv.log, now),
                        entry_type: LogEntryTypeV::StateChangedTo(new_state),
                    },
                ),
                state: new_state,
                ..tv
            };
            assert(final(self)@ =~~= with_task(old(self)@, f, tj, t2));
            lemma_wf_update_task(pv, tj, t2);
            lemma_wf_update_project(old(self)@, f, (ProjectV {
                tasks: pv.tasks.update(tj, t2),
                ..pv
            }));
        }
        Ok(())
    }

    /// Appends a free-text comment to a task's log.
    pub fn add_task_comment(&mut self, project_id: u64, task_id: u64, comment: Vec<u8>, now: u64)
        -> (r: Result<(), DbError>)
        requires
            old(self)@.wf(),
        ensures
            match r {
                Ok(()) => ({
                    let f = old(self)@.find_project(project_id);
                    let pv = old(self)@.projects[f];
                    let tj = pv.find_task(task_id);
                    let tv = pv.tasks[tj];
                    &&& f >= 0
                    &&& tj >= 0
                    &&& final(self)@ == with_task(old(self)@, f, tj, (TaskV {
                        log: tv.log.push(
                            LogEntryV {
                                timestamp: clamped_ts(tv.log, now),
                                entry_type: LogEntryTypeV::Comment(comment@),
                            },
                        ),
                        ..tv
                    }))
                    &&& state_changes(final(self)@.projects[f].tasks[tj].log) == state_changes(
                        tv.log,
                    )
                    &&& final(self)@.wf()
                }),
                Err(DbError::NoProject) => old(self)@.find_project(project_id) == -1
                    && final(self)@ == old(self)@,
                Err(DbError::NoTask) => ({
                    let f = old(self)@.find_project(project_id);
                    &&& f >= 0
                    &&& old(self)@.projects[f].find_task(task_id) == -1
                    &&& final(self)@ == old(self)@
                }),
                Err(DbError::IdExhausted) => false,
            },
    {
        let pi = match self.find_project_index(project_id) {
            Some(i) => i,
            None => {
                proof {
                    lemma_find_project_none(old(self)@.projects, project_id);
                }
                return Err(DbError::NoProject);
            },
        };
        proof {
            lemma_find_project_some(old(self)@.projects, project_id, pi as int);
            assert(old(self)@.projects[pi as int].wf());
        }
        let p = &mut self.projects[pi];
        let ti = match p.find_task_index(task_id) {
            Some(j) => j,
            None => {
                proof {
                    lemma_find_task_none(old(self)@.projects[pi as int].tasks, task_id);
                    assert(final(self)@ =~= old(self)@);
                }
                return Err(DbError::NoTask);
            },
        };
        proof {
            lemma_find_task_some(old(self)@.projects[pi as int].tasks, task_id, ti as int);
            assert(old(self)@.projects[pi as int].tasks[ti as int].wf());
        }
        let t = &mut p.tasks[ti];
        t.add_comment(comment, now);
        proof {
            let f = pi as int;
            let tj = ti as int;
            let pv = old(self)@.projects[f];
            let tv = pv.tasks[tj];
            let t2 = TaskV {
                log: tv.log.push(
                    LogEntryV {
                        timestamp: clamped_ts(tv.log, now),
                        entry_type: LogEntryTypeV::Comment(comment@),
                    },
                ),
                ..tv
            };
            assert(final(self)@ =~~= with_task(old(self)@, f, tj, t2));
            lemma_wf_update_task(pv, tj, t2);
            lemma_wf_update_project(old(self)@, f, (ProjectV {
                tasks: pv.tasks.update(tj, t2),
                ..pv
            }));
        }
        Ok(())
    }

    /// Edits the dependency set of a task. `Add` is idempotent; `Remove` of an
    /// absent id is a no-op; neither writes a log entry.
    pub fn task_dependency(&mut self, project_id: u64, task_id: u64, dependency: u64, action:
        DependencyAction) -> (r: Result<(), DbError>)
        requires
            old(self)@.wf(),
        ensures
            match r {
                Ok(()) => ({
                    let f = old(self)@.find_project(project_id);
                    let pv = old(self)@.projects[f];
                    let tj = pv.find_task(task_id);
                    let tv = pv.tasks[tj];
                    &&& f >= 0
                    &&& tj >= 0
                    &&& final(self)@ == with_task(old(self)@, f, tj, (TaskV {
                        dependencies: (match action {
                            DependencyAction::Add => seq_insert_sorted(tv.dependencies, dependency),
                            DependencyAction::Remove => seq_remove_val(tv.dependencies, dependency),
                        }),
                        ..tv
                    }))
                    &&& final(self)@.wf()
                }),
                Err(DbError::NoProject) => old(self)@.find_project(project_id) == -1
                    && final(self)@ == old(self)@,
                Err(DbError::NoTask) => ({
                    let f = old(self)@.find_project(project_id);
                    &&& f >= 0
                    &&& old(self)@.projects[f].find_task(task_id) == -1
                    &&& final(self)@ == old(self)@
                }),
                Err(DbError::IdExhausted) => false,
            },
    {
        let pi = match self.find_project_index(project_id) {
            Some(i) => i,
            None => {
                proof {
                    lemma_find_project_none(old(self)@.projects, project_id);
                }
                return Err(DbError::NoProject);
            },
        };
        proof {
            lemma_find_project_some(old(self)@.projects, project_id, pi as int);
            assert(old(self)@.projects[pi as int].wf());
        }
        let p = &mut self.projects[pi];
        let ti = match p.find_task_index(task_id) {
            Some(j) => j,
            None => {
                proof {
                    lemma_find_task_none(old(self)@.projects[pi as int].tasks, task_id);
                    assert(final(self)@ =~= old(self)@);
                }
                return Err(DbError::NoTask);
            },
        };
        proof {
            lemma_find_task_some(old(self)@.projects[pi as int].tasks, task_id, ti as int);
            assert(old(self)@.projects[pi as int].tasks[ti as int].wf());
        }
        let t = &mut p.tasks[ti];
        match action {
            DependencyAction::Add => t.dep_add(dependency),
            DependencyAction::Remove => t.dep_remove(dependency),
        }
        proof {
            let f = pi as int;
            let tj = ti as int;
            let pv = old(self)@.projects[f];
            let tv = pv.tasks[tj];
            let t2 = TaskV {
                dependencies: (match action {
                    DependencyAction::Add => seq_insert_sorted(tv.dependencies, dependency),
                    DependencyAction::Remove => seq_remove_val(tv.dependencies, dependency),
                }),
                ..tv
            };
            assert(final(self)@ =~~= with_task(old(self)@, f, tj, t2));
            lemma_wf_update_task(pv, tj, t2);
            lemma_wf_update_project(old(self)@, f, (ProjectV {
                tasks: pv.tasks.update(tj, t2),
                ..pv
            }));
        }
        Ok(())
    }
}


// ---------------------------------------------------------------------------
// Well-formedness checking
// ---------------------------------------------------------------------------

proof fn lemma_chain_lt_u64(s: Seq<u64>, i: int, j: int)
    requires
        forall|k: int| 0 <= k < s.len() - 1 ==> #[trigger] s[k] < s[k + 1],
        0 <= i < j < s.len(),
    ensures
        s[i] < s[j],
    decreases j - i,
{
    if i + 1 < j {
        lemma_chain_lt_u64(s, i, j - 1);
        assert(s[j - 1] < s[j]);
    } else {
        assert(s[i] < s[i + 1]);
    }
}

proof fn lemma_adjacent_sorted_u64(s: Seq<u64>)
    requires
        forall|k: int| 0 <= k < s.len() - 1 ==> #[trigger] s[k] < s[k + 1],
    ensures
        strictly_sorted(s),
{
    assert forall|i: int, j: int| 0 <= i < j < s.len() implies s[i] < s[j] by {
        lemma_chain_lt_u64(s, i, j);
    }
}

proof fn lemma_chain_le_ts(s: Seq<LogEntryV>, i: int, j: int)
    requires
        forall|k: int| 0 <= k < s.len() - 1 ==> #[trigger] s[k].timestamp <= s[k + 1].timestamp,
        0 <= i < j < s.len(),
    ensures
        s[i].timestamp <= s[j].timestamp,
    decreases j - i,
{
    if i + 1 < j {
        lemma_chain_le_ts(s, i, j - 1);
        assert(s[j - 1].timestamp <= s[j].timestamp);
    } else {
        assert(s[i].timestamp <= s[i + 1].timestamp);
    }
}



fn check_deps_sorted(deps: &Vec<u64>) -> (r: bool)
    ensures
        r == strictly_sorted(deps@),
{
    let dn = deps.len();
    let mut k: usize = 1;
    while k < dn
        invariant
            1 <= k,
            dn == 0 || k <= dn,
            dn == deps@.len(),
            forall|q: int| 1 <= q < k ==> deps@[q - 1] < #[trigger] deps@[q],
        decreases dn - k,
    {
        if deps[k - 1] >= deps[k] {
            proof {
                assert(!strictly_sorted(deps@));
            }
            return false;
        }
        k = k + 1;
    }
    proof {
        assert forall|q: int|
            0 <= q < deps@.len() - 1 implies #[trigger] deps@[q] < deps@[q + 1] by {
            assert(deps@[(q + 1) - 1] < deps@[q + 1]);
        }
        lemma_adjacent_sorted_u64(deps@);
    }
    true
}

fn check_log_ordered(log: &Vec<LogEntry>) -> (r: bool)
    ensures
        r == LogEntryV::log_ordered(log_view(log@)),
{
    let ln = log.len();
    let mut m: usize = 1;
    while m < ln
        invariant
            1 <= m,
            ln == 0 || m <= ln,
            ln == log@.len(),
            forall|q: int|
                1 <= q < m ==> log_view(log@)[q - 1].timestamp <= (#[trigger] log_view(
                    log@,
                )[q]).timestamp,
        decreases ln - m,
    {
        if log[m - 1].timestamp > log[m].timestamp {
            proof {
                assert(log_view(log@)[m as int - 1].timestamp > log_view(
                    log@,
                )[m as int].timestamp);
                assert(!LogEntryV::log_ordered(log_view(log@)));
            }
            return false;
        }
        m = m + 1;
    }
    proof {
        let s = log_view(log@);
        assert forall|q: int|
            0 <= q < s.len() - 1 implies (#[trigger] s[q]).timestamp <= s[q
            + 1].timestamp by {
            assert(s[(q + 1) - 1].timestamp <= s[q + 1].timestamp);
        }
        assert forall|i: int, j: int|
            0 <= i < j < s.len() implies s[i].timestamp <= s[j].timestamp by {
            lemma_chain_le_ts(s, i, j);
        }
    }
    true
}

fn check_state_consistent(log: &Vec<LogEntry>, state: TaskState) -> (r: bool)
    ensures
        r == (TaskV {
            title: Seq::empty(),
            description: Seq::empty(),
            id: 0,
            log: log_view(log@),
            state,
            dependencies: Seq::empty(),
        }).state_consistent(),
{
    let ln = log.len();
    let mut last: Option<TaskState> = None;
    let mut w: usize = 0;
    while w < ln
        invariant
            w <= ln,
            ln == log@.len(),
            match last {
                Option::None => state_changes(log_view(log@).take(w as int)).len() == 0,
                Option::Some(st) => state_changes(log_view(log@).take(w as int)).len() > 0
                    && state_changes(log_view(log@).take(w as int)).last() == st,
            },
        decreases ln - w,
    {
        proof {
            lemma_state_changes_push(log_view(log@).take(w as int), log_view(log@)[w as int]);
            assert(log_view(log@).take(w as int + 1) =~= log_view(log@).take(w as int).push(
                log_view(log@)[w as int],
            ));
        }
        match &log[w].entry_type {
            LogEntryType::StateChangedTo(st) => {
                last = Some(*st);
            },
            LogEntryType::Comment(_) => {},
        }
        w = w + 1;
    }
    proof {
        assert(log_view(log@).take(ln as int) =~= log_view(log@));
    }
    match last {
        None => state == TaskState::Todo,
        Some(st) => state == st,
    }
}

impl Task {
    /// Decides well-formedness of a single task.
    pub fn check_wf(&self) -> (r: bool)
        ensures
            r == self@.wf(),
    {
        let a = check_deps_sorted(&self.dependencies);
        let b = check_log_ordered(&self.log);
        let c = check_state_consistent(&self.log, self.state);
        a && b && c
    }
}

fn check_task_order(tasks: &Vec<Task>, next_task_id: u64) -> (r: bool)
    ensures
        r == ((forall|i: int, j: int|
            0 <= i < j < tasks@.len() ==> tasks@[i].id < tasks@[j].id) && (forall|i: int|
            0 <= i < tasks@.len() ==> (#[trigger] tasks@[i]).id < next_task_id)),
{
    let n = tasks.len();
    let mut k: usize = 0;
    while k < n
        invariant
            k <= n,
            n == tasks@.len(),
            forall|q: int| 0 <= q < k ==> (#[trigger] tasks@[q]).id < next_task_id,
            forall|a: int, b: int| 0 <= a < b < k ==> tasks@[a].id < tasks@[b].id,
        decreases n - k,
    {
        if tasks[k].id >= next_task_id {
            return false;
        }
        if k > 0 && tasks[k - 1].id >= tasks[k].id {
            return false;
        }
        k = k + 1;
    }
    true
}

fn check_each_task(tasks: &Vec<Task>) -> (r: bool)
    ensures
        r == (forall|i: int| 0 <= i < tasks@.len() ==> (#[trigger] tasks_view(tasks@)[i]).wf()),
{
    let n = tasks.len();
    let mut k: usize = 0;
    while k < n
        invariant
            k <= n,
            n == tasks@.len(),
            forall|q: int| 0 <= q < k ==> (#[trigger] tasks_view(tasks@)[q]).wf(),
        decreases n - k,
    {
        if !tasks[k].check_wf() {
            proof {
                assert(!(tasks_view(tasks@)[k as int]).wf());
            }
            return false;
        }
        k = k + 1;
    }
    true
}


#[verifier::spinoff_prover]
proof fn lemma_task_order_bridge(tasks: Seq<Task>, next: u64)
    ensures
        ((forall|i: int, j: int| 0 <= i < j < tasks.len() ==> tasks[i].id < tasks[j].id) && (
        forall|i: int| 0 <= i < tasks.len() ==> (#[trigger] tasks[i]).id < next)) == (
        task_ids_sorted(tasks_view(tasks)) && (forall|i: int|
            0 <= i < tasks.len() ==> (#[trigger] tasks_view(tasks)[i]).id < next)),
{
    if (forall|i: int, j: int| 0 <= i < j < tasks.len() ==> tasks[i].id < tasks[j].id) && (
    forall|i: int| 0 <= i < tasks.len() ==> (#[trigger] tasks[i]).id < next) {
        assert forall|i: int, j: int|
            0 <= i < j < tasks_view(tasks).len() implies tasks_view(tasks)[i].id < tasks_view(
            tasks,
        )[j].id by {
            assert(tasks[i].id < tasks[j].id);
        }
        assert forall|i: int|
            0 <= i < tasks.len() implies (#[trigger] tasks_view(tasks)[i]).id < next by {
            assert(tasks[i].id < next);
        }
    }
    if task_ids_sorted(tasks_view(tasks)) && (forall|i: int|
        0 <= i < tasks.len() ==> (#[trigger] tasks_view(tasks)[i]).id < next) {
        assert forall|i: int, j: int|
            0 <= i < j < tasks.len() implies tasks[i].id < tasks[j].id by {
            assert(tasks_view(tasks)[i].id < tasks_view(tasks)[j].id);
        }
        assert forall|i: int| 0 <= i < tasks.len() implies (#[trigger] tasks[i]).id < next by {
            assert(tasks_view(tasks)[i].id < next);
        }
    }
}

#[verifier::spinoff_prover]
proof fn lemma_project_order_bridge(projects: Seq<Project>, next: u64)
    ensures
        ((forall|i: int, j: int|
            0 <= i < j < projects.len() ==> projects[i].id < projects[j].id) && (forall|i: int|
            0 <= i < projects.len() ==> (#[trigger] projects[i]).id < next)) == (
        project_ids_sorted(projects_view(projects)) && (forall|i: int|
            0 <= i < projects.len() ==> (#[trigger] projects_view(projects)[i]).id < next)),
{
    if (forall|i: int, j: int| 0 <= i < j < projects.len() ==> projects[i].id < projects[j].id)
        && (forall|i: int| 0 <= i < projects.len() ==> (#[trigger] projects[i]).id < next) {
        assert forall|i: int, j: int|
            0 <= i < j < projects_view(projects).len() implies projects_view(projects)[i].id
            < projects_view(projects)[j].id by {
            assert(projects[i].id < projects[j].id);
        }
        assert forall|i: int|
            0 <= i < projects.len() implies (#[trigger] projects_view(projects)[i]).id
            < next by {
            assert(projects[i].id < next);
        }
    }
    if project_ids_sorted(projects_view(projects)) && (forall|i: int|
        0 <= i < projects.len() ==> (#[trigger] projects_view(projects)[i]).id < next) {
        assert forall|i: int, j: int|
            0 <= i < j < projects.len() implies projects[i].id < projects[j].id by {
            assert(projects_view(projects)[i].id < projects_view(projects)[j].id);
        }
        assert forall|i: int|
            0 <= i < projects.len() implies (#[trigger] projects[i]).id < next by {
            assert(projects_view(projects)[i].id < next);
        }
    }
}

impl Project {
    /// Decides well-formedness of a project and all its tasks.
    #[verifier::spinoff_prover]
    pub fn check_wf(&self) -> (r: bool)
        ensures
            r == self@.wf(),
    {
        let a = check_task_order(&self.tasks, self.next_task_id);
        let b = check_each_task(&self.tasks);
        proof {
            lemma_task_order_bridge(self.tasks@, self.next_task_id);
            assert(self@.id <= MAX_ID);
            assert(self@.next_task_id <= MAX_ID);
        }
        a && b
    }
}

fn check_project_order(projects: &Vec<Project>, next_project_id: u64) -> (r: bool)
    ensures
        r == ((forall|i: int, j: int|
            0 <= i < j < projects@.len() ==> projects@[i].id < projects@[j].id) && (forall|
            i: int,
        | 0 <= i < projects@.len() ==> (#[trigger] projects@[i]).id < next_project_id)),
{
    let n = projects.len();
    let mut k: usize = 0;
    while k < n
        invariant
            k <= n,
            n == projects@.len(),
            forall|q: int| 0 <= q < k ==> (#[trigger] projects@[q]).id < next_project_id,
            forall|a: int, b: int| 0 <= a < b < k ==> projects@[a].id < projects@[b].id,
        decreases n - k,
    {
        if projects[k].id >= next_project_id {
            return false;
        }
        if k > 0 && projects[k - 1].id >= projects[k].id {
            return false;
        }
        k = k + 1;
    }
    true
}

fn check_each_project(projects: &Vec<Project>) -> (r: bool)
    ensures
        r == (forall|i: int|
            0 <= i < projects@.len() ==> (#[trigger] projects_view(projects@)[i]).wf()),
{
    let n = projects.len();
    let mut k: usize = 0;
    while k < n
        invariant
            k <= n,
            n == projects@.len(),
            forall|q: int| 0 <= q < k ==> (#[trigger] projects_view(projects@)[q]).wf(),
        decreases n - k,
    {
        if !projects[k].check_wf() {
            proof {
                assert(!(projects_view(projects@)[k as int]).wf());
            }
            return false;
        }
        k = k + 1;
    }
    true
}

impl Database {
    /// Decides well-formedness of the whole document.
    #[verifier::spinoff_prover]
    pub fn check_wf(&self) -> (r: bool)
        ensures
            r == self@.wf(),
    {
        let a = check_project_order(&self.projects, self.next_project_id);
        let b = check_each_project(&self.projects);
        proof {
            lemma_project_order_bridge(self.projects@, self.next_project_id);
            assert(self@.next_project_id <= MAX_ID);
        }
        a && b
    }
}

// ---------------------------------------------------------------------------
// Identifier freshness and order
// ---------------------------------------------------------------------------

/// In a well-formed database every record id lies strictly below its
/// counter; since creation assigns the counter's value and then advances it,
/// and no operation ever decreases a counter, an id is never assigned twice.
pub proof fn lemma_ids_below_counters(db: DatabaseV)
    requires
        db.wf(),
    ensures
        forall|i: int| 0 <= i < db.projects.len() ==> db.projects[i].id < db.next_project_id,
        forall|i: int, j: int|
            0 <= i < db.projects.len() && 0 <= j < db.projects[i].tasks.len()
                ==> db.projects[i].tasks[j].id < db.projects[i].next_task_id,
{
    assert forall|i: int, j: int|
        0 <= i < db.projects.len() && 0 <= j < db.projects[i].tasks.len() implies db.projects[
        i].tasks[j].id < db.projects[i].next_task_id by {
        assert(db.projects[i].wf());
    }
}

/// The id the next project creation would assign is not carried by any
/// existing project.
pub proof fn lemma_created_project_id_fresh(db: DatabaseV)
    requires
        db.wf(),
    ensures
        forall|i: int|
            0 <= i < db.projects.len() ==> db.projects[i].id != db.next_project_id,
{
}

/// The id the next task creation would assign is not carried by any existing
/// task of the project.
pub proof fn lemma_created_task_id_fresh(p: ProjectV)
    requires
        p.wf(),
    ensures
        forall|i: int| 0 <= i < p.tasks.len() ==> p.tasks[i].id != p.next_task_id,
{
}

/// Record sequences of a well-formed database are strictly ascending by id.
pub proof fn lemma_wf_sequences_sorted(db: DatabaseV)
    requires
        db.wf(),
    ensures
        project_ids_sorted(db.projects),
        forall|i: int|
            0 <= i < db.projects.len() ==> task_ids_sorted(
                #[trigger] db.projects[i].tasks,
            ),
        forall|i: int, j: int|
            0 <= i < db.projects.len() && 0 <= j < db.projects[i].tasks.len()
                ==> strictly_sorted(db.projects[i].tasks[j].dependencies),
{
    assert forall|i: int|
        0 <= i < db.projects.len() implies task_ids_sorted(
        #[trigger] db.projects[i].tasks,
    ) by {
        assert(db.projects[i].wf());
    }
    assert forall|i: int, j: int|
        0 <= i < db.projects.len() && 0 <= j < db.projects[i].tasks.len() implies
        strictly_sorted(db.projects[i].tasks[j].dependencies) by {
        assert(db.projects[i].wf());
        assert(db.projects[i].tasks[j].wf());
    }
}

} // verus!

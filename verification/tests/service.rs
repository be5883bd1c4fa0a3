use btasks::codec::{flush_bytes, load_bytes};
use btasks::dispatch::{handle_request_at, Method, Reply};
use btasks::model::{Database, DependencyAction, TaskState, MAX_ID};

fn post(db: &mut Database, path: &str, body: &str, now: u64) -> Reply {
    handle_request_at(
        db,
        Method::Post,
        &path.as_bytes().to_vec(),
        &body.as_bytes().to_vec(),
        now,
    )
}

fn get(db: &mut Database, path: &str, body: &str) -> Reply {
    handle_request_at(
        db,
        Method::Get,
        &path.as_bytes().to_vec(),
        &body.as_bytes().to_vec(),
        0,
    )
}

fn text(r: &Reply) -> String {
    String::from_utf8(r.body.clone()).unwrap()
}

#[test]
fn create_project_and_list() {
    let mut db = Database::new();
    let r = post(&mut db, "/project/create", r#"{"name":"A","description":"d"}"#, 1);
    assert_eq!(r.status, 200);
    assert!(r.mutated);
    assert_eq!(text(&r), r#"{"project_id":0}"#);
    let l = get(&mut db, "/", "");
    assert_eq!(l.status, 200);
    assert_eq!(text(&l), r#"{"projects":[{"id":0,"name":"A"}]}"#);
}

#[test]
fn create_tasks_and_project_details() {
    let mut db = Database::new();
    post(&mut db, "/project/create", r#"{"name":"A","description":"d"}"#, 1);
    let r1 = post(
        &mut db,
        "/task/create",
        r#"{"project_id":0,"title":"t1","description":""}"#,
        2,
    );
    assert_eq!(text(&r1), r#"{"task_id":0}"#);
    let r2 = post(
        &mut db,
        "/task/create",
        r#"{"project_id":0,"title":"t2","description":""}"#,
        3,
    );
    assert_eq!(text(&r2), r#"{"task_id":1}"#);
    let d = get(&mut db, "/project", r#"{"project_id":0}"#);
    assert_eq!(d.status, 200);
    let expected = r#"{"description":"d","id":0,"name":"A","tasks":[{"id":0,"state":"Todo","title":"t1"},{"id":1,"state":"Todo","title":"t2"}]}"#;
    assert_eq!(text(&d), expected);
}

#[test]
fn state_change_logs_and_sets_state() {
    let mut db = Database::new();
    post(&mut db, "/project/create", r#"{"name":"A","description":"d"}"#, 1);
    post(
        &mut db,
        "/task/create",
        r#"{"project_id":0,"title":"t1","description":""}"#,
        2,
    );
    let s = post(
        &mut db,
        "/task/state",
        r#"{"project_id":0,"task_id":0,"new_state":"Done"}"#,
        5,
    );
    assert_eq!(s.status, 200);
    let t = get(&mut db, "/task", r#"{"project_id":0,"task_id":0}"#);
    let expected = r#"{"title":"t1","description":"","id":0,"log":[{"timestamp":5,"entry_type":{"StateChangedTo":"Done"}}],"state":"Done","dependencies":[]}"#;
    assert_eq!(text(&t), expected);
}

#[test]
fn deleted_task_id_is_not_reused() {
    let mut db = Database::new();
    post(&mut db, "/project/create", r#"{"name":"A","description":"d"}"#, 1);
    post(&mut db, "/task/create", r#"{"project_id":0,"title":"t1","description":""}"#, 2);
    post(&mut db, "/task/create", r#"{"project_id":0,"title":"t2","description":""}"#, 3);
    let d = post(&mut db, "/task/delete", r#"{"project_id":0,"task_id":0}"#, 4);
    assert_eq!(d.status, 200);
    let r = post(
        &mut db,
        "/task/create",
        r#"{"project_id":0,"title":"t3","description":""}"#,
        5,
    );
    assert_eq!(text(&r), r#"{"task_id":2}"#);
}

#[test]
fn dependency_add_is_idempotent_and_logs_nothing() {
    let mut db = Database::new();
    post(&mut db, "/project/create", r#"{"name":"A","description":"d"}"#, 1);
    post(&mut db, "/task/create", r#"{"project_id":0,"title":"t1","description":""}"#, 2);
    post(&mut db, "/task/create", r#"{"project_id":0,"title":"t2","description":""}"#, 3);
    let body = r#"{"project_id":0,"task_id":1,"dependency":2,"action":"Add"}"#;
    let a = post(&mut db, "/task/dependency", body, 4);
    assert_eq!(a.status, 200);
    let b = post(&mut db, "/task/dependency", body, 5);
    assert_eq!(b.status, 200);
    assert_eq!(db.projects[0].tasks[1].dependencies, vec![2]);
    assert_eq!(db.projects[0].tasks[1].log.len(), 0);
    let c = post(
        &mut db,
        "/task/dependency",
        r#"{"project_id":0,"task_id":1,"dependency":9,"action":"Remove"}"#,
        6,
    );
    assert_eq!(c.status, 200);
    assert_eq!(db.projects[0].tasks[1].dependencies, vec![2]);
}

#[test]
fn restart_keeps_the_project_list() {
    let mut db = Database::new();
    post(&mut db, "/project/create", r#"{"name":"A","description":"d"}"#, 1);
    post(&mut db, "/task/create", r#"{"project_id":0,"title":"t1","description":""}"#, 2);
    post(&mut db, "/project/create", r#"{"name":"B","description":"e"}"#, 3);
    let before = text(&get(&mut db, "/", ""));
    let bytes = flush_bytes(&db);
    let mut db2 = load_bytes(&bytes).expect("reload");
    let after = text(&get(&mut db2, "/", ""));
    assert_eq!(before, after);
    assert_eq!(db2.next_project_id, 2);
    assert_eq!(db2.projects[0].tasks[0].title, b"t1".to_vec());
}

#[test]
fn round_trip_of_rich_document() {
    let mut db = Database::new();
    post(
        &mut db,
        "/project/create",
        r#"{"name":"quotes \" and \\ and \n","description":"\u0001\t"}"#,
        1,
    );
    post(
        &mut db,
        "/task/create",
        r#"{"project_id":0,"title":"線","description":"x"}"#,
        2,
    );
    post(&mut db, "/task/comment", r#"{"project_id":0,"task_id":0,"comment":"c1"}"#, 3);
    post(
        &mut db,
        "/task/state",
        r#"{"project_id":0,"task_id":0,"new_state":"Blocked"}"#,
        4,
    );
    post(
        &mut db,
        "/task/dependency",
        r#"{"project_id":0,"task_id":0,"dependency":7,"action":"Add"}"#,
        5,
    );
    let bytes = flush_bytes(&db);
    let db2 = load_bytes(&bytes).expect("reload");
    assert_eq!(flush_bytes(&db2), bytes);
    assert_eq!(db2.projects[0].name, "quotes \" and \\ and \n".as_bytes().to_vec());
    assert_eq!(db2.projects[0].description, b"\x01\t".to_vec());
    assert_eq!(db2.projects[0].tasks[0].log.len(), 2);
    assert!(matches!(db2.projects[0].tasks[0].state, TaskState::Blocked));
}

#[test]
fn empty_database_round_trip() {
    let db = Database::new();
    let bytes = flush_bytes(&db);
    assert_eq!(
        String::from_utf8(bytes.clone()).unwrap(),
        r#"{"projects":[],"next_project_id":0}"#
    );
    let db2 = load_bytes(&bytes).expect("reload");
    assert_eq!(db2.projects.len(), 0);
    assert_eq!(db2.next_project_id, 0);
}

#[test]
fn corrupt_documents_are_rejected() {
    assert!(load_bytes(&b"not json".to_vec()).is_none());
    assert!(load_bytes(&b"".to_vec()).is_none());
    // trailing bytes after a valid document
    assert!(load_bytes(&br#"{"projects":[],"next_project_id":0} "#.to_vec()).is_none());
    // a document that parses but breaks the id invariant
    let bad = br#"{"projects":[{"name":"A","description":"","id":5,"tasks":[],"next_task_id":0}],"next_project_id":1}"#;
    assert!(load_bytes(&bad.to_vec()).is_none());
}

#[test]
fn missing_records_give_500_with_message() {
    let mut db = Database::new();
    let r = post(&mut db, "/project/delete", r#"{"project_id":3}"#, 1);
    assert_eq!(r.status, 500);
    assert_eq!(
        text(&r),
        r#"{"description":"Could not find project with ID: 3","status":500}"#
    );
    assert!(!r.mutated);
    post(&mut db, "/project/create", r#"{"name":"A","description":"d"}"#, 1);
    let t = post(&mut db, "/task/delete", r#"{"project_id":0,"task_id":9}"#, 2);
    assert_eq!(t.status, 500);
    assert_eq!(
        text(&t),
        r#"{"description":"Could not find task with ID: 9","status":500}"#
    );
}

#[test]
fn malformed_requests_give_500() {
    let mut db = Database::new();
    let r = post(&mut db, "/project/create", r#"{"name":"A"}"#, 1);
    assert_eq!(r.status, 500);
    assert_eq!(text(&r), r#"{"description":"Could not parse request","status":500}"#);
    let r2 = post(&mut db, "/project/create", "not json", 1);
    assert_eq!(r2.status, 500);
    assert!(!r2.mutated);
}

#[test]
fn unmatched_routes_give_404() {
    let mut db = Database::new();
    let r = get(&mut db, "/nope", "");
    assert_eq!(r.status, 404);
    assert_eq!(r.body.len(), 0);
    let r2 = post(&mut db, "/", "", 1);
    assert_eq!(r2.status, 404);
}

#[test]
fn project_rename_and_redescribe_overwrite() {
    let mut db = Database::new();
    post(&mut db, "/project/create", r#"{"name":"A","description":"d"}"#, 1);
    let r = post(&mut db, "/project/name", r#"{"project_id":0,"name":"B"}"#, 2);
    assert_eq!(text(&r), r#"{"description":"OK","status":200}"#);
    post(&mut db, "/project/description", r#"{"project_id":0,"description":"e"}"#, 3);
    assert_eq!(db.projects[0].name, b"B".to_vec());
    assert_eq!(db.projects[0].description, b"e".to_vec());
    let l = get(&mut db, "/", "");
    assert_eq!(text(&l), r#"{"projects":[{"id":0,"name":"B"}]}"#);
}

#[test]
fn task_edits_overwrite_fields_only() {
    let mut db = Database::new();
    post(&mut db, "/project/create", r#"{"name":"A","description":"d"}"#, 1);
    post(&mut db, "/task/create", r#"{"project_id":0,"title":"t1","description":""}"#, 2);
    post(&mut db, "/task/title", r#"{"project_id":0,"task_id":0,"title":"t9"}"#, 3);
    post(
        &mut db,
        "/task/description",
        r#"{"project_id":0,"task_id":0,"description":"long"}"#,
        4,
    );
    assert_eq!(db.projects[0].tasks[0].title, b"t9".to_vec());
    assert_eq!(db.projects[0].tasks[0].description, b"long".to_vec());
    assert_eq!(db.projects[0].tasks[0].log.len(), 0);
}

#[test]
fn ids_stay_below_counters_and_sorted() {
    let mut db = Database::new();
    for _ in 0..4 {
        post(&mut db, "/project/create", r#"{"name":"p","description":""}"#, 1);
    }
    post(&mut db, "/project/delete", r#"{"project_id":1}"#, 2);
    post(&mut db, "/project/create", r#"{"name":"q","description":""}"#, 3);
    assert_eq!(db.next_project_id, 5);
    let ids: Vec<u64> = db.projects.iter().map(|p| p.id).collect();
    assert_eq!(ids, vec![0, 2, 3, 4]);
    for p in &db.projects {
        assert!(p.id < db.next_project_id);
    }
}

#[test]
fn state_changes_follow_every_mutation_in_order() {
    let mut db = Database::new();
    post(&mut db, "/project/create", r#"{"name":"A","description":""}"#, 1);
    post(&mut db, "/task/create", r#"{"project_id":0,"title":"t","description":""}"#, 2);
    for (st, now) in [("InProgress", 3), ("Blocked", 4), ("Done", 5)] {
        let body = format!(
            r#"{{"project_id":0,"task_id":0,"new_state":"{}"}}"#,
            st
        );
        let r = post(&mut db, "/task/state", &body, now);
        assert_eq!(r.status, 200);
    }
    post(&mut db, "/task/comment", r#"{"project_id":0,"task_id":0,"comment":"c"}"#, 6);
    let task = &db.projects[0].tasks[0];
    assert!(matches!(task.state, TaskState::Done));
    assert_eq!(task.log.len(), 4);
    let timestamps: Vec<u64> = task.log.iter().map(|e| e.timestamp).collect();
    assert_eq!(timestamps, vec![3, 4, 5, 6]);
}

#[test]
fn exhausted_id_counter_is_reported() {
    let mut db = Database::new();
    db.next_project_id = MAX_ID;
    let r = post(&mut db, "/project/create", r#"{"name":"A","description":""}"#, 1);
    assert_eq!(r.status, 500);
    assert_eq!(text(&r), r#"{"description":"No identifier left","status":500}"#);
    assert!(!r.mutated);
}

#[test]
fn direct_ops_mirror_the_handlers() {
    let mut db = Database::new();
    let pid = db.create_project(b"A".to_vec(), b"d".to_vec()).unwrap();
    assert_eq!(pid, 0);
    let tid = db.create_task(0, b"t".to_vec(), b"".to_vec()).unwrap();
    assert_eq!(tid, 0);
    db.set_task_state(0, 0, TaskState::Cancelled, 9).unwrap();
    db.task_dependency(0, 0, 4, DependencyAction::Add).unwrap();
    db.task_dependency(0, 0, 1, DependencyAction::Add).unwrap();
    assert_eq!(db.projects[0].tasks[0].dependencies, vec![1, 4]);
    db.task_dependency(0, 0, 4, DependencyAction::Remove).unwrap();
    assert_eq!(db.projects[0].tasks[0].dependencies, vec![1]);
    assert!(db.check_wf());
}

#[test]
fn clock_running_backwards_keeps_log_ordered() {
    let mut db = Database::new();
    post(&mut db, "/project/create", r#"{"name":"A","description":""}"#, 1);
    post(&mut db, "/task/create", r#"{"project_id":0,"title":"t","description":""}"#, 2);
    post(&mut db, "/task/comment", r#"{"project_id":0,"task_id":0,"comment":"a"}"#, 10);
    post(&mut db, "/task/comment", r#"{"project_id":0,"task_id":0,"comment":"b"}"#, 4);
    let timestamps: Vec<u64> = db.projects[0].tasks[0].log.iter().map(|e| e.timestamp).collect();
    assert_eq!(timestamps, vec![10, 10]);
    assert!(db.check_wf());
}

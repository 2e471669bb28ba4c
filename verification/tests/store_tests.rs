use do_tasks::store::{
    add_task, database_connection, list_all_tasks, list_tasks, mark_done, mark_undone,
    memory_connection, remove_task, Filter, Task, TaskError,
};

fn ids(tasks: &Vec<Task>) -> Vec<i64> {
    tasks.iter().map(|t| t.id).collect()
}

#[test]
fn add_then_list_all_shows_new_task() {
    let mut conn = memory_connection().unwrap();
    let id1 = add_task(&mut conn, &"Buy milk".to_string(), &"05-03-2024".to_string()).unwrap();
    let id2 = add_task(&mut conn, &"Pay rent".to_string(), &"10-07-2025".to_string()).unwrap();
    assert_ne!(id1, id2);
    let all = list_all_tasks(&conn).unwrap();
    assert_eq!(all.len(), 2);
    let hits: Vec<&Task> = all.iter().filter(|t| t.id == id2).collect();
    assert_eq!(hits.len(), 1);
    assert_eq!(hits[0].name, "Pay rent");
    assert_eq!(hits[0].date, "10-07-2025");
    assert!(!hits[0].is_done);
}

#[test]
fn ids_grow_and_are_never_reused() {
    let mut conn = memory_connection().unwrap();
    let id1 = add_task(&mut conn, &"a".to_string(), &"01-01-2024".to_string()).unwrap();
    let id2 = add_task(&mut conn, &"b".to_string(), &"01-01-2024".to_string()).unwrap();
    assert!(id2 > id1);
    remove_task(&mut conn, id2).unwrap();
    let id3 = add_task(&mut conn, &"c".to_string(), &"01-01-2024".to_string()).unwrap();
    assert!(id3 > id2);
}

#[test]
fn done_then_list_done_includes_id() {
    let mut conn = memory_connection().unwrap();
    let id1 = add_task(&mut conn, &"a".to_string(), &"01-01-2024".to_string()).unwrap();
    let id2 = add_task(&mut conn, &"b".to_string(), &"01-01-2024".to_string()).unwrap();
    mark_done(&mut conn, id1).unwrap();
    let done = list_tasks(&conn, Filter::Done).unwrap();
    let not_done = list_tasks(&conn, Filter::NotDone).unwrap();
    assert!(ids(&done).contains(&id1));
    assert!(!ids(&not_done).contains(&id1));
    assert!(ids(&not_done).contains(&id2));
    mark_undone(&mut conn, id1).unwrap();
    let done = list_tasks(&conn, Filter::Done).unwrap();
    let not_done = list_tasks(&conn, Filter::NotDone).unwrap();
    assert!(!ids(&done).contains(&id1));
    assert!(ids(&not_done).contains(&id1));
}

#[test]
fn removed_id_never_listed_again() {
    let mut conn = memory_connection().unwrap();
    let id1 = add_task(&mut conn, &"a".to_string(), &"01-01-2024".to_string()).unwrap();
    let id2 = add_task(&mut conn, &"b".to_string(), &"02-01-2024".to_string()).unwrap();
    mark_done(&mut conn, id1).unwrap();
    remove_task(&mut conn, id1).unwrap();
    for f in [Filter::All, Filter::Done, Filter::NotDone] {
        assert!(!ids(&list_tasks(&conn, f).unwrap()).contains(&id1));
    }
    // Removing an id that is long gone neither errors nor touches other rows.
    remove_task(&mut conn, id1).unwrap();
    let all = list_all_tasks(&conn).unwrap();
    assert_eq!(ids(&all), vec![id2]);
    assert_eq!(all[0].name, "b");
    assert_eq!(all[0].date, "02-01-2024");
}

#[test]
fn mark_on_missing_id_is_a_noop_success() {
    let mut conn = memory_connection().unwrap();
    let id1 = add_task(&mut conn, &"a".to_string(), &"01-01-2024".to_string()).unwrap();
    assert_eq!(mark_done(&mut conn, id1 + 41), Ok(()));
    let all = list_all_tasks(&conn).unwrap();
    assert_eq!(all.len(), 1);
    assert!(!all[0].is_done);
}

#[test]
fn done_and_not_done_partition_all() {
    let mut conn = memory_connection().unwrap();
    for (n, d) in [("a", false), ("b", true), ("c", true), ("d", false)] {
        let id = add_task(&mut conn, &n.to_string(), &"01-01-2024".to_string()).unwrap();
        if d {
            mark_done(&mut conn, id).unwrap();
        }
    }
    let mut done = ids(&list_tasks(&conn, Filter::Done).unwrap());
    let not_done = ids(&list_tasks(&conn, Filter::NotDone).unwrap());
    let mut all = ids(&list_tasks(&conn, Filter::All).unwrap());
    for id in &done {
        assert!(!not_done.contains(id));
    }
    done.extend(not_done.iter());
    done.sort();
    all.sort();
    assert_eq!(done, all);
}

#[test]
fn empty_name_is_stored_verbatim() {
    let mut conn = memory_connection().unwrap();
    let id = add_task(&mut conn, &"".to_string(), &"01-01-2024".to_string()).unwrap();
    let all = list_all_tasks(&conn).unwrap();
    assert_eq!(ids(&all), vec![id]);
    assert_eq!(all[0].name, "");
}

#[test]
fn file_store_reopens_and_keeps_rows() {
    let path = "/tmp/do_tasks_reopen_test.db".to_string();
    let mut c1 = database_connection(&path).unwrap();
    let id = add_task(&mut c1, &"persisted".to_string(), &"05-03-2024".to_string()).unwrap();
    drop(c1);
    // The second open finds a pre-existing task table whose recorded schema
    // must match the one this library writes.
    let mut c2 = database_connection(&path).unwrap();
    let all = list_all_tasks(&c2).unwrap();
    assert!(all.iter().any(|t| t.id == id && t.name == "persisted"));
    remove_task(&mut c2, id).unwrap();
}

#[test]
fn foreign_task_schema_is_refused() {
    let path = "/tmp/do_tasks_foreign_schema_test.db".to_string();
    // On the first run this swaps the library's schema for a foreign one; on
    // later runs the foreign table is already in place and the open fails.
    if let Ok(conn) = database_connection(&path) {
        conn.execute("DROP TABLE task", ()).unwrap();
        conn.execute("CREATE TABLE task (id INTEGER, name TEXT)", ()).unwrap();
    }
    assert_eq!(database_connection(&path).err(), Some(TaskError::StorageUnavailable));
}

#[test]
fn tampered_sequence_is_refused() {
    let path = "/tmp/do_tasks_tampered_seq_test.db".to_string();
    // On the first run this lowers the sequence below an assigned id; on
    // later runs the tampered file is already in place and the open fails.
    if let Ok(mut conn) = database_connection(&path) {
        add_task(&mut conn, &"a".to_string(), &"01-01-2024".to_string()).unwrap();
        conn.execute("UPDATE sqlite_sequence SET seq = 0 WHERE name = 'task'", ()).unwrap();
    }
    assert_eq!(database_connection(&path).err(), Some(TaskError::StorageUnavailable));
}

#[test]
fn unopenable_path_reports_storage_unavailable() {
    let path = "/no/such/directory/anywhere/do_database.db".to_string();
    assert_eq!(database_connection(&path).err(), Some(TaskError::StorageUnavailable));
}

#[test]
fn failing_statements_report_storage_error() {
    let mut conn = memory_connection().unwrap();
    conn.execute("DROP TABLE task", ()).unwrap();
    assert_eq!(
        add_task(&mut conn, &"a".to_string(), &"01-01-2024".to_string()),
        Err(TaskError::StorageError)
    );
    assert_eq!(list_all_tasks(&conn).err(), Some(TaskError::StorageError));
    assert_eq!(mark_done(&mut conn, 1), Err(TaskError::StorageError));
    assert_eq!(remove_task(&mut conn, 1), Err(TaskError::StorageError));
}

#[test]
fn listing_keeps_insertion_order() {
    let mut conn = memory_connection().unwrap();
    for n in ["first", "second", "third"] {
        add_task(&mut conn, &n.to_string(), &"01-01-2024".to_string()).unwrap();
    }
    let all = list_all_tasks(&conn).unwrap();
    let names: Vec<&str> = all.iter().map(|t| t.name.as_str()).collect();
    assert_eq!(names, vec!["first", "second", "third"]);
}

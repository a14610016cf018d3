use task_tracker::task::crud::{
    add_task, add_task_at, change_status_task, change_status_task_at, delete_task, find_task,
    load_tasks, update_task, Status, Task,
};

const NOW: &str = "2025-10-19 12:00:00";

/// A store in memory: the task document and the counter file's content.
struct Store {
    tasks: Vec<Task>,
    counter: Option<String>,
}

fn empty_store() -> Store {
    Store { tasks: load_tasks(None), counter: None }
}

fn add(store: &mut Store, title: &str, description: &str) -> u32 {
    let issued = add_task_at(&mut store.tasks, store.counter.as_deref(), title, description, NOW);
    store.counter = Some(issued.text);
    issued.id
}

fn is_timestamp(text: &str) -> bool {
    let chars: Vec<char> = text.chars().collect();
    let n = chars.len();
    if n < 19 {
        return false;
    }
    let tail = &chars[n - 15..];
    let shape = "-dd-dd dd:dd:dd";
    tail.iter().zip(shape.chars()).all(|(c, s)| if s == 'd' { c.is_ascii_digit() } else { *c == s })
}

#[test]
fn test_add_task() {
    let mut store = empty_store();
    add(&mut store, "Comprar leche", "Tienda");
    add(&mut store, "Estudiar Rust", "Tests");

    let tasks = &store.tasks;
    assert_eq!(tasks.len(), 2);
    assert_eq!(tasks[0].id, 1);
    assert_eq!(tasks[1].id, 2);
    assert_eq!(tasks[0].title, "Comprar leche");
}

#[test]
fn test_update_task() {
    let mut store = empty_store();
    add(&mut store, "Título Antiguo", "Desc Antigua");

    let new_title = Some("Título Nuevo".to_string());
    update_task(&mut store.tasks, 1, &new_title, &None);
    assert_eq!(store.tasks[0].title, "Título Nuevo");

    let new_desc = Some("Desc Nueva".to_string());
    update_task(&mut store.tasks, 1, &None, &new_desc);
    assert_eq!(store.tasks[0].description, "Desc Nueva");
}

#[test]
fn test_delete_task_success() {
    let mut store = empty_store();
    add(&mut store, "T1", "D1");
    add(&mut store, "T2", "D2");

    assert!(delete_task(&mut store.tasks, 1));

    assert_eq!(store.tasks.len(), 1);
    assert_eq!(store.tasks[0].id, 2);
}

#[test]
fn test_delete_task_not_found() {
    let mut store = empty_store();
    add(&mut store, "T1", "D1");

    assert!(!delete_task(&mut store.tasks, 99));

    assert_eq!(store.tasks.len(), 1);
}

#[test]
fn test_change_status_task_to_completed() {
    let mut store = empty_store();
    add(&mut store, "T1", "D1");

    assert!(change_status_task(&mut store.tasks, 1, "hecha"));

    assert_eq!(Status::parse(&store.tasks[0].status), Some(Status::Done));
    assert!(!store.tasks[0].f_end.is_empty());
}

#[test]
fn added_task_is_pending_and_not_ended() {
    let mut store = empty_store();
    let id = add(&mut store, "Comprar leche", "Tienda");
    assert_eq!(id, 1);
    assert_eq!(
        store.tasks,
        vec![Task {
            id: 1,
            title: "Comprar leche".to_string(),
            description: "Tienda".to_string(),
            f_start: NOW.to_string(),
            f_end: String::new(),
            status: "Pendiente".to_string(),
        }]
    );
    assert_eq!(Status::parse(&store.tasks[0].status), Some(Status::Pending));
}

#[test]
fn add_reports_what_the_counter_file_must_hold() {
    let mut tasks = Vec::new();
    let first = add_task_at(&mut tasks, None, "a", "b", NOW);
    assert_eq!(first.created, Some("0".to_string()));
    assert_eq!(first.id, 1);
    assert_eq!(first.text, "1");
    let second = add_task_at(&mut tasks, Some("1"), "c", "d", NOW);
    assert_eq!(second.created, None);
    assert_eq!(second.id, 2);
    assert_eq!(second.text, "2");
    let resumed = add_task_at(&mut tasks, Some(" 41\n"), "e", "f", NOW);
    assert_eq!(resumed.id, 42);
    assert_eq!(resumed.text, "42");
    assert_eq!(tasks.len(), 3);
    assert_eq!(tasks[2].id, 42);
}

#[test]
fn additions_number_tasks_in_insertion_order() {
    let mut store = empty_store();
    for n in 1..=25u32 {
        let id = add(&mut store, &format!("t{}", n), &format!("d{}", n));
        assert_eq!(id, n);
    }
    assert_eq!(store.tasks.len(), 25);
    for (i, task) in store.tasks.iter().enumerate() {
        assert_eq!(task.id as usize, i + 1);
        assert_eq!(task.title, format!("t{}", i + 1));
        assert_eq!(task.description, format!("d{}", i + 1));
    }
    assert_eq!(store.counter, Some("25".to_string()));
}

#[test]
fn identifier_of_a_deleted_task_is_not_issued_again() {
    let mut store = empty_store();
    add(&mut store, "T1", "D1");
    add(&mut store, "T2", "D2");
    assert!(delete_task(&mut store.tasks, 2));
    let id = add(&mut store, "T3", "D3");
    assert_eq!(id, 3);
    let ids: Vec<u32> = store.tasks.iter().map(|t| t.id).collect();
    assert_eq!(ids, vec![1, 3]);
}

#[test]
fn add_task_stamps_the_start_from_the_clock() {
    let mut tasks = Vec::new();
    let issued = add_task(&mut tasks, None, "Comprar leche", "Tienda");
    assert_eq!(issued.id, 1);
    assert_eq!(issued.text, "1");
    assert_eq!(tasks.len(), 1);
    assert_eq!(tasks[0].id, 1);
    assert_eq!(tasks[0].title, "Comprar leche");
    assert_eq!(tasks[0].description, "Tienda");
    assert_eq!(tasks[0].status, "Pendiente");
    assert_eq!(tasks[0].f_end, "");
    assert!(is_timestamp(&tasks[0].f_start), "{}", tasks[0].f_start);
    assert_eq!(tasks[0].f_start.len(), 19);
}

#[test]
fn update_of_title_alone_leaves_the_rest() {
    let mut store = empty_store();
    add(&mut store, "T1", "D1");
    add(&mut store, "T2", "D2");
    let before = store.tasks.clone();

    assert!(update_task(&mut store.tasks, 2, &Some("Nuevo".to_string()), &None));
    assert_eq!(store.tasks[0], before[0]);
    assert_eq!(store.tasks[1], Task { title: "Nuevo".to_string(), ..before[1].clone() });
}

#[test]
fn update_of_description_alone_leaves_the_rest() {
    let mut store = empty_store();
    add(&mut store, "T1", "D1");
    add(&mut store, "T2", "D2");
    let before = store.tasks.clone();

    assert!(update_task(&mut store.tasks, 1, &None, &Some("Otra".to_string())));
    assert_eq!(store.tasks[0], Task { description: "Otra".to_string(), ..before[0].clone() });
    assert_eq!(store.tasks[1], before[1]);
}

#[test]
fn update_of_both_fields() {
    let mut store = empty_store();
    add(&mut store, "T1", "D1");
    let before = store.tasks.clone();
    let found = update_task(
        &mut store.tasks,
        1,
        &Some("Nuevo".to_string()),
        &Some("Otra".to_string()),
    );
    assert!(found);
    assert_eq!(
        store.tasks[0],
        Task { title: "Nuevo".to_string(), description: "Otra".to_string(), ..before[0].clone() }
    );
}

#[test]
fn update_without_fields_finds_the_task_and_changes_nothing() {
    let mut store = empty_store();
    add(&mut store, "T1", "D1");
    let before = store.tasks.clone();
    assert!(update_task(&mut store.tasks, 1, &None, &None));
    assert_eq!(store.tasks, before);
}

#[test]
fn update_of_a_missing_task_changes_nothing() {
    let mut store = empty_store();
    add(&mut store, "T1", "D1");
    let before = store.tasks.clone();
    assert!(!update_task(&mut store.tasks, 7, &Some("Nuevo".to_string()), &None));
    assert_eq!(store.tasks, before);
}

#[test]
fn update_changes_the_first_task_with_the_identifier() {
    let mut tasks = Vec::new();
    add_task_at(&mut tasks, Some("4"), "uno", "d", NOW);
    add_task_at(&mut tasks, Some("4"), "dos", "d", NOW);
    assert_eq!(find_task(&tasks, 5), Some(0));
    assert!(update_task(&mut tasks, 5, &Some("tres".to_string()), &None));
    assert_eq!(tasks[0].title, "tres");
    assert_eq!(tasks[1].title, "dos");
}

#[test]
fn delete_removes_exactly_one_task() {
    let mut store = empty_store();
    add(&mut store, "T1", "D1");
    add(&mut store, "T2", "D2");
    add(&mut store, "T3", "D3");
    let before = store.tasks.clone();

    assert!(delete_task(&mut store.tasks, 2));
    assert_eq!(store.tasks, vec![before[0].clone(), before[2].clone()]);
}

#[test]
fn delete_of_a_missing_task_changes_nothing() {
    let mut store = empty_store();
    add(&mut store, "T1", "D1");
    add(&mut store, "T2", "D2");
    let before = store.tasks.clone();
    assert!(!delete_task(&mut store.tasks, 0));
    assert_eq!(store.tasks, before);

    let mut none: Vec<Task> = Vec::new();
    assert!(!delete_task(&mut none, 1));
    assert!(none.is_empty());
}

#[test]
fn delete_removes_every_task_with_the_identifier() {
    let mut tasks = Vec::new();
    add_task_at(&mut tasks, Some("4"), "uno", "d", NOW);
    add_task_at(&mut tasks, Some("1"), "dos", "d", NOW);
    add_task_at(&mut tasks, Some("4"), "tres", "d", NOW);
    add_task_at(&mut tasks, Some("4"), "cuatro", "d", NOW);
    assert!(delete_task(&mut tasks, 5));
    assert_eq!(tasks.len(), 1);
    assert_eq!(tasks[0].title, "dos");
}

#[test]
fn done_stamps_the_end_time() {
    for word in ["hecha", "HECHA", "Hecha", "completada", "Completada", "COMPLETADA"] {
        let mut store = empty_store();
        add(&mut store, "T1", "D1");
        add(&mut store, "T2", "D2");
        let before = store.tasks.clone();
        assert!(change_status_task_at(&mut store.tasks, 2, word, "2025-10-20 08:30:00"));
        assert_eq!(store.tasks[0], before[0]);
        assert_eq!(
            store.tasks[1],
            Task {
                status: word.to_string(),
                f_end: "2025-10-20 08:30:00".to_string(),
                ..before[1].clone()
            }
        );
    }
}

#[test]
fn other_status_leaves_the_end_time() {
    let mut store = empty_store();
    add(&mut store, "T1", "D1");
    assert!(change_status_task_at(&mut store.tasks, 1, "Adelantando", "2025-10-20 08:30:00"));
    assert_eq!(store.tasks[0].status, "Adelantando");
    assert_eq!(store.tasks[0].f_end, "");

    assert!(change_status_task_at(&mut store.tasks, 1, "hecha", "2025-10-21 09:00:00"));
    assert_eq!(store.tasks[0].f_end, "2025-10-21 09:00:00");

    assert!(change_status_task_at(&mut store.tasks, 1, "PENDIENTE", "2025-10-22 10:00:00"));
    assert_eq!(store.tasks[0].status, "PENDIENTE");
    assert_eq!(store.tasks[0].f_end, "2025-10-21 09:00:00");

    assert!(change_status_task(&mut store.tasks, 1, "adelantando"));
    assert_eq!(store.tasks[0].status, "adelantando");
    assert_eq!(store.tasks[0].f_end, "2025-10-21 09:00:00");
}

#[test]
fn unknown_status_or_missing_task_changes_nothing() {
    let mut store = empty_store();
    add(&mut store, "T1", "D1");
    let before = store.tasks.clone();
    for word in ["", "done", "hecho", "pendiente ", "completadas", "inprogress"] {
        assert!(!change_status_task_at(&mut store.tasks, 1, word, NOW));
        assert!(!change_status_task(&mut store.tasks, 1, word));
        assert_eq!(store.tasks, before);
    }
    assert!(!change_status_task_at(&mut store.tasks, 2, "hecha", NOW));
    assert!(!change_status_task(&mut store.tasks, 2, "hecha"));
    assert_eq!(store.tasks, before);
}

#[test]
fn change_status_task_stamps_the_end_from_the_clock() {
    let mut store = empty_store();
    add(&mut store, "T1", "D1");
    assert!(change_status_task(&mut store.tasks, 1, "Completada"));
    assert_eq!(store.tasks[0].status, "Completada");
    assert!(is_timestamp(&store.tasks[0].f_end), "{}", store.tasks[0].f_end);
    assert_eq!(store.tasks[0].f_start, NOW);
}

#[test]
fn status_words() {
    assert_eq!(Status::parse("pendiente"), Some(Status::Pending));
    assert_eq!(Status::parse("Pendiente"), Some(Status::Pending));
    assert_eq!(Status::parse("adelantando"), Some(Status::InProgress));
    assert_eq!(Status::parse("ADELANTANDO"), Some(Status::InProgress));
    assert_eq!(Status::parse("completada"), Some(Status::Done));
    assert_eq!(Status::parse("hEcHa"), Some(Status::Done));
    assert_eq!(Status::parse(""), None);
    assert_eq!(Status::parse(" hecha"), None);
    assert_eq!(Status::parse("hech\u{e1}"), None);
    assert_eq!(Status::parse("pend\u{130}ente"), None);
}

#[test]
fn find_task_gives_the_position() {
    let mut store = empty_store();
    add(&mut store, "T1", "D1");
    add(&mut store, "T2", "D2");
    assert_eq!(find_task(&store.tasks, 1), Some(0));
    assert_eq!(find_task(&store.tasks, 2), Some(1));
    assert_eq!(find_task(&store.tasks, 3), None);
    assert_eq!(find_task(&Vec::new(), 1), None);
}

#[test]
fn missing_or_corrupt_document_loads_as_empty() {
    assert!(load_tasks(None).is_empty());
}

#[test]
fn decoded_document_loads_as_it_is() {
    let mut store = empty_store();
    add(&mut store, "T1", "D1");
    add(&mut store, "T2", "D2");
    let decoded = store.tasks.clone();
    assert_eq!(load_tasks(Some(decoded.clone())), decoded);
    assert!(load_tasks(Some(Vec::new())).is_empty());
}

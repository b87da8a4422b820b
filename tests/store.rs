use todo_cli::{decode_text, encode_text, StoreError, Task, TodoList};

fn abc() -> TodoList {
    let mut list = TodoList::new(String::from("todo.txt"));
    list.add(String::from("A"));
    list.add(String::from("B"));
    list.add(String::from("C"));
    list
}

fn row(index: usize, completed: bool, description: &str) -> (usize, bool, String) {
    (index, completed, String::from(description))
}

#[test]
fn add_to_empty_store_lists_one_task() {
    let mut list = TodoList::new(String::from("todo.txt"));
    list.add(String::from("Buy milk"));
    assert_eq!(list.list(), vec![row(1, false, "Buy milk")]);
}

#[test]
fn complete_marks_only_the_chosen_task() {
    let mut list = abc();
    assert_eq!(list.complete(1), Ok(()));
    assert_eq!(
        list.list(),
        vec![row(1, false, "A"), row(2, true, "B"), row(3, false, "C")]
    );
}

#[test]
fn delete_first_keeps_the_others_in_order() {
    let mut list = abc();
    let removed = list.delete(0).unwrap();
    assert_eq!(removed.description, "A");
    assert!(!removed.completed);
    assert_eq!(list.list(), vec![row(1, false, "B"), row(2, false, "C")]);
}

#[test]
fn delete_last_and_middle() {
    let mut list = abc();
    assert_eq!(list.delete(2).unwrap().description, "C");
    assert_eq!(list.delete(0).unwrap().description, "A");
    assert_eq!(list.list(), vec![row(1, false, "B")]);
    assert_eq!(list.len(), 1);
}

#[test]
fn complete_out_of_range_is_not_found() {
    let mut list = abc();
    assert_eq!(list.complete(3), Err(StoreError::NotFound));
    assert_eq!(list.complete(usize::MAX), Err(StoreError::NotFound));
    assert_eq!(
        list.list(),
        vec![row(1, false, "A"), row(2, false, "B"), row(3, false, "C")]
    );
}

#[test]
fn delete_out_of_range_is_not_found() {
    let mut list = abc();
    assert!(matches!(list.delete(3), Err(StoreError::NotFound)));
    assert_eq!(list.len(), 3);
}

#[test]
fn operations_on_empty_store_are_not_found() {
    let mut list = TodoList::new(String::from("todo.txt"));
    assert_eq!(list.complete(0), Err(StoreError::NotFound));
    assert!(matches!(list.delete(0), Err(StoreError::NotFound)));
    assert_eq!(list.len(), 0);
    assert!(list.list().is_empty());
}

#[test]
fn complete_twice_stays_completed() {
    let mut list = abc();
    assert_eq!(list.complete(2), Ok(()));
    assert_eq!(list.complete(2), Ok(()));
    assert_eq!(
        list.list(),
        vec![row(1, false, "A"), row(2, false, "B"), row(3, true, "C")]
    );
}

#[test]
fn new_keeps_the_path() {
    let list = TodoList::new(String::from("data/tasks.txt"));
    assert_eq!(list.file_path(), "data/tasks.txt");
    assert_eq!(list.len(), 0);
}

#[test]
fn save_text_writes_one_line_per_task() {
    let mut list = abc();
    list.complete(1).unwrap();
    assert_eq!(
        list.save_text(),
        "A::completedfalse\nB::completedtrue\nC::completedfalse\n"
    );
}

#[test]
fn save_text_of_empty_store_is_empty() {
    let list = TodoList::new(String::from("todo.txt"));
    assert_eq!(list.save_text(), "");
}

#[test]
fn save_then_load_round_trip() {
    let mut list = abc();
    list.add(String::from("Écrire à Zoë: «ça va?»"));
    list.add(String::new());
    list.complete(0).unwrap();
    list.complete(3).unwrap();
    let text = list.save_text();
    let mut again = TodoList::new(String::from("todo.txt"));
    assert_eq!(again.load_text(&text), Ok(()));
    assert_eq!(again.list(), list.list());
}

#[test]
fn load_skips_blank_lines() {
    let mut list = TodoList::new(String::from("todo.txt"));
    let text = "A::completedtrue\n\n   \t\nB::completedfalse\n\u{3000}\nC::completedtrue";
    assert_eq!(list.load_text(text), Ok(()));
    assert_eq!(
        list.list(),
        vec![row(1, true, "A"), row(2, false, "B"), row(3, true, "C")]
    );
}

#[test]
fn load_accepts_crlf_line_endings() {
    let mut list = TodoList::new(String::from("todo.txt"));
    assert_eq!(list.load_text("A::completedtrue\r\nB::completedfalse\r\n"), Ok(()));
    assert_eq!(list.list(), vec![row(1, true, "A"), row(2, false, "B")]);
}

#[test]
fn load_appends_to_existing_tasks() {
    let mut list = TodoList::new(String::from("todo.txt"));
    list.add(String::from("first"));
    assert_eq!(list.load_text("second::completedtrue\n"), Ok(()));
    assert_eq!(list.list(), vec![row(1, false, "first"), row(2, true, "second")]);
}

#[test]
fn load_line_without_delimiter_is_parse_error() {
    let mut list = TodoList::new(String::from("todo.txt"));
    list.add(String::from("kept"));
    assert_eq!(
        list.load_text("A::completedtrue\nno marker here\n"),
        Err(StoreError::Parse)
    );
    assert_eq!(list.list(), vec![row(1, false, "kept")]);
}

#[test]
fn load_marker_other_than_true_is_not_completed() {
    let mut list = TodoList::new(String::from("todo.txt"));
    assert_eq!(list.load_text("A::completedTRUE\nB::completed\nC::completedtrue \n"), Ok(()));
    assert_eq!(
        list.list(),
        vec![row(1, false, "A"), row(2, false, "B"), row(3, false, "C")]
    );
}

#[test]
fn description_holding_the_delimiter_is_cut_on_reload() {
    let mut list = TodoList::new(String::from("todo.txt"));
    list.add(String::from("x::completedtrue"));
    let text = list.save_text();
    assert_eq!(text, "x::completedtrue::completedfalse\n");
    let mut again = TodoList::new(String::from("todo.txt"));
    assert_eq!(again.load_text(&text), Ok(()));
    assert_eq!(again.list(), vec![row(1, true, "x")]);
}

#[test]
fn decode_and_encode_free_functions() {
    let tasks = decode_text("one::completedfalse\ntwo::completedtrue\n").unwrap();
    assert_eq!(tasks.len(), 2);
    assert_eq!(tasks[1].description, "two");
    assert!(tasks[1].completed);
    assert_eq!(encode_text(&tasks), "one::completedfalse\ntwo::completedtrue\n");
    assert!(decode_text("bad\n").is_none());
    assert_eq!(decode_text("").unwrap().len(), 0);
    assert_eq!(decode_text("\n\n").unwrap().len(), 0);
}

#[test]
fn task_new_holds_its_fields() {
    let task = Task::new(String::from("Walk"), true);
    assert_eq!(task.description, "Walk");
    assert!(task.completed);
}

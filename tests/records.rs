use std::collections::HashMap;
use todo_store::records::{
    get_visible_todo, insert_todo, list_visible_todos, mark_todo_deleted, update_todo_text,
};
use todo_store::todo::Todo;

#[test]
fn test_insert_and_get() {
    let mut map = HashMap::new();
    insert_todo(&mut map, 1, "hello".into());
    let todo = get_visible_todo(&map, 1).unwrap();
    assert_eq!(todo.text, "hello");
    assert!(!todo.deleted);
}

#[test]
fn test_soft_delete() {
    let mut map = HashMap::new();
    insert_todo(&mut map, 2, "delete me".into());
    assert!(mark_todo_deleted(&mut map, 2));
    assert!(get_visible_todo(&map, 2).is_none());
}

#[test]
fn test_update_text() {
    let mut map = HashMap::new();
    insert_todo(&mut map, 3, "initial".into());
    assert!(update_todo_text(&mut map, 3, "updated".into()));
    assert_eq!(map.get(&3).unwrap().text, "updated");
}

#[test]
fn test_list_with_pagination() {
    let mut map = HashMap::new();
    for id in 1..=5 {
        insert_todo(&mut map, id, format!("todo {id}"));
    }

    let first_2 = list_visible_todos(&map, None, 2);
    assert_eq!(first_2.len(), 2);
    assert_eq!(first_2[0].id, 1);
    assert_eq!(first_2[1].id, 2);

    let after_2 = list_visible_todos(&map, Some(2), 2);
    assert_eq!(after_2[0].id, 3);
}

#[test]
fn get_missing_id_is_none() {
    let map: HashMap<u64, Todo> = HashMap::new();
    assert!(get_visible_todo(&map, 7).is_none());
}

#[test]
fn get_returns_a_copy_of_the_record() {
    let mut map = HashMap::new();
    insert_todo(&mut map, 9, "nine".into());
    let t = get_visible_todo(&map, 9).unwrap();
    assert_eq!(t, Todo { id: 9, text: "nine".to_string(), deleted: false });
}

#[test]
fn update_of_deleted_record_fails_and_keeps_text() {
    let mut map = HashMap::new();
    insert_todo(&mut map, 4, "keep".into());
    assert!(mark_todo_deleted(&mut map, 4));
    assert!(!update_todo_text(&mut map, 4, "changed".into()));
    assert_eq!(map.get(&4).unwrap().text, "keep");
    assert!(map.get(&4).unwrap().deleted);
}

#[test]
fn update_of_missing_record_fails() {
    let mut map: HashMap<u64, Todo> = HashMap::new();
    assert!(!update_todo_text(&mut map, 1, "x".into()));
    assert!(map.is_empty());
}

#[test]
fn delete_twice_succeeds_twice() {
    let mut map = HashMap::new();
    insert_todo(&mut map, 5, "x".into());
    assert!(mark_todo_deleted(&mut map, 5));
    assert!(mark_todo_deleted(&mut map, 5));
    assert!(map.get(&5).unwrap().deleted);
    assert_eq!(map.get(&5).unwrap().text, "x");
}

#[test]
fn delete_of_missing_record_fails() {
    let mut map: HashMap<u64, Todo> = HashMap::new();
    assert!(!mark_todo_deleted(&mut map, 3));
    assert!(map.is_empty());
}

#[test]
fn list_skips_deleted_and_sorts_by_id() {
    let mut map = HashMap::new();
    for id in [7u64, 3, 9, 1, 5] {
        insert_todo(&mut map, id, format!("t{id}"));
    }
    assert!(mark_todo_deleted(&mut map, 5));
    let all = list_visible_todos(&map, None, 10);
    let ids: Vec<u64> = all.iter().map(|t| t.id).collect();
    assert_eq!(ids, vec![1, 3, 7, 9]);
    assert_eq!(all[2].text, "t7");
}

#[test]
fn list_with_limit_zero_is_empty() {
    let mut map = HashMap::new();
    insert_todo(&mut map, 1, "a".into());
    assert!(list_visible_todos(&map, None, 0).is_empty());
}

#[test]
fn list_with_unknown_cursor_starts_past_it() {
    let mut map = HashMap::new();
    for id in [2u64, 4, 6, 8] {
        insert_todo(&mut map, id, format!("t{id}"));
    }
    let page = list_visible_todos(&map, Some(5), 10);
    let ids: Vec<u64> = page.iter().map(|t| t.id).collect();
    assert_eq!(ids, vec![6, 8]);
    assert!(list_visible_todos(&map, Some(8), 10).is_empty());
}

#[test]
fn list_with_deleted_cursor_continues_after_it() {
    let mut map = HashMap::new();
    for id in 1..=4u64 {
        insert_todo(&mut map, id, format!("t{id}"));
    }
    assert!(mark_todo_deleted(&mut map, 2));
    let page = list_visible_todos(&map, Some(2), 1);
    assert_eq!(page.len(), 1);
    assert_eq!(page[0].id, 3);
}

#[test]
fn list_of_empty_map_is_empty() {
    let map: HashMap<u64, Todo> = HashMap::new();
    assert!(list_visible_todos(&map, None, 5).is_empty());
}

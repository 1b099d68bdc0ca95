use todo_store::store::TodoStore;

fn page_of(store: &TodoStore, after: Option<u64>, limit: usize) -> Vec<(u64, String)> {
    store
        .list_todos(after, limit)
        .into_iter()
        .map(|t| (t.id, t.text))
        .collect()
}

fn pair(id: u64, text: &str) -> (u64, String) {
    (id, text.to_string())
}

#[test]
fn walkthrough_of_five_records() {
    let mut store = TodoStore::new();
    let mut ids = Vec::new();
    for text in ["a", "b", "c", "d", "e"] {
        ids.push(store.add_todo(text.to_string()));
    }
    assert_eq!(ids, vec![1, 2, 3, 4, 5]);
    assert_eq!(page_of(&store, None, 2), vec![pair(1, "a"), pair(2, "b")]);
    assert_eq!(page_of(&store, Some(2), 2), vec![pair(3, "c"), pair(4, "d")]);
    assert!(store.delete_todo(3));
    assert_eq!(
        page_of(&store, None, 5),
        vec![pair(1, "a"), pair(2, "b"), pair(4, "d"), pair(5, "e")]
    );
    assert!(store.get_todo(3).is_none());
    assert!(store.update_todo(4, "D".to_string()));
    let t = store.get_todo(4).unwrap();
    assert_eq!((t.id, t.text.as_str(), t.deleted), (4, "D", false));
}

#[test]
fn new_store_starts_counter_at_one() {
    let store = TodoStore::new();
    assert_eq!(store.next_id(), 1);
    assert!(store.list_todos(None, 10).is_empty());
}

#[test]
fn ids_increase_and_survive_deletion() {
    let mut store = TodoStore::new();
    assert_eq!(store.add_todo("x".to_string()), 1);
    assert!(store.delete_todo(1));
    assert_eq!(store.add_todo("y".to_string()), 2);
    assert_eq!(store.add_todo("z".to_string()), 3);
    assert_eq!(store.next_id(), 4);
}

#[test]
fn created_record_can_be_fetched() {
    let mut store = TodoStore::new();
    let id = store.add_todo("hello".to_string());
    let t = store.get_todo(id).unwrap();
    assert_eq!(t.id, id);
    assert_eq!(t.text, "hello");
    assert!(!t.deleted);
}

#[test]
fn deleted_record_is_absent_from_every_page() {
    let mut store = TodoStore::new();
    for text in ["a", "b", "c"] {
        store.add_todo(text.to_string());
    }
    assert!(store.delete_todo(2));
    for after in [None, Some(0), Some(1), Some(2), Some(3)] {
        for limit in 0..4 {
            assert!(store.list_todos(after, limit).iter().all(|t| t.id != 2));
        }
    }
    assert!(store.delete_todo(2));
    assert!(!store.delete_todo(9));
    assert!(!store.update_todo(2, "again".to_string()));
}

#[test]
fn paging_lists_every_record_once() {
    let mut store = TodoStore::new();
    for i in 0..7 {
        store.add_todo(format!("item {i}"));
    }
    assert!(store.delete_todo(4));
    let mut seen = Vec::new();
    let mut cursor = None;
    loop {
        let page = store.list_todos(cursor, 2);
        if page.is_empty() {
            break;
        }
        assert!(page.len() <= 2);
        cursor = Some(page[page.len() - 1].id);
        seen.extend(page.into_iter().map(|t| t.id));
    }
    assert_eq!(seen, vec![1, 2, 3, 5, 6, 7]);
}

#[test]
fn cursor_past_every_id_gives_empty_page() {
    let mut store = TodoStore::new();
    store.add_todo("a".to_string());
    assert!(store.list_todos(Some(100), 3).is_empty());
    assert_eq!(page_of(&store, Some(0), 3), vec![pair(1, "a")]);
}

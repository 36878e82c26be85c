use genetic_algo::todo::{AddItemBody, AppState};

fn body(t: &str) -> AddItemBody {
    AddItemBody { title: t.to_string() }
}

#[test]
fn add_and_list_items() {
    let mut s = AppState::new();
    let a = s.add_item("a1".to_string(), body("milk"));
    assert_eq!(a.id, "a1");
    assert_eq!(a.title, "milk");
    s.add_item("b2".to_string(), body("bread"));
    let items = s.list_items();
    assert_eq!(items.len(), 2);
    assert_eq!(items[0].title, "milk");
    assert_eq!(items[1].id, "b2");
}

#[test]
fn remove_by_id() {
    let mut s = AppState::new();
    s.add_item("a1".to_string(), body("milk"));
    s.add_item("b2".to_string(), body("bread"));
    s.add_item("a1".to_string(), body("eggs"));
    let r = s.remove_todo(&"a1".to_string()).unwrap();
    assert_eq!(r.title, "milk");
    assert_eq!(s.todo.len(), 2);
    assert_eq!(s.todo[0].title, "bread");
    assert!(s.remove_todo(&"zz".to_string()).is_none());
    assert_eq!(s.todo.len(), 2);
}

#[test]
fn fresh_ids_are_distinct_uuids() {
    let mut s = AppState::new();
    let a = s.add_todo(body("one"));
    let b = s.add_todo(body("two"));
    assert_eq!(a.id.len(), 36);
    assert_ne!(a.id, b.id);
    assert_eq!(a.id.matches('-').count(), 4);
    assert_eq!(s.list_items().len(), 2);
}

use nursery::entity::{Entity, Gender, Kind};
use nursery::store::EntityStore;

fn make(id: u128, name: &str, kind: Kind, level: u32) -> Entity {
    Entity { id, name: name.to_string(), level, kind, experience: 0, gender: Gender::Male }
}

#[test]
fn sort_by_level_desc_orders_and_keeps_ties() {
    let mut store = EntityStore::new();
    store.add(make(1, "A", Kind::Feu, 3));
    store.add(make(2, "B", Kind::Eau, 7));
    store.add(make(3, "C", Kind::Feu, 3));
    store.add(make(4, "D", Kind::Plante, 9));
    store.sort_by_level_desc();
    let names: Vec<String> = store.list().iter().map(|e| e.name.clone()).collect();
    // Descending levels; A and C share level 3 and keep their order.
    assert_eq!(names, vec!["D", "B", "A", "C"]);
}

#[test]
fn sort_by_kind_name_is_alphabetical_and_stable() {
    let mut store = EntityStore::new();
    store.add(make(1, "A", Kind::Tenebre, 1));
    store.add(make(2, "B", Kind::Feu, 1));
    store.add(make(3, "C", Kind::Eau, 1));
    store.add(make(4, "D", Kind::Electrik, 1));
    store.add(make(5, "E", Kind::Plante, 1));
    store.add(make(6, "F", Kind::Eau, 2));
    store.sort_by_kind_name();
    let order: Vec<(String, Kind)> = store.list().iter().map(|e| (e.name.clone(), e.kind)).collect();
    // "Eau" < "Electrik" < "Feu" < "Plante" < "Tenebre"; C before F among Eau.
    assert_eq!(order[0], ("C".to_string(), Kind::Eau));
    assert_eq!(order[1], ("F".to_string(), Kind::Eau));
    assert_eq!(order[2], ("D".to_string(), Kind::Electrik));
    assert_eq!(order[3], ("B".to_string(), Kind::Feu));
    assert_eq!(order[4], ("E".to_string(), Kind::Plante));
    assert_eq!(order[5], ("A".to_string(), Kind::Tenebre));
}

#[test]
fn find_by_id_returns_first_match() {
    let mut store = EntityStore::new();
    store.add(make(9, "First", Kind::Feu, 1));
    store.add(make(8, "Other", Kind::Eau, 1));
    store.add(make(9, "Second", Kind::Plante, 1));
    let found = store.find_by_id(9).expect("present");
    assert_eq!(found.name, "First");
    assert!(store.find_by_id(12345).is_none());
}

#[test]
fn sorting_tiny_stores_is_harmless() {
    let mut empty = EntityStore::new();
    empty.sort_by_level_desc();
    empty.sort_by_kind_name();
    assert!(empty.is_empty());
    let mut one = EntityStore::new();
    one.add(make(1, "A", Kind::Feu, 3));
    one.sort_by_level_desc();
    assert_eq!(one.len(), 1);
    assert_eq!(one.list()[0].name, "A");
}

#[test]
fn list_of_empty_store_is_empty() {
    let store = EntityStore::new();
    assert!(store.is_empty());
    assert_eq!(store.list().len(), 0);
}

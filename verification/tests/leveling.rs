use nursery::entity::{Entity, Gender, Kind};
use nursery::store::EntityStore;

fn fresh(name: &str, kind: Kind, gender: Gender) -> Entity {
    Entity { id: nursery::ids::fresh_id(), name: name.to_string(), level: 1, kind, experience: 0, gender }
}

#[test]
fn gain_experience_rolls_over() {
    let mut e = fresh("Pika", Kind::Electrik, Gender::Male);
    e.gain_experience(250);
    assert_eq!(e.level, 3);
    assert_eq!(e.experience, 50);
}

#[test]
fn gain_experience_zero_is_noop() {
    let mut e = fresh("Pika", Kind::Electrik, Gender::Male);
    e.gain_experience(37);
    assert_eq!(e.level, 1);
    assert_eq!(e.experience, 37);
    e.gain_experience(0);
    assert_eq!(e.level, 1);
    assert_eq!(e.experience, 37);
}

#[test]
fn gain_experience_exact_hundred() {
    let mut e = fresh("Pika", Kind::Electrik, Gender::Male);
    e.gain_experience(100);
    assert_eq!(e.level, 2);
    assert_eq!(e.experience, 0);
}

#[test]
fn gain_experience_settles_below_hundred() {
    let mut e = fresh("Pika", Kind::Electrik, Gender::Male);
    e.gain_experience(99);
    assert!(e.experience < 100);
    e.gain_experience(1234);
    assert!(e.experience < 100);
    assert_eq!(e.level, 1 + (99 + 1234) / 100);
    assert_eq!(e.experience, (99 + 1234) % 100);
}

#[test]
fn train_all_empty_reports_nothing() {
    let mut store = EntityStore::new();
    assert!(!store.train_all(30));
    assert_eq!(store.len(), 0);
}

#[test]
fn train_all_levels_everyone() {
    let mut store = EntityStore::new();
    store.add(fresh("A", Kind::Feu, Gender::Male));
    store.add(fresh("B", Kind::Eau, Gender::Femelle));
    assert!(store.train_all(150));
    let all = store.list();
    assert_eq!(all.len(), 2);
    for e in &all {
        assert_eq!(e.level, 2);
        assert_eq!(e.experience, 50);
    }
}

use nursery::entity::{can_pair, Entity, Gender, Kind};
use nursery::store::EntityStore;

fn make(name: &str, kind: Kind, gender: Gender, level: u32) -> Entity {
    Entity { id: nursery::ids::fresh_id(), name: name.to_string(), level, kind, experience: 0, gender }
}

const NAMES: [&str; 12] = [
    "Pikachu",
    "Bulbizarre",
    "Salamèche",
    "Carapuce",
    "Évoli",
    "Miaouss",
    "Rondoudou",
    "Psykokwak",
    "Rattata",
    "Grolet",
    "Goupix",
    "Nosferapti",
];

#[test]
fn eligibility_is_symmetric() {
    let a = make("A", Kind::Feu, Gender::Male, 7);
    let b = make("B", Kind::Feu, Gender::Femelle, 5);
    assert!(can_pair(&a, &b));
    assert!(can_pair(&b, &a));
    let c = make("C", Kind::Eau, Gender::Femelle, 9);
    assert_eq!(can_pair(&a, &c), can_pair(&c, &a));
}

#[test]
fn offspring_kind_tracks_first_argument() {
    // Both parents share a kind; pairing in either order must propagate the
    // first argument's kind.
    let a = make("A", Kind::Eau, Gender::Male, 6);
    let b = make("B", Kind::Eau, Gender::Femelle, 6);
    let mut store = EntityStore::new();
    store.add(a.duplicate());
    store.add(b.duplicate());
    let baby1 = store.pair(&a, &b).expect("eligible pair");
    assert_eq!(baby1.kind, a.kind);
    let baby2 = store.pair(&b, &a).expect("eligible pair");
    assert_eq!(baby2.kind, b.kind);
    assert_eq!(store.len(), 4);
}

#[test]
fn mismatched_kind_changes_nothing() {
    let a = make("A", Kind::Feu, Gender::Male, 6);
    let b = make("B", Kind::Eau, Gender::Femelle, 6);
    let mut store = EntityStore::new();
    store.add(a.duplicate());
    store.add(b.duplicate());
    assert!(store.pair(&a, &b).is_none());
    assert_eq!(store.len(), 2);
}

#[test]
fn same_gender_changes_nothing() {
    let a = make("A", Kind::Feu, Gender::Male, 6);
    let b = make("B", Kind::Feu, Gender::Male, 6);
    let mut store = EntityStore::new();
    store.add(a.duplicate());
    store.add(b.duplicate());
    assert!(store.pair(&a, &b).is_none());
    assert_eq!(store.len(), 2);
}

#[test]
fn low_level_changes_nothing() {
    let a = make("A", Kind::Feu, Gender::Male, 4);
    let b = make("B", Kind::Feu, Gender::Femelle, 6);
    let mut store = EntityStore::new();
    store.add(a.duplicate());
    store.add(b.duplicate());
    assert!(store.pair(&a, &b).is_none());
    assert!(store.pair(&b, &a).is_none());
    assert_eq!(store.len(), 2);
}

#[test]
fn offspring_starts_fresh() {
    let a = make("A", Kind::Tenebre, Gender::Male, 10);
    let b = make("B", Kind::Tenebre, Gender::Femelle, 12);
    let mut store = EntityStore::new();
    let baby = store.pair(&a, &b).expect("eligible pair");
    assert_eq!(baby.level, 1);
    assert_eq!(baby.experience, 0);
    assert_eq!(baby.kind, Kind::Tenebre);
    assert!(baby.gender == Gender::Male || baby.gender == Gender::Femelle);
    assert!(NAMES.iter().any(|n| *n == baby.name));
    assert_eq!(store.len(), 1);
    let kept = &store.list()[0];
    assert_eq!(kept.id, baby.id);
    assert_eq!(kept.name, baby.name);
}

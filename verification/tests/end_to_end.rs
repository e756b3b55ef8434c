use nursery::entity::{Entity, Gender, Kind};
use nursery::store::EntityStore;

#[test]
fn create_train_pair_lifecycle() {
    let mut store = EntityStore::new();

    // X: kind Feu, first gender, level starts at 1.
    let mut x = Entity::new("X".to_string(), Kind::Feu, Gender::Male);
    assert_eq!(x.level, 1);
    assert_eq!(x.experience, 0);

    // Train X with 250 XP: level 3, experience 50.
    x.gain_experience(250);
    assert_eq!(x.level, 3);
    assert_eq!(x.experience, 50);

    // Y: same kind, other gender, trained up to level 5.
    let mut y = Entity::new("Y".to_string(), Kind::Feu, Gender::Femelle);
    while y.level < 5 {
        y.gain_experience(100);
    }
    assert_eq!(y.level, 5);

    store.add(x.duplicate());
    store.add(y.duplicate());

    // X is still below level 5: the pair is ineligible, nothing changes.
    assert!(store.pair(&x, &y).is_none());
    assert_eq!(store.len(), 2);

    // Train X to level 5 and pair again: one offspring is appended.
    x.gain_experience(250);
    assert!(x.level >= 5);
    let baby = store.pair(&x, &y).expect("now eligible");
    assert_eq!(baby.kind, Kind::Feu);
    assert_eq!(baby.level, 1);
    assert_eq!(baby.experience, 0);
    assert_eq!(store.len(), 3);
}

use nursery::entity::{Entity, Gender, Kind};
use nursery::store::{EntityStore, LoadOutcome};

fn with_id(id: u128, name: &str, level: u32, kind: Kind, experience: u32, gender: Gender) -> Entity {
    Entity { id, name: name.to_string(), level, kind, experience, gender }
}

#[test]
fn encode_exact_document() {
    let mut store = EntityStore::new();
    store.add(with_id(7, "Pika", 3, Kind::Electrik, 50, Gender::Male));
    let text = store.encode();
    assert_eq!(
        text,
        "ID,Nom,Niveau,Type,XP,Genre\n00000000-0000-0000-0000-000000000007,Pika,3,Electrik,50,Male\n"
    );
}

#[test]
fn encode_empty_store_is_header_only() {
    let store = EntityStore::new();
    assert_eq!(store.encode(), "ID,Nom,Niveau,Type,XP,Genre\n");
}

#[test]
fn decode_round_trips_every_field() {
    let mut store = EntityStore::new();
    store.add(with_id(7, "Pika", 3, Kind::Electrik, 50, Gender::Male));
    store.add(with_id(u128::MAX, "Bulbi", 1, Kind::Plante, 0, Gender::Femelle));
    store.add(with_id(0, "Sala", 42, Kind::Feu, 99, Gender::Male));
    let text = store.encode();
    let decoded = nursery::codec::decode(&text);
    let original = store.list();
    assert_eq!(decoded.len(), original.len());
    for (d, o) in decoded.iter().zip(original.iter()) {
        assert_eq!(d.id, o.id);
        assert_eq!(d.name, o.name);
        assert_eq!(d.level, o.level);
        assert_eq!(d.kind, o.kind);
        assert_eq!(d.experience, o.experience);
        assert_eq!(d.gender, o.gender);
    }
}

#[test]
fn decode_malformed_level_defaults_to_one() {
    let text = "ID,Nom,Niveau,Type,XP,Genre\n00000000-0000-0000-0000-000000000001,Pika,abc,Electrik,10,Male\n";
    let decoded = nursery::codec::decode(text);
    assert_eq!(decoded.len(), 1);
    assert_eq!(decoded[0].level, 1);
    assert_eq!(decoded[0].experience, 10);
}

#[test]
fn decode_malformed_kind_defaults_to_first() {
    let text = "ID,Nom,Niveau,Type,XP,Genre\n00000000-0000-0000-0000-000000000001,Pika,2,Dragon,10,Male\n";
    let decoded = nursery::codec::decode(text);
    assert_eq!(decoded.len(), 1);
    assert_eq!(decoded[0].kind, Kind::Feu);
}

#[test]
fn decode_malformed_experience_defaults_to_zero() {
    let text = "ID,Nom,Niveau,Type,XP,Genre\n00000000-0000-0000-0000-000000000001,Pika,2,Eau,much,Femelle\n";
    let decoded = nursery::codec::decode(text);
    assert_eq!(decoded.len(), 1);
    assert_eq!(decoded[0].experience, 0);
    assert_eq!(decoded[0].gender, Gender::Femelle);
}

#[test]
fn decode_malformed_gender_defaults_to_first() {
    let text = "ID,Nom,Niveau,Type,XP,Genre\n00000000-0000-0000-0000-000000000001,Pika,2,Eau,5,Autre\n";
    let decoded = nursery::codec::decode(text);
    assert_eq!(decoded.len(), 1);
    assert_eq!(decoded[0].gender, Gender::Male);
}

#[test]
fn decode_malformed_id_gets_fresh_identity() {
    let text = "ID,Nom,Niveau,Type,XP,Genre\nnot-a-uuid,Pika,2,Eau,5,Male\n";
    let decoded = nursery::codec::decode(text);
    assert_eq!(decoded.len(), 1);
    assert_eq!(decoded[0].name, "Pika");
    assert_eq!(decoded[0].level, 2);
}

#[test]
fn decode_drops_short_lines() {
    let text = "ID,Nom,Niveau,Type,XP,Genre\na,b,c,d\n00000000-0000-0000-0000-000000000001,Pika,2,Eau,5,Male\n\n";
    let decoded = nursery::codec::decode(text);
    assert_eq!(decoded.len(), 1);
    assert_eq!(decoded[0].name, "Pika");
}

#[test]
fn decode_empty_text_gives_nothing() {
    assert_eq!(nursery::codec::decode("").len(), 0);
    assert_eq!(nursery::codec::decode("ID,Nom,Niveau,Type,XP,Genre\n").len(), 0);
}

#[test]
fn decode_accepts_plus_and_rejects_overflow() {
    let text = "ID,Nom,Niveau,Type,XP,Genre\n\
                00000000-0000-0000-0000-000000000001,A,+5,Eau,99999999999,Male\n";
    let decoded = nursery::codec::decode(text);
    assert_eq!(decoded.len(), 1);
    assert_eq!(decoded[0].level, 5);
    assert_eq!(decoded[0].experience, 0);
}

#[test]
fn decode_accepts_carriage_returns() {
    let text = "ID,Nom,Niveau,Type,XP,Genre\r\n00000000-0000-0000-0000-000000000001,Pika,2,Eau,5,Male\r\n";
    let decoded = nursery::codec::decode(text);
    assert_eq!(decoded.len(), 1);
    assert_eq!(decoded[0].gender, Gender::Male);
    assert_eq!(decoded[0].experience, 5);
}

#[test]
fn decode_ignores_header_content() {
    let text = "anything at all\n00000000-0000-0000-0000-000000000001,Pika,2,Eau,5,Male\n";
    let decoded = nursery::codec::decode(text);
    assert_eq!(decoded.len(), 1);
    assert_eq!(decoded[0].name, "Pika");
}

#[test]
fn load_missing_source_is_noop() {
    let mut store = EntityStore::new();
    store.add(with_id(1, "Pika", 1, Kind::Feu, 0, Gender::Male));
    assert_eq!(store.load(None), LoadOutcome::NotFound);
    assert_eq!(store.len(), 1);
}

#[test]
fn load_into_nonempty_store_refuses() {
    let mut store = EntityStore::new();
    store.add(with_id(1, "Pika", 1, Kind::Feu, 0, Gender::Male));
    let text = "ID,Nom,Niveau,Type,XP,Genre\n00000000-0000-0000-0000-000000000002,Bulbi,2,Plante,0,Femelle\n";
    assert_eq!(store.load(Some(text)), LoadOutcome::NotEmpty);
    assert_eq!(store.len(), 1);
    assert_eq!(store.list()[0].name, "Pika");
}

#[test]
fn load_into_empty_store_imports() {
    let mut store = EntityStore::new();
    let text = "ID,Nom,Niveau,Type,XP,Genre\n00000000-0000-0000-0000-000000000002,Bulbi,2,Plante,30,Femelle\n";
    assert_eq!(store.load(Some(text)), LoadOutcome::Loaded(1));
    assert_eq!(store.len(), 1);
    let e = &store.list()[0];
    assert_eq!(e.id, 2);
    assert_eq!(e.name, "Bulbi");
    assert_eq!(e.level, 2);
    assert_eq!(e.kind, Kind::Plante);
    assert_eq!(e.experience, 30);
    assert_eq!(e.gender, Gender::Femelle);
}

#[test]
fn encode_then_load_restores_population() {
    let mut source = EntityStore::new();
    source.add(with_id(11, "Pika", 4, Kind::Electrik, 80, Gender::Male));
    source.add(with_id(12, "Évoli", 9, Kind::Tenebre, 15, Gender::Femelle));
    let text = source.encode();
    let mut target = EntityStore::new();
    assert_eq!(target.load(Some(&text)), LoadOutcome::Loaded(2));
    let a = source.list();
    let b = target.list();
    assert_eq!(a.len(), b.len());
    for (x, y) in a.iter().zip(b.iter()) {
        assert_eq!(x.id, y.id);
        assert_eq!(x.name, y.name);
        assert_eq!(x.level, y.level);
        assert_eq!(x.kind, y.kind);
        assert_eq!(x.experience, y.experience);
        assert_eq!(x.gender, y.gender);
    }
}

#[test]
fn labels_match_format() {
    assert_eq!(nursery::entity::kind_label(Kind::Tenebre), "Tenebre");
    assert_eq!(nursery::entity::gender_label(Gender::Femelle), "Femelle");
}

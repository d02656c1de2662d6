use enka_good::good::{Batch, GoodArtifact, GoodCharacter, GoodSubstat, GoodTalents, GoodType,
    GoodWeapon};
use enka_good::good::{same_artifact_key, same_character, same_weapon_key};

fn s(x: &str) -> String {
    x.to_string()
}

fn artifact(level: u8, location: &str) -> GoodArtifact {
    GoodArtifact {
        set_key: s("GladiatorsFinale"),
        slot_key: s("flower"),
        level,
        rarity: 5,
        main_stat_key: s("hp"),
        location: s(location),
        substats: vec![
            GoodSubstat { key: s("critRate_"), value: s("3.9") },
            GoodSubstat { key: s("atk_"), value: s("5.8") },
        ],
    }
}

fn weapon(refinement: u8, location: &str) -> GoodWeapon {
    GoodWeapon { key: s("MistsplitterReforged"), level: 90, ascension: 6, refinement, location: s(location) }
}

fn character(key: &str, level: u8) -> GoodCharacter {
    GoodCharacter {
        key: s(key),
        level,
        constellation: 2,
        ascension: 6,
        talent: GoodTalents { auto: 9, skill: 9, burst: 9 },
    }
}

#[test]
fn new_collection_is_empty_with_fixed_header() {
    let c = GoodType::new();
    assert_eq!(c.format, "GOOD");
    assert_eq!(c.version, 2);
    assert_eq!(c.source, "enka_good-0.1.0");
    assert!(c.characters.is_empty());
    assert!(c.artifacts.is_empty());
    assert!(c.weapons.is_empty());
}

#[test]
fn merge_is_idempotent() {
    let batch = Batch {
        characters: vec![character("KamisatoAyaka", 90)],
        artifacts: vec![artifact(20, "KamisatoAyaka"), artifact(16, "")],
        weapons: vec![weapon(1, "KamisatoAyaka")],
    };
    let mut once = GoodType::new();
    once.merge(&batch);
    let mut twice = GoodType::new();
    twice.merge(&batch);
    twice.merge(&batch);
    assert_eq!(once, twice);
}

#[test]
fn artifact_move_keeps_one_entry_with_new_location() {
    let mut c = GoodType::new();
    c.replace_artifact(artifact(20, "KamisatoAyaka"));
    c.replace_artifact(artifact(20, "HuTao"));
    assert_eq!(c.artifacts.len(), 1);
    assert_eq!(c.artifacts[0].location, "HuTao");
    assert_eq!(c.artifacts[0].level, 20);
}

#[test]
fn weapon_move_keeps_one_entry_with_new_location() {
    let mut c = GoodType::new();
    c.replace_weapon(weapon(3, "KamisatoAyaka"));
    c.replace_weapon(weapon(3, ""));
    assert_eq!(c.weapons.len(), 1);
    assert_eq!(c.weapons[0].location, "");
}

#[test]
fn artifact_level_change_makes_distinct_entry() {
    let mut c = GoodType::new();
    c.replace_artifact(artifact(16, "KamisatoAyaka"));
    c.replace_artifact(artifact(20, "KamisatoAyaka"));
    assert_eq!(c.artifacts.len(), 2);
}

#[test]
fn weapon_refinement_change_makes_distinct_entry() {
    let mut c = GoodType::new();
    c.replace_weapon(weapon(1, ""));
    c.replace_weapon(weapon(2, ""));
    assert_eq!(c.weapons.len(), 2);
}

#[test]
fn substat_value_must_match_exactly_for_identity() {
    let mut a1 = artifact(20, "");
    let mut a2 = artifact(20, "");
    a2.substats[0].value = s("3.90");
    assert!(!same_artifact_key(&a1, &a2));
    let mut c = GoodType::new();
    c.replace_artifact(a1.clone());
    c.replace_artifact(a2.clone());
    assert_eq!(c.artifacts.len(), 2);
    a1.location = s("X");
    assert!(same_artifact_key(&a1, &artifact(20, "Y")));
}

#[test]
fn character_is_replaced_wholesale() {
    let mut c = GoodType::new();
    c.insert_character(character("KamisatoAyaka", 80));
    c.insert_character(character("KamisatoAyaka", 80));
    assert_eq!(c.characters.len(), 1);
    c.insert_character(character("KamisatoAyaka", 90));
    assert_eq!(c.characters.len(), 2);
    assert!(same_character(&c.characters[0], &character("KamisatoAyaka", 80)));
}

#[test]
fn merge_never_deletes() {
    let mut c = GoodType::new();
    c.replace_artifact(artifact(12, "HuTao"));
    let batch = Batch {
        characters: vec![],
        artifacts: vec![artifact(20, "KamisatoAyaka")],
        weapons: vec![],
    };
    c.merge(&batch);
    assert_eq!(c.artifacts.len(), 2);
    assert_eq!(c.artifacts[0].level, 12);
}

#[test]
fn identity_keys_exclude_location() {
    let w1 = weapon(1, "A");
    let w2 = weapon(1, "B");
    assert!(same_weapon_key(&w1, &w2));
    assert_eq!(w1.key(), w2.key());
    let a1 = artifact(20, "A");
    let a2 = artifact(20, "B");
    assert!(same_artifact_key(&a1, &a2));
    assert_eq!(a1.key(), a2.key());
    let w3 = weapon(2, "A");
    assert!(!same_weapon_key(&w1, &w3));
}

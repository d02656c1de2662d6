use enka_good::codec::{from_good_json, to_good_json};
use enka_good::good::{GoodArtifact, GoodCharacter, GoodSubstat, GoodTalents, GoodType, GoodWeapon};

fn s(x: &str) -> String {
    x.to_string()
}

fn sample() -> GoodType {
    let mut c = GoodType::new();
    c.insert_character(GoodCharacter {
        key: s("KamisatoAyaka"),
        level: 90,
        constellation: 0,
        ascension: 6,
        talent: GoodTalents { auto: 10, skill: 9, burst: 9 },
    });
    c.replace_artifact(GoodArtifact {
        set_key: s("GladiatorsFinale"),
        slot_key: s("flower"),
        level: 20,
        rarity: 5,
        main_stat_key: s("hp"),
        location: s("KamisatoAyaka"),
        substats: vec![
            GoodSubstat { key: s("critRate_"), value: s("3.9") },
            GoodSubstat { key: s("enerRech_"), value: s("19.45") },
        ],
    });
    c.replace_artifact(GoodArtifact {
        set_key: s("GladiatorsFinale"),
        slot_key: s("plume"),
        level: 16,
        rarity: 5,
        main_stat_key: s("atk"),
        location: s(""),
        substats: vec![],
    });
    c.replace_weapon(GoodWeapon {
        key: s("MistsplitterReforged"),
        level: 90,
        ascension: 6,
        refinement: 1,
        location: s("KamisatoAyaka"),
    });
    c
}

#[test]
fn empty_collection_serializes_to_the_exact_document() {
    let c = GoodType::new();
    assert_eq!(
        to_good_json(&c),
        "{\"format\":\"GOOD\",\"version\":2,\"source\":\"enka_good-0.1.0\",\
         \"characters\":[],\"artifacts\":[],\"weapons\":[]}"
    );
}

#[test]
fn substat_values_keep_exact_decimal_text() {
    let text = to_good_json(&sample());
    assert!(text.contains("\"value\":19.45"));
    assert!(text.contains("\"value\":3.9"));
}

#[test]
fn serialized_collection_loads_back_equal() {
    let c = sample();
    let text = to_good_json(&c);
    let back = from_good_json(&text).expect("canonical text must load");
    assert_eq!(back, c);
}

#[test]
fn empty_collection_round_trips() {
    let c = GoodType::new();
    let back = from_good_json(&to_good_json(&c)).expect("canonical text must load");
    assert_eq!(back, c);
}

#[test]
fn loaded_collection_reserializes_to_the_same_text() {
    let text = to_good_json(&sample());
    let back = from_good_json(&text).unwrap();
    assert_eq!(to_good_json(&back), text);
}

#[test]
fn malformed_documents_are_rejected() {
    assert!(from_good_json(&s("")).is_none());
    assert!(from_good_json(&s("{}")).is_none());
    assert!(from_good_json(&s("{\"format\":\"GOOD\"}")).is_none());
    let text = to_good_json(&sample());
    let mut truncated = text.clone();
    truncated.pop();
    assert!(from_good_json(&truncated).is_none());
    let trailing = format!("{} ", text);
    assert!(from_good_json(&trailing).is_none());
}

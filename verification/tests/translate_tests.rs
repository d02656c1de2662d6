use enka_good::enka::{AvatarInfo, AvatarProps, EnkaPlayer, EquipFlatVariantArtifact,
    EquipFlatVariantWeapon, EquipRelic, EquipVariant, EquipWeapon, PlayerInfo, Prop, RelicMS,
    RelicSS};
use enka_good::good::GoodType;
use enka_good::lookup::{LookupTables, SkillOrderTable, StrTable};
use enka_good::strutil::{decimal_string, parse_u8};
use enka_good::translate::{skill_order_key, translate_artifact, translate_character,
    translate_player, translate_weapon, weapon_refinement, TranslateError, TRAVELER_AVATAR_ID};

fn s(x: &str) -> String {
    x.to_string()
}

fn tables() -> LookupTables {
    let mut names = StrTable::new();
    names.push(s("10000002"), s("KamisatoAyaka"));
    names.push(s("10000005"), s("Traveler"));
    names.push(s("147298547"), s("GladiatorsFinale"));
    names.push(s("2425414923"), s("MistsplitterReforged"));
    let mut slots = StrTable::new();
    slots.push(s("EQUIP_BRACER"), s("flower"));
    let mut stats = StrTable::new();
    stats.push(s("FIGHT_PROP_HP"), s("hp"));
    stats.push(s("FIGHT_PROP_CRITICAL"), s("critRate_"));
    stats.push(s("FIGHT_PROP_ATTACK_PERCENT"), s("atk_"));
    let mut skill_orders = SkillOrderTable::new();
    skill_orders.push(s("10000002"), (10024, 10018, 10019));
    skill_orders.push(s("10000005-504"), (100543, 10067, 10068));
    LookupTables { names, slots, stats, skill_orders }
}

fn props(level: Option<&str>, ascension: Option<&str>) -> AvatarProps {
    AvatarProps {
        level: Prop { val: level.map(s) },
        ascension: Prop { val: ascension.map(s) },
    }
}

fn flower(relic_level: u8) -> EquipVariant {
    EquipVariant::Artifact {
        reliquary: EquipRelic { level: relic_level },
        flat: EquipFlatVariantArtifact {
            set_name_text_map_hash: s("147298547"),
            rank_level: 5,
            reliquary_mainstat: RelicMS { main_prop_id: s("FIGHT_PROP_HP"), stat_value: s("4780") },
            reliquary_substats: vec![
                RelicSS { append_prop_id: s("FIGHT_PROP_CRITICAL"), stat_value: s("3.9") },
                RelicSS { append_prop_id: s("FIGHT_PROP_ATTACK_PERCENT"), stat_value: s("5.8") },
            ],
            equip_type: s("EQUIP_BRACER"),
        },
    }
}

fn sword(item_id: u32, affix: Option<(&str, u8)>) -> EquipVariant {
    EquipVariant::Weapon {
        weapon: EquipWeapon {
            level: 90,
            promote_level: Some(6),
            item_id,
            affix_map: affix.map(|(k, v)| vec![(s(k), v)]).unwrap_or_default(),
        },
        flat: EquipFlatVariantWeapon { name_text_map_hash: s("2425414923"), rank_level: 5 },
    }
}

fn ayaka(level: Option<&str>, ascension: Option<&str>, cons: Option<Vec<u32>>) -> AvatarInfo {
    AvatarInfo {
        avatar_id: 10000002,
        talent_id_list: cons,
        prop_map: props(level, ascension),
        skill_depot_id: 0,
        skill_level_map: vec![(s("10024"), 10), (s("10018"), 9)],
        equip_list: vec![],
    }
}

#[test]
fn known_character_translates_fully() {
    let t = tables();
    let avatar = ayaka(Some("90"), Some("6"), Some(vec![1, 2]));
    let (c, location) = translate_character(&avatar, &t).unwrap();
    let c = c.unwrap();
    assert_eq!(location, "KamisatoAyaka");
    assert_eq!(c.key, "KamisatoAyaka");
    assert_eq!(c.level, 90);
    assert_eq!(c.ascension, 6);
    assert_eq!(c.constellation, 2);
    assert_eq!(c.talent.auto, 10);
    assert_eq!(c.talent.skill, 9);
    assert_eq!(c.talent.burst, 1);
}

#[test]
fn null_fields_fall_back_to_defaults() {
    let t = tables();
    let avatar = ayaka(None, None, None);
    let (c, _) = translate_character(&avatar, &t).unwrap();
    let c = c.unwrap();
    assert_eq!(c.level, 1);
    assert_eq!(c.ascension, 0);
    assert_eq!(c.constellation, 0);
}

#[test]
fn skill_order_key_is_plain_decimal_for_ordinary_characters() {
    assert_eq!(skill_order_key(10000002, 504), "10000002");
}

#[test]
fn skill_order_key_is_composite_for_the_multi_form_character() {
    assert_eq!(TRAVELER_AVATAR_ID, 10000005);
    assert_eq!(skill_order_key(10000005, 504), "10000005-504");
}

#[test]
fn multi_form_character_resolves_through_composite_key() {
    let t = tables();
    let avatar = AvatarInfo {
        avatar_id: 10000005,
        talent_id_list: None,
        prop_map: props(Some("80"), Some("5")),
        skill_depot_id: 504,
        skill_level_map: vec![(s("10067"), 8)],
        equip_list: vec![],
    };
    let (c, _) = translate_character(&avatar, &t).unwrap();
    let c = c.unwrap();
    assert_eq!(c.key, "Traveler");
    assert_eq!(c.talent.skill, 8);
    let mut wrong_depot = avatar;
    wrong_depot.skill_depot_id = 999;
    assert_eq!(
        translate_character(&wrong_depot, &t).unwrap_err(),
        TranslateError::SkillOrderMissing
    );
}

#[test]
fn unknown_character_is_skipped_but_equipment_is_processed() {
    let t = {
        let mut t = tables();
        t.skill_orders.push(s("10000099"), (1, 2, 3));
        t
    };
    let player = EnkaPlayer {
        player_info: PlayerInfo { nickname: s("tester") },
        avatar_info_list: vec![AvatarInfo {
            avatar_id: 10000099,
            talent_id_list: None,
            prop_map: props(Some("20"), Some("1")),
            skill_depot_id: 0,
            skill_level_map: vec![],
            equip_list: vec![flower(21), sword(11509, None)],
        }],
        ttl: 60,
        uid: s("700000001"),
    };
    let batch = translate_player(&player, &t).unwrap();
    assert!(batch.characters.is_empty());
    assert_eq!(batch.artifacts.len(), 1);
    assert_eq!(batch.artifacts[0].location, "");
    assert_eq!(batch.weapons.len(), 1);
    assert_eq!(batch.weapons[0].location, "");
}

#[test]
fn relic_level_one_is_stored_as_zero() {
    let t = tables();
    if let EquipVariant::Artifact { reliquary, flat } = flower(1) {
        let a = translate_artifact(&reliquary, &flat, &s(""), &t).unwrap().unwrap();
        assert_eq!(a.level, 0);
    } else {
        unreachable!();
    }
}

#[test]
fn relic_level_offset_is_one() {
    let t = tables();
    if let EquipVariant::Artifact { reliquary, flat } = flower(21) {
        let a = translate_artifact(&reliquary, &flat, &s("KamisatoAyaka"), &t).unwrap().unwrap();
        assert_eq!(a.level, 20);
        assert_eq!(a.rarity, 5);
        assert_eq!(a.set_key, "GladiatorsFinale");
        assert_eq!(a.slot_key, "flower");
        assert_eq!(a.main_stat_key, "hp");
        assert_eq!(a.location, "KamisatoAyaka");
        assert_eq!(a.substats.len(), 2);
        assert_eq!(a.substats[0].key, "critRate_");
        assert_eq!(a.substats[0].value, "3.9");
    } else {
        unreachable!();
    }
}

#[test]
fn refinement_defaults_to_one_without_matching_affix() {
    let empty = EquipWeapon { level: 90, promote_level: None, item_id: 11509, affix_map: vec![] };
    assert_eq!(weapon_refinement(&empty), 1);
    let foreign = EquipWeapon {
        level: 90,
        promote_level: None,
        item_id: 11509,
        affix_map: vec![(s("999999"), 4)],
    };
    assert_eq!(weapon_refinement(&foreign), 1);
}

#[test]
fn refinement_is_one_plus_own_affix_level() {
    let w = EquipWeapon {
        level: 90,
        promote_level: Some(6),
        item_id: 11509,
        affix_map: vec![(s("111509"), 4)],
    };
    assert_eq!(weapon_refinement(&w), 5);
}

#[test]
fn weapon_translates_with_promotion_default() {
    let t = tables();
    if let EquipVariant::Weapon { mut weapon, flat } = sword(11509, Some(("111509", 0))) {
        weapon.promote_level = None;
        let w = translate_weapon(&weapon, &flat, &s("KamisatoAyaka"), &t).unwrap();
        assert_eq!(w.key, "MistsplitterReforged");
        assert_eq!(w.level, 90);
        assert_eq!(w.ascension, 0);
        assert_eq!(w.refinement, 1);
        assert_eq!(w.location, "KamisatoAyaka");
    } else {
        unreachable!();
    }
}

#[test]
fn missing_skill_order_is_fatal() {
    let t = tables();
    let mut avatar = ayaka(Some("90"), Some("6"), None);
    avatar.avatar_id = 10000050;
    let player = EnkaPlayer {
        player_info: PlayerInfo { nickname: s("tester") },
        avatar_info_list: vec![avatar],
        ttl: 60,
        uid: s("700000001"),
    };
    assert_eq!(translate_player(&player, &t).unwrap_err(), TranslateError::SkillOrderMissing);
}

#[test]
fn bad_level_text_is_fatal() {
    let t = tables();
    let avatar = ayaka(Some("abc"), Some("6"), None);
    assert_eq!(translate_character(&avatar, &t).unwrap_err(), TranslateError::InvalidLevel);
}

#[test]
fn oversized_ascension_text_is_fatal() {
    let t = tables();
    let avatar = ayaka(Some("90"), Some("999"), None);
    assert_eq!(translate_character(&avatar, &t).unwrap_err(), TranslateError::InvalidAscension);
}

#[test]
fn missing_slot_is_fatal() {
    let t = tables();
    if let EquipVariant::Artifact { reliquary, mut flat } = flower(21) {
        flat.equip_type = s("EQUIP_HAT");
        assert_eq!(
            translate_artifact(&reliquary, &flat, &s(""), &t).unwrap_err(),
            TranslateError::SlotMissing
        );
    }
}

#[test]
fn missing_main_stat_is_fatal() {
    let t = tables();
    if let EquipVariant::Artifact { reliquary, mut flat } = flower(21) {
        flat.reliquary_mainstat.main_prop_id = s("FIGHT_PROP_SPEED");
        assert_eq!(
            translate_artifact(&reliquary, &flat, &s(""), &t).unwrap_err(),
            TranslateError::MainStatMissing
        );
    }
}

#[test]
fn missing_sub_stat_is_fatal() {
    let t = tables();
    if let EquipVariant::Artifact { reliquary, mut flat } = flower(21) {
        flat.reliquary_substats[1].append_prop_id = s("FIGHT_PROP_SPEED");
        assert_eq!(
            translate_artifact(&reliquary, &flat, &s(""), &t).unwrap_err(),
            TranslateError::SubStatMissing
        );
    }
}

#[test]
fn unknown_set_name_skips_the_artifact() {
    let t = tables();
    if let EquipVariant::Artifact { reliquary, mut flat } = flower(21) {
        flat.set_name_text_map_hash = s("12345");
        assert_eq!(translate_artifact(&reliquary, &flat, &s(""), &t).unwrap(), None);
    }
}

#[test]
fn unknown_weapon_name_skips_the_weapon() {
    let t = tables();
    if let EquipVariant::Weapon { weapon, mut flat } = sword(11509, None) {
        flat.name_text_map_hash = s("12345");
        assert!(translate_weapon(&weapon, &flat, &s(""), &t).is_none());
    }
}

#[test]
fn error_messages_match_the_diagnostics() {
    assert_eq!(
        TranslateError::SkillOrderMissing.message(),
        "Character not found in skill order list."
    );
    assert_eq!(TranslateError::SlotMissing.message(), "Slot not found in dictionary.");
    assert_eq!(TranslateError::MainStatMissing.message(), "Main stat not found in dictionary.");
    assert_eq!(TranslateError::SubStatMissing.message(), "Sub stat not found in dictionary.");
    assert_eq!(
        TranslateError::InvalidLevel.message(),
        "Error while converting character level into u8"
    );
    assert_eq!(
        TranslateError::InvalidAscension.message(),
        "Error while converting character ascension into u8"
    );
}

#[test]
fn parse_u8_matches_standard_parsing() {
    assert_eq!(parse_u8("90"), Some(90));
    assert_eq!(parse_u8("+7"), Some(7));
    assert_eq!(parse_u8("007"), Some(7));
    assert_eq!(parse_u8("0"), Some(0));
    assert_eq!(parse_u8("255"), Some(255));
    assert_eq!(parse_u8("256"), None);
    assert_eq!(parse_u8(""), None);
    assert_eq!(parse_u8("+"), None);
    assert_eq!(parse_u8("1a"), None);
    assert_eq!(parse_u8("-1"), None);
}

#[test]
fn decimal_rendering_is_exact() {
    assert_eq!(decimal_string(0), "0");
    assert_eq!(decimal_string(7), "7");
    assert_eq!(decimal_string(10000005), "10000005");
    assert_eq!(decimal_string(18446744073709551615), "18446744073709551615");
}

#[test]
fn lookup_tables_read_by_first_match() {
    let mut t = StrTable::new();
    t.push(s("10000002"), s("first"));
    t.push(s("10000002"), s("second"));
    assert_eq!(t.get(&s("10000002")).unwrap(), "first");
    assert!(t.get(&s("10000099")).is_none());
    let mut orders = SkillOrderTable::new();
    orders.push(s("10000002"), (1, 2, 3));
    assert_eq!(orders.get(&s("10000002")), Some((1, 2, 3)));
    assert_eq!(orders.get(&s("10000099")), None);
}

#[test]
fn whole_cycle_translates_and_merges() {
    let t = tables();
    let player = EnkaPlayer {
        player_info: PlayerInfo { nickname: s("tester") },
        avatar_info_list: vec![AvatarInfo {
            equip_list: vec![flower(21), sword(11509, Some(("111509", 1)))],
            ..ayaka(Some("90"), Some("6"), Some(vec![1, 2, 3]))
        }],
        ttl: 60,
        uid: s("700000001"),
    };
    let batch = translate_player(&player, &t).unwrap();
    assert_eq!(batch.characters.len(), 1);
    assert_eq!(batch.artifacts.len(), 1);
    assert_eq!(batch.weapons.len(), 1);
    assert_eq!(batch.weapons[0].refinement, 2);
    assert_eq!(batch.artifacts[0].location, "KamisatoAyaka");
    let mut c = GoodType::new();
    c.merge(&batch);
    c.merge(&batch);
    assert_eq!(c.characters.len(), 1);
    assert_eq!(c.artifacts.len(), 1);
    assert_eq!(c.weapons.len(), 1);
}

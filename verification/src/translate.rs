//! The translator: maps decoded profile records through the lookup tables
//! into GOOD entities, with the fallback rules the source document calls
//! for. A missing display name skips the entity; a missing skill-order,
//! slot or stat entry is fatal for the whole cycle.
use vstd::prelude::*;
use vstd::string::*;
use crate::enka::{AvatarInfo, EnkaPlayer, EquipFlatVariantArtifact, EquipFlatVariantWeapon,
    EquipRelic, EquipVariant, EquipWeapon, RelicSS};
use crate::good::{ArtifactV, Batch, CharacterV, GoodArtifact, GoodCharacter, GoodSubstat,
    GoodTalents, GoodWeapon, SubstatV, WeaponV};
use crate::lookup::{assoc_get, lemma_table_get_entry, table_get, LookupTables};
use crate::strutil::{decimal_digits, decimal_string, parse_u8, parse_u8_spec, push_decimal};

verus! {

/// The character with multiple skill depots, whose skill order is keyed by
/// identifier and depot together.
pub const TRAVELER_AVATAR_ID: u32 = 10000005;

/// A weapon's refinement affix identifier is its item identifier plus this
/// base.
pub const AFFIX_ID_BASE: u64 = 100000;

/// A fatal translation error: the cycle is abandoned when one arises.
#[derive(Clone, Copy, Debug, PartialEq, Eq, Structural)]
pub enum TranslateError {
    /// The skill-order table has no entry for a character's key.
    SkillOrderMissing,
    /// A character level string did not parse as a small integer.
    InvalidLevel,
    /// A character ascension string did not parse as a small integer.
    InvalidAscension,
    /// The slot table has no entry for an artifact's equip-type code.
    SlotMissing,
    /// The stat table has no entry for an artifact's main-stat code.
    MainStatMissing,
    /// The stat table has no entry for an artifact's sub-stat code.
    SubStatMissing,
}

impl TranslateError {
    /// The diagnostic line for this error.
    pub open spec fn spec_message(self) -> Seq<char> {
        match self {
            TranslateError::SkillOrderMissing => "Character not found in skill order list."@,
            TranslateError::InvalidLevel => "Error while converting character level into u8"@,
            TranslateError::InvalidAscension => "Error while converting character ascension into u8"@,
            TranslateError::SlotMissing => "Slot not found in dictionary."@,
            TranslateError::MainStatMissing => "Main stat not found in dictionary."@,
            TranslateError::SubStatMissing => "Sub stat not found in dictionary."@,
        }
    }

    /// The diagnostic line for this error, as a fresh string.
    pub fn message(&self) -> (r: String)
        ensures
            r@ == self.spec_message(),
    {
        match self {
            TranslateError::SkillOrderMissing => String::from_str(
                "Character not found in skill order list.",
            ),
            TranslateError::InvalidLevel => String::from_str(
                "Error while converting character level into u8",
            ),
            TranslateError::InvalidAscension => String::from_str(
                "Error while converting character ascension into u8",
            ),
            TranslateError::SlotMissing => String::from_str("Slot not found in dictionary."),
            TranslateError::MainStatMissing => String::from_str(
                "Main stat not found in dictionary.",
            ),
            TranslateError::SubStatMissing => String::from_str("Sub stat not found in dictionary."),
        }
    }
}

/// The key under which a character's skill order is looked up: the decimal
/// identifier, except for the multi-form character, where the depot
/// identifier is appended after a dash.
pub open spec fn spec_skill_order_key(avatar_id: u32, skill_depot_id: u32) -> Seq<char> {
    if avatar_id == TRAVELER_AVATAR_ID {
        decimal_digits(avatar_id as nat) + seq!['-'] + decimal_digits(skill_depot_id as nat)
    } else {
        decimal_digits(avatar_id as nat)
    }
}

/// Builds the skill-order lookup key for a character record.
pub fn skill_order_key(avatar_id: u32, skill_depot_id: u32) -> (r: String)
    ensures
        r@ == spec_skill_order_key(avatar_id, skill_depot_id),
{
    let mut s = decimal_string(avatar_id as u64);
    if avatar_id == TRAVELER_AVATAR_ID {
        proof {
            reveal_strlit("-");
        }
        s.append("-");
        push_decimal(&mut s, skill_depot_id as u64);
        proof {
            assert(s@ =~= spec_skill_order_key(avatar_id, skill_depot_id));
        }
    }
    s
}

/// The level of one talent slot: the skill-level map's entry for the slot's
/// decimal identifier, or level one when the slot is absent.
pub open spec fn spec_talent_level(m: Seq<(Seq<char>, u8)>, slot_id: u32) -> u8 {
    match table_get(m, decimal_digits(slot_id as nat)) {
        Some(v) => v,
        None => 1u8,
    }
}

/// Reads one talent level from a record's skill-level map.
pub fn talent_level(skill_level_map: &Vec<(String, u8)>, slot_id: u32) -> (r: u8)
    ensures
        r == spec_talent_level(skill_level_map.deep_view(), slot_id),
{
    let k = decimal_string(slot_id as u64);
    match assoc_get(skill_level_map, &k) {
        Some(v) => *v,
        None => 1,
    }
}

/// The affix-map key derived from a weapon's own item identifier.
pub open spec fn spec_affix_key(item_id: u32) -> Seq<char> {
    decimal_digits(AFFIX_ID_BASE as nat + item_id as nat)
}

/// A weapon's refinement: one more than the affix level stored under the
/// weapon's own item-identifier-derived key, or one when no entry matches.
pub open spec fn spec_weapon_refinement(w: EquipWeapon) -> u8 {
    (1 + (match table_get(w.affix_map.deep_view(), spec_affix_key(w.item_id)) {
        Some(v) => v,
        None => 0u8,
    })) as u8
}

/// Derives a weapon's refinement from its affix map.
pub fn weapon_refinement(weapon: &EquipWeapon) -> (r: u8)
    requires
        weapon.wf(),
    ensures
        r == spec_weapon_refinement(*weapon),
{
    let k = decimal_string(AFFIX_ID_BASE + (weapon.item_id as u64));
    match assoc_get(&weapon.affix_map, &k) {
        Some(v) => {
            proof {
                lemma_table_get_entry(weapon.affix_map.deep_view(), k@);
                let i = choose|i: int|
                    0 <= i < weapon.affix_map.deep_view().len() && (#[trigger] weapon.affix_map.deep_view()[i]).0
                        == k@ && table_get(weapon.affix_map.deep_view(), k@) == Some(
                        weapon.affix_map.deep_view()[i].1,
                    );
                assert(weapon.affix_map.deep_view()[i].1 == weapon.affix_map@[i].1);
            }
            1 + *v
        },
        None => 1,
    }
}

/// The location recorded on a character's equipment: the character's display
/// key, or empty text when the character is unknown.
pub open spec fn spec_character_location(avatar: AvatarInfo, t: LookupTables) -> Seq<char> {
    match t.names.spec_get(decimal_digits(avatar.avatar_id as nat)) {
        Some(n) => n,
        None => Seq::<char>::empty(),
    }
}

/// What translating one character record yields: `Ok(None)` for a character
/// absent from the name table (skipped, though its equipment is still
/// processed), `Ok(Some(..))` for a known character, and an error when the
/// skill order is missing or a progress value does not parse.
pub open spec fn spec_translate_character(avatar: AvatarInfo, t: LookupTables) -> Result<
    Option<CharacterV>,
    TranslateError,
> {
    match t.skill_orders.spec_get(
        spec_skill_order_key(avatar.avatar_id, avatar.skill_depot_id),
    ) {
        None => Err(TranslateError::SkillOrderMissing),
        Some(ids) => match t.names.spec_get(decimal_digits(avatar.avatar_id as nat)) {
            None => Ok(None),
            Some(name) => {
                let level_text = match avatar.prop_map.level.val {
                    Some(s) => s@,
                    None => "1"@,
                };
                let ascension_text = match avatar.prop_map.ascension.val {
                    Some(s) => s@,
                    None => "0"@,
                };
                match parse_u8_spec(level_text) {
                    None => Err(TranslateError::InvalidLevel),
                    Some(level) => match parse_u8_spec(ascension_text) {
                        None => Err(TranslateError::InvalidAscension),
                        Some(ascension) => Ok(
                            Some(
                                CharacterV {
                                    key: name,
                                    level,
                                    constellation: (match avatar.talent_id_list {
                                        Some(l) => l@.len() as u8,
                                        None => 0u8,
                                    }),
                                    ascension,
                                    talent: GoodTalents {
                                        auto: spec_talent_level(
                                            avatar.skill_level_map.deep_view(),
                                            ids.0,
                                        ),
                                        skill: spec_talent_level(
                                            avatar.skill_level_map.deep_view(),
                                            ids.1,
                                        ),
                                        burst: spec_talent_level(
                                            avatar.skill_level_map.deep_view(),
                                            ids.2,
                                        ),
                                    },
                                },
                            ),
                        ),
                    },
                }
            },
        },
    }
}

/// Translates one character record: the entity to store (or nothing, for an
/// unknown character) and the location text its equipment carries.
pub fn translate_character(avatar: &AvatarInfo, tables: &LookupTables) -> (r: Result<
    (Option<GoodCharacter>, String),
    TranslateError,
>)
    requires
        avatar.wf(),
    ensures
        (match r {
            Ok(p) => spec_translate_character(*avatar, *tables) == Ok::<
                Option<CharacterV>,
                TranslateError,
            >(p.0.deep_view()) && p.1@ == spec_character_location(*avatar, *tables),
            Err(e) => spec_translate_character(*avatar, *tables) == Err::<
                Option<CharacterV>,
                TranslateError,
            >(e),
        }),
{
    let sk = skill_order_key(avatar.avatar_id, avatar.skill_depot_id);
    let ids = match tables.skill_orders.get(&sk) {
        Some(ids) => ids,
        None => {
            return Err(TranslateError::SkillOrderMissing);
        },
    };
    let id_text = decimal_string(avatar.avatar_id as u64);
    let name = match tables.names.get(&id_text) {
        None => {
            return Ok((None, String::new()));
        },
        Some(n) => n,
    };
    let level = match &avatar.prop_map.level.val {
        Some(s) => parse_u8(s.as_str()),
        None => parse_u8("1"),
    };
    let level = match level {
        Some(v) => v,
        None => {
            return Err(TranslateError::InvalidLevel);
        },
    };
    let ascension = match &avatar.prop_map.ascension.val {
        Some(s) => parse_u8(s.as_str()),
        None => parse_u8("0"),
    };
    let ascension = match ascension {
        Some(v) => v,
        None => {
            return Err(TranslateError::InvalidAscension);
        },
    };
    let constellation: u8 = match &avatar.talent_id_list {
        Some(l) => l.len() as u8,
        None => 0,
    };
    let talent = GoodTalents {
        auto: talent_level(&avatar.skill_level_map, ids.0),
        skill: talent_level(&avatar.skill_level_map, ids.1),
        burst: talent_level(&avatar.skill_level_map, ids.2),
    };
    let c = GoodCharacter { key: name.clone(), level, constellation, ascension, talent };
    Ok((Some(c), name.clone()))
}

/// What translating a sub-stat list yields: each stat code resolved through
/// the stat table, values carried over exactly; a missing code is fatal.
pub open spec fn spec_substats(ss: Seq<RelicSS>, t: LookupTables) -> Result<
    Seq<SubstatV>,
    TranslateError,
>
    decreases ss.len(),
{
    if ss.len() == 0 {
        Ok(Seq::<SubstatV>::empty())
    } else {
        match spec_substats(ss.drop_last(), t) {
            Err(e) => Err(e),
            Ok(rest) => match t.stats.spec_get(ss.last().append_prop_id@) {
                None => Err(TranslateError::SubStatMissing),
                Some(k) => Ok(rest.push(SubstatV { key: k, value: ss.last().stat_value@ })),
            },
        }
    }
}

/// A failed prefix decides the whole sub-stat list.
proof fn lemma_substats_prefix_err(ss: Seq<RelicSS>, t: LookupTables, i: int)
    requires
        0 <= i <= ss.len(),
        spec_substats(ss.subrange(0, i), t) is Err,
    ensures
        spec_substats(ss, t) == spec_substats(ss.subrange(0, i), t),
    decreases ss.len() - i,
{
    if i < ss.len() {
        assert(ss.subrange(0, i + 1).drop_last() =~= ss.subrange(0, i));
        lemma_substats_prefix_err(ss, t, i + 1);
    } else {
        assert(ss.subrange(0, ss.len() as int) =~= ss);
    }
}

/// Translates an artifact's sub-stat list.
fn translate_substats(ss: &Vec<RelicSS>, tables: &LookupTables) -> (r: Result<
    Vec<GoodSubstat>,
    TranslateError,
>)
    ensures
        (match r {
            Ok(v) => spec_substats(ss@, *tables) == Ok::<Seq<SubstatV>, TranslateError>(
                v.deep_view(),
            ),
            Err(e) => spec_substats(ss@, *tables) == Err::<Seq<SubstatV>, TranslateError>(e),
        }),
{
    let mut out: Vec<GoodSubstat> = Vec::new();
    let n = ss.len();
    let mut i: usize = 0;
    proof {
        assert(ss@.subrange(0, 0) =~= Seq::<RelicSS>::empty());
        assert(out.deep_view() =~= Seq::<SubstatV>::empty());
    }
    while i < n
        invariant
            0 <= i <= n,
            n == ss@.len(),
            spec_substats(ss@.subrange(0, i as int), *tables) == Ok::<
                Seq<SubstatV>,
                TranslateError,
            >(out.deep_view()),
        decreases n - i,
    {
        let ghost prev = out.deep_view();
        proof {
            assert(ss@.subrange(0, i + 1).drop_last() =~= ss@.subrange(0, i as int));
            assert(ss@.subrange(0, i + 1).last() == ss@[i as int]);
        }
        match tables.stats.get(&ss[i].append_prop_id) {
            None => {
                proof {
                    lemma_substats_prefix_err(ss@, *tables, i + 1);
                }
                return Err(TranslateError::SubStatMissing);
            },
            Some(k) => {
                out.push(GoodSubstat { key: k.clone(), value: ss[i].stat_value.clone() });
                proof {
                    assert(out.deep_view() =~= prev.push(
                        SubstatV { key: k@, value: ss@[i as int].stat_value@ },
                    ));
                }
            },
        }
        i = i + 1;
    }
    proof {
        assert(ss@.subrange(0, n as int) =~= ss@);
    }
    Ok(out)
}

/// What translating one artifact yields: `Ok(None)` for an unknown set name
/// (skipped), an error for a missing slot or stat code, and otherwise the
/// entity, with the stored level one below the source's one-based level.
pub open spec fn spec_translate_artifact(
    reliquary: EquipRelic,
    flat: EquipFlatVariantArtifact,
    location: Seq<char>,
    t: LookupTables,
) -> Result<Option<ArtifactV>, TranslateError> {
    match t.names.spec_get(flat.set_name_text_map_hash@) {
        None => Ok(None),
        Some(set_key) => match t.slots.spec_get(flat.equip_type@) {
            None => Err(TranslateError::SlotMissing),
            Some(slot_key) => match t.stats.spec_get(flat.reliquary_mainstat.main_prop_id@) {
                None => Err(TranslateError::MainStatMissing),
                Some(main_key) => match spec_substats(flat.reliquary_substats@, t) {
                    Err(e) => Err(e),
                    Ok(subs) => Ok(
                        Some(
                            ArtifactV {
                                set_key,
                                slot_key,
                                level: (reliquary.level - 1) as u8,
                                rarity: flat.rank_level,
                                main_stat_key: main_key,
                                location,
                                substats: subs,
                            },
                        ),
                    ),
                },
            },
        },
    }
}

/// Translates one equipped artifact.
pub fn translate_artifact(
    reliquary: &EquipRelic,
    flat: &EquipFlatVariantArtifact,
    location: &String,
    tables: &LookupTables,
) -> (r: Result<Option<GoodArtifact>, TranslateError>)
    requires
        reliquary.level >= 1,
    ensures
        (match r {
            Ok(o) => spec_translate_artifact(*reliquary, *flat, location@, *tables) == Ok::<
                Option<ArtifactV>,
                TranslateError,
            >(o.deep_view()),
            Err(e) => spec_translate_artifact(*reliquary, *flat, location@, *tables) == Err::<
                Option<ArtifactV>,
                TranslateError,
            >(e),
        }),
{
    let set_key = match tables.names.get(&flat.set_name_text_map_hash) {
        None => {
            return Ok(None);
        },
        Some(s) => s.clone(),
    };
    let slot_key = match tables.slots.get(&flat.equip_type) {
        None => {
            return Err(TranslateError::SlotMissing);
        },
        Some(s) => s.clone(),
    };
    let main_stat_key = match tables.stats.get(&flat.reliquary_mainstat.main_prop_id) {
        None => {
            return Err(TranslateError::MainStatMissing);
        },
        Some(s) => s.clone(),
    };
    let substats = match translate_substats(&flat.reliquary_substats, tables) {
        Err(e) => {
            return Err(e);
        },
        Ok(v) => v,
    };
    let g = GoodArtifact {
        set_key,
        slot_key,
        level: reliquary.level - 1,
        rarity: flat.rank_level,
        main_stat_key,
        location: location.clone(),
        substats,
    };
    proof {
        assert(Some(g@) =~= (match spec_translate_artifact(*reliquary, *flat, location@, *tables) {
            Ok(o) => o,
            Err(e) => None,
        }));
    }
    Ok(Some(g))
}

/// What translating one weapon yields: nothing for an unknown name
/// (skipped), otherwise the entity, with the promotion level defaulting to
/// zero and the refinement derived from the affix map.
pub open spec fn spec_translate_weapon(
    weapon: EquipWeapon,
    flat: EquipFlatVariantWeapon,
    location: Seq<char>,
    t: LookupTables,
) -> Option<WeaponV> {
    match t.names.spec_get(flat.name_text_map_hash@) {
        None => None,
        Some(k) => Some(
            WeaponV {
                key: k,
                level: weapon.level,
                ascension: (match weapon.promote_level {
                    Some(p) => p,
                    None => 0u8,
                }),
                refinement: spec_weapon_refinement(weapon),
                location,
            },
        ),
    }
}

/// Translates one equipped weapon.
pub fn translate_weapon(
    weapon: &EquipWeapon,
    flat: &EquipFlatVariantWeapon,
    location: &String,
    tables: &LookupTables,
) -> (r: Option<GoodWeapon>)
    requires
        weapon.wf(),
    ensures
        r.deep_view() == spec_translate_weapon(*weapon, *flat, location@, *tables),
{
    let key = match tables.names.get(&flat.name_text_map_hash) {
        None => {
            return None;
        },
        Some(s) => s.clone(),
    };
    let ascension = match weapon.promote_level {
        Some(p) => p,
        None => 0,
    };
    let refinement = weapon_refinement(weapon);
    Some(GoodWeapon { key, level: weapon.level, ascension, refinement, location: location.clone() })
}

/// The outcome of translating one equipped item: an entity to merge, or a
/// report that the item's name is unknown and the item is skipped.
pub enum ItemOutcome {
    Artifact(GoodArtifact),
    Weapon(GoodWeapon),
    UnknownArtifact,
    UnknownWeapon,
}

/// The mathematical value of an item outcome.
pub ghost enum ItemOutcomeV {
    Artifact(ArtifactV),
    Weapon(WeaponV),
    UnknownArtifact,
    UnknownWeapon,
}

impl View for ItemOutcome {
    type V = ItemOutcomeV;

    open spec fn view(&self) -> ItemOutcomeV {
        match self {
            ItemOutcome::Artifact(a) => ItemOutcomeV::Artifact(a@),
            ItemOutcome::Weapon(w) => ItemOutcomeV::Weapon(w@),
            ItemOutcome::UnknownArtifact => ItemOutcomeV::UnknownArtifact,
            ItemOutcome::UnknownWeapon => ItemOutcomeV::UnknownWeapon,
        }
    }
}

/// What translating one equipped item yields.
pub open spec fn spec_translate_equip(
    item: EquipVariant,
    location: Seq<char>,
    t: LookupTables,
) -> Result<ItemOutcomeV, TranslateError> {
    match item {
        EquipVariant::Artifact { reliquary, flat } => match spec_translate_artifact(
            reliquary,
            flat,
            location,
            t,
        ) {
            Err(e) => Err(e),
            Ok(None) => Ok(ItemOutcomeV::UnknownArtifact),
            Ok(Some(a)) => Ok(ItemOutcomeV::Artifact(a)),
        },
        EquipVariant::Weapon { weapon, flat } => match spec_translate_weapon(
            weapon,
            flat,
            location,
            t,
        ) {
            None => Ok(ItemOutcomeV::UnknownWeapon),
            Some(w) => Ok(ItemOutcomeV::Weapon(w)),
        },
    }
}

/// Translates one equipped item for the character at `location`.
pub fn translate_equip(item: &EquipVariant, location: &String, tables: &LookupTables) -> (r:
    Result<ItemOutcome, TranslateError>)
    requires
        item.wf(),
    ensures
        (match r {
            Ok(o) => spec_translate_equip(*item, location@, *tables) == Ok::<
                ItemOutcomeV,
                TranslateError,
            >(o@),
            Err(e) => spec_translate_equip(*item, location@, *tables) == Err::<
                ItemOutcomeV,
                TranslateError,
            >(e),
        }),
{
    match item {
        EquipVariant::Artifact { reliquary, flat } => {
            match translate_artifact(reliquary, flat, location, tables) {
                Err(e) => Err(e),
                Ok(None) => Ok(ItemOutcome::UnknownArtifact),
                Ok(Some(a)) => Ok(ItemOutcome::Artifact(a)),
            }
        },
        EquipVariant::Weapon { weapon, flat } => {
            match translate_weapon(weapon, flat, location, tables) {
                None => Ok(ItemOutcome::UnknownWeapon),
                Some(w) => Ok(ItemOutcome::Weapon(w)),
            }
        },
    }
}

/// What translating a whole equipment list yields: the artifacts and the
/// weapons to merge, in order, unknown items skipped; the first fatal error
/// decides the result.
pub open spec fn spec_translate_equips(
    items: Seq<EquipVariant>,
    location: Seq<char>,
    t: LookupTables,
) -> Result<(Seq<ArtifactV>, Seq<WeaponV>), TranslateError>
    decreases items.len(),
{
    if items.len() == 0 {
        Ok((Seq::<ArtifactV>::empty(), Seq::<WeaponV>::empty()))
    } else {
        match spec_translate_equips(items.drop_last(), location, t) {
            Err(e) => Err(e),
            Ok(acc) => match spec_translate_equip(items.last(), location, t) {
                Err(e) => Err(e),
                Ok(o) => Ok(
                    match o {
                        ItemOutcomeV::Artifact(a) => (acc.0.push(a), acc.1),
                        ItemOutcomeV::Weapon(w) => (acc.0, acc.1.push(w)),
                        ItemOutcomeV::UnknownArtifact => acc,
                        ItemOutcomeV::UnknownWeapon => acc,
                    },
                ),
            },
        }
    }
}

/// A failed prefix decides the whole equipment list.
proof fn lemma_equips_prefix_err(items: Seq<EquipVariant>, location: Seq<char>, t: LookupTables, i: int)
    requires
        0 <= i <= items.len(),
        spec_translate_equips(items.subrange(0, i), location, t) is Err,
    ensures
        spec_translate_equips(items, location, t) == spec_translate_equips(
            items.subrange(0, i),
            location,
            t,
        ),
    decreases items.len() - i,
{
    if i < items.len() {
        assert(items.subrange(0, i + 1).drop_last() =~= items.subrange(0, i));
        lemma_equips_prefix_err(items, location, t, i + 1);
    } else {
        assert(items.subrange(0, items.len() as int) =~= items);
    }
}

/// What translating one character record and its equipment yields.
pub open spec fn spec_translate_avatar(avatar: AvatarInfo, t: LookupTables) -> Result<
    (Option<CharacterV>, Seq<ArtifactV>, Seq<WeaponV>),
    TranslateError,
> {
    match spec_translate_character(avatar, t) {
        Err(e) => Err(e),
        Ok(copt) => match spec_translate_equips(
            avatar.equip_list@,
            spec_character_location(avatar, t),
            t,
        ) {
            Err(e) => Err(e),
            Ok(acc) => Ok((copt, acc.0, acc.1)),
        },
    }
}

/// What translating a list of character records yields: the characters,
/// artifacts and weapons to merge, in record order; the first fatal error
/// decides the result.
pub open spec fn spec_translate_avatars(avatars: Seq<AvatarInfo>, t: LookupTables) -> Result<
    (Seq<CharacterV>, Seq<ArtifactV>, Seq<WeaponV>),
    TranslateError,
>
    decreases avatars.len(),
{
    if avatars.len() == 0 {
        Ok((Seq::<CharacterV>::empty(), Seq::<ArtifactV>::empty(), Seq::<WeaponV>::empty()))
    } else {
        match spec_translate_avatars(avatars.drop_last(), t) {
            Err(e) => Err(e),
            Ok(acc) => match spec_translate_avatar(avatars.last(), t) {
                Err(e) => Err(e),
                Ok(one) => Ok(
                    (
                        (match one.0 {
                            Some(c) => acc.0.push(c),
                            None => acc.0,
                        }),
                        acc.1 + one.1,
                        acc.2 + one.2,
                    ),
                ),
            },
        }
    }
}

/// A failed prefix decides the whole record list.
proof fn lemma_avatars_prefix_err(avatars: Seq<AvatarInfo>, t: LookupTables, i: int)
    requires
        0 <= i <= avatars.len(),
        spec_translate_avatars(avatars.subrange(0, i), t) is Err,
    ensures
        spec_translate_avatars(avatars, t) == spec_translate_avatars(avatars.subrange(0, i), t),
    decreases avatars.len() - i,
{
    if i < avatars.len() {
        assert(avatars.subrange(0, i + 1).drop_last() =~= avatars.subrange(0, i));
        lemma_avatars_prefix_err(avatars, t, i + 1);
    } else {
        assert(avatars.subrange(0, avatars.len() as int) =~= avatars);
    }
}

/// What translating a whole profile document yields.
pub open spec fn spec_translate_player(p: EnkaPlayer, t: LookupTables) -> Result<
    (Seq<CharacterV>, Seq<ArtifactV>, Seq<WeaponV>),
    TranslateError,
> {
    spec_translate_avatars(p.avatar_info_list@, t)
}

/// Translates a whole profile document into a batch ready to merge: every
/// record's character entity (unknown characters skipped), and every record's
/// equipment (unknown names skipped), with each item's location set to its
/// owner's display key or to empty text for an unknown owner. The first
/// fatal error abandons the cycle.
pub fn translate_player(player: &EnkaPlayer, tables: &LookupTables) -> (r: Result<
    Batch,
    TranslateError,
>)
    requires
        player.wf(),
    ensures
        (match r {
            Ok(b) => spec_translate_player(*player, *tables) == Ok::<
                (Seq<CharacterV>, Seq<ArtifactV>, Seq<WeaponV>),
                TranslateError,
            >((b.characters.deep_view(), b.artifacts.deep_view(), b.weapons.deep_view())),
            Err(e) => spec_translate_player(*player, *tables) == Err::<
                (Seq<CharacterV>, Seq<ArtifactV>, Seq<WeaponV>),
                TranslateError,
            >(e),
        }),
{
    let mut characters: Vec<GoodCharacter> = Vec::new();
    let mut artifacts: Vec<GoodArtifact> = Vec::new();
    let mut weapons: Vec<GoodWeapon> = Vec::new();
    let ghost avs = player.avatar_info_list@;
    let n = player.avatar_info_list.len();
    let mut i: usize = 0;
    proof {
        assert(avs.subrange(0, 0) =~= Seq::<AvatarInfo>::empty());
        assert(characters.deep_view() =~= Seq::<CharacterV>::empty());
        assert(artifacts.deep_view() =~= Seq::<ArtifactV>::empty());
        assert(weapons.deep_view() =~= Seq::<WeaponV>::empty());
    }
    while i < n
        invariant
            0 <= i <= n,
            n == avs.len(),
            avs == player.avatar_info_list@,
            player.wf(),
            spec_translate_avatars(avs.subrange(0, i as int), *tables) == Ok::<
                (Seq<CharacterV>, Seq<ArtifactV>, Seq<WeaponV>),
                TranslateError,
            >((characters.deep_view(), artifacts.deep_view(), weapons.deep_view())),
        decreases n - i,
    {
        let ghost chars0 = characters.deep_view();
        let ghost arts0 = artifacts.deep_view();
        let ghost weps0 = weapons.deep_view();
        let avatar = &player.avatar_info_list[i];
        let ghost av = avs[i as int];
        proof {
            assert(av.wf());
            assert(avs.subrange(0, i + 1).drop_last() =~= avs.subrange(0, i as int));
            assert(avs.subrange(0, i + 1).last() == av);
        }
        let pair = match translate_character(avatar, tables) {
            Ok(p) => p,
            Err(e) => {
                proof {
                    assert(*avatar == av);
                    assert(spec_translate_character(av, *tables) == Err::<
                        Option<CharacterV>,
                        TranslateError,
                    >(e));
                    assert(spec_translate_avatar(av, *tables) == Err::<
                        (Option<CharacterV>, Seq<ArtifactV>, Seq<WeaponV>),
                        TranslateError,
                    >(e));
                    assert(spec_translate_avatars(avs.subrange(0, i + 1), *tables) == Err::<
                        (Seq<CharacterV>, Seq<ArtifactV>, Seq<WeaponV>),
                        TranslateError,
                    >(e));
                    lemma_avatars_prefix_err(avs, *tables, i + 1);
                    assert(spec_translate_player(*player, *tables) == Err::<
                        (Seq<CharacterV>, Seq<ArtifactV>, Seq<WeaponV>),
                        TranslateError,
                    >(e));
                }
                return Err(e);
            },
        };
        let copt = pair.0;
        let location = pair.1;
        let ghost copt_v = copt.deep_view();
        match copt {
            Some(c) => {
                characters.push(c);
                proof {
                    assert(characters.deep_view() =~= chars0.push(c@));
                }
            },
            None => (),
        }
        let m = avatar.equip_list.len();
        let mut j: usize = 0;
        proof {
            assert(av.equip_list@.subrange(0, 0) =~= Seq::<EquipVariant>::empty());
            assert(artifacts.deep_view() =~= arts0 + Seq::<ArtifactV>::empty());
            assert(weapons.deep_view() =~= weps0 + Seq::<WeaponV>::empty());
        }
        while j < m
            invariant
                0 <= j <= m,
                m == av.equip_list@.len(),
                av == avs[i as int],
                0 <= i < avs.len(),
                avs == player.avatar_info_list@,
                *avatar == av,
                av.wf(),
                location@ == spec_character_location(av, *tables),
                spec_translate_character(av, *tables) == Ok::<Option<CharacterV>, TranslateError>(
                    copt_v,
                ),
                spec_translate_avatars(avs.subrange(0, i as int), *tables) == Ok::<
                    (Seq<CharacterV>, Seq<ArtifactV>, Seq<WeaponV>),
                    TranslateError,
                >((chars0, arts0, weps0)),
                spec_translate_equips(av.equip_list@.subrange(0, j as int), location@, *tables)
                    is Ok,
                (match spec_translate_equips(
                    av.equip_list@.subrange(0, j as int),
                    location@,
                    *tables,
                ) {
                    Ok(acc) => artifacts.deep_view() == arts0 + acc.0 && weapons.deep_view()
                        == weps0 + acc.1,
                    Err(e) => false,
                }),
            decreases m - j,
        {
            let ghost items = av.equip_list@;
            let ghost acc = (match spec_translate_equips(
                items.subrange(0, j as int),
                location@,
                *tables,
            ) {
                Ok(acc) => acc,
                Err(e) => (Seq::<ArtifactV>::empty(), Seq::<WeaponV>::empty()),
            });
            proof {
                assert(items.subrange(0, j + 1).drop_last() =~= items.subrange(0, j as int));
                assert(items.subrange(0, j + 1).last() == items[j as int]);
                assert(av.equip_list@[j as int].wf());
            }
            let item = &avatar.equip_list[j];
            match translate_equip(item, &location, tables) {
                Err(e) => {
                    proof {
                        assert(*item == items[j as int]);
                        assert(spec_translate_equip(items[j as int], location@, *tables) == Err::<
                            ItemOutcomeV,
                            TranslateError,
                        >(e));
                        assert(spec_translate_equips(
                            items.subrange(0, j + 1),
                            location@,
                            *tables,
                        ) == Err::<(Seq<ArtifactV>, Seq<WeaponV>), TranslateError>(e));
                        lemma_equips_prefix_err(items, location@, *tables, j + 1);
                        assert(spec_translate_avatar(av, *tables) == Err::<
                            (Option<CharacterV>, Seq<ArtifactV>, Seq<WeaponV>),
                            TranslateError,
                        >(e));
                        assert(avs.subrange(0, i + 1).drop_last() =~= avs.subrange(0, i as int));
                        assert(avs.subrange(0, i + 1).last() == av);
                        assert(spec_translate_avatars(avs.subrange(0, i + 1), *tables) == Err::<
                            (Seq<CharacterV>, Seq<ArtifactV>, Seq<WeaponV>),
                            TranslateError,
                        >(e));
                        lemma_avatars_prefix_err(avs, *tables, i + 1);
                    }
                    return Err(e);
                },
                Ok(ItemOutcome::Artifact(a)) => {
                    let ghost before = artifacts.deep_view();
                    artifacts.push(a);
                    proof {
                        assert(artifacts.deep_view() =~= before.push(a@));
                        assert(artifacts.deep_view() =~= arts0 + acc.0.push(a@));
                    }
                },
                Ok(ItemOutcome::Weapon(w)) => {
                    let ghost before = weapons.deep_view();
                    weapons.push(w);
                    proof {
                        assert(weapons.deep_view() =~= before.push(w@));
                        assert(weapons.deep_view() =~= weps0 + acc.1.push(w@));
                    }
                },
                Ok(ItemOutcome::UnknownArtifact) => (),
                Ok(ItemOutcome::UnknownWeapon) => (),
            }
            j = j + 1;
        }
        proof {
            assert(av.equip_list@.subrange(0, m as int) =~= av.equip_list@);
        }
        i = i + 1;
    }
    proof {
        assert(avs.subrange(0, n as int) =~= avs);
    }
    Ok(Batch { characters, artifacts, weapons })
}

} // verus!

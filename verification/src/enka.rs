//! The decoded profile document: what one fetch cycle hands the translator.
//! The decoder (an external collaborator) produces these plain values; the
//! translator consumes them. Numeric stat values are kept as the exact
//! decimal text the document carried.
use vstd::prelude::*;

verus! {

/// One nullable progress value, carried as text in the source document.
pub struct Prop {
    pub val: Option<String>,
}

/// The two progress values the translator reads: character level and
/// ascension tier.
pub struct AvatarProps {
    pub level: Prop,
    pub ascension: Prop,
}

/// The relic part of an equipped artifact. The source encodes the level
/// one-based relative to the displayed in-game level.
pub struct EquipRelic {
    pub level: u8,
}

/// An artifact's main stat: a stat code and the exact decimal value text.
pub struct RelicMS {
    pub main_prop_id: String,
    pub stat_value: String,
}

/// One artifact sub-stat: a stat code and the exact decimal value text.
pub struct RelicSS {
    pub append_prop_id: String,
    pub stat_value: String,
}

/// The flat (display) part of an equipped artifact.
pub struct EquipFlatVariantArtifact {
    pub set_name_text_map_hash: String,
    pub rank_level: u8,
    pub reliquary_mainstat: RelicMS,
    pub reliquary_substats: Vec<RelicSS>,
    pub equip_type: String,
}

/// The flat (display) part of an equipped weapon.
pub struct EquipFlatVariantWeapon {
    pub name_text_map_hash: String,
    pub rank_level: u8,
}

/// The weapon part of an equipped weapon: level, nullable promotion level,
/// the weapon's own item identifier, and the refinement-affix map keyed by
/// item-identifier-derived text.
pub struct EquipWeapon {
    pub level: u8,
    pub promote_level: Option<u8>,
    pub item_id: u32,
    pub affix_map: Vec<(String, u8)>,
}

impl EquipWeapon {
    /// Every affix level leaves room for the one-based refinement it yields.
    pub open spec fn wf(self) -> bool {
        forall|i: int| 0 <= i < self.affix_map@.len() ==> (#[trigger] self.affix_map@[i]).1 < 255
    }
}

/// One equipped item: the artifact variant or the weapon variant, told
/// apart structurally by which field sets the document carries.
#[allow(inconsistent_fields)]
pub enum EquipVariant {
    Artifact { reliquary: EquipRelic, flat: EquipFlatVariantArtifact },
    Weapon { weapon: EquipWeapon, flat: EquipFlatVariantWeapon },
}

impl EquipVariant {
    /// What the translator needs of a decoded item: a one-based relic level
    /// for artifacts, and affix room for weapons.
    pub open spec fn wf(self) -> bool {
        match self {
            EquipVariant::Artifact { reliquary, flat } => reliquary.level >= 1,
            EquipVariant::Weapon { weapon, flat } => weapon.wf(),
        }
    }
}

/// One character record of the profile document.
pub struct AvatarInfo {
    pub avatar_id: u32,
    pub talent_id_list: Option<Vec<u32>>,
    pub prop_map: AvatarProps,
    pub skill_depot_id: u32,
    pub skill_level_map: Vec<(String, u8)>,
    pub equip_list: Vec<EquipVariant>,
}

impl AvatarInfo {
    /// What the translator needs of a decoded record: a constellation count
    /// that fits its field, and well-formed equipment.
    pub open spec fn wf(self) -> bool {
        &&& (match self.talent_id_list {
            Some(l) => l@.len() <= 255,
            None => true,
        })
        &&& forall|i: int|
            0 <= i < self.equip_list@.len() ==> (#[trigger] self.equip_list@[i]).wf()
    }
}

/// The account header of the profile document.
pub struct PlayerInfo {
    pub nickname: String,
}

/// A whole decoded profile document: account header, character records and
/// the server's refresh-interval hint.
pub struct EnkaPlayer {
    pub player_info: PlayerInfo,
    pub avatar_info_list: Vec<AvatarInfo>,
    pub ttl: u8,
    pub uid: String,
}

impl EnkaPlayer {
    /// Every record of the document is well-formed.
    pub open spec fn wf(self) -> bool {
        forall|i: int|
            0 <= i < self.avatar_info_list@.len() ==> (
            #[trigger] self.avatar_info_list@[i]).wf()
    }
}

} // verus!

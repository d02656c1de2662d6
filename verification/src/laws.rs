//! The library's stated laws. Of the merge engine: merging is idempotent, an
//! identity-key collision moves an item rather than duplicating it, and a
//! change to a core attribute makes a distinct entry. Of the translator: the
//! relic level offset, the refinement default, the fallback defaults for
//! null progress fields, the skill-order key disambiguation, and the
//! unknown-character skip.
use vstd::prelude::*;
use crate::enka::{AvatarInfo, EquipRelic, EquipFlatVariantArtifact, EquipWeapon};
use crate::good::{ArtifactV, CharacterV, GoodV, WeaponV};
use crate::good::{artifact_key_fn, character_key_fn, merge_view, weapon_key_fn, wf_view};
use crate::lookup::{table_get, LookupTables};
use crate::merge::{has_key, last_key_index, merge_seq, unique_keys};
use crate::merge::{lemma_merge_membership, lemma_merge_seq_idempotent};
use crate::strutil::{all_dec_digits, decimal_digits, digits_val, parse_u8_spec};
use crate::translate::{spec_affix_key, spec_character_location, spec_skill_order_key,
    spec_translate_artifact, spec_translate_avatar, spec_translate_character,
    spec_translate_equips, spec_weapon_refinement, TranslateError, TRAVELER_AVATAR_ID};

verus! {

/// Law: merging the same translated batch into a well-formed collection
/// twice yields a set-equal result to merging it once. An identity-key
/// collision triggers a replacement, never a duplicate.
pub proof fn lemma_merge_idempotent(
    c: GoodV,
    bc: Seq<CharacterV>,
    ba: Seq<ArtifactV>,
    bw: Seq<WeaponV>,
)
    requires
        wf_view(c),
    ensures
        merge_view(merge_view(c, bc, ba, bw), bc, ba, bw).characters.to_set() == merge_view(
            c,
            bc,
            ba,
            bw,
        ).characters.to_set(),
        merge_view(merge_view(c, bc, ba, bw), bc, ba, bw).artifacts.to_set() == merge_view(
            c,
            bc,
            ba,
            bw,
        ).artifacts.to_set(),
        merge_view(merge_view(c, bc, ba, bw), bc, ba, bw).weapons.to_set() == merge_view(
            c,
            bc,
            ba,
            bw,
        ).weapons.to_set(),
        wf_view(merge_view(c, bc, ba, bw)),
{
    let m1 = merge_view(c, bc, ba, bw);
    let m2 = merge_view(m1, bc, ba, bw);
    lemma_merge_membership(c.characters, character_key_fn(), bc);
    lemma_merge_membership(c.artifacts, artifact_key_fn(), ba);
    lemma_merge_membership(c.weapons, weapon_key_fn(), bw);
    lemma_merge_seq_idempotent(c.characters, character_key_fn(), bc);
    lemma_merge_seq_idempotent(c.artifacts, artifact_key_fn(), ba);
    lemma_merge_seq_idempotent(c.weapons, weapon_key_fn(), bw);
    assert(m2.characters.to_set() =~= m1.characters.to_set());
    assert(m2.artifacts.to_set() =~= m1.artifacts.to_set());
    assert(m2.weapons.to_set() =~= m1.weapons.to_set());
}

/// Law: for two artifacts that differ at most in `location`, merging the
/// second after the first leaves exactly one entry with their shared
/// identity key, and that entry is the second one, so the second's location
/// is the one retained.
pub proof fn lemma_artifact_location_move(s: Seq<ArtifactV>, a1: ArtifactV, a2: ArtifactV)
    requires
        unique_keys(s, artifact_key_fn()),
        a1.id_key() == a2.id_key(),
    ensures
        merge_seq(s, artifact_key_fn(), seq![a1, a2]).contains(a2),
        forall|x: ArtifactV|
            merge_seq(s, artifact_key_fn(), seq![a1, a2]).contains(x) && x.id_key() == a2.id_key()
                ==> x == a2,
        unique_keys(merge_seq(s, artifact_key_fn(), seq![a1, a2]), artifact_key_fn()),
{
    let kf = artifact_key_fn();
    let b = seq![a1, a2];
    lemma_merge_membership(s, kf, b);
    assert(kf(b[1]) == a2.id_key());
    assert(has_key(b, kf, a2.id_key()));
    assert(last_key_index(b, kf, a2.id_key()) == 1);
    assert(merge_seq(s, kf, b).contains(a2));
    assert forall|x: ArtifactV|
        merge_seq(s, kf, b).contains(x) && x.id_key() == a2.id_key() implies x == a2 by {
        assert(kf(x) == a2.id_key());
    }
}

/// Law: for two weapons that differ at most in `location`, merging the
/// second after the first leaves exactly one entry with their shared
/// identity key, and that entry is the second one.
pub proof fn lemma_weapon_location_move(s: Seq<WeaponV>, w1: WeaponV, w2: WeaponV)
    requires
        unique_keys(s, weapon_key_fn()),
        w1.id_key() == w2.id_key(),
    ensures
        merge_seq(s, weapon_key_fn(), seq![w1, w2]).contains(w2),
        forall|x: WeaponV|
            merge_seq(s, weapon_key_fn(), seq![w1, w2]).contains(x) && x.id_key() == w2.id_key()
                ==> x == w2,
        unique_keys(merge_seq(s, weapon_key_fn(), seq![w1, w2]), weapon_key_fn()),
{
    let kf = weapon_key_fn();
    let b = seq![w1, w2];
    lemma_merge_membership(s, kf, b);
    assert(kf(b[1]) == w2.id_key());
    assert(has_key(b, kf, w2.id_key()));
    assert(last_key_index(b, kf, w2.id_key()) == 1);
    assert(merge_seq(s, kf, b).contains(w2));
    assert forall|x: WeaponV|
        merge_seq(s, kf, b).contains(x) && x.id_key() == w2.id_key() implies x == w2 by {
        assert(kf(x) == w2.id_key());
    }
}

/// Law: two artifacts with different levels have different identity keys,
/// so merging both leaves both in the set, however alike their other
/// attributes are.
pub proof fn lemma_artifact_level_distinct(s: Seq<ArtifactV>, a1: ArtifactV, a2: ArtifactV)
    requires
        unique_keys(s, artifact_key_fn()),
        a1.level != a2.level,
    ensures
        merge_seq(s, artifact_key_fn(), seq![a1, a2]).contains(a1),
        merge_seq(s, artifact_key_fn(), seq![a1, a2]).contains(a2),
{
    let kf = artifact_key_fn();
    let b = seq![a1, a2];
    lemma_merge_membership(s, kf, b);
    assert(kf(b[1]) == a2.id_key());
    assert(has_key(b, kf, a2.id_key()));
    assert(last_key_index(b, kf, a2.id_key()) == 1);
    assert(merge_seq(s, kf, b).contains(a2));
    assert(kf(b[0]) == a1.id_key());
    assert(has_key(b, kf, a1.id_key()));
    assert(a1.id_key() != a2.id_key());
    assert(b.drop_last() =~= seq![a1]);
    assert(last_key_index(seq![a1], kf, a1.id_key()) == 0);
    assert(last_key_index(b, kf, a1.id_key()) == 0);
    assert(merge_seq(s, kf, b).contains(a1));
}

/// Law: a source relic level of one yields a stored artifact level of zero,
/// the source being one-based relative to the displayed level.
pub proof fn lemma_relic_level_offset(
    reliquary: EquipRelic,
    flat: EquipFlatVariantArtifact,
    location: Seq<char>,
    t: LookupTables,
)
    requires
        reliquary.level == 1,
    ensures
        (match spec_translate_artifact(reliquary, flat, location, t) {
            Ok(Some(a)) => a.level == 0,
            Ok(None) => true,
            Err(e) => true,
        }),
{
}

/// Law: a weapon whose affix map has no entry under its own
/// item-identifier-derived key has refinement one.
pub proof fn lemma_refinement_default(w: EquipWeapon)
    requires
        table_get(w.affix_map.deep_view(), spec_affix_key(w.item_id)) is None,
    ensures
        spec_weapon_refinement(w) == 1,
{
}

/// Law: a character record with a null leveling value yields level one, a
/// null ascension value yields ascension zero, and a null constellation list
/// yields constellation zero.
pub proof fn lemma_character_fallback_defaults(avatar: AvatarInfo, t: LookupTables)
    requires
        avatar.prop_map.level.val is None,
        avatar.prop_map.ascension.val is None,
        avatar.talent_id_list is None,
    ensures
        (match spec_translate_character(avatar, t) {
            Ok(Some(c)) => c.level == 1 && c.ascension == 0 && c.constellation == 0,
            Ok(None) => true,
            Err(e) => e == TranslateError::SkillOrderMissing,
        }),
{
    reveal_strlit("1");
    reveal_strlit("0");
    assert("1"@ =~= seq!['1']);
    assert("0"@ =~= seq!['0']);
    assert(seq!['1'].drop_last() =~= Seq::<char>::empty());
    assert(seq!['0'].drop_last() =~= Seq::<char>::empty());
    assert(digits_val(Seq::<char>::empty()) == 0);
    assert(digits_val(seq!['1']) == 1);
    assert(digits_val(seq!['0']) == 0);
    assert(all_dec_digits(seq!['1'])) by {
        assert(seq!['1'][0] == '1');
    }
    assert(all_dec_digits(seq!['0'])) by {
        assert(seq!['0'][0] == '0');
    }
    assert(parse_u8_spec("1"@) == Some(1u8));
    assert(parse_u8_spec("0"@) == Some(0u8));
}

/// Law: the multi-form character's skill order is looked up under the
/// composite key of identifier and depot, which differs from the plain
/// decimal key; every other character uses the plain decimal key.
pub proof fn lemma_skill_order_disambiguation(depot: u32, other_id: u32)
    requires
        other_id != TRAVELER_AVATAR_ID,
    ensures
        spec_skill_order_key(TRAVELER_AVATAR_ID, depot) == decimal_digits(
            TRAVELER_AVATAR_ID as nat,
        ) + seq!['-'] + decimal_digits(depot as nat),
        spec_skill_order_key(other_id, depot) == decimal_digits(other_id as nat),
        spec_skill_order_key(TRAVELER_AVATAR_ID, depot) != decimal_digits(
            TRAVELER_AVATAR_ID as nat,
        ),
{
    let d1 = decimal_digits(TRAVELER_AVATAR_ID as nat);
    let d2 = decimal_digits(depot as nat);
    assert(d2.len() >= 1);
    assert((d1 + seq!['-'] + d2).len() == d1.len() + 1 + d2.len());
}

/// Law: a character identifier absent from the name table produces no
/// character entity, and its equipment is still translated, carrying empty
/// location text.
pub proof fn lemma_unknown_character_skip(avatar: AvatarInfo, t: LookupTables)
    requires
        t.names.spec_get(decimal_digits(avatar.avatar_id as nat)) is None,
    ensures
        spec_character_location(avatar, t) == Seq::<char>::empty(),
        (match spec_translate_character(avatar, t) {
            Ok(c) => c is None,
            Err(e) => e == TranslateError::SkillOrderMissing,
        }),
        (match spec_translate_avatar(avatar, t) {
            Ok(one) => one.0 is None && spec_translate_equips(
                avatar.equip_list@,
                Seq::<char>::empty(),
                t,
            ) == Ok::<(Seq<ArtifactV>, Seq<WeaponV>), TranslateError>((one.1, one.2)),
            Err(e) => true,
        }),
{
}

} // verus!

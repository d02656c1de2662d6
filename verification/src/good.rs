//! The GOOD interchange model: characters, artifacts and weapons, each kept
//! as a set whose membership is decided by an identity key, and the merge
//! that folds a freshly translated batch into a persisted collection.
//!
//! The identity key of an artifact or a weapon deliberately excludes
//! `location`: re-equipping a known item onto another character overwrites
//! the stored location instead of duplicating the entry, while any change to
//! a core attribute (level, refinement, a sub-stat) makes a distinct entry.
use vstd::prelude::*;
use vstd::pervasive::VecAdditionalExecFns;
use vstd::string::*;
use crate::merge::{has_key, key_index, merge_seq, replace_one, unique_keys};
use crate::merge::{lemma_key_index, lemma_merge_membership};

verus! {

/// A talent-level triple for one character: normal attack, elemental skill
/// and burst, in that order.
#[derive(Clone, Copy, Debug, PartialEq, Eq, Structural)]
pub struct GoodTalents {
    pub auto: u8,
    pub skill: u8,
    pub burst: u8,
}

/// One artifact sub-stat: a stat key and its value as exact decimal text.
/// The value takes part in identity, so it is kept as the digits the source
/// document carried, never as a lossy binary number.
#[derive(Debug, PartialEq, Eq)]
pub struct GoodSubstat {
    pub key: String,
    pub value: String,
}

/// The mathematical value of a sub-stat.
#[verifier::ext_equal]
pub ghost struct SubstatV {
    pub key: Seq<char>,
    pub value: Seq<char>,
}

impl View for GoodSubstat {
    type V = SubstatV;

    open spec fn view(&self) -> SubstatV {
        SubstatV { key: self.key@, value: self.value@ }
    }
}

impl DeepView for GoodSubstat {
    type V = SubstatV;

    open spec fn deep_view(&self) -> SubstatV {
        self@
    }
}

impl Clone for GoodSubstat {
    fn clone(&self) -> (r: Self)
        ensures
            r@ == self@,
    {
        GoodSubstat { key: self.key.clone(), value: self.value.clone() }
    }
}

/// One character entry. Every field takes part in identity: a character
/// record is replaced wholesale on re-sync, never partially merged.
#[derive(Debug, PartialEq, Eq)]
pub struct GoodCharacter {
    pub key: String,
    pub level: u8,
    pub constellation: u8,
    pub ascension: u8,
    pub talent: GoodTalents,
}

/// The mathematical value of a character entry.
#[verifier::ext_equal]
pub ghost struct CharacterV {
    pub key: Seq<char>,
    pub level: u8,
    pub constellation: u8,
    pub ascension: u8,
    pub talent: GoodTalents,
}

impl View for GoodCharacter {
    type V = CharacterV;

    open spec fn view(&self) -> CharacterV {
        CharacterV {
            key: self.key@,
            level: self.level,
            constellation: self.constellation,
            ascension: self.ascension,
            talent: self.talent,
        }
    }
}

impl DeepView for GoodCharacter {
    type V = CharacterV;

    open spec fn deep_view(&self) -> CharacterV {
        self@
    }
}

impl Clone for GoodCharacter {
    fn clone(&self) -> (r: Self)
        ensures
            r@ == self@,
    {
        GoodCharacter {
            key: self.key.clone(),
            level: self.level,
            constellation: self.constellation,
            ascension: self.ascension,
            talent: self.talent,
        }
    }
}

/// One artifact entry.
#[derive(Debug, PartialEq, Eq)]
pub struct GoodArtifact {
    pub set_key: String,
    pub slot_key: String,
    pub level: u8,
    pub rarity: u8,
    pub main_stat_key: String,
    pub location: String,
    pub substats: Vec<GoodSubstat>,
}

/// The mathematical value of an artifact entry.
#[verifier::ext_equal]
pub ghost struct ArtifactV {
    pub set_key: Seq<char>,
    pub slot_key: Seq<char>,
    pub level: u8,
    pub rarity: u8,
    pub main_stat_key: Seq<char>,
    pub location: Seq<char>,
    pub substats: Seq<SubstatV>,
}

/// The identity key of an artifact: every field but `location`.
#[verifier::ext_equal]
pub ghost struct ArtifactKey {
    pub set_key: Seq<char>,
    pub slot_key: Seq<char>,
    pub level: u8,
    pub rarity: u8,
    pub main_stat_key: Seq<char>,
    pub substats: Seq<SubstatV>,
}

impl ArtifactV {
    /// The projection that decides set membership for artifacts.
    pub open spec fn id_key(self) -> ArtifactKey {
        ArtifactKey {
            set_key: self.set_key,
            slot_key: self.slot_key,
            level: self.level,
            rarity: self.rarity,
            main_stat_key: self.main_stat_key,
            substats: self.substats,
        }
    }
}

impl View for GoodArtifact {
    type V = ArtifactV;

    open spec fn view(&self) -> ArtifactV {
        ArtifactV {
            set_key: self.set_key@,
            slot_key: self.slot_key@,
            level: self.level,
            rarity: self.rarity,
            main_stat_key: self.main_stat_key@,
            location: self.location@,
            substats: self.substats.deep_view(),
        }
    }
}

impl DeepView for GoodArtifact {
    type V = ArtifactV;

    open spec fn deep_view(&self) -> ArtifactV {
        self@
    }
}

impl Clone for GoodArtifact {
    fn clone(&self) -> (r: Self)
        ensures
            r@ == self@,
    {
        let r = GoodArtifact {
            set_key: self.set_key.clone(),
            slot_key: self.slot_key.clone(),
            level: self.level,
            rarity: self.rarity,
            main_stat_key: self.main_stat_key.clone(),
            location: self.location.clone(),
            substats: self.substats.clone(),
        };
        proof {
            assert(r.substats.deep_view() =~= self.substats.deep_view());
        }
        r
    }
}

impl GoodArtifact {
    /// The identity key as plain values: every field but `location`.
    pub fn key(&self) -> (r: (String, String, u8, u8, String, Vec<GoodSubstat>))
        ensures
            r.0@ == self@.id_key().set_key,
            r.1@ == self@.id_key().slot_key,
            r.2 == self@.id_key().level,
            r.3 == self@.id_key().rarity,
            r.4@ == self@.id_key().main_stat_key,
            r.5.deep_view() == self@.id_key().substats,
    {
        let c = self.clone();
        (c.set_key, c.slot_key, c.level, c.rarity, c.main_stat_key, c.substats)
    }
}

/// One weapon entry.
#[derive(Debug, PartialEq, Eq)]
pub struct GoodWeapon {
    pub key: String,
    pub level: u8,
    pub ascension: u8,
    pub refinement: u8,
    pub location: String,
}

/// The mathematical value of a weapon entry.
#[verifier::ext_equal]
pub ghost struct WeaponV {
    pub key: Seq<char>,
    pub level: u8,
    pub ascension: u8,
    pub refinement: u8,
    pub location: Seq<char>,
}

/// The identity key of a weapon: every field but `location`.
#[verifier::ext_equal]
pub ghost struct WeaponKey {
    pub key: Seq<char>,
    pub level: u8,
    pub ascension: u8,
    pub refinement: u8,
}

impl WeaponV {
    /// The projection that decides set membership for weapons.
    pub open spec fn id_key(self) -> WeaponKey {
        WeaponKey {
            key: self.key,
            level: self.level,
            ascension: self.ascension,
            refinement: self.refinement,
        }
    }
}

impl View for GoodWeapon {
    type V = WeaponV;

    open spec fn view(&self) -> WeaponV {
        WeaponV {
            key: self.key@,
            level: self.level,
            ascension: self.ascension,
            refinement: self.refinement,
            location: self.location@,
        }
    }
}

impl DeepView for GoodWeapon {
    type V = WeaponV;

    open spec fn deep_view(&self) -> WeaponV {
        self@
    }
}

impl Clone for GoodWeapon {
    fn clone(&self) -> (r: Self)
        ensures
            r@ == self@,
    {
        GoodWeapon {
            key: self.key.clone(),
            level: self.level,
            ascension: self.ascension,
            refinement: self.refinement,
            location: self.location.clone(),
        }
    }
}

impl GoodWeapon {
    /// The identity key as plain values: every field but `location`.
    pub fn key(&self) -> (r: (String, u8, u8, u8))
        ensures
            r.0@ == self@.id_key().key,
            r.1 == self@.id_key().level,
            r.2 == self@.id_key().ascension,
            r.3 == self@.id_key().refinement,
    {
        (self.key.clone(), self.level, self.ascension, self.refinement)
    }
}

/// The key projection for artifact set membership.
pub open spec fn artifact_key_fn() -> spec_fn(ArtifactV) -> ArtifactKey {
    |a: ArtifactV| a.id_key()
}

/// The key projection for weapon set membership.
pub open spec fn weapon_key_fn() -> spec_fn(WeaponV) -> WeaponKey {
    |w: WeaponV| w.id_key()
}

/// The key projection for character set membership: the whole record.
pub open spec fn character_key_fn() -> spec_fn(CharacterV) -> CharacterV {
    |c: CharacterV| c
}

/// Whether two sub-stat lists hold the same keys and values, in order.
fn substats_eq(a: &Vec<GoodSubstat>, b: &Vec<GoodSubstat>) -> (r: bool)
    ensures
        r == (a.deep_view() == b.deep_view()),
{
    if a.len() != b.len() {
        proof {
            assert(a.deep_view().len() != b.deep_view().len());
        }
        return false;
    }
    let n = a.len();
    let mut i: usize = 0;
    while i < n
        invariant
            0 <= i <= n,
            n == a@.len() == b@.len(),
            forall|j: int| 0 <= j < i ==> a.deep_view()[j] == b.deep_view()[j],
        decreases n - i,
    {
        if !(a[i].key == b[i].key) || !(a[i].value == b[i].value) {
            proof {
                assert(a.deep_view()[i as int] != b.deep_view()[i as int]);
            }
            return false;
        }
        i = i + 1;
    }
    proof {
        assert(a.deep_view() =~= b.deep_view());
    }
    true
}

/// Whether two artifacts share an identity key, that is, agree on every
/// field but `location`.
pub fn same_artifact_key(a: &GoodArtifact, b: &GoodArtifact) -> (r: bool)
    ensures
        r == (a@.id_key() == b@.id_key()),
{
    let keys_eq = a.set_key == b.set_key && a.slot_key == b.slot_key && a.level == b.level
        && a.rarity == b.rarity && a.main_stat_key == b.main_stat_key;
    if !keys_eq {
        return false;
    }
    let r = substats_eq(&a.substats, &b.substats);
    proof {
        if r {
            assert(a@.id_key() =~= b@.id_key());
        }
    }
    r
}

/// Whether two weapons share an identity key, that is, agree on every field
/// but `location`.
pub fn same_weapon_key(a: &GoodWeapon, b: &GoodWeapon) -> (r: bool)
    ensures
        r == (a@.id_key() == b@.id_key()),
{
    let r = a.key == b.key && a.level == b.level && a.ascension == b.ascension && a.refinement
        == b.refinement;
    proof {
        if r {
            assert(a@.id_key() =~= b@.id_key());
        }
    }
    r
}

/// Whether two character entries agree on every field.
pub fn same_character(a: &GoodCharacter, b: &GoodCharacter) -> (r: bool)
    ensures
        r == (a@ == b@),
{
    let r = a.key == b.key && a.level == b.level && a.constellation == b.constellation
        && a.ascension == b.ascension && a.talent == b.talent;
    proof {
        if r {
            assert(a@ =~= b@);
        }
    }
    r
}

/// A persisted collection in the GOOD format: a format marker, a schema
/// version, a tool signature, and the three entity sets.
#[derive(Debug, PartialEq, Eq)]
pub struct GoodType {
    pub format: String,
    pub version: u8,
    pub source: String,
    pub characters: Vec<GoodCharacter>,
    pub artifacts: Vec<GoodArtifact>,
    pub weapons: Vec<GoodWeapon>,
}

/// The mathematical value of a collection.
#[verifier::ext_equal]
pub ghost struct GoodV {
    pub format: Seq<char>,
    pub version: u8,
    pub source: Seq<char>,
    pub characters: Seq<CharacterV>,
    pub artifacts: Seq<ArtifactV>,
    pub weapons: Seq<WeaponV>,
}

impl View for GoodType {
    type V = GoodV;

    open spec fn view(&self) -> GoodV {
        GoodV {
            format: self.format@,
            version: self.version,
            source: self.source@,
            characters: self.characters.deep_view(),
            artifacts: self.artifacts.deep_view(),
            weapons: self.weapons.deep_view(),
        }
    }
}

/// Whether a collection value has set semantics: no two entries of an
/// entity sequence share an identity key.
pub open spec fn wf_view(c: GoodV) -> bool {
    &&& unique_keys(c.characters, character_key_fn())
    &&& unique_keys(c.artifacts, artifact_key_fn())
    &&& unique_keys(c.weapons, weapon_key_fn())
}

/// The collection value after a whole batch merge: each entity sequence
/// merged under its identity key, the header fields untouched.
pub open spec fn merge_view(
    c: GoodV,
    bc: Seq<CharacterV>,
    ba: Seq<ArtifactV>,
    bw: Seq<WeaponV>,
) -> GoodV {
    GoodV {
        format: c.format,
        version: c.version,
        source: c.source,
        characters: merge_seq(c.characters, character_key_fn(), bc),
        artifacts: merge_seq(c.artifacts, artifact_key_fn(), ba),
        weapons: merge_seq(c.weapons, weapon_key_fn(), bw),
    }
}

/// A freshly translated batch, ready to be merged into a collection.
#[derive(Debug, PartialEq, Eq)]
pub struct Batch {
    pub characters: Vec<GoodCharacter>,
    pub artifacts: Vec<GoodArtifact>,
    pub weapons: Vec<GoodWeapon>,
}

impl GoodType {
    /// The set semantics of the three entity lists: no two entries share an
    /// identity key.
    pub open spec fn wf(self) -> bool {
        wf_view(self@)
    }

    /// A fresh, empty collection with the fixed format marker, schema
    /// version and tool signature.
    pub fn new() -> (r: GoodType)
        ensures
            r@.format == "GOOD"@,
            r@.version == 2,
            r@.source == "enka_good-0.1.0"@,
            r@.characters == Seq::<CharacterV>::empty(),
            r@.artifacts == Seq::<ArtifactV>::empty(),
            r@.weapons == Seq::<WeaponV>::empty(),
            r.wf(),
    {
        let r = GoodType {
            format: String::from_str("GOOD"),
            version: 2,
            source: String::from_str("enka_good-0.1.0"),
            characters: Vec::new(),
            artifacts: Vec::new(),
            weapons: Vec::new(),
        };
        proof {
            assert(r@.characters =~= Seq::<CharacterV>::empty());
            assert(r@.artifacts =~= Seq::<ArtifactV>::empty());
            assert(r@.weapons =~= Seq::<WeaponV>::empty());
        }
        r
    }

    /// Inserts a character entry: an entry equal in every field is replaced
    /// (leaving the set unchanged up to values), anything else is appended.
    pub fn insert_character(&mut self, c: GoodCharacter)
        ensures
            final(self)@.characters == replace_one(
                old(self)@.characters,
                character_key_fn(),
                c@,
            ),
            final(self)@.artifacts == old(self)@.artifacts,
            final(self)@.weapons == old(self)@.weapons,
            final(self)@.format == old(self)@.format,
            final(self)@.version == old(self)@.version,
            final(self)@.source == old(self)@.source,
    {
        let ghost s = self.characters.deep_view();
        let ghost kf = character_key_fn();
        let n = self.characters.len();
        let mut i: usize = 0;
        while i < n
            invariant
                0 <= i <= n,
                n == self.characters@.len(),
                *self == *old(self),
                s == self.characters.deep_view(),
                kf == character_key_fn(),
                forall|j: int| 0 <= j < i ==> kf(#[trigger] s[j]) != kf(c@),
            decreases n - i,
        {
            let hit = same_character(&self.characters[i], &c);
            if hit {
                proof {
                    assert(kf(s[i as int]) == kf(c@));
                    lemma_key_index(s, kf, kf(c@));
                    assert(key_index(s, kf, kf(c@)) == i as int);
                }
                self.characters.set(i, c);
                proof {
                    assert(self.characters.deep_view() =~= replace_one(s, kf, c@));
                }
                return ;
            }
            i = i + 1;
        }
        proof {
            assert(!has_key(s, kf, kf(c@)));
        }
        self.characters.push(c);
        proof {
            assert(self.characters.deep_view() =~= replace_one(s, kf, c@));
        }
    }

    /// Merges one artifact: it replaces the entry sharing its identity key,
    /// or is appended when none does. Only `location` can differ between a
    /// replaced entry and its replacement's identity.
    pub fn replace_artifact(&mut self, a: GoodArtifact)
        ensures
            final(self)@.artifacts == replace_one(old(self)@.artifacts, artifact_key_fn(), a@),
            final(self)@.characters == old(self)@.characters,
            final(self)@.weapons == old(self)@.weapons,
            final(self)@.format == old(self)@.format,
            final(self)@.version == old(self)@.version,
            final(self)@.source == old(self)@.source,
    {
        let ghost s = self.artifacts.deep_view();
        let ghost kf = artifact_key_fn();
        let n = self.artifacts.len();
        let mut i: usize = 0;
        while i < n
            invariant
                0 <= i <= n,
                n == self.artifacts@.len(),
                *self == *old(self),
                s == self.artifacts.deep_view(),
                kf == artifact_key_fn(),
                forall|j: int| 0 <= j < i ==> kf(#[trigger] s[j]) != kf(a@),
            decreases n - i,
        {
            let hit = same_artifact_key(&self.artifacts[i], &a);
            if hit {
                proof {
                    assert(kf(s[i as int]) == kf(a@));
                    lemma_key_index(s, kf, kf(a@));
                    assert(key_index(s, kf, kf(a@)) == i as int);
                }
                self.artifacts.set(i, a);
                proof {
                    assert(self.artifacts.deep_view() =~= replace_one(s, kf, a@));
                }
                return ;
            }
            i = i + 1;
        }
        proof {
            assert(!has_key(s, kf, kf(a@)));
        }
        self.artifacts.push(a);
        proof {
            assert(self.artifacts.deep_view() =~= replace_one(s, kf, a@));
        }
    }

    /// Merges one weapon: it replaces the entry sharing its identity key, or
    /// is appended when none does.
    pub fn replace_weapon(&mut self, w: GoodWeapon)
        ensures
            final(self)@.weapons == replace_one(old(self)@.weapons, weapon_key_fn(), w@),
            final(self)@.characters == old(self)@.characters,
            final(self)@.artifacts == old(self)@.artifacts,
            final(self)@.format == old(self)@.format,
            final(self)@.version == old(self)@.version,
            final(self)@.source == old(self)@.source,
    {
        let ghost s = self.weapons.deep_view();
        let ghost kf = weapon_key_fn();
        let n = self.weapons.len();
        let mut i: usize = 0;
        while i < n
            invariant
                0 <= i <= n,
                n == self.weapons@.len(),
                *self == *old(self),
                s == self.weapons.deep_view(),
                kf == weapon_key_fn(),
                forall|j: int| 0 <= j < i ==> kf(#[trigger] s[j]) != kf(w@),
            decreases n - i,
        {
            let hit = same_weapon_key(&self.weapons[i], &w);
            if hit {
                proof {
                    assert(kf(s[i as int]) == kf(w@));
                    lemma_key_index(s, kf, kf(w@));
                    assert(key_index(s, kf, kf(w@)) == i as int);
                }
                self.weapons.set(i, w);
                proof {
                    assert(self.weapons.deep_view() =~= replace_one(s, kf, w@));
                }
                return ;
            }
            i = i + 1;
        }
        proof {
            assert(!has_key(s, kf, kf(w@)));
        }
        self.weapons.push(w);
        proof {
            assert(self.weapons.deep_view() =~= replace_one(s, kf, w@));
        }
    }

    /// Folds a whole translated batch into the collection, in order: every
    /// batch entry replaces the entry sharing its identity key or is
    /// appended. Nothing is ever removed, and the header fields stay as they
    /// were. A well-formed collection stays well-formed.
    pub fn merge(&mut self, batch: &Batch)
        ensures
            final(self)@.characters == merge_seq(
                old(self)@.characters,
                character_key_fn(),
                batch.characters.deep_view(),
            ),
            final(self)@.artifacts == merge_seq(
                old(self)@.artifacts,
                artifact_key_fn(),
                batch.artifacts.deep_view(),
            ),
            final(self)@.weapons == merge_seq(
                old(self)@.weapons,
                weapon_key_fn(),
                batch.weapons.deep_view(),
            ),
            final(self)@.format == old(self)@.format,
            final(self)@.version == old(self)@.version,
            final(self)@.source == old(self)@.source,
            final(self)@ == merge_view(
                old(self)@,
                batch.characters.deep_view(),
                batch.artifacts.deep_view(),
                batch.weapons.deep_view(),
            ),
            old(self).wf() ==> final(self).wf(),
    {
        let ghost s0 = self@;
        let ghost bc = batch.characters.deep_view();
        let ghost ba = batch.artifacts.deep_view();
        let ghost bw = batch.weapons.deep_view();
        let nc = batch.characters.len();
        let mut i: usize = 0;
        while i < nc
            invariant
                0 <= i <= nc,
                nc == batch.characters@.len(),
                bc == batch.characters.deep_view(),
                self@.characters == merge_seq(s0.characters, character_key_fn(), bc.subrange(0, i as int)),
                self@.artifacts == s0.artifacts,
                self@.weapons == s0.weapons,
                self@.format == s0.format,
                self@.version == s0.version,
                self@.source == s0.source,
            decreases nc - i,
        {
            let c = batch.characters[i].clone();
            self.insert_character(c);
            proof {
                assert(bc.subrange(0, i + 1).drop_last() =~= bc.subrange(0, i as int));
                assert(bc.subrange(0, i + 1).last() == bc[i as int]);
            }
            i = i + 1;
        }
        proof {
            assert(bc.subrange(0, nc as int) =~= bc);
        }
        let na = batch.artifacts.len();
        let mut i: usize = 0;
        while i < na
            invariant
                0 <= i <= na,
                na == batch.artifacts@.len(),
                ba == batch.artifacts.deep_view(),
                bc == batch.characters.deep_view(),
                self@.characters == merge_seq(s0.characters, character_key_fn(), bc),
                self@.artifacts == merge_seq(s0.artifacts, artifact_key_fn(), ba.subrange(0, i as int)),
                self@.weapons == s0.weapons,
                self@.format == s0.format,
                self@.version == s0.version,
                self@.source == s0.source,
            decreases na - i,
        {
            let a = batch.artifacts[i].clone();
            self.replace_artifact(a);
            proof {
                assert(ba.subrange(0, i + 1).drop_last() =~= ba.subrange(0, i as int));
                assert(ba.subrange(0, i + 1).last() == ba[i as int]);
            }
            i = i + 1;
        }
        proof {
            assert(ba.subrange(0, na as int) =~= ba);
        }
        let nw = batch.weapons.len();
        let mut i: usize = 0;
        while i < nw
            invariant
                0 <= i <= nw,
                nw == batch.weapons@.len(),
                bw == batch.weapons.deep_view(),
                ba == batch.artifacts.deep_view(),
                bc == batch.characters.deep_view(),
                self@.characters == merge_seq(s0.characters, character_key_fn(), bc),
                self@.artifacts == merge_seq(s0.artifacts, artifact_key_fn(), ba),
                self@.weapons == merge_seq(s0.weapons, weapon_key_fn(), bw.subrange(0, i as int)),
                self@.format == s0.format,
                self@.version == s0.version,
                self@.source == s0.source,
            decreases nw - i,
        {
            let w = batch.weapons[i].clone();
            self.replace_weapon(w);
            proof {
                assert(bw.subrange(0, i + 1).drop_last() =~= bw.subrange(0, i as int));
                assert(bw.subrange(0, i + 1).last() == bw[i as int]);
            }
            i = i + 1;
        }
        proof {
            assert(bw.subrange(0, nw as int) =~= bw);
            assert(self@ =~= merge_view(s0, bc, ba, bw));
            if old(self).wf() {
                lemma_merge_membership(s0.characters, character_key_fn(), bc);
                lemma_merge_membership(s0.artifacts, artifact_key_fn(), ba);
                lemma_merge_membership(s0.weapons, weapon_key_fn(), bw);
            }
        }
    }
}

} // verus!

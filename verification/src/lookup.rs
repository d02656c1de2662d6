//! The immutable lookup tables that the translator is given at start-up:
//! identifier text to display key, equip-type code to slot key, stat code to
//! stat key, and character key to skill-order triple. Each table is an
//! association list read by first match.
use vstd::prelude::*;

verus! {

/// First-match lookup in an association list; the model of every table.
pub open spec fn table_get<V>(entries: Seq<(Seq<char>, V)>, k: Seq<char>) -> Option<V>
    decreases entries.len(),
{
    if entries.len() == 0 {
        None
    } else if entries[0].0 == k {
        Some(entries[0].1)
    } else {
        table_get(entries.drop_first(), k)
    }
}

proof fn lemma_table_get_skip<V>(entries: Seq<(Seq<char>, V)>, k: Seq<char>, i: int)
    requires
        0 <= i <= entries.len(),
        forall|j: int| 0 <= j < i ==> (#[trigger] entries[j]).0 != k,
    ensures
        table_get(entries, k) == table_get(entries.skip(i), k),
    decreases i,
{
    if i > 0 {
        lemma_table_get_skip(entries.drop_first(), k, i - 1);
        assert(entries.drop_first().skip(i - 1) =~= entries.skip(i));
    } else {
        assert(entries.skip(0) =~= entries);
    }
}

/// A found value comes from some entry whose key matched.
pub proof fn lemma_table_get_entry<V>(entries: Seq<(Seq<char>, V)>, k: Seq<char>)
    requires
        table_get(entries, k) is Some,
    ensures
        exists|i: int|
            0 <= i < entries.len() && (#[trigger] entries[i]).0 == k && table_get(entries, k)
                == Some(entries[i].1),
    decreases entries.len(),
{
    if entries.len() > 0 && entries[0].0 != k {
        lemma_table_get_entry(entries.drop_first(), k);
        let i = choose|i: int|
            0 <= i < entries.drop_first().len() && (#[trigger] entries.drop_first()[i]).0 == k
                && table_get(entries.drop_first(), k) == Some(entries.drop_first()[i].1);
        assert(entries[i + 1] == entries.drop_first()[i]);
    }
}

/// First-match lookup in a list of `(key, value)` pairs.
pub(crate) fn assoc_get<'a, V: DeepView>(entries: &'a Vec<(String, V)>, k: &String) -> (r: Option<
    &'a V,
>)
    ensures
        match r {
            Some(v) => table_get(entries.deep_view(), k@) == Some(v.deep_view()),
            None => table_get(entries.deep_view(), k@) is None,
        },
{
    let ghost m = entries.deep_view();
    let n = entries.len();
    let mut i: usize = 0;
    while i < n
        invariant
            0 <= i <= n,
            n == entries@.len(),
            m == entries.deep_view(),
            forall|j: int| 0 <= j < i ==> (#[trigger] m[j]).0 != k@,
        decreases n - i,
    {
        if entries[i].0 == *k {
            proof {
                lemma_table_get_skip(m, k@, i as int);
                assert(m.skip(i as int)[0] == m[i as int]);
            }
            return Some(&entries[i].1);
        }
        i = i + 1;
    }
    proof {
        lemma_table_get_skip(m, k@, n as int);
        assert(m.skip(n as int) =~= Seq::<(Seq<char>, V::V)>::empty());
    }
    None
}

/// A table from identifier text to key text.
pub struct StrTable {
    pub entries: Vec<(String, String)>,
}

impl StrTable {
    /// The value the table holds for `k`, if any.
    pub open spec fn spec_get(self, k: Seq<char>) -> Option<Seq<char>> {
        table_get(self.entries.deep_view(), k)
    }

    /// A table with no entries.
    pub fn new() -> (r: StrTable)
        ensures
            r.entries@.len() == 0,
            forall|k: Seq<char>| r.spec_get(k) is None,
    {
        let r = StrTable { entries: Vec::new() };
        proof {
            assert(forall|k: Seq<char>| r.spec_get(k) is None) by {
                assert(r.entries.deep_view() =~= Seq::<(Seq<char>, Seq<char>)>::empty());
            }
        }
        r
    }

    /// Appends one entry; an earlier entry with the same key keeps priority.
    pub fn push(&mut self, k: String, v: String)
        ensures
            final(self).entries@ == old(self).entries@.push((k, v)),
    {
        self.entries.push((k, v));
    }

    /// Looks `k` up by first match.
    pub fn get<'a>(&'a self, k: &String) -> (r: Option<&'a String>)
        ensures
            match r {
                Some(v) => self.spec_get(k@) == Some(v@),
                None => self.spec_get(k@) is None,
            },
    {
        assoc_get(&self.entries, k)
    }
}

/// A table from character key text to a skill-order triple: the slot
/// identifiers of the normal attack, the elemental skill and the burst.
pub struct SkillOrderTable {
    pub entries: Vec<(String, (u32, u32, u32))>,
}

impl SkillOrderTable {
    /// The triple the table holds for `k`, if any.
    pub open spec fn spec_get(self, k: Seq<char>) -> Option<(u32, u32, u32)> {
        table_get(self.entries.deep_view(), k)
    }

    /// A table with no entries.
    pub fn new() -> (r: SkillOrderTable)
        ensures
            r.entries@.len() == 0,
            forall|k: Seq<char>| r.spec_get(k) is None,
    {
        let r = SkillOrderTable { entries: Vec::new() };
        proof {
            assert(forall|k: Seq<char>| r.spec_get(k) is None) by {
                assert(r.entries.deep_view() =~= Seq::<(Seq<char>, (u32, u32, u32))>::empty());
            }
        }
        r
    }

    /// Appends one entry; an earlier entry with the same key keeps priority.
    pub fn push(&mut self, k: String, v: (u32, u32, u32))
        ensures
            final(self).entries@ == old(self).entries@.push((k, v)),
    {
        self.entries.push((k, v));
    }

    /// Looks `k` up by first match.
    pub fn get(&self, k: &String) -> (r: Option<(u32, u32, u32)>)
        ensures
            r == self.spec_get(k@),
    {
        match assoc_get(&self.entries, k) {
            Some(v) => Some(*v),
            None => None,
        }
    }
}

/// The three identifier tables and the skill-order table, loaded once
/// before any cycle runs and read-only afterwards.
pub struct LookupTables {
    /// Character and item identifiers to display keys.
    pub names: StrTable,
    /// Equip-type codes to artifact slot keys.
    pub slots: StrTable,
    /// Stat codes to stat keys.
    pub stats: StrTable,
    /// Character keys to skill-order triples.
    pub skill_orders: SkillOrderTable,
}

} // verus!

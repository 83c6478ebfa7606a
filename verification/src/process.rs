//! The data derived from a dictionary's description: sorted affix names, the code map, and the
//! option flags that the entries use. A `HunspellDict` holds it, consistent with its contents.

use vstd::prelude::*;
use crate::codes::{
    config_code_table, entry_codes, flags_fit, indexed_codes, CodeMap, MAX_CONFIG_CODE, MAX_FLAGS,
};
use crate::keys::{affix_names, first_duplicate, get_sorted_affix_keys, sorted_order, strictly_sorted};
use crate::types::{
    is_empty_config, is_empty_metadata, texts, Affix, AffixType, DictConfig, DictEntry, DictError,
    DictFault, DictMetadata, FlagCode,
};

verus! {

/// The option codes (below `MAX_CONFIG_CODE`) among `cs`.
pub open spec fn low_codes(cs: Seq<FlagCode>) -> Set<FlagCode> {
    cs.to_set().filter(|c: FlagCode| c.0 < MAX_CONFIG_CODE)
}

/// The failure of the first entry, from the front, whose flags cannot be formed.
pub open spec fn entries_fault(
    entries: Seq<DictEntry>,
    cfg: Seq<(Seq<char>, u16)>,
    pfx: Seq<(Seq<char>, u16)>,
    sfx: Seq<(Seq<char>, u16)>,
) -> Option<DictFault>
    decreases entries.len(),
{
    if entries.len() == 0 {
        None
    } else {
        match entries_fault(entries.drop_last(), cfg, pfx, sfx) {
            Some(f) => Some(f),
            None => match entry_codes(entries.last(), cfg, pfx, sfx) {
                Err(f) => Some(f),
                Ok(_) => None,
            },
        }
    }
}

/// The option codes that at least one entry carries.
pub open spec fn used_set(
    entries: Seq<DictEntry>,
    cfg: Seq<(Seq<char>, u16)>,
    pfx: Seq<(Seq<char>, u16)>,
    sfx: Seq<(Seq<char>, u16)>,
) -> Set<FlagCode>
    decreases entries.len(),
{
    if entries.len() == 0 {
        Set::empty()
    } else {
        used_set(entries.drop_last(), cfg, pfx, sfx).union(
            match entry_codes(entries.last(), cfg, pfx, sfx) {
                Ok(cs) => low_codes(cs),
                Err(_) => Set::empty(),
            },
        )
    }
}

/// Codes in strictly increasing numeric order.
pub open spec fn strictly_increasing(v: Seq<FlagCode>) -> bool {
    forall|i: int, j: int| 0 <= i < j < v.len() ==> (#[trigger] v[i]).0 < (#[trigger] v[j]).0
}

/// The sorted order of the names holds exactly the names, each once, in increasing order.
pub open spec fn sorted_names(names: Seq<Seq<char>>) -> bool {
    &&& strictly_sorted(sorted_order(names))
    &&& sorted_order(names).to_set() == names.to_set()
    &&& sorted_order(names).len() == names.len()
}

/// The codes of the prefixes of a dictionary whose prefixes are `prefix`.
pub open spec fn prefix_pairs_of(prefix: Seq<(String, Affix)>) -> Seq<(Seq<char>, u16)> {
    indexed_codes(sorted_order(affix_names(prefix)), MAX_CONFIG_CODE as int)
}

/// The codes of the suffixes: they follow the prefixes' codes.
pub open spec fn suffix_pairs_of(prefix: Seq<(String, Affix)>, suffix: Seq<(String, Affix)>) -> Seq<
    (Seq<char>, u16),
> {
    indexed_codes(sorted_order(affix_names(suffix)), MAX_CONFIG_CODE + prefix.len())
}

/// Why a dictionary with these affixes and entries cannot be built, checked in this order:
/// too many flags, a repeated prefix name, a repeated suffix name, an entry naming an unknown
/// affix.
pub open spec fn load_fault(
    prefix: Seq<(String, Affix)>,
    suffix: Seq<(String, Affix)>,
    entries: Seq<DictEntry>,
) -> Option<DictFault> {
    if MAX_CONFIG_CODE + prefix.len() + suffix.len() > MAX_FLAGS {
        Some(DictFault::TooManyFlags)
    } else if first_duplicate(affix_names(prefix)) is Some {
        Some(DictFault::DuplicateKey(AffixType::Prefix, first_duplicate(affix_names(prefix))->0))
    } else if first_duplicate(affix_names(suffix)) is Some {
        Some(DictFault::DuplicateKey(AffixType::Suffix, first_duplicate(affix_names(suffix))->0))
    } else {
        entries_fault(
            entries,
            config_code_table(),
            prefix_pairs_of(prefix),
            suffix_pairs_of(prefix, suffix),
        )
    }
}

/// A failure among the first entries is the failure of all of them.
proof fn lemma_entries_fault_prefix(
    entries: Seq<DictEntry>,
    cfg: Seq<(Seq<char>, u16)>,
    pfx: Seq<(Seq<char>, u16)>,
    sfx: Seq<(Seq<char>, u16)>,
    m: int,
)
    requires
        0 <= m <= entries.len(),
        entries_fault(entries.take(m), cfg, pfx, sfx) is Some,
    ensures
        entries_fault(entries, cfg, pfx, sfx) == entries_fault(entries.take(m), cfg, pfx, sfx),
    decreases entries.len(),
{
    if m == entries.len() {
        assert(entries.take(m) =~= entries);
    } else {
        assert(entries.drop_last().take(m) =~= entries.take(m));
        lemma_entries_fault_prefix(entries.drop_last(), cfg, pfx, sfx, m);
    }
}

/// Adds `c` to a strictly increasing list of codes, keeping it strictly increasing.
fn insert_flag(v: &mut Vec<FlagCode>, c: FlagCode)
    requires
        strictly_increasing(old(v)@),
    ensures
        strictly_increasing(final(v)@),
        final(v)@.to_set() == old(v)@.to_set().insert(c),
{
    let mut j: usize = 0;
    while j < v.len() && v[j].0 < c.0
        invariant
            j <= v.len(),
            forall|t: int| 0 <= t < j ==> (#[trigger] v@[t]).0 < c.0,
        decreases v.len() - j,
    {
        j = j + 1;
    }
    if j < v.len() && v[j].0 == c.0 {
        assert(v@[j as int] == c);
        assert(v@.to_set().insert(c) =~= v@.to_set());
        return;
    }
    let ghost s = v@;
    v.insert(j, c);
    proof {
        let n = v@;
        assert(n =~= s.insert(j as int, c));
        assert forall|p: int, q: int| 0 <= p < q < n.len() implies (#[trigger] n[p]).0 < (
        #[trigger] n[q]).0 by {
            if q < j {
                assert(n[p] == s[p] && n[q] == s[q]);
            } else if q == j {
                assert(n[p] == s[p]);
            } else if p < j {
                assert(n[p] == s[p] && n[q] == s[q - 1]);
                assert(s[j as int].0 <= s[q - 1].0);
            } else if p == j {
                assert(n[q] == s[q - 1]);
                assert(s[j as int].0 <= s[q - 1].0);
            } else {
                assert(n[p] == s[p - 1] && n[q] == s[q - 1]);
            }
        }
        assert(n.to_set() =~= s.to_set().insert(c)) by {
            assert forall|y: FlagCode| n.to_set().contains(y) implies #[trigger] s.to_set().insert(
                c,
            ).contains(y) by {
                let t = choose|t: int| 0 <= t < n.len() && n[t] == y;
                if t < j {
                    assert(s[t] == y);
                } else if t > j {
                    assert(s[t - 1] == y);
                }
            }
            assert forall|y: FlagCode| s.to_set().insert(c).contains(y) implies #[trigger] n.to_set().contains(y) by {
                if y == c {
                    assert(n[j as int] == y);
                } else {
                    let t = choose|t: int| 0 <= t < s.len() && s[t] == y;
                    if t < j {
                        assert(n[t] == y);
                    } else {
                        assert(n[t + 1] == y);
                    }
                }
            }
        }
    }
}

/// Sorted affix names, their codes, and the option codes in use.
#[derive(Debug)]
pub(crate) struct DerivedDictData {
    pub sorted_prefix_keys: Vec<String>,
    pub sorted_suffix_keys: Vec<String>,
    pub code_map: CodeMap,
    pub used_flags: Vec<FlagCode>,
}

/// A Hunspell dictionary: its description, with the codes derived from it.
#[derive(Debug)]
pub struct HunspellDict {
    pub(crate) metadata: DictMetadata,
    pub(crate) config: DictConfig,
    pub(crate) prefix: Vec<(String, Affix)>,
    pub(crate) suffix: Vec<(String, Affix)>,
    pub(crate) entry: Vec<DictEntry>,
    pub(crate) derived: DerivedDictData,
}

impl HunspellDict {
    /// The derived data agrees with the description, and the description can be built.
    #[verifier::type_invariant]
    pub open(crate) spec fn wf(self) -> bool {
        &&& load_fault(self.prefix@, self.suffix@, self.entry@) is None
        &&& texts(self.derived.sorted_prefix_keys@) == sorted_order(affix_names(self.prefix@))
        &&& texts(self.derived.sorted_suffix_keys@) == sorted_order(affix_names(self.suffix@))
        &&& sorted_names(affix_names(self.prefix@))
        &&& sorted_names(affix_names(self.suffix@))
        &&& self.derived.code_map.cfg_pairs() == config_code_table()
        &&& self.derived.code_map.pfx_pairs() == prefix_pairs_of(self.prefix@)
        &&& self.derived.code_map.sfx_pairs() == suffix_pairs_of(self.prefix@, self.suffix@)
        &&& strictly_increasing(self.derived.used_flags@)
        &&& self.derived.used_flags@.to_set() == used_set(
            self.entry@,
            config_code_table(),
            prefix_pairs_of(self.prefix@),
            suffix_pairs_of(self.prefix@, self.suffix@),
        )
    }

    /// The metadata, as given.
    pub closed spec fn spec_metadata(&self) -> DictMetadata {
        self.metadata
    }

    /// The settings, as given.
    pub closed spec fn spec_config(&self) -> DictConfig {
        self.config
    }

    /// The named prefixes, as given.
    pub closed spec fn spec_prefix(&self) -> Seq<(String, Affix)> {
        self.prefix@
    }

    /// The named suffixes, as given.
    pub closed spec fn spec_suffix(&self) -> Seq<(String, Affix)> {
        self.suffix@
    }

    /// The entries, as given.
    pub closed spec fn spec_entries(&self) -> Seq<DictEntry> {
        self.entry@
    }

    /// The codes of the prefixes, in sorted order of their names.
    pub open spec fn spec_prefix_pairs(&self) -> Seq<(Seq<char>, u16)> {
        prefix_pairs_of(self.spec_prefix())
    }

    /// The codes of the suffixes, in sorted order of their names.
    pub open spec fn spec_suffix_pairs(&self) -> Seq<(Seq<char>, u16)> {
        suffix_pairs_of(self.spec_prefix(), self.spec_suffix())
    }

    /// The flags of an entry of this dictionary.
    pub open spec fn spec_entry_codes(&self, e: DictEntry) -> Result<Seq<FlagCode>, DictFault> {
        entry_codes(e, config_code_table(), self.spec_prefix_pairs(), self.spec_suffix_pairs())
    }

    /// The option codes that some entry carries.
    pub open spec fn spec_used_flags(&self) -> Set<FlagCode> {
        used_set(self.spec_entries(), config_code_table(), self.spec_prefix_pairs(), self.spec_suffix_pairs())
    }

    /// Builds a dictionary from its metadata, settings, named prefixes and suffixes, and
    /// entries; fails on more flags than `MAX_FLAGS`, on a repeated affix name, or on an entry
    /// that names an affix that is not defined.
    pub fn new(
        metadata: DictMetadata,
        config: DictConfig,
        prefix: Vec<(String, Affix)>,
        suffix: Vec<(String, Affix)>,
        entry: Vec<DictEntry>,
    ) -> (r: Result<HunspellDict, DictError>)
        ensures
            match r {
                Ok(d) => {
                    &&& load_fault(prefix@, suffix@, entry@) is None
                    &&& d.spec_metadata() == metadata
                    &&& d.spec_config() == config
                    &&& d.spec_prefix() == prefix@
                    &&& d.spec_suffix() == suffix@
                    &&& d.spec_entries() == entry@
                },
                Err(e) => load_fault(prefix@, suffix@, entry@) == Some(e@),
            },
    {
        let derived = match Self::compute_derived_data(&prefix, &suffix, &entry) {
            Ok(d) => d,
            Err(e) => return Err(e),
        };
        Ok(HunspellDict { metadata, config, prefix, suffix, entry, derived })
    }
}

impl HunspellDict {
    /// The option codes that the entries use, in increasing order; or the first entry's failure.
    pub(crate) fn get_used_flags(entries: &Vec<DictEntry>, code_map: &CodeMap) -> (r: Result<
        Vec<FlagCode>,
        DictError,
    >)
        ensures
            match r {
                Ok(v) => {
                    &&& entries_fault(entries@, code_map.cfg_pairs(), code_map.pfx_pairs(), code_map.sfx_pairs()) is None
                    &&& strictly_increasing(v@)
                    &&& v@.to_set() == used_set(entries@, code_map.cfg_pairs(), code_map.pfx_pairs(), code_map.sfx_pairs())
                },
                Err(e) => entries_fault(entries@, code_map.cfg_pairs(), code_map.pfx_pairs(), code_map.sfx_pairs())
                    == Some(e@),
            },
    {
        let ghost cfg = code_map.cfg_pairs();
        let ghost pfx = code_map.pfx_pairs();
        let ghost sfx = code_map.sfx_pairs();
        let mut used_flags: Vec<FlagCode> = Vec::new();
        let mut i: usize = 0;
        assert(entries@.take(0) =~= Seq::<DictEntry>::empty());
        assert(used_flags@.to_set() =~= Set::<FlagCode>::empty());
        while i < entries.len()
            invariant
                cfg == code_map.cfg_pairs(),
                pfx == code_map.pfx_pairs(),
                sfx == code_map.sfx_pairs(),
                i <= entries.len(),
                entries_fault(entries@.take(i as int), cfg, pfx, sfx) is None,
                strictly_increasing(used_flags@),
                used_flags@.to_set() == used_set(entries@.take(i as int), cfg, pfx, sfx),
            decreases entries.len() - i,
        {
            let ghost prefix_i = entries@.take(i as int);
            let ghost prefix_i1 = entries@.take(i + 1);
            assert(prefix_i1.drop_last() =~= prefix_i);
            assert(prefix_i1.last() == entries@[i as int]);
            let codes = match entries[i].collect_flag_codes(code_map) {
                Ok(codes) => codes,
                Err(e) => {
                    proof {
                        lemma_entries_fault_prefix(entries@, cfg, pfx, sfx, i + 1);
                    }
                    return Err(e);
                },
            };
            let ghost base = used_flags@.to_set();
            let mut j: usize = 0;
            assert(low_codes(codes@.take(0)) =~= Set::<FlagCode>::empty());
            assert(used_flags@.to_set() =~= base.union(low_codes(codes@.take(0))));
            while j < codes.len()
                invariant
                    j <= codes.len(),
                    strictly_increasing(used_flags@),
                    used_flags@.to_set() == base.union(low_codes(codes@.take(j as int))),
                decreases codes.len() - j,
            {
                let code = codes[j];
                let ghost t1 = codes@.take(j + 1);
                let ghost t0 = codes@.take(j as int);
                assert(t1 =~= t0.push(code));
                if code.0 < MAX_CONFIG_CODE {
                    insert_flag(&mut used_flags, code);
                    assert(low_codes(t1) =~= low_codes(t0).insert(code)) by {
                        assert forall|y: FlagCode| low_codes(t1).contains(y) implies #[trigger] low_codes(t0).insert(code).contains(y) by {
                            let k = choose|k: int| 0 <= k < t1.len() && t1[k] == y;
                            if k < j {
                                assert(t0[k] == y);
                            }
                        }
                        assert forall|y: FlagCode| low_codes(t0).insert(code).contains(y) implies #[trigger] low_codes(t1).contains(y) by {
                            if y == code {
                                assert(t1[j as int] == y);
                            } else {
                                let k = choose|k: int| 0 <= k < t0.len() && t0[k] == y;
                                assert(t1[k] == y);
                            }
                        }
                    }
                } else {
                    assert(low_codes(t1) =~= low_codes(t0)) by {
                        assert forall|y: FlagCode| low_codes(t1).contains(y) implies #[trigger] low_codes(t0).contains(y) by {
                            let k = choose|k: int| 0 <= k < t1.len() && t1[k] == y;
                            if k < j {
                                assert(t0[k] == y);
                            }
                        }
                        assert forall|y: FlagCode| low_codes(t0).contains(y) implies #[trigger] low_codes(t1).contains(y) by {
                            let k = choose|k: int| 0 <= k < t0.len() && t0[k] == y;
                            assert(t1[k] == y);
                        }
                    }
                }
                assert(used_flags@.to_set() =~= base.union(low_codes(t1)));
                j = j + 1;
            }
            assert(codes@.take(j as int) =~= codes@);
            assert(used_flags@.to_set() =~= used_set(prefix_i1, cfg, pfx, sfx));
            i = i + 1;
        }
        assert(entries@.take(i as int) =~= entries@);
        Ok(used_flags)
    }

    /// Derives the sorted names, code map and used option codes, or the reason it cannot be done.
    pub(crate) fn compute_derived_data(
        prefix: &Vec<(String, Affix)>,
        suffix: &Vec<(String, Affix)>,
        entry: &Vec<DictEntry>,
    ) -> (r: Result<DerivedDictData, DictError>)
        ensures
            match r {
                Ok(d) => {
                    &&& load_fault(prefix@, suffix@, entry@) is None
                    &&& texts(d.sorted_prefix_keys@) == sorted_order(affix_names(prefix@))
                    &&& texts(d.sorted_suffix_keys@) == sorted_order(affix_names(suffix@))
                    &&& sorted_names(affix_names(prefix@))
                    &&& sorted_names(affix_names(suffix@))
                    &&& d.code_map.cfg_pairs() == config_code_table()
                    &&& d.code_map.pfx_pairs() == prefix_pairs_of(prefix@)
                    &&& d.code_map.sfx_pairs() == suffix_pairs_of(prefix@, suffix@)
                    &&& strictly_increasing(d.used_flags@)
                    &&& d.used_flags@.to_set() == used_set(
                        entry@,
                        config_code_table(),
                        prefix_pairs_of(prefix@),
                        suffix_pairs_of(prefix@, suffix@),
                    )
                },
                Err(e) => load_fault(prefix@, suffix@, entry@) == Some(e@),
            },
    {
        if !flags_fit(prefix.len(), suffix.len()) {
            return Err(DictError::TooManyFlags);
        }
        let sorted_prefix_keys = match get_sorted_affix_keys(prefix, AffixType::Prefix) {
            Ok(keys) => keys,
            Err(e) => return Err(e),
        };
        let sorted_suffix_keys = match get_sorted_affix_keys(suffix, AffixType::Suffix) {
            Ok(keys) => keys,
            Err(e) => return Err(e),
        };
        let code_map = match CodeMap::new(&sorted_prefix_keys, &sorted_suffix_keys) {
            Ok(m) => m,
            Err(e) => return Err(e),
        };
        let used_flags = match Self::get_used_flags(entry, &code_map) {
            Ok(v) => v,
            Err(e) => return Err(e),
        };
        Ok(DerivedDictData { sorted_prefix_keys, sorted_suffix_keys, code_map, used_flags })
    }
}

impl Default for HunspellDict {
    /// The empty dictionary: no metadata, no settings, no affixes, no entries.
    fn default() -> (r: Self)
        ensures
            is_empty_metadata(r.spec_metadata()),
            is_empty_config(r.spec_config()),
            r.spec_prefix().len() == 0,
            r.spec_suffix().len() == 0,
            r.spec_entries().len() == 0,
    {
        let prefix: Vec<(String, Affix)> = Vec::new();
        let suffix: Vec<(String, Affix)> = Vec::new();
        let entry: Vec<DictEntry> = Vec::new();
        assert(affix_names(prefix@) =~= Seq::<Seq<char>>::empty());
        assert(entries_fault(entry@, config_code_table(), prefix_pairs_of(prefix@), suffix_pairs_of(prefix@, suffix@)) is None);
        HunspellDict::new(DictMetadata::default(), DictConfig::default(), prefix, suffix, entry).unwrap()
    }
}

/// What the accessors of a dictionary stand for, within this crate.
pub(crate) broadcast proof fn lemma_dict_metadata(d: HunspellDict)
    ensures
        #[trigger] d.spec_metadata() == d.metadata,
{
}

pub(crate) broadcast proof fn lemma_dict_config(d: HunspellDict)
    ensures
        #[trigger] d.spec_config() == d.config,
{
}

pub(crate) broadcast proof fn lemma_dict_prefix(d: HunspellDict)
    ensures
        #[trigger] d.spec_prefix() == d.prefix@,
{
}

pub(crate) broadcast proof fn lemma_dict_suffix(d: HunspellDict)
    ensures
        #[trigger] d.spec_suffix() == d.suffix@,
{
}

pub(crate) broadcast proof fn lemma_dict_entries(d: HunspellDict)
    ensures
        #[trigger] d.spec_entries() == d.entry@,
{
}

pub(crate) broadcast group group_dict_fields {
    lemma_dict_metadata,
    lemma_dict_config,
    lemma_dict_prefix,
    lemma_dict_suffix,
    lemma_dict_entries,
}

} // verus!

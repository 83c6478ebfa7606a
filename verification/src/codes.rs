//! Numeric flags: the fixed codes of the entry options, the codes handed out to affixes, and the
//! flags that each entry carries.

use vstd::prelude::*;
use crate::types::{texts, AffixType, DictEntry, DictError, DictFault, FlagCode};

verus! {

/// Codes below this value belong to entry options; affixes are numbered from it upwards.
pub const MAX_CONFIG_CODE: u16 = 100;

/// The largest number of flags a dictionary may use.
pub const MAX_FLAGS: usize = 65000;

/// The option flags and their fixed codes, in the order in which they are written.
pub open spec fn config_code_table() -> Seq<(Seq<char>, u16)> {
    seq![
        ("NOSUGGEST"@, 1u16),
        ("SUBSTANDARD"@, 2u16),
        ("WARN"@, 3u16),
        ("FORBIDDENWORD"@, 4u16),
        ("KEEPCASE"@, 10u16),
        ("NEEDAFFIX"@, 11u16),
    ]
}

/// A table of named codes, as names and numbers.
pub open spec fn code_pairs(v: Seq<(String, FlagCode)>) -> Seq<(Seq<char>, u16)> {
    v.map_values(|p: (String, FlagCode)| (p.0@, p.1.0))
}

/// Consecutive codes from `base` for the names in `keys`, in order.
pub open spec fn indexed_codes(keys: Seq<Seq<char>>, base: int) -> Seq<(Seq<char>, u16)> {
    Seq::new(keys.len(), |i: int| (keys[i], (base + i) as u16))
}

/// The code of the first entry named `key`, if there is one.
pub open spec fn lookup_code(pairs: Seq<(Seq<char>, u16)>, key: Seq<char>) -> Option<u16>
    decreases pairs.len(),
{
    if pairs.len() == 0 {
        None
    } else if pairs[0].0 == key {
        Some(pairs[0].1)
    } else {
        lookup_code(pairs.drop_first(), key)
    }
}

/// The codes of `keys` in order, or the first key that the table does not name.
pub open spec fn key_codes(pairs: Seq<(Seq<char>, u16)>, keys: Seq<Seq<char>>) -> Result<
    Seq<FlagCode>,
    Seq<char>,
>
    decreases keys.len(),
{
    if keys.len() == 0 {
        Ok(Seq::empty())
    } else {
        match key_codes(pairs, keys.drop_last()) {
            Err(k) => Err(k),
            Ok(cs) => match lookup_code(pairs, keys.last()) {
                None => Err(keys.last()),
                Some(c) => Ok(cs.push(FlagCode(c))),
            },
        }
    }
}

/// Whether the option named `key` is set on the entry.
pub open spec fn entry_has_option(e: DictEntry, key: Seq<char>) -> bool {
    ||| e.no_suggest && key == "NOSUGGEST"@
    ||| e.warn && key == "WARN"@
    ||| e.forbidden_word && key == "FORBIDDENWORD"@
    ||| e.keep_case && key == "KEEPCASE"@
    ||| e.need_affix && key == "NEEDAFFIX"@
    ||| e.substandard && key == "SUBSTANDARD"@
}

/// The codes of the options set on the entry, in the order of the table.
pub open spec fn option_codes(e: DictEntry, table: Seq<(Seq<char>, u16)>) -> Seq<FlagCode>
    decreases table.len(),
{
    if table.len() == 0 {
        Seq::empty()
    } else {
        let rest = option_codes(e, table.drop_last());
        if entry_has_option(e, table.last().0) {
            rest.push(FlagCode(table.last().1))
        } else {
            rest
        }
    }
}

/// The flags of an entry: its options, then its prefixes, then its suffixes; or the first
/// affix name that the tables do not know, prefixes before suffixes.
pub open spec fn entry_codes(
    e: DictEntry,
    cfg: Seq<(Seq<char>, u16)>,
    pfx: Seq<(Seq<char>, u16)>,
    sfx: Seq<(Seq<char>, u16)>,
) -> Result<Seq<FlagCode>, DictFault> {
    match key_codes(pfx, texts(e.prefix@)) {
        Err(k) => Err(DictFault::UnknownKey(AffixType::Prefix, k)),
        Ok(pc) => match key_codes(sfx, texts(e.suffix@)) {
            Err(k) => Err(DictFault::UnknownKey(AffixType::Suffix, k)),
            Ok(sc) => Ok(option_codes(e, cfg) + pc + sc),
        },
    }
}

/// A failure on a prefix of the keys is the failure on all of them.
pub proof fn lemma_key_codes_prefix_err(pairs: Seq<(Seq<char>, u16)>, keys: Seq<Seq<char>>, m: int)
    requires
        0 <= m <= keys.len(),
        key_codes(pairs, keys.take(m)) is Err,
    ensures
        key_codes(pairs, keys) == key_codes(pairs, keys.take(m)),
    decreases keys.len(),
{
    if m == keys.len() {
        assert(keys.take(m) =~= keys);
    } else {
        assert(keys.drop_last().take(m) =~= keys.take(m));
        lemma_key_codes_prefix_err(pairs, keys.drop_last(), m);
    }
}

/// The table of option flags and their codes.
pub fn get_config_code_map() -> (r: Vec<(String, FlagCode)>)
    ensures
        code_pairs(r@) == config_code_table(),
{
    let mut flag_codes: Vec<(String, FlagCode)> = Vec::new();
    flag_codes.push((String::from_str("NOSUGGEST"), FlagCode(1)));
    flag_codes.push((String::from_str("SUBSTANDARD"), FlagCode(2)));
    flag_codes.push((String::from_str("WARN"), FlagCode(3)));
    flag_codes.push((String::from_str("FORBIDDENWORD"), FlagCode(4)));
    flag_codes.push((String::from_str("KEEPCASE"), FlagCode(10)));
    flag_codes.push((String::from_str("NEEDAFFIX"), FlagCode(11)));
    assert(code_pairs(flag_codes@) =~= config_code_table());
    flag_codes
}

/// Codes `index_start`, `index_start + 1`, ... for the names in `sorted_affix_keys`.
pub fn get_affix_code_map(sorted_affix_keys: &Vec<String>, index_start: u16) -> (r: Vec<
    (String, FlagCode),
>)
    requires
        index_start + sorted_affix_keys.len() <= 0x10000,
    ensures
        code_pairs(r@) == indexed_codes(texts(sorted_affix_keys@), index_start as int),
{
    let mut flag_codes: Vec<(String, FlagCode)> = Vec::new();
    let mut i: usize = 0;
    while i < sorted_affix_keys.len()
        invariant
            index_start + sorted_affix_keys.len() <= 0x10000,
            i <= sorted_affix_keys.len(),
            code_pairs(flag_codes@) == indexed_codes(texts(sorted_affix_keys@), index_start as int).take(i as int),
        decreases sorted_affix_keys.len() - i,
    {
        let code: u16 = index_start + i as u16;
        let ghost before = flag_codes@;
        let name = sorted_affix_keys[i].clone();
        flag_codes.push((name, FlagCode(code)));
        assert(flag_codes@ == before.push((name, FlagCode(code))));
        assert(code_pairs(flag_codes@) =~= code_pairs(before).push((name@, code)));
        let ghost want = indexed_codes(texts(sorted_affix_keys@), index_start as int);
        assert(want[i as int] == (sorted_affix_keys@[i as int]@, code));
        assert(code_pairs(flag_codes@) =~= indexed_codes(texts(sorted_affix_keys@), index_start as int).take(i + 1));
        i = i + 1;
    }
    assert(indexed_codes(texts(sorted_affix_keys@), index_start as int).take(i as int) =~= indexed_codes(texts(sorted_affix_keys@), index_start as int));
    flag_codes
}

/// The code that `map` gives to `key`.
pub fn find_code(map: &Vec<(String, FlagCode)>, key: &String) -> (r: Option<FlagCode>)
    ensures
        r == (match lookup_code(code_pairs(map@), key@) {
            Some(c) => Some(FlagCode(c)),
            None => None,
        }),
{
    let mut i: usize = 0;
    assert(code_pairs(map@).skip(0) =~= code_pairs(map@));
    while i < map.len()
        invariant
            i <= map.len(),
            lookup_code(code_pairs(map@), key@) == lookup_code(code_pairs(map@).skip(i as int), key@),
        decreases map.len() - i,
    {
        let ghost rest = code_pairs(map@).skip(i as int);
        assert(rest[0] == (map@[i as int].0@, map@[i as int].1.0));
        if map[i].0 == *key {
            return Some(map[i].1);
        }
        assert(rest.drop_first() =~= code_pairs(map@).skip(i + 1));
        i = i + 1;
    }
    None
}

/// Whether `num_pfx` prefixes and `num_sfx` suffixes, numbered after the option codes, stay
/// within `MAX_FLAGS`.
pub fn flags_fit(num_pfx: usize, num_sfx: usize) -> (r: bool)
    ensures
        r == (MAX_CONFIG_CODE + num_pfx + num_sfx <= MAX_FLAGS),
{
    let room: usize = MAX_FLAGS - MAX_CONFIG_CODE as usize;
    num_pfx <= room && num_sfx <= room - num_pfx
}

/// The codes of the option flags and of the affixes of a dictionary.
#[derive(Debug)]
pub(crate) struct CodeMap {
    pub cfg_map: Vec<(String, FlagCode)>,
    pub pfx_map: Vec<(String, FlagCode)>,
    pub sfx_map: Vec<(String, FlagCode)>,
}

impl CodeMap {
    pub open(crate) spec fn cfg_pairs(&self) -> Seq<(Seq<char>, u16)> {
        code_pairs(self.cfg_map@)
    }

    pub open(crate) spec fn pfx_pairs(&self) -> Seq<(Seq<char>, u16)> {
        code_pairs(self.pfx_map@)
    }

    pub open(crate) spec fn sfx_pairs(&self) -> Seq<(Seq<char>, u16)> {
        code_pairs(self.sfx_map@)
    }

    /// Numbers the prefixes from `MAX_CONFIG_CODE` on and the suffixes after them, unless the
    /// flags would number more than `MAX_FLAGS`.
    pub fn new(sorted_prefix_keys: &Vec<String>, sorted_suffix_keys: &Vec<String>) -> (r: Result<
        CodeMap,
        DictError,
    >)
        ensures
            match r {
                Ok(m) => {
                    &&& MAX_CONFIG_CODE + sorted_prefix_keys.len() + sorted_suffix_keys.len() <= MAX_FLAGS
                    &&& m.cfg_pairs() == config_code_table()
                    &&& m.pfx_pairs() == indexed_codes(texts(sorted_prefix_keys@), MAX_CONFIG_CODE as int)
                    &&& m.sfx_pairs() == indexed_codes(
                        texts(sorted_suffix_keys@),
                        MAX_CONFIG_CODE + sorted_prefix_keys.len(),
                    )
                },
                Err(e) => {
                    &&& MAX_CONFIG_CODE + sorted_prefix_keys.len() + sorted_suffix_keys.len() > MAX_FLAGS
                    &&& e@ == DictFault::TooManyFlags
                },
            },
    {
        let num_pfx: usize = sorted_prefix_keys.len();
        let num_sfx: usize = sorted_suffix_keys.len();
        if !flags_fit(num_pfx, num_sfx) {
            return Err(DictError::TooManyFlags);
        }
        let cfg_map = get_config_code_map();
        let pfx_map = get_affix_code_map(sorted_prefix_keys, MAX_CONFIG_CODE);
        let sfx_map = get_affix_code_map(sorted_suffix_keys, MAX_CONFIG_CODE + num_pfx as u16);
        Ok(CodeMap { cfg_map, pfx_map, sfx_map })
    }
}

impl DictEntry {
    /// Whether the option that the flag `key` stands for is set on this entry.
    pub fn match_entry_option_to_key(&self, key: &String) -> (r: bool)
        ensures
            r == entry_has_option(*self, key@),
    {
        (self.no_suggest && *key == String::from_str("NOSUGGEST"))
            || (self.warn && *key == String::from_str("WARN"))
            || (self.forbidden_word && *key == String::from_str("FORBIDDENWORD"))
            || (self.keep_case && *key == String::from_str("KEEPCASE"))
            || (self.need_affix && *key == String::from_str("NEEDAFFIX"))
            || (self.substandard && *key == String::from_str("SUBSTANDARD"))
    }

    /// The flags of this entry: its options, then its prefixes, then its suffixes.
    pub(crate) fn collect_flag_codes(&self, code_map: &CodeMap) -> (r: Result<Vec<FlagCode>, DictError>)
        ensures
            match r {
                Ok(v) => entry_codes(*self, code_map.cfg_pairs(), code_map.pfx_pairs(), code_map.sfx_pairs())
                    == Ok::<Seq<FlagCode>, DictFault>(v@),
                Err(e) => entry_codes(*self, code_map.cfg_pairs(), code_map.pfx_pairs(), code_map.sfx_pairs())
                    == Err::<Seq<FlagCode>, DictFault>(e@),
            },
    {
        let ghost cfg = code_map.cfg_pairs();
        let ghost pfx = code_map.pfx_pairs();
        let ghost sfx = code_map.sfx_pairs();
        let mut entry_codes: Vec<FlagCode> = Vec::new();
        let mut i: usize = 0;
        assert(cfg.take(0) =~= Seq::<(Seq<char>, u16)>::empty());
        while i < code_map.cfg_map.len()
            invariant
                cfg == code_map.cfg_pairs(),
                i <= code_map.cfg_map.len(),
                entry_codes@ == option_codes(*self, cfg.take(i as int)),
            decreases code_map.cfg_map.len() - i,
        {
            assert(cfg.take(i + 1).drop_last() =~= cfg.take(i as int));
            assert(cfg.take(i + 1).last() == (code_map.cfg_map@[i as int].0@, code_map.cfg_map@[i as int].1.0));
            if self.match_entry_option_to_key(&code_map.cfg_map[i].0) {
                entry_codes.push(code_map.cfg_map[i].1);
            }
            i = i + 1;
        }
        assert(cfg.take(i as int) =~= cfg);
        let ghost opts = entry_codes@;
        let ghost pkeys = texts(self.prefix@);
        let mut i: usize = 0;
        assert(pkeys.take(0) =~= Seq::<Seq<char>>::empty());
        while i < self.prefix.len()
            invariant
                pfx == code_map.pfx_pairs(),
                pkeys == texts(self.prefix@),
                i <= self.prefix.len(),
                key_codes(pfx, pkeys.take(i as int)) matches Ok(pc) && entry_codes@ == opts + pc,
            decreases self.prefix.len() - i,
        {
            assert(pkeys.take(i + 1).drop_last() =~= pkeys.take(i as int));
            assert(pkeys.take(i + 1).last() == self.prefix@[i as int]@);
            match find_code(&code_map.pfx_map, &self.prefix[i]) {
                Some(code) => {
                    entry_codes.push(code);
                    assert(entry_codes@ =~= opts + key_codes(pfx, pkeys.take(i + 1))->Ok_0);
                },
                None => {
                    proof {
                        lemma_key_codes_prefix_err(pfx, pkeys, i + 1);
                    }
                    return Err(DictError::UnknownKey { affix_type: AffixType::Prefix, key: self.prefix[i].clone() });
                },
            }
            i = i + 1;
        }
        assert(pkeys.take(i as int) =~= pkeys);
        let ghost pre = entry_codes@;
        let ghost skeys = texts(self.suffix@);
        let mut i: usize = 0;
        assert(skeys.take(0) =~= Seq::<Seq<char>>::empty());
        assert(pre =~= pre + Seq::<FlagCode>::empty());
        while i < self.suffix.len()
            invariant
                sfx == code_map.sfx_pairs(),
                pfx == code_map.pfx_pairs(),
                cfg == code_map.cfg_pairs(),
                skeys == texts(self.suffix@),
                key_codes(pfx, texts(self.prefix@)) matches Ok(pc) && pre == option_codes(*self, cfg) + pc,
                i <= self.suffix.len(),
                key_codes(sfx, skeys.take(i as int)) matches Ok(sc) && entry_codes@ == pre + sc,
            decreases self.suffix.len() - i,
        {
            assert(skeys.take(i + 1).drop_last() =~= skeys.take(i as int));
            assert(skeys.take(i + 1).last() == self.suffix@[i as int]@);
            match find_code(&code_map.sfx_map, &self.suffix[i]) {
                Some(code) => {
                    entry_codes.push(code);
                    assert(entry_codes@ =~= pre + key_codes(sfx, skeys.take(i + 1))->Ok_0);
                },
                None => {
                    proof {
                        lemma_key_codes_prefix_err(sfx, skeys, i + 1);
                    }
                    return Err(DictError::UnknownKey { affix_type: AffixType::Suffix, key: self.suffix[i].clone() });
                },
            }
            i = i + 1;
        }
        assert(skeys.take(i as int) =~= skeys);
        Ok(entry_codes)
    }
}

} // verus!

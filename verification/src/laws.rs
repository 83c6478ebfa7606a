//! Properties of the flag numbering that hold for every dictionary that can be built.

use vstd::prelude::*;
use crate::clock::is_time_stamp;
use crate::codes::{
    config_code_table, entry_codes, entry_has_option, indexed_codes, key_codes, lookup_code,
    option_codes, MAX_CONFIG_CODE, MAX_FLAGS,
};
use crate::keys::{affix_names, first_duplicate, sorted_order, strictly_sorted};
use crate::process::{entries_fault, prefix_pairs_of, suffix_pairs_of, used_set, HunspellDict};
use crate::text::lemma_lex_irreflexive;
use crate::types::{texts, Affix, DictEntry, DictMetadata, FlagCode};
use crate::text::decimal;
use crate::write::{
    dic_lines, flag_keys_text, flags_suffix, header_lines, lemma_entries_ok, lines_text, opt_line,
    REPO_URL, TOOL_VERSION,
};

verus! {

broadcast use crate::process::group_dict_fields;

/// Names without a first repeat have no repeats at all.
proof fn lemma_no_first_duplicate(keys: Seq<Seq<char>>)
    requires
        first_duplicate(keys) is None,
    ensures
        keys.no_duplicates(),
    decreases keys.len(),
{
    if keys.len() > 0 {
        let init = keys.drop_last();
        lemma_no_first_duplicate(init);
        assert forall|i: int, j: int| 0 <= i < keys.len() && 0 <= j < keys.len() && i != j implies keys[i] != keys[j] by {
            if i < keys.len() - 1 && j < keys.len() - 1 {
                assert(init[i] == keys[i] && init[j] == keys[j]);
            } else if i == keys.len() - 1 {
                assert(init[j] == keys[j]);
            } else {
                assert(init[i] == keys[i]);
            }
        }
    }
}

/// In a table of consecutive codes over strictly sorted names, each name is looked up to the
/// code of its position.
proof fn lemma_lookup_indexed(keys: Seq<Seq<char>>, base: int, i: int)
    requires
        strictly_sorted(keys),
        0 <= i < keys.len(),
    ensures
        lookup_code(indexed_codes(keys, base), keys[i]) == Some((base + i) as u16),
    decreases i,
{
    let pairs = indexed_codes(keys, base);
    if i > 0 {
        assert(lex_lt_at(keys, 0, i));
        lemma_lex_irreflexive(keys[0]);
        assert(pairs[0].0 != keys[i]);
        assert(pairs.drop_first() =~= indexed_codes(keys.drop_first(), base + 1));
        assert(keys.drop_first()[i - 1] == keys[i]);
        lemma_lookup_indexed(keys.drop_first(), base + 1, i - 1);
    }
}

/// Whether the `i`-th name precedes the `j`-th.
spec fn lex_lt_at(keys: Seq<Seq<char>>, i: int, j: int) -> bool {
    crate::text::lex_lt(keys[i], keys[j])
}

/// No two flags of a dictionary share a number, and none is zero: the option flags have
/// their fixed codes below `MAX_CONFIG_CODE`, the prefixes and then the suffixes are numbered
/// consecutively from it, and every code stays within the limit on flags.
pub proof fn lemma_flag_codes_unambiguous(d: HunspellDict)
    requires
        d.wf(),
    ensures
        ({
            let all = config_code_table() + d.spec_prefix_pairs() + d.spec_suffix_pairs();
            &&& forall|i: int| 0 <= i < all.len() ==> (#[trigger] all[i]).1 != 0
            &&& forall|i: int, j: int|
                0 <= i < j < all.len() ==> (#[trigger] all[i]).1 != (#[trigger] all[j]).1
            &&& forall|i: int| 0 <= i < all.len() ==> (#[trigger] all[i]).1 < MAX_FLAGS
        }),
{
    let cfg = config_code_table();
    let p = d.spec_prefix_pairs();
    let x = d.spec_suffix_pairs();
    let np = d.spec_prefix().len();
    let ns = d.spec_suffix().len();
    assert(p.len() == np);
    assert(x.len() == ns);
    assert(MAX_CONFIG_CODE + np + ns <= MAX_FLAGS);
    let all = cfg + p + x;
    assert forall|i: int| 0 <= i < all.len() implies (#[trigger] all[i]).1 == (if i < 6 {
        cfg[i].1 as int
    } else {
        MAX_CONFIG_CODE + i - 6
    }) by {
        if i >= 6 && i < 6 + np {
            assert(all[i] == p[i - 6]);
        } else if i >= 6 + np {
            assert(all[i] == x[i - 6 - np]);
        }
    }
}

/// An entry that names an affix carries the code under which that affix's block is written:
/// looking a name up among the prefix (or suffix) codes gives the code at its sorted position.
pub proof fn lemma_entry_codes_match_blocks(d: HunspellDict)
    requires
        d.wf(),
    ensures
        forall|i: int|
            0 <= i < d.spec_prefix_pairs().len() ==> lookup_code(
                d.spec_prefix_pairs(),
                (#[trigger] d.spec_prefix_pairs()[i]).0,
            ) == Some(d.spec_prefix_pairs()[i].1),
        forall|i: int|
            0 <= i < d.spec_suffix_pairs().len() ==> lookup_code(
                d.spec_suffix_pairs(),
                (#[trigger] d.spec_suffix_pairs()[i]).0,
            ) == Some(d.spec_suffix_pairs()[i].1),
{
    let pk = sorted_order(affix_names(d.spec_prefix()));
    let sk = sorted_order(affix_names(d.spec_suffix()));
    assert forall|i: int| 0 <= i < d.spec_prefix_pairs().len() implies lookup_code(
        d.spec_prefix_pairs(),
        (#[trigger] d.spec_prefix_pairs()[i]).0,
    ) == Some(d.spec_prefix_pairs()[i].1) by {
        lemma_lookup_indexed(pk, MAX_CONFIG_CODE as int, i);
    }
    assert forall|i: int| 0 <= i < d.spec_suffix_pairs().len() implies lookup_code(
        d.spec_suffix_pairs(),
        (#[trigger] d.spec_suffix_pairs()[i]).0,
    ) == Some(d.spec_suffix_pairs()[i].1) by {
        lemma_lookup_indexed(sk, MAX_CONFIG_CODE + d.spec_prefix().len(), i);
    }
}

/// The codes of a dictionary's affixes depend only on which names it defines, not on the
/// order in which the affixes are given.
pub proof fn lemma_codes_depend_only_on_names(
    p1: Seq<(String, Affix)>,
    s1: Seq<(String, Affix)>,
    p2: Seq<(String, Affix)>,
    s2: Seq<(String, Affix)>,
)
    requires
        first_duplicate(affix_names(p1)) is None,
        first_duplicate(affix_names(p2)) is None,
        affix_names(p1).to_set() == affix_names(p2).to_set(),
        affix_names(s1).to_set() == affix_names(s2).to_set(),
    ensures
        prefix_pairs_of(p1) == prefix_pairs_of(p2),
        suffix_pairs_of(p1, s1) == suffix_pairs_of(p2, s2),
{
    lemma_no_first_duplicate(affix_names(p1));
    lemma_no_first_duplicate(affix_names(p2));
    affix_names(p1).unique_seq_to_set();
    affix_names(p2).unique_seq_to_set();
    assert(p1.len() == p2.len());
}

/// The option codes in use, which the `.aff` file declares, are exactly the option codes that
/// the entries carry.
proof fn lemma_used_set_exact(
    entries: Seq<DictEntry>,
    cfg: Seq<(Seq<char>, u16)>,
    pfx: Seq<(Seq<char>, u16)>,
    sfx: Seq<(Seq<char>, u16)>,
    c: FlagCode,
)
    requires
        entries_fault(entries, cfg, pfx, sfx) is None,
    ensures
        used_set(entries, cfg, pfx, sfx).contains(c) <==> (c.0 < MAX_CONFIG_CODE && exists|i: int|
            0 <= i < entries.len() && (#[trigger] entry_codes(entries[i], cfg, pfx, sfx))->Ok_0.contains(c)),
    decreases entries.len(),
{
    if entries.len() > 0 {
        let init = entries.drop_last();
        lemma_used_set_exact(init, cfg, pfx, sfx, c);
        let n = entries.len() - 1;
        assert(entries[n] == entries.last());
        if used_set(entries, cfg, pfx, sfx).contains(c) {
            if used_set(init, cfg, pfx, sfx).contains(c) {
                let i = choose|i: int|
                    0 <= i < init.len() && (#[trigger] entry_codes(init[i], cfg, pfx, sfx))->Ok_0.contains(c);
                assert(init[i] == entries[i]);
            } else {
                assert(entry_codes(entries[n], cfg, pfx, sfx)->Ok_0.contains(c));
            }
        }
        if c.0 < MAX_CONFIG_CODE && exists|i: int|
            0 <= i < entries.len() && (#[trigger] entry_codes(entries[i], cfg, pfx, sfx))->Ok_0.contains(c) {
            let i = choose|i: int|
                0 <= i < entries.len() && (#[trigger] entry_codes(entries[i], cfg, pfx, sfx))->Ok_0.contains(c);
            if i < n {
                assert(init[i] == entries[i]);
                assert(entry_codes(init[i], cfg, pfx, sfx)->Ok_0.contains(c));
            } else {
                assert(entry_codes(entries.last(), cfg, pfx, sfx)->Ok_0.to_set().contains(c));
            }
        }
    }
}

/// An option flag is declared in the `.aff` file exactly when some entry of the `.dic` file
/// carries it.
pub proof fn lemma_declared_options_are_used(d: HunspellDict, c: FlagCode)
    requires
        d.wf(),
    ensures
        d.spec_used_flags().contains(c) <==> (c.0 < MAX_CONFIG_CODE && exists|i: int|
            0 <= i < d.spec_entries().len() && (#[trigger] d.spec_entry_codes(
                d.spec_entries()[i],
            ))->Ok_0.contains(c)),
{
    let es = d.spec_entries();
    let cfg = config_code_table();
    let pfx = d.spec_prefix_pairs();
    let sfx = d.spec_suffix_pairs();
    lemma_used_set_exact(es, cfg, pfx, sfx, c);
    if exists|i: int| 0 <= i < es.len() && (#[trigger] entry_codes(es[i], cfg, pfx, sfx))->Ok_0.contains(c) {
        let i = choose|i: int| 0 <= i < es.len() && (#[trigger] entry_codes(es[i], cfg, pfx, sfx))->Ok_0.contains(c);
        assert(d.spec_entry_codes(es[i]) == entry_codes(es[i], cfg, pfx, sfx));
    }
    if exists|i: int| 0 <= i < es.len() && (#[trigger] d.spec_entry_codes(es[i]))->Ok_0.contains(c) {
        let i = choose|i: int| 0 <= i < es.len() && (#[trigger] d.spec_entry_codes(es[i]))->Ok_0.contains(c);
        assert(d.spec_entry_codes(es[i]) == entry_codes(es[i], cfg, pfx, sfx));
    }
}


/// A code found in a table is one of the table's codes.
proof fn lemma_lookup_in_table(pairs: Seq<(Seq<char>, u16)>, key: Seq<char>)
    requires
        lookup_code(pairs, key) is Some,
    ensures
        exists|t: int| 0 <= t < pairs.len() && (#[trigger] pairs[t]).1 == lookup_code(pairs, key)->0,
    decreases pairs.len(),
{
    if pairs[0].0 != key {
        lemma_lookup_in_table(pairs.drop_first(), key);
        let t = choose|t: int|
            0 <= t < pairs.drop_first().len() && (#[trigger] pairs.drop_first()[t]).1 == lookup_code(
                pairs.drop_first(),
                key,
            )->0;
        assert(pairs[t + 1] == pairs.drop_first()[t]);
    } else {
        assert(pairs[0].1 == lookup_code(pairs, key)->0);
    }
}

/// The codes of a list of names are codes of the table.
pub(crate) proof fn lemma_key_codes_in_table(pairs: Seq<(Seq<char>, u16)>, keys: Seq<Seq<char>>)
    requires
        key_codes(pairs, keys) is Ok,
    ensures
        forall|j: int|
            0 <= j < key_codes(pairs, keys)->Ok_0.len() ==> exists|t: int|
                0 <= t < pairs.len() && (#[trigger] pairs[t]).1 == (#[trigger] key_codes(
                    pairs,
                    keys,
                )->Ok_0[j]).0,
    decreases keys.len(),
{
    if keys.len() > 0 {
        lemma_key_codes_prefix_ok(pairs, keys);
        lemma_key_codes_in_table(pairs, keys.drop_last());
        lemma_lookup_in_table(pairs, keys.last());
        let cs = key_codes(pairs, keys)->Ok_0;
        let init = key_codes(pairs, keys.drop_last())->Ok_0;
        assert forall|j: int| 0 <= j < cs.len() implies exists|t: int|
            0 <= t < pairs.len() && (#[trigger] pairs[t]).1 == (#[trigger] cs[j]).0 by {
            if j < init.len() {
                assert(cs[j] == init[j]);
            }
        }
    }
}

/// The first names of a list whose codes can be formed have codes too.
proof fn lemma_key_codes_prefix_ok(pairs: Seq<(Seq<char>, u16)>, keys: Seq<Seq<char>>)
    requires
        keys.len() > 0,
        key_codes(pairs, keys) is Ok,
    ensures
        key_codes(pairs, keys.drop_last()) is Ok,
        lookup_code(pairs, keys.last()) is Some,
        key_codes(pairs, keys)->Ok_0 == key_codes(pairs, keys.drop_last())->Ok_0.push(
            FlagCode(lookup_code(pairs, keys.last())->0),
        ),
{
}

/// The option codes of an entry come from the table, one for each option it sets.
pub(crate) proof fn lemma_option_codes(e: DictEntry, table: Seq<(Seq<char>, u16)>, c: FlagCode)
    ensures
        option_codes(e, table).contains(c) <==> exists|t: int|
            0 <= t < table.len() && (#[trigger] table[t]).1 == c.0 && entry_has_option(e, table[t].0),
    decreases table.len(),
{
    if table.len() > 0 {
        let init = table.drop_last();
        lemma_option_codes(e, init, c);
        let rest = option_codes(e, init);
        let n = table.len() - 1;
        if option_codes(e, table).contains(c) {
            let j = choose|j: int| 0 <= j < option_codes(e, table).len() && option_codes(e, table)[j] == c;
            if j < rest.len() {
                assert(rest[j] == c);
                let t = choose|t: int| 0 <= t < init.len() && (#[trigger] init[t]).1 == c.0 && entry_has_option(e, init[t].0);
                assert(table[t] == init[t]);
            } else {
                assert(table[n] == table.last());
            }
        }
        if exists|t: int| 0 <= t < table.len() && (#[trigger] table[t]).1 == c.0 && entry_has_option(e, table[t].0) {
            let t = choose|t: int| 0 <= t < table.len() && (#[trigger] table[t]).1 == c.0 && entry_has_option(e, table[t].0);
            if t < n {
                assert(init[t] == table[t]);
                assert(rest.contains(c));
                let j = choose|j: int| 0 <= j < rest.len() && rest[j] == c;
                assert(option_codes(e, table)[j] == c);
            } else {
                assert(table.last() == table[t]);
                assert(option_codes(e, table)[option_codes(e, table).len() - 1] == c);
            }
        }
    }
}

/// Whether `c` is a flag number the `.dic` file may hold: one of the option codes 1, 2, 3, 4,
/// 10, 11, or an affix code from `MAX_CONFIG_CODE` up to, not including, `MAX_FLAGS`.
pub open spec fn valid_flag_number(c: u16) -> bool {
    ||| c == 1 || c == 2 || c == 3 || c == 4 || c == 10 || c == 11
    ||| MAX_CONFIG_CODE <= c < MAX_FLAGS
}

/// Every flag number written after a stem in the `.dic` file is a valid one, never zero: the
/// flags of each entry, which its line lists after `/`, are option codes or affix codes below
/// the limit.
pub proof fn lemma_dic_flag_numbers_valid(d: HunspellDict)
    requires
        d.wf(),
    ensures
        forall|i: int, j: int|
            #![trigger d.spec_entry_codes(d.spec_entries()[i])->Ok_0[j]]
            0 <= i < d.spec_entries().len() && 0 <= j < d.spec_entry_codes(
                d.spec_entries()[i],
            )->Ok_0.len() ==> valid_flag_number(d.spec_entry_codes(d.spec_entries()[i])->Ok_0[j].0)
                && d.spec_entry_codes(d.spec_entries()[i])->Ok_0[j].0 != 0,
{
    let es = d.spec_entries();
    let cfg = config_code_table();
    let pfx = d.spec_prefix_pairs();
    let sfx = d.spec_suffix_pairs();
    let np = d.spec_prefix().len();
    let ns = d.spec_suffix().len();
    assert(pfx.len() == np && sfx.len() == ns);
    assert(MAX_CONFIG_CODE + np + ns <= MAX_FLAGS);
    assert forall|i: int, j: int|
        #![trigger d.spec_entry_codes(es[i])->Ok_0[j]]
        0 <= i < es.len() && 0 <= j < d.spec_entry_codes(es[i])->Ok_0.len() implies valid_flag_number(
        d.spec_entry_codes(es[i])->Ok_0[j].0,
    ) && d.spec_entry_codes(es[i])->Ok_0[j].0 != 0 by {
        let e = es[i];
        lemma_entries_ok(es, cfg, pfx, sfx, i);
        let pkeys = texts(e.prefix@);
        let skeys = texts(e.suffix@);
        let oc = option_codes(e, cfg);
        let pc = key_codes(pfx, pkeys)->Ok_0;
        let sc = key_codes(sfx, skeys)->Ok_0;
        let cs = d.spec_entry_codes(e)->Ok_0;
        assert(cs == oc + pc + sc);
        let c = cs[j];
        if j < oc.len() {
            assert(oc.contains(c));
            lemma_option_codes(e, cfg, c);
        } else if j < oc.len() + pc.len() {
            lemma_key_codes_in_table(pfx, pkeys);
            assert(pc[j - oc.len()] == c);
            let t = choose|t: int| 0 <= t < pfx.len() && (#[trigger] pfx[t]).1 == (#[trigger] pc[j - oc.len()]).0;
        } else {
            lemma_key_codes_in_table(sfx, skeys);
            assert(sc[j - oc.len() - pc.len()] == c);
            let t = choose|t: int| 0 <= t < sfx.len() && (#[trigger] sfx[t]).1 == (#[trigger] sc[j - oc.len() - pc.len()]).0;
        }
    }
}

/// The `.aff` file declares the option flag at position `t` of the table (its line `NAME code`
/// is written) exactly when some entry sets that option.
pub proof fn lemma_flag_key_line_iff_option_set(d: HunspellDict, t: int)
    requires
        d.wf(),
        0 <= t < config_code_table().len(),
    ensures
        d.spec_used_flags().contains(FlagCode(config_code_table()[t].1)) <==> exists|i: int|
            0 <= i < d.spec_entries().len() && entry_has_option(
                #[trigger] d.spec_entries()[i],
                config_code_table()[t].0,
            ),
{
    let es = d.spec_entries();
    let cfg = config_code_table();
    let pfx = d.spec_prefix_pairs();
    let sfx = d.spec_suffix_pairs();
    let np = d.spec_prefix().len();
    let ns = d.spec_suffix().len();
    assert(pfx.len() == np && sfx.len() == ns);
    let c = FlagCode(cfg[t].1);
    assert(c.0 < MAX_CONFIG_CODE);
    lemma_used_set_exact(es, cfg, pfx, sfx, c);
    // For each entry: its flags hold `c` exactly when it sets the option.
    assert forall|i: int| 0 <= i < es.len() implies ((#[trigger] entry_codes(es[i], cfg, pfx, sfx))->Ok_0.contains(c)
        <==> entry_has_option(es[i], cfg[t].0)) by {
        let e = es[i];
        lemma_entries_ok(es, cfg, pfx, sfx, i);
        let pkeys = texts(e.prefix@);
        let skeys = texts(e.suffix@);
        let oc = option_codes(e, cfg);
        let pc = key_codes(pfx, pkeys)->Ok_0;
        let sc = key_codes(sfx, skeys)->Ok_0;
        let cs = entry_codes(e, cfg, pfx, sfx)->Ok_0;
        assert(cs == oc + pc + sc);
        lemma_option_codes(e, cfg, c);
        lemma_key_codes_in_table(pfx, pkeys);
        lemma_key_codes_in_table(sfx, skeys);
        if cs.contains(c) {
            let j = choose|j: int| 0 <= j < cs.len() && cs[j] == c;
            if j < oc.len() {
                assert(oc[j] == c);
                let u = choose|u: int| 0 <= u < cfg.len() && (#[trigger] cfg[u]).1 == c.0 && entry_has_option(e, cfg[u].0);
                assert(u == t);
            } else if j < oc.len() + pc.len() {
                assert(pc[j - oc.len()] == c);
                let u = choose|u: int| 0 <= u < pfx.len() && (#[trigger] pfx[u]).1 == (#[trigger] pc[j - oc.len()]).0;
            } else {
                assert(sc[j - oc.len() - pc.len()] == c);
                let u = choose|u: int| 0 <= u < sfx.len() && (#[trigger] sfx[u]).1 == (#[trigger] sc[j - oc.len() - pc.len()]).0;
            }
        }
        if entry_has_option(e, cfg[t].0) {
            assert(oc.contains(c));
            let j = choose|j: int| 0 <= j < oc.len() && oc[j] == c;
            assert(cs[j] == c);
        }
    }
    if exists|i: int| 0 <= i < es.len() && (#[trigger] entry_codes(es[i], cfg, pfx, sfx))->Ok_0.contains(c) {
        let i = choose|i: int| 0 <= i < es.len() && (#[trigger] entry_codes(es[i], cfg, pfx, sfx))->Ok_0.contains(c);
        assert(entry_has_option(es[i], cfg[t].0));
    }
    if exists|i: int| 0 <= i < es.len() && entry_has_option(#[trigger] es[i], cfg[t].0) {
        let i = choose|i: int| 0 <= i < es.len() && entry_has_option(#[trigger] es[i], cfg[t].0);
        assert(entry_codes(es[i], cfg, pfx, sfx)->Ok_0.contains(c));
    }
}

/// The `.dic` lines of `entries` are, in order, each stem followed by its flags.
proof fn lemma_dic_lines_by_entry(
    entries: Seq<DictEntry>,
    cfg: Seq<(Seq<char>, u16)>,
    pfx: Seq<(Seq<char>, u16)>,
    sfx: Seq<(Seq<char>, u16)>,
)
    ensures
        dic_lines(entries, cfg, pfx, sfx) == lines_text(
            Seq::new(
                entries.len(),
                |i: int| entries[i].stem@ + flags_suffix(entry_codes(entries[i], cfg, pfx, sfx)->Ok_0),
            ),
        ),
    decreases entries.len(),
{
    if entries.len() > 0 {
        let init = entries.drop_last();
        lemma_dic_lines_by_entry(init, cfg, pfx, sfx);
        let lines = Seq::new(
            entries.len(),
            |i: int| entries[i].stem@ + flags_suffix(entry_codes(entries[i], cfg, pfx, sfx)->Ok_0),
        );
        let init_lines = Seq::new(
            init.len(),
            |i: int| init[i].stem@ + flags_suffix(entry_codes(init[i], cfg, pfx, sfx)->Ok_0),
        );
        assert(lines.drop_last() =~= init_lines);
        let last = entries.last();
        let line = last.stem@ + flags_suffix(entry_codes(last, cfg, pfx, sfx)->Ok_0);
        assert(lines.last() == line);
        assert(dic_lines(entries, cfg, pfx, sfx) =~= lines_text(init_lines) + line + "\n"@);
    }
}

/// The `.dic` file is the number of entries and then one line per entry: its stem, then, if
/// it has flags, `/` and their numbers separated by commas; every such number is a valid flag
/// number, never zero.
pub proof fn lemma_dic_text_flag_numbers(d: HunspellDict)
    requires
        d.wf(),
    ensures
        d.spec_dic_text() == decimal(d.spec_entries().len()) + "\n"@ + lines_text(
            Seq::new(
                d.spec_entries().len(),
                |i: int|
                    d.spec_entries()[i].stem@ + flags_suffix(
                        d.spec_entry_codes(d.spec_entries()[i])->Ok_0,
                    ),
            ),
        ),
        forall|i: int, j: int|
            #![trigger d.spec_entry_codes(d.spec_entries()[i])->Ok_0[j]]
            0 <= i < d.spec_entries().len() && 0 <= j < d.spec_entry_codes(
                d.spec_entries()[i],
            )->Ok_0.len() ==> valid_flag_number(d.spec_entry_codes(d.spec_entries()[i])->Ok_0[j].0)
                && d.spec_entry_codes(d.spec_entries()[i])->Ok_0[j].0 != 0,
{
    let es = d.spec_entries();
    let cfg = config_code_table();
    let pfx = d.spec_prefix_pairs();
    let sfx = d.spec_suffix_pairs();
    lemma_dic_lines_by_entry(es, cfg, pfx, sfx);
    let a = Seq::new(
        es.len(),
        |i: int| es[i].stem@ + flags_suffix(entry_codes(es[i], cfg, pfx, sfx)->Ok_0),
    );
    let b = Seq::new(
        es.len(),
        |i: int| es[i].stem@ + flags_suffix(d.spec_entry_codes(es[i])->Ok_0),
    );
    assert(a =~= b);
    lemma_dic_flag_numbers_valid(d);
}

/// The `NAME code` lines of the options in `table` that some entry of `entries` sets, in the
/// order of the table.
pub open spec fn option_keys_text(table: Seq<(Seq<char>, u16)>, entries: Seq<DictEntry>) -> Seq<char>
    decreases table.len(),
{
    if table.len() == 0 {
        Seq::empty()
    } else {
        option_keys_text(table.drop_last(), entries) + opt_line(
            exists|i: int| 0 <= i < entries.len() && entry_has_option(#[trigger] entries[i], table.last().0),
            table.last().0 + " "@ + decimal(table.last().1 as nat) + "\n"@,
        )
    }
}

/// The first `k` option lines agree.
proof fn lemma_flag_keys_prefix(d: HunspellDict, k: int)
    requires
        d.wf(),
        0 <= k <= config_code_table().len(),
    ensures
        flag_keys_text(config_code_table().take(k), d.spec_used_flags()) == option_keys_text(
            config_code_table().take(k),
            d.spec_entries(),
        ),
    decreases k,
{
    let cfg = config_code_table();
    if k > 0 {
        lemma_flag_keys_prefix(d, k - 1);
        assert(cfg.take(k).drop_last() =~= cfg.take(k - 1));
        assert(cfg.take(k).last() == cfg[k - 1]);
        lemma_flag_key_line_iff_option_set(d, k - 1);
    }
}

/// The `.aff` file declares an option flag, with its line `NAME code`, exactly when some entry
/// sets that option, in the order of the table of options, and declares no other.
pub proof fn lemma_flag_keys_text_by_options(d: HunspellDict)
    requires
        d.wf(),
    ensures
        flag_keys_text(config_code_table(), d.spec_used_flags()) == option_keys_text(
            config_code_table(),
            d.spec_entries(),
        ),
{
    let cfg = config_code_table();
    lemma_flag_keys_prefix(d, cfg.len() as int);
    assert(cfg.take(cfg.len() as int) =~= cfg);
}

/// A time stamp has no line break.
pub proof fn lemma_time_stamp_one_line(s: Seq<char>)
    requires
        is_time_stamp(s),
    ensures
        !s.contains('\n'),
{
    if s.contains('\n') {
        let i = choose|i: int| 0 <= i < s.len() && s[i] == '\n';
        assert(is_time_stamp(s));
        let c = s[i];
    }
}

/// The header is made of comment lines and a closing blank line: when the metadata and the
/// times hold no line break, every line of the header starts with `#` or is empty, and holds no
/// line break of its own.
pub proof fn lemma_header_comment_lines(m: DictMetadata, local: Seq<char>, utc: Seq<char>)
    requires
        !m.title@.contains('\n'),
        !m.version@.contains('\n'),
        !m.description@.contains('\n'),
        forall|a: int| 0 <= a < m.authors.len() ==> !(#[trigger] m.authors@[a])@.contains('\n'),
        !local.contains('\n'),
        !utc.contains('\n'),
    ensures
        forall|i: int|
            0 <= i < header_lines(m, local, utc).len() ==> {
                let line = #[trigger] header_lines(m, local, utc)[i];
                &&& line.len() == 0 || line[0] == '#'
                &&& !line.contains('\n')
            },
{
    reveal_strlit("# ");
    reveal_strlit(" (");
    reveal_strlit(")");
    reveal_strlit("#");
    reveal_strlit(" (UTC ");
    reveal_strlit("# Authors:");
    reveal_strlit("#   ");
    reveal_strlit("# This Hunspell dictionary was created using fix-affix v");
    reveal_strlit("0.2.0");
    reveal_strlit("https://github.com/samreynoldsmath/fix-affix");
    let lines = header_lines(m, local, utc);
    let authors = texts(m.authors@).map_values(|a: Seq<char>| "#   "@ + a);
    let n = m.authors.len() as int;
    assert forall|i: int| 0 <= i < lines.len() implies {
        let line = #[trigger] lines[i];
        &&& line.len() == 0 || line[0] == '#'
        &&& !line.contains('\n')
    } by {
        let line = lines[i];
        if 6 <= i < 6 + n {
            assert(line == authors[i - 6]);
            assert(line == "#   "@ + m.authors@[i - 6]@);
            assert(!m.authors@[i - 6]@.contains('\n'));
        }
        if line.contains('\n') {
            let k = choose|k: int| 0 <= k < line.len() && line[k] == '\n';
            if i == 0 {
                assert(line == "# "@ + m.title@ + " ("@ + m.version@ + ")"@);
            } else if i == 3 {
                assert(line == "# "@ + local + " (UTC "@ + utc + ")"@);
            } else if 6 <= i < 6 + n {
                let a = m.authors@[i - 6]@;
                assert(line[k] == a[k - 4]);
            }
        }
    }
}

} // verus!

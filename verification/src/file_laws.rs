//! What the two files say of the description they are built from: which flags an entry
//! carries, when a description is refused, and what the lines of the `.aff` file hold.

use vstd::prelude::*;
use crate::codes::{
    config_code_table, entry_codes, key_codes, option_codes, MAX_CONFIG_CODE, MAX_FLAGS,
};
use crate::laws::{lemma_key_codes_in_table, lemma_option_codes};
use crate::process::{entries_fault, load_fault, HunspellDict};
use crate::text::decimal;
use crate::types::{texts, Affix, AffixType, DictConfig, DictEntry, DictFault, FlagCode, Replace};
use crate::write::{
    rule_lines,
    lemma_entries_ok, lines_text, opt_line, preamble_compound, preamble_suggestions, preamble_text,
    text_setting, conversion_text, replacement_line, affix_block, affix_blocks, affix_of, affix_tag, replacement_lines, replacements_text,
    ReplacementStyle,
};

verus! {

broadcast use crate::process::group_dict_fields;

/// The option codes of an entry, by field: `NOSUGGEST` 1, `SUBSTANDARD` 2, `WARN` 3,
/// `FORBIDDENWORD` 4, `KEEPCASE` 10, `NEEDAFFIX` 11.
proof fn lemma_option_code_fields(e: DictEntry, k: u16)
    ensures
        option_codes(e, config_code_table()).contains(FlagCode(k)) <==> {
            ||| k == 1 && e.no_suggest
            ||| k == 2 && e.substandard
            ||| k == 3 && e.warn
            ||| k == 4 && e.forbidden_word
            ||| k == 10 && e.keep_case
            ||| k == 11 && e.need_affix
        },
{
    reveal_strlit("NOSUGGEST");
    reveal_strlit("SUBSTANDARD");
    reveal_strlit("WARN");
    reveal_strlit("FORBIDDENWORD");
    reveal_strlit("KEEPCASE");
    reveal_strlit("NEEDAFFIX");
    let cfg = config_code_table();
    lemma_option_codes(e, cfg, FlagCode(k));
    assert("NOSUGGEST"@ != "NEEDAFFIX"@) by {
        assert("NOSUGGEST"@[1] != "NEEDAFFIX"@[1]);
    }
    if exists|t: int| 0 <= t < cfg.len() && (#[trigger] cfg[t]).1 == k && crate::codes::entry_has_option(e, cfg[t].0) {
        let t = choose|t: int| 0 <= t < cfg.len() && (#[trigger] cfg[t]).1 == k && crate::codes::entry_has_option(e, cfg[t].0);
        assert(0 <= t < 6);
        assert("NOSUGGEST"@.len() == 9 && "SUBSTANDARD"@.len() == 11 && "WARN"@.len() == 4);
        assert("FORBIDDENWORD"@.len() == 13 && "KEEPCASE"@.len() == 8 && "NEEDAFFIX"@.len() == 9);
        assert("NOSUGGEST"@ != "SUBSTANDARD"@ && "NOSUGGEST"@ != "WARN"@ && "NOSUGGEST"@ != "FORBIDDENWORD"@ && "NOSUGGEST"@ != "KEEPCASE"@);
        assert("SUBSTANDARD"@ != "WARN"@ && "SUBSTANDARD"@ != "FORBIDDENWORD"@ && "SUBSTANDARD"@ != "KEEPCASE"@ && "SUBSTANDARD"@ != "NEEDAFFIX"@);
        assert("WARN"@ != "FORBIDDENWORD"@ && "WARN"@ != "KEEPCASE"@ && "WARN"@ != "NEEDAFFIX"@);
        assert("FORBIDDENWORD"@ != "KEEPCASE"@ && "FORBIDDENWORD"@ != "NEEDAFFIX"@);
        assert("KEEPCASE"@ != "NEEDAFFIX"@);
        if t == 0 {
            assert(k == 1 && e.no_suggest);
        } else if t == 1 {
            assert(k == 2 && e.substandard);
        } else if t == 2 {
            assert(k == 3 && e.warn);
        } else if t == 3 {
            assert(k == 4 && e.forbidden_word);
        } else if t == 4 {
            assert(k == 10 && e.keep_case);
        } else {
            assert(k == 11 && e.need_affix);
        }
    }
    if k == 1 && e.no_suggest {
        assert(cfg[0].1 == k && crate::codes::entry_has_option(e, cfg[0].0));
    }
    if k == 2 && e.substandard {
        assert(cfg[1].1 == k && crate::codes::entry_has_option(e, cfg[1].0));
    }
    if k == 3 && e.warn {
        assert(cfg[2].1 == k && crate::codes::entry_has_option(e, cfg[2].0));
    }
    if k == 4 && e.forbidden_word {
        assert(cfg[3].1 == k && crate::codes::entry_has_option(e, cfg[3].0));
    }
    if k == 10 && e.keep_case {
        assert(cfg[4].1 == k && crate::codes::entry_has_option(e, cfg[4].0));
    }
    if k == 11 && e.need_affix {
        assert(cfg[5].1 == k && crate::codes::entry_has_option(e, cfg[5].0));
    }
}

/// Each entry of a dictionary carries an option's code exactly when its own field for that
/// option is set: `no_suggest` gives 1, `substandard` 2, `warn` 3, `forbidden_word` 4,
/// `keep_case` 10 and `need_affix` 11; no affix flag takes one of these numbers.
pub proof fn lemma_option_flags_follow_fields(d: HunspellDict, i: int)
    requires
        d.wf(),
        0 <= i < d.spec_entries().len(),
    ensures
        d.spec_entry_codes(d.spec_entries()[i]) is Ok,
        ({
            let e = d.spec_entries()[i];
            let cs = d.spec_entry_codes(e)->Ok_0;
            &&& cs.contains(FlagCode(1)) <==> e.no_suggest
            &&& cs.contains(FlagCode(2)) <==> e.substandard
            &&& cs.contains(FlagCode(3)) <==> e.warn
            &&& cs.contains(FlagCode(4)) <==> e.forbidden_word
            &&& cs.contains(FlagCode(10)) <==> e.keep_case
            &&& cs.contains(FlagCode(11)) <==> e.need_affix
        }),
{
    let es = d.spec_entries();
    let cfg = config_code_table();
    let pfx = d.spec_prefix_pairs();
    let sfx = d.spec_suffix_pairs();
    let np = d.spec_prefix().len();
    let ns = d.spec_suffix().len();
    assert(pfx.len() == np && sfx.len() == ns);
    assert(MAX_CONFIG_CODE + np + ns <= MAX_FLAGS);
    let e = es[i];
    lemma_entries_ok(es, cfg, pfx, sfx, i);
    let pkeys = texts(e.prefix@);
    let skeys = texts(e.suffix@);
    let oc = option_codes(e, cfg);
    let pc = key_codes(pfx, pkeys)->Ok_0;
    let sc = key_codes(sfx, skeys)->Ok_0;
    let cs = d.spec_entry_codes(e)->Ok_0;
    assert(cs == oc + pc + sc);
    lemma_key_codes_in_table(pfx, pkeys);
    lemma_key_codes_in_table(sfx, skeys);
    // Affix codes are at least `MAX_CONFIG_CODE`, so an option code below it comes from the
    // options.
    assert forall|k: u16| k < 100 implies (cs.contains(FlagCode(k)) <==> oc.contains(FlagCode(k))) by {
        if cs.contains(FlagCode(k)) {
            let j = choose|j: int| 0 <= j < cs.len() && cs[j] == FlagCode(k);
            if j < oc.len() {
                assert(oc[j] == FlagCode(k));
            } else if j < oc.len() + pc.len() {
                assert(pc[j - oc.len()] == cs[j]);
                let t = choose|t: int| 0 <= t < pfx.len() && (#[trigger] pfx[t]).1 == (#[trigger] pc[j - oc.len()]).0;
            } else {
                assert(sc[j - oc.len() - pc.len()] == cs[j]);
                let t = choose|t: int| 0 <= t < sfx.len() && (#[trigger] sfx[t]).1 == (#[trigger] sc[j - oc.len() - pc.len()]).0;
            }
        }
        if oc.contains(FlagCode(k)) {
            let j = choose|j: int| 0 <= j < oc.len() && oc[j] == FlagCode(k);
            assert(cs[j] == FlagCode(k));
        }
    }
    lemma_option_code_fields(e, 1);
    lemma_option_code_fields(e, 2);
    lemma_option_code_fields(e, 3);
    lemma_option_code_fields(e, 4);
    lemma_option_code_fields(e, 10);
    lemma_option_code_fields(e, 11);
}

/// Failures found among the entries name an unknown affix; they are never about the number
/// of flags.
proof fn lemma_entries_fault_is_unknown_key(
    entries: Seq<DictEntry>,
    cfg: Seq<(Seq<char>, u16)>,
    pfx: Seq<(Seq<char>, u16)>,
    sfx: Seq<(Seq<char>, u16)>,
)
    ensures
        entries_fault(entries, cfg, pfx, sfx) matches Some(f) ==> f is UnknownKey,
    decreases entries.len(),
{
    if entries.len() > 0 {
        lemma_entries_fault_is_unknown_key(entries.drop_last(), cfg, pfx, sfx);
    }
}

/// Entries that name no affix add no failure.
proof fn lemma_plain_entries_add_no_fault(
    entries: Seq<DictEntry>,
    plain: Seq<DictEntry>,
    cfg: Seq<(Seq<char>, u16)>,
    pfx: Seq<(Seq<char>, u16)>,
    sfx: Seq<(Seq<char>, u16)>,
)
    requires
        forall|i: int| 0 <= i < plain.len() ==> (#[trigger] plain[i]).prefix.len() == 0 && plain[i].suffix.len() == 0,
    ensures
        entries_fault(entries + plain, cfg, pfx, sfx) == entries_fault(entries, cfg, pfx, sfx),
    decreases plain.len(),
{
    if plain.len() == 0 {
        assert(entries + plain =~= entries);
    } else {
        let init = plain.drop_last();
        lemma_plain_entries_add_no_fault(entries, init, cfg, pfx, sfx);
        assert((entries + plain).drop_last() =~= entries + init);
        let e = plain.last();
        assert(e == plain[plain.len() - 1]);
        assert(texts(e.prefix@) =~= Seq::<Seq<char>>::empty());
        assert(texts(e.suffix@) =~= Seq::<Seq<char>>::empty());
        assert(entry_codes(e, cfg, pfx, sfx) is Ok);
    }
}

/// A description is refused for too many flags exactly when 100 plus the number of prefixes
/// and suffixes exceeds 65,000; the entries never count against that limit.
pub proof fn lemma_too_many_flags_exactly(
    prefix: Seq<(String, Affix)>,
    suffix: Seq<(String, Affix)>,
    entries: Seq<DictEntry>,
)
    ensures
        load_fault(prefix, suffix, entries) == Some(DictFault::TooManyFlags) <==> 100 + prefix.len()
            + suffix.len() > 65000,
{
    lemma_entries_fault_is_unknown_key(
        entries,
        config_code_table(),
        crate::process::prefix_pairs_of(prefix),
        crate::process::suffix_pairs_of(prefix, suffix),
    );
}

/// Adding entries that name no affix, however many, never changes whether a description is
/// accepted, nor why it is refused.
pub proof fn lemma_plain_entries_never_refused(
    prefix: Seq<(String, Affix)>,
    suffix: Seq<(String, Affix)>,
    entries: Seq<DictEntry>,
    plain: Seq<DictEntry>,
)
    requires
        forall|i: int| 0 <= i < plain.len() ==> (#[trigger] plain[i]).prefix.len() == 0 && plain[i].suffix.len() == 0,
    ensures
        load_fault(prefix, suffix, entries + plain) == load_fault(prefix, suffix, entries),
{
    lemma_plain_entries_add_no_fault(
        entries,
        plain,
        config_code_table(),
        crate::process::prefix_pairs_of(prefix),
        crate::process::suffix_pairs_of(prefix, suffix),
    );
}

/// The lines of a replacement table are, in order, one per replacement.
proof fn lemma_replacement_lines_by_item(reps: Seq<Replace>, keyword: Seq<char>, style: ReplacementStyle)
    ensures
        replacement_lines(reps, keyword, style) == lines_text(
            Seq::new(reps.len(), |i: int| replacement_line(keyword, reps[i], style).drop_last()),
        ),
        forall|i: int| 0 <= i < reps.len() ==> (#[trigger] replacement_line(keyword, reps[i], style)).len() > 0
            && replacement_line(keyword, reps[i], style).last() == '\n',
    decreases reps.len(),
{
    reveal_strlit("\n");
    if reps.len() > 0 {
        let init = reps.drop_last();
        lemma_replacement_lines_by_item(init, keyword, style);
        let lines = Seq::new(reps.len(), |i: int| replacement_line(keyword, reps[i], style).drop_last());
        let init_lines = Seq::new(init.len(), |i: int| replacement_line(keyword, init[i], style).drop_last());
        assert(lines.drop_last() =~= init_lines);
        let line = replacement_line(keyword, reps.last(), style);
        assert("\n"@.len() == 1 && "\n"@[0] == '\n');
        assert(line.len() > 0 && line.last() == '\n');
        assert(line =~= line.drop_last() + "\n"@);
        assert(lines.last() == line.drop_last());
        assert forall|i: int| 0 <= i < reps.len() implies (#[trigger] replacement_line(keyword, reps[i], style)).len() > 0
            && replacement_line(keyword, reps[i], style).last() == '\n' by {
            if i < init.len() {
                assert(init[i] == reps[i]);
            }
        }
        assert(replacement_lines(reps, keyword, style) =~= lines_text(init_lines) + line.drop_last() + "\n"@);
    }
}

/// A `MAP` table: nothing for no replacements; otherwise a blank line, the keyword and the
/// count, then one line per replacement: the keyword, a space, the characters taken out and
/// then those put in, each side as it stands if it is a single character and in parentheses
/// otherwise.
pub proof fn lemma_grouped_table(reps: Seq<Replace>, keyword: Seq<char>)
    ensures
        reps.len() == 0 ==> replacements_text(reps, keyword, ReplacementStyle::Grouped).len() == 0,
        reps.len() > 0 ==> replacements_text(reps, keyword, ReplacementStyle::Grouped) == "\n"@
            + keyword + " "@ + decimal(reps.len()) + "\n"@ + lines_text(
            Seq::new(
                reps.len(),
                |i: int|
                    keyword + " "@ + (if reps[i].remove@.len() == 1 {
                        reps[i].remove@
                    } else {
                        "("@ + reps[i].remove@ + ")"@
                    }) + (if reps[i].add@.len() == 1 {
                        reps[i].add@
                    } else {
                        "("@ + reps[i].add@ + ")"@
                    }),
            ),
        ),
{
    reveal_strlit("\n");
    let style = ReplacementStyle::Grouped;
    lemma_replacement_lines_by_item(reps, keyword, style);
    let a = Seq::new(reps.len(), |i: int| replacement_line(keyword, reps[i], style).drop_last());
    let b = Seq::new(
        reps.len(),
        |i: int|
            keyword + " "@ + (if reps[i].remove@.len() == 1 {
                reps[i].remove@
            } else {
                "("@ + reps[i].remove@ + ")"@
            }) + (if reps[i].add@.len() == 1 {
                reps[i].add@
            } else {
                "("@ + reps[i].add@ + ")"@
            }),
    );
    assert forall|i: int| 0 <= i < reps.len() implies a[i] == b[i] by {
        let line = replacement_line(keyword, reps[i], style);
        assert(line =~= b[i] + "\n"@);
        assert(line.drop_last() =~= b[i]);
    }
    assert(a =~= b);
}

/// A `REP` or `PHONE` table: nothing for no replacements; otherwise a blank line, the keyword
/// and the count, then one line per replacement: the keyword, the characters taken out and
/// those put in, separated by spaces, with each space inside them written as `_`.
pub proof fn lemma_replace_table(reps: Seq<Replace>, keyword: Seq<char>)
    ensures
        reps.len() == 0 ==> replacements_text(reps, keyword, ReplacementStyle::Replace).len() == 0,
        reps.len() > 0 ==> replacements_text(reps, keyword, ReplacementStyle::Replace) == "\n"@
            + keyword + " "@ + decimal(reps.len()) + "\n"@ + lines_text(
            Seq::new(
                reps.len(),
                |i: int|
                    keyword + " "@ + Seq::new(
                        reps[i].remove@.len(),
                        |j: int| if reps[i].remove@[j] == ' ' { '_' } else { reps[i].remove@[j] },
                    ) + " "@ + Seq::new(
                        reps[i].add@.len(),
                        |j: int| if reps[i].add@[j] == ' ' { '_' } else { reps[i].add@[j] },
                    ),
            ),
        ),
{
    reveal_strlit("\n");
    let style = ReplacementStyle::Replace;
    lemma_replacement_lines_by_item(reps, keyword, style);
    let a = Seq::new(reps.len(), |i: int| replacement_line(keyword, reps[i], style).drop_last());
    let b = Seq::new(
        reps.len(),
        |i: int|
            keyword + " "@ + Seq::new(
                reps[i].remove@.len(),
                |j: int| if reps[i].remove@[j] == ' ' { '_' } else { reps[i].remove@[j] },
            ) + " "@ + Seq::new(
                reps[i].add@.len(),
                |j: int| if reps[i].add@[j] == ' ' { '_' } else { reps[i].add@[j] },
            ),
    );
    assert forall|i: int| 0 <= i < reps.len() implies a[i] == b[i] by {
        let r = reps[i];
        let rm = Seq::new(r.remove@.len(), |j: int| if r.remove@[j] == ' ' { '_' } else { r.remove@[j] });
        let ad = Seq::new(r.add@.len(), |j: int| if r.add@[j] == ' ' { '_' } else { r.add@[j] });
        assert(crate::write::underscored(r.remove@) =~= rm);
        assert(crate::write::underscored(r.add@) =~= ad);
        let line = replacement_line(keyword, r, style);
        assert(line =~= b[i] + "\n"@);
        assert(line.drop_last() =~= b[i]);
    }
    assert(a =~= b);
}

/// `line` stands as a whole line of `text` from position `k`: at the start of the text or
/// right after a line break, and followed by a line break.
pub open spec fn line_at(text: Seq<char>, k: int, line: Seq<char>) -> bool {
    &&& 0 <= k
    &&& k + line.len() + 1 <= text.len()
    &&& (k == 0 || text[k - 1] == '\n')
    &&& text.subrange(k, k + line.len() + 1) == line + "\n"@
}

/// `line` is one of the lines of `text`.
pub open spec fn has_line(text: Seq<char>, line: Seq<char>) -> bool {
    exists|k: int| #[trigger] line_at(text, k, line)
}

/// Text that is empty or ends with a line break.
spec fn ends_line(s: Seq<char>) -> bool {
    s.len() == 0 || s.last() == '\n'
}

/// A line that closes a prefix of the text is a line of the text.
proof fn lemma_line_of_prefix(p: Seq<char>, a: Seq<char>, l: Seq<char>)
    requires
        ends_line(a),
        (a + l + "\n"@).len() <= p.len(),
        p.subrange(0, (a + l + "\n"@).len() as int) == a + l + "\n"@,
    ensures
        line_at(p, a.len() as int, l),
{
    reveal_strlit("\n");
    let q = a + l + "\n"@;
    assert(q.len() == a.len() + l.len() + 1);
    assert(p.subrange(a.len() as int, q.len() as int) =~= q.subrange(a.len() as int, q.len() as int));
    assert(q.subrange(a.len() as int, q.len() as int) =~= l + "\n"@);
    if a.len() > 0 {
        assert(p[a.len() - 1] == p.subrange(0, q.len() as int)[a.len() - 1]);
        assert(q[a.len() - 1] == a[a.len() - 1]);
    }
}

/// Two texts joined, each empty or ending with a line break, end with a line break or are
/// empty.
proof fn lemma_ends_line_append(x: Seq<char>, y: Seq<char>)
    requires
        ends_line(x),
        ends_line(y),
    ensures
        ends_line(x + y),
{
    if y.len() > 0 {
        assert((x + y).last() == y.last());
    }
}

/// A setting's line, where there is one, ends with a line break.
proof fn lemma_setting_ends_line(keyword: Seq<char>, value: Seq<char>)
    ensures
        ends_line(text_setting(keyword, value)),
{
    reveal_strlit("\n");
    if value.len() > 0 {
        assert((keyword + " "@ + value + "\n"@).last() == '\n');
    }
}

/// `x` is the beginning of `p`.
spec fn opens(p: Seq<char>, x: Seq<char>) -> bool {
    &&& x.len() <= p.len()
    &&& p.subrange(0, x.len() as int) == x
}

/// A text begins every text that it is joined in front of.
proof fn lemma_concat_opens(x: Seq<char>, y: Seq<char>)
    ensures
        opens(x + y, x),
{
    assert((x + y).subrange(0, x.len() as int) =~= x);
}

/// The beginning of a beginning is a beginning.
proof fn lemma_opens_trans(p: Seq<char>, q: Seq<char>, r: Seq<char>)
    requires
        opens(p, q),
        opens(q, r),
    ensures
        opens(p, r),
{
    assert(p.subrange(0, r.len() as int) =~= q.subrange(0, r.len() as int));
}

/// The preamble begins with its lines as far as `TRY`.
proof fn lemma_preamble_opens(c: DictConfig)
    ensures
        opens(
            preamble_text(c),
            "FLAG num\n"@ + text_setting("SET"@, c.encoding@) + text_setting(
                "WORDCHARS"@,
                c.characters.additional@,
            ) + opt_line(c.complex_prefixes, "COMPLEXPREFIXES\n"@) + text_setting(
                "LANG"@,
                c.language_code@,
            ) + text_setting("IGNORE"@, c.characters.ignore@) + text_setting(
                "TRY"@,
                c.characters.try_order@,
            ),
        ),
{
    let ch = c.characters;
    let head = "FLAG num\n"@ + text_setting("SET"@, c.encoding@) + text_setting(
        "WORDCHARS"@,
        ch.additional@,
    ) + opt_line(c.complex_prefixes, "COMPLEXPREFIXES\n"@) + text_setting(
        "LANG"@,
        c.language_code@,
    ) + text_setting("IGNORE"@, ch.ignore@) + text_setting("TRY"@, ch.try_order@);
    let key = opt_line(
        ch.key_groups.len() > 0,
        "KEY "@ + crate::write::join_texts(texts(ch.key_groups@), "|"@) + "\n"@,
    );
    let pc = crate::write::preamble_characters(c);
    let s = preamble_suggestions(c);
    let k = preamble_compound(c.compound);
    let i = conversion_text(ch.input_conversion@, "ICONV"@);
    let o = conversion_text(ch.output_conversion@, "OCONV"@);
    let p = preamble_text(c);
    assert(p == pc + s + k + i + o);
    assert(pc == head + key);
    lemma_concat_opens(pc + s + k + i, o);
    lemma_concat_opens(pc + s + k, i);
    lemma_opens_trans(p, pc + s + k + i, pc + s + k);
    lemma_concat_opens(pc + s, k);
    lemma_opens_trans(p, pc + s + k, pc + s);
    lemma_concat_opens(pc, s);
    lemma_opens_trans(p, pc + s, pc);
    lemma_concat_opens(head, key);
    lemma_opens_trans(p, pc, head);
}

/// A setting that is set closes a text that `p` opens with: its line is a line of `p`, right
/// after that text.
proof fn lemma_setting_line(p: Seq<char>, a: Seq<char>, keyword: Seq<char>, value: Seq<char>)
    requires
        ends_line(a),
        value.len() > 0,
        opens(p, a + text_setting(keyword, value)),
    ensures
        line_at(p, a.len() as int, keyword + " "@ + value),
{
    assert(a + text_setting(keyword, value) =~= a + (keyword + " "@ + value) + "\n"@);
    lemma_line_of_prefix(p, a, keyword + " "@ + value);
}

/// The `k`-th of the settings written after `FLAG num`, as far as `TRY`.
spec fn head_setting(c: DictConfig, k: int) -> Seq<char> {
    if k == 1 {
        text_setting("SET"@, c.encoding@)
    } else if k == 2 {
        text_setting("WORDCHARS"@, c.characters.additional@)
    } else if k == 3 {
        opt_line(c.complex_prefixes, "COMPLEXPREFIXES\n"@)
    } else if k == 4 {
        text_setting("LANG"@, c.language_code@)
    } else if k == 5 {
        text_setting("IGNORE"@, c.characters.ignore@)
    } else {
        text_setting("TRY"@, c.characters.try_order@)
    }
}

/// The preamble's first line and its first `k` settings.
spec fn head_part(c: DictConfig, k: int) -> Seq<char>
    decreases k,
{
    if k <= 0 {
        "FLAG num\n"@
    } else {
        head_part(c, k - 1) + head_setting(c, k)
    }
}

/// Each beginning of the preamble's first lines ends a line.
proof fn lemma_head_part_ends_line(c: DictConfig, k: int)
    ensures
        ends_line(head_part(c, k)),
    decreases k,
{
    if k <= 0 {
        reveal_strlit("FLAG num\n");
    } else {
        lemma_head_part_ends_line(c, k - 1);
        if k == 3 {
            reveal_strlit("COMPLEXPREFIXES\n");
        } else if k == 1 {
            lemma_setting_ends_line("SET"@, c.encoding@);
        } else if k == 2 {
            lemma_setting_ends_line("WORDCHARS"@, c.characters.additional@);
        } else if k == 4 {
            lemma_setting_ends_line("LANG"@, c.language_code@);
        } else if k == 5 {
            lemma_setting_ends_line("IGNORE"@, c.characters.ignore@);
        } else {
            lemma_setting_ends_line("TRY"@, c.characters.try_order@);
        }
        lemma_ends_line_append(head_part(c, k - 1), head_setting(c, k));
    }
}

/// A text that begins with the first `k` settings begins with the first `j`, for `j <= k`.
proof fn lemma_head_part_opens(p: Seq<char>, c: DictConfig, j: int, k: int)
    requires
        0 <= j <= k,
        opens(p, head_part(c, k)),
    ensures
        opens(p, head_part(c, j)),
    decreases k - j,
{
    if j < k {
        lemma_concat_opens(head_part(c, k - 1), head_setting(c, k));
        lemma_opens_trans(p, head_part(c, k), head_part(c, k - 1));
        lemma_head_part_opens(p, c, j, k - 1);
    }
}

/// The line of the `k`-th setting, where it is set, right after the settings before it.
proof fn lemma_head_setting_line(p: Seq<char>, c: DictConfig, k: int, keyword: Seq<char>, value: Seq<char>)
    requires
        1 <= k <= 6,
        k != 3,
        head_setting(c, k) == text_setting(keyword, value),
        value.len() > 0,
        opens(p, head_part(c, 6)),
    ensures
        line_at(p, head_part(c, k - 1).len() as int, keyword + " "@ + value),
{
    lemma_head_part_opens(p, c, k, 6);
    lemma_head_part_ends_line(c, k - 1);
    lemma_setting_line(p, head_part(c, k - 1), keyword, value);
}

/// `KW` and a space, written as one text.
proof fn lemma_keyword_space()
    ensures
        "SET"@ + " "@ == "SET "@,
        "WORDCHARS"@ + " "@ == "WORDCHARS "@,
        "LANG"@ + " "@ == "LANG "@,
        "IGNORE"@ + " "@ == "IGNORE "@,
        "TRY"@ + " "@ == "TRY "@,
{
    reveal_strlit(" ");
    reveal_strlit("SET");
    reveal_strlit("SET ");
    assert("SET"@ + " "@ =~= "SET "@);
    reveal_strlit("WORDCHARS");
    reveal_strlit("WORDCHARS ");
    assert("WORDCHARS"@ + " "@ =~= "WORDCHARS "@);
    reveal_strlit("LANG");
    reveal_strlit("LANG ");
    assert("LANG"@ + " "@ =~= "LANG "@);
    reveal_strlit("IGNORE");
    reveal_strlit("IGNORE ");
    assert("IGNORE"@ + " "@ =~= "IGNORE "@);
    reveal_strlit("TRY");
    reveal_strlit("TRY ");
    assert("TRY"@ + " "@ =~= "TRY "@);
}

/// The line `COMPLEXPREFIXES`, where it is set, right after the settings before it.
proof fn lemma_complex_prefixes_line(p: Seq<char>, c: DictConfig)
    requires
        c.complex_prefixes,
        opens(p, head_part(c, 6)),
    ensures
        line_at(p, head_part(c, 2).len() as int, "COMPLEXPREFIXES"@),
{
    lemma_head_part_opens(p, c, 3, 6);
    lemma_head_part_ends_line(c, 2);
    assert(head_part(c, 3) =~= head_part(c, 2) + "COMPLEXPREFIXES"@ + "\n"@) by {
        reveal_strlit("COMPLEXPREFIXES\n");
        reveal_strlit("COMPLEXPREFIXES");
        reveal_strlit("\n");
    }
    lemma_line_of_prefix(p, head_part(c, 2), "COMPLEXPREFIXES"@);
}

/// The line `FLAG num` opens any text that begins with it.
proof fn lemma_flag_line(p: Seq<char>, c: DictConfig)
    requires
        opens(p, head_part(c, 6)),
    ensures
        line_at(p, 0, "FLAG num"@),
        head_part(c, 0).len() == 9,
{
    lemma_head_part_opens(p, c, 0, 6);
    assert(head_part(c, 0) =~= Seq::<char>::empty() + "FLAG num"@ + "\n"@ && head_part(c, 0).len() == 9) by {
        reveal_strlit("FLAG num\n");
        reveal_strlit("FLAG num");
        reveal_strlit("\n");
    }
    lemma_line_of_prefix(p, Seq::<char>::empty(), "FLAG num"@);
}

/// The lines of the settings as far as `TRY`, in any text that begins with them.
proof fn lemma_head_lines(p: Seq<char>, c: DictConfig)
    requires
        opens(p, head_part(c, 6)),
    ensures
        line_at(p, 0, "FLAG num"@),
        c.encoding@.len() > 0 ==> line_at(p, 9, "SET "@ + c.encoding@),
        c.characters.additional@.len() > 0 ==> has_line(p, "WORDCHARS "@ + c.characters.additional@),
        c.complex_prefixes ==> has_line(p, "COMPLEXPREFIXES"@),
        c.language_code@.len() > 0 ==> has_line(p, "LANG "@ + c.language_code@),
        c.characters.ignore@.len() > 0 ==> has_line(p, "IGNORE "@ + c.characters.ignore@),
        c.characters.try_order@.len() > 0 ==> has_line(p, "TRY "@ + c.characters.try_order@),
{
    lemma_keyword_space();
    lemma_flag_line(p, c);
    if c.encoding@.len() > 0 {
        lemma_head_setting_line(p, c, 1, "SET"@, c.encoding@);
    }
    if c.characters.additional@.len() > 0 {
        lemma_head_setting_line(p, c, 2, "WORDCHARS"@, c.characters.additional@);
        assert(line_at(p, head_part(c, 1).len() as int, "WORDCHARS "@ + c.characters.additional@));
    }
    if c.complex_prefixes {
        lemma_complex_prefixes_line(p, c);
        assert(line_at(p, head_part(c, 2).len() as int, "COMPLEXPREFIXES"@));
    }
    if c.language_code@.len() > 0 {
        lemma_head_setting_line(p, c, 4, "LANG"@, c.language_code@);
        assert(line_at(p, head_part(c, 3).len() as int, "LANG "@ + c.language_code@));
    }
    if c.characters.ignore@.len() > 0 {
        lemma_head_setting_line(p, c, 5, "IGNORE"@, c.characters.ignore@);
        assert(line_at(p, head_part(c, 4).len() as int, "IGNORE "@ + c.characters.ignore@));
    }
    if c.characters.try_order@.len() > 0 {
        lemma_head_setting_line(p, c, 6, "TRY"@, c.characters.try_order@);
        assert(line_at(p, head_part(c, 5).len() as int, "TRY "@ + c.characters.try_order@));
    }
}

/// The preamble of the `.aff` file opens with the line `FLAG num`; a non-empty encoding is
/// declared on the very next line, as `SET` and the encoding, whatever the other settings;
/// and each of the settings on word characters, complex prefixes, language, ignored
/// characters and suggestion order that is set has its own line.
pub proof fn lemma_preamble_lines(c: DictConfig)
    ensures
        line_at(preamble_text(c), 0, "FLAG num"@),
        c.encoding@.len() > 0 ==> line_at(preamble_text(c), 9, "SET "@ + c.encoding@),
        c.characters.additional@.len() > 0 ==> has_line(
            preamble_text(c),
            "WORDCHARS "@ + c.characters.additional@,
        ),
        c.complex_prefixes ==> has_line(preamble_text(c), "COMPLEXPREFIXES"@),
        c.language_code@.len() > 0 ==> has_line(preamble_text(c), "LANG "@ + c.language_code@),
        c.characters.ignore@.len() > 0 ==> has_line(preamble_text(c), "IGNORE "@ + c.characters.ignore@),
        c.characters.try_order@.len() > 0 ==> has_line(
            preamble_text(c),
            "TRY "@ + c.characters.try_order@,
        ),
{
    lemma_preamble_opens(c);
    assert(head_part(c, 6) =~= head_part(c, 5) + head_setting(c, 6));
    reveal_with_fuel(head_part, 7);
    lemma_head_lines(preamble_text(c), c);
}

/// `piece` stands in `text` from position `n`.
pub open spec fn occurs_at(text: Seq<char>, n: int, piece: Seq<char>) -> bool {
    &&& 0 <= n
    &&& n + piece.len() <= text.len()
    &&& text.subrange(n, n + piece.len()) == piece
}

/// A text stands in itself joined after another, right after it.
proof fn lemma_occurs_after(x: Seq<char>, y: Seq<char>)
    ensures
        occurs_at(x + y, x.len() as int, y),
{
    assert((x + y).subrange(x.len() as int, (x.len() + y.len()) as int) =~= y);
}

/// What stands in a text stands where it did when more is joined after it.
proof fn lemma_occurs_extend(x: Seq<char>, y: Seq<char>, n: int, piece: Seq<char>)
    requires
        occurs_at(x, n, piece),
    ensures
        occurs_at(x + y, n, piece),
{
    assert((x + y).subrange(n, n + piece.len()) =~= x.subrange(n, n + piece.len()));
}

/// What stands in a piece stands in the text that holds the piece.
proof fn lemma_occurs_within(text: Seq<char>, s: int, outer: Seq<char>, n: int, inner: Seq<char>)
    requires
        occurs_at(text, s, outer),
        occurs_at(outer, n, inner),
    ensures
        occurs_at(text, s + n, inner),
{
    assert(text.subrange(s + n, s + n + inner.len()) =~= outer.subrange(n, n + inner.len()));
}

/// The blocks of the affixes hold the block of each of them.
proof fn lemma_blocks_hold_block(
    tag: Seq<char>,
    order: Seq<(Seq<char>, u16)>,
    affixes: Seq<(String, Affix)>,
    pairs: Seq<(Seq<char>, u16)>,
    k: int,
) -> (n: int)
    requires
        affix_blocks(tag, order, affixes, pairs) is Ok,
        0 <= k < order.len(),
    ensures
        affix_block(tag, order[k].1, affix_of(affixes, order[k].0), pairs) is Ok,
        occurs_at(
            affix_blocks(tag, order, affixes, pairs)->Ok_0,
            n,
            affix_block(tag, order[k].1, affix_of(affixes, order[k].0), pairs)->Ok_0,
        ),
    decreases order.len(),
{
    let init = order.drop_last();
    let front = affix_blocks(tag, init, affixes, pairs)->Ok_0;
    let last = affix_block(tag, order.last().1, affix_of(affixes, order.last().0), pairs)->Ok_0;
    assert(affix_blocks(tag, order, affixes, pairs)->Ok_0 == front + last);
    if k == order.len() - 1 {
        lemma_occurs_after(front, last);
        front.len() as int
    } else {
        let n = lemma_blocks_hold_block(tag, init, affixes, pairs, k);
        assert(init[k] == order[k]);
        let blk = affix_block(tag, order[k].1, affix_of(affixes, order[k].0), pairs)->Ok_0;
        lemma_occurs_extend(front, last, n, blk);
        n
    }
}

/// The affix blocks of one kind stand in the `.aff` text.
proof fn lemma_rules_text_in_aff(d: HunspellDict, t: AffixType) -> (start: int)
    requires
        d.spec_aff_text() is Ok,
    ensures
        d.spec_affix_rules_text(t) is Ok,
        occurs_at(d.spec_aff_text()->Ok_0, start, d.spec_affix_rules_text(t)->Ok_0),
{
    let c = d.spec_config();
    let x1 = preamble_text(c) + crate::write::flag_keys_text(config_code_table(), d.spec_used_flags());
    let pt = d.spec_affix_rules_text(AffixType::Prefix)->Ok_0;
    let xt = d.spec_affix_rules_text(AffixType::Suffix)->Ok_0;
    let rep = replacements_text(c.characters.try_replace@, "REP"@, ReplacementStyle::Replace);
    let phone = replacements_text(c.characters.phonetic_replace@, "PHONE"@, ReplacementStyle::Replace);
    let map = replacements_text(c.characters.remap@, "MAP"@, ReplacementStyle::Grouped);
    let x2 = x1 + pt;
    let x3 = x2 + xt;
    let x4 = x3 + rep;
    let x5 = x4 + phone;
    let aff = d.spec_aff_text()->Ok_0;
    assert(aff == x5 + map);
    let (start, piece) = match t {
        AffixType::Prefix => {
            lemma_occurs_after(x1, pt);
            lemma_occurs_extend(x2, xt, x1.len() as int, pt);
            (x1.len() as int, pt)
        },
        AffixType::Suffix => {
            lemma_occurs_after(x2, xt);
            (x2.len() as int, xt)
        },
    };
    lemma_occurs_extend(x3, rep, start, piece);
    lemma_occurs_extend(x4, phone, start, piece);
    lemma_occurs_extend(x5, map, start, piece);
    start
}

/// A block that stands in a text puts its heading on a line of the text.
proof fn lemma_heading_line(aff: Seq<char>, m: int, heading: Seq<char>, body: Seq<char>)
    requires
        occurs_at(aff, m, "\n"@ + heading + "\n"@ + body),
    ensures
        has_line(aff, heading),
{
    reveal_strlit("\n");
    let blk = "\n"@ + heading + "\n"@ + body;
    let hl = heading.len() as int;
    assert(aff[m] == aff.subrange(m, m + blk.len())[0]);
    assert(aff.subrange(m + 1, m + 1 + hl + 1) =~= blk.subrange(1, 1 + hl + 1));
    assert(blk.subrange(1, 1 + hl + 1) =~= heading + "\n"@);
    assert(line_at(aff, m + 1, heading));
}

/// The heading of an affix's block as the `.aff` file writes it.
spec fn heading_of(t: AffixType, code: u16, a: Affix) -> Seq<char> {
    (match t {
        AffixType::Prefix => "PFX"@,
        AffixType::Suffix => "SFX"@,
    }) + " "@ + decimal(code as nat) + " "@ + (if a.cross_product {
        "Y"@
    } else {
        "N"@
    }) + " "@ + decimal(a.rules@.len())
}

/// The blocks of one kind hold, for an affix with rules, a blank line, its heading, a line
/// break and its rules.
proof fn lemma_heading_in_rules_text(d: HunspellDict, t: AffixType, k: int) -> (r: (int, Seq<char>))
    requires
        d.spec_affix_rules_text(t) is Ok,
        0 <= k < d.spec_pairs(t).len(),
        affix_of(d.spec_affixes(t), d.spec_pairs(t)[k].0).rules.len() > 0,
    ensures
        occurs_at(
            d.spec_affix_rules_text(t)->Ok_0,
            r.0,
            "\n"@ + heading_of(t, d.spec_pairs(t)[k].1, affix_of(d.spec_affixes(t), d.spec_pairs(t)[k].0))
                + "\n"@ + r.1,
        ),
{
    let tag = affix_tag(t);
    let order = d.spec_pairs(t);
    let affixes = d.spec_affixes(t);
    let a = affix_of(affixes, order[k].0);
    let code = order[k].1;
    assert(affix_blocks(tag, order, affixes, order) is Ok);
    let n = lemma_blocks_hold_block(tag, order, affixes, order, k);
    let blk = affix_block(tag, code, a, order)->Ok_0;
    let body = rule_lines(tag, code, a.rules@, order)->Ok_0;
    assert(tag == (match t {
        AffixType::Prefix => "PFX"@,
        AffixType::Suffix => "SFX"@,
    }));
    assert(blk == "\n"@ + heading_of(t, code, a) + "\n"@ + body);
    (n, body)
}

/// Every affix with rules, of either kind, has in the `.aff` file a heading line: `PFX` or
/// `SFX`, its code, `Y` if it may be combined with affixes of the other kind and `N` if not,
/// and the number of its rules.
pub proof fn lemma_affix_heading(d: HunspellDict, t: AffixType, k: int)
    requires
        d.spec_aff_text() is Ok,
        0 <= k < d.spec_pairs(t).len(),
        affix_of(d.spec_affixes(t), d.spec_pairs(t)[k].0).rules.len() > 0,
    ensures
        ({
            let a = affix_of(d.spec_affixes(t), d.spec_pairs(t)[k].0);
            has_line(
                d.spec_aff_text()->Ok_0,
                (match t {
                    AffixType::Prefix => "PFX"@,
                    AffixType::Suffix => "SFX"@,
                }) + " "@ + decimal(d.spec_pairs(t)[k].1 as nat) + " "@ + (if a.cross_product {
                    "Y"@
                } else {
                    "N"@
                }) + " "@ + decimal(a.rules@.len()),
            )
        }),
{
    let start = lemma_rules_text_in_aff(d, t);
    let (n, body) = lemma_heading_in_rules_text(d, t, k);
    let heading = heading_of(t, d.spec_pairs(t)[k].1, affix_of(d.spec_affixes(t), d.spec_pairs(t)[k].0));
    lemma_occurs_within(
        d.spec_aff_text()->Ok_0,
        start,
        d.spec_affix_rules_text(t)->Ok_0,
        n,
        "\n"@ + heading + "\n"@ + body,
    );
    lemma_heading_line(d.spec_aff_text()->Ok_0, start + n, heading, body);
}
} // verus!

//! The text of the `.dic` and `.aff` files.

use vstd::prelude::*;
use crate::text::{chars_of, decimal, decimal_string, push_char, push_text};
use crate::codes::{entry_codes, key_codes, lemma_key_codes_prefix_err, find_code, CodeMap};
use crate::keys::affix_names;
use crate::clock::{is_time_stamp, local_now_formatted, utc_now_formatted, DATE_FMT};
use crate::codes::config_code_table;
use crate::process::{entries_fault, DerivedDictData, HunspellDict};
use crate::types::{
    texts, Affix, AffixRule, AffixType, CompoundConfig, DictConfig, DictError, DictFault,
    DictMetadata, FlagCode, Replace,
};

verus! {

broadcast use crate::process::group_dict_fields;

/// `line` if `cond` holds, else nothing.
pub open spec fn opt_line(cond: bool, line: Seq<char>) -> Seq<char> {
    if cond {
        line
    } else {
        Seq::empty()
    }
}

/// `s` with each space replaced by an underscore.
pub open spec fn underscored(s: Seq<char>) -> Seq<char> {
    s.map_values(|c: char| if c == ' ' { '_' } else { c })
}

/// `s` as it stands if it is a single character, else in parentheses.
pub open spec fn paren_unless_single(s: Seq<char>) -> Seq<char> {
    if s.len() == 1 {
        s
    } else {
        "("@ + s + ")"@
    }
}

/// The strings of `v` joined by `sep`.
pub open spec fn join_texts(v: Seq<Seq<char>>, sep: Seq<char>) -> Seq<char>
    decreases v.len(),
{
    if v.len() == 0 {
        Seq::empty()
    } else if v.len() == 1 {
        v[0]
    } else {
        join_texts(v.drop_last(), sep) + sep + v.last()
    }
}

/// How the lines of a replacement table are written.
#[derive(Clone, Copy, Debug, PartialEq, Eq, Structural)]
pub enum ReplacementStyle {
    /// `KW from to`, spaces written as underscores (`REP`, `PHONE`).
    Replace,
    /// `KW fromto`, each side in parentheses unless it is one character (`MAP`).
    Grouped,
}

/// One line of a replacement table.
pub open spec fn replacement_line(keyword: Seq<char>, rep: Replace, style: ReplacementStyle) -> Seq<
    char,
> {
    match style {
        ReplacementStyle::Replace => keyword + " "@ + underscored(rep.remove@) + " "@ + underscored(
            rep.add@,
        ) + "\n"@,
        ReplacementStyle::Grouped => keyword + " "@ + paren_unless_single(rep.remove@)
            + paren_unless_single(rep.add@) + "\n"@,
    }
}

/// The lines of a replacement table.
pub open spec fn replacement_lines(reps: Seq<Replace>, keyword: Seq<char>, style: ReplacementStyle) -> Seq<
    char,
>
    decreases reps.len(),
{
    if reps.len() == 0 {
        Seq::empty()
    } else {
        replacement_lines(reps.drop_last(), keyword, style) + replacement_line(
            keyword,
            reps.last(),
            style,
        )
    }
}

/// A replacement table with its heading, or nothing if it is empty.
pub open spec fn replacements_text(reps: Seq<Replace>, keyword: Seq<char>, style: ReplacementStyle) -> Seq<
    char,
> {
    if reps.len() == 0 {
        Seq::empty()
    } else {
        "\n"@ + keyword + " "@ + decimal(reps.len()) + "\n"@ + replacement_lines(reps, keyword, style)
    }
}

/// The lines of a conversion table, each `KW from to`.
pub open spec fn conversion_lines(reps: Seq<Replace>, keyword: Seq<char>) -> Seq<char>
    decreases reps.len(),
{
    if reps.len() == 0 {
        Seq::empty()
    } else {
        conversion_lines(reps.drop_last(), keyword) + keyword + " "@ + reps.last().remove@ + " "@
            + reps.last().add@ + "\n"@
    }
}

/// A conversion table with its count line, or nothing if it is empty.
pub open spec fn conversion_text(reps: Seq<Replace>, keyword: Seq<char>) -> Seq<char> {
    if reps.len() == 0 {
        Seq::empty()
    } else {
        keyword + " "@ + decimal(reps.len()) + "\n"@ + conversion_lines(reps, keyword)
    }
}

/// `KW value` if the value is not empty.
pub open spec fn text_setting(keyword: Seq<char>, value: Seq<char>) -> Seq<char> {
    opt_line(value.len() > 0, keyword + " "@ + value + "\n"@)
}

/// `KW n` if `n` is not zero.
pub open spec fn number_setting(keyword: Seq<char>, n: u8) -> Seq<char> {
    opt_line(n > 0, keyword + " "@ + decimal(n as nat) + "\n"@)
}

/// The settings on characters and suggestions, as far as `TRY`.
pub open spec fn preamble_characters(c: DictConfig) -> Seq<char> {
    "FLAG num\n"@ + text_setting("SET"@, c.encoding@) + text_setting(
        "WORDCHARS"@,
        c.characters.additional@,
    ) + opt_line(c.complex_prefixes, "COMPLEXPREFIXES\n"@) + text_setting(
        "LANG"@,
        c.language_code@,
    ) + text_setting("IGNORE"@, c.characters.ignore@) + text_setting(
        "TRY"@,
        c.characters.try_order@,
    ) + opt_line(
        c.characters.key_groups.len() > 0,
        "KEY "@ + join_texts(texts(c.characters.key_groups@), "|"@) + "\n"@,
    )
}

/// The settings on suggestions and affix handling.
pub open spec fn preamble_suggestions(c: DictConfig) -> Seq<char> {
    number_setting("MAXNGRAMSUGS"@, c.max_n_gram_suggestions) + number_setting(
        "MAXDIFF"@,
        c.max_diff,
    ) + opt_line(c.only_max_diff, "ONLYMAXDIFF\n"@) + opt_line(
        c.no_split_suggestions,
        "NOSPLITSUGS\n"@,
    ) + opt_line(c.suggest_with_dots, "SUGSWITHDOTS\n"@) + opt_line(
        c.forbid_warn,
        "FORBIDWARN\n"@,
    ) + opt_line(c.full_strip, "FULLSTRIP\n"@) + opt_line(c.check_sharps, "CHECKSHARPS\n"@)
}

/// The settings on compounds.
pub open spec fn preamble_compound(k: CompoundConfig) -> Seq<char> {
    opt_line(k.check_case, "CHECKCOMPOUNDCASE\n"@) + opt_line(
        k.check_duplicate,
        "CHECKCOMPOUNDDUP\n"@,
    ) + opt_line(k.check_replace, "CHECKCOMPOUNDREP\n"@) + opt_line(
        k.check_triple,
        "CHECKCOMPOUNDTRIPLE\n"@,
    ) + opt_line(k.more_suffixes, "COMPOUNDMORESUFFIXES\n"@) + opt_line(
        k.simplified_triple,
        "SIMPLIFIEDTRIPLE\n"@,
    ) + number_setting("COMPOUNDMIN"@, k.min_char) + number_setting(
        "COMPOUNDWORDMAX"@,
        k.max_word,
    ) + number_setting("MAXCPDSUGS"@, k.max_suggestions)
}

/// The whole preamble of the `.aff` file.
pub open spec fn preamble_text(c: DictConfig) -> Seq<char> {
    preamble_characters(c) + preamble_suggestions(c) + preamble_compound(c.compound)
        + conversion_text(c.characters.input_conversion@, "ICONV"@) + conversion_text(
        c.characters.output_conversion@,
        "OCONV"@,
    )
}

/// Appends `line` if `cond` holds.
fn push_opt_line(content: &mut String, cond: bool, line: &str)
    ensures
        final(content)@ == old(content)@ + opt_line(cond, line@),
{
    if cond {
        push_text(content, line);
    } else {
        assert(old(content)@ + opt_line(cond, line@) =~= old(content)@);
    }
}

/// Appends `KW value` if the value is not empty.
fn push_text_setting(content: &mut String, keyword: &str, value: &str)
    ensures
        final(content)@ == old(content)@ + text_setting(keyword@, value@),
{
    if !value.is_empty() {
        let ghost start = content@;
        push_text(content, keyword);
        push_text(content, " ");
        push_text(content, value);
        push_text(content, "\n");
        assert(content@ =~= start + (keyword@ + " "@ + value@ + "\n"@));
    } else {
        assert(old(content)@ + text_setting(keyword@, value@) =~= old(content)@);
    }
}

/// Appends `KW n` if `n` is not zero.
fn push_number_setting(content: &mut String, keyword: &str, n: u8)
    ensures
        final(content)@ == old(content)@ + number_setting(keyword@, n),
{
    if n > 0 {
        let ghost start = content@;
        push_text(content, keyword);
        push_text(content, " ");
        let digits = decimal_string(n as u64);
        push_text(content, digits.as_str());
        push_text(content, "\n");
        assert(content@ =~= start + (keyword@ + " "@ + decimal(n as nat) + "\n"@));
    } else {
        assert(old(content)@ + number_setting(keyword@, n) =~= old(content)@);
    }
}

/// Appends the strings of `v` joined by `sep`.
fn push_joined_texts(content: &mut String, v: &Vec<String>, sep: &str)
    ensures
        final(content)@ == old(content)@ + join_texts(texts(v@), sep@),
{
    let ghost start = content@;
    let ghost tv = texts(v@);
    if v.len() == 0 {
        assert(start + join_texts(tv, sep@) =~= start);
        return;
    }
    push_text(content, v[0].as_str());
    assert(tv.take(1).drop_last().len() == 0);
    assert(join_texts(tv.take(1), sep@) == tv[0]);
    let mut i: usize = 1;
    while i < v.len()
        invariant
            tv == texts(v@),
            1 <= i <= v.len(),
            content@ == start + join_texts(tv.take(i as int), sep@),
        decreases v.len() - i,
    {
        push_text(content, sep);
        push_text(content, v[i].as_str());
        assert(tv.take(i + 1).drop_last() =~= tv.take(i as int));
        assert(tv.take(i + 1).last() == v@[i as int]@);
        assert(content@ =~= start + join_texts(tv.take(i + 1), sep@));
        i = i + 1;
    }
    assert(tv.take(i as int) =~= tv);
}

/// `s` with each space replaced by an underscore.
pub fn replace_space_with_underscore(s: &str) -> (r: String)
    ensures
        r@ == underscored(s@),
{
    let cs = chars_of(s);
    let mut r = String::new();
    let mut i: usize = 0;
    while i < cs.len()
        invariant
            cs@ == s@,
            i <= cs.len(),
            r@ == underscored(s@).take(i as int),
        decreases cs.len() - i,
    {
        let c = cs[i];
        if c == ' ' {
            push_char(&mut r, '_');
        } else {
            push_char(&mut r, c);
        }
        assert(r@ =~= underscored(s@).take(i + 1));
        i = i + 1;
    }
    assert(underscored(s@).take(i as int) =~= underscored(s@));
    r
}

/// `s` as it stands if it is one character long, else in parentheses.
pub fn wrap_string_in_paren_if_len_not_one(s: &str) -> (r: String)
    ensures
        r@ == paren_unless_single(s@),
{
    let cs = chars_of(s);
    if cs.len() == 1 {
        String::from_str(s)
    } else {
        let mut r = String::from_str("(");
        push_text(&mut r, s);
        push_text(&mut r, ")");
        r
    }
}

/// One line of a `MAP` table.
pub fn map_formatter(keyword: &str, rep: &Replace) -> (r: String)
    ensures
        r@ == replacement_line(keyword@, *rep, ReplacementStyle::Grouped),
{
    let rm = wrap_string_in_paren_if_len_not_one(rep.remove.as_str());
    let add = wrap_string_in_paren_if_len_not_one(rep.add.as_str());
    let mut r = String::from_str(keyword);
    push_text(&mut r, " ");
    push_text(&mut r, rm.as_str());
    push_text(&mut r, add.as_str());
    push_text(&mut r, "\n");
    r
}

/// One line of a `REP` or `PHONE` table.
pub fn replace_formatter(keyword: &str, rep: &Replace) -> (r: String)
    ensures
        r@ == replacement_line(keyword@, *rep, ReplacementStyle::Replace),
{
    let rm = replace_space_with_underscore(rep.remove.as_str());
    let add = replace_space_with_underscore(rep.add.as_str());
    let mut r = String::from_str(keyword);
    push_text(&mut r, " ");
    push_text(&mut r, rm.as_str());
    push_text(&mut r, " ");
    push_text(&mut r, add.as_str());
    push_text(&mut r, "\n");
    r
}

/// A replacement table with its heading, or nothing if it is empty.
pub fn build_replacements_string(reps: &Vec<Replace>, keyword: &str, style: ReplacementStyle) -> (r:
    String)
    ensures
        r@ == replacements_text(reps@, keyword@, style),
{
    if reps.len() == 0 {
        return String::new();
    }
    let mut content = String::from_str("\n");
    push_text(&mut content, keyword);
    push_text(&mut content, " ");
    let count = decimal_string(reps.len() as u64);
    push_text(&mut content, count.as_str());
    push_text(&mut content, "\n");
    let ghost head = content@;
    let mut i: usize = 0;
    assert(reps@.take(0) =~= Seq::<Replace>::empty());
    assert(content@ =~= head + replacement_lines(reps@.take(0), keyword@, style));
    while i < reps.len()
        invariant
            i <= reps.len(),
            content@ == head + replacement_lines(reps@.take(i as int), keyword@, style),
        decreases reps.len() - i,
    {
        let line = match style {
            ReplacementStyle::Replace => replace_formatter(keyword, &reps[i]),
            ReplacementStyle::Grouped => map_formatter(keyword, &reps[i]),
        };
        push_text(&mut content, line.as_str());
        assert(reps@.take(i + 1).drop_last() =~= reps@.take(i as int));
        assert(content@ =~= head + replacement_lines(reps@.take(i + 1), keyword@, style));
        i = i + 1;
    }
    assert(reps@.take(i as int) =~= reps@);
    assert(content@ =~= "\n"@ + keyword@ + " "@ + decimal(reps@.len()) + "\n"@ + replacement_lines(reps@, keyword@, style));
    content
}

/// Appends a conversion table with its count line, if it is not empty.
fn push_conversions(content: &mut String, reps: &Vec<Replace>, keyword: &str)
    ensures
        final(content)@ == old(content)@ + conversion_text(reps@, keyword@),
{
    let ghost start = content@;
    if reps.len() == 0 {
        assert(start + conversion_text(reps@, keyword@) =~= start);
        return;
    }
    push_text(content, keyword);
    push_text(content, " ");
    let count = decimal_string(reps.len() as u64);
    push_text(content, count.as_str());
    push_text(content, "\n");
    let ghost head = content@;
    let mut i: usize = 0;
    assert(reps@.take(0) =~= Seq::<Replace>::empty());
    assert(content@ =~= head + conversion_lines(reps@.take(0), keyword@));
    while i < reps.len()
        invariant
            i <= reps.len(),
            content@ == head + conversion_lines(reps@.take(i as int), keyword@),
        decreases reps.len() - i,
    {
        push_text(content, keyword);
        push_text(content, " ");
        push_text(content, reps[i].remove.as_str());
        push_text(content, " ");
        push_text(content, reps[i].add.as_str());
        push_text(content, "\n");
        assert(reps@.take(i + 1).drop_last() =~= reps@.take(i as int));
        assert(content@ =~= head + conversion_lines(reps@.take(i + 1), keyword@));
        i = i + 1;
    }
    assert(reps@.take(i as int) =~= reps@);
    assert(content@ =~= start + (keyword@ + " "@ + decimal(reps@.len()) + "\n"@ + conversion_lines(reps@, keyword@)));
}

/// The settings on characters, as far as `KEY`.
fn build_preamble_characters(c: &DictConfig) -> (r: String)
    ensures
        r@ == preamble_characters(*c),
{
    let ch = &c.characters;
    let mut content = String::from_str("FLAG num\n");
    push_text_setting(&mut content, "SET", c.encoding.as_str());
    push_text_setting(&mut content, "WORDCHARS", ch.additional.as_str());
    push_opt_line(&mut content, c.complex_prefixes, "COMPLEXPREFIXES\n");
    push_text_setting(&mut content, "LANG", c.language_code.as_str());
    push_text_setting(&mut content, "IGNORE", ch.ignore.as_str());
    push_text_setting(&mut content, "TRY", ch.try_order.as_str());
    let ghost before_key = content@;
    let ghost key_line = "KEY "@ + join_texts(texts(ch.key_groups@), "|"@) + "\n"@;
    if ch.key_groups.len() > 0 {
        push_text(&mut content, "KEY ");
        push_joined_texts(&mut content, &ch.key_groups, "|");
        push_text(&mut content, "\n");
        assert(content@ =~= before_key + key_line);
    } else {
        assert(before_key =~= before_key + opt_line(false, key_line));
    }
    content
}

/// The settings on suggestions and affix handling.
fn build_preamble_suggestions(c: &DictConfig) -> (r: String)
    ensures
        r@ == preamble_suggestions(*c),
{
    let mut content = String::new();
    push_number_setting(&mut content, "MAXNGRAMSUGS", c.max_n_gram_suggestions);
    assert(Seq::<char>::empty() + number_setting("MAXNGRAMSUGS"@, c.max_n_gram_suggestions)
        =~= number_setting("MAXNGRAMSUGS"@, c.max_n_gram_suggestions));
    push_number_setting(&mut content, "MAXDIFF", c.max_diff);
    push_opt_line(&mut content, c.only_max_diff, "ONLYMAXDIFF\n");
    push_opt_line(&mut content, c.no_split_suggestions, "NOSPLITSUGS\n");
    push_opt_line(&mut content, c.suggest_with_dots, "SUGSWITHDOTS\n");
    push_opt_line(&mut content, c.forbid_warn, "FORBIDWARN\n");
    push_opt_line(&mut content, c.full_strip, "FULLSTRIP\n");
    push_opt_line(&mut content, c.check_sharps, "CHECKSHARPS\n");
    content
}

/// The settings on compounds.
fn build_preamble_compound(k: &CompoundConfig) -> (r: String)
    ensures
        r@ == preamble_compound(*k),
{
    let mut content = String::new();
    push_opt_line(&mut content, k.check_case, "CHECKCOMPOUNDCASE\n");
    assert(Seq::<char>::empty() + opt_line(k.check_case, "CHECKCOMPOUNDCASE\n"@) =~= opt_line(
        k.check_case,
        "CHECKCOMPOUNDCASE\n"@,
    ));
    push_opt_line(&mut content, k.check_duplicate, "CHECKCOMPOUNDDUP\n");
    push_opt_line(&mut content, k.check_replace, "CHECKCOMPOUNDREP\n");
    push_opt_line(&mut content, k.check_triple, "CHECKCOMPOUNDTRIPLE\n");
    push_opt_line(&mut content, k.more_suffixes, "COMPOUNDMORESUFFIXES\n");
    push_opt_line(&mut content, k.simplified_triple, "SIMPLIFIEDTRIPLE\n");
    push_number_setting(&mut content, "COMPOUNDMIN", k.min_char);
    push_number_setting(&mut content, "COMPOUNDWORDMAX", k.max_word);
    push_number_setting(&mut content, "MAXCPDSUGS", k.max_suggestions);
    content
}

impl DictConfig {
    /// The preamble of the `.aff` file: the flag type and the global settings that are set.
    pub fn build_aff_preamble_string(&self) -> (r: String)
        ensures
            r@ == preamble_text(*self),
    {
        let mut content = build_preamble_characters(self);
        let part = build_preamble_suggestions(self);
        push_text(&mut content, part.as_str());
        let part = build_preamble_compound(&self.compound);
        push_text(&mut content, part.as_str());
        push_conversions(&mut content, &self.characters.input_conversion, "ICONV");
        push_conversions(&mut content, &self.characters.output_conversion, "OCONV");
        content
    }
}


/// Codes in decimal, separated by commas.
pub open spec fn join_codes(cs: Seq<FlagCode>) -> Seq<char>
    decreases cs.len(),
{
    if cs.len() == 0 {
        Seq::empty()
    } else if cs.len() == 1 {
        decimal(cs[0].0 as nat)
    } else {
        join_codes(cs.drop_last()) + ","@ + decimal(cs.last().0 as nat)
    }
}

/// `/` and the codes, or nothing if there are none.
pub open spec fn flags_suffix(cs: Seq<FlagCode>) -> Seq<char> {
    if cs.len() == 0 {
        Seq::empty()
    } else {
        "/"@ + join_codes(cs)
    }
}

/// Appends the codes in decimal, separated by commas.
fn push_joined_codes(content: &mut String, codes: &Vec<FlagCode>)
    ensures
        final(content)@ == old(content)@ + join_codes(codes@),
{
    let ghost start = content@;
    if codes.len() == 0 {
        assert(start + join_codes(codes@) =~= start);
        return;
    }
    let first = codes[0].to_text();
    push_text(content, first.as_str());
    assert(codes@.take(1).drop_last().len() == 0);
    assert(join_codes(codes@.take(1)) == decimal(codes@[0].0 as nat));
    let mut i: usize = 1;
    while i < codes.len()
        invariant
            1 <= i <= codes.len(),
            content@ == start + join_codes(codes@.take(i as int)),
        decreases codes.len() - i,
    {
        push_text(content, ",");
        let next = codes[i].to_text();
        push_text(content, next.as_str());
        assert(codes@.take(i + 1).drop_last() =~= codes@.take(i as int));
        assert(codes@.take(i + 1).last() == codes@[i as int]);
        assert(content@ =~= start + join_codes(codes@.take(i + 1)));
        i = i + 1;
    }
    assert(codes@.take(i as int) =~= codes@);
}

/// The `KEY code` lines of the option flags in `table` that `used` holds, in table order.
pub open spec fn flag_keys_text(table: Seq<(Seq<char>, u16)>, used: Set<FlagCode>) -> Seq<char>
    decreases table.len(),
{
    if table.len() == 0 {
        Seq::empty()
    } else {
        flag_keys_text(table.drop_last(), used) + opt_line(
            used.contains(FlagCode(table.last().1)),
            table.last().0 + " "@ + decimal(table.last().1 as nat) + "\n"@,
        )
    }
}

/// Whether `v` holds the code `c`.
fn holds_flag(v: &Vec<FlagCode>, c: FlagCode) -> (r: bool)
    ensures
        r == v@.to_set().contains(c),
{
    let mut i: usize = 0;
    while i < v.len()
        invariant
            i <= v.len(),
            forall|t: int| 0 <= t < i ==> v@[t] != c,
        decreases v.len() - i,
    {
        if v[i].0 == c.0 {
            assert(v@[i as int] == c);
            return true;
        }
        i = i + 1;
    }
    false
}

impl DerivedDictData {
    /// The lines that declare the option flags in use: `NAME code`, in the order of the table.
    pub(crate) fn build_flag_keys_string(&self) -> (r: String)
        ensures
            r@ == flag_keys_text(self.code_map.cfg_pairs(), self.used_flags@.to_set()),
    {
        let ghost table = self.code_map.cfg_pairs();
        let ghost used = self.used_flags@.to_set();
        let mut content = String::new();
        let mut i: usize = 0;
        assert(table.take(0) =~= Seq::<(Seq<char>, u16)>::empty());
        while i < self.code_map.cfg_map.len()
            invariant
                table == self.code_map.cfg_pairs(),
                used == self.used_flags@.to_set(),
                i <= self.code_map.cfg_map.len(),
                content@ == flag_keys_text(table.take(i as int), used),
            decreases self.code_map.cfg_map.len() - i,
        {
            let key = &self.code_map.cfg_map[i].0;
            let code = self.code_map.cfg_map[i].1;
            assert(table.take(i + 1).drop_last() =~= table.take(i as int));
            assert(table.take(i + 1).last() == (key@, code.0));
            let ghost before = content@;
            if holds_flag(&self.used_flags, code) {
                push_text(&mut content, key.as_str());
                push_text(&mut content, " ");
                let digits = decimal_string(code.0 as u64);
                push_text(&mut content, digits.as_str());
                push_text(&mut content, "\n");
                assert(content@ =~= before + (key@ + " "@ + decimal(code.0 as nat) + "\n"@));
            } else {
                assert(before =~= before + opt_line(false, key@ + " "@ + decimal(code.0 as nat) + "\n"@));
            }
            i = i + 1;
        }
        assert(table.take(i as int) =~= table);
        content
    }
}

/// `s`, or `d` in its place if `s` is empty.
pub open spec fn or_default(s: Seq<char>, d: Seq<char>) -> Seq<char> {
    if s.len() == 0 {
        d
    } else {
        s
    }
}

/// The keyword of an affix kind in the `.aff` file.
pub open spec fn affix_tag(t: AffixType) -> Seq<char> {
    match t {
        AffixType::Prefix => "PFX"@,
        AffixType::Suffix => "SFX"@,
    }
}

/// The line of one affix rule; or the first name in its stack that the table does not know.
pub open spec fn rule_line(tag: Seq<char>, code: u16, rule: AffixRule, pairs: Seq<(Seq<char>, u16)>) -> Result<
    Seq<char>,
    Seq<char>,
> {
    match key_codes(pairs, texts(rule.stack@)) {
        Err(k) => Err(k),
        Ok(cs) => Ok(tag + " "@ + decimal(code as nat) + "   "@ + or_default(rule.strip@, "0"@) + " "@
            + or_default(rule.add@, "0"@) + flags_suffix(cs) + " "@ + or_default(rule.cond@, "."@)
            + "\n"@),
    }
}

/// The lines of the rules of one affix, in order; or the first unknown stack name.
pub open spec fn rule_lines(
    tag: Seq<char>,
    code: u16,
    rules: Seq<AffixRule>,
    pairs: Seq<(Seq<char>, u16)>,
) -> Result<Seq<char>, Seq<char>>
    decreases rules.len(),
{
    if rules.len() == 0 {
        Ok(Seq::empty())
    } else {
        match rule_lines(tag, code, rules.drop_last(), pairs) {
            Err(k) => Err(k),
            Ok(t) => match rule_line(tag, code, rules.last(), pairs) {
                Err(k) => Err(k),
                Ok(l) => Ok(t + l),
            },
        }
    }
}

/// The block of one affix: a blank line, its heading, its rules; nothing if it has no rules.
pub open spec fn affix_block(tag: Seq<char>, code: u16, afx: Affix, pairs: Seq<(Seq<char>, u16)>) -> Result<
    Seq<char>,
    Seq<char>,
> {
    if afx.rules.len() == 0 {
        Ok(Seq::empty())
    } else {
        match rule_lines(tag, code, afx.rules@, pairs) {
            Err(k) => Err(k),
            Ok(t) => Ok("\n"@ + tag + " "@ + decimal(code as nat) + " "@ + (if afx.cross_product {
                "Y"@
            } else {
                "N"@
            }) + " "@ + decimal(afx.rules@.len()) + "\n"@ + t),
        }
    }
}

/// The affix that goes by `key`: the first one of that name.
pub open spec fn affix_of(affixes: Seq<(String, Affix)>, key: Seq<char>) -> Affix
    decreases affixes.len(),
{
    if affixes.len() == 0 {
        arbitrary()
    } else if affixes[0].0@ == key {
        affixes[0].1
    } else {
        affix_of(affixes.drop_first(), key)
    }
}

/// The blocks of the affixes, taken in the order of the code table `order`; or the first
/// unknown stack name.
pub open spec fn affix_blocks(
    tag: Seq<char>,
    order: Seq<(Seq<char>, u16)>,
    affixes: Seq<(String, Affix)>,
    pairs: Seq<(Seq<char>, u16)>,
) -> Result<Seq<char>, Seq<char>>
    decreases order.len(),
{
    if order.len() == 0 {
        Ok(Seq::empty())
    } else {
        match affix_blocks(tag, order.drop_last(), affixes, pairs) {
            Err(k) => Err(k),
            Ok(t) => match affix_block(tag, order.last().1, affix_of(affixes, order.last().0), pairs) {
                Err(k) => Err(k),
                Ok(b) => Ok(t + b),
            },
        }
    }
}

impl CodeMap {
    /// The codes of the affixes of one kind.
    pub open(crate) spec fn kind_pairs(&self, t: AffixType) -> Seq<(Seq<char>, u16)> {
        match t {
            AffixType::Prefix => self.pfx_pairs(),
            AffixType::Suffix => self.sfx_pairs(),
        }
    }
}

impl AffixRule {
    /// The codes of the affixes named in this rule's stack; or the first name that is not
    /// defined. The names are looked up among affixes of the rule's own kind: a prefix rule
    /// stacks further prefixes and a suffix rule further suffixes, whatever
    /// `complex_prefixes` says. Hunspell itself takes two prefixes only under
    /// `COMPLEXPREFIXES` and two suffixes only without it, so a stack of the kind that the
    /// setting does not allow is written but has no effect there.
    pub(crate) fn collect_flag_codes(&self, code_map: &CodeMap, affix_type: AffixType) -> (r: Result<
        Vec<FlagCode>,
        DictError,
    >)
        ensures
            match r {
                Ok(v) => key_codes(code_map.kind_pairs(affix_type), texts(self.stack@))
                    == Ok::<Seq<FlagCode>, Seq<char>>(v@),
                Err(e) => key_codes(code_map.kind_pairs(affix_type), texts(self.stack@)) matches Err(k)
                    && e@ == DictFault::UnknownKey(affix_type, k),
            },
    {
        let map = match affix_type {
            AffixType::Prefix => &code_map.pfx_map,
            AffixType::Suffix => &code_map.sfx_map,
        };
        let ghost pairs = code_map.kind_pairs(affix_type);
        let ghost keys = texts(self.stack@);
        let mut codes: Vec<FlagCode> = Vec::new();
        let mut i: usize = 0;
        assert(keys.take(0) =~= Seq::<Seq<char>>::empty());
        while i < self.stack.len()
            invariant
                pairs == crate::codes::code_pairs(map@),
                pairs == code_map.kind_pairs(affix_type),
                keys == texts(self.stack@),
                i <= self.stack.len(),
                key_codes(pairs, keys.take(i as int)) == Ok::<Seq<FlagCode>, Seq<char>>(codes@),
            decreases self.stack.len() - i,
        {
            assert(keys.take(i + 1).drop_last() =~= keys.take(i as int));
            assert(keys.take(i + 1).last() == self.stack@[i as int]@);
            match find_code(map, &self.stack[i]) {
                Some(code) => {
                    codes.push(code);
                },
                None => {
                    proof {
                        lemma_key_codes_prefix_err(pairs, keys, i + 1);
                    }
                    return Err(DictError::UnknownKey { affix_type, key: self.stack[i].clone() });
                },
            }
            i = i + 1;
        }
        assert(keys.take(i as int) =~= keys);
        Ok(codes)
    }
}

/// `/` and the stack codes of a rule, or nothing if its stack is empty.
pub(crate) fn build_affix_flag_string(code_map: &CodeMap, rule: &AffixRule, affix_type: &AffixType) -> (r:
    Result<String, DictError>)
    ensures
        match r {
            Ok(s) => key_codes(code_map.kind_pairs(*affix_type), texts(rule.stack@)) matches Ok(cs)
                && s@ == flags_suffix(cs),
            Err(e) => key_codes(code_map.kind_pairs(*affix_type), texts(rule.stack@)) matches Err(k)
                && e@ == DictFault::UnknownKey(*affix_type, k),
        },
{
    let flag_codes = match rule.collect_flag_codes(code_map, *affix_type) {
        Ok(v) => v,
        Err(e) => return Err(e),
    };
    if flag_codes.len() == 0 {
        return Ok(String::new());
    }
    let mut content = String::from_str("/");
    push_joined_codes(&mut content, &flag_codes);
    Ok(content)
}

/// The line of one affix rule: `TAG code   strip add[/flags] cond`, with `0` for an empty
/// strip or add and `.` for an empty condition.
pub(crate) fn build_single_affix_rule_string(
    code_map: &CodeMap,
    code: FlagCode,
    rule: &AffixRule,
    affix_str: &str,
    affix_type: &AffixType,
) -> (r: Result<String, DictError>)
    ensures
        match r {
            Ok(s) => rule_line(affix_str@, code.0, *rule, code_map.kind_pairs(*affix_type))
                == Ok::<Seq<char>, Seq<char>>(s@),
            Err(e) => rule_line(affix_str@, code.0, *rule, code_map.kind_pairs(*affix_type)) matches Err(k)
                && e@ == DictFault::UnknownKey(*affix_type, k),
        },
{
    let flags = match build_affix_flag_string(code_map, rule, affix_type) {
        Ok(f) => f,
        Err(e) => return Err(e),
    };
    let mut content = String::from_str(affix_str);
    push_text(&mut content, " ");
    let digits = code.to_text();
    push_text(&mut content, digits.as_str());
    push_text(&mut content, "   ");
    if rule.strip.as_str().is_empty() {
        push_text(&mut content, "0");
    } else {
        push_text(&mut content, rule.strip.as_str());
    }
    push_text(&mut content, " ");
    if rule.add.as_str().is_empty() {
        push_text(&mut content, "0");
    } else {
        push_text(&mut content, rule.add.as_str());
    }
    push_text(&mut content, flags.as_str());
    push_text(&mut content, " ");
    if rule.cond.as_str().is_empty() {
        push_text(&mut content, ".");
    } else {
        push_text(&mut content, rule.cond.as_str());
    }
    push_text(&mut content, "\n");
    Ok(content)
}

/// The affix that goes by `key` among `affixes`.
fn find_affix<'a>(affixes: &'a Vec<(String, Affix)>, key: &String) -> (r: &'a Affix)
    requires
        affix_names(affixes@).contains(key@),
    ensures
        *r == affix_of(affixes@, key@),
{
    let mut i: usize = 0;
    assert(affixes@.skip(0) =~= affixes@);
    while i < affixes.len()
        invariant
            i <= affixes.len(),
            affix_of(affixes@, key@) == affix_of(affixes@.skip(i as int), key@),
            forall|t: int| 0 <= t < i ==> (#[trigger] affixes@[t]).0@ != key@,
        decreases affixes.len() - i,
    {
        assert(affixes@.skip(i as int)[0] == affixes@[i as int]);
        if affixes[i].0 == *key {
            return &affixes[i].1;
        }
        assert(affixes@.skip(i as int).drop_first() =~= affixes@.skip(i + 1));
        i = i + 1;
    }
    proof {
        let names = affix_names(affixes@);
        let t = choose|t: int| 0 <= t < names.len() && names[t] == key@;
        assert(affixes@[t].0@ == key@);
    }
    &affixes[0].1
}


/// A failure among the first rules is the failure of all of them.
proof fn lemma_rule_lines_prefix_err(
    tag: Seq<char>,
    code: u16,
    rules: Seq<AffixRule>,
    pairs: Seq<(Seq<char>, u16)>,
    m: int,
)
    requires
        0 <= m <= rules.len(),
        rule_lines(tag, code, rules.take(m), pairs) is Err,
    ensures
        rule_lines(tag, code, rules, pairs) == rule_lines(tag, code, rules.take(m), pairs),
    decreases rules.len(),
{
    if m == rules.len() {
        assert(rules.take(m) =~= rules);
    } else {
        assert(rules.drop_last().take(m) =~= rules.take(m));
        lemma_rule_lines_prefix_err(tag, code, rules.drop_last(), pairs, m);
    }
}

/// A failure among the first blocks is the failure of all of them.
proof fn lemma_affix_blocks_prefix_err(
    tag: Seq<char>,
    order: Seq<(Seq<char>, u16)>,
    affixes: Seq<(String, Affix)>,
    pairs: Seq<(Seq<char>, u16)>,
    m: int,
)
    requires
        0 <= m <= order.len(),
        affix_blocks(tag, order.take(m), affixes, pairs) is Err,
    ensures
        affix_blocks(tag, order, affixes, pairs) == affix_blocks(tag, order.take(m), affixes, pairs),
    decreases order.len(),
{
    if m == order.len() {
        assert(order.take(m) =~= order);
    } else {
        assert(order.drop_last().take(m) =~= order.take(m));
        lemma_affix_blocks_prefix_err(tag, order.drop_last(), affixes, pairs, m);
    }
}

/// Appends the block of one affix: its heading and its rules, or nothing if it has no rules.
fn push_affix_block(
    content: &mut String,
    code_map: &CodeMap,
    code: FlagCode,
    afx: &Affix,
    affix_str: &str,
    affix_type: &AffixType,
) -> (r: Result<(), DictError>)
    ensures
        match affix_block(affix_str@, code.0, *afx, code_map.kind_pairs(*affix_type)) {
            Ok(b) => r is Ok && final(content)@ == old(content)@ + b,
            Err(k) => r matches Err(e) && e@ == DictFault::UnknownKey(*affix_type, k),
        },
{
    let ghost pairs = code_map.kind_pairs(*affix_type);
    let ghost start = content@;
    let num_rules = afx.rules.len();
    if num_rules == 0 {
        assert(start + Seq::<char>::empty() =~= start);
        return Ok(());
    }
    push_text(content, "\n");
    push_text(content, affix_str);
    push_text(content, " ");
    let digits = code.to_text();
    push_text(content, digits.as_str());
    push_text(content, " ");
    if afx.cross_product {
        push_text(content, "Y");
    } else {
        push_text(content, "N");
    }
    push_text(content, " ");
    let count = decimal_string(num_rules as u64);
    push_text(content, count.as_str());
    push_text(content, "\n");
    let ghost head = content@;
    assert(head =~= start + ("\n"@ + affix_str@ + " "@ + decimal(code.0 as nat) + " "@ + (if afx.cross_product {
        "Y"@
    } else {
        "N"@
    }) + " "@ + decimal(afx.rules@.len()) + "\n"@));
    let mut j: usize = 0;
    assert(afx.rules@.take(0) =~= Seq::<AffixRule>::empty());
    assert(head =~= head + Seq::<char>::empty());
    while j < num_rules
        invariant
            num_rules == afx.rules.len(),
            pairs == code_map.kind_pairs(*affix_type),
            j <= num_rules,
            rule_lines(affix_str@, code.0, afx.rules@.take(j as int), pairs) matches Ok(t)
                && content@ == head + t,
        decreases num_rules - j,
    {
        let ghost prev = content@;
        assert(afx.rules@.take(j + 1).drop_last() =~= afx.rules@.take(j as int));
        assert(afx.rules@.take(j + 1).last() == afx.rules@[j as int]);
        match build_single_affix_rule_string(code_map, code, &afx.rules[j], affix_str, affix_type) {
            Ok(line) => {
                push_text(content, line.as_str());
                assert(content@ =~= head + rule_lines(affix_str@, code.0, afx.rules@.take(j + 1), pairs)->Ok_0);
            },
            Err(e) => {
                proof {
                    lemma_rule_lines_prefix_err(affix_str@, code.0, afx.rules@, pairs, j + 1);
                }
                return Err(e);
            },
        }
        j = j + 1;
    }
    assert(afx.rules@.take(j as int) =~= afx.rules@);
    assert(content@ =~= start + affix_block(affix_str@, code.0, *afx, pairs)->Ok_0);
    Ok(())
}

impl HunspellDict {
    /// The named affixes of one kind, as given.
    pub open spec fn spec_affixes(&self, t: AffixType) -> Seq<(String, Affix)> {
        match t {
            AffixType::Prefix => self.spec_prefix(),
            AffixType::Suffix => self.spec_suffix(),
        }
    }

    /// The codes of the affixes of one kind, in sorted order of their names.
    pub open spec fn spec_pairs(&self, t: AffixType) -> Seq<(Seq<char>, u16)> {
        match t {
            AffixType::Prefix => self.spec_prefix_pairs(),
            AffixType::Suffix => self.spec_suffix_pairs(),
        }
    }

    /// The blocks of the affixes of one kind, in sorted order of their names; or the first
    /// stack name that is not an affix of that kind.
    pub open spec fn spec_affix_rules_text(&self, t: AffixType) -> Result<Seq<char>, DictFault> {
        match affix_blocks(affix_tag(t), self.spec_pairs(t), self.spec_affixes(t), self.spec_pairs(t)) {
            Ok(b) => Ok(b),
            Err(k) => Err(DictFault::UnknownKey(t, k)),
        }
    }

    /// The affix blocks of one kind: for each affix with rules, in sorted order of the names,
    /// a heading `TAG code Y|N count` and one line per rule.
    pub(crate) fn build_affix_rules_string(&self, affix_type: AffixType) -> (r: Result<String, DictError>)
        ensures
            match self.spec_affix_rules_text(affix_type) {
                Ok(b) => r matches Ok(s) && s@ == b,
                Err(f) => r matches Err(e) && e@ == f,
            },
    {
        proof {
            use_type_invariant(self);
        }
        let (affixes, affix_str, affix_code_map) = match affix_type {
            AffixType::Prefix => (&self.prefix, "PFX", &self.derived.code_map.pfx_map),
            AffixType::Suffix => (&self.suffix, "SFX", &self.derived.code_map.sfx_map),
        };
        let ghost pairs = self.spec_pairs(affix_type);
        let ghost names = affix_names(affixes@);
        assert(pairs == self.derived.code_map.kind_pairs(affix_type));
        assert(affix_str@ == affix_tag(affix_type)) by {
            reveal_strlit("PFX");
            reveal_strlit("SFX");
        }
        let mut content = String::new();
        let mut i: usize = 0;
        assert(pairs.take(0) =~= Seq::<(Seq<char>, u16)>::empty());
        assert(forall|t: int| 0 <= t < pairs.len() ==> (#[trigger] pairs[t]).0 == crate::keys::sorted_order(names)[t]);
        while i < affix_code_map.len()
            invariant
                pairs == self.derived.code_map.kind_pairs(affix_type),
                pairs == self.spec_pairs(affix_type),
                pairs == crate::codes::code_pairs(affix_code_map@),
                pairs.len() == crate::keys::sorted_order(names).len(),
                forall|t: int| 0 <= t < pairs.len() ==> (#[trigger] pairs[t]).0 == crate::keys::sorted_order(names)[t],
                affixes@ == self.spec_affixes(affix_type),
                names == affix_names(affixes@),
                crate::keys::sorted_order(names).to_set() == names.to_set(),
                affix_str@ == affix_tag(affix_type),
                i <= affix_code_map.len(),
                affix_blocks(affix_str@, pairs.take(i as int), affixes@, pairs) == Ok::<Seq<char>, Seq<char>>(content@),
            decreases affix_code_map.len() - i,
        {
            let key = &affix_code_map[i].0;
            let code = affix_code_map[i].1;
            assert(pairs[i as int] == (key@, code.0));
            assert(pairs.take(i + 1).drop_last() =~= pairs.take(i as int));
            assert(pairs.take(i + 1).last() == (key@, code.0));
            assert(crate::keys::sorted_order(names)[i as int] == key@);
            assert(crate::keys::sorted_order(names).to_set().contains(key@));
            assert(names.to_set().contains(key@));
            let afx = find_affix(affixes, key);
            let ghost before = content@;
            match push_affix_block(&mut content, &self.derived.code_map, code, afx, affix_str, &affix_type) {
                Ok(()) => {},
                Err(e) => {
                    proof {
                        lemma_affix_blocks_prefix_err(affix_str@, pairs, affixes@, pairs, i + 1);
                    }
                    return Err(e);
                },
            }
            i = i + 1;
        }
        assert(pairs.take(i as int) =~= pairs);
        Ok(content)
    }
}


/// Where the tool that wrote a dictionary is published; named in the `.aff` header.
pub const REPO_URL: &'static str = "https://github.com/samreynoldsmath/fix-affix";

/// The version of this library, named in the `.aff` header.
pub const TOOL_VERSION: &'static str = "0.2.0";

/// One line of the `.dic` file: the stem, then `/` and its flags if it has any.
pub open spec fn dic_line(stem: Seq<char>, cs: Seq<FlagCode>) -> Seq<char> {
    stem + flags_suffix(cs) + "\n"@
}

/// The lines of the `.dic` file for the entries, in order.
pub open spec fn dic_lines(
    entries: Seq<crate::types::DictEntry>,
    cfg: Seq<(Seq<char>, u16)>,
    pfx: Seq<(Seq<char>, u16)>,
    sfx: Seq<(Seq<char>, u16)>,
) -> Seq<char>
    decreases entries.len(),
{
    if entries.len() == 0 {
        Seq::empty()
    } else {
        dic_lines(entries.drop_last(), cfg, pfx, sfx) + dic_line(
            entries.last().stem@,
            entry_codes(entries.last(), cfg, pfx, sfx)->Ok_0,
        )
    }
}

/// Lines joined into text, each followed by a line break.
pub open spec fn lines_text(lines: Seq<Seq<char>>) -> Seq<char>
    decreases lines.len(),
{
    if lines.len() == 0 {
        Seq::empty()
    } else {
        lines_text(lines.drop_last()) + lines.last() + "\n"@
    }
}

/// The lines of the comment block that may precede the `.aff` file, for a dictionary with
/// metadata `m` written at the local and UTC times `local` and `utc`: title and version,
/// description, times, authors, the tool that wrote it, and a blank line.
pub open spec fn header_lines(m: DictMetadata, local: Seq<char>, utc: Seq<char>) -> Seq<Seq<char>> {
    seq![
        "# "@ + m.title@ + " ("@ + m.version@ + ")"@,
        "# "@ + m.description@,
        "#"@,
        "# "@ + local + " (UTC "@ + utc + ")"@,
        "#"@,
        "# Authors:"@,
    ] + texts(m.authors@).map_values(|a: Seq<char>| "#   "@ + a) + seq![
        "#"@,
        "# This Hunspell dictionary was created using fix-affix v"@ + TOOL_VERSION@,
        "#   "@ + REPO_URL@,
        Seq::<char>::empty(),
    ]
}

/// The comment block that may precede the `.aff` file.
pub open spec fn header_text(m: DictMetadata, local: Seq<char>, utc: Seq<char>) -> Seq<char> {
    lines_text(header_lines(m, local, utc))
}

/// The lines of `lines`, each followed by a line break.
fn join_lines(lines: &Vec<String>) -> (r: String)
    ensures
        r@ == lines_text(texts(lines@)),
{
    let ghost tl = texts(lines@);
    let mut content = String::new();
    let mut i: usize = 0;
    assert(tl.take(0) =~= Seq::<Seq<char>>::empty());
    while i < lines.len()
        invariant
            tl == texts(lines@),
            i <= lines.len(),
            content@ == lines_text(tl.take(i as int)),
        decreases lines.len() - i,
    {
        push_text(&mut content, lines[i].as_str());
        push_text(&mut content, "\n");
        assert(tl.take(i + 1).drop_last() =~= tl.take(i as int));
        assert(tl.take(i + 1).last() == lines@[i as int]@);
        i = i + 1;
    }
    assert(tl.take(i as int) =~= tl);
    content
}

/// Entries without a failure each have their flags.
pub(crate) proof fn lemma_entries_ok(
    entries: Seq<crate::types::DictEntry>,
    cfg: Seq<(Seq<char>, u16)>,
    pfx: Seq<(Seq<char>, u16)>,
    sfx: Seq<(Seq<char>, u16)>,
    i: int,
)
    requires
        entries_fault(entries, cfg, pfx, sfx) is None,
        0 <= i < entries.len(),
    ensures
        entry_codes(entries[i], cfg, pfx, sfx) is Ok,
    decreases entries.len(),
{
    if i < entries.len() - 1 {
        lemma_entries_ok(entries.drop_last(), cfg, pfx, sfx, i);
    }
}

impl HunspellDict {
    /// The text of the `.dic` file: the number of entries, then one line per entry.
    pub open spec fn spec_dic_text(&self) -> Seq<char> {
        decimal(self.spec_entries().len()) + "\n"@ + dic_lines(
            self.spec_entries(),
            config_code_table(),
            self.spec_prefix_pairs(),
            self.spec_suffix_pairs(),
        )
    }

    /// The text of the `.aff` file: preamble, option flags in use, prefix and suffix blocks,
    /// and the `REP`, `PHONE` and `MAP` tables; or the first unknown stack name, prefixes
    /// before suffixes.
    pub open spec fn spec_aff_text(&self) -> Result<Seq<char>, DictFault> {
        match self.spec_affix_rules_text(AffixType::Prefix) {
            Err(f) => Err(f),
            Ok(p) => match self.spec_affix_rules_text(AffixType::Suffix) {
                Err(f) => Err(f),
                Ok(x) => Ok(preamble_text(self.spec_config()) + flag_keys_text(
                    config_code_table(),
                    self.spec_used_flags(),
                ) + p + x + replacements_text(
                    self.spec_config().characters.try_replace@,
                    "REP"@,
                    ReplacementStyle::Replace,
                ) + replacements_text(
                    self.spec_config().characters.phonetic_replace@,
                    "PHONE"@,
                    ReplacementStyle::Replace,
                ) + replacements_text(
                    self.spec_config().characters.remap@,
                    "MAP"@,
                    ReplacementStyle::Grouped,
                )),
            },
        }
    }

    /// The contents of the `.dic` file: the number of entries, then each stem with its flags
    /// (options, then prefixes, then suffixes) after a `/`.
    pub fn build_dic_string(&self) -> (r: Result<String, DictError>)
        ensures
            r matches Ok(s) && s@ == self.spec_dic_text(),
    {
        proof {
            use_type_invariant(self);
        }
        let ghost cfg = config_code_table();
        let ghost pfx = self.spec_prefix_pairs();
        let ghost sfx = self.spec_suffix_pairs();
        let mut content = decimal_string(self.entry.len() as u64);
        push_char(&mut content, '\n');
        let ghost head = content@;
        assert(head =~= decimal(self.entry@.len()) + "\n"@) by {
            reveal_strlit("\n");
        }
        let mut i: usize = 0;
        assert(self.entry@.take(0) =~= Seq::<crate::types::DictEntry>::empty());
        assert(head =~= head + Seq::<char>::empty());
        while i < self.entry.len()
            invariant
                cfg == config_code_table(),
                pfx == self.spec_prefix_pairs(),
                sfx == self.spec_suffix_pairs(),
                cfg == self.derived.code_map.cfg_pairs(),
                pfx == self.derived.code_map.pfx_pairs(),
                sfx == self.derived.code_map.sfx_pairs(),
                entries_fault(self.entry@, cfg, pfx, sfx) is None,
                i <= self.entry.len(),
                content@ == head + dic_lines(self.entry@.take(i as int), cfg, pfx, sfx),
            decreases self.entry.len() - i,
        {
            let word = &self.entry[i];
            assert(self.entry@.take(i + 1).drop_last() =~= self.entry@.take(i as int));
            assert(self.entry@.take(i + 1).last() == *word);
            proof {
                lemma_entries_ok(self.entry@, cfg, pfx, sfx, i as int);
            }
            let entry_codes = match word.collect_flag_codes(&self.derived.code_map) {
                Ok(v) => v,
                Err(e) => {
                    assert(false);
                    return Err(e);
                },
            };
            let ghost before = content@;
            push_text(&mut content, word.stem.as_str());
            if entry_codes.len() == 0 {
                push_text(&mut content, "\n");
            } else {
                push_text(&mut content, "/");
                push_joined_codes(&mut content, &entry_codes);
                push_text(&mut content, "\n");
            }
            assert(content@ =~= before + dic_line(word.stem@, entry_codes@));
            assert(content@ =~= head + dic_lines(self.entry@.take(i + 1), cfg, pfx, sfx));
            i = i + 1;
        }
        assert(self.entry@.take(i as int) =~= self.entry@);
        Ok(content)
    }

    /// The comment block that may precede the `.aff` file, for the given local and UTC times
    /// of writing: comment lines and a closing blank line.
    pub fn build_aff_header_at(&self, local_time: &str, utc_time: &str) -> (r: String)
        ensures
            r@ == header_text(self.spec_metadata(), local_time@, utc_time@),
    {
        let m = &self.metadata;
        let mut lines: Vec<String> = Vec::new();
        let mut line = String::from_str("# ");
        push_text(&mut line, m.title.as_str());
        push_text(&mut line, " (");
        push_text(&mut line, m.version.as_str());
        push_text(&mut line, ")");
        lines.push(line);
        let mut line = String::from_str("# ");
        push_text(&mut line, m.description.as_str());
        lines.push(line);
        lines.push(String::from_str("#"));
        let mut line = String::from_str("# ");
        push_text(&mut line, local_time);
        push_text(&mut line, " (UTC ");
        push_text(&mut line, utc_time);
        push_text(&mut line, ")");
        lines.push(line);
        lines.push(String::from_str("#"));
        lines.push(String::from_str("# Authors:"));
        let ghost head = texts(lines@);
        let ghost md = self.spec_metadata();
        assert(head =~= seq![
            "# "@ + md.title@ + " ("@ + md.version@ + ")"@,
            "# "@ + md.description@,
            "#"@,
            "# "@ + local_time@ + " (UTC "@ + utc_time@ + ")"@,
            "#"@,
            "# Authors:"@,
        ]);
        let ghost authors = texts(m.authors@);
        let ghost author_lines = authors.map_values(|a: Seq<char>| "#   "@ + a);
        let mut i: usize = 0;
        assert(head + author_lines.take(0) =~= head);
        while i < m.authors.len()
            invariant
                authors == texts(m.authors@),
                author_lines == authors.map_values(|a: Seq<char>| "#   "@ + a),
                i <= m.authors.len(),
                texts(lines@) == head + author_lines.take(i as int),
            decreases m.authors.len() - i,
        {
            let mut line = String::from_str("#   ");
            push_text(&mut line, m.authors[i].as_str());
            let ghost before = texts(lines@);
            assert(author_lines[i as int] == line@);
            lines.push(line);
            assert(texts(lines@) =~= before.push(author_lines[i as int]));
            assert(author_lines.take(i + 1) =~= author_lines.take(i as int).push(author_lines[i as int]));
            assert(texts(lines@) =~= head + author_lines.take(i + 1));
            i = i + 1;
        }
        assert(author_lines.take(i as int) =~= author_lines);
        let ghost mid = texts(lines@);
        lines.push(String::from_str("#"));
        let mut line = String::from_str("# This Hunspell dictionary was created using fix-affix v");
        push_text(&mut line, TOOL_VERSION);
        lines.push(line);
        let mut line = String::from_str("#   ");
        push_text(&mut line, REPO_URL);
        lines.push(line);
        lines.push(String::new());
        assert(texts(lines@) =~= mid + seq![
            "#"@,
            "# This Hunspell dictionary was created using fix-affix v"@ + TOOL_VERSION@,
            "#   "@ + REPO_URL@,
            Seq::<char>::empty(),
        ]);
        assert(texts(lines@) =~= header_lines(self.spec_metadata(), local_time@, utc_time@));
        join_lines(&lines)
    }

    /// The comment block that may precede the `.aff` file, with the current local and UTC
    /// times. Each time stamp is made of digits, `-`, `+`, `:` and spaces only.
    pub fn build_aff_header(&self) -> (r: String)
        ensures
            exists|local: Seq<char>, utc: Seq<char>|
                {
                    &&& is_time_stamp(local)
                    &&& is_time_stamp(utc)
                    &&& r@ == header_text(self.spec_metadata(), local, utc)
                },
    {
        let now = local_now_formatted(DATE_FMT);
        let utc = utc_now_formatted(DATE_FMT);
        let r = self.build_aff_header_at(now.as_str(), utc.as_str());
        assert(is_time_stamp(now@) && is_time_stamp(utc@));
        r
    }

    /// The contents of the `.aff` file: the preamble, the option flags in use, the prefix and
    /// suffix blocks, and the `REP`, `PHONE` and `MAP` tables.
    pub fn build_aff_string(&self) -> (r: Result<String, DictError>)
        ensures
            match self.spec_aff_text() {
                Ok(t) => r matches Ok(s) && s@ == t,
                Err(f) => r matches Err(e) && e@ == f,
            },
    {
        proof {
            use_type_invariant(self);
        }
        let pfx = match self.build_affix_rules_string(AffixType::Prefix) {
            Ok(p) => p,
            Err(e) => return Err(e),
        };
        let sfx = match self.build_affix_rules_string(AffixType::Suffix) {
            Ok(x) => x,
            Err(e) => return Err(e),
        };
        let mut content = self.config.build_aff_preamble_string();
        let part = self.derived.build_flag_keys_string();
        push_text(&mut content, part.as_str());
        push_text(&mut content, pfx.as_str());
        push_text(&mut content, sfx.as_str());
        let ch = &self.config.characters;
        let part = build_replacements_string(&ch.try_replace, "REP", ReplacementStyle::Replace);
        push_text(&mut content, part.as_str());
        let part = build_replacements_string(&ch.phonetic_replace, "PHONE", ReplacementStyle::Replace);
        push_text(&mut content, part.as_str());
        let part = build_replacements_string(&ch.remap, "MAP", ReplacementStyle::Grouped);
        push_text(&mut content, part.as_str());
        Ok(content)
    }
}

} // verus!

use fix_affix::codes::flags_fit;
use fix_affix::keys::get_sorted_affix_keys;
use fix_affix::text::{decimal_string, text_lt};
use fix_affix::write::{
    build_replacements_string, map_formatter, replace_formatter, replace_space_with_underscore,
    wrap_string_in_paren_if_len_not_one,
};
use fix_affix::{
    bool_true, Affix, AffixRule, AffixType, CharacterConfig, CompoundConfig, ContextManager,
    DictConfig, DictEntry, DictError, DictMetadata, FlagCode, HunspellDict, Replace,
    ReplacementStyle,
};

fn s(x: &str) -> String {
    x.to_string()
}

fn strings(xs: &[&str]) -> Vec<String> {
    xs.iter().map(|x| x.to_string()).collect()
}

fn rep(remove: &str, add: &str) -> Replace {
    Replace { remove: s(remove), add: s(add) }
}

fn metadata() -> DictMetadata {
    DictMetadata {
        title: s("ex_dict"),
        description: s("Example Dictionary"),
        version: s("1.2.3"),
        authors: strings(&["Mickey Mouse (mickey@example.com)", "Donald Duck (github.com/donald_duck)"]),
    }
}

fn empty_characters() -> CharacterConfig {
    CharacterConfig {
        additional: s(""),
        ignore: s(""),
        try_order: s(""),
        key_groups: vec![],
        remap: vec![],
        try_replace: vec![],
        phonetic_replace: vec![],
        input_conversion: vec![],
        output_conversion: vec![],
    }
}

fn empty_compound() -> CompoundConfig {
    CompoundConfig {
        check_case: false,
        check_duplicate: false,
        check_replace: false,
        check_triple: false,
        more_suffixes: false,
        simplified_triple: false,
        min_char: 0,
        max_word: 0,
        max_suggestions: 0,
    }
}

fn empty_config() -> DictConfig {
    DictConfig {
        encoding: s(""),
        complex_prefixes: false,
        language_code: s(""),
        max_n_gram_suggestions: 0,
        max_diff: 0,
        only_max_diff: false,
        no_split_suggestions: false,
        suggest_with_dots: false,
        forbid_warn: false,
        full_strip: false,
        check_sharps: false,
        characters: empty_characters(),
        compound: empty_compound(),
    }
}

fn example_config() -> DictConfig {
    let mut config = empty_config();
    config.encoding = s("UTF-8");
    config.complex_prefixes = true;
    config.characters.additional = s("'");
    config.characters.try_order = s("esianrtolcdugmphbyfvkwzESIANRTOLCDUGMPHBYFVKWZ'");
    config.characters.input_conversion = vec![rep("’", "'")];
    config.characters.try_replace = vec![rep("ie", "ai"), rep("alot", "a lot")];
    config
}

fn rule(strip: &str, add: &str, cond: &str, stack: &[&str]) -> AffixRule {
    AffixRule {
        add: s(add),
        strip: s(strip),
        cond: s(cond),
        stack: strings(stack),
        circumfix: false,
        substandard: false,
        compound: false,
        compound_begin: false,
        compound_middle: false,
        compound_last: false,
        compound_only: false,
        compound_interior: false,
        compound_forbid: false,
    }
}

fn affix(rules: Vec<AffixRule>, cross_product: bool) -> Affix {
    Affix { rules, cross_product }
}

fn entry(stem: &str, prefix: &[&str], suffix: &[&str]) -> DictEntry {
    DictEntry {
        stem: s(stem),
        prefix: strings(prefix),
        suffix: strings(suffix),
        no_suggest: false,
        warn: false,
        forbidden_word: false,
        keep_case: false,
        need_affix: false,
        substandard: false,
        compound: false,
        compound_begin: false,
        compound_middle: false,
        compound_last: false,
        compound_force_uppercase: false,
        compound_root: false,
        compound_only: false,
        compound_forbid: false,
    }
}

fn example_prefixes() -> Vec<(String, Affix)> {
    vec![
        (s("non"), affix(vec![rule("", "non", "", &[])], true)),
        (s("re"), affix(vec![rule("", "re", "", &["non"])], true)),
    ]
}

fn example_suffixes() -> Vec<(String, Affix)> {
    vec![
        (s("'s"), affix(vec![rule("", "'s", "", &[])], false)),
        (s("ive"), affix(vec![rule("e", "ive", "e", &[]), rule("", "ive", "[^e]", &[])], true)),
    ]
}

fn example_entries() -> Vec<DictEntry> {
    let mut sam = entry("Sam", &[], &["'s"]);
    sam.keep_case = true;
    let act = entry("act", &["non", "re"], &["ive"]);
    let mut dismiss = entry("dismiss", &[], &["ive"]);
    dismiss.no_suggest = true;
    vec![sam, act, dismiss]
}

fn example_dict() -> HunspellDict {
    HunspellDict::new(metadata(), example_config(), example_prefixes(), example_suffixes(), example_entries())
        .unwrap()
}

const EXAMPLE_DIC: &str = "3\nSam/10,102\nact/100,101,103\ndismiss/1,103\n";

const EXAMPLE_HEADER: &str = "# ex_dict (1.2.3)\n# Example Dictionary\n#\n# 2024-05-06 07:08 (UTC 2024-05-06 05:08)\n#\n# Authors:\n#   Mickey Mouse (mickey@example.com)\n#   Donald Duck (github.com/donald_duck)\n#\n# This Hunspell dictionary was created using fix-affix v0.2.0\n#   https://github.com/samreynoldsmath/fix-affix\n\n";

const EXAMPLE_AFF_BODY: &str = "FLAG num\nSET UTF-8\nWORDCHARS '\nCOMPLEXPREFIXES\nTRY esianrtolcdugmphbyfvkwzESIANRTOLCDUGMPHBYFVKWZ'\nICONV 1\nICONV ’ '\nNOSUGGEST 1\nKEEPCASE 10\n\nPFX 100 Y 1\nPFX 100   0 non .\n\nPFX 101 Y 1\nPFX 101   0 re/100 .\n\nSFX 102 N 1\nSFX 102   0 's .\n\nSFX 103 Y 2\nSFX 103   e ive e\nSFX 103   0 ive [^e]\n\nREP 2\nREP ie ai\nREP alot a_lot\n";

#[test]
fn readme_example_dic() {
    assert_eq!(example_dict().build_dic_string().unwrap(), EXAMPLE_DIC);
}

#[test]
fn readme_example_aff() {
    assert_eq!(example_dict().build_aff_string().unwrap(), EXAMPLE_AFF_BODY);
}

#[test]
fn header_at_fixed_time() {
    let header = example_dict().build_aff_header_at("2024-05-06 07:08", "2024-05-06 05:08");
    assert_eq!(header, EXAMPLE_HEADER);
    for line in header.lines() {
        assert!(line.is_empty() || line.starts_with('#'));
    }
}

#[test]
fn header_with_current_time() {
    let header = example_dict().build_aff_header();
    assert!(header.starts_with("# ex_dict (1.2.3)\n# Example Dictionary\n#\n# "));
    let stamp_line = header.lines().nth(3).unwrap();
    assert!(stamp_line.contains(" (UTC "));
    assert!(stamp_line.ends_with(')'));
    // the two time stamps, each year-month-day hour:minute
    assert_eq!(stamp_line.len(), "# 2024-05-06 07:08 (UTC 2024-05-06 05:08)".len());
    assert!(header.ends_with("\n# This Hunspell dictionary was created using fix-affix v0.2.0\n#   https://github.com/samreynoldsmath/fix-affix\n\n"));
    for line in header.lines() {
        assert!(line.is_empty() || line.starts_with('#'));
    }
}

#[test]
fn affix_order_does_not_change_codes() {
    let mut prefixes = example_prefixes();
    prefixes.reverse();
    let mut suffixes = example_suffixes();
    suffixes.reverse();
    let d = HunspellDict::new(metadata(), example_config(), prefixes, suffixes, example_entries()).unwrap();
    assert_eq!(d.build_dic_string().unwrap(), EXAMPLE_DIC);
    let aff = d.build_aff_string().unwrap();
    assert_eq!(aff, EXAMPLE_AFF_BODY);
}

#[test]
fn empty_dictionary() {
    let d = HunspellDict::new(metadata(), empty_config(), vec![], vec![], vec![]).unwrap();
    assert_eq!(d.build_dic_string().unwrap(), "0\n");
    let aff = d.build_aff_string().unwrap();
    assert_eq!(aff, "FLAG num\n");
}

#[test]
fn entry_without_flags() {
    let d = HunspellDict::new(metadata(), empty_config(), vec![], vec![], vec![entry("plain", &[], &[])]).unwrap();
    assert_eq!(d.build_dic_string().unwrap(), "1\nplain\n");
}

#[test]
fn all_option_flags_in_table_order() {
    let mut e = entry("word", &[], &[]);
    e.no_suggest = true;
    e.warn = true;
    e.forbidden_word = true;
    e.keep_case = true;
    e.need_affix = true;
    e.substandard = true;
    let d = HunspellDict::new(metadata(), empty_config(), vec![], vec![], vec![e]).unwrap();
    assert_eq!(d.build_dic_string().unwrap(), "1\nword/1,2,3,4,10,11\n");
    let aff = d.build_aff_string().unwrap();
    assert_eq!(
        aff,
        "FLAG num\nNOSUGGEST 1\nSUBSTANDARD 2\nWARN 3\nFORBIDDENWORD 4\nKEEPCASE 10\nNEEDAFFIX 11\n"
    );
}

#[test]
fn unused_options_are_not_declared() {
    let mut e = entry("word", &[], &[]);
    e.warn = true;
    let d = HunspellDict::new(metadata(), empty_config(), vec![], vec![], vec![e, entry("other", &[], &[])]).unwrap();
    let aff = d.build_aff_string().unwrap();
    assert_eq!(aff, "FLAG num\nWARN 3\n");
}

#[test]
fn same_name_for_prefix_and_suffix_gets_two_codes() {
    let prefixes = vec![(s("x"), affix(vec![rule("", "p", "", &[])], true))];
    let suffixes = vec![(s("x"), affix(vec![rule("", "s", "", &[])], true))];
    let d = HunspellDict::new(metadata(), empty_config(), prefixes, suffixes, vec![entry("w", &["x"], &["x"])]).unwrap();
    assert_eq!(d.build_dic_string().unwrap(), "1\nw/100,101\n");
}

#[test]
fn affix_without_rules_is_not_written() {
    let prefixes = vec![(s("a"), affix(vec![], true)), (s("b"), affix(vec![rule("", "b", "", &[])], true))];
    let d = HunspellDict::new(metadata(), empty_config(), prefixes, vec![], vec![entry("w", &["a", "b"], &[])]).unwrap();
    assert_eq!(d.build_dic_string().unwrap(), "1\nw/100,101\n");
    let aff = d.build_aff_string().unwrap();
    assert_eq!(aff, "FLAG num\n\nPFX 101 Y 1\nPFX 101   0 b .\n");
}

#[test]
fn suffix_stack_refers_to_suffixes() {
    let suffixes = vec![
        (s("a"), affix(vec![rule("", "a", "", &["b"])], true)),
        (s("b"), affix(vec![rule("y", "", "", &["a", "b"])], true)),
    ];
    let d = HunspellDict::new(metadata(), empty_config(), vec![], suffixes, vec![]).unwrap();
    let aff = d.build_aff_string().unwrap();
    assert_eq!(aff, "FLAG num\n\nSFX 100 Y 1\nSFX 100   0 a/101 .\n\nSFX 101 Y 1\nSFX 101   y 0/100,101 .\n");
}

#[test]
fn unknown_stack_key_is_an_error() {
    let prefixes = vec![(s("a"), affix(vec![rule("", "a", "", &["zz"])], true))];
    let d = HunspellDict::new(metadata(), empty_config(), prefixes, vec![], vec![]).unwrap();
    match d.build_aff_string() {
        Err(DictError::UnknownKey { affix_type: AffixType::Prefix, key }) => assert_eq!(key, "zz"),
        other => panic!("unexpected: {:?}", other),
    }
}

#[test]
fn unknown_suffix_stack_key_is_an_error() {
    let prefixes = vec![(s("p"), affix(vec![rule("", "p", "", &[])], true))];
    let suffixes = vec![(s("a"), affix(vec![rule("", "a", "", &["p"])], true))];
    let d = HunspellDict::new(metadata(), empty_config(), prefixes, suffixes, vec![]).unwrap();
    match d.build_aff_string() {
        Err(DictError::UnknownKey { affix_type: AffixType::Suffix, key }) => assert_eq!(key, "p"),
        other => panic!("unexpected: {:?}", other),
    }
}

#[test]
fn unknown_prefix_key_in_entry() {
    match HunspellDict::new(metadata(), empty_config(), example_prefixes(), example_suffixes(), vec![entry("w", &["non", "anti"], &["nope"])]) {
        Err(DictError::UnknownKey { affix_type: AffixType::Prefix, key }) => assert_eq!(key, "anti"),
        other => panic!("unexpected: {:?}", other),
    }
}

#[test]
fn unknown_suffix_key_in_entry() {
    match HunspellDict::new(metadata(), empty_config(), example_prefixes(), example_suffixes(), vec![entry("ok", &[], &[]), entry("w", &["non"], &["ive", "nope"])]) {
        Err(DictError::UnknownKey { affix_type: AffixType::Suffix, key }) => assert_eq!(key, "nope"),
        other => panic!("unexpected: {:?}", other),
    }
}

#[test]
fn duplicate_prefix_name() {
    let prefixes = vec![
        (s("a"), affix(vec![], true)),
        (s("b"), affix(vec![], true)),
        (s("a"), affix(vec![], false)),
    ];
    match HunspellDict::new(metadata(), empty_config(), prefixes, vec![], vec![]) {
        Err(DictError::DuplicateKey { affix_type: AffixType::Prefix, key }) => assert_eq!(key, "a"),
        other => panic!("unexpected: {:?}", other),
    }
}

#[test]
fn duplicate_suffix_name() {
    let suffixes = vec![(s("b"), affix(vec![], true)), (s("b"), affix(vec![], true))];
    match HunspellDict::new(metadata(), empty_config(), vec![], suffixes, vec![]) {
        Err(DictError::DuplicateKey { affix_type: AffixType::Suffix, key }) => assert_eq!(key, "b"),
        other => panic!("unexpected: {:?}", other),
    }
}

#[test]
fn too_many_flags() {
    let prefixes: Vec<(String, Affix)> = (0..64_901).map(|i| (format!("p{}", i), affix(vec![], true))).collect();
    match HunspellDict::new(metadata(), empty_config(), prefixes, vec![], vec![]) {
        Err(DictError::TooManyFlags) => {}
        other => panic!("unexpected: {:?}", other.map(|_| ())),
    }
}

#[test]
fn flag_limit_is_inclusive() {
    assert!(flags_fit(64_900, 0));
    assert!(flags_fit(0, 64_900));
    assert!(flags_fit(32_450, 32_450));
    assert!(!flags_fit(64_900, 1));
    assert!(!flags_fit(0, 64_901));
    assert!(!flags_fit(usize::MAX, usize::MAX));
}

#[test]
fn codes_after_many_prefixes() {
    let prefixes: Vec<(String, Affix)> = (0..900).map(|i| (format!("p{:04}", i), affix(vec![], true))).collect();
    let suffixes: Vec<(String, Affix)> = (0..100).map(|i| (format!("s{:03}", i), affix(vec![], true))).collect();
    let d = HunspellDict::new(metadata(), empty_config(), prefixes, suffixes, vec![entry("w", &["p0899"], &["s099"])]).unwrap();
    assert_eq!(d.build_dic_string().unwrap(), "1\nw/999,1099\n");
}

#[test]
fn full_preamble() {
    let mut c = empty_config();
    c.encoding = s("UTF-8");
    c.complex_prefixes = true;
    c.language_code = s("en_US");
    c.max_n_gram_suggestions = 4;
    c.max_diff = 10;
    c.only_max_diff = true;
    c.no_split_suggestions = true;
    c.suggest_with_dots = true;
    c.forbid_warn = true;
    c.full_strip = true;
    c.check_sharps = true;
    c.characters.additional = s("'-");
    c.characters.ignore = s("x");
    c.characters.try_order = s("ea");
    c.characters.key_groups = strings(&["qwerty", "asdf", "zx"]);
    c.characters.input_conversion = vec![rep("a", "b"), rep("c", "d")];
    c.characters.output_conversion = vec![rep("e", "f")];
    c.compound = CompoundConfig {
        check_case: true,
        check_duplicate: true,
        check_replace: true,
        check_triple: true,
        more_suffixes: true,
        simplified_triple: true,
        min_char: 3,
        max_word: 2,
        max_suggestions: 255,
    };
    assert_eq!(
        c.build_aff_preamble_string(),
        "FLAG num\nSET UTF-8\nWORDCHARS '-\nCOMPLEXPREFIXES\nLANG en_US\nIGNORE x\nTRY ea\nKEY qwerty|asdf|zx\nMAXNGRAMSUGS 4\nMAXDIFF 10\nONLYMAXDIFF\nNOSPLITSUGS\nSUGSWITHDOTS\nFORBIDWARN\nFULLSTRIP\nCHECKSHARPS\nCHECKCOMPOUNDCASE\nCHECKCOMPOUNDDUP\nCHECKCOMPOUNDREP\nCHECKCOMPOUNDTRIPLE\nCOMPOUNDMORESUFFIXES\nSIMPLIFIEDTRIPLE\nCOMPOUNDMIN 3\nCOMPOUNDWORDMAX 2\nMAXCPDSUGS 255\nICONV 2\nICONV a b\nICONV c d\nOCONV 1\nOCONV e f\n"
    );
}

#[test]
fn minimal_preamble() {
    assert_eq!(empty_config().build_aff_preamble_string(), "FLAG num\n");
}

#[test]
fn single_key_group() {
    let mut c = empty_config();
    c.characters.key_groups = strings(&["qwerty"]);
    assert_eq!(c.build_aff_preamble_string(), "FLAG num\nKEY qwerty\n");
}

#[test]
fn phone_and_map_tables() {
    let mut c = example_config();
    c.characters.try_replace = vec![];
    c.characters.phonetic_replace = vec![rep("ph", "f f")];
    c.characters.remap = vec![rep("a", "á"), rep("ss", "ß")];
    let d = HunspellDict::new(metadata(), c, vec![], vec![], vec![]).unwrap();
    let aff = d.build_aff_string().unwrap();
    assert!(aff.ends_with("\nPHONE 1\nPHONE ph f_f\n\nMAP 2\nMAP aá\nMAP (ss)ß\n"));
}

#[test]
fn replacements_formatting() {
    assert_eq!(build_replacements_string(&vec![], "REP", ReplacementStyle::Replace), "");
    assert_eq!(
        build_replacements_string(&vec![rep("a b", "c")], "REP", ReplacementStyle::Replace),
        "\nREP 1\nREP a_b c\n"
    );
    assert_eq!(
        build_replacements_string(&vec![rep("ab", "c")], "MAP", ReplacementStyle::Grouped),
        "\nMAP 1\nMAP (ab)c\n"
    );
    assert_eq!(replace_formatter("REP", &rep(" x ", "y  z")), "REP _x_ y__z\n");
    assert_eq!(map_formatter("MAP", &rep("", "é")), "MAP ()é\n");
}

#[test]
fn spaces_become_underscores() {
    assert_eq!(replace_space_with_underscore("a lot of"), "a_lot_of");
    assert_eq!(replace_space_with_underscore(""), "");
    assert_eq!(replace_space_with_underscore("ü ä"), "ü_ä");
}

#[test]
fn parentheses_unless_one_character() {
    assert_eq!(wrap_string_in_paren_if_len_not_one("a"), "a");
    assert_eq!(wrap_string_in_paren_if_len_not_one("ß"), "ß");
    assert_eq!(wrap_string_in_paren_if_len_not_one("ab"), "(ab)");
    assert_eq!(wrap_string_in_paren_if_len_not_one(""), "()");
}

#[test]
fn decimal_rendering() {
    assert_eq!(decimal_string(0), "0");
    assert_eq!(decimal_string(7), "7");
    assert_eq!(decimal_string(10), "10");
    assert_eq!(decimal_string(65535), "65535");
    assert_eq!(decimal_string(u64::MAX), "18446744073709551615");
    assert_eq!(FlagCode(103).to_text(), "103");
    assert_eq!(FlagCode(0).to_text(), "0");
}

#[test]
fn lexicographic_order() {
    assert!(text_lt("'s", "ive"));
    assert!(!text_lt("ive", "'s"));
    assert!(text_lt("a", "ab"));
    assert!(!text_lt("ab", "a"));
    assert!(!text_lt("ab", "ab"));
    assert!(text_lt("", "a"));
    assert!(!text_lt("", ""));
    assert!(text_lt("Z", "a"));
    assert!(text_lt("z", "é"));
    assert_eq!(text_lt("zebra", "apple"), "zebra" < "apple");
}

#[test]
fn affix_names_sorted() {
    let affixes = vec![
        (s("re"), affix(vec![], true)),
        (s("non"), affix(vec![], true)),
        (s("anti"), affix(vec![], true)),
        (s("an"), affix(vec![], true)),
    ];
    let sorted = get_sorted_affix_keys(&affixes, AffixType::Prefix).unwrap();
    assert_eq!(sorted, strings(&["an", "anti", "non", "re"]));
    let dup = vec![(s("x"), affix(vec![], true)), (s("x"), affix(vec![], true))];
    match get_sorted_affix_keys(&dup, AffixType::Suffix) {
        Err(DictError::DuplicateKey { affix_type: AffixType::Suffix, key }) => assert_eq!(key, "x"),
        other => panic!("unexpected: {:?}", other),
    }
}

#[test]
fn cross_product_defaults_to_true() {
    assert!(bool_true());
}

#[test]
fn context_from_arguments() {
    let ctx = ContextManager::new(strings(&["fix-affix", "dict.toml", "out"]));
    assert_eq!(ctx.in_file, "dict.toml");
    assert_eq!(ctx.out_dir, "out");
}

#[test]
fn error_messages() {
    assert_eq!(DictError::TooManyFlags.message(), "Total number of flags cannot exceed 65,000");
    let unknown_prefix = DictError::UnknownKey { affix_type: AffixType::Prefix, key: s("anti") };
    assert_eq!(unknown_prefix.message(), "Unknown prefix key: anti");
    let unknown_suffix = DictError::UnknownKey { affix_type: AffixType::Suffix, key: s("nope") };
    assert_eq!(unknown_suffix.message(), "Unknown suffix key: nope");
    let duplicate_prefix = DictError::DuplicateKey { affix_type: AffixType::Prefix, key: s("a") };
    assert_eq!(duplicate_prefix.message(), "Duplicate prefix key: a");
    let duplicate_suffix = DictError::DuplicateKey { affix_type: AffixType::Suffix, key: s("b") };
    assert_eq!(duplicate_suffix.message(), "Duplicate suffix key: b");
}

#[test]
fn error_message_of_a_refused_dictionary() {
    let prefixes: Vec<(String, Affix)> = (0..64_901).map(|i| (format!("p{}", i), affix(vec![], true))).collect();
    match HunspellDict::new(metadata(), empty_config(), prefixes, vec![], vec![]) {
        Err(e) => assert_eq!(e.message(), "Total number of flags cannot exceed 65,000"),
        Ok(_) => panic!("expected a refusal"),
    }
}

#[test]
fn default_dictionary_is_empty() {
    let d = HunspellDict::default();
    assert_eq!(d.build_dic_string().unwrap(), "0\n");
    assert_eq!(d.build_aff_string().unwrap(), "FLAG num\n");
    assert_eq!(
        d.build_aff_header_at("a", "b"),
        "#  ()\n# \n#\n# a (UTC b)\n#\n# Authors:\n#\n# This Hunspell dictionary was created using fix-affix v0.2.0\n#   https://github.com/samreynoldsmath/fix-affix\n\n"
    );
}

#[test]
fn default_values() {
    let m = DictMetadata::default();
    assert!(m.title.is_empty() && m.description.is_empty() && m.version.is_empty() && m.authors.is_empty());
    let c = DictConfig::default();
    assert_eq!(c.build_aff_preamble_string(), "FLAG num\n");
    let r = Replace::default();
    assert!(r.remove.is_empty() && r.add.is_empty());
    let e = DictEntry::default();
    assert!(e.stem.is_empty() && e.prefix.is_empty() && e.suffix.is_empty() && !e.no_suggest);
    let rule = AffixRule::default();
    assert!(rule.add.is_empty() && rule.strip.is_empty() && rule.cond.is_empty() && rule.stack.is_empty());
    let a = Affix::default();
    assert!(a.rules.is_empty() && !a.cross_product);
    let k = CompoundConfig::default();
    assert!(!k.check_case && k.min_char == 0);
    let ch = CharacterConfig::default();
    assert!(ch.try_order.is_empty() && ch.remap.is_empty());
}

#[test]
fn documented_names_fill_empty_settings() {
    let own = CharacterConfig {
        additional: s(""),
        ignore: s("x"),
        try_order: s(""),
        key_groups: strings(&["qwerty"]),
        remap: vec![],
        try_replace: vec![rep("a", "b")],
        phonetic_replace: vec![],
        input_conversion: vec![],
        output_conversion: vec![],
    };
    let c = own.with_documented(s("'"), s("y"), s("esi"), vec![rep("’", "'")], vec![rep("ie", "ai")]);
    assert_eq!(c.additional, "'");
    assert_eq!(c.ignore, "x");
    assert_eq!(c.try_order, "esi");
    assert_eq!(c.key_groups, strings(&["qwerty"]));
    assert_eq!(c.input_conversion.len(), 1);
    assert_eq!(c.input_conversion[0].remove, "’");
    assert_eq!(c.try_replace.len(), 1);
    assert_eq!(c.try_replace[0].remove, "a");
}

#[test]
fn affix_marks_reach_each_rule() {
    let r = rule("e", "ive", "e", &["x"]).with_affix_marks(true, false);
    assert!(r.circumfix && !r.substandard);
    assert_eq!(r.add, "ive");
    assert_eq!(r.strip, "e");
    assert_eq!(r.cond, "e");
    assert_eq!(r.stack, strings(&["x"]));
    let mut marked = rule("", "a", "", &[]);
    marked.substandard = true;
    let r = marked.with_affix_marks(false, false);
    assert!(!r.circumfix && r.substandard);
}

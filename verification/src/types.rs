//! The data that describes a Hunspell dictionary, and the errors that building one can meet.

use vstd::prelude::*;
use vstd::string::StrSliceExecFns;

verus! {

/// Descriptive information written at the top of the `.aff` file.
#[derive(Debug)]
pub struct DictMetadata {
    pub title: String,
    pub description: String,
    pub version: String,
    pub authors: Vec<String>,
}

/// A pair of character strings: what is removed and what is put in its place.
#[derive(Debug)]
pub struct Replace {
    pub remove: String,
    pub add: String,
}

/// Settings on characters: word characters, ignored characters, suggestion order and the
/// conversion and replacement tables.
#[derive(Debug)]
pub struct CharacterConfig {
    pub additional: String,
    pub ignore: String,
    pub try_order: String,
    pub key_groups: Vec<String>,
    pub remap: Vec<Replace>,
    pub try_replace: Vec<Replace>,
    pub phonetic_replace: Vec<Replace>,
    pub input_conversion: Vec<Replace>,
    pub output_conversion: Vec<Replace>,
}

/// Settings on compound words.
#[derive(Debug)]
pub struct CompoundConfig {
    pub check_case: bool,
    pub check_duplicate: bool,
    pub check_replace: bool,
    pub check_triple: bool,
    pub more_suffixes: bool,
    pub simplified_triple: bool,
    pub min_char: u8,
    pub max_word: u8,
    pub max_suggestions: u8,
}

/// Global settings of the dictionary, written to the preamble of the `.aff` file.
#[derive(Debug)]
pub struct DictConfig {
    pub encoding: String,
    pub complex_prefixes: bool,
    pub language_code: String,
    pub max_n_gram_suggestions: u8,
    pub max_diff: u8,
    pub only_max_diff: bool,
    pub no_split_suggestions: bool,
    pub suggest_with_dots: bool,
    pub forbid_warn: bool,
    pub full_strip: bool,
    pub check_sharps: bool,
    pub characters: CharacterConfig,
    pub compound: CompoundConfig,
}

/// A word or word stem, with the affixes that may join it and its options.
#[derive(Debug)]
pub struct DictEntry {
    pub stem: String,
    pub prefix: Vec<String>,
    pub suffix: Vec<String>,
    pub no_suggest: bool,
    pub warn: bool,
    pub forbidden_word: bool,
    pub keep_case: bool,
    pub need_affix: bool,
    pub substandard: bool,
    pub compound: bool,
    pub compound_begin: bool,
    pub compound_middle: bool,
    pub compound_last: bool,
    pub compound_force_uppercase: bool,
    pub compound_root: bool,
    pub compound_only: bool,
    pub compound_forbid: bool,
}

/// Which side of a stem an affix joins.
#[derive(Clone, Copy, Debug, PartialEq, Eq, Structural)]
pub enum AffixType {
    Prefix,
    Suffix,
}

/// One rule of an affix: strip `strip`, add `add`, under condition `cond`; `stack` names the
/// affixes of the same kind that may follow.
#[derive(Debug)]
pub struct AffixRule {
    pub add: String,
    pub strip: String,
    pub cond: String,
    pub stack: Vec<String>,
    pub circumfix: bool,
    pub substandard: bool,
    pub compound: bool,
    pub compound_begin: bool,
    pub compound_middle: bool,
    pub compound_last: bool,
    pub compound_only: bool,
    pub compound_interior: bool,
    pub compound_forbid: bool,
}

/// A named affix: its rules, and whether it combines with affixes of the other kind.
#[derive(Debug)]
pub struct Affix {
    pub rules: Vec<AffixRule>,
    pub cross_product: bool,
}

/// The value an affix's `cross_product` takes when it is not given.
pub fn bool_true() -> (b: bool)
    ensures
        b,
{
    true
}

/// A numeric Hunspell flag.
#[derive(Clone, Copy, Debug, PartialEq, Eq, Structural)]
pub struct FlagCode(pub u16);

impl FlagCode {
    /// The flag in decimal, as Hunspell's `FLAG num` reads it.
    pub fn to_text(&self) -> (s: String)
        ensures
            s@ == crate::text::decimal(self.0 as nat),
    {
        crate::text::decimal_string(self.0 as u64)
    }
}

/// What went wrong while building a dictionary.
#[derive(Debug)]
pub enum DictError {
    /// More flags would be needed than the numeric flag space allows.
    TooManyFlags,
    /// An entry or a rule names an affix that the dictionary does not define.
    UnknownKey { affix_type: AffixType, key: String },
    /// Two affixes of the same kind share a name.
    DuplicateKey { affix_type: AffixType, key: String },
}

/// The mathematical content of a [`DictError`].
pub enum DictFault {
    TooManyFlags,
    UnknownKey(AffixType, Seq<char>),
    DuplicateKey(AffixType, Seq<char>),
}

impl View for DictError {
    type V = DictFault;

    open spec fn view(&self) -> DictFault {
        match self {
            DictError::TooManyFlags => DictFault::TooManyFlags,
            DictError::UnknownKey { affix_type, key } => DictFault::UnknownKey(*affix_type, key@),
            DictError::DuplicateKey { affix_type, key } => DictFault::DuplicateKey(
                *affix_type,
                key@,
            ),
        }
    }
}

/// The text that describes a failure.
pub open spec fn fault_message(f: DictFault) -> Seq<char> {
    match f {
        DictFault::TooManyFlags => "Total number of flags cannot exceed 65,000"@,
        DictFault::UnknownKey(AffixType::Prefix, k) => "Unknown prefix key: "@ + k,
        DictFault::UnknownKey(AffixType::Suffix, k) => "Unknown suffix key: "@ + k,
        DictFault::DuplicateKey(AffixType::Prefix, k) => "Duplicate prefix key: "@ + k,
        DictFault::DuplicateKey(AffixType::Suffix, k) => "Duplicate suffix key: "@ + k,
    }
}

impl DictError {
    /// The text that describes this failure.
    pub fn message(&self) -> (r: String)
        ensures
            r@ == fault_message(self@),
    {
        match self {
            DictError::TooManyFlags => String::from_str("Total number of flags cannot exceed 65,000"),
            DictError::UnknownKey { affix_type, key } => {
                let mut r = match affix_type {
                    AffixType::Prefix => String::from_str("Unknown prefix key: "),
                    AffixType::Suffix => String::from_str("Unknown suffix key: "),
                };
                crate::text::push_text(&mut r, key.as_str());
                r
            },
            DictError::DuplicateKey { affix_type, key } => {
                let mut r = match affix_type {
                    AffixType::Prefix => String::from_str("Duplicate prefix key: "),
                    AffixType::Suffix => String::from_str("Duplicate suffix key: "),
                };
                crate::text::push_text(&mut r, key.as_str());
                r
            },
        }
    }
}

impl Default for DictMetadata {
    fn default() -> (r: Self)
        ensures
            is_empty_metadata(r),
    {
        DictMetadata {
            title: String::new(),
            description: String::new(),
            version: String::new(),
            authors: Vec::new(),
        }
    }
}

impl Default for Replace {
    fn default() -> (r: Self)
        ensures
            r.remove@.len() == 0,
            r.add@.len() == 0,
    {
        Replace { remove: String::new(), add: String::new() }
    }
}

impl Default for CharacterConfig {
    fn default() -> (r: Self)
        ensures
            r.additional@.len() == 0,
            r.ignore@.len() == 0,
            r.try_order@.len() == 0,
            r.key_groups.len() == 0,
            r.remap.len() == 0,
            r.try_replace.len() == 0,
            r.phonetic_replace.len() == 0,
            r.input_conversion.len() == 0,
            r.output_conversion.len() == 0,
    {
        CharacterConfig {
            additional: String::new(),
            ignore: String::new(),
            try_order: String::new(),
            key_groups: Vec::new(),
            remap: Vec::new(),
            try_replace: Vec::new(),
            phonetic_replace: Vec::new(),
            input_conversion: Vec::new(),
            output_conversion: Vec::new(),
        }
    }
}

/// `value`, or `other` in its place if `value` is empty.
pub open spec fn text_or(value: Seq<char>, other: Seq<char>) -> Seq<char> {
    if value.len() == 0 {
        other
    } else {
        value
    }
}

/// `value`, or `other` in its place if `value` is empty.
pub open spec fn table_or(value: Seq<Replace>, other: Seq<Replace>) -> Seq<Replace> {
    if value.len() == 0 {
        other
    } else {
        value
    }
}

impl CharacterConfig {
    /// These settings, completed by the values given under the names that the description's
    /// documentation uses at the level of `config` (`additional_word_characters`,
    /// `ignore_characters`, `try_characters`, `input_conversion`, `replace`): each of the five
    /// settings they stand for takes that value where it is empty here, and keeps its own
    /// otherwise. The other settings are unchanged.
    pub fn with_documented(
        self,
        additional: String,
        ignore: String,
        try_order: String,
        input_conversion: Vec<Replace>,
        try_replace: Vec<Replace>,
    ) -> (r: CharacterConfig)
        ensures
            r.additional@ == text_or(self.additional@, additional@),
            r.ignore@ == text_or(self.ignore@, ignore@),
            r.try_order@ == text_or(self.try_order@, try_order@),
            r.input_conversion@ == table_or(self.input_conversion@, input_conversion@),
            r.try_replace@ == table_or(self.try_replace@, try_replace@),
            r.key_groups@ == self.key_groups@,
            r.remap@ == self.remap@,
            r.phonetic_replace@ == self.phonetic_replace@,
            r.output_conversion@ == self.output_conversion@,
    {
        let CharacterConfig {
            additional: own_additional,
            ignore: own_ignore,
            try_order: own_try_order,
            key_groups,
            remap,
            try_replace: own_try_replace,
            phonetic_replace,
            input_conversion: own_input_conversion,
            output_conversion,
        } = self;
        CharacterConfig {
            additional: if own_additional.as_str().unicode_len() == 0 { additional } else { own_additional },
            ignore: if own_ignore.as_str().unicode_len() == 0 { ignore } else { own_ignore },
            try_order: if own_try_order.as_str().unicode_len() == 0 { try_order } else { own_try_order },
            key_groups,
            remap,
            try_replace: if own_try_replace.len() == 0 { try_replace } else { own_try_replace },
            phonetic_replace,
            input_conversion: if own_input_conversion.len() == 0 {
                input_conversion
            } else {
                own_input_conversion
            },
            output_conversion,
        }
    }
}

impl AffixRule {
    /// This rule, also marked as part of a circumfix or as substandard where its affix as a
    /// whole is; every other field is unchanged.
    pub fn with_affix_marks(self, circumfix: bool, substandard: bool) -> (r: AffixRule)
        ensures
            r.circumfix == (self.circumfix || circumfix),
            r.substandard == (self.substandard || substandard),
            r.add@ == self.add@,
            r.strip@ == self.strip@,
            r.cond@ == self.cond@,
            r.stack@ == self.stack@,
            r.compound == self.compound,
            r.compound_begin == self.compound_begin,
            r.compound_middle == self.compound_middle,
            r.compound_last == self.compound_last,
            r.compound_only == self.compound_only,
            r.compound_interior == self.compound_interior,
            r.compound_forbid == self.compound_forbid,
    {
        let own_circumfix = self.circumfix;
        let own_substandard = self.substandard;
        AffixRule { circumfix: own_circumfix || circumfix, substandard: own_substandard || substandard, ..self }
    }
}

impl Default for CompoundConfig {
    fn default() -> (r: Self)
        ensures
            !r.check_case && !r.check_duplicate && !r.check_replace && !r.check_triple,
            !r.more_suffixes && !r.simplified_triple,
            r.min_char == 0 && r.max_word == 0 && r.max_suggestions == 0,
    {
        CompoundConfig {
            check_case: false,
            check_duplicate: false,
            check_replace: false,
            check_triple: false,
            more_suffixes: false,
            simplified_triple: false,
            min_char: 0,
            max_word: 0,
            max_suggestions: 0,
        }
    }
}

impl Default for DictConfig {
    fn default() -> (r: Self)
        ensures
            is_empty_config(r),
    {
        DictConfig {
            encoding: String::new(),
            complex_prefixes: false,
            language_code: String::new(),
            max_n_gram_suggestions: 0,
            max_diff: 0,
            only_max_diff: false,
            no_split_suggestions: false,
            suggest_with_dots: false,
            forbid_warn: false,
            full_strip: false,
            check_sharps: false,
            characters: CharacterConfig::default(),
            compound: CompoundConfig::default(),
        }
    }
}

impl Default for DictEntry {
    fn default() -> (r: Self)
        ensures
            r.stem@.len() == 0,
            r.prefix.len() == 0,
            r.suffix.len() == 0,
            !r.no_suggest && !r.warn && !r.forbidden_word && !r.keep_case && !r.need_affix,
            !r.substandard && !r.compound && !r.compound_begin && !r.compound_middle,
            !r.compound_last && !r.compound_force_uppercase && !r.compound_root,
            !r.compound_only && !r.compound_forbid,
    {
        DictEntry {
            stem: String::new(),
            prefix: Vec::new(),
            suffix: Vec::new(),
            no_suggest: false,
            warn: false,
            forbidden_word: false,
            keep_case: false,
            need_affix: false,
            substandard: false,
            compound: false,
            compound_begin: false,
            compound_middle: false,
            compound_last: false,
            compound_force_uppercase: false,
            compound_root: false,
            compound_only: false,
            compound_forbid: false,
        }
    }
}

impl Default for AffixRule {
    fn default() -> (r: Self)
        ensures
            r.add@.len() == 0,
            r.strip@.len() == 0,
            r.cond@.len() == 0,
            r.stack.len() == 0,
            !r.circumfix && !r.substandard && !r.compound && !r.compound_begin,
            !r.compound_middle && !r.compound_last && !r.compound_only,
            !r.compound_interior && !r.compound_forbid,
    {
        AffixRule {
            add: String::new(),
            strip: String::new(),
            cond: String::new(),
            stack: Vec::new(),
            circumfix: false,
            substandard: false,
            compound: false,
            compound_begin: false,
            compound_middle: false,
            compound_last: false,
            compound_only: false,
            compound_interior: false,
            compound_forbid: false,
        }
    }
}

impl Default for Affix {
    /// An affix with no rules. As a plain value its `cross_product` is `false`; a description
    /// that names an affix without saying otherwise gives it `bool_true()`.
    fn default() -> (r: Self)
        ensures
            r.rules.len() == 0,
            !r.cross_product,
    {
        Affix { rules: Vec::new(), cross_product: false }
    }
}

/// Metadata with every field empty.
pub open spec fn is_empty_metadata(m: DictMetadata) -> bool {
    &&& m.title@.len() == 0
    &&& m.description@.len() == 0
    &&& m.version@.len() == 0
    &&& m.authors.len() == 0
}

/// Settings with every text and table empty, every switch off and every number zero.
pub open spec fn is_empty_config(c: DictConfig) -> bool {
    &&& c.encoding@.len() == 0
    &&& c.language_code@.len() == 0
    &&& !c.complex_prefixes && !c.only_max_diff && !c.no_split_suggestions
    &&& !c.suggest_with_dots && !c.forbid_warn && !c.full_strip && !c.check_sharps
    &&& c.max_n_gram_suggestions == 0 && c.max_diff == 0
    &&& c.characters.additional@.len() == 0
    &&& c.characters.ignore@.len() == 0
    &&& c.characters.try_order@.len() == 0
    &&& c.characters.key_groups.len() == 0
    &&& c.characters.remap.len() == 0
    &&& c.characters.try_replace.len() == 0
    &&& c.characters.phonetic_replace.len() == 0
    &&& c.characters.input_conversion.len() == 0
    &&& c.characters.output_conversion.len() == 0
    &&& !c.compound.check_case && !c.compound.check_duplicate && !c.compound.check_replace
    &&& !c.compound.check_triple && !c.compound.more_suffixes && !c.compound.simplified_triple
    &&& c.compound.min_char == 0 && c.compound.max_word == 0 && c.compound.max_suggestions == 0
}

/// The characters of each string of a sequence.
pub open spec fn texts(v: Seq<String>) -> Seq<Seq<char>> {
    v.map_values(|s: String| s@)
}

} // verus!

//! Builds Hunspell dictionaries: the `.dic` word list and the `.aff` affix file are produced
//! from a structured description of the dictionary's metadata, settings, affixes and entries.

use vstd::prelude::*;

pub mod clock;
pub mod codes;
pub mod context;
pub mod keys;
pub mod file_laws;
pub mod laws;
pub mod process;
pub mod text;
pub mod types;
pub mod write;

pub use context::ContextManager;
pub use process::HunspellDict;
pub use types::{
    bool_true, Affix, AffixRule, AffixType, CharacterConfig, CompoundConfig, DictConfig,
    DictEntry, DictError, DictMetadata, FlagCode, Replace,
};
pub use write::ReplacementStyle;

verus! {

} // verus!

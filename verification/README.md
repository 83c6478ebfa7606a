# fix_affix

Builds a Hunspell dictionary (`.dic` word list and `.aff` affix file) from a structured
description: metadata, global settings, named prefixes and suffixes, and entries.

- `src/` is the library, verified with Verus. `HunspellDict::new` checks the description and
  numbers the flags (option flags have fixed codes; prefixes, then suffixes, are numbered from
  100 in sorted order of their names); `build_dic_string` and `build_aff_string` produce the
  two files' text, each with a contract that gives the text exactly. The `.aff` text starts
  with `FLAG num`.
- `build_aff_header_at` gives a comment block naming the dictionary, the time of writing, its
  authors and this tool, for given times and with an exact contract; `build_aff_header` reads
  the clock for the times, which are only known to have the shape `year-mm-dd hh:mm`.
- `DictError::message` gives the text of each failure. `CharacterConfig::with_documented` and
  `AffixRule::with_affix_marks` take in the settings that the TOML documentation places at
  other levels than the library's types.
- `src/laws.rs` proves properties of the numbering and of the files: no two flags share a code
  and none is zero, codes depend only on the set of affix names, an entry's flag for an affix
  is the code of that affix's block, every number after `/` in the `.dic` text is a valid flag
  number, the `.aff` text declares an option flag exactly when some entry sets that option, and
  the header is made of comment lines.
- `app/` is the command line tool: it reads the TOML file, converts it, and writes the files.
- `tests/` runs the library on concrete dictionaries.

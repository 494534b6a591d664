# wbwime

The engine of an input method for Chinese, written in Verus: the library in
`src/` is verified, each function with a contract over mathematical models
(`Seq`, `Map`, `Set`, `int`) of its data.

## Layout

- `src/` — the verified library:
  - `cin_parser`, `entry`, `builder`: `.cin` code tables, their entries,
    and building dictionaries from them;
  - `fst_dict`: dictionaries held in an `fst` map, with exact, prefix and
    edit-distance lookups;
  - `matcher`, `fuzzy`, `distance`, `candidate`: matching typed codes to
    candidates, fuzzy pinyin rules, Levenshtein distance, filters of
    candidate lists;
  - `pinyin`, `segmenter`, `ngram_table`, `l0_learn`: syllables, word
    segmentation, n-gram counts, and learning from the user's choices;
  - `context`, `session`, `key_mapper`, `ime_host`, `candidate_window`,
    `tsf_state`, `fbterm`, `key_hook`, `gui_engine`, `gui_config`, `ipc`,
    `native`, `cli`: the state machines of the input front ends and the
    decisions of the command-line tool;
  - `text`, `types`, `error`, `clock`, `rank`, `smooth`: shared helpers and
    types.
- `tests/` — tests of the library on concrete values.
- `app/` — the command-line program around the library: files, terminals,
  configuration files, and the ranking of candidates by floating-point
  weights.

Calls into outside crates (`fst`, `lru`) stand behind a few trusted
functions whose contracts state what those crates document.

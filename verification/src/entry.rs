//! Entries of code tables and dictionaries.
use vstd::prelude::*;

use crate::text::{lemma_lex_irrefl, lemma_strictly_sorted_unique, lex_lt, str_to_string};
use crate::types::{WordEntry, WordEntryView, word_views, clone_words};

verus! {

/// A code of a `.cin` table with its words.
pub struct CinEntry {
    /// The code (such as a pinyin spelling).
    pub code: String,
    /// The words typed with this code, in the order they were read.
    pub words: Vec<WordEntry>,
}

/// The mathematical value of a [`CinEntry`]: its code and its words.
pub open spec fn cin_view(e: CinEntry) -> (Seq<char>, Seq<WordEntryView>) {
    (e.code@, word_views(e.words@))
}

/// The values of a sequence of entries.
pub open spec fn cin_views(v: Seq<CinEntry>) -> Seq<(Seq<char>, Seq<WordEntryView>)> {
    v.map_values(|e: CinEntry| cin_view(e))
}

impl CinEntry {
    /// An entry for `code` with no words.
    pub fn new(code: String) -> (r: Self)
        ensures
            r.code == code,
            r.words@.len() == 0,
    {
        CinEntry { code, words: Vec::new() }
    }

    /// Adds a word at the end.
    pub fn add_word(&mut self, word: WordEntry)
        ensures
            final(self).code == old(self).code,
            final(self).words@ == old(self).words@.push(word),
    {
        self.words.push(word);
    }

    /// Number of words.
    pub fn word_count(&self) -> (r: usize)
        ensures
            r == self.words@.len(),
    {
        self.words.len()
    }

    /// A copy of this entry.
    pub fn duplicate(&self) -> (r: CinEntry)
        ensures
            cin_view(r) == cin_view(*self),
    {
        CinEntry { code: self.code.clone(), words: clone_words(&self.words) }
    }
}

/// Where a dictionary comes from.
#[derive(PartialEq, Eq, Structural, Clone, Copy, Debug, Hash)]
pub enum DictSource {
    /// The base dictionary.
    Base,
    /// The user dictionary.
    User,
    /// Words learnt while typing.
    Dynamic,
}

impl DictSource {
    /// The source's name (what its `Display` writes): 基础, 用户 or 动态.
    pub fn name(&self) -> (r: String)
        ensures
            r@ == match *self {
                DictSource::Base => "基础"@,
                DictSource::User => "用户"@,
                DictSource::Dynamic => "动态"@,
            },
    {
        match self {
            DictSource::Base => crate::text::str_to_string("基础"),
            DictSource::User => crate::text::str_to_string("用户"),
            DictSource::Dynamic => crate::text::str_to_string("动态"),
        }
    }
}

impl DictSource {
    /// The label shown for this source (what its `Display` writes).
    pub fn label(&self) -> (r: &'static str)
        ensures
            r@ == match *self {
                DictSource::Base => "基础"@,
                DictSource::User => "用户"@,
                DictSource::Dynamic => "动态"@,
            },
    {
        match self {
            DictSource::Base => "基础",
            DictSource::User => "用户",
            DictSource::Dynamic => "动态",
        }
    }
}

/// An entry of a dictionary: one word of one code.
pub struct DictEntry {
    /// The code.
    pub code: String,
    /// The word.
    pub word: String,
    /// Its frequency.
    pub freq: u32,
    /// Where it comes from.
    pub source: DictSource,
}

/// The mathematical value of a [`DictEntry`].
pub struct DictEntryView {
    /// The code.
    pub code: Seq<char>,
    /// The word.
    pub word: Seq<char>,
    /// Its frequency.
    pub freq: u32,
    /// Where it comes from.
    pub source: DictSource,
}

impl View for DictEntry {
    type V = DictEntryView;

    open spec fn view(&self) -> DictEntryView {
        DictEntryView { code: self.code@, word: self.word@, freq: self.freq, source: self.source }
    }
}

/// The values of a sequence of dictionary entries.
pub open spec fn dict_views(v: Seq<DictEntry>) -> Seq<DictEntryView> {
    v.map_values(|e: DictEntry| e@)
}

impl DictEntry {
    /// A copy of this entry.
    pub fn duplicate(&self) -> (r: DictEntry)
        ensures
            r@ == self@,
    {
        DictEntry {
            code: self.code.clone(),
            word: self.word.clone(),
            freq: self.freq,
            source: self.source,
        }
    }
}

/// Settings of a dictionary build.
pub struct DictBuilderConfig {
    /// Whether entries are sorted.
    pub sort_entries: bool,
    /// Whether repeated entries are removed.
    pub deduplicate: bool,
    /// Smallest frequency kept.
    pub min_freq: u32,
    /// Longest word kept.
    pub max_word_len: usize,
}

impl Default for DictBuilderConfig {
    fn default() -> (r: Self)
        ensures
            r.sort_entries,
            r.deduplicate,
            r.min_freq == 0,
            r.max_word_len == 32,
    {
        DictBuilderConfig { sort_entries: true, deduplicate: true, min_freq: 0, max_word_len: 32 }
    }
}

// ---------------------------------------------------------------------------
// Grouping words by code
// ---------------------------------------------------------------------------
/// An entry of a grouping: a code and its words.
pub type GroupItem = (Seq<char>, Seq<WordEntryView>);

/// The words that the items of `src` give to `code`, in order.
#[verifier::opaque]
pub open spec fn words_of(src: Seq<GroupItem>, code: Seq<char>) -> Seq<WordEntryView>
    decreases src.len(),
{
    if src.len() == 0 {
        seq![]
    } else {
        let w = words_of(src.drop_last(), code);
        if src.last().0 == code {
            w + src.last().1
        } else {
            w
        }
    }
}

/// One more item adds its words to its own code only.
pub proof fn lemma_words_of_push(src: Seq<GroupItem>, item: GroupItem, code: Seq<char>)
    ensures
        words_of(src.push(item), code) == if item.0 == code {
            words_of(src, code) + item.1
        } else {
            words_of(src, code)
        },
{
    reveal(words_of);
    assert(src.push(item).drop_last() == src);
}

/// No items give no words.
pub proof fn lemma_words_of_empty(code: Seq<char>)
    ensures
        words_of(Seq::<GroupItem>::empty(), code) == Seq::<WordEntryView>::empty(),
{
    reveal(words_of);
}

/// The codes of `entries` are strictly increasing.
#[verifier::opaque]
pub open spec fn codes_sorted(entries: Seq<GroupItem>) -> bool {
    forall|i: int, j: int|
        0 <= i < j < entries.len() ==> lex_lt(#[trigger] entries[i].0, #[trigger] entries[j].0)
}

/// Each entry holds the words that `src` gives its code.
#[verifier::opaque]
pub open spec fn words_match(entries: Seq<GroupItem>, src: Seq<GroupItem>) -> bool {
    forall|i: int| 0 <= i < entries.len() ==> #[trigger] entries[i].1 == words_of(src, entries[i].0)
}

/// Each entry's code occurs in `src`.
#[verifier::opaque]
pub open spec fn codes_from(entries: Seq<GroupItem>, src: Seq<GroupItem>) -> bool {
    forall|i: int| 0 <= i < entries.len() ==> #[trigger] code_in(src, entries[i].0)
}

/// Some item of `src` has code `c`.
pub open spec fn code_in(src: Seq<GroupItem>, c: Seq<char>) -> bool {
    exists|k: int| 0 <= k < src.len() && #[trigger] src[k].0 == c
}

/// Each code of `src` has an entry.
#[verifier::opaque]
pub open spec fn codes_covered(entries: Seq<GroupItem>, src: Seq<GroupItem>) -> bool {
    forall|k: int| 0 <= k < src.len() ==> #[trigger] code_in(entries, src[k].0)
}

/// `entries` groups the items of `src` by code: one entry per code that
/// occurs in `src`, sorted by code, each holding the words of all items
/// with that code, in the order of `src`.
pub open spec fn is_grouping(entries: Seq<GroupItem>, src: Seq<GroupItem>) -> bool {
    &&& codes_sorted(entries)
    &&& words_match(entries, src)
    &&& codes_from(entries, src)
    &&& codes_covered(entries, src)
}

/// The empty grouping of no items.
pub proof fn lemma_grouping_empty()
    ensures
        is_grouping(Seq::<GroupItem>::empty(), Seq::<GroupItem>::empty()),
{
    reveal(codes_sorted);
    reveal(words_match);
    reveal(codes_from);
    reveal(codes_covered);
}

/// A code that no item of `src` has gets no words.
pub proof fn lemma_words_of_absent(src: Seq<GroupItem>, code: Seq<char>)
    requires
        forall|k: int| 0 <= k < src.len() ==> #[trigger] src[k].0 != code,
    ensures
        words_of(src, code) == Seq::<WordEntryView>::empty(),
    decreases src.len(),
{
    if src.len() == 0 {
        lemma_words_of_empty(code);
        assert(src =~= Seq::<GroupItem>::empty());
    } else {
        let s0 = src.drop_last();
        assert forall|k: int| 0 <= k < s0.len() implies #[trigger] s0[k].0 != code by {
            assert(s0[k] == src[k]);
        }
        lemma_words_of_absent(s0, code);
        assert(src == s0.push(src.last()));
        assert(src.last() == src[src.len() - 1]);
        lemma_words_of_push(s0, src.last(), code);
    }
}

/// Distinct positions of a sorted grouping hold distinct codes.
pub proof fn lemma_sorted_distinct(entries: Seq<GroupItem>, i: int, j: int)
    requires
        codes_sorted(entries),
        0 <= i < entries.len(),
        0 <= j < entries.len(),
        i != j,
    ensures
        entries[i].0 != entries[j].0,
{
    reveal(codes_sorted);
    if i < j {
        assert(lex_lt(entries[i].0, entries[j].0));
    } else {
        assert(lex_lt(entries[j].0, entries[i].0));
    }
    crate::text::lemma_lex_irrefl(entries[i].0);
}

/// Appending words of a code that is already present keeps a grouping.
pub proof fn lemma_group_append(
    e0: Seq<GroupItem>,
    e1: Seq<GroupItem>,
    src: Seq<GroupItem>,
    lo: int,
    c: Seq<char>,
    ws: Seq<WordEntryView>,
)
    requires
        is_grouping(e0, src),
        0 <= lo < e0.len(),
        e0[lo].0 == c,
        e1.len() == e0.len(),
        e1[lo] == (c, e0[lo].1 + ws),
        forall|i: int| 0 <= i < e0.len() && i != lo ==> #[trigger] e1[i] == e0[i],
    ensures
        is_grouping(e1, src.push((c, ws))),
{
    let src2 = src.push((c, ws));
    assert forall|i: int| 0 <= i < e1.len() implies #[trigger] e1[i].0 == e0[i].0 by {
        if i != lo {
            assert(e1[i] == e0[i]);
        }
    }
    assert(codes_sorted(e1)) by {
        reveal(codes_sorted);
        assert forall|i: int, j: int| 0 <= i < j < e1.len() implies lex_lt(
            #[trigger] e1[i].0,
            #[trigger] e1[j].0,
        ) by {
            assert(e1[i].0 == e0[i].0);
            assert(e1[j].0 == e0[j].0);
        }
    }
    assert(words_match(e1, src2)) by {
        reveal(words_match);
        assert forall|i: int| 0 <= i < e1.len() implies #[trigger] e1[i].1 == words_of(
            src2,
            e1[i].0,
        ) by {
            lemma_words_of_push(src, (c, ws), e1[i].0);
            assert(e0[i].1 == words_of(src, e0[i].0));
            if i != lo {
                assert(e1[i] == e0[i]);
                lemma_sorted_distinct(e0, i, lo);
            }
        }
    }
    assert(codes_from(e1, src2)) by {
        reveal(codes_from);
        assert forall|i: int| 0 <= i < e1.len() implies #[trigger] code_in(src2, e1[i].0) by {
            if i == lo {
                assert(src2[src.len() as int].0 == e1[i].0);
            } else {
                assert(e1[i] == e0[i]);
                assert(code_in(src, e0[i].0));
                let k = choose|k: int| 0 <= k < src.len() && #[trigger] src[k].0 == e0[i].0;
                assert(src2[k] == src[k]);
            }
        }
    }
    assert(codes_covered(e1, src2)) by {
        reveal(codes_covered);
        assert forall|k: int| 0 <= k < src2.len() implies #[trigger] code_in(e1, src2[k].0) by {
            if k < src.len() {
                assert(src2[k] == src[k]);
                assert(code_in(e0, src[k].0));
                let i = choose|i: int| 0 <= i < e0.len() && #[trigger] e0[i].0 == src[k].0;
                assert(e1[i].0 == e0[i].0);
            } else {
                assert(e1[lo].0 == src2[k].0);
            }
        }
    }
}

/// Inserting a code that is absent, at its place in the order, keeps a grouping.
pub proof fn lemma_group_insert(
    e0: Seq<GroupItem>,
    src: Seq<GroupItem>,
    lo: int,
    c: Seq<char>,
    ws: Seq<WordEntryView>,
)
    requires
        is_grouping(e0, src),
        0 <= lo <= e0.len(),
        forall|i: int| 0 <= i < lo ==> lex_lt((#[trigger] e0[i]).0, c),
        forall|i: int| lo <= i < e0.len() ==> !lex_lt((#[trigger] e0[i]).0, c),
        !(lo < e0.len() && e0[lo].0 == c),
    ensures
        is_grouping(e0.insert(lo, (c, ws)), src.push((c, ws))),
{
    let src2 = src.push((c, ws));
    let e1 = e0.insert(lo, (c, ws));
    assert forall|i: int| lo <= i < e0.len() implies lex_lt(c, (#[trigger] e0[i]).0) by {
        crate::text::lemma_lex_total(e0[lo].0, c);
        if i > lo {
            reveal(codes_sorted);
            assert(lex_lt(e0[lo].0, e0[i].0));
            crate::text::lemma_lex_trans(c, e0[lo].0, e0[i].0);
        }
    }
    assert forall|k: int| 0 <= k < src.len() implies #[trigger] src[k].0 != c by {
        reveal(codes_covered);
        assert(code_in(e0, src[k].0));
        let i = choose|i: int| 0 <= i < e0.len() && #[trigger] e0[i].0 == src[k].0;
        if src[k].0 == c {
            crate::text::lemma_lex_irrefl(c);
        }
    }
    lemma_words_of_absent(src, c);
    lemma_words_of_push(src, (c, ws), c);
    assert(words_of(src2, c) =~= ws);
    assert forall|i: int| 0 <= i < e1.len() implies #[trigger] e1[i] == if i < lo {
        e0[i]
    } else if i == lo {
        (c, ws)
    } else {
        e0[i - 1]
    } by {}
    assert(codes_sorted(e1)) by {
        reveal(codes_sorted);
        assert forall|i: int, j: int| 0 <= i < j < e1.len() implies lex_lt(
            #[trigger] e1[i].0,
            #[trigger] e1[j].0,
        ) by {
            if j < lo {
            } else if j == lo {
            } else if i < lo {
                crate::text::lemma_lex_trans(e0[i].0, c, e0[j - 1].0);
            } else if i == lo {
            } else {
            }
        }
    }
    assert(words_match(e1, src2)) by {
        reveal(words_match);
        assert forall|i: int| 0 <= i < e1.len() implies #[trigger] e1[i].1 == words_of(
            src2,
            e1[i].0,
        ) by {
            if i != lo {
                let ii = if i < lo {
                    i
                } else {
                    i - 1
                };
                assert(e1[i] == e0[ii]);
                assert(e0[ii].1 == words_of(src, e0[ii].0));
                lemma_words_of_push(src, (c, ws), e0[ii].0);
                if e0[ii].0 == c {
                    crate::text::lemma_lex_irrefl(c);
                }
            }
        }
    }
    lemma_insert_codes(e0, e1, src, src2, lo, c, ws);
}

/// Inserting an item of a new code keeps codes and items in correspondence.
proof fn lemma_insert_codes(
    e0: Seq<GroupItem>,
    e1: Seq<GroupItem>,
    src: Seq<GroupItem>,
    src2: Seq<GroupItem>,
    lo: int,
    c: Seq<char>,
    ws: Seq<WordEntryView>,
)
    requires
        codes_from(e0, src),
        codes_covered(e0, src),
        0 <= lo <= e0.len(),
        e1 == e0.insert(lo, (c, ws)),
        src2 == src.push((c, ws)),
    ensures
        codes_from(e1, src2),
        codes_covered(e1, src2),
{
    reveal(codes_from);
    reveal(codes_covered);
    assert forall|i: int| 0 <= i < e1.len() implies #[trigger] code_in(src2, e1[i].0) by {
        if i == lo {
            assert(src2[src.len() as int].0 == e1[i].0);
        } else {
            let ii = if i < lo {
                i
            } else {
                i - 1
            };
            assert(e1[i] == e0[ii]);
            assert(code_in(src, e0[ii].0));
            let k = choose|k: int| 0 <= k < src.len() && #[trigger] src[k].0 == e0[ii].0;
            assert(src2[k] == src[k]);
        }
    }
    assert forall|k: int| 0 <= k < src2.len() implies #[trigger] code_in(e1, src2[k].0) by {
        if k < src.len() {
            assert(src2[k] == src[k]);
            assert(code_in(e0, src[k].0));
            let i = choose|i: int| 0 <= i < e0.len() && #[trigger] e0[i].0 == src[k].0;
            if i < lo {
                assert(e1[i] == e0[i]);
            } else {
                assert(e1[i + 1] == e0[i]);
            }
        } else {
            assert(e1[lo].0 == src2[k].0);
        }
    }
}

/// The first position in the sorted `keys` whose key is not smaller than `code`.
fn find_slot(keys: &Vec<Vec<char>>, code: &Vec<char>, Ghost(e0): Ghost<
    Seq<(Seq<char>, Seq<WordEntryView>)>,
>) -> (lo: usize)
    requires
        keys@.len() == e0.len(),
        forall|i: int| 0 <= i < keys@.len() ==> (#[trigger] keys@[i])@ == e0[i].0,
        codes_sorted(e0),
    ensures
        lo <= keys@.len(),
        forall|i: int| 0 <= i < lo ==> lex_lt((#[trigger] e0[i]).0, code@),
        forall|i: int| lo <= i < e0.len() ==> !lex_lt((#[trigger] e0[i]).0, code@),
{
    let mut lo: usize = 0;
    let mut hi: usize = keys.len();
    while lo < hi
        invariant
            0 <= lo <= hi <= keys@.len(),
            keys@.len() == e0.len(),
            forall|i: int| 0 <= i < keys@.len() ==> (#[trigger] keys@[i])@ == e0[i].0,
            codes_sorted(e0),
            forall|i: int| 0 <= i < lo ==> lex_lt((#[trigger] e0[i]).0, code@),
            forall|i: int| hi <= i < e0.len() ==> !lex_lt((#[trigger] e0[i]).0, code@),
        decreases hi - lo,
    {
        let mid = lo + (hi - lo) / 2;
        if crate::text::chars_lt(keys[mid].as_slice(), code.as_slice()) {
            assert(keys@[mid as int]@ == e0[mid as int].0);
            reveal(codes_sorted);
            assert forall|i: int| 0 <= i <= mid implies lex_lt((#[trigger] e0[i]).0, code@) by {
                if i < mid {
                    crate::text::lemma_lex_trans(e0[i].0, e0[mid as int].0, code@);
                }
            }
            lo = mid + 1;
        } else {
            assert(keys@[mid as int]@ == e0[mid as int].0);
            reveal(codes_sorted);
            assert forall|i: int| mid <= i < e0.len() implies !lex_lt((#[trigger] e0[i]).0, code@) by {
                if i > mid && lex_lt(e0[i].0, code@) {
                    crate::text::lemma_lex_trans(e0[mid as int].0, e0[i].0, code@);
                }
            }
            hi = mid;
        }
    }
    lo
}

/// Adds the words `words` of `code` to a grouping.
///
/// `keys` holds the codes of `entries` as character vectors.
pub fn group_add(
    entries: &mut Vec<CinEntry>,
    keys: &mut Vec<Vec<char>>,
    code: Vec<char>,
    code_str: String,
    words: Vec<WordEntry>,
    Ghost(src): Ghost<Seq<(Seq<char>, Seq<WordEntryView>)>>,
)
    requires
        is_grouping(cin_views(old(entries)@), src),
        old(keys)@.len() == old(entries)@.len(),
        forall|i: int| 0 <= i < old(keys)@.len() ==> (#[trigger] old(keys)@[i])@ == old(entries)@[i].code@,
        code_str@ == code@,
    ensures
        is_grouping(cin_views(final(entries)@), src.push((code@, word_views(words@)))),
        final(keys)@.len() == final(entries)@.len(),
        forall|i: int| 0 <= i < final(keys)@.len() ==> (#[trigger] final(keys)@[i])@ == final(entries)@[i].code@,
{
    let ghost e0 = cin_views(entries@);
    let ghost ws = word_views(words@);
    proof {
        assert forall|i: int| 0 <= i < keys@.len() implies (#[trigger] keys@[i])@ == e0[i].0 by {
            assert(keys@[i]@ == entries@[i].code@);
        }
    }
    let lo = find_slot(keys, &code, Ghost(e0));
    let found = lo < keys.len() && crate::text::chars_eq(keys[lo].as_slice(), code.as_slice());
    if found {
        assert(keys@[lo as int]@ == e0[lo as int].0);
        let mut words = words;
        let ghost old_entries = entries@;
        let mut e = entries.remove(lo);
        assert(entries@.len() == old_entries.len() - 1);
        let ghost old_words = e.words@;
        e.words.append(&mut words);
        entries.insert(lo, e);
        proof {
            let e1 = cin_views(entries@);
            assert(word_views(e.words@) =~= word_views(old_words) + ws);
            assert forall|i: int| 0 <= i < e0.len() && i != lo implies #[trigger] e1[i] == e0[i] by {
                assert(entries@[i] == old_entries[i]);
            }
            lemma_group_append(e0, e1, src, lo as int, code@, ws);
        }
    } else {
        proof {
            lemma_group_insert(e0, src, lo as int, code@, ws);
        }
        let new_entry = CinEntry { code: code_str, words };
        let ghost old_entries = entries@;
        let ghost old_keys = keys@;
        entries.insert(lo, new_entry);
        keys.insert(lo, code);
        proof {
            assert(cin_views(entries@) =~= e0.insert(lo as int, (code@, ws)));
            assert forall|i: int| 0 <= i < keys@.len() implies (#[trigger] keys@[i])@ == entries@[i].code@ by {
                if i < lo {
                    assert(keys@[i] == old_keys[i] && entries@[i] == old_entries[i]);
                } else if i > lo {
                    assert(keys@[i] == old_keys[i - 1] && entries@[i] == old_entries[i - 1]);
                }
            }
        }
    }
}

/// The codes of grouped items.
pub open spec fn group_codes(g: Seq<GroupItem>) -> Seq<Seq<char>> {
    g.map_values(|e: GroupItem| e.0)
}

/// There is one grouping of a list of items: two groupings of the same
/// items are the same.
pub proof fn lemma_grouping_unique(g1: Seq<GroupItem>, g2: Seq<GroupItem>, src: Seq<GroupItem>)
    requires
        is_grouping(g1, src),
        is_grouping(g2, src),
    ensures
        g1 == g2,
{
    reveal(codes_sorted);
    reveal(words_match);
    reveal(codes_from);
    reveal(codes_covered);
    let c1 = group_codes(g1);
    let c2 = group_codes(g2);
    assert forall|i: int, j: int| 0 <= i < j < c1.len() implies lex_lt(#[trigger] c1[i], #[trigger] c1[j]) by {
        assert(lex_lt(g1[i].0, g1[j].0));
    }
    assert forall|i: int, j: int| 0 <= i < j < c2.len() implies lex_lt(#[trigger] c2[i], #[trigger] c2[j]) by {
        assert(lex_lt(g2[i].0, g2[j].0));
    }
    assert forall|x: Seq<char>| c1.to_set().contains(x) implies c2.to_set().contains(x) by {
        let i = choose|i: int| 0 <= i < c1.len() && c1[i] == x;
        assert(code_in(src, g1[i].0));
        let k = choose|k: int| 0 <= k < src.len() && #[trigger] src[k].0 == g1[i].0;
        assert(code_in(g2, src[k].0));
        let m = choose|m: int| 0 <= m < g2.len() && #[trigger] g2[m].0 == src[k].0;
        assert(c2[m] == x);
    }
    assert forall|x: Seq<char>| c2.to_set().contains(x) implies c1.to_set().contains(x) by {
        let i = choose|i: int| 0 <= i < c2.len() && c2[i] == x;
        assert(code_in(src, g2[i].0));
        let k = choose|k: int| 0 <= k < src.len() && #[trigger] src[k].0 == g2[i].0;
        assert(code_in(g1, src[k].0));
        let m = choose|m: int| 0 <= m < g1.len() && #[trigger] g1[m].0 == src[k].0;
        assert(c1[m] == x);
    }
    assert(c1.to_set() =~= c2.to_set());
    lemma_strictly_sorted_unique(c1, c2);
    assert(g1.len() == c1.len() && g2.len() == c2.len());
    assert forall|i: int| 0 <= i < g1.len() implies g1[i] == g2[i] by {
        assert(c1[i] == c2[i]);
        assert(g1[i].1 == words_of(src, g1[i].0));
        assert(g2[i].1 == words_of(src, g2[i].0));
    }
    assert(g1 =~= g2);
}

/// In items with distinct codes, the words of an item's code are its own.
proof fn lemma_words_of_distinct(g: Seq<GroupItem>, i: int)
    requires
        0 <= i < g.len(),
        forall|a: int, b: int| 0 <= a < b < g.len() ==> #[trigger] g[a].0 != #[trigger] g[b].0,
    ensures
        words_of(g, g[i].0) == g[i].1,
    decreases g.len(),
{
    reveal(words_of);
    let h = g.drop_last();
    if i == g.len() - 1 {
        assert forall|k: int| 0 <= k < h.len() implies #[trigger] h[k].0 != g[i].0 by {
            assert(g[k].0 != g[i].0);
        }
        lemma_words_of_absent(h, g[i].0);
        assert(Seq::<WordEntryView>::empty() + g[i].1 =~= g[i].1);
    } else {
        assert forall|a: int, b: int| 0 <= a < b < h.len() implies #[trigger] h[a].0 != #[trigger] h[b].0 by {
            assert(g[a].0 != g[b].0);
        }
        lemma_words_of_distinct(h, i);
        assert(h[i] == g[i]);
        assert(g.last().0 != g[i].0);
    }
}

/// A grouping groups itself.
pub proof fn lemma_grouping_of_itself(g: Seq<GroupItem>, src: Seq<GroupItem>)
    requires
        is_grouping(g, src),
    ensures
        is_grouping(g, g),
{
    reveal(codes_sorted);
    reveal(words_match);
    reveal(codes_from);
    reveal(codes_covered);
    assert forall|a: int, b: int| 0 <= a < b < g.len() implies #[trigger] g[a].0 != #[trigger] g[b].0 by {
        assert(lex_lt(g[a].0, g[b].0));
        if g[a].0 == g[b].0 {
            lemma_lex_irrefl(g[a].0);
        }
    }
    assert forall|i: int| 0 <= i < g.len() implies #[trigger] g[i].1 == words_of(g, g[i].0) by {
        lemma_words_of_distinct(g, i);
    }
    assert forall|i: int| 0 <= i < g.len() implies #[trigger] code_in(g, g[i].0) by {
        assert(g[i].0 == g[i].0);
    }
}

/// Grouping again what is grouped changes nothing: merging merged entries
/// gives them back.
pub proof fn law_grouping_twice(g: Seq<GroupItem>, src: Seq<GroupItem>, again: Seq<GroupItem>)
    requires
        is_grouping(g, src),
        is_grouping(again, g),
    ensures
        again == g,
{
    lemma_grouping_of_itself(g, src);
    lemma_grouping_unique(again, g, g);
}

/// The words of a code that an item with words has are not empty.
proof fn lemma_words_of_nonempty(src: Seq<GroupItem>, k: int)
    requires
        0 <= k < src.len(),
        src[k].1.len() > 0,
    ensures
        words_of(src, src[k].0).len() > 0,
    decreases src.len(),
{
    reveal(words_of);
    if k < src.len() - 1 {
        lemma_words_of_nonempty(src.drop_last(), k);
        assert(src.drop_last()[k] == src[k]);
    }
}

/// Where every item has a word, so has every entry of a grouping of them.
pub proof fn law_grouped_entries_have_words(g: Seq<GroupItem>, src: Seq<GroupItem>)
    requires
        is_grouping(g, src),
        forall|k: int| 0 <= k < src.len() ==> (#[trigger] src[k]).1.len() > 0,
    ensures
        forall|i: int| 0 <= i < g.len() ==> (#[trigger] g[i]).1.len() > 0,
{
    reveal(words_match);
    reveal(codes_from);
    assert forall|i: int| 0 <= i < g.len() implies (#[trigger] g[i]).1.len() > 0 by {
        assert(code_in(src, g[i].0));
        let k = choose|k: int| 0 <= k < src.len() && #[trigger] src[k].0 == g[i].0;
        lemma_words_of_nonempty(src, k);
        assert(g[i].1 == words_of(src, g[i].0));
    }
}

/// The number of words of all items.
pub open spec fn total_words(s: Seq<GroupItem>) -> int
    decreases s.len(),
{
    if s.len() == 0 {
        0
    } else {
        total_words(s.drop_last()) + s.last().1.len()
    }
}

/// The number of words that `src` gives the codes `cs`, together.
spec fn words_for_codes(src: Seq<GroupItem>, cs: Seq<Seq<char>>) -> int
    decreases cs.len(),
{
    if cs.len() == 0 {
        0
    } else {
        words_for_codes(src, cs.drop_last()) + words_of(src, cs.last()).len()
    }
}

/// One more item adds its words once to codes that hold its code once.
proof fn lemma_words_for_codes_push(src: Seq<GroupItem>, x: GroupItem, cs: Seq<Seq<char>>)
    requires
        forall|a: int, b: int| 0 <= a < b < cs.len() ==> #[trigger] cs[a] != #[trigger] cs[b],
    ensures
        words_for_codes(src.push(x), cs) == words_for_codes(src, cs) + if cs.contains(x.0) {
            x.1.len() as int
        } else {
            0int
        },
    decreases cs.len(),
{
    if cs.len() > 0 {
        let h = cs.drop_last();
        assert forall|a: int, b: int| 0 <= a < b < h.len() implies #[trigger] h[a] != #[trigger] h[b] by {
            assert(cs[a] != cs[b]);
        }
        lemma_words_for_codes_push(src, x, h);
        lemma_words_of_push(src, x, cs.last());
        if cs.last() == x.0 {
            assert(!h.contains(x.0)) by {
                if h.contains(x.0) {
                    let a = choose|a: int| 0 <= a < h.len() && h[a] == x.0;
                    assert(cs[a] != cs[cs.len() - 1]);
                }
            }
            assert(cs.contains(x.0)) by {
                assert(cs[cs.len() - 1] == x.0);
            }
        } else {
            assert(h.contains(x.0) == cs.contains(x.0)) by {
                if cs.contains(x.0) {
                    let a = choose|a: int| 0 <= a < cs.len() && cs[a] == x.0;
                    assert(h[a] == x.0);
                }
                if h.contains(x.0) {
                    let a = choose|a: int| 0 <= a < h.len() && h[a] == x.0;
                    assert(cs[a] == x.0);
                }
            }
        }
    }
}

/// Distinct codes that hold every code of `src` get all its words.
proof fn lemma_words_for_codes_total(src: Seq<GroupItem>, cs: Seq<Seq<char>>)
    requires
        forall|a: int, b: int| 0 <= a < b < cs.len() ==> #[trigger] cs[a] != #[trigger] cs[b],
        forall|k: int| 0 <= k < src.len() ==> cs.contains(#[trigger] src[k].0),
    ensures
        words_for_codes(src, cs) == total_words(src),
    decreases src.len(),
{
    if src.len() == 0 {
        lemma_words_for_codes_empty(cs);
        assert(src =~= Seq::<GroupItem>::empty());
    } else {
        let h = src.drop_last();
        assert forall|k: int| 0 <= k < h.len() implies cs.contains(#[trigger] h[k].0) by {
            assert(h[k] == src[k]);
        }
        lemma_words_for_codes_total(h, cs);
        lemma_words_for_codes_push(h, src.last(), cs);
        assert(h.push(src.last()) =~= src);
        assert(cs.contains(src[src.len() - 1].0));
    }
}

/// No items give no words to any codes.
proof fn lemma_words_for_codes_empty(cs: Seq<Seq<char>>)
    ensures
        words_for_codes(Seq::<GroupItem>::empty(), cs) == 0,
    decreases cs.len(),
{
    if cs.len() > 0 {
        lemma_words_for_codes_empty(cs.drop_last());
        lemma_words_of_empty(cs.last());
    }
}

/// The words of entries that each hold the words of their code.
proof fn lemma_total_of_matching(g: Seq<GroupItem>, src: Seq<GroupItem>)
    requires
        forall|i: int| 0 <= i < g.len() ==> #[trigger] g[i].1 == words_of(src, g[i].0),
    ensures
        total_words(g) == words_for_codes(src, group_codes(g)),
    decreases g.len(),
{
    if g.len() > 0 {
        let h = g.drop_last();
        assert forall|i: int| 0 <= i < h.len() implies #[trigger] h[i].1 == words_of(src, h[i].0) by {
            assert(h[i] == g[i]);
        }
        lemma_total_of_matching(h, src);
        assert(group_codes(g).drop_last() =~= group_codes(h));
        assert(g[g.len() - 1].1 == words_of(src, g[g.len() - 1].0));
    }
}

/// Grouping keeps every word: the entries hold as many words as the items.
pub proof fn law_grouping_keeps_word_count(g: Seq<GroupItem>, src: Seq<GroupItem>)
    requires
        is_grouping(g, src),
    ensures
        total_words(g) == total_words(src),
{
    reveal(codes_sorted);
    reveal(words_match);
    reveal(codes_covered);
    let cs = group_codes(g);
    assert forall|a: int, b: int| 0 <= a < b < cs.len() implies #[trigger] cs[a] != #[trigger] cs[b] by {
        assert(lex_lt(g[a].0, g[b].0));
        if g[a].0 == g[b].0 {
            lemma_lex_irrefl(g[a].0);
        }
    }
    assert forall|k: int| 0 <= k < src.len() implies cs.contains(#[trigger] src[k].0) by {
        assert(code_in(g, src[k].0));
        let m = choose|m: int| 0 <= m < g.len() && #[trigger] g[m].0 == src[k].0;
        assert(cs[m] == src[k].0);
    }
    lemma_total_of_matching(g, src);
    lemma_words_for_codes_total(src, cs);
}

} // verus!

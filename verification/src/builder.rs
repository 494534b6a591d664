//! Building dictionaries from entries: filtering, removing repeats and
//! sorting.
use vstd::prelude::*;

use crate::entry::{DictBuilderConfig, DictEntry, DictEntryView, DictSource, dict_views};
use crate::fst_dict::{FstDict, FstDictBuilder, by_code_word, codes_of, keys_increasing, pairs_of};
use crate::types::ImeResult;
use crate::text::{chars_eq, chars_lt, lemma_lex_asym, lemma_lex_irrefl, lemma_lex_total,
    lemma_lex_trans, lex_lt, push_decimal, str_chars, str_to_string, string_push_str};

verus! {

broadcast use vstd::seq_lib::group_seq_properties;

/// Errors of dictionary building.
#[derive(Debug)]
pub enum BuilderError {
    /// A setting is invalid.
    ConfigError(String),
    /// The data is invalid.
    DataError(String),
    /// Building failed.
    BuildError(String),
}

impl BuilderError {
    /// The message the error shows.
    pub open spec fn spec_message(self) -> Seq<char> {
        match self {
            BuilderError::ConfigError(m) => "配置错误: "@ + m@,
            BuilderError::DataError(m) => "数据错误: "@ + m@,
            BuilderError::BuildError(m) => "构建失败: "@ + m@,
        }
    }

    /// The message the error shows (what its `Display` writes).
    pub fn message(&self) -> (r: String)
        ensures
            r@ == self.spec_message(),
    {
        let (p, m) = match self {
            BuilderError::ConfigError(m) => ("配置错误: ", m),
            BuilderError::DataError(m) => ("数据错误: ", m),
            BuilderError::BuildError(m) => ("构建失败: ", m),
        };
        let mut r = str_to_string(p);
        string_push_str(&mut r, m.as_str());
        r
    }
}

/// The entries of `es` of frequency at least `min`, in order.
pub open spec fn frequent(es: Seq<DictEntryView>, min: u32) -> Seq<DictEntryView> {
    es.filter(|e: DictEntryView| e.freq >= min)
}

/// Whether some entry of `es` has the code and word of `e`.
pub open spec fn has_pair(es: Seq<DictEntryView>, e: DictEntryView) -> bool {
    exists|i: int| 0 <= i < es.len() && (#[trigger] es[i]).code == e.code && es[i].word == e.word
}

/// The entries of `es` without repeats: of entries with the same code and
/// word, only the first stays.
pub open spec fn first_of_each(es: Seq<DictEntryView>) -> Seq<DictEntryView>
    decreases es.len(),
{
    if es.len() == 0 {
        seq![]
    } else {
        let d = first_of_each(es.drop_last());
        if has_pair(d, es.last()) {
            d
        } else {
            d.push(es.last())
        }
    }
}

/// Whether `a` sorts strictly before `b`: by code, then higher frequency
/// first.
pub open spec fn entry_before(a: DictEntryView, b: DictEntryView) -> bool {
    lex_lt(a.code, b.code) || (a.code == b.code && a.freq > b.freq)
}

/// Index of the first entry of `s` that sorts strictly after `e` (the
/// length when none does).
pub open spec fn first_after_entry(s: Seq<DictEntryView>, e: DictEntryView) -> int
    decreases s.len(),
{
    if s.len() == 0 {
        0
    } else if entry_before(e, s[0]) {
        0
    } else {
        1 + first_after_entry(s.drop_first(), e)
    }
}

/// The entries sorted by code, then by higher frequency; entries that tie
/// keep their order (a stable sort).
pub open spec fn sorted_entries(es: Seq<DictEntryView>) -> Seq<DictEntryView>
    decreases es.len(),
{
    if es.len() == 0 {
        seq![]
    } else {
        let t = sorted_entries(es.drop_last());
        let p = first_after_entry(t, es.last());
        t.take(p) + seq![es.last()] + t.skip(p)
    }
}

/// No entry sorts strictly before an earlier one.
pub open spec fn entries_in_order(s: Seq<DictEntryView>) -> bool {
    forall|i: int, j: int| 0 <= i < j < s.len() ==> !entry_before(#[trigger] s[j], #[trigger] s[i])
}

/// Builds dictionaries.
pub struct DictBuilder {
    config: DictBuilderConfig,
    entries: Vec<DictEntry>,
}

/// The value of a dictionary builder.
pub struct DictBuilderView {
    /// Whether `sort` sorts.
    pub sort_entries: bool,
    /// Whether `deduplicate` removes repeats.
    pub deduplicate: bool,
    /// The smallest frequency added.
    pub min_freq: u32,
    /// The longest word.
    pub max_word_len: usize,
    /// The entries.
    pub entries: Seq<DictEntryView>,
}

impl View for DictBuilder {
    type V = DictBuilderView;

    closed spec fn view(&self) -> DictBuilderView {
        DictBuilderView {
            sort_entries: self.config.sort_entries,
            deduplicate: self.config.deduplicate,
            min_freq: self.config.min_freq,
            max_word_len: self.config.max_word_len,
            entries: dict_views(self.entries@),
        }
    }
}

impl DictBuilder {
    /// A builder with the default settings and no entries.
    pub fn new() -> (r: Self)
        ensures
            r@ == (DictBuilderView {
                sort_entries: true,
                deduplicate: true,
                min_freq: 0,
                max_word_len: 32,
                entries: seq![],
            }),
    {
        Self::with_config(DictBuilderConfig::default())
    }

    /// A builder with the given settings and no entries.
    pub fn with_config(config: DictBuilderConfig) -> (r: Self)
        ensures
            r@ == (DictBuilderView {
                sort_entries: config.sort_entries,
                deduplicate: config.deduplicate,
                min_freq: config.min_freq,
                max_word_len: config.max_word_len,
                entries: seq![],
            }),
    {
        let r = DictBuilder { config, entries: Vec::new() };
        assert(dict_views(r.entries@) =~= Seq::<DictEntryView>::empty());
        r
    }

    /// Adds the entry when its frequency is at least the smallest kept.
    pub fn add_entry(&mut self, entry: DictEntry)
        ensures
            final(self)@ == (DictBuilderView {
                entries: if entry.freq >= old(self)@.min_freq {
                    old(self)@.entries.push(entry@)
                } else {
                    old(self)@.entries
                },
                ..old(self)@
            }),
    {
        if entry.freq >= self.config.min_freq {
            let ghost e0 = dict_views(self.entries@);
            let ghost ev = entry@;
            self.entries.push(entry);
            assert(dict_views(self.entries@) =~= e0.push(ev));
        }
    }

    /// Adds each entry in turn.
    pub fn add_entries(&mut self, entries: Vec<DictEntry>)
        ensures
            final(self)@ == (DictBuilderView {
                entries: old(self)@.entries + frequent(dict_views(entries@), old(self)@.min_freq),
                ..old(self)@
            }),
    {
        let ghost nv = dict_views(entries@);
        let ghost min = self.config.min_freq;
        let mut entries = entries;
        let mut i: usize = 0;
        assert(frequent(nv.take(0), min) =~= Seq::<DictEntryView>::empty()) by {
            reveal(Seq::filter);
        }
        assert(old(self)@.entries + Seq::<DictEntryView>::empty() == old(self)@.entries);
        assert(nv.skip(0) == nv);
        assert(nv.len() == entries.len());
        while entries.len() > 0
            invariant
                i + entries@.len() == nv.len(),
                nv.len() <= usize::MAX,
                min == self.config.min_freq,
                dict_views(entries@) == nv.skip(i as int),
                self@ == (DictBuilderView {
                    entries: old(self)@.entries + frequent(nv.take(i as int), min),
                    ..old(self)@
                }),
            decreases entries@.len(),
        {
            let ghost rest = entries@;
            let e = entries.remove(0);
            assert(e@ == nv[i as int]) by {
                assert(dict_views(rest)[0] == nv.skip(i as int)[0]);
            }
            assert(dict_views(entries@) =~= nv.skip(i + 1));
            proof {
                assert(nv.take(i + 1) == nv.take(i as int).push(nv[i as int]));
                nv.take(i as int).lemma_filter_push(nv[i as int], |x: DictEntryView| x.freq >= min);
            }
            self.add_entry(e);
            i = i + 1;
        }
        assert(nv.take(nv.len() as int) == nv);
    }

    /// Removes repeats when the settings ask for it: of entries with the
    /// same code and word, only the first stays.
    pub fn deduplicate(&mut self)
        ensures
            final(self)@ == (DictBuilderView {
                entries: if old(self)@.deduplicate {
                    first_of_each(old(self)@.entries)
                } else {
                    old(self)@.entries
                },
                ..old(self)@
            }),
    {
        if !self.config.deduplicate {
            return;
        }
        let kept = first_of_each_vec(&self.entries);
        self.entries = kept;
    }

    /// Sorts the entries when the settings ask for it: by code, then by
    /// higher frequency; entries that tie keep their order.
    pub fn sort(&mut self)
        ensures
            final(self)@ == (DictBuilderView {
                entries: if old(self)@.sort_entries {
                    sorted_entries(old(self)@.entries)
                } else {
                    old(self)@.entries
                },
                ..old(self)@
            }),
            old(self)@.sort_entries ==> entries_in_order(final(self)@.entries),
    {
        if !self.config.sort_entries {
            return;
        }
        let ghost ev = dict_views(self.entries@);
        let mut sorted: Vec<DictEntry> = Vec::new();
        let mut i: usize = 0;
        assert(ev.take(0) =~= Seq::<DictEntryView>::empty());
        while i < self.entries.len()
            invariant
                i <= self.entries@.len(),
                ev == dict_views(self.entries@),
                dict_views(sorted@) == sorted_entries(ev.take(i as int)),
            decreases self.entries@.len() - i,
        {
            assert(ev.take(i + 1).drop_last() == ev.take(i as int));
            assert(ev.take(i + 1).last() == ev[i as int]);
            let p = position_after_entry(&sorted, &self.entries[i]);
            let ghost s0 = dict_views(sorted@);
            sorted.insert(p, self.entries[i].duplicate());
            assert(dict_views(sorted@) =~= s0.take(p as int) + seq![ev[i as int]] + s0.skip(p as int));
            i = i + 1;
        }
        assert(ev.take(ev.len() as int) == ev);
        proof {
            lemma_sorted_entries_in_order(ev);
        }
        self.entries = sorted;
    }

    /// The dictionary of the entries, of the base source. The keys of the
    /// entries sorted by code and word must strictly increase (no code and
    /// word twice).
    pub fn build_fst(self) -> (r: ImeResult<FstDict>)
        requires
            keys_increasing(pairs_of(by_code_word(self@.entries))),
        ensures
            r matches Ok(d) && d@.pairs == pairs_of(by_code_word(self@.entries))
                && d@.entry_count == self@.entries.len() && d@.code_count == codes_of(
                self@.entries,
            ).len() && d@.source == DictSource::Base,
    {
        let mut builder = FstDictBuilder::new();
        builder.add_entries(self.entries);
        Ok(builder.build(DictSource::Base))
    }

    /// The number of entries.
    pub fn entry_count(&self) -> (r: usize)
        ensures
            r == self@.entries.len(),
    {
        self.entries.len()
    }

    /// Removes all entries.
    pub fn clear(&mut self)
        ensures
            final(self)@ == (DictBuilderView { entries: seq![], ..old(self)@ }),
    {
        self.entries.clear();
        assert(dict_views(self.entries@) =~= Seq::<DictEntryView>::empty());
    }

    /// The settings.
    pub fn config(&self) -> (r: &DictBuilderConfig)
        ensures
            r.sort_entries == self@.sort_entries,
            r.deduplicate == self@.deduplicate,
            r.min_freq == self@.min_freq,
            r.max_word_len == self@.max_word_len,
    {
        &self.config
    }

    /// The entries.
    pub fn entries(&self) -> (r: &[DictEntry])
        ensures
            dict_views(r@) == self@.entries,
    {
        self.entries.as_slice()
    }
}

impl Default for DictBuilder {
    fn default() -> (r: Self)
        ensures
            r@ == (DictBuilderView {
                sort_entries: true,
                deduplicate: true,
                min_freq: 0,
                max_word_len: 32,
                entries: seq![],
            }),
    {
        DictBuilder::new()
    }
}

/// The entries without repeats: of entries with the same code and word,
/// only the first stays.
pub fn first_of_each_vec(entries: &Vec<DictEntry>) -> (r: Vec<DictEntry>)
    ensures
        dict_views(r@) == first_of_each(dict_views(entries@)),
{
    let ghost ev = dict_views(entries@);
    let mut kept: Vec<DictEntry> = Vec::new();
    let mut i: usize = 0;
    assert(ev.take(0) =~= Seq::<DictEntryView>::empty());
    while i < entries.len()
        invariant
            i <= entries@.len(),
            ev == dict_views(entries@),
            dict_views(kept@) == first_of_each(ev.take(i as int)),
        decreases entries@.len() - i,
    {
        assert(ev.take(i + 1).drop_last() == ev.take(i as int));
        assert(ev.take(i + 1).last() == ev[i as int]);
        if !has_code_word(&kept, &entries[i]) {
            let ghost k0 = dict_views(kept@);
            let e = entries[i].duplicate();
            kept.push(e);
            assert(dict_views(kept@) =~= k0.push(ev[i as int]));
        }
        i = i + 1;
    }
    assert(ev.take(ev.len() as int) == ev);
    kept
}

/// Whether some entry of `es` has the code and word of `e`.
fn has_code_word(es: &Vec<DictEntry>, e: &DictEntry) -> (r: bool)
    ensures
        r == has_pair(dict_views(es@), e@),
{
    let ghost ev = dict_views(es@);
    let code = str_chars(e.code.as_str());
    let word = str_chars(e.word.as_str());
    let mut i: usize = 0;
    while i < es.len()
        invariant
            i <= es@.len(),
            ev == dict_views(es@),
            code@ == e.code@,
            word@ == e.word@,
            forall|j: int| 0 <= j < i ==> !((#[trigger] ev[j]).code == e@.code && ev[j].word == e@.word),
        decreases es@.len() - i,
    {
        let c = str_chars(es[i].code.as_str());
        let w = str_chars(es[i].word.as_str());
        if chars_eq(c.as_slice(), code.as_slice()) && chars_eq(w.as_slice(), word.as_slice()) {
            assert(ev[i as int].code == e@.code && ev[i as int].word == e@.word);
            return true;
        }
        i = i + 1;
    }
    false
}

/// Whether `a` sorts strictly before `b`.
fn entry_lt(a: &DictEntry, b: &DictEntry) -> (r: bool)
    ensures
        r == entry_before(a@, b@),
{
    let ac = str_chars(a.code.as_str());
    let bc = str_chars(b.code.as_str());
    chars_lt(ac.as_slice(), bc.as_slice()) || (chars_eq(ac.as_slice(), bc.as_slice()) && a.freq
        > b.freq)
}

/// Where `e` goes among sorted entries: after all that do not sort
/// strictly after it.
fn position_after_entry(s: &Vec<DictEntry>, e: &DictEntry) -> (r: usize)
    ensures
        r as int == first_after_entry(dict_views(s@), e@),
        r <= s@.len(),
{
    let ghost sv = dict_views(s@);
    let mut i: usize = 0;
    assert(sv.skip(0) == sv);
    while i < s.len() && !entry_lt(e, &s[i])
        invariant
            i <= s@.len(),
            sv == dict_views(s@),
            first_after_entry(sv, e@) == i + first_after_entry(sv.skip(i as int), e@),
        decreases s@.len() - i,
    {
        assert(sv.skip(i as int).drop_first() == sv.skip(i + 1));
        assert(sv.skip(i as int)[0] == sv[i as int]);
        i = i + 1;
    }
    proof {
        if i < s@.len() {
            assert(sv.skip(i as int)[0] == sv[i as int]);
        }
    }
    i
}

/// `entry_before` is a strict order.
proof fn lemma_entry_before_trans(a: DictEntryView, b: DictEntryView, c: DictEntryView)
    requires
        entry_before(a, b),
        entry_before(b, c),
    ensures
        entry_before(a, c),
{
    if lex_lt(a.code, b.code) && lex_lt(b.code, c.code) {
        lemma_lex_trans(a.code, b.code, c.code);
    }
}

/// Two entries that do not sort strictly after each other in one way sort
/// in the other, or tie.
proof fn lemma_entry_before_total(a: DictEntryView, b: DictEntryView)
    ensures
        entry_before(a, b) || entry_before(b, a) || (a.code == b.code && a.freq == b.freq),
{
    if a.code != b.code {
        lemma_lex_total(a.code, b.code);
    }
}

/// Where `first_after_entry` puts an entry in entries in order.
proof fn lemma_first_after_entry(t: Seq<DictEntryView>, e: DictEntryView)
    requires
        entries_in_order(t),
    ensures
        0 <= first_after_entry(t, e) <= t.len(),
        forall|i: int| 0 <= i < first_after_entry(t, e) ==> !entry_before(e, #[trigger] t[i]),
        forall|i: int| first_after_entry(t, e) <= i < t.len() ==> entry_before(e, #[trigger] t[i]),
    decreases t.len(),
{
    if t.len() > 0 {
        let d = t.drop_first();
        assert(entries_in_order(d)) by {
            assert forall|i: int, j: int| 0 <= i < j < d.len() implies !entry_before(
                #[trigger] d[j],
                #[trigger] d[i],
            ) by {
                assert(d[i] == t[i + 1] && d[j] == t[j + 1]);
            }
        }
        lemma_first_after_entry(d, e);
        if entry_before(e, t[0]) {
            assert forall|i: int| 0 <= i < t.len() implies entry_before(e, #[trigger] t[i]) by {
                if i > 0 {
                    assert(!entry_before(t[i], t[0]));
                    lemma_entry_before_total(t[0], t[i]);
                    if entry_before(t[0], t[i]) {
                        lemma_entry_before_trans(e, t[0], t[i]);
                    }
                }
            }
        } else {
            assert forall|i: int| 0 <= i < first_after_entry(t, e) implies !entry_before(
                e,
                #[trigger] t[i],
            ) by {
                if i > 0 {
                    assert(t[i] == d[i - 1]);
                }
            }
            assert forall|i: int| first_after_entry(t, e) <= i < t.len() implies entry_before(
                e,
                #[trigger] t[i],
            ) by {
                assert(t[i] == d[i - 1]);
            }
        }
    }
}

/// The stable sort puts entries in order and keeps them all.
proof fn lemma_sorted_entries_in_order(es: Seq<DictEntryView>)
    ensures
        entries_in_order(sorted_entries(es)),
        sorted_entries(es).to_multiset() == es.to_multiset(),
        sorted_entries(es).len() == es.len(),
    decreases es.len(),
{
    if es.len() > 0 {
        let t = sorted_entries(es.drop_last());
        let x = es.last();
        lemma_sorted_entries_in_order(es.drop_last());
        lemma_first_after_entry(t, x);
        let p = first_after_entry(t, x);
        let r = t.take(p) + seq![x] + t.skip(p);
        assert(r == sorted_entries(es));
        assert forall|i: int, j: int| 0 <= i < j < r.len() implies !entry_before(
            #[trigger] r[j],
            #[trigger] r[i],
        ) by {
            if j < p {
                assert(r[i] == t[i] && r[j] == t[j]);
            } else if j == p {
                assert(r[i] == t[i]);
            } else if i < p {
                assert(r[i] == t[i] && r[j] == t[j - 1]);
                assert(!entry_before(x, t[i]));
                assert(entry_before(x, t[j - 1]));
                if entry_before(t[j - 1], t[i]) {
                    lemma_entry_before_trans(x, t[j - 1], t[i]);
                }
            } else if i == p {
                assert(r[j] == t[j - 1]);
                assert(entry_before(x, t[j - 1]));
                if entry_before(t[j - 1], x) {
                    lemma_entry_before_trans(x, t[j - 1], x);
                    lemma_lex_irrefl(x.code);
                }
            } else {
                assert(r[i] == t[i - 1] && r[j] == t[j - 1]);
            }
        }
        assert(t == t.take(p) + t.skip(p));
        vstd::seq_lib::lemma_multiset_commutative(t.take(p), t.skip(p));
        vstd::seq_lib::lemma_multiset_commutative(t.take(p), seq![x]);
        vstd::seq_lib::lemma_multiset_commutative(t.take(p) + seq![x], t.skip(p));
        vstd::seq_lib::lemma_multiset_commutative(es.drop_last(), seq![x]);
        assert(es == es.drop_last() + seq![x]);
    }
}

/// Sorting keeps the entries: the sorted entries are a rearrangement of
/// the given ones, none lost and none added.
pub proof fn law_sort_is_permutation(es: Seq<DictEntryView>)
    ensures
        sorted_entries(es).to_multiset() == es.to_multiset(),
        sorted_entries(es).len() == es.len(),
{
    lemma_sorted_entries_in_order(es);
}

/// No two entries of `es` have the same code and word.
pub open spec fn pairs_unique(es: Seq<DictEntryView>) -> bool {
    forall|i: int, j: int|
        0 <= i < j < es.len() ==> !((#[trigger] es[i]).code == (#[trigger] es[j]).code && es[i].word
            == es[j].word)
}

/// What removing repeats leaves has none.
proof fn lemma_first_of_each_unique(es: Seq<DictEntryView>)
    ensures
        pairs_unique(first_of_each(es)),
    decreases es.len(),
{
    if es.len() > 0 {
        let d = first_of_each(es.drop_last());
        lemma_first_of_each_unique(es.drop_last());
        if !has_pair(d, es.last()) {
            let r = d.push(es.last());
            assert forall|i: int, j: int| 0 <= i < j < r.len() implies !((#[trigger] r[i]).code == (
            #[trigger] r[j]).code && r[i].word == r[j].word) by {
                if j == d.len() {
                    assert(r[i] == d[i]);
                    if r[i].code == r[j].code && r[i].word == r[j].word {
                        assert(has_pair(d, es.last()));
                    }
                } else {
                    assert(r[i] == d[i] && r[j] == d[j]);
                }
            }
        }
    }
}

/// Removing repeats from entries that have none changes nothing.
proof fn lemma_first_of_each_of_unique(es: Seq<DictEntryView>)
    requires
        pairs_unique(es),
    ensures
        first_of_each(es) == es,
    decreases es.len(),
{
    if es.len() > 0 {
        let h = es.drop_last();
        assert forall|i: int, j: int| 0 <= i < j < h.len() implies !((#[trigger] h[i]).code == (
        #[trigger] h[j]).code && h[i].word == h[j].word) by {
            assert(h[i] == es[i] && h[j] == es[j]);
        }
        lemma_first_of_each_of_unique(h);
        if has_pair(h, es.last()) {
            let k = choose|k: int| 0 <= k < h.len() && (#[trigger] h[k]).code == es.last().code
                && h[k].word == es.last().word;
            assert(h[k] == es[k]);
            assert(es[es.len() - 1] == es.last());
        }
        assert(es =~= h.push(es.last()));
    } else {
        assert(first_of_each(es) =~= es);
    }
}

/// Removing repeats twice is removing them once.
pub proof fn law_dedup_twice(es: Seq<DictEntryView>)
    ensures
        first_of_each(first_of_each(es)) == first_of_each(es),
{
    lemma_first_of_each_unique(es);
    lemma_first_of_each_of_unique(first_of_each(es));
}

/// Validation finds nothing exactly when every entry has a code and a word.
pub proof fn law_valid_iff_no_errors(es: Seq<DictEntryView>)
    ensures
        invalid_entries(es).len() == 0 <==> forall|i: int|
            0 <= i < es.len() ==> (#[trigger] es[i]).code.len() > 0 && es[i].word.len() > 0,
    decreases es.len(),
{
    if es.len() > 0 {
        let h = es.drop_last();
        law_valid_iff_no_errors(h);
        if forall|i: int| 0 <= i < es.len() ==> (#[trigger] es[i]).code.len() > 0 && es[i].word.len() > 0 {
            assert forall|i: int| 0 <= i < h.len() implies (#[trigger] h[i]).code.len() > 0
                && h[i].word.len() > 0 by {
                assert(h[i] == es[i]);
            }
            assert(es[es.len() - 1] == es.last());
        } else {
            let k = choose|k: int| 0 <= k < es.len() && !((#[trigger] es[k]).code.len() > 0 && es[k].word.len() > 0);
            if k < h.len() {
                assert(h[k] == es[k]);
            } else {
                assert(es[k] == es.last());
            }
        }
    }
}

/// Checks of dictionary entries.
pub struct DictValidator;

/// The message for an invalid entry.
pub open spec fn invalid_entry_message(e: DictEntryView) -> Seq<char> {
    "无效词条: code="@ + e.code + ", word="@ + e.word
}

/// The invalid entries of `es` from index `k` on, with their indexes.
pub open spec fn invalid_entries(es: Seq<DictEntryView>) -> Seq<(int, Seq<char>)>
    decreases es.len(),
{
    if es.len() == 0 {
        seq![]
    } else {
        let prev = invalid_entries(es.drop_last());
        let e = es.last();
        if e.code.len() > 0 && e.word.len() > 0 {
            prev
        } else {
            prev.push((es.len() - 1, invalid_entry_message(e)))
        }
    }
}

impl DictValidator {
    /// Whether the entry has a code and a word.
    pub fn validate_entry(entry: &DictEntry) -> (r: bool)
        ensures
            r == (entry@.code.len() > 0 && entry@.word.len() > 0),
    {
        str_chars(entry.code.as_str()).len() > 0 && str_chars(entry.word.as_str()).len() > 0
    }

    /// The invalid entries, by index, with a message naming their code and
    /// word.
    pub fn validate_entries(entries: &[DictEntry]) -> (r: Vec<(usize, String)>)
        ensures
            r@.map_values(|x: (usize, String)| (x.0 as int, x.1@)) == invalid_entries(
                dict_views(entries@),
            ),
    {
        let ghost ev = dict_views(entries@);
        let mut errors: Vec<(usize, String)> = Vec::new();
        let mut i: usize = 0;
        assert(ev.take(0) =~= Seq::<DictEntryView>::empty());
        while i < entries.len()
            invariant
                i <= entries@.len(),
                ev == dict_views(entries@),
                errors@.map_values(|x: (usize, String)| (x.0 as int, x.1@)) == invalid_entries(
                    ev.take(i as int),
                ),
            decreases entries@.len() - i,
        {
            assert(ev.take(i + 1).drop_last() == ev.take(i as int));
            assert(ev.take(i + 1).last() == ev[i as int]);
            if !Self::validate_entry(&entries[i]) {
                let mut m = str_to_string("无效词条: code=");
                string_push_str(&mut m, entries[i].code.as_str());
                string_push_str(&mut m, ", word=");
                string_push_str(&mut m, entries[i].word.as_str());
                let ghost e0 = errors@;
                errors.push((i, m));
                assert(errors@.map_values(|x: (usize, String)| (x.0 as int, x.1@)) =~= e0.map_values(
                    |x: (usize, String)| (x.0 as int, x.1@),
                ).push((i as int, invalid_entry_message(ev[i as int]))));
            }
            i = i + 1;
        }
        assert(ev.take(ev.len() as int) == ev);
        errors
    }
}

/// Conversion of dictionary files.
pub struct DictConverter;

} // verus!

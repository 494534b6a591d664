//! Tables of n-gram counts: how often a word follows a context.
use vstd::prelude::*;

use crate::text::{chars_eq, str_chars};
use crate::types::string_views;

verus! {

broadcast use vstd::seq_lib::group_seq_properties;

/// A counted n-gram: context, word and count.
pub type NgramView = (Seq<Seq<char>>, Seq<char>, u64);

/// What an n-gram count holds.
pub open spec fn ngram_view(e: ((Vec<String>, String), u64)) -> NgramView {
    (string_views(e.0.0@), e.0.1@, e.1)
}

/// What a list of n-gram counts holds.
pub open spec fn ngram_views(v: Seq<((Vec<String>, String), u64)>) -> Seq<NgramView> {
    v.map_values(|e: ((Vec<String>, String), u64)| ngram_view(e))
}

/// Index of the count of `word` after `ctx`.
pub open spec fn ngram_index(cs: Seq<NgramView>, ctx: Seq<Seq<char>>, word: Seq<char>) -> Option<int>
    decreases cs.len(),
{
    if cs.len() == 0 {
        None
    } else {
        match ngram_index(cs.drop_last(), ctx, word) {
            Some(i) => Some(i),
            None => if cs.last().0 == ctx && cs.last().1 == word {
                Some(cs.len() - 1)
            } else {
                None
            },
        }
    }
}

/// The count of `word` after `ctx` (0 when it was never counted).
pub open spec fn count_in(cs: Seq<NgramView>, ctx: Seq<Seq<char>>, word: Seq<char>) -> int {
    match ngram_index(cs, ctx, word) {
        Some(i) => cs[i].2 as int,
        None => 0,
    }
}

/// The counts after adding `n` to the count of `word` after `ctx`: its
/// count grows, or it is added, last.
pub open spec fn add_to(cs: Seq<NgramView>, ctx: Seq<Seq<char>>, word: Seq<char>, n: u64) -> Seq<
    NgramView,
> {
    match ngram_index(cs, ctx, word) {
        Some(i) => cs.update(i, (ctx, word, (cs[i].2 + n) as u64)),
        None => cs.push((ctx, word, n)),
    }
}

/// Each context and word is counted once.
pub open spec fn ngrams_distinct(cs: Seq<NgramView>) -> bool {
    forall|i: int, j: int|
        0 <= i < j < cs.len() ==> (#[trigger] cs[i]).0 != (#[trigger] cs[j]).0 || cs[i].1 != cs[j].1
}

/// The sum of all counts.
pub open spec fn total(cs: Seq<NgramView>) -> int
    decreases cs.len(),
{
    if cs.len() == 0 {
        0
    } else {
        total(cs.drop_last()) + cs.last().2
    }
}

/// The sum of the counts after context `ctx`.
pub open spec fn context_total(cs: Seq<NgramView>, ctx: Seq<Seq<char>>) -> int
    decreases cs.len(),
{
    if cs.len() == 0 {
        0
    } else {
        context_total(cs.drop_last(), ctx) + if cs.last().0 == ctx {
            cs.last().2 as int
        } else {
            0
        }
    }
}

/// The words counted.
pub open spec fn vocabulary(cs: Seq<NgramView>) -> Set<Seq<char>> {
    cs.map_values(|e: NgramView| e.1).to_set()
}

/// The n-grams of one sentence: each run of `order` words, as the first
/// `order - 1` words and the last.
pub open spec fn sentence_ngrams(s: Seq<Seq<char>>, order: int) -> Seq<(Seq<Seq<char>>, Seq<char>)> {
    if s.len() < order {
        seq![]
    } else {
        Seq::new(
            (s.len() - order + 1) as nat,
            |i: int| (s.subrange(i, i + order - 1), s[i + order - 1]),
        )
    }
}

/// The n-grams of the sentences, in order.
pub open spec fn all_ngrams(ss: Seq<Seq<Seq<char>>>, order: int) -> Seq<(Seq<Seq<char>>, Seq<char>)>
    decreases ss.len(),
{
    if ss.len() == 0 {
        seq![]
    } else {
        all_ngrams(ss.drop_last(), order) + sentence_ngrams(ss.last(), order)
    }
}

/// The counts after counting each of `keys` once more, in order.
pub open spec fn add_each(cs: Seq<NgramView>, keys: Seq<(Seq<Seq<char>>, Seq<char>)>) -> Seq<NgramView>
    decreases keys.len(),
{
    if keys.len() == 0 {
        cs
    } else {
        add_each(add_to(cs, keys[0].0, keys[0].1, 1), keys.drop_first())
    }
}

/// Counting each of `keys` once more never goes past `u64::MAX`.
pub open spec fn add_each_fits(cs: Seq<NgramView>, keys: Seq<(Seq<Seq<char>>, Seq<char>)>) -> bool
    decreases keys.len(),
{
    keys.len() == 0 || (count_in(cs, keys[0].0, keys[0].1) < u64::MAX && add_each_fits(
        add_to(cs, keys[0].0, keys[0].1, 1),
        keys.drop_first(),
    ))
}

/// The value of an n-gram table.
pub struct NgramTableView {
    /// Its order.
    pub order: usize,
    /// Its counts.
    pub counts: Seq<NgramView>,
    /// The sum of its counts.
    pub entry_count: usize,
    /// The number of words counted.
    pub vocab_size: usize,
}

/// A table of n-gram counts.
pub struct NgramTable {
    order: usize,
    counts: Vec<((Vec<String>, String), u64)>,
    entry_count: usize,
    vocab_size: usize,
}

impl View for NgramTable {
    type V = NgramTableView;

    closed spec fn view(&self) -> NgramTableView {
        NgramTableView {
            order: self.order,
            counts: ngram_views(self.counts@),
            entry_count: self.entry_count,
            vocab_size: self.vocab_size,
        }
    }
}

impl NgramTable {
    #[verifier::type_invariant]
    spec fn well_formed(&self) -> bool {
        &&& ngrams_distinct(ngram_views(self.counts@))
        &&& total(ngram_views(self.counts@)) <= u64::MAX
        &&& self.entry_count == total(ngram_views(self.counts@)) as usize
        &&& self.vocab_size == vocabulary(ngram_views(self.counts@)).len()
    }

    /// An empty table of order `order`.
    pub fn new(order: usize) -> (r: Self)
        ensures
            r@.order == order,
            r@.counts.len() == 0,
            r@.entry_count == 0,
            r@.vocab_size == 0,
    {
        let counts: Vec<((Vec<String>, String), u64)> = Vec::new();
        assert(ngram_views(counts@) =~= Seq::<NgramView>::empty());
        assert(vocabulary(Seq::<NgramView>::empty()) =~= Set::<Seq<char>>::empty());
        NgramTable { order, counts, entry_count: 0, vocab_size: 0 }
    }

    /// A table of the given counts (each context and word once): the entry
    /// count is the sum of the counts, the vocabulary size the number of
    /// distinct words.
    pub fn from_counts(order: usize, counts: Vec<((Vec<String>, String), u64)>) -> (r: Self)
        requires
            ngrams_distinct(ngram_views(counts@)),
            total(ngram_views(counts@)) <= u64::MAX,
        ensures
            r@.order == order,
            r@.counts == ngram_views(counts@),
            r@.entry_count == total(ngram_views(counts@)) as usize,
            r@.vocab_size == vocabulary(ngram_views(counts@)).len(),
    {
        let ghost cv = ngram_views(counts@);
        let mut sum: u64 = 0;
        let mut words: Vec<String> = Vec::new();
        let mut i: usize = 0;
        assert(cv.take(0) =~= Seq::<NgramView>::empty());
        assert(string_views(words@).to_set() =~= vocabulary(cv.take(0)));
        while i < counts.len()
            invariant
                i <= counts@.len(),
                cv == ngram_views(counts@),
                total(cv) <= u64::MAX,
                sum == total(cv.take(i as int)),
                string_views(words@).no_duplicates(),
                string_views(words@).to_set() == vocabulary(cv.take(i as int)),
            decreases counts@.len() - i,
        {
            assert(cv.take(i + 1).drop_last() == cv.take(i as int));
            assert(cv.take(i + 1).last() == cv[i as int]);
            proof {
                lemma_total_prefix(cv, i + 1);
            }
            sum = sum + counts[i].1;
            let w = &counts[i].0.1;
            let ghost wv0 = string_views(words@);
            assert(cv.take(i + 1).map_values(|e: NgramView| e.1) =~= cv.take(i as int).map_values(
                |e: NgramView| e.1,
            ).push(w@));
            proof {
                lemma_push_to_set(cv.take(i as int).map_values(|e: NgramView| e.1), w@);
            }
            if !contains_string(&words, w) {
                words.push(w.clone());
                assert(string_views(words@) =~= wv0.push(w@));
                proof {
                    lemma_push_to_set(wv0, w@);
                    assert forall|a: int, b: int|
                        0 <= a < string_views(words@).len() && 0 <= b < string_views(words@).len()
                            && a != b implies string_views(words@)[a] != string_views(words@)[b] by {
                        if a < wv0.len() && b < wv0.len() {
                        } else if a == wv0.len() {
                            assert(wv0.contains(wv0[b]));
                        } else {
                            assert(wv0.contains(wv0[a]));
                        }
                    }
                }
            } else {
                assert(wv0.to_set().insert(w@) =~= wv0.to_set());
            }
            i = i + 1;
        }
        assert(cv.take(cv.len() as int) == cv);
        proof {
            string_views(words@).unique_seq_to_set();
        }
        NgramTable { order, counts, entry_count: sum as usize, vocab_size: words.len() }
    }

    /// The count of `word` after `context`.
    pub fn count(&self, context: &[&str], word: &str) -> (r: u64)
        ensures
            r == count_in(self@.counts, crate::pinyin::str_views(context@), word@),
    {
        match find_ngram_strs(&self.counts, context, word) {
            Some(i) => self.counts[i].1,
            None => 0,
        }
    }

    /// The sum of the counts after `context`.
    pub fn context_count(&self, context: &[&str]) -> (r: u64)
        ensures
            r == context_total(self@.counts, crate::pinyin::str_views(context@)),
    {
        proof {
            use_type_invariant(self);
        }
        let ghost cv = ngram_views(self.counts@);
        let ghost ctx = crate::pinyin::str_views(context@);
        let mut sum: u64 = 0;
        let mut i: usize = 0;
        assert(cv.take(0) =~= Seq::<NgramView>::empty());
        while i < self.counts.len()
            invariant
                i <= self.counts@.len(),
                cv == ngram_views(self.counts@),
                ctx == crate::pinyin::str_views(context@),
                total(cv) <= u64::MAX,
                sum == context_total(cv.take(i as int), ctx),
            decreases self.counts@.len() - i,
        {
            assert(cv.take(i + 1).drop_last() == cv.take(i as int));
            assert(cv.take(i + 1).last() == cv[i as int]);
            proof {
                lemma_context_total_le(cv.take(i + 1), ctx);
                lemma_total_prefix(cv, i + 1);
            }
            if strings_eq_strs(&self.counts[i].0.0, context) {
                sum = sum + self.counts[i].1;
            }
            i = i + 1;
        }
        assert(cv.take(cv.len() as int) == cv);
        sum
    }

    /// The order.
    pub fn order(&self) -> (r: usize)
        ensures
            r == self@.order,
    {
        self.order
    }

    /// The sum of the counts.
    pub fn entry_count(&self) -> (r: usize)
        ensures
            r == self@.entry_count,
    {
        self.entry_count
    }

    /// The number of distinct words counted.
    pub fn vocab_size(&self) -> (r: usize)
        ensures
            r == self@.vocab_size,
    {
        self.vocab_size
    }

    /// Whether the sum of the counts is zero.
    pub fn is_empty(&self) -> (r: bool)
        ensures
            r == (self@.entry_count == 0),
    {
        self.entry_count == 0
    }

    /// The number of distinct contexts and words counted.
    pub fn ngram_count(&self) -> (r: usize)
        ensures
            r == self@.counts.len(),
    {
        self.counts.len()
    }

}

/// The set of a sequence with one more element.
pub proof fn lemma_push_to_set<A>(s: Seq<A>, x: A)
    ensures
        s.push(x).to_set() == s.to_set().insert(x),
{
    assert forall|y: A| s.push(x).to_set().contains(y) implies s.to_set().insert(x).contains(y) by {
        let k = choose|k: int| 0 <= k < s.push(x).len() && s.push(x)[k] == y;
        if k < s.len() {
            assert(s[k] == y);
        }
    }
    assert forall|y: A| s.to_set().insert(x).contains(y) implies s.push(x).to_set().contains(y) by {
        if y == x {
            assert(s.push(x)[s.len() as int] == y);
        } else {
            let k = choose|k: int| 0 <= k < s.len() && s[k] == y;
            assert(s.push(x)[k] == y);
        }
    }
    assert(s.push(x).to_set() =~= s.to_set().insert(x));
}

/// The sum of a prefix is at most the sum of the whole.
proof fn lemma_total_prefix(cs: Seq<NgramView>, n: int)
    requires
        0 <= n <= cs.len(),
    ensures
        total(cs.take(n)) <= total(cs),
    decreases cs.len() - n,
{
    if n < cs.len() {
        assert(cs.take(n + 1).drop_last() == cs.take(n));
        lemma_total_prefix(cs, n + 1);
    } else {
        assert(cs.take(n) == cs);
    }
}

/// The counts after one context sum to at most all counts.
proof fn lemma_context_total_le(cs: Seq<NgramView>, ctx: Seq<Seq<char>>)
    ensures
        0 <= context_total(cs, ctx) <= total(cs),
    decreases cs.len(),
{
    if cs.len() > 0 {
        lemma_context_total_le(cs.drop_last(), ctx);
    }
}

/// Whether `v` holds a string equal to `w`.
fn contains_string(v: &Vec<String>, w: &String) -> (r: bool)
    ensures
        r == string_views(v@).contains(w@),
{
    let wc = str_chars(w.as_str());
    let mut i: usize = 0;
    while i < v.len()
        invariant
            i <= v@.len(),
            wc@ == w@,
            forall|j: int| 0 <= j < i ==> (#[trigger] v@[j])@ != w@,
        decreases v@.len() - i,
    {
        let c = str_chars(v[i].as_str());
        if chars_eq(c.as_slice(), wc.as_slice()) {
            assert(string_views(v@)[i as int] == w@);
            return true;
        }
        i = i + 1;
    }
    proof {
        if string_views(v@).contains(w@) {
            let j = choose|j: int| 0 <= j < v@.len() && string_views(v@)[j] == w@;
            assert(v@[j]@ != w@);
        }
    }
    false
}

/// Whether two lists of strings hold the same texts.
fn strings_eq(a: &Vec<String>, b: &Vec<String>) -> (r: bool)
    ensures
        r == (string_views(a@) == string_views(b@)),
{
    if a.len() != b.len() {
        assert(string_views(a@).len() != string_views(b@).len());
        return false;
    }
    let mut i: usize = 0;
    while i < a.len()
        invariant
            i <= a@.len(),
            a@.len() == b@.len(),
            forall|j: int| 0 <= j < i ==> (#[trigger] a@[j])@ == b@[j]@,
        decreases a@.len() - i,
    {
        let x = str_chars(a[i].as_str());
        let y = str_chars(b[i].as_str());
        if !chars_eq(x.as_slice(), y.as_slice()) {
            assert(string_views(a@)[i as int] != string_views(b@)[i as int]);
            return false;
        }
        i = i + 1;
    }
    assert(string_views(a@) =~= string_views(b@));
    true
}

/// Whether a list of strings holds the texts of a list of string slices.
fn strings_eq_strs(a: &Vec<String>, b: &[&str]) -> (r: bool)
    ensures
        r == (string_views(a@) == crate::pinyin::str_views(b@)),
{
    if a.len() != b.len() {
        assert(string_views(a@).len() != crate::pinyin::str_views(b@).len());
        return false;
    }
    let mut i: usize = 0;
    while i < a.len()
        invariant
            i <= a@.len(),
            a@.len() == b@.len(),
            forall|j: int| 0 <= j < i ==> (#[trigger] a@[j])@ == b@[j]@,
        decreases a@.len() - i,
    {
        let x = str_chars(a[i].as_str());
        let y = str_chars(b[i]);
        if !chars_eq(x.as_slice(), y.as_slice()) {
            assert(string_views(a@)[i as int] != crate::pinyin::str_views(b@)[i as int]);
            return false;
        }
        i = i + 1;
    }
    assert(string_views(a@) =~= crate::pinyin::str_views(b@));
    true
}

/// Index of the count of `word` after `ctx`.
fn find_ngram(cs: &Vec<((Vec<String>, String), u64)>, ctx: &Vec<String>, word: &String) -> (r: Option<
    usize,
>)
    ensures
        match r {
            Some(i) => ngram_index(ngram_views(cs@), string_views(ctx@), word@) == Some(i as int)
                && i < cs@.len(),
            None => ngram_index(ngram_views(cs@), string_views(ctx@), word@) is None,
        },
{
    let ghost cv = ngram_views(cs@);
    let wc = str_chars(word.as_str());
    let mut i: usize = 0;
    assert(cv.take(0) =~= Seq::<NgramView>::empty());
    while i < cs.len()
        invariant
            i <= cs@.len(),
            cv == ngram_views(cs@),
            wc@ == word@,
            ngram_index(cv.take(i as int), string_views(ctx@), word@) is None,
        decreases cs@.len() - i,
    {
        assert(cv.take(i + 1).drop_last() == cv.take(i as int));
        assert(cv.take(i + 1).last() == cv[i as int]);
        let c = str_chars(cs[i].0.1.as_str());
        if chars_eq(c.as_slice(), wc.as_slice()) && strings_eq(&cs[i].0.0, ctx) {
            proof {
                lemma_ngram_index_prefix(cv, i + 1, string_views(ctx@), word@);
            }
            return Some(i);
        }
        i = i + 1;
    }
    assert(cv.take(cv.len() as int) == cv);
    None
}

/// Index of the count of `word` after the context `ctx`, given as slices.
fn find_ngram_strs(cs: &Vec<((Vec<String>, String), u64)>, ctx: &[&str], word: &str) -> (r: Option<
    usize,
>)
    ensures
        match r {
            Some(i) => ngram_index(ngram_views(cs@), crate::pinyin::str_views(ctx@), word@) == Some(
                i as int,
            ) && i < cs@.len(),
            None => ngram_index(ngram_views(cs@), crate::pinyin::str_views(ctx@), word@) is None,
        },
{
    let ghost cv = ngram_views(cs@);
    let ghost cx = crate::pinyin::str_views(ctx@);
    let wc = str_chars(word);
    let mut i: usize = 0;
    assert(cv.take(0) =~= Seq::<NgramView>::empty());
    while i < cs.len()
        invariant
            i <= cs@.len(),
            cv == ngram_views(cs@),
            cx == crate::pinyin::str_views(ctx@),
            wc@ == word@,
            ngram_index(cv.take(i as int), cx, word@) is None,
        decreases cs@.len() - i,
    {
        assert(cv.take(i + 1).drop_last() == cv.take(i as int));
        assert(cv.take(i + 1).last() == cv[i as int]);
        let c = str_chars(cs[i].0.1.as_str());
        if chars_eq(c.as_slice(), wc.as_slice()) && strings_eq_strs(&cs[i].0.0, ctx) {
            proof {
                lemma_ngram_index_prefix(cv, i + 1, cx, word@);
            }
            return Some(i);
        }
        i = i + 1;
    }
    assert(cv.take(cv.len() as int) == cv);
    None
}

/// A count found among the first entries is found there among all.
proof fn lemma_ngram_index_prefix(cs: Seq<NgramView>, n: int, ctx: Seq<Seq<char>>, word: Seq<char>)
    requires
        0 <= n <= cs.len(),
        ngram_index(cs.take(n), ctx, word) is Some,
    ensures
        ngram_index(cs, ctx, word) == ngram_index(cs.take(n), ctx, word),
    decreases cs.len() - n,
{
    if n < cs.len() {
        assert(cs.take(n + 1).drop_last() == cs.take(n));
        lemma_ngram_index_prefix(cs, n + 1, ctx, word);
    } else {
        assert(cs.take(n) == cs);
    }
}

/// The value of a table builder.
pub struct NgramTableBuilderView {
    /// The order of the n-grams.
    pub order: usize,
    /// The counts so far.
    pub counts: Seq<NgramView>,
    /// The smallest count kept by `build`.
    pub min_count: u64,
}

/// Builds n-gram tables.
pub struct NgramTableBuilder {
    order: usize,
    counts: Vec<((Vec<String>, String), u64)>,
    min_count: u64,
}

impl View for NgramTableBuilder {
    type V = NgramTableBuilderView;

    closed spec fn view(&self) -> NgramTableBuilderView {
        NgramTableBuilderView {
            order: self.order,
            counts: ngram_views(self.counts@),
            min_count: self.min_count,
        }
    }
}

/// The counts of at least `min`.
pub open spec fn at_least(cs: Seq<NgramView>, min: u64) -> Seq<NgramView> {
    cs.filter(|e: NgramView| e.2 >= min)
}

impl NgramTableBuilder {
    #[verifier::type_invariant]
    spec fn counted_once(&self) -> bool {
        ngrams_distinct(ngram_views(self.counts@))
    }

    /// A builder of order `order` with no counts, keeping counts of at least 1.
    pub fn new(order: usize) -> (r: Self)
        ensures
            r@ == (NgramTableBuilderView { order, counts: seq![], min_count: 1 }),
    {
        let counts: Vec<((Vec<String>, String), u64)> = Vec::new();
        assert(ngram_views(counts@) =~= Seq::<NgramView>::empty());
        NgramTableBuilder { order, counts, min_count: 1 }
    }

    /// Sets the smallest count kept.
    pub fn with_min_count(self, min_count: u64) -> (r: Self)
        ensures
            r@ == (NgramTableBuilderView { min_count, ..self@ }),
    {
        proof {
            use_type_invariant(&self);
        }
        NgramTableBuilder { order: self.order, counts: self.counts, min_count }
    }

    /// Adds `count` to the count of `word` after `context`.
    pub fn add_count(&mut self, context: Vec<String>, word: String, count: u64)
        requires
            count_in(old(self)@.counts, string_views(context@), word@) + count <= u64::MAX,
        ensures
            final(self)@ == (NgramTableBuilderView {
                counts: add_to(old(self)@.counts, string_views(context@), word@, count),
                ..old(self)@
            }),
    {
        proof {
            use_type_invariant(&*self);
        }
        let mut counts: Vec<((Vec<String>, String), u64)> = Vec::new();
        std::mem::swap(&mut counts, &mut self.counts);
        add_to_counts(&mut counts, context, word, count);
        self.counts = counts;
    }

    /// Counts every n-gram of the sentences: in each sentence of at least
    /// `order` words, each run of `order` words counts once for its last
    /// word after the words before it.
    pub fn from_sentences(&mut self, sentences: &[Vec<String>])
        requires
            old(self)@.order >= 1 || sentences@.len() == 0,
            add_each_fits(old(self)@.counts, all_ngrams(sentence_views(sentences@), old(self)@.order as int)),
        ensures
            final(self)@ == (NgramTableBuilderView {
                counts: add_each(old(self)@.counts, all_ngrams(sentence_views(sentences@), old(self)@.order as int)),
                ..old(self)@
            }),
    {
        proof {
            use_type_invariant(&*self);
        }
        let ghost ss = sentence_views(sentences@);
        let ghost ord = self.order as int;
        let ghost c0 = ngram_views(self.counts@);
        let ghost all = all_ngrams(ss, ord);
        let order = self.order;
        let mut counts: Vec<((Vec<String>, String), u64)> = Vec::new();
        std::mem::swap(&mut counts, &mut self.counts);
        let mut si: usize = 0;
        assert(ss.take(0) =~= Seq::<Seq<Seq<char>>>::empty());
        assert(add_each(c0, Seq::<(Seq<Seq<char>>, Seq<char>)>::empty()) == c0);
        while si < sentences.len()
            invariant
                si <= sentences@.len(),
                ss == sentence_views(sentences@),
                ord == order as int,
                order >= 1 || sentences@.len() == 0,
                all == all_ngrams(ss, ord),
                add_each_fits(c0, all),
                ngram_views(counts@) == add_each(c0, all_ngrams(ss.take(si as int), ord)),
                ngrams_distinct(ngram_views(counts@)),
            decreases sentences@.len() - si,
        {
            let sent = &sentences[si];
            let ghost sv = ss[si as int];
            let ghost pre = all_ngrams(ss.take(si as int), ord);
            assert(sv == string_views(sent@));
            assert(ss.take(si + 1).drop_last() == ss.take(si as int));
            assert(all_ngrams(ss.take(si + 1), ord) == pre + sentence_ngrams(sv, ord));
            proof {
                lemma_all_ngrams_split(ss, si + 1, ord);
            }
            if sent.len() >= order {
                let n = sent.len() - order;
                let mut i: usize = 0;
                assert(sentence_ngrams(sv, ord).take(0) =~= Seq::<(Seq<Seq<char>>, Seq<char>)>::empty());
                assert(pre + sentence_ngrams(sv, ord).take(0) == pre);
                while i <= n
                    invariant
                        i <= n + 1,
                        n + order == sent@.len(),
                        order >= 1,
                        sv == string_views(sent@),
                        ord == order as int,
                        all == all_ngrams(ss, ord),
                        add_each_fits(c0, all),
                        all == pre + sentence_ngrams(sv, ord) + all_ngrams(ss.skip(si + 1), ord),
                        ngram_views(counts@) == add_each(c0, pre + sentence_ngrams(sv, ord).take(i as int)),
                        ngrams_distinct(ngram_views(counts@)),
                    decreases n + 1 - i,
                {
                    let ghost sn = sentence_ngrams(sv, ord);
                    let ghost done = pre + sn.take(i as int);
                    let ghost key = sn[i as int];
                    let mut context: Vec<String> = Vec::new();
                    let len = sent.len();
                    assert(i + (order - 1) < len);
                    let end: usize = i + (order - 1);
                    let mut j: usize = i;
                    while j < end
                        invariant
                            end == i + order - 1,
                            i <= j <= i + order - 1,
                            i + order - 1 < sent@.len(),
                            string_views(context@) == sv.subrange(i as int, j as int),
                            sv == string_views(sent@),
                        decreases end - j,
                    {
                        let ghost c = string_views(context@);
                        context.push(sent[j].clone());
                        assert(string_views(context@) =~= c.push(sv[j as int]));
                        assert(sv.subrange(i as int, j + 1) == sv.subrange(i as int, j as int).push(sv[j as int]));
                        j = j + 1;
                    }
                    let word = sent[end].clone();
                    assert(key == (string_views(context@), word@));
                    proof {
                        assert(sn.take(i + 1) == sn.take(i as int).push(key));
                        assert(pre + sn.take(i + 1) == done.push(key));
                        assert(all == done + (seq![key] + (sn.skip(i + 1) + all_ngrams(ss.skip(si + 1), ord)))) by {
                            assert(sn == sn.take(i as int) + seq![key] + sn.skip(i + 1));
                        }
                        lemma_add_each_append(c0, done, seq![key] + (sn.skip(i + 1) + all_ngrams(ss.skip(si + 1), ord)));
                        lemma_add_each_push(c0, done, key);
                    }
                    add_to_counts(&mut counts, context, word, 1);
                    i = i + 1;
                }
                assert(sentence_ngrams(sv, ord).take((n + 1) as int) == sentence_ngrams(sv, ord));
            } else {
                assert(sentence_ngrams(sv, ord) =~= Seq::<(Seq<Seq<char>>, Seq<char>)>::empty());
                assert(pre + sentence_ngrams(sv, ord) == pre);
            }
            si = si + 1;
        }
        assert(ss.take(ss.len() as int) == ss);
        self.counts = counts;
    }

    /// The table of the counts of at least the smallest count kept.
    pub fn build(self) -> (r: NgramTable)
        requires
            total(at_least(self@.counts, self@.min_count)) <= u64::MAX,
        ensures
            r@.order == self@.order,
            r@.counts == at_least(self@.counts, self@.min_count),
            r@.entry_count == total(at_least(self@.counts, self@.min_count)) as usize,
            r@.vocab_size == vocabulary(at_least(self@.counts, self@.min_count)).len(),
    {
        proof {
            use_type_invariant(&self);
        }
        let ghost cv = ngram_views(self.counts@);
        let min = self.min_count;
        let order = self.order;
        let counts = self.counts;
        let mut kept: Vec<((Vec<String>, String), u64)> = Vec::new();
        let mut i: usize = 0;
        assert(cv.take(0) =~= Seq::<NgramView>::empty());
        assert(at_least(cv.take(0), min) =~= Seq::<NgramView>::empty()) by {
            reveal(Seq::filter);
        }
        while i < counts.len()
            invariant
                i <= counts@.len(),
                cv == ngram_views(counts@),
                ngrams_distinct(cv),
                ngram_views(kept@) == at_least(cv.take(i as int), min),
            decreases counts@.len() - i,
        {
            proof {
                assert(cv.take(i + 1) == cv.take(i as int).push(cv[i as int]));
                cv.take(i as int).lemma_filter_push(cv[i as int], |e: NgramView| e.2 >= min);
            }
            if counts[i].1 >= min {
                let ghost k0 = ngram_views(kept@);
                let e = ((clone_strings_vec(&counts[i].0.0), counts[i].0.1.clone()), counts[i].1);
                kept.push(e);
                assert(ngram_views(kept@) =~= k0.push(cv[i as int]));
            }
            i = i + 1;
        }
        assert(cv.take(cv.len() as int) == cv);
        proof {
            lemma_filter_distinct(cv, min);
        }
        NgramTable::from_counts(order, kept)
    }

    /// The number of distinct contexts and words counted.
    pub fn count_entries(&self) -> (r: usize)
        ensures
            r == self@.counts.len(),
    {
        self.counts.len()
    }
}

/// The sentences as lists of texts.
pub open spec fn sentence_views(ss: Seq<Vec<String>>) -> Seq<Seq<Seq<char>>> {
    ss.map_values(|s: Vec<String>| string_views(s@))
}

/// A copy of a list of strings.
fn clone_strings_vec(v: &Vec<String>) -> (r: Vec<String>)
    ensures
        string_views(r@) == string_views(v@),
{
    crate::types::clone_strings(v)
}

/// Adds `n` to the count of `word` after `ctx`.
fn add_to_counts(counts: &mut Vec<((Vec<String>, String), u64)>, ctx: Vec<String>, word: String, n: u64)
    requires
        ngrams_distinct(ngram_views(old(counts)@)),
        count_in(ngram_views(old(counts)@), string_views(ctx@), word@) + n <= u64::MAX,
    ensures
        ngram_views(final(counts)@) == add_to(ngram_views(old(counts)@), string_views(ctx@), word@, n),
        ngrams_distinct(ngram_views(final(counts)@)),
{
    let ghost cv = ngram_views(counts@);
    let ghost cx = string_views(ctx@);
    let ghost w = word@;
    match find_ngram(counts, &ctx, &word) {
        Some(i) => {
            proof {
                lemma_ngram_index_some(cv, cx, w);
            }
            let ((c, wd), m) = counts.remove(i);
            counts.insert(i, ((c, wd), m + n));
            assert(ngram_views(counts@) =~= cv.update(i as int, (cx, w, (cv[i as int].2 + n) as u64)));
            assert forall|a: int, b: int| 0 <= a < b < cv.len() implies (#[trigger] ngram_views(counts@)[a]).0
                != (#[trigger] ngram_views(counts@)[b]).0 || ngram_views(counts@)[a].1 != ngram_views(counts@)[b].1 by {
                assert(cv[a].0 != cv[b].0 || cv[a].1 != cv[b].1);
            }
        },
        None => {
            proof {
                lemma_ngram_index_none(cv, cx, w);
            }
            counts.push(((ctx, word), n));
            assert(ngram_views(counts@) =~= cv.push((cx, w, n)));
            assert forall|a: int, b: int| 0 <= a < b < cv.len() + 1 implies (#[trigger] ngram_views(counts@)[a]).0
                != (#[trigger] ngram_views(counts@)[b]).0 || ngram_views(counts@)[a].1 != ngram_views(counts@)[b].1 by {
                if b < cv.len() {
                    assert(cv[a].0 != cv[b].0 || cv[a].1 != cv[b].1);
                }
            }
        },
    }
}

/// A found count is the count at its index.
proof fn lemma_ngram_index_some(cs: Seq<NgramView>, ctx: Seq<Seq<char>>, word: Seq<char>)
    requires
        ngram_index(cs, ctx, word) is Some,
    ensures
        0 <= ngram_index(cs, ctx, word)->0 < cs.len(),
        cs[ngram_index(cs, ctx, word)->0].0 == ctx,
        cs[ngram_index(cs, ctx, word)->0].1 == word,
    decreases cs.len(),
{
    if cs.len() > 0 && ngram_index(cs.drop_last(), ctx, word) is Some {
        lemma_ngram_index_some(cs.drop_last(), ctx, word);
    }
}

/// A count that is not found is not there.
proof fn lemma_ngram_index_none(cs: Seq<NgramView>, ctx: Seq<Seq<char>>, word: Seq<char>)
    requires
        ngram_index(cs, ctx, word) is None,
    ensures
        forall|i: int| 0 <= i < cs.len() ==> cs[i].0 != ctx || cs[i].1 != word,
    decreases cs.len(),
{
    if cs.len() > 0 {
        lemma_ngram_index_none(cs.drop_last(), ctx, word);
        assert forall|i: int| 0 <= i < cs.len() implies cs[i].0 != ctx || cs[i].1 != word by {
            if i < cs.len() - 1 {
                assert(cs.drop_last()[i] == cs[i]);
            }
        }
    }
}

/// Keeping some counts keeps them distinct.
proof fn lemma_filter_distinct(cs: Seq<NgramView>, min: u64)
    requires
        ngrams_distinct(cs),
    ensures
        ngrams_distinct(at_least(cs, min)),
    decreases cs.len(),
{
    reveal(Seq::filter);
    if cs.len() > 0 {
        let d = cs.drop_last();
        assert(ngrams_distinct(d)) by {
            assert forall|i: int, j: int| 0 <= i < j < d.len() implies (#[trigger] d[i]).0 != (#[trigger] d[j]).0
                || d[i].1 != d[j].1 by {
                assert(d[i] == cs[i] && d[j] == cs[j]);
            }
        }
        lemma_filter_distinct(d, min);
        let f = at_least(d, min);
        let x = cs.last();
        if x.2 >= min {
            assert(at_least(cs, min) == f.push(x));
            assert forall|j: int| 0 <= j < f.len() implies f[j].0 != x.0 || f[j].1 != x.1 by {
                assert(f.contains(f[j]));
                d.lemma_filter_contains_rev(|e: NgramView| e.2 >= min, f[j]);
                let k = choose|k: int| 0 <= k < d.len() && d[k] == f[j];
                assert(cs[k] == d[k]);
            }
            assert forall|i: int, j: int| 0 <= i < j < f.len() + 1 implies (#[trigger] f.push(x)[i]).0
                != (#[trigger] f.push(x)[j]).0 || f.push(x)[i].1 != f.push(x)[j].1 by {
                if j < f.len() {
                    assert(f.push(x)[i] == f[i] && f.push(x)[j] == f[j]);
                } else {
                    assert(f.push(x)[i] == f[i]);
                }
            }
        } else {
            assert(at_least(cs, min) == f);
        }
    }
}

/// The n-grams of sentences split at `k`.
proof fn lemma_all_ngrams_split(ss: Seq<Seq<Seq<char>>>, k: int, ord: int)
    requires
        0 <= k <= ss.len(),
    ensures
        all_ngrams(ss, ord) == all_ngrams(ss.take(k), ord) + all_ngrams(ss.skip(k), ord),
    decreases ss.len(),
{
    if ss.len() == k {
        assert(ss.take(k) == ss);
        assert(ss.skip(k) =~= Seq::<Seq<Seq<char>>>::empty());
    } else {
        let d = ss.drop_last();
        lemma_all_ngrams_split(d, k, ord);
        assert(d.take(k) == ss.take(k));
        assert(ss.skip(k).drop_last() == d.skip(k));
        assert(ss.skip(k).last() == ss.last());
    }
}

/// Counting `xs` then `ys` is counting `xs + ys`; and if that fits, so does
/// counting `ys` after `xs`.
proof fn lemma_add_each_append(
    cs: Seq<NgramView>,
    xs: Seq<(Seq<Seq<char>>, Seq<char>)>,
    ys: Seq<(Seq<Seq<char>>, Seq<char>)>,
)
    ensures
        add_each(cs, xs + ys) == add_each(add_each(cs, xs), ys),
        add_each_fits(cs, xs + ys) ==> add_each_fits(add_each(cs, xs), ys),
    decreases xs.len(),
{
    if xs.len() > 0 {
        assert((xs + ys)[0] == xs[0]);
        assert((xs + ys).drop_first() == xs.drop_first() + ys);
        lemma_add_each_append(add_to(cs, xs[0].0, xs[0].1, 1), xs.drop_first(), ys);
    } else {
        assert(xs + ys == ys);
    }
}

/// Counting one more key at the end.
proof fn lemma_add_each_push(
    cs: Seq<NgramView>,
    xs: Seq<(Seq<Seq<char>>, Seq<char>)>,
    k: (Seq<Seq<char>>, Seq<char>),
)
    ensures
        add_each(cs, xs.push(k)) == add_to(add_each(cs, xs), k.0, k.1, 1),
{
    lemma_add_each_append(cs, xs, seq![k]);
    assert(xs.push(k) == xs + seq![k]);
    let c1 = add_each(cs, xs);
    assert(seq![k][0] == k);
    assert(seq![k].drop_first() =~= Seq::<(Seq<Seq<char>>, Seq<char>)>::empty());
    assert(add_each(c1, seq![k]) == add_each(add_to(c1, k.0, k.1, 1), seq![k].drop_first()));
}

} // verus!

//! Learning from the user's choices: how often each word was chosen for
//! each code, and which choices are frequent enough to be learnt.
use vstd::prelude::*;

use crate::text::{str_chars, str_to_string, string_from_chars, string_push_str, sub_chars};
use crate::types::L0Config;

verus! {

broadcast use vstd::seq_lib::group_seq_properties;

/// Errors of learning.
#[derive(Debug)]
pub enum L0Error {
    /// A snapshot could not be loaded.
    SnapshotLoadError(String),
    /// A snapshot could not be saved.
    SnapshotSaveError(String),
    /// Too little data.
    InsufficientData(String),
    /// A configuration is invalid.
    ConfigError(String),
}

impl L0Error {
    /// The message the error shows.
    pub open spec fn spec_message(self) -> Seq<char> {
        match self {
            L0Error::SnapshotLoadError(m) => "快照加载失败: "@ + m@,
            L0Error::SnapshotSaveError(m) => "快照保存失败: "@ + m@,
            L0Error::InsufficientData(m) => "学习数据不足: "@ + m@,
            L0Error::ConfigError(m) => "配置错误: "@ + m@,
        }
    }

    /// The message the error shows (what its `Display` writes).
    pub fn message(&self) -> (r: String)
        ensures
            r@ == self.spec_message(),
    {
        let (p, m) = match self {
            L0Error::SnapshotLoadError(m) => ("快照加载失败: ", m),
            L0Error::SnapshotSaveError(m) => ("快照保存失败: ", m),
            L0Error::InsufficientData(m) => ("学习数据不足: ", m),
            L0Error::ConfigError(m) => ("配置错误: ", m),
        };
        let mut r = str_to_string(p);
        string_push_str(&mut r, m.as_str());
        r
    }
}

/// One recorded choice.
pub struct LearningEntry {
    /// The code typed.
    pub code: String,
    /// The word chosen.
    pub word: String,
    /// When, in seconds since the epoch.
    pub timestamp: u64,
}

/// Kinds of suggestions.
#[derive(PartialEq, Eq, Structural, Clone, Copy, Debug)]
pub enum SuggestionType {
    /// Learn a new word.
    NewWord,
    /// Raise a word's frequency.
    FreqBoost,
    /// Reorder the candidates.
    Reorder,
    /// Infer a part of speech.
    PosInference,
}

/// A learning suggestion: a word chosen often enough for its code. How sure
/// the suggestion is, a fraction of the selections, is the caller's.
#[derive(Debug, Clone)]
pub struct LearningSuggestion {
    /// The code.
    pub code: String,
    /// The word.
    pub word: String,
    /// How often it was chosen.
    pub selection_count: u32,
    /// What to do with it.
    pub suggestion_type: SuggestionType,
}

/// The suggestion made of a count that reached `threshold`: the key's first
/// part as code, its second part (or nothing) as word; a count of twice the
/// threshold raises the word's frequency, a smaller one reorders.
pub open spec fn learning_suggestion_of(e: (Seq<char>, u32), threshold: u32) -> (
    Seq<char>,
    Seq<char>,
    u32,
    SuggestionType,
) {
    (
        first_part(e.0),
        match second_part(e.0) {
            Some(w) => w,
            None => Seq::<char>::empty(),
        },
        e.1,
        if e.1 >= threshold * 2 {
            SuggestionType::FreqBoost
        } else {
            SuggestionType::Reorder
        },
    )
}

/// The suggestions of the counts `cs` that reach `threshold`, in order.
pub open spec fn learning_suggestions(cs: Seq<(Seq<char>, u32)>, threshold: u32) -> Seq<
    (Seq<char>, Seq<char>, u32, SuggestionType),
>
    decreases cs.len(),
{
    if cs.len() == 0 {
        seq![]
    } else {
        let prev = learning_suggestions(cs.drop_last(), threshold);
        if cs.last().1 >= threshold {
            prev.push(learning_suggestion_of(cs.last(), threshold))
        } else {
            prev
        }
    }
}

/// The values of learning suggestions.
pub open spec fn learning_suggestion_views(v: Seq<LearningSuggestion>) -> Seq<
    (Seq<char>, Seq<char>, u32, SuggestionType),
> {
    v.map_values(
        |x: LearningSuggestion| (x.code@, x.word@, x.selection_count, x.suggestion_type),
    )
}

/// Strategies of learning.
#[derive(PartialEq, Eq, Structural, Clone, Copy, Debug)]
pub enum L0Strategy {
    /// Learn after a number of choices.
    Threshold,
    /// Let old choices weigh less.
    TimeDecay,
    /// Learn by frequency.
    Frequency,
    /// A mix of these.
    Hybrid,
}

/// The key under which the choices of `word` for `code` are counted.
pub open spec fn choice_key(code: Seq<char>, word: Seq<char>) -> Seq<char> {
    code + ":"@ + word
}

/// Index of key `k` in the counts `cs`.
pub open spec fn key_index(cs: Seq<(Seq<char>, u32)>, k: Seq<char>) -> Option<int>
    decreases cs.len(),
{
    if cs.len() == 0 {
        None
    } else {
        match key_index(cs.drop_last(), k) {
            Some(i) => Some(i),
            None => if cs.last().0 == k {
                Some(cs.len() - 1)
            } else {
                None
            },
        }
    }
}

/// The count of key `k` (0 when it was never counted).
pub open spec fn count_of(cs: Seq<(Seq<char>, u32)>, k: Seq<char>) -> int {
    match key_index(cs, k) {
        Some(i) => cs[i].1 as int,
        None => 0,
    }
}

/// The counts after one more choice under key `k`: its count goes up by
/// one, or it is added, last, with count 1.
pub open spec fn bump(cs: Seq<(Seq<char>, u32)>, k: Seq<char>) -> Seq<(Seq<char>, u32)> {
    match key_index(cs, k) {
        Some(i) => cs.update(i, (k, (cs[i].1 + 1) as u32)),
        None => cs.push((k, 1u32)),
    }
}

/// Each key occurs once.
pub open spec fn keys_distinct(cs: Seq<(Seq<char>, u32)>) -> bool {
    forall|i: int, j: int| 0 <= i < j < cs.len() ==> #[trigger] cs[i].0 != #[trigger] cs[j].0
}

/// Index of the first count in `s` below `c` (the length when none is).
pub open spec fn first_below(s: Seq<(Seq<char>, u32)>, c: u32) -> int
    decreases s.len(),
{
    if s.len() == 0 {
        0
    } else if s[0].1 < c {
        0
    } else {
        1 + first_below(s.drop_first(), c)
    }
}

/// The counts `cs` sorted by count, highest first, keys of equal count in
/// the order of `cs` (a stable sort).
pub open spec fn by_count(cs: Seq<(Seq<char>, u32)>) -> Seq<(Seq<char>, u32)>
    decreases cs.len(),
{
    if cs.len() == 0 {
        seq![]
    } else {
        let s = by_count(cs.drop_last());
        let x = cs.last();
        let p = first_below(s, x.1);
        s.take(p) + seq![x] + s.skip(p)
    }
}

/// Index of the first `:` in `s`.
pub open spec fn colon_at(s: Seq<char>) -> Option<int>
    decreases s.len(),
{
    if s.len() == 0 {
        None
    } else {
        match colon_at(s.drop_last()) {
            Some(i) => Some(i),
            None => if s.last() == ':' {
                Some(s.len() - 1)
            } else {
                None
            },
        }
    }
}

/// The first `:`-separated part of `s`.
pub open spec fn first_part(s: Seq<char>) -> Seq<char> {
    match colon_at(s) {
        Some(i) => s.take(i),
        None => s,
    }
}

/// The second `:`-separated part of `s`, when there is one.
pub open spec fn second_part(s: Seq<char>) -> Option<Seq<char>> {
    match colon_at(s) {
        Some(i) => Some(first_part(s.skip(i + 1))),
        None => None,
    }
}

/// The suggestion made of a count: code, word and count, when the key has
/// two parts.
pub open spec fn suggestion_of(e: (Seq<char>, u32)) -> Option<(Seq<char>, Seq<char>, u32)> {
    match second_part(e.0) {
        Some(w) => Some((first_part(e.0), w, e.1)),
        None => None,
    }
}

/// The suggestions of the counts `es` that reach `threshold`, in order.
pub open spec fn suggestions(es: Seq<(Seq<char>, u32)>, threshold: u32) -> Seq<
    (Seq<char>, Seq<char>, u32),
>
    decreases es.len(),
{
    if es.len() == 0 {
        seq![]
    } else {
        let prev = suggestions(es.drop_last(), threshold);
        let e = es.last();
        if e.1 >= threshold && suggestion_of(e) is Some {
            prev.push(suggestion_of(e)->0)
        } else {
            prev
        }
    }
}

/// The value of a learner.
pub struct L0LearnerView {
    /// Choices counted before a word is learnt.
    pub threshold: u32,
    /// Where snapshots are kept.
    pub snapshot_path: Seq<char>,
    /// The choices recorded, as code and word, oldest first.
    pub data: Seq<(Seq<char>, Seq<char>)>,
    /// The counts of choices by key, in the order the keys were first seen.
    pub counts: Seq<(Seq<char>, u32)>,
}

/// Learns from the user's choices.
pub struct L0Learner {
    config: L0Config,
    data: Vec<LearningEntry>,
    counters: Vec<(String, u32)>,
}

/// The values of the counters.
pub open spec fn counter_views(v: Seq<(String, u32)>) -> Seq<(Seq<char>, u32)> {
    v.map_values(|e: (String, u32)| (e.0@, e.1))
}

/// The values of recorded choices.
pub open spec fn entry_views(v: Seq<LearningEntry>) -> Seq<(Seq<char>, Seq<char>)> {
    v.map_values(|e: LearningEntry| (e.code@, e.word@))
}

impl View for L0Learner {
    type V = L0LearnerView;

    closed spec fn view(&self) -> L0LearnerView {
        L0LearnerView {
            threshold: self.config.threshold,
            snapshot_path: self.config.snapshot_path@,
            data: entry_views(self.data@),
            counts: counter_views(self.counters@),
        }
    }
}

impl L0Learner {
    #[verifier::type_invariant]
    spec fn counts_keyed_once(&self) -> bool {
        keys_distinct(counter_views(self.counters@))
    }

    /// A learner with no data.
    pub fn new(config: L0Config) -> (r: Self)
        ensures
            r@.threshold == config.threshold,
            r@.snapshot_path == config.snapshot_path@,
            r@.data.len() == 0,
            r@.counts.len() == 0,
            r.entry_times().len() == 0,
    {
        let r = L0Learner { config, data: Vec::new(), counters: Vec::new() };
        assert(entry_views(r.data@) =~= Seq::<(Seq<char>, Seq<char>)>::empty());
        assert(counter_views(r.counters@) =~= Seq::<(Seq<char>, u32)>::empty());
        r
    }

    /// When each recorded choice was made, in seconds since the epoch, in
    /// the order of the data.
    pub closed spec fn entry_times(&self) -> Seq<u64> {
        self.data@.map_values(|e: LearningEntry| e.timestamp)
    }

    /// Records that `word` was chosen for `code`: the count of their key
    /// goes up by one and the choice is added to the data, stamped with the
    /// clock's time in seconds (what the clock reads is not stated).
    pub fn record_selection(&mut self, code: &str, word: &str)
        requires
            count_of(old(self)@.counts, choice_key(code@, word@)) < u32::MAX,
        ensures
            final(self)@.counts == bump(old(self)@.counts, choice_key(code@, word@)),
            final(self)@.data == old(self)@.data.push((code@, word@)),
            final(self).entry_times().len() == old(self).entry_times().len() + 1,
            final(self).entry_times().drop_last() == old(self).entry_times(),
            final(self).entry_times().last() <= u64::MAX / 1000,
            final(self)@.threshold == old(self)@.threshold,
            final(self)@.snapshot_path == old(self)@.snapshot_path,
    {
        proof {
            use_type_invariant(&*self);
        }
        let mut key = str_to_string(code);
        string_push_str(&mut key, ":");
        string_push_str(&mut key, word);
        let ghost k = choice_key(code@, word@);
        assert(key@ == k);
        let ghost cv = counter_views(self.counters@);
        let mut counters: Vec<(String, u32)> = Vec::new();
        std::mem::swap(&mut counters, &mut self.counters);
        assert(counter_views(counters@) == cv);
        match find_key(&counters, key.as_str()) {
            Some(i) => {
                proof {
                    lemma_key_index_some(cv, k);
                }
                let c = counters[i].1;
                let (kk, _) = counters.remove(i);
                counters.insert(i, (kk, c + 1));
                assert(counter_views(counters@) =~= cv.update(i as int, (k, (cv[i as int].1 + 1) as u32)));
                assert(keys_distinct(counter_views(counters@))) by {
                    assert forall|a: int, b: int| 0 <= a < b < cv.len() implies #[trigger] counter_views(counters@)[a].0
                        != #[trigger] counter_views(counters@)[b].0 by {
                        assert(cv[a].0 != cv[b].0);
                    }
                }
            },
            None => {
                counters.push((key, 1));
                assert(counter_views(counters@) =~= cv.push((k, 1u32)));
                proof {
                    lemma_key_index_none(cv, k);
                    assert forall|a: int, b: int| 0 <= a < b < cv.len() + 1 implies #[trigger] counter_views(counters@)[a].0
                        != #[trigger] counter_views(counters@)[b].0 by {
                        if b < cv.len() {
                            assert(cv[a].0 != cv[b].0);
                        }
                    }
                }
            },
        }
        self.counters = counters;
        let entry = LearningEntry {
            code: str_to_string(code),
            word: str_to_string(word),
            timestamp: crate::clock::now_millis() / 1000,
        };
        let ghost d0 = self.data@;
        let mut data: Vec<LearningEntry> = Vec::new();
        std::mem::swap(&mut data, &mut self.data);
        data.push(entry);
        self.data = data;
        assert(entry_views(self.data@) =~= entry_views(d0).push((code@, word@)));
        assert(self.entry_times().drop_last() =~= d0.map_values(|e: LearningEntry| e.timestamp));
    }

    /// Whether the choice of `word` for `code` was counted at least the
    /// threshold number of times.
    pub fn should_learn(&self, code: &str, word: &str) -> (r: bool)
        ensures
            r == (count_of(self@.counts, choice_key(code@, word@)) >= self@.threshold),
    {
        let mut key = str_to_string(code);
        string_push_str(&mut key, ":");
        string_push_str(&mut key, word);
        match find_key(&self.counters, key.as_str()) {
            Some(i) => self.counters[i].1 >= self.config.threshold,
            None => 0 >= self.config.threshold,
        }
    }

    /// The counts that reach the threshold among the `limit` highest, as
    /// code, word and count: the counts are sorted by count, highest first
    /// (keys of equal count in the order they were first seen), the first
    /// `limit` are kept, and each key is split at its colons.
    #[verifier::spinoff_prover]
    #[verifier::rlimit(40)]
    pub fn get_top_suggestions(&self, limit: usize) -> (r: Vec<(String, String, u32)>)
        ensures
            suggestion_views(r@) == suggestions(
                by_count(self@.counts).take(
                    if limit < self@.counts.len() {
                        limit as int
                    } else {
                        self@.counts.len() as int
                    },
                ),
                self@.threshold,
            ),
    {
        let ghost cv = counter_views(self.counters@);
        let mut sorted: Vec<(String, u32)> = Vec::new();
        let mut i: usize = 0;
        assert(cv.take(0) =~= Seq::<(Seq<char>, u32)>::empty());
        while i < self.counters.len()
            invariant
                i <= self.counters@.len(),
                cv == counter_views(self.counters@),
                counter_views(sorted@) == by_count(cv.take(i as int)),
                sorted@.len() == i,
            decreases self.counters@.len() - i,
        {
            assert(cv.take(i + 1).drop_last() == cv.take(i as int));
            assert(cv.take(i + 1).last() == cv[i as int]);
            let c = self.counters[i].1;
            let ghost s0 = counter_views(sorted@);
            let p = position_below(&sorted, c);
            sorted.insert(p, (self.counters[i].0.clone(), c));
            assert(counter_views(sorted@) =~= s0.take(p as int) + seq![cv[i as int]] + s0.skip(p as int));
            i = i + 1;
        }
        assert(cv.take(cv.len() as int) == cv);
        let n = if limit < sorted.len() {
            limit
        } else {
            sorted.len()
        };
        let ghost top = by_count(cv).take(n as int);
        let mut r: Vec<(String, String, u32)> = Vec::new();
        let mut j: usize = 0;
        assert(top.take(0) =~= Seq::<(Seq<char>, u32)>::empty());
        while j < n
            invariant
                j <= n,
                n <= sorted@.len(),
                top == counter_views(sorted@).take(n as int),
                suggestion_views(r@) == suggestions(top.take(j as int), self@.threshold),
                self@.threshold == self.config.threshold,
            decreases n - j,
        {
            assert(top.take(j + 1).drop_last() == top.take(j as int));
            assert(top.take(j + 1).last() == top[j as int]);
            let c = sorted[j].1;
            if c >= self.config.threshold {
                let key = str_chars(sorted[j].0.as_str());
                match split_key(&key) {
                    Some((a, b)) => {
                        let ghost r0 = r@;
                        r.push((string_from_chars(a.as_slice()), string_from_chars(b.as_slice()), c));
                        assert(suggestion_views(r@) =~= suggestion_views(r0).push(
                            suggestion_of(top[j as int])->0,
                        ));
                    },
                    None => {},
                }
            }
            j = j + 1;
        }
        assert(top.take(n as int) == top);
        r
    }

    /// The suggestions of the counts that reach the threshold, in the order
    /// the keys were first counted.
    #[verifier::spinoff_prover]
    pub fn get_suggestions(&self) -> (r: Vec<LearningSuggestion>)
        requires
            (exists|i: int|
                0 <= i < self@.counts.len() && #[trigger] self@.counts[i].1 >= self@.threshold)
                ==> self@.threshold * 2 <= u32::MAX,
        ensures
            learning_suggestion_views(r@) == learning_suggestions(self@.counts, self@.threshold),
    {
        let ghost cv = counter_views(self.counters@);
        let t = self.config.threshold;
        let mut r: Vec<LearningSuggestion> = Vec::new();
        let mut i: usize = 0;
        assert(cv.take(0) =~= Seq::<(Seq<char>, u32)>::empty());
        proof {
            if exists|k: int| 0 <= k < cv.len() && #[trigger] cv[k].1 >= t {
                let k = choose|k: int| 0 <= k < cv.len() && #[trigger] cv[k].1 >= t;
                assert(self@.counts[k].1 >= self@.threshold);
            }
        }
        while i < self.counters.len()
            invariant
                i <= self.counters@.len(),
                cv == counter_views(self.counters@),
                cv == self@.counts,
                t == self@.threshold,
                (exists|k: int| 0 <= k < cv.len() && #[trigger] cv[k].1 >= t) ==> t * 2
                    <= u32::MAX,
                learning_suggestion_views(r@) == learning_suggestions(cv.take(i as int), t),
            decreases self.counters@.len() - i,
        {
            assert(cv.take(i + 1).drop_last() == cv.take(i as int));
            assert(cv.take(i + 1).last() == cv[i as int]);
            let c = self.counters[i].1;
            if c >= t {
                assert(cv[i as int].1 >= t);
                let key = str_chars(self.counters[i].0.as_str());
                let (code, word) = match split_key(&key) {
                    Some((a, b)) => (string_from_chars(a.as_slice()), string_from_chars(b.as_slice())),
                    None => {
                        proof {
                            assert(first_part(key@) == key@);
                        }
                        (string_from_chars(key.as_slice()), String::new())
                    },
                };
                let kind = if c >= t * 2 {
                    SuggestionType::FreqBoost
                } else {
                    SuggestionType::Reorder
                };
                let ghost r0 = r@;
                r.push(LearningSuggestion { code, word, selection_count: c, suggestion_type: kind });
                assert(learning_suggestion_views(r@) =~= learning_suggestion_views(r0).push(
                    learning_suggestion_of(cv[i as int], t),
                ));
            }
            i = i + 1;
        }
        assert(cv.take(cv.len() as int) == cv);
        r
    }

    /// Forgets all data and counts.
    pub fn clear(&mut self)
        ensures
            final(self)@ == (L0LearnerView { data: seq![], counts: seq![], ..old(self)@ }),
            final(self).entry_times() == Seq::<u64>::empty(),
    {
        proof {
            use_type_invariant(&*self);
        }
        self.counters = Vec::new();
        self.data = Vec::new();
        assert(entry_views(self.data@) =~= Seq::<(Seq<char>, Seq<char>)>::empty());
        assert(counter_views(self.counters@) =~= Seq::<(Seq<char>, u32)>::empty());
        assert(self.entry_times() =~= Seq::<u64>::empty());
    }

    /// The number of recorded choices.
    pub fn data_count(&self) -> (r: usize)
        ensures
            r == self@.data.len(),
    {
        self.data.len()
    }

    /// The settings.
    pub fn config(&self) -> (r: &L0Config)
        ensures
            r.threshold == self@.threshold,
            r.snapshot_path@ == self@.snapshot_path,
    {
        &self.config
    }

    /// The counts, by key, in the order the keys were first seen.
    pub fn counts(&self) -> (r: Vec<(String, u32)>)
        ensures
            counter_views(r@) == self@.counts,
    {
        let mut r: Vec<(String, u32)> = Vec::new();
        let mut i: usize = 0;
        while i < self.counters.len()
            invariant
                i <= self.counters@.len(),
                counter_views(r@) == counter_views(self.counters@).take(i as int),
            decreases self.counters@.len() - i,
        {
            let ghost r0 = r@;
            r.push((self.counters[i].0.clone(), self.counters[i].1));
            assert(counter_views(r@) =~= counter_views(r0).push(counter_views(self.counters@)[i as int]));
            assert(counter_views(self.counters@).take(i + 1) == counter_views(self.counters@).take(i as int).push(counter_views(self.counters@)[i as int]));
            i = i + 1;
        }
        assert(counter_views(self.counters@).take(self.counters@.len() as int) == counter_views(self.counters@));
        r
    }
}

/// The values of suggestions.
pub open spec fn suggestion_views(v: Seq<(String, String, u32)>) -> Seq<(Seq<char>, Seq<char>, u32)> {
    v.map_values(|e: (String, String, u32)| (e.0@, e.1@, e.2))
}

/// Index of key `k` among the counters.
fn find_key(cs: &Vec<(String, u32)>, k: &str) -> (r: Option<usize>)
    ensures
        match r {
            Some(i) => key_index(counter_views(cs@), k@) == Some(i as int) && i < cs@.len(),
            None => key_index(counter_views(cs@), k@) is None,
        },
{
    let ghost cv = counter_views(cs@);
    let kc = str_chars(k);
    let mut i: usize = 0;
    assert(cv.take(0) =~= Seq::<(Seq<char>, u32)>::empty());
    while i < cs.len()
        invariant
            i <= cs@.len(),
            cv == counter_views(cs@),
            kc@ == k@,
            key_index(cv.take(i as int), k@) is None,
        decreases cs@.len() - i,
    {
        assert(cv.take(i + 1).drop_last() == cv.take(i as int));
        assert(cv.take(i + 1).last() == cv[i as int]);
        let ci = str_chars(cs[i].0.as_str());
        if crate::text::chars_eq(ci.as_slice(), kc.as_slice()) {
            proof {
                lemma_key_index_prefix(cv, i + 1, k@);
            }
            return Some(i);
        }
        i = i + 1;
    }
    assert(cv.take(cv.len() as int) == cv);
    None
}

/// A key found among the first counts is found there among all.
proof fn lemma_key_index_prefix(cs: Seq<(Seq<char>, u32)>, n: int, k: Seq<char>)
    requires
        0 <= n <= cs.len(),
        key_index(cs.take(n), k) is Some,
    ensures
        key_index(cs, k) == key_index(cs.take(n), k),
    decreases cs.len() - n,
{
    if n < cs.len() {
        assert(cs.take(n + 1).drop_last() == cs.take(n));
        lemma_key_index_prefix(cs, n + 1, k);
    } else {
        assert(cs.take(n) == cs);
    }
}

/// A key that is not found is not among the keys.
proof fn lemma_key_index_none(cs: Seq<(Seq<char>, u32)>, k: Seq<char>)
    requires
        key_index(cs, k) is None,
    ensures
        forall|i: int| 0 <= i < cs.len() ==> cs[i].0 != k,
    decreases cs.len(),
{
    if cs.len() > 0 {
        lemma_key_index_none(cs.drop_last(), k);
        assert forall|i: int| 0 <= i < cs.len() implies cs[i].0 != k by {
            if i < cs.len() - 1 {
                assert(cs.drop_last()[i] == cs[i]);
            }
        }
    }
}

/// A found key is the key at its index.
proof fn lemma_key_index_some(cs: Seq<(Seq<char>, u32)>, k: Seq<char>)
    requires
        key_index(cs, k) is Some,
    ensures
        0 <= key_index(cs, k)->0 < cs.len(),
        cs[key_index(cs, k)->0].0 == k,
    decreases cs.len(),
{
    if cs.len() > 0 {
        if key_index(cs.drop_last(), k) is Some {
            lemma_key_index_some(cs.drop_last(), k);
        }
    }
}

/// Where a count `c` goes among counts sorted highest first: after all
/// counts not below it.
fn position_below(s: &Vec<(String, u32)>, c: u32) -> (r: usize)
    ensures
        r as int == first_below(counter_views(s@), c),
        r <= s@.len(),
{
    let ghost sv = counter_views(s@);
    let mut i: usize = 0;
    assert(sv.skip(0) == sv);
    while i < s.len() && s[i].1 >= c
        invariant
            i <= s@.len(),
            sv == counter_views(s@),
            first_below(sv, c) == i + first_below(sv.skip(i as int), c),
        decreases s@.len() - i,
    {
        assert(sv.skip(i as int).drop_first() == sv.skip(i + 1));
        i = i + 1;
    }
    proof {
        lemma_position_found(sv, i as int, c);
    }
    i
}

/// Closes the search of `position_below`.
proof fn lemma_position_found(sv: Seq<(Seq<char>, u32)>, i: int, c: u32)
    requires
        0 <= i <= sv.len(),
        i == sv.len() || sv[i].1 < c,
    ensures
        first_below(sv.skip(i), c) == 0,
{
    if i < sv.len() {
        assert(sv.skip(i)[0] == sv[i]);
    }
}

/// Splits a key at its colons into its first and second part.
fn split_key(k: &Vec<char>) -> (r: Option<(Vec<char>, Vec<char>)>)
    ensures
        match r {
            Some((a, b)) => second_part(k@) == Some(b@) && first_part(k@) == a@,
            None => second_part(k@) is None,
        },
{
    match find_colon(k.as_slice()) {
        None => None,
        Some(i) => {
            assert(i < k.len());
            let a = sub_chars(k.as_slice(), 0, i);
            let rest = sub_chars(k.as_slice(), i + 1, k.len());
            assert(rest@ == k@.skip(i + 1));
            assert(a@ == k@.take(i as int));
            let b = match find_colon(rest.as_slice()) {
                None => rest,
                Some(j) => {
                    let b = sub_chars(rest.as_slice(), 0, j);
                    assert(b@ == rest@.take(j as int));
                    b
                },
            };
            Some((a, b))
        },
    }
}

/// Index of the first `:` in `s`.
fn find_colon(s: &[char]) -> (r: Option<usize>)
    ensures
        match r {
            Some(i) => colon_at(s@) == Some(i as int) && i < s@.len(),
            None => colon_at(s@) is None,
        },
{
    let mut i: usize = 0;
    while i < s.len()
        invariant
            i <= s@.len(),
            colon_at(s@.take(i as int)) is None,
        decreases s@.len() - i,
    {
        assert(s@.take(i + 1).drop_last() == s@.take(i as int));
        if s[i] == ':' {
            proof {
                lemma_colon_prefix(s@, i + 1);
            }
            return Some(i);
        }
        i = i + 1;
    }
    assert(s@.take(s@.len() as int) == s@);
    None
}

/// A first colon in a prefix is the first colon of the whole.
proof fn lemma_colon_prefix(s: Seq<char>, n: int)
    requires
        0 <= n <= s.len(),
        colon_at(s.take(n)) is Some,
    ensures
        colon_at(s) == colon_at(s.take(n)),
    decreases s.len() - n,
{
    if n < s.len() {
        assert(s.take(n + 1).drop_last() == s.take(n));
        lemma_colon_prefix(s, n + 1);
    } else {
        assert(s.take(n) == s);
    }
}

/// Recording a choice adds one to the count of its key and changes no
/// other count.
pub proof fn law_record_counts_once(cs: Seq<(Seq<char>, u32)>, k: Seq<char>, other: Seq<char>)
    requires
        keys_distinct(cs),
        count_of(cs, k) < u32::MAX,
    ensures
        count_of(bump(cs, k), k) == count_of(cs, k) + 1,
        other != k ==> count_of(bump(cs, k), other) == count_of(cs, other),
        keys_distinct(bump(cs, k)),
{
    lemma_bump_counts(cs, k, other);
}

/// The facts of `law_record_counts_once`.
proof fn lemma_bump_counts(cs: Seq<(Seq<char>, u32)>, k: Seq<char>, other: Seq<char>)
    requires
        keys_distinct(cs),
        count_of(cs, k) < u32::MAX,
    ensures
        count_of(bump(cs, k), k) == count_of(cs, k) + 1,
        other != k ==> count_of(bump(cs, k), other) == count_of(cs, other),
        keys_distinct(bump(cs, k)),
{
    let b = bump(cs, k);
    match key_index(cs, k) {
        Some(i) => {
            lemma_key_index_some(cs, k);
            lemma_key_index_unique(b, k, i);
            if other != k {
                match key_index(cs, other) {
                    Some(j) => {
                        lemma_key_index_some(cs, other);
                        lemma_key_index_unique(b, other, j);
                    },
                    None => {
                        lemma_key_index_none(cs, other);
                        lemma_key_index_absent(b, other);
                    },
                }
            }
        },
        None => {
            lemma_key_index_none(cs, k);
            lemma_key_index_unique(b, k, cs.len() as int);
            if other != k {
                match key_index(cs, other) {
                    Some(j) => {
                        lemma_key_index_some(cs, other);
                        lemma_key_index_unique(b, other, j);
                    },
                    None => {
                        lemma_key_index_none(cs, other);
                        lemma_key_index_absent(b, other);
                    },
                }
            }
        },
    }
}

/// In counts with distinct keys, a key at index `i` is found at `i`.
proof fn lemma_key_index_unique(cs: Seq<(Seq<char>, u32)>, k: Seq<char>, i: int)
    requires
        0 <= i < cs.len(),
        cs[i].0 == k,
        forall|j: int| 0 <= j < cs.len() && j != i ==> cs[j].0 != k,
    ensures
        key_index(cs, k) == Some(i),
    decreases cs.len(),
{
    if i < cs.len() - 1 {
        lemma_key_index_unique(cs.drop_last(), k, i);
    } else {
        lemma_key_index_absent(cs.drop_last(), k);
    }
}

/// A key that is not among the keys is not found.
proof fn lemma_key_index_absent(cs: Seq<(Seq<char>, u32)>, k: Seq<char>)
    requires
        forall|j: int| 0 <= j < cs.len() ==> cs[j].0 != k,
    ensures
        key_index(cs, k) is None,
    decreases cs.len(),
{
    if cs.len() > 0 {
        lemma_key_index_absent(cs.drop_last(), k);
    }
}

/// Where the first count below `c` stands: every count before it is at
/// least `c`.
proof fn lemma_first_below(s: Seq<(Seq<char>, u32)>, c: u32)
    ensures
        0 <= first_below(s, c) <= s.len(),
        forall|i: int| 0 <= i < first_below(s, c) ==> (#[trigger] s[i]).1 >= c,
        first_below(s, c) < s.len() ==> s[first_below(s, c)].1 < c,
    decreases s.len(),
{
    if s.len() > 0 && s[0].1 >= c {
        lemma_first_below(s.drop_first(), c);
        assert forall|i: int| 0 <= i < first_below(s, c) implies (#[trigger] s[i]).1 >= c by {
            if i > 0 {
                assert(s[i] == s.drop_first()[i - 1]);
            }
        }
    }
}

/// The counts ranked for suggestions are the learnt counts, highest first:
/// the ranking keeps every count (none lost, none added) and puts no count
/// after a lower one.
pub proof fn law_ranking_sorted_and_complete(cs: Seq<(Seq<char>, u32)>)
    ensures
        by_count(cs).to_multiset() == cs.to_multiset(),
        by_count(cs).len() == cs.len(),
        forall|i: int, j: int|
            0 <= i < j < by_count(cs).len() ==> (#[trigger] by_count(cs)[i]).1 >= (#[trigger] by_count(
                cs,
            )[j]).1,
    decreases cs.len(),
{
    if cs.len() > 0 {
        let t = by_count(cs.drop_last());
        let x = cs.last();
        law_ranking_sorted_and_complete(cs.drop_last());
        lemma_first_below(t, x.1);
        let p = first_below(t, x.1);
        let r = t.take(p) + seq![x] + t.skip(p);
        assert(r == by_count(cs));
        assert forall|i: int, j: int| 0 <= i < j < r.len() implies (#[trigger] r[i]).1 >= (
        #[trigger] r[j]).1 by {
            if j < p {
                assert(r[i] == t[i] && r[j] == t[j]);
            } else if j == p {
                assert(r[i] == t[i]);
            } else if i < p {
                assert(r[i] == t[i] && r[j] == t[j - 1]);
            } else if i == p {
                assert(r[j] == t[j - 1]);
                assert(t[p].1 >= t[j - 1].1);
            } else {
                assert(r[i] == t[i - 1] && r[j] == t[j - 1]);
            }
        }
        assert(t == t.take(p) + t.skip(p));
        vstd::seq_lib::lemma_multiset_commutative(t.take(p), t.skip(p));
        vstd::seq_lib::lemma_multiset_commutative(t.take(p), seq![x]);
        vstd::seq_lib::lemma_multiset_commutative(t.take(p) + seq![x], t.skip(p));
        vstd::seq_lib::lemma_multiset_commutative(cs.drop_last(), seq![x]);
        assert(cs == cs.drop_last() + seq![x]);
    }
}

} // verus!

//! The matcher: the candidates for a typed code, from a dictionary, by
//! exact, prefix and fuzzy lookups. Scores are whole numbers; candidates
//! are sorted by score, highest first, with the first of each word kept,
//! and the answers for recent codes are kept in a cache.
use vstd::prelude::*;

use crate::candidate::{dedup_text, dedup_text_code, CandidateFilter};
use crate::entry::{dict_views, DictEntry, DictEntryView};
use crate::fst_dict::{fuzzy_result, lookup_result, prefix_result, FstDict, FstDictView};
use crate::fuzzy::{
    all_variants, rule_groups, rule_views, variants_defined, FuzzyConfig, FuzzyMatcher, FuzzyRule,
};
use crate::text::{
    lemma_strictly_sorted_unique, str_byte_len, str_chars, str_eq, str_to_string, strictly_sorted,
    utf8_len,
};
use crate::types::{
    candidate_views, string_views, Candidate, CandidateSource, CandidateView, InputContext,
};

verus! {

#[verifier::external_type_specification]
#[verifier::external_body]
#[verifier::reject_recursive_types(K)]
#[verifier::reject_recursive_types(V)]
#[verifier::reject_recursive_types(S)]
pub struct ExLruCache<K, V, S>(lru::LruCache<K, V, S>);

#[verifier::external_type_specification]
#[verifier::external_body]
pub struct ExLruDefaultHasher(lru::DefaultHasher);

/// The codes that a cache of candidates holds, each with its candidates.
pub uninterp spec fn cached(c: lru::LruCache<String, Vec<Candidate<i128>>>) -> Map<
    Seq<char>,
    Seq<CandidateView<i128>>,
>;

/// The most entries that a cache of candidates holds.
pub uninterp spec fn cache_capacity(c: lru::LruCache<String, Vec<Candidate<i128>>>) -> nat;

/// The largest cache a matcher makes: a 128th of the address space.
/// `LruCache::new` allocates the hashbrown map of a cache for all its
/// entries at once (16 bytes and a control byte for each of a power of two
/// of at least 8/7 of them), and hashbrown panics with a capacity overflow
/// once that table's layout outgrows `isize`; caches up to this size stay
/// clear of that.
pub const MAX_CACHE_SIZE: usize = usize::MAX / 128;

/// `lru::LruCache::new` on `NonZeroUsize::new(cap)`: `None` when `cap` is 0,
/// otherwise an empty cache that holds at most `cap` entries.
#[verifier::external_body]
fn cache_new(cap: usize) -> (r: Option<lru::LruCache<String, Vec<Candidate<i128>>>>)
    requires
        cap <= MAX_CACHE_SIZE,
    ensures
        r is Some <==> cap > 0,
        r is Some ==> cached(r->0) == no_answers(),
        r is Some ==> cache_capacity(r->0) == cap,
{
    std::num::NonZeroUsize::new(cap).map(lru::LruCache::new)
}

/// `lru::LruCache::get`, with what it finds cloned: the candidates cached
/// for `code`, if any. It moves the entry to the front of the order of use,
/// which the contents do not show: they stay as they were.
#[verifier::external_body]
fn cache_get(c: &mut lru::LruCache<String, Vec<Candidate<i128>>>, code: &str) -> (r: Option<
    Vec<Candidate<i128>>,
>)
    ensures
        cached(*final(c)) == cached(*old(c)),
        cache_capacity(*final(c)) == cache_capacity(*old(c)),
        r is Some <==> cached(*old(c)).dom().contains(code@),
        r matches Some(v) ==> candidate_views(v@) == cached(*old(c))[code@],
{
    c.get(code).cloned()
}

/// `lru::LruCache::put`: `code` now holds `v`. When the cache was full and
/// did not hold `code`, the entry used least recently leaves; every other
/// entry stays as it was.
#[verifier::external_body]
fn cache_put(c: &mut lru::LruCache<String, Vec<Candidate<i128>>>, code: String, v: Vec<Candidate<i128>>)
    ensures
        cached(*final(c)).dom().contains(code@),
        cached(*final(c))[code@] == candidate_views(v@),
        forall|k: Seq<char>|
            #[trigger] cached(*final(c)).dom().contains(k) && k != code@ ==> cached(
                *old(c),
            ).dom().contains(k) && cached(*final(c))[k] == cached(*old(c))[k],
        cache_capacity(*final(c)) == cache_capacity(*old(c)),
{
    let _ = c.put(code, v);
}

/// `lru::LruCache::clear`: the cache holds nothing.
#[verifier::external_body]
fn cache_clear(c: &mut lru::LruCache<String, Vec<Candidate<i128>>>)
    ensures
        cached(*final(c)) == no_answers(),
        cache_capacity(*final(c)) == cache_capacity(*old(c)),
{
    c.clear()
}

/// `lru::LruCache::len`: the number of entries held.
#[verifier::external_body]
fn cache_len_of(c: &lru::LruCache<String, Vec<Candidate<i128>>>) -> (r: usize)
    ensures
        r == cached(*c).len(),
{
    c.len()
}

/// No answers at all.
pub open spec fn no_answers() -> Map<Seq<char>, Seq<CandidateView<i128>>> {
    Map::empty()
}

/// A candidate of the system dictionary scored `score`.
pub open spec fn system_candidate(text: Seq<char>, code: Seq<char>, score: int) -> CandidateView<
    i128,
> {
    CandidateView {
        text,
        code,
        score: score as i128,
        source: CandidateSource::System,
        ngram_score: None,
        user_weight: None,
    }
}

/// The candidates of an exact lookup: each entry of the code, scored 100
/// more than its frequency.
pub open spec fn exact_candidates(d: FstDictView, code: Seq<char>) -> Seq<CandidateView<i128>> {
    lookup_result(d, code).map_values(
        |e: DictEntryView| system_candidate(e.word, code, 100 + e.freq),
    )
}

/// The score of a prefix match: 90 for the code itself, otherwise 70 less
/// 5 for each byte by which the entry's code is longer.
pub open spec fn prefix_score(entry_code: Seq<char>, code: Seq<char>) -> int {
    if entry_code == code {
        90
    } else {
        70 - 5 * (utf8_len(entry_code) - utf8_len(code))
    }
}

/// The candidates of a prefix lookup.
pub open spec fn prefix_candidates(d: FstDictView, code: Seq<char>) -> Seq<CandidateView<i128>> {
    prefix_result(d, code).map_values(
        |e: DictEntryView| system_candidate(e.word, e.code, prefix_score(e.code, code)),
    )
}

/// The score of a match within an edit distance: 100 at distance 0,
/// otherwise 50 less 10 for each edit.
pub open spec fn distance_score(dist: usize) -> int {
    if dist == 0 {
        100
    } else {
        50 - 10 * dist
    }
}

/// The candidates whose code is within `max` edits of `code`.
pub open spec fn near_candidates(d: FstDictView, code: Seq<char>, max: usize) -> Seq<
    CandidateView<i128>,
> {
    fuzzy_result(d, code, max).map_values(
        |x: (DictEntryView, usize)| system_candidate(x.0.word, x.0.code, distance_score(x.1)),
    )
}

/// The candidates of an exact lookup of each of the variants `vs` other
/// than `code` itself, in turn, scored 80.
pub open spec fn variant_candidates(d: FstDictView, code: Seq<char>, vs: Seq<Seq<char>>) -> Seq<
    CandidateView<i128>,
>
    decreases vs.len(),
{
    if vs.len() == 0 {
        seq![]
    } else {
        variant_candidates(d, code, vs.drop_last()) + if vs.last() == code {
            Seq::<CandidateView<i128>>::empty()
        } else {
            lookup_result(d, vs.last()).map_values(
                |e: DictEntryView| system_candidate(e.word, e.code, 80),
            )
        }
    }
}

/// Index of the first candidate of `s` scored below `x`.
pub open spec fn first_below_score(s: Seq<CandidateView<i128>>, x: i128) -> int
    decreases s.len(),
{
    if s.len() == 0 {
        0
    } else if s[0].score < x {
        0
    } else {
        1 + first_below_score(s.drop_first(), x)
    }
}

/// The candidates stably sorted by score, highest first.
pub open spec fn by_score(s: Seq<CandidateView<i128>>) -> Seq<CandidateView<i128>>
    decreases s.len(),
{
    if s.len() == 0 {
        seq![]
    } else {
        let t = by_score(s.drop_last());
        let p = first_below_score(t, s.last().score);
        t.take(p) + seq![s.last()] + t.skip(p)
    }
}

/// The texts of `set` in increasing order.
pub open spec fn sorted_texts(set: Set<Seq<char>>) -> Seq<Seq<char>> {
    choose|v: Seq<Seq<char>>| strictly_sorted(v) && v.to_set() == set
}

/// The rules of matcher settings grouped by source.
pub open spec fn config_groups(cfg: MatcherConfig) -> Seq<(Seq<char>, Seq<Seq<char>>)> {
    rule_groups(rule_views(cfg.fuzzy_config.rules@))
}

/// The variants of `code` that fuzzy matching looks up: `code` alone when
/// the rules are off, otherwise all its variants in increasing order.
pub open spec fn variant_list(code: Seq<char>, cfg: MatcherConfig) -> Seq<Seq<char>> {
    if cfg.fuzzy_config.enabled {
        sorted_texts(all_variants(code, config_groups(cfg))->0.to_set())
    } else {
        seq![code]
    }
}

/// The candidates of a fuzzy lookup: none when fuzzy matching is off;
/// otherwise those within the edit distance, then those of the variants,
/// stably sorted by score, with the first of each word and code kept.
pub open spec fn fuzzy_candidates(d: FstDictView, code: Seq<char>, cfg: MatcherConfig) -> Seq<
    CandidateView<i128>,
> {
    if cfg.fuzzy_enabled {
        dedup_text_code(
            by_score(
                near_candidates(d, code, cfg.fuzzy_config.max_edit_distance) + variant_candidates(
                    d,
                    code,
                    variant_list(code, cfg),
                ),
            ),
        )
    } else {
        seq![]
    }
}

/// All matches of `code`: the exact, prefix and fuzzy candidates stably
/// sorted by score, with the first of each word kept; none without a
/// dictionary.
pub open spec fn match_candidates(d: Option<FstDictView>, code: Seq<char>, cfg: MatcherConfig) -> Seq<
    CandidateView<i128>,
> {
    match d {
        Some(d) => dedup_text(
            by_score(
                exact_candidates(d, code) + prefix_candidates(d, code) + fuzzy_candidates(
                    d,
                    code,
                    cfg,
                ),
            ),
        ),
        None => seq![],
    }
}

/// The answer for `code`: nothing for an empty code, otherwise its matches,
/// at most `max_candidates` of them.
pub open spec fn shown_candidates(d: Option<FstDictView>, code: Seq<char>, cfg: MatcherConfig) -> Seq<
    CandidateView<i128>,
> {
    if code.len() == 0 {
        seq![]
    } else {
        let m = match_candidates(d, code, cfg);
        if cfg.max_candidates < m.len() {
            m.take(cfg.max_candidates as int)
        } else {
            m
        }
    }
}

/// Whether the variants of `code` can be generated wherever matching needs
/// them (a rule whose replacement would cut a character stops it).
pub open spec fn variants_ready(d: Option<FstDictView>, code: Seq<char>, cfg: MatcherConfig) -> bool {
    (d is Some && cfg.fuzzy_enabled && cfg.fuzzy_config.enabled) ==> variants_defined(
        code,
        config_groups(cfg),
    )
}

/// Settings of a matcher.
pub struct MatcherConfig {
    /// Whether fuzzy matching is on.
    pub fuzzy_enabled: bool,
    /// Settings of fuzzy matching.
    pub fuzzy_config: FuzzyConfig,
    /// The most candidates an answer holds.
    pub max_candidates: usize,
    /// Whether answers are cached.
    pub cache_enabled: bool,
    /// How many answers the cache keeps.
    pub cache_size: usize,
}

impl Default for MatcherConfig {
    /// Fuzzy matching on with its default settings, 10 candidates, and a
    /// cache of 1000 answers.
    fn default() -> (r: Self)
        ensures
            r.fuzzy_enabled,
            r.fuzzy_config.enabled,
            crate::fuzzy::rule_full_views(r.fuzzy_config.rules@)
                == crate::fuzzy::all_preset_rules(),
            r.fuzzy_config.max_edit_distance == 1,
            r.max_candidates == 10,
            r.cache_enabled,
            r.cache_size == 1000,
    {
        MatcherConfig {
            fuzzy_enabled: true,
            fuzzy_config: FuzzyConfig::default(),
            max_candidates: 10,
            cache_enabled: true,
            cache_size: 1000,
        }
    }
}

impl MatcherConfig {
    /// A copy of these settings.
    pub fn duplicate(&self) -> (r: Self)
        ensures
            r.fuzzy_enabled == self.fuzzy_enabled,
            r.fuzzy_config.enabled == self.fuzzy_config.enabled,
            r.fuzzy_config.rules@ == self.fuzzy_config.rules@,
            r.fuzzy_config.max_edit_distance == self.fuzzy_config.max_edit_distance,
            r.max_candidates == self.max_candidates,
            r.cache_enabled == self.cache_enabled,
            r.cache_size == self.cache_size,
    {
        MatcherConfig {
            fuzzy_enabled: self.fuzzy_enabled,
            fuzzy_config: self.fuzzy_config.duplicate(),
            max_candidates: self.max_candidates,
            cache_enabled: self.cache_enabled,
            cache_size: self.cache_size,
        }
    }
}

/// A copy of a candidate.
fn duplicate_candidate(c: &Candidate<i128>) -> (r: Candidate<i128>)
    ensures
        r@ == c@,
{
    Candidate {
        text: c.text.clone(),
        code: c.code.clone(),
        score: c.score,
        source: c.source,
        ngram_score: c.ngram_score,
        user_weight: c.user_weight,
    }
}

/// A copy of a list of candidates.
fn duplicate_candidates(v: &Vec<Candidate<i128>>) -> (r: Vec<Candidate<i128>>)
    ensures
        candidate_views(r@) == candidate_views(v@),
{
    let ghost want = candidate_views(v@);
    let mut r: Vec<Candidate<i128>> = Vec::new();
    let mut i: usize = 0;
    while i < v.len()
        invariant
            i <= v@.len(),
            want == candidate_views(v@),
            candidate_views(r@) == want.take(i as int),
        decreases v@.len() - i,
    {
        let ghost r0 = candidate_views(r@);
        r.push(duplicate_candidate(&v[i]));
        assert(candidate_views(r@) =~= r0.push(want[i as int]));
        assert(want.take(i + 1) =~= want.take(i as int).push(want[i as int]));
        i = i + 1;
    }
    assert(want.take(want.len() as int) == want);
    r
}

/// A candidate of the system dictionary.
fn system(text: String, code: String, score: i128) -> (r: Candidate<i128>)
    ensures
        r@ == system_candidate(text@, code@, score as int),
{
    Candidate {
        text,
        code,
        score,
        source: CandidateSource::System,
        ngram_score: None,
        user_weight: None,
    }
}

/// The candidates stably sorted by score, highest first.
fn sort_by_score(v: Vec<Candidate<i128>>) -> (r: Vec<Candidate<i128>>)
    ensures
        candidate_views(r@) == by_score(candidate_views(v@)),
{
    let ghost cv = candidate_views(v@);
    let mut sorted: Vec<Candidate<i128>> = Vec::new();
    let mut i: usize = 0;
    assert(cv.take(0) =~= Seq::<CandidateView<i128>>::empty());
    while i < v.len()
        invariant
            i <= v@.len(),
            cv == candidate_views(v@),
            candidate_views(sorted@) == by_score(cv.take(i as int)),
        decreases v@.len() - i,
    {
        assert(cv.take(i + 1).drop_last() == cv.take(i as int));
        assert(cv.take(i + 1).last() == cv[i as int]);
        let ghost sv = candidate_views(sorted@);
        let x = v[i].score;
        let mut p: usize = 0;
        assert(sv.skip(0) == sv);
        while p < sorted.len() && sorted[p].score >= x
            invariant
                p <= sorted@.len(),
                sv == candidate_views(sorted@),
                first_below_score(sv, x) == p + first_below_score(sv.skip(p as int), x),
            decreases sorted@.len() - p,
        {
            assert(sv.skip(p as int)[0] == sv[p as int]);
            assert(sv.skip(p as int).drop_first() == sv.skip(p + 1));
            p = p + 1;
        }
        proof {
            if p < sv.len() {
                assert(sv.skip(p as int)[0] == sv[p as int]);
            }
        }
        sorted.insert(p, duplicate_candidate(&v[i]));
        assert(candidate_views(sorted@) =~= sv.take(p as int) + seq![cv[i as int]] + sv.skip(p as int));
        i = i + 1;
    }
    assert(cv.take(cv.len() as int) == cv);
    sorted
}

/// The candidates of entries of an exact lookup of `code`.
fn exact_of(es: &Vec<DictEntry>, code: &str) -> (r: Vec<Candidate<i128>>)
    ensures
        candidate_views(r@) == dict_views(es@).map_values(
            |e: DictEntryView| system_candidate(e.word, code@, 100 + e.freq),
        ),
{
    let ghost want = dict_views(es@).map_values(
        |e: DictEntryView| system_candidate(e.word, code@, 100 + e.freq),
    );
    let mut r: Vec<Candidate<i128>> = Vec::new();
    let mut i: usize = 0;
    while i < es.len()
        invariant
            i <= es@.len(),
            want == dict_views(es@).map_values(
                |e: DictEntryView| system_candidate(e.word, code@, 100 + e.freq),
            ),
            candidate_views(r@) == want.take(i as int),
        decreases es@.len() - i,
    {
        let ghost r0 = candidate_views(r@);
        let score: i128 = 100 + es[i].freq as i128;
        r.push(system(es[i].word.clone(), str_to_string(code), score));
        assert(candidate_views(r@) =~= r0.push(want[i as int]));
        assert(want.take(i + 1) =~= want.take(i as int).push(want[i as int]));
        i = i + 1;
    }
    assert(want.take(want.len() as int) == want);
    r
}

/// The candidates of entries of a prefix lookup of `code`.
fn prefix_of(es: &Vec<DictEntry>, code: &str) -> (r: Vec<Candidate<i128>>)
    ensures
        candidate_views(r@) == dict_views(es@).map_values(
            |e: DictEntryView| system_candidate(e.word, e.code, prefix_score(e.code, code@)),
        ),
{
    let ghost want = dict_views(es@).map_values(
        |e: DictEntryView| system_candidate(e.word, e.code, prefix_score(e.code, code@)),
    );
    let code_len = str_byte_len(code);
    let mut r: Vec<Candidate<i128>> = Vec::new();
    let mut i: usize = 0;
    while i < es.len()
        invariant
            i <= es@.len(),
            code_len == utf8_len(code@),
            want == dict_views(es@).map_values(
                |e: DictEntryView| system_candidate(e.word, e.code, prefix_score(e.code, code@)),
            ),
            candidate_views(r@) == want.take(i as int),
        decreases es@.len() - i,
    {
        let ghost r0 = candidate_views(r@);
        let score: i128 = if str_eq(es[i].code.as_str(), code) {
            90
        } else {
            let len = str_byte_len(es[i].code.as_str());
            70 - 5 * (len as i128 - code_len as i128)
        };
        r.push(system(es[i].word.clone(), es[i].code.clone(), score));
        assert(candidate_views(r@) =~= r0.push(want[i as int]));
        assert(want.take(i + 1) =~= want.take(i as int).push(want[i as int]));
        i = i + 1;
    }
    assert(want.take(want.len() as int) == want);
    r
}

/// The candidates of results of a lookup within an edit distance.
fn near_of(rs: &Vec<(DictEntry, usize)>) -> (r: Vec<Candidate<i128>>)
    ensures
        candidate_views(r@) == rs@.map_values(|x: (DictEntry, usize)| (x.0@, x.1)).map_values(
            |x: (DictEntryView, usize)| system_candidate(x.0.word, x.0.code, distance_score(x.1)),
        ),
{
    let ghost want = rs@.map_values(|x: (DictEntry, usize)| (x.0@, x.1)).map_values(
        |x: (DictEntryView, usize)| system_candidate(x.0.word, x.0.code, distance_score(x.1)),
    );
    let mut r: Vec<Candidate<i128>> = Vec::new();
    let mut i: usize = 0;
    while i < rs.len()
        invariant
            i <= rs@.len(),
            want == rs@.map_values(|x: (DictEntry, usize)| (x.0@, x.1)).map_values(
                |x: (DictEntryView, usize)| system_candidate(x.0.word, x.0.code, distance_score(x.1)),
            ),
            candidate_views(r@) == want.take(i as int),
        decreases rs@.len() - i,
    {
        let ghost r0 = candidate_views(r@);
        let dist = rs[i].1;
        let score: i128 = if dist == 0 {
            100
        } else {
            50 - 10 * (dist as i128)
        };
        r.push(system(rs[i].0.word.clone(), rs[i].0.code.clone(), score));
        assert(candidate_views(r@) =~= r0.push(want[i as int]));
        assert(want.take(i + 1) =~= want.take(i as int).push(want[i as int]));
        i = i + 1;
    }
    assert(want.take(want.len() as int) == want);
    r
}

/// Appends to `r` the candidates of entries of an exact lookup of a
/// variant, scored 80.
fn push_variant_entries(r: &mut Vec<Candidate<i128>>, es: &Vec<DictEntry>)
    ensures
        candidate_views(final(r)@) == candidate_views(old(r)@) + dict_views(es@).map_values(
            |e: DictEntryView| system_candidate(e.word, e.code, 80),
        ),
{
    let ghost r00 = candidate_views(r@);
    let ghost want = dict_views(es@).map_values(|e: DictEntryView| system_candidate(e.word, e.code, 80));
    let mut i: usize = 0;
    assert(r00 + want.take(0) =~= r00);
    while i < es.len()
        invariant
            i <= es@.len(),
            want == dict_views(es@).map_values(|e: DictEntryView| system_candidate(e.word, e.code, 80)),
            candidate_views(r@) == r00 + want.take(i as int),
        decreases es@.len() - i,
    {
        let ghost r0 = candidate_views(r@);
        r.push(system(es[i].word.clone(), es[i].code.clone(), 80));
        assert(candidate_views(r@) =~= r0.push(want[i as int]));
        assert(r00 + want.take(i + 1) =~= (r00 + want.take(i as int)).push(want[i as int]));
        i = i + 1;
    }
    assert(want.take(want.len() as int) == want);
}

/// The matcher: a dictionary, fuzzy matching, and a cache of answers.
pub struct Matcher {
    config: MatcherConfig,
    dict: Option<FstDict>,
    fuzzy_matcher: FuzzyMatcher,
    cache: Option<lru::LruCache<String, Vec<Candidate<i128>>>>,
}

impl Matcher {
    /// The settings of the matcher.
    pub closed spec fn settings(&self) -> MatcherConfig {
        self.config
    }

    /// The dictionary, if one is loaded.
    pub closed spec fn dict_view(&self) -> Option<FstDictView> {
        match self.dict {
            Some(d) => Some(d@),
            None => None,
        }
    }

    /// What the cache holds (nothing when there is no cache).
    pub closed spec fn cache_map(&self) -> Map<Seq<char>, Seq<CandidateView<i128>>> {
        match self.cache {
            Some(c) => cached(c),
            None => Map::empty(),
        }
    }

    /// The fuzzy matcher follows the fuzzy settings.
    closed spec fn fuzzy_in_step(&self) -> bool {
        &&& self.fuzzy_matcher.settings().enabled == self.config.fuzzy_config.enabled
        &&& self.fuzzy_matcher.settings().rules@ == self.config.fuzzy_config.rules@
    }

    /// The fuzzy matcher follows the settings, there is a cache exactly
    /// when caching is on, and each answer it holds is the current answer
    /// for its code.
    pub closed spec fn well_formed(&self) -> bool {
        &&& self.fuzzy_in_step()
        &&& (self.cache is Some <==> self.config.cache_enabled)
        &&& forall|k: Seq<char>| #[trigger]
            self.cache_map().dom().contains(k) ==> self.cache_map()[k] == shown_candidates(
                self.dict_view(),
                k,
                self.config,
            )
    }

    /// A cache of `size` answers (at least 1).
    fn new_cache(size: usize) -> (r: Option<lru::LruCache<String, Vec<Candidate<i128>>>>)
        requires
            size <= MAX_CACHE_SIZE,
        ensures
            r matches Some(c) && cached(c) == no_answers(),
    {
        cache_new(
            if size < 1 {
                1
            } else {
                size
            },
        )
    }

    /// A matcher with these settings and no dictionary.
    pub fn new(config: MatcherConfig) -> (r: Self)
        requires
            config.cache_enabled ==> config.cache_size <= MAX_CACHE_SIZE,
        ensures
            r.well_formed(),
            r.settings() == config,
            r.dict_view() is None,
            r.cache_map() == no_answers(),
    {
        let cache = if config.cache_enabled {
            Self::new_cache(config.cache_size)
        } else {
            None
        };
        let fuzzy_matcher = FuzzyMatcher::new(config.fuzzy_config.duplicate());
        Matcher { config, dict: None, fuzzy_matcher, cache }
    }

    /// A matcher with these settings and this dictionary.
    pub fn with_dict(config: MatcherConfig, dict: FstDict) -> (r: Self)
        requires
            config.cache_enabled ==> config.cache_size <= MAX_CACHE_SIZE,
        ensures
            r.well_formed(),
            r.settings() == config,
            r.dict_view() == Some(dict@),
            r.cache_map() == no_answers(),
    {
        let cache = if config.cache_enabled {
            Self::new_cache(config.cache_size)
        } else {
            None
        };
        let fuzzy_matcher = FuzzyMatcher::new(config.fuzzy_config.duplicate());
        Matcher { config, dict: Some(dict), fuzzy_matcher, cache }
    }

    /// Loads a dictionary in place of the one there was, and empties the
    /// cache.
    pub fn load_dict(&mut self, dict: FstDict)
        requires
            old(self).well_formed(),
        ensures
            final(self).well_formed(),
            final(self).settings() == old(self).settings(),
            final(self).dict_view() == Some(dict@),
            final(self).cache_map() == no_answers(),
    {
        self.dict = Some(dict);
        self.clear_cache_now();
    }

    /// Empties the cache, whatever the dictionary.
    fn clear_cache_now(&mut self)
        ensures
            final(self).config == old(self).config,
            final(self).dict == old(self).dict,
            final(self).fuzzy_matcher == old(self).fuzzy_matcher,
            final(self).cache is Some <==> old(self).cache is Some,
            final(self).cache_map() == no_answers(),
    {
        let taken = self.cache.take();
        match taken {
            Some(c) => {
                let mut c = c;
                cache_clear(&mut c);
                self.cache = Some(c);
            },
            None => {},
        }
    }

    /// Empties the cache.
    pub fn clear_cache(&mut self)
        requires
            old(self).well_formed(),
        ensures
            final(self).well_formed(),
            final(self).settings() == old(self).settings(),
            final(self).dict_view() == old(self).dict_view(),
            final(self).cache_map() == no_answers(),
    {
        self.clear_cache_now();
    }

    /// Whether the fuzzy variants of `code` can be generated where matching
    /// needs them; matching stops on the codes for which they cannot.
    pub fn can_match(&self, code: &str) -> (r: bool)
        requires
            self.well_formed(),
        ensures
            r == variants_ready(self.dict_view(), code@, self.settings()),
    {
        if self.dict.is_some() && self.config.fuzzy_enabled && self.config.fuzzy_config.enabled {
            self.fuzzy_matcher.checked_variants(code).is_some()
        } else {
            true
        }
    }

    /// The candidates of an exact lookup of `code`.
    pub fn exact_lookup(&self, code: &str) -> (r: Vec<Candidate<i128>>)
        ensures
            candidate_views(r@) == match self.dict_view() {
                Some(d) => exact_candidates(d, code@),
                None => seq![],
            },
    {
        match &self.dict {
            Some(dict) => {
                let es = dict.lookup(code);
                exact_of(&es, code)
            },
            None => Vec::new(),
        }
    }

    /// The candidates of a prefix lookup of `code`.
    pub fn prefix_lookup(&self, code: &str) -> (r: Vec<Candidate<i128>>)
        ensures
            candidate_views(r@) == match self.dict_view() {
                Some(d) => prefix_candidates(d, code@),
                None => seq![],
            },
    {
        match &self.dict {
            Some(dict) => {
                let es = dict.prefix_lookup(code);
                prefix_of(&es, code)
            },
            None => Vec::new(),
        }
    }

    /// The candidates of a fuzzy lookup of `code`: those within the edit
    /// distance, then those of its rule variants, sorted by score, the first
    /// of each word and code kept.
    pub fn fuzzy_lookup(&self, code: &str) -> (r: Vec<Candidate<i128>>)
        requires
            self.well_formed(),
            variants_ready(self.dict_view(), code@, self.settings()),
        ensures
            candidate_views(r@) == match self.dict_view() {
                Some(d) => fuzzy_candidates(d, code@, self.settings()),
                None => seq![],
            },
    {
        self.fuzzy_of(code)
    }

    /// `fuzzy_lookup`, needing only that the fuzzy matcher follows the
    /// settings.
    fn fuzzy_of(&self, code: &str) -> (r: Vec<Candidate<i128>>)
        requires
            self.fuzzy_in_step(),
            variants_ready(self.dict_view(), code@, self.settings()),
        ensures
            candidate_views(r@) == match self.dict_view() {
                Some(d) => fuzzy_candidates(d, code@, self.settings()),
                None => seq![],
            },
    {
        if !self.config.fuzzy_enabled {
            return Vec::new();
        }
        let dict = match &self.dict {
            Some(d) => d,
            None => {
                return Vec::new();
            },
        };
        let ghost d = dict@;
        let ghost cfg = self.config;
        let near = dict.fuzzy_lookup(code, self.config.fuzzy_config.max_edit_distance);
        let mut candidates = near_of(&near);
        let ghost base = candidate_views(candidates@);
        assert(base == near_candidates(d, code@, cfg.fuzzy_config.max_edit_distance));
        assert(self.fuzzy_matcher.groups() == config_groups(cfg));
        let vs = self.fuzzy_matcher.generate_variants(code);
        let ghost sv = string_views(vs@);
        proof {
            if cfg.fuzzy_config.enabled {
                let set = all_variants(code@, config_groups(cfg))->0.to_set();
                assert(strictly_sorted(sv) && sv.to_set() == set);
                let w = sorted_texts(set);
                assert(strictly_sorted(w) && w.to_set() == set);
                lemma_strictly_sorted_unique(w, sv);
            }
        }
        assert(sv == variant_list(code@, cfg));
        let mut j: usize = 0;
        assert(sv.take(0) =~= Seq::<Seq<char>>::empty());
        assert(base + variant_candidates(d, code@, sv.take(0)) =~= base);
        while j < vs.len()
            invariant
                j <= vs@.len(),
                sv == string_views(vs@),
                d == dict@,
                candidate_views(candidates@) == base + variant_candidates(d, code@, sv.take(j as int)),
            decreases vs@.len() - j,
        {
            assert(sv.take(j + 1).drop_last() == sv.take(j as int));
            assert(sv.take(j + 1).last() == sv[j as int]);
            assert(sv[j as int] == vs@[j as int]@);
            let ghost c0 = candidate_views(candidates@);
            if !str_eq(vs[j].as_str(), code) {
                let es = dict.lookup(vs[j].as_str());
                push_variant_entries(&mut candidates, &es);
            } else {
                assert(c0 + Seq::<CandidateView<i128>>::empty() =~= c0);
            }
            assert(candidate_views(candidates@) == base + variant_candidates(d, code@, sv.take(j + 1)));
            j = j + 1;
        }
        assert(sv.take(vs@.len() as int) == sv);
        let mut sorted = sort_by_score(candidates);
        CandidateFilter::deduplicate(&mut sorted);
        sorted
    }

    /// All matches of `code`: exact, prefix and fuzzy, sorted by score, the
    /// first of each word kept.
    fn do_match(&self, code: &str) -> (r: Vec<Candidate<i128>>)
        requires
            self.fuzzy_in_step(),
            variants_ready(self.dict_view(), code@, self.settings()),
        ensures
            candidate_views(r@) == match_candidates(self.dict_view(), code@, self.settings()),
    {
        let mut candidates = self.exact_lookup(code);
        let mut prefix = self.prefix_lookup(code);
        let ghost c0 = candidate_views(candidates@);
        let ghost p0 = candidate_views(prefix@);
        candidates.append(&mut prefix);
        assert(candidate_views(candidates@) =~= c0 + p0);
        if self.config.fuzzy_enabled {
            let mut fuzzy = self.fuzzy_of(code);
            let ghost c1 = candidate_views(candidates@);
            let ghost f0 = candidate_views(fuzzy@);
            candidates.append(&mut fuzzy);
            assert(candidate_views(candidates@) =~= c1 + f0);
        } else {
            proof {
                match self.dict_view() {
                    Some(d) => {
                        assert(c0 + p0 =~= c0 + p0 + fuzzy_candidates(d, code@, self.settings()));
                    },
                    None => {},
                }
            }
        }
        let mut sorted = sort_by_score(candidates);
        proof {
            if self.dict_view() is None {
                assert(candidate_views(sorted@) =~= Seq::<CandidateView<i128>>::empty());
            }
        }
        CandidateFilter::dedup_by_text(&mut sorted);
        sorted
    }

    /// The candidates for the code typed in `context`: nothing for an
    /// empty code; otherwise its matches, at most `max_candidates` of them,
    /// from the cache when it holds the code, and kept there when caching
    /// is on.
    pub fn match_input(&mut self, context: &InputContext) -> (r: Vec<Candidate<i128>>)
        requires
            old(self).well_formed(),
            variants_ready(old(self).dict_view(), context.buffer@, old(self).settings()),
        ensures
            final(self).well_formed(),
            final(self).settings() == old(self).settings(),
            final(self).dict_view() == old(self).dict_view(),
            candidate_views(r@) == shown_candidates(
                old(self).dict_view(),
                context.buffer@,
                old(self).settings(),
            ),
            context.buffer@.len() > 0 && old(self).settings().cache_enabled ==> final(self).cache_map().dom().contains(context.buffer@),
            forall|k: Seq<char>| #[trigger]
                final(self).cache_map().dom().contains(k) ==> k == context.buffer@ || old(self).cache_map().dom().contains(k),
    {
        let code = context.buffer.as_str();
        let chars = str_chars(code);
        if chars.len() == 0 {
            return Vec::new();
        }
        let ghost d = self.dict_view();
        let ghost cfg = self.config;
        let ghost m_old = self.cache_map();
        assert forall|k: Seq<char>| m_old.dom().contains(k) implies m_old[k] == shown_candidates(
            d,
            k,
            cfg,
        ) by {
            assert(self.cache_map().dom().contains(k));
        }
        let taken = self.cache.take();
        match taken {
            Some(c) => {
                let mut c = c;
                assert(cached(c) == m_old);
                match cache_get(&mut c, code) {
                    Some(v) => {
                        self.cache = Some(c);
                        assert(self.cache_map() == m_old);
                        assert(candidate_views(v@) == m_old[code@]);
                        v
                    },
                    None => {
                        let candidates = self.shown_of(code);
                        let copy = duplicate_candidates(&candidates);
                        cache_put(&mut c, str_to_string(code), copy);
                        self.cache = Some(c);
                        assert forall|k: Seq<char>| #[trigger]
                            self.cache_map().dom().contains(k) implies self.cache_map()[k]
                            == shown_candidates(d, k, cfg) by {
                            if k != code@ {
                                assert(m_old.dom().contains(k));
                            }
                        }
                        candidates
                    },
                }
            },
            None => self.shown_of(code),
        }
    }

    /// The answer for a non-empty `code`: its matches, at most
    /// `max_candidates` of them.
    fn shown_of(&self, code: &str) -> (r: Vec<Candidate<i128>>)
        requires
            self.fuzzy_in_step(),
            variants_ready(self.dict_view(), code@, self.settings()),
            code@.len() > 0,
        ensures
            candidate_views(r@) == shown_candidates(self.dict_view(), code@, self.settings()),
    {
        let mut candidates = self.do_match(code);
        candidates.truncate(self.config.max_candidates);
        assert(candidate_views(candidates@) =~= shown_candidates(self.dict_view(), code@, self.settings()));
        candidates
    }

    /// The settings of the matcher.
    pub fn config(&self) -> (r: &MatcherConfig)
        ensures
            *r == self.settings(),
    {
        &self.config
    }

    /// The number of answers in the cache.
    pub fn cache_len(&self) -> (r: usize)
        ensures
            r == self.cache_map().len(),
    {
        match &self.cache {
            Some(c) => cache_len_of(c),
            None => 0,
        }
    }
}

/// What the cache of a matcher holds for a code is what matching that code
/// gives now: a cached answer is never stale.
pub proof fn law_cached_answer_is_current(m: &Matcher, code: Seq<char>)
    requires
        m.well_formed(),
        m.cache_map().dom().contains(code),
    ensures
        m.cache_map()[code] == shown_candidates(m.dict_view(), code, m.settings()),
{
}

/// Builds a matcher step by step.
pub struct MatcherBuilder {
    config: MatcherConfig,
    dict: Option<FstDict>,
}

impl MatcherBuilder {
    /// The settings so far.
    pub closed spec fn settings(&self) -> MatcherConfig {
        self.config
    }

    /// The dictionary so far.
    pub closed spec fn dict_view(&self) -> Option<FstDictView> {
        match self.dict {
            Some(d) => Some(d@),
            None => None,
        }
    }

    /// A builder with the default settings and no dictionary.
    pub fn new() -> (r: Self)
        ensures
            r.settings().fuzzy_enabled,
            r.settings().fuzzy_config.enabled,
            crate::fuzzy::rule_full_views(r.settings().fuzzy_config.rules@)
                == crate::fuzzy::all_preset_rules(),
            r.settings().fuzzy_config.max_edit_distance == 1,
            r.settings().max_candidates == 10,
            r.settings().cache_enabled,
            r.settings().cache_size == 1000,
            r.dict_view() is None,
    {
        MatcherBuilder { config: MatcherConfig::default(), dict: None }
    }

    /// These settings.
    pub fn with_config(self, config: MatcherConfig) -> (r: Self)
        ensures
            r.settings() == config,
            r.dict_view() == self.dict_view(),
    {
        MatcherBuilder { config, dict: self.dict }
    }

    /// This dictionary.
    pub fn with_dict(self, dict: FstDict) -> (r: Self)
        ensures
            r.settings() == self.settings(),
            r.dict_view() == Some(dict@),
    {
        MatcherBuilder { config: self.config, dict: Some(dict) }
    }

    /// Fuzzy matching on or off.
    pub fn with_fuzzy(self, enabled: bool) -> (r: Self)
        ensures
            r.settings() == (MatcherConfig { fuzzy_enabled: enabled, ..self.settings() }),
            r.dict_view() == self.dict_view(),
    {
        let mut b = self;
        b.config.fuzzy_enabled = enabled;
        b
    }

    /// These fuzzy rules.
    pub fn with_fuzzy_rules(self, rules: Vec<FuzzyRule>) -> (r: Self)
        ensures
            r.settings() == (MatcherConfig {
                fuzzy_config: FuzzyConfig { rules, ..self.settings().fuzzy_config },
                ..self.settings()
            }),
            r.dict_view() == self.dict_view(),
    {
        let mut b = self;
        b.config.fuzzy_config.rules = rules;
        b
    }

    /// At most `max` candidates in an answer.
    pub fn with_max_candidates(self, max: usize) -> (r: Self)
        ensures
            r.settings() == (MatcherConfig { max_candidates: max, ..self.settings() }),
            r.dict_view() == self.dict_view(),
    {
        let mut b = self;
        b.config.max_candidates = max;
        b
    }

    /// Caching on or off, with room for `size` answers.
    pub fn with_cache(self, enabled: bool, size: usize) -> (r: Self)
        ensures
            r.settings() == (MatcherConfig {
                cache_enabled: enabled,
                cache_size: size,
                ..self.settings()
            }),
            r.dict_view() == self.dict_view(),
    {
        let mut b = self;
        b.config.cache_enabled = enabled;
        b.config.cache_size = size;
        b
    }

    /// The matcher of these settings, with the dictionary if there is one.
    pub fn build(self) -> (r: Matcher)
        requires
            self.settings().cache_enabled ==> self.settings().cache_size <= MAX_CACHE_SIZE,
        ensures
            r.well_formed(),
            r.settings() == self.settings(),
            r.dict_view() == self.dict_view(),
            r.cache_map() == no_answers(),
    {
        match self.dict {
            Some(dict) => Matcher::with_dict(self.config, dict),
            None => Matcher::new(self.config),
        }
    }
}

impl Default for MatcherBuilder {
    /// `MatcherBuilder::new()`.
    fn default() -> (r: Self)
        ensures
            r.settings().fuzzy_enabled,
            r.settings().max_candidates == 10,
            r.settings().cache_enabled,
            r.settings().cache_size == 1000,
            r.dict_view() is None,
    {
        Self::new()
    }
}

} // verus!

//! Rule-based fuzzy matching of pinyin: initials that are confused with
//! each other, finals that are mixed up, and small typing errors.
use vstd::prelude::*;

use crate::distance::{lev, levenshtein};
use crate::text::{
    char_index, chars_eq, chars_utf8_len, insert_sorted_unique, lemma_utf8_len_append,
    str_chars, str_to_string, string_from_chars, string_push_str, strictly_sorted, sub_chars,
    utf8_len, views, find_char_index,
};
use crate::types::string_views;

verus! {

broadcast use vstd::seq_lib::group_seq_properties;

/// A fuzzy rule: the text `from` may stand for the text `to`.
pub struct FuzzyRule {
    /// Name of the rule.
    pub name: String,
    /// The text that is replaced.
    pub from: String,
    /// The text put in its place.
    pub to: String,
    /// Whether the rule is used.
    pub enabled: bool,
    /// Priority (a larger number is a higher priority).
    pub priority: u32,
}

impl FuzzyRule {
    /// An enabled rule of priority 0.
    pub fn new(name: String, from: String, to: String) -> (r: Self)
        ensures
            r == (FuzzyRule { name, from, to, enabled: true, priority: 0 }),
    {
        FuzzyRule { name, from, to, enabled: true, priority: 0 }
    }

    /// Sets the priority.
    pub fn with_priority(self, priority: u32) -> (r: Self)
        ensures
            r == (FuzzyRule { priority, ..self }),
    {
        FuzzyRule { priority, ..self }
    }

    /// The text shown for the rule: `name: from -> to`.
    pub open spec fn spec_text(&self) -> Seq<char> {
        self.name@ + ": "@ + self.from@ + " -> "@ + self.to@
    }

    /// The text shown for the rule (what its `Display` writes).
    pub fn text(&self) -> (r: String)
        ensures
            r@ == self.spec_text(),
    {
        let mut r = self.name.clone();
        string_push_str(&mut r, ": ");
        string_push_str(&mut r, self.from.as_str());
        string_push_str(&mut r, " -> ");
        string_push_str(&mut r, self.to.as_str());
        r
    }

    /// A copy of this rule.
    pub fn duplicate(&self) -> (r: Self)
        ensures
            r == *self,
    {
        FuzzyRule {
            name: self.name.clone(),
            from: self.from.clone(),
            to: self.to.clone(),
            enabled: self.enabled,
            priority: self.priority,
        }
    }
}

/// A copy of a list of rules.
pub fn clone_rules(v: &Vec<FuzzyRule>) -> (r: Vec<FuzzyRule>)
    ensures
        r@ == v@,
{
    let mut r: Vec<FuzzyRule> = Vec::new();
    let mut i: usize = 0;
    while i < v.len()
        invariant
            i <= v@.len(),
            r@ == v@.take(i as int),
        decreases v@.len() - i,
    {
        r.push(v[i].duplicate());
        assert(v@.take(i + 1) == v@.take(i as int).push(v@[i as int]));
        i = i + 1;
    }
    assert(v@.take(v@.len() as int) == v@);
    r
}

/// Settings of fuzzy matching.
pub struct FuzzyConfig {
    /// Whether fuzzy matching is on.
    pub enabled: bool,
    /// The rules.
    pub rules: Vec<FuzzyRule>,
    /// Largest edit distance that still matches.
    pub max_edit_distance: usize,
}

impl Default for FuzzyConfig {
    /// On, with all preset rules, and an edit distance of at most 1.
    fn default() -> (r: Self)
        ensures
            r.enabled,
            rule_full_views(r.rules@) == all_preset_rules(),
            r.max_edit_distance == 1,
    {
        FuzzyConfig { enabled: true, rules: FuzzyRulePresets::all_rules(), max_edit_distance: 1 }
    }
}

impl FuzzyConfig {
    /// A copy of these settings.
    pub fn duplicate(&self) -> (r: Self)
        ensures
            r.enabled == self.enabled,
            r.rules@ == self.rules@,
            r.max_edit_distance == self.max_edit_distance,
    {
        FuzzyConfig {
            enabled: self.enabled,
            rules: clone_rules(&self.rules),
            max_edit_distance: self.max_edit_distance,
        }
    }
}

impl FuzzyRule {
    /// The rule as text: `name: from -> to` (what its `Display` writes).
    pub fn describe(&self) -> (r: String)
        ensures
            r@ == self.name@ + ": "@ + self.from@ + " -> "@ + self.to@,
    {
        let mut s = self.name.clone();
        crate::text::string_push_str(&mut s, ": ");
        crate::text::string_push_str(&mut s, self.from.as_str());
        crate::text::string_push_str(&mut s, " -> ");
        crate::text::string_push_str(&mut s, self.to.as_str());
        s
    }
}

/// What a rule says for matching: its source, its target, whether it is on.
pub open spec fn rule_view(r: FuzzyRule) -> (Seq<char>, Seq<char>, bool) {
    (r.from@, r.to@, r.enabled)
}

/// What the rules of a list say for matching.
pub open spec fn rule_views(rs: Seq<FuzzyRule>) -> Seq<(Seq<char>, Seq<char>, bool)> {
    rs.map_values(|r: FuzzyRule| rule_view(r))
}

/// Index of the group with source `from`.
pub open spec fn group_of(gs: Seq<(Seq<char>, Seq<Seq<char>>)>, from: Seq<char>) -> Option<int>
    decreases gs.len(),
{
    if gs.len() == 0 {
        None
    } else {
        match group_of(gs.drop_last(), from) {
            Some(i) => Some(i),
            None => if gs.last().0 == from {
                Some(gs.len() - 1)
            } else {
                None
            },
        }
    }
}

/// The enabled rules grouped by source: each source once, in the order in
/// which it first appears, with the targets of its rules in rule order.
pub open spec fn rule_groups(rs: Seq<(Seq<char>, Seq<char>, bool)>) -> Seq<
    (Seq<char>, Seq<Seq<char>>),
>
    decreases rs.len(),
{
    if rs.len() == 0 {
        seq![]
    } else {
        let gs = rule_groups(rs.drop_last());
        let r = rs.last();
        if !r.2 {
            gs
        } else {
            match group_of(gs, r.0) {
                Some(i) => gs.update(i, (gs[i].0, gs[i].1.push(r.1))),
                None => gs.push((r.0, seq![r.1])),
            }
        }
    }
}

/// Whether `f` occurs in `s` at character index `k`.
pub open spec fn occurs_at(s: Seq<char>, k: int, f: Seq<char>) -> bool {
    0 <= k && k + f.len() <= s.len() && s.subrange(k, k + f.len()) == f
}

/// The first group whose (non-empty) source occurs in `s` at index `k`.
pub open spec fn first_group_at(s: Seq<char>, gs: Seq<(Seq<char>, Seq<Seq<char>>)>, k: int) -> Option<
    int,
>
    decreases gs.len(),
{
    if gs.len() == 0 {
        None
    } else {
        match first_group_at(s, gs.drop_last(), k) {
            Some(g) => Some(g),
            None => if gs.last().0.len() > 0 && occurs_at(s, k, gs.last().0) {
                Some(gs.len() - 1)
            } else {
                None
            },
        }
    }
}

/// The replacements used on `s` from index `k` on, when the text before
/// `free` is taken: scanning positions from left to right, a position at
/// or after `free` where a source occurs gives a replacement by the first
/// such group, as start byte, end byte and targets; the next replacement
/// starts after its end, so replacements never overlap.
pub open spec fn replacements_from(
    s: Seq<char>,
    gs: Seq<(Seq<char>, Seq<Seq<char>>)>,
    k: int,
    free: int,
) -> Seq<(int, int, Seq<Seq<char>>)>
    decreases s.len() - k,
{
    if k < 0 || k >= s.len() {
        seq![]
    } else if k >= free && first_group_at(s, gs, k) is Some {
        let g = first_group_at(s, gs, k)->0;
        let sb = utf8_len(s.take(k)) as int;
        seq![(sb, sb + utf8_len(gs[g].0), gs[g].1)] + replacements_from(
            s,
            gs,
            k + 1,
            k + gs[g].0.len(),
        )
    } else {
        replacements_from(s, gs, k + 1, free)
    }
}

/// The replacements used on `s`.
pub open spec fn replacements(s: Seq<char>, gs: Seq<(Seq<char>, Seq<Seq<char>>)>) -> Seq<
    (int, int, Seq<Seq<char>>),
> {
    replacements_from(s, gs, 0, 0)
}

/// `v` with the bytes `sb..eb` replaced by `t`; `None` when `sb` or `eb` is
/// not a character boundary of `v`.
pub open spec fn replace_bytes(v: Seq<char>, sb: int, eb: int, t: Seq<char>) -> Option<Seq<char>> {
    match (char_index(v, sb), char_index(v, eb)) {
        (Some(i), Some(j)) => if i <= j {
            Some(v.take(i) + t + v.skip(j))
        } else {
            None
        },
        _ => None,
    }
}

/// `v` with the bytes `sb..eb` replaced by each of the targets in turn.
pub open spec fn expand_one(v: Seq<char>, sb: int, eb: int, ts: Seq<Seq<char>>) -> Option<
    Seq<Seq<char>>,
>
    decreases ts.len(),
{
    if ts.len() == 0 {
        Some(seq![])
    } else {
        match (expand_one(v, sb, eb, ts.drop_last()), replace_bytes(v, sb, eb, ts.last())) {
            (Some(a), Some(x)) => Some(a.push(x)),
            _ => None,
        }
    }
}

/// Each of `vs` with the bytes `sb..eb` replaced by each of the targets.
pub open spec fn expand(vs: Seq<Seq<char>>, sb: int, eb: int, ts: Seq<Seq<char>>) -> Option<
    Seq<Seq<char>>,
>
    decreases vs.len(),
{
    if vs.len() == 0 {
        Some(seq![])
    } else {
        match (expand(vs.drop_last(), sb, eb, ts), expand_one(vs.last(), sb, eb, ts)) {
            (Some(a), Some(b)) => Some(a + b),
            _ => None,
        }
    }
}

/// The variants after the replacements `reps`, one after the other: each
/// adds the results of using it on all variants so far.
pub open spec fn apply_replacements(vs: Seq<Seq<char>>, reps: Seq<(int, int, Seq<Seq<char>>)>) -> Option<
    Seq<Seq<char>>,
>
    decreases reps.len(),
{
    if reps.len() == 0 {
        Some(vs)
    } else {
        match expand(vs, reps[0].0, reps[0].1, reps[0].2) {
            Some(nv) => apply_replacements(vs + nv, reps.drop_first()),
            None => None,
        }
    }
}

/// All variants of `s` under the groups `gs` (with repeats): every
/// combination of keeping each place or replacing it by one of its
/// targets. The places are used from the right, so that each is replaced
/// before anything to its left changes length; `None` when a replacement
/// would cut a character.
pub open spec fn all_variants(s: Seq<char>, gs: Seq<(Seq<char>, Seq<Seq<char>>)>) -> Option<
    Seq<Seq<char>>,
> {
    apply_replacements(seq![s], replacements(s, gs).reverse())
}

/// Applying replacements keeps the variants there were, in front.
proof fn lemma_apply_keeps_prefix(vs: Seq<Seq<char>>, reps: Seq<(int, int, Seq<Seq<char>>)>)
    requires
        apply_replacements(vs, reps) is Some,
    ensures
        apply_replacements(vs, reps)->0.len() >= vs.len(),
        apply_replacements(vs, reps)->0.take(vs.len() as int) == vs,
    decreases reps.len(),
{
    if reps.len() > 0 {
        let nv = expand(vs, reps[0].0, reps[0].1, reps[0].2)->0;
        lemma_apply_keeps_prefix(vs + nv, reps.drop_first());
        let r = apply_replacements(vs, reps)->0;
        assert(r.take((vs + nv).len() as int) == vs + nv);
        assert(r.take(vs.len() as int) == (vs + nv).take(vs.len() as int));
        assert((vs + nv).take(vs.len() as int) == vs);
    }
}

/// The variants of a spelling include the spelling itself.
pub proof fn law_variants_include_input(s: Seq<char>, gs: Seq<(Seq<char>, Seq<Seq<char>>)>)
    requires
        all_variants(s, gs) is Some,
    ensures
        all_variants(s, gs)->0.contains(s),
{
    lemma_apply_keeps_prefix(seq![s], replacements(s, gs).reverse());
    let r = all_variants(s, gs)->0;
    assert(r.take(1) == seq![s]);
    assert(r[0] == s);
}

/// No group's source occurs in `s`.
pub open spec fn no_source_occurs(s: Seq<char>, gs: Seq<(Seq<char>, Seq<Seq<char>>)>) -> bool {
    forall|g: int, k: int|
        0 <= g < gs.len() && gs[g].0.len() > 0 ==> !#[trigger] occurs_at(s, k, gs[g].0)
}

/// Where no source occurs at `k`, no group is found there.
proof fn lemma_no_group_at(s: Seq<char>, gs: Seq<(Seq<char>, Seq<Seq<char>>)>, k: int)
    requires
        no_source_occurs(s, gs),
    ensures
        first_group_at(s, gs, k) is None,
    decreases gs.len(),
{
    if gs.len() > 0 {
        let h = gs.drop_last();
        assert forall|g: int, j: int| 0 <= g < h.len() && h[g].0.len() > 0 implies !#[trigger] occurs_at(s, j, h[g].0) by {
            assert(h[g] == gs[g]);
            assert(!occurs_at(s, j, gs[g].0));
        }
        lemma_no_group_at(s, h, k);
        if gs.last().0.len() > 0 {
            assert(!occurs_at(s, k, gs[gs.len() - 1].0));
        }
    }
}

/// Where no source occurs, there are no replacements.
proof fn lemma_no_replacements(s: Seq<char>, gs: Seq<(Seq<char>, Seq<Seq<char>>)>, k: int, free: int)
    requires
        no_source_occurs(s, gs),
    ensures
        replacements_from(s, gs, k, free) == Seq::<(int, int, Seq<Seq<char>>)>::empty(),
    decreases s.len() - k,
{
    if 0 <= k < s.len() {
        lemma_no_group_at(s, gs, k);
        lemma_no_replacements(s, gs, k + 1, free);
    }
}

/// Where no rule's source occurs in a spelling, its only variant is itself.
pub proof fn law_no_source_no_variant(s: Seq<char>, gs: Seq<(Seq<char>, Seq<Seq<char>>)>)
    requires
        no_source_occurs(s, gs),
    ensures
        all_variants(s, gs) == Some(seq![s]),
{
    lemma_no_replacements(s, gs, 0, 0);
    assert(replacements(s, gs).reverse() =~= Seq::<(int, int, Seq<Seq<char>>)>::empty());
}

/// The search for each source steps one byte past each place where it
/// occurs, which needs the first character of a source that occurs to be
/// one byte long.
pub open spec fn search_steps_ok(s: Seq<char>, gs: Seq<(Seq<char>, Seq<Seq<char>>)>) -> bool {
    forall|g: int, k: int|
        0 <= g < gs.len() && gs[g].0.len() > 0 && #[trigger] occurs_at(s, k, gs[g].0)
            ==> crate::text::char_width(gs[g].0[0]) == 1
}

/// What generating variants needs of `s`: that no step cuts a character.
pub open spec fn variants_defined(s: Seq<char>, gs: Seq<(Seq<char>, Seq<Seq<char>>)>) -> bool {
    &&& search_steps_ok(s, gs)
    &&& all_variants(s, gs) is Some
    &&& utf8_len(s) <= usize::MAX
}

/// A group of rules: their common source and their targets.
struct RuleGroup {
    from: Vec<char>,
    targets: Vec<Vec<char>>,
}

spec fn group_view(g: RuleGroup) -> (Seq<char>, Seq<Seq<char>>) {
    (g.from@, views(g.targets@))
}

spec fn group_views(gs: Seq<RuleGroup>) -> Seq<(Seq<char>, Seq<Seq<char>>)> {
    gs.map_values(|g: RuleGroup| group_view(g))
}

/// Fuzzy matcher: its settings, and their enabled rules grouped by source.
pub struct FuzzyMatcher {
    config: FuzzyConfig,
    rule_map: Vec<RuleGroup>,
}

impl FuzzyMatcher {
    #[verifier::type_invariant]
    spec fn groups_match(&self) -> bool {
        group_views(self.rule_map@) == rule_groups(rule_views(self.config.rules@))
    }

    /// The settings of the matcher.
    pub closed spec fn settings(&self) -> FuzzyConfig {
        self.config
    }

    /// The enabled rules of the matcher grouped by source.
    pub open spec fn groups(&self) -> Seq<(Seq<char>, Seq<Seq<char>>)> {
        rule_groups(rule_views(self.settings().rules@))
    }

    /// A matcher with the given settings.
    pub fn new(config: FuzzyConfig) -> (r: Self)
        ensures
            r.settings() == config,
    {
        let rule_map = Self::build_rule_map(&config.rules);
        FuzzyMatcher { config, rule_map }
    }

    /// A matcher with the given rules, on, and an edit distance of at most 1.
    pub fn from_rules(rules: Vec<FuzzyRule>) -> (r: Self)
        ensures
            r.settings().enabled,
            r.settings().rules@ == rules@,
            r.settings().max_edit_distance == 1,
    {
        let config = FuzzyConfig { enabled: true, rules: clone_rules(&rules), max_edit_distance: 1 };
        let rule_map = Self::build_rule_map(&rules);
        FuzzyMatcher { config, rule_map }
    }

    /// A matcher with the default settings: all preset rules.
    pub fn pinyin_default() -> (r: Self)
        ensures
            r.settings().enabled,
            rule_full_views(r.settings().rules@) == all_preset_rules(),
            r.settings().max_edit_distance == 1,
    {
        Self::new(FuzzyConfig::default())
    }

    /// Groups the enabled rules by source.
    fn build_rule_map(rules: &Vec<FuzzyRule>) -> (r: Vec<RuleGroup>)
        ensures
            group_views(r@) == rule_groups(rule_views(rules@)),
    {
        let ghost rv = rule_views(rules@);
        let mut gs: Vec<RuleGroup> = Vec::new();
        let mut i: usize = 0;
        assert(rv.take(0) =~= Seq::<(Seq<char>, Seq<char>, bool)>::empty());
        while i < rules.len()
            invariant
                i <= rules@.len(),
                rv == rule_views(rules@),
                group_views(gs@) == rule_groups(rv.take(i as int)),
            decreases rules@.len() - i,
        {
            assert(rv.take(i + 1).drop_last() == rv.take(i as int));
            assert(rv.take(i + 1).last() == rule_view(rules@[i as int]));
            if rules[i].enabled {
                let from = str_chars(rules[i].from.as_str());
                let to = str_chars(rules[i].to.as_str());
                let ghost gv = group_views(gs@);
                match find_group(&gs, &from) {
                    Some(j) => {
                        let mut g = gs.remove(j);
                        let ghost tv = views(g.targets@);
                        g.targets.push(to);
                        assert(views(g.targets@) =~= tv.push(rules@[i as int].to@));
                        gs.insert(j, g);
                        assert(group_views(gs@) =~= gv.update(
                            j as int,
                            (gv[j as int].0, gv[j as int].1.push(rules@[i as int].to@)),
                        ));
                    },
                    None => {
                        let mut ts: Vec<Vec<char>> = Vec::new();
                        ts.push(to);
                        let g = RuleGroup { from, targets: ts };
                        assert(views(g.targets@) =~= seq![rules@[i as int].to@]);
                        gs.push(g);
                        assert(group_views(gs@) =~= gv.push(group_view(g)));
                    },
                }
            }
            i = i + 1;
        }
        assert(rv.take(rules@.len() as int) == rv);
        gs
    }

    /// Generates every fuzzy variant of `input`, sorted and without repeats.
    ///
    /// When matching is off, this is `input` alone. Otherwise every place
    /// where a rule's source occurs is found; scanning from the left, places
    /// that overlap one already taken are dropped; then each place in turn,
    /// from the rightmost, adds for every variant so far and every target of
    /// its rules the variant with the source replaced by the target. So
    /// every combination of replacements is made.
    pub fn generate_variants(&self, input: &str) -> (r: Vec<String>)
        requires
            self.settings().enabled ==> variants_defined(input@, self.groups()),
        ensures
            !self.settings().enabled ==> string_views(r@) == seq![input@],
            self.settings().enabled ==> strictly_sorted(string_views(r@)) && string_views(
                r@,
            ).to_set() == all_variants(input@, self.groups())->0.to_set(),
    {
        proof {
            use_type_invariant(self);
        }
        if !self.config.enabled {
            let r = vec![str_to_string(input)];
            assert(string_views(r@) =~= seq![input@]);
            return r;
        }
        let s = str_chars(input);
        let ghost gs = self.groups();
        let reps = reverse_reps(self.find_replacements(&s), Ghost(gs));
        let ghost all = replacements(s@, gs).reverse();
        let mut variants: Vec<Vec<char>> = Vec::new();
        variants.push(sub_chars(s.as_slice(), 0, s.len()));
        assert(s@.subrange(0, s@.len() as int) == s@);
        assert(views(variants@) =~= seq![s@]);
        assert(all.skip(0) == all);
        let mut j: usize = 0;
        while j < reps.len()
            invariant
                j <= reps@.len(),
                gs == self.groups(),
                group_views(self.rule_map@) == gs,
                all == replacements(s@, gs).reverse(),
                reps_view(reps@, gs) == all,
                forall|q: int| 0 <= q < reps@.len() ==> (#[trigger] reps@[q]).2 < gs.len(),
                apply_replacements(views(variants@), all.skip(j as int)) == all_variants(s@, gs),
                all_variants(s@, gs) is Some,
            decreases reps@.len() - j,
        {
            let (sb, eb, g) = reps[j];
            assert(all.skip(j as int)[0] == all[j as int]);
            assert(all.skip(j as int).drop_first() == all.skip(j + 1));
            assert(all[j as int] == (sb as int, eb as int, gs[g as int].1));
            let ghost vs0 = views(variants@);
            let new_vs = expand_all(&variants, sb, eb, &self.rule_map[g].targets);
            let mut new_vs = new_vs;
            variants.append(&mut new_vs);
            assert(views(variants@) =~= vs0 + expand(vs0, sb as int, eb as int, gs[g as int].1)->0);
            j = j + 1;
        }
        assert(all.skip(reps@.len() as int) =~= Seq::<(int, int, Seq<Seq<char>>)>::empty());
        let ghost fin = views(variants@);
        let mut sorted: Vec<Vec<char>> = Vec::new();
        let mut i: usize = 0;
        while i < variants.len()
            invariant
                i <= variants@.len(),
                fin == views(variants@),
                strictly_sorted(views(sorted@)),
                views(sorted@).to_set() == fin.take(i as int).to_set(),
            decreases variants@.len() - i,
        {
            let v = sub_chars(variants[i].as_slice(), 0, variants[i].len());
            assert(variants@[i as int]@.subrange(0, variants@[i as int]@.len() as int) == variants@[i as int]@);
            insert_sorted_unique(&mut sorted, v);
            assert(fin.take(i + 1) == fin.take(i as int).push(fin[i as int]));
            assert(fin.take(i + 1).to_set() =~= fin.take(i as int).to_set().insert(fin[i as int]));
            i = i + 1;
        }
        assert(fin.take(variants@.len() as int) == fin);
        let mut r: Vec<String> = Vec::new();
        let mut k: usize = 0;
        while k < sorted.len()
            invariant
                k <= sorted@.len(),
                string_views(r@) == views(sorted@).take(k as int),
            decreases sorted@.len() - k,
        {
            r.push(string_from_chars(sorted[k].as_slice()));
            assert(views(sorted@).take(k + 1) == views(sorted@).take(k as int).push(sorted@[k as int]@));
            k = k + 1;
        }
        assert(views(sorted@).take(sorted@.len() as int) == views(sorted@));
        r
    }

    /// The replacements used on `s`, as start byte, end byte and group.
    fn find_replacements(&self, s: &Vec<char>) -> (r: Vec<(usize, usize, usize)>)
        requires
            group_views(self.rule_map@) == self.groups(),
            utf8_len(s@) <= usize::MAX,
        ensures
            reps_view(r@, self.groups()) == replacements(s@, self.groups()),
            forall|q: int| 0 <= q < r@.len() ==> (#[trigger] r@[q]).2 < self.groups().len(),
    {
        let ghost gs = self.groups();
        let mut r: Vec<(usize, usize, usize)> = Vec::new();
        let mut k: usize = 0;
        let mut free: usize = 0;
        let mut acc: usize = 0;
        assert(s@.take(0) =~= Seq::<char>::empty());
        assert(reps_view(r@, gs) + replacements_from(s@, gs, 0, 0) == replacements(s@, gs));
        while k < s.len()
            invariant
                k <= s@.len(),
                gs == self.groups(),
                group_views(self.rule_map@) == gs,
                utf8_len(s@) <= usize::MAX,
                acc == utf8_len(s@.take(k as int)),
                reps_view(r@, gs) + replacements_from(s@, gs, k as int, free as int) == replacements(
                    s@,
                    gs,
                ),
                forall|q: int| 0 <= q < r@.len() ==> (#[trigger] r@[q]).2 < gs.len(),
            decreases s@.len() - k,
        {
            let ghost rest = replacements_from(s@, gs, k as int, free as int);
            let w = crate::text::char_len_utf8(s[k]);
            proof {
                lemma_prefix_bytes(s@, k as int);
            }
            if k >= free {
                match self.first_group_at(s, k) {
                    Some(g) => {
                        let flen = self.rule_map[g].from.len();
                        let ghost f = gs[g as int].0;
                        proof {
                            lemma_occurrence_bytes(s@, k as int, f);
                        }
                        let fb = chars_utf8_len(self.rule_map[g].from.as_slice());
                        let ghost r0 = r@;
                        let eb = acc + fb;
                        r.push((acc, eb, g));
                        proof {
                            lemma_reps_push(r0, gs, acc, eb, g);
                            lemma_replacements_step(s@, gs, k as int, free as int);
                            assert(rest == seq![(acc as int, (acc + fb) as int, gs[g as int].1)]
                                + replacements_from(s@, gs, k + 1, k + flen));
                        }
                        free = k + flen;
                    },
                    None => {},
                }
            }
            acc = acc + w;
            k = k + 1;
        }
        r
    }

    /// The first group whose non-empty source occurs in `s` at index `k`.
    fn first_group_at(&self, s: &Vec<char>, k: usize) -> (r: Option<usize>)
        requires
            group_views(self.rule_map@) == self.groups(),
            k < s@.len(),
        ensures
            match r {
                Some(g) => first_group_at(s@, self.groups(), k as int) == Some(g as int) && g
                    < self.groups().len() && self.groups()[g as int].0.len() > 0 && occurs_at(
                    s@,
                    k as int,
                    self.groups()[g as int].0,
                ),
                None => first_group_at(s@, self.groups(), k as int) is None,
            },
    {
        let ghost gs = self.groups();
        let mut g: usize = 0;
        assert(gs.take(0) =~= Seq::<(Seq<char>, Seq<Seq<char>>)>::empty());
        while g < self.rule_map.len()
            invariant
                g <= self.rule_map@.len(),
                gs == self.groups(),
                group_views(self.rule_map@) == gs,
                first_group_at(s@, gs.take(g as int), k as int) is None,
            decreases self.rule_map@.len() - g,
        {
            assert(gs.take(g + 1).drop_last() == gs.take(g as int));
            assert(gs.take(g + 1).last() == gs[g as int]);
            let f = &self.rule_map[g].from;
            if f.len() > 0 && occurs_in(s, k, f) {
                proof {
                    lemma_first_group_prefix(s@, gs, g + 1, k as int);
                }
                return Some(g);
            }
            g = g + 1;
        }
        assert(gs.take(gs.len() as int) == gs);
        None
    }

    /// The Levenshtein distance between two texts, counted in characters.
    pub fn edit_distance(s1: &str, s2: &str) -> (r: usize)
        ensures
            r == lev(s1@, s2@),
    {
        let a = str_chars(s1);
        let b = str_chars(s2);
        levenshtein(a.as_slice(), b.as_slice())
    }

    /// Whether `input` matches `target`: when matching is off, whether they
    /// are equal; otherwise whether they are equal, or within the largest
    /// edit distance, or `target` is one of the variants of `input`.
    #[verifier::loop_isolation(false)]
    pub fn is_match(&self, input: &str, target: &str) -> (r: bool)
        requires
            self.settings().enabled && input@ != target@ && lev(input@, target@)
                > self.settings().max_edit_distance ==> variants_defined(input@, self.groups()),
        ensures
            r == if !self.settings().enabled {
                input@ == target@
            } else {
                input@ == target@ || lev(input@, target@) <= self.settings().max_edit_distance
                    || all_variants(input@, self.groups())->0.contains(target@)
            },
    {
        let a = str_chars(input);
        let b = str_chars(target);
        if !self.config.enabled {
            return chars_eq(a.as_slice(), b.as_slice());
        }
        if chars_eq(a.as_slice(), b.as_slice()) {
            return true;
        }
        let dist = levenshtein(a.as_slice(), b.as_slice());
        if dist <= self.config.max_edit_distance {
            return true;
        }
        let variants = self.generate_variants(input);
        let ghost vs = string_views(variants@);
        let mut i: usize = 0;
        while i < variants.len()
            invariant
                i <= variants@.len(),
                vs == string_views(variants@),
                forall|j: int| 0 <= j < i ==> vs[j] != b@,
            decreases variants@.len() - i,
        {
            let v = str_chars(variants[i].as_str());
            if chars_eq(v.as_slice(), b.as_slice()) {
                assert(vs.to_set().contains(vs[i as int]));
                return true;
            }
            i = i + 1;
        }
        proof {
            let all = all_variants(input@, self.groups())->0;
            if all.contains(target@) {
                assert(all.to_set().contains(target@));
                assert(vs.to_set().contains(target@));
                let j = choose|j: int| 0 <= j < vs.len() && vs[j] == target@;
                assert(vs[j] != b@);
            }
        }
        false
    }

    /// The settings.
    pub fn config(&self) -> (r: &FuzzyConfig)
        ensures
            *r == self.settings(),
    {
        &self.config
    }

    /// The variants of `input` as `generate_variants` gives them, or `None`
    /// where generating them would cut a character: a source that occurs
    /// starting with a character of more than one byte, or a replacement
    /// whose bytes do not begin characters of a variant made so far.
    pub fn checked_variants(&self, input: &str) -> (r: Option<Vec<String>>)
        ensures
            r is Some <==> (self.settings().enabled ==> variants_defined(input@, self.groups())),
            r matches Some(v) ==> {
                &&& !self.settings().enabled ==> string_views(v@) == seq![input@]
                &&& self.settings().enabled ==> strictly_sorted(string_views(v@)) && string_views(
                    v@,
                ).to_set() == all_variants(input@, self.groups())->0.to_set()
            },
    {
        if !self.config.enabled {
            return Some(self.generate_variants(input));
        }
        // The byte length of a text fits in `usize`, as replacements need.
        let _len = crate::text::str_byte_len(input);
        let s = str_chars(input);
        if !self.search_steps_hold(&s) {
            return None;
        }
        if !self.replacements_defined(&s) {
            return None;
        }
        Some(self.generate_variants(input))
    }

    /// Whether every source that occurs in `s` starts with a one-byte
    /// character.
    fn search_steps_hold(&self, s: &Vec<char>) -> (r: bool)
        ensures
            r == search_steps_ok(s@, self.groups()),
    {
        proof {
            use_type_invariant(self);
        }
        let ghost gs = self.groups();
        let mut g: usize = 0;
        while g < self.rule_map.len()
            invariant
                g <= self.rule_map@.len(),
                gs == self.groups(),
                group_views(self.rule_map@) == gs,
                forall|h: int, k: int|
                    0 <= h < g && gs[h].0.len() > 0 && #[trigger] occurs_at(s@, k, gs[h].0)
                        ==> crate::text::char_width(gs[h].0[0]) == 1,
            decreases self.rule_map@.len() - g,
        {
            let f = &self.rule_map[g].from;
            assert(f@ == gs[g as int].0);
            if f.len() > 0 && crate::text::char_len_utf8(f[0]) != 1 {
                let mut k: usize = 0;
                while k < s.len()
                    invariant
                        k <= s@.len(),
                        g < gs.len(),
                        gs == self.groups(),
                        f@ == gs[g as int].0,
                        f@.len() > 0,
                        crate::text::char_width(f@[0]) != 1,
                        forall|j: int| 0 <= j < k ==> !occurs_at(s@, j, f@),
                    decreases s@.len() - k,
                {
                    if occurs_in(s, k, f) {
                        assert(occurs_at(s@, k as int, gs[g as int].0));
                        return false;
                    }
                    k = k + 1;
                }
                assert forall|j: int| !occurs_at(s@, j, f@) by {
                    if 0 <= j < k {
                    }
                }
            }
            g = g + 1;
        }
        true
    }

    /// Whether all the replacements of `s` can be made, one after the other,
    /// on every variant made so far.
    fn replacements_defined(&self, s: &Vec<char>) -> (r: bool)
        requires
            utf8_len(s@) <= usize::MAX,
        ensures
            r == (all_variants(s@, self.groups()) is Some),
    {
        proof {
            use_type_invariant(self);
        }
        let ghost gs = self.groups();
        let reps = reverse_reps(self.find_replacements(s), Ghost(gs));
        let ghost all = replacements(s@, gs).reverse();
        let mut variants: Vec<Vec<char>> = Vec::new();
        variants.push(sub_chars(s.as_slice(), 0, s.len()));
        assert(s@.subrange(0, s@.len() as int) == s@);
        assert(views(variants@) =~= seq![s@]);
        assert(all.skip(0) == all);
        let mut j: usize = 0;
        while j < reps.len()
            invariant
                j <= reps@.len(),
                gs == self.groups(),
                group_views(self.rule_map@) == gs,
                all == replacements(s@, gs).reverse(),
                reps_view(reps@, gs) == all,
                forall|q: int| 0 <= q < reps@.len() ==> (#[trigger] reps@[q]).2 < gs.len(),
                apply_replacements(views(variants@), all.skip(j as int)) == all_variants(s@, gs),
            decreases reps@.len() - j,
        {
            let (sb, eb, g) = reps[j];
            assert(all.skip(j as int)[0] == all[j as int]);
            assert(all.skip(j as int).drop_first() == all.skip(j + 1));
            assert(all[j as int] == (sb as int, eb as int, gs[g as int].1));
            let ts = &self.rule_map[g].targets;
            assert(views(ts@) == gs[g as int].1);
            proof {
                lemma_expand_defined(views(variants@), sb as int, eb as int, views(ts@));
            }
            if ts.len() > 0 && !all_bounds_ok(&variants, sb, eb) {
                return false;
            }
            let ghost vs0 = views(variants@);
            let mut new_vs = expand_all(&variants, sb, eb, ts);
            variants.append(&mut new_vs);
            assert(views(variants@) =~= vs0 + expand(vs0, sb as int, eb as int, gs[g as int].1)->0);
            j = j + 1;
        }
        assert(all.skip(reps@.len() as int) =~= Seq::<(int, int, Seq<Seq<char>>)>::empty());
        true
    }

    /// The number of rules (enabled or not).
    pub fn rule_count(&self) -> (r: usize)
        ensures
            r == self.settings().rules@.len(),
    {
        self.config.rules.len()
    }
}

/// Byte lengths of the prefixes of `s` up to `k + 1`.
proof fn lemma_prefix_bytes(s: Seq<char>, k: int)
    requires
        0 <= k < s.len(),
    ensures
        utf8_len(s.take(k + 1)) == utf8_len(s.take(k)) + crate::text::char_width(s[k]),
        utf8_len(s.take(k + 1)) <= utf8_len(s),
{
    assert(s.take(k + 1) == s.take(k).push(s[k]));
    crate::text::lemma_utf8_len_push(s.take(k), s[k]);
    assert(s == s.take(k + 1) + s.skip(k + 1));
    lemma_utf8_len_append(s.take(k + 1), s.skip(k + 1));
}

/// Byte length of the text up to the end of an occurrence of `f` at `k`.
proof fn lemma_occurrence_bytes(s: Seq<char>, k: int, f: Seq<char>)
    requires
        occurs_at(s, k, f),
    ensures
        utf8_len(s.take(k)) + utf8_len(f) <= utf8_len(s),
{
    assert(s.take(k + f.len()) == s.take(k) + f);
    lemma_utf8_len_append(s.take(k), f);
    assert(s == s.take(k + f.len()) + s.skip(k + f.len()));
    lemma_utf8_len_append(s.take(k + f.len()), s.skip(k + f.len()));
}

/// Pushing a found replacement.
proof fn lemma_reps_push(
    r: Seq<(usize, usize, usize)>,
    gs: Seq<(Seq<char>, Seq<Seq<char>>)>,
    sb: usize,
    eb: usize,
    g: usize,
)
    ensures
        reps_view(r.push((sb, eb, g)), gs) == reps_view(r, gs).push(
            (sb as int, eb as int, gs[g as int].1),
        ),
{
    assert(reps_view(r.push((sb, eb, g)), gs) =~= reps_view(r, gs).push(
        (sb as int, eb as int, gs[g as int].1),
    ));
}

/// One step of the scan for replacements.
proof fn lemma_replacements_step(
    s: Seq<char>,
    gs: Seq<(Seq<char>, Seq<Seq<char>>)>,
    k: int,
    free: int,
)
    requires
        0 <= k < s.len(),
    ensures
        replacements_from(s, gs, k, free) == if k >= free && first_group_at(s, gs, k) is Some {
            let g = first_group_at(s, gs, k)->0;
            let sb = utf8_len(s.take(k)) as int;
            seq![(sb, sb + utf8_len(gs[g].0), gs[g].1)] + replacements_from(
                s,
                gs,
                k + 1,
                k + gs[g].0.len(),
            )
        } else {
            replacements_from(s, gs, k + 1, free)
        },
{
}

/// What the found replacements stand for.
spec fn reps_view(r: Seq<(usize, usize, usize)>, gs: Seq<(Seq<char>, Seq<Seq<char>>)>) -> Seq<
    (int, int, Seq<Seq<char>>),
> {
    r.map_values(|x: (usize, usize, usize)| (x.0 as int, x.1 as int, gs[x.2 as int].1))
}

/// The replacements in the opposite order.
fn reverse_reps(v: Vec<(usize, usize, usize)>, Ghost(gs): Ghost<Seq<(Seq<char>, Seq<Seq<char>>)>>) -> (r: Vec<
    (usize, usize, usize),
>)
    requires
        forall|q: int| 0 <= q < v@.len() ==> (#[trigger] v@[q]).2 < gs.len(),
    ensures
        reps_view(r@, gs) == reps_view(v@, gs).reverse(),
        forall|q: int| 0 <= q < r@.len() ==> (#[trigger] r@[q]).2 < gs.len(),
{
    let mut r: Vec<(usize, usize, usize)> = Vec::new();
    let mut i: usize = v.len();
    while i > 0
        invariant
            i <= v@.len(),
            r@.len() == v@.len() - i,
            forall|q: int| 0 <= q < r@.len() ==> #[trigger] r@[q] == v@[v@.len() - 1 - q],
        decreases i,
    {
        i = i - 1;
        r.push(v[i]);
    }
    assert(reps_view(r@, gs) =~= reps_view(v@, gs).reverse());
    assert forall|q: int| 0 <= q < r@.len() implies (#[trigger] r@[q]).2 < gs.len() by {
        assert(r@[q] == v@[v@.len() - 1 - q]);
    }
    r
}

/// A first occurrence among the first groups is the first among all.
proof fn lemma_first_group_prefix(
    s: Seq<char>,
    gs: Seq<(Seq<char>, Seq<Seq<char>>)>,
    n: int,
    k: int,
)
    requires
        0 <= n <= gs.len(),
        first_group_at(s, gs.take(n), k) is Some,
    ensures
        first_group_at(s, gs, k) == first_group_at(s, gs.take(n), k),
    decreases gs.len() - n,
{
    if n < gs.len() {
        assert(gs.take(n + 1).drop_last() == gs.take(n));
        lemma_first_group_prefix(s, gs, n + 1, k);
    } else {
        assert(gs.take(n) == gs);
    }
}

/// Index of the group with source `from`.
fn find_group(gs: &Vec<RuleGroup>, from: &Vec<char>) -> (r: Option<usize>)
    ensures
        match r {
            Some(j) => group_of(group_views(gs@), from@) == Some(j as int) && j < gs@.len(),
            None => group_of(group_views(gs@), from@) is None,
        },
{
    let ghost gv = group_views(gs@);
    let mut j: usize = 0;
    assert(gv.take(0) =~= Seq::<(Seq<char>, Seq<Seq<char>>)>::empty());
    while j < gs.len()
        invariant
            j <= gs@.len(),
            gv == group_views(gs@),
            group_of(gv.take(j as int), from@) is None,
        decreases gs@.len() - j,
    {
        assert(gv.take(j + 1).drop_last() == gv.take(j as int));
        assert(gv.take(j + 1).last() == gv[j as int]);
        if chars_eq(gs[j].from.as_slice(), from.as_slice()) {
            proof {
                lemma_group_of_prefix(gv, j + 1, from@);
            }
            return Some(j);
        }
        j = j + 1;
    }
    assert(gv.take(gv.len() as int) == gv);
    None
}

/// A first group with a source among the first groups is the first of all.
proof fn lemma_group_of_prefix(gs: Seq<(Seq<char>, Seq<Seq<char>>)>, n: int, from: Seq<char>)
    requires
        0 <= n <= gs.len(),
        group_of(gs.take(n), from) is Some,
    ensures
        group_of(gs, from) == group_of(gs.take(n), from),
    decreases gs.len() - n,
{
    if n < gs.len() {
        assert(gs.take(n + 1).drop_last() == gs.take(n));
        lemma_group_of_prefix(gs, n + 1, from);
    } else {
        assert(gs.take(n) == gs);
    }
}

/// Whether `f` occurs in `s` at index `k`.
fn occurs_in(s: &Vec<char>, k: usize, f: &Vec<char>) -> (r: bool)
    ensures
        r == occurs_at(s@, k as int, f@),
{
    if k > s.len() || f.len() > s.len() - k {
        return false;
    }
    let end = k + f.len();
    let mut i: usize = 0;
    while i < f.len()
        invariant
            i <= f@.len(),
            end == k + f@.len(),
            end <= s@.len(),
            forall|j: int| 0 <= j < i ==> s@[k + j] == f@[j],
        decreases f@.len() - i,
    {
        if s[k + i] != f[i] {
            assert(s@.subrange(k as int, k + f@.len())[i as int] != f@[i as int]);
            return false;
        }
        i = i + 1;
    }
    assert(s@.subrange(k as int, k + f@.len()) =~= f@);
    true
}

/// `v` with the bytes `sb..eb` replaced by `t`.
#[verifier::spinoff_prover]
#[verifier::rlimit(40)]
fn replace_range_chars(v: &Vec<char>, sb: usize, eb: usize, t: &Vec<char>) -> (r: Vec<char>)
    requires
        replace_bytes(v@, sb as int, eb as int, t@) is Some,
    ensures
        Some(r@) == replace_bytes(v@, sb as int, eb as int, t@),
{
    let i = match find_char_index(v.as_slice(), sb) {
        Some(i) => i,
        None => 0,
    };
    let j = match find_char_index(v.as_slice(), eb) {
        Some(j) => j,
        None => 0,
    };
    let mut r = sub_chars(v.as_slice(), 0, i);
    let mut k: usize = 0;
    let ghost r0 = r@;
    while k < t.len()
        invariant
            k <= t@.len(),
            r@ == r0 + t@.take(k as int),
        decreases t@.len() - k,
    {
        r.push(t[k]);
        assert(t@.take(k + 1) == t@.take(k as int).push(t@[k as int]));
        k = k + 1;
    }
    assert(t@.take(t@.len() as int) == t@);
    let tail = sub_chars(v.as_slice(), j, v.len());
    let mut tail = tail;
    r.append(&mut tail);
    assert(v@.subrange(0, i as int) == v@.take(i as int));
    assert(v@.subrange(j as int, v@.len() as int) == v@.skip(j as int));
    r
}

/// Every variant of `vs` with the bytes `sb..eb` replaced by each target.
fn expand_all(vs: &Vec<Vec<char>>, sb: usize, eb: usize, ts: &Vec<Vec<char>>) -> (r: Vec<Vec<char>>)
    requires
        expand(views(vs@), sb as int, eb as int, views(ts@)) is Some,
    ensures
        Some(views(r@)) == expand(views(vs@), sb as int, eb as int, views(ts@)),
{
    let ghost vv = views(vs@);
    let ghost tv = views(ts@);
    let mut r: Vec<Vec<char>> = Vec::new();
    let mut i: usize = 0;
    proof {
        lemma_expand_prefix(vv, sb as int, eb as int, tv, vv.len() as int);
    }
    assert(vv.take(0) =~= Seq::<Seq<char>>::empty());
    while i < vs.len()
        invariant
            i <= vs@.len(),
            vv == views(vs@),
            tv == views(ts@),
            expand(vv, sb as int, eb as int, tv) is Some,
            forall|n: int|
                0 <= n <= vv.len() ==> #[trigger] expand(vv.take(n), sb as int, eb as int, tv) is Some,
            Some(views(r@)) == expand(vv.take(i as int), sb as int, eb as int, tv),
        decreases vs@.len() - i,
    {
        assert(vv.take(i + 1).drop_last() == vv.take(i as int));
        assert(vv.take(i + 1).last() == vs@[i as int]@);
        assert(expand(vv.take(i + 1), sb as int, eb as int, tv) is Some);
        let ghost one = expand_one(vs@[i as int]@, sb as int, eb as int, tv)->0;
        let mut k: usize = 0;
        let ghost r0 = views(r@);
        proof {
            lemma_expand_one_prefix(vs@[i as int]@, sb as int, eb as int, tv, tv.len() as int);
        }
        assert(tv.take(0) =~= Seq::<Seq<char>>::empty());
        while k < ts.len()
            invariant
                k <= ts@.len(),
                i < vs@.len(),
                tv == views(ts@),
                expand_one(vs@[i as int]@, sb as int, eb as int, tv) == Some(one),
                forall|n: int|
                    0 <= n <= tv.len() ==> #[trigger] expand_one(
                        vs@[i as int]@,
                        sb as int,
                        eb as int,
                        tv.take(n),
                    ) is Some,
                views(r@) == r0 + expand_one(vs@[i as int]@, sb as int, eb as int, tv.take(k as int))->0,
            decreases ts@.len() - k,
        {
            assert(tv.take(k + 1).drop_last() == tv.take(k as int));
            assert(tv.take(k + 1).last() == ts@[k as int]@);
            assert(expand_one(vs@[i as int]@, sb as int, eb as int, tv.take(k + 1)) is Some);
            let x = replace_range_chars(&vs[i], sb, eb, &ts[k]);
            let ghost rb = views(r@);
            r.push(x);
            assert(views(r@) =~= rb.push(x@));
            k = k + 1;
        }
        assert(tv.take(ts@.len() as int) == tv);
        i = i + 1;
    }
    assert(vv.take(vs@.len() as int) == vv);
    r
}

/// Whether bytes `sb` and `eb` of `v` begin characters, `sb` not after
/// `eb`: what replacing those bytes needs.
pub open spec fn bounds_ok(v: Seq<char>, sb: int, eb: int) -> bool {
    match (char_index(v, sb), char_index(v, eb)) {
        (Some(i), Some(j)) => i <= j,
        _ => false,
    }
}

/// Replacing bytes of one variant by targets can be done exactly when
/// there are no targets or the bytes begin characters.
proof fn lemma_expand_one_defined(v: Seq<char>, sb: int, eb: int, ts: Seq<Seq<char>>)
    ensures
        expand_one(v, sb, eb, ts) is Some <==> (ts.len() == 0 || bounds_ok(v, sb, eb)),
    decreases ts.len(),
{
    if ts.len() > 0 {
        lemma_expand_one_defined(v, sb, eb, ts.drop_last());
    }
}

/// Replacing bytes of all variants can be done exactly when there are no
/// targets or the bytes begin characters of each variant.
proof fn lemma_expand_defined(vs: Seq<Seq<char>>, sb: int, eb: int, ts: Seq<Seq<char>>)
    ensures
        expand(vs, sb, eb, ts) is Some <==> (ts.len() == 0 || forall|i: int|
            0 <= i < vs.len() ==> #[trigger] bounds_ok(vs[i], sb, eb)),
    decreases vs.len(),
{
    if vs.len() > 0 {
        lemma_expand_defined(vs.drop_last(), sb, eb, ts);
        lemma_expand_one_defined(vs.last(), sb, eb, ts);
        if ts.len() > 0 {
            if forall|i: int| 0 <= i < vs.len() ==> #[trigger] bounds_ok(vs[i], sb, eb) {
                assert forall|i: int| 0 <= i < vs.drop_last().len() implies #[trigger] bounds_ok(
                    vs.drop_last()[i],
                    sb,
                    eb,
                ) by {
                    assert(vs.drop_last()[i] == vs[i]);
                    assert(bounds_ok(vs[i], sb, eb));
                }
                assert(bounds_ok(vs[vs.len() - 1], sb, eb));
            } else {
                let i = choose|i: int| 0 <= i < vs.len() && !#[trigger] bounds_ok(vs[i], sb, eb);
                if i < vs.len() - 1 {
                    assert(vs.drop_last()[i] == vs[i]);
                    assert(!bounds_ok(vs.drop_last()[i], sb, eb));
                }
            }
        }
    }
}

/// Whether bytes `sb..eb` can be replaced in every variant.
fn all_bounds_ok(vs: &Vec<Vec<char>>, sb: usize, eb: usize) -> (r: bool)
    ensures
        r == forall|i: int| 0 <= i < vs@.len() ==> #[trigger] bounds_ok(views(vs@)[i], sb as int, eb as int),
{
    let mut i: usize = 0;
    while i < vs.len()
        invariant
            i <= vs@.len(),
            forall|k: int| 0 <= k < i ==> #[trigger] bounds_ok(views(vs@)[k], sb as int, eb as int),
        decreases vs@.len() - i,
    {
        assert(views(vs@)[i as int] == vs@[i as int]@);
        let a = find_char_index(vs[i].as_slice(), sb);
        let b = find_char_index(vs[i].as_slice(), eb);
        match (a, b) {
            (Some(x), Some(y)) => {
                if x > y {
                    assert(!bounds_ok(views(vs@)[i as int], sb as int, eb as int));
                    return false;
                }
            },
            _ => {
                assert(!bounds_ok(views(vs@)[i as int], sb as int, eb as int));
                return false;
            },
        }
        i = i + 1;
    }
    true
}

/// The replacements of a prefix of the variants are all defined.
proof fn lemma_expand_prefix(vs: Seq<Seq<char>>, sb: int, eb: int, ts: Seq<Seq<char>>, m: int)
    requires
        0 <= m <= vs.len(),
        expand(vs.take(m), sb, eb, ts) is Some,
    ensures
        forall|n: int| 0 <= n <= m ==> #[trigger] expand(vs.take(n), sb, eb, ts) is Some,
    decreases m,
{
    if m > 0 {
        assert(vs.take(m).drop_last() == vs.take(m - 1));
        lemma_expand_prefix(vs, sb, eb, ts, m - 1);
    }
    assert forall|n: int| 0 <= n <= m implies #[trigger] expand(vs.take(n), sb, eb, ts) is Some by {
        if n == m {
        }
    }
    assert(vs.take(vs.len() as int) == vs);
}

/// The replacements by a prefix of the targets are all defined.
proof fn lemma_expand_one_prefix(v: Seq<char>, sb: int, eb: int, ts: Seq<Seq<char>>, m: int)
    requires
        0 <= m <= ts.len(),
        expand_one(v, sb, eb, ts.take(m)) is Some,
    ensures
        forall|n: int| 0 <= n <= m ==> #[trigger] expand_one(v, sb, eb, ts.take(n)) is Some,
    decreases m,
{
    if m > 0 {
        assert(ts.take(m).drop_last() == ts.take(m - 1));
        lemma_expand_one_prefix(v, sb, eb, ts, m - 1);
    }
}

/// Everything a rule holds: name, source, target, enabled, priority.
pub open spec fn rule_full_view(r: FuzzyRule) -> (Seq<char>, Seq<char>, Seq<char>, bool, u32) {
    (r.name@, r.from@, r.to@, r.enabled, r.priority)
}

/// Everything the rules of a list hold.
pub open spec fn rule_full_views(rs: Seq<FuzzyRule>) -> Seq<(Seq<char>, Seq<char>, Seq<char>, bool, u32)> {
    rs.map_values(|r: FuzzyRule| rule_full_view(r))
}

/// An enabled preset rule of priority 0.
pub open spec fn preset(name: Seq<char>, from: Seq<char>, to: Seq<char>) -> (Seq<char>, Seq<char>, Seq<char>, bool, u32) {
    (name, from, to, true, 0u32)
}

/// The preset rules for initials and finals.
pub open spec fn pinyin_preset_rules() -> Seq<(Seq<char>, Seq<char>, Seq<char>, bool, u32)> {
    seq![
        preset("z-zh"@, "z"@, "zh"@),
        preset("c-ch"@, "c"@, "ch"@),
        preset("s-sh"@, "s"@, "sh"@),
        preset("n-l"@, "n"@, "l"@),
        preset("l-n"@, "l"@, "n"@),
        preset("r-l"@, "r"@, "l"@),
        preset("an-ang"@, "an"@, "ang"@),
        preset("en-eng"@, "en"@, "eng"@),
        preset("in-ing"@, "in"@, "ing"@),
    ]
}

/// The preset rules for common typing errors.
pub open spec fn typo_preset_rules() -> Seq<(Seq<char>, Seq<char>, Seq<char>, bool, u32)> {
    seq![
        preset("ei-ie"@, "ei"@, "ie"@),
        preset("ui-iu"@, "ui"@, "iu"@),
        preset("un-ün"@, "un"@, "ün"@),
    ]
}

/// All preset rules.
pub open spec fn all_preset_rules() -> Seq<(Seq<char>, Seq<char>, Seq<char>, bool, u32)> {
    pinyin_preset_rules() + typo_preset_rules()
}

/// The preset rules are the pinyin rules followed by the typing-error
/// rules: twelve in all, enabled, of priority 0, from `z-zh` to `un-ün`.
pub proof fn law_all_rules_pinyin_then_typo()
    ensures
        all_preset_rules() == pinyin_preset_rules() + typo_preset_rules(),
        pinyin_preset_rules().len() == 9,
        typo_preset_rules().len() == 3,
        all_preset_rules().len() == 12,
        forall|i: int| 0 <= i < 12 ==> (#[trigger] all_preset_rules()[i]).3 && all_preset_rules()[i].4 == 0,
        all_preset_rules()[0] == preset("z-zh"@, "z"@, "zh"@),
        all_preset_rules()[11] == preset("un-ün"@, "un"@, "ün"@),
{
}

/// An enabled rule of priority 0 made of three texts.
fn make_rule(name: &str, from: &str, to: &str) -> (r: FuzzyRule)
    ensures
        rule_full_view(r) == preset(name@, from@, to@),
{
    FuzzyRule::new(str_to_string(name), str_to_string(from), str_to_string(to))
}

/// Preset rule lists.
pub struct FuzzyRulePresets;

impl FuzzyRulePresets {
    /// The rules for initials and finals: z-zh, c-ch, s-sh, n-l, l-n, r-l,
    /// an-ang, en-eng, in-ing.
    pub fn pinyin_rules() -> (r: Vec<FuzzyRule>)
        ensures
            rule_full_views(r@) == pinyin_preset_rules(),
    {
        let mut v: Vec<FuzzyRule> = Vec::new();
        v.push(make_rule("z-zh", "z", "zh"));
        v.push(make_rule("c-ch", "c", "ch"));
        v.push(make_rule("s-sh", "s", "sh"));
        v.push(make_rule("n-l", "n", "l"));
        v.push(make_rule("l-n", "l", "n"));
        v.push(make_rule("r-l", "r", "l"));
        v.push(make_rule("an-ang", "an", "ang"));
        v.push(make_rule("en-eng", "en", "eng"));
        v.push(make_rule("in-ing", "in", "ing"));
        assert(rule_full_views(v@) =~= pinyin_preset_rules());
        v
    }

    /// The rules for common typing errors: ei-ie, ui-iu, un-ün.
    pub fn typo_rules() -> (r: Vec<FuzzyRule>)
        ensures
            rule_full_views(r@) == typo_preset_rules(),
    {
        let mut v: Vec<FuzzyRule> = Vec::new();
        v.push(make_rule("ei-ie", "ei", "ie"));
        v.push(make_rule("ui-iu", "ui", "iu"));
        v.push(make_rule("un-ün", "un", "ün"));
        assert(rule_full_views(v@) =~= typo_preset_rules());
        v
    }

    /// All preset rules: those for initials and finals, then those for
    /// typing errors.
    pub fn all_rules() -> (r: Vec<FuzzyRule>)
        ensures
            rule_full_views(r@) == all_preset_rules(),
    {
        let mut v = Self::pinyin_rules();
        let mut t = Self::typo_rules();
        let ghost a = v@;
        let ghost b = t@;
        v.append(&mut t);
        assert(rule_full_views(v@) =~= rule_full_views(a) + rule_full_views(b));
        v
    }
}

/// Each preset rule does what its name says: the rule named `X-Y` turns
/// `X` into `Y` (its name is its source, a hyphen and its target).
pub proof fn law_preset_rule_names(i: int)
    requires
        0 <= i < all_preset_rules().len(),
    ensures
        all_preset_rules()[i].0 == all_preset_rules()[i].1 + "-"@ + all_preset_rules()[i].2,
{
    reveal_strlit("z-zh");
    reveal_strlit("z");
    reveal_strlit("zh");
    reveal_strlit("c-ch");
    reveal_strlit("c");
    reveal_strlit("ch");
    reveal_strlit("s-sh");
    reveal_strlit("s");
    reveal_strlit("sh");
    reveal_strlit("n-l");
    reveal_strlit("n");
    reveal_strlit("l");
    reveal_strlit("l-n");
    reveal_strlit("r-l");
    reveal_strlit("r");
    reveal_strlit("an-ang");
    reveal_strlit("an");
    reveal_strlit("ang");
    reveal_strlit("en-eng");
    reveal_strlit("en");
    reveal_strlit("eng");
    reveal_strlit("in-ing");
    reveal_strlit("in");
    reveal_strlit("ing");
    reveal_strlit("ei-ie");
    reveal_strlit("ei");
    reveal_strlit("ie");
    reveal_strlit("ui-iu");
    reveal_strlit("ui");
    reveal_strlit("iu");
    reveal_strlit("un-ün");
    reveal_strlit("un");
    reveal_strlit("ün");
    reveal_strlit("-");
    assert(all_preset_rules()[0].0 =~= all_preset_rules()[0].1 + "-"@ + all_preset_rules()[0].2);
    assert(all_preset_rules()[1].0 =~= all_preset_rules()[1].1 + "-"@ + all_preset_rules()[1].2);
    assert(all_preset_rules()[2].0 =~= all_preset_rules()[2].1 + "-"@ + all_preset_rules()[2].2);
    assert(all_preset_rules()[3].0 =~= all_preset_rules()[3].1 + "-"@ + all_preset_rules()[3].2);
    assert(all_preset_rules()[4].0 =~= all_preset_rules()[4].1 + "-"@ + all_preset_rules()[4].2);
    assert(all_preset_rules()[5].0 =~= all_preset_rules()[5].1 + "-"@ + all_preset_rules()[5].2);
    assert(all_preset_rules()[6].0 =~= all_preset_rules()[6].1 + "-"@ + all_preset_rules()[6].2);
    assert(all_preset_rules()[7].0 =~= all_preset_rules()[7].1 + "-"@ + all_preset_rules()[7].2);
    assert(all_preset_rules()[8].0 =~= all_preset_rules()[8].1 + "-"@ + all_preset_rules()[8].2);
    assert(all_preset_rules()[9].0 =~= all_preset_rules()[9].1 + "-"@ + all_preset_rules()[9].2);
    assert(all_preset_rules()[10].0 =~= all_preset_rules()[10].1 + "-"@ + all_preset_rules()[10].2);
    assert(all_preset_rules()[11].0 =~= all_preset_rules()[11].1 + "-"@ + all_preset_rules()[11].2);
}

/// The pinyin preset rules confuse initials with initials (the first six)
/// and finals with finals (the last three): both sides of each are valid.
pub proof fn law_pinyin_rules_relate_like_parts(i: int)
    requires
        0 <= i < pinyin_preset_rules().len(),
    ensures
        i < 6 ==> crate::pinyin::initials_table().contains(pinyin_preset_rules()[i].1)
            && crate::pinyin::initials_table().contains(pinyin_preset_rules()[i].2),
        i >= 6 ==> crate::pinyin::finals_table().contains(pinyin_preset_rules()[i].1)
            && crate::pinyin::finals_table().contains(pinyin_preset_rules()[i].2),
{
    let it = crate::pinyin::initials_table();
    let ft = crate::pinyin::finals_table();
    assert(it[0] == "b"@ && it[14] == "zh"@ && it[15] == "ch"@ && it[16] == "sh"@);
    assert(it[17] == "r"@ && it[18] == "z"@ && it[19] == "c"@ && it[20] == "s"@);
    assert(it[6] == "n"@ && it[7] == "l"@);
    assert(ft[10] == "an"@ && ft[11] == "en"@ && ft[12] == "ang"@ && ft[13] == "eng"@);
    assert(ft[20] == "in"@ && ft[22] == "ing"@);
}

} // verus!

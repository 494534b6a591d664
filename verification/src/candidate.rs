//! A list of candidates seen page by page, a selector that moves through
//! it, and filters and conversions of candidate lists. The candidates of
//! the list are of any type `T`; their scores are the caller's.
use vstd::prelude::*;

use crate::text::str_eq;
use crate::types::{
    candidate_ref_views, candidate_views, string_views, Candidate, CandidateSource, CandidateView,
};

verus! {

/// Candidates, page by page. The page flags are kept in step with the page
/// and the total by the methods that turn pages.
#[derive(Debug, Clone)]
pub struct CandidateList<T> {
    /// The candidates.
    pub candidates: Vec<T>,
    /// The current page (from 0).
    pub page: usize,
    /// Candidates per page.
    pub page_size: usize,
    /// The number of candidates.
    pub total: usize,
    /// Whether a next page exists.
    pub has_next: bool,
    /// Whether a previous page exists.
    pub has_prev: bool,
}

/// The candidates of page `page` of `s`, `size` to a page (none when the
/// size is 0 or there are no candidates).
pub open spec fn page_slice<T>(s: Seq<T>, page: int, size: int) -> Seq<T> {
    if size == 0 || s.len() == 0 {
        seq![]
    } else {
        let start = if page * size < s.len() {
            page * size
        } else {
            s.len() as int
        };
        let end = if start + size < s.len() {
            start + size
        } else {
            s.len() as int
        };
        s.subrange(start, end)
    }
}

impl<T> CandidateList<T> {
    /// The flags say what the page and total say: a next page exists when
    /// the page after this one starts before the end, a previous one when
    /// this is not the first.
    pub open spec fn in_step(self) -> bool {
        &&& self.total == self.candidates@.len()
        &&& self.has_next == ((self.page + 1) * self.page_size < self.total)
        &&& self.has_prev == (self.page > 0)
    }

    /// `current_page` can be computed without overflow.
    pub open spec fn page_computable(self) -> bool {
        &&& self.page * self.page_size <= usize::MAX
        &&& self.candidates@.len() + self.page_size <= usize::MAX
    }

    /// A list of `candidates` standing on `page`, `page_size` to a page.
    pub fn new(candidates: Vec<T>, page: usize, page_size: usize) -> (r: Self)
        requires
            page < usize::MAX,
            (page + 1) * page_size <= usize::MAX,
        ensures
            r.candidates@ == candidates@,
            r.page == page,
            r.page_size == page_size,
            r.in_step(),
    {
        let total = candidates.len();
        let has_next = (page + 1) * page_size < total;
        let has_prev = page > 0;
        CandidateList { candidates, page, page_size, total, has_next, has_prev }
    }

    /// The candidates of the current page.
    pub fn current_page(&self) -> (r: &[T])
        requires
            self.page_computable(),
        ensures
            r@ == page_slice(self.candidates@, self.page as int, self.page_size as int),
    {
        let len = self.candidates.len();
        if self.page_size == 0 || len == 0 {
            let e: &[T] = &[];
            assert(e@ =~= Seq::<T>::empty());
            return e;
        }
        let p = self.page * self.page_size;
        let start = if p < len {
            p
        } else {
            len
        };
        let end = if start + self.page_size < len {
            start + self.page_size
        } else {
            len
        };
        let s = self.candidates.as_slice();
        &s[start..end]
    }

    /// All candidates.
    pub fn all_candidates(&self) -> (r: &[T])
        ensures
            r@ == self.candidates@,
    {
        self.candidates.as_slice()
    }

    /// The number of candidates.
    pub fn len(&self) -> (r: usize)
        ensures
            r == self.candidates@.len(),
    {
        self.candidates.len()
    }

    /// Whether there are no candidates.
    pub fn is_empty(&self) -> (r: bool)
        ensures
            r == (self.candidates@.len() == 0),
    {
        self.candidates.len() == 0
    }

    /// Turns to the next page when the flag says there is one.
    pub fn next_page(&mut self) -> (r: bool)
        requires
            old(self).has_next ==> old(self).page + 1 < usize::MAX && (old(self).page + 2)
                * old(self).page_size <= usize::MAX,
        ensures
            r == old(self).has_next,
            final(self).candidates == old(self).candidates,
            final(self).page_size == old(self).page_size,
            final(self).total == old(self).total,
            r ==> final(self).page == old(self).page + 1 && final(self).has_prev
                && final(self).has_next == ((final(self).page + 1) * final(self).page_size
                < final(self).total),
            !r ==> *final(self) == *old(self),
    {
        if self.has_next {
            self.page = self.page + 1;
            self.has_prev = true;
            self.has_next = (self.page + 1) * self.page_size < self.total;
            true
        } else {
            false
        }
    }

    /// Turns to the previous page when the flag says there is one.
    pub fn prev_page(&mut self) -> (r: bool)
        requires
            old(self).has_prev ==> old(self).page > 0,
        ensures
            r == old(self).has_prev,
            final(self).candidates == old(self).candidates,
            final(self).page_size == old(self).page_size,
            final(self).total == old(self).total,
            r ==> final(self).page == old(self).page - 1,
            r ==> final(self).has_next == ((final(self).page + 1) * final(self).page_size < final(self).total),
            r ==> final(self).has_prev == (final(self).page > 0),
            !r ==> *final(self) == *old(self),
    {
        if self.has_prev {
            let here = self.page;
            self.page = here - 1;
            self.has_next = match here.checked_mul(self.page_size) {
                Some(end) => end < self.total,
                None => false,
            };
            self.has_prev = self.page > 0;
            true
        } else {
            false
        }
    }

    /// Goes to page `page` when it starts before the end.
    pub fn goto_page(&mut self, page: usize) -> (r: bool)
        requires
            page < usize::MAX,
            (page + 1) * old(self).page_size <= usize::MAX,
        ensures
            r == (page * old(self).page_size < old(self).total),
            final(self).candidates == old(self).candidates,
            final(self).page_size == old(self).page_size,
            final(self).total == old(self).total,
            r ==> final(self).page == page && final(self).has_next == ((page + 1)
                * final(self).page_size < final(self).total) && final(self).has_prev == (page
                > 0),
            !r ==> *final(self) == *old(self),
    {
        assert(page * self.page_size <= (page + 1) * self.page_size) by (nonlinear_arith);
        if page * self.page_size < self.total {
            self.page = page;
            self.has_next = (page + 1) * self.page_size < self.total;
            self.has_prev = page > 0;
            true
        } else {
            false
        }
    }
}

/// Moves a selection through a candidate list.
pub struct CandidateSelector<T> {
    list: CandidateList<T>,
    selected: usize,
}

/// What a selector holds: the list and the selected index in its page.
pub struct SelectorView<T> {
    pub list: CandidateList<T>,
    pub selected: usize,
}

impl<T> View for CandidateSelector<T> {
    type V = SelectorView<T>;

    closed spec fn view(&self) -> SelectorView<T> {
        SelectorView { list: self.list, selected: self.selected }
    }
}

/// The candidates of the list's current page.
pub open spec fn current_page_of<T>(l: CandidateList<T>) -> Seq<T> {
    page_slice(l.candidates@, l.page as int, l.page_size as int)
}

impl<T> CandidateSelector<T> {
    /// The first candidate of `list` selected.
    pub fn new(list: CandidateList<T>) -> (r: Self)
        ensures
            r@.list == list,
            r@.selected == 0,
    {
        CandidateSelector { list, selected: 0 }
    }

    /// The candidate list.
    pub fn list(&self) -> (r: &CandidateList<T>)
        ensures
            *r == self@.list,
    {
        &self.list
    }

    /// The selected index in the page.
    pub fn selected_index(&self) -> (r: usize)
        ensures
            r == self@.selected,
    {
        self.selected
    }

    /// The selected candidate, if the page has it.
    pub fn selected(&self) -> (r: Option<&T>)
        requires
            self@.list.page_computable(),
        ensures
            if self@.selected < current_page_of(self@.list).len() {
                r == Some(&current_page_of(self@.list)[self@.selected as int])
            } else {
                r is None
            },
    {
        let p = self.list.current_page();
        if self.selected < p.len() {
            Some(&p[self.selected])
        } else {
            None
        }
    }

    /// The candidate that confirming takes: the selected one.
    pub fn confirm(&self) -> (r: Option<&T>)
        requires
            self@.list.page_computable(),
        ensures
            if self@.selected < current_page_of(self@.list).len() {
                r == Some(&current_page_of(self@.list)[self@.selected as int])
            } else {
                r is None
            },
    {
        self.selected()
    }

    /// Selects the next candidate of the page, or the first of the next
    /// page; false at the very end.
    pub fn select_next(&mut self) -> (r: bool)
        requires
            old(self)@.list.page_computable(),
            old(self)@.list.has_next ==> old(self)@.list.page + 1 < usize::MAX && (old(
                self,
            )@.list.page + 2) * old(self)@.list.page_size <= usize::MAX,
        ensures
            ({
                let o = old(self)@;
                let n = final(self)@;
                if o.selected + 1 < current_page_of(o.list).len() {
                    r && n.list == o.list && n.selected == o.selected + 1
                } else if o.list.has_next {
                    &&& r
                    &&& n.selected == 0
                    &&& n.list.page == o.list.page + 1
                    &&& n.list.candidates == o.list.candidates
                    &&& n.list.page_size == o.list.page_size
                    &&& n.list.total == o.list.total
                    &&& n.list.has_prev
                    &&& n.list.has_next == ((n.list.page + 1) * n.list.page_size < n.list.total)
                } else {
                    !r && n == o
                }
            }),
    {
        let n = self.list.current_page().len();
        if self.selected < n && self.selected + 1 < n {
            self.selected = self.selected + 1;
            true
        } else if self.list.next_page() {
            self.selected = 0;
            true
        } else {
            false
        }
    }

    /// Selects the previous candidate of the page, or the last of the
    /// previous page; false at the very start.
    pub fn select_prev(&mut self) -> (r: bool)
        requires
            old(self)@.list.page_computable(),
            old(self)@.list.has_prev ==> old(self)@.list.page > 0,
        ensures
            ({
                let o = old(self)@;
                let n = final(self)@;
                if o.selected > 0 {
                    r && n.list == o.list && n.selected == o.selected - 1
                } else if o.list.has_prev {
                    let p = current_page_of(n.list);
                    &&& r
                    &&& n.list.page == o.list.page - 1
                    &&& n.list.candidates == o.list.candidates
                    &&& n.list.page_size == o.list.page_size
                    &&& n.list.total == o.list.total
                    &&& n.list.has_next == ((n.list.page + 1) * n.list.page_size < n.list.total)
                    &&& n.list.has_prev == (n.list.page > 0)
                    &&& n.selected == if p.len() > 0 {
                        (p.len() - 1) as usize
                    } else {
                        0
                    }
                } else {
                    !r && n == o
                }
            }),
    {
        let ghost p0 = self.list.page;
        if self.selected > 0 {
            self.selected = self.selected - 1;
            true
        } else if self.list.prev_page() {
            proof {
                let p1 = self.list.page;
                let ps = self.list.page_size;
                assert(p1 * ps <= p0 * ps) by (nonlinear_arith)
                    requires
                        p1 + 1 == p0,
                ;
            }
            let n = self.list.current_page().len();
            self.selected = if n > 0 {
                n - 1
            } else {
                0
            };
            true
        } else {
            false
        }
    }

    /// Selects candidate `index` of the page, if there is one.
    pub fn select(&mut self, index: usize) -> (r: bool)
        requires
            old(self)@.list.page_computable(),
        ensures
            r == (index < current_page_of(old(self)@.list).len()),
            final(self)@.list == old(self)@.list,
            final(self)@.selected == if r {
                index
            } else {
                old(self)@.selected
            },
    {
        if index < self.list.current_page().len() {
            self.selected = index;
            true
        } else {
            false
        }
    }
}

/// The candidates of `s` that come from `source`, in order.
pub open spec fn of_source<S>(s: Seq<CandidateView<S>>, source: CandidateSource) -> Seq<
    CandidateView<S>,
>
    decreases s.len(),
{
    if s.len() == 0 {
        seq![]
    } else {
        let t = of_source(s.drop_last(), source);
        if s.last().source == source {
            t.push(s.last())
        } else {
            t
        }
    }
}

/// Whether `t` holds a candidate with the text and the code of `c`.
pub open spec fn has_text_code<S>(t: Seq<CandidateView<S>>, c: CandidateView<S>) -> bool {
    exists|i: int| 0 <= i < t.len() && (#[trigger] t[i]).text == c.text && t[i].code == c.code
}

/// Whether `t` holds a candidate with the text of `c`.
pub open spec fn has_text<S>(t: Seq<CandidateView<S>>, c: CandidateView<S>) -> bool {
    exists|i: int| 0 <= i < t.len() && (#[trigger] t[i]).text == c.text
}

/// `s` without the candidates whose text and code a candidate kept before
/// them has: the first of each text and code stays, in order.
pub open spec fn dedup_text_code<S>(s: Seq<CandidateView<S>>) -> Seq<CandidateView<S>>
    decreases s.len(),
{
    if s.len() == 0 {
        seq![]
    } else {
        let t = dedup_text_code(s.drop_last());
        if has_text_code(t, s.last()) {
            t
        } else {
            t.push(s.last())
        }
    }
}

/// `s` without the candidates whose text a candidate kept before them has:
/// the first of each text stays, in order.
pub open spec fn dedup_text<S>(s: Seq<CandidateView<S>>) -> Seq<CandidateView<S>>
    decreases s.len(),
{
    if s.len() == 0 {
        seq![]
    } else {
        let t = dedup_text(s.drop_last());
        if has_text(t, s.last()) {
            t
        } else {
            t.push(s.last())
        }
    }
}

/// Whether one of `kept` has the text (and, when `with_code`, the code) of
/// `c`.
fn holds_like<S>(kept: &Vec<Candidate<S>>, c: &Candidate<S>, with_code: bool) -> (r: bool)
    ensures
        with_code ==> r == has_text_code(candidate_views(kept@), c@),
        !with_code ==> r == has_text(candidate_views(kept@), c@),
{
    let ghost kv = candidate_views(kept@);
    let mut m: usize = 0;
    while m < kept.len()
        invariant
            m <= kept@.len(),
            kv == candidate_views(kept@),
            forall|j: int|
                0 <= j < m ==> !((#[trigger] kv[j]).text == c@.text && (!with_code || kv[j].code
                    == c@.code)),
        decreases kept@.len() - m,
    {
        assert(kv[m as int] == kept@[m as int]@);
        if str_eq(kept[m].text.as_str(), c.text.as_str()) && (!with_code || str_eq(
            kept[m].code.as_str(),
            c.code.as_str(),
        )) {
            assert(kv[m as int].text == c@.text);
            return true;
        }
        m = m + 1;
    }
    false
}

/// Keeps in `candidates` the first of each text (and, when `with_code`,
/// code).
fn keep_first<S>(candidates: &mut Vec<Candidate<S>>, with_code: bool)
    ensures
        with_code ==> candidate_views(final(candidates)@) == dedup_text_code(
            candidate_views(old(candidates)@),
        ),
        !with_code ==> candidate_views(final(candidates)@) == dedup_text(
            candidate_views(old(candidates)@),
        ),
{
    let mut rest: Vec<Candidate<S>> = Vec::new();
    std::mem::swap(&mut rest, candidates);
    let ghost orig = candidate_views(rest@);
    let _len = rest.len();
    assert(orig.len() == rest@.len());
    let mut kept: Vec<Candidate<S>> = Vec::new();
    let mut i: usize = 0;
    assert(orig.take(0) =~= Seq::<CandidateView<S>>::empty());
    assert(orig.skip(0) == orig);
    while rest.len() > 0
        invariant
            i <= orig.len() <= usize::MAX,
            candidate_views(rest@) == orig.skip(i as int),
            with_code ==> candidate_views(kept@) == dedup_text_code(orig.take(i as int)),
            !with_code ==> candidate_views(kept@) == dedup_text(orig.take(i as int)),
        decreases rest@.len(),
    {
        let ghost r0 = rest@;
        assert(candidate_views(r0).len() == r0.len());
        assert(i < orig.len());
        assert(candidate_views(r0)[0] == r0[0]@);
        let c = rest.remove(0);
        assert(orig.skip(i as int)[0] == orig[i as int]);
        assert(c@ == orig[i as int]);
        assert(candidate_views(rest@) =~= orig.skip(i + 1)) by {
            assert(rest@ == r0.remove(0));
            assert forall|k: int| 0 <= k < rest@.len() implies #[trigger] candidate_views(rest@)[k]
                == orig.skip(i + 1)[k] by {
                assert(rest@[k] == r0[k + 1]);
                assert(candidate_views(r0)[k + 1] == r0[k + 1]@);
                assert(orig.skip(i as int)[k + 1] == orig[i + 1 + k]);
            }
        }
        assert(orig.take(i + 1).drop_last() == orig.take(i as int));
        assert(orig.take(i + 1).last() == orig[i as int]);
        let ghost k0 = candidate_views(kept@);
        if !holds_like(&kept, &c, with_code) {
            kept.push(c);
            assert(candidate_views(kept@) =~= k0.push(orig[i as int]));
        }
        i = i + 1;
    }
    assert(orig.skip(i as int).len() == 0);
    assert(orig.take(i as int) == orig);
    *candidates = kept;
}

/// Filters of candidate lists.
pub struct CandidateFilter;

impl CandidateFilter {
    /// The candidates that come from `source`, in order.
    pub fn by_source<S>(candidates: &[Candidate<S>], source: CandidateSource) -> (r: Vec<
        &Candidate<S>,
    >)
        ensures
            candidate_ref_views(r@) == of_source(candidate_views(candidates@), source),
    {
        let ghost cv = candidate_views(candidates@);
        let mut r: Vec<&Candidate<S>> = Vec::new();
        let mut i: usize = 0;
        assert(cv.take(0) =~= Seq::<CandidateView<S>>::empty());
        while i < candidates.len()
            invariant
                i <= candidates@.len(),
                cv == candidate_views(candidates@),
                candidate_ref_views(r@) == of_source(cv.take(i as int), source),
            decreases candidates@.len() - i,
        {
            assert(cv.take(i + 1).drop_last() == cv.take(i as int));
            assert(cv.take(i + 1).last() == candidates@[i as int]@);
            let c = &candidates[i];
            if c.source == source {
                let ghost r0 = candidate_ref_views(r@);
                r.push(c);
                assert(candidate_ref_views(r@) =~= r0.push(c@));
            }
            i = i + 1;
        }
        assert(cv.take(cv.len() as int) == cv);
        r
    }

    /// The first `max_count` candidates (all, when there are fewer).
    pub fn limit<S>(candidates: &[Candidate<S>], max_count: usize) -> (r: Vec<&Candidate<S>>)
        ensures
            candidate_ref_views(r@) == candidate_views(candidates@).take(
                if max_count < candidates@.len() {
                    max_count as int
                } else {
                    candidates@.len() as int
                },
            ),
    {
        let ghost cv = candidate_views(candidates@);
        let n = if max_count < candidates.len() {
            max_count
        } else {
            candidates.len()
        };
        let mut r: Vec<&Candidate<S>> = Vec::new();
        let mut i: usize = 0;
        while i < n
            invariant
                i <= n <= candidates@.len(),
                cv == candidate_views(candidates@),
                candidate_ref_views(r@) == cv.take(i as int),
            decreases n - i,
        {
            let ghost r0 = candidate_ref_views(r@);
            r.push(&candidates[i]);
            assert(candidate_ref_views(r@) =~= r0.push(cv[i as int]));
            assert(cv.take(i + 1) =~= cv.take(i as int).push(cv[i as int]));
            i = i + 1;
        }
        r
    }

    /// Drops each candidate whose text and code an earlier one has, so that
    /// the first of each stays, wherever the repeats stand.
    pub fn deduplicate<S>(candidates: &mut Vec<Candidate<S>>)
        ensures
            candidate_views(final(candidates)@) == dedup_text_code(
                candidate_views(old(candidates)@),
            ),
    {
        keep_first(candidates, true);
    }

    /// Drops each candidate whose text an earlier one has, so that the first
    /// of each text stays, wherever the repeats stand.
    pub fn dedup_by_text<S>(candidates: &mut Vec<Candidate<S>>)
        ensures
            candidate_views(final(candidates)@) == dedup_text(candidate_views(old(candidates)@)),
    {
        keep_first(candidates, false);
    }
}

/// Conversions of candidate lists.
pub struct CandidateConverter;

impl CandidateConverter {
    /// The words of the candidates, in order.
    pub fn to_texts<S>(candidates: &[Candidate<S>]) -> (r: Vec<String>)
        ensures
            string_views(r@) == candidate_views(candidates@).map_values(
                |c: CandidateView<S>| c.text,
            ),
    {
        let ghost want = candidate_views(candidates@).map_values(|c: CandidateView<S>| c.text);
        let mut r: Vec<String> = Vec::new();
        let mut i: usize = 0;
        while i < candidates.len()
            invariant
                i <= candidates@.len(),
                want == candidate_views(candidates@).map_values(|c: CandidateView<S>| c.text),
                string_views(r@) == want.take(i as int),
            decreases candidates@.len() - i,
        {
            let ghost r0 = string_views(r@);
            r.push(candidates[i].text.clone());
            assert(string_views(r@) =~= r0.push(want[i as int]));
            assert(want.take(i + 1) =~= want.take(i as int).push(want[i as int]));
            i = i + 1;
        }
        assert(want.take(want.len() as int) == want);
        r
    }

    /// The code and the word of each candidate, in order.
    pub fn to_code_text_map<S>(candidates: &[Candidate<S>]) -> (r: Vec<(String, String)>)
        ensures
            r@.map_values(|p: (String, String)| (p.0@, p.1@)) == candidate_views(
                candidates@,
            ).map_values(|c: CandidateView<S>| (c.code, c.text)),
    {
        let ghost want = candidate_views(candidates@).map_values(
            |c: CandidateView<S>| (c.code, c.text),
        );
        let mut r: Vec<(String, String)> = Vec::new();
        let mut i: usize = 0;
        while i < candidates.len()
            invariant
                i <= candidates@.len(),
                want == candidate_views(candidates@).map_values(
                    |c: CandidateView<S>| (c.code, c.text),
                ),
                r@.map_values(|p: (String, String)| (p.0@, p.1@)) == want.take(i as int),
            decreases candidates@.len() - i,
        {
            let ghost r0 = r@.map_values(|p: (String, String)| (p.0@, p.1@));
            r.push((candidates[i].code.clone(), candidates[i].text.clone()));
            assert(r@.map_values(|p: (String, String)| (p.0@, p.1@)) =~= r0.push(want[i as int]));
            assert(want.take(i + 1) =~= want.take(i as int).push(want[i as int]));
            i = i + 1;
        }
        assert(want.take(want.len() as int) == want);
        r
    }

    /// The word and the score of each candidate, in order.
    pub fn to_score_map<S: Copy>(candidates: &[Candidate<S>]) -> (r: Vec<(String, S)>)
        ensures
            r@.map_values(|p: (String, S)| (p.0@, p.1)) == candidate_views(
                candidates@,
            ).map_values(|c: CandidateView<S>| (c.text, c.score)),
    {
        let ghost want = candidate_views(candidates@).map_values(
            |c: CandidateView<S>| (c.text, c.score),
        );
        let mut r: Vec<(String, S)> = Vec::new();
        let mut i: usize = 0;
        while i < candidates.len()
            invariant
                i <= candidates@.len(),
                want == candidate_views(candidates@).map_values(
                    |c: CandidateView<S>| (c.text, c.score),
                ),
                r@.map_values(|p: (String, S)| (p.0@, p.1)) == want.take(i as int),
            decreases candidates@.len() - i,
        {
            let ghost r0 = r@.map_values(|p: (String, S)| (p.0@, p.1));
            let score = candidates[i].score;
            r.push((candidates[i].text.clone(), score));
            assert(r@.map_values(|p: (String, S)| (p.0@, p.1)) =~= r0.push(want[i as int]));
            assert(want.take(i + 1) =~= want.take(i as int).push(want[i as int]));
            i = i + 1;
        }
        assert(want.take(want.len() as int) == want);
        r
    }
}

} // verus!

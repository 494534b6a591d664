//! Segments of text and their order.
use vstd::prelude::*;

use crate::text::{str_to_string, string_push_str};

verus! {

broadcast use vstd::seq_lib::group_seq_properties;

/// Errors of segmentation.
#[derive(Debug)]
pub enum SegmentError {
    /// Segmentation failed.
    SegmentationError(String),
    /// The input could not be parsed.
    ParseError(String),
    /// The dictionary could not be queried.
    DictError(String),
}

impl SegmentError {
    /// The message the error shows.
    pub open spec fn spec_message(self) -> Seq<char> {
        match self {
            SegmentError::SegmentationError(m) => "分词失败: "@ + m@,
            SegmentError::ParseError(m) => "输入解析错误: "@ + m@,
            SegmentError::DictError(m) => "词典查询错误: "@ + m@,
        }
    }

    /// The message the error shows (what its `Display` writes).
    pub fn message(&self) -> (r: String)
        ensures
            r@ == self.spec_message(),
    {
        let (p, m) = match self {
            SegmentError::SegmentationError(m) => ("分词失败: ", m),
            SegmentError::ParseError(m) => ("输入解析错误: ", m),
            SegmentError::DictError(m) => ("词典查询错误: ", m),
        };
        let mut r = str_to_string(p);
        string_push_str(&mut r, m.as_str());
        r
    }
}

/// A segment of text.
#[derive(Debug)]
pub struct Segment {
    /// The text.
    pub text: String,
    /// Where it starts.
    pub start: usize,
    /// Where it ends.
    pub end: usize,
    /// Its part of speech, if known.
    pub pos: Option<String>,
    /// Its frequency, if known.
    pub freq: Option<u32>,
}

impl Segment {
    /// A segment with no part of speech and no frequency.
    pub fn new(text: String, start: usize, end: usize) -> (r: Self)
        ensures
            r == (Segment { text, start, end, pos: None, freq: None }),
    {
        Segment { text, start, end, pos: None, freq: None }
    }

    /// The length, end minus start.
    pub fn len(&self) -> (r: usize)
        requires
            self.start <= self.end,
        ensures
            r == self.end - self.start,
    {
        self.end - self.start
    }

    /// Whether the text is empty.
    pub fn is_empty(&self) -> (r: bool)
        ensures
            r == (self.text@.len() == 0),
    {
        crate::text::str_chars(self.text.as_str()).len() == 0
    }

    /// The text shown for the segment (what its `Display` writes).
    pub fn display_text(&self) -> (r: String)
        ensures
            r@ == self.text@,
    {
        self.text.clone()
    }

    /// A copy of this segment.
    pub fn duplicate(&self) -> (r: Self)
        ensures
            r == *self,
    {
        Segment {
            text: self.text.clone(),
            start: self.start,
            end: self.end,
            pos: match &self.pos {
                Some(p) => Some(p.clone()),
                None => None,
            },
            freq: self.freq,
        }
    }
}

/// A segmenter and its settings.
pub struct Segmenter {
    /// Whether ambiguous text is cut.
    pub ambiguous_cut: bool,
    /// Whether parts of speech are returned.
    pub return_pos: bool,
    /// The longest word.
    pub max_word_len: usize,
}

impl Segmenter {
    /// No ambiguous cuts, no parts of speech, words of at most 32.
    pub fn new() -> (r: Self)
        ensures
            r == (Segmenter { ambiguous_cut: false, return_pos: false, max_word_len: 32 }),
    {
        Segmenter { ambiguous_cut: false, return_pos: false, max_word_len: 32 }
    }

    /// Sets whether ambiguous text is cut.
    pub fn with_ambiguous_cut(self, enable: bool) -> (r: Self)
        ensures
            r == (Segmenter { ambiguous_cut: enable, ..self }),
    {
        Segmenter { ambiguous_cut: enable, ..self }
    }

    /// Sets whether parts of speech are returned.
    pub fn with_return_pos(self, enable: bool) -> (r: Self)
        ensures
            r == (Segmenter { return_pos: enable, ..self }),
    {
        Segmenter { return_pos: enable, ..self }
    }

    /// Sets the longest word.
    pub fn with_max_word_len(self, len: usize) -> (r: Self)
        ensures
            r == (Segmenter { max_word_len: len, ..self }),
    {
        Segmenter { max_word_len: len, ..self }
    }
}

impl Default for Segmenter {
    fn default() -> (r: Self)
        ensures
            r == (Segmenter { ambiguous_cut: false, return_pos: false, max_word_len: 32 }),
    {
        Segmenter::new()
    }
}

/// Strategies of segmentation.
#[derive(PartialEq, Eq, Structural, Clone, Copy, Debug)]
pub enum SegmentationStrategy {
    /// Longest match.
    MaxMatch,
    /// Shortest match.
    MinMatch,
    /// Shortest path.
    ShortestPath,
    /// A statistical model.
    Statistical,
}

/// Index of the first segment of `s` that starts after `c` (the length
/// when none does).
pub open spec fn first_after(s: Seq<Segment>, c: usize) -> int
    decreases s.len(),
{
    if s.len() == 0 {
        0
    } else if s[0].start > c {
        0
    } else {
        1 + first_after(s.drop_first(), c)
    }
}

/// The segments `s` sorted by start, segments of equal start in the order
/// of `s` (a stable sort).
pub open spec fn sorted_by_start(s: Seq<Segment>) -> Seq<Segment>
    decreases s.len(),
{
    if s.len() == 0 {
        seq![]
    } else {
        let t = sorted_by_start(s.drop_last());
        let p = first_after(t, s.last().start);
        t.take(p) + seq![s.last()] + t.skip(p)
    }
}

/// Starts never decrease along `s`.
pub open spec fn starts_ascending(s: Seq<Segment>) -> bool {
    forall|i: int, j: int| 0 <= i < j < s.len() ==> (#[trigger] s[i]).start <= (#[trigger] s[j]).start
}

/// Operations on lists of segments.
pub struct SegmentMerger;

impl SegmentMerger {
    /// Sorts the segments by start; segments of equal start keep their
    /// order.
    pub fn sort_by_position(segments: &mut [Segment])
        ensures
            final(segments)@ == sorted_by_start(old(segments)@),
            starts_ascending(final(segments)@),
            final(segments)@.to_multiset() == old(segments)@.to_multiset(),
    {
        let ghost s0 = segments@;
        let mut sorted: Vec<Segment> = Vec::new();
        let mut i: usize = 0;
        assert(s0.take(0) =~= Seq::<Segment>::empty());
        while i < segments.len()
            invariant
                i <= segments@.len(),
                segments@ == s0,
                sorted@ == sorted_by_start(s0.take(i as int)),
            decreases segments@.len() - i,
        {
            assert(s0.take(i + 1).drop_last() == s0.take(i as int));
            assert(s0.take(i + 1).last() == s0[i as int]);
            let p = position_after(&sorted, segments[i].start);
            let ghost t = sorted@;
            sorted.insert(p, segments[i].duplicate());
            assert(sorted@ =~= t.take(p as int) + seq![s0[i as int]] + t.skip(p as int));
            i = i + 1;
        }
        assert(s0.take(s0.len() as int) == s0);
        proof {
            lemma_sorted_by_start(s0);
        }
        let mut k: usize = 0;
        while k < segments.len()
            invariant
                k <= segments@.len(),
                sorted@.len() == segments@.len(),
                segments@.len() == s0.len(),
                forall|j: int| 0 <= j < k ==> segments@[j] == sorted@[j],
            decreases segments@.len() - k,
        {
            segments[k] = sorted[k].duplicate();
            k = k + 1;
        }
        assert(segments@ =~= sorted@);
    }
}

/// Where a segment starting at `c` goes among segments sorted by start:
/// after all that do not start after it.
fn position_after(s: &Vec<Segment>, c: usize) -> (r: usize)
    ensures
        r as int == first_after(s@, c),
        r <= s@.len(),
{
    let mut i: usize = 0;
    assert(s@.skip(0) == s@);
    while i < s.len() && s[i].start <= c
        invariant
            i <= s@.len(),
            first_after(s@, c) == i + first_after(s@.skip(i as int), c),
        decreases s@.len() - i,
    {
        assert(s@.skip(i as int).drop_first() == s@.skip(i + 1));
        i = i + 1;
    }
    proof {
        if i < s@.len() {
            assert(s@.skip(i as int)[0] == s@[i as int]);
        }
    }
    i
}

/// Where `first_after` puts a segment in a sorted list: everything before
/// starts no later, everything after starts later.
proof fn lemma_first_after(t: Seq<Segment>, c: usize)
    requires
        starts_ascending(t),
    ensures
        0 <= first_after(t, c) <= t.len(),
        forall|i: int| 0 <= i < first_after(t, c) ==> (#[trigger] t[i]).start <= c,
        forall|i: int| first_after(t, c) <= i < t.len() ==> (#[trigger] t[i]).start > c,
    decreases t.len(),
{
    if t.len() > 0 {
        let d = t.drop_first();
        assert(starts_ascending(d)) by {
            assert forall|i: int, j: int| 0 <= i < j < d.len() implies (#[trigger] d[i]).start
                <= (#[trigger] d[j]).start by {
                assert(d[i] == t[i + 1] && d[j] == t[j + 1]);
            }
        }
        lemma_first_after(d, c);
        if t[0].start > c {
            assert forall|i: int| 0 <= i < t.len() implies (#[trigger] t[i]).start > c by {
                if i > 0 {
                    assert(t[0].start <= t[i].start);
                }
            }
        } else {
            assert forall|i: int| 0 <= i < first_after(t, c) implies (#[trigger] t[i]).start <= c by {
                if i > 0 {
                    assert(t[i] == d[i - 1]);
                }
            }
            assert forall|i: int| first_after(t, c) <= i < t.len() implies (#[trigger] t[i]).start
                > c by {
                assert(t[i] == d[i - 1]);
            }
        }
    }
}

/// The stable sort by start is sorted and has the same segments.
proof fn lemma_sorted_by_start(s: Seq<Segment>)
    ensures
        starts_ascending(sorted_by_start(s)),
        sorted_by_start(s).to_multiset() == s.to_multiset(),
        sorted_by_start(s).len() == s.len(),
    decreases s.len(),
{
    if s.len() > 0 {
        let t = sorted_by_start(s.drop_last());
        let x = s.last();
        lemma_sorted_by_start(s.drop_last());
        lemma_first_after(t, x.start);
        let p = first_after(t, x.start);
        let r = t.take(p) + seq![x] + t.skip(p);
        assert(r == sorted_by_start(s));
        assert forall|i: int, j: int| 0 <= i < j < r.len() implies (#[trigger] r[i]).start
            <= (#[trigger] r[j]).start by {
            if j < p {
                assert(r[i] == t[i] && r[j] == t[j]);
            } else if j == p {
                assert(r[i] == t[i]);
            } else if i < p {
                assert(r[i] == t[i] && r[j] == t[j - 1]);
            } else if i == p {
                assert(r[j] == t[j - 1]);
            } else {
                assert(r[i] == t[i - 1] && r[j] == t[j - 1]);
            }
        }
        assert(t == t.take(p) + t.skip(p));
        vstd::seq_lib::lemma_multiset_commutative(t.take(p), t.skip(p));
        vstd::seq_lib::lemma_multiset_commutative(t.take(p), seq![x]);
        vstd::seq_lib::lemma_multiset_commutative(t.take(p) + seq![x], t.skip(p));
        vstd::seq_lib::lemma_multiset_commutative(s.drop_last(), seq![x]);
        assert(s == s.drop_last() + seq![x]);
    }
}

/// Performance analysis of segmentation.
pub struct SegmentProfiler;

} // verus!

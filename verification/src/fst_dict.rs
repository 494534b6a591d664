//! A compressed dictionary on a finite state transducer (`fst::Map`): each
//! entry is stored under the key `code`, U+0001, `word`, with its frequency
//! as value.
use vstd::prelude::*;
use vstd::utf8::{decode_utf8, encode_utf8, valid_utf8};

use crate::distance::{lev, levenshtein};
use crate::entry::{DictEntry, DictEntryView, DictSource, dict_views};
use crate::text::{chars_eq, chars_lt, lex_lt, starts_with, str_chars, string_from_chars, sub_chars};
use crate::types::{ImeError, ImeResult};

verus! {

broadcast use vstd::seq_lib::group_seq_properties;

/// The map type of the `fst` crate.
#[verifier::external_type_specification]
#[verifier::external_body]
#[verifier::reject_recursive_types(D)]
pub struct ExFstMap<D>(fst::Map<D>);

/// The error type of the `fst` crate.
#[verifier::external_type_specification]
#[verifier::external_body]
pub struct ExFstError(fst::Error);

/// The entries an `fst::Map` holds, in the order its streams yield them:
/// key bytes and value. The trusted items state them only for maps whose
/// bytes an fst builder wrote.
pub uninterp spec fn fst_entries(m: fst::Map<Vec<u8>>) -> Seq<(Seq<u8>, u64)>;

/// The bytes an fst builder (`fst::MapBuilder`) writes for pairs inserted
/// in order: a function of the pairs alone.
pub uninterp spec fn fst_built(ps: Seq<(Seq<u8>, u64)>) -> Seq<u8>;

/// Whether `fst::Map::new` accepts bytes. It checks only the header
/// (length, version and root address), so it decides from the bytes alone.
pub uninterp spec fn fst_accepts(b: Seq<u8>) -> bool;

/// The bytes that an `fst::Map` reads.
pub uninterp spec fn fst_bytes(m: fst::Map<Vec<u8>>) -> Seq<u8>;

/// The little-endian `u64` at `at` in `b` (eight bytes).
pub open spec fn le_word(b: Seq<u8>, at: int) -> int {
    b[at] + 0x100 * b[at + 1] + 0x1_0000 * b[at + 2] + 0x100_0000 * b[at + 3] + 0x1_0000_0000 * b[
        at + 4
    ] + 0x100_0000_0000 * b[at + 5] + 0x1_0000_0000_0000 * b[at + 6] + 0x100_0000_0000_0000 * b[at
        + 7]
}

/// Whether the header words that the map reader turns into `usize` fit one:
/// the root address and the key count, eight and sixteen bytes before the
/// end of the data (before the four-byte checksum from format version 3 on).
/// The reader looks at them only in bytes at least 36 long whose version
/// word is between 1 and 3.
pub open spec fn header_fits(b: Seq<u8>) -> bool {
    let version = le_word(b, 0);
    let end = if version <= 2 {
        b.len() as int
    } else {
        b.len() - 4
    };
    b.len() < 36 || version == 0 || version > 3 || (le_word(b, end - 8) <= usize::MAX && le_word(
        b,
        end - 16,
    ) <= usize::MAX)
}

/// A map whose bytes an fst builder wrote for its entries, whose keys
/// strictly increase: the maps whose counts and streams the `fst` crate
/// answers for.
pub open spec fn is_built(m: fst::Map<Vec<u8>>) -> bool {
    keys_increasing(fst_entries(m)) && fst_bytes(m) == fst_built(fst_entries(m))
}

/// Whether `b` are bytes an fst builder wrote for some pairs.
pub open spec fn written_by_builder(b: Seq<u8>) -> bool {
    exists|ps: Seq<(Seq<u8>, u64)>| keys_increasing(ps) && #[trigger] fst_built(ps) == b
}

/// The text `String::from_utf8_lossy` makes of bytes.
pub uninterp spec fn lossy_text(b: Seq<u8>) -> Seq<char>;

/// Byte strings in lexicographic order.
pub open spec fn bytes_lt(a: Seq<u8>, b: Seq<u8>) -> bool
    decreases a.len(),
{
    if a.len() == 0 {
        b.len() > 0
    } else if b.len() == 0 {
        false
    } else if a[0] != b[0] {
        a[0] < b[0]
    } else {
        bytes_lt(a.drop_first(), b.drop_first())
    }
}

/// The keys of `ps` strictly increase: they are unique and in order.
pub open spec fn keys_increasing(ps: Seq<(Seq<u8>, u64)>) -> bool {
    forall|i: int, j: int| 0 <= i < j < ps.len() ==> bytes_lt(#[trigger] ps[i].0, #[trigger] ps[j].0)
}

/// The values of key-value pairs.
pub open spec fn pair_views(v: Seq<(Vec<u8>, u64)>) -> Seq<(Seq<u8>, u64)> {
    v.map_values(|p: (Vec<u8>, u64)| (p.0@, p.1))
}

/// Builds an `fst::Map` from key-value pairs (`fst::Map::from_iter`). The
/// source shows: a builder is fed the pairs and its bytes are read back
/// with `Map::new`; the map is built when the keys strictly increase, and
/// then holds exactly the pairs in that order; otherwise an error comes
/// back. The builder writes the key count and the root address, both
/// `usize` values, as the header's last words, so they fit a `usize`.
#[verifier::external_body]
fn fst_map_from_pairs(pairs: Vec<(Vec<u8>, u64)>) -> (r: Result<fst::Map<Vec<u8>>, fst::Error>)
    ensures
        r is Ok <==> keys_increasing(pair_views(pairs@)),
        r is Ok ==> fst_entries(r->Ok_0) == pair_views(pairs@),
        r is Ok ==> fst_bytes(r->Ok_0) == fst_built(pair_views(pairs@)),
        r is Ok ==> fst_accepts(fst_bytes(r->Ok_0)),
        r is Ok ==> header_fits(fst_bytes(r->Ok_0)),
{
    fst::Map::from_iter(pairs)
}

/// Reads an `fst::Map` from its bytes (`fst::Map::new`), which checks only
/// the header: `Ok` exactly when it accepts them, and the map then reads
/// those bytes. Of bytes that an fst builder wrote for increasing pairs, the
/// map yields those pairs (`Map::from_iter` is that builder followed by
/// this call). Of other bytes that pass the header check nothing is
/// stated: reading them may panic. The header's root address and key count
/// are converted to `usize`, which panics where they do not fit one (on
/// targets narrower than 64 bits), so such bytes are left out.
#[verifier::external_body]
fn fst_map_new(bytes: Vec<u8>) -> (r: Result<fst::Map<Vec<u8>>, fst::Error>)
    requires
        header_fits(bytes@),
    ensures
        r is Ok <==> fst_accepts(bytes@),
        r is Ok ==> fst_bytes(r->Ok_0) == bytes@,
        forall|ps: Seq<(Seq<u8>, u64)>|
            keys_increasing(ps) && #[trigger] fst_built(ps) == bytes@ ==> r is Ok && fst_entries(
                r->Ok_0,
            ) == ps,
{
    fst::Map::new(bytes)
}

/// The number of keys of a map (`fst::Map::len`), which reads the count in
/// its header: the number of entries, for a map an fst builder wrote.
#[verifier::external_body]
fn fst_map_len(m: &fst::Map<Vec<u8>>) -> (r: usize)
    requires
        is_built(*m),
    ensures
        r == fst_entries(*m).len(),
{
    m.len()
}

/// All entries of a map, in key order (`fst::Map::stream`, collected).
#[verifier::external_body]
fn fst_map_entries(m: &fst::Map<Vec<u8>>) -> (r: Vec<(Vec<u8>, u64)>)
    requires
        is_built(*m),
    ensures
        pair_views(r@) == fst_entries(*m),
{
    m.stream().into_byte_vec()
}

/// The entries of a map whose key is at least `lo`, in key order
/// (`fst::Map::range` with `ge`, collected).
#[verifier::external_body]
fn fst_map_entries_from(m: &fst::Map<Vec<u8>>, lo: &[u8]) -> (r: Vec<(Vec<u8>, u64)>)
    requires
        is_built(*m),
    ensures
        pair_views(r@) == fst_entries(*m).filter(|e: (Seq<u8>, u64)| !bytes_lt(e.0, lo@)),
{
    fst::IntoStreamer::into_stream(m.range().ge(lo)).into_byte_vec()
}

/// The bytes of a map (`fst::Map::as_fst`, then `as_bytes`, copied).
#[verifier::external_body]
fn fst_map_bytes(m: &fst::Map<Vec<u8>>) -> (r: Vec<u8>)
    ensures
        r@ == fst_bytes(*m),
{
    m.as_fst().as_bytes().to_vec()
}

/// The text an fst error displays (its `Display`); what it says is not
/// stated.
#[verifier::external_body]
fn fst_error_text(e: &fst::Error) -> (r: String) {
    e.to_string()
}

/// Text from bytes, with each invalid sequence replaced by U+FFFD
/// (`String::from_utf8_lossy`). Valid UTF-8 is decoded as it is; what an
/// invalid sequence gives is named, not stated.
#[verifier::external_body]
fn utf8_lossy(b: &[u8]) -> (r: String)
    ensures
        r@ == lossy_text(b@),
        valid_utf8(b@) ==> r@ == decode_utf8(b@),
{
    String::from_utf8_lossy(b).into_owned()
}

/// The little-endian `u64` at `at` in `b`.
fn read_word(b: &[u8], at: usize) -> (r: u64)
    requires
        at + 8 <= b@.len(),
    ensures
        r == le_word(b@, at as int),
{
    let b0 = b[at] as u64;
    let b1 = b[at + 1] as u64;
    let b2 = b[at + 2] as u64;
    let b3 = b[at + 3] as u64;
    let b4 = b[at + 4] as u64;
    let b5 = b[at + 5] as u64;
    let b6 = b[at + 6] as u64;
    let b7 = b[at + 7] as u64;
    b0 + 0x100 * b1 + 0x1_0000 * b2 + 0x100_0000 * b3 + 0x1_0000_0000 * b4 + 0x100_0000_0000 * b5
        + 0x1_0000_0000_0000 * b6 + 0x100_0000_0000_0000 * b7
}

/// Whether the map reader can turn the header words of `bytes` into `usize`
/// values (always so on 64-bit targets); `FstDict::from_bytes` asks it.
pub fn header_words_fit(bytes: &[u8]) -> (r: bool)
    ensures
        r == header_fits(bytes@),
{
    let n = bytes.len();
    if n < 36 {
        return true;
    }
    let version = read_word(bytes, 0);
    if version == 0 || version > 3 {
        return true;
    }
    let end = if version <= 2 {
        n
    } else {
        n - 4
    };
    let root = read_word(bytes, end - 8);
    let count = read_word(bytes, end - 16);
    root <= usize::MAX as u64 && count <= usize::MAX as u64
}

/// The text of key bytes as the map's keys are read: valid UTF-8 decodes to
/// the text it encodes; other bytes as `String::from_utf8_lossy` makes them.
pub open spec fn key_text(b: Seq<u8>) -> Seq<char> {
    if valid_utf8(b) {
        decode_utf8(b)
    } else {
        lossy_text(b)
    }
}

/// The separator of code and word in keys.
pub open spec fn key_sep() -> char {
    '\u{1}'
}

/// The key bytes of an entry: its code, the separator and its word.
pub open spec fn entry_key(e: DictEntryView) -> Seq<u8> {
    encode_utf8(e.code + seq![key_sep()] + e.word)
}

/// Index of the first separator in `t`.
pub open spec fn sep_index(t: Seq<char>) -> Option<int>
    decreases t.len(),
{
    if t.len() == 0 {
        None
    } else {
        match sep_index(t.drop_last()) {
            Some(i) => Some(i),
            None => if t.last() == key_sep() {
                Some(t.len() - 1)
            } else {
                None
            },
        }
    }
}

/// The entry that a key-value pair of the map stands for, when its text
/// has a separator: code before it, word after it.
pub open spec fn entry_of(p: (Seq<u8>, u64), source: DictSource) -> Option<DictEntryView> {
    let t = key_text(p.0);
    match sep_index(t) {
        Some(k) => Some(
            DictEntryView { code: t.take(k), word: t.skip(k + 1), freq: p.1 as u32, source },
        ),
        None => None,
    }
}

/// The entries that the pairs stand for, in order.
pub open spec fn entries_of(ps: Seq<(Seq<u8>, u64)>, source: DictSource) -> Seq<DictEntryView>
    decreases ps.len(),
{
    if ps.len() == 0 {
        seq![]
    } else {
        let prev = entries_of(ps.drop_last(), source);
        match entry_of(ps.last(), source) {
            Some(e) => prev.push(e),
            None => prev,
        }
    }
}

/// Whether `a` sorts strictly before `b` by code, then by word.
pub open spec fn code_word_before(a: DictEntryView, b: DictEntryView) -> bool {
    lex_lt(a.code, b.code) || (a.code == b.code && lex_lt(a.word, b.word))
}

/// Index of the first entry of `s` that sorts strictly after `e` by code
/// and word.
pub open spec fn first_after_code_word(s: Seq<DictEntryView>, e: DictEntryView) -> int
    decreases s.len(),
{
    if s.len() == 0 {
        0
    } else if code_word_before(e, s[0]) {
        0
    } else {
        1 + first_after_code_word(s.drop_first(), e)
    }
}

/// The entries stably sorted by code, then by word.
pub open spec fn by_code_word(es: Seq<DictEntryView>) -> Seq<DictEntryView>
    decreases es.len(),
{
    if es.len() == 0 {
        seq![]
    } else {
        let t = by_code_word(es.drop_last());
        let p = first_after_code_word(t, es.last());
        t.take(p) + seq![es.last()] + t.skip(p)
    }
}

/// Index of the first entry of `s` of lower frequency than `f`.
pub open spec fn first_below_freq(s: Seq<DictEntryView>, f: u32) -> int
    decreases s.len(),
{
    if s.len() == 0 {
        0
    } else if s[0].freq < f {
        0
    } else {
        1 + first_below_freq(s.drop_first(), f)
    }
}

/// The entries stably sorted by frequency, highest first.
pub open spec fn by_freq(es: Seq<DictEntryView>) -> Seq<DictEntryView>
    decreases es.len(),
{
    if es.len() == 0 {
        seq![]
    } else {
        let t = by_freq(es.drop_last());
        let p = first_below_freq(t, es.last().freq);
        t.take(p) + seq![es.last()] + t.skip(p)
    }
}

/// Whether `a` sorts strictly before `b`: smaller distance, then higher
/// frequency.
pub open spec fn dist_before(a: (DictEntryView, usize), b: (DictEntryView, usize)) -> bool {
    a.1 < b.1 || (a.1 == b.1 && a.0.freq > b.0.freq)
}

/// Index of the first result of `s` that sorts strictly after `x`.
pub open spec fn first_after_dist(s: Seq<(DictEntryView, usize)>, x: (DictEntryView, usize)) -> int
    decreases s.len(),
{
    if s.len() == 0 {
        0
    } else if dist_before(x, s[0]) {
        0
    } else {
        1 + first_after_dist(s.drop_first(), x)
    }
}

/// The results stably sorted by distance, then by higher frequency.
pub open spec fn by_dist(rs: Seq<(DictEntryView, usize)>) -> Seq<(DictEntryView, usize)>
    decreases rs.len(),
{
    if rs.len() == 0 {
        seq![]
    } else {
        let t = by_dist(rs.drop_last());
        let p = first_after_dist(t, rs.last());
        t.take(p) + seq![rs.last()] + t.skip(p)
    }
}

/// The pairs stored for entries: key and frequency.
pub open spec fn pairs_of(es: Seq<DictEntryView>) -> Seq<(Seq<u8>, u64)> {
    es.map_values(|e: DictEntryView| (entry_key(e), e.freq as u64))
}

/// The distinct codes of entries.
pub open spec fn codes_of(es: Seq<DictEntryView>) -> Set<Seq<char>> {
    es.map_values(|e: DictEntryView| e.code).to_set()
}

/// The entries of an exact lookup of `code` among the pairs from the first
/// key not below `code` and the separator: taken while their text starts
/// with them, the word being the rest.
pub open spec fn exact_run(ps: Seq<(Seq<u8>, u64)>, code: Seq<char>, source: DictSource) -> Seq<
    DictEntryView,
>
    decreases ps.len(),
{
    let p = code + seq![key_sep()];
    if ps.len() == 0 {
        seq![]
    } else {
        let t = key_text(ps[0].0);
        if starts_with(t, p) {
            seq![DictEntryView { code, word: t.skip(p.len() as int), freq: ps[0].1 as u32, source }]
                + exact_run(ps.drop_first(), code, source)
        } else {
            seq![]
        }
    }
}

/// The entries of a prefix lookup of `prefix` among the pairs from the
/// first key not below `prefix`: those whose code starts with the prefix,
/// until the first code that sorts after the prefix without starting with
/// it; keys without separator are passed over.
pub open spec fn prefix_run(ps: Seq<(Seq<u8>, u64)>, prefix: Seq<char>, source: DictSource) -> Seq<
    DictEntryView,
>
    decreases ps.len(),
{
    if ps.len() == 0 {
        seq![]
    } else {
        let t = key_text(ps[0].0);
        match sep_index(t) {
            None => prefix_run(ps.drop_first(), prefix, source),
            Some(k) => if starts_with(t.take(k), prefix) {
                seq![
                    DictEntryView {
                        code: t.take(k),
                        word: t.skip(k + 1),
                        freq: ps[0].1 as u32,
                        source,
                    },
                ] + prefix_run(ps.drop_first(), prefix, source)
            } else if lex_lt(prefix, t.take(k)) {
                seq![]
            } else {
                prefix_run(ps.drop_first(), prefix, source)
            },
        }
    }
}

/// The entries within edit distance `max` of `code`, with their distance.
pub open spec fn near_entries(es: Seq<DictEntryView>, code: Seq<char>, max: usize) -> Seq<
    (DictEntryView, usize),
>
    decreases es.len(),
{
    if es.len() == 0 {
        seq![]
    } else {
        let prev = near_entries(es.drop_last(), code, max);
        let e = es.last();
        if lev(code, e.code) <= max {
            prev.push((e, lev(code, e.code) as usize))
        } else {
            prev
        }
    }
}

/// The number of times the code changes along the pairs, starting from
/// `last` (keys without separator are passed over).
pub open spec fn code_changes(ps: Seq<(Seq<u8>, u64)>, last: Seq<char>) -> int
    decreases ps.len(),
{
    if ps.len() == 0 {
        0
    } else {
        let t = key_text(ps[0].0);
        match sep_index(t) {
            None => code_changes(ps.drop_first(), last),
            Some(k) => if t.take(k) != last {
                1 + code_changes(ps.drop_first(), t.take(k))
            } else {
                code_changes(ps.drop_first(), last)
            },
        }
    }
}

/// Errors of the dictionary.
#[derive(Debug)]
pub enum FstDictError {
    /// Loading failed.
    LoadError(String),
    /// Building failed.
    BuildError(String),
}

impl FstDictError {
    /// The message the error shows.
    pub open spec fn spec_message(self) -> Seq<char> {
        match self {
            FstDictError::LoadError(m) => "词典加载失败: "@ + m@,
            FstDictError::BuildError(m) => "词典构建失败: "@ + m@,
        }
    }

    /// The message the error shows (what its `Display` writes).
    pub fn message(&self) -> (r: String)
        ensures
            r@ == self.spec_message(),
    {
        let (p, m) = match self {
            FstDictError::LoadError(m) => ("词典加载失败: ", m),
            FstDictError::BuildError(m) => ("词典构建失败: ", m),
        };
        let mut r = crate::text::str_to_string(p);
        crate::text::string_push_str(&mut r, m.as_str());
        r
    }
}

/// A dictionary on an `fst::Map`.
pub struct FstDict {
    map: fst::Map<Vec<u8>>,
    entry_count: usize,
    code_count: usize,
    source: DictSource,
}

/// The entries of an exact lookup of `code` in `d`: those whose key is the
/// code, the separator and a word, from the first key not below that
/// prefix, stably sorted by frequency, highest first.
pub open spec fn lookup_result(d: FstDictView, code: Seq<char>) -> Seq<DictEntryView> {
    by_freq(
        exact_run(
            d.pairs.filter(
                |e: (Seq<u8>, u64)| !bytes_lt(e.0, encode_utf8(code + seq![key_sep()])),
            ),
            code,
            d.source,
        ),
    )
}

/// The entries of a prefix lookup of `prefix` in `d`, stably sorted by
/// frequency, highest first.
pub open spec fn prefix_result(d: FstDictView, prefix: Seq<char>) -> Seq<DictEntryView> {
    by_freq(
        prefix_run(
            d.pairs.filter(|e: (Seq<u8>, u64)| !bytes_lt(e.0, encode_utf8(prefix))),
            prefix,
            d.source,
        ),
    )
}

/// The entries of `d` whose code is within `max` edits of `code`, with
/// their distance, by distance and then frequency.
pub open spec fn fuzzy_result(d: FstDictView, code: Seq<char>, max: usize) -> Seq<
    (DictEntryView, usize),
> {
    by_dist(near_entries(entries_of(d.pairs, d.source), code, max))
}

/// The value of a dictionary.
pub struct FstDictView {
    /// The key-value pairs of the map, in key order.
    pub pairs: Seq<(Seq<u8>, u64)>,
    /// The number of entries counted when it was made.
    pub entry_count: usize,
    /// The number of codes counted when it was made.
    pub code_count: usize,
    /// Where it comes from.
    pub source: DictSource,
}

impl View for FstDict {
    type V = FstDictView;

    closed spec fn view(&self) -> FstDictView {
        FstDictView {
            pairs: fst_entries(self.map),
            entry_count: self.entry_count,
            code_count: self.code_count,
            source: self.source,
        }
    }
}

impl FstDict {
    /// The map is one an fst builder wrote.
    #[verifier::type_invariant]
    closed spec fn map_built(&self) -> bool {
        is_built(self.map) && header_fits(fst_bytes(self.map))
    }

    /// A dictionary read from the bytes of a map: `ParseError` when the map
    /// reader refuses their header; otherwise the map of those bytes, its
    /// entries counted, and its codes by the changes of code along the
    /// keys. Bytes that an fst builder wrote for increasing pairs load as
    /// those pairs. Bytes whose header passes but that no builder wrote
    /// cannot be read safely (reading them may panic), so they are left out,
    /// as are bytes whose header words do not fit a `usize` (the reader
    /// panics on them; `header_words_fit` tells them apart).
    pub fn from_bytes(bytes: Vec<u8>) -> (r: ImeResult<Self>)
        requires
            fst_accepts(bytes@) ==> written_by_builder(bytes@),
            header_fits(bytes@),
        ensures
            r is Ok <==> fst_accepts(bytes@),
            match r {
                Ok(d) => fst_built(d@.pairs) == bytes@ && keys_increasing(d@.pairs)
                    && d@.entry_count == d@.pairs.len() && d@.code_count == code_changes(
                    d@.pairs,
                    seq![],
                ) && d@.source == DictSource::Base,
                Err(e) => e.kind_and_text().0 == 1 && e.kind_and_text().1.take(10) == "FST 加载失败: "@,
            },
            forall|ps: Seq<(Seq<u8>, u64)>|
                keys_increasing(ps) && #[trigger] fst_built(ps) == bytes@ ==> (r matches Ok(d)
                    && d@.pairs == ps),
    {
        match fst_map_new(bytes) {
            Ok(map) => {
                let ghost ps = choose|ps: Seq<(Seq<u8>, u64)>|
                    keys_increasing(ps) && #[trigger] fst_built(ps) == fst_bytes(map);
                assert(fst_entries(map) == ps);
                let entry_count = fst_map_len(&map);
                let code_count = Self::count_codes(&map);
                Ok(FstDict { map, entry_count, code_count, source: DictSource::Base })
            },
            Err(e) => {
                let mut m = crate::text::str_to_string("FST 加载失败: ");
                let t = fst_error_text(&e);
                let ghost m0 = m@;
                crate::text::string_push_str(&mut m, t.as_str());
                proof {
                    reveal_strlit("FST 加载失败: ");
                    assert(m0.len() == 10);
                    assert(m@.take(10) =~= m0);
                }
                Err(ImeError::ParseError(m))
            },
        }
    }

    /// A dictionary of the entries, sorted by code, then word. The keys of
    /// the sorted entries must strictly increase (no code and word twice);
    /// the map could not be built otherwise.
    pub fn from_entries(entries: Vec<DictEntry>, source: DictSource) -> (r: Self)
        requires
            keys_increasing(pairs_of(by_code_word(dict_views(entries@)))),
        ensures
            r@.pairs == pairs_of(by_code_word(dict_views(entries@))),
            r@.entry_count == entries@.len(),
            r@.code_count == codes_of(dict_views(entries@)).len(),
            r@.source == source,
    {
        Self::try_from_entries(entries, source).unwrap()
    }

    /// `from_entries` where the map can be built, and `None` where it cannot:
    /// where two entries have the same key (code, separator and word).
    pub fn try_from_entries(entries: Vec<DictEntry>, source: DictSource) -> (r: Option<Self>)
        ensures
            r is Some <==> keys_increasing(pairs_of(by_code_word(dict_views(entries@)))),
            r matches Some(d) ==> {
                &&& d@.pairs == pairs_of(by_code_word(dict_views(entries@)))
                &&& d@.entry_count == entries@.len()
                &&& d@.code_count == codes_of(dict_views(entries@)).len()
                &&& d@.source == source
            },
    {
        let ghost ev = dict_views(entries@);
        let sorted = sort_code_word(&entries);
        let ghost sv = dict_views(sorted@);
        let mut pairs: Vec<(Vec<u8>, u64)> = Vec::new();
        let mut codes: Vec<Vec<char>> = Vec::new();
        let mut i: usize = 0;
        assert(sv.take(0) =~= Seq::<DictEntryView>::empty());
        assert(codes_of(sv.take(0)) =~= Set::<Seq<char>>::empty());
        while i < sorted.len()
            invariant
                i <= sorted@.len(),
                sv == dict_views(sorted@),
                pair_views(pairs@) == pairs_of(sv.take(i as int)),
                crate::text::views(codes@).no_duplicates(),
                crate::text::views(codes@).to_set() == codes_of(sv.take(i as int)),
            decreases sorted@.len() - i,
        {
            let e = &sorted[i];
            let key = entry_key_bytes(e);
            let ghost p0 = pair_views(pairs@);
            pairs.push((key, e.freq as u64));
            assert(pair_views(pairs@) =~= p0.push((entry_key(sv[i as int]), sv[i as int].freq as u64)));
            assert(sv.take(i + 1) == sv.take(i as int).push(sv[i as int]));
            assert(pairs_of(sv.take(i + 1)) =~= pairs_of(sv.take(i as int)).push(
                (entry_key(sv[i as int]), sv[i as int].freq as u64),
            ));
            let code = str_chars(e.code.as_str());
            let ghost cv0 = crate::text::views(codes@);
            assert(sv.take(i + 1).map_values(|x: DictEntryView| x.code) =~= sv.take(i as int).map_values(
                |x: DictEntryView| x.code,
            ).push(sv[i as int].code));
            proof {
                crate::ngram_table::lemma_push_to_set(sv.take(i as int).map_values(|x: DictEntryView| x.code), sv[i as int].code);
            }
            if !contains_chars(&codes, &code) {
                codes.push(code);
                proof {
                    crate::ngram_table::lemma_push_to_set(cv0, sv[i as int].code);
                    assert(crate::text::views(codes@) =~= cv0.push(sv[i as int].code));
                    assert forall|a: int, b: int|
                        0 <= a < cv0.len() + 1 && 0 <= b < cv0.len() + 1 && a != b implies crate::text::views(codes@)[a]
                        != crate::text::views(codes@)[b] by {
                        if a == cv0.len() {
                            assert(cv0.contains(cv0[b]));
                        } else if b == cv0.len() {
                            assert(cv0.contains(cv0[a]));
                        }
                    }
                }
            } else {
                assert(cv0.to_set().insert(sv[i as int].code) =~= cv0.to_set());
            }
            i = i + 1;
        }
        assert(sv.take(sv.len() as int) == sv);
        proof {
            crate::text::views(codes@).unique_seq_to_set();
            lemma_by_code_word_perm(ev);
            lemma_codes_of_perm(ev, sv);
        }
        let n = pairs.len();
        match fst_map_from_pairs(pairs) {
            Ok(map) => Some(FstDict { map, entry_count: n, code_count: codes.len(), source }),
            Err(_) => None,
        }
    }

    /// The bytes of the map (what a `.fst` file holds): those an fst
    /// builder writes for the dictionary's pairs, which strictly increase.
    pub fn to_bytes(&self) -> (r: Vec<u8>)
        ensures
            r@ == fst_built(self@.pairs),
            keys_increasing(self@.pairs),
            header_fits(r@),
    {
        proof {
            use_type_invariant(self);
        }
        fst_map_bytes(&self.map)
    }

    /// The dictionary read back from its saved bytes: `from_bytes` on what
    /// `to_bytes` gives accepts them and holds the same entries.
    pub fn reload(&self) -> (r: Self)
        ensures
            r@.pairs == self@.pairs,
            r@.entry_count == self@.pairs.len(),
            r@.source == DictSource::Base,
    {
        let bytes = self.to_bytes();
        proof {
            assert(written_by_builder(bytes@)) by {
                assert(keys_increasing(self@.pairs) && fst_built(self@.pairs) == bytes@);
            }
        }
        let r = Self::from_bytes(bytes);
        assert(r matches Ok(d) && d@.pairs == self@.pairs);
        r.unwrap()
    }

    /// The entries of `code`: those whose key starts with the code and the
    /// separator, the word being the rest of the key, sorted by frequency,
    /// highest first.
    #[verifier::rlimit(50)]
    pub fn lookup(&self, code: &str) -> (r: Vec<DictEntry>)
        ensures
            dict_views(r@) == lookup_result(self@, code@),
    {
        let mut prefix = crate::text::str_to_string(code);
        crate::text::string_push(&mut prefix, '\u{1}');
        let pb = prefix.as_str().as_bytes_vec();
        let pc = str_chars(prefix.as_str());
        proof {
            use_type_invariant(self);
        }
        let from = fst_map_entries_from(&self.map, pb.as_slice());
        let ghost fv = pair_views(from@);
        let mut results: Vec<DictEntry> = Vec::new();
        let mut i: usize = 0;
        assert(fv.skip(0) == fv);
        assert(dict_views(results@) + exact_run(fv, code@, self.source) == exact_run(fv, code@, self.source));
        loop
            invariant
                i <= from@.len(),
                fv == pair_views(from@),
                pc@ == code@ + seq![key_sep()],
                dict_views(results@) + exact_run(fv.skip(i as int), code@, self.source) == exact_run(
                    fv,
                    code@,
                    self.source,
                ),
            ensures
                dict_views(results@) == exact_run(fv, code@, self.source),
            decreases from@.len() - i,
        {
            if i >= from.len() {
                assert(fv.skip(i as int) =~= Seq::<(Seq<u8>, u64)>::empty());
                assert(dict_views(results@) + Seq::<DictEntryView>::empty() == dict_views(results@));
                break;
            }
            let t = decode_key(&from[i].0);
            assert(fv.skip(i as int)[0] == fv[i as int]);
            assert(fv.skip(i as int).drop_first() == fv.skip(i + 1));
            if crate::text::chars_starts_with(t.as_slice(), pc.as_slice()) {
                let word = sub_chars(t.as_slice(), pc.len(), t.len());
                assert(word@ == t@.skip(pc@.len() as int));
                let e = DictEntry {
                    code: crate::text::str_to_string(code),
                    word: string_from_chars(word.as_slice()),
                    freq: from[i].1 as u32,
                    source: self.source,
                };
                let ghost r0 = dict_views(results@);
                results.push(e);
                assert(dict_views(results@) =~= r0.push(e@));
                assert(exact_run(fv.skip(i as int), code@, self.source) == seq![e@] + exact_run(
                    fv.skip(i + 1),
                    code@,
                    self.source,
                ));
                assert(r0.push(e@) + exact_run(fv.skip(i + 1), code@, self.source) == r0 + (seq![e@]
                    + exact_run(fv.skip(i + 1), code@, self.source)));
            } else {
                assert(exact_run(fv.skip(i as int), code@, self.source) =~= Seq::<DictEntryView>::empty());
                assert(dict_views(results@) + Seq::<DictEntryView>::empty() == dict_views(results@));
                break;
            }
            i = i + 1;
        }
        sort_by_freq(results)
    }

    /// The entries whose code starts with `prefix`, scanning the keys from
    /// the first not below the prefix until a code sorts after the prefix
    /// without starting with it; sorted by frequency, highest first.
    #[verifier::rlimit(50)]
    pub fn prefix_lookup(&self, prefix: &str) -> (r: Vec<DictEntry>)
        ensures
            dict_views(r@) == prefix_result(self@, prefix@),
    {
        let pb = prefix.as_bytes_vec();
        let pc = str_chars(prefix);
        proof {
            use_type_invariant(self);
        }
        let from = fst_map_entries_from(&self.map, pb.as_slice());
        let ghost fv = pair_views(from@);
        let mut results: Vec<DictEntry> = Vec::new();
        let mut i: usize = 0;
        assert(fv.skip(0) == fv);
        assert(dict_views(results@) + prefix_run(fv, prefix@, self.source) == prefix_run(fv, prefix@, self.source));
        loop
            invariant
                i <= from@.len(),
                fv == pair_views(from@),
                pc@ == prefix@,
                dict_views(results@) + prefix_run(fv.skip(i as int), prefix@, self.source)
                    == prefix_run(fv, prefix@, self.source),
            ensures
                dict_views(results@) == prefix_run(fv, prefix@, self.source),
            decreases from@.len() - i,
        {
            if i >= from.len() {
                assert(fv.skip(i as int) =~= Seq::<(Seq<u8>, u64)>::empty());
                assert(dict_views(results@) + Seq::<DictEntryView>::empty() == dict_views(results@));
                break;
            }
            assert(fv.skip(i as int)[0] == fv[i as int]);
            assert(fv.skip(i as int) == seq![fv[i as int]] + fv.skip(i + 1));
            assert(fv[i as int] == (from@[i as int].0@, from@[i as int].1));
            let ghost r0 = dict_views(results@);
            let ghost rest = fv.skip(i + 1);
            match prefix_step(&from[i].0, from[i].1, &pc, self.source, Ghost(rest)) {
                PrefixStep::Skip => {
                    assert(prefix_run(fv.skip(i as int), prefix@, self.source) == prefix_run(rest, prefix@, self.source));
                },
                PrefixStep::Take(e) => {
                    assert(prefix_run(fv.skip(i as int), prefix@, self.source) == seq![e@] + prefix_run(rest, prefix@, self.source));
                    results.push(e);
                    assert(dict_views(results@) =~= r0.push(e@));
                    assert(r0.push(e@) + prefix_run(fv.skip(i + 1), prefix@, self.source) == r0 + (seq![e@]
                        + prefix_run(fv.skip(i + 1), prefix@, self.source)));
                },
                PrefixStep::Stop => {
                    assert(prefix_run(fv.skip(i as int), prefix@, self.source) == Seq::<DictEntryView>::empty());
                    assert(dict_views(results@) + Seq::<DictEntryView>::empty() == dict_views(results@));
                    break;
                },
            }
            i = i + 1;
        }
        sort_by_freq(results)
    }

    /// The entries whose code is within edit distance `max_edit_distance`
    /// of `code`, with the distance, sorted by distance, then by frequency,
    /// highest first.
    pub fn fuzzy_lookup(&self, code: &str, max_edit_distance: usize) -> (r: Vec<(DictEntry, usize)>)
        ensures
            r@.map_values(|x: (DictEntry, usize)| (x.0@, x.1)) == fuzzy_result(
                self@,
                code@,
                max_edit_distance,
            ),
    {
        proof {
            use_type_invariant(self);
        }
        let all = fst_map_entries(&self.map);
        let ghost av = pair_views(all@);
        let cc = str_chars(code);
        let mut results: Vec<(DictEntry, usize)> = Vec::new();
        let mut i: usize = 0;
        assert(av.take(0) =~= Seq::<(Seq<u8>, u64)>::empty());
        while i < all.len()
            invariant
                i <= all@.len(),
                av == pair_views(all@),
                av == self@.pairs,
                cc@ == code@,
                results@.map_values(|x: (DictEntry, usize)| (x.0@, x.1)) == near_entries(
                    entries_of(av.take(i as int), self.source),
                    code@,
                    max_edit_distance,
                ),
            decreases all@.len() - i,
        {
            assert(av.take(i + 1).drop_last() == av.take(i as int));
            assert(av.take(i + 1).last() == av[i as int]);
            let t = decode_key(&all[i].0);
            match find_sep(t.as_slice()) {
                None => {},
                Some(k) => {
                    assert(k < t.len());
                    let mc = sub_chars(t.as_slice(), 0, k);
                    let word = sub_chars(t.as_slice(), k + 1, t.len());
                    assert(mc@ == t@.take(k as int));
                    assert(word@ == t@.skip(k + 1));
                    let dist = levenshtein(cc.as_slice(), mc.as_slice());
                    if dist <= max_edit_distance {
                        let e = DictEntry {
                            code: string_from_chars(mc.as_slice()),
                            word: string_from_chars(word.as_slice()),
                            freq: all[i].1 as u32,
                            source: self.source,
                        };
                        let ghost r0 = results@.map_values(|x: (DictEntry, usize)| (x.0@, x.1));
                        results.push((e, dist));
                        assert(results@.map_values(|x: (DictEntry, usize)| (x.0@, x.1)) =~= r0.push((e@, dist)));
                        assert(entry_of(av[i as int], self.source) == Some(e@));
                        assert(entries_of(av.take(i + 1), self.source) == entries_of(av.take(i as int), self.source).push(e@));
                        assert(entries_of(av.take(i + 1), self.source).drop_last() == entries_of(av.take(i as int), self.source));
                    } else {
                        assert(entry_of(av[i as int], self.source) == Some(e_view(mc@, word@, all@[i as int].1, self.source)));
                        assert(entries_of(av.take(i + 1), self.source) == entries_of(av.take(i as int), self.source).push(e_view(mc@, word@, all@[i as int].1, self.source)));
                        assert(entries_of(av.take(i + 1), self.source).drop_last() == entries_of(av.take(i as int), self.source));
                    }
                },
            }
            i = i + 1;
        }
        assert(av.take(av.len() as int) == av);
        sort_by_dist(results)
    }

    /// The most frequent words, at most ten, with their frequencies: the
    /// entries stably sorted by frequency, highest first, each word taken
    /// up to a key separator (the words of the dictionary's statistics).
    pub fn top_words(&self) -> (r: Vec<(String, u32)>)
        ensures
            word_freqs(r@) == top_word_views(entries_of(self@.pairs, self@.source)),
    {
        let all = sort_by_freq(self.entries());
        let ghost sv = dict_views(all@);
        let n: usize = if all.len() < 10 {
            all.len()
        } else {
            10
        };
        let mut r: Vec<(String, u32)> = Vec::new();
        let mut i: usize = 0;
        while i < n
            invariant
                n <= all@.len(),
                i <= n,
                sv == dict_views(all@),
                n == (if sv.len() < 10 {
                    sv.len()
                } else {
                    10
                }),
                word_freqs(r@) == sv.take(i as int).map_values(
                    |e: DictEntryView| (before_sep(e.word), e.freq),
                ),
            decreases n - i,
        {
            let w = str_chars(all[i].word.as_str());
            let cut = cut_at_sep(w.as_slice());
            let ghost before = r@;
            r.push((string_from_chars(cut.as_slice()), all[i].freq));
            proof {
                assert(sv[i as int] == all@[i as int]@);
                assert(sv.take(i + 1) == sv.take(i as int).push(sv[i as int]));
                assert(word_freqs(r@) =~= word_freqs(before).push(
                    (before_sep(sv[i as int].word), sv[i as int].freq),
                ));
            }
            i = i + 1;
        }
        assert(sv.take(n as int) == by_freq(entries_of(self@.pairs, self@.source)).take(n as int));
        r
    }

    /// The number of entries counted when the dictionary was made.
    pub fn entry_count(&self) -> (r: usize)
        ensures
            r == self@.entry_count,
    {
        self.entry_count
    }

    /// The number of codes counted when the dictionary was made.
    pub fn code_count(&self) -> (r: usize)
        ensures
            r == self@.code_count,
    {
        self.code_count
    }

    /// Where the dictionary comes from.
    pub fn source(&self) -> (r: DictSource)
        ensures
            r == self@.source,
    {
        self.source
    }

    /// Whether no entry was counted.
    pub fn is_empty(&self) -> (r: bool)
        ensures
            r == (self@.entry_count == 0),
    {
        self.entry_count == 0
    }

    /// All entries, in key order.
    #[verifier::spinoff_prover]
    #[verifier::rlimit(40)]
    pub fn entries(&self) -> (r: Vec<DictEntry>)
        ensures
            dict_views(r@) == entries_of(self@.pairs, self@.source),
    {
        proof {
            use_type_invariant(self);
        }
        let all = fst_map_entries(&self.map);
        let ghost av = pair_views(all@);
        let mut out: Vec<DictEntry> = Vec::new();
        let mut i: usize = 0;
        assert(av.take(0) =~= Seq::<(Seq<u8>, u64)>::empty());
        while i < all.len()
            invariant
                i <= all@.len(),
                av == pair_views(all@),
                dict_views(out@) == entries_of(av.take(i as int), self.source),
            decreases all@.len() - i,
        {
            assert(av.take(i + 1).drop_last() == av.take(i as int));
            assert(av.take(i + 1).last() == av[i as int]);
            let t = decode_key(&all[i].0);
            match find_sep(t.as_slice()) {
                None => {},
                Some(k) => {
                    assert(k < t.len());
                    let c = sub_chars(t.as_slice(), 0, k);
                    let w = sub_chars(t.as_slice(), k + 1, t.len());
                    assert(c@ == t@.take(k as int));
                    assert(w@ == t@.skip(k + 1));
                    let e = DictEntry {
                        code: string_from_chars(c.as_slice()),
                        word: string_from_chars(w.as_slice()),
                        freq: all[i].1 as u32,
                        source: self.source,
                    };
                    let ghost o0 = dict_views(out@);
                    out.push(e);
                    assert(dict_views(out@) =~= o0.push(e@));
                },
            }
            i = i + 1;
        }
        assert(av.take(av.len() as int) == av);
        out
    }

    /// The number of changes of code along the keys of a map.
    fn count_codes(map: &fst::Map<Vec<u8>>) -> (r: usize)
        requires
            is_built(*map),
        ensures
            r == code_changes(fst_entries(*map), seq![]),
    {
        let all = fst_map_entries(map);
        let ghost av = pair_views(all@);
        let mut count: usize = 0;
        let mut last: Vec<char> = Vec::new();
        let mut i: usize = 0;
        assert(av.skip(0) == av);
        while i < all.len()
            invariant
                i <= all@.len(),
                av == pair_views(all@),
                count + code_changes(av.skip(i as int), last@) == code_changes(av, seq![]),
                count <= i,
            decreases all@.len() - i,
        {
            assert(av.skip(i as int)[0] == av[i as int]);
            assert(av.skip(i as int).drop_first() == av.skip(i + 1));
            proof {
                lemma_code_changes_bound(av.skip(i + 1), last@);
            }
            let t = decode_key(&all[i].0);
            match find_sep(t.as_slice()) {
                None => {},
                Some(k) => {
                    let c = sub_chars(t.as_slice(), 0, k);
                    assert(c@ == t@.take(k as int));
                    if !chars_eq(c.as_slice(), last.as_slice()) {
                        proof {
                            lemma_code_changes_bound(av.skip(i + 1), c@);
                        }
                        count = count + 1;
                        last = c;
                    }
                },
            }
            i = i + 1;
        }
        assert(av.skip(av.len() as int) =~= Seq::<(Seq<u8>, u64)>::empty());
        count
    }

    /// Merges the entries of `other`: the entries of this dictionary, each
    /// code and word once, then those of `other` whose code and word are
    /// new, rebuilt into a dictionary of this one's source.
    pub fn merge(&mut self, other: &FstDict)
        requires
            keys_increasing(
                pairs_of(
                    by_code_word(
                        merged(entries_of(old(self)@.pairs, old(self)@.source), entries_of(other@.pairs, other@.source)),
                    ),
                ),
            ),
        ensures
            final(self)@.pairs == pairs_of(
                by_code_word(
                    merged(entries_of(old(self)@.pairs, old(self)@.source), entries_of(other@.pairs, other@.source)),
                ),
            ),
            final(self)@.entry_count == merged(
                entries_of(old(self)@.pairs, old(self)@.source),
                entries_of(other@.pairs, other@.source),
            ).len(),
            final(self)@.code_count == codes_of(
                merged(entries_of(old(self)@.pairs, old(self)@.source), entries_of(other@.pairs, other@.source)),
            ).len(),
            final(self)@.source == old(self)@.source,
    {
        let mine = self.entries();
        let theirs = other.entries();
        let all = merge_entries_unique(mine, theirs);
        let source = self.source;
        *self = FstDict::from_entries(all, source);
    }

    /// `merge` where the merged keys strictly increase, answering `true`;
    /// otherwise (two merged entries with the same key) `false`, and the
    /// dictionary stays as it was.
    pub fn try_merge(&mut self, other: &FstDict) -> (r: bool)
        ensures
            r <==> keys_increasing(
                pairs_of(
                    by_code_word(
                        merged(entries_of(old(self)@.pairs, old(self)@.source), entries_of(other@.pairs, other@.source)),
                    ),
                ),
            ),
            r ==> final(self)@.pairs == pairs_of(
                by_code_word(
                    merged(entries_of(old(self)@.pairs, old(self)@.source), entries_of(other@.pairs, other@.source)),
                ),
            ),
            r ==> final(self)@.entry_count == merged(
                entries_of(old(self)@.pairs, old(self)@.source),
                entries_of(other@.pairs, other@.source),
            ).len(),
            r ==> final(self)@.code_count == codes_of(
                merged(entries_of(old(self)@.pairs, old(self)@.source), entries_of(other@.pairs, other@.source)),
            ).len(),
            r ==> final(self)@.source == old(self)@.source,
            !r ==> final(self)@ == old(self)@,
    {
        let mine = self.entries();
        let theirs = other.entries();
        let all = merge_entries_unique(mine, theirs);
        let source = self.source;
        match FstDict::try_from_entries(all, source) {
            Some(d) => {
                *self = d;
                true
            },
            None => false,
        }
    }
}

/// The entry of a code, a word, a value and a source.
pub open spec fn e_view(code: Seq<char>, word: Seq<char>, v: u64, source: DictSource) -> DictEntryView {
    DictEntryView { code, word, freq: v as u32, source }
}

/// The entries of `a` then `b`, each code and word once: the first of each
/// stays.
pub open spec fn merged(a: Seq<DictEntryView>, b: Seq<DictEntryView>) -> Seq<DictEntryView> {
    crate::builder::first_of_each(a + b)
}

/// The entries of `a` then `b`, each code and word once.
fn merge_entries_unique(a: Vec<DictEntry>, b: Vec<DictEntry>) -> (r: Vec<DictEntry>)
    ensures
        dict_views(r@) == merged(dict_views(a@), dict_views(b@)),
{
    let mut all = a;
    let mut b = b;
    let ghost av = dict_views(all@);
    let ghost bv = dict_views(b@);
    all.append(&mut b);
    assert(dict_views(all@) =~= av + bv);
    crate::builder::first_of_each_vec(&all)
}

/// The number of code changes is at most the number of pairs.
proof fn lemma_code_changes_bound(ps: Seq<(Seq<u8>, u64)>, last: Seq<char>)
    ensures
        0 <= code_changes(ps, last) <= ps.len(),
    decreases ps.len(),
{
    if ps.len() > 0 {
        let t = key_text(ps[0].0);
        lemma_code_changes_bound(ps.drop_first(), last);
        match sep_index(t) {
            Some(k) => {
                lemma_code_changes_bound(ps.drop_first(), t.take(k));
            },
            None => {},
        }
    }
}

/// What one key does in a prefix lookup.
enum PrefixStep {
    /// Passed over.
    Skip,
    /// Its entry is taken.
    Take(DictEntry),
    /// The scan stops.
    Stop,
}

/// One key of a prefix lookup of the characters `pc`.
fn prefix_step(
    key: &Vec<u8>,
    freq: u64,
    pc: &Vec<char>,
    source: DictSource,
    Ghost(rest): Ghost<Seq<(Seq<u8>, u64)>>,
) -> (r: PrefixStep)
    ensures
        match r {
            PrefixStep::Skip => prefix_run(seq![(key@, freq)] + rest, pc@, source) == prefix_run(
                rest,
                pc@,
                source,
            ),
            PrefixStep::Take(e) => prefix_run(seq![(key@, freq)] + rest, pc@, source) == seq![e@]
                + prefix_run(rest, pc@, source),
            PrefixStep::Stop => prefix_run(seq![(key@, freq)] + rest, pc@, source) == Seq::<
                DictEntryView,
            >::empty(),
        },
{
    let t = decode_key(key);
    assert((seq![(key@, freq)] + rest).drop_first() =~= rest);
    assert((seq![(key@, freq)] + rest)[0] == (key@, freq));
    match find_sep(t.as_slice()) {
        None => PrefixStep::Skip,
        Some(k) => {
            assert(k < t.len());
            let code = sub_chars(t.as_slice(), 0, k);
            assert(code@ == t@.take(k as int));
            if crate::text::chars_starts_with(code.as_slice(), pc.as_slice()) {
                let word = sub_chars(t.as_slice(), k + 1, t.len());
                assert(word@ == t@.skip(k + 1));
                PrefixStep::Take(
                    DictEntry {
                        code: string_from_chars(code.as_slice()),
                        word: string_from_chars(word.as_slice()),
                        freq: freq as u32,
                        source,
                    },
                )
            } else if chars_lt(pc.as_slice(), code.as_slice()) {
                PrefixStep::Stop
            } else {
                PrefixStep::Skip
            }
        },
    }
}

/// The text of a key.
fn decode_key(key: &Vec<u8>) -> (r: Vec<char>)
    ensures
        r@ == key_text(key@),
{
    let s = utf8_lossy(key.as_slice());
    str_chars(s.as_str())
}

/// Index of the first separator in `t`.
fn find_sep(t: &[char]) -> (r: Option<usize>)
    ensures
        match r {
            Some(k) => sep_index(t@) == Some(k as int) && k < t@.len(),
            None => sep_index(t@) is None,
        },
{
    let mut i: usize = 0;
    while i < t.len()
        invariant
            i <= t@.len(),
            sep_index(t@.take(i as int)) is None,
        decreases t@.len() - i,
    {
        assert(t@.take(i + 1).drop_last() == t@.take(i as int));
        if t[i] == '\u{1}' {
            proof {
                lemma_sep_prefix(t@, i + 1);
            }
            return Some(i);
        }
        i = i + 1;
    }
    assert(t@.take(t@.len() as int) == t@);
    None
}

/// A first separator in a prefix is the first of the whole.
proof fn lemma_sep_prefix(t: Seq<char>, n: int)
    requires
        0 <= n <= t.len(),
        sep_index(t.take(n)) is Some,
    ensures
        sep_index(t) == sep_index(t.take(n)),
    decreases t.len() - n,
{
    if n < t.len() {
        assert(t.take(n + 1).drop_last() == t.take(n));
        lemma_sep_prefix(t, n + 1);
    } else {
        assert(t.take(n) == t);
    }
}

/// Whether `v` holds `c`.
fn contains_chars(v: &Vec<Vec<char>>, c: &Vec<char>) -> (r: bool)
    ensures
        r == crate::text::views(v@).contains(c@),
{
    let mut i: usize = 0;
    while i < v.len()
        invariant
            i <= v@.len(),
            forall|j: int| 0 <= j < i ==> (#[trigger] v@[j])@ != c@,
        decreases v@.len() - i,
    {
        if chars_eq(v[i].as_slice(), c.as_slice()) {
            assert(crate::text::views(v@)[i as int] == c@);
            return true;
        }
        i = i + 1;
    }
    proof {
        if crate::text::views(v@).contains(c@) {
            let j = choose|j: int| 0 <= j < v@.len() && crate::text::views(v@)[j] == c@;
            assert(v@[j]@ != c@);
        }
    }
    false
}

/// The key bytes of an entry.
fn entry_key_bytes(e: &DictEntry) -> (r: Vec<u8>)
    ensures
        r@ == entry_key(e@),
{
    let mut k = e.code.clone();
    crate::text::string_push(&mut k, '\u{1}');
    crate::text::string_push_str(&mut k, e.word.as_str());
    assert(k@ == e@.code + seq![key_sep()] + e@.word);
    let ks = k.as_str();
    assert(ks@ == k@);
    let r = ks.as_bytes_vec();
    assert(r@ == encode_utf8(ks@));
    r
}

/// Whether `a` sorts strictly before `b` by code, then word.
fn code_word_lt(a: &DictEntry, b: &DictEntry) -> (r: bool)
    ensures
        r == code_word_before(a@, b@),
{
    let ac = str_chars(a.code.as_str());
    let bc = str_chars(b.code.as_str());
    if chars_lt(ac.as_slice(), bc.as_slice()) {
        return true;
    }
    if !chars_eq(ac.as_slice(), bc.as_slice()) {
        return false;
    }
    let aw = str_chars(a.word.as_str());
    let bw = str_chars(b.word.as_str());
    chars_lt(aw.as_slice(), bw.as_slice())
}

/// The entries stably sorted by code, then word.
fn sort_code_word(es: &Vec<DictEntry>) -> (r: Vec<DictEntry>)
    ensures
        dict_views(r@) == by_code_word(dict_views(es@)),
{
    let ghost ev = dict_views(es@);
    let mut sorted: Vec<DictEntry> = Vec::new();
    let mut i: usize = 0;
    assert(ev.take(0) =~= Seq::<DictEntryView>::empty());
    while i < es.len()
        invariant
            i <= es@.len(),
            ev == dict_views(es@),
            dict_views(sorted@) == by_code_word(ev.take(i as int)),
        decreases es@.len() - i,
    {
        assert(ev.take(i + 1).drop_last() == ev.take(i as int));
        assert(ev.take(i + 1).last() == ev[i as int]);
        let ghost sv = dict_views(sorted@);
        let mut p: usize = 0;
        assert(sv.skip(0) == sv);
        while p < sorted.len() && !code_word_lt(&es[i], &sorted[p])
            invariant
                p <= sorted@.len(),
                i < es@.len(),
                sv == dict_views(sorted@),
                first_after_code_word(sv, ev[i as int]) == p + first_after_code_word(sv.skip(p as int), ev[i as int]),
                ev == dict_views(es@),
            decreases sorted@.len() - p,
        {
            assert(sv.skip(p as int)[0] == sv[p as int]);
            assert(sv.skip(p as int).drop_first() == sv.skip(p + 1));
            p = p + 1;
        }
        proof {
            if p < sv.len() {
                assert(sv.skip(p as int)[0] == sv[p as int]);
            }
        }
        sorted.insert(p, es[i].duplicate());
        assert(dict_views(sorted@) =~= sv.take(p as int) + seq![ev[i as int]] + sv.skip(p as int));
        i = i + 1;
    }
    assert(ev.take(ev.len() as int) == ev);
    sorted
}

/// The text up to the first key separator (all of it without one).
pub open spec fn before_sep(w: Seq<char>) -> Seq<char>
    decreases w.len(),
{
    if w.len() == 0 {
        w
    } else if w.last() == key_sep() && !w.drop_last().contains(key_sep()) {
        w.drop_last()
    } else if w.drop_last().contains(key_sep()) {
        before_sep(w.drop_last())
    } else {
        w
    }
}

/// The words and frequencies of a list.
pub open spec fn word_freqs(v: Seq<(String, u32)>) -> Seq<(Seq<char>, u32)> {
    v.map_values(|p: (String, u32)| (p.0@, p.1))
}

/// The ten most frequent words of the entries, as `top_words` gives them.
pub open spec fn top_word_views(es: Seq<DictEntryView>) -> Seq<(Seq<char>, u32)> {
    let sorted = by_freq(es);
    sorted.take(
        if sorted.len() < 10 {
            sorted.len() as int
        } else {
            10
        },
    ).map_values(|e: DictEntryView| (before_sep(e.word), e.freq))
}

/// `w` up to its first key separator.
fn cut_at_sep(w: &[char]) -> (r: Vec<char>)
    ensures
        r@ == before_sep(w@),
{
    let mut r: Vec<char> = Vec::new();
    let mut i: usize = 0;
    while i < w.len()
        invariant
            i <= w@.len(),
            r@ == w@.take(i as int),
            !w@.take(i as int).contains(key_sep()),
        decreases w@.len() - i,
    {
        if w[i] == '\u{0001}' {
            proof {
                lemma_before_sep_at(w@, i as int);
            }
            return r;
        }
        r.push(w[i]);
        proof {
            assert(w@.take(i + 1) == w@.take(i as int).push(w@[i as int]));
        }
        i = i + 1;
    }
    proof {
        assert(w@.take(w@.len() as int) == w@);
        lemma_before_sep_none(w@);
    }
    r
}

/// Without a separator the whole text is kept.
proof fn lemma_before_sep_none(w: Seq<char>)
    requires
        !w.contains(key_sep()),
    ensures
        before_sep(w) == w,
{
    if w.len() > 0 {
        assert(w.drop_last().len() < w.len());
        if w.drop_last().contains(key_sep()) {
            let k = choose|k: int| 0 <= k < w.drop_last().len() && w.drop_last()[k] == key_sep();
            assert(w[k] == key_sep());
        }
        assert(w.last() == w[w.len() - 1]);
    }
}

/// With its first separator at `i`, the text is cut there.
proof fn lemma_before_sep_at(w: Seq<char>, i: int)
    requires
        0 <= i < w.len(),
        w[i] == key_sep(),
        !w.take(i).contains(key_sep()),
    ensures
        before_sep(w) == w.take(i),
    decreases w.len(),
{
    if i == w.len() - 1 {
        assert(w.drop_last() == w.take(i));
    } else {
        assert(w.drop_last()[i] == key_sep());
        assert(w.drop_last().contains(key_sep()));
        assert(w.drop_last().take(i) == w.take(i));
        lemma_before_sep_at(w.drop_last(), i);
    }
}

/// The entries stably sorted by frequency, highest first.
fn sort_by_freq(es: Vec<DictEntry>) -> (r: Vec<DictEntry>)
    ensures
        dict_views(r@) == by_freq(dict_views(es@)),
{
    let ghost ev = dict_views(es@);
    let mut sorted: Vec<DictEntry> = Vec::new();
    let mut i: usize = 0;
    assert(ev.take(0) =~= Seq::<DictEntryView>::empty());
    while i < es.len()
        invariant
            i <= es@.len(),
            ev == dict_views(es@),
            dict_views(sorted@) == by_freq(ev.take(i as int)),
        decreases es@.len() - i,
    {
        assert(ev.take(i + 1).drop_last() == ev.take(i as int));
        assert(ev.take(i + 1).last() == ev[i as int]);
        let ghost sv = dict_views(sorted@);
        let f = es[i].freq;
        let mut p: usize = 0;
        assert(sv.skip(0) == sv);
        while p < sorted.len() && sorted[p].freq >= f
            invariant
                p <= sorted@.len(),
                sv == dict_views(sorted@),
                first_below_freq(sv, f) == p + first_below_freq(sv.skip(p as int), f),
            decreases sorted@.len() - p,
        {
            assert(sv.skip(p as int)[0] == sv[p as int]);
            assert(sv.skip(p as int).drop_first() == sv.skip(p + 1));
            p = p + 1;
        }
        proof {
            if p < sv.len() {
                assert(sv.skip(p as int)[0] == sv[p as int]);
            }
        }
        sorted.insert(p, es[i].duplicate());
        assert(dict_views(sorted@) =~= sv.take(p as int) + seq![ev[i as int]] + sv.skip(p as int));
        i = i + 1;
    }
    assert(ev.take(ev.len() as int) == ev);
    sorted
}

/// The results stably sorted by distance, then frequency, highest first.
#[verifier::spinoff_prover]
#[verifier::rlimit(40)]
fn sort_by_dist(rs: Vec<(DictEntry, usize)>) -> (r: Vec<(DictEntry, usize)>)
    ensures
        r@.map_values(|x: (DictEntry, usize)| (x.0@, x.1)) == by_dist(
            rs@.map_values(|x: (DictEntry, usize)| (x.0@, x.1)),
        ),
{
    let ghost rv = rs@.map_values(|x: (DictEntry, usize)| (x.0@, x.1));
    let mut sorted: Vec<(DictEntry, usize)> = Vec::new();
    let mut i: usize = 0;
    assert(rv.take(0) =~= Seq::<(DictEntryView, usize)>::empty());
    while i < rs.len()
        invariant
            i <= rs@.len(),
            rv == rs@.map_values(|x: (DictEntry, usize)| (x.0@, x.1)),
            sorted@.map_values(|x: (DictEntry, usize)| (x.0@, x.1)) == by_dist(rv.take(i as int)),
        decreases rs@.len() - i,
    {
        assert(rv.take(i + 1).drop_last() == rv.take(i as int));
        assert(rv.take(i + 1).last() == rv[i as int]);
        let ghost sv = sorted@.map_values(|x: (DictEntry, usize)| (x.0@, x.1));
        let d = rs[i].1;
        let f = rs[i].0.freq;
        let mut p: usize = 0;
        assert(sv.skip(0) == sv);
        while p < sorted.len() && !(d < sorted[p].1 || (d == sorted[p].1 && f > sorted[p].0.freq))
            invariant
                p <= sorted@.len(),
                i < rs@.len(),
                d == rv[i as int].1,
                f == rv[i as int].0.freq,
                sv == sorted@.map_values(|x: (DictEntry, usize)| (x.0@, x.1)),
                first_after_dist(sv, rv[i as int]) == p + first_after_dist(sv.skip(p as int), rv[i as int]),
            decreases sorted@.len() - p,
        {
            assert(sv.skip(p as int)[0] == sv[p as int]);
            assert(sv.skip(p as int).drop_first() == sv.skip(p + 1));
            p = p + 1;
        }
        proof {
            if p < sv.len() {
                assert(sv.skip(p as int)[0] == sv[p as int]);
            }
        }
        let x = (rs[i].0.duplicate(), d);
        sorted.insert(p, x);
        assert(sorted@.map_values(|x: (DictEntry, usize)| (x.0@, x.1)) =~= sv.take(p as int) + seq![rv[i as int]]
            + sv.skip(p as int));
        i = i + 1;
    }
    assert(rv.take(rv.len() as int) == rv);
    sorted
}

/// The stable sort by code and word keeps the entries.
proof fn lemma_by_code_word_perm(es: Seq<DictEntryView>)
    ensures
        by_code_word(es).to_multiset() == es.to_multiset(),
        by_code_word(es).len() == es.len(),
    decreases es.len(),
{
    if es.len() > 0 {
        let t = by_code_word(es.drop_last());
        let x = es.last();
        lemma_by_code_word_perm(es.drop_last());
        let p = first_after_code_word(t, x);
        lemma_first_after_code_word_bound(t, x);
        assert(t == t.take(p) + t.skip(p));
        vstd::seq_lib::lemma_multiset_commutative(t.take(p), t.skip(p));
        vstd::seq_lib::lemma_multiset_commutative(t.take(p), seq![x]);
        vstd::seq_lib::lemma_multiset_commutative(t.take(p) + seq![x], t.skip(p));
        vstd::seq_lib::lemma_multiset_commutative(es.drop_last(), seq![x]);
        assert(es == es.drop_last() + seq![x]);
    }
}

/// The insertion point lies within the list.
proof fn lemma_first_after_code_word_bound(t: Seq<DictEntryView>, e: DictEntryView)
    ensures
        0 <= first_after_code_word(t, e) <= t.len(),
    decreases t.len(),
{
    if t.len() > 0 {
        lemma_first_after_code_word_bound(t.drop_first(), e);
    }
}

/// Entries with the same multiset have the same codes.
proof fn lemma_codes_of_perm(a: Seq<DictEntryView>, b: Seq<DictEntryView>)
    requires
        a.to_multiset() == b.to_multiset(),
    ensures
        codes_of(a) == codes_of(b),
{
    lemma_codes_of_sub(a, b);
    lemma_codes_of_sub(b, a);
    assert(codes_of(a) =~= codes_of(b));
}

/// A code of `a` is a code of `b` when they hold the same entries.
proof fn lemma_codes_of_sub(a: Seq<DictEntryView>, b: Seq<DictEntryView>)
    requires
        a.to_multiset() == b.to_multiset(),
    ensures
        forall|c: Seq<char>| codes_of(a).contains(c) ==> codes_of(b).contains(c),
{
    let am = a.map_values(|e: DictEntryView| e.code);
    let bm = b.map_values(|e: DictEntryView| e.code);
    assert forall|c: Seq<char>| codes_of(a).contains(c) implies codes_of(b).contains(c) by {
        assert(am.contains(c));
        let k = choose|k: int| 0 <= k < am.len() && #[trigger] am[k] == c;
        a.to_multiset_ensures();
        b.to_multiset_ensures();
        assert(a.contains(a[k]));
        assert(a.to_multiset().count(a[k]) > 0);
        assert(b.to_multiset().count(a[k]) > 0);
        assert(b.contains(a[k]));
        let j = choose|j: int| 0 <= j < b.len() && #[trigger] b[j] == a[k];
        assert(bm[j] == c);
        assert(bm.contains(c));
    }
}

/// Collects dictionary entries into a dictionary.
pub struct FstDictBuilder {
    entries: Vec<DictEntry>,
}

impl FstDictBuilder {
    /// A builder with no entries.
    pub fn new() -> (r: Self)
        ensures
            r@.len() == 0,
    {
        let r = FstDictBuilder { entries: Vec::new() };
        assert(dict_views(r.entries@) =~= Seq::<DictEntryView>::empty());
        r
    }

    /// Adds an entry.
    pub fn add_entry(&mut self, entry: DictEntry)
        ensures
            final(self)@ == old(self)@.push(entry@),
    {
        let ghost e0 = dict_views(self.entries@);
        let ghost ev = entry@;
        self.entries.push(entry);
        assert(dict_views(self.entries@) =~= e0.push(ev));
    }

    /// Adds entries.
    pub fn add_entries(&mut self, entries: Vec<DictEntry>)
        ensures
            final(self)@ == old(self)@ + dict_views(entries@),
    {
        let mut entries = entries;
        let ghost e0 = dict_views(self.entries@);
        let ghost ev = dict_views(entries@);
        self.entries.append(&mut entries);
        assert(dict_views(self.entries@) =~= e0 + ev);
    }

    /// The dictionary of the entries, of the given source.
    pub fn build(self, source: DictSource) -> (r: FstDict)
        requires
            keys_increasing(pairs_of(by_code_word(self@))),
        ensures
            r@.pairs == pairs_of(by_code_word(self@)),
            r@.entry_count == self@.len(),
            r@.code_count == codes_of(self@).len(),
            r@.source == source,
    {
        FstDict::from_entries(self.entries, source)
    }

    /// The number of entries.
    pub fn entry_count(&self) -> (r: usize)
        ensures
            r == self@.len(),
    {
        self.entries.len()
    }

    /// Removes all entries.
    pub fn clear(&mut self)
        ensures
            final(self)@.len() == 0,
    {
        self.entries.clear();
        assert(dict_views(self.entries@) =~= Seq::<DictEntryView>::empty());
    }
}

impl View for FstDictBuilder {
    type V = Seq<DictEntryView>;

    closed spec fn view(&self) -> Seq<DictEntryView> {
        dict_views(self.entries@)
    }
}

impl Default for FstDictBuilder {
    fn default() -> (r: Self)
        ensures
            r@.len() == 0,
    {
        FstDictBuilder::new()
    }
}

/// The Levenshtein distance of two texts, counted in characters.
pub fn edit_distance(s1: &str, s2: &str) -> (r: usize)
    ensures
        r == lev(s1@, s2@),
{
    let a = str_chars(s1);
    let b = str_chars(s2);
    levenshtein(a.as_slice(), b.as_slice())
}

/// The dictionary of the entries of both dictionaries (repeats included),
/// of the first one's source.
pub fn merge_dicts(dict1: &FstDict, dict2: &FstDict) -> (r: FstDict)
    requires
        keys_increasing(
            pairs_of(
                by_code_word(
                    entries_of(dict1@.pairs, dict1@.source) + entries_of(dict2@.pairs, dict2@.source),
                ),
            ),
        ),
    ensures
        r@.pairs == pairs_of(
            by_code_word(entries_of(dict1@.pairs, dict1@.source) + entries_of(dict2@.pairs, dict2@.source)),
        ),
        r@.source == dict1@.source,
{
    let mut entries = dict1.entries();
    let mut more = dict2.entries();
    let ghost a = dict_views(entries@);
    let ghost b = dict_views(more@);
    entries.append(&mut more);
    assert(dict_views(entries@) =~= a + b);
    FstDict::from_entries(entries, dict1.source())
}

/// `merge_dicts` where the keys of all entries strictly increase once
/// sorted; `None` where two entries have the same key.
pub fn try_merge_dicts(dict1: &FstDict, dict2: &FstDict) -> (r: Option<FstDict>)
    ensures
        r is Some <==> keys_increasing(
            pairs_of(
                by_code_word(
                    entries_of(dict1@.pairs, dict1@.source) + entries_of(dict2@.pairs, dict2@.source),
                ),
            ),
        ),
        r matches Some(d) ==> d@.pairs == pairs_of(
            by_code_word(entries_of(dict1@.pairs, dict1@.source) + entries_of(dict2@.pairs, dict2@.source)),
        ) && d@.source == dict1@.source,
{
    let mut entries = dict1.entries();
    let mut more = dict2.entries();
    let ghost a = dict_views(entries@);
    let ghost b = dict_views(more@);
    entries.append(&mut more);
    assert(dict_views(entries@) =~= a + b);
    FstDict::try_from_entries(entries, dict1.source())
}

/// No entry's code holds the separator.
pub open spec fn codes_without_sep(es: Seq<DictEntryView>) -> bool {
    forall|i: int| 0 <= i < es.len() ==> !(#[trigger] es[i]).code.contains(key_sep())
}

/// The entries with the source `source`.
pub open spec fn with_source(es: Seq<DictEntryView>, source: DictSource) -> Seq<DictEntryView> {
    es.map_values(|e: DictEntryView| DictEntryView { source, ..e })
}

/// When the encoding of `y` begins the encoding of `x`, `y` begins `x`.
proof fn lemma_encode_prefix(y: Seq<char>, x: Seq<char>)
    requires
        encode_utf8(y).len() <= encode_utf8(x).len(),
        encode_utf8(x).take(encode_utf8(y).len() as int) == encode_utf8(y),
    ensures
        y.len() <= x.len(),
        x.take(y.len() as int) == y,
    decreases y.len(),
{
    if y.len() == 0 {
        assert(x.take(0) =~= y);
    } else {
        let by = encode_utf8(y);
        let bx = encode_utf8(x);
        vstd::utf8::encode_utf8_first_scalar(y);
        if x.len() == 0 {
            assert(bx.len() == 0);
            assert(false);
        }
        vstd::utf8::encode_utf8_first_scalar(x);
        assert forall|k: int| 0 <= k < by.len() implies by[k] == bx[k] by {
            assert(bx.take(by.len() as int)[k] == bx[k]);
        }
        assert(by[0] == bx[0]);
        let n = vstd::utf8::length_of_first_scalar(by);
        assert(n == vstd::utf8::length_of_first_scalar(bx));
        assert(n <= by.len());
        if n >= 2 {
            assert(by[1] == bx[1]);
        }
        if n >= 3 {
            assert(by[2] == bx[2]);
        }
        if n >= 4 {
            assert(by[3] == bx[3]);
        }
        assert(vstd::utf8::decode_first_scalar(by) == vstd::utf8::decode_first_scalar(bx));
        assert(y[0] as u32 == x[0] as u32);
        vstd::utf8::char_u32_cast(y[0], y[0] as u32);
        vstd::utf8::char_u32_cast(x[0], x[0] as u32);
        assert(y[0] == x[0]);
        let ys = y.drop_first();
        let xs = x.drop_first();
        assert(by == vstd::utf8::encode_scalar(y[0] as u32) + encode_utf8(ys));
        assert(bx == vstd::utf8::encode_scalar(x[0] as u32) + encode_utf8(xs));
        let m = vstd::utf8::encode_scalar(y[0] as u32).len();
        assert(encode_utf8(ys) =~= by.skip(m as int));
        assert(encode_utf8(xs) =~= bx.skip(m as int));
        assert(encode_utf8(xs).take(encode_utf8(ys).len() as int) =~= encode_utf8(ys));
        lemma_encode_prefix(ys, xs);
        assert(x.take(y.len() as int) =~= seq![x[0]] + xs.take(ys.len() as int));
        assert(y =~= seq![y[0]] + ys);
    }
}

/// A byte string that begins with `p` is not below it.
proof fn lemma_prefix_not_below(k: Seq<u8>, p: Seq<u8>)
    requires
        p.len() <= k.len(),
        k.take(p.len() as int) == p,
    ensures
        !bytes_lt(k, p),
    decreases p.len(),
{
    if p.len() > 0 {
        assert(k[0] == k.take(p.len() as int)[0]);
        assert(k.drop_first().take(p.drop_first().len() as int) =~= p.drop_first());
        lemma_prefix_not_below(k.drop_first(), p.drop_first());
    }
}

/// A byte string between `p` and `p` followed by more bytes begins with `p`.
proof fn lemma_between_has_prefix(k: Seq<u8>, p: Seq<u8>, w: Seq<u8>)
    requires
        !bytes_lt(k, p),
        bytes_lt(k, p + w),
    ensures
        p.len() <= k.len(),
        k.take(p.len() as int) == p,
    decreases p.len(),
{
    if p.len() == 0 {
        assert(k.take(0) =~= p);
    } else {
        assert(k.len() > 0);
        assert((p + w)[0] == p[0]);
        assert(k[0] == p[0]);
        assert((p + w).drop_first() =~= p.drop_first() + w);
        lemma_between_has_prefix(k.drop_first(), p.drop_first(), w);
        assert(k.take(p.len() as int) =~= seq![k[0]] + k.drop_first().take(p.drop_first().len() as int));
        assert(p =~= seq![p[0]] + p.drop_first());
    }
}

/// The text of an entry's key starts with a code and the separator exactly
/// when that is the entry's code (neither code holding the separator).
proof fn lemma_key_text_starts(e: DictEntryView, c: Seq<char>)
    requires
        !e.code.contains(key_sep()),
        !c.contains(key_sep()),
    ensures
        key_text(entry_key(e)) == e.code + seq![key_sep()] + e.word,
        starts_with(key_text(entry_key(e)), c + seq![key_sep()]) <==> e.code == c,
{
    let t = e.code + seq![key_sep()] + e.word;
    vstd::utf8::encode_utf8_valid_utf8(t);
    vstd::utf8::encode_utf8_decode_utf8(t);
    let p = c + seq![key_sep()];
    if e.code == c {
        assert(t.subrange(0, p.len() as int) =~= p);
    } else if starts_with(t, p) {
        if c.len() < e.code.len() {
            assert(t[c.len() as int] == p[c.len() as int]);
            assert(e.code[c.len() as int] == key_sep());
            assert(e.code.contains(key_sep()));
        } else if c.len() > e.code.len() {
            assert(t[e.code.len() as int] == p[e.code.len() as int]);
            assert(c[e.code.len() as int] == key_sep());
            assert(c.contains(key_sep()));
        } else {
            assert forall|i: int| 0 <= i < c.len() implies e.code[i] == c[i] by {
                assert(t[i] == p[i]);
            }
            assert(e.code =~= c);
        }
    }
}

/// An entry's key begins with the bytes of a code and the separator exactly
/// when that is its code.
proof fn lemma_key_prefix(e: DictEntryView, c: Seq<char>)
    requires
        !e.code.contains(key_sep()),
        !c.contains(key_sep()),
    ensures
        (encode_utf8(c + seq![key_sep()]).len() <= entry_key(e).len() && entry_key(e).take(
            encode_utf8(c + seq![key_sep()]).len() as int,
        ) == encode_utf8(c + seq![key_sep()])) <==> e.code == c,
        e.code == c ==> entry_key(e) == encode_utf8(c + seq![key_sep()]) + encode_utf8(e.word),
{
    let p = c + seq![key_sep()];
    let t = e.code + seq![key_sep()] + e.word;
    lemma_key_text_starts(e, c);
    crate::text::lemma_encode_append(e.code + seq![key_sep()], e.word);
    if e.code == c {
        assert(entry_key(e).take(encode_utf8(p).len() as int) =~= encode_utf8(p));
    }
    if encode_utf8(p).len() <= entry_key(e).len() && entry_key(e).take(encode_utf8(p).len() as int)
        == encode_utf8(p) {
        lemma_encode_prefix(p, t);
        assert(t.subrange(0, p.len() as int) == t.take(p.len() as int));
    }
}

/// The exact run of a code over the pairs of sorted entries from the first
/// key not below the code and the separator holds the entries of that code.
proof fn lemma_exact_run_sorted(es: Seq<DictEntryView>, c: Seq<char>, source: DictSource)
    requires
        keys_increasing(pairs_of(es)),
        codes_without_sep(es),
        !c.contains(key_sep()),
    ensures
        exact_run(
            pairs_of(es).filter(
                |e: (Seq<u8>, u64)| !bytes_lt(e.0, encode_utf8(c + seq![key_sep()])),
            ),
            c,
            source,
        ) == with_source(es, source).filter(|e: DictEntryView| e.code == c),
    decreases es.len(),
{
    let p = encode_utf8(c + seq![key_sep()]);
    let pred = |e: (Seq<u8>, u64)| !bytes_lt(e.0, p);
    let cpred = |e: DictEntryView| e.code == c;
    let ps = pairs_of(es);
    let ws = with_source(es, source);
    ps.lemma_filter_eq_filter_alt(pred);
    ws.lemma_filter_eq_filter_alt(cpred);
    if es.len() == 0 {
        assert(ps.filter(pred) =~= Seq::<(Seq<u8>, u64)>::empty());
        assert(ws.filter(cpred) =~= Seq::<DictEntryView>::empty());
    } else {
        let e = es[0];
        let rest = es.drop_first();
        assert(pairs_of(rest) =~= ps.drop_first());
        assert(with_source(rest, source) =~= ws.drop_first());
        assert(keys_increasing(pairs_of(rest))) by {
            assert forall|i: int, j: int| 0 <= i < j < pairs_of(rest).len() implies bytes_lt(
                #[trigger] pairs_of(rest)[i].0,
                #[trigger] pairs_of(rest)[j].0,
            ) by {
                assert(pairs_of(rest)[i] == ps[i + 1]);
                assert(pairs_of(rest)[j] == ps[j + 1]);
            }
        }
        assert(codes_without_sep(rest)) by {
            assert forall|i: int| 0 <= i < rest.len() implies !(#[trigger] rest[i]).code.contains(
                key_sep(),
            ) by {
                assert(rest[i] == es[i + 1]);
            }
        }
        assert(!e.code.contains(key_sep())) by {
            assert(es[0] == e);
        }
        lemma_exact_run_sorted(rest, c, source);
        lemma_key_prefix(e, c);
        lemma_key_text_starts(e, c);
        assert(ps[0] == (entry_key(e), e.freq as u64));
        assert(ws[0] == DictEntryView { source, ..e });
        if e.code == c {
            lemma_prefix_not_below(entry_key(e), p);
            assert(pred(ps[0]));
            assert(ps.filter(pred) =~= seq![ps[0]] + pairs_of(rest).filter(pred));
            assert(cpred(ws[0]));
            assert(ws.filter(cpred) =~= seq![ws[0]] + with_source(rest, source).filter(cpred));
            let fl = ps.filter(pred);
            assert(fl[0] == ps[0]);
            assert(fl.drop_first() =~= pairs_of(rest).filter(pred));
            let t = key_text(entry_key(e));
            assert(t.skip((c + seq![key_sep()]).len() as int) =~= e.word);
            assert((e.freq as u64) as u32 == e.freq);
        } else if !pred(ps[0]) {
            assert(ps.filter(pred) =~= pairs_of(rest).filter(pred));
            assert(!cpred(ws[0]));
            assert(ws.filter(cpred) =~= with_source(rest, source).filter(cpred));
        } else {
            // The key is not below the prefix and does not begin with it, so
            // every later key, being greater, has another code.
            assert(ps.filter(pred) =~= seq![ps[0]] + pairs_of(rest).filter(pred));
            let fl = ps.filter(pred);
            assert(fl[0] == ps[0]);
            assert(!cpred(ws[0]));
            assert(ws.filter(cpred) =~= with_source(rest, source).filter(cpred));
            assert forall|i: int| 0 <= i < rest.len() implies (#[trigger] rest[i]).code != c by {
                if rest[i].code == c {
                    assert(rest[i] == es[i + 1]);
                    assert(!rest[i].code.contains(key_sep()));
                    lemma_key_prefix(rest[i], c);
                    assert(bytes_lt(ps[0].0, ps[i + 1].0));
                    assert(ps[i + 1].0 == entry_key(rest[i]));
                    lemma_between_has_prefix(entry_key(e), p, encode_utf8(rest[i].word));
                }
            }
            lemma_none_of_code(rest, c, source);
        }
    }
}

/// Entries none of which has code `c` give none of that code.
proof fn lemma_none_of_code(es: Seq<DictEntryView>, c: Seq<char>, source: DictSource)
    requires
        forall|i: int| 0 <= i < es.len() ==> (#[trigger] es[i]).code != c,
    ensures
        with_source(es, source).filter(|e: DictEntryView| e.code == c) == Seq::<DictEntryView>::empty(),
    decreases es.len(),
{
    let cpred = |e: DictEntryView| e.code == c;
    if es.len() > 0 {
        let h = es.drop_last();
        assert forall|i: int| 0 <= i < h.len() implies (#[trigger] h[i]).code != c by {
            assert(h[i] == es[i]);
        }
        lemma_none_of_code(h, c, source);
        let ws = with_source(es, source);
        assert(with_source(h, source) =~= ws.drop_last());
        assert(es[es.len() - 1].code != c);
        assert(!cpred(ws.last()));
        assert(ws =~= ws.drop_last().push(ws.last()));
        ws.drop_last().lemma_filter_push(ws.last(), cpred);
    } else {
        assert(with_source(es, source).filter(cpred) =~= Seq::<DictEntryView>::empty());
    }
}

/// A dictionary gives back what was stored: looking up a code in a
/// dictionary made of entries (no code holding the separator) gives the
/// entries of that code, in the order of code and word, stably sorted by
/// frequency, highest first, with the dictionary's source.
pub proof fn law_lookup_gives_stored(d: FstDictView, es: Seq<DictEntryView>, c: Seq<char>)
    requires
        d.pairs == pairs_of(by_code_word(es)),
        keys_increasing(d.pairs),
        codes_without_sep(es),
        !c.contains(key_sep()),
    ensures
        lookup_result(d, c) == by_freq(
            with_source(by_code_word(es), d.source).filter(|e: DictEntryView| e.code == c),
        ),
{
    let s = by_code_word(es);
    lemma_sorted_without_sep(es);
    lemma_exact_run_sorted(s, c, d.source);
}

/// Text without the separator has none.
proof fn lemma_sep_none(t: Seq<char>)
    requires
        !t.contains(key_sep()),
    ensures
        sep_index(t) is None,
    decreases t.len(),
{
    if t.len() > 0 {
        assert(t.drop_last().contains(key_sep()) ==> t.contains(key_sep()));
        lemma_sep_none(t.drop_last());
        assert(t[t.len() - 1] == t.last());
    }
}

/// The text of an entry's key splits at its first separator into the
/// entry's code and word (its code holding no separator).
proof fn lemma_entry_key_parts(e: DictEntryView)
    requires
        !e.code.contains(key_sep()),
    ensures
        key_text(entry_key(e)) == e.code + seq![key_sep()] + e.word,
        sep_index(key_text(entry_key(e))) == Some(e.code.len() as int),
        key_text(entry_key(e)).take(e.code.len() as int) == e.code,
        key_text(entry_key(e)).skip(e.code.len() as int + 1) == e.word,
{
    let t = e.code + seq![key_sep()] + e.word;
    lemma_key_text_starts(e, e.code);
    let n = e.code.len() as int;
    lemma_sep_none(e.code);
    assert(t.take(n + 1).drop_last() =~= e.code);
    assert(t.take(n + 1).last() == key_sep());
    assert(sep_index(t.take(n + 1)) == Some(n));
    lemma_sep_prefix(t, n + 1);
    assert(t.take(n) =~= e.code);
    assert(t.skip(n + 1) =~= e.word);
}

/// The pair of an entry whose code holds no separator stands for that entry.
proof fn lemma_entry_of_pair(e: DictEntryView, source: DictSource)
    requires
        !e.code.contains(key_sep()),
    ensures
        entry_of((entry_key(e), e.freq as u64), source) == Some(DictEntryView { source, ..e }),
{
    lemma_entry_key_parts(e);
}

/// The entries the pairs of entries stand for are those entries (no code
/// holding the separator), with the given source.
pub proof fn law_entries_of_pairs(es: Seq<DictEntryView>, source: DictSource)
    requires
        codes_without_sep(es),
    ensures
        entries_of(pairs_of(es), source) == with_source(es, source),
    decreases es.len(),
{
    if es.len() > 0 {
        let h = es.drop_last();
        assert forall|i: int| 0 <= i < h.len() implies !(#[trigger] h[i]).code.contains(key_sep()) by {
            assert(h[i] == es[i]);
        }
        law_entries_of_pairs(h, source);
        assert(pairs_of(es).drop_last() =~= pairs_of(h));
        assert(!es[es.len() - 1].code.contains(key_sep()));
        lemma_entry_of_pair(es.last(), source);
        assert(with_source(es, source) =~= with_source(h, source).push(
            DictEntryView { source, ..es.last() },
        ));
    } else {
        assert(with_source(es, source) =~= Seq::<DictEntryView>::empty());
    }
}

/// A dictionary made of entries (no code holding the separator) holds
/// those entries, in the order of code and word, with its source.
pub proof fn law_dict_holds_stored(d: FstDictView, es: Seq<DictEntryView>)
    requires
        d.pairs == pairs_of(by_code_word(es)),
        codes_without_sep(es),
    ensures
        entries_of(d.pairs, d.source) == with_source(by_code_word(es), d.source),
{
    let s = by_code_word(es);
    lemma_by_code_word_perm(es);
    lemma_sorted_without_sep(es);
    law_entries_of_pairs(s, d.source);
}

/// Sorting by code and word keeps codes free of the separator.
proof fn lemma_sorted_without_sep(es: Seq<DictEntryView>)
    requires
        codes_without_sep(es),
    ensures
        codes_without_sep(by_code_word(es)),
{
    let s = by_code_word(es);
    lemma_by_code_word_perm(es);
    assert forall|i: int| 0 <= i < s.len() implies !(#[trigger] s[i]).code.contains(key_sep()) by {
        s.to_multiset_ensures();
        es.to_multiset_ensures();
        assert(s.contains(s[i]));
        assert(s.to_multiset().count(s[i]) > 0);
        assert(es.to_multiset().count(s[i]) > 0);
        assert(es.contains(s[i]));
        let j = choose|j: int| 0 <= j < es.len() && #[trigger] es[j] == s[i];
        assert(!es[j].code.contains(key_sep()));
    }
}

/// Whether the code that a pair's key holds does not start with `p` (keys
/// without separator hold none).
pub open spec fn code_off_prefix(pr: (Seq<u8>, u64), p: Seq<char>) -> bool {
    match sep_index(key_text(pr.0)) {
        Some(k) => !starts_with(key_text(pr.0).take(k), p),
        None => true,
    }
}

/// A prefix run over pairs none of whose codes start with the prefix is
/// empty.
proof fn lemma_prefix_run_off(ps: Seq<(Seq<u8>, u64)>, p: Seq<char>, source: DictSource)
    requires
        forall|i: int| 0 <= i < ps.len() ==> code_off_prefix(#[trigger] ps[i], p),
    ensures
        prefix_run(ps, p, source) == Seq::<DictEntryView>::empty(),
    decreases ps.len(),
{
    if ps.len() > 0 {
        let r = ps.drop_first();
        assert forall|i: int| 0 <= i < r.len() implies code_off_prefix(#[trigger] r[i], p) by {
            assert(r[i] == ps[i + 1]);
        }
        lemma_prefix_run_off(r, p, source);
        assert(code_off_prefix(ps[0], p));
    }
}

/// The key of an entry whose code starts with `p` begins with the bytes
/// of `p`.
proof fn lemma_key_has_prefix(e: DictEntryView, p: Seq<char>)
    requires
        starts_with(e.code, p),
    ensures
        entry_key(e) == encode_utf8(p) + encode_utf8(e.code.skip(p.len() as int) + seq![key_sep()] + e.word),
{
    let t = e.code + seq![key_sep()] + e.word;
    let rest = e.code.skip(p.len() as int) + seq![key_sep()] + e.word;
    assert(e.code.subrange(0, p.len() as int) == p);
    assert(t =~= p + rest);
    crate::text::lemma_encode_append(p, rest);
}

/// An entry whose key begins with the bytes of `p` has a code starting
/// with `p` (neither holding the separator).
proof fn lemma_prefix_of_key(e: DictEntryView, p: Seq<char>)
    requires
        !e.code.contains(key_sep()),
        !p.contains(key_sep()),
        encode_utf8(p).len() <= entry_key(e).len(),
        entry_key(e).take(encode_utf8(p).len() as int) == encode_utf8(p),
    ensures
        starts_with(e.code, p),
{
    let t = e.code + seq![key_sep()] + e.word;
    lemma_encode_prefix(p, t);
    if e.code.len() < p.len() {
        assert(t[e.code.len() as int] == key_sep());
        assert(t.take(p.len() as int)[e.code.len() as int] == p[e.code.len() as int]);
        assert(p.contains(key_sep()));
    }
    assert forall|i: int| 0 <= i < p.len() implies e.code[i] == p[i] by {
        assert(t.take(p.len() as int)[i] == p[i]);
        assert(t[i] == e.code[i]);
    }
    assert(e.code.subrange(0, p.len() as int) =~= p);
}

/// The prefix run of `p` over the pairs of sorted entries from the first
/// key not below the bytes of `p` holds the entries whose code starts
/// with `p`.
proof fn lemma_prefix_run_sorted(es: Seq<DictEntryView>, p: Seq<char>, source: DictSource)
    requires
        keys_increasing(pairs_of(es)),
        codes_without_sep(es),
        !p.contains(key_sep()),
    ensures
        prefix_run(
            pairs_of(es).filter(|e: (Seq<u8>, u64)| !bytes_lt(e.0, encode_utf8(p))),
            p,
            source,
        ) == with_source(es, source).filter(|e: DictEntryView| starts_with(e.code, p)),
    decreases es.len(),
{
    let bp = encode_utf8(p);
    let pred = |e: (Seq<u8>, u64)| !bytes_lt(e.0, bp);
    let cpred = |e: DictEntryView| starts_with(e.code, p);
    let ps = pairs_of(es);
    let ws = with_source(es, source);
    ps.lemma_filter_eq_filter_alt(pred);
    ws.lemma_filter_eq_filter_alt(cpred);
    if es.len() == 0 {
        assert(ps.filter(pred) =~= Seq::<(Seq<u8>, u64)>::empty());
        assert(ws.filter(cpred) =~= Seq::<DictEntryView>::empty());
    } else {
        let e = es[0];
        let rest = es.drop_first();
        assert(pairs_of(rest) =~= ps.drop_first());
        assert(with_source(rest, source) =~= ws.drop_first());
        assert(keys_increasing(pairs_of(rest))) by {
            assert forall|i: int, j: int| 0 <= i < j < pairs_of(rest).len() implies bytes_lt(
                #[trigger] pairs_of(rest)[i].0,
                #[trigger] pairs_of(rest)[j].0,
            ) by {
                assert(pairs_of(rest)[i] == ps[i + 1]);
                assert(pairs_of(rest)[j] == ps[j + 1]);
            }
        }
        assert(codes_without_sep(rest)) by {
            assert forall|i: int| 0 <= i < rest.len() implies !(#[trigger] rest[i]).code.contains(
                key_sep(),
            ) by {
                assert(rest[i] == es[i + 1]);
            }
        }
        assert(!e.code.contains(key_sep())) by {
            assert(es[0] == e);
        }
        lemma_prefix_run_sorted(rest, p, source);
        lemma_entry_key_parts(e);
        assert(ps[0] == (entry_key(e), e.freq as u64));
        assert(ws[0] == DictEntryView { source, ..e });
        let fl = ps.filter(pred);
        if starts_with(e.code, p) {
            lemma_key_has_prefix(e, p);
            lemma_prefix_not_below(entry_key(e), bp);
            assert(pred(ps[0]));
            assert(fl =~= seq![ps[0]] + pairs_of(rest).filter(pred));
            assert(cpred(ws[0]));
            assert(ws.filter(cpred) =~= seq![ws[0]] + with_source(rest, source).filter(cpred));
            assert(fl[0] == ps[0]);
            assert(fl.drop_first() =~= pairs_of(rest).filter(pred));
            assert((e.freq as u64) as u32 == e.freq);
        } else if !pred(ps[0]) {
            assert(fl =~= pairs_of(rest).filter(pred));
            assert(!cpred(ws[0]));
            assert(ws.filter(cpred) =~= with_source(rest, source).filter(cpred));
        } else {
            // The key is not below the prefix's bytes, yet its code does not
            // start with the prefix: no later code does.
            assert(fl =~= seq![ps[0]] + pairs_of(rest).filter(pred));
            assert(fl[0] == ps[0]);
            assert(fl.drop_first() =~= pairs_of(rest).filter(pred));
            assert(!cpred(ws[0]));
            assert(ws.filter(cpred) =~= with_source(rest, source).filter(cpred));
            assert forall|i: int| 0 <= i < rest.len() implies !starts_with(
                (#[trigger] rest[i]).code,
                p,
            ) by {
                assert(rest[i] == es[i + 1]);
                if starts_with(rest[i].code, p) {
                    lemma_key_has_prefix(rest[i], p);
                    assert(bytes_lt(ps[0].0, ps[i + 1].0));
                    assert(ps[i + 1].0 == entry_key(rest[i]));
                    lemma_between_has_prefix(
                        entry_key(e),
                        bp,
                        encode_utf8(rest[i].code.skip(p.len() as int) + seq![key_sep()] + rest[i].word),
                    );
                    lemma_prefix_of_key(e, p);
                }
            }
            let fr = pairs_of(rest).filter(pred);
            assert forall|i: int| 0 <= i < fr.len() implies code_off_prefix(#[trigger] fr[i], p) by {
                pairs_of(rest).lemma_filter_contains_rev(pred, fr[i]);
                assert(fr.contains(fr[i]));
                let j = choose|j: int| 0 <= j < pairs_of(rest).len() && pairs_of(rest)[j] == fr[i];
                assert(pairs_of(rest)[j] == (entry_key(rest[j]), rest[j].freq as u64));
                assert(!rest[j].code.contains(key_sep()));
                lemma_entry_key_parts(rest[j]);
            }
            lemma_prefix_run_off(fr, p, source);
            lemma_none_with_prefix(rest, p, source);
        }
    }
}

/// Entries none of whose codes starts with `p` give none that does.
proof fn lemma_none_with_prefix(es: Seq<DictEntryView>, p: Seq<char>, source: DictSource)
    requires
        forall|i: int| 0 <= i < es.len() ==> !starts_with((#[trigger] es[i]).code, p),
    ensures
        with_source(es, source).filter(|e: DictEntryView| starts_with(e.code, p))
            == Seq::<DictEntryView>::empty(),
    decreases es.len(),
{
    let cpred = |e: DictEntryView| starts_with(e.code, p);
    if es.len() > 0 {
        let h = es.drop_last();
        assert forall|i: int| 0 <= i < h.len() implies !starts_with((#[trigger] h[i]).code, p) by {
            assert(h[i] == es[i]);
        }
        lemma_none_with_prefix(h, p, source);
        let ws = with_source(es, source);
        assert(with_source(h, source) =~= ws.drop_last());
        assert(!starts_with(es[es.len() - 1].code, p));
        assert(!cpred(ws.last()));
        assert(ws =~= ws.drop_last().push(ws.last()));
        ws.drop_last().lemma_filter_push(ws.last(), cpred);
    } else {
        assert(with_source(es, source).filter(cpred) =~= Seq::<DictEntryView>::empty());
    }
}

/// A prefix lookup in a dictionary made of entries (no code, and not the
/// prefix, holding the separator) gives the entries whose code starts with
/// the prefix, in the order of code and word, stably sorted by frequency,
/// highest first, with the dictionary's source.
pub proof fn law_prefix_lookup_gives_stored(d: FstDictView, es: Seq<DictEntryView>, p: Seq<char>)
    requires
        d.pairs == pairs_of(by_code_word(es)),
        keys_increasing(d.pairs),
        codes_without_sep(es),
        !p.contains(key_sep()),
    ensures
        prefix_result(d, p) == by_freq(
            with_source(by_code_word(es), d.source).filter(|e: DictEntryView| starts_with(e.code, p)),
        ),
{
    lemma_sorted_without_sep(es);
    lemma_prefix_run_sorted(by_code_word(es), p, d.source);
}

/// Where the first result sorting strictly after `x` stands: no result
/// before it sorts after `x`, and the one there does.
proof fn lemma_first_after_dist(t: Seq<(DictEntryView, usize)>, x: (DictEntryView, usize))
    ensures
        0 <= first_after_dist(t, x) <= t.len(),
        forall|i: int| 0 <= i < first_after_dist(t, x) ==> !dist_before(x, #[trigger] t[i]),
        first_after_dist(t, x) < t.len() ==> dist_before(x, t[first_after_dist(t, x)]),
    decreases t.len(),
{
    if t.len() > 0 && !dist_before(x, t[0]) {
        lemma_first_after_dist(t.drop_first(), x);
        assert forall|i: int| 0 <= i < first_after_dist(t, x) implies !dist_before(x, #[trigger] t[i]) by {
            if i > 0 {
                assert(t[i] == t.drop_first()[i - 1]);
            }
        }
    }
}

/// Results ordered by edit distance, smallest first, and at equal distance
/// by frequency, highest first; the ordering keeps every result.
pub proof fn law_by_dist_nearest_first(rs: Seq<(DictEntryView, usize)>)
    ensures
        by_dist(rs).len() == rs.len(),
        by_dist(rs).to_multiset() == rs.to_multiset(),
        forall|i: int, j: int|
            0 <= i < j < by_dist(rs).len() ==> (#[trigger] by_dist(rs)[i]).1 <= (#[trigger] by_dist(
                rs,
            )[j]).1,
        forall|i: int, j: int|
            0 <= i < j < by_dist(rs).len() && (#[trigger] by_dist(rs)[i]).1 == (#[trigger] by_dist(
                rs,
            )[j]).1 ==> by_dist(rs)[i].0.freq >= by_dist(rs)[j].0.freq,
    decreases rs.len(),
{
    if rs.len() > 0 {
        let t = by_dist(rs.drop_last());
        let x = rs.last();
        law_by_dist_nearest_first(rs.drop_last());
        lemma_first_after_dist(t, x);
        let p = first_after_dist(t, x);
        let r = t.take(p) + seq![x] + t.skip(p);
        assert(r == by_dist(rs));
        assert forall|i: int, j: int| 0 <= i < j < r.len() implies (#[trigger] r[i]).1 <= (
        #[trigger] r[j]).1 && (r[i].1 == r[j].1 ==> r[i].0.freq >= r[j].0.freq) by {
            if j < p {
                assert(r[i] == t[i] && r[j] == t[j]);
            } else if j == p {
                assert(r[i] == t[i]);
                assert(!dist_before(x, t[i]));
            } else if i < p {
                assert(r[i] == t[i] && r[j] == t[j - 1]);
            } else if i == p {
                assert(r[j] == t[j - 1]);
                assert(dist_before(x, t[p]));
                if p < j - 1 {
                    assert(t[p].1 <= t[j - 1].1);
                    assert(t[p].1 == t[j - 1].1 ==> t[p].0.freq >= t[j - 1].0.freq);
                }
            } else {
                assert(r[i] == t[i - 1] && r[j] == t[j - 1]);
            }
        }
        assert(t == t.take(p) + t.skip(p));
        vstd::seq_lib::lemma_multiset_commutative(t.take(p), t.skip(p));
        vstd::seq_lib::lemma_multiset_commutative(t.take(p), seq![x]);
        vstd::seq_lib::lemma_multiset_commutative(t.take(p) + seq![x], t.skip(p));
        vstd::seq_lib::lemma_multiset_commutative(rs.drop_last(), seq![x]);
        assert(rs == rs.drop_last() + seq![x]);
    }
}

/// The results of a lookup within an edit distance come nearest code
/// first: distances never decrease along them, and at equal distance the
/// frequency never increases.
pub proof fn law_fuzzy_lookup_nearest_first(d: FstDictView, code: Seq<char>, max: usize)
    ensures
        forall|i: int, j: int|
            0 <= i < j < fuzzy_result(d, code, max).len() ==> (#[trigger] fuzzy_result(d, code, max)[i]).1
                <= (#[trigger] fuzzy_result(d, code, max)[j]).1,
        forall|i: int, j: int|
            0 <= i < j < fuzzy_result(d, code, max).len() && (#[trigger] fuzzy_result(d, code, max)[i]).1
                == (#[trigger] fuzzy_result(d, code, max)[j]).1 ==> fuzzy_result(d, code, max)[i].0.freq
                >= fuzzy_result(d, code, max)[j].0.freq,
{
    law_by_dist_nearest_first(near_entries(entries_of(d.pairs, d.source), code, max));
}

} // verus!

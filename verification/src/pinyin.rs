//! Pinyin syllables and the tables of initials and finals.
use vstd::prelude::*;

use crate::text::{chars_eq_str, str_chars, str_to_string, string_push_str};

verus! {

broadcast use vstd::seq_lib::group_seq_properties;

/// Errors of pinyin handling.
#[derive(Debug)]
pub enum PinyinError {
    /// Not valid pinyin.
    InvalidPinyin(String),
    /// Pinyin could not be parsed.
    ParseError(String),
    /// A tone could not be converted.
    ToneError(String),
}

impl PinyinError {
    /// The message the error shows.
    pub open spec fn spec_message(self) -> Seq<char> {
        match self {
            PinyinError::InvalidPinyin(m) => "无效拼音: "@ + m@,
            PinyinError::ParseError(m) => "拼音解析失败: "@ + m@,
            PinyinError::ToneError(m) => "声调转换失败: "@ + m@,
        }
    }

    /// The message the error shows (what its `Display` writes).
    pub fn message(&self) -> (r: String)
        ensures
            r@ == self.spec_message(),
    {
        let (p, m) = match self {
            PinyinError::InvalidPinyin(m) => ("无效拼音: ", m),
            PinyinError::ParseError(m) => ("拼音解析失败: ", m),
            PinyinError::ToneError(m) => ("声调转换失败: ", m),
        };
        let mut r = str_to_string(p);
        string_push_str(&mut r, m.as_str());
        r
    }
}

/// A pinyin syllable.
pub struct PinyinSyllable {
    /// The initial, if any.
    pub initial: Option<String>,
    /// The final.
    pub final_: String,
    /// The tone: 1 to 4, or 0 for the neutral tone.
    pub tone: u8,
    /// The whole syllable without tone.
    pub full: String,
}

/// The whole syllable made of an initial and a final.
pub open spec fn full_syllable(initial: Option<String>, final_: Seq<char>) -> Seq<char> {
    match initial {
        Some(i) => i@ + final_,
        None => final_,
    }
}

impl PinyinSyllable {
    /// A syllable of an initial, a final and a tone.
    pub fn new(initial: Option<String>, final_: String, tone: u8) -> (r: Self)
        ensures
            r.initial == initial,
            r.final_ == final_,
            r.tone == tone,
            r.full@ == full_syllable(initial, final_@),
    {
        let full = match &initial {
            Some(i) => {
                let mut f = i.clone();
                string_push_str(&mut f, final_.as_str());
                f
            },
            None => final_.clone(),
        };
        PinyinSyllable { initial, final_, tone, full }
    }

    /// The syllable without tone.
    pub fn without_tone(&self) -> (r: &str)
        ensures
            r@ == self.full@,
    {
        self.full.as_str()
    }

    /// The text shown for the syllable (what its `Display` writes).
    pub fn text(&self) -> (r: String)
        ensures
            r@ == self.full@,
    {
        self.full.clone()
    }
}

/// A pinyin text of several syllables.
pub struct PinyinString {
    /// The syllables.
    pub syllables: Vec<PinyinSyllable>,
    /// The input it was made from.
    pub raw_input: String,
}

/// The syllables joined without separator.
pub open spec fn joined_syllables(ss: Seq<PinyinSyllable>) -> Seq<char>
    decreases ss.len(),
{
    if ss.len() == 0 {
        seq![]
    } else {
        joined_syllables(ss.drop_last()) + ss.last().full@
    }
}

impl PinyinString {
    /// A pinyin text with no syllables yet.
    pub fn new(raw_input: String) -> (r: Self)
        ensures
            r.syllables@.len() == 0,
            r.raw_input == raw_input,
    {
        PinyinString { syllables: Vec::new(), raw_input }
    }

    /// The number of syllables.
    pub fn syllable_count(&self) -> (r: usize)
        ensures
            r == self.syllables@.len(),
    {
        self.syllables.len()
    }

    /// The first syllable, if any.
    pub fn first_syllable(&self) -> (r: Option<&PinyinSyllable>)
        ensures
            match r {
                Some(s) => self.syllables@.len() > 0 && *s == self.syllables@[0],
                None => self.syllables@.len() == 0,
            },
    {
        if self.syllables.len() > 0 {
            Some(&self.syllables[0])
        } else {
            None
        }
    }

    /// The last syllable, if any.
    pub fn last_syllable(&self) -> (r: Option<&PinyinSyllable>)
        ensures
            match r {
                Some(s) => self.syllables@.len() > 0 && *s == self.syllables@.last(),
                None => self.syllables@.len() == 0,
            },
    {
        let n = self.syllables.len();
        if n > 0 {
            Some(&self.syllables[n - 1])
        } else {
            None
        }
    }

    /// The syllables without tone, joined.
    pub fn to_plain_string(&self) -> (r: String)
        ensures
            r@ == joined_syllables(self.syllables@),
    {
        let mut r = String::new();
        let mut i: usize = 0;
        assert(self.syllables@.take(0) =~= Seq::<PinyinSyllable>::empty());
        while i < self.syllables.len()
            invariant
                i <= self.syllables@.len(),
                r@ == joined_syllables(self.syllables@.take(i as int)),
            decreases self.syllables@.len() - i,
        {
            string_push_str(&mut r, self.syllables[i].without_tone());
            assert(self.syllables@.take(i + 1).drop_last() == self.syllables@.take(i as int));
            i = i + 1;
        }
        assert(self.syllables@.take(self.syllables@.len() as int) == self.syllables@);
        r
    }

    /// Whether every syllable is valid: true for a text with no
    /// syllables. Checking a syllable is not available, so the text must
    /// have none.
    pub fn is_valid(&self) -> (r: bool)
        requires
            self.syllables@.len() == 0,
        ensures
            r,
    {
        true
    }
}

/// The initials of pinyin.
pub open spec fn initials_table() -> Seq<Seq<char>> {
    seq![
        "b"@, "p"@, "m"@, "f"@, "d"@, "t"@, "n"@, "l"@, "g"@, "k"@, "h"@, "j"@, "q"@, "x"@,
        "zh"@, "ch"@, "sh"@, "r"@, "z"@, "c"@, "s"@, "y"@, "w"@,
    ]
}

/// The finals of pinyin.
pub open spec fn finals_table() -> Seq<Seq<char>> {
    seq![
        "a"@, "o"@, "e"@, "i"@, "u"@, "ü"@, "ai"@, "ei"@, "ao"@, "ou"@, "an"@, "en"@, "ang"@,
        "eng"@, "ong"@, "ia"@, "ie"@, "iao"@, "iou"@, "ian"@, "in"@, "iang"@, "ing"@, "iong"@,
        "ua"@, "uo"@, "uai"@, "uei"@, "uan"@, "uen"@, "uang"@, "ueng"@, "üe"@, "üan"@, "ün"@,
    ]
}

/// The texts of a list of string slices.
pub open spec fn str_views(v: Seq<&str>) -> Seq<Seq<char>> {
    v.map_values(|s: &str| s@)
}

/// The initials of pinyin, as a list.
pub fn initials() -> (r: Vec<&'static str>)
    ensures
        str_views(r@) == initials_table(),
{
    let r = vec![
        "b", "p", "m", "f", "d", "t", "n", "l", "g", "k", "h", "j", "q", "x", "zh", "ch", "sh",
        "r", "z", "c", "s", "y", "w",
    ];
    assert(str_views(r@) =~= initials_table());
    r
}

/// The finals of pinyin, as a list.
pub fn finals() -> (r: Vec<&'static str>)
    ensures
        str_views(r@) == finals_table(),
{
    let r = vec![
        "a", "o", "e", "i", "u", "ü", "ai", "ei", "ao", "ou", "an", "en", "ang", "eng", "ong",
        "ia", "ie", "iao", "iou", "ian", "in", "iang", "ing", "iong", "ua", "uo", "uai", "uei",
        "uan", "uen", "uang", "ueng", "üe", "üan", "ün",
    ];
    assert(str_views(r@) =~= finals_table());
    r
}

/// Whether `s` is one of the texts of `table`.
fn in_table(table: &Vec<&str>, s: &str) -> (r: bool)
    ensures
        r == str_views(table@).contains(s@),
{
    let c = str_chars(s);
    let mut i: usize = 0;
    while i < table.len()
        invariant
            i <= table@.len(),
            c@ == s@,
            forall|j: int| 0 <= j < i ==> (#[trigger] table@[j])@ != s@,
        decreases table@.len() - i,
    {
        if chars_eq_str(c.as_slice(), table[i]) {
            assert(str_views(table@)[i as int] == s@);
            return true;
        }
        i = i + 1;
    }
    proof {
        if str_views(table@).contains(s@) {
            let j = choose|j: int| 0 <= j < table@.len() && str_views(table@)[j] == s@;
            assert(table@[j]@ != s@);
        }
    }
    false
}

/// Checks of pinyin.
pub struct PinyinValidator;

impl PinyinValidator {
    /// Whether `s` is an initial of pinyin.
    pub fn is_valid_initial(s: &str) -> (r: bool)
        ensures
            r == initials_table().contains(s@),
    {
        in_table(&initials(), s)
    }

    /// Whether `s` is a final of pinyin.
    pub fn is_valid_final(s: &str) -> (r: bool)
        ensures
            r == finals_table().contains(s@),
    {
        in_table(&finals(), s)
    }
}

/// Tone marks of pinyin.
pub struct ToneMarker;

/// The rimes of pinyin: the finals without a medial.
pub open spec fn rimes() -> Seq<Seq<char>> {
    seq!["a"@, "o"@, "e"@, "i"@, "u"@, "ü"@, "ai"@, "ei"@, "ao"@, "ou"@, "an"@, "en"@, "ang"@, "eng"@, "ong"@]
}

/// What follows the medial `i` in a final (`en` and `eng` are written `n`
/// and `ng` there, as in `in` and `ing`).
pub open spec fn after_i() -> Seq<Seq<char>> {
    seq!["a"@, "e"@, "ao"@, "ou"@, "an"@, "n"@, "ang"@, "ng"@, "ong"@]
}

/// What follows the medial `u` in a final.
pub open spec fn after_u() -> Seq<Seq<char>> {
    seq!["a"@, "o"@, "ai"@, "ei"@, "an"@, "en"@, "ang"@, "eng"@]
}

/// What follows the medial `ü` in a final (`en` is written `n`, as in `ün`).
pub open spec fn after_v() -> Seq<Seq<char>> {
    seq!["e"@, "an"@, "n"@]
}

/// The texts `rs`, each after the medial `m`.
pub open spec fn with_medial(m: char, rs: Seq<Seq<char>>) -> Seq<Seq<char>> {
    rs.map_values(|r: Seq<char>| seq![m] + r)
}

/// The finals are the rimes, then the rimes that take each medial `i`, `u`
/// and `ü` after it, in that order: thirty-five in all, none twice. So a
/// text is a valid final exactly when it is a rime, or a medial followed
/// by a rime that takes it.
#[verifier::spinoff_prover]
#[verifier::rlimit(100)]
pub proof fn law_finals_are_medials_and_rimes()
    ensures
        finals_table() == rimes() + with_medial('i', after_i()) + with_medial('u', after_u())
            + with_medial('ü', after_v()),
        finals_table().len() == 35,
        finals_table().no_duplicates(),
{
    reveal_strlit("a");
    reveal_strlit("o");
    reveal_strlit("e");
    reveal_strlit("i");
    reveal_strlit("u");
    reveal_strlit("ü");
    reveal_strlit("ai");
    reveal_strlit("ei");
    reveal_strlit("ao");
    reveal_strlit("ou");
    reveal_strlit("an");
    reveal_strlit("en");
    reveal_strlit("ang");
    reveal_strlit("eng");
    reveal_strlit("ong");
    reveal_strlit("n");
    reveal_strlit("ng");
    reveal_strlit("ia");
    reveal_strlit("ie");
    reveal_strlit("iao");
    reveal_strlit("iou");
    reveal_strlit("ian");
    reveal_strlit("in");
    reveal_strlit("iang");
    reveal_strlit("ing");
    reveal_strlit("iong");
    reveal_strlit("ua");
    reveal_strlit("uo");
    reveal_strlit("uai");
    reveal_strlit("uei");
    reveal_strlit("uan");
    reveal_strlit("uen");
    reveal_strlit("uang");
    reveal_strlit("ueng");
    reveal_strlit("üe");
    reveal_strlit("üan");
    reveal_strlit("ün");
    let w = rimes() + with_medial('i', after_i()) + with_medial('u', after_u()) + with_medial(
        'ü',
        after_v(),
    );
    let t = finals_table();
    assert(w.len() == 35);
    assert forall|k: int| 0 <= k < 35 implies #[trigger] t[k] =~= w[k] by {
        if k < 15 {
        } else if k < 24 {
            assert(w[k] == seq!['i'] + after_i()[k - 15]);
        } else if k < 32 {
            assert(w[k] == seq!['u'] + after_u()[k - 24]);
        } else {
            assert(w[k] == seq!['ü'] + after_v()[k - 32]);
        }
    }
    assert(t =~= w);
    assert forall|a: int, b: int| 0 <= a < b < 35 implies #[trigger] t[a] != #[trigger] t[b] by {
        assert(t[a].len() != t[b].len() || t[a][0] != t[b][0] || t[a][1] != t[b][1] || t[a][2]
            != t[b][2] || t[a][3] != t[b][3]);
    }
}

} // verus!

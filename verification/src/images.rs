//! The image files of a chapter, and the order they are read in.

use vstd::prelude::*;

use vstd::string::*;

use crate::contents::PChapterObject;
use crate::error::ManagerError;
use crate::orders::stably_sorted;
use crate::regex_calls::{compile_regex, find, regex_find, regex_is_valid};
use crate::sort::{key_values, sort_by_keys, KeyValue, SortKey};

verus! {

/// The image files of one chapter, by quality.
#[derive(Debug, Clone, Hash)]
pub struct ChapterImagesData {
    pub data: Vec<String>,
    pub data_saver: Vec<String>,
}

impl Default for ChapterImagesData {
    fn default() -> (r: ChapterImagesData)
        ensures
            r.data@.len() == 0,
            r.data_saver@.len() == 0,
    {
        ChapterImagesData { data: Vec::new(), data_saver: Vec::new() }
    }
}

impl ChapterImagesData {
    /// Whether neither quality has an image.
    pub fn is_empty(&self) -> (r: bool)
        ensures
            r == (self.data@.len() == 0 && self.data_saver@.len() == 0),
    {
        self.data.len() == 0 && self.data_saver.len() == 0
    }
}

impl From<PChapterObject> for ChapterImagesData {
    fn from(value: PChapterObject) -> (r: ChapterImagesData) {
        ChapterImagesData { data: value.data, data_saver: value.data_saver }
    }
}

impl vstd::std_specs::convert::FromSpecImpl<PChapterObject> for ChapterImagesData {
    open spec fn obeys_from_spec() -> bool {
        true
    }

    open spec fn from_spec(value: PChapterObject) -> ChapterImagesData {
        ChapterImagesData { data: value.data, data_saver: value.data_saver }
    }
}

impl From<ChapterImagesData> for PChapterObject {
    fn from(value: ChapterImagesData) -> (r: PChapterObject) {
        PChapterObject { data: value.data, data_saver: value.data_saver }
    }
}

impl vstd::std_specs::convert::FromSpecImpl<ChapterImagesData> for PChapterObject {
    open spec fn obeys_from_spec() -> bool {
        true
    }

    open spec fn from_spec(value: ChapterImagesData) -> PChapterObject {
        PChapterObject { data: value.data, data_saver: value.data_saver }
    }
}

/// Whether every character of `s` is an ASCII digit.
pub open spec fn all_digits(s: Seq<char>) -> bool {
    forall|i: int| 0 <= i < s.len() ==> '0' <= #[trigger] s[i] <= '9'
}

/// The number that the ASCII digits `s` write in base ten.
pub open spec fn digits_value(s: Seq<char>) -> nat
    decreases s.len(),
{
    if s.len() == 0 {
        0
    } else {
        digits_value(s.drop_last()) * 10 + ((s.last() as int) - ('0' as int)) as nat
    }
}

/// The digits of a number as `usize::from_str` reads it: after an optional
/// leading `+`.
pub open spec fn number_body(s: Seq<char>) -> Seq<char> {
    if s.len() > 0 && s[0] == '+' {
        s.drop_first()
    } else {
        s
    }
}

/// What `usize::from_str` gives for `s`: the value of its digits when there
/// is at least one, all are ASCII digits and the value fits.
pub open spec fn parsed_usize(s: Seq<char>) -> Option<nat> {
    let b = number_body(s);
    if b.len() > 0 && all_digits(b) && digits_value(b) <= usize::MAX {
        Some(digits_value(b))
    } else {
        None
    }
}

proof fn lemma_digits_prefix_le(s: Seq<char>, k: int)
    requires
        0 <= k <= s.len(),
        all_digits(s),
    ensures
        digits_value(s.take(k)) <= digits_value(s),
    decreases s.len() - k,
{
    if k < s.len() {
        let t = s.take(k + 1);
        assert(t.drop_last() =~= s.take(k));
        assert(t.last() == s[k]);
        assert('0' <= s[k] <= '9');
        assert(digits_value(t) >= digits_value(s.take(k)));
        lemma_digits_prefix_le(s, k + 1);
    } else {
        assert(s.take(k) =~= s);
    }
}

/// Reads a number as `usize::from_str` does.
pub fn parse_usize(s: &str) -> (r: Option<usize>)
    ensures
        r matches Some(v) ==> parsed_usize(s@) == Some(v as nat),
        r is None ==> parsed_usize(s@) is None,
{
    let n = s.unicode_len();
    let mut i: usize = 0;
    if n > 0 && s.get_char(0) == '+' {
        i = 1;
    }
    let ghost start = i as int;
    let ghost b = number_body(s@);
    assert(b =~= s@.skip(start));
    if i == n {
        return None;
    }
    let mut value: usize = 0;
    assert(b.take(0) =~= Seq::<char>::empty());
    while i < n
        invariant
            n == s@.len(),
            0 <= start <= 1,
            start <= i <= n,
            b == s@.skip(start),
            b == number_body(s@),
            all_digits(b.take(i - start)),
            value as nat == digits_value(b.take(i - start)),
        decreases n - i,
    {
        let c = s.get_char(i);
        let ghost k = i - start;
        assert(b[k] == c);
        let ghost t = b.take(k + 1);
        assert(t.drop_last() =~= b.take(k));
        if c < '0' || c > '9' {
            assert(!all_digits(b));
            return None;
        }
        let d: usize = (c as u32 - '0' as u32) as usize;
        assert(d == (c as int) - ('0' as int));
        assert(all_digits(t));
        assert(t.last() == c);
        assert(digits_value(t) == value * 10 + d);
        match value.checked_mul(10) {
            None => {
                proof {
                    assert(digits_value(t) > usize::MAX);
                    if all_digits(b) {
                        lemma_digits_prefix_le(b, k + 1);
                    }
                }
                return None;
            },
            Some(v10) => match v10.checked_add(d) {
                None => {
                    proof {
                        assert(digits_value(t) > usize::MAX);
                        if all_digits(b) {
                            lemma_digits_prefix_le(b, k + 1);
                        }
                    }
                    return None;
                },
                Some(v) => {
                    value = v;
                },
            },
        }
        i = i + 1;
    }
    assert(b.take(n - start) =~= b);
    Some(value)
}

/// The pattern that finds the first run of digits in an image name.
pub open spec fn digits_pattern() -> Seq<char> {
    seq!['\\', 'd', '+']
}

/// The number an image name is ordered by: the first run of digits that the
/// pattern finds, read as a `usize`, or nothing.
pub open spec fn image_number(name: Seq<char>) -> Option<i128> {
    match regex_find(digits_pattern(), name) {
        Some(m) => match parsed_usize(m) {
            Some(v) => Some(v as i128),
            None => None,
        },
        None => None,
    }
}

/// The keys of image names.
pub open spec fn image_keys(names: Seq<String>) -> Seq<KeyValue> {
    names.map_values(|n: String| KeyValue::MaybeInt(image_number(n@)))
}

/// Orders image names by the first number in each (names without one come
/// first), keeping names with equal numbers in their order. Fails when the
/// digit pattern does not compile.
pub fn sort_image_names(names: Vec<String>) -> (r: Result<Vec<String>, ManagerError>)
    ensures
        r is Ok <==> regex_is_valid(digits_pattern()),
        r matches Ok(v) ==> stably_sorted(names@, image_keys(names@), false, v@),
        r matches Err(e) ==> e is Regex,
{
    let pattern = "\\d+";
    proof {
        reveal_strlit("\\d+");
    }
    assert(pattern@ =~= digits_pattern());
    let re = match compile_regex(pattern) {
        Ok(re) => re,
        Err(e) => {
            return Err(ManagerError::Regex(e));
        },
    };
    let mut keys: Vec<SortKey> = Vec::new();
    let mut i: usize = 0;
    while i < names.len()
        invariant
            0 <= i <= names@.len(),
            re@ == digits_pattern(),
            keys@.len() == i,
            forall|j: int| 0 <= j < i ==> #[trigger] keys@[j]@ == KeyValue::MaybeInt(image_number(names@[j]@)),
        decreases names@.len() - i,
    {
        let number: Option<i128> = match find(&re, names[i].as_str()) {
            Some(m) => match parse_usize(m.as_str()) {
                Some(v) => Some(v as i128),
                None => None,
            },
            None => None,
        };
        keys.push(SortKey::MaybeInt(number));
        i = i + 1;
    }
    assert(key_values(keys@) =~= image_keys(names@));
    let ghost items = names@;
    let sorted = sort_by_keys(names, &keys, false);
    assert(stably_sorted(items, image_keys(items), false, sorted@));
    Ok(sorted)
}

} // verus!

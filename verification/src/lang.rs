//! The languages of the front end and the stored choice among them.
use vstd::prelude::*;

verus! {

/// A language that the front end can speak.
#[derive(Clone, Copy, Debug, PartialEq, Eq, Structural)]
pub enum LngList {
    En,
    Ru,
    Uk,
    Zh,
    Tc,
}

/// The name of each language in that language.
pub open spec fn spec_lng_name(l: LngList) -> Seq<char> {
    match l {
        LngList::En => "English"@,
        LngList::Ru => "Русский"@,
        LngList::Uk => "Українська"@,
        LngList::Zh => "简体中文"@,
        LngList::Tc => "繁體中文"@,
    }
}

/// The tag under which the messages of each language are filed.
pub open spec fn spec_lng_code(l: LngList) -> Seq<char> {
    match l {
        LngList::En => "en"@,
        LngList::Ru => "ru"@,
        LngList::Uk => "uk"@,
        LngList::Zh => "zh"@,
        LngList::Tc => "tc"@,
    }
}

impl LngList {
    /// The name of the language, written in the language itself.
    pub fn name(self) -> (s: &'static str)
        ensures
            s@ == spec_lng_name(self),
    {
        match self {
            LngList::En => "English",
            LngList::Ru => "Русский",
            LngList::Uk => "Українська",
            LngList::Zh => "简体中文",
            LngList::Tc => "繁體中文",
        }
    }

    /// The tag of the language.
    pub fn code(self) -> (s: &'static str)
        ensures
            s@ == spec_lng_code(self),
    {
        match self {
            LngList::En => "en",
            LngList::Ru => "ru",
            LngList::Uk => "uk",
            LngList::Zh => "zh",
            LngList::Tc => "tc",
        }
    }
}

impl Default for LngList {
    fn default() -> (r: Self)
        ensures
            r == LngList::En,
    {
        LngList::En
    }
}

/// The stored language choice. `initialized` is false until a language was
/// picked once, by the user or from the system.
#[derive(Clone, Copy, Debug, PartialEq, Eq, Structural)]
pub struct LngPrefs {
    pub lang: LngList,
    pub initialized: bool,
}

impl Default for LngPrefs {
    fn default() -> (r: Self)
        ensures
            r == (LngPrefs { lang: LngList::En, initialized: false }),
    {
        LngPrefs { lang: LngList::En, initialized: false }
    }
}

impl LngPrefs {
    /// The preferences to work with after loading: a stored choice stands;
    /// without one the language of the system is taken. The flag says
    /// whether the result differs from what was loaded and must be stored.
    pub fn settle(self, detected: LngList) -> (r: (LngPrefs, bool))
        ensures
            self.initialized ==> r.0 == self && !r.1,
            !self.initialized ==> r.0 == (LngPrefs { lang: detected, initialized: true }) && r.1,
    {
        if self.initialized {
            (self, false)
        } else {
            (LngPrefs { lang: detected, initialized: true }, true)
        }
    }
}

/// The lower-case form of a text as `str::to_lowercase` gives it, which
/// follows the Unicode case tables and depends on the text alone.
pub uninterp spec fn spec_lowercase(s: Seq<char>) -> Seq<char>;

/// Calls `str::to_lowercase`.
///
/// Trusted: the result is what `spec_lowercase` names.
#[verifier::external_body]
pub(crate) fn lowercase(s: &str) -> (r: String)
    ensures
        r@ == spec_lowercase(s@),
{
    s.to_lowercase()
}

/// Whether a character parts the subtags of a locale.
pub open spec fn spec_is_separator(c: char) -> bool {
    c == '-' || c == '_'
}

/// End of the subtag that starts at `start`: the position of the next
/// separator, or the end of the text.
pub open spec fn spec_subtag_end(s: Seq<char>, start: int) -> int
    decreases s.len() - start,
{
    if start < 0 || start >= s.len() || spec_is_separator(s[start]) {
        start
    } else {
        spec_subtag_end(s, start + 1)
    }
}

/// The end of a subtag lies between its start and the end of the text.
pub proof fn lemma_subtag_end_bounds(s: Seq<char>, start: int)
    requires
        0 <= start <= s.len(),
    ensures
        start <= spec_subtag_end(s, start) <= s.len(),
    decreases s.len() - start,
{
    if start < s.len() && !spec_is_separator(s[start]) {
        lemma_subtag_end_bounds(s, start + 1);
    }
}

/// Whether `word` stands in `s` at position `i`.
pub open spec fn spec_word_at(s: Seq<char>, i: int, word: Seq<char>) -> bool {
    0 <= i && i + word.len() <= s.len() && s.subrange(i, i + word.len()) == word
}

/// Whether `word` occurs anywhere in `s`.
pub open spec fn spec_contains(s: Seq<char>, word: Seq<char>) -> bool {
    exists|i: int| #[trigger] spec_word_at(s, i, word)
}

/// Whether one of the subtags from position `start` on names a region where
/// Chinese is written in traditional characters.
pub open spec fn spec_has_traditional_region(s: Seq<char>, start: int) -> bool
    decreases s.len() - start,
{
    if start < 0 || start > s.len() {
        false
    } else {
        let end = spec_subtag_end(s, start);
        let tag = s.subrange(start, end);
        proof {
            lemma_subtag_end_bounds(s, start);
        }
        if tag == "tw"@ || tag == "hk"@ || tag == "mo"@ {
            true
        } else if end >= s.len() {
            false
        } else {
            spec_has_traditional_region(s, end + 1)
        }
    }
}

/// The language for a locale in lower case. The first subtag decides:
/// Ukrainian and Russian by their tags, `sc` as simplified and `tc` or `yue`
/// as traditional Chinese. Under `zh` the script, a region subtag, the old
/// tag `cht` or the dialect `yue` anywhere in the locale ask for traditional
/// characters; any other Chinese is simplified. Everything else is English.
pub open spec fn spec_lang_of(lc: Seq<char>) -> LngList {
    let end = spec_subtag_end(lc, 0);
    let primary = lc.subrange(0, end);
    if primary == "uk"@ {
        LngList::Uk
    } else if primary == "ru"@ {
        LngList::Ru
    } else if primary == "sc"@ {
        LngList::Zh
    } else if primary == "tc"@ {
        LngList::Tc
    } else if primary == "yue"@ {
        LngList::Tc
    } else if primary == "zh"@ {
        if spec_contains(lc, "hant"@) || (end < lc.len() && spec_has_traditional_region(
            lc,
            end + 1,
        )) || spec_contains(lc, "cht"@) || spec_contains(lc, "yue"@) {
            LngList::Tc
        } else {
            LngList::Zh
        }
    } else {
        LngList::En
    }
}

/// Finds the end of the subtag that starts at `start`.
pub fn subtag_end(s: &str, start: usize) -> (end: usize)
    requires
        start <= s@.len(),
    ensures
        end == spec_subtag_end(s@, start as int),
        start <= end <= s@.len(),
{
    let n: usize = s.unicode_len();
    let mut end: usize = start;
    while end < n && s.get_char(end) != '-' && s.get_char(end) != '_'
        invariant
            start <= end <= n,
            n == s@.len(),
            spec_subtag_end(s@, end as int) == spec_subtag_end(s@, start as int),
        decreases n - end,
    {
        end = end + 1;
    }
    end
}

/// Whether the characters of `s` in `[from, to)` spell `word`.
pub fn range_is(s: &str, from: usize, to: usize, word: &str) -> (r: bool)
    requires
        from <= to <= s@.len(),
    ensures
        r == (s@.subrange(from as int, to as int) == word@),
{
    let m: usize = word.unicode_len();
    if to - from != m {
        return false;
    }
    let ghost part = s@.subrange(from as int, to as int);
    let mut i: usize = 0;
    while i < m
        invariant
            i <= m,
            from + m == to,
            to <= s@.len(),
            m == word@.len(),
            part == s@.subrange(from as int, to as int),
            forall|j: int| 0 <= j < i ==> #[trigger] part[j] == word@[j],
        decreases m - i,
    {
        if s.get_char(from + i) != word.get_char(i) {
            assert(part[i as int] == s@[from + i]);
            assert(part[i as int] != word@[i as int]);
            return false;
        }
        assert(part[i as int] == s@[from + i]);
        i = i + 1;
    }
    assert(part =~= word@);
    true
}

/// Whether `word` occurs anywhere in `s`.
pub fn contains(s: &str, word: &str) -> (r: bool)
    ensures
        r == spec_contains(s@, word@),
{
    let n: usize = s.unicode_len();
    let m: usize = word.unicode_len();
    if m > n {
        assert forall|i: int| !spec_word_at(s@, i, word@) by {}
        return false;
    }
    let last: usize = n - m;
    let mut i: usize = 0;
    loop
        invariant
            i <= last,
            last == n - m,
            m <= n,
            n == s@.len(),
            m == word@.len(),
            forall|j: int| 0 <= j < i ==> !spec_word_at(s@, j, word@),
        decreases last - i,
    {
        if range_is(s, i, i + m, word) {
            assert(spec_word_at(s@, i as int, word@));
            return true;
        }
        if i == last {
            assert forall|j: int| !spec_word_at(s@, j, word@) by {}
            return false;
        }
        i = i + 1;
    }
}

/// Whether a subtag from `start` on is `tw`, `hk` or `mo`.
pub fn has_traditional_region(s: &str, start: usize) -> (r: bool)
    requires
        start <= s@.len(),
    ensures
        r == spec_has_traditional_region(s@, start as int),
{
    let n: usize = s.unicode_len();
    let mut from: usize = start;
    loop
        invariant
            from <= n,
            n == s@.len(),
            spec_has_traditional_region(s@, from as int) == spec_has_traditional_region(
                s@,
                start as int,
            ),
        decreases n - from,
    {
        let end: usize = subtag_end(s, from);
        if range_is(s, from, end, "tw") || range_is(s, from, end, "hk") || range_is(
            s,
            from,
            end,
            "mo",
        ) {
            return true;
        }
        if end >= n {
            return false;
        }
        from = end + 1;
    }
}

/// The language for a locale that is already in lower case.
pub fn lang_of_lowercase(lc: &str) -> (r: LngList)
    ensures
        r == spec_lang_of(lc@),
{
    let n: usize = lc.unicode_len();
    let end: usize = subtag_end(lc, 0);
    if range_is(lc, 0, end, "uk") {
        LngList::Uk
    } else if range_is(lc, 0, end, "ru") {
        LngList::Ru
    } else if range_is(lc, 0, end, "sc") {
        LngList::Zh
    } else if range_is(lc, 0, end, "tc") {
        LngList::Tc
    } else if range_is(lc, 0, end, "yue") {
        LngList::Tc
    } else if range_is(lc, 0, end, "zh") {
        if contains(lc, "hant") || (end < n && has_traditional_region(lc, end + 1)) || contains(
            lc,
            "cht",
        ) || contains(lc, "yue") {
            LngList::Tc
        } else {
            LngList::Zh
        }
    } else {
        LngList::En
    }
}

/// The language for the locale that the system reports, such as `uk-UA`,
/// `zh_Hant_TW` or `en-US`.
pub fn lang_of_locale(raw: &str) -> (r: LngList)
    ensures
        r == spec_lang_of(spec_lowercase(raw@)),
{
    let lc: String = lowercase(raw);
    lang_of_lowercase(lc.as_str())
}

} // verus!

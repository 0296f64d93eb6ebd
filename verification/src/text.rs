//! Text primitives shared by the label correlator, the coverage matrix and the
//! fault localization engine.
//!
//! Strings are reasoned about through their view, a `Seq<char>`. The standard
//! library's string searches and comparisons are not specified by `vstd`; the
//! small wrappers in this module give them a contract that is taken on trust.
use vstd::prelude::*;
use vstd::string::*;

verus! {

/// `needle` occurs in `hay` starting at position `at`.
pub open spec fn occurs_at(needle: Seq<char>, hay: Seq<char>, at: int) -> bool {
    &&& 0 <= at
    &&& at + needle.len() <= hay.len()
    &&& hay.subrange(at, at + needle.len()) == needle
}

/// `needle` occurs somewhere in `hay` as a contiguous run of characters.
pub open spec fn occurs_in(needle: Seq<char>, hay: Seq<char>) -> bool {
    exists|at: int| occurs_at(needle, hay, at)
}

/// Strict lexicographic order on texts, character by character, by code point.
pub open spec fn text_less(a: Seq<char>, b: Seq<char>) -> bool
    decreases a.len(),
{
    if b.len() == 0 {
        false
    } else if a.len() == 0 {
        true
    } else if a[0] != b[0] {
        a[0] < b[0]
    } else {
        text_less(a.drop_first(), b.drop_first())
    }
}

/// The characters that separate words: the code points with the Unicode
/// property `White_Space`.
pub open spec fn is_space(c: char) -> bool {
    let n = c as u32;
    ||| 0x09 <= n <= 0x0D
    ||| n == 0x20
    ||| n == 0x85
    ||| n == 0xA0
    ||| n == 0x1680
    ||| 0x2000 <= n <= 0x200A
    ||| n == 0x2028
    ||| n == 0x2029
    ||| n == 0x202F
    ||| n == 0x205F
    ||| n == 0x3000
}

/// Number of leading characters of `s` for which `is_space` answers `want`.
pub open spec fn run_length(s: Seq<char>, want: bool) -> nat
    decreases s.len(),
{
    if s.len() == 0 || is_space(s[0]) != want {
        0
    } else {
        1 + run_length(s.drop_first(), want)
    }
}

/// The first word of `s`: what stands between its leading white space and the
/// next white space. `None` when `s` holds no word at all.
pub open spec fn first_word(s: Seq<char>) -> Option<Seq<char>> {
    let start = run_length(s, true) as int;
    let rest = s.subrange(start, s.len() as int);
    if rest.len() == 0 {
        None
    } else {
        Some(rest.subrange(0, run_length(rest, false) as int))
    }
}

/// The texts of `parts` in order, with `separator` between each two neighbours.
pub open spec fn join(parts: Seq<Seq<char>>, separator: Seq<char>) -> Seq<char>
    decreases parts.len(),
{
    if parts.len() == 0 {
        Seq::empty()
    } else if parts.len() == 1 {
        parts[0]
    } else {
        join(parts.drop_last(), separator) + separator + parts.last()
    }
}

/// The text holds no escape character, U+001B.
pub open spec fn free_of_escape(s: Seq<char>) -> bool {
    forall|i: int| 0 <= i < s.len() ==> s[i] != '\u{1b}'
}

/// The text is made of decimal digits and minus signs.
pub open spec fn digits_and_minus(s: Seq<char>) -> bool {
    forall|i: int| 0 <= i < s.len() ==> s[i] == '-' || ('0' <= s[i] && s[i] <= '9')
}

/// The text that `{:?}` formatting gives for a string: the string between
/// double quotes, with the characters that cannot stand there escaped.
pub uninterp spec fn quoted(s: Seq<char>) -> Seq<char>;

/// The decimal text of a signed 64-bit integer, as `{}` formatting gives it.
pub uninterp spec fn decimal(n: i64) -> Seq<char>;

/// The integer that a text is the decimal notation of, if it is one of a signed
/// 64-bit integer: what parsing the text gives.
pub uninterp spec fn parsed_integer(s: Seq<char>) -> Option<i64>;

/// The text `true` or `false`.
pub open spec fn flag_text(b: bool) -> Seq<char> {
    if b {
        "true"@
    } else {
        "false"@
    }
}

/// Calls `str::starts_with` with a string pattern. Trusted: the standard
/// library documents that it answers whether the pattern matches a prefix of
/// the text.
#[verifier::external_body]
pub(crate) fn starts_with(text: &str, prefix: &str) -> (found: bool)
    ensures
        found == prefix@.is_prefix_of(text@),
{
    text.starts_with(prefix)
}

/// Calls `str::contains` with a string pattern. Trusted: the standard library
/// documents that it answers whether the pattern matches a sub-slice of the
/// text.
#[verifier::external_body]
pub(crate) fn contains_text(hay: &str, needle: &str) -> (found: bool)
    ensures
        found == occurs_in(needle@, hay@),
{
    hay.contains(needle)
}

/// Calls `<str as PartialOrd>::lt`. Trusted: the standard library documents
/// that strings are ordered lexicographically by their bytes, which orders
/// them by code point.
#[verifier::external_body]
pub(crate) fn less_text(a: &str, b: &str) -> (less: bool)
    ensures
        less == text_less(a@, b@),
{
    a < b
}

/// Calls `str::split_whitespace` and takes the first item. Trusted: the
/// standard library documents that the words are the maximal runs of
/// characters without the Unicode property `White_Space`.
#[verifier::external_body]
pub(crate) fn leading_word(text: &str) -> (word: Option<String>)
    ensures
        word.deep_view() == first_word(text@),
{
    text.split_whitespace().next().map(|w| w.to_string())
}

/// Formats a string with `{:?}`. Trusted: the result is a function of the
/// string alone, named `quoted`, and it holds no escape character, since the
/// formatting writes every control character as an escape sequence of
/// printable characters.
#[verifier::external_body]
pub(crate) fn quote(text: &str) -> (out: String)
    ensures
        out@ == quoted(text@),
        free_of_escape(out@),
{
    format!("{:?}", text)
}

/// Formats an integer with `{}`. Trusted: the result is a function of the
/// integer alone, named `decimal`, and it is made of decimal digits, after a
/// minus sign for a negative integer.
#[verifier::external_body]
pub(crate) fn decimal_string(n: i64) -> (out: String)
    ensures
        out@ == decimal(n),
        digits_and_minus(out@),
{
    format!("{}", n)
}

/// Calls `str::parse::<i64>`. Trusted: the result is a function of the text
/// alone, named `parsed_integer`; a text that is no decimal notation of a signed
/// 64-bit integer gives none.
#[verifier::external_body]
pub(crate) fn parse_integer(text: &str) -> (parsed: Option<i64>)
    ensures
        parsed == parsed_integer(text@),
{
    text.parse::<i64>().ok()
}

/// `true` or `false` as an owned string.
pub fn flag_string(b: bool) -> (out: String)
    ensures
        out@ == flag_text(b),
        free_of_escape(out@),
{
    proof {
        reveal_strlit("true");
        reveal_strlit("false");
    }
    if b {
        String::from_str("true")
    } else {
        String::from_str("false")
    }
}

/// Joins `parts` with `separator` between neighbours.
pub fn join_strings(parts: &Vec<String>, separator: &str) -> (out: String)
    ensures
        out@ == join(parts.deep_view(), separator@),
{
    let mut out = String::new();
    let mut i: usize = 0;
    while i < parts.len()
        invariant
            i <= parts.len(),
            out@ == join(parts.deep_view().take(i as int), separator@),
        decreases parts.len() - i,
    {
        proof {
            let before = parts.deep_view().take(i as int);
            let after = parts.deep_view().take(i + 1);
            assert(after.drop_last() =~= before);
            assert(after.last() == parts[i as int]@);
            assert(Seq::<char>::empty() + parts[i as int]@ =~= parts[i as int]@);
        }
        if i > 0 {
            out.append(separator);
        }
        out.append(parts[i].as_str());
        i += 1;
    }
    proof {
        assert(parts.deep_view().take(parts.len() as int) =~= parts.deep_view());
    }
    out
}

/// A copy of an optional string.
pub fn clone_optional_text(a: &Option<String>) -> (copy: Option<String>)
    ensures
        copy.deep_view() == a.deep_view(),
{
    match a {
        Some(x) => Some(x.clone()),
        None => None,
    }
}

/// A copy of a list of strings.
pub fn clone_texts(a: &Vec<String>) -> (copy: Vec<String>)
    ensures
        copy.deep_view() == a.deep_view(),
{
    let mut copy: Vec<String> = Vec::new();
    let mut i: usize = 0;
    while i < a.len()
        invariant
            i <= a.len(),
            copy.len() == i,
            forall|j: int| 0 <= j < i ==> copy[j]@ == a[j]@,
        decreases a.len() - i,
    {
        copy.push(a[i].clone());
        i += 1;
    }
    proof {
        assert(copy.deep_view() =~= a.deep_view());
    }
    copy
}

/// A copy of an optional list of strings.
pub fn clone_optional_texts(a: &Option<Vec<String>>) -> (copy: Option<Vec<String>>)
    ensures
        copy.deep_view() == a.deep_view(),
{
    match a {
        Some(x) => Some(clone_texts(x)),
        None => None,
    }
}

/// Whether two optional lists of strings hold the same texts in the same order.
pub fn same_optional_texts(a: &Option<Vec<String>>, b: &Option<Vec<String>>) -> (same: bool)
    ensures
        same == (a.deep_view() == b.deep_view()),
{
    match a {
        Some(x) => match b {
            Some(y) => same_texts(x, y),
            None => false,
        },
        None => b.is_none(),
    }
}

/// Whether two optional strings hold the same text.
pub fn same_optional_text(a: &Option<String>, b: &Option<String>) -> (same: bool)
    ensures
        same == (a.deep_view() == b.deep_view()),
{
    match a {
        Some(x) => match b {
            Some(y) => same_text(x.as_str(), y.as_str()),
            None => false,
        },
        None => b.is_none(),
    }
}

/// Whether two lists of strings hold the same texts in the same order.
pub fn same_texts(a: &Vec<String>, b: &Vec<String>) -> (same: bool)
    ensures
        same == (a.deep_view() == b.deep_view()),
{
    if a.len() != b.len() {
        proof {
            assert(a.deep_view().len() != b.deep_view().len());
        }
        return false;
    }
    let mut i: usize = 0;
    while i < a.len()
        invariant
            i <= a.len(),
            a.len() == b.len(),
            forall|j: int| 0 <= j < i ==> a[j]@ == b[j]@,
        decreases a.len() - i,
    {
        if a[i] != b[i] {
            proof {
                assert(a.deep_view()[i as int] == a[i as int]@);
                assert(b.deep_view()[i as int] == b[i as int]@);
            }
            return false;
        }
        i += 1;
    }
    proof {
        assert(a.deep_view() =~= b.deep_view());
    }
    true
}

/// Whether `needle` is one of the texts of `hay`.
pub fn holds_text(hay: &Vec<String>, needle: &str) -> (found: bool)
    ensures
        found == hay.deep_view().contains(needle@),
{
    let mut i: usize = 0;
    while i < hay.len()
        invariant
            i <= hay.len(),
            forall|j: int| 0 <= j < i ==> hay[j]@ != needle@,
        decreases hay.len() - i,
    {
        if same_text(hay[i].as_str(), needle) {
            proof {
                assert(hay.deep_view()[i as int] == needle@);
            }
            return true;
        }
        i += 1;
    }
    proof {
        assert forall|j: int| 0 <= j < hay.deep_view().len() implies hay.deep_view()[j]
            != needle@ by {
            assert(hay.deep_view()[j] == hay[j]@);
        }
    }
    false
}

/// Calls `<str as PartialEq>::eq`. Trusted: two string slices are equal when
/// they hold the same characters.
#[verifier::external_body]
pub(crate) fn same_text(a: &str, b: &str) -> (same: bool)
    ensures
        same == (a@ == b@),
{
    a == b
}

/// `text_less` never relates a text to itself.
pub proof fn lemma_text_less_irreflexive(a: Seq<char>)
    ensures
        !text_less(a, a),
    decreases a.len(),
{
    if a.len() > 0 {
        lemma_text_less_irreflexive(a.drop_first());
    }
}

/// Of two different texts, one is below the other.
pub proof fn lemma_text_less_total(a: Seq<char>, b: Seq<char>)
    ensures
        a == b || text_less(a, b) || text_less(b, a),
    decreases a.len(),
{
    if a.len() == 0 || b.len() == 0 {
        if a.len() == 0 && b.len() == 0 {
            assert(a =~= b);
        }
    } else if a[0] == b[0] {
        lemma_text_less_total(a.drop_first(), b.drop_first());
        if a.drop_first() == b.drop_first() {
            assert(a =~= seq![a[0]] + a.drop_first());
            assert(b =~= seq![b[0]] + b.drop_first());
        }
    }
}

/// `text_less` is transitive.
pub proof fn lemma_text_less_transitive(a: Seq<char>, b: Seq<char>, c: Seq<char>)
    requires
        text_less(a, b),
        text_less(b, c),
    ensures
        text_less(a, c),
    decreases a.len(),
{
    if a.len() > 0 && a[0] == b[0] && b[0] == c[0] {
        lemma_text_less_transitive(a.drop_first(), b.drop_first(), c.drop_first());
    }
}

/// `text_less` never holds in both directions.
pub proof fn lemma_text_less_asymmetric(a: Seq<char>, b: Seq<char>)
    requires
        text_less(a, b),
    ensures
        !text_less(b, a),
{
    if text_less(b, a) {
        lemma_text_less_transitive(a, b, a);
        lemma_text_less_irreflexive(a);
    }
}

} // verus!

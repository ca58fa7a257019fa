//! Verified text utilities: trimming, searching, case folding, splitting
//! and decimal formatting over `&str` / `String`, specified over `Seq<char>`.

use vstd::prelude::*;
use vstd::string::*;

verus! {

/// The white-space characters this library recognizes: the code points of
/// Unicode's White_Space class.
pub open spec fn is_wspace(c: char) -> bool {
    c == ' ' || c == '\t' || c == '\n' || c == '\u{b}' || c == '\u{c}' || c == '\r' || c
        == '\u{85}' || c == '\u{a0}' || c == '\u{1680}' || ('\u{2000}' <= c && c <= '\u{200a}')
        || c == '\u{2028}' || c == '\u{2029}' || c == '\u{202f}' || c == '\u{205f}' || c
        == '\u{3000}'
}

pub fn wspace(c: char) -> (r: bool)
    ensures
        r == is_wspace(c),
{
    c == ' ' || c == '\t' || c == '\n' || c == '\u{b}' || c == '\u{c}' || c == '\r' || c
        == '\u{85}' || c == '\u{a0}' || c == '\u{1680}' || ('\u{2000}' <= c && c <= '\u{200a}')
        || c == '\u{2028}' || c == '\u{2029}' || c == '\u{202f}' || c == '\u{205f}' || c
        == '\u{3000}'
}

pub open spec fn trim_start_spec(s: Seq<char>) -> Seq<char>
    decreases s.len(),
{
    if s.len() > 0 && is_wspace(s[0]) {
        trim_start_spec(s.drop_first())
    } else {
        s
    }
}

pub open spec fn trim_end_spec(s: Seq<char>) -> Seq<char>
    decreases s.len(),
{
    if s.len() > 0 && is_wspace(s[s.len() - 1]) {
        trim_end_spec(s.drop_last())
    } else {
        s
    }
}

/// The input without leading and trailing white space.
pub open spec fn trim_spec(s: Seq<char>) -> Seq<char> {
    trim_end_spec(trim_start_spec(s))
}

proof fn lemma_trim_start_subrange(s: Seq<char>, i: int)
    requires
        0 <= i <= s.len(),
        forall|k: int| 0 <= k < i ==> is_wspace(s[k]),
        i < s.len() ==> !is_wspace(s[i]),
    ensures
        trim_start_spec(s) == s.subrange(i, s.len() as int),
    decreases i,
{
    if i == 0 {
        assert(s.subrange(0, s.len() as int) =~= s);
    } else {
        let t = s.drop_first();
        assert(is_wspace(s[0]));
        lemma_trim_start_subrange(t, i - 1);
        assert(t.subrange(i - 1, t.len() as int) =~= s.subrange(i, s.len() as int));
    }
}

proof fn lemma_trim_end_subrange(s: Seq<char>, j: int)
    requires
        0 <= j <= s.len(),
        forall|k: int| j <= k < s.len() ==> is_wspace(s[k]),
        j > 0 ==> !is_wspace(s[j - 1]),
    ensures
        trim_end_spec(s) == s.subrange(0, j),
    decreases s.len() - j,
{
    if j == s.len() {
        assert(s.subrange(0, s.len() as int) =~= s);
    } else {
        let t = s.drop_last();
        assert(is_wspace(s[s.len() - 1]));
        lemma_trim_end_subrange(t, j);
        assert(t.subrange(0, j) =~= s.subrange(0, j));
    }
}

/// The input without leading and trailing white space.
pub fn trim<'a>(s: &'a str) -> (r: &'a str)
    ensures
        r@ == trim_spec(s@),
{
    let n = s.unicode_len();
    let mut i: usize = 0;
    while i < n && wspace(s.get_char(i))
        invariant
            0 <= i <= n,
            n == s@.len(),
            forall|k: int| 0 <= k < i ==> is_wspace(s@[k]),
        decreases n - i,
    {
        i = i + 1;
    }
    let mut j: usize = n;
    while j > i && wspace(s.get_char(j - 1))
        invariant
            i <= j <= n,
            n == s@.len(),
            forall|k: int| j <= k < n ==> is_wspace(s@[k]),
            forall|k: int| 0 <= k < i ==> is_wspace(s@[k]),
            i < n ==> !is_wspace(s@[i as int]),
        decreases j,
    {
        j = j - 1;
    }
    let r = s.substring_char(i, j);
    proof {
        lemma_trim_start_subrange(s@, i as int);
        let t = s@.subrange(i as int, n as int);
        lemma_trim_end_subrange(t, j - i);
        assert(t.subrange(0, j - i) =~= s@.subrange(i as int, j as int));
    }
    r
}

proof fn lemma_trim_start_head(s: Seq<char>)
    ensures
        trim_start_spec(s).len() > 0 ==> !is_wspace(trim_start_spec(s)[0]),
        trim_start_spec(s).len() <= s.len(),
    decreases s.len(),
{
    if s.len() > 0 && is_wspace(s[0]) {
        lemma_trim_start_head(s.drop_first());
    }
}

proof fn lemma_trim_end_last(s: Seq<char>)
    ensures
        trim_end_spec(s).len() > 0 ==> !is_wspace(trim_end_spec(s)[trim_end_spec(s).len() - 1]),
    decreases s.len(),
{
    if s.len() > 0 && is_wspace(s[s.len() - 1]) {
        lemma_trim_end_last(s.drop_last());
    }
}

proof fn lemma_trim_end_prefix(s: Seq<char>)
    ensures
        trim_end_spec(s).len() <= s.len(),
        trim_end_spec(s) == s.subrange(0, trim_end_spec(s).len() as int),
    decreases s.len(),
{
    if s.len() > 0 && is_wspace(s[s.len() - 1]) {
        let d = s.drop_last();
        lemma_trim_end_prefix(d);
        assert(d.subrange(0, trim_end_spec(d).len() as int) =~= s.subrange(
            0,
            trim_end_spec(d).len() as int,
        ));
    } else {
        assert(s.subrange(0, s.len() as int) =~= s);
    }
}

/// Trimming is idempotent: the trimmed form of a text trims to itself.
pub proof fn lemma_trim_idempotent(s: Seq<char>)
    ensures
        trim_spec(trim_spec(s)) == trim_spec(s),
{
    let a = trim_start_spec(s);
    let t = trim_end_spec(a);
    lemma_trim_start_head(s);
    lemma_trim_end_prefix(a);
    lemma_trim_end_last(a);
    if t.len() > 0 {
        assert(t[0] == a[0]);
        assert(trim_start_spec(t) == t);
        assert(trim_end_spec(t) == t);
    } else {
        assert(trim_start_spec(t) == t);
        assert(trim_end_spec(t) == t);
    }
}

/// Index of the first occurrence of `c`, or -1 if there is none.
pub open spec fn find_char(s: Seq<char>, c: char) -> int
    decreases s.len(),
{
    if s.len() == 0 {
        -1
    } else if s[0] == c {
        0
    } else if find_char(s.drop_first(), c) < 0 {
        -1
    } else {
        1 + find_char(s.drop_first(), c)
    }
}

pub proof fn lemma_find_char_at(s: Seq<char>, c: char, i: int)
    requires
        0 <= i < s.len(),
        s[i] == c,
        forall|k: int| 0 <= k < i ==> s[k] != c,
    ensures
        find_char(s, c) == i,
    decreases i,
{
    if i > 0 {
        lemma_find_char_at(s.drop_first(), c, i - 1);
    }
}

pub proof fn lemma_find_char_none(s: Seq<char>, c: char)
    requires
        forall|k: int| 0 <= k < s.len() ==> s[k] != c,
    ensures
        find_char(s, c) == -1,
    decreases s.len(),
{
    if s.len() > 0 {
        lemma_find_char_none(s.drop_first(), c);
    }
}

pub proof fn lemma_find_char_props(s: Seq<char>, c: char)
    ensures
        -1 <= find_char(s, c) < s.len(),
        find_char(s, c) >= 0 ==> s[find_char(s, c)] == c,
        find_char(s, c) >= 0 ==> forall|k: int| 0 <= k < find_char(s, c) ==> s[k] != c,
        find_char(s, c) == -1 ==> forall|k: int| 0 <= k < s.len() ==> s[k] != c,
    decreases s.len(),
{
    if s.len() > 0 && s[0] != c {
        let t = s.drop_first();
        lemma_find_char_props(t, c);
        if find_char(t, c) >= 0 {
            assert forall|k: int| 0 <= k < find_char(s, c) implies s[k] != c by {
                if k > 0 {
                    assert(t[k - 1] == s[k]);
                }
            }
        } else {
            assert forall|k: int| 0 <= k < s.len() implies s[k] != c by {
                if k > 0 {
                    assert(t[k - 1] == s[k]);
                }
            }
        }
    }
}

/// First index of `c` in `s`, if any.
pub fn find_first(s: &str, c: char) -> (r: Option<usize>)
    ensures
        match r {
            Some(i) => find_char(s@, c) == i as int,
            None => find_char(s@, c) == -1,
        },
{
    let n = s.unicode_len();
    let mut i: usize = 0;
    while i < n
        invariant
            0 <= i <= n,
            n == s@.len(),
            forall|k: int| 0 <= k < i ==> s@[k] != c,
        decreases n - i,
    {
        if s.get_char(i) == c {
            proof {
                lemma_find_char_at(s@, c, i as int);
            }
            return Some(i);
        }
        i = i + 1;
    }
    proof {
        lemma_find_char_none(s@, c);
    }
    None
}

/// Index of the last occurrence of `c`, or -1 if there is none.
pub open spec fn rfind_char(s: Seq<char>, c: char) -> int
    decreases s.len(),
{
    if s.len() == 0 {
        -1
    } else if s[s.len() - 1] == c {
        s.len() - 1
    } else {
        rfind_char(s.drop_last(), c)
    }
}

pub proof fn lemma_rfind_char_at(s: Seq<char>, c: char, i: int)
    requires
        0 <= i < s.len(),
        s[i] == c,
        forall|k: int| i < k < s.len() ==> s[k] != c,
    ensures
        rfind_char(s, c) == i,
    decreases s.len(),
{
    if i < s.len() - 1 {
        lemma_rfind_char_at(s.drop_last(), c, i);
    }
}

pub proof fn lemma_rfind_char_none(s: Seq<char>, c: char)
    requires
        forall|k: int| 0 <= k < s.len() ==> s[k] != c,
    ensures
        rfind_char(s, c) == -1,
    decreases s.len(),
{
    if s.len() > 0 {
        lemma_rfind_char_none(s.drop_last(), c);
    }
}

pub proof fn lemma_rfind_char_props(s: Seq<char>, c: char)
    ensures
        -1 <= rfind_char(s, c) < s.len(),
        rfind_char(s, c) >= 0 ==> s[rfind_char(s, c)] == c,
        rfind_char(s, c) == -1 ==> forall|k: int| 0 <= k < s.len() ==> s[k] != c,
    decreases s.len(),
{
    if s.len() > 0 && s[s.len() - 1] != c {
        let t = s.drop_last();
        lemma_rfind_char_props(t, c);
        if rfind_char(t, c) == -1 {
            assert forall|k: int| 0 <= k < s.len() implies s[k] != c by {
                if k < s.len() - 1 {
                    assert(t[k] == s[k]);
                }
            }
        } else {
            assert(t[rfind_char(t, c)] == s[rfind_char(t, c)]);
        }
    }
}

/// Last index of `c` in `s`, if any.
pub fn find_last(s: &str, c: char) -> (r: Option<usize>)
    ensures
        match r {
            Some(i) => rfind_char(s@, c) == i as int,
            None => rfind_char(s@, c) == -1,
        },
{
    let n = s.unicode_len();
    let mut j: usize = n;
    while j > 0
        invariant
            0 <= j <= n,
            n == s@.len(),
            forall|k: int| j <= k < n ==> s@[k] != c,
        decreases j,
    {
        j = j - 1;
        if s.get_char(j) == c {
            proof {
                lemma_rfind_char_at(s@, c, j as int);
            }
            return Some(j);
        }
    }
    proof {
        lemma_rfind_char_none(s@, c);
    }
    None
}

/// `pat` occurs in `s` at position `i`.
pub open spec fn has_sub_at(s: Seq<char>, pat: Seq<char>, i: int) -> bool {
    0 <= i && i + pat.len() <= s.len() && s.subrange(i, i + pat.len() as int) == pat
}

/// `pat` occurs somewhere in `s`.
pub open spec fn contains_sub(s: Seq<char>, pat: Seq<char>) -> bool {
    exists|i: int| has_sub_at(s, pat, i)
}

/// Position of the first occurrence of `pat` in `s`, or -1.
pub open spec fn find_sub(s: Seq<char>, pat: Seq<char>) -> int
    decreases s.len(),
{
    if pat.len() > s.len() {
        -1
    } else if s.subrange(0, pat.len() as int) == pat {
        0
    } else if s.len() == 0 {
        -1
    } else if find_sub(s.drop_first(), pat) < 0 {
        -1
    } else {
        1 + find_sub(s.drop_first(), pat)
    }
}

proof fn lemma_has_sub_at_drop_first(s: Seq<char>, pat: Seq<char>, i: int)
    requires
        1 <= i,
        s.len() > 0,
    ensures
        has_sub_at(s, pat, i) == has_sub_at(s.drop_first(), pat, i - 1),
{
    if 0 <= i - 1 && i - 1 + pat.len() <= s.drop_first().len() {
        assert(s.subrange(i, i + pat.len() as int) =~= s.drop_first().subrange(
            i - 1,
            i - 1 + pat.len() as int,
        ));
    }
}

pub proof fn lemma_find_sub_at(s: Seq<char>, pat: Seq<char>, i: int)
    requires
        has_sub_at(s, pat, i),
        forall|k: int| 0 <= k < i ==> !has_sub_at(s, pat, k),
    ensures
        find_sub(s, pat) == i,
    decreases i,
{
    if i == 0 {
    } else {
        assert(!has_sub_at(s, pat, 0));
        assert(s.subrange(0, pat.len() as int) != pat);
        lemma_has_sub_at_drop_first(s, pat, i);
        assert forall|k: int| 0 <= k < i - 1 implies !has_sub_at(s.drop_first(), pat, k) by {
            lemma_has_sub_at_drop_first(s, pat, k + 1);
        }
        lemma_find_sub_at(s.drop_first(), pat, i - 1);
    }
}

pub proof fn lemma_find_sub_none(s: Seq<char>, pat: Seq<char>)
    requires
        forall|k: int| !has_sub_at(s, pat, k),
    ensures
        find_sub(s, pat) == -1,
    decreases s.len(),
{
    assert(!has_sub_at(s, pat, 0));
    if pat.len() <= s.len() {
        assert(s.subrange(0, pat.len() as int) != pat);
        if s.len() > 0 {
            assert forall|k: int| !has_sub_at(s.drop_first(), pat, k) by {
                if k >= 0 {
                    lemma_has_sub_at_drop_first(s, pat, k + 1);
                }
            }
            lemma_find_sub_none(s.drop_first(), pat);
        }
    }
}

pub proof fn lemma_find_sub_props(s: Seq<char>, pat: Seq<char>)
    ensures
        find_sub(s, pat) >= 0 ==> has_sub_at(s, pat, find_sub(s, pat)) && forall|k: int|
            0 <= k < find_sub(s, pat) ==> !has_sub_at(s, pat, k),
        find_sub(s, pat) == -1 ==> !contains_sub(s, pat),
        find_sub(s, pat) >= -1,
    decreases s.len(),
{
    if pat.len() > s.len() {
        assert forall|i: int| !has_sub_at(s, pat, i) by {}
    } else if s.subrange(0, pat.len() as int) == pat {
    } else if s.len() == 0 {
        assert(pat.len() == 0);
        assert(s.subrange(0, pat.len() as int) =~= pat);
    } else {
        lemma_find_sub_props(s.drop_first(), pat);
        let r = find_sub(s.drop_first(), pat);
        if r < 0 {
            assert forall|i: int| !has_sub_at(s, pat, i) by {
                if i == 0 {
                } else if i >= 1 {
                    lemma_has_sub_at_drop_first(s, pat, i);
                }
            }
        } else {
            lemma_has_sub_at_drop_first(s, pat, r + 1);
            assert forall|k: int| 0 <= k < r + 1 implies !has_sub_at(s, pat, k) by {
                if k >= 1 {
                    lemma_has_sub_at_drop_first(s, pat, k);
                }
            }
        }
    }
}

/// Does `pat` occur in `s` starting at `i`?
pub fn match_at(s: &str, pat: &str, i: usize) -> (r: bool)
    ensures
        r == has_sub_at(s@, pat@, i as int),
{
    let n = s.unicode_len();
    let m = pat.unicode_len();
    if i > n || m > n - i {
        return false;
    }
    let mut k: usize = 0;
    while k < m
        invariant
            0 <= k <= m,
            i + m <= n,
            n == s@.len(),
            m == pat@.len(),
            forall|t: int| 0 <= t < k ==> s@[i + t] == pat@[t],
        decreases m - k,
    {
        if s.get_char(i + k) != pat.get_char(k) {
            proof {
                if has_sub_at(s@, pat@, i as int) {
                    assert(s@.subrange(i as int, i + m as int)[k as int] == s@[i + k]);
                }
            }
            return false;
        }
        k = k + 1;
    }
    proof {
        assert(s@.subrange(i as int, i + m as int) =~= pat@);
    }
    true
}

/// Position of the first occurrence of `pat` in `s`, if any.
pub fn find_text(s: &str, pat: &str) -> (r: Option<usize>)
    ensures
        match r {
            Some(i) => find_sub(s@, pat@) == i as int,
            None => find_sub(s@, pat@) == -1,
        },
{
    let n = s.unicode_len();
    let m = pat.unicode_len();
    if m > n {
        proof {
            assert forall|k: int| !has_sub_at(s@, pat@, k) by {}
            lemma_find_sub_none(s@, pat@);
        }
        return None;
    }
    if m == 0 {
        proof {
            assert(s@.subrange(0, 0) =~= pat@);
            assert(has_sub_at(s@, pat@, 0));
            lemma_find_sub_at(s@, pat@, 0);
        }
        return Some(0);
    }
    let mut i: usize = 0;
    while i <= n - m
        invariant
            0 <= i <= n - m + 1,
            0 < m <= n,
            n == s@.len(),
            m == pat@.len(),
            forall|t: int| 0 <= t < i ==> !has_sub_at(s@, pat@, t),
        decreases n - i,
    {
        if match_at(s, pat, i) {
            proof {
                lemma_find_sub_at(s@, pat@, i as int);
            }
            return Some(i);
        }
        i = i + 1;
    }
    proof {
        assert forall|t: int| !has_sub_at(s@, pat@, t) by {}
        lemma_find_sub_none(s@, pat@);
    }
    None
}

/// Does `pat` occur anywhere in `s`?
pub fn contains_text(s: &str, pat: &str) -> (r: bool)
    ensures
        r == contains_sub(s@, pat@),
{
    let r = find_text(s, pat);
    proof {
        lemma_find_sub_props(s@, pat@);
    }
    r.is_some()
}

/// Does `s` start with `pat`?
pub fn starts_with_text(s: &str, pat: &str) -> (r: bool)
    ensures
        r == pat@.is_prefix_of(s@),
{
    match_at(s, pat, 0)
}

/// Does `s` end with `pat`?
pub fn ends_with_text(s: &str, pat: &str) -> (r: bool)
    ensures
        r == pat@.is_suffix_of(s@),
{
    let n = s.unicode_len();
    let m = pat.unicode_len();
    if m > n {
        return false;
    }
    let r = match_at(s, pat, n - m);
    proof {
        if r {
            assert(pat@.is_suffix_of(s@));
        }
        if pat@.is_suffix_of(s@) {
            assert(has_sub_at(s@, pat@, n - m as int));
        }
    }
    r
}

/// Are the two texts equal, character for character?
pub fn eq_text(a: &str, b: &str) -> (r: bool)
    ensures
        r == (a@ == b@),
{
    let n = a.unicode_len();
    if n != b.unicode_len() {
        return false;
    }
    let mut i: usize = 0;
    while i < n
        invariant
            0 <= i <= n,
            n == a@.len(),
            n == b@.len(),
            forall|k: int| 0 <= k < i ==> a@[k] == b@[k],
        decreases n - i,
    {
        if a.get_char(i) != b.get_char(i) {
            return false;
        }
        i = i + 1;
    }
    proof {
        assert(a@ =~= b@);
    }
    true
}

/// ASCII lower-casing of one character.
pub open spec fn lower_char_spec(c: char) -> char {
    if 'A' <= c && c <= 'Z' {
        (((c as u8) + 32) as char)
    } else {
        c
    }
}

/// ASCII lower-casing of a text, character by character.
pub open spec fn fold_lower(s: Seq<char>) -> Seq<char> {
    s.map_values(|c: char| lower_char_spec(c))
}

/// Is every character ASCII?
pub open spec fn all_ascii(s: Seq<char>) -> bool {
    forall|k: int| 0 <= k < s.len() ==> (#[trigger] s[k] as u32) < 128
}

/// What Unicode lower-casing returns for a text: a function of the
/// characters alone, whose full definition is the Unicode case mappings.
pub uninterp spec fn lower_of(s: Seq<char>) -> Seq<char>;

/// The case folding the library matches under: Unicode lower-casing,
/// which on an ASCII text folds each character to its ASCII lowercase.
pub open spec fn fold_case(s: Seq<char>) -> Seq<char> {
    if all_ascii(s) {
        fold_lower(s)
    } else {
        lower_of(s)
    }
}

/// Relies on `str::to_lowercase`: the Unicode lowercase equivalent of the
/// text, which depends on the characters alone; on ASCII text the Unicode
/// mappings fold each character to its ASCII lowercase and leave every
/// other ASCII character unchanged.
#[verifier::external_body]
pub(crate) fn lowercase(s: &str) -> (r: String)
    ensures
        r@ == fold_case(s@),
        !all_ascii(s@) ==> r@ == lower_of(s@),
{
    s.to_lowercase()
}

/// Does `pat` occur anywhere in `s`, compared under the case folding?
pub fn contains_fold(s: &str, pat: &str) -> (r: bool)
    ensures
        r == contains_sub(fold_case(s@), fold_case(pat@)),
{
    let sf = lowercase(s);
    let pf = lowercase(pat);
    contains_text(sf.as_str(), pf.as_str())
}

/// Relies on std's `String::push`, which appends the given character to the
/// end of the string.
#[verifier::external_body]
pub fn push_char(s: &mut String, c: char)
    ensures
        final(s)@ == old(s)@.push(c),
{
    s.push(c);
}

/// Length of the maximal non-white-space prefix.
pub open spec fn word_len(s: Seq<char>) -> int
    decreases s.len(),
{
    if s.len() == 0 {
        0
    } else if is_wspace(s[0]) {
        0
    } else {
        1 + word_len(s.drop_first())
    }
}

pub proof fn lemma_word_len_props(s: Seq<char>)
    ensures
        0 <= word_len(s) <= s.len(),
        forall|k: int| 0 <= k < word_len(s) ==> !is_wspace(s[k]),
        word_len(s) < s.len() ==> is_wspace(s[word_len(s)]),
    decreases s.len(),
{
    if s.len() > 0 && !is_wspace(s[0]) {
        let t = s.drop_first();
        lemma_word_len_props(t);
        assert forall|k: int| 0 <= k < word_len(s) implies !is_wspace(s[k]) by {
            if k > 0 {
                assert(t[k - 1] == s[k]);
            }
        }
        if word_len(s) < s.len() {
            assert(t[word_len(t)] == s[word_len(s)]);
        }
    }
}

pub proof fn lemma_word_len_at(s: Seq<char>, k: int)
    requires
        0 <= k <= s.len(),
        forall|t: int| 0 <= t < k ==> !is_wspace(s[t]),
        k < s.len() ==> is_wspace(s[k]),
    ensures
        word_len(s) == k,
    decreases k,
{
    if k == 0 {
    } else {
        let t = s.drop_first();
        assert forall|j: int| 0 <= j < k - 1 implies !is_wspace(t[j]) by {
            assert(t[j] == s[j + 1]);
        }
        if k - 1 < t.len() {
            assert(t[k - 1] == s[k]);
        }
        lemma_word_len_at(t, k - 1);
    }
}

/// The white-space-separated words of `s`, in order, each non-empty.
pub open spec fn split_ws(s: Seq<char>) -> Seq<Seq<char>>
    decreases s.len(),
    via split_ws_via
{
    if s.len() == 0 {
        Seq::empty()
    } else if is_wspace(s[0]) {
        split_ws(s.drop_first())
    } else {
        seq![s.subrange(0, word_len(s))] + split_ws(s.subrange(word_len(s), s.len() as int))
    }
}

#[via_fn]
proof fn split_ws_via(s: Seq<char>) {
    if s.len() > 0 && !is_wspace(s[0]) {
        lemma_word_len_props(s);
    }
}

/// The white-space-separated words of `s`, as owned strings.
pub fn split_whitespace_vec(s: &str) -> (r: Vec<String>)
    ensures
        r.deep_view() == split_ws(s@),
{
    let n = s.unicode_len();
    let mut acc: Vec<String> = Vec::new();
    let mut pos: usize = 0;
    proof {
        assert(s@.subrange(0, n as int) =~= s@);
        assert(acc.deep_view() + split_ws(s@.subrange(0, n as int)) =~= split_ws(s@));
    }
    while pos < n
        invariant
            0 <= pos <= n,
            n == s@.len(),
            acc.deep_view() + split_ws(s@.subrange(pos as int, n as int)) == split_ws(s@),
        decreases n - pos,
    {
        let ghost u = s@.subrange(pos as int, n as int);
        if wspace(s.get_char(pos)) {
            proof {
                assert(u[0] == s@[pos as int]);
                assert(u.drop_first() =~= s@.subrange(pos as int + 1, n as int));
                assert(split_ws(u) == split_ws(s@.subrange(pos as int + 1, n as int)));
            }
            pos = pos + 1;
        } else {
            let mut e: usize = pos;
            while e < n && !wspace(s.get_char(e))
                invariant
                    pos <= e <= n,
                    n == s@.len(),
                    forall|k: int| pos <= k < e ==> !is_wspace(s@[k]),
                decreases n - e,
            {
                e = e + 1;
            }
            let word = s.substring_char(pos, e).to_owned();
            proof {
                assert forall|t: int| 0 <= t < e - pos implies !is_wspace(u[t]) by {
                    assert(u[t] == s@[pos + t]);
                }
                if e < n {
                    assert(u[e - pos] == s@[e as int]);
                }
                lemma_word_len_at(u, e - pos);
                assert(u.subrange(0, e - pos) =~= s@.subrange(pos as int, e as int));
                assert(u.subrange(e - pos, u.len() as int) =~= s@.subrange(e as int, n as int));
                assert(split_ws(u) == seq![s@.subrange(pos as int, e as int)] + split_ws(
                    s@.subrange(e as int, n as int),
                ));
            }
            let ghost old_dv = acc.deep_view();
            acc.push(word);
            proof {
                assert(acc.deep_view() =~= old_dv.push(word@));
                assert(acc.deep_view() + split_ws(s@.subrange(e as int, n as int)) =~= split_ws(
                    s@,
                ));
            }
            pos = e;
        }
    }
    proof {
        assert(s@.subrange(n as int, n as int) =~= Seq::<char>::empty());
        assert(acc.deep_view() + split_ws(s@.subrange(n as int, n as int)) =~= acc.deep_view());
    }
    acc
}

/// A line with one trailing carriage return removed.
pub open spec fn strip_cr(s: Seq<char>) -> Seq<char> {
    if s.len() > 0 && s[s.len() - 1] == '\r' {
        s.drop_last()
    } else {
        s
    }
}

/// The lines of `s`: split at newlines, each with a trailing carriage
/// return removed, with no final empty line for a trailing newline.
pub open spec fn lines_spec(s: Seq<char>) -> Seq<Seq<char>>
    decreases s.len(),
    via lines_via
{
    if s.len() == 0 {
        Seq::empty()
    } else if find_char(s, '\n') < 0 {
        seq![strip_cr(s)]
    } else {
        seq![strip_cr(s.subrange(0, find_char(s, '\n')))] + lines_spec(
            s.subrange(find_char(s, '\n') + 1, s.len() as int),
        )
    }
}

#[via_fn]
proof fn lines_via(s: Seq<char>) {
    if s.len() > 0 {
        lemma_find_char_props(s, '\n');
    }
}

/// The lines of `s`, as owned strings.
pub fn split_lines(s: &str) -> (r: Vec<String>)
    ensures
        r.deep_view() == lines_spec(s@),
{
    let n = s.unicode_len();
    let mut acc: Vec<String> = Vec::new();
    let mut pos: usize = 0;
    proof {
        assert(s@.subrange(0, n as int) =~= s@);
        assert(acc.deep_view() + lines_spec(s@.subrange(0, n as int)) =~= lines_spec(s@));
    }
    while pos < n
        invariant
            0 <= pos <= n,
            n == s@.len(),
            acc.deep_view() + lines_spec(s@.subrange(pos as int, n as int)) == lines_spec(s@),
        decreases n - pos,
    {
        let ghost u = s@.subrange(pos as int, n as int);
        let mut e: usize = pos;
        while e < n && s.get_char(e) != '\n'
            invariant
                pos <= e <= n,
                n == s@.len(),
                forall|k: int| pos <= k < e ==> s@[k] != '\n',
            decreases n - e,
        {
            e = e + 1;
        }
        let line = if e > pos && s.get_char(e - 1) == '\r' {
            s.substring_char(pos, e - 1).to_owned()
        } else {
            s.substring_char(pos, e).to_owned()
        };
        let ghost seg = s@.subrange(pos as int, e as int);
        proof {
            assert(u.subrange(0, e - pos) =~= seg);
            if e > pos && s@[e - 1] == '\r' {
                assert(seg.drop_last() =~= s@.subrange(pos as int, e - 1));
                assert(line@ == strip_cr(seg));
            } else {
                assert(line@ == strip_cr(seg));
            }
        }
        let ghost old_dv = acc.deep_view();
        acc.push(line);
        proof {
            assert(acc.deep_view() =~= old_dv.push(strip_cr(seg)));
        }
        if e < n {
            proof {
                assert forall|t: int| 0 <= t < e - pos implies u[t] != '\n' by {
                    assert(u[t] == s@[pos + t]);
                }
                assert(u[e - pos] == s@[e as int]);
                lemma_find_char_at(u, '\n', e - pos);
                assert(u.subrange(e - pos + 1, u.len() as int) =~= s@.subrange(
                    e as int + 1,
                    n as int,
                ));
                assert(lines_spec(u) == seq![strip_cr(seg)] + lines_spec(
                    s@.subrange(e as int + 1, n as int),
                ));
                assert(acc.deep_view() + lines_spec(s@.subrange(e as int + 1, n as int))
                    =~= lines_spec(s@));
            }
            pos = e + 1;
        } else {
            proof {
                assert forall|t: int| 0 <= t < u.len() implies u[t] != '\n' by {
                    assert(u[t] == s@[pos + t]);
                }
                lemma_find_char_none(u, '\n');
                assert(u.subrange(0, u.len() as int) =~= u);
                assert(lines_spec(u) =~= seq![strip_cr(seg)]);
                assert(acc.deep_view() + lines_spec(s@.subrange(n as int, n as int))
                    =~= lines_spec(s@));
            }
            pos = n;
        }
    }
    proof {
        assert(s@.subrange(n as int, n as int) =~= Seq::<char>::empty());
        assert(acc.deep_view() + lines_spec(s@.subrange(n as int, n as int)) =~= acc.deep_view());
    }
    acc
}

/// The numeric value of a decimal digit character, or -1.
pub open spec fn digit_val(c: char) -> int {
    if c == '0' {
        0
    } else if c == '1' {
        1
    } else if c == '2' {
        2
    } else if c == '3' {
        3
    } else if c == '4' {
        4
    } else if c == '5' {
        5
    } else if c == '6' {
        6
    } else if c == '7' {
        7
    } else if c == '8' {
        8
    } else if c == '9' {
        9
    } else {
        -1
    }
}

/// Is every character of `t` a decimal digit?
pub open spec fn all_digits(t: Seq<char>) -> bool {
    forall|k: int| 0 <= k < t.len() ==> digit_val(#[trigger] t[k]) >= 0
}

/// The value of a digit string, most significant first.
pub open spec fn digits_val(t: Seq<char>) -> int
    decreases t.len(),
{
    if t.len() == 0 {
        0
    } else {
        digits_val(t.drop_last()) * 10 + digit_val(t.last())
    }
}

/// What parsing an unsigned number accepts: an optional leading plus
/// sign, then one or more digits, with a value that fits.
pub open spec fn parse_usize_spec(s: Seq<char>) -> Option<int> {
    let t = if s.len() > 0 && s[0] == '+' {
        s.drop_first()
    } else {
        s
    };
    if t.len() == 0 {
        Option::<int>::None
    } else if !all_digits(t) {
        Option::<int>::None
    } else if digits_val(t) > usize::MAX {
        Option::<int>::None
    } else {
        Option::Some(digits_val(t))
    }
}

proof fn lemma_digits_val_grows(t: Seq<char>, k: int)
    requires
        0 <= k <= t.len(),
        digits_val(t.subrange(0, k)) >= 0,
        forall|j: int| k <= j < t.len() ==> digit_val(#[trigger] t[j]) >= 0,
    ensures
        digits_val(t) >= digits_val(t.subrange(0, k)),
    decreases t.len() - k,
{
    if k == t.len() {
        assert(t.subrange(0, k) =~= t);
    } else {
        let p = t.subrange(0, k);
        let q = t.subrange(0, k + 1);
        assert(q.drop_last() =~= p);
        assert(q.last() == t[k]);
        assert(digits_val(q) == digits_val(p) * 10 + digit_val(t[k]));
        assert(digits_val(q) >= digits_val(p));
        lemma_digits_val_grows(t, k + 1);
    }
}

fn digit_of(c: char) -> (r: Option<usize>)
    ensures
        match r {
            Some(d) => digit_val(c) == d as int && d < 10,
            None => digit_val(c) == -1,
        },
{
    if c == '0' {
        Some(0)
    } else if c == '1' {
        Some(1)
    } else if c == '2' {
        Some(2)
    } else if c == '3' {
        Some(3)
    } else if c == '4' {
        Some(4)
    } else if c == '5' {
        Some(5)
    } else if c == '6' {
        Some(6)
    } else if c == '7' {
        Some(7)
    } else if c == '8' {
        Some(8)
    } else if c == '9' {
        Some(9)
    } else {
        None
    }
}

/// Parse an unsigned decimal number: an optional leading plus sign, then
/// one or more digits, failing on any other character or on overflow.
#[verifier::rlimit(50)]
pub fn parse_usize(s: &str) -> (r: Option<usize>)
    ensures
        match r {
            Some(v) => parse_usize_spec(s@) == Option::Some(v as int),
            None => parse_usize_spec(s@) is None,
        },
{
    let n = s.unicode_len();
    let mut i: usize = 0;
    if n > 0 && s.get_char(0) == '+' {
        i = 1;
    }
    let ghost i0 = i as int;
    let ghost t = if s@.len() > 0 && s@[0] == '+' {
        s@.drop_first()
    } else {
        s@
    };
    proof {
        assert(t =~= s@.subrange(i0, n as int));
    }
    if i == n {
        return None;
    }
    let mut acc: usize = 0;
    while i < n
        invariant
            i0 <= i <= n,
            i0 == 0 || i0 == 1,
            n == s@.len(),
            n > i0,
            t == (if s@.len() > 0 && s@[0] == '+' {
                s@.drop_first()
            } else {
                s@
            }),
            t =~= s@.subrange(i0, n as int),
            t.len() == n - i0,
            forall|k: int| 0 <= k < i - i0 ==> digit_val(#[trigger] t[k]) >= 0,
            acc == digits_val(t.subrange(0, i - i0)),
        decreases n - i,
    {
        let c = s.get_char(i);
        proof {
            assert(t[i - i0] == s@[i as int]);
        }
        let d = match digit_of(c) {
            Some(d) => d,
            None => {
                proof {
                    assert(!all_digits(t));
                }
                return None;
            },
        };
        proof {
            assert(t.subrange(0, i - i0 + 1).drop_last() =~= t.subrange(0, i - i0));
            assert(t.subrange(0, i - i0 + 1).last() == t[i - i0]);
        }
        if acc > usize::MAX / 10 || (acc == usize::MAX / 10 && d > usize::MAX % 10) {
            proof {
                let p = t.subrange(0, i - i0 + 1);
                assert(digits_val(p) == acc * 10 + d as int);
                assert(digits_val(p) > usize::MAX);
                if all_digits(t) {
                    lemma_digits_val_grows(t, i - i0 + 1);
                    assert(digits_val(t) > usize::MAX);
                }
            }
            return None;
        }
        acc = acc * 10 + d;
        i = i + 1;
    }
    proof {
        assert(t.subrange(0, n - i0) =~= t);
    }
    Some(acc)
}

/// How many positions of `s` start an occurrence of `pat`. For a pattern
/// that cannot overlap itself this equals the count of disjoint
/// occurrences.
pub open spec fn count_occ(s: Seq<char>, pat: Seq<char>) -> int
    decreases s.len(),
{
    if s.len() == 0 {
        0
    } else {
        (if has_sub_at(s, pat, 0) {
            1int
        } else {
            0int
        }) + count_occ(s.drop_first(), pat)
    }
}

proof fn lemma_count_occ_step(s: Seq<char>, pat: Seq<char>, i: int)
    requires
        0 <= i < s.len(),
    ensures
        count_occ(s.subrange(i, s.len() as int), pat) == (if has_sub_at(s, pat, i) {
            1int
        } else {
            0int
        }) + count_occ(s.subrange(i + 1, s.len() as int), pat),
{
    let u = s.subrange(i, s.len() as int);
    assert(u.drop_first() =~= s.subrange(i + 1, s.len() as int));
    if has_sub_at(u, pat, 0) {
        assert(u.subrange(0, pat.len() as int) =~= s.subrange(i, i + pat.len() as int));
        assert(has_sub_at(s, pat, i));
    }
    if has_sub_at(s, pat, i) {
        assert(s.subrange(i, i + pat.len() as int) =~= u.subrange(0, pat.len() as int));
        assert(has_sub_at(u, pat, 0));
    }
}

/// The occurrence count is non-negative, and positive exactly when the
/// (non-empty) pattern occurs somewhere.
pub proof fn lemma_count_occ_contains(s: Seq<char>, pat: Seq<char>)
    requires
        pat.len() > 0,
    ensures
        count_occ(s, pat) >= 0,
        (count_occ(s, pat) > 0) <==> contains_sub(s, pat),
    decreases s.len(),
{
    if s.len() == 0 {
        assert(!contains_sub(s, pat)) by {
            if contains_sub(s, pat) {
                let i = choose|i: int| has_sub_at(s, pat, i);
                assert(i + pat.len() <= s.len());
            }
        }
    } else {
        let t = s.drop_first();
        lemma_count_occ_contains(t, pat);
        if count_occ(s, pat) > 0 {
            if has_sub_at(s, pat, 0) {
                assert(contains_sub(s, pat));
            } else {
                assert(count_occ(t, pat) > 0);
                let i = choose|i: int| has_sub_at(t, pat, i);
                lemma_has_sub_at_drop_first(s, pat, i + 1);
                assert(has_sub_at(s, pat, i + 1));
                assert(contains_sub(s, pat));
            }
        }
        if contains_sub(s, pat) {
            let i = choose|i: int| has_sub_at(s, pat, i);
            if i == 0 {
                assert(count_occ(s, pat) > 0);
            } else {
                lemma_has_sub_at_drop_first(s, pat, i);
                assert(has_sub_at(t, pat, i - 1));
                assert(contains_sub(t, pat));
                assert(count_occ(s, pat) > 0);
            }
        }
    }
}

/// Count the positions of `s` where `pat` occurs.
pub fn count_text(s: &str, pat: &str) -> (r: usize)
    ensures
        r as int == count_occ(s@, pat@),
{
    let n = s.unicode_len();
    let mut count: usize = 0;
    let mut i: usize = 0;
    proof {
        assert(s@.subrange(0, n as int) =~= s@);
    }
    while i < n
        invariant
            0 <= i <= n,
            n == s@.len(),
            count <= i,
            count + count_occ(s@.subrange(i as int, n as int), pat@) == count_occ(s@, pat@),
        decreases n - i,
    {
        proof {
            lemma_count_occ_step(s@, pat@, i as int);
        }
        if match_at(s, pat, i) {
            count = count + 1;
        }
        i = i + 1;
    }
    proof {
        assert(s@.subrange(n as int, n as int) =~= Seq::<char>::empty());
    }
    count
}

/// How many distinct entries the sequence holds.
pub open spec fn distinct_count(ws: Seq<Seq<char>>) -> int
    decreases ws.len(),
{
    if ws.len() == 0 {
        0
    } else {
        distinct_count(ws.drop_last()) + (if ws.drop_last().contains(ws.last()) {
            0int
        } else {
            1int
        })
    }
}

/// Count the distinct entries of `words`.
pub fn count_distinct(words: &Vec<String>) -> (r: usize)
    ensures
        r as int == distinct_count(words.deep_view()),
{
    let ghost dv = words.deep_view();
    let n = words.len();
    let mut count: usize = 0;
    let mut i: usize = 0;
    proof {
        assert(dv.subrange(0, 0) =~= Seq::<Seq<char>>::empty());
    }
    while i < n
        invariant
            0 <= i <= n,
            n == words@.len(),
            dv == words.deep_view(),
            dv.len() == n,
            count <= i,
            count as int == distinct_count(dv.subrange(0, i as int)),
        decreases n - i,
    {
        let ghost p = dv.subrange(0, i as int);
        proof {
            assert(words@[i as int]@ == dv[i as int]);
            assert(dv.subrange(0, i + 1).drop_last() =~= p);
            assert(dv.subrange(0, i + 1).last() == dv[i as int]);
        }
        let mut seen = false;
        let mut j: usize = 0;
        while j < i
            invariant
                0 <= j <= i,
                i < n,
                n == words@.len(),
                dv == words.deep_view(),
                dv.len() == n,
                p == dv.subrange(0, i as int),
                seen ==> p.contains(dv[i as int]),
                !seen ==> forall|k: int| 0 <= k < j ==> dv[k] != dv[i as int],
            decreases i - j,
        {
            proof {
                assert(words@[j as int]@ == dv[j as int]);
            }
            if eq_text(words[j].as_str(), words[i].as_str()) {
                proof {
                    assert(p[j as int] == dv[j as int]);
                }
                seen = true;
            }
            j = j + 1;
        }
        if !seen {
            proof {
                assert forall|k: int| 0 <= k < p.len() implies p[k] != dv[i as int] by {
                    assert(p[k] == dv[k]);
                }
                assert(!p.contains(dv[i as int]));
            }
            count = count + 1;
        } else {
            proof {
                assert(p.contains(dv[i as int]));
            }
        }
        proof {
            assert(count as int == distinct_count(dv.subrange(0, i + 1)));
        }
        i = i + 1;
    }
    proof {
        assert(dv.subrange(0, n as int) =~= dv);
    }
    count
}

/// The character for one decimal digit.
pub open spec fn dec_digit(d: int) -> char {
    if d == 0 {
        '0'
    } else if d == 1 {
        '1'
    } else if d == 2 {
        '2'
    } else if d == 3 {
        '3'
    } else if d == 4 {
        '4'
    } else if d == 5 {
        '5'
    } else if d == 6 {
        '6'
    } else if d == 7 {
        '7'
    } else if d == 8 {
        '8'
    } else {
        '9'
    }
}

/// The decimal rendering of a non-negative integer.
pub open spec fn dec_str(n: int) -> Seq<char>
    decreases n,
{
    if n < 10 {
        seq![dec_digit(n)]
    } else {
        dec_str(n / 10).push(dec_digit(n % 10))
    }
}

fn digit_exec(d: usize) -> (r: char)
    requires
        d < 10,
    ensures
        r == dec_digit(d as int),
{
    if d == 0 {
        '0'
    } else if d == 1 {
        '1'
    } else if d == 2 {
        '2'
    } else if d == 3 {
        '3'
    } else if d == 4 {
        '4'
    } else if d == 5 {
        '5'
    } else if d == 6 {
        '6'
    } else if d == 7 {
        '7'
    } else if d == 8 {
        '8'
    } else {
        '9'
    }
}

/// The decimal rendering of `n`.
pub fn fmt_usize(n: usize) -> (r: String)
    ensures
        r@ == dec_str(n as int),
{
    let mut digits: Vec<char> = Vec::new();
    let mut m: usize = n;
    proof {
        assert(dec_str(n as int) =~= dec_str(n as int) + digits@.reverse());
    }
    loop
        invariant_except_break
            dec_str(n as int) == dec_str(m as int) + digits@.reverse(),
        ensures
            dec_str(n as int) == digits@.reverse(),
        decreases m,
    {
        let ghost old_digits = digits@;
        let ghost old_m = m as int;
        let d = m % 10;
        digits.push(digit_exec(d));
        m = m / 10;
        proof {
            let c = dec_digit(old_m % 10);
            assert((old_digits.push(c)).reverse() =~= seq![c] + old_digits.reverse());
            if old_m < 10 {
                assert(dec_str(old_m) == seq![dec_digit(old_m)]);
                assert(old_m % 10 == old_m);
                assert(dec_str(n as int) =~= digits@.reverse());
            } else {
                assert(dec_str(old_m) == dec_str(old_m / 10).push(c));
                assert(dec_str(old_m / 10).push(c) + old_digits.reverse() =~= dec_str(
                    old_m / 10,
                ) + (seq![c] + old_digits.reverse()));
            }
        }
        if m == 0 {
            break;
        }
    }
    let mut out = String::new();
    let mut i: usize = digits.len();
    while i > 0
        invariant
            0 <= i <= digits@.len(),
            out@.len() == digits@.len() - i,
            forall|k: int| 0 <= k < out@.len() ==> out@[k] == digits@[digits@.len() - 1 - k],
        decreases i,
    {
        i = i - 1;
        push_char(&mut out, digits[i]);
    }
    proof {
        assert(out@ =~= digits@.reverse());
    }
    out
}

} // verus!


//! Text as sequences of characters: the searching, trimming, splitting and joining that
//! the rest of the library states its results with.

use vstd::prelude::*;

verus! {

/// `String::push` appends the character to the end of the string.
pub assume_specification[ String::push ](s: &mut String, c: char)
    ensures
        final(s)@ == old(s)@.push(c),
;

/// What `{:?}` prints for a string.
pub uninterp spec fn debug_text(s: Seq<char>) -> Seq<char>;

/// `format!("{:?}")` on a string: the quoted, escaped form, which the characters alone decide.
#[verifier::external_body]
pub(crate) fn debug_string(s: &str) -> (r: String)
    ensures
        r@ == debug_text(s@),
{
    format!("{:?}", s)
}

/// The characters of a string, in order.
pub fn chars_of(s: &str) -> (r: Vec<char>)
    ensures
        r@ == s@,
{
    let mut out: Vec<char> = Vec::new();
    for c in it: s.chars()
        invariant
            it.seq() == s@,
            out@ == it.seq().take(it.index()),
    {
        out.push(c);
        proof {
            assert(it.seq().take(it.index() + 1) =~= it.seq().take(it.index()).push(c));
        }
    }
    proof {
        assert(s@.take(s@.len() as int) =~= s@);
    }
    out
}

/// The string with the given characters.
pub fn string_of(chars: &[char]) -> (r: String)
    ensures
        r@ == chars@,
{
    let mut out = String::new();
    let mut i: usize = 0;
    while i < chars.len()
        invariant
            i <= chars@.len(),
            out@ == chars@.take(i as int),
        decreases chars@.len() - i,
    {
        out.push(chars[i]);
        i += 1;
        proof {
            assert(chars@.take(i as int) =~= chars@.take(i - 1).push(chars@[i - 1]));
        }
    }
    proof {
        assert(chars@.take(i as int) =~= chars@);
    }
    out
}

pub fn same_chars(a: &[char], b: &[char]) -> (r: bool)
    ensures
        r == (a@ == b@),
{
    if a.len() != b.len() {
        return false;
    }
    let mut i: usize = 0;
    while i < a.len()
        invariant
            i <= a@.len(),
            a@.len() == b@.len(),
            forall|j: int| 0 <= j < i ==> a@[j] == b@[j],
        decreases a@.len() - i,
    {
        if a[i] != b[i] {
            return false;
        }
        i += 1;
    }
    proof {
        assert(a@ =~= b@);
    }
    true
}

/// Whether two strings hold the same characters.
pub fn text_eq(a: &str, b: &str) -> (r: bool)
    ensures
        r == (a@ == b@),
{
    let x = chars_of(a);
    let y = chars_of(b);
    same_chars(&x, &y)
}

/// The characters with the Unicode property `White_Space`.
pub open spec fn is_space(c: char) -> bool {
    ||| '\u{9}' <= c <= '\u{d}'
    ||| c == ' '
    ||| c == '\u{85}'
    ||| c == '\u{a0}'
    ||| c == '\u{1680}'
    ||| '\u{2000}' <= c <= '\u{200a}'
    ||| c == '\u{2028}'
    ||| c == '\u{2029}'
    ||| c == '\u{202f}'
    ||| c == '\u{205f}'
    ||| c == '\u{3000}'
}

pub fn char_is_space(c: char) -> (r: bool)
    ensures
        r == is_space(c),
{
    ('\u{9}' <= c && c <= '\u{d}') || c == ' ' || c == '\u{85}' || c == '\u{a0}' || c == '\u{1680}'
        || ('\u{2000}' <= c && c <= '\u{200a}') || c == '\u{2028}' || c == '\u{2029}' || c
        == '\u{202f}' || c == '\u{205f}' || c == '\u{3000}'
}

pub open spec fn is_ascii_letter(c: char) -> bool {
    ('a' <= c <= 'z') || ('A' <= c <= 'Z')
}

pub open spec fn is_ascii_digit(c: char) -> bool {
    '0' <= c <= '9'
}

/// A character of an identifier: an ASCII letter, digit or underscore.
pub open spec fn is_word_char(c: char) -> bool {
    is_ascii_letter(c) || is_ascii_digit(c) || c == '_'
}

pub fn char_is_word(c: char) -> (r: bool)
    ensures
        r == is_word_char(c),
{
    ('a' <= c && c <= 'z') || ('A' <= c && c <= 'Z') || ('0' <= c && c <= '9') || c == '_'
}

/// The ASCII lower case of a character; other characters stand for themselves.
pub open spec fn lower_char(c: char) -> char {
    if 'A' <= c <= 'Z' {
        ((c as u8 + 32) as u8) as char
    } else {
        c
    }
}

pub fn to_lower_char(c: char) -> (r: char)
    ensures
        r == lower_char(c),
{
    if 'A' <= c && c <= 'Z' {
        (c as u8 + 32u8) as char
    } else {
        c
    }
}

pub open spec fn lower_text(s: Seq<char>) -> Seq<char> {
    Seq::new(s.len(), |i: int| lower_char(s[i]))
}

/// `str::to_ascii_lowercase`.
pub fn lower_str(s: &str) -> (r: String)
    ensures
        r@ == lower_text(s@),
{
    let c = chars_of(s);
    let mut out = String::new();
    let mut i: usize = 0;
    while i < c.len()
        invariant
            i <= c@.len(),
            c@ == s@,
            out@ == lower_text(c@.take(i as int)),
        decreases c@.len() - i,
    {
        out.push(to_lower_char(c[i]));
        i += 1;
        proof {
            assert(lower_text(c@.take(i as int)) =~= lower_text(c@.take(i - 1)).push(
                lower_char(c@[i - 1]),
            ));
        }
    }
    proof {
        assert(c@.take(i as int) =~= c@);
    }
    out
}

/// Whether two strings are equal when ASCII case is ignored.
pub fn eq_ignore_case(a: &str, b: &str) -> (r: bool)
    ensures
        r == (lower_text(a@) == lower_text(b@)),
{
    let x = chars_of(a);
    let y = chars_of(b);
    if x.len() != y.len() {
        proof {
            assert(lower_text(a@).len() != lower_text(b@).len());
        }
        return false;
    }
    let mut i: usize = 0;
    while i < x.len()
        invariant
            i <= x@.len(),
            x@.len() == y@.len(),
            forall|j: int| 0 <= j < i ==> lower_char(x@[j]) == lower_char(y@[j]),
            x@ == a@,
            y@ == b@,
        decreases x@.len() - i,
    {
        if to_lower_char(x[i]) != to_lower_char(y[i]) {
            proof {
                assert(lower_text(a@)[i as int] != lower_text(b@)[i as int]);
            }
            return false;
        }
        i += 1;
    }
    proof {
        assert(lower_text(a@) =~= lower_text(b@));
    }
    true
}

/// The text without its leading white space.
pub open spec fn trim_start(s: Seq<char>) -> Seq<char>
    decreases s.len(),
{
    if s.len() > 0 && is_space(s[0]) {
        trim_start(s.skip(1))
    } else {
        s
    }
}

/// The text without its trailing white space.
pub open spec fn trim_end(s: Seq<char>) -> Seq<char>
    decreases s.len(),
{
    if s.len() > 0 && is_space(s.last()) {
        trim_end(s.drop_last())
    } else {
        s
    }
}

/// What is left has no white space at its end.
pub proof fn lemma_trim_end_trims(s: Seq<char>)
    ensures
        trim_end(s).len() > 0 ==> !is_space(trim_end(s).last()),
    decreases s.len(),
{
    if s.len() > 0 && is_space(s.last()) {
        lemma_trim_end_trims(s.drop_last());
    }
}

pub open spec fn trim(s: Seq<char>) -> Seq<char> {
    trim_end(trim_start(s))
}

/// Where the text without its leading white space begins.
pub fn trim_start_index(s: &[char]) -> (r: usize)
    ensures
        r <= s@.len(),
        s@.skip(r as int) == trim_start(s@),
        r < s@.len() ==> !is_space(s@[r as int]),
        forall|j: int| 0 <= j < r ==> is_space(s@[j]),
{
    let mut i: usize = 0;
    proof {
        assert(s@.skip(0) =~= s@);
    }
    while i < s.len()
        invariant
            i <= s@.len(),
            trim_start(s@) == trim_start(s@.skip(i as int)),
            forall|j: int| 0 <= j < i ==> is_space(s@[j]),
        decreases s@.len() - i,
    {
        if !char_is_space(s[i]) {
            return i;
        }
        proof {
            assert(s@.skip(i as int).skip(1) =~= s@.skip(i + 1));
        }
        i += 1;
    }
    i
}

/// Where the text without its trailing white space ends.
pub fn trim_end_index(s: &[char]) -> (r: usize)
    ensures
        r <= s@.len(),
        s@.take(r as int) == trim_end(s@),
        r > 0 ==> !is_space(s@[r - 1]),
{
    let mut i: usize = s.len();
    proof {
        assert(s@.take(i as int) =~= s@);
    }
    while i > 0
        invariant
            i <= s@.len(),
            trim_end(s@) == trim_end(s@.take(i as int)),
        decreases i,
    {
        if !char_is_space(s[i - 1]) {
            return i;
        }
        proof {
            assert(s@.take(i as int).drop_last() =~= s@.take(i - 1));
        }
        i -= 1;
    }
    i
}

/// `str::trim_start`.
pub fn trim_start_str(s: &str) -> (r: String)
    ensures
        r@ == trim_start(s@),
{
    let c = chars_of(s);
    let i = trim_start_index(&c);
    let n = c.len();
    let part = &c[i..n];
    proof {
        assert(part@ =~= c@.skip(i as int));
    }
    string_of(part)
}

/// `str::trim_end`.
pub fn trim_end_str(s: &str) -> (r: String)
    ensures
        r@ == trim_end(s@),
{
    let c = chars_of(s);
    let i = trim_end_index(&c);
    let part = &c[0..i];
    proof {
        assert(part@ =~= c@.take(i as int));
    }
    string_of(part)
}

/// `str::trim`.
pub fn trim_str(s: &str) -> (r: String)
    ensures
        r@ == trim(s@),
{
    let t = trim_start_str(s);
    trim_end_str(t.as_str())
}

/// Whether nothing but white space is in the text.
pub open spec fn is_blank(s: Seq<char>) -> bool {
    forall|i: int| 0 <= i < s.len() ==> is_space(#[trigger] s[i])
}

/// A text is blank exactly when nothing is left of it after trimming.
pub proof fn lemma_blank_trim(s: Seq<char>)
    ensures
        is_blank(s) <==> trim(s).len() == 0,
        is_blank(s) <==> trim_start(s).len() == 0,
    decreases s.len(),
{
    if s.len() > 0 && is_space(s[0]) {
        lemma_blank_trim(s.skip(1));
        assert forall|i: int| is_blank(s.skip(1)) && 0 <= i < s.len() implies is_space(
            #[trigger] s[i],
        ) by {
            if i > 0 {
                assert(s.skip(1)[i - 1] == s[i]);
            }
        }
        assert forall|i: int| is_blank(s) && 0 <= i < s.skip(1).len() implies is_space(
            #[trigger] s.skip(1)[i],
        ) by {
            assert(s.skip(1)[i] == s[i + 1]);
        }
    } else if s.len() > 0 {
        assert(!is_blank(s)) by {
            assert(!is_space(s[0]));
        }
        assert(trim_start(s) == s);
        lemma_trim_end_keeps_first(s);
    }
}

proof fn lemma_trim_end_keeps_first(s: Seq<char>)
    requires
        s.len() > 0,
        !is_space(s[0]),
    ensures
        trim_end(s).len() > 0,
    decreases s.len(),
{
    if is_space(s.last()) {
        assert(s.drop_last()[0] == s[0]);
        lemma_trim_end_keeps_first(s.drop_last());
    }
}

pub fn blank(s: &str) -> (r: bool)
    ensures
        r == is_blank(s@),
        r == (trim(s@).len() == 0),
{
    let c = chars_of(s);
    let i = trim_start_index(&c);
    proof {
        lemma_blank_trim(s@);
    }
    i == c.len()
}

/// `pat` stands in `s` at position `i`.
pub open spec fn occurs_at(s: Seq<char>, pat: Seq<char>, i: int) -> bool {
    0 <= i && i + pat.len() <= s.len() && s.subrange(i, i + pat.len()) == pat
}

pub open spec fn has_text(s: Seq<char>, pat: Seq<char>) -> bool {
    exists|i: int| occurs_at(s, pat, i)
}

pub open spec fn has_prefix(s: Seq<char>, pat: Seq<char>) -> bool {
    occurs_at(s, pat, 0)
}

pub open spec fn has_suffix(s: Seq<char>, pat: Seq<char>) -> bool {
    occurs_at(s, pat, s.len() - pat.len())
}

pub fn matches_at(s: &[char], pat: &[char], at: usize) -> (r: bool)
    requires
        at <= s@.len(),
    ensures
        r == occurs_at(s@, pat@, at as int),
{
    let n = s.len();
    if pat.len() > n - at {
        return false;
    }
    let mut k: usize = 0;
    while k < pat.len()
        invariant
            n == s@.len(),
            at + pat@.len() <= s@.len(),
            k <= pat@.len(),
            forall|j: int| 0 <= j < k ==> s@[at + j] == pat@[j],
        decreases pat@.len() - k,
    {
        if s[at + k] != pat[k] {
            proof {
                assert(s@.subrange(at as int, at + pat@.len())[k as int] == s@[at + k]);
            }
            return false;
        }
        k += 1;
    }
    proof {
        assert(s@.subrange(at as int, at + pat@.len()) =~= pat@);
    }
    true
}

/// The first place at or after `from` where `pat` stands in `s`.
pub fn find_from(s: &[char], pat: &[char], from: usize) -> (r: Option<usize>)
    requires
        from <= s@.len(),
    ensures
        match r {
            Some(i) => from <= i <= s@.len() && occurs_at(s@, pat@, i as int) && forall|j: int|
                from <= j < i ==> !occurs_at(s@, pat@, j),
            None => forall|j: int| from <= j ==> !occurs_at(s@, pat@, j),
        },
{
    let mut i: usize = from;
    loop
        invariant
            from <= i <= s@.len(),
            forall|j: int| from <= j < i ==> !occurs_at(s@, pat@, j),
        decreases s@.len() - i,
    {
        if matches_at(s, pat, i) {
            return Some(i);
        }
        if i == s.len() {
            return None;
        }
        i += 1;
    }
}

/// The last position at or before `at` where `pat` stands in `s`, or -1.
pub open spec fn last_index(s: Seq<char>, pat: Seq<char>, at: int) -> int
    decreases at + 1,
{
    if at < 0 {
        -1
    } else if occurs_at(s, pat, at) {
        at
    } else {
        last_index(s, pat, at - 1)
    }
}

/// The place is in the text.
pub proof fn lemma_last_index(s: Seq<char>, pat: Seq<char>, at: int)
    ensures
        last_index(s, pat, at) >= 0 ==> last_index(s, pat, at) + pat.len() <= s.len(),
    decreases at + 1,
{
    if at >= 0 && !occurs_at(s, pat, at) {
        lemma_last_index(s, pat, at - 1);
    }
}

proof fn lemma_last_index_beyond(s: Seq<char>, pat: Seq<char>, at: int)
    requires
        pat.len() > 0,
        at >= s.len(),
    ensures
        last_index(s, pat, at) == last_index(s, pat, s.len() as int),
    decreases at,
{
    if at > s.len() {
        lemma_last_index_beyond(s, pat, at - 1);
    }
}

proof fn lemma_last_index_same(s: Seq<char>, t: Seq<char>, pat: Seq<char>, at: int)
    requires
        forall|i: int| occurs_at(s, pat, i) == occurs_at(t, pat, i),
    ensures
        last_index(s, pat, at) == last_index(t, pat, at),
    decreases at + 1,
{
    if at >= 0 && !occurs_at(s, pat, at) {
        lemma_last_index_same(s, t, pat, at - 1);
    }
}

/// What has not the last character of a pattern moves its last place not.
pub proof fn lemma_last_index_with_tail(s: Seq<char>, tail: Seq<char>, pat: Seq<char>)
    requires
        pat.len() > 0,
        forall|i: int| 0 <= i < tail.len() ==> tail[i] != pat.last(),
    ensures
        last_index(s + tail, pat, (s + tail).len() as int) == last_index(s, pat, s.len() as int),
{
    let both = s + tail;
    assert forall|i: int| occurs_at(s, pat, i) == occurs_at(both, pat, i) by {
        if 0 <= i && i + pat.len() <= both.len() {
            let end = i + pat.len();
            if end <= s.len() {
                assert(both.subrange(i, end) =~= s.subrange(i, end));
            } else {
                assert(both.subrange(i, end).last() == tail[end - 1 - s.len()]);
            }
        }
    }
    lemma_last_index_same(s, both, pat, both.len() as int);
    lemma_last_index_beyond(s, pat, both.len() as int);
}

/// The last place where `pat` stands in `s`.
pub fn find_last(s: &[char], pat: &[char]) -> (r: Option<usize>)
    ensures
        match r {
            Some(i) => i == last_index(s@, pat@, s@.len() as int) && occurs_at(s@, pat@, i as int)
                && forall|j: int| i < j ==> !occurs_at(s@, pat@, j),
            None => last_index(s@, pat@, s@.len() as int) == -1 && forall|j: int|
                !occurs_at(s@, pat@, j),
        },
{
    let mut i: usize = s.len();
    loop
        invariant
            i <= s@.len(),
            last_index(s@, pat@, s@.len() as int) == last_index(s@, pat@, i as int),
            forall|j: int| i < j ==> !occurs_at(s@, pat@, j),
        decreases i,
    {
        if matches_at(s, pat, i) {
            return Some(i);
        }
        if i == 0 {
            proof {
                assert(last_index(s@, pat@, -1) == -1);
            }
            return None;
        }
        i -= 1;
    }
}

/// `str::contains` with a string.
pub fn contains_str(s: &str, pat: &str) -> (r: bool)
    ensures
        r == has_text(s@, pat@),
{
    let c = chars_of(s);
    let p = chars_of(pat);
    match find_from(&c, &p, 0) {
        Some(_) => true,
        None => {
            proof {
                assert forall|i: int| !occurs_at(s@, pat@, i) by {
                    if i < 0 {
                    }
                }
            }
            false
        },
    }
}

/// `str::starts_with` with a string.
pub fn starts_with_str(s: &str, pat: &str) -> (r: bool)
    ensures
        r == has_prefix(s@, pat@),
{
    let c = chars_of(s);
    let p = chars_of(pat);
    matches_at(&c, &p, 0)
}

/// `str::ends_with` with a string.
pub fn ends_with_str(s: &str, pat: &str) -> (r: bool)
    ensures
        r == has_suffix(s@, pat@),
{
    let c = chars_of(s);
    let p = chars_of(pat);
    if p.len() > c.len() {
        return false;
    }
    matches_at(&c, &p, c.len() - p.len())
}

/// The text with every occurrence of `pat`, taken from the left without overlap, replaced.
pub open spec fn replace_all(s: Seq<char>, pat: Seq<char>, with: Seq<char>) -> Seq<char>
    decreases s.len(),
{
    if pat.len() == 0 || s.len() == 0 {
        s
    } else if has_prefix(s, pat) {
        with + replace_all(s.skip(pat.len() as int), pat, with)
    } else {
        seq![s[0]] + replace_all(s.skip(1), pat, with)
    }
}

/// How often `pat` stands in the text, taken from the left without overlap.
pub open spec fn count_of(s: Seq<char>, pat: Seq<char>) -> nat
    decreases s.len(),
{
    if pat.len() == 0 || s.len() == 0 {
        0
    } else if has_prefix(s, pat) {
        1 + count_of(s.skip(pat.len() as int), pat)
    } else {
        count_of(s.skip(1), pat)
    }
}

/// The pattern is one character, three times.
pub open spec fn is_triple(pat: Seq<char>, c: char) -> bool {
    pat.len() == 3 && pat[0] == c && pat[1] == c && pat[2] == c
}

proof fn lemma_triple_prefix(s: Seq<char>, pat: Seq<char>, c: char)
    requires
        is_triple(pat, c),
    ensures
        has_prefix(s, pat) == (s.len() >= 3 && s[0] == c && s[1] == c && s[2] == c),
{
    if s.len() >= 3 {
        let front = s.subrange(0, 3);
        assert(front[0] == s[0] && front[1] == s[1] && front[2] == s[2]);
        if s[0] == c && s[1] == c && s[2] == c {
            assert(front =~= pat);
        }
    }
}

proof fn lemma_count_of_short(s: Seq<char>, pat: Seq<char>)
    requires
        s.len() < pat.len(),
    ensures
        count_of(s, pat) == 0,
    decreases s.len(),
{
    if s.len() > 0 {
        lemma_count_of_short(s.skip(1), pat);
    }
}

/// A triple of one character does not occur in what has no such character.
proof fn lemma_count_of_foreign(s: Seq<char>, pat: Seq<char>, c: char)
    requires
        is_triple(pat, c),
        forall|i: int| 0 <= i < s.len() ==> s[i] != c,
    ensures
        count_of(s, pat) == 0,
    decreases s.len(),
{
    if s.len() > 0 {
        lemma_triple_prefix(s, pat, c);
        lemma_count_of_foreign(s.skip(1), pat, c);
    }
}

/// What has no such character changes nothing in how often a triple of it occurs.
pub proof fn lemma_count_of_with_foreign(s: Seq<char>, tail: Seq<char>, pat: Seq<char>, c: char)
    requires
        is_triple(pat, c),
        forall|i: int| 0 <= i < tail.len() ==> tail[i] != c,
    ensures
        count_of(s + tail, pat) == count_of(s, pat),
    decreases s.len(),
{
    if s.len() == 0 {
        assert(s + tail =~= tail);
        lemma_count_of_foreign(tail, pat, c);
    } else {
        lemma_triple_prefix(s, pat, c);
        lemma_triple_prefix(s + tail, pat, c);
        if has_prefix(s, pat) {
            assert((s + tail).skip(3) =~= s.skip(3) + tail);
            lemma_count_of_with_foreign(s.skip(3), tail, pat, c);
        } else {
            if s.len() < 3 && (s + tail).len() >= 3 {
                assert((s + tail)[s.len() as int] == tail[0]);
            }
            assert(!has_prefix(s + tail, pat));
            assert((s + tail).skip(1) =~= s.skip(1) + tail);
            lemma_count_of_with_foreign(s.skip(1), tail, pat, c);
        }
    }
}

/// A triple at the end is one more.
pub proof fn lemma_count_of_with_triple(s: Seq<char>, pat: Seq<char>, c: char)
    requires
        is_triple(pat, c),
    ensures
        count_of(s + pat, pat) == count_of(s, pat) + 1,
    decreases s.len(),
{
    let both = s + pat;
    lemma_triple_prefix(s, pat, c);
    lemma_triple_prefix(both, pat, c);
    if s.len() == 0 {
        assert(both =~= pat);
        lemma_count_of_short(both.skip(3), pat);
    } else if has_prefix(s, pat) {
        assert(both.skip(3) =~= s.skip(3) + pat);
        lemma_count_of_with_triple(s.skip(3), pat, c);
    } else if has_prefix(both, pat) {
        lemma_count_of_short(s, pat);
        lemma_count_of_short(both.skip(3), pat);
    } else {
        assert(both.skip(1) =~= s.skip(1) + pat);
        lemma_count_of_with_triple(s.skip(1), pat, c);
    }
}

proof fn lemma_prefix_of_skip(s: Seq<char>, pat: Seq<char>, i: int)
    requires
        0 <= i <= s.len(),
    ensures
        has_prefix(s.skip(i), pat) == occurs_at(s, pat, i),
{
    if i + pat.len() <= s.len() {
        assert(s.skip(i).subrange(0, pat.len() as int) =~= s.subrange(i, i + pat.len()));
    }
}

/// `str::replace` for a pattern that is not empty.
pub fn replace_str(s: &str, pat: &str, with: &str) -> (r: String)
    requires
        pat@.len() > 0,
    ensures
        r@ == replace_all(s@, pat@, with@),
{
    let c = chars_of(s);
    let p = chars_of(pat);
    let mut out = String::new();
    let mut i: usize = 0;
    proof {
        assert(c@.skip(0) =~= c@);
        assert(out@ + replace_all(c@, pat@, with@) =~= replace_all(c@, pat@, with@));
    }
    while i < c.len()
        invariant
            i <= c@.len(),
            c@ == s@,
            p@ == pat@,
            pat@.len() > 0,
            out@ + replace_all(c@.skip(i as int), pat@, with@) == replace_all(s@, pat@, with@),
        decreases c@.len() - i,
    {
        proof {
            lemma_prefix_of_skip(c@, pat@, i as int);
        }
        let ghost before = out@;
        if matches_at(&c, &p, i) {
            out.append(with);
            proof {
                assert(c@.skip(i as int).skip(pat@.len() as int) =~= c@.skip(i + pat@.len()));
                assert(before + (with@ + replace_all(c@.skip(i + pat@.len()), pat@, with@)) =~= (
                before + with@) + replace_all(c@.skip(i + pat@.len()), pat@, with@));
            }
            i += p.len();
        } else {
            out.push(c[i]);
            proof {
                assert(c@.skip(i as int).skip(1) =~= c@.skip(i + 1));
                assert(before + (seq![c@[i as int]] + replace_all(c@.skip(i + 1), pat@, with@))
                    =~= before.push(c@[i as int]) + replace_all(c@.skip(i + 1), pat@, with@));
            }
            i += 1;
        }
    }
    proof {
        assert(replace_all(c@.skip(i as int), pat@, with@).len() == 0);
        assert(out@ + replace_all(c@.skip(i as int), pat@, with@) =~= out@);
    }
    out
}

/// `str::matches(pat).count()` for a pattern that is not empty.
pub fn count_str(s: &str, pat: &str) -> (r: usize)
    requires
        pat@.len() > 0,
    ensures
        r == count_of(s@, pat@),
{
    let c = chars_of(s);
    let p = chars_of(pat);
    let mut n: usize = 0;
    let mut i: usize = 0;
    proof {
        assert(c@.skip(0) =~= c@);
    }
    while i < c.len()
        invariant
            n <= i <= c@.len(),
            c@ == s@,
            p@ == pat@,
            pat@.len() > 0,
            n + count_of(c@.skip(i as int), pat@) == count_of(s@, pat@),
        decreases c@.len() - i,
    {
        proof {
            lemma_prefix_of_skip(c@, pat@, i as int);
        }
        if matches_at(&c, &p, i) {
            proof {
                assert(c@.skip(i as int).skip(pat@.len() as int) =~= c@.skip(i + pat@.len()));
            }
            n += 1;
            i += p.len();
        } else {
            proof {
                assert(c@.skip(i as int).skip(1) =~= c@.skip(i + 1));
            }
            i += 1;
        }
    }
    n
}

/// How often a character stands in the text.
pub open spec fn count_char(s: Seq<char>, c: char) -> nat
    decreases s.len(),
{
    if s.len() == 0 {
        0
    } else {
        count_char(s.drop_last(), c) + if s.last() == c {
            1nat
        } else {
            0nat
        }
    }
}

pub proof fn lemma_count_char_of_both(a: Seq<char>, b: Seq<char>, c: char)
    ensures
        count_char(a + b, c) == count_char(a, c) + count_char(b, c),
    decreases b.len(),
{
    if b.len() == 0 {
        assert(a + b =~= a);
    } else {
        assert((a + b).drop_last() =~= a + b.drop_last());
        lemma_count_char_of_both(a, b.drop_last(), c);
    }
}

pub proof fn lemma_count_char_of_repeat(c: char, n: nat, d: char)
    ensures
        count_char(repeat(c, n), d) == if c == d {
            n
        } else {
            0
        },
    decreases n,
{
    if n > 0 {
        assert(repeat(c, n).drop_last() =~= repeat(c, (n - 1) as nat));
        lemma_count_char_of_repeat(c, (n - 1) as nat, d);
    }
}

pub fn count_char_in(s: &[char], c: char) -> (r: usize)
    ensures
        r == count_char(s@, c),
        r <= s@.len(),
{
    let mut n: usize = 0;
    let mut i: usize = 0;
    while i < s.len()
        invariant
            n <= i <= s@.len(),
            n == count_char(s@.take(i as int), c),
        decreases s@.len() - i,
    {
        proof {
            assert(s@.take(i + 1).drop_last() =~= s@.take(i as int));
        }
        if s[i] == c {
            n += 1;
        }
        i += 1;
    }
    proof {
        assert(s@.take(i as int) =~= s@);
    }
    n
}

/// Whether a character stands in the text.
pub fn has_char(s: &[char], c: char) -> (r: bool)
    ensures
        r == s@.contains(c),
{
    let mut i: usize = 0;
    while i < s.len()
        invariant
            i <= s@.len(),
            forall|j: int| 0 <= j < i ==> s@[j] != c,
        decreases s@.len() - i,
    {
        if s[i] == c {
            return true;
        }
        i += 1;
    }
    false
}

/// A character repeated.
pub open spec fn repeat(c: char, n: nat) -> Seq<char> {
    Seq::new(n, |i: int| c)
}

/// Appends a character several times.
pub fn push_repeat(out: &mut String, c: char, n: usize)
    ensures
        final(out)@ == old(out)@ + repeat(c, n as nat),
{
    let mut i: usize = 0;
    proof {
        assert(out@ =~= old(out)@ + repeat(c, 0));
    }
    while i < n
        invariant
            i <= n,
            out@ == old(out)@ + repeat(c, i as nat),
        decreases n - i,
    {
        out.push(c);
        i += 1;
        proof {
            assert(out@ =~= old(out)@ + repeat(c, i as nat));
        }
    }
}

/// The views of a list of strings.
pub open spec fn views(v: Seq<String>) -> Seq<Seq<char>> {
    Seq::new(v.len(), |i: int| v[i]@)
}

/// The texts one after the other, with the separator between them.
pub open spec fn join(parts: Seq<Seq<char>>, sep: Seq<char>) -> Seq<char>
    decreases parts.len(),
{
    if parts.len() == 0 {
        Seq::empty()
    } else if parts.len() == 1 {
        parts[0]
    } else {
        join(parts.drop_last(), sep) + sep + parts.last()
    }
}

/// `[String]::join`.
pub fn join_strs(parts: &[String], sep: &str) -> (r: String)
    ensures
        r@ == join(views(parts@), sep@),
{
    let mut out = String::new();
    let mut i: usize = 0;
    proof {
        assert(views(parts@).take(0) =~= Seq::empty());
    }
    while i < parts.len()
        invariant
            i <= parts@.len(),
            out@ == join(views(parts@).take(i as int), sep@),
        decreases parts@.len() - i,
    {
        proof {
            let next = views(parts@).take(i + 1);
            assert(next.drop_last() =~= views(parts@).take(i as int));
            assert(next.last() == parts@[i as int]@);
            if i == 0 {
                assert(out@ =~= Seq::empty());
                assert(Seq::<char>::empty() + parts@[0]@ =~= parts@[0]@);
                assert(next[0] == parts@[0]@);
            }
        }
        if i > 0 {
            out.append(sep);
        }
        out.append(parts[i].as_str());
        i += 1;
    }
    proof {
        assert(views(parts@).take(i as int) =~= views(parts@));
    }
    out
}

/// The position of the first line break, or the length of the text.
pub open spec fn line_end(s: Seq<char>) -> int
    decreases s.len(),
{
    if s.len() == 0 || s[0] == '\n' {
        0
    } else {
        1 + line_end(s.skip(1))
    }
}

pub proof fn lemma_line_end(s: Seq<char>)
    ensures
        0 <= line_end(s) <= s.len(),
        line_end(s) < s.len() ==> s[line_end(s)] == '\n',
        forall|j: int| 0 <= j < line_end(s) ==> s[j] != '\n',
    decreases s.len(),
{
    if s.len() > 0 && s[0] != '\n' {
        lemma_line_end(s.skip(1));
        let n = line_end(s.skip(1));
        assert forall|j: int| 0 <= j < line_end(s) implies s[j] != '\n' by {
            if j > 0 {
                assert(s.skip(1)[j - 1] == s[j]);
            }
        }
        if n < s.skip(1).len() {
            assert(s.skip(1)[n] == s[n + 1]);
        }
    }
}

/// A line without the carriage return that is part of its line break.
pub open spec fn strip_return(s: Seq<char>) -> Seq<char> {
    if s.len() > 0 && s.last() == '\r' {
        s.drop_last()
    } else {
        s
    }
}

/// The lines of the text: `\n` or `\r\n` ends a line, and an ending at the very end of the
/// text begins no further line.
pub open spec fn lines(s: Seq<char>) -> Seq<Seq<char>>
    decreases s.len(),
    via lines_decreases
{
    if s.len() == 0 {
        Seq::empty()
    } else if line_end(s) < s.len() {
        seq![strip_return(s.take(line_end(s)))] + lines(s.skip(line_end(s) + 1))
    } else {
        seq![s]
    }
}

#[via_fn]
proof fn lines_decreases(s: Seq<char>) {
    lemma_line_end(s);
}

/// `str::lines`.
pub fn lines_of(s: &str) -> (r: Vec<String>)
    ensures
        views(r@) == lines(s@),
{
    let c = chars_of(s);
    let mut out: Vec<String> = Vec::new();
    let mut start: usize = 0;
    proof {
        assert(c@.skip(0) =~= c@);
        assert(views(out@) + lines(c@) =~= lines(c@));
    }
    while start < c.len()
        invariant
            start <= c@.len(),
            c@ == s@,
            views(out@) + lines(c@.skip(start as int)) == lines(s@),
        decreases c@.len() - start,
    {
        let ghost rest = c@.skip(start as int);
        let mut end: usize = start;
        proof {
            assert(c@.skip(end as int) =~= rest);
        }
        while end < c.len() && c[end] != '\n'
            invariant
                start <= end <= c@.len(),
                rest == c@.skip(start as int),
                line_end(rest) == (end - start) + line_end(c@.skip(end as int)),
            decreases c@.len() - end,
        {
            proof {
                assert(c@.skip(end as int).skip(1) =~= c@.skip(end + 1));
            }
            end += 1;
        }
        let ghost old_out = out@;
        assert(line_end(rest) == end - start);
        if end < c.len() {
            let mut stop: usize = end;
            if stop > start && c[stop - 1] == '\r' {
                stop -= 1;
            }
            let line = string_of(&c[start..stop]);
            proof {
                assert(rest.take(end - start) =~= c@.subrange(start as int, end as int));
                assert(strip_return(rest.take(end - start)) =~= c@.subrange(
                    start as int,
                    stop as int,
                ));
                assert(rest.skip(end - start + 1) =~= c@.skip(end + 1));
            }
            out.push(line);
            proof {
                assert(views(out@) =~= views(old_out).push(line@));
                assert(views(old_out) + (seq![line@] + lines(c@.skip(end + 1))) =~= views(out@)
                    + lines(c@.skip(end + 1)));
            }
            start = end + 1;
        } else {
            let line = string_of(&c[start..end]);
            proof {
                assert(rest =~= c@.subrange(start as int, end as int));
            }
            out.push(line);
            proof {
                assert(views(out@) =~= views(old_out).push(line@));
                assert(c@.skip(end as int).len() == 0);
                assert(views(old_out) + seq![line@] =~= views(out@) + lines(c@.skip(end as int)));
            }
            start = end;
        }
    }
    proof {
        assert(views(out@) + lines(c@.skip(start as int)) =~= views(out@));
    }
    out
}

/// How many characters stand before the first white space.
pub open spec fn word_len(s: Seq<char>) -> int
    decreases s.len(),
{
    if s.len() == 0 || is_space(s[0]) {
        0
    } else {
        1 + word_len(s.skip(1))
    }
}

pub proof fn lemma_word_len(s: Seq<char>)
    ensures
        0 <= word_len(s) <= s.len(),
    decreases s.len(),
{
    if s.len() > 0 && !is_space(s[0]) {
        lemma_word_len(s.skip(1));
    }
}

pub proof fn lemma_trim_start_len(s: Seq<char>)
    ensures
        trim_start(s).len() <= s.len(),
        trim_start(s).len() > 0 ==> !is_space(trim_start(s)[0]),
    decreases s.len(),
{
    if s.len() > 0 && is_space(s[0]) {
        lemma_trim_start_len(s.skip(1));
    }
}

/// The words of the text: what white space separates.
pub open spec fn words(s: Seq<char>) -> Seq<Seq<char>>
    decreases s.len(),
    via words_decreases
{
    let t = trim_start(s);
    if t.len() == 0 {
        Seq::empty()
    } else {
        seq![t.take(word_len(t))] + words(t.skip(word_len(t)))
    }
}

#[via_fn]
proof fn words_decreases(s: Seq<char>) {
    lemma_trim_start_len(s);
    lemma_word_len(trim_start(s));
    lemma_word_len(trim_start(s).skip(1));
}

/// `str::split_whitespace`.
pub fn words_of(s: &str) -> (r: Vec<String>)
    ensures
        views(r@) == words(s@),
{
    let c = chars_of(s);
    let n = c.len();
    let mut out: Vec<String> = Vec::new();
    let mut at: usize = 0;
    proof {
        assert(c@.skip(0) =~= c@);
        assert(views(out@) + words(c@) =~= words(c@));
    }
    loop
        invariant
            at <= c@.len(),
            n == c@.len(),
            views(out@) + words(c@.skip(at as int)) == words(s@),
        decreases c@.len() - at,
    {
        let ghost rest = c@.skip(at as int);
        let tail = &c[at..n];
        proof {
            assert(tail@ =~= rest);
        }
        let lead = trim_start_index(tail);
        let start: usize = at + lead;
        proof {
            assert(rest.skip(lead as int) =~= c@.skip(start as int));
        }
        if start == n {
            proof {
                assert(words(rest) =~= Seq::empty());
                assert(views(out@) + words(rest) =~= views(out@));
            }
            return out;
        }
        let ghost t = c@.skip(start as int);
        let mut end: usize = start;
        while end < n && !char_is_space(c[end])
            invariant
                start <= end <= n,
                n == c@.len(),
                t == c@.skip(start as int),
                word_len(t) == (end - start) + word_len(c@.skip(end as int)),
            decreases n - end,
        {
            proof {
                assert(c@.skip(end as int).skip(1) =~= c@.skip(end + 1));
            }
            end += 1;
        }
        let ghost old_out = out@;
        let word = string_of(&c[start..end]);
        proof {
            assert(t[0] == c@[start as int]);
            assert(t.take(end - start) =~= c@.subrange(start as int, end as int));
            assert(t.skip(end - start) =~= c@.skip(end as int));
            lemma_word_len(t.skip(1));
        }
        out.push(word);
        proof {
            assert(views(out@) =~= views(old_out).push(word@));
            assert(views(old_out) + (seq![word@] + words(c@.skip(end as int))) =~= views(out@)
                + words(c@.skip(end as int)));
        }
        at = end;
    }
}

/// The decimal digits of a number.
pub open spec fn decimal(n: nat) -> Seq<char>
    decreases n,
{
    if n < 10 {
        seq![((48 + n) as u8) as char]
    } else {
        decimal(n / 10).push(((48 + n % 10) as u8) as char)
    }
}

/// Appends the decimal digits of a number.
pub fn push_decimal(out: &mut String, n: u64)
    ensures
        final(out)@ == old(out)@ + decimal(n as nat),
    decreases n,
{
    if n < 10 {
        out.push((48u8 + n as u8) as char);
        proof {
            assert(old(out)@.push(((48 + n) as u8) as char) =~= old(out)@ + decimal(n as nat));
        }
    } else {
        push_decimal(out, n / 10);
        let d: u8 = (n % 10) as u8;
        out.push((48u8 + d) as char);
        proof {
            assert((old(out)@ + decimal((n / 10) as nat)).push(((48 + n % 10) as u8) as char)
                =~= old(out)@ + decimal(n as nat));
        }
    }
}

/// The number as text.
pub fn decimal_string(n: u64) -> (r: String)
    ensures
        r@ == decimal(n as nat),
{
    let mut out = String::new();
    push_decimal(&mut out, n);
    proof {
        assert(Seq::<char>::empty() + decimal(n as nat) =~= decimal(n as nat));
    }
    out
}

/// Character-by-character order, the order of strings.
pub open spec fn lex_less(a: Seq<char>, b: Seq<char>) -> bool
    decreases a.len(),
{
    if b.len() == 0 {
        false
    } else if a.len() == 0 {
        true
    } else if a[0] != b[0] {
        a[0] < b[0]
    } else {
        lex_less(a.skip(1), b.skip(1))
    }
}

pub proof fn lemma_lex_irreflexive(a: Seq<char>)
    ensures
        !lex_less(a, a),
    decreases a.len(),
{
    if a.len() > 0 {
        lemma_lex_irreflexive(a.skip(1));
    }
}

pub proof fn lemma_lex_total(a: Seq<char>, b: Seq<char>)
    ensures
        lex_less(a, b) || lex_less(b, a) || a == b,
    decreases a.len(),
{
    if a.len() > 0 && b.len() > 0 {
        if a[0] == b[0] {
            lemma_lex_total(a.skip(1), b.skip(1));
            if a.skip(1) == b.skip(1) {
                assert(a =~= seq![a[0]] + a.skip(1));
                assert(b =~= seq![b[0]] + b.skip(1));
            }
        }
    } else if a.len() == 0 && b.len() == 0 {
        assert(a =~= b);
    }
}

pub proof fn lemma_lex_transitive(a: Seq<char>, b: Seq<char>, c: Seq<char>)
    requires
        lex_less(a, b),
        lex_less(b, c),
    ensures
        lex_less(a, c),
    decreases a.len(),
{
    if a.len() > 0 && b.len() > 0 && c.len() > 0 {
        if a[0] == b[0] && b[0] == c[0] {
            lemma_lex_transitive(a.skip(1), b.skip(1), c.skip(1));
        }
    }
}

/// Whether the first string comes before the second.
pub fn str_less(a: &str, b: &str) -> (r: bool)
    ensures
        r == lex_less(a@, b@),
{
    let x = chars_of(a);
    let y = chars_of(b);
    let mut i: usize = 0;
    proof {
        assert(x@.skip(0) =~= x@);
        assert(y@.skip(0) =~= y@);
    }
    loop
        invariant
            i <= x@.len(),
            i <= y@.len(),
            lex_less(a@, b@) == lex_less(x@.skip(i as int), y@.skip(i as int)),
        decreases x@.len() - i,
    {
        if i == y.len() {
            return false;
        }
        if i == x.len() {
            return true;
        }
        if x[i] != y[i] {
            return x[i] < y[i];
        }
        proof {
            assert(x@.skip(i as int).skip(1) =~= x@.skip(i + 1));
            assert(y@.skip(i as int).skip(1) =~= y@.skip(i + 1));
        }
        i += 1;
    }
}

/// The text, or its first characters with three dots behind them when it is longer.
pub open spec fn truncated(s: Seq<char>, max: nat) -> Seq<char> {
    if s.len() <= max {
        s
    } else {
        s.take(max as int) + "..."@
    }
}

/// Shortens a text.
pub fn truncate_str(s: &str, max: usize) -> (r: String)
    ensures
        r@ == truncated(s@, max as nat),
{
    let c = chars_of(s);
    if c.len() <= max {
        return s.to_owned();
    }
    let part = &c[0..max];
    proof {
        assert(part@ =~= c@.take(max as int));
    }
    let mut out = string_of(part);
    out.append("...");
    out
}

/// The view of an optional string.
pub open spec fn opt_view(s: Option<String>) -> Option<Seq<char>> {
    match s {
        Some(s) => Some(s@),
        None => None,
    }
}

/// The text of an optional string, or another one.
pub open spec fn or_text(s: Option<String>, other: Seq<char>) -> Seq<char> {
    match s {
        Some(s) => s@,
        None => other,
    }
}

/// A copy of a list of pairs of strings.
pub fn clone_pairs(v: &Vec<(String, String)>) -> (r: Vec<(String, String)>)
    ensures
        r@ == v@,
{
    let mut out: Vec<(String, String)> = Vec::new();
    let mut i: usize = 0;
    while i < v.len()
        invariant
            i <= v@.len(),
            out@ == v@.take(i as int),
        decreases v@.len() - i,
    {
        out.push((v[i].0.clone(), v[i].1.clone()));
        i += 1;
        proof {
            assert(v@.take(i as int) =~= v@.take(i - 1).push(v@[i - 1]));
        }
    }
    proof {
        assert(v@.take(i as int) =~= v@);
    }
    out
}

/// A copy of a list of strings.
pub fn clone_strings(v: &Vec<String>) -> (r: Vec<String>)
    ensures
        r@ == v@,
{
    let mut out: Vec<String> = Vec::new();
    let mut i: usize = 0;
    while i < v.len()
        invariant
            i <= v@.len(),
            out@ == v@.take(i as int),
        decreases v@.len() - i,
    {
        out.push(v[i].clone());
        i += 1;
        proof {
            assert(v@.take(i as int) =~= v@.take(i - 1).push(v@[i - 1]));
        }
    }
    proof {
        assert(v@.take(i as int) =~= v@);
    }
    out
}

/// The texts of string slices.
pub open spec fn str_views(v: Seq<&str>) -> Seq<Seq<char>> {
    Seq::new(v.len(), |i: int| v[i]@)
}

/// Appends copies of texts to a list.
pub fn push_strs(lines: &mut Vec<String>, more: &[&str])
    ensures
        views(final(lines)@) == views(old(lines)@) + str_views(more@),
{
    let mut i: usize = 0;
    proof {
        assert(views(lines@) =~= views(old(lines)@) + str_views(more@).take(0));
    }
    while i < more.len()
        invariant
            i <= more@.len(),
            views(lines@) == views(old(lines)@) + str_views(more@).take(i as int),
        decreases more@.len() - i,
    {
        let ghost before = lines@;
        lines.push(more[i].to_owned());
        i += 1;
        proof {
            assert(views(lines@) =~= views(before).push(more@[i - 1]@));
            assert(views(lines@) =~= views(old(lines)@) + str_views(more@).take(i as int));
        }
    }
    proof {
        assert(str_views(more@).take(i as int) =~= str_views(more@));
    }
}

/// Appends a text to a list.
pub fn push_line(lines: &mut Vec<String>, line: String)
    ensures
        views(final(lines)@) == views(old(lines)@).push(line@),
{
    lines.push(line);
    proof {
        assert(views(lines@) =~= views(old(lines)@).push(line@));
    }
}

/// Appends a list of texts to another one.
pub fn push_lines(lines: &mut Vec<String>, more: Vec<String>)
    ensures
        views(final(lines)@) == views(old(lines)@) + views(more@),
{
    let mut i: usize = 0;
    proof {
        assert(views(lines@) =~= views(old(lines)@) + views(more@).take(0));
    }
    while i < more.len()
        invariant
            i <= more@.len(),
            views(lines@) == views(old(lines)@) + views(more@).take(i as int),
        decreases more@.len() - i,
    {
        let ghost before = lines@;
        lines.push(more[i].clone());
        i += 1;
        proof {
            assert(views(lines@) =~= views(before).push(more@[i - 1]@));
            assert(views(lines@) =~= views(old(lines)@) + views(more@).take(i as int));
        }
    }
    proof {
        assert(views(more@).take(i as int) =~= views(more@));
    }
}

/// Whether a text is among others.
pub fn contains_text(list: &Vec<String>, s: &str) -> (r: bool)
    ensures
        r == views(list@).contains(s@),
{
    let mut i: usize = 0;
    while i < list.len()
        invariant
            i <= list@.len(),
            forall|k: int| 0 <= k < i ==> (#[trigger] list@[k])@ != s@,
        decreases list@.len() - i,
    {
        if text_eq(list[i].as_str(), s) {
            proof {
                assert(views(list@)[i as int] == s@);
            }
            return true;
        }
        i += 1;
    }
    proof {
        assert forall|k: int| 0 <= k < views(list@).len() implies views(list@)[k] != s@ by {
            assert(list@[k]@ != s@);
        }
    }
    false
}

/// White space as single spaces, and none at the ends.
pub open spec fn normalized(s: Seq<char>) -> Seq<char> {
    join(words(s), " "@)
}

pub fn normalize(s: &str) -> (r: String)
    ensures
        r@ == normalized(s@),
{
    let parts = words_of(s);
    join_strs(&parts, " ")
}

} // verus!

//! What holds of texts that are trimmed, split, joined, searched and shortened.

use vstd::prelude::*;

use crate::text;

verus! {

/// A text stands in what is made of it and its surroundings.
pub proof fn lemma_inside(a: Seq<char>, m: Seq<char>, b: Seq<char>)
    ensures
        text::occurs_at(a + m + b, m, a.len() as int),
        text::has_text(a + m + b, m),
{
    assert((a + m + b).subrange(a.len() as int, (a.len() + m.len()) as int) =~= m);
    assert(text::occurs_at(a + m + b, m, a.len() as int));
}

pub proof fn lemma_ends(a: Seq<char>, b: Seq<char>)
    ensures
        text::has_prefix(a + b, a),
        text::has_suffix(a + b, b),
        text::has_text(a + b, a),
        text::has_text(a + b, b),
{
    assert((a + b).subrange(0, a.len() as int) =~= a);
    assert((a + b).subrange(a.len() as int, (a + b).len() as int) =~= b);
    assert(text::occurs_at(a + b, a, 0));
    assert(text::occurs_at(a + b, b, a.len() as int));
}

pub proof fn lemma_grouped(a: Seq<char>, b: Seq<char>, c: Seq<char>)
    ensures
        (a + b) + c == a + (b + c),
{
    assert((a + b) + c =~= a + (b + c));
}

/// What stands in a part of a text stands in the text.
pub proof fn lemma_within(s: Seq<char>, part: Seq<char>, pat: Seq<char>)
    requires
        text::has_text(s, part),
        text::has_text(part, pat),
    ensures
        text::has_text(s, pat),
{
    let i = choose|i: int| text::occurs_at(s, part, i);
    let j = choose|j: int| text::occurs_at(part, pat, j);
    assert(s.subrange(i + j, i + j + pat.len()) =~= s.subrange(i, i + part.len()).subrange(
        j,
        j + pat.len(),
    ));
    assert(text::occurs_at(s, pat, i + j));
}

/// Where a part of joined texts begins.
pub open spec fn offset(parts: Seq<Seq<char>>, sep: Seq<char>, i: int) -> int
    decreases i,
{
    if i <= 0 {
        0
    } else {
        offset(parts, sep, i - 1) + parts[i - 1].len() + sep.len()
    }
}

proof fn lemma_offset_same(a: Seq<Seq<char>>, b: Seq<Seq<char>>, sep: Seq<char>, i: int)
    requires
        forall|k: int| 0 <= k < i ==> a[k] == b[k],
    ensures
        offset(a, sep, i) == offset(b, sep, i),
    decreases i,
{
    if i > 0 {
        lemma_offset_same(a, b, sep, i - 1);
    }
}

pub proof fn lemma_offsets_grow(parts: Seq<Seq<char>>, sep: Seq<char>, i: int, j: int)
    requires
        0 <= i < j,
    ensures
        offset(parts, sep, i) + parts[i].len() + sep.len() <= offset(parts, sep, j),
    decreases j,
{
    if i < j - 1 {
        lemma_offsets_grow(parts, sep, i, j - 1);
    }
}

/// Each part of joined texts stands at its place, with the separator on both sides of it where it
/// has a neighbour.
pub proof fn lemma_join_at(parts: Seq<Seq<char>>, sep: Seq<char>, i: int)
    requires
        0 <= i < parts.len(),
    ensures
        text::occurs_at(text::join(parts, sep), parts[i], offset(parts, sep, i)),
        i > 0 ==> text::occurs_at(
            text::join(parts, sep),
            sep + parts[i],
            offset(parts, sep, i) - sep.len(),
        ),
        i > 0 && i + 1 < parts.len() ==> text::occurs_at(
            text::join(parts, sep),
            sep + parts[i] + sep,
            offset(parts, sep, i) - sep.len(),
        ),
        i + 1 == parts.len() ==> text::join(parts, sep).len() == offset(parts, sep, i)
            + parts[i].len(),
    decreases parts.len(),
{
    let all = text::join(parts, sep);
    let at = offset(parts, sep, i);
    if parts.len() == 1 {
        assert(all.subrange(0, parts[0].len() as int) =~= parts[0]);
    } else {
        let front = parts.drop_last();
        let before = text::join(front, sep);
        lemma_offset_same(parts, front, sep, i);
        if i + 1 == parts.len() {
            lemma_join_at(front, sep, i - 1);
            lemma_offset_same(parts, front, sep, i - 1);
            assert(before.len() == at - sep.len());
            assert(all.subrange(at, at + parts[i].len()) =~= parts[i]);
            assert(all.subrange(at - sep.len(), at + parts[i].len()) =~= sep + parts[i]);
        } else {
            lemma_join_at(front, sep, i);
            assert(front[i] == parts[i]);
            assert(before.subrange(at, at + parts[i].len()) == parts[i]);
            assert(all.subrange(at, at + parts[i].len()) =~= before.subrange(
                at,
                at + parts[i].len(),
            ));
            if i > 0 {
                assert(before.subrange(at - sep.len(), at + parts[i].len()) == sep + parts[i]);
                assert(all.subrange(at - sep.len(), at + parts[i].len()) =~= before.subrange(
                    at - sep.len(),
                    at + parts[i].len(),
                ));
                let end = at + parts[i].len() + sep.len();
                if i + 2 < parts.len() {
                    assert(before.subrange(at - sep.len(), end) == sep + parts[i] + sep);
                    assert(all.subrange(at - sep.len(), end) =~= before.subrange(
                        at - sep.len(),
                        end,
                    ));
                } else {
                    assert(before.len() == at + parts[i].len());
                    assert(all.subrange(at - sep.len(), end) =~= all.subrange(
                        at - sep.len(),
                        at + parts[i].len(),
                    ) + sep);
                }
            }
        }
    }
}

/// Joined from the front.
pub proof fn lemma_join_front(parts: Seq<Seq<char>>, sep: Seq<char>)
    requires
        parts.len() >= 2,
    ensures
        text::join(parts, sep) == parts[0] + sep + text::join(parts.skip(1), sep),
    decreases parts.len(),
{
    let rest = parts.skip(1);
    if parts.len() == 2 {
        assert(text::join(parts.drop_last(), sep) == parts[0]);
        assert(text::join(rest, sep) == parts[1]);
    } else {
        assert(parts.drop_last().skip(1) =~= rest.drop_last());
        lemma_join_front(parts.drop_last(), sep);
        assert(parts[0] + sep + text::join(rest.drop_last(), sep) + sep + parts.last() =~= parts[0]
            + sep + (text::join(rest.drop_last(), sep) + sep + rest.last()));
        assert(rest.last() == parts.last());
    }
}

/// Joining keeps every text, in the order in which they were given, and puts the separator between
/// neighbours.
pub proof fn joined_texts_keep_their_order(
    parts: Seq<String>,
    sep: &str,
    i: int,
    j: int,
    slice: &[String],
    r: String,
)
    requires
        call_ensures(text::join_strs, (slice, sep), r),
        slice@ == parts,
        0 <= i < j < parts.len(),
    ensures
        exists|p: int, q: int| #[trigger]
            text::occurs_at(r@, parts[i]@, p) && #[trigger] text::occurs_at(r@, parts[j]@, q) && p
                + parts[i]@.len() + sep@.len() <= q,
        j == i + 1 ==> text::has_text(r@, parts[i]@ + sep@ + parts[j]@),
{
    let shown = text::views(parts);
    let p = offset(shown, sep@, i);
    let q = offset(shown, sep@, j);
    lemma_join_at(shown, sep@, i);
    lemma_join_at(shown, sep@, j);
    lemma_offsets_grow(shown, sep@, i, j);
    assert(text::occurs_at(r@, parts[i]@, p));
    assert(text::occurs_at(r@, parts[j]@, q));
    if j == i + 1 {
        let pair = parts[i]@ + sep@ + parts[j]@;
        let end = q + parts[j]@.len();
        assert(r@.subrange(q - sep@.len(), end) == sep@ + parts[j]@);
        assert(r@.subrange(p, p + parts[i]@.len()) == parts[i]@);
        assert(q == p + parts[i]@.len() + sep@.len());
        assert(r@.subrange(p, end) =~= r@.subrange(p, p + parts[i]@.len()) + r@.subrange(
            q - sep@.len(),
            end,
        ));
        assert(r@.subrange(p, end) =~= pair);
        assert(text::occurs_at(r@, pair, p));
    }
}

/// What is cut off in front is white space, and what is left does not begin with any.
pub proof fn lemma_trim_start_cuts(s: Seq<char>)
    ensures
        exists|n: int|
            0 <= n <= s.len() && text::trim_start(s) == s.skip(n) && text::is_blank(
                #[trigger] s.take(n),
            ),
        text::trim_start(s).len() > 0 ==> !text::is_space(text::trim_start(s)[0]),
    decreases s.len(),
{
    if s.len() > 0 && text::is_space(s[0]) {
        lemma_trim_start_cuts(s.skip(1));
        let n = choose|n: int|
            0 <= n <= s.skip(1).len() && text::trim_start(s.skip(1)) == s.skip(1).skip(n)
                && text::is_blank(#[trigger] s.skip(1).take(n));
        assert(s.skip(1).skip(n) =~= s.skip(n + 1));
        assert forall|i: int| 0 <= i < n + 1 implies text::is_space(
            #[trigger] s.take(n + 1)[i],
        ) by {
            if i > 0 {
                assert(s.skip(1).take(n)[i - 1] == s[i]);
            }
        }
        assert(text::is_blank(s.take(n + 1)));
    } else {
        assert(s.skip(0) =~= s);
        assert(text::is_blank(s.take(0)));
    }
}

pub proof fn lemma_trim_end_cuts(s: Seq<char>)
    ensures
        text::trim_end(s).len() <= s.len(),
        text::trim_end(s) == s.take(text::trim_end(s).len() as int),
        text::is_blank(s.skip(text::trim_end(s).len() as int)),
    decreases s.len(),
{
    if s.len() > 0 && text::is_space(s.last()) {
        lemma_trim_end_cuts(s.drop_last());
        let n = text::trim_end(s).len() as int;
        assert(s.drop_last().take(n) =~= s.take(n));
        assert forall|i: int| 0 <= i < s.skip(n).len() implies text::is_space(
            #[trigger] s.skip(n)[i],
        ) by {
            if i + 1 < s.skip(n).len() {
                assert(s.drop_last().skip(n)[i] == s.skip(n)[i]);
            }
        }
    } else {
        assert(s.take(s.len() as int) =~= s);
    }
}

/// Trimming cuts off white space at both ends and nothing else: a text is what is left of it, with
/// white space around it, and what is left neither begins nor ends with any.
pub proof fn trimming_cuts_white_space_only(s: &str, r: String)
    requires
        call_ensures(text::trim_str, (s,), r),
    ensures
        exists|lead: Seq<char>, trail: Seq<char>|
            s@ == lead + r@ + trail && #[trigger] text::is_blank(lead) && #[trigger] text::is_blank(
                trail,
            ),
        r@.len() > 0 ==> !text::is_space(r@[0]) && !text::is_space(r@.last()),
{
    lemma_trim_start_cuts(s@);
    let n = choose|n: int|
        0 <= n <= s@.len() && text::trim_start(s@) == s@.skip(n) && text::is_blank(
            #[trigger] s@.take(n),
        );
    let inner = text::trim_start(s@);
    lemma_trim_end_cuts(inner);
    text::lemma_trim_end_trims(inner);
    let trail = inner.skip(r@.len() as int);
    assert(s@ =~= s@.take(n) + r@ + trail);
    if r@.len() > 0 {
        assert(r@[0] == inner[0]);
    }
}

/// Blanks, tabs and line breaks are white space; letters, digits and printable ASCII signs are not.
pub proof fn ascii_white_space(c: char)
    requires
        c <= '\u{7f}',
    ensures
        text::is_space(c) <==> (c == ' ' || c == '\t' || c == '\n' || c == '\r' || c == '\u{b}'
            || c == '\u{c}'),
{
}

/// Trimming what is trimmed changes nothing.
pub proof fn lemma_trim_again(s: Seq<char>)
    ensures
        text::trim_start(text::trim(s)) == text::trim(s),
        text::trim_end(text::trim(s)) == text::trim(s),
        text::trim(text::trim(s)) == text::trim(s),
{
    lemma_trim_start_cuts(s);
    let inner = text::trim_start(s);
    lemma_trim_end_cuts(inner);
    text::lemma_trim_end_trims(inner);
    let r = text::trim(s);
    if r.len() > 0 {
        assert(r[0] == inner[0]);
    }
}

/// A text with no white space at its ends is what is left of it.
pub proof fn lemma_trimmed(s: Seq<char>)
    requires
        s.len() > 0 ==> !text::is_space(s[0]) && !text::is_space(s.last()),
    ensures
        text::trim(s) == s,
        text::trim_start(s) == s,
        text::trim_end(s) == s,
{
}

/// White space at the end does not count when a text is trimmed.
pub proof fn lemma_trim_without_return(s: Seq<char>)
    ensures
        text::trim(text::strip_return(s)) == text::trim(s),
{
    if s.len() > 0 && s.last() == '\r' {
        lemma_trim_drops_last(s);
    }
}

proof fn lemma_trim_drops_last(s: Seq<char>)
    requires
        s.len() > 0,
        text::is_space(s.last()),
    ensures
        text::trim(s.drop_last()) == text::trim(s),
    decreases s.len(),
{
    if text::is_space(s[0]) {
        if s.len() > 1 {
            lemma_trim_drops_last(s.skip(1));
            assert(s.skip(1).drop_last() =~= s.drop_last().skip(1));
        } else {
            assert(s.skip(1) =~= s.drop_last());
        }
    }
}

/// A prefix stays one, up to white space at its end, when a text is trimmed at the end.
pub proof fn lemma_trim_end_keeps_prefix(s: Seq<char>, p: Seq<char>)
    requires
        text::has_prefix(s, p),
    ensures
        text::has_prefix(text::trim_end(s), text::trim_end(p)),
    decreases s.len(),
{
    assert(s.subrange(0, p.len() as int) == p);
    lemma_trim_end_cuts(p);
    if s.len() == p.len() {
        assert(s =~= p);
        assert(text::trim_end(s).subrange(0, text::trim_end(p).len() as int) =~= text::trim_end(p));
    } else if text::is_space(s.last()) {
        assert(s.drop_last().subrange(0, p.len() as int) =~= p);
        lemma_trim_end_keeps_prefix(s.drop_last(), p);
    } else {
        assert(s.subrange(0, text::trim_end(p).len() as int) =~= p.take(
            text::trim_end(p).len() as int,
        ));
    }
}

/// So does any other part.
pub proof fn lemma_trim_end_keeps_text(s: Seq<char>, p: Seq<char>)
    requires
        text::has_text(s, p),
    ensures
        text::has_text(text::trim_end(s), text::trim_end(p)),
{
    let i = choose|i: int| text::occurs_at(s, p, i);
    let t = text::trim_end(s);
    let q = text::trim_end(p);
    lemma_trim_end_cuts(s);
    lemma_trim_end_cuts(p);
    text::lemma_trim_end_trims(p);
    if q.len() == 0 {
        assert(t.subrange(0, 0) =~= q);
        assert(text::occurs_at(t, q, 0));
    } else {
        let last = i + q.len() - 1;
        assert(s.subrange(i, i + p.len())[q.len() - 1] == s[last]);
        assert(p[q.len() - 1] == q.last());
        if last >= t.len() {
            assert(s.skip(t.len() as int)[last - t.len()] == s[last]);
        }
        assert(t.subrange(i, i + q.len()) =~= p.take(q.len() as int)) by {
            assert(s.subrange(i, i + p.len()) == p);
            assert forall|k: int| 0 <= k < q.len() implies #[trigger] t.subrange(i, i + q.len())[k]
                == p[k] by {
                assert(s.subrange(i, i + p.len())[k] == s[i + k]);
            }
        }
        assert(text::occurs_at(t, q, i));
    }
}

/// No line holds a line break.
pub proof fn lemma_lines_hold_no_break(s: Seq<char>, i: int)
    requires
        0 <= i < text::lines(s).len(),
    ensures
        !text::lines(s)[i].contains('\n'),
    decreases s.len(),
{
    text::lemma_line_end(s);
    let n = text::line_end(s);
    if n < s.len() {
        let first = text::strip_return(s.take(n));
        if i == 0 {
            assert(text::lines(s)[0] == first);
            if first.contains('\n') {
                let k = first.index_of('\n');
                assert(s[k] == '\n');
            }
        } else {
            lemma_lines_hold_no_break(s.skip(n + 1), i - 1);
            assert(text::lines(s)[i] == text::lines(s.skip(n + 1))[i - 1]);
        }
    } else if text::lines(s)[i].contains('\n') {
        let k = s.index_of('\n');
        assert(s[k] == '\n');
    }
}

/// The lines of a text without carriage returns, joined by line breaks, are the text, but for a
/// line break at its very end.
pub proof fn lines_make_up_the_text(s: &str, r: Vec<String>)
    requires
        call_ensures(text::lines_of, (s,), r),
        !s@.contains('\r'),
    ensures
        ({
            let joined = text::join(text::views(r@), "\n"@);
            joined == s@ || joined + "\n"@ == s@
        }),
        forall|i: int| 0 <= i < r@.len() ==> !(#[trigger] r@[i])@.contains('\n'),
{
    lemma_lines_joined(s@);
    assert forall|i: int| 0 <= i < r@.len() implies !(#[trigger] r@[i])@.contains('\n') by {
        lemma_lines_hold_no_break(s@, i);
        assert(text::views(r@)[i] == r@[i]@);
    }
}

pub proof fn lemma_lines_joined(s: Seq<char>)
    requires
        !s.contains('\r'),
    ensures
        text::join(text::lines(s), "\n"@) == s || text::join(text::lines(s), "\n"@) + "\n"@ == s,
    decreases s.len(),
{
    reveal_strlit("\n");
    text::lemma_line_end(s);
    let n = text::line_end(s);
    if s.len() > 0 && n < s.len() {
        let first = s.take(n);
        let rest = s.skip(n + 1);
        if first.len() > 0 && first.last() == '\r' {
            assert(s[n - 1] == '\r');
            assert(s.contains('\r'));
        }
        assert(text::strip_return(first) == first);
        if rest.contains('\r') {
            let k = rest.index_of('\r');
            assert(s[k + n + 1] == '\r');
            assert(s.contains('\r'));
        }
        lemma_lines_joined(rest);
        assert(s =~= first + "\n"@ + rest);
        let all = text::lines(s);
        if rest.len() == 0 {
            assert(all =~= seq![first]);
            assert(text::join(all, "\n"@) + "\n"@ =~= s);
        } else {
            text::lemma_line_end(rest);
            assert(text::lines(rest).len() > 0);
            assert(all.skip(1) =~= text::lines(rest));
            lemma_join_front(all, "\n"@);
            assert(first + "\n"@ + (text::join(text::lines(rest), "\n"@) + "\n"@) =~= (first
                + "\n"@ + text::join(text::lines(rest), "\n"@)) + "\n"@);
        }
    } else if s.len() > 0 {
        assert(text::lines(s) =~= seq![s]);
    }
}

/// The lines of joined lines, one by one.
pub proof fn lemma_lines_of_joined(parts: Seq<Seq<char>>)
    requires
        parts.len() >= 2,
        !parts[0].contains('\n'),
    ensures
        text::lines(text::join(parts, "\n"@)) == seq![text::strip_return(parts[0])] + text::lines(
            text::join(parts.skip(1), "\n"@),
        ),
{
    reveal_strlit("\n");
    lemma_join_front(parts, "\n"@);
    let all = text::join(parts, "\n"@);
    let rest = text::join(parts.skip(1), "\n"@);
    let n = parts[0].len() as int;
    text::lemma_line_end(all);
    let e = text::line_end(all);
    assert(all[n] == '\n');
    if e < n {
        assert(parts[0][e] == '\n');
    }
    assert(e == n);
    assert(all.take(n) =~= parts[0]);
    assert(all.skip(n + 1) =~= rest);
}

/// A text that fits is not shortened; one that does not keeps its first characters, and ends in
/// three dots.
pub proof fn short_texts_are_kept_whole(s: &str, max: usize, r: String)
    requires
        call_ensures(text::truncate_str, (s, max), r),
    ensures
        s@.len() <= max ==> r@ == s@,
        s@.len() > max ==> r@.len() == max + 3 && text::has_prefix(r@, s@.take(max as int))
            && text::has_suffix(r@, "..."@),
{
    reveal_strlit("...");
    if s@.len() > max {
        lemma_ends(s@.take(max as int), "..."@);
    }
}

/// What the digits of a number stand for.
pub open spec fn value_of(digits: Seq<char>) -> nat
    decreases digits.len(),
{
    if digits.len() == 0 {
        0
    } else {
        value_of(digits.drop_last()) * 10 + (digits.last() as nat - '0' as nat) as nat
    }
}

pub proof fn lemma_decimal_value(n: nat)
    ensures
        value_of(text::decimal(n)) == n,
        text::decimal(n).len() > 0,
        forall|i: int| 0 <= i < text::decimal(n).len() ==> '0' <= #[trigger] text::decimal(n)[i]
            <= '9',
    decreases n,
{
    let d = text::decimal(n);
    if n < 10 {
        assert(d.drop_last() =~= Seq::empty());
        assert(value_of(d.drop_last()) == 0);
        assert(d.last() == d[0]);
    } else {
        lemma_decimal_value(n / 10);
        assert(d.drop_last() =~= text::decimal(n / 10));
    }
}

/// A number is written with digits, and they stand for it: two numbers are never written alike.
pub proof fn numbers_are_written_in_full(n: u64, m: u64, r: String, t: String)
    requires
        call_ensures(text::decimal_string, (n,), r),
        call_ensures(text::decimal_string, (m,), t),
    ensures
        value_of(r@) == n,
        forall|i: int| 0 <= i < r@.len() ==> '0' <= #[trigger] r@[i] <= '9',
        r@ == t@ ==> n == m,
{
    lemma_decimal_value(n as nat);
    lemma_decimal_value(m as nat);
}

pub proof fn lemma_replaced_unfound(s: Seq<char>, pat: Seq<char>, with: Seq<char>)
    requires
        pat.len() > 0,
        !text::has_text(s, pat),
    ensures
        text::replace_all(s, pat, with) == s,
    decreases s.len(),
{
    if s.len() > 0 {
        assert(!text::occurs_at(s, pat, 0));
        if text::has_text(s.skip(1), pat) {
            let i = choose|i: int| text::occurs_at(s.skip(1), pat, i);
            assert(s.subrange(i + 1, i + 1 + pat.len()) =~= s.skip(1).subrange(i, i + pat.len()));
            assert(text::occurs_at(s, pat, i + 1));
        }
        lemma_replaced_unfound(s.skip(1), pat, with);
        assert(seq![s[0]] + s.skip(1) =~= s);
    }
}

proof fn lemma_replaced_first(
    before: Seq<char>,
    pat: Seq<char>,
    after: Seq<char>,
    with: Seq<char>,
)
    requires
        pat.len() > 0,
        forall|i: int| i < before.len() ==> !text::occurs_at(before + pat + after, pat, i),
    ensures
        text::replace_all(before + pat + after, pat, with) == before + with + text::replace_all(
            after,
            pat,
            with,
        ),
    decreases before.len(),
{
    let s = before + pat + after;
    if before.len() == 0 {
        assert(s.subrange(0, pat.len() as int) =~= pat);
        assert(s.skip(pat.len() as int) =~= after);
        assert(before + with =~= with);
    } else {
        assert(!text::occurs_at(s, pat, 0));
        let rest = before.skip(1);
        assert(s.skip(1) =~= rest + pat + after);
        assert forall|i: int| i < rest.len() implies !text::occurs_at(
            rest + pat + after,
            pat,
            i,
        ) by {
            if text::occurs_at(rest + pat + after, pat, i) {
                assert(s.subrange(i + 1, i + 1 + pat.len()) =~= (rest + pat + after).subrange(
                    i,
                    i + pat.len(),
                ));
                assert(text::occurs_at(s, pat, i + 1));
            }
        }
        lemma_replaced_first(rest, pat, after, with);
        assert(s[0] == before[0]);
        assert(seq![before[0]] + (rest + with + text::replace_all(after, pat, with)) =~= before
            + with + text::replace_all(after, pat, with));
    }
}

/// Replacing leaves a text alone where the pattern does not occur. Where it does, what stands
/// before its first occurrence stays, the replacement comes there, and the rest is replaced in the
/// same way.
pub proof fn replacing_goes_from_the_left(
    s: &str,
    pat: &str,
    with: &str,
    r: String,
    rest: &str,
    t: String,
    at: int,
)
    requires
        call_ensures(text::replace_str, (s, pat, with), r),
        call_ensures(text::replace_str, (rest, pat, with), t),
        pat@.len() > 0,
    ensures
        !text::has_text(s@, pat@) ==> r@ == s@,
        text::occurs_at(s@, pat@, at) && (forall|i: int| i < at ==> !text::occurs_at(s@, pat@, i))
            && rest@ == s@.skip(at + pat@.len()) ==> r@ == s@.take(at) + with@ + t@,
{
    if !text::has_text(s@, pat@) {
        lemma_replaced_unfound(s@, pat@, with@);
    }
    if text::occurs_at(s@, pat@, at) && (forall|i: int|
        i < at ==> !text::occurs_at(s@, pat@, i)) && rest@ == s@.skip(at + pat@.len()) {
        assert(s@ =~= s@.take(at) + pat@ + rest@);
        lemma_replaced_first(s@.take(at), pat@, rest@, with@);
    }
}

/// Lowering changes capital letters of ASCII to small ones, and nothing else.
pub proof fn lowering_changes_capitals_only(s: &str, r: String, i: int)
    requires
        call_ensures(text::lower_str, (s,), r),
        0 <= i < s@.len(),
    ensures
        r@.len() == s@.len(),
        !('A' <= s@[i] <= 'Z') ==> r@[i] == s@[i],
        'A' <= s@[i] <= 'Z' ==> 'a' <= r@[i] <= 'z' && r@[i] as int - 'a' as int == s@[i] as int
            - 'A' as int,
{
    let c = s@[i];
    assert(r@[i] == text::lower_char(c));
    if 'A' <= c <= 'Z' {
        let b = c as u8;
        assert(b == c as int);
        assert((b + 32) as u8 == b + 32);
    }
}

/// The words of a text hold no white space, and none of them is empty.
pub proof fn words_hold_no_white_space(s: &str, r: Vec<String>, i: int)
    requires
        call_ensures(text::words_of, (s,), r),
        0 <= i < r@.len(),
    ensures
        r@[i]@.len() > 0,
        forall|k: int| 0 <= k < r@[i]@.len() ==> !text::is_space(#[trigger] r@[i]@[k]),
{
    assert(text::views(r@)[i] == r@[i]@);
    lemma_words_are_words(s@, i);
}

proof fn lemma_words_are_words(s: Seq<char>, i: int)
    requires
        0 <= i < text::words(s).len(),
    ensures
        text::words(s)[i].len() > 0,
        forall|k: int|
            0 <= k < text::words(s)[i].len() ==> !text::is_space(#[trigger] text::words(s)[i][k]),
    decreases s.len(),
{
    lemma_trim_start_cuts(s);
    text::lemma_trim_start_len(s);
    let t = text::trim_start(s);
    text::lemma_word_len(t);
    if t.len() > 0 {
        let n = text::word_len(t);
        text::lemma_word_len(t.skip(1));
        if i == 0 {
            assert(text::words(s)[0] == t.take(n));
            lemma_word_holds_no_space(t);
        } else {
            lemma_words_are_words(t.skip(n), i - 1);
            assert(text::words(s)[i] == text::words(t.skip(n))[i - 1]);
        }
    }
}

proof fn lemma_word_holds_no_space(t: Seq<char>)
    ensures
        forall|k: int| 0 <= k < text::word_len(t) ==> !text::is_space(#[trigger] t[k]),
    decreases t.len(),
{
    text::lemma_word_len(t);
    if t.len() > 0 && !text::is_space(t[0]) {
        lemma_word_holds_no_space(t.skip(1));
        assert forall|k: int| 0 <= k < text::word_len(t) implies !text::is_space(#[trigger] t[k]) by {
            if k > 0 {
                assert(t.skip(1)[k - 1] == t[k]);
            }
        }
    }
}

} // verus!

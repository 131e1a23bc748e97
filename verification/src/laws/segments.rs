//! What one press of the key accepts.
use vstd::prelude::*;
use crate::engine::segment;
use crate::laws::plain;
use crate::text;
use crate::engine::segment::Reading;
use crate::text::Class;

verus! {

/// A character by which parts of a command line are kept together.
pub open spec fn keeps_together(c: char) -> bool {
    c == '\'' || c == '"' || c == '\\' || c == '[' || c == ']'
}

/// A text without quotation marks, backslashes and square brackets.
pub open spec fn unquoted(s: Seq<char>) -> bool {
    forall|i: int| 0 <= i < s.len() ==> !keeps_together(#[trigger] s[i])
}

/// A text that ends no segment: visible characters besides quotation marks,
/// backslashes, square brackets and separators.
pub open spec fn quiet(s: Seq<char>) -> bool {
    forall|i: int|
        0 <= i < s.len() ==> plain::visible(#[trigger] s[i]) && !keeps_together(s[i]) && s[i] != '@'
            && s[i] != '=' && s[i] != ',' && s[i] != ':' && s[i] != '/'
}

/// What may stand between two double quotation marks: a backslash takes the
/// character behind it along.
pub open spec fn quotable(s: Seq<char>) -> bool
    decreases s.len(),
{
    if s.len() == 0 {
        true
    } else if s[0] == '\\' {
        s.len() >= 2 && quotable(s.skip(2))
    } else {
        s[0] != '"' && quotable(s.skip(1))
    }
}

spec fn read_all(r: Reading, s: Seq<char>) -> Reading
    decreases s.len(),
{
    if s.len() == 0 {
        r
    } else {
        segment::read(read_all(r, s.drop_last()), s.last())
    }
}

proof fn lemma_read_all(a: Seq<char>, b: Seq<char>)
    ensures
        segment::reading(a + b) == read_all(segment::reading(a), b),
    decreases b.len(),
{
    if b.len() == 0 {
        assert(a + b =~= a);
    } else {
        lemma_read_all(a, b.drop_last());
        assert((a + b).drop_last() =~= a + b.drop_last());
        assert((a + b).last() == b.last());
    }
}

proof fn lemma_read_one(a: Seq<char>, c: char)
    ensures
        segment::reading(a.push(c)) == segment::read(segment::reading(a), c),
{
    assert(a.push(c).drop_last() =~= a);
}

proof fn lemma_boundary_is(s: Seq<char>, n: int)
    requires
        0 <= n <= s.len(),
        n < s.len() ==> segment::boundary_at(s, n),
        forall|i: int| 0 <= i < n ==> !#[trigger] segment::boundary_at(s, i),
    ensures
        segment::first_boundary(s, 0) == n,
{
    segment::lemma_first_boundary(s, 0);
    let m = segment::first_boundary(s, 0);
    if m < n {
        assert(segment::boundary_at(s, m));
    } else if n < m {
        assert(!segment::boundary_at(s, n));
    }
}

proof fn lemma_unquoted_reading(s: Seq<char>)
    requires
        unquoted(s),
    ensures
        ({
            let r = segment::reading(s);
            !r.escaped && r.quote is None && r.depth == 0
        }),
    decreases s.len(),
{
    if s.len() > 0 {
        let rest = s.drop_last();
        assert forall|i: int| 0 <= i < rest.len() implies !keeps_together(#[trigger] rest[i]) by {
            assert(rest[i] == s[i]);
        }
        lemma_unquoted_reading(rest);
        assert(!keeps_together(s[s.len() - 1]));
    }
}

/// A part of a text counts as one letter where the shell reads on behind it as
/// behind a letter, and nothing in it is a boundary.
proof fn lemma_counts_as_one(before: Seq<char>, part: Seq<char>, after: Seq<char>)
    requires
        part.len() > 0,
        part[0] != ':' && part[0] != '/',
        segment::reading(before + part) == segment::reading(before.push('x')),
        forall|i: int|
            before.len() <= i < before.len() + part.len() ==> !#[trigger] segment::boundary_at(
                before + part + after,
                i,
            ),
    ensures
        ({
            let short = segment::segment_length(before.push('x') + after);
            segment::segment_length(before + part + after) == if short <= before.len() {
                short
            } else {
                short + part.len() - 1
            }
        }),
{
    let s = before + part + after;
    let t = before.push('x') + after;
    let d = part.len() - 1;
    let p = before.len() as int;
    assert forall|i: int| 0 <= i < p implies #[trigger] segment::boundary_at(s, i)
        == segment::boundary_at(t, i) by {
        assert(s.take(i) =~= t.take(i));
        assert(s[i] == t[i]);
    }
    assert(!segment::boundary_at(t, p)) by {
        assert(t[p] == 'x');
    }
    assert forall|i: int| p < i < t.len() implies #[trigger] segment::boundary_at(t, i)
        == segment::boundary_at(s, i + d) by {
        let j = i - p - 1;
        assert(t.take(i) =~= before.push('x') + after.take(j));
        assert(s.take(i + d) =~= (before + part) + after.take(j));
        lemma_read_all(before.push('x'), after.take(j));
        lemma_read_all(before + part, after.take(j));
        assert(t[i] == after[j] && s[i + d] == after[j]);
    }
    let n = segment::first_boundary(t, 0);
    segment::lemma_first_boundary(t, 0);
    if n < p {
        assert(segment::boundary_at(s, n));
        assert forall|i: int| 0 <= i < n implies !#[trigger] segment::boundary_at(s, i) by {
            assert(!segment::boundary_at(t, i));
        }
        lemma_boundary_is(s, n);
        assert(s[n] == t[n]);
        lemma_same_run(before, part, after, n, Class::ColonOrSlash);
        lemma_same_run(before, part, after, n, Class::Only('/'));
    } else {
        assert(n > p);
        assert forall|i: int| 0 <= i < n + d implies !#[trigger] segment::boundary_at(s, i) by {
            if i < p {
                assert(!segment::boundary_at(t, i));
            } else if i >= p + part.len() {
                assert(!segment::boundary_at(t, i - d));
            }
        }
        if n < t.len() {
            assert(segment::boundary_at(s, n + d));
        }
        lemma_boundary_is(s, n + d);
        if n < t.len() {
            assert(s[n + d] == t[n]);
            assert(s.skip(n + d + 1) =~= t.skip(n + 1));
            text::lemma_span(t.skip(n + 1), Class::ColonOrSlash, true);
            text::lemma_span(t.skip(n + 1), Class::Only('/'), true);
        }
    }
}

proof fn lemma_same_run(
    before: Seq<char>,
    part: Seq<char>,
    after: Seq<char>,
    n: int,
    k: Class,
)
    requires
        part.len() > 0,
        part[0] != ':' && part[0] != '/',
        0 <= n < before.len(),
        k == Class::ColonOrSlash || k == Class::Only('/'),
    ensures
        text::span((before + part + after).skip(n + 1), k, true) == text::span(
            (before.push('x') + after).skip(n + 1),
            k,
            true,
        ),
        n + 1 + text::span((before.push('x') + after).skip(n + 1), k, true) <= before.len(),
{
    let s = (before + part + after).skip(n + 1);
    let t = (before.push('x') + after).skip(n + 1);
    let m = text::span(t, k, true);
    text::lemma_span(t, k, true);
    let rest = before.len() - n - 1;
    assert(t[rest] == 'x');
    if m > rest {
        assert(text::in_class(k, t[rest]));
    }
    assert forall|i: int| 0 <= i < m implies text::in_class(k, #[trigger] s[i]) by {
        assert(s[i] == t[i]);
    }
    if m < rest {
        assert(s[m as int] == t[m as int]);
    } else {
        assert(s[rest] == part[0]);
    }
    text::lemma_span_is(s, k, true, m);
}

proof fn lemma_quoting(before: Seq<char>, mark: char, body: Seq<char>)
    requires
        unquoted(before),
        mark == '\'' || mark == '"',
        mark == '\'' ==> plain::lacks(body, '\''),
        mark == '"' ==> quotable(body),
    ensures
        segment::reading(before.push(mark) + body) == (Reading {
            escaped: false,
            quote: Some(mark),
            depth: 0,
            begun: true,
        }),
        forall|i: int|
            0 <= i <= body.len() ==> (#[trigger] segment::reading(
                before.push(mark) + body.take(i),
            )).quote == Some(mark),
{
    let open = before.push(mark);
    lemma_unquoted_reading(before);
    lemma_read_one(before, mark);
    let inside = Reading { escaped: false, quote: Some(mark), depth: 0, begun: true };
    assert(segment::reading(open) == inside);
    assert(open + body.take(0) =~= open);
    assert(body.skip(0) =~= body);
    lemma_inside(open, mark, body, 0);
    assert(body.take(body.len() as int) =~= body);
}

proof fn lemma_inside(open: Seq<char>, mark: char, body: Seq<char>, n: int)
    requires
        mark == '\'' || mark == '"',
        0 <= n <= body.len(),
        mark == '\'' ==> plain::lacks(body, '\''),
        mark == '"' ==> quotable(body.skip(n)),
        segment::reading(open + body.take(n)) == (Reading {
            escaped: false,
            quote: Some(mark),
            depth: 0,
            begun: true,
        }),
    ensures
        segment::reading(open + body.take(body.len() as int)) == (Reading {
            escaped: false,
            quote: Some(mark),
            depth: 0,
            begun: true,
        }),
        forall|i: int|
            n <= i <= body.len() ==> (#[trigger] segment::reading(open + body.take(i))).quote
                == Some(mark),
    decreases body.len() - n,
{
    if n < body.len() {
        let c = body[n];
        let rest = body.skip(n);
        assert(rest[0] == c);
        assert(open + body.take(n + 1) =~= (open + body.take(n)).push(c));
        lemma_read_one(open + body.take(n), c);
        if mark == '"' && c == '\\' {
            let d = body[n + 1];
            assert(open + body.take(n + 2) =~= (open + body.take(n + 1)).push(d));
            lemma_read_one(open + body.take(n + 1), d);
            assert(rest.skip(2) =~= body.skip(n + 2));
            lemma_inside(open, mark, body, n + 2);
            assert forall|i: int| n <= i <= body.len() implies (#[trigger] segment::reading(
                open + body.take(i),
            )).quote == Some(mark) by {
                if i == n + 1 {
                    assert(segment::reading(open + body.take(n + 1)).quote == Some(mark));
                }
            }
        } else {
            assert(rest.skip(1) =~= body.skip(n + 1));
            lemma_inside(open, mark, body, n + 1);
        }
    }
}

/// What is quoted is accepted as one: a quotation, single or double, counts like
/// a letter in its place, whatever it holds.
pub proof fn law_quotation_counts_as_one_letter(
    before: Seq<char>,
    mark: char,
    body: Seq<char>,
    after: Seq<char>,
)
    requires
        unquoted(before),
        mark == '\'' || mark == '"',
        mark == '\'' ==> plain::lacks(body, '\''),
        mark == '"' ==> quotable(body),
    ensures
        ({
            let short = segment::segment_length(before.push('x') + after);
            segment::segment_length(before + (seq![mark] + body + seq![mark]) + after) == if short
                <= before.len() {
                short
            } else {
                short + body.len() + 1
            }
        }),
{
    let part = seq![mark] + body + seq![mark];
    let s = before + part + after;
    let p = before.len() as int;
    lemma_unquoted_reading(before);
    lemma_quoting(before, mark, body);
    assert(before + part =~= (before.push(mark) + body).push(mark));
    lemma_read_one(before.push(mark) + body, mark);
    lemma_read_one(before, 'x');
    assert(segment::reading(before + part) == segment::reading(before.push('x')));
    assert forall|i: int| p <= i < p + part.len() implies !#[trigger] segment::boundary_at(s, i) by {
        if i == p {
            assert(s[i] == mark);
        } else {
            assert(s.take(i) =~= before.push(mark) + body.take(i - p - 1));
            assert(segment::reading(before.push(mark) + body.take(i - p - 1)).quote == Some(mark));
        }
    }
    lemma_counts_as_one(before, part, after);
}

/// No segment ends inside a quotation that opens a suggestion.
pub proof fn law_no_end_inside_quotation(mark: char, body: Seq<char>, after: Seq<char>)
    requires
        mark == '\'' || mark == '"',
        plain::lacks(body, mark),
        plain::lacks(body, '\\'),
    ensures
        segment::segment_length(seq![mark] + body + seq![mark] + after) > body.len() + 1,
        segment::segment_length(seq![mark] + body) == body.len() + 1,
{
    let none = Seq::<char>::empty();
    lemma_quotable(body);
    law_quotation_counts_as_one_letter(none, mark, body, after);
    assert(none + (seq![mark] + body + seq![mark]) + after =~= seq![mark] + body + seq![mark]
        + after);
    segment::law_segment_is_a_prefix(none.push('x') + after);
    lemma_quiet_letter();
    law_open_quotation_takes_all(none, mark, body);
    assert(none + (seq![mark] + body) =~= seq![mark] + body);
}

proof fn lemma_quiet_letter()
    ensures
        segment::segment_length(Seq::<char>::empty().push('x')) == 1,
{
    let s = Seq::<char>::empty().push('x');
    assert(!segment::boundary_at(s, 0)) by {
        assert(s[0] == 'x');
    }
    lemma_boundary_is(s, 1);
}

proof fn lemma_quotable(s: Seq<char>)
    requires
        plain::lacks(s, '\\'),
    ensures
        plain::lacks(s, '"') ==> quotable(s),
    decreases s.len(),
{
    if s.len() > 0 {
        assert forall|i: int| 0 <= i < s.skip(1).len() implies #[trigger] s.skip(1)[i] != '\\' by {
            assert(s[i + 1] != '\\');
        }
        if plain::lacks(s, '"') {
            assert forall|i: int| 0 <= i < s.skip(1).len() implies #[trigger] s.skip(1)[i]
                != '"' by {
                assert(s[i + 1] != '"');
            }
        }
        lemma_quotable(s.skip(1));
    }
}

/// A quotation that nothing closes takes everything behind it along.
pub proof fn law_open_quotation_takes_all(before: Seq<char>, mark: char, body: Seq<char>)
    requires
        unquoted(before),
        mark == '\'' || mark == '"',
        mark == '\'' ==> plain::lacks(body, '\''),
        mark == '"' ==> quotable(body),
        segment::segment_length(before.push('x')) > before.len(),
    ensures
        segment::segment_length(before + (seq![mark] + body)) == before.len() + body.len() + 1,
{
    let s = before + (seq![mark] + body);
    let t = before.push('x');
    let p = before.len() as int;
    lemma_quoting(before, mark, body);
    let n = segment::first_boundary(t, 0);
    segment::lemma_first_boundary(t, 0);
    if n < p {
        let none = Seq::<char>::empty();
        assert(t + none =~= t);
        lemma_same_run(before, seq!['x'], none, n, Class::ColonOrSlash);
        lemma_same_run(before, seq!['x'], none, n, Class::Only('/'));
        assert(false);
    }
    assert forall|i: int| 0 <= i < s.len() implies !#[trigger] segment::boundary_at(s, i) by {
        if i < p {
            assert(s.take(i) =~= t.take(i));
            assert(s[i] == t[i]);
            assert(!segment::boundary_at(t, i));
        } else if i == p {
            assert(s[i] == mark);
        } else {
            assert(s.take(i) =~= before.push(mark) + body.take(i - p - 1));
            assert(segment::reading(before.push(mark) + body.take(i - p - 1)).quote == Some(mark));
        }
    }
    lemma_boundary_is(s, s.len() as int);
}

/// An escaped character counts like a letter in its place, whatever it is.
pub proof fn law_escape_counts_as_one_letter(before: Seq<char>, c: char, after: Seq<char>)
    requires
        unquoted(before),
    ensures
        ({
            let short = segment::segment_length(before.push('x') + after);
            segment::segment_length(before + seq!['\\', c] + after) == if short <= before.len() {
                short
            } else {
                short + 1
            }
        }),
{
    let part = seq!['\\', c];
    let s = before + part + after;
    let p = before.len() as int;
    lemma_unquoted_reading(before);
    lemma_read_one(before, '\\');
    lemma_read_one(before, 'x');
    lemma_read_one(before.push('\\'), c);
    assert(before + part =~= before.push('\\').push(c));
    assert forall|i: int| p <= i < p + part.len() implies !#[trigger] segment::boundary_at(s, i) by {
        if i == p {
            assert(s[i] == '\\');
        } else {
            assert(s.take(i) =~= before.push('\\'));
        }
    }
    lemma_counts_as_one(before, part, after);
}

/// What stands in square brackets, as the address of a host, counts like a letter
/// in its place.
pub proof fn law_brackets_count_as_one_letter(before: Seq<char>, body: Seq<char>, after: Seq<char>)
    requires
        unquoted(before),
        unquoted(body),
        forall|i: int| 0 <= i < body.len() ==> plain::visible(#[trigger] body[i]),
    ensures
        ({
            let short = segment::segment_length(before.push('x') + after);
            segment::segment_length(before + (seq!['['] + body + seq![']']) + after) == if short
                <= before.len() {
                short
            } else {
                short + body.len() + 1
            }
        }),
{
    let part = seq!['['] + body + seq![']'];
    let s = before + part + after;
    let p = before.len() as int;
    let open = before.push('[');
    lemma_unquoted_reading(before);
    lemma_read_one(before, '[');
    lemma_read_one(before, 'x');
    let inside = Reading { escaped: false, quote: None, depth: 1, begun: true };
    assert(segment::reading(open) == inside);
    assert forall|i: int| 0 <= i <= body.len() implies #[trigger] segment::reading(
        open + body.take(i),
    ) == inside by {
        lemma_in_brackets(open, body, i);
    }
    assert(body.take(body.len() as int) =~= body);
    assert(segment::reading(open + body.take(body.len() as int)) == inside);
    assert(before + part =~= (open + body).push(']'));
    lemma_read_one(open + body, ']');
    assert forall|i: int| p <= i < p + part.len() implies !#[trigger] segment::boundary_at(s, i) by {
        if i == p {
            assert(s[i] == '[');
        } else {
            let j = i - p - 1;
            assert(s.take(i) =~= open + body.take(j));
            assert(segment::reading(open + body.take(j)) == inside);
            if j < body.len() {
                assert(s[i] == body[j]);
            } else {
                assert(s[i] == ']');
            }
        }
    }
    lemma_counts_as_one(before, part, after);
}

proof fn lemma_in_brackets(open: Seq<char>, body: Seq<char>, i: int)
    requires
        0 <= i <= body.len(),
        unquoted(body),
        forall|j: int| 0 <= j < body.len() ==> plain::visible(#[trigger] body[j]),
        segment::reading(open) == (Reading { escaped: false, quote: None, depth: 1, begun: true }),
    ensures
        segment::reading(open + body.take(i)) == (Reading {
            escaped: false,
            quote: None,
            depth: 1,
            begun: true,
        }),
    decreases i,
{
    if i == 0 {
        assert(open + body.take(0) =~= open);
    } else {
        lemma_in_brackets(open, body, i - 1);
        assert(open + body.take(i) =~= (open + body.take(i - 1)).push(body[i - 1]));
        lemma_read_one(open + body.take(i - 1), body[i - 1]);
        assert(!keeps_together(body[i - 1]));
        assert(plain::visible(body[i - 1]));
    }
}

proof fn lemma_quiet(lead: Seq<char>, word: Seq<char>, after: Seq<char>)
    requires
        plain::spaces(lead),
        quiet(word),
    ensures
        ({
            let s = lead + word + after;
            let n = lead.len() + word.len();
            &&& forall|i: int| 0 <= i < n ==> !#[trigger] segment::boundary_at(s, i)
            &&& segment::reading(s.take(n as int)) == (Reading {
                escaped: false,
                quote: None,
                depth: 0,
                begun: word.len() > 0,
            })
        }),
{
    let s = lead + word + after;
    let n = lead.len() + word.len();
    assert forall|i: int| 0 <= i <= n implies #[trigger] segment::reading(s.take(i)) == (Reading {
        escaped: false,
        quote: None,
        depth: 0,
        begun: i > lead.len(),
    }) by {
        lemma_quiet_reading(lead, word, after, i);
    }
    assert forall|i: int| 0 <= i < n implies !#[trigger] segment::boundary_at(s, i) by {
        assert(segment::reading(s.take(i)).begun == (i > lead.len()));
        if i < lead.len() {
            assert(s[i] == lead[i]);
        } else {
            assert(s[i] == word[i - lead.len()]);
        }
    }
}

proof fn lemma_quiet_reading(lead: Seq<char>, word: Seq<char>, after: Seq<char>, i: int)
    requires
        plain::spaces(lead),
        quiet(word),
        0 <= i <= lead.len() + word.len(),
    ensures
        segment::reading((lead + word + after).take(i)) == (Reading {
            escaped: false,
            quote: None,
            depth: 0,
            begun: i > lead.len(),
        }),
    decreases i,
{
    let s = lead + word + after;
    if i > 0 {
        lemma_quiet_reading(lead, word, after, i - 1);
        assert(s.take(i) =~= s.take(i - 1).push(s[i - 1]));
        lemma_read_one(s.take(i - 1), s[i - 1]);
        if i <= lead.len() {
            assert(s[i - 1] == lead[i - 1]);
        } else {
            assert(s[i - 1] == word[i - 1 - lead.len()]);
        }
    }
}

/// A word is accepted with the spaces before it and the white space behind it; a
/// name with the separator behind it, and with the slashes that repeat one or the
/// colons and slashes that follow a colon. Without any of these everything is
/// accepted.
pub proof fn law_segment_of_word(
    lead: Seq<char>,
    word: Seq<char>,
    end: char,
    run: Seq<char>,
    after: Seq<char>,
)
    requires
        plain::spaces(lead),
        quiet(word),
    ensures
        segment::segment_length(lead + word) == lead.len() + word.len(),
        segment::first_segment(lead + word) == lead + word,
        (end == '@' || end == '=' || end == ',') ==> segment::first_segment(
            lead + word + (seq![end] + after),
        ) == lead + word + seq![end],
        word.len() > 0 && (end == ' ' || end == '\t') ==> segment::segment_length(
            lead + word + (seq![end] + after),
        ) == lead.len() + word.len() + 1,
        (end == '@' || end == '=' || end == ',') ==> segment::segment_length(
            lead + word + (seq![end] + after),
        ) == lead.len() + word.len() + 1,
        end == '/' && (forall|i: int| 0 <= i < run.len() ==> #[trigger] run[i] == '/') && (
        after.len() > 0 ==> after[0] != '/') ==> segment::segment_length(
            lead + word + (seq![end] + run + after),
        ) == lead.len() + word.len() + 1 + run.len(),
        end == ':' && (forall|i: int|
            0 <= i < run.len() ==> #[trigger] run[i] == '/' || run[i] == ':') && (after.len() > 0
            ==> after[0] != '/' && after[0] != ':') ==> segment::segment_length(
            lead + word + (seq![end] + run + after),
        ) == lead.len() + word.len() + 1 + run.len(),
{
    let n = (lead.len() + word.len()) as int;
    let none = Seq::<char>::empty();
    let whole = lead + word;
    lemma_quiet(lead, word, none);
    assert(lead + word + none =~= whole);
    lemma_boundary_is(whole, n);
    assert(whole.take(n) =~= whole);
    let s = lead + word + (seq![end] + after);
    assert(s.take(n + 1) =~= lead + word + seq![end]);
    lemma_quiet(lead, word, seq![end] + after);
    assert(s[n] == end);
    if segment::boundary_at(s, n) {
        lemma_boundary_is(s, n);
    }
    let t = lead + word + (seq![end] + run + after);
    lemma_quiet(lead, word, seq![end] + run + after);
    assert(t[n] == end);
    if end == '/' || end == ':' {
        assert(segment::boundary_at(t, n));
        lemma_boundary_is(t, n);
        assert(t.skip(n + 1) =~= run + after);
        if end == '/' && (forall|i: int| 0 <= i < run.len() ==> #[trigger] run[i] == '/') && (
        after.len() > 0 ==> after[0] != '/') {
            text::lemma_span_is(run + after, Class::Only('/'), true, run.len());
        }
        if end == ':' && (forall|i: int|
            0 <= i < run.len() ==> #[trigger] run[i] == '/' || run[i] == ':') && (after.len() > 0
            ==> after[0] != '/' && after[0] != ':') {
            text::lemma_span_is(run + after, Class::ColonOrSlash, true, run.len());
        }
    }
}

/// Behind a square bracket that nothing closes only white space ends a segment.
pub proof fn law_open_bracket(before: Seq<char>, body: Seq<char>, end: char, after: Seq<char>)
    requires
        quiet(before),
        unquoted(body),
        forall|i: int| 0 <= i < body.len() ==> plain::visible(#[trigger] body[i]),
        end == ' ' || end == '\t',
    ensures
        segment::first_segment(before + (seq!['['] + body)) == before + (seq!['['] + body),
        segment::first_segment(before + (seq!['['] + body) + (seq![end] + after)) == before + (
        seq!['['] + body) + seq![end],
{
    let none = Seq::<char>::empty();
    let part = before + (seq!['['] + body);
    let s = part + (seq![end] + after);
    let n = part.len() as int;
    let p = before.len() as int;
    let open = before.push('[');
    assert forall|i: int| 0 <= i < before.len() implies !keeps_together(#[trigger] before[i]) by {
        assert(plain::visible(before[i]) && !keeps_together(before[i]));
    }
    lemma_unquoted_reading(before);
    lemma_read_one(before, '[');
    let inside = Reading { escaped: false, quote: None, depth: 1, begun: true };
    assert(segment::reading(open) == inside);
    assert forall|t: Seq<char>, i: int| 0 <= i < n && t.len() >= n && #[trigger] t.take(n)
        == part implies !#[trigger] segment::boundary_at(t, i) by {
        assert(t[i] == t.take(n)[i]);
        if i < p {
            assert(t[i] == before[i]);
        } else if i == p {
            assert(t[i] == '[');
        } else {
            let j = i - p - 1;
            assert(t.take(i) =~= t.take(n).take(i));
            assert(t.take(i) =~= open + body.take(j));
            lemma_in_brackets(open, body, j);
            assert(t[i] == body[j]);
        }
    }
    assert(part.take(n) =~= part);
    lemma_boundary_is(part, n);
    assert(s.take(n) =~= part);
    assert(part =~= open + body.take(body.len() as int));
    lemma_in_brackets(open, body, body.len() as int);
    assert(s[n] == end);
    assert(segment::boundary_at(s, n));
    lemma_boundary_is(s, n);
    assert(s.take(n + 1) =~= part + seq![end]);
}

} // verus!

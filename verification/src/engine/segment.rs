//! The part of a suggestion that one key press accepts.
use vstd::prelude::*;
use crate::text;
use crate::text::{chars_of, span_end, text_of, up_to, Class};

verus! {

/// How the shell reads the character after some others.
pub struct Reading {
    /// A backslash escapes it.
    pub escaped: bool,
    /// The quotation mark it stands inside.
    pub quote: Option<char>,
    /// The number of open square brackets.
    pub depth: nat,
    /// Something besides white space stands before it.
    pub begun: bool,
}

/// Reads one more character.
pub open spec fn read(r: Reading, c: char) -> Reading {
    if r.escaped {
        Reading { escaped: false, begun: true, ..r }
    } else if c == '\\' && r.quote != Some('\'') {
        Reading { escaped: true, begun: true, ..r }
    } else if c == '\'' || c == '"' {
        Reading {
            quote: if r.quote == Some(c) {
                None
            } else if r.quote is None {
                Some(c)
            } else {
                r.quote
            },
            begun: true,
            ..r
        }
    } else if r.quote is Some {
        Reading { begun: true, ..r }
    } else if text::whitespace(c) {
        r
    } else {
        Reading {
            depth: if c == '[' {
                r.depth + 1
            } else if c == ']' && r.depth > 0 {
                (r.depth - 1) as nat
            } else {
                r.depth
            },
            begun: true,
            ..r
        }
    }
}

/// How the shell reads what follows `s`.
pub open spec fn reading(s: Seq<char>) -> Reading
    decreases s.len(),
{
    if s.len() == 0 {
        Reading { escaped: false, quote: None, depth: 0, begun: false }
    } else {
        read(reading(s.drop_last()), s.last())
    }
}

/// The character at `i` has its plain meaning: it is neither escaped nor
/// quoted, nor does it escape or quote.
pub open spec fn plain_at(s: Seq<char>, i: int) -> bool {
    let r = reading(s.take(i));
    !r.escaped && r.quote is None && s[i] != '\\' && s[i] != '\'' && s[i] != '"'
}

/// The character at `i` ends a segment: white space after something else, or a
/// separator outside square brackets.
pub open spec fn boundary_at(s: Seq<char>, i: int) -> bool {
    let r = reading(s.take(i));
    plain_at(s, i) && if text::whitespace(s[i]) {
        r.begun
    } else {
        r.depth == 0 && (s[i] == '@' || s[i] == '=' || s[i] == ',' || s[i] == ':' || s[i] == '/')
    }
}

/// The first boundary from `i` on; the length when there is none.
pub open spec fn first_boundary(s: Seq<char>, i: int) -> int
    decreases s.len() - i,
{
    if i < 0 || i >= s.len() {
        s.len() as int
    } else if boundary_at(s, i) {
        i
    } else {
        first_boundary(s, i + 1)
    }
}

/// The length of the first segment: up to and with the first boundary, and
/// with the slashes that repeat one, or the colons and slashes after a colon.
pub open spec fn segment_length(s: Seq<char>) -> int {
    let i = first_boundary(s, 0);
    if i >= s.len() {
        s.len() as int
    } else if s[i] == ':' {
        i + 1 + text::span(s.skip(i + 1), Class::ColonOrSlash, true)
    } else if s[i] == '/' {
        i + 1 + text::span(s.skip(i + 1), Class::Only('/'), true)
    } else {
        i + 1
    }
}

/// The first segment of a suggestion.
pub open spec fn first_segment(s: Seq<char>) -> Seq<char> {
    s.take(segment_length(s))
}

pub proof fn lemma_first_boundary(s: Seq<char>, i: int)
    requires
        0 <= i <= s.len(),
    ensures
        i <= first_boundary(s, i) <= s.len(),
        first_boundary(s, i) < s.len() ==> boundary_at(s, first_boundary(s, i)),
        forall|j: int| i <= j < first_boundary(s, i) ==> !#[trigger] boundary_at(s, j),
    decreases s.len() - i,
{
    if i < s.len() && !boundary_at(s, i) {
        lemma_first_boundary(s, i + 1);
    }
}

/// A key press accepts a prefix of the suggestion, and never nothing of one
/// that is not empty.
pub proof fn law_segment_is_a_prefix(s: Seq<char>)
    ensures
        0 <= segment_length(s) <= s.len(),
        s.len() > 0 ==> segment_length(s) > 0,
        first_segment(s).len() == segment_length(s),
        first_segment(s) + s.skip(segment_length(s)) == s,
{
    lemma_first_boundary(s, 0);
    let i = first_boundary(s, 0);
    if i < s.len() {
        crate::text::lemma_span(s.skip(i + 1), Class::ColonOrSlash, true);
        crate::text::lemma_span(s.skip(i + 1), Class::Only('/'), true);
    }
    assert(first_segment(s) + s.skip(segment_length(s)) =~= s);
}

/// The segments that repeated key presses accept.
pub open spec fn segments(s: Seq<char>) -> Seq<Seq<char>>
    decreases s.len(),
{
    if s.len() == 0 {
        Seq::empty()
    } else {
        let n = segment_length(s);
        if 0 < n <= s.len() {
            seq![s.take(n)] + segments(s.skip(n))
        } else {
            Seq::empty()
        }
    }
}

/// Repeated key presses accept the whole suggestion and nothing else.
pub proof fn law_segments_make_up_the_suggestion(s: Seq<char>)
    ensures
        segments(s).flatten() == s,
        forall|i: int| 0 <= i < segments(s).len() ==> (#[trigger] segments(s)[i]).len() > 0,
    decreases s.len(),
{
    if s.len() == 0 {
        assert(segments(s).flatten() =~= s);
    } else {
        law_segment_is_a_prefix(s);
        let n = segment_length(s);
        let rest = segments(s.skip(n));
        law_segments_make_up_the_suggestion(s.skip(n));
        let list = seq![s.take(n)] + rest;
        assert(list.drop_first() =~= rest);
        assert(list.first() == s.take(n));
        assert(list.flatten() == s.take(n) + rest.flatten());
        assert(s.take(n) + s.skip(n) =~= s);
        assert forall|i: int| 0 <= i < segments(s).len() implies (
        #[trigger] segments(s)[i]).len() > 0 by {
            if i > 0 {
                assert(segments(s)[i] == rest[i - 1]);
            }
        }
    }
}

/// Nothing inside the accepted segment but its end is a boundary: a key press
/// accepts as little as it may.
pub proof fn law_segment_is_shortest(s: Seq<char>, i: int)
    requires
        0 <= i < first_boundary(s, 0),
    ensures
        !boundary_at(s, i),
{
    lemma_first_boundary(s, 0);
}

/// The number of characters that one key press accepts.
pub fn segment_end(s: &[char]) -> (n: usize)
    ensures
        n == segment_length(s@),
        n <= s@.len(),
{
    let mut escaped = false;
    let mut quote: Option<char> = None;
    let mut depth: usize = 0;
    let mut begun = false;
    let mut i: usize = 0;
    assert(s@.take(0) =~= Seq::<char>::empty());
    while i < s.len()
        invariant
            i <= s@.len(),
            depth <= i,
            (Reading { escaped, quote, depth: depth as nat, begun }) == reading(s@.take(i as int)),
            first_boundary(s@, 0) == first_boundary(s@, i as int),
        decreases s.len() - i,
    {
        let c = s[i];
        proof {
            assert(s@.take(i + 1).drop_last() =~= s@.take(i as int));
            assert(s@.take(i + 1).last() == c);
        }
        if escaped {
            escaped = false;
            begun = true;
        } else if c == '\\' && quote != Some('\'') {
            escaped = true;
            begun = true;
        } else if c == '\'' || c == '"' {
            if quote == Some(c) {
                quote = None;
            } else if quote.is_none() {
                quote = Some(c);
            }
            begun = true;
        } else if quote.is_some() {
            begun = true;
        } else if Class::Whitespace.admits(c) {
            if begun {
                assert(boundary_at(s@, i as int));
                return i + 1;
            }
        } else {
            begun = true;
            if depth == 0 && (c == '@' || c == '=' || c == ',') {
                assert(boundary_at(s@, i as int));
                return i + 1;
            }
            if depth == 0 && c == ':' {
                assert(boundary_at(s@, i as int));
                return span_end(s, i + 1, Class::ColonOrSlash, true);
            }
            if depth == 0 && c == '/' {
                assert(boundary_at(s@, i as int));
                return span_end(s, i + 1, Class::Only('/'), true);
            }
            if c == '[' {
                depth += 1;
            } else if c == ']' && depth > 0 {
                depth -= 1;
            }
        }
        i += 1;
    }
    s.len()
}

/// The part of a suggestion that one key press accepts.
pub fn next_segment(suffix: &str) -> (r: String)
    ensures
        r@ == first_segment(suffix@),
{
    let characters = chars_of(suffix);
    let n: usize = segment_end(characters.as_slice());
    text_of(up_to(characters.as_slice(), n))
}

} // verus!

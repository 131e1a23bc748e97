//! The lines of a manual page or a help text.
use vstd::prelude::*;
use crate::commands::help;
use crate::laws::plain;
use crate::laws::texts;
use crate::text;
use crate::text::Class;

verus! {

/// A description that is shown as it stands: visible characters, one of them a
/// letter, with single spaces between them, and not too many.
pub open spec fn description(s: Seq<char>) -> bool {
    plain::single_spaced(s) && text::some_alphabetic(s) && s.len() <= 200
}

/// A heading: visible characters and single spaces, the last one a letter.
pub open spec fn heading(s: Seq<char>) -> bool {
    plain::single_spaced(s) && plain::letter(s.last())
}

pub proof fn lemma_shown(line: Seq<char>)
    requires
        plain::printed(line),
    ensures
        help::shown(line).text == line,
        help::shown(line).escape == 0,
        !help::unsafe_line(line),
    decreases line.len(),
{
    if line.len() > 0 {
        let rest = line.drop_last();
        assert forall|i: int| 0 <= i < rest.len() implies plain::visible(#[trigger] rest[i])
            || rest[i] == ' ' by {
            assert(rest[i] == line[i]);
        }
        lemma_shown(rest);
        assert(plain::visible(line[line.len() - 1]) || line[line.len() - 1] == ' ');
        assert(rest.push(line.last()) =~= line);
    }
    if help::unsafe_line(line) {
        let i = choose|i: int| 0 <= i < line.len() && #[trigger] help::unsafe_at(line, i);
        assert(plain::visible(line[i]) || line[i] == ' ');
    }
}

/// A printed line with something visible in it is read from its first visible
/// character to its last; what stands before that is its indentation.
pub proof fn lemma_line(indent: Seq<char>, s: Seq<char>, tail: Seq<char>)
    requires
        plain::spaces(indent),
        plain::spaces(tail),
        plain::printed(s),
        s.len() > 0,
        s[0] != ' ',
        s.last() != ' ',
    ensures
        help::clean(indent + s + tail) == Some(indent + s),
        text::trim(indent + s, Class::Whitespace) == s,
        help::indentation(indent + s) == indent.len(),
        !help::unsafe_line(indent + s + tail),
        plain::lacks(indent + s + tail, '\n'),
        (indent + s + tail).last() != '\r',
{
    let line = indent + s + tail;
    assert forall|i: int| 0 <= i < line.len() implies plain::visible(#[trigger] line[i]) || line[i]
        == ' ' by {
        if i < indent.len() {
            assert(line[i] == indent[i]);
        } else if i < indent.len() + s.len() {
            assert(line[i] == s[i - indent.len()]);
        } else {
            assert(line[i] == tail[i - indent.len() - s.len()]);
        }
    }
    lemma_shown(line);
    assert(plain::visible(s[0]));
    assert(plain::visible(s[s.len() - 1]));
    texts::law_trimmed(indent, s, tail);
    let none = Seq::<char>::empty();
    texts::law_trimmed(indent, s, none);
    assert(indent + s + none =~= indent + s);
    let kept = indent + s;
    assert(!text::all_in(kept, Class::Whitespace)) by {
        assert(kept[indent.len() as int] == s[0]);
        assert(!text::in_class(Class::Whitespace, kept[indent.len() as int]));
    }
    text::lemma_span_is(kept, Class::Only(' '), true, indent.len());
    assert(plain::visible(line[line.len() - 1]) || line[line.len() - 1] == ' ');
}

/// A line of spaces shows nothing.
pub proof fn lemma_blank_line(line: Seq<char>)
    requires
        plain::spaces(line),
    ensures
        help::clean(line) is None,
{
    lemma_shown(line);
    text::lemma_back_span_is(line, Class::Whitespace, line.len());
    assert(line.take(0) =~= Seq::empty());
}

proof fn lemma_join_cons(first: Seq<char>, rest: Seq<Seq<char>>, sep: Seq<char>)
    requires
        rest.len() > 0,
    ensures
        text::join(seq![first] + rest, sep) == first + sep + text::join(rest, sep),
    decreases rest.len(),
{
    let list = seq![first] + rest;
    if rest.len() == 1 {
        assert(list.drop_last() =~= seq![first]);
        assert(list.last() == rest[0]);
        assert(text::join(seq![first], sep) == first);
    } else {
        lemma_join_cons(first, rest.drop_last(), sep);
        assert(list.drop_last() =~= seq![first] + rest.drop_last());
        assert(list.last() == rest.last());
        assert(first + sep + text::join(rest.drop_last(), sep) + sep + rest.last() =~= first + sep + (
        text::join(rest.drop_last(), sep) + sep + rest.last()));
    }
}

proof fn lemma_words_joined(s: Seq<char>)
    requires
        plain::single_spaced(s),
    ensures
        text::words(s, Class::Whitespace).len() > 0,
        text::join(text::words(s, Class::Whitespace), seq![' ']) == s,
    decreases s.len(),
{
    let k = Class::Whitespace;
    let n = text::span(s, Class::Only(' '), false) as int;
    text::lemma_span(s, Class::Only(' '), false);
    let word = s.take(n);
    assert(n > 0) by {
        if n == 0 {
            assert(s[0] != ' ');
        }
    }
    assert forall|i: int| 0 <= i < word.len() implies plain::visible(#[trigger] word[i]) by {
        assert(text::in_class(Class::Only(' '), s[i]) == false);
    }
    let none = Seq::<char>::empty();
    if n == s.len() {
        assert(word =~= s);
        assert(word + none =~= s);
        texts::law_first_word(word, none, k);
        assert(text::words(s, k) =~= seq![s]);
    } else {
        let rest = s.skip(n);
        let after = s.skip(n + 1);
        assert(s[n] == ' ');
        assert(n + 1 < s.len()) by {
            if n + 1 == s.len() {
                assert(s.last() == s[n]);
            }
        }
        assert(word + rest =~= s);
        texts::law_first_word(word, rest, k);
        assert(seq![' '] + after =~= rest);
        texts::law_words_skip_spaces(seq![' '], after, k);
        assert(after[0] == s[n + 1]);
        assert(after.last() == s.last());
        assert forall|i: int| 0 < i < after.len() && after[i - 1] == ' ' implies #[trigger] after[i]
            != ' ' by {
            assert(after[i] == s[i + n + 1] && after[i - 1] == s[i + n]);
        }
        assert forall|i: int| 0 <= i < after.len() implies plain::visible(#[trigger] after[i])
            || after[i] == ' ' by {
            assert(after[i] == s[i + n + 1]);
        }
        lemma_words_joined(after);
        lemma_join_cons(word, text::words(after, k), seq![' ']);
        assert(word + seq![' '] + after =~= s);
    }
}

proof fn lemma_all_kept(s: Seq<char>, test: spec_fn(char) -> bool)
    requires
        forall|i: int| 0 <= i < s.len() ==> test(#[trigger] s[i]),
    ensures
        s.filter(test) == s,
    decreases s.len(),
{
    reveal(Seq::filter);
    if s.len() > 0 {
        let rest = s.drop_last();
        assert forall|i: int| 0 <= i < rest.len() implies test(#[trigger] rest[i]) by {
            assert(rest[i] == s[i]);
        }
        lemma_all_kept(rest, test);
        assert(test(s[s.len() - 1]));
        assert(rest.push(s.last()) =~= s);
    }
}

/// A description of visible characters and single spaces stays as it is, if it is
/// not too long; of a longer one the first characters stay, before an ellipsis;
/// one without a letter is dropped.
pub proof fn law_description_stays(s: Seq<char>)
    requires
        plain::single_spaced(s),
    ensures
        text::some_alphabetic(s) && s.len() <= 200 ==> help::sanitize(s) == Some(s),
        text::some_alphabetic(s) && s.len() > 200 ==> help::sanitize(s) == Some(
            s.take(199) + seq!['\u{2026}'],
        ),
        !text::some_alphabetic(s) ==> help::sanitize(s) is None,
{
    lemma_words_joined(s);
    let test = |c: char| help::printable(c);
    assert forall|i: int| 0 <= i < s.len() implies test(#[trigger] s[i]) by {
        assert(plain::visible(s[i]) || s[i] == ' ');
    }
    lemma_all_kept(s, test);
    assert(help::collapse(s) == s);
    if s.len() > 200 {
        assert(s.take(199).push('\u{2026}') =~= s.take(199) + seq!['\u{2026}']);
    }
}

/// A description holds no control characters, no marks that turn the direction of
/// writing, and at most 200 characters.
pub proof fn law_description_is_visible(s: Seq<char>)
    ensures
        help::sanitize(s) matches Some(t) ==> t.len() <= 200 && forall|i: int|
            0 <= i < t.len() ==> ' ' <= #[trigger] t[i] && !('\u{7f}' <= t[i] && t[i] <= '\u{9f}')
                && !('\u{202a}' <= t[i] && t[i] <= '\u{202e}') && !('\u{2066}' <= t[i] && t[i]
                <= '\u{2069}'),
{
    help::law_sanitized_is_clean(s);
    if let Some(t) = help::sanitize(s) {
        assert forall|i: int| 0 <= i < t.len() implies ' ' <= #[trigger] t[i] && !('\u{7f}' <= t[i]
            && t[i] <= '\u{9f}') && !('\u{202a}' <= t[i] && t[i] <= '\u{202e}') && !('\u{2066}'
            <= t[i] && t[i] <= '\u{2069}') by {
            assert(help::printable(t[i]));
        }
    }
}

/// A character that a heading's small form has.
pub proof fn lemma_in_small(s: Seq<char>, t: Seq<char>)
    requires
        plain::in_small(s, t),
    ensures
        text::lower(s) == t,
{
    assert forall|i: int| 0 <= i < s.len() implies #[trigger] text::lower(s)[i] == t[i] by {
        assert(plain::small(s[i]) == t[i]);
    }
    assert(text::lower(s) =~= t);
}

/// A heading is the same with a colon behind it.
pub proof fn lemma_heading(title: Seq<char>)
    requires
        heading(title),
    ensures
        text::trim_end(title + seq![':'], Class::Only(':')) == title,
        text::trim_end(title, Class::Only(':')) == title,
{
    let s = title + seq![':'];
    text::lemma_back_span_is(s, Class::Only(':'), 1);
    text::lemma_back_span_is(title, Class::Only(':'), 0);
    assert(s.take(title.len() as int) =~= title);
    assert(title.take(title.len() as int) =~= title);
}

} // verus!

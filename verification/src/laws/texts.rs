//! Words, lines and pieces of a text.
use vstd::prelude::*;
use crate::laws::plain;
use crate::text;
use crate::text::Class;

verus! {

/// A text is cut once at the first occurrence of a character, which neither part
/// keeps; where there is none, it is not cut.
pub proof fn law_cut_once(before: Seq<char>, sep: char, after: Seq<char>)
    requires
        plain::lacks(before, sep),
    ensures
        text::split_once(before + seq![sep] + after, sep) == Some((before, after)),
        text::split_once(before, sep) is None,
{
    let s = before + seq![sep] + after;
    text::lemma_span_is(s, Class::Only(sep), false, before.len());
    text::lemma_span_is(before, Class::Only(sep), false, before.len());
    assert(s.take(before.len() as int) =~= before);
    assert(s.skip((before.len() + 1) as int) =~= after);
}

/// A text falls into the pieces between the occurrences of a character.
pub proof fn law_pieces(before: Seq<char>, sep: char, after: Seq<char>)
    requires
        plain::lacks(before, sep),
    ensures
        text::split_on(before + seq![sep] + after, sep) == seq![before] + text::split_on(after, sep),
        text::split_on(before, sep) == seq![before],
{
    let s = before + seq![sep] + after;
    text::lemma_span_is(s, Class::Only(sep), false, before.len());
    text::lemma_span_is(before, Class::Only(sep), false, before.len());
    assert(s.take(before.len() as int) =~= before);
    assert(s.skip((before.len() + 1) as int) =~= after);
}

/// A text falls into lines at the line feeds; a carriage return before one
/// belongs to it, and the last line feed may be missing.
pub proof fn law_lines(line: Seq<char>, rest: Seq<char>)
    requires
        plain::lacks(line, '\n'),
        line.len() > 0 ==> line.last() != '\r',
    ensures
        text::lines(line + seq!['\n'] + rest) == seq![line] + text::lines(rest),
        text::lines(line + seq!['\r', '\n'] + rest) == seq![line] + text::lines(rest),
        line.len() > 0 ==> text::lines(line) == seq![line],
        text::lines(Seq::<char>::empty()) == Seq::<Seq<char>>::empty(),
{
    let s = line + seq!['\n'] + rest;
    let t = line + seq!['\r', '\n'] + rest;
    let returned = line.push('\r');
    text::lemma_span_is(s, Class::Only('\n'), false, line.len());
    text::lemma_span_is(t, Class::Only('\n'), false, line.len() + 1);
    text::lemma_span_is(line, Class::Only('\n'), false, line.len());
    assert(s.take(line.len() as int) =~= line);
    assert(s.skip((line.len() + 1) as int) =~= rest);
    assert(t.take((line.len() + 1) as int) =~= returned);
    assert(returned.drop_last() =~= line);
    assert(t.skip((line.len() + 2) as int) =~= rest);
}

/// A line more at the end of a text, which is empty or ends in a line feed, is a
/// line more of its lines.
pub proof fn law_another_line(before: Seq<char>, line: Seq<char>)
    requires
        before.len() == 0 || before.last() == '\n',
        plain::lacks(line, '\n'),
        line.len() > 0 ==> line.last() != '\r',
    ensures
        text::lines(before + line + seq!['\n']) == text::lines(before).push(line),
        line.len() > 0 ==> text::lines(before + line) == text::lines(before).push(line),
    decreases before.len(),
{
    let none = Seq::<char>::empty();
    law_lines(line, none);
    if before.len() == 0 {
        assert(before + line + seq!['\n'] =~= line + seq!['\n'] + none);
        assert(before + line =~= line);
        assert(text::lines(before + line + seq!['\n']) =~= text::lines(before).push(line));
        if line.len() > 0 {
            assert(text::lines(before + line) =~= text::lines(before).push(line));
        }
    } else {
        let n = text::span(before, Class::Only('\n'), false);
        text::lemma_span(before, Class::Only('\n'), false);
        assert(n < before.len()) by {
            if n == before.len() {
                assert(text::in_class(Class::Only('\n'), before[before.len() - 1]) == false);
            }
        }
        let first = before.take(n as int);
        let rest = before.skip((n + 1) as int);
        law_another_line(rest, line);
        let s = before + line + seq!['\n'];
        let t = before + line;
        text::lemma_span_is(s, Class::Only('\n'), false, n);
        text::lemma_span_is(t, Class::Only('\n'), false, n);
        assert(s.take(n as int) =~= first);
        assert(t.take(n as int) =~= first);
        assert(s.skip((n + 1) as int) =~= rest + line + seq!['\n']);
        assert(t.skip((n + 1) as int) =~= rest + line);
        assert(text::lines(s) =~= text::lines(before).push(line));
        if line.len() > 0 {
            assert(text::lines(t) =~= text::lines(before).push(line));
        }
    }
}

/// A text is found where it stands first.
pub proof fn law_found_first(s: Seq<char>, part: Seq<char>, n: int)
    requires
        text::occurs_at(s, part, n),
        forall|i: int| 0 <= i < n ==> !#[trigger] text::occurs_at(s, part, i),
    ensures
        text::find_text(s, part) == Some(n),
{
    text::lemma_find_from(s, part, 0);
    let m = text::find_text(s, part)->Some_0;
    if m < n {
        assert(!text::occurs_at(s, part, m));
    }
}

/// Spaces before a text are not part of its words.
pub proof fn law_words_skip_spaces(gap: Seq<char>, s: Seq<char>, k: Class)
    requires
        k == Class::AsciiWhitespace || k == Class::Whitespace,
        plain::spaces(gap),
    ensures
        text::words(gap + s, k) == text::words(s, k),
{
    let t = gap + s;
    let n = text::span(s, k, true);
    text::lemma_span(s, k, true);
    text::lemma_span_is(t, k, true, gap.len() + n);
    assert(t.skip(gap.len() + n as int) =~= s.skip(n as int));
    text::lemma_span(text::trim_start(s, k), k, false);
}

/// Visible characters up to a space or the end are a word.
pub proof fn law_first_word(word: Seq<char>, rest: Seq<char>, k: Class)
    requires
        k == Class::AsciiWhitespace || k == Class::Whitespace,
        word.len() > 0,
        forall|i: int| 0 <= i < word.len() ==> plain::visible(#[trigger] word[i]),
        rest.len() > 0 ==> rest[0] == ' ',
    ensures
        text::words(word + rest, k) == seq![word] + text::words(rest, k),
        text::words(Seq::<char>::empty(), k) == Seq::<Seq<char>>::empty(),
{
    let s = word + rest;
    assert forall|i: int| 0 <= i < word.len() implies text::in_class(k, #[trigger] s[i])
        == false by {
        assert(plain::visible(word[i]));
    }
    text::lemma_span_is(s, k, true, 0);
    assert(s.skip(0) =~= s);
    text::lemma_span_is(s, k, false, word.len());
    assert(s.take(word.len() as int) =~= word);
    assert(s.skip(word.len() as int) =~= rest);
    let none = Seq::<char>::empty();
    text::lemma_span_is(none, k, true, 0);
    assert(none.skip(0) =~= none);
    text::lemma_span_is(none, k, false, 0);
}

/// A word more at the end of a text that ends in something visible is a word more
/// of its words.
pub proof fn law_another_word(s: Seq<char>, gap: Seq<char>, word: Seq<char>, k: Class)
    requires
        k == Class::AsciiWhitespace || k == Class::Whitespace,
        s.len() > 0,
        plain::visible(s.last()),
        plain::spaces(gap),
        gap.len() > 0,
        word.len() > 0,
        forall|i: int| 0 <= i < word.len() ==> plain::visible(#[trigger] word[i]),
    ensures
        text::words(s + gap + word, k) == text::words(s, k).push(word),
        text::words(s, k).len() > 0,
    decreases s.len(),
{
    let none = Seq::<char>::empty();
    let t = s + gap + word;
    let m = text::span(s, k, true);
    text::lemma_span(s, k, true);
    assert(m < s.len()) by {
        if m == s.len() {
            assert(text::in_class(k, s[s.len() - 1]));
        }
    }
    assert(t[m as int] == s[m as int]);
    assert forall|i: int| 0 <= i < m implies text::in_class(k, #[trigger] t[i]) by {
        assert(t[i] == s[i]);
    }
    text::lemma_span_is(t, k, true, m);
    let a = s.skip(m as int);
    let b = t.skip(m as int);
    assert(b =~= a + gap + word);
    assert(a[0] == s[m as int]);
    let n = text::span(a, k, false);
    text::lemma_span(a, k, false);
    assert(n > 0);
    assert forall|i: int| 0 <= i < n implies text::in_class(k, #[trigger] b[i]) == false by {
        assert(b[i] == a[i]);
    }
    if n < a.len() {
        assert(b[n as int] == a[n as int]);
    } else {
        assert(b[n as int] == gap[0]);
    }
    text::lemma_span_is(b, k, false, n);
    assert(b.take(n as int) =~= a.take(n as int));
    let rest = a.skip(n as int);
    assert(b.skip(n as int) =~= rest + gap + word);
    if rest.len() == 0 {
        assert(rest + gap + word =~= gap + word);
        law_words_skip_spaces(gap, word, k);
        assert(word + none =~= word);
        law_first_word(word, none, k);
        assert(rest =~= none);
        assert(text::words(t, k) =~= text::words(s, k).push(word));
    } else {
        assert(rest.last() == s.last());
        law_another_word(rest, gap, word, k);
        assert(text::words(t, k) =~= text::words(s, k).push(word));
    }
}

/// A text without spaces at its ends, among spaces, is what is left of it.
pub proof fn law_trimmed(left: Seq<char>, s: Seq<char>, right: Seq<char>)
    requires
        plain::spaces(left),
        plain::spaces(right),
        s.len() > 0,
        plain::visible(s[0]),
        plain::visible(s.last()),
    ensures
        text::trim(left + s + right, Class::Whitespace) == s,
        text::trim_end(left + s + right, Class::Whitespace) == left + s,
        text::trim_start(left + s + right, Class::Whitespace) == s + right,
        text::trim(s, Class::Whitespace) == s,
{
    let t = left + s + right;
    text::lemma_span_is(t, Class::Whitespace, true, left.len());
    assert(t.skip(left.len() as int) =~= s + right);
    text::lemma_back_span_is(s + right, Class::Whitespace, right.len());
    assert((s + right).take(s.len() as int) =~= s);
    text::lemma_back_span_is(t, Class::Whitespace, right.len());
    assert(t.take(left.len() + s.len() as int) =~= left + s);
    text::lemma_span_is(s, Class::Whitespace, true, 0);
    assert(s.skip(0) =~= s);
    text::lemma_back_span_is(s, Class::Whitespace, 0);
    assert(s.take(s.len() as int) =~= s);
}

} // verus!

//! The values of options in a manual page or a help text.
use vstd::prelude::*;
use crate::commands::help;
use crate::commands::options;
use crate::commands::subcommands;
use crate::commands::values;
use crate::laws::declarations;
use crate::laws::listings;
use crate::laws::menus;
use crate::laws::pages;
use crate::laws::plain;
use crate::laws::texts;
use crate::text;
use crate::commands::help::{Clause, Described};
use crate::commands::values::{Choices, ValueScan};
use crate::text::Class;

verus! {

/// A value: letters, digits, dashes, underscores, dots, plus signs and slashes.
pub open spec fn value_word(s: Seq<char>) -> bool {
    1 <= s.len() <= 128 && forall|i: int|
        0 <= i < s.len() ==> plain::name_char(#[trigger] s[i]) || s[i] == '/'
}

/// Different values, at least two.
pub open spec fn alternatives(list: Seq<Seq<char>>) -> bool {
    &&& 2 <= list.len() <= 128
    &&& forall|i: int| 0 <= i < list.len() ==> value_word(#[trigger] list[i])
    &&& forall|i: int, j: int|
        0 <= i < j < list.len() ==> #[trigger] list[i] != #[trigger] list[j]
}

/// Values with a mark, and maybe a space, between them.
pub open spec fn written(list: Seq<Seq<char>>, mark: char, pad: Seq<char>) -> Seq<char>
    decreases list.len(),
{
    if list.len() == 0 {
        Seq::empty()
    } else if list.len() == 1 {
        list[0]
    } else {
        list[0] + seq![mark] + (pad + written(list.skip(1), mark, pad))
    }
}

/// Values without description.
pub open spec fn bare(list: Seq<Seq<char>>) -> Seq<Described> {
    Seq::new(list.len(), |i: int| Described { name: list[i], description: Seq::empty() })
}

proof fn lemma_value(lead: Seq<char>, value: Seq<char>)
    requires
        plain::spaces(lead),
        value_word(value),
    ensures
        values::bare_value(lead + value) == value,
        help::option_value(value),
        forall|i: int| 0 <= i < value.len() ==> plain::visible(#[trigger] value[i]),
        forall|i: int|
            0 <= i < value.len() ==> #[trigger] value[i] != ',' && value[i] != '|' && value[i]
                != ':' && value[i] != '{' && value[i] != '}' && value[i] != '[' && value[i] != ']'
                && value[i] != '<' && value[i] != '>' && value[i] != '(' && value[i] != ')',
{
    let none = Seq::<char>::empty();
    assert forall|i: int| 0 <= i < value.len() implies plain::visible(#[trigger] value[i])
        && text::in_class(Class::ValuePart, value[i]) by {
        assert(plain::name_char(value[i]) || value[i] == '/');
    }
    assert(value.last() == value[value.len() - 1]);
    texts::law_trimmed(lead, value, none);
    assert(lead + value + none =~= lead + value);
    text::lemma_span_is(value, Class::QuoteMark, true, 0);
    assert(value.skip(0) =~= value);
    text::lemma_back_span_is(value, Class::QuoteMark, 0);
    assert(value.take(value.len() as int) =~= value);
}

spec fn led(list: Seq<Seq<char>>, lead: Seq<char>, pad: Seq<char>) -> Seq<Seq<char>> {
    Seq::new(list.len(), |i: int| if i == 0 { lead + list[0] } else { pad + list[i] })
}

proof fn lemma_split(list: Seq<Seq<char>>, mark: char, lead: Seq<char>, pad: Seq<char>)
    requires
        list.len() > 0,
        forall|i: int| 0 <= i < list.len() ==> plain::lacks(#[trigger] list[i], mark),
        mark == ',' || mark == '|',
        plain::spaces(lead),
        plain::spaces(pad),
    ensures
        text::split_on(lead + written(list, mark, pad), mark) == led(list, lead, pad),
    decreases list.len(),
{
    let first = lead + list[0];
    assert(plain::lacks(list[0], mark));
    assert forall|i: int| 0 <= i < first.len() implies #[trigger] first[i] != mark by {
        if i >= lead.len() {
            assert(first[i] == list[0][i - lead.len()]);
        }
    }
    if list.len() == 1 {
        texts::law_pieces(first, mark, Seq::empty());
        assert(seq![first] =~= led(list, lead, pad));
    } else {
        let rest = list.skip(1);
        assert forall|i: int| 0 <= i < rest.len() implies plain::lacks(
            #[trigger] rest[i],
            mark,
        ) by {
            assert(rest[i] == list[i + 1]);
        }
        lemma_split(rest, mark, pad, pad);
        let tail = pad + written(rest, mark, pad);
        texts::law_pieces(first, mark, tail);
        assert(lead + written(list, mark, pad) =~= first + seq![mark] + tail);
        assert(seq![first] + led(rest, pad, pad) =~= led(list, lead, pad));
    }
}

proof fn lemma_listed_values(list: Seq<Seq<char>>, mark: char, pad: Seq<char>)
    requires
        0 < list.len() <= 128,
        forall|i: int| 0 <= i < list.len() ==> value_word(#[trigger] list[i]),
        mark == ',' || mark == '|',
        plain::spaces(pad),
    ensures
        values::listed_values(written(list, mark, pad), mark) == bare(list),
{
    let none = Seq::<char>::empty();
    let s = written(list, mark, pad);
    assert forall|i: int| 0 <= i < list.len() implies plain::lacks(#[trigger] list[i], mark) by {
        lemma_value(none, list[i]);
    }
    lemma_split(list, mark, none, pad);
    assert(none + s =~= s);
    let parts = led(list, none, pad);
    let pick = |s: Seq<char>|
        if help::option_value(values::bare_value(s)) {
            Some(Described { name: values::bare_value(s), description: Seq::empty() })
        } else {
            None
        };
    assert forall|i: int| 0 <= i < parts.len() implies pick(#[trigger] parts[i]) == Some(
        Described { name: list[i], description: Seq::empty() },
    ) by {
        lemma_value(none, list[i]);
        lemma_value(pad, list[i]);
    }
    menus::lemma_all_picked(parts, pick);
    assert(parts.filter_map(pick) =~= bare(list)) by {
        assert forall|i: int| 0 <= i < parts.len() implies parts.filter_map(pick)[i] == #[trigger] bare(
            list,
        )[i] by {
            assert(pick(parts[i]) is Some);
            assert(Some(parts.filter_map(pick)[i]) == pick(parts[i]));
        }
    }
    assert(values::listed_values(s, mark) == bare(list));
}

proof fn lemma_written(list: Seq<Seq<char>>, mark: char, pad: Seq<char>)
    requires
        list.len() > 0,
        forall|i: int| 0 <= i < list.len() ==> value_word(#[trigger] list[i]),
        mark == ',' || mark == '|',
        plain::spaces(pad),
        pad.len() <= 1,
    ensures
        ({
            let s = written(list, mark, pad);
            &&& s.len() > 0
            &&& plain::visible(s[0])
            &&& plain::visible(s.last())
            &&& forall|i: int|
                0 <= i < s.len() ==> (plain::visible(#[trigger] s[i]) || s[i] == ' ') && s[i] != ':'
                    && s[i] != '{' && s[i] != '}' && s[i] != '[' && s[i] != ']' && s[i] != '<'
                    && s[i] != '>' && s[i] != '(' && s[i] != ')' && (s[i] == ',' || s[i] == '|'
                    ==> s[i] == mark)
            &&& pad.len() == 0 ==> forall|i: int| 0 <= i < s.len() ==> plain::visible(#[trigger] s[i])
            &&& list.len() > 1 ==> s[list[0].len() as int] == mark
            &&& s.len() >= list[0].len()
            &&& list.len() > 1 ==> s.len() > list[0].len()
            &&& value_word(list[0]) && s[s.len() - 1] != ','
        }),
    decreases list.len(),
{
    let s = written(list, mark, pad);
    lemma_value(Seq::empty(), list[0]);
    assert(plain::visible(list[0][0]) && plain::visible(list[0][list[0].len() - 1]));
    if list.len() > 1 {
        let rest = list.skip(1);
        assert forall|i: int| 0 <= i < rest.len() implies value_word(#[trigger] rest[i]) by {
            assert(rest[i] == list[i + 1]);
        }
        lemma_written(rest, mark, pad);
        let tail = written(rest, mark, pad);
        let n = list[0].len() as int;
        assert(s[0] == list[0][0]);
        assert(s.last() == tail.last());
        assert(s[s.len() - 1] == tail[tail.len() - 1]);
        assert forall|i: int| 0 <= i < s.len() implies (plain::visible(#[trigger] s[i]) || s[i]
            == ' ') && s[i] != ':' && s[i] != '{' && s[i] != '}' && s[i] != '[' && s[i] != ']'
            && s[i] != '<' && s[i] != '>' && s[i] != '(' && s[i] != ')' && (s[i] == ',' || s[i]
            == '|' ==> s[i] == mark) && (pad.len() == 0 ==> plain::visible(s[i])) by {
            if i < n {
                assert(s[i] == list[0][i]);
            } else if i > n + pad.len() {
                assert(s[i] == tail[i - n - 1 - pad.len()]);
            } else if i > n {
                assert(s[i] == pad[i - n - 1]);
            }
        }
    } else {
        assert(s == list[0]);
        assert(list[0][list[0].len() - 1] != ',');
    }
}

proof fn lemma_added(list: Seq<Described>, rest: Seq<Described>)
    requires
        forall|i: int, j: int|
            0 <= i < j < rest.len() ==> (#[trigger] rest[i]).name != (#[trigger] rest[j]).name,
        forall|i: int, j: int|
            0 <= i < list.len() && 0 <= j < rest.len() ==> (#[trigger] list[i]).name != (
            #[trigger] rest[j]).name,
        list.len() + rest.len() <= 128,
    ensures
        values::add_values(list, rest) == list + rest,
    decreases rest.len(),
{
    if rest.len() == 0 {
        assert(list + rest =~= list);
    } else {
        let shorter = rest.drop_last();
        assert forall|i: int, j: int| 0 <= i < j < shorter.len() implies (
        #[trigger] shorter[i]).name != (#[trigger] shorter[j]).name by {
            assert(shorter[i] == rest[i] && shorter[j] == rest[j]);
        }
        assert forall|i: int, j: int| 0 <= i < list.len() && 0 <= j < shorter.len() implies (
        #[trigger] list[i]).name != (#[trigger] shorter[j]).name by {
            assert(shorter[j] == rest[j]);
        }
        lemma_added(list, shorter);
        let before = list + shorter;
        let last = rest.last();
        assert(last == rest[rest.len() - 1]);
        assert forall|i: int| 0 <= i < before.len() implies (#[trigger] before[i]).name
            != last.name by {
            if i >= list.len() {
                assert(before[i] == rest[i - list.len()]);
            }
        }
        options::lemma_position_is(before, last.name, before.len());
        assert(before.push(last) =~= list + rest);
    }
}

proof fn lemma_one_option(option: Seq<char>, list: Seq<Described>)
    requires
        0 < list.len() <= 128,
        forall|i: int, j: int|
            0 <= i < j < list.len() ==> (#[trigger] list[i]).name != (#[trigger] list[j]).name,
    ensures
        values::add_choices(Seq::empty(), seq![option], list) == seq![
            Choices { option, values: list },
        ],
{
    let none = Seq::<Choices>::empty();
    let one = seq![option];
    assert(one.drop_last() =~= Seq::empty());
    assert(values::add_choices(none, one.drop_last(), list) == none);
    lemma_added(Seq::empty(), list);
    assert(Seq::<Described>::empty() + list =~= list);
    assert(none.push(Choices { option, values: list }) =~= seq![Choices { option, values: list }]);
}

proof fn lemma_bare(list: Seq<Seq<char>>)
    requires
        forall|i: int, j: int|
            0 <= i < j < list.len() ==> #[trigger] list[i] != #[trigger] list[j],
    ensures
        forall|i: int, j: int|
            0 <= i < j < bare(list).len() ==> (#[trigger] bare(list)[i]).name != (
            #[trigger] bare(list)[j]).name,
{
    assert forall|i: int, j: int| 0 <= i < j < bare(list).len() implies (
    #[trigger] bare(list)[i]).name != (#[trigger] bare(list)[j]).name by {
        assert(list[i] != list[j]);
    }
}

proof fn lemma_no_announcement(line: Seq<char>)
    requires
        plain::lacks(line, ':'),
    ensures
        values::announcement_end(line) is None,
{
    let small = text::lower(line);
    reveal_strlit("possible values:");
    reveal_strlit("possible value:");
    text::lemma_find_from(small, "possible values:"@, 0);
    text::lemma_find_from(small, "possible value:"@, 0);
    assert forall|i: int| 0 <= i < small.len() implies #[trigger] small[i] != ':' by {
        assert(line[i] != ':');
    }
    if text::find_text(small, "possible values:"@) is Some {
        let n = text::find_text(small, "possible values:"@)->Some_0;
        assert(small.subrange(n, n + 16)[15] == ':');
        assert(small[n + 15] == ':');
    }
    if text::find_text(small, "possible value:"@) is Some {
        let n = text::find_text(small, "possible value:"@)->Some_0;
        assert(small.subrange(n, n + 15)[14] == ':');
        assert(small[n + 14] == ':');
    }
}

/// The marks around alternatives and between them.
pub open spec fn enclosing(open: char, close: char, mark: char) -> bool {
    ||| open == '<' && close == '>' && mark == '|'
    ||| open == '[' && close == ']' && mark == '|'
    ||| open == '{' && close == '}' && mark == ','
}

proof fn lemma_bracketed(
    before: Seq<char>,
    open: char,
    close: char,
    mark: char,
    list: Seq<Seq<char>>,
)
    requires
        enclosing(open, close, mark),
        alternatives(list),
        forall|i: int|
            0 <= i < before.len() ==> #[trigger] before[i] != '<' && before[i] != '['
                && before[i] != '{',
    ensures
        ({
            let syntax = before + seq![open] + written(list, mark, Seq::empty()) + seq![close];
            let inner = written(list, mark, Seq::empty());
            &&& values::bracketed_list(syntax, open, close, mark) == Some(inner)
            &&& open != '{' ==> values::bracketed_list(syntax, '{', '}', ',') is None
            &&& open == '<' ==> values::bracketed_list(syntax, '[', ']', '|') is None
        }),
{
    let inner = written(list, mark, Seq::empty());
    let syntax = before + seq![open] + inner + seq![close];
    lemma_written(list, mark, Seq::empty());
    text::lemma_span_is(syntax, Class::Only(open), false, before.len());
    let rest = syntax.skip(before.len() as int + 1);
    assert(rest =~= inner + seq![close]);
    assert forall|i: int| 0 <= i < inner.len() implies text::in_class(
        Class::Only(close),
        #[trigger] rest[i],
    ) == false by {
        assert(rest[i] == inner[i]);
    }
    text::lemma_span_is(rest, Class::Only(close), false, inner.len());
    assert(rest.take(inner.len() as int) =~= inner);
    assert(text::in_class(Class::Only(mark), inner[list[0].len() as int]));
    assert(text::some_in(inner, Class::Only(mark)));
    assert forall|i: int| 0 <= i < syntax.len() implies (open != '{' ==> #[trigger] syntax[i]
        != '{') && (open == '<' ==> syntax[i] != '[') by {
        if i < before.len() {
            assert(syntax[i] == before[i]);
        } else if before.len() < i < before.len() + 1 + inner.len() {
            assert(syntax[i] == inner[i - before.len() - 1]);
        }
    }
    if open != '{' {
        text::lemma_span_is(syntax, Class::Only('{'), false, syntax.len());
    }
    if open == '<' {
        text::lemma_span_is(syntax, Class::Only('['), false, syntax.len());
    }
}

proof fn lemma_another(before: Seq<char>, line: Seq<char>)
    requires
        before.len() == 0 || before.last() == '\n',
        plain::lacks(line, '\n'),
        line.len() > 0 ==> line.last() != '\r',
        !values::scan_values(text::lines(before)).closed,
    ensures
        values::scan_values(text::lines(before + line + seq!['\n'])) == values::scan_value_line(
            values::scan_values(text::lines(before)),
            line,
        ),
        (before + line + seq!['\n']).last() == '\n',
{
    texts::law_another_line(before, line);
    assert(text::lines(before).push(line).drop_last() =~= text::lines(before));
}

proof fn lemma_titled(title: Seq<char>, colon: bool)
    requires
        declarations::options_title(title),
    ensures
        ({
            let page = (if colon { title + seq![':'] } else { title }) + seq!['\n'];
            &&& page.last() == '\n'
            &&& values::scan_values(text::lines(page)) == (ValueScan {
                entries: Seq::empty(),
                inside: true,
                closed: false,
                section_indent: 0,
                declared_indent: 0,
                current: Seq::empty(),
                collecting: false,
            })
        }),
{
    let none = Seq::<char>::empty();
    let head = if colon { title + seq![':'] } else { title };
    texts::law_lines(none, none);
    declarations::lemma_title(title, colon);
    lemma_another(none, head);
    assert(none + head + seq!['\n'] =~= head + seq!['\n']);
}

proof fn lemma_described(line: Seq<char>, spelling: Seq<char>, q: int)
    requires
        help::spelling_end(line, 0) == Some(spelling.len() as int),
        line.subrange(0, spelling.len() as int) == spelling,
        help::argument_end(line, spelling.len() as int) == Some(spelling.len() as int),
        help::clause_at(line, spelling.len() as int) == Clause::Description(q),
    ensures
        help::declaration(line) is Some,
        help::declaration(line)->Some_0.spellings == seq![spelling],
{
    assert(Seq::<Seq<char>>::empty().push(spelling) =~= seq![spelling]);
}

proof fn lemma_syntax_clause(
    spelling: Seq<char>,
    shown: Seq<char>,
    gap: Seq<char>,
    words: Seq<char>,
)
    requires
        declarations::option_name(spelling),
        shown.len() > 1,
        shown[0] == '<' || shown[0] == '[' || shown[0] == '{',
        !help::placeholder(shown),
        forall|i: int| 0 <= i < shown.len() ==> plain::visible(#[trigger] shown[i]),
        shown.last() == '>' || shown.last() == ']' || shown.last() == '}',
        plain::spaces(gap),
        gap.len() >= 2,
    ensures
        ({
            let line = spelling + seq![' '] + shown + gap + words;
            let n = spelling.len() as int;
            help::clause_at(line, n) == Clause::Description(n + 1)
        }),
{
    let line = spelling + seq![' '] + shown + gap + words;
    let n = spelling.len() as int;
    assert(line[n] == ' ');
    let rest = line.skip(n);
    assert(rest[0] == ' ' && rest[1] == shown[0]);
    text::lemma_span_is(rest, Class::AsciiWhitespace, true, 1);
    let q = n + 1;
    assert(line[q] == shown[0]);
    let tail = line.skip(q);
    assert(tail =~= shown + gap + words);
    assert forall|i: int| 0 <= i < shown.len() implies text::in_class(
        Class::AsciiWhitespace,
        #[trigger] tail[i],
    ) == false by {
        assert(tail[i] == shown[i]);
    }
    assert(tail[shown.len() as int] == gap[0]);
    text::lemma_span_is(tail, Class::AsciiWhitespace, false, shown.len());
    assert(line.subrange(q, q + shown.len()) =~= shown);
    text::lemma_back_span_is(shown, Class::Only(','), 0);
    assert(shown.take(shown.len() as int) =~= shown);
}

proof fn lemma_declares(spelling: Seq<char>, shown: Seq<char>, gap: Seq<char>, words: Seq<char>)
    requires
        declarations::option_name(spelling),
        shown.len() > 1,
        shown[0] == '<' || shown[0] == '[' || shown[0] == '{',
        !help::placeholder(shown),
        forall|i: int| 0 <= i < shown.len() ==> plain::visible(#[trigger] shown[i]),
        shown.last() == '>' || shown.last() == ']' || shown.last() == '}',
        plain::spaces(gap),
        gap.len() >= 2,
    ensures
        help::declaration(spelling + seq![' '] + shown + gap + words) is Some,
        help::declaration(spelling + seq![' '] + shown + gap + words)->Some_0.spellings == seq![
            spelling,
        ],
{
    let none = Seq::<char>::empty();
    let line = spelling + seq![' '] + shown + gap + words;
    let after = seq![' '] + shown + gap + words;
    let n = spelling.len() as int;
    lemma_syntax_clause(spelling, shown, gap, words);
    assert(line =~= none + spelling + after);
    declarations::lemma_spelling_end(none, spelling, after);
    assert(line[n] == ' ');
    lemma_described(line, spelling, n + 1);
}

proof fn lemma_no_placeholder(shown: Seq<char>)
    requires
        shown.len() > 1,
        exists|i: int| 0 < i < shown.len() - 1 && (#[trigger] shown[i] == '|' || shown[i] == ','),
    ensures
        !help::placeholder(shown),
{
    let k = choose|i: int| 0 < i < shown.len() - 1 && (#[trigger] shown[i] == '|' || shown[i]
        == ',');
    let inner = help::unbracketed(shown);
    let at = if inner.len() < shown.len() { k - 1 } else { k };
    assert(inner[at] == shown[k]);
    lemma_mark_stays(inner, at);
    let name = help::without_ellipsis(inner);
    assert(!text::in_class(Class::PlaceholderPart, name[at]));
}

proof fn lemma_mark_stays(s: Seq<char>, k: int)
    requires
        0 <= k < s.len(),
        s[k] != '.',
    ensures
        k < help::without_ellipsis(s).len(),
        help::without_ellipsis(s)[k] == s[k],
    decreases s.len(),
{
    if s.len() >= 3 && s[s.len() - 1] == '.' && s[s.len() - 2] == '.' && s[s.len() - 3] == '.' {
        lemma_mark_stays(s.take(s.len() - 3), k);
    }
}

/// The alternatives in an option's own syntax are its values: behind the spelling
/// and a space, in angle or square brackets with strokes between them, or in
/// braces with commas.
pub proof fn law_alternatives_are_values(
    title: Seq<char>,
    colon: bool,
    indent: Seq<char>,
    spelling: Seq<char>,
    open: char,
    close: char,
    mark: char,
    list: Seq<Seq<char>>,
    gap: Seq<char>,
    words: Seq<char>,
)
    requires
        declarations::options_title(title),
        plain::spaces(indent),
        indent.len() > 0,
        declarations::option_name(spelling),
        enclosing(open, close, mark),
        alternatives(list),
        plain::spaces(gap),
        gap.len() >= 2,
        pages::description(words),
        plain::lacks(words, ':'),
    ensures
        values::documented_choices(
            (if colon { title + seq![':'] } else { title }) + seq!['\n'] + (indent + (spelling + seq![
                ' ',
                open,
            ] + written(list, mark, Seq::empty()) + seq![close] + gap + words)) + seq!['\n'],
        ) == seq![Choices { option: spelling, values: bare(list) }],
{
    let none = Seq::<char>::empty();
    let head = if colon { title + seq![':'] } else { title };
    let page = head + seq!['\n'];
    let inner = written(list, mark, none);
    let shown = seq![open] + inner + seq![close];
    let line = spelling + seq![' '] + shown + gap + words;
    assert(spelling + seq![' ', open] + inner + seq![close] + gap + words =~= line);
    lemma_titled(title, colon);
    lemma_syntax(spelling, open, close, mark, list, gap, words);
    lemma_syntax_values(spelling, open, close, mark, list, gap, words);
    lemma_declares(spelling, shown, gap, words);
    lemma_value_line(page, indent, line, spelling, bare(list));
    lemma_bare(list);
    lemma_one_option(spelling, bare(list));
}

/// A line that declares an option with values, as the first one below a title.
proof fn lemma_value_line(
    page: Seq<char>,
    indent: Seq<char>,
    line: Seq<char>,
    spelling: Seq<char>,
    list: Seq<Described>,
)
    requires
        page.last() == '\n',
        page.len() > 0,
        values::scan_values(text::lines(page)) == (ValueScan {
            entries: Seq::empty(),
            inside: true,
            closed: false,
            section_indent: 0,
            declared_indent: 0,
            current: Seq::empty(),
            collecting: false,
        }),
        plain::spaces(indent),
        indent.len() > 0,
        plain::printed(line),
        line.len() > 0,
        line[0] == '-',
        line.last() != ' ',
        help::declaration(line) is Some,
        help::declaration(line)->Some_0.spellings == seq![spelling],
        values::line_values(line) == (list, false),
    ensures
        values::scan_values(text::lines(page + (indent + line) + seq!['\n'])) == (ValueScan {
            entries: values::add_choices(Seq::empty(), seq![spelling], list),
            inside: true,
            closed: false,
            section_indent: 0,
            declared_indent: indent.len(),
            current: seq![spelling],
            collecting: false,
        }),
{
    let none = Seq::<char>::empty();
    pages::lemma_line(indent, line, none);
    assert(indent + line + none =~= indent + line);
    declarations::lemma_no_title(line);
    lemma_another(page, indent + line);
}

proof fn lemma_syntax(
    spelling: Seq<char>,
    open: char,
    close: char,
    mark: char,
    list: Seq<Seq<char>>,
    gap: Seq<char>,
    words: Seq<char>,
)
    requires
        declarations::option_name(spelling),
        enclosing(open, close, mark),
        alternatives(list),
        plain::spaces(gap),
        gap.len() >= 2,
        pages::description(words),
    ensures
        ({
            let shown = seq![open] + written(list, mark, Seq::empty()) + seq![close];
            let line = spelling + seq![' '] + shown + gap + words;
            &&& forall|i: int| 0 <= i < shown.len() ==> plain::visible(#[trigger] shown[i])
                && shown[i] != ':'
            &&& !help::placeholder(shown)
            &&& plain::printed(line)
            &&& line[0] == '-'
            &&& line.last() != ' '
        }),
{
    let inner = written(list, mark, Seq::empty());
    let shown = seq![open] + inner + seq![close];
    let column = spelling + seq![' '] + shown;
    declarations::lemma_option_spelling(spelling);
    lemma_written(list, mark, Seq::empty());
    assert forall|i: int| 0 <= i < shown.len() implies plain::visible(#[trigger] shown[i])
        && shown[i] != ':' by {
        if 0 < i < shown.len() - 1 {
            assert(shown[i] == inner[i - 1]);
        }
    }
    assert(shown[list[0].len() as int + 1] == mark);
    lemma_no_placeholder(shown);
    assert forall|i: int| 0 <= i < column.len() implies plain::visible(#[trigger] column[i])
        || column[i] == ' ' by {
        if i < spelling.len() {
            assert(column[i] == spelling[i]);
        } else if i > spelling.len() {
            assert(column[i] == shown[i - spelling.len() - 1]);
        }
    }
    assert(column[0] == spelling[0]);
    declarations::lemma_printed(column, gap, words);
}

proof fn lemma_syntax_values(
    spelling: Seq<char>,
    open: char,
    close: char,
    mark: char,
    list: Seq<Seq<char>>,
    gap: Seq<char>,
    words: Seq<char>,
)
    requires
        declarations::option_name(spelling),
        enclosing(open, close, mark),
        alternatives(list),
        plain::spaces(gap),
        gap.len() >= 2,
        pages::description(words),
        plain::lacks(words, ':'),
    ensures
        values::line_values(
            spelling + seq![' '] + (seq![open] + written(list, mark, Seq::empty()) + seq![close])
                + gap + words,
        ) == (bare(list), false),
{
    let none = Seq::<char>::empty();
    let inner = written(list, mark, none);
    let before = spelling + seq![' '];
    let shown = seq![open] + inner + seq![close];
    let column = before + shown;
    let line = column + gap + words;
    lemma_syntax(spelling, open, close, mark, list, gap, words);
    lemma_spelling_chars(spelling);
    assert forall|i: int| 0 <= i < column.len() implies (i != spelling.len() ==> plain::visible(
        #[trigger] column[i],
    )) && column[i] != ':' by {
        if i < spelling.len() {
            assert(column[i] == spelling[i]);
        } else if i > spelling.len() {
            assert(column[i] == shown[i - spelling.len() - 1]);
        }
    }
    assert(column.last() == close);
    assert forall|i: int| 0 <= i < line.len() implies #[trigger] line[i] != ':' by {
        if i < column.len() {
            assert(line[i] == column[i]);
        } else if i < column.len() + gap.len() {
            assert(line[i] == gap[i - column.len()]);
        } else {
            assert(line[i] == words[i - column.len() - gap.len()]);
        }
    }
    lemma_no_announcement(line);
    listings::lemma_column(column, gap, words, 0);
    assert(line.take(column.len() as int) =~= column);
    assert forall|i: int| 0 <= i < before.len() implies #[trigger] before[i] != '<' && before[i]
        != '[' && before[i] != '{' by {
        if i < spelling.len() {
            assert(before[i] == spelling[i]);
        }
    }
    lemma_bracketed(before, open, close, mark, list);
    assert(before + seq![open] + inner + seq![close] =~= column);
    lemma_listed_values(list, mark, none);
}

proof fn lemma_spelling_chars(spelling: Seq<char>)
    requires
        declarations::option_name(spelling),
    ensures
        forall|i: int| 0 <= i < spelling.len() ==> plain::option_char(#[trigger] spelling[i]),
{
    assert forall|i: int| 0 <= i < spelling.len() implies plain::option_char(
        #[trigger] spelling[i],
    ) by {
        if i < 2 {
            assert(spelling[0] == '-');
        }
    }
}

proof fn lemma_announcement(before: Seq<char>, after: Seq<char>)
    requires
        plain::lacks(before, ':'),
        plain::lacks(after, ':'),
    ensures
        ({
            let line = before + "possible values:"@ + after;
            &&& values::announcement_end(line) == Some(before.len() as int + 16)
            &&& line.skip(before.len() as int + 16) == after
            &&& line.len() == before.len() + 16 + after.len()
        }),
{
    let words = "possible values:"@;
    lemma_announcing_words();
    let line = before + words + after;
    let small = text::lower(line);
    let n = before.len() as int;
    assert forall|i: int| 0 <= i < 16 implies #[trigger] small[n + i] == words[i] by {
        assert(line[n + i] == words[i]);
        assert(text::lower_char(words[i]) == words[i]);
    }
    let part = small.subrange(n, n + 16);
    assert forall|i: int| 0 <= i < 16 implies #[trigger] part[i] == words[i] by {
        assert(part[i] == small[n + i]);
    }
    assert(part =~= words);
    assert(text::occurs_at(small, words, n));
    lemma_found(line, words, n);
    assert(line.skip(n + 16) =~= after);
}

proof fn lemma_found(line: Seq<char>, words: Seq<char>, n: int)
    requires
        words.len() == 16,
        words[15] == ':',
        text::occurs_at(text::lower(line), words, n),
        forall|i: int| 0 <= i < line.len() && #[trigger] line[i] == ':' ==> i == n + 15,
    ensures
        text::find_text(text::lower(line), words) == Some(n),
{
    let small = text::lower(line);
    text::lemma_find_from(small, words, 0);
    let m = text::find_text(small, words)->Some_0;
    assert(text::find_text(small, words) is Some);
    assert(small.subrange(m, m + 16)[15] == ':');
    assert(small[m + 15] == text::lower_char(line[m + 15]));
    assert(line[m + 15] == ':');
}

proof fn lemma_announcing_words()
    ensures
        ({
            let words = "possible values:"@;
            &&& words.len() == 16
            &&& words[15] == ':'
            &&& forall|i: int| 0 <= i < 15 ==> #[trigger] words[i] != ':'
            &&& forall|i: int| 0 <= i < 16 ==> text::lower_char(#[trigger] words[i]) == words[i]
        }),
{
    let words = "possible values:"@;
    reveal_strlit("possible values:");
    assert forall|i: int| 0 <= i < 16 implies text::lower_char(#[trigger] words[i]) == words[i]
        && (i < 15 ==> words[i] != ':') by {
        if i < 8 {
            assert(words[0] == 'p' && words[1] == 'o' && words[2] == 's' && words[3] == 's'
                && words[4] == 'i' && words[5] == 'b' && words[6] == 'l' && words[7] == 'e');
        } else {
            assert(words[8] == ' ' && words[9] == 'v' && words[10] == 'a' && words[11] == 'l'
                && words[12] == 'u' && words[13] == 'e' && words[14] == 's' && words[15] == ':');
        }
    }
}

/// The values that a description announces are those of its option.
pub proof fn law_announced_values(
    title: Seq<char>,
    colon: bool,
    indent: Seq<char>,
    spelling: Seq<char>,
    gap: Seq<char>,
    words: Seq<char>,
    list: Seq<Seq<char>>,
)
    requires
        declarations::options_title(title),
        plain::spaces(indent),
        indent.len() > 0,
        declarations::option_name(spelling),
        0 < list.len() <= 128,
        forall|i: int| 0 <= i < list.len() ==> value_word(#[trigger] list[i]),
        forall|i: int, j: int|
            0 <= i < j < list.len() ==> #[trigger] list[i] != #[trigger] list[j],
        plain::spaces(gap),
        gap.len() > 0,
        plain::lacks(words, ':'),
        declarations::wordy(
            words + seq![' ', '['] + "possible values:"@ + (seq![' '] + written(
                list,
                ',',
                seq![' '],
            ) + seq![']']),
        ),
        words.len() >= 2,
    ensures
        values::documented_choices(
            (if colon { title + seq![':'] } else { title }) + seq!['\n'] + (indent + (spelling + gap
                + (words + seq![' ', '['] + "possible values:"@ + (seq![' '] + written(
                list,
                ',',
                seq![' '],
            ) + seq![']'])))) + seq!['\n'],
        ) == seq![Choices { option: spelling, values: bare(list) }],
{
    let none = Seq::<char>::empty();
    let head = if colon { title + seq![':'] } else { title };
    let page = head + seq!['\n'];
    let pad = seq![' '];
    let inner = written(list, ',', pad);
    let after = seq![' '] + inner + seq![']'];
    let whole = words + seq![' ', '['] + "possible values:"@ + after;
    let line = spelling + gap + whole;
    lemma_titled(title, colon);
    declarations::lemma_option_spelling(spelling);
    declarations::lemma_printed(spelling, gap, whole);
    assert(line[0] == '-');
    declarations::law_declared_option(spelling, none, none, gap, whole);
    assert(spelling + none + gap + whole =~= line);
    lemma_announced_line(spelling, gap, words, list);
    lemma_value_line(page, indent, line, spelling, bare(list));
    lemma_bare(list);
    lemma_one_option(spelling, bare(list));
}

proof fn lemma_announced_line(
    spelling: Seq<char>,
    gap: Seq<char>,
    words: Seq<char>,
    list: Seq<Seq<char>>,
)
    requires
        declarations::option_name(spelling),
        0 < list.len() <= 128,
        forall|i: int| 0 <= i < list.len() ==> value_word(#[trigger] list[i]),
        plain::spaces(gap),
        plain::lacks(words, ':'),
    ensures
        values::line_values(
            spelling + gap + (words + seq![' ', '['] + "possible values:"@ + (seq![' '] + written(
                list,
                ',',
                seq![' '],
            ) + seq![']'])),
        ) == (bare(list), false),
{
    let pad = seq![' '];
    let inner = written(list, ',', pad);
    let after = pad + inner + seq![']'];
    let before = spelling + gap + words + seq![' ', '['];
    let line = spelling + gap + (words + seq![' ', '['] + "possible values:"@ + after);
    assert(line =~= before + "possible values:"@ + after);
    lemma_written(list, ',', pad);
    lemma_spelling_chars(spelling);
    assert forall|i: int| 0 <= i < before.len() implies #[trigger] before[i] != ':' by {
        if i < spelling.len() {
            assert(before[i] == spelling[i]);
        } else if i < spelling.len() + gap.len() {
            assert(before[i] == gap[i - spelling.len()]);
        } else if i < spelling.len() + gap.len() + words.len() {
            assert(before[i] == words[i - spelling.len() - gap.len()]);
        }
    }
    assert forall|i: int| 0 <= i < after.len() implies #[trigger] after[i] != ':' by {
        if 0 < i <= inner.len() {
            assert(after[i] == inner[i - 1]);
        }
    }
    lemma_announcement(before, after);
    assert(inner.last() == inner[inner.len() - 1]);
    lemma_unbracketed(inner);
    assert(values::announced_list(line, before.len() as int + 16) == inner);
    lemma_listed_values(list, ',', pad);
}

proof fn lemma_unbracketed(inner: Seq<char>)
    requires
        inner.len() > 0,
        plain::visible(inner[0]),
        plain::visible(inner.last()),
        inner[0] != '[' && inner[0] != ']' && inner[0] != '(' && inner[0] != ')',
        inner.last() != '[' && inner.last() != ']' && inner.last() != '(' && inner.last() != ')',
    ensures
        text::trim(
            text::trim(
                text::trim(seq![' '] + inner + seq![']'], Class::Whitespace),
                Class::ListBracket,
            ),
            Class::Whitespace,
        ) == inner,
{
    let none = Seq::<char>::empty();
    let pad = seq![' '];
    let closed = inner + seq![']'];
    assert(pad + closed + none =~= pad + inner + seq![']']);
    assert(closed[0] == inner[0]);
    texts::law_trimmed(pad, closed, none);
    text::lemma_span_is(closed, Class::ListBracket, true, 0);
    assert(closed.skip(0) =~= closed);
    assert(closed[inner.len() - 1] == inner.last());
    text::lemma_back_span_is(closed, Class::ListBracket, 1);
    assert(closed.take(inner.len() as int) =~= inner);
    texts::law_trimmed(none, inner, none);
}

/// A value with its description, as a list below an option has it.
pub open spec fn bullet(row: Described) -> Seq<char> {
    seq!['-', ' '] + row.name + seq![':', ' '] + row.description
}

/// The lines of such a list.
pub open spec fn bullets(deeper: Seq<char>, rows: Seq<Described>) -> Seq<char>
    decreases rows.len(),
{
    if rows.len() == 0 {
        Seq::empty()
    } else {
        bullets(deeper, rows.drop_last()) + (deeper + bullet(rows.last())) + seq!['\n']
    }
}

/// A value with a description that holds neither colons nor brackets.
pub open spec fn bulleted(row: Described) -> bool {
    &&& value_word(row.name)
    &&& pages::description(row.description)
    &&& forall|i: int|
        0 <= i < row.description.len() ==> #[trigger] row.description[i] != ':'
            && row.description[i] != '{' && row.description[i] != '[' && row.description[i] != '<'
}

proof fn lemma_bullet(row: Described)
    requires
        bulleted(row),
    ensures
        ({
            let line = bullet(row);
            &&& plain::printed(line)
            &&& line[0] == '-'
            &&& line.last() != ' '
            &&& values::bullet_value(line) == Some(row)
            &&& values::line_values(line) == (Seq::<Described>::empty(), false)
            &&& help::declaration(line) is None
        }),
{
    let none = Seq::<char>::empty();
    let line = bullet(row);
    lemma_value(none, row.name);
    assert forall|i: int| 0 <= i < line.len() implies (plain::visible(#[trigger] line[i]) || line[i]
        == ' ') && line[i] != '{' && line[i] != '[' && line[i] != '<' && (line[i] == ':' ==> i == 2
        + row.name.len()) && (line[i] == ' ' && i < 2 + row.name.len() ==> i == 1) by {
        if 2 <= i < 2 + row.name.len() {
            assert(line[i] == row.name[i - 2]);
        } else if i >= 4 + row.name.len() {
            assert(line[i] == row.description[i - 4 - row.name.len()]);
        }
    }
    assert(line.last() == row.description.last());
    lemma_bullet_value(row);
    lemma_bullet_is_no_list(line, 2 + row.name.len() as int);
    // It declares no option.
    assert(line[1] == ' ');
    let two = line.subrange(0, 2);
    assert(two[1] == ' ');
    assert(!help::option_spelling(two));
}

proof fn lemma_bullet_value(row: Described)
    requires
        bulleted(row),
    ensures
        values::bullet_value(bullet(row)) == Some(row),
{
    let none = Seq::<char>::empty();
    let line = bullet(row);
    lemma_value(none, row.name);
    let rest = row.name + seq![':', ' '] + row.description;
    assert(line.skip(1) =~= seq![' '] + rest + none);
    assert(rest[0] == row.name[0]);
    assert(rest.last() == row.description.last());
    assert(plain::visible(row.description[row.description.len() - 1]));
    texts::law_trimmed(seq![' '], rest, none);
    assert(rest + none =~= rest);
    assert(rest =~= row.name + seq![':'] + (seq![' '] + row.description));
    texts::law_cut_once(row.name, ':', seq![' '] + row.description);
    texts::law_trimmed(none, row.name, none);
    assert(none + row.name =~= row.name);
    texts::law_trimmed(seq![' '], row.description, none);
    assert(seq![' '] + row.description + none =~= seq![' '] + row.description);
    pages::law_description_stays(row.description);
    assert(text::trim(row.name, Class::QuoteMark) == row.name);
}

proof fn lemma_bullet_is_no_list(line: Seq<char>, k: int)
    requires
        line.len() > 2,
        line[0] == '-',
        k < line.len(),
        forall|i: int|
            0 <= i < line.len() ==> #[trigger] line[i] != '{' && line[i] != '[' && line[i] != '<'
                && (line[i] == ':' ==> i == k) && (line[i] == ' ' && i < k ==> i == 1),
    ensures
        values::line_values(line) == (Seq::<Described>::empty(), false),
{
    let small = text::lower(line);
    reveal_strlit("possible values:");
    reveal_strlit("possible value:");
    text::lemma_find_from(small, "possible values:"@, 0);
    text::lemma_find_from(small, "possible value:"@, 0);
    if text::find_text(small, "possible values:"@) is Some {
        let n = text::find_text(small, "possible values:"@)->Some_0;
        let found = small.subrange(n, n + 16);
        assert(found[15] == ':' && found[8] == ' ');
        assert(line[n + 15] == ':' && line[n + 8] == ' ');
    }
    if text::find_text(small, "possible value:"@) is Some {
        let n = text::find_text(small, "possible value:"@)->Some_0;
        let found = small.subrange(n, n + 15);
        assert(found[14] == ':' && found[8] == ' ');
        assert(line[n + 14] == ':' && line[n + 8] == ' ');
    }
    let end = subcommands::column_end(line, 0);
    lemma_column_end(line, 0);
    let syntax = line.take(end);
    assert forall|i: int| 0 <= i < syntax.len() implies #[trigger] syntax[i] != '{' && syntax[i]
        != '[' && syntax[i] != '<' by {
        assert(syntax[i] == line[i]);
    }
    text::lemma_span_is(syntax, Class::Only('{'), false, syntax.len());
    text::lemma_span_is(syntax, Class::Only('['), false, syntax.len());
    text::lemma_span_is(syntax, Class::Only('<'), false, syntax.len());
}

proof fn lemma_column_end(line: Seq<char>, from: int)
    requires
        0 <= from <= line.len(),
    ensures
        from <= subcommands::column_end(line, from) <= line.len(),
    decreases line.len() - from,
{
    if from < line.len() {
        lemma_column_end(line, from + 1);
    }
}

/// Below an option whose line shows no values, a line that announces them opens a
/// list: of a dash, a value, a colon and its description.
pub proof fn law_bulleted_values(
    title: Seq<char>,
    colon: bool,
    indent: Seq<char>,
    spelling: Seq<char>,
    gap: Seq<char>,
    words: Seq<char>,
    deeper: Seq<char>,
    rows: Seq<Described>,
)
    requires
        declarations::options_title(title),
        plain::spaces(indent),
        indent.len() > 0,
        declarations::option_name(spelling),
        plain::spaces(gap),
        gap.len() > 0,
        declarations::wordy(words),
        forall|i: int|
            0 <= i < words.len() ==> #[trigger] words[i] != ':' && words[i] != '{' && words[i] != '['
                && words[i] != '<',
        plain::spaces(deeper),
        deeper.len() > indent.len(),
        0 < rows.len() <= 128,
        forall|i: int| 0 <= i < rows.len() ==> bulleted(#[trigger] rows[i]),
        forall|i: int, j: int|
            0 <= i < j < rows.len() ==> (#[trigger] rows[i]).name != (#[trigger] rows[j]).name,
    ensures
        values::documented_choices(
            (if colon { title + seq![':'] } else { title }) + seq!['\n'] + (indent + (spelling + gap
                + words)) + seq!['\n'] + (deeper + "possible values:"@) + seq!['\n'] + bullets(
                deeper,
                rows,
            ),
        ) == seq![Choices { option: spelling, values: rows }],
{
    let none = Seq::<char>::empty();
    let head = if colon { title + seq![':'] } else { title };
    let page = head + seq!['\n'];
    let line = spelling + gap + words;
    lemma_titled(title, colon);
    declarations::lemma_option_spelling(spelling);
    declarations::lemma_printed(spelling, gap, words);
    assert(line[0] == '-');
    declarations::law_declared_option(spelling, none, none, gap, words);
    assert(spelling + none + gap + words =~= line);
    lemma_spelling_chars(spelling);
    assert forall|i: int| 0 <= i < line.len() implies #[trigger] line[i] != ':' && line[i] != '{'
        && line[i] != '[' && line[i] != '<' by {
        if i < spelling.len() {
            assert(line[i] == spelling[i]);
        } else if i < spelling.len() + gap.len() {
            assert(line[i] == gap[i - spelling.len()]);
        } else {
            assert(line[i] == words[i - spelling.len() - gap.len()]);
        }
    }
    lemma_no_list(line);
    let nothing = Seq::<Described>::empty();
    lemma_value_line(page, indent, line, spelling, nothing);
    let declared = page + (indent + line) + seq!['\n'];
    assert(values::add_choices(Seq::empty(), seq![spelling], nothing) == Seq::<Choices>::empty());
    lemma_opening(declared, deeper, indent.len(), spelling);
    let opened = declared + (deeper + "possible values:"@) + seq!['\n'];
    lemma_bullets(opened, deeper, indent.len(), spelling, rows);
}

proof fn lemma_no_list(line: Seq<char>)
    requires
        forall|i: int|
            0 <= i < line.len() ==> #[trigger] line[i] != ':' && line[i] != '{' && line[i] != '['
                && line[i] != '<',
    ensures
        values::line_values(line) == (Seq::<Described>::empty(), false),
{
    lemma_no_announcement(line);
    let end = subcommands::column_end(line, 0);
    lemma_column_end(line, 0);
    let syntax = line.take(end);
    assert forall|i: int| 0 <= i < syntax.len() implies #[trigger] syntax[i] != '{' && syntax[i]
        != '[' && syntax[i] != '<' by {
        assert(syntax[i] == line[i]);
    }
    text::lemma_span_is(syntax, Class::Only('{'), false, syntax.len());
    text::lemma_span_is(syntax, Class::Only('['), false, syntax.len());
    text::lemma_span_is(syntax, Class::Only('<'), false, syntax.len());
}

proof fn lemma_opening(page: Seq<char>, deeper: Seq<char>, indent: nat, spelling: Seq<char>)
    requires
        page.len() > 0,
        page.last() == '\n',
        plain::spaces(deeper),
        deeper.len() > indent,
        values::scan_values(text::lines(page)) == (ValueScan {
            entries: Seq::empty(),
            inside: true,
            closed: false,
            section_indent: 0,
            declared_indent: indent,
            current: seq![spelling],
            collecting: false,
        }),
    ensures
        ({
            let opened = page + (deeper + "possible values:"@) + seq!['\n'];
            &&& opened.last() == '\n'
            &&& values::scan_values(text::lines(opened)) == (ValueScan {
                entries: Seq::empty(),
                inside: true,
                closed: false,
                section_indent: 0,
                declared_indent: indent,
                current: seq![spelling],
                collecting: true,
            })
        }),
{
    let none = Seq::<char>::empty();
    let words = "possible values:"@;
    reveal_strlit("possible values:");
    assert forall|i: int| 0 <= i < words.len() implies plain::visible(#[trigger] words[i])
        || words[i] == ' ' by {}
    pages::lemma_line(deeper, words, none);
    assert(deeper + words + none =~= deeper + words);
    lemma_announcement(none, none);
    assert(none + words + none =~= words);
    text::lemma_span_is(none, Class::Whitespace, true, 0);
    assert(none.skip(0) =~= none);
    text::lemma_back_span_is(none, Class::Whitespace, 0);
    text::lemma_span_is(none, Class::ListBracket, true, 0);
    text::lemma_back_span_is(none, Class::ListBracket, 0);
    assert(none.take(0) =~= none);
    assert(values::line_values(words) == (Seq::<Described>::empty(), true));
    lemma_opening_is_no_title();
    assert(help::declaration(words) is None);
    assert(values::add_choices(Seq::empty(), seq![spelling], Seq::empty()) == Seq::<Choices>::empty());
    lemma_another(page, deeper + words);
}

proof fn lemma_opening_is_no_title()
    ensures
        !help::options_heading("possible values:"@),
{
    let words = "possible values:"@;
    reveal_strlit("possible values:");
    text::lemma_back_span_is(words, Class::Only(':'), 1);
    let t = help::heading_text(words);
    assert(t.len() == 15 && t[0] == 'p');
    reveal_strlit("option");
    reveal_strlit("options");
    reveal_strlit("flags");
    reveal_strlit("global options");
    reveal_strlit("general options");
    reveal_strlit("optional arguments");
    reveal_strlit("the following options are available");
}

proof fn lemma_bullets(
    page: Seq<char>,
    deeper: Seq<char>,
    indent: nat,
    spelling: Seq<char>,
    rows: Seq<Described>,
)
    requires
        page.len() > 0,
        page.last() == '\n',
        plain::spaces(deeper),
        deeper.len() > indent,
        values::scan_values(text::lines(page)) == (ValueScan {
            entries: Seq::empty(),
            inside: true,
            closed: false,
            section_indent: 0,
            declared_indent: indent,
            current: seq![spelling],
            collecting: true,
        }),
        rows.len() <= 128,
        forall|i: int| 0 <= i < rows.len() ==> bulleted(#[trigger] rows[i]),
        forall|i: int, j: int|
            0 <= i < j < rows.len() ==> (#[trigger] rows[i]).name != (#[trigger] rows[j]).name,
    ensures
        (page + bullets(deeper, rows)).last() == '\n',
        values::scan_values(text::lines(page + bullets(deeper, rows))) == (ValueScan {
            entries: if rows.len() == 0 {
                Seq::empty()
            } else {
                seq![Choices { option: spelling, values: rows }]
            },
            inside: true,
            closed: false,
            section_indent: 0,
            declared_indent: indent,
            current: seq![spelling],
            collecting: true,
        }),
    decreases rows.len(),
{
    if rows.len() == 0 {
        assert(page + bullets(deeper, rows) =~= page);
    } else {
        let none = Seq::<char>::empty();
        let rest = rows.drop_last();
        let row = rows.last();
        assert forall|i: int| 0 <= i < rest.len() implies bulleted(#[trigger] rest[i]) by {
            assert(rest[i] == rows[i]);
        }
        assert forall|i: int, j: int| 0 <= i < j < rest.len() implies (#[trigger] rest[i]).name != (
        #[trigger] rest[j]).name by {
            assert(rest[i] == rows[i] && rest[j] == rows[j]);
        }
        lemma_bullets(page, deeper, indent, spelling, rest);
        let shorter = page + bullets(deeper, rest);
        let line = bullet(row);
        assert(row == rows[rows.len() - 1]);
        lemma_bullet(row);
        pages::lemma_line(deeper, line, none);
        assert(deeper + line + none =~= deeper + line);
        declarations::lemma_no_title(line);
        lemma_another(shorter, deeper + line);
        assert(page + bullets(deeper, rows) =~= shorter + (deeper + line) + seq!['\n']);
        lemma_one_more(spelling, rest, row);
        assert(rest.push(row) =~= rows);
    }
}

proof fn lemma_one_more(spelling: Seq<char>, rest: Seq<Described>, row: Described)
    requires
        rest.len() < 128,
        forall|i: int| 0 <= i < rest.len() ==> (#[trigger] rest[i]).name != row.name,
    ensures
        values::add_choices(
            if rest.len() == 0 {
                Seq::empty()
            } else {
                seq![Choices { option: spelling, values: rest }]
            },
            seq![spelling],
            seq![row],
        ) == seq![Choices { option: spelling, values: rest.push(row) }],
{
    let before = if rest.len() == 0 {
        Seq::<Choices>::empty()
    } else {
        seq![Choices { option: spelling, values: rest }]
    };
    let one = seq![spelling];
    assert(one.drop_last() =~= Seq::empty());
    assert(values::add_choices(before, one.drop_last(), seq![row]) == before);
    assert forall|i: int, j: int| 0 <= i < rest.len() && 0 <= j < seq![row].len() implies (
    #[trigger] rest[i]).name != (#[trigger] seq![row][j]).name by {}
    lemma_added(rest, seq![row]);
    assert(rest + seq![row] =~= rest.push(row));
    values::lemma_option_position(before, spelling);
    let wanted = seq![Choices { option: spelling, values: rest.push(row) }];
    if rest.len() == 0 {
        assert(rest =~= Seq::<Described>::empty());
        assert(before.push(wanted[0]) =~= wanted);
    } else {
        assert(before[0].option == spelling);
        assert(before.update(0, wanted[0]) =~= wanted);
    }
}

/// A value in quotation marks.
pub open spec fn quoted(value: Seq<char>, quote: char) -> Seq<char> {
    seq![quote] + value + seq![quote]
}

/// Values in quotation marks.
pub open spec fn all_quoted(list: Seq<Seq<char>>, quote: char) -> Seq<Seq<char>> {
    Seq::new(list.len(), |i: int| quoted(list[i], quote))
}

proof fn lemma_quoted(lead: Seq<char>, value: Seq<char>, quote: char)
    requires
        plain::spaces(lead),
        value_word(value),
        quote == '\'' || quote == '"' || quote == '`',
    ensures
        values::bare_value(lead + quoted(value, quote)) == value,
        text::trim(quoted(value, quote), Class::QuoteMark) == value,
        plain::lacks(quoted(value, quote), ','),
        plain::lacks(quoted(value, quote), '|'),
        plain::lacks(quoted(value, quote), ':'),
{
    let none = Seq::<char>::empty();
    let q = quoted(value, quote);
    lemma_value(none, value);
    assert forall|i: int| 0 <= i < q.len() implies #[trigger] q[i] != ',' && q[i] != '|' && q[i]
        != ':' by {
        if 0 < i < q.len() - 1 {
            assert(q[i] == value[i - 1]);
        }
    }
    assert(q.last() == quote);
    texts::law_trimmed(lead, q, none);
    assert(lead + q + none =~= lead + q);
    assert(q[1] == value[0]);
    assert(plain::visible(value[0]));
    assert(plain::name_char(value[0]) || value[0] == '/');
    text::lemma_span_is(q, Class::QuoteMark, true, 1);
    let open = q.skip(1);
    assert(open =~= value + seq![quote]);
    assert(open[value.len() - 1] == value[value.len() - 1]);
    assert(plain::name_char(value[value.len() - 1]) || value[value.len() - 1] == '/');
    text::lemma_back_span_is(open, Class::QuoteMark, 1);
    assert(open.take(value.len() as int) =~= value);
}

/// Quotation marks around the values of a list are no part of them.
pub proof fn law_quoted_values(
    list: Seq<Seq<char>>,
    quote: char,
    mark: char,
    pad: Seq<char>,
)
    requires
        0 < list.len() <= 128,
        forall|i: int| 0 <= i < list.len() ==> value_word(#[trigger] list[i]),
        quote == '\'' || quote == '"' || quote == '`',
        mark == ',' || mark == '|',
        plain::spaces(pad),
    ensures
        values::listed_values(written(all_quoted(list, quote), mark, pad), mark) == bare(list),
{
    let none = Seq::<char>::empty();
    let marked = all_quoted(list, quote);
    let s = written(marked, mark, pad);
    assert forall|i: int| 0 <= i < marked.len() implies plain::lacks(
        #[trigger] marked[i],
        mark,
    ) by {
        lemma_quoted(none, list[i], quote);
    }
    lemma_split(marked, mark, none, pad);
    assert(none + s =~= s);
    let parts = led(marked, none, pad);
    let pick = |s: Seq<char>|
        if help::option_value(values::bare_value(s)) {
            Some(Described { name: values::bare_value(s), description: Seq::empty() })
        } else {
            None
        };
    assert forall|i: int| 0 <= i < parts.len() implies pick(#[trigger] parts[i]) == Some(
        Described { name: list[i], description: Seq::empty() },
    ) by {
        lemma_value(none, list[i]);
        lemma_quoted(none, list[i], quote);
        lemma_quoted(pad, list[i], quote);
    }
    menus::lemma_all_picked(parts, pick);
    assert(parts.filter_map(pick) =~= bare(list)) by {
        assert forall|i: int| 0 <= i < parts.len() implies parts.filter_map(pick)[i] == #[trigger] bare(
            list,
        )[i] by {
            assert(pick(parts[i]) is Some);
            assert(Some(parts.filter_map(pick)[i]) == pick(parts[i]));
        }
    }
    assert(values::listed_values(s, mark) == bare(list));
}

/// In a list below an option a value may stand in quotation marks, and without
/// description.
pub proof fn law_bullet_forms(row: Described, quote: char)
    requires
        bulleted(row),
        quote == '\'' || quote == '"' || quote == '`',
    ensures
        values::bullet_value(
            seq!['-', ' '] + quoted(row.name, quote) + seq![':', ' '] + row.description,
        ) == Some(row),
        values::bullet_value(seq!['-', ' '] + row.name) == Some(
            Described { name: row.name, description: Seq::empty() },
        ),
        values::bullet_value(seq!['-', ' '] + quoted(row.name, quote)) == Some(
            Described { name: row.name, description: Seq::empty() },
        ),
{
    let none = Seq::<char>::empty();
    let q = quoted(row.name, quote);
    lemma_value(none, row.name);
    lemma_quoted(none, row.name, quote);
    listings::lemma_nothing_to_say();
    lemma_nothing_said();
    assert(q.last() == quote);
    assert(row.name.last() == row.name[row.name.len() - 1]);
    // Without description.
    assert((seq!['-', ' '] + row.name).skip(1) =~= seq![' '] + row.name + none);
    texts::law_trimmed(seq![' '], row.name, none);
    assert(row.name + none =~= row.name);
    texts::law_cut_once(row.name, ':', none);
    assert((seq!['-', ' '] + q).skip(1) =~= seq![' '] + q + none);
    texts::law_trimmed(seq![' '], q, none);
    assert(q + none =~= q);
    texts::law_cut_once(q, ':', none);
    // With one.
    let line = seq!['-', ' '] + q + seq![':', ' '] + row.description;
    let rest = q + seq![':', ' '] + row.description;
    assert(line.skip(1) =~= seq![' '] + rest + none);
    assert(rest[0] == quote);
    assert(rest.last() == row.description.last());
    assert(plain::visible(row.description[row.description.len() - 1]));
    texts::law_trimmed(seq![' '], rest, none);
    assert(rest + none =~= rest);
    assert(rest =~= q + seq![':'] + (seq![' '] + row.description));
    texts::law_cut_once(q, ':', seq![' '] + row.description);
    texts::law_trimmed(none, q, none);
    assert(none + q =~= q);
    texts::law_trimmed(seq![' '], row.description, none);
    assert(seq![' '] + row.description + none =~= seq![' '] + row.description);
    pages::law_description_stays(row.description);
}

proof fn lemma_nothing_said()
    ensures
        help::sanitize(Seq::empty()) is None,
{
    let none = Seq::<char>::empty();
    listings::lemma_nothing_to_say();
    text::lemma_span_is(none, Class::Whitespace, true, 0);
    assert(none.skip(0) =~= none);
    text::lemma_back_span_is(none, Class::Whitespace, 0);
    assert(none.take(0) =~= none);
}

/// A single value may be announced as one.
pub proof fn law_one_announced_value(before: Seq<char>, value: Seq<char>)
    requires
        plain::lacks(before, ':'),
        value_word(value),
    ensures
        values::line_values(
            before + seq!['['] + "possible value:"@ + (seq![' '] + value + seq![']']),
        ) == (bare(seq![value]), false),
{
    let none = Seq::<char>::empty();
    let words = "possible value:"@;
    let plural = "possible values:"@;
    let lead = before + seq!['['];
    let after = seq![' '] + value + seq![']'];
    let line = lead + words + after;
    let small = text::lower(line);
    let n = lead.len() as int;
    lemma_value(none, value);
    assert(words.len() == 15 && words[14] == ':' && words[13] == 'e' && (forall|i: int|
        0 <= i < 14 ==> #[trigger] words[i] != ':') && (forall|i: int|
        0 <= i < 15 ==> text::lower_char(#[trigger] words[i]) == words[i])) by {
        lemma_announcing_one();
    }
    assert(plural.len() == 16 && plural[15] == ':' && plural[14] == 's') by {
        reveal_strlit("possible values:");
    }
    assert forall|i: int| 0 <= i < line.len() && #[trigger] line[i] == ':' implies i == n + 14 by {
        if i < before.len() {
            assert(line[i] == before[i]);
        } else if n <= i < n + 15 {
            assert(line[i] == words[i - n]);
        } else if i > n + 15 && i < line.len() - 1 {
            assert(line[i] == value[i - n - 16]);
        }
    }
    text::lemma_find_from(small, plural, 0);
    if text::find_text(small, plural) is Some {
        let m = text::find_text(small, plural)->Some_0;
        let found = small.subrange(m, m + 16);
        assert(found[15] == ':' && found[14] == 's');
        assert(small[m + 15] == text::lower_char(line[m + 15]));
        assert(line[m + 15] == ':');
        assert(line[n + 13] == words[13]);
        assert(small[n + 13] == 'e');
        assert(false);
    }
    assert forall|i: int| 0 <= i < 15 implies #[trigger] small[n + i] == words[i] by {
        assert(line[n + i] == words[i]);
        assert(text::lower_char(words[i]) == words[i]);
    }
    let part = small.subrange(n, n + 15);
    assert forall|i: int| 0 <= i < 15 implies #[trigger] part[i] == words[i] by {
        assert(part[i] == small[n + i]);
    }
    assert(part =~= words);
    assert(text::occurs_at(small, words, n));
    text::lemma_find_from(small, words, 0);
    let m = text::find_text(small, words)->Some_0;
    assert(small.subrange(m, m + 15)[14] == ':');
    assert(small[m + 14] == text::lower_char(line[m + 14]));
    assert(line[m + 14] == ':');
    assert(line.skip(n + 15) =~= after);
    assert(value.last() == value[value.len() - 1]);
    assert(plain::visible(value[0]));
    lemma_unbracketed(value);
    let one = seq![value];
    lemma_listed_values(one, ',', none);
    assert(written(one, ',', none) == value);
}

proof fn lemma_announcing_one()
    ensures
        ({
            let words = "possible value:"@;
            &&& words.len() == 15
            &&& words[14] == ':'
            &&& words[13] == 'e'
            &&& forall|i: int| 0 <= i < 14 ==> #[trigger] words[i] != ':'
            &&& forall|i: int| 0 <= i < 15 ==> text::lower_char(#[trigger] words[i]) == words[i]
        }),
{
    let words = "possible value:"@;
    reveal_strlit("possible value:");
    assert forall|i: int| 0 <= i < 15 implies text::lower_char(#[trigger] words[i]) == words[i]
        && (i < 14 ==> words[i] != ':') by {
        if i < 8 {
            assert(words[0] == 'p' && words[1] == 'o' && words[2] == 's' && words[3] == 's'
                && words[4] == 'i' && words[5] == 'b' && words[6] == 'l' && words[7] == 'e');
        } else {
            assert(words[8] == ' ' && words[9] == 'v' && words[10] == 'a' && words[11] == 'l'
                && words[12] == 'u' && words[13] == 'e' && words[14] == ':');
        }
    }
}

/// Values may also be announced in a line of their own, deeper than the option.
pub proof fn law_values_in_a_line_below(
    title: Seq<char>,
    colon: bool,
    indent: Seq<char>,
    spelling: Seq<char>,
    gap: Seq<char>,
    words: Seq<char>,
    deeper: Seq<char>,
    list: Seq<Seq<char>>,
)
    requires
        declarations::options_title(title),
        plain::spaces(indent),
        indent.len() > 0,
        declarations::option_name(spelling),
        plain::spaces(gap),
        gap.len() > 0,
        declarations::wordy(words),
        forall|i: int|
            0 <= i < words.len() ==> #[trigger] words[i] != ':' && words[i] != '{' && words[i] != '['
                && words[i] != '<',
        plain::spaces(deeper),
        deeper.len() > indent.len(),
        0 < list.len() <= 128,
        forall|i: int| 0 <= i < list.len() ==> value_word(#[trigger] list[i]),
        forall|i: int, j: int|
            0 <= i < j < list.len() ==> #[trigger] list[i] != #[trigger] list[j],
    ensures
        values::documented_choices(
            (if colon { title + seq![':'] } else { title }) + seq!['\n'] + (indent + (spelling + gap
                + words)) + seq!['\n'] + (deeper + announcing(list)) + seq!['\n'],
        ) == seq![Choices { option: spelling, values: bare(list) }],
{
    let none = Seq::<char>::empty();
    let head = if colon { title + seq![':'] } else { title };
    let page = head + seq!['\n'];
    let line = spelling + gap + words;
    lemma_titled(title, colon);
    declarations::lemma_option_spelling(spelling);
    declarations::lemma_printed(spelling, gap, words);
    assert(line[0] == '-');
    declarations::law_declared_option(spelling, none, none, gap, words);
    assert(spelling + none + gap + words =~= line);
    lemma_spelling_chars(spelling);
    assert forall|i: int| 0 <= i < line.len() implies #[trigger] line[i] != ':' && line[i] != '{'
        && line[i] != '[' && line[i] != '<' by {
        if i < spelling.len() {
            assert(line[i] == spelling[i]);
        } else if i < spelling.len() + gap.len() {
            assert(line[i] == gap[i - spelling.len()]);
        } else {
            assert(line[i] == words[i - spelling.len() - gap.len()]);
        }
    }
    lemma_no_list(line);
    let nothing = Seq::<Described>::empty();
    lemma_value_line(page, indent, line, spelling, nothing);
    let declared = page + (indent + line) + seq!['\n'];
    assert(values::add_choices(Seq::empty(), seq![spelling], nothing) == Seq::<Choices>::empty());
    lemma_announcing(list);
    let below = announcing(list);
    pages::lemma_line(deeper, below, none);
    assert(deeper + below + none =~= deeper + below);
    lemma_bare(list);
    lemma_one_option(spelling, bare(list));
    lemma_another(declared, deeper + below);
}

/// A line that announces values.
pub open spec fn announcing(list: Seq<Seq<char>>) -> Seq<char> {
    seq!['['] + "possible values:"@ + (seq![' '] + written(list, ',', seq![' ']) + seq![']'])
}

proof fn lemma_announcing(list: Seq<Seq<char>>)
    requires
        0 < list.len() <= 128,
        forall|i: int| 0 <= i < list.len() ==> value_word(#[trigger] list[i]),
    ensures
        plain::printed(announcing(list)),
        announcing(list).len() > 0,
        announcing(list)[0] == '[',
        announcing(list).last() == ']',
        values::line_values(announcing(list)) == (bare(list), false),
        help::declaration(announcing(list)) is None,
        !help::options_heading(announcing(list)),
{
    let none = Seq::<char>::empty();
    let pad = seq![' '];
    let inner = written(list, ',', pad);
    let after = pad + inner + seq![']'];
    let line = announcing(list);
    lemma_written(list, ',', pad);
    assert forall|i: int| 0 <= i < after.len() implies #[trigger] after[i] != ':' by {
        if 0 < i <= inner.len() {
            assert(after[i] == inner[i - 1]);
        }
    }
    lemma_announcement(seq!['['], after);
    assert(inner.last() == inner[inner.len() - 1]);
    lemma_unbracketed(inner);
    assert(values::announced_list(line, 17) == inner);
    lemma_listed_values(list, ',', pad);
    let words = "possible values:"@;
    assert(words.len() == 16 && forall|i: int|
        0 <= i < 16 ==> plain::visible(#[trigger] words[i]) || words[i] == ' ') by {
        reveal_strlit("possible values:");
        assert forall|i: int| 0 <= i < words.len() implies plain::visible(#[trigger] words[i])
            || words[i] == ' ' by {}
    }
    assert forall|i: int| 0 <= i < line.len() implies plain::visible(#[trigger] line[i]) || line[i]
        == ' ' by {
        if 1 <= i < 17 {
            assert(line[i] == words[i - 1]);
        } else if i >= 17 {
            assert(line[i] == after[i - 17]);
            if 0 < i - 17 <= inner.len() {
                assert(after[i - 17] == inner[i - 18]);
            }
        }
    }
    assert(line.last() == ']');
    assert(!help::options_heading(line)) by {
        lemma_bracket_is_no_title(line);
    }
}

proof fn lemma_bracket_is_no_title(line: Seq<char>)
    requires
        line.len() > 0,
        line[0] == '[',
        line.last() == ']',
    ensures
        !help::options_heading(line),
{
    text::lemma_back_span_is(line, Class::Only(':'), 0);
    assert(line.take(line.len() as int) =~= line);
    let t = help::heading_text(line);
    assert(t.len() == line.len() && t[0] == '[');
    reveal_strlit("option");
    reveal_strlit("options");
    reveal_strlit("flags");
    reveal_strlit("global options");
    reveal_strlit("general options");
    reveal_strlit("optional arguments");
    reveal_strlit("the following options are available");
}

/// A value that is documented again keeps its description; one that had none gets
/// it. Where an option has as many values as it may have, nothing changes.
pub proof fn law_value_documented_again(list: Seq<Described>, k: int, value: Described)
    requires
        0 <= k < list.len(),
        forall|i: int, j: int|
            0 <= i < j < list.len() ==> (#[trigger] list[i]).name != (#[trigger] list[j]).name,
        list[k].name == value.name,
    ensures
        list.len() < 128 && list[k].description.len() == 0 ==> values::add_values(
            list,
            seq![value],
        ) == list.take(k) + seq![value] + list.skip(k + 1),
        list.len() >= 128 || list[k].description.len() > 0 ==> values::add_values(
            list,
            seq![value],
        ) == list,
{
    let one = seq![value];
    assert(one.drop_last() =~= Seq::empty());
    assert(values::add_values(list, one.drop_last()) == list);
    options::lemma_position_is(list, value.name, k as nat);
    assert(list.update(k, value) =~= list.take(k) + seq![value] + list.skip(k + 1));
}

} // verus!

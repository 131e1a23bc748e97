//! The one line that says what a command does.
use vstd::prelude::*;
use crate::commands::describe;
use crate::commands::help;
use crate::laws::menus;
use crate::laws::pages;
use crate::laws::plain;
use crate::laws::texts;
use crate::text;
use crate::text::Class;

verus! {

/// A word of visible characters.
pub open spec fn word(s: Seq<char>) -> bool {
    s.len() > 0 && forall|i: int| 0 <= i < s.len() ==> plain::visible(#[trigger] s[i])
}

proof fn lemma_another_text(before: Seq<char>, indent: Seq<char>, s: Seq<char>)
    requires
        before.len() == 0 || before.last() == '\n',
        plain::spaces(indent),
        plain::printed(s),
        s.len() > 0,
        s[0] != ' ',
        s.last() != ' ',
    ensures
        help::clean_texts(before + (indent + s) + seq!['\n']) == help::clean_texts(before).push(s),
        (before + (indent + s) + seq!['\n']).last() == '\n',
{
    let none = Seq::<char>::empty();
    pages::lemma_line(indent, s, none);
    assert(indent + s + none =~= indent + s);
    texts::law_another_line(before, indent + s);
    let list = text::lines(before).push(indent + s);
    assert(list.drop_last() =~= text::lines(before));
    assert(help::clean_texts(before + (indent + s) + seq!['\n']) =~= help::clean_texts(before).push(
        s,
    ));
}

proof fn lemma_no_text()
    ensures
        help::clean_texts(Seq::empty()) == Seq::<Seq<char>>::empty(),
{
    let none = Seq::<char>::empty();
    texts::law_lines(none, none);
    assert(help::clean_texts(none) =~= Seq::<Seq<char>>::empty());
}

proof fn lemma_spaced_description(lead: Seq<char>, words: Seq<char>)
    requires
        plain::spaces(lead),
        pages::description(words),
    ensures
        help::sanitize(lead + words) == Some(words),
{
    texts::law_words_skip_spaces(lead, words, Class::Whitespace);
    pages::law_description_stays(words);
}

/// Under its heading `NAME`, a manual page says what the command does behind the
/// command's name, spaces and a dash.
pub proof fn law_name_section(
    indent: Seq<char>,
    name: Seq<char>,
    gap: Seq<char>,
    words: Seq<char>,
)
    requires
        plain::spaces(indent),
        word(name),
        plain::spaces(gap),
        gap.len() > 0,
        pages::description(words),
    ensures
        describe::man_description(
            name,
            seq!['N', 'A', 'M', 'E', '\n'] + (indent + (name + gap + seq!['-', ' '] + words))
                + seq!['\n'],
        ) == Some(words),
{
    let none = Seq::<char>::empty();
    let title = seq!['N', 'A', 'M', 'E'];
    reveal_strlit("NAME");
    assert("NAME"@ =~= title);
    assert forall|i: int| 0 <= i < title.len() implies plain::visible(#[trigger] title[i]) by {}
    lemma_no_text();
    lemma_another_text(none, none, title);
    assert(none + (none + title) + seq!['\n'] =~= seq!['N', 'A', 'M', 'E', '\n']);
    let line = name + gap + seq!['-', ' '] + words;
    assert forall|i: int| 0 <= i < line.len() implies plain::visible(#[trigger] line[i]) || line[i]
        == ' ' by {
        if i < name.len() {
            assert(line[i] == name[i]);
        } else if i < name.len() + gap.len() {
            assert(line[i] == gap[i - name.len()]);
        } else if i >= name.len() + gap.len() + 2 {
            assert(line[i] == words[i - name.len() - gap.len() - 2]);
        }
    }
    assert(line[0] == name[0]);
    assert(line.last() == words.last());
    lemma_another_text(seq!['N', 'A', 'M', 'E', '\n'], indent, line);
    let list = seq![title, line];
    assert(help::clean_texts(
        seq!['N', 'A', 'M', 'E', '\n'] + (indent + line) + seq!['\n'],
    ) =~= list);
    // The line under the heading.
    let rest = line.skip(name.len() as int);
    assert(line.take(name.len() as int) =~= name);
    assert(rest =~= gap + (seq!['-', ' '] + words));
    assert(rest[0] == gap[0]);
    let dashed = seq!['-', ' '] + words;
    assert(rest[gap.len() as int] == '-');
    text::lemma_span_is(rest, Class::Whitespace, true, gap.len());
    assert(rest.skip(gap.len() as int) =~= dashed);
    assert(dashed[0] == '-' && dashed[1] == ' ');
    text::lemma_span_is(dashed, Class::Only('-'), true, 1);
    assert(dashed.skip(1) =~= seq![' '] + words);
    lemma_spaced_description(seq![' '], words);
    assert(describe::section_description(name, line) == Some(words));
    if line == "NAME"@ {
        assert(line[name.len() as int] == ' ');
    }
    assert(list[0] == title && list[1] == line);
    assert(describe::man_line(name, true, list[1]) == Some(words));
    assert(describe::man_description_from(name, list, 1) == Some(words));
    assert(describe::man_line(name, false, list[0]) is None);
}

/// A line of names, a dash between spaces and a description describes each of the
/// commands that it names, also where the name is followed by the section in round
/// brackets.
pub proof fn law_line_of_names(
    name: Seq<char>,
    other: Seq<char>,
    section: Seq<char>,
    words: Seq<char>,
)
    requires
        word(name),
        word(other),
        plain::lacks(name, ','),
        plain::lacks(other, ','),
        section.len() == 0 || word(section) && section[0] == '(' && plain::lacks(section, ','),
        pages::description(words),
        name != seq!['N', 'A', 'M', 'E'],
    ensures
        describe::man_description(name, name + section + seq![' ', '-', ' '] + words + seq!['\n'])
            == Some(words),
        other[0] != '-' && name[0] != '-' ==> describe::man_description(
            name,
            other + seq![',', ' '] + name + section + seq![' ', '-', ' '] + words + seq!['\n'],
        ) == Some(words),
{
    let none = Seq::<char>::empty();
    lemma_is_name(none, name, section);
    let named = name + section;
    assert forall|i: int| 0 <= i < named.len() implies plain::visible(#[trigger] named[i])
        && named[i] != ',' by {
        if i < name.len() {
            assert(named[i] == name[i]);
        } else {
            assert(named[i] == section[i - name.len()]);
        }
    }
    texts::law_pieces(named, ',', none);
    let one = text::split_on(named, ',');
    assert(one[0] == named);
    assert(none + name + section =~= named);
    assert(describe::is_name(one[0], name));
    assert(describe::lists_name(named, name));
    assert(named.last() == named[named.len() - 1]);
    assert(named[0] == named[0]);
    lemma_names_line(name, named, words);
    assert(name + section + seq![' ', '-', ' '] + words =~= (name + section) + seq![' ', '-', ' ']
        + words);
    if other[0] != '-' && name[0] != '-' {
        let names = other + seq![',', ' '] + name + section;
        let second = seq![' '] + name + section;
        assert(names =~= other + seq![','] + second);
        texts::law_pieces(other, ',', second);
        assert forall|i: int| 0 <= i < second.len() implies #[trigger] second[i] != ',' by {
            if 0 < i <= name.len() {
                assert(second[i] == name[i - 1]);
            } else if i > name.len() {
                assert(second[i] == section[i - 1 - name.len()]);
            }
        }
        texts::law_pieces(second, ',', none);
        lemma_is_name(seq![' '], name, section);
        let two = text::split_on(names, ',');
        assert(two[1] == second);
        assert(describe::is_name(two[1], name));
        assert(describe::lists_name(names, name));
        let n = other.len() as int;
        assert forall|i: int| 0 <= i < names.len() implies (plain::visible(#[trigger] names[i])
            || names[i] == ' ') && (names[i] == ' ' ==> i == n + 1) by {
            if i < n {
                assert(names[i] == other[i]);
            } else if n + 2 <= i < n + 2 + name.len() {
                assert(names[i] == name[i - n - 2]);
            } else if i >= n + 2 + name.len() {
                assert(names[i] == section[i - n - 2 - name.len()]);
            }
        }
        assert(names[0] == other[0]);
        assert(names[n + 2] == name[0]);
        lemma_names_line(name, names, words);
        assert(other + seq![',', ' '] + name + section + seq![' ', '-', ' '] + words =~= names
            + seq![' ', '-', ' '] + words);
    }
}

proof fn lemma_is_name(lead: Seq<char>, name: Seq<char>, section: Seq<char>)
    requires
        plain::spaces(lead),
        word(name),
        section.len() == 0 || word(section) && section[0] == '(',
    ensures
        describe::is_name(lead + name + section, name),
{
    let none = Seq::<char>::empty();
    let s = name + section;
    assert(s[0] == name[0]);
    if section.len() > 0 {
        assert(s.last() == section[section.len() - 1]);
        assert(s[name.len() as int] == section[0]);
    } else {
        assert(s.last() == name[name.len() - 1]);
    }
    texts::law_trimmed(lead, s, none);
    assert(lead + s + none =~= lead + name + section);
    assert(s.take(name.len() as int) =~= name);
}

proof fn lemma_names_line(name: Seq<char>, names: Seq<char>, words: Seq<char>)
    requires
        names.len() > 0,
        plain::printed(names),
        names[0] != ' ',
        names.last() != ' ',
        forall|i: int| 0 <= i < names.len() - 1 ==> !#[trigger] dash_behind_space(names, i),
        pages::description(words),
        describe::lists_name(names, name),
    ensures
        describe::man_description(name, names + seq![' ', '-', ' '] + words + seq!['\n']) == Some(
            words,
        ),
{
    let none = Seq::<char>::empty();
    let dash = seq![' ', '-', ' '];
    let line = names + dash + words;
    reveal_strlit(" - ");
    reveal_strlit("NAME");
    assert(" - "@ =~= dash);
    assert forall|i: int| 0 <= i < line.len() implies plain::visible(#[trigger] line[i]) || line[i]
        == ' ' by {
        if i < names.len() {
            assert(line[i] == names[i]);
        } else if i >= names.len() + 3 {
            assert(line[i] == words[i - names.len() - 3]);
        }
    }
    assert(line[0] == names[0]);
    assert(line.last() == words.last());
    lemma_no_text();
    lemma_another_text(none, none, line);
    assert(none + (none + line) + seq!['\n'] =~= line + seq!['\n']);
    let list = seq![line];
    assert(help::clean_texts(line + seq!['\n']) =~= list);
    let n = names.len() as int;
    lemma_dash(names, words);
    assert(line.take(n) =~= names);
    assert(line.skip(n + 3) =~= words);
    pages::law_description_stays(words);
    assert(describe::dashed_description(name, line) == Some(words));
    if line == "NAME"@ {
        assert(line[n] == ' ');
    }
    assert(list[0] == line);
    assert(describe::man_line(name, false, list[0]) == Some(words));
}

/// At a position stands a space, and a dash behind it.
pub open spec fn dash_behind_space(s: Seq<char>, i: int) -> bool {
    s[i] == ' ' && s[i + 1] == '-'
}

proof fn lemma_dash(names: Seq<char>, words: Seq<char>)
    requires
        names.len() > 0,
        names.last() != ' ',
        forall|i: int| 0 <= i < names.len() - 1 ==> !#[trigger] dash_behind_space(names, i),
    ensures
        text::find_text(names + seq![' ', '-', ' '] + words, seq![' ', '-', ' ']) == Some(
            names.len() as int,
        ),
{
    let dash = seq![' ', '-', ' '];
    let line = names + dash + words;
    let n = names.len() as int;
    assert(line.subrange(n, n + 3) =~= dash);
    assert forall|m: int| 0 <= m < n implies !#[trigger] text::occurs_at(line, dash, m) by {
        if text::occurs_at(line, dash, m) {
            let part = line.subrange(m, m + 3);
            assert(part[0] == ' ' && part[1] == '-');
            assert(line[m] == ' ' && line[m + 1] == '-');
            assert(line[m] == names[m]);
            if m + 1 < n {
                assert(line[m + 1] == names[m + 1]);
                assert(!dash_behind_space(names, m));
            } else {
                assert(names.last() == ' ');
            }
        }
    }
    texts::law_found_first(line, dash, n);
}

/// A sentence: a description of two words or more that starts with a letter and
/// holds no colon and no bracket.
pub open spec fn statement(s: Seq<char>) -> bool {
    &&& pages::description(s)
    &&& plain::letter(s[0])
    &&& !plain::lacks(s, ' ')
    &&& plain::lacks(s, ':')
    &&& plain::lacks(s, '[')
    &&& plain::lacks(s, '<')
}

/// The first sentence of a help text says what the command does.
pub proof fn law_first_sentence(name: Seq<char>, indent: Seq<char>, words: Seq<char>)
    requires
        plain::spaces(indent),
        statement(words),
        !describe::diagnostic(text::lower(words)),
        !plain::in_small(words, "available commands"@),
    ensures
        describe::help_description(name, indent + words + seq!['\n']) == Some(words),
{
    let none = Seq::<char>::empty();
    lemma_no_text();
    lemma_another_text(none, indent, words);
    assert(none + (indent + words) + seq!['\n'] =~= indent + words + seq!['\n']);
    let list = seq![words];
    assert(help::clean_texts(indent + words + seq!['\n']) =~= list);
    lemma_sentence(name, words);
    assert(list[0] == words);
}

proof fn lemma_sentence(name: Seq<char>, words: Seq<char>)
    requires
        statement(words),
        !describe::diagnostic(text::lower(words)),
        !plain::in_small(words, "available commands"@),
    ensures
        describe::help_line(name, words) == Some(words),
{
    let low = text::lower(words);
    let k = choose|k: int| 0 <= k < words.len() && words[k] == ' ';
    assert(low[k] == ' ');
    assert forall|i: int| 0 <= i < low.len() implies #[trigger] low[i] != ':' && low[i] != '['
        && low[i] != '<' by {
        assert(words[i] != ':' && words[i] != '[' && words[i] != '<');
    }
    lemma_no_heading(low, "usage"@, k);
    lemma_no_heading(low, "options"@, k);
    lemma_no_heading(low, "commands"@, k);
    lemma_no_heading(low, "arguments"@, k);
    lemma_no_heading(low, "available commands"@, k);
    lemma_no_heading(low, "flags"@, k);
    lemma_no_heading(low, "examples"@, k);
    reveal_strlit("usage");
    reveal_strlit("options");
    reveal_strlit("commands");
    reveal_strlit("arguments");
    reveal_strlit("flags");
    reveal_strlit("examples");
    if low == "available commands"@ {
        assert forall|i: int| 0 <= i < words.len() implies plain::small(#[trigger] words[i])
            == "available commands"@[i] by {
            assert(low[i] == text::lower_char(words[i]));
        }
        assert(plain::in_small(words, "available commands"@));
    }
    assert(!describe::structural(low));
    reveal_strlit(" [");
    reveal_strlit(" <");
    if describe::shows_usage(low, name) {
        let n = name.len() as int;
        if text::starts_with(low, name + " ["@) {
            assert(low.take(n + 2)[n + 1] == '[');
            assert(low[n + 1] == '[');
        } else {
            assert(low.take(n + 2)[n + 1] == '<');
            assert(low[n + 1] == '<');
        }
    }
    pages::law_description_stays(words);
    lemma_two_words(words, k);
}

proof fn lemma_no_heading(low: Seq<char>, heading: Seq<char>, k: int)
    requires
        forall|i: int| 0 <= i < low.len() ==> #[trigger] low[i] != ':',
        0 <= k < low.len(),
        low[k] == ' ',
    ensures
        !text::starts_with(low, heading.push(':')),
{
    if text::starts_with(low, heading.push(':')) {
        let n = heading.len() as int;
        assert(low.take(n + 1)[n] == ':');
        assert(low[n] == ':');
    }
}

proof fn lemma_two_words(s: Seq<char>, k: int)
    requires
        plain::single_spaced(s),
        0 <= k < s.len(),
        s[k] == ' ',
    ensures
        text::words(s, Class::Whitespace).len() >= 2,
{
    let c = Class::Whitespace;
    let n = text::span(s, Class::Only(' '), false) as int;
    text::lemma_span(s, Class::Only(' '), false);
    assert(n <= k) by {
        if n > k {
            assert(text::in_class(Class::Only(' '), s[k]) == false);
        }
    }
    let first = s.take(n);
    let rest = s.skip(n);
    assert(n > 0) by {
        assert(s[0] != ' ');
    }
    assert forall|i: int| 0 <= i < first.len() implies plain::visible(#[trigger] first[i]) by {
        assert(text::in_class(Class::Only(' '), s[i]) == false);
    }
    assert(first + rest =~= s);
    texts::law_first_word(first, rest, c);
    // Something visible stands behind the space.
    let after = s.skip(n + 1);
    assert(rest =~= seq![' '] + after);
    assert(n + 1 < s.len()) by {
        if n + 1 == s.len() {
            assert(s.last() == s[n]);
        }
    }
    assert(after[0] == s[n + 1]);
    texts::law_words_skip_spaces(seq![' '], after, c);
    assert(plain::visible(after[0]));
    text::lemma_span_is(after, c, true, 0);
    assert(after.skip(0) =~= after);
    text::lemma_span(after, c, false);
    assert(text::span(after, c, false) > 0);
}

/// A line that shows how to call the command, opens a section, starts like an
/// option or reports a failure is passed over.
pub open spec fn passed_over(line: Seq<char>) -> bool {
    ||| line[0] == '-'
    ||| line[0] == '['
    ||| exists|rest: Seq<char>| plain::in_small(line, #[trigger] ("usage"@.push(':') + rest))
    ||| exists|rest: Seq<char>| plain::in_small(line, #[trigger] ("options"@.push(':') + rest))
    ||| exists|rest: Seq<char>| plain::in_small(line, #[trigger] ("commands"@.push(':') + rest))
    ||| exists|rest: Seq<char>| plain::in_small(line, #[trigger] ("arguments"@.push(':') + rest))
    ||| exists|rest: Seq<char>| plain::in_small(line, #[trigger] ("available commands"@.push(':') + rest))
    ||| exists|rest: Seq<char>| plain::in_small(line, #[trigger] ("flags"@.push(':') + rest))
    ||| exists|rest: Seq<char>| plain::in_small(line, #[trigger] ("examples"@.push(':') + rest))
    ||| exists|a: Seq<char>, b: Seq<char>| plain::in_small(line, #[trigger] (a + "error:"@ + b))
    ||| exists|a: Seq<char>, b: Seq<char>| plain::in_small(line, #[trigger] (a + "warning:"@ + b))
    ||| exists|a: Seq<char>, b: Seq<char>| plain::in_small(line, #[trigger] (a + "failed"@ + b))
    ||| exists|a: Seq<char>, b: Seq<char>| plain::in_small(line, #[trigger] (a + "couldn't"@ + b))
    ||| exists|a: Seq<char>, b: Seq<char>| plain::in_small(line, #[trigger] (a + "unrecognized option"@ + b))
    ||| exists|a: Seq<char>, b: Seq<char>| plain::in_small(line, #[trigger] (a + "unknown option"@ + b))
}

/// What a help text shows before its first sentence does not describe the command.
pub proof fn law_lines_before_the_sentence(
    name: Seq<char>,
    line: Seq<char>,
    indent: Seq<char>,
    words: Seq<char>,
)
    requires
        plain::printed(line),
        line.len() > 0,
        line[0] != ' ',
        line.last() != ' ',
        passed_over(line),
        plain::spaces(indent),
        statement(words),
        !describe::diagnostic(text::lower(words)),
        !plain::in_small(words, "available commands"@),
    ensures
        describe::help_description(name, line + seq!['\n'] + (indent + words) + seq!['\n'])
            == Some(words),
{
    let none = Seq::<char>::empty();
    lemma_no_text();
    lemma_another_text(none, none, line);
    assert(none + (none + line) + seq!['\n'] =~= line + seq!['\n']);
    lemma_another_text(line + seq!['\n'], indent, words);
    let list = seq![line, words];
    assert(help::clean_texts(line + seq!['\n'] + (indent + words) + seq!['\n']) =~= list);
    lemma_passed_over(name, line);
    lemma_sentence(name, words);
    assert(list[0] == line && list[1] == words);
    assert(describe::help_description_from(name, list, 1) == Some(words));
}

proof fn lemma_small_is(line: Seq<char>, t: Seq<char>)
    requires
        plain::in_small(line, t),
    ensures
        text::lower(line) == t,
{
    pages::lemma_in_small(line, t);
}

proof fn lemma_starts(a: Seq<char>, mark: Seq<char>, b: Seq<char>)
    ensures
        text::contains_text(a + mark + b, mark),
        text::starts_with(mark + b, mark),
{
    let n = a.len() as int;
    assert((a + mark + b).subrange(n, n + mark.len()) =~= mark);
    assert(text::occurs_at(a + mark + b, mark, n));
    assert((mark + b).take(mark.len() as int) =~= mark);
}

proof fn lemma_passed_over(name: Seq<char>, line: Seq<char>)
    requires
        line.len() > 0,
        passed_over(line),
    ensures
        describe::help_line(name, line) is None,
{
    let low = text::lower(line);
    if line[0] == '-' || line[0] == '[' {
    } else if exists|rest: Seq<char>|
        plain::in_small(line, #[trigger] ("usage"@.push(':') + rest)) {
        let rest = choose|rest: Seq<char>|
            plain::in_small(line, #[trigger] ("usage"@.push(':') + rest));
        lemma_small_is(line, "usage"@.push(':') + rest);
        lemma_starts(Seq::empty(), "usage"@.push(':'), rest);
    } else if exists|rest: Seq<char>|
        plain::in_small(line, #[trigger] ("options"@.push(':') + rest)) {
        let rest = choose|rest: Seq<char>|
            plain::in_small(line, #[trigger] ("options"@.push(':') + rest));
        lemma_small_is(line, "options"@.push(':') + rest);
        lemma_starts(Seq::empty(), "options"@.push(':'), rest);
    } else if exists|rest: Seq<char>|
        plain::in_small(line, #[trigger] ("commands"@.push(':') + rest)) {
        let rest = choose|rest: Seq<char>|
            plain::in_small(line, #[trigger] ("commands"@.push(':') + rest));
        lemma_small_is(line, "commands"@.push(':') + rest);
        lemma_starts(Seq::empty(), "commands"@.push(':'), rest);
    } else if exists|rest: Seq<char>|
        plain::in_small(line, #[trigger] ("arguments"@.push(':') + rest)) {
        let rest = choose|rest: Seq<char>|
            plain::in_small(line, #[trigger] ("arguments"@.push(':') + rest));
        lemma_small_is(line, "arguments"@.push(':') + rest);
        lemma_starts(Seq::empty(), "arguments"@.push(':'), rest);
    } else if exists|rest: Seq<char>|
        plain::in_small(line, #[trigger] ("available commands"@.push(':') + rest)) {
        let rest = choose|rest: Seq<char>|
            plain::in_small(line, #[trigger] ("available commands"@.push(':') + rest));
        lemma_small_is(line, "available commands"@.push(':') + rest);
        lemma_starts(Seq::empty(), "available commands"@.push(':'), rest);
    } else if exists|rest: Seq<char>|
        plain::in_small(line, #[trigger] ("flags"@.push(':') + rest)) {
        let rest = choose|rest: Seq<char>|
            plain::in_small(line, #[trigger] ("flags"@.push(':') + rest));
        lemma_small_is(line, "flags"@.push(':') + rest);
        lemma_starts(Seq::empty(), "flags"@.push(':'), rest);
    } else if exists|rest: Seq<char>|
        plain::in_small(line, #[trigger] ("examples"@.push(':') + rest)) {
        let rest = choose|rest: Seq<char>|
            plain::in_small(line, #[trigger] ("examples"@.push(':') + rest));
        lemma_small_is(line, "examples"@.push(':') + rest);
        lemma_starts(Seq::empty(), "examples"@.push(':'), rest);
    } else if exists|a: Seq<char>, b: Seq<char>|
        plain::in_small(line, #[trigger] (a + "error:"@ + b)) {
        let (a, b) = choose|a: Seq<char>, b: Seq<char>|
            plain::in_small(line, #[trigger] (a + "error:"@ + b));
        lemma_small_is(line, a + "error:"@ + b);
        lemma_starts(a, "error:"@, b);
    } else if exists|a: Seq<char>, b: Seq<char>|
        plain::in_small(line, #[trigger] (a + "warning:"@ + b)) {
        let (a, b) = choose|a: Seq<char>, b: Seq<char>|
            plain::in_small(line, #[trigger] (a + "warning:"@ + b));
        lemma_small_is(line, a + "warning:"@ + b);
        lemma_starts(a, "warning:"@, b);
    } else if exists|a: Seq<char>, b: Seq<char>|
        plain::in_small(line, #[trigger] (a + "failed"@ + b)) {
        let (a, b) = choose|a: Seq<char>, b: Seq<char>|
            plain::in_small(line, #[trigger] (a + "failed"@ + b));
        lemma_small_is(line, a + "failed"@ + b);
        lemma_starts(a, "failed"@, b);
    } else if exists|a: Seq<char>, b: Seq<char>|
        plain::in_small(line, #[trigger] (a + "couldn't"@ + b)) {
        let (a, b) = choose|a: Seq<char>, b: Seq<char>|
            plain::in_small(line, #[trigger] (a + "couldn't"@ + b));
        lemma_small_is(line, a + "couldn't"@ + b);
        lemma_starts(a, "couldn't"@, b);
    } else if exists|a: Seq<char>, b: Seq<char>|
        plain::in_small(line, #[trigger] (a + "unrecognized option"@ + b)) {
        let (a, b) = choose|a: Seq<char>, b: Seq<char>|
            plain::in_small(line, #[trigger] (a + "unrecognized option"@ + b));
        lemma_small_is(line, a + "unrecognized option"@ + b);
        lemma_starts(a, "unrecognized option"@, b);
    } else if exists|a: Seq<char>, b: Seq<char>|
        plain::in_small(line, #[trigger] (a + "unknown option"@ + b)) {
        let (a, b) = choose|a: Seq<char>, b: Seq<char>|
            plain::in_small(line, #[trigger] (a + "unknown option"@ + b));
        lemma_small_is(line, a + "unknown option"@ + b);
        lemma_starts(a, "unknown option"@, b);
    }
}

} // verus!

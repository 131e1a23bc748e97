//! Options in a manual page or a help text.
use vstd::prelude::*;
use crate::commands::help;
use crate::commands::options;
use crate::laws::listings;
use crate::laws::pages;
use crate::laws::plain;
use crate::laws::texts;
use crate::text;
use crate::commands::help::{Clause, Declaration, Described};
use crate::commands::options::OptionScan;
use crate::text::Class;

verus! {

/// A dash and a letter or digit.
pub open spec fn short_option(s: Seq<char>) -> bool {
    s.len() == 2 && s[0] == '-' && plain::letter_or_digit(s[1])
}

/// Two dashes and a name of letters, digits, dashes and underscores, with a letter
/// or digit at both ends.
pub open spec fn long_option(s: Seq<char>) -> bool {
    &&& 3 <= s.len() <= 128
    &&& s[0] == '-'
    &&& s[1] == '-'
    &&& plain::letter_or_digit(s[2])
    &&& plain::letter_or_digit(s.last())
    &&& forall|i: int| 2 <= i < s.len() ==> plain::option_char(#[trigger] s[i])
}

pub open spec fn option_name(s: Seq<char>) -> bool {
    short_option(s) || long_option(s)
}

/// Capitals, digits and underscores, at least one.
pub open spec fn in_capitals(s: Seq<char>) -> bool {
    s.len() > 0 && forall|i: int|
        0 <= i < s.len() ==> plain::capital(#[trigger] s[i]) || plain::digit(s[i]) || s[i] == '_'
}

/// What stands for an argument, such as `FILE`, `<FILE>` or `[FILE]`.
pub open spec fn stand_in(s: Seq<char>, name: Seq<char>) -> bool {
    in_capitals(name) && (s == name || s == seq!['<'] + name + seq!['>'] || s == seq!['['] + name
        + seq![']'])
}

/// The forms in which a declaration shows that an option takes an argument, or
/// nothing.
pub open spec fn argument(s: Seq<char>, name: Seq<char>) -> bool {
    ||| s.len() == 0
    ||| s[0] == '=' && s.len() > 1 && forall|i: int|
        1 <= i < s.len() ==> plain::visible(#[trigger] s[i]) && s[i] != ','
    ||| in_capitals(name) && s == seq!['[', '='] + name + seq![']']
    ||| s[0] == ' ' && stand_in(s.skip(1), name)
}

/// A description that starts with a word: a letter and a small letter.
pub open spec fn wordy(s: Seq<char>) -> bool {
    pages::description(s) && s.len() >= 2 && plain::letter(s[0]) && 'a' <= s[1] && s[1] <= 'z'
}

pub proof fn lemma_option_spelling(s: Seq<char>)
    requires
        option_name(s),
    ensures
        help::option_spelling(s),
        forall|i: int| 0 <= i < s.len() ==> plain::visible(#[trigger] s[i]),
{
    if long_option(s) {
        let rest = s.skip(2);
        assert forall|i: int| 0 <= i < rest.len() implies text::in_class(
            Class::OptionPart,
            #[trigger] rest[i],
        ) by {
            assert(rest[i] == s[i + 2]);
        }
        assert forall|i: int| 0 <= i < s.len() implies plain::visible(#[trigger] s[i]) by {
            if i >= 2 {
                assert(plain::option_char(s[i]));
            }
        }
    }
}

pub proof fn lemma_spelling_end(before: Seq<char>, spelling: Seq<char>, after: Seq<char>)
    requires
        option_name(spelling),
        after.len() > 0 ==> after[0] == ' ' || after[0] == ',' || after[0] == '=' || after[0]
            == '[',
    ensures
        ({
            let line = before + spelling + after;
            let p = before.len() as int;
            &&& help::spelling_end(line, p) == Some(p + spelling.len())
            &&& line.subrange(p, p + spelling.len()) == spelling
        }),
{
    let line = before + spelling + after;
    let p = before.len() as int;
    lemma_option_spelling(spelling);
    assert(line.subrange(p, p + spelling.len()) =~= spelling);
    assert(line[p + 1] == spelling[1]);
    if after.len() > 0 {
        assert(line[p + spelling.len()] == after[0]);
    }
    if long_option(spelling) {
        let rest = line.skip(p + 2);
        assert(rest =~= spelling.skip(2) + after);
        assert forall|i: int| 0 <= i < spelling.len() - 2 implies text::in_class(
            Class::OptionPart,
            #[trigger] rest[i],
        ) by {
            assert(rest[i] == spelling[i + 2]);
        }
        text::lemma_span_is(rest, Class::OptionPart, true, (spelling.len() - 2) as nat);
    }
}

proof fn lemma_no_ellipsis(s: Seq<char>)
    requires
        s.len() >= 2,
        s[1] != '.',
    ensures
        help::without_ellipsis(s).len() >= 2,
        help::without_ellipsis(s)[1] == s[1],
    decreases s.len(),
{
    if s.len() >= 3 && s[s.len() - 1] == '.' && s[s.len() - 2] == '.' && s[s.len() - 3] == '.' {
        assert(s.len() >= 5) by {
            if s.len() == 3 {
                assert(s[s.len() - 2] == s[1]);
            } else if s.len() == 4 {
                assert(s[s.len() - 3] == s[1]);
            }
        }
        lemma_no_ellipsis(s.take(s.len() - 3));
    }
}

proof fn lemma_capitals(name: Seq<char>)
    requires
        in_capitals(name),
    ensures
        help::without_ellipsis(name) == name,
        text::all_in(name, Class::PlaceholderPart),
{
    assert forall|i: int| 0 <= i < name.len() implies text::in_class(
        Class::PlaceholderPart,
        #[trigger] name[i],
    ) by {
        assert(plain::capital(name[i]) || plain::digit(name[i]) || name[i] == '_');
    }
    assert(plain::capital(name[name.len() - 1]) || plain::digit(name[name.len() - 1])
        || name[name.len() - 1] == '_');
}

/// What stands for an argument is recognised, with or without brackets.
pub proof fn law_stand_ins(s: Seq<char>, name: Seq<char>)
    requires
        stand_in(s, name),
    ensures
        help::placeholder(s),
        help::placeholder(s + seq!['.', '.', '.']) <== s == name,
        s.len() > 0,
        forall|i: int| 0 <= i < s.len() ==> plain::visible(#[trigger] s[i]) && s[i] != ',',
        s[0] != '/' && s[0] != '-',
{
    lemma_capitals(name);
    assert forall|i: int| 0 <= i < s.len() implies plain::visible(#[trigger] s[i]) && s[i] != ',' by {
        if s == name {
            assert(plain::capital(name[i]) || plain::digit(name[i]) || name[i] == '_');
        } else if 0 < i < s.len() - 1 {
            assert(s[i] == name[i - 1]);
            assert(plain::capital(name[i - 1]) || plain::digit(name[i - 1]) || name[i - 1] == '_');
        }
    }
    if s == name {
        assert(plain::capital(name[0]) || plain::digit(name[0]) || name[0] == '_');
        assert(help::unbracketed(s) == name);
        let dotted = s + seq!['.', '.', '.'];
        assert(dotted[0] == name[0]);
        assert(help::unbracketed(dotted) == dotted);
        assert(dotted.take(dotted.len() - 3) =~= name);
        assert(help::without_ellipsis(dotted) == help::without_ellipsis(name));
    } else {
        assert(s.subrange(1, s.len() - 1) =~= name);
    }
}

pub proof fn lemma_description_clause(line: Seq<char>, p: int, gap: Seq<char>, words: Seq<char>)
    requires
        0 <= p < line.len(),
        line.skip(p) == gap + words,
        plain::spaces(gap),
        gap.len() > 0,
        wordy(words),
    ensures
        help::clause_at(line, p) == Clause::Description(p + gap.len()),
        line.skip(p + gap.len()) == words,
{
    let rest = line.skip(p);
    assert(line[p] == rest[0]);
    assert(rest[0] == gap[0]);
    text::lemma_span_is(rest, Class::AsciiWhitespace, true, gap.len());
    let q = p + gap.len() as int;
    assert(line[q] == rest[gap.len() as int]);
    assert((gap + words).skip(gap.len() as int) =~= words);
    assert(line.skip(q) =~= rest.skip(gap.len() as int));
    let n = text::span(words, Class::AsciiWhitespace, false);
    text::lemma_span(words, Class::AsciiWhitespace, false);
    assert(n >= 2) by {
        if n == 0 {
            assert(text::in_class(Class::AsciiWhitespace, words[0]));
        } else if n == 1 {
            assert(text::in_class(Class::AsciiWhitespace, words[1]));
        }
    }
    let token = line.subrange(q, q + n);
    assert(token =~= words.take(n as int));
    let bare = text::trim_end(token, Class::Only(','));
    text::lemma_back_span(token, Class::Only(','));
    let cut = text::back_span(token, Class::Only(','));
    assert(token.len() - cut >= 2) by {
        if token.len() - cut < 2 {
            assert(text::in_class(Class::Only(','), token[1]));
        }
    }
    assert(bare[0] == words[0] && bare[1] == words[1]);
    assert(help::unbracketed(bare) == bare);
    lemma_no_ellipsis(bare);
    let name = help::without_ellipsis(bare);
    assert(!text::in_class(Class::PlaceholderPart, name[1]));
    assert(!help::placeholder(bare));
}

pub proof fn lemma_attached_end(line: Seq<char>, p: int, n: int)
    requires
        0 <= p <= n <= line.len(),
        forall|i: int| p <= i < n ==> plain::visible(#[trigger] line[i]) && line[i] != ',',
        n < line.len() ==> line[n] == ' ' || line[n] == ',',
    ensures
        help::attached_end(line, p) == n,
    decreases n - p,
{
    if p < n {
        assert(plain::visible(line[p]));
        lemma_attached_end(line, p + 1, n);
    }
}

/// What follows a spelling: its argument, and then the description.
proof fn lemma_after_spelling(
    head: Seq<char>,
    arg: Seq<char>,
    name: Seq<char>,
    gap: Seq<char>,
    words: Seq<char>,
)
    requires
        argument(arg, name),
        plain::spaces(gap),
        gap.len() > 0,
        wordy(words),
    ensures
        ({
            let line = head + arg + gap + words;
            let n = head.len() as int;
            &&& help::argument_end(line, n) is Some
            &&& help::clause_at(line, help::argument_end(line, n)->Some_0) == Clause::Description(
                line.len() - words.len(),
            )
            &&& line.skip(line.len() - words.len()) == words
            &&& line.len() - words.len() < line.len()
        }),
{
    let line = head + arg + gap + words;
    let n = head.len() as int;
    if arg.len() == 0 {
        assert(line[n] == gap[0]);
        assert(line.skip(n) =~= gap + words);
        lemma_description_clause(line, n, gap, words);
    } else if arg[0] == ' ' {
        let place = arg.skip(1);
        law_stand_ins(place, name);
        assert(line[n] == ' ');
        let rest = line.skip(n);
        assert(rest[0] == ' ');
        assert(rest[1] == place[0]);
        text::lemma_span_is(rest, Class::AsciiWhitespace, true, 1);
        let q = n + 1;
        assert(line[q] == place[0]);
        let tail = line.skip(q);
        assert(tail =~= place + gap + words);
        assert forall|i: int| 0 <= i < place.len() implies text::in_class(
            Class::AsciiWhitespace,
            #[trigger] tail[i],
        ) == false by {
            assert(tail[i] == place[i]);
        }
        assert(tail[place.len() as int] == gap[0]);
        text::lemma_span_is(tail, Class::AsciiWhitespace, false, place.len());
        let end = q + place.len() as int;
        let token = line.subrange(q, end);
        assert(token =~= place);
        assert(plain::visible(place[place.len() - 1]) && place[place.len() - 1] != ',');
        text::lemma_back_span_is(place, Class::Only(','), 0);
        assert(place.take(place.len() as int) =~= place);
        assert(line.skip(end) =~= gap + words);
        assert((gap + words)[gap.len() as int] == words[0]);
        text::lemma_span_is(gap + words, Class::AsciiWhitespace, true, gap.len());
        assert(line.skip(end + gap.len()) =~= words);
    } else if arg[0] == '=' {
        let m = n + arg.len() as int;
        assert forall|i: int| n + 1 <= i < m implies plain::visible(#[trigger] line[i]) && line[i]
            != ',' by {
            assert(line[i] == arg[i - n]);
        }
        assert(line[n] == '=');
        assert(line[m] == gap[0]);
        lemma_attached_end(line, n + 1, m);
        assert(line.skip(m) =~= gap + words);
        lemma_description_clause(line, m, gap, words);
    } else {
        let m = n + arg.len() as int;
        assert(line[n] == '[');
        assert(line[n + 1] == arg[1]);
        let rest = line.skip(n);
        assert forall|i: int| 0 <= i < arg.len() - 1 implies text::in_class(
            Class::Only(']'),
            #[trigger] rest[i],
        ) == false by {
            assert(rest[i] == arg[i]);
            if i >= 2 {
                assert(arg[i] == name[i - 2]);
                assert(plain::capital(name[i - 2]) || plain::digit(name[i - 2]) || name[i - 2]
                    == '_');
            }
        }
        assert(rest[arg.len() - 1] == ']');
        text::lemma_span_is(rest, Class::Only(']'), false, (arg.len() - 1) as nat);
        let close = m - 1;
        assert(line.subrange(n + 2, close) =~= name);
        law_stand_ins(name, name);
        assert(line.skip(m) =~= gap + words);
        lemma_description_clause(line, m, gap, words);
    }
}

/// A line that declares an option shows its spelling, maybe an argument, and a
/// description behind spaces.
pub proof fn law_declared_option(
    spelling: Seq<char>,
    arg: Seq<char>,
    name: Seq<char>,
    gap: Seq<char>,
    words: Seq<char>,
)
    requires
        option_name(spelling),
        argument(arg, name),
        plain::spaces(gap),
        gap.len() > 0,
        wordy(words),
    ensures
        help::declaration(spelling + arg + gap + words) == Some(
            Declaration { spellings: seq![spelling], description: Some(words) },
        ),
        help::declaration(spelling) == Some(
            Declaration { spellings: seq![spelling], description: None },
        ),
{
    let none = Seq::<char>::empty();
    let line = spelling + arg + gap + words;
    let after = arg + gap + words;
    assert(line =~= none + spelling + after);
    assert(after[0] == if arg.len() > 0 { arg[0] } else { gap[0] });
    lemma_spelling_end(none, spelling, after);
    lemma_after_spelling(spelling, arg, name, gap, words);
    pages::law_description_stays(words);
    assert(Seq::<Seq<char>>::empty().push(spelling) =~= seq![spelling]);
    lemma_spelling_end(none, spelling, none);
    assert(none + spelling + none =~= spelling);
}

proof fn lemma_second_spelling(
    before: Seq<char>,
    first: Seq<char>,
    second: Seq<char>,
    arg: Seq<char>,
    name: Seq<char>,
    gap: Seq<char>,
    words: Seq<char>,
)
    requires
        option_name(second),
        argument(arg, name),
        plain::spaces(gap),
        gap.len() > 0,
        wordy(words),
    ensures
        help::declaration_from(
            before + second + arg + gap + words,
            before.len() as int,
            seq![first],
        ) == Some(Declaration { spellings: seq![first, second], description: Some(words) }),
{
    let after = arg + gap + words;
    let line = before + second + arg + gap + words;
    assert(after[0] == if arg.len() > 0 { arg[0] } else { gap[0] });
    assert(line =~= before + second + after);
    lemma_spelling_end(before, second, after);
    lemma_after_spelling(before + second, arg, name, gap, words);
    pages::law_description_stays(words);
    assert(seq![first].push(second) =~= seq![first, second]);
}

proof fn lemma_comma(first: Seq<char>, second: Seq<char>, after: Seq<char>)
    requires
        option_name(first),
        option_name(second),
    ensures
        ({
            let line = first + seq![',', ' '] + second + after;
            let n = first.len() as int;
            &&& help::spelling_end(line, 0) == Some(n)
            &&& line.subrange(0, n) == first
            &&& help::argument_end(line, n) == Some(n)
            &&& help::clause_at(line, n) == Clause::Spelling(n + 2)
        }),
{
    let none = Seq::<char>::empty();
    let line = first + seq![',', ' '] + second + after;
    let n = first.len() as int;
    assert(line =~= none + first + (seq![',', ' '] + second + after));
    lemma_spelling_end(none, first, seq![',', ' '] + second + after);
    assert(line[n] == ',');
    let rest = line.skip(n + 1);
    assert(rest[0] == ' ' && rest[1] == second[0]);
    text::lemma_span_is(rest, Class::AsciiWhitespace, true, 1);
    assert(line[n + 2] == second[0]);
}

proof fn lemma_place_and_comma(
    first: Seq<char>,
    place: Seq<char>,
    name: Seq<char>,
    second: Seq<char>,
    after: Seq<char>,
)
    requires
        option_name(first),
        option_name(second),
        stand_in(place, name),
    ensures
        ({
            let line = first + seq![' '] + place + seq![',', ' '] + second + after;
            let n = first.len() as int;
            &&& help::spelling_end(line, 0) == Some(n)
            &&& line.subrange(0, n) == first
            &&& help::argument_end(line, n) == Some(n)
            &&& help::clause_at(line, n) == Clause::Spelling(n + place.len() + 3)
        }),
{
    let none = Seq::<char>::empty();
    let tail = seq![' '] + place + seq![',', ' '] + second + after;
    let line = first + seq![' '] + place + seq![',', ' '] + second + after;
    let n = first.len() as int;
    law_stand_ins(place, name);
    assert(line =~= none + first + tail);
    lemma_spelling_end(none, first, tail);
    assert(line[n] == ' ');
    let rest = line.skip(n);
    assert(rest[0] == ' ' && rest[1] == place[0]);
    text::lemma_span_is(rest, Class::AsciiWhitespace, true, 1);
    let q = n + 1;
    assert(line[q] == place[0]);
    let token = place + seq![','];
    let from = line.skip(q);
    assert(from =~= token + (seq![' '] + second + after));
    assert forall|i: int| 0 <= i < token.len() implies text::in_class(
        Class::AsciiWhitespace,
        #[trigger] from[i],
    ) == false by {
        if i < place.len() {
            assert(from[i] == place[i]);
        }
    }
    assert(from[token.len() as int] == ' ');
    text::lemma_span_is(from, Class::AsciiWhitespace, false, token.len());
    let end = q + token.len() as int;
    assert(line.subrange(q, end) =~= token);
    assert(place[place.len() - 1] != ',');
    text::lemma_back_span_is(token, Class::Only(','), 1);
    assert(token.take(place.len() as int) =~= place);
    let next = line.skip(end);
    assert(next[0] == ' ' && next[1] == second[0]);
    text::lemma_span_is(next, Class::AsciiWhitespace, true, 1);
}

proof fn lemma_step(line: Seq<char>, spelling: Seq<char>, q: int)
    requires
        help::spelling_end(line, 0) == Some(spelling.len() as int),
        line.subrange(0, spelling.len() as int) == spelling,
        help::argument_end(line, spelling.len() as int) == Some(spelling.len() as int),
        help::clause_at(line, spelling.len() as int) == Clause::Spelling(q),
        0 < q <= line.len(),
    ensures
        help::declaration(line) == help::declaration_from(line, q, seq![spelling]),
{
    assert(Seq::<Seq<char>>::empty().push(spelling) =~= seq![spelling]);
}

/// A line may declare two spellings of an option with a comma between them; the
/// first may show the argument too.
#[verifier::rlimit(40)]
pub proof fn law_declared_spellings(
    first: Seq<char>,
    place: Seq<char>,
    second: Seq<char>,
    arg: Seq<char>,
    name: Seq<char>,
    gap: Seq<char>,
    words: Seq<char>,
)
    requires
        option_name(first),
        option_name(second),
        stand_in(place, name),
        argument(arg, name),
        plain::spaces(gap),
        gap.len() > 0,
        wordy(words),
    ensures
        help::declaration(first + seq![',', ' '] + second + arg + gap + words) == Some(
            Declaration { spellings: seq![first, second], description: Some(words) },
        ),
        help::declaration(first + seq![' '] + place + seq![',', ' '] + second + arg + gap + words)
            == Some(Declaration { spellings: seq![first, second], description: Some(words) }),
{
    let after = arg + gap + words;
    let comma = first + seq![',', ' '];
    let line = comma + second + arg + gap + words;
    assert(comma + second + after =~= line);
    assert(help::declaration(line) == help::declaration_from(
        line,
        comma.len() as int,
        seq![first],
    )) by {
        lemma_comma(first, second, after);
        lemma_step(line, first, comma.len() as int);
    }
    lemma_second_spelling(comma, first, second, arg, name, gap, words);
    let shown = first + seq![' '] + place + seq![',', ' '];
    let long = shown + second + arg + gap + words;
    assert(shown + second + after =~= long);
    assert(help::declaration(long) == help::declaration_from(
        long,
        shown.len() as int,
        seq![first],
    )) by {
        lemma_place_and_comma(first, place, name, second, after);
        lemma_step(long, first, shown.len() as int);
    }
    lemma_second_spelling(shown, first, second, arg, name, gap, words);
}

/// Two spellings may also stand behind each other, or have a stroke between them.
pub proof fn law_spellings_side_by_side(
    first: Seq<char>,
    second: Seq<char>,
    arg: Seq<char>,
    name: Seq<char>,
    gap: Seq<char>,
    words: Seq<char>,
)
    requires
        option_name(first),
        option_name(second),
        argument(arg, name),
        plain::spaces(gap),
        gap.len() > 0,
        wordy(words),
    ensures
        help::declaration(first + seq![' '] + second + arg + gap + words) == Some(
            Declaration { spellings: seq![first, second], description: Some(words) },
        ),
        help::declaration(first + seq![' ', '/', ' '] + second + arg + gap + words) == Some(
            Declaration { spellings: seq![first, second], description: Some(words) },
        ),
{
    let after = arg + gap + words;
    let near = first + seq![' '];
    let line = near + second + arg + gap + words;
    assert(near + second + after =~= line);
    assert(help::declaration(line) == help::declaration_from(
        line,
        near.len() as int,
        seq![first],
    )) by {
        lemma_beside(first, second, after);
        lemma_step(line, first, near.len() as int);
    }
    lemma_second_spelling(near, first, second, arg, name, gap, words);
    let stroke = first + seq![' ', '/', ' '];
    let long = stroke + second + arg + gap + words;
    assert(stroke + second + after =~= long);
    assert(help::declaration(long) == help::declaration_from(
        long,
        stroke.len() as int,
        seq![first],
    )) by {
        lemma_stroke(first, second, after);
        lemma_step(long, first, stroke.len() as int);
    }
    lemma_second_spelling(stroke, first, second, arg, name, gap, words);
}

proof fn lemma_beside(first: Seq<char>, second: Seq<char>, after: Seq<char>)
    requires
        option_name(first),
        option_name(second),
    ensures
        ({
            let line = first + seq![' '] + second + after;
            let n = first.len() as int;
            &&& help::spelling_end(line, 0) == Some(n)
            &&& line.subrange(0, n) == first
            &&& help::argument_end(line, n) == Some(n)
            &&& help::clause_at(line, n) == Clause::Spelling(n + 1)
        }),
{
    let none = Seq::<char>::empty();
    let line = first + seq![' '] + second + after;
    let n = first.len() as int;
    assert(line =~= none + first + (seq![' '] + second + after));
    lemma_spelling_end(none, first, seq![' '] + second + after);
    assert(line[n] == ' ');
    let rest = line.skip(n);
    assert(rest[0] == ' ' && rest[1] == second[0]);
    text::lemma_span_is(rest, Class::AsciiWhitespace, true, 1);
    assert(line[n + 1] == second[0]);
}

proof fn lemma_stroke(first: Seq<char>, second: Seq<char>, after: Seq<char>)
    requires
        option_name(first),
        option_name(second),
    ensures
        ({
            let line = first + seq![' ', '/', ' '] + second + after;
            let n = first.len() as int;
            &&& help::spelling_end(line, 0) == Some(n)
            &&& line.subrange(0, n) == first
            &&& help::argument_end(line, n) == Some(n)
            &&& help::clause_at(line, n) == Clause::Spelling(n + 3)
        }),
{
    let none = Seq::<char>::empty();
    let line = first + seq![' ', '/', ' '] + second + after;
    let n = first.len() as int;
    assert(line =~= none + first + (seq![' ', '/', ' '] + second + after));
    lemma_spelling_end(none, first, seq![' ', '/', ' '] + second + after);
    assert(line[n] == ' ');
    let rest = line.skip(n);
    assert(rest[0] == ' ' && rest[1] == '/');
    text::lemma_span_is(rest, Class::AsciiWhitespace, true, 1);
    assert(line[n + 1] == '/');
    let next = line.skip(n + 2);
    assert(next[0] == ' ' && next[1] == second[0]);
    text::lemma_span_is(next, Class::AsciiWhitespace, true, 1);
}

/// A title over a list of options.
pub open spec fn options_title(title: Seq<char>) -> bool {
    pages::heading(title) && (plain::in_small(title, "option"@) || plain::in_small(
        title,
        "options"@,
    ) || plain::in_small(title, "flags"@) || plain::in_small(title, "global options"@)
        || plain::in_small(title, "general options"@) || plain::in_small(
        title,
        "optional arguments"@,
    ) || plain::in_small(title, "the following options are available"@))
}

pub proof fn lemma_title(title: Seq<char>, colon: bool)
    requires
        options_title(title),
    ensures
        ({
            let line = if colon { title + seq![':'] } else { title };
            &&& help::options_heading(line)
            &&& help::clean(line) == Some(line)
            &&& text::trim(line, Class::Whitespace) == line
            &&& help::indentation(line) == 0
            &&& plain::lacks(line, '\n')
            &&& line.len() > 0
            &&& line.last() != '\r'
        }),
{
    let line = if colon { title + seq![':'] } else { title };
    let none = Seq::<char>::empty();
    pages::lemma_heading(title);
    assert forall|u: Seq<char>| #[trigger] plain::in_small(title, u) implies text::lower(title)
        == u by {
        pages::lemma_in_small(title, u);
    }
    assert forall|i: int| 0 <= i < line.len() implies plain::visible(#[trigger] line[i]) || line[i]
        == ' ' by {
        if i < title.len() {
            assert(line[i] == title[i]);
        }
    }
    pages::lemma_line(none, line, none);
    assert(none + line + none =~= line);
    assert(none + line =~= line);
}

pub proof fn lemma_no_title(line: Seq<char>)
    requires
        line.len() > 0,
        line[0] == '-',
    ensures
        !help::options_heading(line),
{
    let t = help::heading_text(line);
    text::lemma_back_span(line, Class::Only(':'));
    let cut = text::back_span(line, Class::Only(':'));
    assert(cut < line.len()) by {
        if cut == line.len() {
            assert(text::in_class(Class::Only(':'), line[0]));
        }
    }
    assert(t[0] == '-');
    reveal_strlit("option");
    reveal_strlit("options");
    reveal_strlit("flags");
    reveal_strlit("global options");
    reveal_strlit("general options");
    reveal_strlit("optional arguments");
    reveal_strlit("the following options are available");
}

proof fn lemma_another(before: Seq<char>, line: Seq<char>)
    requires
        before.len() == 0 || before.last() == '\n',
        plain::lacks(line, '\n'),
        line.len() > 0 ==> line.last() != '\r',
        !options::scan_options(text::lines(before)).closed,
    ensures
        options::scan_options(text::lines(before + line + seq!['\n'])) == options::scan_option_line(
            options::scan_options(text::lines(before)),
            line,
        ),
        (before + line + seq!['\n']).last() == '\n',
{
    texts::law_another_line(before, line);
    assert(text::lines(before).push(line).drop_last() =~= text::lines(before));
}

pub proof fn lemma_printed(column: Seq<char>, gap: Seq<char>, words: Seq<char>)
    requires
        column.len() > 0,
        plain::printed(column),
        column[0] != ' ',
        plain::spaces(gap),
        pages::description(words),
    ensures
        ({
            let s = column + gap + words;
            plain::printed(s) && s[0] != ' ' && s.last() != ' '
        }),
{
    let s = column + gap + words;
    assert forall|i: int| 0 <= i < s.len() implies plain::visible(#[trigger] s[i]) || s[i]
        == ' ' by {
        if i < column.len() {
            assert(s[i] == column[i]);
        } else if i < column.len() + gap.len() {
            assert(s[i] == gap[i - column.len()]);
        } else {
            assert(s[i] == words[i - column.len() - gap.len()]);
        }
    }
    assert(s[0] == column[0]);
    assert(s.last() == words.last());
}

/// Options that can be listed.
pub open spec fn listable(rows: Seq<Described>) -> bool {
    &&& rows.len() <= 256
    &&& forall|i: int|
        0 <= i < rows.len() ==> option_name((#[trigger] rows[i]).name) && wordy(
            rows[i].description,
        )
    &&& forall|i: int, j: int|
        0 <= i < j < rows.len() ==> (#[trigger] rows[i]).name != (#[trigger] rows[j]).name
}

/// A list of options is read back: below a title of the usual ones, lines of a
/// spelling, spaces and a description document these spellings with these
/// descriptions.
pub proof fn law_listed_options(
    title: Seq<char>,
    colon: bool,
    indent: Seq<char>,
    gap: Seq<char>,
    rows: Seq<Described>,
)
    requires
        options_title(title),
        plain::spaces(indent),
        indent.len() > 0,
        plain::spaces(gap),
        gap.len() > 0,
        listable(rows),
    ensures
        options::documented_options(listings::listed_page(title, colon, indent, gap, rows)) == rows,
{
    lemma_listed(title, colon, indent, gap, rows);
}

proof fn lemma_listed(
    title: Seq<char>,
    colon: bool,
    indent: Seq<char>,
    gap: Seq<char>,
    rows: Seq<Described>,
)
    requires
        options_title(title),
        plain::spaces(indent),
        indent.len() > 0,
        plain::spaces(gap),
        gap.len() > 0,
        listable(rows),
    ensures
        ({
            let page = listings::listed_page(title, colon, indent, gap, rows);
            let scan = options::scan_options(text::lines(page));
            &&& page.last() == '\n'
            &&& scan.entries == rows
            &&& scan.inside
            &&& !scan.closed
            &&& scan.section_indent == 0
            &&& rows.len() > 0 ==> scan.declared_indent == indent.len() && scan.continuing == seq![
                rows.len() - 1,
            ]
        }),
    decreases rows.len(),
{
    let head = if colon { title + seq![':'] } else { title };
    let page = listings::listed_page(title, colon, indent, gap, rows);
    let none = Seq::<char>::empty();
    if rows.len() == 0 {
        texts::law_lines(none, none);
        lemma_title(title, colon);
        lemma_another(none, head);
        assert(none + head + seq!['\n'] =~= page);
        assert(options::no_options().entries =~= rows);
    } else {
        let rest = rows.drop_last();
        let row = rows.last();
        assert(listable(rest)) by {
            assert forall|i: int| 0 <= i < rest.len() implies option_name((#[trigger] rest[i]).name)
                && wordy(rest[i].description) by {
                assert(rest[i] == rows[i]);
            }
            assert forall|i: int, j: int| 0 <= i < j < rest.len() implies (
            #[trigger] rest[i]).name != (#[trigger] rest[j]).name by {
                assert(rest[i] == rows[i] && rest[j] == rows[j]);
            }
        }
        lemma_listed(title, colon, indent, gap, rest);
        let shorter = listings::listed_page(title, colon, indent, gap, rest);
        let scan = options::scan_options(text::lines(shorter));
        assert(row == rows[rows.len() - 1]);
        let s = row.name + gap + row.description;
        lemma_option_spelling(row.name);
        lemma_printed(row.name, gap, row.description);
        pages::lemma_line(indent, s, none);
        assert(indent + s + none =~= indent + s);
        assert(s[0] == '-');
        lemma_no_title(s);
        law_declared_option(row.name, none, none, gap, row.description);
        assert(row.name + none + gap + row.description =~= s);
        lemma_another(shorter, indent + s);
        assert(page =~= shorter + (indent + s) + seq!['\n']);
        let fresh = OptionScan {
            continuing: Seq::empty(),
            declared_indent: indent.len(),
            ..scan
        };
        assert forall|i: int| 0 <= i < rest.len() implies (#[trigger] rest[i]).name != row.name by {
            assert(rest[i] == rows[i]);
        }
        options::lemma_position_is(rest, row.name, rest.len());
        lemma_one_spelling(fresh, row.name, row.description);
        assert(rest.push(row) =~= rows);
        assert(Seq::<int>::empty().push(rest.len() as int) =~= seq![rows.len() - 1]);
    }
}

proof fn lemma_one_spelling(scan: OptionScan, spelling: Seq<char>, words: Seq<char>)
    ensures
        options::add_spellings(scan, seq![spelling], Some(words)) == options::add_spelling(
            scan,
            spelling,
            Some(words),
        ),
{
    let one = seq![spelling];
    assert(one.drop_last() =~= Seq::empty());
    assert(options::add_spellings(scan, one.drop_last(), Some(words)) == scan);
}

/// Both spellings of a line get its description.
#[verifier::rlimit(40)]
pub proof fn law_spellings_share_description(
    title: Seq<char>,
    colon: bool,
    indent: Seq<char>,
    first: Seq<char>,
    second: Seq<char>,
    arg: Seq<char>,
    name: Seq<char>,
    gap: Seq<char>,
    words: Seq<char>,
)
    requires
        options_title(title),
        plain::spaces(indent),
        indent.len() > 0,
        option_name(first),
        option_name(second),
        first != second,
        argument(arg, name),
        in_capitals(name),
        plain::spaces(gap),
        gap.len() > 0,
        wordy(words),
    ensures
        options::documented_options(
            (if colon { title + seq![':'] } else { title }) + seq!['\n'] + (indent + (first + seq![
                ',',
                ' ',
            ] + second + arg + gap + words)) + seq!['\n'],
        ) == seq![
            Described { name: first, description: words },
            Described { name: second, description: words },
        ],
{
    let none = Seq::<char>::empty();
    let nothing = Seq::<Described>::empty();
    lemma_listed(title, colon, indent, gap, nothing);
    let head = if colon { title + seq![':'] } else { title };
    let page = listings::listed_page(title, colon, indent, gap, nothing);
    assert(page =~= head + seq!['\n']);
    let scan = options::scan_options(text::lines(page));
    let column = first + seq![',', ' '] + second + arg;
    let s = column + gap + words;
    lemma_option_spelling(first);
    lemma_option_spelling(second);
    assert forall|i: int| 0 <= i < arg.len() implies plain::visible(#[trigger] arg[i]) || arg[i]
        == ' ' by {
        lemma_printed_argument(arg, name);
    }
    assert forall|i: int| 0 <= i < column.len() implies plain::visible(#[trigger] column[i])
        || column[i] == ' ' by {
        if i < first.len() {
            assert(column[i] == first[i]);
        } else if first.len() + 2 <= i < first.len() + 2 + second.len() {
            assert(column[i] == second[i - first.len() - 2]);
        } else if i >= first.len() + 2 + second.len() {
            assert(column[i] == arg[i - first.len() - 2 - second.len()]);
        }
    }
    assert(column[0] == first[0]);
    lemma_printed(column, gap, words);
    pages::lemma_line(indent, s, none);
    assert(indent + s + none =~= indent + s);
    assert(s[0] == '-');
    lemma_no_title(s);
    law_declared_spellings(first, name, second, arg, name, gap, words);
    lemma_another(page, indent + s);
    let fresh = OptionScan { continuing: Seq::empty(), declared_indent: indent.len(), ..scan };
    let two = seq![first, second];
    assert(two.drop_last() =~= seq![first]);
    lemma_one_spelling(fresh, first, words);
    options::lemma_position_is(nothing, first, 0);
    let one = Described { name: first, description: words };
    assert(nothing.push(one) =~= seq![one]);
    options::lemma_position_is(seq![one], second, 1);
    assert(seq![one].push(Described { name: second, description: words }) =~= seq![
        one,
        Described { name: second, description: words },
    ]);
}

pub proof fn lemma_printed_argument(arg: Seq<char>, name: Seq<char>)
    requires
        argument(arg, name),
    ensures
        plain::printed(arg),
{
    assert forall|i: int| 0 <= i < arg.len() implies plain::visible(#[trigger] arg[i]) || arg[i]
        == ' ' by {
        if arg[0] == ' ' {
            if i > 0 {
                law_stand_ins(arg.skip(1), name);
                assert(arg[i] == arg.skip(1)[i - 1]);
            }
        } else if arg[0] == '=' {
        } else {
            if 2 <= i < arg.len() - 1 {
                assert(arg[i] == name[i - 2]);
                assert(plain::capital(name[i - 2]) || plain::digit(name[i - 2]) || name[i - 2]
                    == '_');
            }
        }
    }
}

/// A line below an option that stands deeper than it goes on with its description.
#[verifier::rlimit(40)]
pub proof fn law_description_goes_on(
    title: Seq<char>,
    colon: bool,
    indent: Seq<char>,
    gap: Seq<char>,
    rows: Seq<Described>,
    deeper: Seq<char>,
    more: Seq<char>,
)
    requires
        options_title(title),
        plain::spaces(indent),
        indent.len() > 0,
        plain::spaces(gap),
        gap.len() > 0,
        listable(rows),
        rows.len() > 0,
        plain::spaces(deeper),
        deeper.len() > indent.len(),
        wordy(more),
        !help::section_heading(more),
        !help::options_heading(more),
        text::some_alphabetic(rows.last().description + seq![' '] + more),
        rows.last().description.len() + 1 + more.len() <= 200,
    ensures
        ({
            let page = listings::listed_page(title, colon, indent, gap, rows);
            let last = rows.last();
            options::documented_options(page + (deeper + more) + seq!['\n']) == rows.drop_last().push(
                Described {
                    name: last.name,
                    description: last.description + seq![' '] + more,
                },
            )
        }),
{
    let page = listings::listed_page(title, colon, indent, gap, rows);
    let none = Seq::<char>::empty();
    let last = rows.last();
    lemma_listed(title, colon, indent, gap, rows);
    let scan = options::scan_options(text::lines(page));
    pages::lemma_line(deeper, more, none);
    assert(deeper + more + none =~= deeper + more);
    assert(more[0] != '-');
    assert(help::declaration(more) is None);
    pages::law_description_stays(more);
    assert(last == rows[rows.len() - 1]);
    let both = last.description + seq![' '] + more;
    assert forall|i: int| 0 <= i < both.len() implies plain::visible(#[trigger] both[i]) || both[i]
        == ' ' by {
        if i < last.description.len() {
            assert(both[i] == last.description[i]);
        } else if i > last.description.len() {
            assert(both[i] == more[i - last.description.len() - 1]);
        }
    }
    assert(both[0] == last.description[0]);
    assert(both.last() == more.last());
    assert forall|i: int| 0 < i < both.len() && both[i - 1] == ' ' implies #[trigger] both[i]
        != ' ' by {
        let n = last.description.len();
        if i < n {
            assert(both[i] == last.description[i] && both[i - 1] == last.description[i - 1]);
        } else if i == n {
            assert(both[i - 1] == last.description[n - 1]);
        } else if i == n + 1 {
            assert(both[i] == more[0]);
        } else {
            assert(both[i] == more[i - n - 1] && both[i - 1] == more[i - n - 2]);
        }
    }
    pages::law_description_stays(both);
    lemma_another(page, deeper + more);
    let one = seq![rows.len() - 1];
    assert(one.drop_last() =~= Seq::<int>::empty());
    assert(options::continue_entries(rows, one.drop_last(), more) == rows);
    let wanted = Described { name: last.name, description: both };
    assert(rows.update(rows.len() - 1, wanted) =~= rows.drop_last().push(wanted));
}

/// An option that is declared again keeps its description; one that had none gets
/// it.
pub proof fn law_option_declared_again(
    title: Seq<char>,
    colon: bool,
    indent: Seq<char>,
    gap: Seq<char>,
    row: Described,
    words: Seq<char>,
)
    requires
        options_title(title),
        plain::spaces(indent),
        indent.len() > 0,
        plain::spaces(gap),
        gap.len() > 0,
        option_name(row.name),
        wordy(row.description),
        wordy(words),
    ensures
        ({
            let head = (if colon { title + seq![':'] } else { title }) + seq!['\n'];
            let again = indent + (row.name + gap + words) + seq!['\n'];
            let first = listings::row_line(indent, gap, row) + seq!['\n'];
            let bare = indent + row.name + seq!['\n'];
            &&& options::documented_options(head + first + again) == seq![row]
            &&& options::documented_options(head + bare + again) == seq![
                Described { name: row.name, description: words },
            ]
        }),
{
    let none = Seq::<char>::empty();
    let nothing = Seq::<Described>::empty();
    let head = (if colon { title + seq![':'] } else { title }) + seq!['\n'];
    let again = indent + (row.name + gap + words);
    let first = listings::row_line(indent, gap, row);
    let bare = indent + row.name;
    lemma_option_spelling(row.name);
    assert(listable(seq![row]));
    lemma_listed(title, colon, indent, gap, seq![row]);
    assert(seq![row].drop_last() =~= nothing);
    assert(listings::row_lines(indent, gap, nothing) =~= none);
    assert(listings::listed_page(title, colon, indent, gap, seq![row]) =~= head + (first + seq![
        '\n',
    ]));
    lemma_option_line(head + (first + seq!['\n']), indent, gap, row.name, words);
    assert(head + (first + seq!['\n']) + (again + seq!['\n']) =~= head + (first + seq!['\n'])
        + again + seq!['\n']);
    assert(head + (bare + seq!['\n']) + (again + seq!['\n']) =~= head + (bare + seq!['\n'])
        + again + seq!['\n']);
    lemma_listed(title, colon, indent, gap, nothing);
    assert(listings::listed_page(title, colon, indent, gap, nothing) =~= head);
    let scan = options::scan_options(text::lines(head));
    assert(row.name.last() == row.name[row.name.len() - 1]);
    assert(row.name[0] == '-');
    pages::lemma_line(indent, row.name, none);
    assert(indent + row.name + none =~= bare);
    lemma_no_title(row.name);
    law_declared_option(row.name, none, none, gap, words);
    lemma_another(head, bare);
    assert(head + bare + seq!['\n'] =~= head + (bare + seq!['\n']));
    let fresh = OptionScan { continuing: Seq::empty(), declared_indent: indent.len(), ..scan };
    let one = seq![row.name];
    assert(one.drop_last() =~= Seq::empty());
    assert(options::add_spellings(fresh, one.drop_last(), None) == fresh);
    options::lemma_position_is(nothing, row.name, 0);
    let shy = Described { name: row.name, description: none };
    assert(nothing.push(shy) =~= seq![shy]);
    lemma_option_line(head + (bare + seq!['\n']), indent, gap, row.name, words);
    options::lemma_position_is(seq![row], row.name, 0);
    options::lemma_position_is(seq![shy], row.name, 0);
    assert(seq![shy].update(0, Described { name: row.name, description: words }) =~= seq![
        Described { name: row.name, description: words },
    ]);
}

proof fn lemma_option_line(
    page: Seq<char>,
    indent: Seq<char>,
    gap: Seq<char>,
    spelling: Seq<char>,
    words: Seq<char>,
)
    requires
        page.len() > 0,
        page.last() == '\n',
        options::scan_options(text::lines(page)).inside,
        !options::scan_options(text::lines(page)).closed,
        options::scan_options(text::lines(page)).section_indent == 0,
        plain::spaces(indent),
        indent.len() > 0,
        plain::spaces(gap),
        gap.len() > 0,
        option_name(spelling),
        wordy(words),
    ensures
        options::documented_options(page + (indent + (spelling + gap + words)) + seq!['\n'])
            == options::add_spelling(
            OptionScan {
                continuing: Seq::empty(),
                declared_indent: indent.len(),
                ..options::scan_options(text::lines(page))
            },
            spelling,
            Some(words),
        ).entries,
{
    let none = Seq::<char>::empty();
    let s = spelling + gap + words;
    lemma_option_spelling(spelling);
    lemma_printed(spelling, gap, words);
    pages::lemma_line(indent, s, none);
    assert(indent + s + none =~= indent + s);
    assert(s[0] == '-');
    lemma_no_title(s);
    law_declared_option(spelling, none, none, gap, words);
    assert(spelling + none + gap + words =~= s);
    lemma_another(page, indent + s);
    lemma_one_spelling(
        OptionScan {
            continuing: Seq::empty(),
            declared_indent: indent.len(),
            ..options::scan_options(text::lines(page))
        },
        spelling,
        words,
    );
}

/// A title of another part of a manual page or a help text: one of the usual ones,
/// or one in capitals.
pub open spec fn other_title(title: Seq<char>) -> bool {
    ||| plain::in_small(title, "usage"@)
    ||| plain::in_small(title, "arguments"@)
    ||| plain::in_small(title, "commands"@)
    ||| plain::in_small(title, "available commands"@)
    ||| plain::in_small(title, "examples"@)
    ||| plain::in_small(title, "description"@)
    ||| plain::in_small(title, "synopsis"@)
    ||| plain::in_small(title, "operands"@)
    ||| plain::in_small(title, "environment"@)
    ||| plain::in_small(title, "exit status"@)
    ||| plain::in_small(title, "files"@)
    ||| plain::in_small(title, "authors"@)
    ||| plain::in_small(title, "bugs"@)
    ||| plain::in_small(title, "see also"@)
    ||| listings::no_small_letter(title)
}

/// A list of options ends with the next title that announces options, and with
/// any other title that does not stand deeper than its own.
pub proof fn law_list_of_options_ends(
    title: Seq<char>,
    colon: bool,
    indent: Seq<char>,
    gap: Seq<char>,
    rows: Seq<Described>,
    next: Seq<char>,
    after: Seq<char>,
)
    requires
        options_title(title),
        plain::spaces(indent),
        indent.len() > 0,
        plain::spaces(gap),
        gap.len() > 0,
        listable(rows),
        pages::heading(next),
        options_title(next) || other_title(next),
        plain::lacks(after, '\n'),
        after.len() > 0 ==> after.last() != '\r',
    ensures
        options::documented_options(
            listings::listed_page(title, colon, indent, gap, rows) + next + seq!['\n'] + after
                + seq!['\n'],
        ) == rows,
{
    let none = Seq::<char>::empty();
    let page = listings::listed_page(title, colon, indent, gap, rows);
    lemma_listed(title, colon, indent, gap, rows);
    pages::lemma_heading(next);
    pages::lemma_line(none, next, none);
    assert(none + next + none =~= next);
    assert(none + next =~= next);
    assert forall|u: Seq<char>| #[trigger] plain::in_small(next, u) implies text::lower(next)
        == u by {
        pages::lemma_in_small(next, u);
    }
    if listings::no_small_letter(next) {
        assert(text::in_class(Class::AsciiLetter, next[next.len() - 1]));
        assert forall|i: int| 0 <= i < next.len() && text::ascii_letter(
            #[trigger] next[i],
        ) implies text::ascii_upper(next[i]) by {}
    }
    assert(help::options_heading(next) || help::section_heading(next));
    lemma_another(page, next);
    let ended = page + next + seq!['\n'];
    assert(options::scan_options(text::lines(ended)).closed);
    texts::law_another_line(ended, after);
    assert(text::lines(ended).push(after).drop_last() =~= text::lines(ended));
}

/// Nothing is read of options before a title that announces them.
pub proof fn law_no_options_without_title(line: Seq<char>, page: Seq<char>)
    requires
        plain::lacks(line, '\n'),
        line.len() > 0,
        line[0] == '-',
        plain::printed(line),
        line.last() != ' ',
        page.len() == 0,
    ensures
        options::documented_options(page + line + seq!['\n']) == Seq::<Described>::empty(),
{
    let none = Seq::<char>::empty();
    texts::law_lines(none, none);
    assert(page =~= none);
    pages::lemma_line(none, line, none);
    assert(none + line + none =~= line);
    assert(none + line =~= line);
    lemma_no_title(line);
    lemma_another(none, line);
}

} // verus!

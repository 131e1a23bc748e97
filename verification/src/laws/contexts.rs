//! What stands under the cursor.
use vstd::prelude::*;
use crate::engine::context;
use crate::laws::plain;
use crate::laws::texts;
use crate::text;
use crate::text::Class;

verus! {

/// The name of a command as it is typed.
pub open spec fn command_word(s: Seq<char>) -> bool {
    s.len() > 0 && forall|i: int| 0 <= i < s.len() ==> plain::command_char(#[trigger] s[i])
}

/// An option as it is typed.
pub open spec fn option_word(s: Seq<char>) -> bool {
    s.len() > 0 && s[0] == '-' && s != seq!['-', '-'] && forall|i: int|
        0 <= i < s.len() ==> plain::option_char(#[trigger] s[i])
}

/// The beginning of a subcommand as it is typed.
pub open spec fn subcommand_word(s: Seq<char>) -> bool {
    s.len() > 0 ==> plain::letter_or_digit(s[0]) && forall|i: int|
        0 <= i < s.len() ==> plain::name_char(#[trigger] s[i])
}

proof fn lemma_split(
    words: Seq<char>,
    gap: Seq<char>,
    word: Seq<char>,
    buffer: Seq<char>,
)
    requires
        plain::spaces(gap),
        gap.len() > 0,
        plain::typed_word(word),
        buffer == words + gap + word,
    ensures
        context::after_last(buffer, Class::Whitespace) == words.len() + gap.len(),
        context::current_word(buffer) == word,
        buffer.take((words + gap).len() as int) == words + gap,
{
    let n = (words + gap).len();
    context::lemma_after_last(buffer, Class::Whitespace);
    let m = context::after_last(buffer, Class::Whitespace);
    assert(buffer[n - 1] == gap[gap.len() - 1]);
    assert forall|i: int| n <= i < buffer.len() implies !text::whitespace(#[trigger] buffer[i]) by {
        assert(buffer[i] == word[i - n]);
    }
    if m < n {
        assert(!text::in_class(Class::Whitespace, buffer[n - 1]));
    }
    if m > n {
        assert(text::in_class(Class::Whitespace, buffer[m - 1]));
    }
    assert(buffer.skip(n as int) =~= word);
    assert(buffer.take(n as int) =~= words + gap);
}

proof fn lemma_visible_word(s: Seq<char>)
    requires
        command_word(s) || option_word(s) || plain::typed_word(s),
    ensures
        forall|i: int| 0 <= i < s.len() ==> plain::visible(#[trigger] s[i]),
        plain::typed_word(s),
{
    assert forall|i: int| 0 <= i < s.len() implies plain::typed(#[trigger] s[i]) by {}
}

proof fn lemma_structured(s: Seq<char>)
    requires
        forall|i: int| 0 <= i < s.len() ==> plain::typed(#[trigger] s[i]) || s[i] == ' ',
    ensures
        context::structured(s),
{
    assert forall|i: int| 0 <= i < s.len() implies context::structured_char(#[trigger] s[i]) by {}
}

pub proof fn lemma_command(name: Seq<char>)
    requires
        command_word(name),
    ensures
        context::command_prefix(name),
{
    assert forall|i: int| 0 <= i < name.len() implies text::in_class(
        Class::CommandPart,
        #[trigger] name[i],
    ) by {}
}

proof fn lemma_option(option: Seq<char>)
    requires
        option_word(option),
    ensures
        context::context_option(option),
        context::flag_word(option),
        plain::lacks(option, '='),
{
    reveal_strlit("--");
    assert("--"@ =~= seq!['-', '-']);
    assert forall|i: int| 0 <= i < option.len() implies text::in_class(
        Class::OptionPart,
        #[trigger] option[i],
    ) by {}
}

/// Words and spaces before the word under the cursor, from the command on.
proof fn lemma_line(lead: Seq<char>, name: Seq<char>, gap: Seq<char>, word: Seq<char>)
    requires
        plain::spaces(lead),
        command_word(name),
        plain::spaces(gap),
        gap.len() > 0,
        plain::typed_word(word),
    ensures
        ({
            let buffer = lead + name + gap + word;
            &&& context::in_argument(buffer)
            &&& context::earlier_words(buffer) == seq![name]
            &&& context::current_word(buffer) == word
        }),
{
    let buffer = lead + name + gap + word;
    lemma_visible_word(name);
    lemma_visible_word(word);
    lemma_split(lead + name, gap, word, buffer);
    lemma_structured(buffer);
    lemma_command(name);
    let k = Class::AsciiWhitespace;
    let none = Seq::<char>::empty();
    assert(lead + name + gap =~= lead + (name + gap));
    texts::law_words_skip_spaces(lead, name + gap, k);
    texts::law_first_word(name, gap, k);
    assert(gap + none =~= gap);
    texts::law_words_skip_spaces(gap, none, k);
    assert(context::earlier_words(buffer) =~= seq![name]);
}

proof fn lemma_longer_line(
    lead: Seq<char>,
    name: Seq<char>,
    gap: Seq<char>,
    option: Seq<char>,
    next: Seq<char>,
    word: Seq<char>,
)
    requires
        plain::spaces(lead),
        command_word(name),
        plain::spaces(gap),
        gap.len() > 0,
        plain::typed_word(option),
        option.len() > 0,
        plain::spaces(next),
        next.len() > 0,
        plain::typed_word(word),
    ensures
        ({
            let buffer = lead + name + gap + option + next + word;
            &&& context::in_argument(buffer)
            &&& context::earlier_words(buffer) == seq![name, option]
            &&& context::current_word(buffer) == word
        }),
{
    let buffer = lead + name + gap + option + next + word;
    lemma_visible_word(name);
    lemma_visible_word(option);
    lemma_visible_word(word);
    lemma_split(lead + name + gap + option, next, word, buffer);
    lemma_structured(buffer);
    lemma_command(name);
    let k = Class::AsciiWhitespace;
    let none = Seq::<char>::empty();
    assert(lead + name + gap + option + next =~= lead + (name + (gap + (option + next))));
    texts::law_words_skip_spaces(lead, name + (gap + (option + next)), k);
    assert((gap + (option + next))[0] == ' ');
    texts::law_first_word(name, gap + (option + next), k);
    texts::law_words_skip_spaces(gap, option + next, k);
    texts::law_first_word(option, next, k);
    assert(next + none =~= next);
    texts::law_words_skip_spaces(next, none, k);
    assert(context::earlier_words(buffer) =~= seq![name, option]);
}

/// Behind a command, an option and `=`, whatever is typed, even nothing, is the
/// beginning of a value of that option.
pub proof fn law_value_behind_equals(
    lead: Seq<char>,
    name: Seq<char>,
    gap: Seq<char>,
    option: Seq<char>,
    value: Seq<char>,
)
    requires
        plain::spaces(lead),
        command_word(name),
        plain::spaces(gap),
        gap.len() > 0,
        option_word(option),
        plain::typed_word(value),
    ensures
        context::value_context_of(lead + name + gap + (option + seq!['='] + value)) == Some(
            (name, option, value),
        ),
{
    let word = option + seq!['='] + value;
    lemma_visible_word(option);
    assert forall|i: int| 0 <= i < word.len() implies plain::typed(#[trigger] word[i]) by {}
    lemma_line(lead, name, gap, word);
    lemma_option(option);
    texts::law_cut_once(option, '=', value);
}

/// Behind a command, an option and spaces, whatever is typed, even nothing, is
/// the beginning of a value of that option, unless it is an option itself.
pub proof fn law_value_behind_space(
    lead: Seq<char>,
    name: Seq<char>,
    gap: Seq<char>,
    option: Seq<char>,
    next: Seq<char>,
    value: Seq<char>,
)
    requires
        plain::spaces(lead),
        command_word(name),
        plain::spaces(gap),
        gap.len() > 0,
        option_word(option),
        plain::spaces(next),
        next.len() > 0,
        plain::typed_word(value),
        plain::lacks(value, '='),
        value.len() > 0 ==> value[0] != '-',
    ensures
        context::value_context_of(lead + name + gap + option + next + value) == Some(
            (name, option, value),
        ),
{
    lemma_visible_word(option);
    lemma_longer_line(lead, name, gap, option, next, value);
    lemma_option(option);
    texts::law_cut_once(value, '=', Seq::empty());
    assert(seq![name, option][1] == option);
}

/// Behind a command, a word that starts with a dash is the beginning of an
/// option, whether options stand between them or not.
pub proof fn law_option_behind_command(
    lead: Seq<char>,
    name: Seq<char>,
    gap: Seq<char>,
    flag: Seq<char>,
    next: Seq<char>,
    word: Seq<char>,
)
    requires
        plain::spaces(lead),
        command_word(name),
        plain::spaces(gap),
        gap.len() > 0,
        plain::typed_word(word),
        word.len() > 0,
        word[0] == '-',
        plain::typed_word(flag),
        flag.len() > 0,
        plain::spaces(next),
        next.len() > 0,
    ensures
        context::option_context_of(lead + name + gap + word) == Some((name, word)),
        context::option_context_of(lead + name + gap + flag + next + word) == if flag[0] == '-'
            && flag != seq!['-', '-'] {
            Some((name, word))
        } else {
            None
        },
{
    reveal_strlit("--");
    assert("--"@ =~= seq!['-', '-']);
    lemma_line(lead, name, gap, word);
    lemma_longer_line(lead, name, gap, flag, next, word);
    let two = seq![name, flag];
    assert(two[0] == name && two[1] == flag);
    assert(context::flag_word(two[1]) <==> flag[0] == '-' && flag != seq!['-', '-']);
}

/// Behind a command alone, a word without `=` is no value.
pub proof fn lemma_no_value(lead: Seq<char>, name: Seq<char>, gap: Seq<char>, word: Seq<char>)
    requires
        plain::spaces(lead),
        command_word(name),
        plain::spaces(gap),
        gap.len() > 0,
        plain::typed_word(word),
        plain::lacks(word, '='),
    ensures
        context::value_context_of(lead + name + gap + word) is None,
{
    lemma_line(lead, name, gap, word);
    texts::law_cut_once(word, '=', Seq::empty());
}

/// Behind a command alone, a word that starts with no dash is no option.
pub proof fn lemma_no_option(lead: Seq<char>, name: Seq<char>, gap: Seq<char>, word: Seq<char>)
    requires
        plain::spaces(lead),
        command_word(name),
        plain::spaces(gap),
        gap.len() > 0,
        plain::typed_word(word),
        word.len() > 0 ==> word[0] != '-',
    ensures
        context::option_context_of(lead + name + gap + word) is None,
{
    lemma_line(lead, name, gap, word);
}

/// Behind a command alone, a word that may start a subcommand's name, even an
/// empty one, is the beginning of a subcommand; behind anything more it is not.
pub proof fn law_subcommand_behind_command(
    lead: Seq<char>,
    name: Seq<char>,
    gap: Seq<char>,
    more: Seq<char>,
    next: Seq<char>,
    word: Seq<char>,
)
    requires
        plain::spaces(lead),
        command_word(name),
        plain::spaces(gap),
        gap.len() > 0,
        plain::typed_word(word),
        plain::typed_word(more),
        more.len() > 0,
        plain::spaces(next),
        next.len() > 0,
    ensures
        context::subcommand_context_of(lead + name + gap + word) == if subcommand_word(word) {
            Some((name, word))
        } else {
            None
        },
        context::subcommand_context_of(lead + name + gap + more + next + word) is None,
{
    lemma_line(lead, name, gap, word);
    lemma_longer_line(lead, name, gap, more, next, word);
    if context::structured_prefix(word) && word.len() > 0 {
        assert forall|i: int| 0 <= i < word.len() implies plain::name_char(#[trigger] word[i]) by {
            assert(text::in_class(Class::NamePart, word[i]));
        }
    }
    if subcommand_word(word) && word.len() > 0 {
        assert forall|i: int| 0 <= i < word.len() implies text::in_class(
            Class::NamePart,
            #[trigger] word[i],
        ) by {
            assert(plain::name_char(word[i]));
        }
    }
}

/// A buffer that a shell would read otherwise than as plain words has nothing
/// under its cursor: no value, no option and no subcommand.
pub proof fn law_nothing_in_shell_syntax(buffer: Seq<char>, i: int)
    requires
        0 <= i < buffer.len(),
        !plain::typed(buffer[i]) && buffer[i] != ' ',
    ensures
        context::value_context_of(buffer) is None,
        context::option_context_of(buffer) is None,
        context::subcommand_context_of(buffer) is None,
{
    assert(!context::structured_char(buffer[i]));
}

/// In the first word there is nothing but the beginning of a command.
pub proof fn law_first_word_is_a_command(word: Seq<char>)
    requires
        forall|i: int| 0 <= i < word.len() ==> plain::visible(#[trigger] word[i]),
    ensures
        context::command_prefix(word) <==> command_word(word),
        context::value_context_of(word) is None,
        context::option_context_of(word) is None,
        context::subcommand_context_of(word) is None,
{
    context::lemma_after_last(word, Class::Whitespace);
    if context::after_last(word, Class::Whitespace) > 0 {
        let i = context::after_last(word, Class::Whitespace) - 1;
        assert(plain::visible(word[i]));
    }
    if context::command_prefix(word) {
        assert forall|i: int| 0 <= i < word.len() implies plain::command_char(
            #[trigger] word[i],
        ) by {
            assert(text::in_class(Class::CommandPart, word[i]));
        }
    }
    if command_word(word) {
        lemma_command(word);
    }
}

} // verus!

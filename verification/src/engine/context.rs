//! What the word under the cursor may be completed to.
use vstd::prelude::*;
use crate::text;
use crate::text::{chars_of, from_index, is_all, same_as, span_end, up_to, word_bounds, Class};

verus! {

/// A character that ends or changes a simple command.
pub open spec fn structured_char(c: char) -> bool {
    c <= '\u{7f}' && !text::control(c) && !text::shell_meta(c) && c != '\\'
}

/// A buffer of plain ASCII words, without quoting, expansion or operators.
pub open spec fn structured(buffer: Seq<char>) -> bool {
    forall|i: int| 0 <= i < buffer.len() ==> structured_char(#[trigger] buffer[i])
}

/// A word that may be the beginning of a command's name.
pub open spec fn command_prefix(s: Seq<char>) -> bool {
    s.len() > 0 && text::all_in(s, Class::CommandPart)
}

/// A word that may be the beginning of a subcommand's name.
pub open spec fn structured_prefix(s: Seq<char>) -> bool {
    s.len() == 0 || (text::ascii_alphanumeric(s[0]) && text::all_in(s, Class::NamePart))
}

/// A word that may be an option whose value follows.
pub open spec fn context_option(s: Seq<char>) -> bool {
    s != "--"@ && s.len() > 0 && s[0] == '-' && text::all_in(s, Class::OptionPart)
}

/// The position after the last character in the class `k`; 0 when there is
/// none.
pub open spec fn after_last(s: Seq<char>, k: Class) -> nat
    decreases s.len(),
{
    if s.len() == 0 || text::in_class(k, s.last()) {
        s.len()
    } else {
        after_last(s.drop_last(), k)
    }
}

pub proof fn lemma_after_last(s: Seq<char>, k: Class)
    ensures
        0 <= after_last(s, k) <= s.len(),
        after_last(s, k) > 0 ==> text::in_class(k, s[after_last(s, k) - 1]),
        forall|i: int| after_last(s, k) <= i < s.len() ==> !text::in_class(k, #[trigger] s[i]),
    decreases s.len(),
{
    if s.len() > 0 && !text::in_class(k, s.last()) {
        let t = s.drop_last();
        lemma_after_last(t, k);
        assert forall|i: int| after_last(s, k) <= i < s.len() implies !text::in_class(
            k,
            #[trigger] s[i],
        ) by {
            if i < t.len() {
                assert(s[i] == t[i]);
            }
        }
    }
}

fn find_after_last(s: &[char], k: Class) -> (n: usize)
    ensures
        n == after_last(s@, k),
        n <= s@.len(),
{
    let mut i: usize = s.len();
    assert(s@.take(s@.len() as int) =~= s@);
    while i > 0 && !k.admits(s[i - 1])
        invariant
            i <= s@.len(),
            after_last(s@, k) == after_last(s@.take(i as int), k),
        decreases i,
    {
        assert(s@.take(i as int).drop_last() =~= s@.take(i - 1));
        i -= 1;
    }
    i
}

/// The words before the one under the cursor.
pub open spec fn earlier_words(buffer: Seq<char>) -> Seq<Seq<char>> {
    text::words(buffer.take(after_last(buffer, Class::Whitespace) as int), Class::AsciiWhitespace)
}

/// The word under the cursor.
pub open spec fn current_word(buffer: Seq<char>) -> Seq<char> {
    buffer.skip(after_last(buffer, Class::Whitespace) as int)
}

/// A simple command with its name complete, and the cursor in a later word.
pub open spec fn in_argument(buffer: Seq<char>) -> bool {
    &&& structured(buffer)
    &&& after_last(buffer, Class::Whitespace) > 0
    &&& earlier_words(buffer).len() > 0
    &&& command_prefix(earlier_words(buffer)[0])
}

/// An option between a command and the cursor.
pub open spec fn flag_word(word: Seq<char>) -> bool {
    word.len() > 0 && word[0] == '-' && word != "--"@
}

/// The command and the beginning of an option under the cursor: only options
/// stand between them.
pub open spec fn option_context_of(buffer: Seq<char>) -> Option<(Seq<char>, Seq<char>)> {
    let before = earlier_words(buffer);
    let word = current_word(buffer);
    if in_argument(buffer) && word.len() > 0 && word[0] == '-' && forall|i: int|
        1 <= i < before.len() ==> flag_word(#[trigger] before[i]) {
        Some((before[0], word))
    } else {
        None
    }
}

/// The command and the beginning of a subcommand under the cursor: nothing
/// stands between them.
pub open spec fn subcommand_context_of(buffer: Seq<char>) -> Option<(Seq<char>, Seq<char>)> {
    let before = earlier_words(buffer);
    let word = current_word(buffer);
    if in_argument(buffer) && before.len() == 1 && structured_prefix(word) {
        Some((before[0], word))
    } else {
        None
    }
}

/// The command, the option and the beginning of its value under the cursor,
/// as in `tool --color=a` and `tool --color a`.
pub open spec fn value_context_of(buffer: Seq<char>) -> Option<
    (Seq<char>, Seq<char>, Seq<char>),
> {
    let before = earlier_words(buffer);
    let word = current_word(buffer);
    match text::split_once(word, '=') {
        Some((option, prefix)) => if in_argument(buffer) && before.len() == 1 && context_option(
            option,
        ) {
            Some((before[0], option, prefix))
        } else {
            None
        },
        None => if in_argument(buffer) && before.len() == 2 && !(word.len() > 0 && word[0] == '-')
            && context_option(before[1]) {
            Some((before[0], before[1], word))
        } else {
            None
        },
    }
}

/// An option's beginning starts with a dash, a subcommand's does not: the two
/// contexts exclude each other.
pub proof fn law_contexts_exclude(buffer: Seq<char>)
    ensures
        !(option_context_of(buffer) is Some && subcommand_context_of(buffer) is Some),
        value_context_of(buffer) is Some ==> subcommand_context_of(buffer) is None,
        command_prefix(buffer) ==> option_context_of(buffer) is None && subcommand_context_of(
            buffer,
        ) is None && value_context_of(buffer) is None,
{
    let word = current_word(buffer);
    lemma_after_last(buffer, Class::Whitespace);
    text::lemma_span(word, Class::Only('='), false);
    if value_context_of(buffer) is Some && subcommand_context_of(buffer) is Some {
        let n = text::span(word, Class::Only('='), false);
        assert(text::in_class(Class::NamePart, word[n as int]));
    }
    if command_prefix(buffer) && after_last(buffer, Class::Whitespace) > 0 {
        let i = after_last(buffer, Class::Whitespace) - 1;
        assert(text::in_class(Class::CommandPart, buffer[i]));
    }
}

/// Whether a buffer holds plain ASCII words only.
fn safe_structured_buffer(buffer: &[char]) -> (b: bool)
    ensures
        b == structured(buffer@),
{
    let mut i: usize = 0;
    while i < buffer.len()
        invariant
            i <= buffer@.len(),
            forall|j: int| 0 <= j < i ==> structured_char(#[trigger] buffer@[j]),
        decreases buffer.len() - i,
    {
        let c = buffer[i];
        if c > '\u{7f}' || Class::Control.admits(c) || Class::ShellMeta.admits(c) || c == '\\' {
            assert(!structured_char(buffer@[i as int]));
            return false;
        }
        i += 1;
    }
    true
}

/// Whether a buffer may be the beginning of a command's name.
pub fn valid_command_prefix(buffer: &[char]) -> (b: bool)
    ensures
        b == command_prefix(buffer@),
{
    buffer.len() > 0 && is_all(buffer, Class::CommandPart)
}

fn valid_structured_prefix(prefix: &[char]) -> (b: bool)
    ensures
        b == structured_prefix(prefix@),
{
    prefix.len() == 0 || (Class::AsciiAlphanumeric.admits(prefix[0]) && is_all(
        prefix,
        Class::NamePart,
    ))
}

fn valid_option_context_spelling(option: &[char]) -> (b: bool)
    ensures
        b == context_option(option@),
{
    !same_as(option, "--") && option.len() > 0 && option[0] == '-' && is_all(
        option,
        Class::OptionPart,
    )
}

/// Where the words before the cursor's word stand and where that word starts,
/// for a cursor in an argument.
fn argument_words(buffer: &[char]) -> (r: Option<(Vec<(usize, usize)>, usize)>)
    ensures
        match r {
            Some(found) => {
                let before = earlier_words(buffer@);
                &&& in_argument(buffer@)
                &&& found.1 == after_last(buffer@, Class::Whitespace)
                &&& found.1 <= buffer@.len()
                &&& found.0@.len() == before.len()
                &&& forall|i: int|
                    0 <= i < before.len() ==> {
                        &&& (#[trigger] found.0@[i]).0 < found.0@[i].1 <= buffer@.len()
                        &&& before[i] == buffer@.subrange(
                            found.0@[i].0 as int,
                            found.0@[i].1 as int,
                        )
                    }
            },
            None => !in_argument(buffer@),
        },
{
    if !safe_structured_buffer(buffer) {
        return None;
    }
    let start: usize = find_after_last(buffer, Class::Whitespace);
    if start == 0 {
        return None;
    }
    let bounds = word_bounds(up_to(buffer, start), Class::AsciiWhitespace);
    if bounds.len() == 0 {
        return None;
    }
    proof {
        let earlier = buffer@.take(start as int);
        assert forall|i: int| 0 <= i < bounds@.len() implies {
            &&& (#[trigger] bounds@[i]).0 < bounds@[i].1 <= buffer@.len()
            &&& earlier_words(buffer@)[i] == buffer@.subrange(
                bounds@[i].0 as int,
                bounds@[i].1 as int,
            )
        } by {
            assert(earlier.subrange(bounds@[i].0 as int, bounds@[i].1 as int) =~= buffer@.subrange(
                bounds@[i].0 as int,
                bounds@[i].1 as int,
            ));
        }
    }
    let first = bounds[0];
    if !valid_command_prefix(vstd::slice::slice_subrange(buffer, first.0, first.1)) {
        return None;
    }
    Some((bounds, start))
}

/// The command and the beginning of an option under the cursor.
pub fn option_context<'a>(buffer: &'a str) -> (r: Option<(&'a str, &'a str)>)
    ensures
        match r {
            Some(c) => option_context_of(buffer@) == Some((c.0@, c.1@)),
            None => option_context_of(buffer@) is None,
        },
{
    let all = chars_of(buffer);
    let s = all.as_slice();
    let (bounds, start) = match argument_words(s) {
        Some(found) => found,
        None => {
            return None;
        },
    };
    let ghost before = earlier_words(buffer@);
    if start == s.len() || s[start] != '-' {
        return None;
    }
    let mut i: usize = 1;
    while i < bounds.len()
        invariant
            1 <= i <= bounds@.len(),
            s@ == buffer@,
            before == earlier_words(buffer@),
            bounds@.len() == before.len(),
            forall|j: int|
                0 <= j < before.len() ==> {
                    &&& (#[trigger] bounds@[j]).0 < bounds@[j].1 <= buffer@.len()
                    &&& before[j] == buffer@.subrange(bounds@[j].0 as int, bounds@[j].1 as int)
                },
            forall|j: int|
                1 <= j < i ==> flag_word(#[trigger] before[j]),
        decreases bounds.len() - i,
    {
        let b = bounds[i];
        let word = vstd::slice::slice_subrange(s, b.0, b.1);
        assert(word@ == before[i as int]);
        if word[0] != '-' || same_as(word, "--") {
            assert(!flag_word(before[i as int]));
            return None;
        }
        i += 1;
    }
    let first = bounds[0];
    assert(buffer@.subrange(start as int, buffer@.len() as int) =~= current_word(buffer@));
    Some((buffer.substring_char(first.0, first.1), buffer.substring_char(start, s.len())))
}

/// The command and the beginning of a subcommand under the cursor.
pub fn subcommand_context<'a>(buffer: &'a str) -> (r: Option<(&'a str, &'a str)>)
    ensures
        match r {
            Some(c) => subcommand_context_of(buffer@) == Some((c.0@, c.1@)),
            None => subcommand_context_of(buffer@) is None,
        },
{
    let all = chars_of(buffer);
    let s = all.as_slice();
    let (bounds, start) = match argument_words(s) {
        Some(found) => found,
        None => {
            return None;
        },
    };
    if bounds.len() != 1 || !valid_structured_prefix(from_index(s, start)) {
        return None;
    }
    let first = bounds[0];
    assert(buffer@.subrange(start as int, buffer@.len() as int) =~= current_word(buffer@));
    Some((buffer.substring_char(first.0, first.1), buffer.substring_char(start, s.len())))
}

/// The command, the option and the beginning of its value under the cursor.
pub fn value_context<'a>(buffer: &'a str) -> (r: Option<(&'a str, &'a str, &'a str)>)
    ensures
        match r {
            Some(c) => value_context_of(buffer@) == Some((c.0@, c.1@, c.2@)),
            None => value_context_of(buffer@) is None,
        },
{
    let all = chars_of(buffer);
    let s = all.as_slice();
    let (bounds, start) = match argument_words(s) {
        Some(found) => found,
        None => {
            return None;
        },
    };
    let first = bounds[0];
    let n: usize = s.len();
    let ghost word = current_word(buffer@);
    assert(buffer@.subrange(start as int, n as int) =~= word);
    let equals: usize = span_end(s, start, Class::Only('='), false);
    if equals < n {
        if bounds.len() == 1 && valid_option_context_spelling(
            vstd::slice::slice_subrange(s, start, equals),
        ) {
            proof {
                assert(buffer@.subrange(start as int, equals as int) =~= word.take(equals - start));
                assert(buffer@.subrange(equals + 1, n as int) =~= word.skip(equals - start + 1));
            }
            return Some(
                (
                    buffer.substring_char(first.0, first.1),
                    buffer.substring_char(start, equals),
                    buffer.substring_char(equals + 1, n),
                ),
            );
        }
        proof {
            assert(buffer@.subrange(start as int, equals as int) =~= word.take(equals - start));
        }
        return None;
    }
    if bounds.len() != 2 || (start < n && s[start] == '-') {
        return None;
    }
    let second = bounds[1];
    if !valid_option_context_spelling(vstd::slice::slice_subrange(s, second.0, second.1)) {
        return None;
    }
    Some(
        (
            buffer.substring_char(first.0, first.1),
            buffer.substring_char(second.0, second.1),
            buffer.substring_char(start, n),
        ),
    )
}

} // verus!

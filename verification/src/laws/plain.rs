//! The words that the laws are written in.
use vstd::prelude::*;

verus! {

/// A letter of the English alphabet.
pub open spec fn letter(c: char) -> bool {
    ('a' <= c && c <= 'z') || ('A' <= c && c <= 'Z')
}

pub open spec fn capital(c: char) -> bool {
    'A' <= c && c <= 'Z'
}

pub open spec fn digit(c: char) -> bool {
    '0' <= c && c <= '9'
}

pub open spec fn letter_or_digit(c: char) -> bool {
    letter(c) || digit(c)
}

/// A character of a command's name.
pub open spec fn command_char(c: char) -> bool {
    letter_or_digit(c) || c == '-' || c == '_' || c == '+'
}

/// A character of an option.
pub open spec fn option_char(c: char) -> bool {
    letter_or_digit(c) || c == '-' || c == '_'
}

/// A character of a subcommand's name.
pub open spec fn name_char(c: char) -> bool {
    letter_or_digit(c) || c == '-' || c == '_' || c == '.' || c == '+'
}

pub open spec fn spaces(s: Seq<char>) -> bool {
    forall|i: int| 0 <= i < s.len() ==> #[trigger] s[i] == ' '
}

/// A text without a character.
pub open spec fn lacks(s: Seq<char>, c: char) -> bool {
    forall|i: int| 0 <= i < s.len() ==> #[trigger] s[i] != c
}

/// A text without a line break.
pub open spec fn one_line(s: Seq<char>) -> bool {
    lacks(s, '\n') && lacks(s, '\r')
}

/// A visible character of ASCII.
pub open spec fn visible(c: char) -> bool {
    '!' <= c && c <= '~'
}

/// A character that a shell gives a meaning of its own.
pub open spec fn shell_mark(c: char) -> bool {
    ||| c == '\'' || c == '"' || c == '`' || c == '\\'
    ||| c == ';' || c == '&' || c == '|' || c == '>' || c == '<' || c == '$' || c == '!'
    ||| c == '(' || c == ')' || c == '{' || c == '}' || c == '[' || c == ']'
    ||| c == '*' || c == '?'
}

/// A character that stands for itself in a command line.
pub open spec fn typed(c: char) -> bool {
    visible(c) && !shell_mark(c)
}

/// A word that stands for itself in a command line.
pub open spec fn typed_word(s: Seq<char>) -> bool {
    forall|i: int| 0 <= i < s.len() ==> typed(#[trigger] s[i])
}

/// Visible characters and spaces.
pub open spec fn printed(s: Seq<char>) -> bool {
    forall|i: int| 0 <= i < s.len() ==> visible(#[trigger] s[i]) || s[i] == ' '
}

/// Visible characters and single spaces between them.
pub open spec fn single_spaced(s: Seq<char>) -> bool {
    &&& printed(s)
    &&& s.len() > 0
    &&& s[0] != ' '
    &&& s.last() != ' '
    &&& forall|i: int| 0 < i < s.len() && s[i - 1] == ' ' ==> #[trigger] s[i] != ' '
}

/// A letter of the English alphabet as a small one.
pub open spec fn small(c: char) -> char {
    if capital(c) {
        (c as u32 - 'A' as u32 + 'a' as u32) as char
    } else {
        c
    }
}

/// One text is the other in small letters.
pub open spec fn in_small(s: Seq<char>, t: Seq<char>) -> bool {
    s.len() == t.len() && forall|i: int| 0 <= i < s.len() ==> small(#[trigger] s[i]) == t[i]
}

pub open spec fn smaller(a: nat, b: nat) -> nat {
    if a < b {
        a
    } else {
        b
    }
}

/// The first elements of a list, `n` at most.
pub open spec fn first_of<A>(list: Seq<A>, n: nat) -> Seq<A> {
    if list.len() > n {
        list.take(n as int)
    } else {
        list
    }
}

} // verus!

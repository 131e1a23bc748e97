//! Metadata from manual pages and `--help` output.
//!
//! The parsers keep strict ASCII spellings and control-free descriptions from
//! recognised sections; usage lines and free prose never become candidates.
use vstd::prelude::*;
use vstd::slice::slice_subrange;
use crate::text;
use crate::text::{
    chars_of, closes_with_str, extend, from_index, has_alphabetic, has_some, is_all, joined,
    lowered, same_as, span_end, trimmed_end, up_to, word_pieces, Class,
};

verus! {

pub const MAX_OPTION_COUNT: usize = 256;

pub const MAX_OPTION_SPELLING: usize = 128;

pub const MAX_SUBCOMMAND_COUNT: usize = 256;

pub const MAX_SUBCOMMAND_NAME: usize = 128;

pub const MAX_VALUE_COUNT: usize = 128;

pub const MAX_VALUE: usize = 128;

pub const MAX_DESCRIPTION: usize = 200;

/// A name with its description.
pub struct Described {
    pub name: Seq<char>,
    pub description: Seq<char>,
}

// ---------------------------------------------------------------------------
// Descriptions
// ---------------------------------------------------------------------------

/// A character that may stand in a description.
pub open spec fn printable(c: char) -> bool {
    !text::control(c) && !text::directional(c)
}

/// The words of a description separated by single spaces, without control
/// characters.
pub open spec fn collapse(s: Seq<char>) -> Seq<char> {
    text::join(text::words(s, Class::Whitespace), seq![' ']).filter(|c: char| printable(c))
}

/// A description fit for display, or nothing when no letter is left. A long
/// one is cut and ends in an ellipsis.
pub open spec fn sanitize(s: Seq<char>) -> Option<Seq<char>> {
    let clean = collapse(s);
    if clean.len() == 0 || !text::some_alphabetic(clean) {
        None
    } else if clean.len() > MAX_DESCRIPTION {
        Some(clean.take(MAX_DESCRIPTION - 1).push('\u{2026}'))
    } else {
        Some(clean)
    }
}

/// A text that a description may be.
pub open spec fn clean_description(s: Seq<char>) -> bool {
    s.len() <= MAX_DESCRIPTION && forall|i: int| 0 <= i < s.len() ==> printable(#[trigger] s[i])
}

/// A sanitised description is bounded, not empty and free of controls.
pub proof fn law_sanitized_is_clean(s: Seq<char>)
    ensures
        sanitize(s) matches Some(t) ==> t.len() > 0 && clean_description(t),
{
    let raw = text::join(text::words(s, Class::Whitespace), seq![' ']);
    let clean = collapse(s);
    assert forall|i: int| 0 <= i < clean.len() implies printable(#[trigger] clean[i]) by {
        raw.lemma_filter_pred(|c: char| printable(c), i);
    }
}

fn kept(s: &[char]) -> (r: Vec<char>)
    ensures
        r@ == s@.filter(|c: char| printable(c)),
{
    let mut out: Vec<char> = Vec::new();
    let mut i: usize = 0;
    let ghost test = |c: char| printable(c);
    assert(s@.take(0).filter(test) =~= Seq::empty()) by {
        reveal(Seq::filter);
    }
    while i < s.len()
        invariant
            i <= s@.len(),
            test == (|c: char| printable(c)),
            out@ == s@.take(i as int).filter(test),
        decreases s.len() - i,
    {
        let c = s[i];
        proof {
            assert(s@.take(i + 1) =~= s@.take(i as int).push(c));
            s@.take(i as int).lemma_filter_push(c, test);
        }
        if !Class::Control.admits(c) && !Class::Directional.admits(c) {
            out.push(c);
        }
        i += 1;
    }
    assert(s@.take(s@.len() as int) =~= s@);
    out
}

/// Sanitises a description.
pub fn sanitize_description(description: &[char]) -> (r: Option<Vec<char>>)
    ensures
        match r {
            Some(t) => sanitize(description@) == Some(t@),
            None => sanitize(description@) is None,
        },
{
    let collapsed = joined(&word_pieces(description, Class::Whitespace), ' ');
    let clean = kept(collapsed.as_slice());
    if clean.len() == 0 || !has_alphabetic(clean.as_slice()) {
        return None;
    }
    if clean.len() > MAX_DESCRIPTION {
        let mut cut: Vec<char> = Vec::new();
        extend(&mut cut, up_to(clean.as_slice(), MAX_DESCRIPTION - 1));
        cut.push('\u{2026}');
        assert(cut@ =~= clean@.take(MAX_DESCRIPTION - 1).push('\u{2026}'));
        return Some(cut);
    }
    Some(clean)
}

// ---------------------------------------------------------------------------
// Lines
// ---------------------------------------------------------------------------

/// What a terminal has shown after some characters: the pending escape
/// sequence and the text.
pub struct Shown {
    /// 0: none, 1: after ESC, 2: in a control sequence, 3: in a string
    /// sequence, which nothing ends.
    pub escape: nat,
    pub text: Seq<char>,
}

/// Shows one more character.
pub open spec fn show(before: Shown, c: char) -> Shown {
    if before.escape == 1 {
        Shown {
            escape: if c == '[' { 2 } else if c == ']' { 3 } else { 0 },
            text: before.text,
        }
    } else if before.escape == 2 {
        Shown { escape: if '@' <= c && c <= '~' { 0 } else { 2 }, text: before.text }
    } else if before.escape == 3 {
        before
    } else if c == '\u{1b}' {
        Shown { escape: 1, text: before.text }
    } else if c == '\u{8}' {
        Shown {
            escape: 0,
            text: if before.text.len() > 0 { before.text.drop_last() } else { before.text },
        }
    } else if c == '\t' {
        Shown { escape: 0, text: before.text.push(' ') }
    } else if printable(c) {
        Shown { escape: 0, text: before.text.push(c) }
    } else {
        before
    }
}

/// What a line shows.
pub open spec fn shown(line: Seq<char>) -> Shown
    decreases line.len(),
{
    if line.len() == 0 {
        Shown { escape: 0, text: Seq::empty() }
    } else {
        show(shown(line.drop_last()), line.last())
    }
}

/// A line as a terminal shows it, without trailing white space; nothing when
/// it shows white space only.
pub open spec fn clean(line: Seq<char>) -> Option<Seq<char>> {
    let text = text::trim_end(shown(line).text, Class::Whitespace);
    if text::all_in(text, Class::Whitespace) {
        None
    } else {
        Some(text)
    }
}

/// Cleans a line.
pub fn clean_line(line: &[char]) -> (r: Option<Vec<char>>)
    ensures
        match r {
            Some(t) => clean(line@) == Some(t@),
            None => clean(line@) is None,
        },
{
    let mut text: Vec<char> = Vec::new();
    let mut escape: u8 = 0;
    let mut i: usize = 0;
    assert(line@.take(0) =~= Seq::<char>::empty());
    while i < line.len()
        invariant
            i <= line@.len(),
            (Shown { escape: escape as nat, text: text@ }) == shown(line@.take(i as int)),
        decreases line.len() - i,
    {
        let c = line[i];
        let ghost before = text@;
        proof {
            assert(line@.take(i + 1).drop_last() =~= line@.take(i as int));
            assert(line@.take(i + 1).last() == c);
        }
        if escape == 1 {
            escape = if c == '[' {
                2
            } else if c == ']' {
                3
            } else {
                0
            };
        } else if escape == 2 {
            if '@' <= c && c <= '~' {
                escape = 0;
            }
        } else if escape == 3 {
        } else if c == '\u{1b}' {
            escape = 1;
        } else if c == '\u{8}' {
            if text.len() > 0 {
                text.pop();
                assert(text@ =~= before.drop_last());
            }
            escape = 0;
        } else if c == '\t' {
            text.push(' ');
            escape = 0;
        } else if !Class::Control.admits(c) && !Class::Directional.admits(c) {
            text.push(c);
            escape = 0;
        }
        i += 1;
    }
    assert(line@.take(line@.len() as int) =~= line@);
    let cut = trimmed_end(text.as_slice(), Class::Whitespace);
    if is_all(cut, Class::Whitespace) {
        return None;
    }
    let mut out: Vec<char> = Vec::new();
    extend(&mut out, cut);
    assert(out@ =~= cut@);
    Some(out)
}

/// The cleaned lines of a text, trimmed at both ends.
pub open spec fn clean_texts(output: Seq<char>) -> Seq<Seq<char>> {
    text::lines(output).filter_map(
        |line: Seq<char>|
            match clean(line) {
                Some(text) => Some(text::trim(text, Class::Whitespace)),
                None => None,
            },
    )
}

/// The number of spaces that a line starts with.
pub open spec fn indentation(line: Seq<char>) -> nat {
    text::span(line, Class::Only(' '), true)
}

pub fn indent_of(line: &[char]) -> (n: usize)
    ensures
        n == indentation(line@),
{
    assert(line@.skip(0) =~= line@);
    span_end(line, 0, Class::Only(' '), true)
}

/// A line with control or directional characters besides tabs and the
/// overstriking of a rendered page.
pub open spec fn unsafe_line(line: Seq<char>) -> bool {
    exists|i: int| 0 <= i < line.len() && #[trigger] unsafe_at(line, i)
}

/// The character at `i` makes a line unsafe. A backspace overstrikes the
/// character before it with the same one, or with one that was underlined.
pub open spec fn unsafe_at(line: Seq<char>, i: int) -> bool {
    let c = line[i];
    if c == '\u{8}' {
        i == 0 || i + 1 == line.len() || (line[i - 1] != line[i + 1] && line[i - 1] != '_')
    } else {
        text::directional(c) || (text::control(c) && c != '\t')
    }
}

/// Whether a line holds control data other than tabs and overstriking.
pub fn line_is_unsafe(line: &[char]) -> (b: bool)
    ensures
        b == unsafe_line(line@),
{
    let mut i: usize = 0;
    while i < line.len()
        invariant
            i <= line@.len(),
            forall|j: int| 0 <= j < i ==> !#[trigger] unsafe_at(line@, j),
        decreases line.len() - i,
    {
        let c = line[i];
        let bad = if c == '\u{8}' {
            i == 0 || i + 1 == line.len() || (line[i - 1] != line[i + 1] && line[i - 1] != '_')
        } else {
            Class::Directional.admits(c) || (Class::Control.admits(c) && c != '\t')
        };
        assert(bad == unsafe_at(line@, i as int));
        if bad {
            return true;
        }
        i += 1;
    }
    false
}

/// Whether a line holds control data other than tabs and overstriking.
pub fn option_line_has_unsafe_data(line: &str) -> (b: bool)
    ensures
        b == unsafe_line(line@),
{
    line_is_unsafe(chars_of(line).as_slice())
}

// ---------------------------------------------------------------------------
// Headings
// ---------------------------------------------------------------------------

/// A heading without its colon, in small letters.
pub open spec fn heading_text(line: Seq<char>) -> Seq<char> {
    text::lower(text::trim_end(line, Class::Only(':')))
}

/// A line that opens the list of options.
pub open spec fn options_heading(line: Seq<char>) -> bool {
    let t = heading_text(line);
    ||| t == "option"@
    ||| t == "options"@
    ||| t == "flags"@
    ||| t == "global options"@
    ||| t == "general options"@
    ||| t == "optional arguments"@
    ||| t == "the following options are available"@
}

/// Every ASCII letter is a capital.
pub open spec fn capitals_only(s: Seq<char>) -> bool {
    forall|i: int| 0 <= i < s.len() && text::ascii_letter(#[trigger] s[i]) ==> text::ascii_upper(s[i])
}

/// A line that opens a list of subcommands: a common heading, or any heading
/// that ends in the word and is shaped like one.
pub open spec fn commands_heading(line: Seq<char>) -> bool {
    let t = heading_text(line);
    ||| t == "command"@
    ||| t == "commands"@
    ||| t == "available commands"@
    ||| t == "subcommands"@
    ||| t == "the commands are"@
    ||| text::ends_with(t, " commands"@) && ((line.len() > 0 && line.last() == ':') || capitals_only(
        text::trim_end(line, Class::Only(':')),
    ))
}

/// A line that opens some section: a common heading or a line in capitals.
pub open spec fn section_heading(line: Seq<char>) -> bool {
    let t = heading_text(line);
    let heading = text::trim_end(line, Class::Only(':'));
    ||| t == "usage"@
    ||| t == "arguments"@
    ||| t == "commands"@
    ||| t == "available commands"@
    ||| t == "examples"@
    ||| t == "description"@
    ||| t == "synopsis"@
    ||| t == "operands"@
    ||| t == "environment"@
    ||| t == "exit status"@
    ||| t == "files"@
    ||| t == "authors"@
    ||| t == "bugs"@
    ||| t == "see also"@
    ||| text::some_in(heading, Class::AsciiLetter) && capitals_only(heading)
}

fn only_capitals(s: &[char]) -> (b: bool)
    ensures
        b == capitals_only(s@),
{
    let mut i: usize = 0;
    while i < s.len()
        invariant
            i <= s@.len(),
            forall|j: int| 0 <= j < i && text::ascii_letter(#[trigger] s@[j]) ==> text::ascii_upper(s@[j]),
        decreases s.len() - i,
    {
        let c = s[i];
        if Class::AsciiLetter.admits(c) && !Class::AsciiUpper.admits(c) {
            return false;
        }
        i += 1;
    }
    true
}

/// Whether a line opens the list of options.
pub fn is_options_heading(line: &[char]) -> (b: bool)
    ensures
        b == options_heading(line@),
{
    let low = lowered(trimmed_end(line, Class::Only(':')));
    let t = low.as_slice();
    same_as(t, "option") || same_as(t, "options") || same_as(t, "flags") || same_as(
        t,
        "global options",
    ) || same_as(t, "general options") || same_as(t, "optional arguments") || same_as(
        t,
        "the following options are available",
    )
}

/// Whether a line opens a list of subcommands.
pub fn is_commands_heading(line: &[char]) -> (b: bool)
    ensures
        b == commands_heading(line@),
{
    let heading = trimmed_end(line, Class::Only(':'));
    let low = lowered(heading);
    let t = low.as_slice();
    let shaped = (line.len() > 0 && line[line.len() - 1] == ':') || only_capitals(heading);
    same_as(t, "command") || same_as(t, "commands") || same_as(t, "available commands")
        || same_as(t, "subcommands") || same_as(t, "the commands are") || (shaped
        && closes_with_str(t, " commands"))
}

/// Whether a line opens some section.
pub fn is_section_heading(line: &[char]) -> (b: bool)
    ensures
        b == section_heading(line@),
{
    let heading = trimmed_end(line, Class::Only(':'));
    let low = lowered(heading);
    let t = low.as_slice();
    same_as(t, "usage") || same_as(t, "arguments") || same_as(t, "commands") || same_as(
        t,
        "available commands",
    ) || same_as(t, "examples") || same_as(t, "description") || same_as(t, "synopsis") || same_as(
        t,
        "operands",
    ) || same_as(t, "environment") || same_as(t, "exit status") || same_as(t, "files") || same_as(
        t,
        "authors",
    ) || same_as(t, "bugs") || same_as(t, "see also") || (has_some(heading, Class::AsciiLetter)
        && only_capitals(heading))
}

// ---------------------------------------------------------------------------
// Names, values and spellings
// ---------------------------------------------------------------------------

/// A name that an executable may be offered under.
pub open spec fn executable_name(s: Seq<char>) -> bool {
    s.len() > 0 && text::all_in(s, Class::NamePart)
}

/// A name that a subcommand may be offered under.
pub open spec fn subcommand_name(s: Seq<char>) -> bool {
    0 < s.len() <= MAX_SUBCOMMAND_NAME && text::ascii_alphanumeric(s[0]) && text::all_in(s, Class::NamePart)
}

/// A value that an option may be offered with.
pub open spec fn option_value(s: Seq<char>) -> bool {
    0 < s.len() <= MAX_VALUE && text::all_in(s, Class::ValuePart)
}

/// A spelling that an option may be offered under: one letter or digit after
/// a dash, or a longer name after two.
pub open spec fn option_spelling(s: Seq<char>) -> bool {
    &&& 2 <= s.len() <= MAX_OPTION_SPELLING
    &&& s[0] == '-'
    &&& if s[1] == '-' {
        &&& s.len() >= 3
        &&& text::ascii_alphanumeric(s[2])
        &&& text::ascii_alphanumeric(s.last())
        &&& text::all_in(s.skip(2), Class::OptionPart)
    } else {
        s.len() == 2 && text::ascii_alphanumeric(s[1])
    }
}

/// Whether an executable may be offered under a name.
pub fn valid_name(name: &str) -> (b: bool)
    ensures
        b == executable_name(name@),
{
    let name = chars_of(name);
    name.len() > 0 && is_all(name.as_slice(), Class::NamePart)
}

/// Whether a subcommand may be offered under a name.
pub fn valid_subcommand_name(name: &[char]) -> (b: bool)
    ensures
        b == subcommand_name(name@),
{
    name.len() > 0 && name.len() <= MAX_SUBCOMMAND_NAME && Class::AsciiAlphanumeric.admits(name[0])
        && is_all(name, Class::NamePart)
}

/// Whether an option may be offered with a value.
pub fn valid_value(value: &[char]) -> (b: bool)
    ensures
        b == option_value(value@),
{
    value.len() > 0 && value.len() <= MAX_VALUE && is_all(value, Class::ValuePart)
}

/// Whether an option may be offered under a spelling.
pub fn valid_option_spelling(spelling: &[char]) -> (b: bool)
    ensures
        b == option_spelling(spelling@),
{
    if spelling.len() < 2 || spelling.len() > MAX_OPTION_SPELLING || spelling[0] != '-' {
        return false;
    }
    if spelling[1] == '-' {
        spelling.len() >= 3 && Class::AsciiAlphanumeric.admits(spelling[2])
            && Class::AsciiAlphanumeric.admits(spelling[spelling.len() - 1]) && is_all(
            from_index(spelling, 2),
            Class::OptionPart,
        )
    } else {
        spelling.len() == 2 && Class::AsciiAlphanumeric.admits(spelling[1])
    }
}

// ---------------------------------------------------------------------------
// Option declarations
// ---------------------------------------------------------------------------

/// Where the spelling that starts at `p` ends: it is a valid one and what
/// follows it may follow a spelling.
pub open spec fn spelling_end(line: Seq<char>, p: int) -> Option<int> {
    let end = if p + 1 < line.len() && line[p + 1] == '-' {
        p + 2 + text::span(line.skip(p + 2), Class::OptionPart, true)
    } else {
        p + 2
    };
    if 0 <= p < line.len() && end <= line.len() && option_spelling(line.subrange(p, end)) && (end
        < line.len() ==> text::in_class(Class::AsciiWhitespace, line[end]) || line[end] == ','
        || line[end] == '=' || line[end] == '[') {
        Some(end)
    } else {
        None
    }
}

/// A text without the ellipses at its end.
pub open spec fn without_ellipsis(s: Seq<char>) -> Seq<char>
    decreases s.len(),
{
    if s.len() >= 3 && s[s.len() - 1] == '.' && s[s.len() - 2] == '.' && s[s.len() - 3] == '.' {
        without_ellipsis(s.take(s.len() - 3))
    } else {
        s
    }
}

/// A text without one pair of angle or square brackets around it.
pub open spec fn unbracketed(s: Seq<char>) -> Seq<char> {
    if s.len() >= 2 && ((s[0] == '<' && s.last() == '>') || (s[0] == '[' && s.last() == ']')) {
        s.subrange(1, s.len() - 1)
    } else {
        s
    }
}

/// A placeholder such as `FILE`, `<FILE>` or `[FILE...]`.
pub open spec fn placeholder(token: Seq<char>) -> bool {
    let name = without_ellipsis(unbracketed(token));
    name.len() > 0 && text::all_in(name, Class::PlaceholderPart)
}

/// The end of the characters of an attached argument.
pub open spec fn attached_end(line: Seq<char>, p: int) -> int
    decreases line.len() - p,
{
    if 0 <= p < line.len() && !text::in_class(Class::AsciiWhitespace, line[p]) && line[p] != ',' {
        attached_end(line, p + 1)
    } else {
        p
    }
}

/// Where the argument attached to the spelling that ends at `p` ends: after
/// `=` and a value, after a placeholder as in `[=WHEN]`, or at `p` when there
/// is none.
pub open spec fn argument_end(line: Seq<char>, p: int) -> Option<int> {
    if 0 <= p < line.len() && line[p] == '=' {
        let end = attached_end(line, p + 1);
        if end == p + 1 {
            None
        } else {
            Some(end)
        }
    } else if 0 <= p < line.len() && line[p] == '[' {
        let close = p + text::span(line.skip(p), Class::Only(']'), false);
        if close < line.len() && p + 1 < close && line[p + 1] == '=' && placeholder(
            line.subrange(p + 2, close),
        ) {
            Some(close + 1)
        } else {
            None
        }
    } else {
        Some(p)
    }
}

/// The position after the white space at `p`.
pub open spec fn after_space(line: Seq<char>, p: int) -> int {
    p + text::span(line.skip(p), Class::AsciiWhitespace, true)
}

/// What follows an option in its declaration.
pub enum Clause {
    /// Nothing that a declaration may hold.
    Malformed,
    /// Another spelling, at this position.
    Spelling(int),
    /// The end of the line.
    End,
    /// A description, from this position on.
    Description(int),
}

/// Reads on after a spelling and its attached argument.
pub open spec fn clause_at(line: Seq<char>, p: int) -> Clause {
    if p < 0 || p >= line.len() {
        Clause::End
    } else if line[p] == ',' {
        let q = after_space(line, p + 1);
        if q < line.len() && line[q] == '-' {
            Clause::Spelling(q)
        } else {
            Clause::Malformed
        }
    } else if !text::in_class(Class::AsciiWhitespace, line[p]) {
        Clause::Malformed
    } else {
        let q = after_space(line, p);
        if q >= line.len() {
            Clause::End
        } else if line[q] == '/' {
            Clause::Spelling(after_space(line, q + 1))
        } else if line[q] == '-' {
            Clause::Spelling(q)
        } else {
            let end = q + text::span(line.skip(q), Class::AsciiWhitespace, false);
            let token = line.subrange(q, end);
            if placeholder(text::trim_end(token, Class::Only(','))) {
                if token.last() == ',' {
                    Clause::Spelling(after_space(line, end))
                } else {
                    Clause::Description(after_space(line, end))
                }
            } else {
                Clause::Description(q)
            }
        }
    }
}

/// A parsed declaration.
pub struct Declaration {
    pub spellings: Seq<Seq<char>>,
    pub description: Option<Seq<char>>,
}

/// The declaration whose next spelling starts at `p`, after those in `found`.
pub open spec fn declaration_from(line: Seq<char>, p: int, found: Seq<Seq<char>>) -> Option<
    Declaration,
>
    decreases line.len() - p,
{
    match spelling_end(line, p) {
        None => None,
        Some(end) => {
            let spellings = found.push(line.subrange(p, end));
            match argument_end(line, end) {
                None => None,
                Some(next) => match clause_at(line, next) {
                    Clause::Malformed => None,
                    Clause::End => Some(Declaration { spellings, description: None }),
                    Clause::Description(q) => Some(
                        Declaration {
                            spellings,
                            description: if q < line.len() { sanitize(line.skip(q)) } else { None },
                        },
                    ),
                    Clause::Spelling(q) => if p < q <= line.len() {
                        declaration_from(line, q, spellings)
                    } else {
                        None
                    },
                },
            }
        },
    }
}

/// The options that a line declares.
pub open spec fn declaration(line: Seq<char>) -> Option<Declaration> {
    declaration_from(line, 0, Seq::empty())
}

/// Every spelling of a declaration is one that an option may be offered under,
/// and its description is fit for display.
pub proof fn law_declaration(line: Seq<char>)
    ensures
        declaration(line) matches Some(d) ==> {
            &&& d.spellings.len() > 0
            &&& forall|i: int| 0 <= i < d.spellings.len() ==> option_spelling(
                #[trigger] d.spellings[i],
            )
            &&& d.description matches Some(t) ==> t.len() > 0 && clean_description(t)
        },
{
    lemma_declaration_from(line, 0, Seq::empty());
}

proof fn lemma_declaration_from(line: Seq<char>, p: int, found: Seq<Seq<char>>)
    requires
        forall|i: int| 0 <= i < found.len() ==> option_spelling(#[trigger] found[i]),
    ensures
        declaration_from(line, p, found) matches Some(d) ==> {
            &&& d.spellings.len() > 0
            &&& forall|i: int| 0 <= i < d.spellings.len() ==> option_spelling(
                #[trigger] d.spellings[i],
            )
            &&& d.description matches Some(t) ==> t.len() > 0 && clean_description(t)
        },
    decreases line.len() - p,
{
    match spelling_end(line, p) {
        None => {},
        Some(end) => {
            let spellings = found.push(line.subrange(p, end));
            match argument_end(line, end) {
                None => {},
                Some(next) => match clause_at(line, next) {
                    Clause::Description(q) => {
                        law_sanitized_is_clean(line.skip(q));
                    },
                    Clause::Spelling(q) => if p < q <= line.len() {
                        lemma_declaration_from(line, q, spellings);
                    },
                    _ => {},
                },
            }
        },
    }
}

/// Reads the spelling that starts at `p`.
fn option_spelling_at(line: &[char], p: usize) -> (r: Option<usize>)
    requires
        p <= line@.len(),
    ensures
        match r {
            Some(end) => spelling_end(line@, p as int) == Some(end as int) && p < end
                <= line@.len() && option_spelling(line@.subrange(p as int, end as int)),
            None => spelling_end(line@, p as int) is None,
        },
{
    if p >= line.len() || line.len() - p < 2 {
        return None;
    }
    let end: usize = if line[p + 1] == '-' {
        span_end(line, p + 2, Class::OptionPart, true)
    } else {
        p + 2
    };
    if !valid_option_spelling(slice_subrange(line, p, end)) {
        return None;
    }
    if end < line.len() {
        let c = line[end];
        if !Class::AsciiWhitespace.admits(c) && c != ',' && c != '=' && c != '[' {
            return None;
        }
    }
    Some(end)
}

/// Whether a token is a placeholder.
fn is_option_argument(token: &[char]) -> (b: bool)
    ensures
        b == placeholder(token@),
{
    let mut name = token;
    if token.len() >= 2 {
        let first = token[0];
        let last = token[token.len() - 1];
        if (first == '<' && last == '>') || (first == '[' && last == ']') {
            name = slice_subrange(token, 1, token.len() - 1);
        }
    }
    assert(name@ == unbracketed(token@));
    let ghost bare = name@;
    while name.len() >= 3 && name[name.len() - 1] == '.' && name[name.len() - 2] == '.'
        && name[name.len() - 3] == '.'
        invariant
            without_ellipsis(name@) == without_ellipsis(bare),
        decreases name@.len(),
    {
        name = up_to(name, name.len() - 3);
    }
    assert(without_ellipsis(name@) == name@);
    name.len() > 0 && is_all(name, Class::PlaceholderPart)
}

/// Reads the argument attached to the spelling that ends at `p`.
fn attached_argument(line: &[char], p: usize) -> (r: Option<usize>)
    requires
        p <= line@.len(),
    ensures
        match r {
            Some(end) => argument_end(line@, p as int) == Some(end as int) && p <= end
                <= line@.len(),
            None => argument_end(line@, p as int) is None,
        },
{
    if p < line.len() && line[p] == '=' {
        let mut end: usize = p + 1;
        while end < line.len() && !Class::AsciiWhitespace.admits(line[end]) && line[end] != ','
            invariant
                p < line@.len(),
                p + 1 <= end <= line@.len(),
                attached_end(line@, end as int) == attached_end(line@, p + 1),
            decreases line.len() - end,
        {
            end += 1;
        }
        assert(attached_end(line@, end as int) == end);
        if end == p + 1 {
            return None;
        }
        return Some(end);
    }
    if p < line.len() && line[p] == '[' {
        let close: usize = span_end(line, p, Class::Only(']'), false);
        if close < line.len() && p + 1 < close && line[p + 1] == '=' && is_option_argument(
            slice_subrange(line, p + 2, close),
        ) {
            return Some(close + 1);
        }
        return None;
    }
    Some(p)
}

/// What follows an option in its declaration.
enum Next {
    Malformed,
    Spelling(usize),
    End,
    Description(usize),
}

impl View for Next {
    type V = Clause;

    closed spec fn view(&self) -> Clause {
        match self {
            Next::Malformed => Clause::Malformed,
            Next::Spelling(q) => Clause::Spelling(*q as int),
            Next::End => Clause::End,
            Next::Description(q) => Clause::Description(*q as int),
        }
    }
}

/// The position after the white space at `position`.
fn skip_ascii_spaces(line: &[char], position: usize) -> (r: usize)
    requires
        position <= line@.len(),
    ensures
        position <= r <= line@.len(),
        r == after_space(line@, position as int),
{
    span_end(line, position, Class::AsciiWhitespace, true)
}

/// Reads on after a spelling and its attached argument.
fn next_clause(line: &[char], p: usize) -> (r: Next)
    requires
        p <= line@.len(),
    ensures
        r@ == clause_at(line@, p as int),
        r matches Next::Spelling(q) ==> p < q <= line@.len(),
        r matches Next::Description(q) ==> p < q <= line@.len(),
{
    if p >= line.len() {
        return Next::End;
    }
    if line[p] == ',' {
        let q: usize = skip_ascii_spaces(line, p + 1);
        if q < line.len() && line[q] == '-' {
            return Next::Spelling(q);
        }
        return Next::Malformed;
    }
    if !Class::AsciiWhitespace.admits(line[p]) {
        return Next::Malformed;
    }
    let q: usize = skip_ascii_spaces(line, p);
    proof {
        assert(line@.skip(p as int)[0] == line@[p as int]);
    }
    assert(p < q);
    if q >= line.len() {
        return Next::End;
    }
    if line[q] == '/' {
        return Next::Spelling(skip_ascii_spaces(line, q + 1));
    }
    if line[q] == '-' {
        return Next::Spelling(q);
    }
    let end: usize = span_end(line, q, Class::AsciiWhitespace, false);
    proof {
        crate::text::lemma_span(line@.skip(p as int), Class::AsciiWhitespace, true);
        assert(line@.skip(p as int)[q - p] == line@[q as int]);
        assert(line@.skip(q as int)[0] == line@[q as int]);
        assert(q < end);
    }
    let token = slice_subrange(line, q, end);
    if is_option_argument(trimmed_end(token, Class::Only(','))) {
        let after: usize = skip_ascii_spaces(line, end);
        if token[token.len() - 1] == ',' {
            Next::Spelling(after)
        } else {
            Next::Description(after)
        }
    } else {
        Next::Description(q)
    }
}

/// A parsed declaration.
pub struct ParsedOptionDeclaration {
    pub spellings: Vec<Vec<char>>,
    pub description: Option<Vec<char>>,
}

/// What the vectors of a list hold.
pub open spec fn texts(v: Seq<Vec<char>>) -> Seq<Seq<char>> {
    v.map_values(|t: Vec<char>| t@)
}

impl View for ParsedOptionDeclaration {
    type V = Declaration;

    open spec fn view(&self) -> Declaration {
        Declaration {
            spellings: texts(self.spellings@),
            description: match self.description {
                Some(d) => Some(d@),
                None => None,
            },
        }
    }
}

/// Copies characters into a vector of their own.
pub fn copied(s: &[char]) -> (r: Vec<char>)
    ensures
        r@ == s@,
{
    let mut out: Vec<char> = Vec::new();
    extend(&mut out, s);
    assert(out@ =~= s@);
    out
}

/// Parses the options that a line declares.
pub fn parse_option_declaration(line: &[char]) -> (r: Option<ParsedOptionDeclaration>)
    ensures
        match r {
            Some(d) => declaration(line@) == Some(d@) && forall|i: int|
                0 <= i < d.spellings@.len() ==> option_spelling(#[trigger] d.spellings@[i]@),
            None => declaration(line@) is None,
        },
{
    let mut spellings: Vec<Vec<char>> = Vec::new();
    let mut p: usize = 0;
    assert(texts(spellings@) =~= Seq::<Seq<char>>::empty());
    loop
        invariant
            p <= line@.len(),
            declaration(line@) == declaration_from(line@, p as int, texts(spellings@)),
            forall|i: int| 0 <= i < spellings@.len() ==> option_spelling(#[trigger] spellings@[i]@),
        decreases line@.len() - p,
    {
        let end: usize = match option_spelling_at(line, p) {
            Some(end) => end,
            None => {
                return None;
            },
        };
        let ghost before = spellings@;
        spellings.push(copied(slice_subrange(line, p, end)));
        assert(texts(spellings@) =~= texts(before).push(line@.subrange(p as int, end as int)));
        let next: usize = match attached_argument(line, end) {
            Some(next) => next,
            None => {
                return None;
            },
        };
        match next_clause(line, next) {
            Next::Malformed => {
                return None;
            },
            Next::End => {
                return Some(ParsedOptionDeclaration { spellings, description: None });
            },
            Next::Description(q) => {
                let description = if q < line.len() {
                    sanitize_description(from_index(line, q))
                } else {
                    None
                };
                return Some(ParsedOptionDeclaration { spellings, description });
            },
            Next::Spelling(q) => {
                p = q;
            },
        }
    }
}

} // verus!

//! The description of a command in its manual page or its help text.
use vstd::prelude::*;
use crate::commands::help;
use crate::text;
use crate::commands::help::{clean_line, copied, sanitize_description};
use crate::text::{
    begins_with, chars_of, extend, find_chars, from_index, has_text, line_pieces, lowered, same_as,
    split_pieces, text_of, trimmed, trimmed_start, up_to, word_pieces, Class,
};

verus! {

/// The cleaned lines of a text.
fn cleaned(output: &[char]) -> (r: Vec<Vec<char>>)
    ensures
        help::texts(r@) == help::clean_texts(output@),
{
    let list = line_pieces(output);
    let ghost all = text::pieces(list@);
    let ghost pick = |line: Seq<char>|
        match help::clean(line) {
            Some(text) => Some(text::trim(text, Class::Whitespace)),
            None => None::<Seq<char>>,
        };
    let mut out: Vec<Vec<char>> = Vec::new();
    let mut i: usize = 0;
    proof {
        assert(all.take(0) =~= Seq::<Seq<char>>::empty());
        reveal(Seq::filter_map);
        assert(help::texts(out@) =~= all.take(0).filter_map(pick));
    }
    while i < list.len()
        invariant
            i <= list@.len(),
            all == text::pieces(list@),
            pick == (|line: Seq<char>|
                match help::clean(line) {
                    Some(text) => Some(text::trim(text, Class::Whitespace)),
                    None => None::<Seq<char>>,
                }),
            help::texts(out@) == all.take(i as int).filter_map(pick),
        decreases list.len() - i,
    {
        let ghost before = out@;
        proof {
            all.lemma_filter_map_take_succ(pick, i as int);
            assert(all[i as int] == list@[i as int]@);
        }
        match clean_line(list[i]) {
            Some(line) => {
                let text = trimmed(line.as_slice(), Class::Whitespace);
                out.push(copied(text));
                assert(help::texts(out@) =~= help::texts(before).push(text@));
            },
            None => {},
        }
        assert(help::texts(out@) =~= all.take(i + 1).filter_map(pick));
        i += 1;
    }
    assert(all.take(all.len() as int) =~= all);
    out
}

// ---------------------------------------------------------------------------
// Manual pages
// ---------------------------------------------------------------------------

/// The description in the first line of a NAME section: what follows the
/// command's name and white space.
pub open spec fn section_description(name: Seq<char>, line: Seq<char>) -> Option<Seq<char>> {
    let rest = line.skip(name.len() as int);
    if text::starts_with(line, name) && rest.len() > 0 && text::whitespace(rest[0]) {
        help::sanitize(text::trim_start(text::trim_start(rest, Class::Whitespace), Class::Only('-')))
    } else {
        None
    }
}

/// One of the names before a dash is the command's, perhaps with a section.
pub open spec fn lists_name(names: Seq<char>, name: Seq<char>) -> bool {
    exists|i: int| 0 <= i < text::split_on(names, ',').len() && is_name(#[trigger] text::split_on(names, ',')[i], name)
}

/// A listed name is the command's, perhaps with a section in parentheses.
pub open spec fn is_name(listed: Seq<char>, name: Seq<char>) -> bool {
    let t = text::trim(listed, Class::Whitespace);
    text::starts_with(t, name) && (t.len() == name.len() || t[name.len() as int] == '(')
}

/// The description after a dash that follows the command's name.
pub open spec fn dashed_description(name: Seq<char>, line: Seq<char>) -> Option<Seq<char>> {
    match text::find_text(line, " - "@) {
        Some(n) => if lists_name(line.take(n), name) {
            help::sanitize(line.skip(n + " - "@.len()))
        } else {
            None
        },
        None => None,
    }
}

/// The description in a line of a manual page; `headed` when the NAME heading
/// stands right before it.
pub open spec fn man_line(name: Seq<char>, headed: bool, line: Seq<char>) -> Option<Seq<char>> {
    if line == "NAME"@ {
        None
    } else if headed && section_description(name, line) is Some {
        section_description(name, line)
    } else {
        dashed_description(name, line)
    }
}

/// The first description that the lines from `i` on hold.
pub open spec fn man_description_from(
    name: Seq<char>,
    list: Seq<Seq<char>>,
    i: int,
) -> Option<Seq<char>>
    decreases list.len() - i,
{
    if i < 0 || i >= list.len() {
        None
    } else {
        match man_line(name, i > 0 && list[i - 1] == "NAME"@, list[i]) {
            Some(text) => Some(text),
            None => man_description_from(name, list, i + 1),
        }
    }
}

/// The description of a command in its manual page.
pub open spec fn man_description(name: Seq<char>, output: Seq<char>) -> Option<Seq<char>> {
    man_description_from(name, help::clean_texts(output), 0)
}

fn names_command(names: &[char], name: &[char]) -> (b: bool)
    ensures
        b == lists_name(names@, name@),
{
    let parts = split_pieces(names, ',');
    let mut i: usize = 0;
    while i < parts.len()
        invariant
            i <= parts@.len(),
            text::pieces(parts@) == text::split_on(names@, ','),
            forall|j: int|
                0 <= j < i ==> !is_name(#[trigger] text::split_on(names@, ',')[j], name@),
        decreases parts.len() - i,
    {
        let t = trimmed(parts[i], Class::Whitespace);
        assert(text::split_on(names@, ',')[i as int] == parts@[i as int]@);
        if begins_with(t, name) && (t.len() == name.len() || t[name.len()] == '(') {
            assert(is_name(text::split_on(names@, ',')[i as int], name@));
            return true;
        }
        i += 1;
    }
    assert(text::split_on(names@, ',').len() == parts@.len());
    false
}

fn read_man_line(name: &[char], headed: bool, line: &[char]) -> (r: Option<Vec<char>>)
    ensures
        match r {
            Some(t) => man_line(name@, headed, line@) == Some(t@),
            None => man_line(name@, headed, line@) is None,
        },
{
    if same_as(line, "NAME") {
        return None;
    }
    if headed && begins_with(line, name) {
        let rest = from_index(line, name.len());
        if rest.len() > 0 && Class::Whitespace.admits(rest[0]) {
            let text = trimmed_start(trimmed_start(rest, Class::Whitespace), Class::Only('-'));
            match sanitize_description(text) {
                Some(found) => {
                    return Some(found);
                },
                None => {},
            }
        }
    }
    let dash = chars_of(" - ");
    proof {
        text::lemma_find_from(line@, dash@, 0);
    }
    match find_chars(line, dash.as_slice(), 0) {
        Some(n) => if names_command(up_to(line, n), name) {
            assert(n + dash@.len() <= line.len());
            sanitize_description(from_index(line, n + dash.len()))
        } else {
            None
        },
        None => None,
    }
}

/// Finds the description of a command in its manual page.
pub fn parse_man_description(name: &str, output: &str) -> (r: Option<String>)
    ensures
        match r {
            Some(t) => man_description(name@, output@) == Some(t@),
            None => man_description(name@, output@) is None,
        },
{
    let wanted = chars_of(name);
    let list = cleaned(chars_of(output).as_slice());
    let ghost all = help::texts(list@);
    let mut headed = false;
    let mut i: usize = 0;
    while i < list.len()
        invariant
            i <= list@.len(),
            wanted@ == name@,
            all == help::texts(list@),
            all == help::clean_texts(output@),
            headed == (i > 0 && all[i - 1] == "NAME"@),
            man_description_from(name@, all, 0) == man_description_from(name@, all, i as int),
        decreases list.len() - i,
    {
        assert(all[i as int] == list@[i as int]@);
        match read_man_line(wanted.as_slice(), headed, list[i].as_slice()) {
            Some(found) => {
                return Some(text_of(found.as_slice()));
            },
            None => {},
        }
        headed = same_as(list[i].as_slice(), "NAME");
        i += 1;
    }
    None
}

// ---------------------------------------------------------------------------
// Help texts
// ---------------------------------------------------------------------------

/// A line that is a heading or starts with one.
pub open spec fn heads(line: Seq<char>, heading: Seq<char>) -> bool {
    line == heading || text::starts_with(line, heading.push(':'))
}

/// A line, in small letters, that structures a help text.
pub open spec fn structural(line: Seq<char>) -> bool {
    ||| heads(line, "usage"@)
    ||| heads(line, "options"@)
    ||| heads(line, "commands"@)
    ||| heads(line, "arguments"@)
    ||| heads(line, "available commands"@)
    ||| heads(line, "flags"@)
    ||| heads(line, "examples"@)
}

/// A line, in small letters, that shows how a command is called.
pub open spec fn shows_usage(line: Seq<char>, name: Seq<char>) -> bool {
    text::starts_with(line, name + " ["@) || text::starts_with(line, name + " <"@)
}

/// A line, in small letters, that reports a problem.
pub open spec fn diagnostic(line: Seq<char>) -> bool {
    ||| text::contains_text(line, "error:"@)
    ||| text::contains_text(line, "warning:"@)
    ||| text::contains_text(line, "failed"@)
    ||| text::contains_text(line, "couldn't"@)
    ||| text::contains_text(line, "unrecognized option"@)
    ||| text::contains_text(line, "unknown option"@)
}

/// The description that a line of a help text gives: prose of two words or
/// more.
pub open spec fn help_line(name: Seq<char>, line: Seq<char>) -> Option<Seq<char>> {
    let low = text::lower(line);
    if structural(low) || shows_usage(low, name) || diagnostic(low) || (line.len() > 0 && (line[0]
        == '-' || line[0] == '[')) {
        None
    } else {
        match help::sanitize(line) {
            Some(text) => if text::words(text, Class::Whitespace).len() >= 2 {
                Some(text)
            } else {
                None
            },
            None => None,
        }
    }
}

/// The first description that the lines from `i` on give.
pub open spec fn help_description_from(
    name: Seq<char>,
    list: Seq<Seq<char>>,
    i: int,
) -> Option<Seq<char>>
    decreases list.len() - i,
{
    if i < 0 || i >= list.len() {
        None
    } else {
        match help_line(name, list[i]) {
            Some(text) => Some(text),
            None => help_description_from(name, list, i + 1),
        }
    }
}

/// The description of a command in its help text.
pub open spec fn help_description(name: Seq<char>, output: Seq<char>) -> Option<Seq<char>> {
    help_description_from(name, help::clean_texts(output), 0)
}

fn is_headed_by(line: &[char], heading: &str) -> (b: bool)
    ensures
        b == heads(line@, heading@),
{
    let mut marked = chars_of(heading);
    marked.push(':');
    same_as(line, heading) || begins_with(line, marked.as_slice())
}

fn begins_with_two(line: &[char], name: &[char], more: &str) -> (b: bool)
    ensures
        b == text::starts_with(line@, name@ + more@),
{
    let mut both: Vec<char> = Vec::new();
    extend(&mut both, name);
    extend(&mut both, chars_of(more).as_slice());
    assert(both@ =~= name@ + more@);
    begins_with(line, both.as_slice())
}

fn read_help_line(name: &[char], line: &[char]) -> (r: Option<Vec<char>>)
    ensures
        match r {
            Some(t) => help_line(name@, line@) == Some(t@),
            None => help_line(name@, line@) is None,
        },
{
    let small = lowered(line);
    let low = small.as_slice();
    if is_headed_by(low, "usage") || is_headed_by(low, "options") || is_headed_by(low, "commands")
        || is_headed_by(low, "arguments") || is_headed_by(low, "available commands")
        || is_headed_by(low, "flags") || is_headed_by(low, "examples") {
        return None;
    }
    if begins_with_two(low, name, " [") || begins_with_two(low, name, " <") {
        return None;
    }
    if has_text(low, "error:") || has_text(low, "warning:") || has_text(low, "failed") || has_text(
        low,
        "couldn't",
    ) || has_text(low, "unrecognized option") || has_text(low, "unknown option") {
        return None;
    }
    if line.len() > 0 && (line[0] == '-' || line[0] == '[') {
        return None;
    }
    match sanitize_description(line) {
        Some(text) => {
            let list = word_pieces(text.as_slice(), Class::Whitespace);
            assert(text::pieces(list@).len() == list@.len());
            if list.len() >= 2 {
                Some(text)
            } else {
                None
            }
        },
        None => None,
    }
}

/// Finds the description of a command in its help text.
pub fn parse_help_description(name: &str, output: &str) -> (r: Option<String>)
    ensures
        match r {
            Some(t) => help_description(name@, output@) == Some(t@),
            None => help_description(name@, output@) is None,
        },
{
    let wanted = chars_of(name);
    let list = cleaned(chars_of(output).as_slice());
    let ghost all = help::texts(list@);
    let mut i: usize = 0;
    while i < list.len()
        invariant
            i <= list@.len(),
            wanted@ == name@,
            all == help::texts(list@),
            all == help::clean_texts(output@),
            help_description_from(name@, all, 0) == help_description_from(name@, all, i as int),
        decreases list.len() - i,
    {
        assert(all[i as int] == list@[i as int]@);
        match read_help_line(wanted.as_slice(), list[i].as_slice()) {
            Some(found) => {
                return Some(text_of(found.as_slice()));
            },
            None => {},
        }
        i += 1;
    }
    None
}

// ---------------------------------------------------------------------------
// Laws
// ---------------------------------------------------------------------------

/// A description from a manual page is bounded, not empty and free of control
/// characters.
pub proof fn law_man_description_is_clean(name: Seq<char>, output: Seq<char>)
    ensures
        man_description(name, output) matches Some(t) ==> t.len() > 0 && help::clean_description(t),
{
    lemma_man_from(name, help::clean_texts(output), 0);
}

proof fn lemma_man_from(name: Seq<char>, list: Seq<Seq<char>>, i: int)
    ensures
        man_description_from(name, list, i) matches Some(t) ==> t.len() > 0 && help::clean_description(t),
    decreases list.len() - i,
{
    if 0 <= i < list.len() {
        let line = list[i];
        let rest = line.skip(name.len() as int);
        help::law_sanitized_is_clean(
            text::trim_start(text::trim_start(rest, Class::Whitespace), Class::Only('-')),
        );
        match text::find_text(line, " - "@) {
            Some(n) => {
                help::law_sanitized_is_clean(line.skip(n + " - "@.len()));
            },
            None => {},
        }
        lemma_man_from(name, list, i + 1);
    }
}

/// A description from a help text is bounded, not empty and free of control
/// characters.
pub proof fn law_help_description_is_clean(name: Seq<char>, output: Seq<char>)
    ensures
        help_description(name, output) matches Some(t) ==> t.len() > 0 && help::clean_description(t),
{
    lemma_help_from(name, help::clean_texts(output), 0);
}

proof fn lemma_help_from(name: Seq<char>, list: Seq<Seq<char>>, i: int)
    ensures
        help_description_from(name, list, i) matches Some(t) ==> t.len() > 0
            && help::clean_description(t),
    decreases list.len() - i,
{
    if 0 <= i < list.len() {
        help::law_sanitized_is_clean(list[i]);
        lemma_help_from(name, list, i + 1);
    }
}

} // verus!

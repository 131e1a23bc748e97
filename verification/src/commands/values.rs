//! Option values that a manual page or a help text documents.
use vstd::prelude::*;
use vstd::slice::slice_subrange;
use crate::commands::help;
use crate::commands::listing;
use crate::commands::options;
use crate::commands::subcommands;
use crate::text;
use crate::commands::help::{
    clean_line, copied, indent_of, is_options_heading, is_section_heading, line_is_unsafe,
    parse_option_declaration, sanitize_description, valid_value, Described, MAX_OPTION_COUNT,
    MAX_VALUE_COUNT,
};
use crate::commands::options::{find_entry, Entry};
use crate::commands::subcommands::find_column;
use crate::text::{
    chars_of, find_chars, from_index, has_some, line_pieces, lowered, same_chars, span_end,
    split_pieces, text_of, trimmed, trimmed_start, up_to, Class,
};

verus! {

/// An option with the values that it may take.
pub struct Choices {
    pub option: Seq<char>,
    pub values: Seq<Described>,
}

/// A value without the quotation marks around it.
pub open spec fn bare_value(s: Seq<char>) -> Seq<char> {
    text::trim(text::trim(s, Class::Whitespace), Class::QuoteMark)
}

/// The valid values of a list, at most as many as an option may have.
pub open spec fn listed_values(list: Seq<char>, separator: char) -> Seq<Described> {
    let all = text::split_on(list, separator).filter_map(
        |s: Seq<char>|
            if help::option_value(bare_value(s)) {
                Some(Described { name: bare_value(s), description: Seq::empty() })
            } else {
                None
            },
    );
    if all.len() > MAX_VALUE_COUNT {
        all.take(MAX_VALUE_COUNT as int)
    } else {
        all
    }
}

/// The list between the first `open` and the next `close`, if it holds a
/// separator.
pub open spec fn bracketed_list(
    syntax: Seq<char>,
    open: char,
    close: char,
    separator: char,
) -> Option<Seq<char>> {
    let start = text::span(syntax, Class::Only(open), false) as int;
    let rest = syntax.skip(start + 1);
    let n = text::span(rest, Class::Only(close), false) as int;
    if start < syntax.len() && n < rest.len() && text::some_in(rest.take(n), Class::Only(separator)) {
        Some(rest.take(n))
    } else {
        None
    }
}

/// Where the words that announce a list of values end.
pub open spec fn announcement_end(line: Seq<char>) -> Option<int> {
    match text::find_text(text::lower(line), "possible values:"@) {
        Some(i) => Some(i + "possible values:"@.len()),
        None => match text::find_text(text::lower(line), "possible value:"@) {
            Some(i) => Some(i + "possible value:"@.len()),
            None => None,
        },
    }
}

/// What is left of an announced list without the brackets around it.
pub open spec fn announced_list(line: Seq<char>, from: int) -> Seq<char> {
    text::trim(
        text::trim(text::trim(line.skip(from), Class::Whitespace), Class::ListBracket),
        Class::Whitespace,
    )
}

/// The values that a line documents, and whether a list of them follows: an
/// announced list, or alternatives in the option's own syntax.
pub open spec fn line_values(line: Seq<char>) -> (Seq<Described>, bool) {
    match announcement_end(line) {
        Some(end) => {
            let list = announced_list(line, end);
            if list.len() == 0 {
                (Seq::empty(), true)
            } else {
                (listed_values(list, ','), false)
            }
        },
        None => {
            let syntax = line.take(subcommands::column_end(line, 0));
            match bracketed_list(syntax, '{', '}', ',') {
                Some(list) => (listed_values(list, ','), false),
                None => match bracketed_list(syntax, '[', ']', '|') {
                    Some(list) => (listed_values(list, '|'), false),
                    None => match bracketed_list(syntax, '<', '>', '|') {
                        Some(list) => (listed_values(list, '|'), false),
                        None => (Seq::empty(), false),
                    },
                },
            }
        },
    }
}

/// The value that a line of a list documents.
pub open spec fn bullet_value(line: Seq<char>) -> Option<Described> {
    let rest = text::trim_start(line.skip(1), Class::Whitespace);
    let (value, description) = match text::split_once(rest, ':') {
        Some((value, description)) => (
            text::trim(value, Class::Whitespace),
            text::trim(description, Class::Whitespace),
        ),
        None => (rest, Seq::empty()),
    };
    let name = text::trim(value, Class::QuoteMark);
    if line.len() > 0 && line[0] == '-' && help::option_value(name) {
        Some(
            Described {
                name,
                description: match help::sanitize(description) {
                    Some(text) => text,
                    None => Seq::empty(),
                },
            },
        )
    } else {
        None
    }
}

/// Adds values in order, as long as there is room. A known one gains the
/// description it lacked.
pub open spec fn add_values(list: Seq<Described>, values: Seq<Described>) -> Seq<Described>
    decreases values.len(),
{
    if values.len() == 0 {
        list
    } else {
        let before = add_values(list, values.drop_last());
        let n = options::position_of(before, values.last().name) as int;
        if before.len() >= MAX_VALUE_COUNT {
            before
        } else if n < before.len() {
            if before[n].description.len() == 0 {
                before.update(n, values.last())
            } else {
                before
            }
        } else {
            before.push(values.last())
        }
    }
}

/// The position of an option; the number of options when it is not there.
pub open spec fn option_position(entries: Seq<Choices>, option: Seq<char>) -> nat
    decreases entries.len(),
{
    if entries.len() == 0 || entries[0].option == option {
        0
    } else {
        1 + option_position(entries.drop_first(), option)
    }
}

/// Adds values to every option of a declaration.
pub open spec fn add_choices(
    entries: Seq<Choices>,
    options: Seq<Seq<char>>,
    values: Seq<Described>,
) -> Seq<Choices>
    decreases options.len(),
{
    if options.len() == 0 || values.len() == 0 {
        entries
    } else {
        let before = add_choices(entries, options.drop_last(), values);
        let n = option_position(before, options.last()) as int;
        if n < before.len() {
            before.update(
                n,
                Choices { option: options.last(), values: add_values(before[n].values, values) },
            )
        } else {
            before.push(
                Choices { option: options.last(), values: add_values(Seq::empty(), values) },
            )
        }
    }
}

/// What the value parser has read.
pub struct ValueScan {
    pub entries: Seq<Choices>,
    pub inside: bool,
    pub closed: bool,
    pub section_indent: nat,
    pub declared_indent: nat,
    /// The spellings that the last declaration declared.
    pub current: Seq<Seq<char>>,
    /// A list of values has been announced.
    pub collecting: bool,
}

/// Reads one more line.
pub open spec fn scan_value_line(scan: ValueScan, raw: Seq<char>) -> ValueScan {
    let settled = ValueScan { collecting: false, ..scan };
    match help::clean(raw) {
        None => settled,
        Some(line) => {
            let text = text::trim(line, Class::Whitespace);
            let indent = help::indentation(line);
            let (values, follows) = line_values(text);
            if help::options_heading(text) {
                if scan.inside {
                    ValueScan { closed: true, ..scan }
                } else {
                    ValueScan {
                        inside: true,
                        section_indent: indent,
                        current: Seq::empty(),
                        ..scan
                    }
                }
            } else if !scan.inside {
                scan
            } else if indent <= scan.section_indent && help::section_heading(text) {
                ValueScan { closed: true, ..scan }
            } else if help::unsafe_line(raw) {
                ValueScan { current: Seq::empty(), ..settled }
            } else if help::declaration(text) is Some {
                let d = help::declaration(text)->Some_0;
                ValueScan {
                    entries: add_choices(scan.entries, d.spellings, values),
                    declared_indent: indent,
                    current: d.spellings,
                    collecting: follows,
                    ..scan
                }
            } else if scan.current.len() == 0 || indent <= scan.declared_indent {
                settled
            } else if values.len() > 0 || follows {
                ValueScan {
                    entries: add_choices(scan.entries, scan.current, values),
                    collecting: follows,
                    ..scan
                }
            } else if scan.collecting {
                match bullet_value(text) {
                    Some(value) => ValueScan {
                        entries: add_choices(scan.entries, scan.current, seq![value]),
                        ..scan
                    },
                    None => settled,
                }
            } else {
                scan
            }
        },
    }
}

/// What the value parser has read after some lines; a closed list stays as it
/// is.
pub open spec fn scan_values(list: Seq<Seq<char>>) -> ValueScan
    decreases list.len(),
{
    if list.len() == 0 {
        ValueScan {
            entries: Seq::empty(),
            inside: false,
            closed: false,
            section_indent: 0,
            declared_indent: 0,
            current: Seq::empty(),
            collecting: false,
        }
    } else {
        let before = scan_values(list.drop_last());
        if before.closed {
            before
        } else {
            scan_value_line(before, list.last())
        }
    }
}

/// The option values that a text documents.
pub open spec fn documented_choices(output: Seq<char>) -> Seq<Choices> {
    scan_values(text::lines(output)).entries
}

// ---------------------------------------------------------------------------
// Laws
// ---------------------------------------------------------------------------

/// Values fit to be offered: some, but few, distinct, strict ASCII and
/// described without control characters.
pub open spec fn sound_values(values: Seq<Described>) -> bool {
    &&& 0 < values.len() <= MAX_VALUE_COUNT
    &&& options::distinct_names(values)
    &&& options::clean_descriptions(values)
    &&& forall|i: int| 0 <= i < values.len() ==> help::option_value((#[trigger] values[i]).name)
}

/// Choices fit to be offered: distinct options, spelled strictly, with values
/// fit to be offered.
pub open spec fn sound_choices(entries: Seq<Choices>) -> bool {
    &&& forall|i: int, j: int|
        0 <= i < j < entries.len() ==> (#[trigger] entries[i]).option != (
        #[trigger] entries[j]).option
    &&& forall|i: int|
        0 <= i < entries.len() ==> help::option_spelling((#[trigger] entries[i]).option)
            && sound_values(entries[i].values)
}

/// Values that may be added.
spec fn admissible(values: Seq<Described>) -> bool {
    forall|i: int|
        0 <= i < values.len() ==> help::option_value((#[trigger] values[i]).name) && help::clean_description(
            values[i].description,
        )
}

pub proof fn lemma_option_position(entries: Seq<Choices>, option: Seq<char>)
    ensures
        0 <= option_position(entries, option) <= entries.len(),
        forall|i: int|
            0 <= i < option_position(entries, option) ==> (#[trigger] entries[i]).option != option,
        option_position(entries, option) < entries.len() ==> entries[option_position(
            entries,
            option,
        ) as int].option == option,
    decreases entries.len(),
{
    if entries.len() > 0 && entries[0].option != option {
        let rest = entries.drop_first();
        lemma_option_position(rest, option);
        assert forall|i: int| 0 <= i < option_position(entries, option) implies (
        #[trigger] entries[i]).option != option by {
            if i > 0 {
                assert(entries[i] == rest[i - 1]);
            }
        }
    }
}

proof fn lemma_option_position_is(entries: Seq<Choices>, option: Seq<char>, n: nat)
    requires
        n <= entries.len(),
        forall|i: int| 0 <= i < n ==> (#[trigger] entries[i]).option != option,
        n < entries.len() ==> entries[n as int].option == option,
    ensures
        option_position(entries, option) == n,
{
    lemma_option_position(entries, option);
    let m = option_position(entries, option);
    if m < n {
        assert(entries[m as int].option != option);
    } else if n < m {
        assert(entries[n as int].option != option);
    }
}

proof fn lemma_listed_values(list: Seq<char>, separator: char)
    ensures
        admissible(listed_values(list, separator)),
        listed_values(list, separator).len() <= MAX_VALUE_COUNT,
{
    let parts = text::split_on(list, separator);
    let pick = |s: Seq<char>|
        if help::option_value(bare_value(s)) {
            Some(Described { name: bare_value(s), description: Seq::empty() })
        } else {
            None
        };
    let all = parts.filter_map(pick);
    assert forall|i: int| 0 <= i < all.len() implies help::option_value((#[trigger] all[i]).name)
        && help::clean_description(all[i].description) by {
        assert(all.contains(all[i]));
        parts.lemma_filter_map_contains(pick, all[i]);
    }
}

proof fn lemma_line_values(line: Seq<char>)
    ensures
        admissible(line_values(line).0),
{
    match announcement_end(line) {
        Some(end) => {
            lemma_listed_values(announced_list(line, end), ',');
        },
        None => {
            let syntax = line.take(subcommands::column_end(line, 0));
            match bracketed_list(syntax, '{', '}', ',') {
                Some(list) => {
                    lemma_listed_values(list, ',');
                },
                None => match bracketed_list(syntax, '[', ']', '|') {
                    Some(list) => {
                        lemma_listed_values(list, '|');
                    },
                    None => match bracketed_list(syntax, '<', '>', '|') {
                        Some(list) => {
                            lemma_listed_values(list, '|');
                        },
                        None => {},
                    },
                },
            }
        },
    }
}

proof fn lemma_add_values(list: Seq<Described>, values: Seq<Described>)
    requires
        list.len() == 0 || sound_values(list),
        admissible(values),
        values.len() > 0 || list.len() > 0,
    ensures
        sound_values(add_values(list, values)),
    decreases values.len(),
{
    if values.len() > 0 {
        let rest = values.drop_last();
        let before = add_values(list, rest);
        assert(admissible(rest)) by {
            assert forall|i: int| 0 <= i < rest.len() implies help::option_value(
                (#[trigger] rest[i]).name,
            ) && help::clean_description(rest[i].description) by {
                assert(rest[i] == values[i]);
            }
        }
        if rest.len() > 0 || list.len() > 0 {
            lemma_add_values(list, rest);
        }
        assert(values.last() == values[values.len() - 1]);
        let name = values.last().name;
        options::lemma_position_of(before, name);
        let after = add_values(list, values);
        assert forall|i: int, j: int| 0 <= i < j < after.len() implies (#[trigger] after[i]).name
            != (#[trigger] after[j]).name by {
            assert(after[i].name == before[i].name);
            if j < before.len() {
                assert(after[j].name == before[j].name);
            }
        }
        assert forall|i: int| 0 <= i < after.len() implies help::option_value((#[trigger] after[i]).name)
            && help::clean_description(after[i].description) by {
            if i < before.len() {
                assert(help::clean_description(before[i].description) && help::option_value(before[i].name));
            }
        }
    }
}

proof fn lemma_add_choices(
    entries: Seq<Choices>,
    options: Seq<Seq<char>>,
    values: Seq<Described>,
)
    requires
        sound_choices(entries),
        admissible(values),
        forall|i: int| 0 <= i < options.len() ==> help::option_spelling(#[trigger] options[i]),
    ensures
        sound_choices(add_choices(entries, options, values)),
    decreases options.len(),
{
    if options.len() > 0 && values.len() > 0 {
        let rest = options.drop_last();
        lemma_add_choices(entries, rest, values);
        let before = add_choices(entries, rest, values);
        let option = options.last();
        lemma_option_position(before, option);
        let n = option_position(before, option) as int;
        let after = add_choices(entries, options, values);
        if n < before.len() {
            lemma_add_values(before[n].values, values);
        } else {
            lemma_add_values(Seq::empty(), values);
        }
        assert forall|i: int, j: int| 0 <= i < j < after.len() implies (
        #[trigger] after[i]).option != (#[trigger] after[j]).option by {
            assert(after[i].option == before[i].option);
            if j < before.len() {
                assert(after[j].option == before[j].option);
            }
        }
        assert forall|i: int| 0 <= i < after.len() implies help::option_spelling(
            (#[trigger] after[i]).option,
        ) && sound_values(after[i].values) by {
            if i < before.len() {
                assert(help::option_spelling(before[i].option) && sound_values(before[i].values));
            }
        }
    }
}

proof fn lemma_scan_values(list: Seq<Seq<char>>)
    ensures
        sound_choices(scan_values(list).entries),
        forall|i: int|
            0 <= i < scan_values(list).current.len() ==> help::option_spelling(
                #[trigger] scan_values(list).current[i],
            ),
    decreases list.len(),
{
    if list.len() > 0 {
        lemma_scan_values(list.drop_last());
        let before = scan_values(list.drop_last());
        if !before.closed {
            match help::clean(list.last()) {
                None => {},
                Some(line) => {
                    let text = text::trim(line, Class::Whitespace);
                    let values = line_values(text).0;
                    lemma_line_values(text);
                    help::law_declaration(text);
                    lemma_add_choices(before.entries, before.current, values);
                    match help::declaration(text) {
                        Some(d) => {
                            lemma_add_choices(before.entries, d.spellings, values);
                        },
                        None => {},
                    }
                    match bullet_value(text) {
                        Some(value) => {
                            let rest = text::trim_start(text.skip(1), Class::Whitespace);
                            match text::split_once(rest, ':') {
                                Some((_, description)) => {
                                    help::law_sanitized_is_clean(text::trim(description, Class::Whitespace));
                                },
                                None => {
                                    help::law_sanitized_is_clean(Seq::empty());
                                },
                            }
                            lemma_add_choices(before.entries, before.current, seq![value]);
                        },
                        None => {},
                    }
                },
            }
        }
    }
}

/// Whatever a text holds, the values read from it belong to distinct, strictly
/// spelled options, and are few, distinct, strict ASCII and described without
/// control characters.
pub proof fn law_documented_choices(output: Seq<char>)
    ensures
        sound_choices(documented_choices(output)),
{
    lemma_scan_values(text::lines(output));
}

/// Every option of some choices is listed.
pub open spec fn all_listed(entries: Seq<Choices>, options: Seq<Described>) -> bool {
    forall|i: int|
        0 <= i < entries.len() ==> listing::has_name(options, (#[trigger] entries[i]).option)
}

proof fn lemma_choices_stay_listed(
    entries: Seq<Choices>,
    options: Seq<Seq<char>>,
    values: Seq<Described>,
    known: Seq<Described>,
)
    requires
        all_listed(entries, known),
        forall|i: int| 0 <= i < options.len() ==> listing::has_name(known, #[trigger] options[i]),
    ensures
        all_listed(add_choices(entries, options, values), known),
    decreases options.len(),
{
    if options.len() > 0 && values.len() > 0 {
        let rest = options.drop_last();
        lemma_choices_stay_listed(entries, rest, values, known);
        let before = add_choices(entries, rest, values);
        let after = add_choices(entries, options, values);
        assert(options.last() == options[options.len() - 1]);
        lemma_option_position(before, options.last());
        assert forall|i: int| 0 <= i < after.len() implies listing::has_name(
            known,
            (#[trigger] after[i]).option,
        ) by {
            if i < before.len() {
                assert(after[i].option == before[i].option);
            }
        }
    }
}

proof fn lemma_in_step(list: Seq<Seq<char>>)
    ensures
        ({
            let listed = options::scan_options(list);
            let read = scan_values(list);
            &&& listed.inside == read.inside
            &&& listed.closed == read.closed
            &&& listed.section_indent == read.section_indent
            &&& listed.entries.len() < MAX_OPTION_COUNT ==> {
                &&& all_listed(read.entries, listed.entries)
                &&& forall|i: int|
                    0 <= i < read.current.len() ==> listing::has_name(
                        listed.entries,
                        #[trigger] read.current[i],
                    )
            }
        }),
    decreases list.len(),
{
    if list.len() > 0 {
        lemma_in_step(list.drop_last());
        options::lemma_listed_stays(list);
        let listed = options::scan_options(list.drop_last());
        let read = scan_values(list.drop_last());
        let known = options::scan_options(list).entries;
        if !read.closed {
            match help::clean(list.last()) {
                None => {},
                Some(line) => {
                    let text = text::trim(line, Class::Whitespace);
                    let values = line_values(text).0;
                    if let Some(d) = help::declaration(text) {
                        options::lemma_spellings_are_listed(
                            options::OptionScan {
                                declared_indent: help::indentation(line),
                                continuing: Seq::empty(),
                                ..listed
                            },
                            d.spellings,
                            d.description,
                        );
                    }
                    if known.len() < MAX_OPTION_COUNT {
                        assert(all_listed(read.entries, known));
                        lemma_choices_stay_listed(read.entries, read.current, values, known);
                        if let Some(value) = bullet_value(text) {
                            lemma_choices_stay_listed(
                                read.entries,
                                read.current,
                                seq![value],
                                known,
                            );
                        }
                        if help::declaration(text) is Some {
                            let spellings = help::declaration(text)->Some_0.spellings;
                            if scan_values(list).current == spellings && read.inside
                                && !help::options_heading(text) {
                                lemma_choices_stay_listed(read.entries, spellings, values, known);
                            }
                        }
                    }
                },
            }
        }
    }
}

/// Values are attached only to an option that is offered itself, as long as
/// the list of options is not full.
pub proof fn law_values_belong_to_listed_options(output: Seq<char>)
    requires
        options::documented_options(output).len() < MAX_OPTION_COUNT,
    ensures
        all_listed(documented_choices(output), options::documented_options(output)),
{
    lemma_in_step(text::lines(output));
}

/// A text in which no line opens a list of options documents no values.
pub proof fn law_no_heading_no_values(output: Seq<char>)
    requires
        forall|i: int|
            0 <= i < text::lines(output).len() ==> (help::clean(#[trigger] text::lines(output)[i]) matches Some(line)
                ==> !help::options_heading(text::trim(line, Class::Whitespace))),
    ensures
        documented_choices(output) == Seq::<Choices>::empty(),
{
    options::law_no_heading_no_options(output);
    law_values_belong_to_listed_options(output);
    let read = documented_choices(output);
    if read.len() > 0 {
        assert(listing::has_name(options::documented_options(output), read[0].option));
    }
    assert(read =~= Seq::<Choices>::empty());
}

// ---------------------------------------------------------------------------
// The parser
// ---------------------------------------------------------------------------

/// A value as the library offers it.
#[derive(Debug, PartialEq, Eq)]
pub struct ValueMatch {
    pub value: String,
    pub description: String,
}

impl Clone for ValueMatch {
    fn clone(&self) -> (r: Self)
        ensures
            r == *self,
    {
        ValueMatch { value: self.value.clone(), description: self.description.clone() }
    }
}

impl DeepView for ValueMatch {
    type V = Described;

    open spec fn deep_view(&self) -> Described {
        Described { name: self.value@, description: self.description@ }
    }
}

/// An option with the values that it may take.
#[derive(Debug, PartialEq, Eq)]
pub struct OptionValues {
    pub option: String,
    pub values: Vec<ValueMatch>,
}

impl Clone for OptionValues {
    fn clone(&self) -> (r: Self)
        ensures
            r.deep_view() == self.deep_view(),
    {
        let values = self.values.clone();
        assert(values@ == self.values@);
        OptionValues { option: self.option.clone(), values }
    }
}

impl DeepView for OptionValues {
    type V = Choices;

    open spec fn deep_view(&self) -> Choices {
        Choices { option: self.option@, values: self.values.deep_view() }
    }
}

/// An option with its values while a text is read.
struct Choice {
    option: Vec<char>,
    values: Vec<Entry>,
}

impl DeepView for Choice {
    type V = Choices;

    closed spec fn deep_view(&self) -> Choices {
        Choices { option: self.option@, values: self.values.deep_view() }
    }
}

fn parse_value_list(list: &[char], separator: char) -> (r: Vec<Entry>)
    ensures
        r.deep_view() == listed_values(list@, separator),
{
    let parts = split_pieces(list, separator);
    let ghost all = text::pieces(parts@);
    let ghost pick = |s: Seq<char>|
        if help::option_value(bare_value(s)) {
            Some(Described { name: bare_value(s), description: Seq::empty() })
        } else {
            None
        };
    let mut out: Vec<Entry> = Vec::new();
    let mut i: usize = 0;
    proof {
        assert(all.take(0) =~= Seq::<Seq<char>>::empty());
        reveal(Seq::filter_map);
        assert(out.deep_view() =~= all.take(0).filter_map(pick));
    }
    while i < parts.len()
        invariant
            i <= parts@.len(),
            all == text::pieces(parts@),
            pick == (|s: Seq<char>|
                if help::option_value(bare_value(s)) {
                    Some(Described { name: bare_value(s), description: Seq::empty() })
                } else {
                    None
                }),
            out.deep_view() == all.take(i as int).filter_map(pick),
        decreases parts.len() - i,
    {
        let ghost before = out.deep_view();
        let value = trimmed(trimmed(parts[i], Class::Whitespace), Class::QuoteMark);
        proof {
            all.lemma_filter_map_take_succ(pick, i as int);
            assert(all[i as int] == parts@[i as int]@);
        }
        if valid_value(value) {
            out.push(Entry { name: copied(value), description: Vec::new() });
            assert(out.deep_view() =~= before.push(
                Described { name: value@, description: Seq::empty() },
            ));
        }
        assert(out.deep_view() =~= all.take(i + 1).filter_map(pick));
        i += 1;
    }
    assert(all.take(all.len() as int) =~= all);
    let ghost whole = out.deep_view();
    if out.len() > MAX_VALUE_COUNT {
        out.truncate(MAX_VALUE_COUNT);
        assert(out.deep_view() =~= whole.take(MAX_VALUE_COUNT as int));
    }
    out
}

fn find_list<'a>(syntax: &'a [char], open: char, close: char, separator: char) -> (r: Option<
    &'a [char],
>)
    ensures
        match r {
            Some(list) => bracketed_list(syntax@, open, close, separator) == Some(list@),
            None => bracketed_list(syntax@, open, close, separator) is None,
        },
{
    assert(syntax@.skip(0) =~= syntax@);
    let start: usize = span_end(syntax, 0, Class::Only(open), false);
    if start >= syntax.len() {
        return None;
    }
    let end: usize = span_end(syntax, start + 1, Class::Only(close), false);
    if end >= syntax.len() {
        return None;
    }
    let list = slice_subrange(syntax, start + 1, end);
    assert(list@ =~= syntax@.skip(start + 1).take(end - start - 1));
    if has_some(list, Class::Only(separator)) {
        Some(list)
    } else {
        None
    }
}

fn find_announcement(line: &[char]) -> (r: Option<usize>)
    ensures
        match r {
            Some(end) => announcement_end(line@) == Some(end as int) && end <= line@.len(),
            None => announcement_end(line@) is None,
        },
{
    let low = lowered(line);
    let plural = chars_of("possible values:");
    let singular = chars_of("possible value:");
    proof {
        text::lemma_find_from(low@, plural@, 0);
        text::lemma_find_from(low@, singular@, 0);
    }
    match find_chars(low.as_slice(), plural.as_slice(), 0) {
        Some(i) => {
            assert(i + plural@.len() <= low.len());
            Some(i + plural.len())
        },
        None => match find_chars(low.as_slice(), singular.as_slice(), 0) {
            Some(i) => {
                assert(i + singular@.len() <= low.len());
                Some(i + singular.len())
            },
            None => None,
        },
    }
}

/// Reads the values that a line documents.
fn documented_values(line: &[char]) -> (r: (Vec<Entry>, bool))
    ensures
        (r.0.deep_view(), r.1) == line_values(line@),
{
    match find_announcement(line) {
        Some(end) => {
            let list = trimmed(
                trimmed(trimmed(from_index(line, end), Class::Whitespace), Class::ListBracket),
                Class::Whitespace,
            );
            if list.len() == 0 {
                let none: Vec<Entry> = Vec::new();
                assert(none.deep_view() =~= Seq::<Described>::empty());
                return (none, true);
            }
            return (parse_value_list(list, ','), false);
        },
        None => {},
    }
    let syntax = up_to(line, find_column(line));
    match find_list(syntax, '{', '}', ',') {
        Some(list) => {
            return (parse_value_list(list, ','), false);
        },
        None => {},
    }
    match find_list(syntax, '[', ']', '|') {
        Some(list) => {
            return (parse_value_list(list, '|'), false);
        },
        None => {},
    }
    match find_list(syntax, '<', '>', '|') {
        Some(list) => {
            return (parse_value_list(list, '|'), false);
        },
        None => {},
    }
    let none: Vec<Entry> = Vec::new();
    assert(none.deep_view() =~= Seq::<Described>::empty());
    (none, false)
}

/// Reads the value that a line of a list documents.
fn documented_value_bullet(line: &[char]) -> (r: Option<Entry>)
    ensures
        match r {
            Some(e) => bullet_value(line@) == Some(e.deep_view()),
            None => bullet_value(line@) is None,
        },
{
    if line.len() == 0 || line[0] != '-' {
        return None;
    }
    let rest = trimmed_start(from_index(line, 1), Class::Whitespace);
    assert(rest@.skip(0) =~= rest@);
    let colon: usize = span_end(rest, 0, Class::Only(':'), false);
    let (value, description) = if colon >= rest.len() {
        (rest, slice_subrange(rest, 0, 0))
    } else {
        (
            trimmed(up_to(rest, colon), Class::Whitespace),
            trimmed(from_index(rest, colon + 1), Class::Whitespace),
        )
    };
    assert(colon >= rest@.len() ==> description@ =~= Seq::<char>::empty());
    let name = trimmed(value, Class::QuoteMark);
    if !valid_value(name) {
        return None;
    }
    let described = match sanitize_description(description) {
        Some(text) => text,
        None => Vec::new(),
    };
    assert(help::sanitize(description@) is None ==> described@ =~= Seq::<char>::empty());
    Some(Entry { name: copied(name), description: described })
}

fn add_value(list: &mut Vec<Entry>, value: &Entry)
    ensures
        ({
            let before = old(list).deep_view();
            let v = value.deep_view();
            let n = options::position_of(before, v.name) as int;
            final(list).deep_view() == if before.len() >= MAX_VALUE_COUNT {
                before
            } else if n < before.len() {
                if before[n].description.len() == 0 {
                    before.update(n, v)
                } else {
                    before
                }
            } else {
                before.push(v)
            }
        }),
{
    let ghost before = list.deep_view();
    if list.len() >= MAX_VALUE_COUNT {
        return ;
    }
    let n: usize = find_entry(list, value.name.as_slice());
    let copy = Entry {
        name: copied(value.name.as_slice()),
        description: copied(value.description.as_slice()),
    };
    if n < list.len() {
        if list[n].description.len() == 0 {
            list.set(n, copy);
            assert(list.deep_view() =~= before.update(n as int, value.deep_view()));
        }
    } else {
        list.push(copy);
        assert(list.deep_view() =~= before.push(value.deep_view()));
    }
}

fn add_all_values(list: &mut Vec<Entry>, values: &Vec<Entry>)
    ensures
        final(list).deep_view() == add_values(old(list).deep_view(), values.deep_view()),
{
    let ghost before = list.deep_view();
    let ghost all = values.deep_view();
    let mut i: usize = 0;
    assert(all.take(0) =~= Seq::<Described>::empty());
    while i < values.len()
        invariant
            i <= values@.len(),
            all == values.deep_view(),
            list.deep_view() == add_values(before, all.take(i as int)),
        decreases values.len() - i,
    {
        proof {
            assert(all.take(i + 1).drop_last() =~= all.take(i as int));
            assert(all.take(i + 1).last() == all[i as int]);
        }
        add_value(list, &values[i]);
        i += 1;
    }
    assert(all.take(all.len() as int) =~= all);
}

fn find_option(entries: &Vec<Choice>, option: &[char]) -> (n: usize)
    ensures
        n == option_position(entries.deep_view(), option@),
        n <= entries@.len(),
{
    let mut i: usize = 0;
    while i < entries.len() && !same_chars(entries[i].option.as_slice(), option)
        invariant
            i <= entries@.len(),
            forall|j: int| 0 <= j < i ==> (#[trigger] entries.deep_view()[j]).option != option@,
        decreases entries.len() - i,
    {
        i += 1;
    }
    proof {
        lemma_option_position_is(entries.deep_view(), option@, i as nat);
    }
    i
}

/// Adds values to every option of a declaration.
fn insert_option_values(entries: &mut Vec<Choice>, options: &Vec<Vec<char>>, values: &Vec<Entry>)
    ensures
        final(entries).deep_view() == add_choices(
            old(entries).deep_view(),
            help::texts(options@),
            values.deep_view(),
        ),
{
    if values.len() == 0 {
        return ;
    }
    let ghost before = entries.deep_view();
    let ghost all = help::texts(options@);
    let ghost added = values.deep_view();
    let mut i: usize = 0;
    assert(all.take(0) =~= Seq::<Seq<char>>::empty());
    while i < options.len()
        invariant
            i <= options@.len(),
            all == help::texts(options@),
            added == values.deep_view(),
            added.len() > 0,
            entries.deep_view() == add_choices(before, all.take(i as int), added),
        decreases options.len() - i,
    {
        let ghost now = entries.deep_view();
        proof {
            assert(all.take(i + 1).drop_last() =~= all.take(i as int));
            assert(all.take(i + 1).last() == options@[i as int]@);
            lemma_option_position(now, options@[i as int]@);
        }
        let n: usize = find_option(entries, options[i].as_slice());
        let option = copied(options[i].as_slice());
        if n < entries.len() {
            let mut list: Vec<Entry> = Vec::new();
            let mut j: usize = 0;
            while j < entries[n as usize].values.len()
                invariant
                    n < entries@.len(),
                    j <= entries@[n as int].values@.len(),
                    list.deep_view() == entries@[n as int].values.deep_view().take(j as int),
                decreases entries@[n as int].values.len() - j,
            {
                let ghost so_far = list.deep_view();
                let ghost source = entries@[n as int].values.deep_view();
                list.push(
                    Entry {
                        name: copied(entries[n].values[j].name.as_slice()),
                        description: copied(entries[n].values[j].description.as_slice()),
                    },
                );
                assert(list.deep_view() =~= so_far.push(source[j as int]));
                assert(source.take(j + 1) =~= so_far.push(source[j as int]));
                j += 1;
            }
            assert(list.deep_view() =~= now[n as int].values);
            add_all_values(&mut list, values);
            entries.set(n, Choice { option, values: list });
            assert(entries.deep_view() =~= now.update(
                n as int,
                Choices {
                    option: options@[i as int]@,
                    values: add_values(now[n as int].values, added),
                },
            ));
        } else {
            let mut list: Vec<Entry> = Vec::new();
            assert(list.deep_view() =~= Seq::<Described>::empty());
            add_all_values(&mut list, values);
            entries.push(Choice { option, values: list });
            assert(entries.deep_view() =~= now.push(
                Choices {
                    option: options@[i as int]@,
                    values: add_values(Seq::empty(), added),
                },
            ));
        }
        i += 1;
    }
    assert(all.take(all.len() as int) =~= all);
}

struct ValueScanner {
    entries: Vec<Choice>,
    inside: bool,
    closed: bool,
    section_indent: usize,
    declared_indent: usize,
    current: Vec<Vec<char>>,
    collecting: bool,
}

impl ValueScanner {
    spec fn scan(&self) -> ValueScan {
        ValueScan {
            entries: self.entries.deep_view(),
            inside: self.inside,
            closed: self.closed,
            section_indent: self.section_indent as nat,
            declared_indent: self.declared_indent as nat,
            current: help::texts(self.current@),
            collecting: self.collecting,
        }
    }

    fn read_line(&mut self, raw: &[char])
        ensures
            final(self).scan() == scan_value_line(old(self).scan(), raw@),
    {
        let line = match clean_line(raw) {
            Some(line) => line,
            None => {
                self.collecting = false;
                return ;
            },
        };
        let text = trimmed(line.as_slice(), Class::Whitespace);
        let indent: usize = indent_of(line.as_slice());
        if is_options_heading(text) {
            if self.inside {
                self.closed = true;
            } else {
                self.inside = true;
                self.section_indent = indent;
                self.current = Vec::new();
                assert(help::texts(self.current@) =~= Seq::<Seq<char>>::empty());
            }
            return ;
        }
        if !self.inside {
            return ;
        }
        if indent <= self.section_indent && is_section_heading(text) {
            self.closed = true;
            return ;
        }
        if line_is_unsafe(raw) {
            self.current = Vec::new();
            self.collecting = false;
            assert(help::texts(self.current@) =~= Seq::<Seq<char>>::empty());
            return ;
        }
        let (values, follows) = documented_values(text);
        match parse_option_declaration(text) {
            Some(declared) => {
                self.current = declared.spellings;
                self.declared_indent = indent;
                insert_option_values(&mut self.entries, &self.current, &values);
                self.collecting = follows;
                return ;
            },
            None => {},
        }
        assert(help::texts(self.current@).len() == self.current@.len());
        if self.current.len() == 0 || indent <= self.declared_indent {
            self.collecting = false;
            return ;
        }
        if values.len() > 0 || follows {
            insert_option_values(&mut self.entries, &self.current, &values);
            self.collecting = follows;
        } else if self.collecting {
            match documented_value_bullet(text) {
                Some(value) => {
                    let mut single: Vec<Entry> = Vec::new();
                    let ghost v = value.deep_view();
                    single.push(value);
                    assert(single.deep_view() =~= seq![v]);
                    insert_option_values(&mut self.entries, &self.current, &single);
                },
                None => {
                    self.collecting = false;
                },
            }
        }
    }
}

fn finished_values(list: &Vec<Entry>) -> (r: Vec<ValueMatch>)
    ensures
        r.deep_view() == list.deep_view(),
{
    let mut out: Vec<ValueMatch> = Vec::new();
    let mut j: usize = 0;
    while j < list.len()
        invariant
            j <= list@.len(),
            out.deep_view() == list.deep_view().take(j as int),
        decreases list.len() - j,
    {
        let ghost before = out.deep_view();
        out.push(
            ValueMatch {
                value: text_of(list[j].name.as_slice()),
                description: text_of(list[j].description.as_slice()),
            },
        );
        assert(out.deep_view() =~= before.push(list.deep_view()[j as int]));
        assert(list.deep_view().take(j + 1) =~= before.push(list.deep_view()[j as int]));
        j += 1;
    }
    assert(list.deep_view().take(list@.len() as int) =~= list.deep_view());
    out
}

/// Parses the option values that a manual page or a help text documents.
pub fn parse_option_values(output: &str) -> (r: Vec<OptionValues>)
    ensures
        r.deep_view() == documented_choices(output@),
{
    let characters = chars_of(output);
    let list = line_pieces(characters.as_slice());
    let ghost all = text::lines(output@);
    let mut scanner = ValueScanner {
        entries: Vec::new(),
        inside: false,
        closed: false,
        section_indent: 0,
        declared_indent: 0,
        current: Vec::new(),
        collecting: false,
    };
    let mut i: usize = 0;
    proof {
        assert(all.take(0) =~= Seq::<Seq<char>>::empty());
        assert(scanner.entries.deep_view() =~= Seq::<Choices>::empty());
        assert(help::texts(scanner.current@) =~= Seq::<Seq<char>>::empty());
    }
    while i < list.len()
        invariant
            i <= list@.len(),
            all == text::pieces(list@),
            scanner.scan() == scan_values(all.take(i as int)),
        decreases list.len() - i,
    {
        proof {
            assert(all.take(i + 1).drop_last() =~= all.take(i as int));
            assert(all.take(i + 1).last() == list@[i as int]@);
        }
        if !scanner.closed {
            scanner.read_line(list[i]);
        }
        i += 1;
    }
    assert(all.take(all.len() as int) =~= all);
    let mut out: Vec<OptionValues> = Vec::new();
    let mut j: usize = 0;
    while j < scanner.entries.len()
        invariant
            j <= scanner.entries@.len(),
            out.deep_view() == scanner.entries.deep_view().take(j as int),
        decreases scanner.entries.len() - j,
    {
        let ghost before = out.deep_view();
        let ghost source = scanner.entries.deep_view();
        out.push(
            OptionValues {
                option: text_of(scanner.entries[j].option.as_slice()),
                values: finished_values(&scanner.entries[j].values),
            },
        );
        assert(out.deep_view() =~= before.push(source[j as int]));
        assert(source.take(j + 1) =~= before.push(source[j as int]));
        j += 1;
    }
    assert(scanner.entries.deep_view().take(scanner.entries@.len() as int)
        =~= scanner.entries.deep_view());
    out
}

} // verus!

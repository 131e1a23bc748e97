//! Subcommands that a manual page or a help text documents.
use vstd::prelude::*;
use crate::commands::help;
use crate::commands::options;
use crate::text;
use crate::commands::help::{
    clean_line, copied, indent_of, is_commands_heading, is_section_heading, line_is_unsafe,
    sanitize_description, valid_subcommand_name, Described, MAX_SUBCOMMAND_COUNT,
};
use crate::commands::options::{find_entry, Entry};
use crate::text::{
    chars_of, from_index, has_some, line_pieces, split_pieces, text_of, trimmed, trimmed_end,
    up_to, Class,
};

verus! {

/// White space starts a new column at `i`: two such characters in a row.
pub open spec fn gap_at(line: Seq<char>, i: int) -> bool {
    0 <= i && i + 1 < line.len() && text::in_class(Class::AsciiWhitespace, line[i]) && text::in_class(
        Class::AsciiWhitespace,
        line[i + 1],
    )
}

/// Where the first column of a line ends; the line's length when it has one
/// column only.
pub open spec fn column_end(line: Seq<char>, from: int) -> int
    decreases line.len() - from,
{
    if from < 0 || from >= line.len() {
        line.len() as int
    } else if gap_at(line, from) {
        from
    } else {
        column_end(line, from + 1)
    }
}

/// Finds the end of the first column.
pub fn find_column(line: &[char]) -> (r: usize)
    ensures
        r == column_end(line@, 0),
        r <= line@.len(),
{
    let mut i: usize = 0;
    while i < line.len()
        invariant
            i <= line@.len(),
            column_end(line@, 0) == column_end(line@, i as int),
        decreases line.len() - i,
    {
        if i + 1 < line.len() && Class::AsciiWhitespace.admits(line[i])
            && Class::AsciiWhitespace.admits(line[i + 1]) {
            assert(gap_at(line@, i as int));
            return i;
        }
        i += 1;
    }
    line.len()
}

/// The names in the first column of a declaration.
pub open spec fn declared_names(column: Seq<char>) -> Seq<Seq<char>> {
    text::split_on(column, ',').filter_map(
        |name: Seq<char>|
            {
                let bare = text::trim_end(text::trim(name, Class::Whitespace), Class::NameMark);
                if help::subcommand_name(bare) {
                    Some(bare)
                } else {
                    None
                }
            },
    )
}

/// The subcommands that a line declares and their description.
pub open spec fn subcommand_declaration(line: Seq<char>) -> Option<(Seq<Seq<char>>, Seq<char>)> {
    let end = column_end(line, 0);
    let names = declared_names(line.take(end));
    if names.len() == 0 || (end == line.len() && text::some_in(line, Class::AsciiWhitespace)) {
        None
    } else {
        Some(
            (
                names,
                match help::sanitize(text::trim(line.skip(end), Class::Whitespace)) {
                    Some(text) => text,
                    None => Seq::empty(),
                },
            ),
        )
    }
}

/// What the subcommand parser has read.
pub struct SubcommandScan {
    pub entries: Seq<Described>,
    pub inside: bool,
    pub section_indent: nat,
    /// The indentation of the section's first declaration.
    pub declared_indent: Option<nat>,
}

/// Adds the names of a declaration in order, as long as there is room.
pub open spec fn add_names(
    entries: Seq<Described>,
    names: Seq<Seq<char>>,
    description: Seq<char>,
) -> Seq<Described>
    decreases names.len(),
{
    if names.len() == 0 {
        entries
    } else {
        let before = add_names(entries, names.drop_last(), description);
        if before.len() >= MAX_SUBCOMMAND_COUNT || options::position_of(before, names.last())
            < before.len() {
            before
        } else {
            before.push(Described { name: names.last(), description })
        }
    }
}

/// Reads one more line.
pub open spec fn scan_subcommand_line(scan: SubcommandScan, raw: Seq<char>) -> SubcommandScan {
    match help::clean(raw) {
        None => scan,
        Some(line) => {
            let text = text::trim(line, Class::Whitespace);
            let indent = help::indentation(line);
            if help::commands_heading(text) {
                SubcommandScan {
                    inside: true,
                    section_indent: indent,
                    declared_indent: None,
                    ..scan
                }
            } else if !scan.inside {
                scan
            } else if indent <= scan.section_indent {
                if help::section_heading(text) {
                    SubcommandScan { inside: false, declared_indent: None, ..scan }
                } else {
                    scan
                }
            } else if help::unsafe_line(raw) || (text.len() > 0 && text[0] == '-') {
                scan
            } else {
                match subcommand_declaration(text) {
                    None => scan,
                    Some((names, description)) => {
                        let expected = match scan.declared_indent {
                            Some(n) => n,
                            None => indent,
                        };
                        SubcommandScan {
                            entries: if indent == expected {
                                add_names(scan.entries, names, description)
                            } else {
                                scan.entries
                            },
                            declared_indent: Some(expected),
                            ..scan
                        }
                    },
                }
            }
        },
    }
}

/// What the subcommand parser has read after some lines.
pub open spec fn scan_subcommands(list: Seq<Seq<char>>) -> SubcommandScan
    decreases list.len(),
{
    if list.len() == 0 {
        SubcommandScan {
            entries: Seq::empty(),
            inside: false,
            section_indent: 0,
            declared_indent: None,
        }
    } else {
        scan_subcommand_line(scan_subcommands(list.drop_last()), list.last())
    }
}

/// The subcommands that a text documents.
pub open spec fn documented_subcommands(output: Seq<char>) -> Seq<Described> {
    scan_subcommands(text::lines(output)).entries
}

/// Subcommands fit to be offered: few, distinct, named strictly and described
/// without control characters.
pub open spec fn sound_subcommands(entries: Seq<Described>) -> bool {
    &&& entries.len() <= MAX_SUBCOMMAND_COUNT
    &&& options::distinct_names(entries)
    &&& options::clean_descriptions(entries)
    &&& forall|i: int| 0 <= i < entries.len() ==> help::subcommand_name((#[trigger] entries[i]).name)
}

proof fn lemma_declared_names(column: Seq<char>)
    ensures
        forall|i: int| 0 <= i < declared_names(column).len() ==> help::subcommand_name(
            #[trigger] declared_names(column)[i],
        ),
{
    let parts = text::split_on(column, ',');
    let pick = |name: Seq<char>|
        {
            let bare = text::trim_end(text::trim(name, Class::Whitespace), Class::NameMark);
            if help::subcommand_name(bare) {
                Some(bare)
            } else {
                None::<Seq<char>>
            }
        };
    assert forall|i: int| 0 <= i < declared_names(column).len() implies help::subcommand_name(
        #[trigger] declared_names(column)[i],
    ) by {
        let name = declared_names(column)[i];
        assert(declared_names(column) == parts.filter_map(pick));
        assert(parts.filter_map(pick).contains(name));
        parts.lemma_filter_map_contains(pick, name);
    }
}

proof fn lemma_add_names(entries: Seq<Described>, names: Seq<Seq<char>>, description: Seq<char>)
    requires
        sound_subcommands(entries),
        help::clean_description(description),
        forall|i: int| 0 <= i < names.len() ==> help::subcommand_name(#[trigger] names[i]),
    ensures
        sound_subcommands(add_names(entries, names, description)),
    decreases names.len(),
{
    if names.len() > 0 {
        lemma_add_names(entries, names.drop_last(), description);
        let before = add_names(entries, names.drop_last(), description);
        options::lemma_position_of(before, names.last());
        let after = add_names(entries, names, description);
        assert forall|i: int, j: int| 0 <= i < j < after.len() implies (#[trigger] after[i]).name
            != (#[trigger] after[j]).name by {
            assert(after[i] == before[i]);
            if j < before.len() {
                assert(after[j] == before[j]);
            }
        }
        assert forall|i: int| 0 <= i < after.len() implies help::subcommand_name(
            (#[trigger] after[i]).name,
        ) && help::clean_description(after[i].description) by {
            if i < before.len() {
                assert(after[i] == before[i]);
            }
        }
    }
}

proof fn lemma_scan_subcommands(list: Seq<Seq<char>>)
    ensures
        sound_subcommands(scan_subcommands(list).entries),
    decreases list.len(),
{
    if list.len() > 0 {
        lemma_scan_subcommands(list.drop_last());
        let before = scan_subcommands(list.drop_last());
        match help::clean(list.last()) {
            None => {},
            Some(line) => {
                let text = text::trim(line, Class::Whitespace);
                let end = column_end(text, 0);
                lemma_declared_names(text.take(end));
                help::law_sanitized_is_clean(text::trim(text.skip(end), Class::Whitespace));
                match subcommand_declaration(text) {
                    None => {},
                    Some((names, description)) => {
                        lemma_add_names(before.entries, names, description);
                    },
                }
            },
        }
    }
}

/// Whatever a text holds, the subcommands read from it are few, distinct,
/// named in strict ASCII and described without control characters.
pub proof fn law_documented_subcommands(output: Seq<char>)
    ensures
        sound_subcommands(documented_subcommands(output)),
{
    lemma_scan_subcommands(text::lines(output));
}

/// A text in which no line opens a list of subcommands documents none.
pub proof fn law_no_heading_no_subcommands(output: Seq<char>)
    requires
        forall|i: int|
            0 <= i < text::lines(output).len() ==> (help::clean(#[trigger] text::lines(output)[i]) matches Some(line)
                ==> !help::commands_heading(text::trim(line, Class::Whitespace))),
    ensures
        documented_subcommands(output) == Seq::<Described>::empty(),
{
    lemma_no_heading(text::lines(output));
}

proof fn lemma_no_heading(list: Seq<Seq<char>>)
    requires
        forall|i: int|
            0 <= i < list.len() ==> (help::clean(#[trigger] list[i]) matches Some(line)
                ==> !help::commands_heading(text::trim(line, Class::Whitespace))),
    ensures
        scan_subcommands(list).entries == Seq::<Described>::empty(),
        !scan_subcommands(list).inside,
    decreases list.len(),
{
    if list.len() > 0 {
        let rest = list.drop_last();
        assert forall|i: int| 0 <= i < rest.len() implies (help::clean(#[trigger] rest[i]) matches Some(
            line,
        ) ==> !help::commands_heading(text::trim(line, Class::Whitespace))) by {
            assert(rest[i] == list[i]);
        }
        lemma_no_heading(rest);
        assert(list.last() == list[list.len() - 1]);
    }
}

/// A subcommand as the library offers it.
#[derive(Debug, PartialEq, Eq)]
pub struct SubcommandMatch {
    pub name: String,
    pub description: String,
}

impl Clone for SubcommandMatch {
    fn clone(&self) -> (r: Self)
        ensures
            r == *self,
    {
        SubcommandMatch { name: self.name.clone(), description: self.description.clone() }
    }
}

impl DeepView for SubcommandMatch {
    type V = Described;

    open spec fn deep_view(&self) -> Described {
        Described { name: self.name@, description: self.description@ }
    }
}

fn read_names(column: &[char]) -> (r: Vec<Vec<char>>)
    ensures
        help::texts(r@) == declared_names(column@),
{
    let parts = split_pieces(column, ',');
    let ghost all = text::pieces(parts@);
    let ghost pick = |name: Seq<char>|
        {
            let bare = text::trim_end(text::trim(name, Class::Whitespace), Class::NameMark);
            if help::subcommand_name(bare) {
                Some(bare)
            } else {
                None::<Seq<char>>
            }
        };
    let mut out: Vec<Vec<char>> = Vec::new();
    let mut i: usize = 0;
    proof {
        assert(all.take(0) =~= Seq::<Seq<char>>::empty());
        reveal(Seq::filter_map);
        assert(help::texts(out@) =~= all.take(0).filter_map(pick));
    }
    while i < parts.len()
        invariant
            i <= parts@.len(),
            all == text::pieces(parts@),
            pick == (|name: Seq<char>|
                {
                    let bare = text::trim_end(text::trim(name, Class::Whitespace), Class::NameMark);
                    if help::subcommand_name(bare) {
                        Some(bare)
                    } else {
                        None::<Seq<char>>
                    }
                }),
            help::texts(out@) == all.take(i as int).filter_map(pick),
        decreases parts.len() - i,
    {
        let ghost before = out@;
        let bare = trimmed_end(trimmed(parts[i], Class::Whitespace), Class::NameMark);
        proof {
            all.lemma_filter_map_take_succ(pick, i as int);
            assert(all[i as int] == parts@[i as int]@);
        }
        if valid_subcommand_name(bare) {
            out.push(copied(bare));
            assert(help::texts(out@) =~= help::texts(before).push(bare@));
        }
        assert(help::texts(out@) =~= all.take(i + 1).filter_map(pick));
        i += 1;
    }
    assert(all.take(all.len() as int) =~= all);
    assert(declared_names(column@) == all.filter_map(pick));
    out
}

/// Parses the subcommands that a line declares.
pub fn parse_subcommand_declaration(line: &[char]) -> (r: Option<(Vec<Vec<char>>, Vec<char>)>)
    ensures
        match r {
            Some(d) => subcommand_declaration(line@) == Some((help::texts(d.0@), d.1@)),
            None => subcommand_declaration(line@) is None,
        },
{
    let end: usize = find_column(line);
    if end == line.len() && has_some(line, Class::AsciiWhitespace) {
        return None;
    }
    let names = read_names(up_to(line, end));
    assert(help::texts(names@).len() == names@.len());
    if names.len() == 0 {
        return None;
    }
    let description = match sanitize_description(trimmed(from_index(line, end), Class::Whitespace)) {
        Some(text) => text,
        None => Vec::new(),
    };
    assert(help::sanitize(text::trim(line@.skip(end as int), Class::Whitespace)) is None ==> description@
        =~= Seq::<char>::empty());
    Some((names, description))
}

struct SubcommandScanner {
    entries: Vec<Entry>,
    inside: bool,
    section_indent: usize,
    declared_indent: Option<usize>,
}

impl SubcommandScanner {
    spec fn scan(&self) -> SubcommandScan {
        SubcommandScan {
            entries: self.entries.deep_view(),
            inside: self.inside,
            section_indent: self.section_indent as nat,
            declared_indent: match self.declared_indent {
                Some(n) => Some(n as nat),
                None => None,
            },
        }
    }

    fn add(&mut self, names: &Vec<Vec<char>>, description: &Vec<char>)
        ensures
            final(self).scan() == (SubcommandScan {
                entries: add_names(old(self).scan().entries, help::texts(names@), description@),
                ..old(self).scan()
            }),
    {
        let ghost before = self.scan();
        let ghost all = help::texts(names@);
        let mut i: usize = 0;
        assert(all.take(0) =~= Seq::<Seq<char>>::empty());
        while i < names.len()
            invariant
                i <= names@.len(),
                all == help::texts(names@),
                self.scan() == (SubcommandScan {
                    entries: add_names(before.entries, all.take(i as int), description@),
                    ..before
                }),
            decreases names.len() - i,
        {
            let ghost now = self.scan();
            proof {
                assert(all.take(i + 1).drop_last() =~= all.take(i as int));
                assert(all.take(i + 1).last() == names@[i as int]@);
            }
            let n: usize = find_entry(&self.entries, names[i].as_slice());
            if self.entries.len() < MAX_SUBCOMMAND_COUNT && n >= self.entries.len() {
                self.entries.push(
                    Entry {
                        name: copied(names[i].as_slice()),
                        description: copied(description.as_slice()),
                    },
                );
                assert(self.entries.deep_view() =~= now.entries.push(
                    Described { name: names@[i as int]@, description: description@ },
                ));
            }
            i += 1;
        }
        assert(all.take(all.len() as int) =~= all);
    }

    fn read_line(&mut self, raw: &[char])
        ensures
            final(self).scan() == scan_subcommand_line(old(self).scan(), raw@),
    {
        let line = match clean_line(raw) {
            Some(line) => line,
            None => {
                return ;
            },
        };
        let text = trimmed(line.as_slice(), Class::Whitespace);
        let indent: usize = indent_of(line.as_slice());
        if is_commands_heading(text) {
            self.inside = true;
            self.section_indent = indent;
            self.declared_indent = None;
            return ;
        }
        if !self.inside {
            return ;
        }
        if indent <= self.section_indent {
            if is_section_heading(text) {
                self.inside = false;
                self.declared_indent = None;
            }
            return ;
        }
        if line_is_unsafe(raw) || (text.len() > 0 && text[0] == '-') {
            return ;
        }
        match parse_subcommand_declaration(text) {
            None => {},
            Some((names, description)) => {
                let expected: usize = match self.declared_indent {
                    Some(n) => n,
                    None => indent,
                };
                self.declared_indent = Some(expected);
                if indent == expected {
                    self.add(&names, &description);
                }
            },
        }
    }
}

/// Parses the subcommands that a manual page or a help text documents.
pub fn parse_subcommands(output: &str) -> (r: Vec<SubcommandMatch>)
    ensures
        r.deep_view() == documented_subcommands(output@),
{
    let characters = chars_of(output);
    let list = line_pieces(characters.as_slice());
    let ghost all = text::lines(output@);
    let mut scanner = SubcommandScanner {
        entries: Vec::new(),
        inside: false,
        section_indent: 0,
        declared_indent: None,
    };
    let mut i: usize = 0;
    proof {
        assert(all.take(0) =~= Seq::<Seq<char>>::empty());
        assert(scanner.entries.deep_view() =~= Seq::<Described>::empty());
    }
    while i < list.len()
        invariant
            i <= list@.len(),
            all == text::pieces(list@),
            scanner.scan() == scan_subcommands(all.take(i as int)),
        decreases list.len() - i,
    {
        proof {
            assert(all.take(i + 1).drop_last() =~= all.take(i as int));
            assert(all.take(i + 1).last() == list@[i as int]@);
        }
        scanner.read_line(list[i]);
        i += 1;
    }
    assert(all.take(all.len() as int) =~= all);
    let mut out: Vec<SubcommandMatch> = Vec::new();
    let mut j: usize = 0;
    while j < scanner.entries.len()
        invariant
            j <= scanner.entries@.len(),
            out.deep_view() == scanner.entries.deep_view().take(j as int),
        decreases scanner.entries.len() - j,
    {
        let ghost before = out.deep_view();
        out.push(
            SubcommandMatch {
                name: text_of(scanner.entries[j].name.as_slice()),
                description: text_of(scanner.entries[j].description.as_slice()),
            },
        );
        assert(out.deep_view() =~= before.push(scanner.entries.deep_view()[j as int]));
        assert(scanner.entries.deep_view().take(j + 1) =~= before.push(
            scanner.entries.deep_view()[j as int],
        ));
        j += 1;
    }
    assert(scanner.entries.deep_view().take(scanner.entries@.len() as int)
        =~= scanner.entries.deep_view());
    out
}

} // verus!

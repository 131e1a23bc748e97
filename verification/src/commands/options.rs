//! Options that a manual page or a help text documents.
use vstd::prelude::*;
use crate::commands::help;
use crate::commands::listing;
use crate::text;
use crate::commands::help::{
    clean_line, copied, indent_of, is_options_heading, is_section_heading, line_is_unsafe,
    parse_option_declaration, sanitize_description, Described, MAX_OPTION_COUNT,
};
use crate::text::{chars_of, extend, line_pieces, same_chars, text_of, trimmed, Class};

verus! {

/// The position of the first entry with a name; the number of entries when
/// there is none.
pub open spec fn position_of(entries: Seq<Described>, name: Seq<char>) -> nat
    decreases entries.len(),
{
    if entries.len() == 0 || entries[0].name == name {
        0
    } else {
        1 + position_of(entries.drop_first(), name)
    }
}

pub proof fn lemma_position_of(entries: Seq<Described>, name: Seq<char>)
    ensures
        0 <= position_of(entries, name) <= entries.len(),
        forall|i: int| 0 <= i < position_of(entries, name) ==> (#[trigger] entries[i]).name != name,
        position_of(entries, name) < entries.len() ==> entries[position_of(
            entries,
            name,
        ) as int].name == name,
    decreases entries.len(),
{
    if entries.len() > 0 && entries[0].name != name {
        let rest = entries.drop_first();
        lemma_position_of(rest, name);
        assert forall|i: int| 0 <= i < position_of(entries, name) implies (
        #[trigger] entries[i]).name != name by {
            if i > 0 {
                assert(entries[i] == rest[i - 1]);
            }
        }
    }
}

pub proof fn lemma_position_is(entries: Seq<Described>, name: Seq<char>, n: nat)
    requires
        n <= entries.len(),
        forall|i: int| 0 <= i < n ==> (#[trigger] entries[i]).name != name,
        n < entries.len() ==> entries[n as int].name == name,
    ensures
        position_of(entries, name) == n,
{
    lemma_position_of(entries, name);
    let m = position_of(entries, name);
    if m < n {
        assert(entries[m as int].name != name);
    } else if n < m {
        assert(entries[n as int].name != name);
    }
}

/// No two entries share a name.
pub open spec fn distinct_names(entries: Seq<Described>) -> bool {
    forall|i: int, j: int|
        0 <= i < j < entries.len() ==> (#[trigger] entries[i]).name != (#[trigger] entries[j]).name
}

/// Every description is fit for display.
pub open spec fn clean_descriptions(entries: Seq<Described>) -> bool {
    forall|i: int| 0 <= i < entries.len() ==> help::clean_description((#[trigger] entries[i]).description)
}

/// What the option parser has read.
pub struct OptionScan {
    pub entries: Seq<Described>,
    /// A heading has opened the list of options.
    pub inside: bool,
    /// Another section has closed it.
    pub closed: bool,
    pub section_indent: nat,
    pub declared_indent: nat,
    /// The entries whose description the next line may continue.
    pub continuing: Seq<int>,
}

pub open spec fn no_options() -> OptionScan {
    OptionScan {
        entries: Seq::empty(),
        inside: false,
        closed: false,
        section_indent: 0,
        declared_indent: 0,
        continuing: Seq::empty(),
    }
}

/// Adds one spelling. A known one gains the description it lacked.
pub open spec fn add_spelling(
    scan: OptionScan,
    spelling: Seq<char>,
    description: Option<Seq<char>>,
) -> OptionScan {
    let n = position_of(scan.entries, spelling) as int;
    let text = match description {
        Some(d) => d,
        None => Seq::empty(),
    };
    if n < scan.entries.len() {
        OptionScan {
            entries: if scan.entries[n].description.len() == 0 {
                scan.entries.update(n, Described { name: spelling, description: text })
            } else {
                scan.entries
            },
            continuing: scan.continuing.push(n),
            ..scan
        }
    } else if scan.entries.len() < MAX_OPTION_COUNT {
        OptionScan {
            entries: scan.entries.push(Described { name: spelling, description: text }),
            continuing: scan.continuing.push(n),
            ..scan
        }
    } else {
        scan
    }
}

/// Adds the spellings of a declaration in order.
pub open spec fn add_spellings(
    scan: OptionScan,
    spellings: Seq<Seq<char>>,
    description: Option<Seq<char>>,
) -> OptionScan
    decreases spellings.len(),
{
    if spellings.len() == 0 {
        scan
    } else {
        add_spelling(
            add_spellings(scan, spellings.drop_last(), description),
            spellings.last(),
            description,
        )
    }
}

/// A description continued by another line.
pub open spec fn continued(description: Seq<char>, more: Seq<char>) -> Seq<char> {
    let combined = if description.len() == 0 { more } else { description + seq![' '] + more };
    match help::sanitize(combined) {
        Some(text) => text,
        None => description,
    }
}

/// Continues the descriptions of the entries at `indexes`.
pub open spec fn continue_entries(
    entries: Seq<Described>,
    indexes: Seq<int>,
    more: Seq<char>,
) -> Seq<Described>
    decreases indexes.len(),
{
    if indexes.len() == 0 {
        entries
    } else {
        let before = continue_entries(entries, indexes.drop_last(), more);
        let n = indexes.last();
        before.update(
            n,
            Described { name: before[n].name, description: continued(before[n].description, more) },
        )
    }
}

/// Reads one more line.
pub open spec fn scan_option_line(scan: OptionScan, raw: Seq<char>) -> OptionScan {
    let idle = OptionScan { continuing: Seq::empty(), ..scan };
    match help::clean(raw) {
        None => idle,
        Some(line) => {
            let text = text::trim(line, Class::Whitespace);
            let indent = help::indentation(line);
            if help::options_heading(text) {
                if scan.inside {
                    OptionScan { closed: true, ..scan }
                } else {
                    OptionScan { inside: true, section_indent: indent, ..idle }
                }
            } else if !scan.inside {
                scan
            } else if indent <= scan.section_indent && help::section_heading(text) {
                OptionScan { closed: true, ..scan }
            } else if !help::unsafe_line(raw) && help::declaration(text) is Some {
                let d = help::declaration(text)->Some_0;
                add_spellings(
                    OptionScan { declared_indent: indent, ..idle },
                    d.spellings,
                    d.description,
                )
            } else if scan.continuing.len() > 0 && indent > scan.declared_indent && text.len() > 0
                && text[0] != '-' && !help::section_heading(text) && help::sanitize(text) is Some {
                OptionScan {
                    entries: continue_entries(
                        scan.entries,
                        scan.continuing,
                        help::sanitize(text)->Some_0,
                    ),
                    ..scan
                }
            } else {
                idle
            }
        },
    }
}

/// What the option parser has read after some lines; a closed list stays as
/// it is.
pub open spec fn scan_options(list: Seq<Seq<char>>) -> OptionScan
    decreases list.len(),
{
    if list.len() == 0 {
        no_options()
    } else {
        let before = scan_options(list.drop_last());
        if before.closed {
            before
        } else {
            scan_option_line(before, list.last())
        }
    }
}

/// The options that a text documents.
pub open spec fn documented_options(output: Seq<char>) -> Seq<Described> {
    scan_options(text::lines(output)).entries
}

/// Options fit to be offered: few, distinct, spelled strictly and described
/// without control characters.
pub open spec fn sound_options(entries: Seq<Described>) -> bool {
    &&& entries.len() <= MAX_OPTION_COUNT
    &&& distinct_names(entries)
    &&& clean_descriptions(entries)
    &&& forall|i: int| 0 <= i < entries.len() ==> help::option_spelling((#[trigger] entries[i]).name)
}

spec fn sound_scan(scan: OptionScan) -> bool {
    &&& sound_options(scan.entries)
    &&& forall|i: int| 0 <= i < scan.continuing.len() ==> 0 <= #[trigger] scan.continuing[i]
        < scan.entries.len()
}

proof fn lemma_add_spellings(
    scan: OptionScan,
    spellings: Seq<Seq<char>>,
    description: Option<Seq<char>>,
)
    requires
        sound_scan(scan),
        forall|i: int| 0 <= i < spellings.len() ==> help::option_spelling(#[trigger] spellings[i]),
        description matches Some(d) ==> help::clean_description(d),
    ensures
        sound_scan(add_spellings(scan, spellings, description)),
    decreases spellings.len(),
{
    if spellings.len() > 0 {
        lemma_add_spellings(scan, spellings.drop_last(), description);
        let before = add_spellings(scan, spellings.drop_last(), description);
        let name = spellings.last();
        lemma_position_of(before.entries, name);
        let after = add_spelling(before, name, description);
        let n = position_of(before.entries, name) as int;
        assert forall|i: int, j: int| 0 <= i < j < after.entries.len() implies (
        #[trigger] after.entries[i]).name != (#[trigger] after.entries[j]).name by {
            if j < before.entries.len() {
                assert(after.entries[i].name == before.entries[i].name);
                assert(after.entries[j].name == before.entries[j].name);
            } else {
                assert(after.entries[i] == before.entries[i]);
            }
        }
        assert forall|i: int| 0 <= i < after.entries.len() implies help::option_spelling(
            (#[trigger] after.entries[i]).name,
        ) && help::clean_description(after.entries[i].description) by {
            if i < before.entries.len() {
                assert(after.entries[i].name == before.entries[i].name);
                assert(help::clean_description(before.entries[i].description));
            }
        }
    }
}

proof fn lemma_continue_entries(entries: Seq<Described>, list: Seq<int>, more: Seq<char>)
    requires
        sound_options(entries),
        forall|i: int| 0 <= i < list.len() ==> 0 <= #[trigger] list[i] < entries.len(),
    ensures
        sound_options(continue_entries(entries, list, more)),
        continue_entries(entries, list, more).len() == entries.len(),
    decreases list.len(),
{
    if list.len() > 0 {
        lemma_continue_entries(entries, list.drop_last(), more);
        let before = continue_entries(entries, list.drop_last(), more);
        let n = list.last();
        let after = continue_entries(entries, list, more);
        let old_text = before[n].description;
        help::law_sanitized_is_clean(
            if old_text.len() == 0 { more } else { old_text + seq![' '] + more },
        );
        assert(0 <= n < entries.len());
        assert(help::clean_description(before[n].description));
        assert forall|i: int| 0 <= i < after.len() implies (#[trigger] after[i]).name
            == before[i].name && help::clean_description(after[i].description) by {
            assert(help::clean_description(before[i].description));
        }
    }
}

proof fn lemma_scan_options(list: Seq<Seq<char>>)
    ensures
        sound_scan(scan_options(list)),
    decreases list.len(),
{
    if list.len() > 0 {
        lemma_scan_options(list.drop_last());
        let before = scan_options(list.drop_last());
        if !before.closed {
            match help::clean(list.last()) {
                None => {},
                Some(line) => {
                    let text = text::trim(line, Class::Whitespace);
                    help::law_declaration(text);
                    match help::declaration(text) {
                        Some(d) => {
                            lemma_add_spellings(
                                OptionScan {
                                    declared_indent: help::indentation(line),
                                    continuing: Seq::empty(),
                                    ..before
                                },
                                d.spellings,
                                d.description,
                            );
                        },
                        None => {},
                    }
                    match help::sanitize(text) {
                        Some(more) => {
                            lemma_continue_entries(before.entries, before.continuing, more);
                        },
                        None => {},
                    }
                },
            }
        }
    }
}

/// Spellings that are added are listed as long as there is room, and what was
/// listed stays.
pub proof fn lemma_spellings_are_listed(
    scan: OptionScan,
    spellings: Seq<Seq<char>>,
    description: Option<Seq<char>>,
)
    ensures
        ({
            let after = add_spellings(scan, spellings, description);
            &&& after.inside == scan.inside
            &&& after.closed == scan.closed
            &&& after.section_indent == scan.section_indent
            &&& after.declared_indent == scan.declared_indent
            &&& scan.entries.len() <= after.entries.len()
            &&& forall|name: Seq<char>|
                listing::has_name(scan.entries, name) ==> #[trigger] listing::has_name(
                    after.entries,
                    name,
                )
            &&& after.entries.len() < MAX_OPTION_COUNT ==> forall|i: int|
                0 <= i < spellings.len() ==> listing::has_name(
                    after.entries,
                    #[trigger] spellings[i],
                )
        }),
    decreases spellings.len(),
{
    if spellings.len() > 0 {
        let rest = spellings.drop_last();
        lemma_spellings_are_listed(scan, rest, description);
        let before = add_spellings(scan, rest, description);
        let spelling = spellings.last();
        let after = add_spelling(before, spelling, description);
        let n = position_of(before.entries, spelling) as int;
        lemma_position_of(before.entries, spelling);
        assert forall|name: Seq<char>| listing::has_name(
            before.entries,
            name,
        ) implies #[trigger] listing::has_name(after.entries, name) by {
            let k = choose|k: int|
                0 <= k < before.entries.len() && (#[trigger] before.entries[k]).name == name;
            assert(after.entries[k].name == name);
        }
        if after.entries.len() < MAX_OPTION_COUNT {
            assert(after.entries[n].name == spelling);
            assert forall|i: int| 0 <= i < spellings.len() implies listing::has_name(
                after.entries,
                #[trigger] spellings[i],
            ) by {
                if i < rest.len() {
                    assert(rest[i] == spellings[i]);
                }
            }
        }
    }
}

proof fn lemma_continued_names(entries: Seq<Described>, indexes: Seq<int>, more: Seq<char>)
    requires
        forall|i: int| 0 <= i < indexes.len() ==> 0 <= #[trigger] indexes[i] < entries.len(),
    ensures
        continue_entries(entries, indexes, more).len() == entries.len(),
        forall|i: int|
            0 <= i < entries.len() ==> (#[trigger] continue_entries(entries, indexes, more)[i]).name
                == entries[i].name,
    decreases indexes.len(),
{
    if indexes.len() > 0 {
        lemma_continued_names(entries, indexes.drop_last(), more);
        assert(indexes.last() == indexes[indexes.len() - 1]);
    }
}

/// One more line takes no option back.
pub proof fn lemma_listed_stays(list: Seq<Seq<char>>)
    requires
        list.len() > 0,
    ensures
        scan_options(list.drop_last()).entries.len() <= scan_options(list).entries.len(),
        forall|name: Seq<char>|
            listing::has_name(scan_options(list.drop_last()).entries, name)
                ==> #[trigger] listing::has_name(scan_options(list).entries, name),
{
    let before = scan_options(list.drop_last());
    let after = scan_options(list);
    lemma_scan_options(list.drop_last());
    if !before.closed {
        match help::clean(list.last()) {
            None => {},
            Some(line) => {
                let text = text::trim(line, Class::Whitespace);
                if let Some(d) = help::declaration(text) {
                    lemma_spellings_are_listed(
                        OptionScan {
                            declared_indent: help::indentation(line),
                            continuing: Seq::empty(),
                            ..before
                        },
                        d.spellings,
                        d.description,
                    );
                }
                if let Some(more) = help::sanitize(text) {
                    lemma_continued_names(before.entries, before.continuing, more);
                    let continued = continue_entries(before.entries, before.continuing, more);
                    assert forall|name: Seq<char>| listing::has_name(
                        before.entries,
                        name,
                    ) implies #[trigger] listing::has_name(continued, name) by {
                        let k = choose|k: int|
                            0 <= k < before.entries.len() && (#[trigger] before.entries[k]).name
                                == name;
                        assert(continued[k].name == name);
                    }
                }
            },
        }
    }
}

/// Whatever a text holds, the options read from it are few, distinct, spelled
/// in strict ASCII and described without control characters.
pub proof fn law_documented_options(output: Seq<char>)
    ensures
        sound_options(documented_options(output)),
{
    lemma_scan_options(text::lines(output));
}

/// A text in which no line opens a list of options documents none.
pub proof fn law_no_heading_no_options(output: Seq<char>)
    requires
        forall|i: int|
            0 <= i < text::lines(output).len() ==> (help::clean(#[trigger] text::lines(output)[i]) matches Some(line)
                ==> !help::options_heading(text::trim(line, Class::Whitespace))),
    ensures
        documented_options(output) == Seq::<Described>::empty(),
{
    lemma_no_heading(text::lines(output));
}

proof fn lemma_no_heading(list: Seq<Seq<char>>)
    requires
        forall|i: int|
            0 <= i < list.len() ==> (help::clean(#[trigger] list[i]) matches Some(line)
                ==> !help::options_heading(text::trim(line, Class::Whitespace))),
    ensures
        scan_options(list).entries == Seq::<Described>::empty(),
        !scan_options(list).inside,
    decreases list.len(),
{
    if list.len() > 0 {
        let rest = list.drop_last();
        assert forall|i: int| 0 <= i < rest.len() implies (help::clean(#[trigger] rest[i]) matches Some(
            line,
        ) ==> !help::options_heading(text::trim(line, Class::Whitespace))) by {
            assert(rest[i] == list[i]);
        }
        lemma_no_heading(rest);
        assert(list.last() == list[list.len() - 1]);
    }
}

/// An option as the library offers it.
#[derive(Debug, PartialEq, Eq)]
pub struct OptionMatch {
    pub spelling: String,
    pub description: String,
}

impl Clone for OptionMatch {
    fn clone(&self) -> (r: Self)
        ensures
            r == *self,
    {
        OptionMatch { spelling: self.spelling.clone(), description: self.description.clone() }
    }
}

impl DeepView for OptionMatch {
    type V = Described;

    open spec fn deep_view(&self) -> Described {
        Described { name: self.spelling@, description: self.description@ }
    }
}

/// A name with its description while a text is read.
pub struct Entry {
    pub name: Vec<char>,
    pub description: Vec<char>,
}

impl DeepView for Entry {
    type V = Described;

    open spec fn deep_view(&self) -> Described {
        Described { name: self.name@, description: self.description@ }
    }
}

/// The position of the first entry with a name.
pub fn find_entry(entries: &Vec<Entry>, name: &[char]) -> (n: usize)
    ensures
        n == position_of(entries.deep_view(), name@),
        n <= entries@.len(),
{
    let mut i: usize = 0;
    while i < entries.len() && !same_chars(entries[i].name.as_slice(), name)
        invariant
            i <= entries@.len(),
            forall|j: int| 0 <= j < i ==> (#[trigger] entries.deep_view()[j]).name != name@,
        decreases entries.len() - i,
    {
        i += 1;
    }
    proof {
        lemma_position_is(entries.deep_view(), name@, i as nat);
    }
    i
}

struct OptionScanner {
    entries: Vec<Entry>,
    inside: bool,
    closed: bool,
    section_indent: usize,
    declared_indent: usize,
    continuing: Vec<usize>,
}

spec fn indexes(v: Seq<usize>) -> Seq<int> {
    v.map_values(|i: usize| i as int)
}

impl OptionScanner {
    spec fn scan(&self) -> OptionScan {
        OptionScan {
            entries: self.entries.deep_view(),
            inside: self.inside,
            closed: self.closed,
            section_indent: self.section_indent as nat,
            declared_indent: self.declared_indent as nat,
            continuing: indexes(self.continuing@),
        }
    }

    /// The continued entries exist.
    spec fn wf(&self) -> bool {
        forall|i: int| 0 <= i < self.continuing@.len() ==> #[trigger] self.continuing@[i]
            < self.entries@.len()
    }

    fn add_spelling(&mut self, spelling: &Vec<char>, description: &Option<Vec<char>>)
        requires
            old(self).wf(),
        ensures
            final(self).wf(),
            final(self).scan() == add_spelling(
                old(self).scan(),
                spelling@,
                match description {
                    Some(d) => Some(d@),
                    None => None,
                },
            ),
    {
        let n: usize = find_entry(&self.entries, spelling.as_slice());
        let ghost before = self.scan();
        let text = match description {
            Some(d) => copied(d.as_slice()),
            None => Vec::new(),
        };
        if n < self.entries.len() {
            if self.entries[n].description.len() == 0 {
                proof {
                    lemma_position_of(before.entries, spelling@);
                }
                self.entries.set(n, Entry { name: copied(spelling.as_slice()), description: text });
                assert(self.entries.deep_view() =~= before.entries.update(
                    n as int,
                    Described { name: spelling@, description: text@ },
                ));
            }
            self.continuing.push(n);
        } else if self.entries.len() < MAX_OPTION_COUNT {
            self.entries.push(Entry { name: copied(spelling.as_slice()), description: text });
            assert(self.entries.deep_view() =~= before.entries.push(
                Described { name: spelling@, description: text@ },
            ));
            self.continuing.push(n);
        }
        assert(indexes(self.continuing@) =~= add_spelling(
            before,
            spelling@,
            match description {
                Some(d) => Some(d@),
                None => None,
            },
        ).continuing);
    }

    fn continue_descriptions(&mut self, more: &Vec<char>)
        requires
            old(self).wf(),
        ensures
            final(self).wf(),
            final(self).scan() == (OptionScan {
                entries: continue_entries(
                    old(self).scan().entries,
                    old(self).scan().continuing,
                    more@,
                ),
                ..old(self).scan()
            }),
    {
        let ghost before = self.scan();
        let mut i: usize = 0;
        assert(before.continuing.take(0) =~= Seq::<int>::empty());
        while i < self.continuing.len()
            invariant
                i <= self.continuing@.len(),
                self.wf(),
                indexes(self.continuing@) == before.continuing,
                self.scan() == (OptionScan {
                    entries: continue_entries(
                        before.entries,
                        before.continuing.take(i as int),
                        more@,
                    ),
                    ..before
                }),
            decreases self.continuing.len() - i,
        {
            let n: usize = self.continuing[i];
            let ghost now = self.scan();
            let mut combined: Vec<char> = Vec::new();
            extend(&mut combined, self.entries[n].description.as_slice());
            if combined.len() > 0 {
                combined.push(' ');
            }
            extend(&mut combined, more.as_slice());
            let ghost description = now.entries[n as int].description;
            proof {
                assert(Seq::<char>::empty() + description =~= description);
                if description.len() == 0 {
                    assert(combined@ =~= more@);
                } else {
                    assert(combined@ =~= description + seq![' '] + more@);
                }
                assert(before.continuing.take(i + 1).drop_last() =~= before.continuing.take(
                    i as int,
                ));
                assert(before.continuing.take(i + 1).last() == n as int);
            }
            match sanitize_description(combined.as_slice()) {
                Some(text) => {
                    let name = copied(self.entries[n].name.as_slice());
                    self.entries.set(n, Entry { name, description: text });
                },
                None => {},
            }
            assert(self.entries.deep_view() =~= now.entries.update(
                n as int,
                Described {
                    name: now.entries[n as int].name,
                    description: continued(description, more@),
                },
            ));
            i += 1;
        }
        assert(before.continuing.take(before.continuing.len() as int) =~= before.continuing);
    }

    fn read_line(&mut self, raw: &[char])
        requires
            old(self).wf(),
        ensures
            final(self).wf(),
            final(self).scan() == scan_option_line(old(self).scan(), raw@),
    {
        let ghost before = self.scan();
        let line = match clean_line(raw) {
            Some(line) => line,
            None => {
                self.continuing = Vec::new();
                assert(indexes(self.continuing@) =~= Seq::<int>::empty());
                return ;
            },
        };
        let text = trimmed(line.as_slice(), Class::Whitespace);
        let indent: usize = indent_of(line.as_slice());
        if is_options_heading(text) {
            if self.inside {
                self.closed = true;
            } else {
                self.inside = true;
                self.section_indent = indent;
                self.continuing = Vec::new();
                assert(indexes(self.continuing@) =~= Seq::<int>::empty());
            }
            return ;
        }
        if !self.inside {
            return ;
        }
        if indent <= self.section_indent && is_section_heading(text) {
            self.closed = true;
            return ;
        }
        if !line_is_unsafe(raw) {
            match parse_option_declaration(text) {
                Some(declared) => {
                    self.continuing = Vec::new();
                    self.declared_indent = indent;
                    assert(indexes(self.continuing@) =~= Seq::<int>::empty());
                    self.add_declaration(&declared.spellings, &declared.description);
                    return ;
                },
                None => {},
            }
        }
        if self.continuing.len() > 0 && indent > self.declared_indent && text.len() > 0 && text[0]
            != '-' && !is_section_heading(text) {
            match sanitize_description(text) {
                Some(more) => {
                    self.continue_descriptions(&more);
                    return ;
                },
                None => {},
            }
        }
        self.continuing = Vec::new();
        assert(indexes(self.continuing@) =~= Seq::<int>::empty());
    }

    fn add_declaration(&mut self, spellings: &Vec<Vec<char>>, description: &Option<Vec<char>>)
        requires
            old(self).wf(),
        ensures
            final(self).wf(),
            final(self).scan() == add_spellings(
                old(self).scan(),
                help::texts(spellings@),
                match description {
                    Some(d) => Some(d@),
                    None => None,
                },
            ),
    {
        let ghost before = self.scan();
        let ghost all = help::texts(spellings@);
        let ghost told: Option<Seq<char>> = match description {
            Some(d) => Some(d@),
            None => None,
        };
        let mut i: usize = 0;
        assert(all.take(0) =~= Seq::<Seq<char>>::empty());
        while i < spellings.len()
            invariant
                i <= spellings@.len(),
                all == help::texts(spellings@),
                told == (match description {
                    Some(d) => Some(d@),
                    None => None,
                }),
                self.wf(),
                self.scan() == add_spellings(before, all.take(i as int), told),
            decreases spellings.len() - i,
        {
            proof {
                assert(all.take(i + 1).drop_last() =~= all.take(i as int));
                assert(all.take(i + 1).last() == spellings@[i as int]@);
            }
            self.add_spelling(&spellings[i], description);
            i += 1;
        }
        assert(all.take(all.len() as int) =~= all);
    }
}

/// Parses the options that a manual page or a help text documents.
pub fn parse_options(output: &str) -> (r: Vec<OptionMatch>)
    ensures
        r.deep_view() == documented_options(output@),
{
    let characters = chars_of(output);
    let list = line_pieces(characters.as_slice());
    let ghost all = text::lines(output@);
    let mut scanner = OptionScanner {
        entries: Vec::new(),
        inside: false,
        closed: false,
        section_indent: 0,
        declared_indent: 0,
        continuing: Vec::new(),
    };
    let mut i: usize = 0;
    proof {
        assert(all.take(0) =~= Seq::<Seq<char>>::empty());
        assert(scanner.entries.deep_view() =~= Seq::<Described>::empty());
        assert(indexes(scanner.continuing@) =~= Seq::<int>::empty());
    }
    while i < list.len()
        invariant
            i <= list@.len(),
            all == text::pieces(list@),
            scanner.wf(),
            scanner.scan() == scan_options(all.take(i as int)),
        decreases list.len() - i,
    {
        proof {
            assert(all.take(i + 1).drop_last() =~= all.take(i as int));
            assert(all.take(i + 1).last() == list@[i as int]@);
        }
        if !scanner.closed {
            scanner.read_line(list[i]);
        }
        i += 1;
    }
    assert(all.take(all.len() as int) =~= all);
    let mut out: Vec<OptionMatch> = Vec::new();
    let mut j: usize = 0;
    while j < scanner.entries.len()
        invariant
            j <= scanner.entries@.len(),
            out.deep_view() == scanner.entries.deep_view().take(j as int),
        decreases scanner.entries.len() - j,
    {
        let ghost before = out.deep_view();
        out.push(
            OptionMatch {
                spelling: text_of(scanner.entries[j].name.as_slice()),
                description: text_of(scanner.entries[j].description.as_slice()),
            },
        );
        assert(out.deep_view() =~= before.push(scanner.entries.deep_view()[j as int]));
        assert(scanner.entries.deep_view().take(j + 1) =~= before.push(
            scanner.entries.deep_view()[j as int],
        ));
        j += 1;
    }
    assert(scanner.entries.deep_view().take(scanner.entries@.len() as int)
        =~= scanner.entries.deep_view());
    out
}

} // verus!

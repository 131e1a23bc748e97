//! Lists of subcommands in a manual page or a help text.
use vstd::prelude::*;
use crate::commands::help;
use crate::commands::options;
use crate::commands::subcommands;
use crate::laws::pages;
use crate::laws::plain;
use crate::laws::texts;
use crate::text;
use crate::commands::help::Described;
use crate::commands::subcommands::SubcommandScan;
use crate::text::Class;

verus! {

/// The name of a subcommand: a letter or digit, and up to 127 more letters,
/// digits, dashes, underscores, dots and plus signs.
pub open spec fn subcommand_word(s: Seq<char>) -> bool {
    &&& 1 <= s.len() <= 128
    &&& plain::letter_or_digit(s[0])
    &&& forall|i: int| 0 <= i < s.len() ==> plain::name_char(#[trigger] s[i])
}

/// A description in a list, which is no heading: it holds a small letter and ends
/// in no colon.
pub open spec fn remark(s: Seq<char>) -> bool {
    &&& pages::description(s)
    &&& s.last() != ':'
    &&& exists|i: int| 0 <= i < s.len() && 'a' <= #[trigger] s[i] && s[i] <= 'z'
}

/// A title over a list of subcommands: one of the usual ones, or commands of some
/// kind, with a colon or in capitals.
pub open spec fn commands_title(title: Seq<char>, colon: bool) -> bool {
    pages::heading(title) && (plain::in_small(title, "command"@) || plain::in_small(
        title,
        "commands"@,
    ) || plain::in_small(title, "available commands"@) || plain::in_small(title, "subcommands"@)
        || plain::in_small(title, "the commands are"@) || ((colon || no_small_letter(title))
        && exists|kind: Seq<char>| plain::in_small(title, #[trigger] (kind + " commands"@))))
}

pub open spec fn no_small_letter(s: Seq<char>) -> bool {
    forall|i: int| 0 <= i < s.len() ==> !('a' <= #[trigger] s[i] && s[i] <= 'z')
}

/// A line that declares a subcommand.
pub open spec fn row_line(indent: Seq<char>, gap: Seq<char>, row: Described) -> Seq<char> {
    indent + (row.name + gap + row.description)
}

/// The lines that declare some subcommands, one below the other.
pub open spec fn row_lines(indent: Seq<char>, gap: Seq<char>, rows: Seq<Described>) -> Seq<char>
    decreases rows.len(),
{
    if rows.len() == 0 {
        Seq::empty()
    } else {
        row_lines(indent, gap, rows.drop_last()) + row_line(indent, gap, rows.last()) + seq!['\n']
    }
}

proof fn lemma_title(title: Seq<char>, colon: bool)
    requires
        commands_title(title, colon),
    ensures
        ({
            let line = if colon { title + seq![':'] } else { title };
            &&& help::commands_heading(line)
            &&& plain::printed(line)
            &&& line[0] != ' '
            &&& line.last() != ' '
            &&& plain::lacks(line, '\n')
            &&& line.last() != '\r'
        }),
{
    let line = if colon { title + seq![':'] } else { title };
    pages::lemma_heading(title);
    if plain::in_small(title, "command"@) {
        pages::lemma_in_small(title, "command"@);
    } else if plain::in_small(title, "commands"@) {
        pages::lemma_in_small(title, "commands"@);
    } else if plain::in_small(title, "available commands"@) {
        pages::lemma_in_small(title, "available commands"@);
    } else if plain::in_small(title, "subcommands"@) {
        pages::lemma_in_small(title, "subcommands"@);
    } else if plain::in_small(title, "the commands are"@) {
        pages::lemma_in_small(title, "the commands are"@);
    } else {
        let kind = choose|kind: Seq<char>|
            plain::in_small(title, #[trigger] (kind + " commands"@));
        let t = kind + " commands"@;
        pages::lemma_in_small(title, t);
        assert(t.skip(t.len() - " commands"@.len()) =~= " commands"@);
        if !colon {
            assert forall|i: int| 0 <= i < title.len() && text::ascii_letter(
                #[trigger] title[i],
            ) implies text::ascii_upper(title[i]) by {}
        }
    }
    assert forall|i: int| 0 <= i < line.len() implies plain::visible(#[trigger] line[i]) || line[i]
        == ' ' by {
        if i < title.len() {
            assert(line[i] == title[i]);
        }
    }
}

pub proof fn lemma_column(name: Seq<char>, gap: Seq<char>, rest: Seq<char>, from: int)
    requires
        forall|i: int| 0 <= i < name.len() - 1 ==> plain::visible(#[trigger] name[i])
            || plain::visible(name[i + 1]),
        name.len() > 0,
        plain::visible(name.last()),
        plain::spaces(gap),
        gap.len() >= 2,
        0 <= from <= name.len(),
    ensures
        subcommands::column_end(name + gap + rest, from) == name.len(),
    decreases name.len() - from,
{
    let line = name + gap + rest;
    if from == name.len() {
        assert(line[from] == gap[0] && line[from + 1] == gap[1]);
    } else {
        assert(line[from] == name[from]);
        if from + 1 < name.len() {
            assert(line[from + 1] == name[from + 1]);
        } else {
            assert(name.last() == name[from]);
        }
        lemma_column(name, gap, rest, from + 1);
    }
}

spec fn pick() -> spec_fn(Seq<char>) -> Option<Seq<char>> {
    |name: Seq<char>|
        {
            let bare = text::trim_end(text::trim(name, Class::Whitespace), Class::NameMark);
            if help::subcommand_name(bare) {
                Some(bare)
            } else {
                None
            }
        }
}

proof fn lemma_picks(left: Seq<char>, name: Seq<char>, mark: Seq<char>)
    requires
        subcommand_word(name),
        plain::spaces(left),
        mark.len() == 0 || mark == seq![':'] || mark == seq!['*'],
    ensures
        pick()(left + name + mark) == Some(name),
{
    let none = Seq::<char>::empty();
    let marked = name + mark;
    assert(plain::name_char(name[name.len() - 1]));
    assert(marked[0] == name[0]);
    assert(left + marked + none =~= left + name + mark);
    texts::law_trimmed(left, marked, none);
    text::lemma_back_span_is(marked, Class::NameMark, mark.len());
    assert(marked.take(name.len() as int) =~= name);
    assert forall|i: int| 0 <= i < name.len() implies text::in_class(
        Class::NamePart,
        #[trigger] name[i],
    ) by {
        assert(plain::name_char(name[i]));
    }
    assert(help::subcommand_name(name));
}

proof fn lemma_one_name(name: Seq<char>, mark: Seq<char>)
    requires
        subcommand_word(name),
        mark.len() == 0 || mark == seq![':'] || mark == seq!['*'],
    ensures
        subcommands::declared_names(name + mark) == seq![name],
{
    let column = name + mark;
    let none = Seq::<char>::empty();
    assert forall|i: int| 0 <= i < column.len() implies #[trigger] column[i] != ',' by {
        if i < name.len() {
            assert(plain::name_char(name[i]));
        }
    }
    texts::law_pieces(column, ',', none);
    lemma_picks(none, name, mark);
    assert(none + name + mark =~= column);
    Seq::lemma_filter_map_singleton(column, pick());
    assert(subcommands::declared_names(column) == text::split_on(column, ',').filter_map(pick()));
}

proof fn lemma_two_names(name: Seq<char>, alias: Seq<char>)
    requires
        subcommand_word(name),
        subcommand_word(alias),
    ensures
        subcommands::declared_names(name + seq![',', ' '] + alias) == seq![name, alias],
{
    let column = name + seq![',', ' '] + alias;
    let none = Seq::<char>::empty();
    let second = seq![' '] + alias;
    assert forall|i: int| 0 <= i < name.len() implies #[trigger] name[i] != ',' by {
        assert(plain::name_char(name[i]));
    }
    assert forall|i: int| 0 <= i < second.len() implies #[trigger] second[i] != ',' by {
        if i > 0 {
            assert(second[i] == alias[i - 1]);
            assert(plain::name_char(alias[i - 1]));
        }
    }
    assert(column =~= name + seq![','] + second);
    texts::law_pieces(name, ',', second);
    texts::law_pieces(second, ',', none);
    lemma_picks(none, name, none);
    assert(none + name + none =~= name);
    lemma_picks(seq![' '], alias, none);
    assert(seq![' '] + alias + none =~= second);
    let parts = text::split_on(column, ',');
    assert(parts =~= seq![name, second]);
    assert(parts.drop_last() =~= seq![name]);
    Seq::lemma_filter_map_singleton(name, pick());
    assert(parts.filter_map(pick()) =~= seq![name, alias]);
    assert(subcommands::declared_names(column) == parts.filter_map(pick()));
}

proof fn lemma_no_heading(column: Seq<char>, gap: Seq<char>, remarks: Seq<char>)
    requires
        plain::spaces(gap),
        gap.len() >= 2,
        remark(remarks),
    ensures
        !help::commands_heading(column + gap + remarks),
{
    let line = column + gap + remarks;
    let t = help::heading_text(line);
    assert(line.last() == remarks.last());
    text::lemma_back_span_is(line, Class::Only(':'), 0);
    assert(line.take(line.len() as int) =~= line);
    let n = column.len() as int;
    assert(line[n] == gap[0] && line[n + 1] == gap[1]);
    assert(t[n] == ' ' && t[n + 1] == ' ');
    reveal_strlit("command");
    reveal_strlit("commands");
    reveal_strlit("available commands");
    reveal_strlit("subcommands");
    reveal_strlit("the commands are");
    let i = choose|i: int| 0 <= i < remarks.len() && 'a' <= #[trigger] remarks[i] && remarks[i]
        <= 'z';
    assert(line[column.len() + gap.len() + i] == remarks[i]);
    assert(!help::capitals_only(line));
    assert(t.len() == line.len());
    if t == "available commands"@ {
        assert(n == 9);
    }
    if t == "the commands are"@ {
        assert(n == 3 || n == 12);
    }
}

proof fn lemma_declares(column: Seq<char>, gap: Seq<char>, remarks: Seq<char>)
    requires
        column.len() > 0,
        plain::visible(column.last()),
        forall|i: int| 0 <= i < column.len() - 1 ==> plain::visible(#[trigger] column[i])
            || plain::visible(column[i + 1]),
        subcommands::declared_names(column).len() > 0,
        plain::spaces(gap),
        gap.len() >= 2,
        remark(remarks),
    ensures
        subcommands::subcommand_declaration(column + gap + remarks) == Some(
            (subcommands::declared_names(column), remarks),
        ),
{
    let line = column + gap + remarks;
    lemma_column(column, gap, remarks, 0);
    assert(line.take(column.len() as int) =~= column);
    let none = Seq::<char>::empty();
    assert(line.skip(column.len() as int) =~= gap + remarks + none);
    assert(plain::visible(remarks[0]) && plain::visible(remarks[remarks.len() - 1]));
    texts::law_trimmed(gap, remarks, none);
    pages::law_description_stays(remarks);
}

proof fn lemma_row(
    scan: SubcommandScan,
    indent: Seq<char>,
    column: Seq<char>,
    gap: Seq<char>,
    remarks: Seq<char>,
)
    requires
        scan.inside,
        plain::spaces(indent),
        indent.len() > scan.section_indent,
        scan.declared_indent matches Some(n) ==> n == indent.len(),
        column.len() > 0,
        plain::letter_or_digit(column[0]),
        plain::visible(column.last()),
        forall|i: int| 0 <= i < column.len() - 1 ==> plain::visible(#[trigger] column[i])
            || plain::visible(column[i + 1]),
        plain::printed(column),
        subcommands::declared_names(column).len() > 0,
        plain::spaces(gap),
        gap.len() >= 2,
        remark(remarks),
    ensures
        subcommands::scan_subcommand_line(scan, indent + (column + gap + remarks)) == (
        SubcommandScan {
            entries: subcommands::add_names(
                scan.entries,
                subcommands::declared_names(column),
                remarks,
            ),
            declared_indent: Some(indent.len()),
            ..scan
        }),
        plain::lacks(indent + (column + gap + remarks), '\n'),
        (indent + (column + gap + remarks)).last() != '\r',
{
    let s = column + gap + remarks;
    let none = Seq::<char>::empty();
    assert forall|i: int| 0 <= i < s.len() implies plain::visible(#[trigger] s[i]) || s[i]
        == ' ' by {
        if i < column.len() {
            assert(s[i] == column[i]);
        } else if i < column.len() + gap.len() {
            assert(s[i] == gap[i - column.len()]);
        } else {
            assert(s[i] == remarks[i - column.len() - gap.len()]);
        }
    }
    assert(s[0] == column[0]);
    assert(s.last() == remarks.last());
    pages::lemma_line(indent, s, none);
    assert(indent + s + none =~= indent + s);
    lemma_no_heading(column, gap, remarks);
    lemma_declares(column, gap, remarks);
}

proof fn lemma_heading_line(scan: SubcommandScan, title: Seq<char>, colon: bool)
    requires
        commands_title(title, colon),
    ensures
        subcommands::scan_subcommand_line(scan, if colon { title + seq![':'] } else { title }) == (
        SubcommandScan { inside: true, section_indent: 0, declared_indent: None, ..scan }),
{
    let line = if colon { title + seq![':'] } else { title };
    lemma_title(title, colon);
    let none = Seq::<char>::empty();
    pages::lemma_line(none, line, none);
    assert(none + line + none =~= line);
    assert(none + line =~= line);
}

proof fn lemma_another(before: Seq<char>, line: Seq<char>)
    requires
        before.len() == 0 || before.last() == '\n',
        plain::lacks(line, '\n'),
        line.len() > 0 ==> line.last() != '\r',
    ensures
        subcommands::scan_subcommands(text::lines(before + line + seq!['\n']))
            == subcommands::scan_subcommand_line(
            subcommands::scan_subcommands(text::lines(before)),
            line,
        ),
        (before + line + seq!['\n']).last() == '\n',
{
    texts::law_another_line(before, line);
    assert(text::lines(before).push(line).drop_last() =~= text::lines(before));
}

proof fn lemma_new_name(entries: Seq<Described>, name: Seq<char>)
    requires
        forall|i: int| 0 <= i < entries.len() ==> (#[trigger] entries[i]).name != name,
        entries.len() < 256,
    ensures
        forall|remarks: Seq<char>| #[trigger]
            subcommands::add_names(entries, seq![name], remarks) == entries.push(
                Described { name, description: remarks },
            ),
{
    options::lemma_position_is(entries, name, entries.len());
    assert(seq![name].drop_last() =~= Seq::empty());
    assert forall|remarks: Seq<char>| #[trigger]
        subcommands::add_names(entries, seq![name], remarks) == entries.push(
            Described { name, description: remarks },
        ) by {
        assert(subcommands::add_names(entries, seq![name].drop_last(), remarks) == entries);
    }
}

/// A list of subcommands is read back: behind whatever stands before it, a title
/// of the usual ones, and below it, in one indentation, lines of a name, two
/// spaces or more and a description, add these names with these descriptions in
/// their order, as far as they are new and there is room.
pub proof fn law_listed_subcommands(
    before: Seq<char>,
    title: Seq<char>,
    colon: bool,
    indent: Seq<char>,
    gap: Seq<char>,
    rows: Seq<Described>,
)
    requires
        before.len() == 0 || before.last() == '\n',
        commands_title(title, colon),
        plain::spaces(indent),
        indent.len() > 0,
        plain::spaces(gap),
        gap.len() >= 2,
        forall|i: int|
            0 <= i < rows.len() ==> subcommand_word((#[trigger] rows[i]).name) && remark(
                rows[i].description,
            ),
        forall|i: int, j: int|
            0 <= i < j < rows.len() ==> (#[trigger] rows[i]).name != (#[trigger] rows[j]).name,
        forall|i: int, j: int|
            0 <= i < subcommands::documented_subcommands(before).len() && 0 <= j < rows.len() ==> (
            #[trigger] subcommands::documented_subcommands(before)[i]).name != (
            #[trigger] rows[j]).name,
        subcommands::documented_subcommands(before).len() + rows.len() <= 256,
    ensures
        subcommands::documented_subcommands(
            before + (if colon { title + seq![':'] } else { title }) + seq!['\n'] + row_lines(
                indent,
                gap,
                rows,
            ),
        ) == subcommands::documented_subcommands(before) + rows,
{
    lemma_listed(before, title, colon, indent, gap, rows);
}

proof fn lemma_listed(
    before: Seq<char>,
    title: Seq<char>,
    colon: bool,
    indent: Seq<char>,
    gap: Seq<char>,
    rows: Seq<Described>,
)
    requires
        before.len() == 0 || before.last() == '\n',
        commands_title(title, colon),
        plain::spaces(indent),
        indent.len() > 0,
        plain::spaces(gap),
        gap.len() >= 2,
        forall|i: int|
            0 <= i < rows.len() ==> subcommand_word((#[trigger] rows[i]).name) && remark(
                rows[i].description,
            ),
        forall|i: int, j: int|
            0 <= i < j < rows.len() ==> (#[trigger] rows[i]).name != (#[trigger] rows[j]).name,
        forall|i: int, j: int|
            0 <= i < subcommands::documented_subcommands(before).len() && 0 <= j < rows.len() ==> (
            #[trigger] subcommands::documented_subcommands(before)[i]).name != (
            #[trigger] rows[j]).name,
        subcommands::documented_subcommands(before).len() + rows.len() <= 256,
    ensures
        ({
            let page = before + (if colon { title + seq![':'] } else { title }) + seq!['\n']
                + row_lines(indent, gap, rows);
            let scan = subcommands::scan_subcommands(text::lines(page));
            &&& page.last() == '\n'
            &&& scan.inside
            &&& scan.section_indent == 0
            &&& scan.entries == subcommands::documented_subcommands(before) + rows
            &&& scan.declared_indent == if rows.len() == 0 { None } else { Some(indent.len()) }
        }),
    decreases rows.len(),
{
    let head = if colon { title + seq![':'] } else { title };
    let start = before + head + seq!['\n'];
    let page = start + row_lines(indent, gap, rows);
    let known = subcommands::documented_subcommands(before);
    if rows.len() == 0 {
        lemma_title(title, colon);
        lemma_another(before, head);
        lemma_heading_line(subcommands::scan_subcommands(text::lines(before)), title, colon);
        assert(page =~= start);
        assert(known + rows =~= known);
    } else {
        let rest = rows.drop_last();
        let row = rows.last();
        assert forall|i: int| 0 <= i < rest.len() implies subcommand_word((#[trigger] rest[i]).name)
            && remark(rest[i].description) by {
            assert(rest[i] == rows[i]);
        }
        assert forall|i: int, j: int| 0 <= i < j < rest.len() implies (#[trigger] rest[i]).name != (
        #[trigger] rest[j]).name by {
            assert(rest[i] == rows[i] && rest[j] == rows[j]);
        }
        assert forall|i: int, j: int| 0 <= i < known.len() && 0 <= j < rest.len() implies (
        #[trigger] known[i]).name != (#[trigger] rest[j]).name by {
            assert(rest[j] == rows[j]);
        }
        lemma_listed(before, title, colon, indent, gap, rest);
        let shorter = start + row_lines(indent, gap, rest);
        let scan = subcommands::scan_subcommands(text::lines(shorter));
        assert(row == rows[rows.len() - 1]);
        let none = Seq::<char>::empty();
        lemma_one_name(row.name, none);
        assert(row.name + none =~= row.name);
        assert forall|i: int| 0 <= i < row.name.len() implies plain::visible(
            #[trigger] row.name[i],
        ) by {
            assert(plain::name_char(row.name[i]));
        }
        assert(row.name.last() == row.name[row.name.len() - 1]);
        lemma_row(scan, indent, row.name, gap, row.description);
        lemma_another(shorter, row_line(indent, gap, row));
        assert(page =~= shorter + row_line(indent, gap, row) + seq!['\n']);
        assert forall|i: int| 0 <= i < scan.entries.len() implies (
        #[trigger] scan.entries[i]).name != row.name by {
            if i < known.len() {
                assert(scan.entries[i] == known[i]);
            } else {
                assert(scan.entries[i] == rows[i - known.len()]);
            }
        }
        lemma_new_name(scan.entries, row.name);
        assert((known + rest).push(row) =~= known + rows);
    }
}

/// A line may declare a name and, behind a comma, another one for the same
/// subcommand; a colon or an asterisk behind a name is not part of it.
pub proof fn law_names_of_a_line(
    title: Seq<char>,
    colon: bool,
    indent: Seq<char>,
    name: Seq<char>,
    alias: Seq<char>,
    mark: char,
    gap: Seq<char>,
    remarks: Seq<char>,
)
    requires
        commands_title(title, colon),
        plain::spaces(indent),
        indent.len() > 0,
        subcommand_word(name),
        subcommand_word(alias),
        name != alias,
        mark == ':' || mark == '*',
        plain::spaces(gap),
        gap.len() >= 2,
        remark(remarks),
    ensures
        ({
            let start = (if colon { title + seq![':'] } else { title }) + seq!['\n'];
            &&& subcommands::documented_subcommands(
                start + (indent + (name + seq![',', ' '] + alias + gap + remarks)) + seq!['\n'],
            ) == seq![
                Described { name, description: remarks },
                Described { name: alias, description: remarks },
            ]
            &&& subcommands::documented_subcommands(
                start + (indent + (name + seq![mark] + gap + remarks)) + seq!['\n'],
            ) == seq![Described { name, description: remarks }]
        }),
{
    let none = Seq::<char>::empty();
    let nothing = Seq::<Described>::empty();
    texts::law_lines(none, none);
    let head = if colon { title + seq![':'] } else { title };
    let start = head + seq!['\n'];
    lemma_title(title, colon);
    lemma_another(none, head);
    assert(none + head + seq!['\n'] =~= start);
    lemma_heading_line(subcommands::scan_subcommands(text::lines(none)), title, colon);
    let scan = subcommands::scan_subcommands(text::lines(start));
    assert forall|i: int| 0 <= i < name.len() implies plain::visible(#[trigger] name[i]) by {
        assert(plain::name_char(name[i]));
    }
    assert forall|i: int| 0 <= i < alias.len() implies plain::visible(#[trigger] alias[i]) by {
        assert(plain::name_char(alias[i]));
    }
    let both = name + seq![',', ' '] + alias;
    assert forall|i: int| 0 <= i < both.len() implies plain::visible(#[trigger] both[i]) || both[i]
        == ' ' by {
        if i < name.len() {
            assert(both[i] == name[i]);
        } else if i > name.len() + 1 {
            assert(both[i] == alias[i - name.len() - 2]);
        }
    }
    assert forall|i: int| 0 <= i < both.len() - 1 implies plain::visible(#[trigger] both[i])
        || plain::visible(both[i + 1]) by {
        if i < name.len() {
            assert(both[i] == name[i]);
        } else {
            if i > name.len() + 1 {
                assert(both[i] == alias[i - name.len() - 2]);
            } else if i == name.len() + 1 {
                assert(both[i + 1] == alias[0]);
            }
        }
    }
    assert(both[0] == name[0]);
    assert(both.last() == alias[alias.len() - 1]);
    lemma_two_names(name, alias);
    lemma_row(scan, indent, both, gap, remarks);
    lemma_another(start, indent + (both + gap + remarks));
    lemma_new_name(nothing, name);
    let first = Described { name, description: remarks };
    let two = seq![name, alias];
    assert(two.drop_last() =~= seq![name]);
    assert(nothing.push(first) =~= seq![first]);
    options::lemma_position_is(seq![first], alias, 1);
    assert(seq![first].push(Described { name: alias, description: remarks }) =~= seq![
        first,
        Described { name: alias, description: remarks },
    ]);
    let marked = name + seq![mark];
    assert forall|i: int| 0 <= i < marked.len() implies plain::visible(#[trigger] marked[i]) by {
        if i < name.len() {
            assert(marked[i] == name[i]);
        }
    }
    assert(marked[0] == name[0]);
    lemma_one_name(name, seq![mark]);
    lemma_row(scan, indent, marked, gap, remarks);
    lemma_another(start, indent + (marked + gap + remarks));
}

/// The list of `law_listed_subcommands` with at least one row.
pub open spec fn listed_page(
    title: Seq<char>,
    colon: bool,
    indent: Seq<char>,
    gap: Seq<char>,
    rows: Seq<Described>,
) -> Seq<char> {
    (if colon { title + seq![':'] } else { title }) + seq!['\n'] + row_lines(indent, gap, rows)
}

pub open spec fn listable(rows: Seq<Described>) -> bool {
    &&& 0 < rows.len() <= 256
    &&& forall|i: int|
        0 <= i < rows.len() ==> subcommand_word((#[trigger] rows[i]).name) && remark(
            rows[i].description,
        )
    &&& forall|i: int, j: int|
        0 <= i < j < rows.len() ==> (#[trigger] rows[i]).name != (#[trigger] rows[j]).name
}

proof fn lemma_listed_page(
    title: Seq<char>,
    colon: bool,
    indent: Seq<char>,
    gap: Seq<char>,
    rows: Seq<Described>,
)
    requires
        commands_title(title, colon),
        plain::spaces(indent),
        indent.len() > 0,
        plain::spaces(gap),
        gap.len() >= 2,
        listable(rows),
    ensures
        ({
            let page = listed_page(title, colon, indent, gap, rows);
            &&& page.last() == '\n'
            &&& subcommands::scan_subcommands(text::lines(page)) == (SubcommandScan {
                entries: rows,
                inside: true,
                section_indent: 0,
                declared_indent: Some(indent.len()),
            })
        }),
{
    let none = Seq::<char>::empty();
    texts::law_lines(none, none);
    assert(subcommands::documented_subcommands(none) =~= Seq::<Described>::empty());
    lemma_listed(none, title, colon, indent, gap, rows);
    let head = if colon { title + seq![':'] } else { title };
    assert(none + head + seq!['\n'] + row_lines(indent, gap, rows) =~= listed_page(
        title,
        colon,
        indent,
        gap,
        rows,
    ));
    assert(Seq::<Described>::empty() + rows =~= rows);
}

/// In a list of subcommands, a line in another indentation, a line that starts
/// with a dash and a line of several words with single spaces between them declare
/// nothing.
pub proof fn law_other_lines_of_a_list(
    title: Seq<char>,
    colon: bool,
    indent: Seq<char>,
    gap: Seq<char>,
    rows: Seq<Described>,
    other: Seq<char>,
    row: Described,
    prose: Seq<char>,
)
    requires
        commands_title(title, colon),
        plain::spaces(indent),
        indent.len() > 0,
        plain::spaces(gap),
        gap.len() >= 2,
        listable(rows),
        rows.len() < 256,
        plain::spaces(other),
        other.len() > 0,
        other.len() != indent.len(),
        subcommand_word(row.name),
        remark(row.description),
        forall|i: int| 0 <= i < rows.len() ==> (#[trigger] rows[i]).name != row.name,
        plain::single_spaced(prose),
        !plain::lacks(prose, ' '),
        prose.last() != ':',
        exists|i: int| 0 <= i < prose.len() && 'a' <= #[trigger] prose[i] && prose[i] <= 'z',
        !plain::in_small(prose, "available commands"@),
        !plain::in_small(prose, "the commands are"@),
    ensures
        ({
            let page = listed_page(title, colon, indent, gap, rows);
            &&& subcommands::documented_subcommands(
                page + row_line(other, gap, row) + seq!['\n'],
            ) == rows
            &&& subcommands::documented_subcommands(page + (indent + prose) + seq!['\n']) == rows
            &&& subcommands::documented_subcommands(
                page + (indent + (seq!['-'] + row.name + gap + row.description)) + seq!['\n'],
            ) == rows
        }),
{
    let page = listed_page(title, colon, indent, gap, rows);
    let none = Seq::<char>::empty();
    lemma_listed_page(title, colon, indent, gap, rows);
    let scan = subcommands::scan_subcommands(text::lines(page));
    lemma_one_name(row.name, none);
    assert(row.name + none =~= row.name);
    assert forall|i: int| 0 <= i < row.name.len() implies plain::visible(#[trigger] row.name[i]) by {
        assert(plain::name_char(row.name[i]));
    }
    let free = SubcommandScan { declared_indent: None, ..scan };
    lemma_row(free, other, row.name, gap, row.description);
    let s = row.name + gap + row.description;
    lemma_printed_row(row.name, gap, row.description);
    pages::lemma_line(other, s, none);
    assert(other + s + none =~= other + s);
    lemma_no_heading(row.name, gap, row.description);
    lemma_declares(row.name, gap, row.description);
    lemma_another(page, row_line(other, gap, row));
    // Prose.
    pages::lemma_line(indent, prose, none);
    assert(indent + prose + none =~= indent + prose);
    lemma_prose(prose);
    lemma_another(page, indent + prose);
    // A dash.
    let dashed = seq!['-'] + row.name;
    let d = dashed + gap + row.description;
    lemma_printed_row(dashed, gap, row.description);
    pages::lemma_line(indent, d, none);
    assert(indent + d + none =~= indent + d);
    lemma_no_heading(dashed, gap, row.description);
    assert(d[0] == '-');
    lemma_another(page, indent + d);
}

proof fn lemma_printed_row(column: Seq<char>, gap: Seq<char>, remarks: Seq<char>)
    requires
        plain::spaces(gap),
        column.len() > 0,
        forall|i: int| 0 <= i < column.len() ==> (plain::letter_or_digit(#[trigger] column[i])
            || plain::visible(column[i])),
        remark(remarks),
    ensures
        ({
            let s = column + gap + remarks;
            plain::printed(s) && s[0] != ' ' && s.last() != ' '
        }),
{
    let s = column + gap + remarks;
    assert forall|i: int| 0 <= i < s.len() implies plain::visible(#[trigger] s[i]) || s[i]
        == ' ' by {
        if i < column.len() {
            assert(s[i] == column[i]);
        } else if i < column.len() + gap.len() {
            assert(s[i] == gap[i - column.len()]);
        } else {
            assert(s[i] == remarks[i - column.len() - gap.len()]);
        }
    }
    assert(s[0] == column[0]);
    assert(s.last() == remarks.last());
}

proof fn lemma_no_gap(s: Seq<char>, from: int)
    requires
        plain::single_spaced(s),
        0 <= from <= s.len(),
    ensures
        subcommands::column_end(s, from) == s.len(),
    decreases s.len() - from,
{
    if from < s.len() {
        lemma_no_gap(s, from + 1);
        assert(plain::visible(s[from]) || s[from] == ' ');
        if from + 1 < s.len() {
            assert(plain::visible(s[from + 1]) || s[from + 1] == ' ');
        }
    }
}

proof fn lemma_prose(prose: Seq<char>)
    requires
        plain::single_spaced(prose),
        !plain::lacks(prose, ' '),
        prose.last() != ':',
        exists|i: int| 0 <= i < prose.len() && 'a' <= #[trigger] prose[i] && prose[i] <= 'z',
        !plain::in_small(prose, "available commands"@),
        !plain::in_small(prose, "the commands are"@),
    ensures
        !help::commands_heading(prose),
        subcommands::subcommand_declaration(prose) is None,
{
    lemma_no_gap(prose, 0);
    let k = choose|k: int| 0 <= k < prose.len() && prose[k] == ' ';
    assert(text::in_class(Class::AsciiWhitespace, prose[k]));
    text::lemma_back_span_is(prose, Class::Only(':'), 0);
    assert(prose.take(prose.len() as int) =~= prose);
    let t = help::heading_text(prose);
    assert(t == text::lower(prose));
    assert(t[k] == ' ');
    reveal_strlit("command");
    reveal_strlit("commands");
    reveal_strlit("subcommands");
    assert forall|u: Seq<char>| t == u implies #[trigger] plain::in_small(prose, u) by {
        assert forall|i: int| 0 <= i < prose.len() implies plain::small(#[trigger] prose[i])
            == u[i] by {
            assert(t[i] == text::lower_char(prose[i]));
        }
    }
    assert(!plain::in_small(prose, "available commands"@));
    let i = choose|i: int| 0 <= i < prose.len() && 'a' <= #[trigger] prose[i] && prose[i] <= 'z';
    assert(!help::capitals_only(prose)) by {
        assert(text::ascii_letter(prose[i]));
    }
}

/// A name that stands alone in its line is a subcommand without description.
pub proof fn law_lone_name(title: Seq<char>, colon: bool, indent: Seq<char>, name: Seq<char>)
    requires
        commands_title(title, colon),
        plain::spaces(indent),
        indent.len() > 0,
        subcommand_word(name),
        !help::commands_heading(name),
    ensures
        subcommands::documented_subcommands(
            (if colon { title + seq![':'] } else { title }) + seq!['\n'] + (indent + name) + seq![
                '\n',
            ],
        ) == seq![Described { name, description: Seq::empty() }],
{
    let none = Seq::<char>::empty();
    let nothing = Seq::<Described>::empty();
    texts::law_lines(none, none);
    let head = if colon { title + seq![':'] } else { title };
    let start = head + seq!['\n'];
    lemma_title(title, colon);
    lemma_another(none, head);
    assert(none + head + seq!['\n'] =~= start);
    lemma_heading_line(subcommands::scan_subcommands(text::lines(none)), title, colon);
    assert forall|i: int| 0 <= i < name.len() implies plain::visible(#[trigger] name[i]) by {
        assert(plain::name_char(name[i]));
    }
    assert(name.last() == name[name.len() - 1]);
    pages::lemma_line(indent, name, none);
    assert(indent + name + none =~= indent + name);
    lemma_no_gap(name, 0);
    lemma_one_name(name, none);
    assert(name + none =~= name);
    assert(name.take(name.len() as int) =~= name);
    assert(name.skip(name.len() as int) =~= none);
    assert(!text::some_in(name, Class::AsciiWhitespace)) by {
        if text::some_in(name, Class::AsciiWhitespace) {
            let i = choose|i: int|
                0 <= i < name.len() && text::in_class(Class::AsciiWhitespace, #[trigger] name[i]);
            assert(plain::visible(name[i]));
        }
    }
    lemma_nothing_to_say();
    lemma_another(start, indent + name);
    lemma_new_name(nothing, name);
    assert(nothing.push(Described { name, description: none }) =~= seq![
        Described { name, description: none },
    ]);
}

pub(crate) proof fn lemma_nothing_to_say()
    ensures
        help::sanitize(text::trim(Seq::empty(), Class::Whitespace)) is None,
{
    let none = Seq::<char>::empty();
    text::lemma_span_is(none, Class::Whitespace, true, 0);
    assert(none.skip(0) =~= none);
    text::lemma_back_span_is(none, Class::Whitespace, 0);
    assert(none.take(0) =~= none);
    texts::law_first_word(seq!['x'], none, Class::Whitespace);
    assert(text::words(none, Class::Whitespace).len() == 0);
    let raw = text::join(text::words(none, Class::Whitespace), seq![' ']);
    assert(raw =~= none);
    reveal(Seq::filter);
    assert(help::collapse(none).len() == 0);
}

/// A list of subcommands ends with the next title that does not stand deeper than
/// its own: a line of capitals, or one of the usual ones.
pub proof fn law_list_ends_at_title(
    title: Seq<char>,
    colon: bool,
    indent: Seq<char>,
    gap: Seq<char>,
    rows: Seq<Described>,
    next: Seq<char>,
    more: Seq<Described>,
)
    requires
        commands_title(title, colon),
        plain::spaces(indent),
        indent.len() > 0,
        plain::spaces(gap),
        gap.len() >= 2,
        listable(rows),
        listable(more),
        pages::heading(next),
        !help::commands_heading(next),
        plain::in_small(next, "usage"@) || plain::in_small(next, "arguments"@) || plain::in_small(
            next,
            "examples"@,
        ) || plain::in_small(next, "description"@) || plain::in_small(next, "synopsis"@)
            || plain::in_small(next, "operands"@) || plain::in_small(next, "environment"@)
            || plain::in_small(next, "exit status"@) || plain::in_small(next, "files"@)
            || plain::in_small(next, "authors"@) || plain::in_small(next, "bugs"@)
            || plain::in_small(next, "see also"@) || forall|i: int|
            0 <= i < next.len() ==> !('a' <= #[trigger] next[i] && next[i] <= 'z'),
    ensures
        ({
            let page = listed_page(title, colon, indent, gap, rows);
            subcommands::documented_subcommands(
                page + next + seq!['\n'] + row_lines(indent, gap, more),
            ) == rows
        }),
{
    let page = listed_page(title, colon, indent, gap, rows);
    let none = Seq::<char>::empty();
    lemma_listed_page(title, colon, indent, gap, rows);
    let scan = subcommands::scan_subcommands(text::lines(page));
    pages::lemma_heading(next);
    lemma_section(next);
    pages::lemma_line(none, next, none);
    assert(none + next + none =~= next);
    assert(none + next =~= next);
    lemma_another(page, next);
    lemma_outside(page + next + seq!['\n'], indent, gap, more);
}

proof fn lemma_section(next: Seq<char>)
    requires
        pages::heading(next),
        plain::in_small(next, "usage"@) || plain::in_small(next, "arguments"@) || plain::in_small(
            next,
            "examples"@,
        ) || plain::in_small(next, "description"@) || plain::in_small(next, "synopsis"@)
            || plain::in_small(next, "operands"@) || plain::in_small(next, "environment"@)
            || plain::in_small(next, "exit status"@) || plain::in_small(next, "files"@)
            || plain::in_small(next, "authors"@) || plain::in_small(next, "bugs"@)
            || plain::in_small(next, "see also"@) || forall|i: int|
            0 <= i < next.len() ==> !('a' <= #[trigger] next[i] && next[i] <= 'z'),
    ensures
        help::section_heading(next),
{
    pages::lemma_heading(next);
    assert forall|u: Seq<char>| #[trigger] plain::in_small(next, u) implies text::lower(next)
        == u by {
        pages::lemma_in_small(next, u);
    }
    if forall|i: int| 0 <= i < next.len() ==> !('a' <= #[trigger] next[i] && next[i] <= 'z') {
        assert(text::in_class(Class::AsciiLetter, next[next.len() - 1]));
        assert forall|i: int| 0 <= i < next.len() && text::ascii_letter(
            #[trigger] next[i],
        ) implies text::ascii_upper(next[i]) by {}
    }
}

proof fn lemma_outside(
    page: Seq<char>,
    indent: Seq<char>,
    gap: Seq<char>,
    rows: Seq<Described>,
)
    requires
        page.len() > 0,
        page.last() == '\n',
        !subcommands::scan_subcommands(text::lines(page)).inside,
        plain::spaces(indent),
        plain::spaces(gap),
        gap.len() >= 2,
        forall|i: int|
            0 <= i < rows.len() ==> subcommand_word((#[trigger] rows[i]).name) && remark(
                rows[i].description,
            ),
    ensures
        subcommands::scan_subcommands(text::lines(page + row_lines(indent, gap, rows)))
            == subcommands::scan_subcommands(text::lines(page)),
        (page + row_lines(indent, gap, rows)).last() == '\n',
    decreases rows.len(),
{
    if rows.len() == 0 {
        assert(page + row_lines(indent, gap, rows) =~= page);
    } else {
        let rest = rows.drop_last();
        let row = rows.last();
        assert forall|i: int| 0 <= i < rest.len() implies subcommand_word((#[trigger] rest[i]).name)
            && remark(rest[i].description) by {
            assert(rest[i] == rows[i]);
        }
        lemma_outside(page, indent, gap, rest);
        assert(row == rows[rows.len() - 1]);
        let shorter = page + row_lines(indent, gap, rest);
        let s = row.name + gap + row.description;
        let none = Seq::<char>::empty();
        assert forall|i: int| 0 <= i < row.name.len() implies plain::visible(
            #[trigger] row.name[i],
        ) by {
            assert(plain::name_char(row.name[i]));
        }
        lemma_printed_row(row.name, gap, row.description);
        pages::lemma_line(indent, s, none);
        assert(indent + s + none =~= indent + s);
        lemma_no_heading(row.name, gap, row.description);
        lemma_another(shorter, indent + s);
        assert(page + row_lines(indent, gap, rows) =~= shorter + (indent + s) + seq!['\n']);
    }
}

} // verus!

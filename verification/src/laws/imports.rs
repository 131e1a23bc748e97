//! What is read of a history file.
use vstd::prelude::*;
use vstd::utf8::*;
use crate::laws::plain;
use crate::laws::texts;
use crate::number;
use crate::store::history;
use crate::text;
use crate::store::history::EntryView;
use crate::text::Class;

verus! {

/// A character that a command may hold: anything but control characters, of
/// which only the tab is let through.
pub open spec fn storable(c: char) -> bool {
    c == '\t' || (' ' <= c && c <= '~') || c >= '\u{a0}'
}

/// A command that may be kept, if blanks at its start are not a reason against.
pub open spec fn storable_command(command: Seq<char>) -> bool {
    &&& command.len() > 0
    &&& encode_utf8(command).len() <= 65_536
    &&& forall|i: int| 0 <= i < command.len() ==> storable(#[trigger] command[i])
}

/// The number that decimal digits stand for.
pub open spec fn number_of(digits: Seq<char>) -> nat
    decreases digits.len(),
{
    if digits.len() == 0 {
        0
    } else {
        number_of(digits.drop_last()) * 10 + (digits.last() as nat - '0' as nat) as nat
    }
}

/// Decimal digits, at least one.
pub open spec fn digits_only(s: Seq<char>) -> bool {
    s.len() > 0 && forall|i: int| 0 <= i < s.len() ==> plain::digit(#[trigger] s[i])
}

/// Whether a command is kept hangs on its length, on its characters and, where
/// that is asked for, on a blank at its start, and on nothing else.
pub proof fn law_kept_commands(command: Seq<char>)
    ensures
        history::eligible(command, false) <==> storable_command(command),
        command.len() > 0 && plain::visible(command[0]) ==> (history::eligible(command, true)
            <==> storable_command(command)),
        command.len() > 0 && (command[0] == ' ' || command[0] == '\t') ==> !history::eligible(
            command,
            true,
        ),
{
    assert forall|c: char| storable(c) == !#[trigger] history::forbidden(c) by {}
    if history::eligible(command, false) {
        assert forall|i: int| 0 <= i < command.len() implies storable(#[trigger] command[i]) by {
            assert(!history::forbidden(command[i]));
        }
    }
    if storable_command(command) {
        assert forall|i: int| 0 <= i < command.len() implies !history::forbidden(
            #[trigger] command[i],
        ) by {
            assert(storable(command[i]));
        }
    }
}

proof fn lemma_another(before: Seq<char>, line: Seq<char>, blanks: bool)
    requires
        before.len() == 0 || before.last() == '\n',
        plain::lacks(line, '\n'),
        line.len() > 0 ==> line.last() != '\r',
    ensures
        ({
            let old_reading = history::reading(text::lines(before), blanks);
            let entry = history::parsed_line(line, history::clamped(text::lines(before).len() as int));
            let new_reading = history::reading(text::lines(before + line + seq!['\n']), blanks);
            &&& new_reading.open == (line.len() > 0 && line.last() == '\\')
            &&& new_reading.entries == if !old_reading.open && !new_reading.open
                && history::eligible(entry.command, blanks) {
                old_reading.entries.push(entry)
            } else {
                old_reading.entries
            }
        }),
{
    texts::law_another_line(before, line);
    assert(text::lines(before).push(line).drop_last() =~= text::lines(before));
}

proof fn lemma_kept_is_one_line(command: Seq<char>, blanks: bool)
    requires
        history::eligible(command, blanks),
    ensures
        plain::one_line(command),
        command.last() != '\r',
{
    assert forall|i: int| 0 <= i < command.len() implies #[trigger] command[i] != '\n' && command[i]
        != '\r' by {
        assert(!history::forbidden(command[i]));
    }
}

/// Behind a line that does not end in a backslash, and at the start of a file, an
/// extended line, which is a colon, a space, a stamp without semicolon, a
/// semicolon and a command that is kept, is read as that command, whatever
/// semicolons it holds itself. A stamp that starts with a number, up to a colon
/// or to its end, tells the second.
pub proof fn law_extended_line(
    before: Seq<char>,
    earlier: Seq<char>,
    stamp: Seq<char>,
    command: Seq<char>,
    blanks: bool,
)
    requires
        before.len() == 0 || before.last() == '\n',
        plain::lacks(earlier, '\n'),
        earlier.len() > 0 ==> earlier.last() != '\r' && earlier.last() != '\\',
        plain::lacks(stamp, ';'),
        plain::lacks(stamp, '\n'),
        history::eligible(command, blanks),
        command.last() != '\\',
    ensures
        ({
            let line = seq![':', ' '] + stamp + seq![';'] + command;
            let first = history::history_entries(line + seq!['\n'], blanks);
            let previous = before + earlier + seq!['\n'];
            let entries = history::history_entries(previous + line + seq!['\n'], blanks);
            let known = history::history_entries(previous, blanks);
            &&& first.len() == 1
            &&& first[0].command == command
            &&& entries.len() == known.len() + 1
            &&& entries.drop_last() == known
            &&& entries.last().command == command
        }),
{
    let line = seq![':', ' '] + stamp + seq![';'] + command;
    lemma_extended(stamp, command, blanks);
    lemma_another(before, earlier, blanks);
    let previous = before + earlier + seq!['\n'];
    lemma_another(previous, line, blanks);
    let none = Seq::<char>::empty();
    lemma_another(none, line, blanks);
    texts::law_lines(none, none);
    assert(none + line + seq!['\n'] =~= line + seq!['\n']);
    let known = history::history_entries(previous, blanks);
    let entry = history::parsed_line(line, history::clamped(text::lines(previous).len() as int));
    assert(known.push(entry).drop_last() =~= known);
}

proof fn lemma_extended(stamp: Seq<char>, command: Seq<char>, blanks: bool)
    requires
        plain::lacks(stamp, ';'),
        plain::lacks(stamp, '\n'),
        history::eligible(command, blanks),
        command.last() != '\\',
    ensures
        ({
            let line = seq![':', ' '] + stamp + seq![';'] + command;
            &&& plain::lacks(line, '\n')
            &&& line.last() != '\r'
            &&& line.last() != '\\'
            &&& forall|order: int| (#[trigger] history::parsed_line(line, order)).command == command
            &&& forall|order: int|
                (#[trigger] history::parsed_line(line, order)).observed_at == match history::stamp(
                    stamp,
                ) {
                    Some(seconds) => history::clamped(seconds * 1000),
                    None => order,
                }
        }),
{
    let line = seq![':', ' '] + stamp + seq![';'] + command;
    lemma_kept_is_one_line(command, blanks);
    reveal_strlit(": ");
    assert(": "@ =~= seq![':', ' ']);
    assert(line.take(2) =~= ": "@);
    assert(line.skip(2) =~= stamp + seq![';'] + command);
    texts::law_cut_once(stamp, ';', command);
    assert(line.last() == command.last());
    assert forall|i: int| 0 <= i < line.len() implies #[trigger] line[i] != '\n' by {
        if 2 <= i < 2 + stamp.len() {
            assert(line[i] == stamp[i - 2]);
        } else if i > 2 + stamp.len() {
            assert(line[i] == command[i - 3 - stamp.len()]);
        }
    }
}

pub proof fn lemma_number_of(digits: Seq<char>)
    requires
        forall|i: int| 0 <= i < digits.len() ==> plain::digit(#[trigger] digits[i]),
    ensures
        number_of(digits) == number::decimal_value(digits),
    decreases digits.len(),
{
    if digits.len() > 0 {
        let rest = digits.drop_last();
        assert forall|i: int| 0 <= i < rest.len() implies plain::digit(#[trigger] rest[i]) by {
            assert(rest[i] == digits[i]);
        }
        lemma_number_of(rest);
        assert(plain::digit(digits[digits.len() - 1]));
    }
}

/// The time of an extended line is its second, a thousandfold, as far as that can
/// be kept, however the line goes on behind the number; where the stamp starts
/// with no number, it is the number of lines before.
pub proof fn law_time_of_extended_line(
    before: Seq<char>,
    earlier: Seq<char>,
    digits: Seq<char>,
    tail: Seq<char>,
    command: Seq<char>,
    blanks: bool,
)
    requires
        before.len() == 0 || before.last() == '\n',
        plain::lacks(earlier, '\n'),
        earlier.len() > 0 ==> earlier.last() != '\r' && earlier.last() != '\\',
        plain::lacks(tail, ';'),
        plain::lacks(tail, '\n'),
        tail.len() > 0 ==> tail[0] == ':',
        history::eligible(command, blanks),
        command.last() != '\\',
        text::lines(before).len() < i64::MAX,
    ensures
        ({
            let previous = before + earlier + seq!['\n'];
            let line = seq![':', ' '] + (digits + tail) + seq![';'] + command;
            let entry = history::history_entries(previous + line + seq!['\n'], blanks).last();
            &&& digits_only(digits) && number_of(digits) * 1000 <= i64::MAX ==> entry.observed_at
                == number_of(digits) * 1000
            &&& digits_only(digits) && number_of(digits) <= i64::MAX && number_of(digits) * 1000
                > i64::MAX ==> entry.observed_at == i64::MAX
            &&& digits.len() == 0 ==> entry.observed_at == text::lines(before).len() + 1
        }),
{
    let stamp = digits + tail;
    let previous = before + earlier + seq!['\n'];
    let line = seq![':', ' '] + stamp + seq![';'] + command;
    lemma_another(before, earlier, blanks);
    texts::law_another_line(before, earlier);
    if digits_only(digits) || digits.len() == 0 {
        assert forall|i: int| 0 <= i < digits.len() implies #[trigger] digits[i] != ';' && digits[i]
            != '\n' && digits[i] != ':' by {
            assert(plain::digit(digits[i]));
        }
        assert forall|i: int| 0 <= i < stamp.len() implies #[trigger] stamp[i] != ';' && stamp[i]
            != '\n' by {
            if i < digits.len() {
                assert(stamp[i] == digits[i]);
            } else {
                assert(stamp[i] == tail[i - digits.len()]);
            }
        }
        lemma_extended(stamp, command, blanks);
        lemma_another(previous, line, blanks);
        text::lemma_span_is(stamp, Class::Only(':'), false, digits.len());
        assert(stamp.take(digits.len() as int) =~= digits);
        lemma_number_of(digits);
        if digits_only(digits) {
            assert(plain::digit(digits[0]));
            assert forall|i: int| 0 <= i < digits.len() implies text::in_class(
                Class::AsciiDigit,
                #[trigger] digits[i],
            ) by {
                assert(plain::digit(digits[i]));
            }
        }
    }
}

/// A line that does not start like an extended one is a command as it stands, in
/// the order of the lines, if it is kept; otherwise nothing is read of it.
pub proof fn law_simple_line(before: Seq<char>, earlier: Seq<char>, line: Seq<char>, blanks: bool)
    requires
        before.len() == 0 || before.last() == '\n',
        plain::lacks(earlier, '\n'),
        earlier.len() > 0 ==> earlier.last() != '\r' && earlier.last() != '\\',
        plain::lacks(line, '\n'),
        line.len() > 0 ==> line.last() != '\r' && line.last() != '\\',
        line.len() >= 2 ==> line[0] != ':' || line[1] != ' ' || plain::lacks(line, ';'),
        text::lines(before).len() < i64::MAX,
    ensures
        ({
            let previous = before + earlier + seq!['\n'];
            let entries = history::history_entries(previous + line + seq!['\n'], blanks);
            let known = history::history_entries(previous, blanks);
            if history::eligible(line, blanks) {
                entries == known.push(
                    EntryView {
                        command: line,
                        observed_at: text::lines(before).len() as int + 1,
                    },
                )
            } else {
                entries == known
            }
        }),
{
    let previous = before + earlier + seq!['\n'];
    lemma_another(before, earlier, blanks);
    texts::law_another_line(before, earlier);
    lemma_another(previous, line, blanks);
    reveal_strlit(": ");
    assert(": "@ =~= seq![':', ' ']);
    if text::starts_with(line, ": "@) {
        assert(line.take(2)[0] == ':' && line.take(2)[1] == ' ');
        let rest = line.skip(2);
        assert forall|i: int| 0 <= i < rest.len() implies #[trigger] rest[i] != ';' by {
            assert(rest[i] == line[i + 2]);
        }
        texts::law_cut_once(rest, ';', Seq::empty());
    }
}

/// A command that goes on in the next line is not read: neither the line that
/// ends in a backslash nor the one behind it says anything.
pub proof fn law_continued_lines(
    before: Seq<char>,
    line: Seq<char>,
    next: Seq<char>,
    blanks: bool,
)
    requires
        before.len() == 0 || before.last() == '\n',
        plain::lacks(line, '\n'),
        plain::lacks(next, '\n'),
        next.len() > 0 ==> next.last() != '\r',
    ensures
        history::history_entries(
            before + (line + seq!['\\']) + seq!['\n'] + next + seq!['\n'],
            blanks,
        ) == history::history_entries(before, blanks),
        history::history_entries(before + (line + seq!['\\']) + seq!['\n'], blanks)
            == history::history_entries(before, blanks),
{
    let first = line + seq!['\\'];
    lemma_another(before, first, blanks);
    lemma_another(before + first + seq!['\n'], next, blanks);
}

} // verus!

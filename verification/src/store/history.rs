//! Shell history as text: which commands are kept, how a history file is read,
//! and how a prefix becomes a pattern.
use vstd::prelude::*;
use vstd::utf8::*;
use crate::number;
use crate::records;
use crate::text;
use crate::number::parse_signed;
use crate::store::error::StoreError;
use crate::text::{
    begins_with_str, chars_of, from_index, line_pieces, span_end, text_of, up_to, Class,
};

verus! {

/// The length of a command that is kept, in bytes.
pub const MAX_COMMAND_BYTES: usize = 65_536;

/// How many commands a history file may hold.
pub const MAX_HISTORY_ENTRIES: usize = 250_000;

// ---------------------------------------------------------------------------
// Commands that are kept
// ---------------------------------------------------------------------------

/// A character that no kept command holds: a control character besides the tab.
pub open spec fn forbidden(c: char) -> bool {
    text::control(c) && c != '\t'
}

/// A command that is kept.
pub open spec fn eligible(command: Seq<char>, ignore_leading_space: bool) -> bool {
    &&& command.len() > 0
    &&& encode_utf8(command).len() <= MAX_COMMAND_BYTES
    &&& !(ignore_leading_space && text::whitespace(command[0]))
    &&& forall|i: int| 0 <= i < command.len() ==> !forbidden(#[trigger] command[i])
}

/// Whether a command is kept.
pub fn eligible_command(command: &str, ignore_leading_space: bool) -> (b: bool)
    ensures
        b == eligible(command@, ignore_leading_space),
{
    let all = chars_of(command);
    let s = all.as_slice();
    if s.len() == 0 || command.as_bytes().len() > MAX_COMMAND_BYTES {
        return false;
    }
    if ignore_leading_space && Class::Whitespace.admits(s[0]) {
        return false;
    }
    let mut i: usize = 0;
    while i < s.len()
        invariant
            i <= s@.len(),
            s@ == command@,
            forall|j: int| 0 <= j < i ==> !forbidden(#[trigger] s@[j]),
        decreases s.len() - i,
    {
        if Class::Control.admits(s[i]) && s[i] != '\t' {
            assert(forbidden(command@[i as int]));
            return false;
        }
        i += 1;
    }
    true
}

// ---------------------------------------------------------------------------
// History files
// ---------------------------------------------------------------------------

/// A command in a history file.
#[derive(Debug, PartialEq, Eq)]
pub struct HistoryEntry {
    pub command: String,
    pub observed_at_ms: i64,
}

/// What a history file says about a command.
pub struct EntryView {
    pub command: Seq<char>,
    pub observed_at: int,
}

impl DeepView for HistoryEntry {
    type V = EntryView;

    open spec fn deep_view(&self) -> EntryView {
        EntryView { command: self.command@, observed_at: self.observed_at_ms as int }
    }
}

/// A number within the range of a signed 64-bit integer.
pub open spec fn clamped(n: int) -> int {
    if n > i64::MAX {
        i64::MAX as int
    } else if n < i64::MIN {
        i64::MIN as int
    } else {
        n
    }
}

/// The seconds at the start of what stands before the command.
pub open spec fn stamp(metadata: Seq<char>) -> Option<int> {
    number::signed_value(metadata.take(text::span(metadata, Class::Only(':'), false) as int))
}

/// What a line of a history file says. An extended one starts with `: `, the
/// seconds, and more up to a semicolon; any other is a command, which its
/// position orders.
pub open spec fn parsed_line(line: Seq<char>, order: int) -> EntryView {
    let lead = ": "@;
    let rest = line.skip(lead.len() as int);
    if text::starts_with(line, lead) && text::split_once(rest, ';') is Some {
        let parts = text::split_once(rest, ';')->Some_0;
        EntryView {
            command: parts.1,
            observed_at: match stamp(parts.0) {
                Some(seconds) => clamped(seconds * 1000),
                None => order,
            },
        }
    } else {
        EntryView { command: line, observed_at: order }
    }
}

/// A line that the next one continues.
pub open spec fn continued(line: Seq<char>) -> bool {
    line.len() > 0 && line.last() == '\\'
}

/// A history file read up to some line.
pub struct Reading {
    pub entries: Seq<EntryView>,
    /// The next line continues this one.
    pub open: bool,
}

/// The kept commands of a history file. A command that spans lines is skipped.
pub open spec fn reading(list: Seq<Seq<char>>, ignore_leading_space: bool) -> Reading
    decreases list.len(),
{
    if list.len() == 0 {
        Reading { entries: Seq::empty(), open: false }
    } else {
        let before = reading(list.drop_last(), ignore_leading_space);
        let line = list.last();
        let entry = parsed_line(line, clamped(list.len() - 1));
        Reading {
            entries: if !before.open && !continued(line) && eligible(
                entry.command,
                ignore_leading_space,
            ) {
                before.entries.push(entry)
            } else {
                before.entries
            },
            open: continued(line),
        }
    }
}

/// The kept commands of a history file.
pub open spec fn history_entries(content: Seq<char>, ignore_leading_space: bool) -> Seq<EntryView> {
    reading(text::lines(content), ignore_leading_space).entries
}

/// Every command that is read from a history file is one that is kept.
pub proof fn law_history_entries_are_eligible(content: Seq<char>, ignore_leading_space: bool)
    ensures
        forall|i: int|
            0 <= i < history_entries(content, ignore_leading_space).len() ==> eligible(
                (#[trigger] history_entries(content, ignore_leading_space)[i]).command,
                ignore_leading_space,
            ),
        history_entries(content, ignore_leading_space).len() <= text::lines(content).len(),
{
    lemma_reading(text::lines(content), ignore_leading_space);
}

proof fn lemma_reading(list: Seq<Seq<char>>, ignore_leading_space: bool)
    ensures
        forall|i: int|
            0 <= i < reading(list, ignore_leading_space).entries.len() ==> eligible(
                (#[trigger] reading(list, ignore_leading_space).entries[i]).command,
                ignore_leading_space,
            ),
        reading(list, ignore_leading_space).entries.len() <= list.len(),
    decreases list.len(),
{
    if list.len() > 0 {
        lemma_reading(list.drop_last(), ignore_leading_space);
    }
}

proof fn lemma_reading_grows(list: Seq<Seq<char>>, ignore_leading_space: bool, n: int)
    requires
        0 <= n <= list.len(),
    ensures
        reading(list.take(n), ignore_leading_space).entries.len() <= reading(
            list,
            ignore_leading_space,
        ).entries.len(),
    decreases list.len() - n,
{
    if n < list.len() {
        lemma_reading_grows(list, ignore_leading_space, n + 1);
        assert(list.take(n + 1).drop_last() =~= list.take(n));
    } else {
        assert(list.take(n) =~= list);
    }
}

fn thousandfold(seconds: i64) -> (r: i64)
    ensures
        r == clamped(seconds * 1000),
{
    if seconds > 9_223_372_036_854_775 {
        i64::MAX
    } else if seconds < -9_223_372_036_854_775 {
        i64::MIN
    } else {
        seconds * 1000
    }
}

/// What a line of a history file says.
fn parse_zsh_history_line(line: &[char], order: i64) -> (r: HistoryEntry)
    ensures
        r.deep_view() == parsed_line(line@, order as int),
{
    if begins_with_str(line, ": ") {
        proof {
            reveal_strlit(": ");
        }
        let rest = from_index(line, 2);
        let end: usize = span_end(rest, 0, Class::Only(';'), false);
        assert(rest@.skip(0) =~= rest@);
        if end < rest.len() {
            let metadata = up_to(rest, end);
            let command = from_index(rest, end + 1);
            let colon: usize = span_end(metadata, 0, Class::Only(':'), false);
            assert(metadata@.skip(0) =~= metadata@);
            let observed_at_ms: i64 = match parse_signed(up_to(metadata, colon)) {
                Some(seconds) => thousandfold(seconds),
                None => order,
            };
            return HistoryEntry { command: text_of(command), observed_at_ms };
        }
    }
    HistoryEntry { command: text_of(line), observed_at_ms: order }
}

/// The kept commands of a history file, unless there are too many.
pub fn parse_zsh_history(content: &str, ignore_leading_space: bool) -> (r: Result<
    Vec<HistoryEntry>,
    StoreError,
>)
    ensures
        match r {
            Ok(list) => list.deep_view() == history_entries(content@, ignore_leading_space)
                && list@.len() <= MAX_HISTORY_ENTRIES,
            Err(e) => history_entries(content@, ignore_leading_space).len() > MAX_HISTORY_ENTRIES
                && e is TooManyEntries,
        },
{
    let all = chars_of(content);
    let list = line_pieces(all.as_slice());
    let ghost texts = text::lines(content@);
    let mut entries: Vec<HistoryEntry> = Vec::new();
    let mut open = false;
    let mut i: usize = 0;
    assert(entries.deep_view() =~= Seq::<EntryView>::empty());
    while i < list.len()
        invariant
            i <= list@.len(),
            text::pieces(list@) == texts,
            entries@.len() <= MAX_HISTORY_ENTRIES,
            texts == text::lines(content@),
            entries.deep_view() == reading(texts.take(i as int), ignore_leading_space).entries,
            open == reading(texts.take(i as int), ignore_leading_space).open,
        decreases list.len() - i,
    {
        let ghost before = entries.deep_view();
        let line = list[i];
        proof {
            assert(texts[i as int] == line@);
            assert(texts.take(i + 1).drop_last() =~= texts.take(i as int));
            assert(texts.take(i + 1).last() == line@);
        }
        let is_continued = line.len() > 0 && line[line.len() - 1] == '\\';
        if !open && !is_continued {
            let order: i64 = if i as u64 > 9_223_372_036_854_775_807 {
                i64::MAX
            } else {
                i as i64
            };
            let entry = parse_zsh_history_line(line, order);
            if eligible_command(entry.command.as_str(), ignore_leading_space) {
                entries.push(entry);
                assert(entries.deep_view() =~= before.push(entry.deep_view()));
                if entries.len() > MAX_HISTORY_ENTRIES {
                    proof {
                        lemma_reading_grows(texts, ignore_leading_space, i + 1);
                    }
                    return Err(StoreError::TooManyEntries);
                }
            }
        }
        open = is_continued;
        i += 1;
    }
    assert(texts.take(texts.len() as int) =~= texts);
    Ok(entries)
}

// ---------------------------------------------------------------------------
// Patterns
// ---------------------------------------------------------------------------

/// A character that means something in a pattern.
pub open spec fn pattern_mark(c: char) -> bool {
    c == '%' || c == '_' || c == '\\'
}

/// A text as a pattern that stands for it alone.
pub open spec fn like_escaped(s: Seq<char>) -> Seq<char>
    decreases s.len(),
{
    if s.len() == 0 {
        s
    } else if pattern_mark(s.last()) {
        like_escaped(s.drop_last()).push('\\').push(s.last())
    } else {
        like_escaped(s.drop_last()).push(s.last())
    }
}

/// Whether a text matches a pattern of the `LIKE` operator with the escape
/// character `\`: `%` stands for any text, `_` for any character, and a
/// character behind the escape for itself.
pub open spec fn like(pattern: Seq<char>, text: Seq<char>) -> bool
    decreases pattern.len(),
{
    if pattern.len() == 0 {
        text.len() == 0
    } else if pattern[0] == '%' {
        exists|k: int| 0 <= k <= text.len() && like(pattern.skip(1), #[trigger] text.skip(k))
    } else if pattern[0] == '_' {
        text.len() > 0 && like(pattern.skip(1), text.skip(1))
    } else if pattern[0] == '\\' {
        pattern.len() > 1 && text.len() > 0 && text[0] == pattern[1] && like(
            pattern.skip(2),
            text.skip(1),
        )
    } else {
        text.len() > 0 && text[0] == pattern[0] && like(pattern.skip(1), text.skip(1))
    }
}

/// How one character stands in a pattern.
pub open spec fn like_mark(c: char) -> Seq<char> {
    if pattern_mark(c) {
        seq!['\\', c]
    } else {
        seq![c]
    }
}

proof fn lemma_like_escaped_front(s: Seq<char>)
    requires
        s.len() > 0,
    ensures
        like_escaped(s) == like_mark(s[0]) + like_escaped(s.skip(1)),
    decreases s.len(),
{
    if s.len() == 1 {
        assert(s.drop_last() =~= Seq::<char>::empty());
        assert(s.skip(1) =~= Seq::<char>::empty());
        assert(like_escaped(s) =~= like_mark(s[0]) + like_escaped(s.skip(1)));
    } else {
        lemma_like_escaped_front(s.drop_last());
        assert(s.skip(1).drop_last() =~= s.drop_last().skip(1));
        assert(like_escaped(s) =~= like_mark(s[0]) + like_escaped(s.skip(1)));
    }
}

/// The pattern of an escaped prefix matches the texts that start with the
/// prefix, and no others.
pub proof fn law_prefix_pattern(prefix: Seq<char>, text: Seq<char>)
    ensures
        like(like_escaped(prefix).push('%'), text) <==> text::starts_with(text, prefix),
    decreases prefix.len(),
{
    let pattern = like_escaped(prefix).push('%');
    if prefix.len() == 0 {
        assert(pattern =~= seq!['%']);
        assert(pattern.skip(1).len() == 0);
        assert(like(pattern.skip(1), text.skip(text.len() as int)));
        assert(pattern[0] == '%');
        assert(like(pattern, text));
        assert(text.take(prefix.len() as int) =~= prefix);
    } else {
        let rest = prefix.skip(1);
        let c = prefix[0];
        lemma_like_escaped_front(prefix);
        let tail = like_escaped(rest).push('%');
        assert(pattern =~= like_mark(c) + tail);
        if pattern_mark(c) {
            assert(pattern[0] == '\\' && pattern[1] == c);
            assert(pattern.skip(2) =~= tail);
        } else {
            assert(pattern[0] == c);
            assert(pattern.skip(1) =~= tail);
        }
        if text.len() > 0 {
            law_prefix_pattern(rest, text.skip(1));
            assert(like(pattern, text) <==> text[0] == c && like(tail, text.skip(1)));
            if text::starts_with(text, prefix) {
                assert(text.take(prefix.len() as int)[0] == c);
                assert(text.skip(1).take(rest.len() as int) =~= prefix.skip(1)) by {
                    assert(text.take(prefix.len() as int).skip(1) =~= text.skip(1).take(
                        rest.len() as int,
                    ));
                }
            }
            if text[0] == c && text::starts_with(text.skip(1), rest) {
                assert(text.take(prefix.len() as int) =~= seq![c] + text.skip(1).take(
                    rest.len() as int,
                ));
                assert(prefix =~= seq![c] + rest);
                assert(text::starts_with(text, prefix));
            }
            assert(text::starts_with(text, prefix) <==> text[0] == c && text::starts_with(text.skip(1), rest));
        } else {
            assert(!like(pattern, text));
        }
    }
}

/// A pattern of an escaped text matches that text, and no other.
pub proof fn law_escaped_pattern(s: Seq<char>, text: Seq<char>)
    ensures
        like(like_escaped(s), text) <==> text == s,
    decreases s.len(),
{
    let pattern = like_escaped(s);
    if s.len() == 0 {
        assert(text.len() == 0 ==> text =~= s);
    } else {
        let rest = s.skip(1);
        let c = s[0];
        lemma_like_escaped_front(s);
        if pattern_mark(c) {
            assert(pattern[0] == '\\' && pattern[1] == c);
            assert(pattern.skip(2) =~= like_escaped(rest));
        } else {
            assert(pattern[0] == c);
            assert(pattern.skip(1) =~= like_escaped(rest));
        }
        if text.len() > 0 {
            law_escaped_pattern(rest, text.skip(1));
            assert(text =~= seq![text[0]] + text.skip(1));
            assert(s =~= seq![c] + rest);
        }
    }
}

/// A text answers to a prefix: it starts with it. The database reads a text only
/// up to a NUL, so a prefix that holds one stands for what comes before it, and a
/// text answers to it that is no more than that.
pub open spec fn answers(prefix: Seq<char>, text: Seq<char>) -> bool {
    if records::without_nul(prefix) {
        text::starts_with(text, prefix)
    } else {
        records::until_nul(text) == records::until_nul(prefix)
    }
}

/// A text that starts with a prefix answers to it.
pub proof fn law_start_answers(prefix: Seq<char>, text: Seq<char>)
    requires
        text::starts_with(text, prefix),
    ensures
        answers(prefix, text),
{
    let rest = text.skip(prefix.len() as int);
    assert(text =~= prefix + rest);
    records::lemma_until_nul_prefix(rest, prefix);
}

proof fn lemma_escaped_until_nul(prefix: Seq<char>)
    ensures
        records::until_nul(like_escaped(prefix).push('%')) == if records::without_nul(prefix) {
            like_escaped(prefix).push('%')
        } else {
            like_escaped(records::until_nul(prefix))
        },
    decreases prefix.len(),
{
    let pattern = like_escaped(prefix).push('%');
    if prefix.len() == 0 {
        records::lemma_until_nul(pattern);
    } else {
        let rest = prefix.skip(1);
        let c = prefix[0];
        let tail = like_escaped(rest).push('%');
        lemma_like_escaped_front(prefix);
        assert(pattern =~= like_mark(c) + tail);
        lemma_escaped_until_nul(rest);
        records::lemma_until_nul_prefix(tail, like_mark(c));
        records::lemma_until_nul_prefix(rest, seq![c]);
        assert(prefix =~= seq![c] + rest);
        if c == '\0' {
            assert(!records::without_nul(prefix));
            assert(like_mark(c)[0] == '\0');
            assert(records::until_nul(pattern) =~= Seq::<char>::empty());
            assert(records::until_nul(prefix) =~= Seq::<char>::empty());
        } else {
            assert(records::without_nul(like_mark(c)));
            assert(records::without_nul(prefix) == records::without_nul(rest)) by {
                if records::without_nul(rest) {
                    assert forall|i: int| 0 <= i < prefix.len() implies #[trigger] prefix[i]
                        != '\0' by {
                        if i > 0 {
                            assert(rest[i - 1] != '\0');
                        }
                    }
                }
                if records::without_nul(prefix) {
                    assert forall|i: int| 0 <= i < rest.len() implies #[trigger] rest[i]
                        != '\0' by {
                        assert(prefix[i + 1] != '\0');
                    }
                }
            }
            let read = seq![c] + records::until_nul(rest);
            assert(records::until_nul(prefix) =~= read);
            lemma_like_escaped_front(read);
            assert(read.skip(1) =~= records::until_nul(rest));
        }
    }
}

/// The pattern of an escaped prefix finds the texts that answer to the prefix,
/// and no others, where pattern and text are read up to a NUL.
pub proof fn law_pattern_as_read(prefix: Seq<char>, text: Seq<char>)
    ensures
        like(records::until_nul(like_escaped(prefix).push('%')), records::until_nul(text))
            <==> answers(prefix, text),
{
    let read = records::until_nul(text);
    lemma_escaped_until_nul(prefix);
    if records::without_nul(prefix) {
        law_prefix_pattern(prefix, read);
        lemma_starts_as_read(prefix, text);
    } else {
        law_escaped_pattern(records::until_nul(prefix), read);
    }
}

proof fn lemma_starts_as_read(prefix: Seq<char>, text: Seq<char>)
    requires
        records::without_nul(prefix),
    ensures
        text::starts_with(records::until_nul(text), prefix) <==> text::starts_with(text, prefix),
    decreases text.len(),
{
    let read = records::until_nul(text);
    if prefix.len() == 0 {
        assert(read.take(0) =~= prefix);
        assert(text.take(0) =~= prefix);
    } else if text.len() > 0 {
        assert(prefix[0] != '\0');
        let rest = prefix.skip(1);
        assert forall|i: int| 0 <= i < rest.len() implies #[trigger] rest[i] != '\0' by {
            assert(prefix[i + 1] != '\0');
        }
        assert(prefix =~= seq![prefix[0]] + rest);
        let n = prefix.len() as int;
        if text[0] == '\0' {
            if text::starts_with(text, prefix) {
                assert(text.take(n)[0] == prefix[0]);
            }
        } else {
            lemma_starts_as_read(rest, text.skip(1));
            let after = records::until_nul(text.skip(1));
            assert(read.skip(1) =~= after);
            lemma_starts_step(text, prefix);
            lemma_starts_step(read, prefix);
        }
    }
}

proof fn lemma_starts_step(text: Seq<char>, prefix: Seq<char>)
    requires
        text.len() > 0,
        prefix.len() > 0,
    ensures
        text::starts_with(text, prefix) <==> text[0] == prefix[0] && text::starts_with(
            text.skip(1),
            prefix.skip(1),
        ),
{
    let n = prefix.len() as int;
    if text::starts_with(text, prefix) {
        assert(text.take(n)[0] == prefix[0]);
        assert(text.skip(1).take(n - 1) =~= text.take(n).skip(1));
    }
    if text[0] == prefix[0] && text::starts_with(text.skip(1), prefix.skip(1)) {
        assert(text.take(n) =~= seq![text[0]] + text.skip(1).take(n - 1));
        assert(prefix =~= seq![prefix[0]] + prefix.skip(1));
    }
}

/// A text as a pattern that stands for it alone.
pub fn escape_like(value: &str) -> (r: String)
    ensures
        r@ == like_escaped(value@),
{
    let all = chars_of(value);
    let mut out: Vec<char> = Vec::new();
    let mut i: usize = 0;
    assert(out@ =~= all@.take(0));
    while i < all.len()
        invariant
            i <= all@.len(),
            all@ == value@,
            out@ == like_escaped(all@.take(i as int)),
        decreases all.len() - i,
    {
        let c = all[i];
        assert(all@.take(i + 1).drop_last() =~= all@.take(i as int));
        if c == '%' || c == '_' || c == '\\' {
            out.push('\\');
        }
        out.push(c);
        i += 1;
    }
    assert(all@.take(all@.len() as int) =~= all@);
    text_of(out.as_slice())
}

} // verus!

//! Previews of commands that only read: which lines are executed, how, and what
//! is shown of their output.
use vstd::prelude::*;
use vstd::utf8::*;
use crate::order;
use crate::preview::ansi;
use crate::preview::file;
use crate::records;
use crate::text;
use crate::preview::ansi::{styled_line, CommandPreviewLine, LineView};
use crate::preview::error::PreviewError;
use crate::preview::file::{decode_lossy, MAX_PREVIEW_LINES};
use crate::records::records_of;
use crate::text::{begins_with_str, chars_of, line_pieces, same_as, text_of, word_pieces, Class};

verus! {

/// The size of a line that is previewed, in bytes.
pub const MAX_COMMAND_LINE_BYTES: usize = 16_384;

/// A character that no previewed line holds.
pub open spec fn shell_char(c: char) -> bool {
    text::control(c) || text::in_class(Class::ShellMeta, c) || c == '\\' || c == '~'
}

/// A line that is a command with arguments and nothing more.
pub open spec fn plain_line(line: Seq<char>) -> bool {
    &&& line.len() > 0
    &&& encode_utf8(line).len() <= MAX_COMMAND_LINE_BYTES
    &&& forall|i: int| 0 <= i < line.len() ==> !shell_char(#[trigger] line[i])
}

/// A command that is known to only read.
pub open spec fn reader(name: Seq<char>) -> bool {
    name == "ls"@ || name == "gls"@ || name == "eza"@
}

/// An argument that is passed on: not one that would change how the output is
/// marked up.
pub open spec fn passes(name: Seq<char>, argument: Seq<char>) -> bool {
    &&& !text::starts_with(argument, "--color"@)
    &&& !text::starts_with(argument, "--colour"@)
    &&& !text::starts_with(argument, "--hyperlink"@)
    &&& name == "eza"@ ==> !text::starts_with(argument, "--icons"@)
    &&& name != "eza"@ ==> argument != "--dired"@ && argument != "-G"@
}

pub open spec fn passing(name: Seq<char>) -> spec_fn(Seq<char>) -> bool {
    |argument: Seq<char>| passes(name, argument)
}

/// The arguments that are added: colours and nothing else from `eza`, plain
/// output from the others where they know how to be asked for it.
pub open spec fn added_arguments(name: Seq<char>, linux: bool) -> Seq<Seq<char>> {
    if name == "eza"@ {
        seq!["--color=always"@, "--icons=never"@, "--width=80"@]
    } else if name == "gls"@ || linux {
        seq!["--color=never"@, "--hyperlink=never"@]
    } else {
        Seq::empty()
    }
}

/// The arguments of a previewed line.
pub open spec fn preview_arguments(line: Seq<char>, linux: bool) -> Seq<Seq<char>> {
    let all = text::words(line, Class::AsciiWhitespace);
    all.drop_first().filter(passing(all[0])) + added_arguments(all[0], linux)
}

/// Why a line is not previewed.
pub open spec fn line_problem(line: Seq<char>) -> Option<PreviewError> {
    let all = text::words(line, Class::AsciiWhitespace);
    if !plain_line(line) {
        Some(PreviewError::ShellSyntax)
    } else if all.len() == 0 {
        Some(PreviewError::NoCommand)
    } else if !reader(all[0]) {
        Some(PreviewError::OtherCommand)
    } else {
        None
    }
}

/// Only three commands are ever executed, by their bare names, with arguments
/// that the shell would leave as they are.
pub proof fn law_only_readers_are_executed(line: Seq<char>, linux: bool)
    requires
        line_problem(line) is None,
    ensures
        reader(text::words(line, Class::AsciiWhitespace)[0]),
        forall|i: int| 0 <= i < line.len() ==> !shell_char(#[trigger] line[i]),
        forall|i: int|
            0 <= i < preview_arguments(line, linux).len() - added_arguments(
                text::words(line, Class::AsciiWhitespace)[0],
                linux,
            ).len() ==> text::words(line, Class::AsciiWhitespace).contains(
                #[trigger] preview_arguments(line, linux)[i],
            ),
{
    let all = text::words(line, Class::AsciiWhitespace);
    let rest = all.drop_first();
    let keep = passing(all[0]);
    let kept = rest.filter(keep);
    assert forall|i: int|
        0 <= i < preview_arguments(line, linux).len() - added_arguments(
            all[0],
            linux,
        ).len() implies all.contains(#[trigger] preview_arguments(line, linux)[i]) by {
        assert(preview_arguments(line, linux)[i] == kept[i]);
        assert(kept.contains(kept[i]));
        rest.lemma_filter_contains_rev(keep, kept[i]);
        let k = choose|k: int| 0 <= k < rest.len() && rest[k] == kept[i];
        assert(all[k + 1] == kept[i]);
    }
}

fn is_plain_line(line: &str, all: &[char]) -> (b: bool)
    requires
        all@ == line@,
    ensures
        b == plain_line(line@),
{
    if all.len() == 0 || line.as_bytes().len() > MAX_COMMAND_LINE_BYTES {
        return false;
    }
    let mut i: usize = 0;
    while i < all.len()
        invariant
            i <= all@.len(),
            all@ == line@,
            forall|j: int| 0 <= j < i ==> !shell_char(#[trigger] all@[j]),
        decreases all.len() - i,
    {
        let c = all[i];
        if Class::Control.admits(c) || Class::ShellMeta.admits(c) || c == '\\' || c == '~' {
            assert(shell_char(line@[i as int]));
            return false;
        }
        i += 1;
    }
    true
}

fn is_passed_on(name: &[char], argument: &[char]) -> (b: bool)
    ensures
        b == passes(name@, argument@),
{
    if begins_with_str(argument, "--color") || begins_with_str(argument, "--colour")
        || begins_with_str(argument, "--hyperlink") {
        return false;
    }
    if same_as(name, "eza") {
        !begins_with_str(argument, "--icons")
    } else {
        !same_as(argument, "--dired") && !same_as(argument, "-G")
    }
}

fn push_added(arguments: &mut Vec<String>, name: &[char], linux: bool)
    ensures
        final(arguments).deep_view() == old(arguments).deep_view() + added_arguments(name@, linux),
{
    let ghost before = arguments.deep_view();
    if same_as(name, "eza") {
        arguments.push("--color=always".to_string());
        arguments.push("--icons=never".to_string());
        arguments.push("--width=80".to_string());
    } else if same_as(name, "gls") || linux {
        arguments.push("--color=never".to_string());
        arguments.push("--hyperlink=never".to_string());
    }
    assert(arguments.deep_view() =~= before + added_arguments(name@, linux));
}

/// The command of a line and its arguments, if it is one that is previewed.
pub fn command_preview_argv(line: &str, linux: bool) -> (r: Result<
    (String, Vec<String>),
    PreviewError,
>)
    ensures
        match r {
            Ok(found) => {
                &&& line_problem(line@) is None
                &&& found.0@ == text::words(line@, Class::AsciiWhitespace)[0]
                &&& found.1.deep_view() == preview_arguments(line@, linux)
            },
            Err(e) => line_problem(line@) == Some(e),
        },
{
    let all = chars_of(line);
    if !is_plain_line(line, all.as_slice()) {
        return Err(PreviewError::ShellSyntax);
    }
    let parts = word_pieces(all.as_slice(), Class::AsciiWhitespace);
    let ghost list = text::pieces(parts@);
    if parts.len() == 0 {
        return Err(PreviewError::NoCommand);
    }
    let name = parts[0];
    assert(list[0] == name@);
    if !(same_as(name, "ls") || same_as(name, "gls") || same_as(name, "eza")) {
        return Err(PreviewError::OtherCommand);
    }
    let ghost rest = list.drop_first();
    let ghost keep = passing(name@);
    let mut arguments: Vec<String> = Vec::new();
    let mut i: usize = 1;
    proof {
        reveal(Seq::filter);
        assert(arguments.deep_view() =~= rest.take(0).filter(keep));
    }
    while i < parts.len()
        invariant
            1 <= i <= parts@.len(),
            list == text::pieces(parts@),
            rest == list.drop_first(),
            keep == passing(name@),
            arguments.deep_view() == rest.take(i - 1).filter(keep),
        decreases parts.len() - i,
    {
        let ghost before = arguments.deep_view();
        let argument = parts[i];
        proof {
            assert(rest[i - 1] == argument@);
            assert(rest.take(i as int) =~= rest.take(i - 1).push(argument@));
            rest.take(i - 1).lemma_filter_push(argument@, keep);
        }
        if is_passed_on(name, argument) {
            let text = text_of(argument);
            arguments.push(text);
            assert(arguments.deep_view() =~= before.push(argument@));
        }
        i += 1;
    }
    assert(rest.take(rest.len() as int) =~= rest);
    push_added(&mut arguments, name, linux);
    Ok((text_of(name), arguments))
}

/// A setting of the environment that a previewed command gets, or loses.
pub struct Setting {
    pub name: Seq<char>,
    pub value: Option<Seq<char>>,
}

/// The environment of a previewed command: colours only from `eza`.
pub open spec fn preview_settings(name: Seq<char>) -> Seq<Setting> {
    let shared = seq![
        Setting { name: "LC_ALL"@, value: Some("C"@) },
        Setting { name: "COLUMNS"@, value: Some("80"@) },
    ];
    if name == "eza"@ {
        shared + seq![
            Setting { name: "TERM"@, value: Some("xterm-256color"@) },
            Setting { name: "NO_COLOR"@, value: None },
        ]
    } else {
        shared + seq![
            Setting { name: "TERM"@, value: Some("dumb"@) },
            Setting { name: "NO_COLOR"@, value: Some("1"@) },
            Setting { name: "CLICOLOR"@, value: Some("0"@) },
        ]
    }
}

pub open spec fn settings_view(list: Seq<(&'static str, Option<&'static str>)>) -> Seq<Setting> {
    list.map_values(
        |s: (&'static str, Option<&'static str>)|
            Setting {
                name: s.0@,
                value: match s.1 {
                    Some(v) => Some(v@),
                    None => None,
                },
            },
    )
}

/// The environment of a previewed command: values that are set, and names that
/// are removed.
pub fn preview_environment(name: &str) -> (r: Vec<(&'static str, Option<&'static str>)>)
    ensures
        settings_view(r@) == preview_settings(name@),
{
    let mut list: Vec<(&'static str, Option<&'static str>)> = Vec::new();
    list.push(("LC_ALL", Some("C")));
    list.push(("COLUMNS", Some("80")));
    if crate::text::same_text(name, "eza") {
        list.push(("TERM", Some("xterm-256color")));
        list.push(("NO_COLOR", None));
    } else {
        list.push(("TERM", Some("dumb")));
        list.push(("NO_COLOR", Some("1")));
        list.push(("CLICOLOR", Some("0")));
    }
    assert(settings_view(list@) =~= preview_settings(name@));
    list
}

// ---------------------------------------------------------------------------
// Output
// ---------------------------------------------------------------------------

pub open spec fn shown_output(line: Seq<char>) -> Option<LineView> {
    let shown = ansi::ansi_line(line);
    if shown.text.len() > 0 {
        Some(shown)
    } else {
        None
    }
}

pub open spec fn showing() -> spec_fn(Seq<char>) -> Option<LineView> {
    |line: Seq<char>| shown_output(line)
}

/// The lines of an output that are shown: the first that show anything.
pub open spec fn output_lines(text: Seq<char>) -> Seq<LineView> {
    order::at_most(text::lines(text).filter_map(showing()), MAX_PREVIEW_LINES as nat)
}

proof fn lemma_filter_map_prefix(list: Seq<Seq<char>>, n: int)
    requires
        0 <= n <= list.len(),
    ensures
        list.take(n).filter_map(showing()).len() <= list.filter_map(showing()).len(),
        list.filter_map(showing()).take(list.take(n).filter_map(showing()).len() as int)
            == list.take(n).filter_map(showing()),
    decreases list.len() - n,
{
    let pick = showing();
    if n < list.len() {
        lemma_filter_map_prefix(list, n + 1);
        list.lemma_filter_map_take_succ(pick, n);
        let m = list.take(n).filter_map(pick).len() as int;
        let longer = list.take(n + 1).filter_map(pick);
        assert(list.filter_map(pick).take(m) =~= longer.take(m));
        assert(longer.take(m) =~= list.take(n).filter_map(pick));
    } else {
        assert(list.take(n) =~= list);
        assert(list.filter_map(pick).take(list.filter_map(pick).len() as int) =~= list.filter_map(
            pick,
        ));
    }
}

/// The lines of an output that are shown.
pub fn output_preview(text: &str) -> (r: Vec<CommandPreviewLine>)
    ensures
        r.deep_view() == output_lines(text@),
{
    let all = chars_of(text);
    let list = line_pieces(all.as_slice());
    let ghost texts = text::lines(text@);
    let ghost pick = showing();
    let mut out: Vec<CommandPreviewLine> = Vec::new();
    let mut i: usize = 0;
    proof {
        reveal(Seq::filter_map);
        assert(out.deep_view() =~= texts.take(0).filter_map(pick));
    }
    while i < list.len() && out.len() < MAX_PREVIEW_LINES
        invariant
            i <= list@.len(),
            text::pieces(list@) == texts,
            pick == showing(),
            out@.len() <= MAX_PREVIEW_LINES,
            out.deep_view() == texts.take(i as int).filter_map(pick),
        decreases list.len() - i,
    {
        let ghost before = out.deep_view();
        proof {
            texts.lemma_filter_map_take_succ(pick, i as int);
            assert(texts[i as int] == list@[i as int]@);
        }
        let line = styled_line(list[i]);
        if line.text.as_str().as_bytes().len() > 0 {
            out.push(line);
            assert(out.deep_view() =~= before.push(line.deep_view()));
        }
        proof {
            crate::text::lemma_empty_bytes(line.text@);
        }
        i += 1;
    }
    proof {
        lemma_filter_map_prefix(texts, i as int);
        let shown = texts.filter_map(pick);
        assert(texts.take(texts.len() as int) =~= texts);
        assert(shown.take(shown.len() as int) =~= shown);
        assert(out@.len() == out.deep_view().len());
    }
    out
}

/// What a command has said: its output, or what it complained of where it has
/// none.
pub open spec fn heard(stdout: Seq<u8>, stderr: Seq<u8>) -> Seq<u8> {
    if stdout.len() == 0 {
        stderr
    } else {
        stdout
    }
}

/// What is shown of a previewed command.
pub fn command_preview_lines(stdout: &[u8], stderr: &[u8]) -> (r: Vec<CommandPreviewLine>)
    ensures
        r.deep_view() == output_lines(file::lossy_text(heard(stdout@, stderr@))),
        valid_utf8(heard(stdout@, stderr@)) ==> r.deep_view() == output_lines(
            decode_utf8(heard(stdout@, stderr@)),
        ),
{
    let text = if stdout.len() == 0 {
        decode_lossy(stderr)
    } else {
        decode_lossy(stdout)
    };
    output_preview(text.as_str())
}

/// What is written of some lines: each one and its styles.
pub open spec fn line_fields(lines: Seq<LineView>) -> Seq<Seq<char>>
    decreases lines.len(),
{
    if lines.len() == 0 {
        Seq::empty()
    } else {
        line_fields(lines.drop_last()).push(lines.last().text).push(lines.last().styles)
    }
}

/// A shell finds every line of a preview and its styles between the NULs of what
/// is written.
pub proof fn law_command_stream_is_read_back(text: Seq<char>)
    ensures
        records::split_bytes(records::terminated(line_fields(output_lines(text))), 0u8)
            == line_fields(output_lines(text)).map_values(
            |s: Seq<char>| encode_utf8(s),
        ).push(Seq::empty()),
{
    let shown = output_lines(text);
    assert forall|i: int| 0 <= i < shown.len() implies {
        &&& records::without_nul((#[trigger] shown[i]).text)
        &&& records::without_nul(shown[i].styles)
    } by {
        let all = text::lines(text);
        let found = all.filter_map(showing());
        assert(found[i] == shown[i]);
        assert(found.contains(found[i]));
        all.lemma_filter_map_contains(showing(), found[i]);
        let line = choose|line: Seq<char>| #[trigger]
            all.contains(line) && showing()(line) == Some(found[i]);
        ansi::law_ansi_line(line);
    }
    lemma_fields_without_nul(shown);
    records::law_records_are_found_again(line_fields(shown));
}

proof fn lemma_fields_without_nul(shown: Seq<LineView>)
    requires
        forall|i: int|
            0 <= i < shown.len() ==> {
                &&& records::without_nul((#[trigger] shown[i]).text)
                &&& records::without_nul(shown[i].styles)
            },
    ensures
        forall|i: int|
            0 <= i < line_fields(shown).len() ==> records::without_nul(
                #[trigger] line_fields(shown)[i],
            ),
    decreases shown.len(),
{
    if shown.len() > 0 {
        assert forall|i: int| 0 <= i < shown.drop_last().len() implies {
            &&& records::without_nul((#[trigger] shown.drop_last()[i]).text)
            &&& records::without_nul(shown.drop_last()[i].styles)
        } by {
            assert(shown.drop_last()[i] == shown[i]);
        }
        lemma_fields_without_nul(shown.drop_last());
        let last = shown[shown.len() - 1];
        assert(records::without_nul(last.text) && records::without_nul(last.styles));
        let before = line_fields(shown.drop_last());
        let fields = line_fields(shown);
        assert forall|i: int| 0 <= i < fields.len() implies records::without_nul(
            #[trigger] fields[i],
        ) by {
            if i < before.len() {
                assert(fields[i] == before[i]);
            }
        }
    }
}

/// What is written of a previewed command: each line and its styles, as records.
pub fn command_stream(list: &Vec<CommandPreviewLine>) -> (r: Vec<u8>)
    ensures
        r@ == records::terminated(line_fields(list.deep_view())),
{
    let ghost all = list.deep_view();
    let mut fields: Vec<String> = Vec::new();
    let mut i: usize = 0;
    assert(fields.deep_view() =~= line_fields(all.take(0)));
    while i < list.len()
        invariant
            i <= list@.len(),
            all == list.deep_view(),
            fields.deep_view() == line_fields(all.take(i as int)),
        decreases list.len() - i,
    {
        let ghost before = fields.deep_view();
        fields.push(list[i].text.clone());
        fields.push(list[i].styles.clone());
        proof {
            assert(all.take(i + 1).drop_last() =~= all.take(i as int));
            assert(all.take(i + 1).last() == list@[i as int].deep_view());
            assert(fields.deep_view() =~= before.push(list@[i as int].text@).push(
                list@[i as int].styles@,
            ));
        }
        i += 1;
    }
    assert(all.take(all.len() as int) =~= all);
    records_of(&fields)
}

} // verus!

//! What a preview shows.
use vstd::prelude::*;
use vstd::utf8::*;
use crate::laws::plain;
use crate::laws::texts;
use crate::number;
use crate::paths;
use crate::preview::command;
use crate::preview::file;
use crate::text;
use crate::preview::ansi::LineView;
use crate::preview::error::PreviewError;
use crate::preview::file::FileKind;
use crate::text::Class;

verus! {

/// A file is known by its first bytes: those of a PNG, JPEG or GIF image or of a
/// PDF document. Any other is binary if it holds a NUL byte, and text otherwise.
pub proof fn law_kinds_of_files(rest: Seq<u8>, bytes: Seq<u8>)
    ensures
        file::kind_of(seq![0x89u8, 0x50, 0x4e, 0x47, 0x0d, 0x0a, 0x1a, 0x0a] + rest)
            == FileKind::Png,
        file::kind_of(seq![0xffu8, 0xd8, 0xff] + rest) == FileKind::Jpeg,
        file::kind_of(seq![0x47u8, 0x49, 0x46, 0x38, 0x37, 0x61] + rest) == FileKind::Gif,
        file::kind_of(seq![0x47u8, 0x49, 0x46, 0x38, 0x39, 0x61] + rest) == FileKind::Gif,
        file::kind_of(seq![0x25u8, 0x50, 0x44, 0x46, 0x2d] + rest) == FileKind::Pdf,
        bytes.len() == 0 || (bytes[0] != 0x89 && bytes[0] != 0xff && bytes[0] != 0x47 && bytes[0]
            != 0x25) ==> (file::kind_of(bytes) == if exists|i: int|
            0 <= i < bytes.len() && bytes[i] == 0 {
            FileKind::Binary
        } else {
            FileKind::Text
        }),
{
    let png = seq![0x89u8, 0x50, 0x4e, 0x47, 0x0d, 0x0a, 0x1a, 0x0a];
    let jpeg = seq![0xffu8, 0xd8, 0xff];
    let old_gif = seq![0x47u8, 0x49, 0x46, 0x38, 0x37, 0x61];
    let new_gif = seq![0x47u8, 0x49, 0x46, 0x38, 0x39, 0x61];
    let pdf = seq![0x25u8, 0x50, 0x44, 0x46, 0x2d];
    assert(file::png_mark() =~= png);
    assert(file::jpeg_mark() =~= jpeg);
    assert(file::gif87_mark() =~= old_gif);
    assert(file::gif89_mark() =~= new_gif);
    assert(file::pdf_mark() =~= pdf);
    lemma_begins(png, rest);
    lemma_begins(jpeg, rest);
    lemma_begins(old_gif, rest);
    lemma_begins(new_gif, rest);
    lemma_begins(pdf, rest);
    lemma_other_start(jpeg + rest, png);
    lemma_other_start(old_gif + rest, png);
    lemma_other_start(old_gif + rest, jpeg);
    lemma_other_start(new_gif + rest, png);
    lemma_other_start(new_gif + rest, jpeg);
    lemma_other_start(pdf + rest, png);
    lemma_other_start(pdf + rest, jpeg);
    lemma_other_start(pdf + rest, old_gif);
    lemma_other_start(pdf + rest, new_gif);
    if bytes.len() == 0 || (bytes[0] != 0x89 && bytes[0] != 0xff && bytes[0] != 0x47 && bytes[0]
        != 0x25) {
        lemma_other_start(bytes, png);
        lemma_other_start(bytes, jpeg);
        lemma_other_start(bytes, old_gif);
        lemma_other_start(bytes, new_gif);
        lemma_other_start(bytes, pdf);
    }
}

proof fn lemma_begins(mark: Seq<u8>, rest: Seq<u8>)
    ensures
        file::begins(mark + rest, mark),
{
    assert((mark + rest).take(mark.len() as int) =~= mark);
}

proof fn lemma_other_start(s: Seq<u8>, mark: Seq<u8>)
    requires
        mark.len() > 0,
        s.len() > 0 ==> s[0] != mark[0],
    ensures
        !file::begins(s, mark),
{
    if file::begins(s, mark) {
        assert(s.take(mark.len() as int)[0] == s[0]);
    }
}

/// Of a text, the first eight lines are shown, up to 160 characters of each: a tab
/// as a space, visible characters of ASCII as they are, and a question mark for
/// any other.
pub proof fn law_shown_lines(content: Seq<char>, i: int, j: int)
    requires
        0 <= i < text::lines(content).len(),
        i < 8,
        0 <= j < text::lines(content)[i].len(),
        j < 160,
    ensures
        ({
            let line = text::lines(content)[i];
            let shown = file::shown_text(content);
            &&& shown.len() == plain::smaller(text::lines(content).len(), 8)
            &&& shown[i].len() == plain::smaller(line.len(), 160)
            &&& plain::visible(line[j]) || line[j] == ' ' ==> shown[i][j] == line[j]
            &&& line[j] == '\t' ==> shown[i][j] == ' '
            &&& line[j] > '~' || (line[j] < ' ' && line[j] != '\t') ==> shown[i][j] == '?'
        }),
{
}

/// A preview says of what kind and how large a file is. Below that it shows the
/// lines of a text, nothing of a binary file, and a remark for images and
/// documents.
pub proof fn law_preview_of_a_file(kind: FileKind, size: nat, content: Seq<char>)
    ensures
        ({
            let lines = file::preview_lines(kind, size, content);
            &&& lines.len() >= 2
            &&& lines[1] == "Size: "@ + number::decimal(size) + " bytes"@
            &&& kind == FileKind::Text ==> lines[0] == "Type: "@ + "text file"@ && lines.skip(2)
                == file::shown_text(content)
            &&& kind == FileKind::Binary ==> lines.len() == 2 && lines[0] == "Type: "@
                + "binary file"@
            &&& kind == FileKind::Png ==> lines[0] == "Type: "@ + "PNG image"@
            &&& kind == FileKind::Jpeg ==> lines[0] == "Type: "@ + "JPEG image"@
            &&& kind == FileKind::Gif ==> lines[0] == "Type: "@ + "GIF image"@
            &&& kind == FileKind::Pdf ==> lines[0] == "Type: "@ + "PDF document"@
            &&& kind != FileKind::Text && kind != FileKind::Binary ==> lines.len() == 3
        }),
{
    let lines = file::preview_lines(kind, size, content);
    if kind == FileKind::Text {
        assert(lines.skip(2) =~= file::shown_text(content));
    }
}

/// A character that a previewed command line may hold.
pub open spec fn previewable(c: char) -> bool {
    plain::typed(c) && c != '~'
}

/// A command of plain words is previewed if it is one of those that only list
/// files.
pub proof fn law_previewed_commands(lead: Seq<char>, name: Seq<char>, rest: Seq<char>)
    requires
        plain::spaces(lead),
        name.len() > 0,
        forall|i: int| 0 <= i < name.len() ==> previewable(#[trigger] name[i]),
        forall|i: int| 0 <= i < rest.len() ==> previewable(#[trigger] rest[i]) || rest[i] == ' ',
        rest.len() > 0 ==> rest[0] == ' ',
        encode_utf8(lead + name + rest).len() <= 16_384,
    ensures
        name == "ls"@ || name == "gls"@ || name == "eza"@ ==> command::line_problem(
            lead + name + rest,
        ) is None,
        name != "ls"@ && name != "gls"@ && name != "eza"@ ==> command::line_problem(
            lead + name + rest,
        ) == Some(PreviewError::OtherCommand),
{
    let line = lead + name + rest;
    let k = Class::AsciiWhitespace;
    assert forall|i: int| 0 <= i < line.len() implies !command::shell_char(#[trigger] line[i]) by {
        if i < lead.len() {
            assert(line[i] == lead[i]);
        } else if i < lead.len() + name.len() {
            assert(line[i] == name[i - lead.len()]);
        } else {
            assert(line[i] == rest[i - lead.len() - name.len()]);
        }
    }
    assert(line =~= lead + (name + rest));
    texts::law_words_skip_spaces(lead, name + rest, k);
    texts::law_first_word(name, rest, k);
    assert(text::words(line, k)[0] == name);
}

/// A line that a shell would read otherwise than as plain words is not previewed.
pub proof fn law_shell_syntax_is_not_previewed(line: Seq<char>, i: int)
    requires
        0 <= i < line.len(),
        plain::shell_mark(line[i]) || line[i] == '~' || line[i] < ' ',
    ensures
        command::line_problem(line) == Some(PreviewError::ShellSyntax),
{
    assert(command::shell_char(line[i]));
}

/// Nothing but spaces is no command.
pub proof fn law_no_command_to_preview(line: Seq<char>)
    requires
        plain::spaces(line),
    ensures
        command::line_problem(line) is Some,
{
    let none = Seq::<char>::empty();
    let k = Class::AsciiWhitespace;
    texts::law_words_skip_spaces(line, none, k);
    texts::law_first_word(seq!['x'], none, k);
    assert(line + none =~= line);
}

/// An argument more is handed on, unless it asks for colours, links or icons.
pub proof fn law_arguments_are_handed_on(
    line: Seq<char>,
    gap: Seq<char>,
    argument: Seq<char>,
    linux: bool,
)
    requires
        line.len() > 0,
        plain::visible(line.last()),
        plain::spaces(gap),
        gap.len() > 0,
        argument.len() > 0,
        forall|i: int| 0 <= i < argument.len() ==> plain::visible(#[trigger] argument[i]),
    ensures
        ({
            let name = text::words(line, Class::AsciiWhitespace)[0];
            let own = command::added_arguments(name, linux);
            let before = command::preview_arguments(line, linux);
            let after = command::preview_arguments(line + gap + argument, linux);
            let plainly = argument[0] != '-';
            &&& text::starts_with(argument, "--color"@) || text::starts_with(
                argument,
                "--colour"@,
            ) || text::starts_with(argument, "--hyperlink"@) ==> after == before
            &&& name == "eza"@ && text::starts_with(argument, "--icons"@) ==> after == before
            &&& name != "eza"@ && (argument == "--dired"@ || argument == "-G"@) ==> after == before
            &&& plainly ==> after.len() == before.len() + 1 && after[before.len() - own.len()]
                == argument
        }),
{
    let k = Class::AsciiWhitespace;
    let all = text::words(line, k);
    let more = text::words(line + gap + argument, k);
    texts::law_another_word(line, gap, argument, k);
    let keep = command::passing(all[0]);
    let old_tail = all.drop_first();
    assert(more.drop_first() =~= old_tail.push(argument));
    assert(more[0] == all[0]);
    old_tail.lemma_filter_push(argument, keep);
    let own = command::added_arguments(all[0], linux);
    let before = command::preview_arguments(line, linux);
    let after = command::preview_arguments(line + gap + argument, linux);
    assert(before == old_tail.filter(keep) + own);
    if argument[0] != '-' {
        reveal_strlit("--color");
        reveal_strlit("--colour");
        reveal_strlit("--hyperlink");
        reveal_strlit("--icons");
        reveal_strlit("--dired");
        reveal_strlit("-G");
        assert forall|mark: Seq<char>| mark.len() > 0 && mark[0] == '-' implies
            !#[trigger] text::starts_with(argument, mark) by {
            if text::starts_with(argument, mark) {
                assert(argument.take(mark.len() as int)[0] == argument[0]);
            }
        }
        assert(keep(argument));
        assert(after == old_tail.filter(keep).push(argument) + own);
    }
}

/// Each command is told to be quiet about colours in its own way, behind its
/// arguments.
pub proof fn law_own_arguments(linux: bool, name: Seq<char>)
    ensures
        command::added_arguments("eza"@, linux) == seq![
            "--color=always"@,
            "--icons=never"@,
            "--width=80"@,
        ],
        name != "eza"@ && (linux || name == "gls"@) ==> command::added_arguments(name, linux)
            == seq!["--color=never"@, "--hyperlink=never"@],
        name != "eza"@ && name != "gls"@ && !linux ==> command::added_arguments(name, linux).len()
            == 0,
{
}

/// What a command wrote is what it wrote to its output, or where that is empty,
/// what it reported.
pub proof fn law_heard(stdout: Seq<u8>, stderr: Seq<u8>)
    ensures
        stdout.len() > 0 ==> command::heard(stdout, stderr) == stdout,
        command::heard(Seq::empty(), stderr) == stderr,
{
}

/// In the stream for the shell, each line is its text and its styles.
pub proof fn law_fields_of_lines(lines: Seq<LineView>, i: int)
    requires
        0 <= i < lines.len(),
    ensures
        command::line_fields(lines).len() == 2 * lines.len(),
        command::line_fields(lines)[2 * i] == lines[i].text,
        command::line_fields(lines)[2 * i + 1] == lines[i].styles,
    decreases lines.len(),
{
    let rest = lines.drop_last();
    if rest.len() > 0 {
        law_fields_of_lines(rest, if i < rest.len() { i } else { 0 });
    } else {
        assert(command::line_fields(rest).len() == 0);
    }
    if i < rest.len() {
        assert(rest[i] == lines[i]);
    }
}

/// A name in a directory: some bytes without a slash, but not `.` or `..`.
pub open spec fn entry_name(name: Seq<u8>) -> bool {
    name.len() > 0 && name != seq![0x2eu8] && name != seq![0x2eu8, 0x2e] && forall|i: int|
        0 <= i < name.len() ==> #[trigger] name[i] != 0x2f
}

proof fn lemma_last_start(before: Seq<u8>, name: Seq<u8>, from: int)
    requires
        before.len() > 0,
        before.last() == 0x2f,
        0 <= from <= before.len(),
        forall|i: int| 0 <= i < name.len() ==> #[trigger] name[i] != 0x2f,
    ensures
        paths::last_start(before + name, from) == before.len(),
    decreases name.len(),
{
    let p = before + name;
    if name.len() == 0 {
        assert(p =~= before);
    } else {
        let shorter = name.drop_last();
        assert forall|i: int| 0 <= i < shorter.len() implies #[trigger] shorter[i] != 0x2f by {
            assert(shorter[i] == name[i]);
        }
        lemma_last_start(before, shorter, from);
        assert(p.drop_last() =~= before + shorter);
        assert(p.last() == name[name.len() - 1]);
    }
}

/// The name of a file in a directory is what stands behind the last slash. Files
/// whose names start with `.env` may hold secrets and are never previewed; other
/// files are.
pub proof fn law_files_with_secrets(directory: Seq<u8>, name: Seq<u8>, rest: Seq<u8>)
    requires
        entry_name(name),
    ensures
        paths::file_name(directory + seq![0x2fu8] + name) == Some(name),
        paths::env_file(directory + seq![0x2fu8] + name) <==> name.len() >= 4 && name.take(4)
            == seq![0x2eu8, 0x65, 0x6e, 0x76],
{
    let before = directory + seq![0x2fu8];
    let p = before + name;
    let start = paths::body_start(p);
    assert(before.last() == 0x2f);
    lemma_last_start(before, name, start);
    assert(p.skip(before.len() as int) =~= name);
    assert(!paths::void_component(name)) by {
        if name == seq![paths::DOT] {
            assert(name =~= seq![0x2eu8]);
        }
    }
    assert(paths::trimmed_path(p) == p);
    if name == seq![paths::DOT, paths::DOT] {
        assert(name =~= seq![0x2eu8, 0x2e]);
    }
    reveal_strlit(".env");
    let mark = ".env"@;
    assert(is_ascii_chars(mark)) by {
        assert(mark[0] == '.' && mark[1] == 'e' && mark[2] == 'n' && mark[3] == 'v');
    }
    is_ascii_chars_encode_utf8(mark);
    let bytes = encode_utf8(mark);
    assert(bytes[0] == mark[0] as u8 && bytes[1] == mark[1] as u8 && bytes[2] == mark[2] as u8
        && bytes[3] == mark[3] as u8);
    assert(bytes =~= seq![0x2eu8, 0x65, 0x6e, 0x76]);
}

} // verus!

//! Previews of files: what kind of file it is, and the beginning of a text.
use vstd::prelude::*;
use vstd::slice::slice_subrange;
use vstd::utf8::*;
use crate::number;
use crate::order;
use crate::paths;
use crate::records;
use crate::text;
use crate::number::decimal_chars;
use crate::paths::{is_env_file, joined};
use crate::preview::error::PreviewError;
use crate::records::find_byte;
use crate::text::{chars_of, line_pieces, push_all, push_str, same_bytes, text_of};

verus! {

/// How much of a file is looked at, in bytes.
pub const MAX_PREVIEW_BYTES: u64 = 16_384;

/// How many lines are shown.
pub const MAX_PREVIEW_LINES: usize = 8;

/// How many characters of a line are shown.
pub const MAX_PREVIEW_WIDTH: usize = 160;

/// What the file system says of a target.
#[derive(Debug, Clone, Copy)]
pub struct TargetFacts {
    pub is_symlink: bool,
    pub is_file: bool,
}

/// The file to preview, unless it may hold secrets.
pub fn preview_path(path: &[u8], cwd: &[u8]) -> (r: Result<Vec<u8>, PreviewError>)
    ensures
        match r {
            Ok(p) => p@ == paths::join(cwd@, path@) && !paths::env_file(p@),
            Err(e) => paths::env_file(paths::join(cwd@, path@)) && e == PreviewError::EnvFile,
        },
{
    let target = joined(cwd, path);
    if is_env_file(target.as_slice()) {
        return Err(PreviewError::EnvFile);
    }
    Ok(target)
}

/// Whether a target can be previewed.
pub fn check_target(facts: TargetFacts) -> (r: Result<(), PreviewError>)
    ensures
        match r {
            Ok(_) => facts.is_file && !facts.is_symlink,
            Err(e) => !(facts.is_file && !facts.is_symlink) && e == PreviewError::NotAFile,
        },
{
    if facts.is_symlink || !facts.is_file {
        Err(PreviewError::NotAFile)
    } else {
        Ok(())
    }
}

/// What a file is, as far as its first bytes tell.
#[derive(Debug, Clone, Copy, PartialEq, Eq, Structural)]
pub enum FileKind {
    Png,
    Jpeg,
    Gif,
    Pdf,
    Binary,
    Text,
}

/// A run of bytes begins with another.
pub open spec fn begins(s: Seq<u8>, p: Seq<u8>) -> bool {
    p.len() <= s.len() && s.take(p.len() as int) == p
}

pub open spec fn png_mark() -> Seq<u8> {
    seq![0x89, 0x50, 0x4e, 0x47, 0x0d, 0x0a, 0x1a, 0x0a]
}

pub open spec fn jpeg_mark() -> Seq<u8> {
    seq![0xff, 0xd8, 0xff]
}

pub open spec fn gif87_mark() -> Seq<u8> {
    seq![0x47, 0x49, 0x46, 0x38, 0x37, 0x61]
}

pub open spec fn gif89_mark() -> Seq<u8> {
    seq![0x47, 0x49, 0x46, 0x38, 0x39, 0x61]
}

pub open spec fn pdf_mark() -> Seq<u8> {
    seq![0x25, 0x50, 0x44, 0x46, 0x2d]
}

/// What a file is, as far as its first bytes tell.
pub open spec fn kind_of(bytes: Seq<u8>) -> FileKind {
    if begins(bytes, png_mark()) {
        FileKind::Png
    } else if begins(bytes, jpeg_mark()) {
        FileKind::Jpeg
    } else if begins(bytes, gif87_mark()) || begins(bytes, gif89_mark()) {
        FileKind::Gif
    } else if begins(bytes, pdf_mark()) {
        FileKind::Pdf
    } else if bytes.contains(0u8) {
        FileKind::Binary
    } else {
        FileKind::Text
    }
}

fn starts(s: &[u8], p: &Vec<u8>) -> (b: bool)
    ensures
        b == begins(s@, p@),
{
    if s.len() < p.len() {
        return false;
    }
    let head = slice_subrange(s, 0, p.len());
    assert(head@ =~= s@.take(p@.len() as int));
    same_bytes(head, p.as_slice())
}

/// What a file is, as far as its first bytes tell.
pub fn file_kind(bytes: &[u8]) -> (r: FileKind)
    ensures
        r == kind_of(bytes@),
{
    let png: Vec<u8> = vec![0x89, 0x50, 0x4e, 0x47, 0x0d, 0x0a, 0x1a, 0x0a];
    let jpeg: Vec<u8> = vec![0xff, 0xd8, 0xff];
    let gif87: Vec<u8> = vec![0x47, 0x49, 0x46, 0x38, 0x37, 0x61];
    let gif89: Vec<u8> = vec![0x47, 0x49, 0x46, 0x38, 0x39, 0x61];
    let pdf: Vec<u8> = vec![0x25, 0x50, 0x44, 0x46, 0x2d];
    proof {
        assert(png@ =~= png_mark());
        assert(jpeg@ =~= jpeg_mark());
        assert(gif87@ =~= gif87_mark());
        assert(gif89@ =~= gif89_mark());
        assert(pdf@ =~= pdf_mark());
        records::lemma_first_byte(bytes@, 0u8);
    }
    if starts(bytes, &png) {
        FileKind::Png
    } else if starts(bytes, &jpeg) {
        FileKind::Jpeg
    } else if starts(bytes, &gif87) || starts(bytes, &gif89) {
        FileKind::Gif
    } else if starts(bytes, &pdf) {
        FileKind::Pdf
    } else if find_byte(bytes, 0) < bytes.len() {
        assert(bytes@[records::first_byte(bytes@, 0u8) as int] == 0u8);
        FileKind::Binary
    } else {
        FileKind::Text
    }
}

/// What a kind of file is called.
pub open spec fn kind_text(kind: FileKind) -> Seq<char> {
    match kind {
        FileKind::Png => "PNG image"@,
        FileKind::Jpeg => "JPEG image"@,
        FileKind::Gif => "GIF image"@,
        FileKind::Pdf => "PDF document"@,
        FileKind::Binary => "binary file"@,
        FileKind::Text => "text file"@,
    }
}

fn text_of_kind(kind: FileKind) -> (r: &'static str)
    ensures
        r@ == kind_text(kind),
{
    match kind {
        FileKind::Png => "PNG image",
        FileKind::Jpeg => "JPEG image",
        FileKind::Gif => "GIF image",
        FileKind::Pdf => "PDF document",
        FileKind::Binary => "binary file",
        FileKind::Text => "text file",
    }
}

/// A character of a text as it is shown: a blank for a tab, a question mark for
/// what is not printable ASCII.
pub open spec fn shown_char(c: char) -> char {
    if c == '\t' {
        ' '
    } else if ' ' <= c && c <= '~' {
        c
    } else {
        '?'
    }
}

/// A line of a text as it is shown.
pub open spec fn shown_line(line: Seq<char>) -> Seq<char> {
    order::at_most(line, MAX_PREVIEW_WIDTH as nat).map_values(|c: char| shown_char(c))
}

/// The beginning of a text as it is shown.
pub open spec fn shown_text(text: Seq<char>) -> Seq<Seq<char>> {
    order::at_most(text::lines(text), MAX_PREVIEW_LINES as nat).map_values(|l: Seq<char>| shown_line(l))
}

/// What is shown is bounded, and all of it is printable ASCII.
pub proof fn law_shown_text_is_printable(text: Seq<char>)
    ensures
        shown_text(text).len() <= MAX_PREVIEW_LINES,
        forall|i: int|
            0 <= i < shown_text(text).len() ==> (#[trigger] shown_text(text)[i]).len()
                <= MAX_PREVIEW_WIDTH && forall|j: int|
                0 <= j < shown_text(text)[i].len() ==> ' ' <= #[trigger] shown_text(text)[i][j]
                    <= '~',
{
}

fn show_line(line: &[char]) -> (r: String)
    ensures
        r@ == shown_line(line@),
{
    let count: usize = if line.len() > MAX_PREVIEW_WIDTH {
        MAX_PREVIEW_WIDTH
    } else {
        line.len()
    };
    let ghost all = shown_line(line@);
    let mut out: Vec<char> = Vec::new();
    let mut i: usize = 0;
    assert(out@ =~= all.take(0));
    while i < count
        invariant
            i <= count,
            count <= line@.len(),
            count == all.len(),
            all == shown_line(line@),
            out@ == all.take(i as int),
        decreases count - i,
    {
        let c = line[i];
        let shown = if c == '\t' {
            ' '
        } else if ' ' <= c && c <= '~' {
            c
        } else {
            '?'
        };
        out.push(shown);
        assert(all[i as int] == shown_char(line@[i as int]));
        assert(out@ =~= all.take(i + 1));
        i += 1;
    }
    assert(all.take(all.len() as int) =~= all);
    text_of(out.as_slice())
}

/// The beginning of a text as it is shown.
pub fn show_text(text: &str) -> (r: Vec<String>)
    ensures
        r.deep_view() == shown_text(text@),
{
    let all = chars_of(text);
    let list = line_pieces(all.as_slice());
    let ghost texts = text::lines(text@);
    let ghost shown = shown_text(text@);
    let count: usize = if list.len() > MAX_PREVIEW_LINES {
        MAX_PREVIEW_LINES
    } else {
        list.len()
    };
    let mut out: Vec<String> = Vec::new();
    let mut i: usize = 0;
    assert(out.deep_view() =~= shown.take(0));
    while i < count
        invariant
            i <= count,
            count <= list@.len(),
            count == shown.len(),
            text::pieces(list@) == texts,
            texts == text::lines(text@),
            shown == shown_text(text@),
            out.deep_view() == shown.take(i as int),
        decreases count - i,
    {
        let ghost before = out.deep_view();
        let line = show_line(list[i]);
        assert(texts[i as int] == list@[i as int]@);
        assert(shown[i as int] == line@);
        out.push(line);
        assert(out.deep_view() =~= before.push(line@));
        assert(shown.take(i + 1) =~= before.push(shown[i as int]));
        i += 1;
    }
    assert(shown.take(shown.len() as int) =~= shown);
    out
}

/// The text that some bytes stand for where they are text, with a mark for what
/// is not.
pub uninterp spec fn lossy_text(bytes: Seq<u8>) -> Seq<char>;

/// `String::from_utf8_lossy` gives the text that bytes encode; of bytes that
/// encode none it gives a text with marks in it, which is not stated further.
#[verifier::external_body]
pub(crate) fn decode_lossy(bytes: &[u8]) -> (r: String)
    ensures
        r@ == lossy_text(bytes@),
        valid_utf8(bytes@) ==> r@ == decode_utf8(bytes@),
{
    String::from_utf8_lossy(bytes).into_owned()
}

/// What is shown of a file before its contents.
pub open spec fn preview_head(kind: FileKind, size: nat) -> Seq<Seq<char>> {
    seq!["Type: "@ + kind_text(kind), "Size: "@ + number::decimal(size) + " bytes"@]
}

/// What is shown of a file, given the text that its first bytes stand for.
pub open spec fn preview_lines(kind: FileKind, size: nat, text: Seq<char>) -> Seq<Seq<char>> {
    preview_head(kind, size) + match kind {
        FileKind::Text => shown_text(text),
        FileKind::Binary => Seq::empty(),
        _ => seq!["Graphical preview requires the future PTY frontend"@],
    }
}

/// What is shown of a file, given its kind and the text that its first bytes
/// stand for.
pub fn preview_from_text(kind: FileKind, size: u64, text: &str) -> (r: Vec<String>)
    ensures
        r.deep_view() == preview_lines(kind, size as nat, text@),
{
    let mut head = String::new();
    push_str(&mut head, "Type: ");
    push_str(&mut head, text_of_kind(kind));
    let mut length = String::new();
    push_str(&mut length, "Size: ");
    push_all(&mut length, decimal_chars(size).as_slice());
    push_str(&mut length, " bytes");
    let mut out: Vec<String> = Vec::new();
    out.push(head);
    out.push(length);
    proof {
        assert(head@ =~= "Type: "@ + kind_text(kind));
        assert(length@ =~= "Size: "@ + number::decimal(size as nat) + " bytes"@);
        assert(out.deep_view() =~= preview_head(kind, size as nat));
    }
    match kind {
        FileKind::Text => {
            let mut shown = show_text(text);
            let ghost more = shown.deep_view();
            out.append(&mut shown);
            assert(out.deep_view() =~= preview_head(kind, size as nat) + more);
        },
        FileKind::Binary => {
            assert(preview_head(kind, size as nat) + Seq::<Seq<char>>::empty() =~= preview_head(
                kind,
                size as nat,
            ));
        },
        _ => {
            out.push("Graphical preview requires the future PTY frontend".to_string());
            assert(out.deep_view() =~= preview_lines(kind, size as nat, text@));
        },
    }
    out
}

/// What is shown of a file.
pub fn file_preview(size: u64, bytes: &[u8]) -> (r: Vec<String>)
    ensures
        r.deep_view() == preview_lines(kind_of(bytes@), size as nat, lossy_text(bytes@)),
        valid_utf8(bytes@) ==> r.deep_view() == preview_lines(
            kind_of(bytes@),
            size as nat,
            decode_utf8(bytes@),
        ),
{
    let text = decode_lossy(bytes);
    preview_from_text(file_kind(bytes), size, text.as_str())
}

} // verus!

//! What the shell reads of a menu, and what is said of commands that nothing
//! describes.
use vstd::prelude::*;
use vstd::utf8::*;
use crate::commands::known;
use crate::output;
use crate::paths;
use crate::output::ZshFormat;
use crate::protocol::{CandidateKind, CandidateSource, CandidateView, CompletionView};

verus! {

/// The word for a kind.
pub open spec fn kind_word(kind: CandidateKind) -> Seq<char> {
    match kind {
        CandidateKind::History => "history"@,
        CandidateKind::Command => "command"@,
        CandidateKind::File => "file"@,
        CandidateKind::Directory => "directory"@,
        CandidateKind::Option => "option"@,
        CandidateKind::Subcommand => "subcommand"@,
        CandidateKind::Value => "value"@,
    }
}

/// The word for a source.
pub open spec fn source_word(source: CandidateSource) -> Seq<char> {
    match source {
        CandidateSource::History => "history"@,
        CandidateSource::Command => "command"@,
        CandidateSource::Filesystem => "filesystem"@,
        CandidateSource::Help => "help"@,
    }
}

/// In the stream for the shell, each row is what it inserts, what it shows, its
/// description, its kind and its source, and behind that, where it is asked for,
/// whether its description is still to be found. A field in front, where it is
/// asked for, says whether more is still to be found.
pub proof fn law_fields_of_a_menu(completion: CompletionView, n: int)
    requires
        0 <= n < completion.candidates.len(),
    ensures
        ({
            let row = completion.candidates[n];
            let five = output::completion_fields(completion, ZshFormat::Plain);
            let six = output::completion_fields(completion, ZshFormat::WithPending);
            let more = output::completion_fields(completion, ZshFormat::WithHeader);
            &&& five.len() == 5 * completion.candidates.len()
            &&& six.len() == 6 * completion.candidates.len()
            &&& more.len() == 6 * completion.candidates.len() + 1
            &&& five[5 * n] == row.insert_text
            &&& five[5 * n + 1] == row.display
            &&& five[5 * n + 2] == row.description
            &&& five[5 * n + 3] == kind_word(row.kind)
            &&& five[5 * n + 4] == source_word(row.source)
            &&& six[6 * n] == row.insert_text
            &&& six[6 * n + 1] == row.display
            &&& six[6 * n + 2] == row.description
            &&& six[6 * n + 3] == kind_word(row.kind)
            &&& six[6 * n + 4] == source_word(row.source)
            &&& six[6 * n + 5] == if row.description_pending { "true"@ } else { "false"@ }
            &&& more[0] == if completion.enrichment_pending { "true"@ } else { "false"@ }
            &&& more[6 * n + 1] == row.insert_text
            &&& more[6 * n + 2] == row.display
            &&& more[6 * n + 3] == row.description
            &&& more[6 * n + 4] == kind_word(row.kind)
            &&& more[6 * n + 5] == source_word(row.source)
            &&& more[6 * n + 6] == if row.description_pending { "true"@ } else { "false"@ }
        }),
{
    let rows = completion.candidates;
    lemma_fields(rows, ZshFormat::Plain, n);
    lemma_fields(rows, ZshFormat::WithPending, n);
    lemma_fields(rows, ZshFormat::WithHeader, n);
}

proof fn lemma_fields(rows: Seq<CandidateView>, format: ZshFormat, n: int)
    requires
        0 <= n < rows.len(),
    ensures
        ({
            let row = rows[n];
            let all = output::rows_fields(rows, format);
            let size = if format == ZshFormat::Plain { 5int } else { 6int };
            &&& all.len() == size * rows.len()
            &&& all[size * n] == row.insert_text
            &&& all[size * n + 1] == row.display
            &&& all[size * n + 2] == row.description
            &&& all[size * n + 3] == kind_word(row.kind)
            &&& all[size * n + 4] == source_word(row.source)
            &&& size == 6 ==> all[size * n + 5] == if row.description_pending {
                "true"@
            } else {
                "false"@
            }
        }),
{
    let row = rows[n];
    let all = output::rows_fields(rows, format);
    output::law_rows_have_fixed_fields(rows, format, n);
    let fields = output::candidate_fields(row, format);
    let size = output::field_count(format) as int;
    let part = all.subrange(n * size, (n + 1) * size);
    if format == ZshFormat::Plain {
        assert(n * 5 == 5 * n);
        assert((n + 1) * 5 == 5 * n + 5);
    } else {
        assert(n * 6 == 6 * n);
        assert((n + 1) * 6 == 6 * n + 6);
    }
    assert(part.len() == size);
    assert forall|i: int| 0 <= i < size implies #[trigger] part[i] == all[size * n + i] by {}
    assert(part == fields);
    assert(fields[0] == row.insert_text && fields[1] == row.display && fields[2]
        == row.description);
    assert(part[0] == all[size * n + 0]);
    if size == 6 {
        assert(fields[5] == output::truth(row.description_pending));
        assert(part[5] == all[size * n + 5]);
    }
    assert(part[0] == row.insert_text && part[1] == row.display && part[2] == row.description
        && part[3] == kind_word(row.kind) && part[4] == source_word(row.source));
}

/// A command that nothing describes is described by where it is installed: among
/// Cargo's executables, by Homebrew, in a directory of the user, or elsewhere.
pub proof fn law_commands_by_their_place(a: Seq<u8>, b: Seq<u8>, path: Seq<u8>)
    ensures
        known::fallback(a + encode_utf8("/.cargo/bin/"@) + b) == "Executable installed by Cargo"@,
        !paths::contains_bytes(
            a + encode_utf8("/homebrew/"@) + b,
            encode_utf8("/.cargo/bin/"@),
        ) ==> known::fallback(a + encode_utf8("/homebrew/"@) + b) == "Homebrew command"@,
        !paths::contains_bytes(
            a + encode_utf8("/Cellar/"@) + b,
            encode_utf8("/.cargo/bin/"@),
        ) ==> known::fallback(a + encode_utf8("/Cellar/"@) + b) == "Homebrew command"@,
        !paths::contains_bytes(a + encode_utf8("/.local/bin/"@) + b, encode_utf8("/.cargo/bin/"@))
            && !paths::contains_bytes(
            a + encode_utf8("/.local/bin/"@) + b,
            encode_utf8("/homebrew/"@),
        ) && !paths::contains_bytes(
            a + encode_utf8("/.local/bin/"@) + b,
            encode_utf8("/Cellar/"@),
        ) ==> known::fallback(a + encode_utf8("/.local/bin/"@) + b) == "User-installed command"@,
        !paths::contains_bytes(path, encode_utf8("/.cargo/bin/"@)) && !paths::contains_bytes(
            path,
            encode_utf8("/homebrew/"@),
        ) && !paths::contains_bytes(path, encode_utf8("/Cellar/"@)) && !paths::contains_bytes(
            path,
            encode_utf8("/.local/bin/"@),
        ) && !paths::contains_bytes(path, encode_utf8("/Users/"@)) ==> known::fallback(path)
            == "System command"@,
{
    lemma_holds(a, encode_utf8("/.cargo/bin/"@), b);
    lemma_holds(a, encode_utf8("/homebrew/"@), b);
    lemma_holds(a, encode_utf8("/Cellar/"@), b);
    lemma_holds(a, encode_utf8("/.local/bin/"@), b);
}

proof fn lemma_holds(a: Seq<u8>, part: Seq<u8>, b: Seq<u8>)
    ensures
        paths::contains_bytes(a + part + b, part),
{
    let s = a + part + b;
    let n = a.len() as int;
    assert(s.subrange(n, n + part.len()) =~= part);
}

} // verus!

//! What the command line prints for a shell, and what it reads from one.
use vstd::prelude::*;
use vstd::utf8::*;
use crate::number;
use crate::records;
use crate::text;
use crate::number::decimal_chars;
use crate::protocol::{
    Candidate, CandidateKind, CandidateSource, CandidateView, CompletionResponse, CompletionView,
    Response, ResponseView,
};
use crate::records::push_record;
use crate::text::{push_all, push_str, utf8_text};

verus! {

// ---------------------------------------------------------------------------
// Completions
// ---------------------------------------------------------------------------

/// The streams that shells read.
#[derive(Debug, Clone, Copy, PartialEq, Eq, Structural)]
pub enum ZshFormat {
    /// Five fields for each candidate.
    Plain,
    /// A sixth field says whether the description is still to be found.
    WithPending,
    /// A field in front says whether more candidates are still to be found.
    WithHeader,
}

/// What a source is called.
pub open spec fn source_name(source: CandidateSource) -> Seq<char> {
    match source {
        CandidateSource::History => "history"@,
        CandidateSource::Command => "command"@,
        CandidateSource::Filesystem => "filesystem"@,
        CandidateSource::Help => "help"@,
    }
}

/// What a kind is called.
pub open spec fn kind_name(kind: CandidateKind) -> Seq<char> {
    match kind {
        CandidateKind::History => "history"@,
        CandidateKind::Command => "command"@,
        CandidateKind::File => "file"@,
        CandidateKind::Directory => "directory"@,
        CandidateKind::Option => "option"@,
        CandidateKind::Subcommand => "subcommand"@,
        CandidateKind::Value => "value"@,
    }
}

pub open spec fn truth(b: bool) -> Seq<char> {
    if b {
        "true"@
    } else {
        "false"@
    }
}

/// The fields of a candidate.
pub open spec fn candidate_fields(row: CandidateView, format: ZshFormat) -> Seq<Seq<char>> {
    let fields = seq![
        row.insert_text,
        row.display,
        row.description,
        kind_name(row.kind),
        source_name(row.source),
    ];
    if format == ZshFormat::Plain {
        fields
    } else {
        fields.push(truth(row.description_pending))
    }
}

/// The fields of some candidates.
pub open spec fn rows_fields(rows: Seq<CandidateView>, format: ZshFormat) -> Seq<Seq<char>>
    decreases rows.len(),
{
    if rows.len() == 0 {
        Seq::empty()
    } else {
        rows_fields(rows.drop_last(), format) + candidate_fields(rows.last(), format)
    }
}

/// The fields of a completion.
pub open spec fn completion_fields(completion: CompletionView, format: ZshFormat) -> Seq<Seq<char>> {
    if format == ZshFormat::WithHeader {
        seq![truth(completion.enrichment_pending)] + rows_fields(completion.candidates, format)
    } else {
        rows_fields(completion.candidates, format)
    }
}

/// How many fields a candidate has.
pub open spec fn field_count(format: ZshFormat) -> nat {
    if format == ZshFormat::Plain {
        5
    } else {
        6
    }
}

/// The fields of each candidate stand together, as many for each.
pub proof fn law_rows_have_fixed_fields(rows: Seq<CandidateView>, format: ZshFormat, n: int)
    requires
        0 <= n < rows.len(),
    ensures
        rows_fields(rows, format).len() == rows.len() * field_count(format),
        rows_fields(rows, format).subrange(
            n * field_count(format),
            (n + 1) * field_count(format),
        ) == candidate_fields(rows[n], format),
    decreases rows.len(),
{
    let k = field_count(format) as int;
    let before = rows_fields(rows.drop_last(), format);
    lemma_field_total(rows, format);
    lemma_field_total(rows.drop_last(), format);
    let m = rows.len() - 1;
    assert(m * k + k == (m + 1) * k) by (nonlinear_arith);
    if n < m {
        law_rows_have_fixed_fields(rows.drop_last(), format, n);
        assert((n + 1) * k <= m * k && 0 <= n * k <= (n + 1) * k) by (nonlinear_arith)
            requires
                0 <= n < m,
                k >= 0,
        ;
        assert(rows_fields(rows, format).subrange(n * k, (n + 1) * k) =~= before.subrange(
            n * k,
            (n + 1) * k,
        ));
        assert(rows.drop_last()[n] == rows[n]);
    } else {
        assert(rows_fields(rows, format).subrange(n * k, (n + 1) * k) =~= candidate_fields(
            rows[n],
            format,
        ));
    }
}

proof fn lemma_field_total(rows: Seq<CandidateView>, format: ZshFormat)
    ensures
        rows_fields(rows, format).len() == rows.len() * field_count(format),
    decreases rows.len(),
{
    let k = field_count(format) as int;
    if rows.len() > 0 {
        lemma_field_total(rows.drop_last(), format);
        let m = rows.len() - 1;
        assert(m * k + k == (m + 1) * k) by (nonlinear_arith);
    }
}

/// A shell finds every field of a completion between the NULs of the stream.
/// The texts hold no NUL, which ends a field.
pub proof fn law_stream_is_read_back(completion: CompletionView, format: ZshFormat)
    requires
        forall|i: int|
            0 <= i < completion_fields(completion, format).len() ==> records::without_nul(
                #[trigger] completion_fields(completion, format)[i],
            ),
    ensures
        records::split_bytes(records::terminated(completion_fields(completion, format)), 0u8) == completion_fields(
            completion,
            format,
        ).map_values(|s: Seq<char>| encode_utf8(s)).push(Seq::empty()),
{
    records::law_records_are_found_again(completion_fields(completion, format));
}

fn name_of_source(source: CandidateSource) -> (r: &'static str)
    ensures
        r@ == source_name(source),
{
    match source {
        CandidateSource::History => "history",
        CandidateSource::Command => "command",
        CandidateSource::Filesystem => "filesystem",
        CandidateSource::Help => "help",
    }
}

fn name_of_kind(kind: CandidateKind) -> (r: &'static str)
    ensures
        r@ == kind_name(kind),
{
    match kind {
        CandidateKind::History => "history",
        CandidateKind::Command => "command",
        CandidateKind::File => "file",
        CandidateKind::Directory => "directory",
        CandidateKind::Option => "option",
        CandidateKind::Subcommand => "subcommand",
        CandidateKind::Value => "value",
    }
}

fn push_truth(out: &mut Vec<u8>, b: bool)
    ensures
        final(out)@ == old(out)@ + encode_utf8(truth(b)).push(0u8),
{
    push_record(out, if b { "true" } else { "false" });
}

fn push_candidate(out: &mut Vec<u8>, row: &Candidate, format: ZshFormat)
    ensures
        final(out)@ == old(out)@ + records::terminated(candidate_fields(row.deep_view(), format)),
{
    let ghost start = out@;
    let ghost fields = candidate_fields(row.deep_view(), format);
    push_record(out, row.insert_text.as_str());
    push_record(out, row.display.as_str());
    push_record(out, row.description.as_str());
    push_record(out, name_of_kind(row.kind));
    push_record(out, name_of_source(row.source));
    if format != ZshFormat::Plain {
        push_truth(out, row.description_pending);
    }
    proof {
        assert(records::terminated(fields.take(0)) =~= Seq::<u8>::empty());
        records::lemma_terminated_take(fields, 0);
        records::lemma_terminated_take(fields, 1);
        records::lemma_terminated_take(fields, 2);
        records::lemma_terminated_take(fields, 3);
        records::lemma_terminated_take(fields, 4);
        if format != ZshFormat::Plain {
            records::lemma_terminated_take(fields, 5);
        }
        assert(fields.take(fields.len() as int) =~= fields);
        assert(out@ =~= start + records::terminated(fields));
    }
}

/// The stream that a shell reads.
pub fn zsh_stream(completion: &CompletionResponse, format: ZshFormat) -> (r: Vec<u8>)
    ensures
        r@ == records::terminated(completion_fields(completion@, format)),
{
    let ghost rows = completion.candidates.deep_view();
    let ghost head = if format == ZshFormat::WithHeader {
        seq![truth(completion.enrichment_pending)]
    } else {
        Seq::<Seq<char>>::empty()
    };
    let mut out: Vec<u8> = Vec::new();
    if format == ZshFormat::WithHeader {
        push_truth(&mut out, completion.enrichment_pending);
    }
    proof {
        records::lemma_terminated_push(Seq::empty(), truth(completion.enrichment_pending));
        assert(Seq::<Seq<char>>::empty().push(truth(completion.enrichment_pending)) =~= seq![
            truth(completion.enrichment_pending),
        ]);
        assert(out@ =~= records::terminated(head));
        assert(head + rows_fields(rows.take(0), format) =~= head);
    }
    let mut i: usize = 0;
    while i < completion.candidates.len()
        invariant
            i <= completion.candidates@.len(),
            rows == completion.candidates.deep_view(),
            out@ == records::terminated(head + rows_fields(rows.take(i as int), format)),
        decreases completion.candidates.len() - i,
    {
        proof {
            let row = completion.candidates@[i as int].deep_view();
            assert(rows.take(i + 1).drop_last() =~= rows.take(i as int));
            assert(rows.take(i + 1).last() == row);
            let before = head + rows_fields(rows.take(i as int), format);
            records::lemma_terminated_concat(before, candidate_fields(row, format));
            assert(head + rows_fields(rows.take(i + 1), format) =~= before + candidate_fields(
                row,
                format,
            ));
        }
        push_candidate(&mut out, &completion.candidates[i], format);
        i += 1;
    }
    proof {
        assert(rows.take(rows.len() as int) =~= rows);
        assert(head + rows_fields(rows, format) =~= completion_fields(completion@, format));
    }
    out
}

/// What is inserted where only one text can be: what a key press accepts of the
/// first candidate.
pub fn first_insertion(completion: &CompletionResponse) -> (r: Option<&String>)
    ensures
        match r {
            Some(text) => completion@.candidates.len() > 0 && text@
                == completion@.candidates[0].accept_text,
            None => completion@.candidates.len() == 0,
        },
{
    if completion.candidates.len() > 0 {
        assert(completion@.candidates[0] == completion.candidates@[0].deep_view());
        Some(&completion.candidates[0].accept_text)
    } else {
        None
    }
}

// ---------------------------------------------------------------------------
// Answers
// ---------------------------------------------------------------------------

/// What an answer is for a command that expects a certain one.
#[derive(Debug, PartialEq, Eq)]
pub enum Outcome {
    Expected,
    /// The daemon refused; what it said.
    Refused(String),
    /// The daemon answered something else.
    Unexpected,
}

/// What an answer is for a command that records something.
pub fn expect_success(response: &Response) -> (r: Outcome)
    ensures
        match r {
            Outcome::Expected => response@ == ResponseView::Recorded,
            Outcome::Refused(message) => response@ == (ResponseView::Error {
                message: message@,
            }),
            Outcome::Unexpected => response@ != ResponseView::Recorded && !(response@ is Error),
        },
{
    match response {
        Response::Recorded => Outcome::Expected,
        Response::Error { message } => Outcome::Refused(message.clone()),
        _ => Outcome::Unexpected,
    }
}

/// What an answer is for a command that stops the daemon.
pub fn expect_shutdown(response: &Response) -> (r: Outcome)
    ensures
        match r {
            Outcome::Expected => response@ == ResponseView::ShuttingDown,
            Outcome::Refused(message) => response@ == (ResponseView::Error {
                message: message@,
            }),
            Outcome::Unexpected => response@ != ResponseView::ShuttingDown && !(
            response@ is Error),
        },
{
    match response {
        Response::ShuttingDown => Outcome::Expected,
        Response::Error { message } => Outcome::Refused(message.clone()),
        _ => Outcome::Unexpected,
    }
}

// ---------------------------------------------------------------------------
// Input
// ---------------------------------------------------------------------------

/// What is wrong with what a shell wrote.
#[derive(Debug, PartialEq, Eq)]
pub enum InputError {
    TooLong { limit: u64 },
    NotUtf8 { problem: String },
}

/// What the user is told.
pub open spec fn input_error_text(e: InputError) -> Seq<char> {
    match e {
        InputError::TooLong { limit } => "stdin input exceeds "@ + number::decimal(limit as nat)
            + " bytes"@,
        InputError::NotUtf8 { problem } => "stdin input is not valid UTF-8: "@ + problem@,
    }
}

impl InputError {
    /// What the user is told.
    pub fn message(&self) -> (r: String)
        ensures
            r@ == input_error_text(*self),
    {
        let mut out = String::new();
        match self {
            InputError::TooLong { limit } => {
                push_str(&mut out, "stdin input exceeds ");
                push_all(&mut out, decimal_chars(*limit).as_slice());
                push_str(&mut out, " bytes");
            },
            InputError::NotUtf8 { problem } => {
                push_str(&mut out, "stdin input is not valid UTF-8: ");
                push_str(&mut out, problem.as_str());
            },
        }
        assert(out@ =~= input_error_text(*self));
        out
    }
}

/// The text that a shell wrote, if it is one and not too long.
pub fn read_input(bytes: Vec<u8>, limit: u64) -> (r: Result<String, InputError>)
    ensures
        match r {
            Ok(text) => bytes@.len() <= limit && valid_utf8(bytes@) && text@ == decode_utf8(bytes@),
            Err(InputError::TooLong { limit: most }) => bytes@.len() > limit && most == limit,
            Err(InputError::NotUtf8 { problem }) => bytes@.len() <= limit && !valid_utf8(bytes@)
                && problem@ == text::utf8_problem(bytes@),
        },
{
    if bytes.len() as u64 > limit {
        return Err(InputError::TooLong { limit });
    }
    match utf8_text(bytes) {
        Ok(text) => {
            proof {
                vstd::utf8::encode_utf8_decode_utf8(text@);
            }
            Ok(text)
        },
        Err(problem) => Err(InputError::NotUtf8 { problem }),
    }
}

} // verus!

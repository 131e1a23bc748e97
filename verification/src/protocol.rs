//! The messages between a shell and the daemon.
use vstd::prelude::*;

verus! {

pub const PROTOCOL_VERSION: u32 = 8;

/// A request with the version of the protocol it is written in.
#[derive(Debug, Clone, PartialEq, Eq)]
pub struct RequestEnvelope {
    pub version: u32,
    pub request: Request,
}

impl RequestEnvelope {
    /// A request in the current version of the protocol.
    pub fn new(request: Request) -> (r: Self)
        ensures
            r.version == PROTOCOL_VERSION,
            r.request == request,
    {
        RequestEnvelope { version: PROTOCOL_VERSION, request }
    }
}

/// What a client asks the daemon.
#[derive(Debug, PartialEq, Eq)]
pub enum Request {
    Ping,
    Shutdown,
    Record {
        command: String,
        cwd: String,
        exit_code: i32,
        observed_at_ms: i64,
        session_id: String,
    },
    Complete { buffer: String, cursor_byte: usize, cwd: String, limit: Option<usize> },
    Fuzzy { query: String, cwd: String, limit: Option<usize> },
    ImportHistory { path: String },
}

impl Clone for Request {
    fn clone(&self) -> (r: Self)
        ensures
            r == *self,
    {
        match self {
            Request::Ping => Request::Ping,
            Request::Shutdown => Request::Shutdown,
            Request::Record { command, cwd, exit_code, observed_at_ms, session_id } => {
                Request::Record {
                    command: command.clone(),
                    cwd: cwd.clone(),
                    exit_code: *exit_code,
                    observed_at_ms: *observed_at_ms,
                    session_id: session_id.clone(),
                }
            },
            Request::Complete { buffer, cursor_byte, cwd, limit } => Request::Complete {
                buffer: buffer.clone(),
                cursor_byte: *cursor_byte,
                cwd: cwd.clone(),
                limit: *limit,
            },
            Request::Fuzzy { query, cwd, limit } => Request::Fuzzy {
                query: query.clone(),
                cwd: cwd.clone(),
                limit: *limit,
            },
            Request::ImportHistory { path } => Request::ImportHistory { path: path.clone() },
        }
    }
}

/// What the daemon answers.
#[derive(Debug, Clone, PartialEq, Eq)]
pub enum Response {
    Pong { version: String },
    Recorded,
    ShuttingDown,
    Completion(CompletionResponse),
    Imported { imported: usize, skipped: bool },
    Error { message: String },
}

/// What an answer says.
pub enum ResponseView {
    Pong { version: Seq<char> },
    Recorded,
    ShuttingDown,
    Completion { completion: CompletionView },
    Imported { imported: nat, skipped: bool },
    Error { message: Seq<char> },
}

impl View for Response {
    type V = ResponseView;

    open spec fn view(&self) -> ResponseView {
        match self {
            Response::Pong { version } => ResponseView::Pong { version: version@ },
            Response::Recorded => ResponseView::Recorded,
            Response::ShuttingDown => ResponseView::ShuttingDown,
            Response::Completion(completion) => ResponseView::Completion {
                completion: completion@,
            },
            Response::Imported { imported, skipped } => ResponseView::Imported {
                imported: *imported as nat,
                skipped: *skipped,
            },
            Response::Error { message } => ResponseView::Error { message: message@ },
        }
    }
}

/// Candidates for the bytes between two positions of the buffer.
#[derive(Debug, Clone, PartialEq, Eq)]
pub struct CompletionResponse {
    pub replace_start_byte: usize,
    pub replace_end_byte: usize,
    pub candidates: Vec<Candidate>,
    pub enrichment_pending: bool,
}

/// What a completion response says.
pub struct CompletionView {
    pub replace_start: nat,
    pub replace_end: nat,
    pub candidates: Seq<CandidateView>,
    pub enrichment_pending: bool,
}

impl View for CompletionResponse {
    type V = CompletionView;

    open spec fn view(&self) -> CompletionView {
        CompletionView {
            replace_start: self.replace_start_byte as nat,
            replace_end: self.replace_end_byte as nat,
            candidates: self.candidates.deep_view(),
            enrichment_pending: self.enrichment_pending,
        }
    }
}

/// A response without candidates at a cursor.
pub open spec fn empty_completion(cursor: nat) -> CompletionView {
    CompletionView {
        replace_start: cursor,
        replace_end: cursor,
        candidates: Seq::empty(),
        enrichment_pending: false,
    }
}

impl CompletionResponse {
    /// A response without candidates.
    pub fn empty(cursor_byte: usize) -> (r: Self)
        ensures
            r@ == empty_completion(cursor_byte as nat),
    {
        let r = CompletionResponse {
            replace_start_byte: cursor_byte,
            replace_end_byte: cursor_byte,
            candidates: Vec::new(),
            enrichment_pending: false,
        };
        assert(r.candidates.deep_view() =~= Seq::<CandidateView>::empty());
        r
    }
}

/// Where a candidate comes from.
#[derive(Debug, Clone, Copy, PartialEq, Eq, Structural)]
pub enum CandidateSource {
    History,
    Command,
    Filesystem,
    Help,
}

/// What a candidate completes to.
#[derive(Debug, Clone, Copy, PartialEq, Eq, Structural)]
pub enum CandidateKind {
    History,
    Command,
    File,
    Directory,
    Option,
    Subcommand,
    Value,
}

/// One row of the menu.
#[derive(Debug, PartialEq, Eq)]
pub struct Candidate {
    pub display: String,
    pub description: String,
    pub description_pending: bool,
    pub kind: CandidateKind,
    pub insert_text: String,
    pub accept_text: String,
    pub source: CandidateSource,
}

impl Clone for Candidate {
    fn clone(&self) -> (r: Self)
        ensures
            r == *self,
    {
        Candidate {
            display: self.display.clone(),
            description: self.description.clone(),
            description_pending: self.description_pending,
            kind: self.kind,
            insert_text: self.insert_text.clone(),
            accept_text: self.accept_text.clone(),
            source: self.source,
        }
    }
}

/// What a row of the menu says.
pub struct CandidateView {
    pub display: Seq<char>,
    pub description: Seq<char>,
    pub description_pending: bool,
    pub kind: CandidateKind,
    pub insert_text: Seq<char>,
    pub accept_text: Seq<char>,
    pub source: CandidateSource,
}

impl DeepView for Candidate {
    type V = CandidateView;

    open spec fn deep_view(&self) -> CandidateView {
        CandidateView {
            display: self.display@,
            description: self.description@,
            description_pending: self.description_pending,
            kind: self.kind,
            insert_text: self.insert_text@,
            accept_text: self.accept_text@,
            source: self.source,
        }
    }
}

} // verus!

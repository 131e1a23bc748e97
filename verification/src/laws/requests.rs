//! Which requests the daemon serves.
use vstd::prelude::*;
use vstd::utf8::*;
use crate::daemon;
use crate::engine::completion;
use crate::engine::error::EngineError;
use crate::protocol::Request;

verus! {

/// A command is recorded only with a directory and a session of ordinary length,
/// and when it was seen within five minutes of now.
pub proof fn law_served_records(
    command: String,
    cwd: String,
    exit_code: i32,
    observed_at_ms: i64,
    session_id: String,
    now: int,
)
    ensures
        daemon::request_problem(
            Request::Record { command, cwd, exit_code, observed_at_ms, session_id },
            now,
        ) is None <==> encode_utf8(cwd@).len() <= 16_384 && encode_utf8(session_id@).len() <= 1024
            && now - 300_000 <= observed_at_ms <= now + 300_000,
{
}

/// Completions, searches and imports are served unless the path they name is too
/// long; the others always.
pub proof fn law_served_requests(
    buffer: String,
    cursor_byte: usize,
    cwd: String,
    limit: Option<usize>,
    path: String,
    now: int,
)
    ensures
        daemon::request_problem(Request::Complete { buffer, cursor_byte, cwd, limit }, now) is None
            <==> encode_utf8(cwd@).len() <= 16_384,
        daemon::request_problem(Request::Fuzzy { query: buffer, cwd, limit }, now) is None
            <==> encode_utf8(cwd@).len() <= 16_384,
        daemon::request_problem(Request::ImportHistory { path }, now) is None <==> encode_utf8(
            path@,
        ).len() <= 16_384,
        daemon::request_problem(Request::Ping, now) is None,
        daemon::request_problem(Request::Shutdown, now) is None,
{
}

/// A command line is completed when it has at most 65536 bytes and the cursor
/// stands between two of its characters; a longer one is called too long wherever
/// the cursor stands.
pub proof fn law_completed_lines(before: Seq<char>, after: Seq<char>, cursor: int)
    ensures
        encode_utf8(before + after).len() <= 65_536 ==> completion::buffer_problem(
            before + after,
            encode_utf8(before).len() as int,
        ) is None,
        encode_utf8(before + after).len() > 65_536 ==> completion::buffer_problem(
            before + after,
            cursor,
        ) == Some(EngineError::BufferTooLong),
        encode_utf8(before + after).len() <= 65_536 && !(0 <= cursor <= encode_utf8(
            before + after,
        ).len()) ==> completion::buffer_problem(before + after, cursor) == Some(
            EngineError::InvalidCursor,
        ),
{
    lemma_boundary(before, after);
    let bytes = encode_utf8(before + after);
    encode_utf8_valid_utf8(before + after);
    if !(0 <= cursor <= bytes.len()) {
        lemma_no_boundary(bytes, cursor);
    }
}

proof fn lemma_boundary(before: Seq<char>, after: Seq<char>)
    ensures
        vstd::utf8::is_char_boundary(
            encode_utf8(before + after),
            encode_utf8(before).len() as int,
        ),
    decreases before.len(),
{
    if before.len() == 0 {
        assert(before + after =~= after);
        encode_utf8_valid_utf8(after);
    } else {
        let rest = before.drop_first();
        assert((before + after).drop_first() =~= rest + after);
        assert((before + after)[0] == before[0]);
        lemma_boundary(rest, after);
        encode_utf8_valid_utf8(before + after);
        encode_utf8_first_scalar(before + after);
        encode_utf8_first_scalar(before);
        lemma_shorter(before, after);
        let bytes = encode_utf8(before + after);
        assert(pop_first_scalar(bytes) =~= encode_utf8(rest + after));
        assert(encode_utf8(before).len() - length_of_first_scalar(bytes) == encode_utf8(
            rest,
        ).len());
    }
}

proof fn lemma_shorter(before: Seq<char>, after: Seq<char>)
    ensures
        encode_utf8(before).len() <= encode_utf8(before + after).len(),
    decreases before.len(),
{
    if before.len() > 0 {
        assert((before + after).drop_first() =~= before.drop_first() + after);
        assert((before + after)[0] == before[0]);
        lemma_shorter(before.drop_first(), after);
    }
}

proof fn lemma_no_boundary(bytes: Seq<u8>, cursor: int)
    requires
        valid_utf8(bytes),
        !(0 <= cursor <= bytes.len()),
    ensures
        !vstd::utf8::is_char_boundary(bytes, cursor),
{
}

} // verus!

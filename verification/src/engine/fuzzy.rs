//! Fuzzy search over everything that was typed or can be typed: what the filter
//! is given, what its answer means, and what is shown of it.
use vstd::prelude::*;
use vstd::hash_set::StringHashSet;
use vstd::slice::slice_subrange;
use vstd::utf8::*;
use crate::commands::catalog;
use crate::commands::listing;
use crate::engine::display;
use crate::engine::error;
use crate::number;
use crate::records;
use crate::store;
use crate::text;
use crate::commands::catalog::{CatalogView, CommandCatalog, CommandMatch, MatchView};
use crate::config::Settings;
use crate::engine::completion::MAX_BUFFER_BYTES;
use crate::engine::display::{history_description, sanitize_display};
use crate::engine::error::EngineError;
use crate::number::{decimal_chars, parse_usize};
use crate::paths::bytes_of;
use crate::protocol::{
    Candidate, CandidateKind, CandidateSource, CandidateView, CompletionResponse, CompletionView,
};
use crate::records::{find_byte, push_record};
use crate::store::{HistoryCandidate, HistoryView, Store};
use crate::text::{push_all, push_str, same_text, utf8_text, Class};

verus! {

/// How many commands of the past are searched.
pub const FUZZY_HISTORY_LIMIT: usize = 4096;

// ---------------------------------------------------------------------------
// What is searched
// ---------------------------------------------------------------------------

/// A command of the past in the pool.
pub open spec fn past_entry(past: HistoryView) -> CandidateView {
    CandidateView {
        display: display::displayed(past.command),
        description: display::usage(past.uses, past.same_cwd),
        description_pending: false,
        kind: CandidateKind::History,
        insert_text: past.command,
        accept_text: past.command,
        source: CandidateSource::History,
    }
}

/// An installed command in the pool.
pub open spec fn command_entry(found: MatchView) -> CandidateView {
    CandidateView {
        display: found.name,
        description: found.description,
        description_pending: false,
        kind: CandidateKind::Command,
        insert_text: found.name,
        accept_text: found.name,
        source: CandidateSource::Command,
    }
}

/// Some entry of the pool inserts a text.
pub open spec fn inserts(pool: Seq<CandidateView>, text: Seq<char>) -> bool {
    exists|i: int| 0 <= i < pool.len() && (#[trigger] pool[i]).insert_text == text
}

/// A pool with one more entry, if none inserts the same.
pub open spec fn pooled(pool: Seq<CandidateView>, entry: CandidateView) -> Seq<CandidateView> {
    if inserts(pool, entry.insert_text) {
        pool
    } else {
        pool.push(entry)
    }
}

/// A pool with the commands of the past.
pub open spec fn past_pool(history: Seq<HistoryView>) -> Seq<CandidateView>
    decreases history.len(),
{
    if history.len() == 0 {
        Seq::empty()
    } else {
        pooled(past_pool(history.drop_last()), past_entry(history.last()))
    }
}

/// A pool with installed commands behind what it holds.
pub open spec fn full_pool(pool: Seq<CandidateView>, commands: Seq<MatchView>) -> Seq<CandidateView>
    decreases commands.len(),
{
    if commands.len() == 0 {
        pool
    } else {
        pooled(full_pool(pool, commands.drop_last()), command_entry(commands.last()))
    }
}

/// What is searched: the commands of the past, then the installed ones, each
/// text once.
pub open spec fn pool_of(history: Seq<HistoryView>, commands: Seq<MatchView>) -> Seq<CandidateView> {
    full_pool(past_pool(history), commands)
}

/// No two entries insert the same.
pub open spec fn distinct_texts(pool: Seq<CandidateView>) -> bool {
    forall|i: int, j: int|
        0 <= i < j < pool.len() ==> (#[trigger] pool[i]).insert_text != (
        #[trigger] pool[j]).insert_text
}

/// What is searched holds each text once, and the commands of the past first.
pub proof fn law_pool(history: Seq<HistoryView>, commands: Seq<MatchView>)
    ensures
        distinct_texts(pool_of(history, commands)),
        past_pool(history).len() <= pool_of(history, commands).len(),
        pool_of(history, commands).take(past_pool(history).len() as int) == past_pool(history),
{
    lemma_past_pool(history);
    lemma_full_pool(past_pool(history), commands);
}

proof fn lemma_past_pool(history: Seq<HistoryView>)
    ensures
        distinct_texts(past_pool(history)),
    decreases history.len(),
{
    if history.len() > 0 {
        lemma_past_pool(history.drop_last());
    }
}

proof fn lemma_full_pool(pool: Seq<CandidateView>, commands: Seq<MatchView>)
    requires
        distinct_texts(pool),
    ensures
        distinct_texts(full_pool(pool, commands)),
        pool.len() <= full_pool(pool, commands).len(),
        full_pool(pool, commands).take(pool.len() as int) == pool,
    decreases commands.len(),
{
    if commands.len() > 0 {
        lemma_full_pool(pool, commands.drop_last());
        let before = full_pool(pool, commands.drop_last());
        assert(full_pool(pool, commands).take(pool.len() as int) =~= before.take(pool.len() as int));
    } else {
        assert(pool.take(pool.len() as int) =~= pool);
    }
}

/// A set holds the texts that a pool inserts.
spec fn notes_pool(seen: Set<Seq<char>>, pool: Seq<CandidateView>) -> bool {
    forall|text: Seq<char>| #[trigger] seen.contains(text) <==> inserts(pool, text)
}

proof fn lemma_notes_pool(seen: Set<Seq<char>>, pool: Seq<CandidateView>, entry: CandidateView)
    requires
        notes_pool(seen, pool),
    ensures
        notes_pool(seen.insert(entry.insert_text), pool.push(entry)),
{
    let longer = pool.push(entry);
    assert forall|text: Seq<char>| #[trigger] seen.insert(entry.insert_text).contains(text)
        <==> inserts(longer, text) by {
        if inserts(pool, text) {
            let k = choose|k: int| 0 <= k < pool.len() && (#[trigger] pool[k]).insert_text == text;
            assert(longer[k].insert_text == text);
        }
        if text == entry.insert_text {
            assert(longer[pool.len() as int].insert_text == text);
        }
        if inserts(longer, text) && text != entry.insert_text {
            let k = choose|k: int|
                0 <= k < longer.len() && (#[trigger] longer[k]).insert_text == text;
            assert(pool[k].insert_text == text);
        }
    }
}

/// What is searched, given the commands of the past and the installed ones.
pub fn search_pool(history: &Vec<HistoryCandidate>, commands: &Vec<CommandMatch>) -> (r: Vec<
    Candidate,
>)
    ensures
        r.deep_view() == pool_of(history.deep_view(), commands.deep_view()),
{
    let ghost past = history.deep_view();
    let ghost installed = commands.deep_view();
    let mut pool: Vec<Candidate> = Vec::new();
    let mut seen = StringHashSet::new();
    let mut i: usize = 0;
    assert(pool.deep_view() =~= Seq::<CandidateView>::empty());
    while i < history.len()
        invariant
            notes_pool(seen@, pool.deep_view()),
            i <= history@.len(),
            past == history.deep_view(),
            pool.deep_view() == past_pool(past.take(i as int)),
        decreases history.len() - i,
    {
        let ghost before = pool.deep_view();
        proof {
            assert(past.take(i + 1).drop_last() =~= past.take(i as int));
            assert(past.take(i + 1).last() == history@[i as int].deep_view());
        }
        if !seen.contains(history[i].command.as_str()) {
            let entry = Candidate {
                display: sanitize_display(history[i].command.as_str()),
                description: history_description(history[i].uses, history[i].same_cwd),
                description_pending: false,
                kind: CandidateKind::History,
                insert_text: history[i].command.clone(),
                accept_text: history[i].command.clone(),
                source: CandidateSource::History,
            };
            proof {
                lemma_notes_pool(seen@, before, entry.deep_view());
            }
            seen.insert(history[i].command.clone());
            pool.push(entry);
            assert(pool.deep_view() =~= before.push(entry.deep_view()));
        }
        i += 1;
    }
    assert(past.take(past.len() as int) =~= past);
    let ghost start = pool.deep_view();
    i = 0;
    assert(installed.take(0).len() == 0);
    while i < commands.len()
        invariant
            notes_pool(seen@, pool.deep_view()),
            i <= commands@.len(),
            installed == commands.deep_view(),
            pool.deep_view() == full_pool(start, installed.take(i as int)),
        decreases commands.len() - i,
    {
        let ghost before = pool.deep_view();
        proof {
            assert(installed.take(i + 1).drop_last() =~= installed.take(i as int));
            assert(installed.take(i + 1).last() == commands@[i as int].deep_view());
        }
        if !seen.contains(commands[i].name.as_str()) {
            let entry = Candidate {
                display: commands[i].name.clone(),
                description: commands[i].description.clone(),
                description_pending: false,
                kind: CandidateKind::Command,
                insert_text: commands[i].name.clone(),
                accept_text: commands[i].name.clone(),
                source: CandidateSource::Command,
            };
            proof {
                lemma_notes_pool(seen@, before, entry.deep_view());
            }
            seen.insert(commands[i].name.clone());
            pool.push(entry);
            assert(pool.deep_view() =~= before.push(entry.deep_view()));
        }
        i += 1;
    }
    assert(installed.take(installed.len() as int) =~= installed);
    pool
}

/// A pool is made of some commands of the past, those that the store offers,
/// and of the installed commands.
pub open spec fn searchable(
    pool: Seq<CandidateView>,
    store: Store,
    catalog: CatalogView,
    cwd: Seq<char>,
    successful_first: bool,
) -> bool {
    exists|history: Seq<HistoryView>|
        {
            &&& pool == #[trigger] pool_of(history, catalog::inventory_of(catalog))
            &&& store::offered_for_search(
                history,
                store,
                cwd,
                FUZZY_HISTORY_LIMIT as nat,
                successful_first,
            )
        }
}

/// What a query searches.
pub fn fuzzy_pool(
    store: &Store,
    commands: &CommandCatalog,
    query: &str,
    cwd: &str,
    settings: &Settings,
) -> (r: Result<Vec<Candidate>, EngineError>)
    ensures
        match r {
            Ok(pool) => encode_utf8(query@).len() <= MAX_BUFFER_BYTES && searchable(
                pool.deep_view(),
                *store,
                commands@,
                cwd@,
                settings.history.successful_first,
            ),
            Err(e) => if encode_utf8(query@).len() > MAX_BUFFER_BYTES {
                e is QueryTooLong
            } else {
                e matches EngineError::Store { error } && store::failed_query(
                    error,
                    store::READING_INVENTORY@,
                )
            },
        },
{
    if query.as_bytes().len() > MAX_BUFFER_BYTES {
        return Err(EngineError::QueryTooLong);
    }
    match store.history_inventory(cwd, FUZZY_HISTORY_LIMIT, settings.history.successful_first) {
        Ok(history) => {
            let installed = commands.inventory();
            let pool = search_pool(&history, &installed);
            assert(pool.deep_view() == pool_of(history.deep_view(), catalog::inventory_of(commands@)));
            Ok(pool)
        },
        Err(error) => Err(EngineError::Store { error }),
    }
}

// ---------------------------------------------------------------------------
// What the filter is given
// ---------------------------------------------------------------------------

/// The arguments of the filter.
pub open spec fn filter_arguments(query: Seq<char>) -> Seq<Seq<char>> {
    seq![
        "--read0"@,
        "--print0"@,
        "--no-multi"@,
        "--delimiter=\\t"@,
        "--nth=2.."@,
        "--tiebreak=index"@,
        "--filter"@,
        query,
    ]
}

/// The arguments of the filter.
pub fn fzf_arguments(query: &str) -> (r: Vec<String>)
    ensures
        r.deep_view() == filter_arguments(query@),
{
    let mut list: Vec<String> = Vec::new();
    list.push("--read0".to_string());
    list.push("--print0".to_string());
    list.push("--no-multi".to_string());
    list.push("--delimiter=\\t".to_string());
    list.push("--nth=2..".to_string());
    list.push("--tiebreak=index".to_string());
    list.push("--filter".to_string());
    list.push(query.to_string());
    assert(list.deep_view() =~= filter_arguments(query@));
    list
}

/// One entry of the pool for the filter: its number and what it shows.
pub open spec fn record(n: nat, display: Seq<char>) -> Seq<char> {
    number::decimal(n) + seq!['\t'] + display
}

/// The records of a pool, one for each entry.
pub open spec fn pool_records(pool: Seq<CandidateView>) -> Seq<Seq<char>> {
    Seq::new(pool.len(), |i: int| record(i as nat, pool[i].display))
}

/// The pool for the filter.
pub fn fzf_input(pool: &Vec<Candidate>) -> (r: Vec<u8>)
    ensures
        r@ == records::terminated(pool_records(pool.deep_view())),
{
    let ghost all = pool_records(pool.deep_view());
    let mut out: Vec<u8> = Vec::new();
    let mut i: usize = 0;
    assert(out@ =~= records::terminated(all.take(0)));
    while i < pool.len()
        invariant
            i <= pool@.len(),
            all == pool_records(pool.deep_view()),
            out@ == records::terminated(all.take(i as int)),
        decreases pool.len() - i,
    {
        let mut text = String::new();
        push_all(&mut text, decimal_chars(i as u64).as_slice());
        text.push('\t');
        push_str(&mut text, pool[i].display.as_str());
        proof {
            assert(pool.deep_view()[i as int] == pool@[i as int].deep_view());
            assert(text@ =~= all[i as int]);
            assert(all.take(i + 1) =~= all.take(i as int).push(all[i as int]));
            records::lemma_terminated_push(all.take(i as int), all[i as int]);
        }
        push_record(&mut out, text.as_str());
        i += 1;
    }
    assert(all.take(all.len() as int) =~= all);
    out
}

// ---------------------------------------------------------------------------
// What the filter answers
// ---------------------------------------------------------------------------

/// The number that a record starts with, or what is wrong with it.
pub open spec fn leading_number(digits: Seq<u8>) -> Result<nat, Seq<char>> {
    if valid_utf8(digits) {
        match number::unsigned_value(decode_utf8(digits), usize::MAX as nat) {
            Some(n) => Ok(n),
            None => Err(number::number_problem(decode_utf8(digits))),
        }
    } else {
        Err(text::utf8_problem(digits))
    }
}

/// The entries that records name, as long as there are fewer than `limit`;
/// what is wrong with the first record that names something else.
pub open spec fn named_entries(records: Seq<Seq<u8>>, count: nat, limit: nat) -> Result<
    Seq<nat>,
    Seq<char>,
>
    decreases records.len(),
{
    if records.len() == 0 {
        Ok(Seq::empty())
    } else {
        match named_entries(records.drop_last(), count, limit) {
            Ok(found) => {
                let one = records.last();
                let tab = records::first_byte(one, 9u8);
                if one.len() == 0 || found.len() >= limit || tab >= one.len() {
                    Ok(found)
                } else {
                    match leading_number(one.take(tab as int)) {
                        Ok(n) => Ok(
                            if n < count {
                                found.push(n)
                            } else {
                                found
                            },
                        ),
                        Err(problem) => Err(problem),
                    }
                }
            },
            Err(problem) => Err(problem),
        }
    }
}

/// What the filter ended with.
#[derive(Debug)]
pub struct FilterStatus {
    pub code: Option<i32>,
    /// What the system calls this status.
    pub text: String,
}

/// The filter's answer: nothing where nothing matches, what the user is told
/// where it failed, otherwise the entries that its output names.
pub open spec fn filter_answer(
    code: Option<i32>,
    status: Seq<char>,
    output: Seq<u8>,
    count: nat,
    limit: nat,
) -> Result<Seq<nat>, Seq<char>> {
    if code == Some(1i32) {
        Ok(Seq::empty())
    } else if code != Some(0i32) {
        Err("fzf fuzzy filter failed with "@ + status)
    } else {
        named_entries(records::split_bytes(output, 0u8), count, limit)
    }
}

pub open spec fn as_numbers(list: Seq<usize>) -> Seq<nat> {
    list.map_values(|n: usize| n as nat)
}

/// The entries that the filter's answer names.
pub fn fzf_indexes(status: &FilterStatus, output: &[u8], count: usize, limit: usize) -> (r: Result<
    Vec<usize>,
    EngineError,
>)
    ensures
        match r {
            Ok(list) => {
                &&& filter_answer(
                    status.code,
                    status.text@,
                    output@,
                    count as nat,
                    limit as nat,
                ) == Ok::<Seq<nat>, Seq<char>>(as_numbers(list@))
                &&& list@.len() <= limit
                &&& forall|i: int| 0 <= i < list@.len() ==> #[trigger] list@[i] < count
            },
            Err(e) => {
                &&& filter_answer(
                    status.code,
                    status.text@,
                    output@,
                    count as nat,
                    limit as nat,
                ) == Err::<Seq<nat>, Seq<char>>(error::engine_error_text(e))
                &&& if status.code == Some(0i32) {
                    e is FilterOutput
                } else {
                    e == (EngineError::FilterFailed { status: status.text })
                }
            },
        },
{
    let mut list: Vec<usize> = Vec::new();
    assert(as_numbers(list@) =~= Seq::<nat>::empty());
    match status.code {
        Some(1) => {
            return Ok(list);
        },
        Some(0) => {},
        _ => {
            return Err(EngineError::FilterFailed { status: status.text.clone() });
        },
    }
    let ghost all = records::split_bytes(output@, 0u8);
    let ghost mut seen: int = 0;
    let mut start: usize = 0;
    let mut more = true;
    proof {
        assert(output@.skip(0) =~= output@);
        assert(all.skip(0) =~= all);
        assert(all.take(0) =~= Seq::<Seq<u8>>::empty());
    }
    while more
        invariant
            start <= output@.len(),
            all == records::split_bytes(output@, 0u8),
            0 <= seen <= all.len(),
            more ==> seen < all.len() && all.skip(seen) == records::split_bytes(
                output@.skip(start as int),
                0u8,
            ),
            !more ==> seen == all.len(),
            named_entries(all.take(seen), count as nat, limit as nat) == Ok::<Seq<nat>, Seq<char>>(
                as_numbers(list@),
            ),
            list@.len() <= limit,
            forall|i: int| 0 <= i < list@.len() ==> #[trigger] list@[i] < count,
            status.code == Some(0i32),
        decreases output@.len() - start + (if more { 1int } else { 0int }),
    {
        let rest = slice_subrange(output, start, output.len());
        assert(rest@ =~= output@.skip(start as int));
        let n: usize = find_byte(rest, 0);
        let one = slice_subrange(rest, 0, n);
        let ghost before = list@;
        proof {
            assert(one@ =~= rest@.take(n as int));
            if n >= rest@.len() {
                assert(one@ =~= rest@);
            }
            assert(all.skip(seen)[0] == one@);
            assert(all[seen] == one@);
            assert(all.take(seen + 1).drop_last() =~= all.take(seen));
            assert(all.take(seen + 1).last() == one@);
        }
        if one.len() > 0 && list.len() < limit {
            let tab: usize = find_byte(one, 9);
            if tab < one.len() {
                let digits = slice_subrange(one, 0, tab);
                assert(digits@ =~= one@.take(tab as int));
                match read_number(digits) {
                    Ok(index) => {
                        if index < count {
                            list.push(index);
                            assert(as_numbers(list@) =~= as_numbers(before).push(index as nat));
                        }
                    },
                    Err(problem) => {
                        proof {
                            lemma_unreadable(all, seen + 1, count as nat, limit as nat);
                        }
                        return Err(EngineError::FilterOutput { problem });
                    },
                }
            }
        }
        proof {
            let tail = all.skip(seen);
            if n < rest@.len() {
                assert(tail =~= seq![one@] + records::split_bytes(rest@.skip(n + 1), 0u8));
                assert(tail.skip(1) =~= records::split_bytes(rest@.skip(n + 1), 0u8));
                assert(all.skip(seen + 1) =~= tail.skip(1));
                assert(rest@.skip(n + 1) =~= output@.skip(start + n + 1));
                records::lemma_split_nonempty(output@.skip(start + n + 1), 0u8);
            } else {
                assert(records::split_bytes(rest@, 0u8).len() == 1);
                assert(tail.len() == all.len() - seen);
            }
            seen = seen + 1;
        }
        if n < rest.len() {
            start = start + n + 1;
        } else {
            more = false;
        }
    }
    assert(all.take(all.len() as int) =~= all);
    Ok(list)
}

proof fn lemma_unreadable(records: Seq<Seq<u8>>, n: int, count: nat, limit: nat)
    requires
        0 <= n <= records.len(),
        named_entries(records.take(n), count, limit) is Err,
    ensures
        named_entries(records, count, limit) == named_entries(records.take(n), count, limit),
    decreases records.len() - n,
{
    if n < records.len() {
        assert(records.take(n + 1).drop_last() =~= records.take(n));
        lemma_unreadable(records, n + 1, count, limit);
    } else {
        assert(records.take(n) =~= records);
    }
}

fn read_number(digits: &[u8]) -> (r: Result<usize, String>)
    ensures
        leading_number(digits@) == match r {
            Ok(n) => Ok::<nat, Seq<char>>(n as nat),
            Err(problem) => Err(problem@),
        },
{
    match utf8_text(bytes_of(digits)) {
        Ok(text) => {
            proof {
                vstd::utf8::encode_utf8_decode_utf8(text@);
            }
            parse_usize(text.as_str())
        },
        Err(problem) => Err(problem),
    }
}

// ---------------------------------------------------------------------------
// What is shown
// ---------------------------------------------------------------------------

/// An entry of the pool as it is shown, with what is known by now about a
/// command.
pub open spec fn shown_entry(entry: CandidateView, matches: Seq<MatchView>) -> CandidateView {
    if entry.source == CandidateSource::Command && matches.len() > 0 && matches[0].name
        == entry.display {
        CandidateView {
            description: matches[0].description,
            description_pending: matches[0].description_pending,
            ..entry
        }
    } else {
        entry
    }
}

/// Showing some entries of a pool: the catalogue after, and what is shown.
pub open spec fn shown_entries(
    catalog: CatalogView,
    pool: Seq<CandidateView>,
    indexes: Seq<usize>,
) -> (CatalogView, Seq<CandidateView>)
    decreases indexes.len(),
{
    if indexes.len() == 0 {
        (catalog, Seq::empty())
    } else {
        let before = shown_entries(catalog, pool, indexes.drop_last());
        let entry = pool[indexes.last() as int];
        if entry.source == CandidateSource::Command {
            let asked = catalog::offered(before.0, listing::prefixed(before.0.entries, entry.display, 1));
            (asked.0, before.1.push(shown_entry(entry, asked.1)))
        } else {
            (before.0, before.1.push(entry))
        }
    }
}

/// The answer to a fuzzy query: the entries of the pool that the filter named,
/// in its order.
pub fn fuzzy(commands: &mut CommandCatalog, pool: &Vec<Candidate>, indexes: &Vec<usize>) -> (r:
    CompletionResponse)
    requires
        forall|i: int| 0 <= i < indexes@.len() ==> #[trigger] indexes@[i] < pool@.len(),
    ensures
        ({
            let shown = shown_entries(old(commands)@, pool.deep_view(), indexes@);
            &&& final(commands)@ == shown.0
            &&& r@ == (CompletionView {
                replace_start: 0,
                replace_end: 0,
                candidates: shown.1,
                enrichment_pending: false,
            })
        }),
{
    let ghost before = commands@;
    let ghost entries = pool.deep_view();
    let mut rows: Vec<Candidate> = Vec::new();
    let mut i: usize = 0;
    proof {
        assert(rows.deep_view() =~= Seq::<CandidateView>::empty());
        assert(indexes@.take(0) =~= Seq::<usize>::empty());
    }
    while i < indexes.len()
        invariant
            i <= indexes@.len(),
            entries == pool.deep_view(),
            forall|j: int| 0 <= j < indexes@.len() ==> #[trigger] indexes@[j] < pool@.len(),
            (commands@, rows.deep_view()) == shown_entries(
                before,
                entries,
                indexes@.take(i as int),
            ),
        decreases indexes.len() - i,
    {
        let ghost shown = rows.deep_view();
        let n: usize = indexes[i];
        let mut row = pool[n].clone();
        proof {
            assert(indexes@.take(i + 1).drop_last() =~= indexes@.take(i as int));
            assert(indexes@.take(i + 1).last() == n);
            assert(entries[n as int] == pool@[n as int].deep_view());
        }
        if row.source == CandidateSource::Command {
            let found = commands.matching(row.display.as_str(), 1);
            assert(found@.len() == found.deep_view().len());
            if found.len() > 0 && same_text(found[0].name.as_str(), row.display.as_str()) {
                row.description = found[0].description.clone();
                row.description_pending = found[0].description_pending;
            }
        }
        rows.push(row);
        assert(rows.deep_view() =~= shown.push(row.deep_view()));
        i += 1;
    }
    assert(indexes@.take(indexes@.len() as int) =~= indexes@);
    CompletionResponse {
        replace_start_byte: 0,
        replace_end_byte: 0,
        candidates: rows,
        enrichment_pending: false,
    }
}

// ---------------------------------------------------------------------------
// The filter's answer names what it was given
// ---------------------------------------------------------------------------

/// What a filter prints that passes on some records of its input.
pub open spec fn passed_on(pool: Seq<CandidateView>, selection: Seq<nat>) -> Seq<u8> {
    records::terminated(selected_records(pool, selection))
}

/// The records of a selection.
pub open spec fn selected_records(pool: Seq<CandidateView>, selection: Seq<nat>) -> Seq<Seq<char>> {
    Seq::new(selection.len(), |i: int| pool_records(pool)[selection[i] as int])
}

proof fn lemma_record(n: nat, display: Seq<char>, count: nat)
    requires
        n < count <= usize::MAX,
        records::without_nul(display),
    ensures
        ({
            let one = encode_utf8(record(n, display));
            &&& one.len() > 0
            &&& records::without_nul(record(n, display))
            &&& records::first_byte(one, 9u8) < one.len()
            &&& leading_number(one.take(records::first_byte(one, 9u8) as int)) == Ok::<nat, Seq<char>>(n)
        }),
{
    let digits = number::decimal(n);
    let one = encode_utf8(record(n, display));
    number::law_decimal_reads_back(n);
    assert forall|i: int| 0 <= i < digits.len() implies '0' <= #[trigger] digits[i] <= '9' by {
        assert(crate::text::in_class(Class::AsciiDigit, digits[i]));
    }
    let led = digits + seq!['\t'];
    assert(record(n, display) == led + display);
    records::lemma_encode_concat(led, display);
    records::lemma_encode_concat(digits, seq!['\t']);
    assert(vstd::utf8::is_ascii_chars(digits));
    assert(vstd::utf8::is_ascii_chars(seq!['\t']));
    vstd::utf8::is_ascii_chars_encode_utf8(digits);
    vstd::utf8::is_ascii_chars_encode_utf8(seq!['\t']);
    let head = encode_utf8(digits);
    let tab = encode_utf8(seq!['\t']);
    assert(seq!['\t'][0] as u8 == tab[0]);
    assert(tab =~= seq![9u8]);
    assert(one =~= head + tab + encode_utf8(display));
    assert forall|i: int| 0 <= i < head.len() implies #[trigger] one[i] != 9u8 by {
        assert(one[i] == head[i]);
        assert(digits[i] as u8 == head[i]);
    }
    assert(one[head.len() as int] == tab[0]);
    records::lemma_first_byte_is(one, 9u8, head.len());
    assert(one.take(head.len() as int) =~= head);
    vstd::utf8::encode_utf8_valid_utf8(digits);
    vstd::utf8::encode_utf8_decode_utf8(digits);
    assert(crate::number::unsigned_digits(digits) =~= digits);
    assert(records::without_nul(record(n, display))) by {
        assert forall|i: int| 0 <= i < record(n, display).len() implies #[trigger] record(
            n,
            display,
        )[i] != '\0' by {
            if i < digits.len() {
                assert(record(n, display)[i] == digits[i]);
            } else if i > digits.len() {
                assert(record(n, display)[i] == display[i - digits.len() - 1]);
            }
        }
    }
}

/// A filter that passes on some records of its input is understood: its answer
/// names the entries whose records these are, in its order. The texts that are
/// shown hold no NUL, which ends a record.
pub proof fn law_filter_answer(
    pool: Seq<CandidateView>,
    selection: Seq<nat>,
    status: Seq<char>,
    limit: nat,
)
    requires
        pool.len() <= usize::MAX,
        selection.len() <= limit,
        forall|i: int| 0 <= i < selection.len() ==> #[trigger] selection[i] < pool.len(),
        forall|i: int|
            0 <= i < pool.len() ==> records::without_nul(
                (#[trigger] pool[i]).display,
            ),
    ensures
        filter_answer(Some(0i32), status, passed_on(pool, selection), pool.len(), limit) == Ok::<
            Seq<nat>,
            Seq<char>,
        >(selection),
{
    let texts = selected_records(pool, selection);
    let records = texts.map_values(|s: Seq<char>| encode_utf8(s));
    assert forall|i: int| 0 <= i < texts.len() implies records::without_nul(#[trigger] texts[i]) by {
        let n = selection[i];
        lemma_record(n, pool[n as int].display, pool.len());
    }
    records::law_records_are_found_again(texts);
    lemma_named(pool, selection, selection.len() as int, limit);
    assert(records.take(records.len() as int) =~= records);
    assert(selection.take(selection.len() as int) =~= selection);
    let all = records.push(Seq::empty());
    assert(all.drop_last() =~= records);
    assert(all.last() == Seq::<u8>::empty());
}

proof fn lemma_named(pool: Seq<CandidateView>, selection: Seq<nat>, k: int, limit: nat)
    requires
        0 <= k <= selection.len(),
        pool.len() <= usize::MAX,
        selection.len() <= limit,
        forall|i: int| 0 <= i < selection.len() ==> #[trigger] selection[i] < pool.len(),
        forall|i: int|
            0 <= i < pool.len() ==> records::without_nul(
                (#[trigger] pool[i]).display,
            ),
    ensures
        named_entries(
            selected_records(pool, selection).map_values(|s: Seq<char>| encode_utf8(s)).take(k),
            pool.len(),
            limit,
        ) == Ok::<Seq<nat>, Seq<char>>(selection.take(k)),
    decreases k,
{
    let records = selected_records(pool, selection).map_values(|s: Seq<char>| encode_utf8(s));
    if k == 0 {
        assert(selection.take(0) =~= Seq::<nat>::empty());
    } else {
        lemma_named(pool, selection, k - 1, limit);
        assert(records.take(k).drop_last() =~= records.take(k - 1));
        let n = selection[k - 1];
        assert(records.take(k).last() == encode_utf8(record(n, pool[n as int].display)));
        lemma_record(n, pool[n as int].display, pool.len());
        assert(selection.take(k) =~= selection.take(k - 1).push(n));
    }
}

} // verus!

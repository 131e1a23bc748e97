//! Completion of the end of a buffer: history first, then commands, options,
//! subcommands and values.
use vstd::prelude::*;
use vstd::utf8::*;
use crate::commands::catalog;
use crate::commands::listing;
use crate::engine::context;
use crate::engine::display;
use crate::engine::merge;
use crate::engine::segment;
use crate::order;
use crate::protocol;
use crate::store;
use crate::text;
use crate::commands::catalog::{
    CatalogView, CommandCatalog, CommandEntry, CommandMatch, MatchView,
};
use crate::commands::help::Described;
use crate::commands::listing::Labelled;
use crate::config::{AcceptMode, Settings};
use crate::engine::context::{
    option_context, subcommand_context, valid_command_prefix, value_context,
};
use crate::engine::display::{history_description, sanitize_display};
use crate::engine::error::EngineError;
use crate::engine::merge::is_shown;
use crate::engine::segment::next_segment;
use crate::protocol::{
    Candidate, CandidateKind, CandidateSource, CandidateView, CompletionResponse, CompletionView,
};
use crate::store::{HistoryCandidate, HistoryView, Store};
use crate::text::{begins_with, chars_of, from_index, push_all, push_str, text_of};

verus! {

/// The size of a buffer that is completed, in bytes.
pub const MAX_BUFFER_BYTES: usize = 65_536;

// ---------------------------------------------------------------------------
// Rows
// ---------------------------------------------------------------------------

/// What the completion key accepts of a suffix.
pub open spec fn accepted(suffix: Seq<char>, accept: AcceptMode) -> Seq<char> {
    match accept {
        AcceptMode::Segment => segment::first_segment(suffix),
        AcceptMode::Full => suffix,
    }
}

/// The row for a command of the past that goes on behind the buffer.
pub open spec fn history_row(
    buffer: Seq<char>,
    accept: AcceptMode,
    past: HistoryView,
) -> Option<CandidateView> {
    if text::starts_with(past.command, buffer) && past.command.len() > buffer.len() {
        let suffix = past.command.skip(buffer.len() as int);
        Some(
            CandidateView {
                display: display::displayed(past.command),
                description: display::usage(past.uses, past.same_cwd),
                description_pending: false,
                kind: CandidateKind::History,
                insert_text: suffix,
                accept_text: accepted(suffix, accept),
                source: CandidateSource::History,
            },
        )
    } else {
        None
    }
}

pub open spec fn from_history(buffer: Seq<char>, accept: AcceptMode) -> spec_fn(
    HistoryView,
) -> Option<CandidateView> {
    |past: HistoryView| history_row(buffer, accept, past)
}

/// A suffix, or a blank where nothing is missing.
pub open spec fn or_blank(suffix: Seq<char>) -> Seq<char> {
    if suffix.len() == 0 {
        " "@
    } else {
        suffix
    }
}

/// The row for an installed command whose name starts with the buffer.
pub open spec fn command_row(buffer: Seq<char>, found: MatchView) -> CandidateView {
    let text = or_blank(
        if text::starts_with(found.name, buffer) {
            found.name.skip(buffer.len() as int)
        } else {
            Seq::empty()
        },
    );
    CandidateView {
        display: found.name,
        description: found.description,
        description_pending: found.description_pending,
        kind: CandidateKind::Command,
        insert_text: text,
        accept_text: text,
        source: CandidateSource::Command,
    }
}

pub open spec fn from_command(buffer: Seq<char>) -> spec_fn(MatchView) -> CandidateView {
    |found: MatchView| command_row(buffer, found)
}

pub open spec fn not_shown(rows: Seq<CandidateView>) -> spec_fn(Described) -> bool {
    |entry: Described| !merge::shows(rows, entry.name)
}

/// What stands under the cursor, as far as a command's help tells.
pub enum Context {
    Value { command: Seq<char>, option: Seq<char>, prefix: Seq<char> },
    Option { command: Seq<char>, prefix: Seq<char> },
    Subcommand { command: Seq<char>, prefix: Seq<char> },
    Nothing,
}

/// What stands under the cursor.
pub open spec fn context_of(buffer: Seq<char>) -> Context {
    match context::value_context_of(buffer) {
        Some((command, option, prefix)) => Context::Value { command, option, prefix },
        None => match context::option_context_of(buffer) {
            Some((command, prefix)) => Context::Option { command, prefix },
            None => match context::subcommand_context_of(buffer) {
                Some((command, prefix)) => Context::Subcommand { command, prefix },
                None => Context::Nothing,
            },
        },
    }
}

/// The row for an entry of a command's help that completes what is under the
/// cursor.
pub open spec fn help_row(
    buffer: Seq<char>,
    context: Context,
    entry: Described,
) -> Option<CandidateView> {
    let prefix = match context {
        Context::Value { command, option, prefix } => prefix,
        Context::Option { command, prefix } => prefix,
        Context::Subcommand { command, prefix } => prefix,
        Context::Nothing => Seq::empty(),
    };
    let suffix = entry.name.skip(prefix.len() as int);
    if context is Nothing || !text::starts_with(entry.name, prefix) || (context is Option && suffix.len()
        == 0) {
        None
    } else {
        Some(
            CandidateView {
                display: buffer + suffix,
                description: match context {
                    Context::Value { command, option, prefix } => if entry.description.len() == 0 {
                        "Value for "@ + option
                    } else {
                        entry.description
                    },
                    _ => entry.description,
                },
                description_pending: false,
                kind: match context {
                    Context::Value { command, option, prefix } => CandidateKind::Value,
                    Context::Option { command, prefix } => CandidateKind::Option,
                    _ => CandidateKind::Subcommand,
                },
                insert_text: or_blank(suffix),
                accept_text: or_blank(suffix),
                source: CandidateSource::Help,
            },
        )
    }
}

pub open spec fn from_help(buffer: Seq<char>, context: Context) -> spec_fn(Described) -> Option<
    CandidateView,
> {
    |entry: Described| help_row(buffer, context, entry)
}

/// The command that a context speaks of.
pub open spec fn context_command(context: Context) -> Option<Seq<char>> {
    match context {
        Context::Value { command, option, prefix } => Some(command),
        Context::Option { command, prefix } => Some(command),
        Context::Subcommand { command, prefix } => Some(command),
        Context::Nothing => None,
    }
}

/// The entries of a command's help that complete what is under the cursor.
pub open spec fn help_entries(
    catalog: CatalogView,
    context: Context,
    limit: nat,
) -> Seq<Described> {
    match context {
        Context::Value { command, option, prefix } => catalog::offered_list(
            catalog,
            command,
            catalog::values_of(catalog::looked_up(catalog.state.option_values, command), option),
            prefix,
            limit,
        ),
        Context::Option { command, prefix } => catalog::offered_list(
            catalog,
            command,
            catalog::looked_up(catalog.state.options, command),
            prefix,
            limit,
        ),
        Context::Subcommand { command, prefix } => catalog::offered_list(
            catalog,
            command,
            catalog::looked_up(catalog.state.subcommands, command),
            prefix,
            limit,
        ),
        Context::Nothing => Seq::empty(),
    }
}

/// The catalogue after the help of a command was asked for.
pub open spec fn after_help(catalog: CatalogView, context: Context) -> CatalogView {
    match context_command(context) {
        Some(command) => catalog::enqueued(catalog, catalog::job_of(catalog, command)),
        None => catalog,
    }
}

/// Whether the help of a command is still to be found.
pub open spec fn help_pending(catalog: CatalogView, context: Context) -> bool {
    match context_command(context) {
        Some(command) => catalog::unsettled(catalog, catalog::job_of(catalog, command)),
        None => false,
    }
}

/// The rows from a command's help.
pub open spec fn help_rows(catalog: CatalogView, buffer: Seq<char>, limit: nat) -> Seq<
    CandidateView,
> {
    let context = context_of(buffer);
    help_entries(catalog, context, limit).filter_map(from_help(buffer, context))
}

pub open spec fn new_row(rows: Seq<CandidateView>) -> spec_fn(CandidateView) -> bool {
    |row: CandidateView| !merge::shows(rows, row.display)
}

/// The rows that stay in a menu to which a command's help adds some.
pub open spec fn before_help(
    rows: Seq<CandidateView>,
    fresh: Seq<CandidateView>,
    limit: nat,
) -> Seq<CandidateView> {
    order::at_most(rows, (limit - merge::reserved(fresh.len(), limit)) as nat)
}

/// The number of rows that a command's help adds: its share, where it is free.
pub open spec fn help_slots(
    rows: Seq<CandidateView>,
    fresh: Seq<CandidateView>,
    limit: nat,
) -> nat {
    let free = (limit - before_help(rows, fresh, limit).len()) as nat;
    merge::least(merge::least(fresh.len(), merge::share(limit)), free)
}

/// A menu with rows from a command's help, for which half of it is reserved.
pub open spec fn with_help(
    rows: Seq<CandidateView>,
    help: Seq<CandidateView>,
    limit: nat,
) -> Seq<CandidateView> {
    if help.len() == 0 {
        rows
    } else {
        let fresh = help.filter(new_row(rows));
        before_help(rows, fresh, limit) + fresh.take(help_slots(rows, fresh, limit) as int)
    }
}

/// The rows from history.
pub open spec fn past_rows(
    history: Seq<HistoryView>,
    buffer: Seq<char>,
    accept: AcceptMode,
) -> Seq<CandidateView> {
    history.filter_map(from_history(buffer, accept))
}

/// Whether there is room for commands, and the buffer can be the beginning of
/// one.
pub open spec fn wants_commands(rows: Seq<CandidateView>, buffer: Seq<char>, limit: nat) -> bool {
    rows.len() < limit && context::command_prefix(buffer)
}

/// The commands that are shown in the room that is left.
pub open spec fn shown_commands(
    catalog: CatalogView,
    rows: Seq<CandidateView>,
    buffer: Seq<char>,
    limit: nat,
) -> Seq<Described> {
    if wants_commands(rows, buffer, limit) {
        order::at_most(
            listing::prefixed(catalog.entries, buffer, limit).filter(not_shown(rows)),
            (limit - rows.len()) as nat,
        )
    } else {
        Seq::empty()
    }
}

/// The catalogue after the commands that are shown were asked for.
pub open spec fn after_commands(
    catalog: CatalogView,
    rows: Seq<CandidateView>,
    buffer: Seq<char>,
    limit: nat,
) -> CatalogView {
    catalog::offered(catalog, shown_commands(catalog, rows, buffer, limit)).0
}

/// A menu with rows for commands in the room that is left.
pub open spec fn with_commands(
    catalog: CatalogView,
    rows: Seq<CandidateView>,
    buffer: Seq<char>,
    limit: nat,
) -> Seq<CandidateView> {
    rows + catalog::offered(catalog, shown_commands(catalog, rows, buffer, limit)).1.map_values(
        from_command(buffer),
    )
}

/// The completion of the end of a buffer, given the commands of the past that
/// start with it.
pub open spec fn completion_of(
    catalog: CatalogView,
    history: Seq<HistoryView>,
    buffer: Seq<char>,
    cursor: nat,
    limit: nat,
    accept: AcceptMode,
) -> CompletionView {
    let past = past_rows(history, buffer, accept);
    let rows = with_commands(catalog, past, buffer, limit);
    let asked = after_commands(catalog, past, buffer, limit);
    CompletionView {
        replace_start: cursor,
        replace_end: cursor,
        candidates: with_help(rows, help_rows(asked, buffer, limit), limit),
        enrichment_pending: help_pending(asked, context_of(buffer)),
    }
}

/// The catalogue after a completion.
pub open spec fn catalog_after(
    catalog: CatalogView,
    history: Seq<HistoryView>,
    buffer: Seq<char>,
    limit: nat,
    accept: AcceptMode,
) -> CatalogView {
    let past = past_rows(history, buffer, accept);
    after_help(after_commands(catalog, past, buffer, limit), context_of(buffer))
}

// ---------------------------------------------------------------------------
// Code
// ---------------------------------------------------------------------------

fn text_from(a: &str, b: &[char]) -> (r: String)
    ensures
        r@ == a@ + b@,
{
    let mut out = String::new();
    push_str(&mut out, a);
    push_all(&mut out, b);
    assert(out@ =~= a@ + b@);
    out
}

fn row_from_history(buffer: &str, accept: AcceptMode, past: &HistoryCandidate) -> (r: Option<
    Candidate,
>)
    ensures
        r.deep_view() == history_row(buffer@, accept, past.deep_view()),
{
    let all = chars_of(past.command.as_str());
    let typed = chars_of(buffer);
    if !begins_with(all.as_slice(), typed.as_slice()) || all.len() <= typed.len() {
        return None;
    }
    let suffix = from_index(all.as_slice(), typed.len());
    let insert_text = text_of(suffix);
    let accept_text = match accept {
        AcceptMode::Segment => next_segment(insert_text.as_str()),
        AcceptMode::Full => insert_text.clone(),
    };
    Some(
        Candidate {
            display: sanitize_display(past.command.as_str()),
            description: history_description(past.uses, past.same_cwd),
            description_pending: false,
            kind: CandidateKind::History,
            insert_text,
            accept_text,
            source: CandidateSource::History,
        },
    )
}

fn rows_from_history(history: &Vec<HistoryCandidate>, buffer: &str, accept: AcceptMode) -> (r: Vec<
    Candidate,
>)
    ensures
        r.deep_view() == past_rows(history.deep_view(), buffer@, accept),
{
    let ghost all = history.deep_view();
    let ghost pick = from_history(buffer@, accept);
    let mut rows: Vec<Candidate> = Vec::new();
    let mut i: usize = 0;
    proof {
        reveal(Seq::filter_map);
        assert(rows.deep_view() =~= all.take(0).filter_map(pick));
    }
    while i < history.len()
        invariant
            i <= history@.len(),
            all == history.deep_view(),
            pick == from_history(buffer@, accept),
            rows.deep_view() == all.take(i as int).filter_map(pick),
        decreases history.len() - i,
    {
        let ghost before = rows.deep_view();
        proof {
            all.lemma_filter_map_take_succ(pick, i as int);
            assert(all[i as int] == history@[i as int].deep_view());
        }
        if let Some(row) = row_from_history(buffer, accept, &history[i]) {
            rows.push(row);
            assert(rows.deep_view() =~= before.push(row.deep_view()));
        }
        i += 1;
    }
    assert(all.take(all.len() as int) =~= all);
    rows
}

fn blank_or(suffix: &[char]) -> (r: String)
    ensures
        r@ == or_blank(suffix@),
{
    if suffix.len() == 0 {
        " ".to_string()
    } else {
        text_of(suffix)
    }
}

fn row_from_command(buffer: &str, found: &CommandMatch) -> (r: Candidate)
    ensures
        r.deep_view() == command_row(buffer@, found.deep_view()),
{
    let all = chars_of(found.name.as_str());
    let typed = chars_of(buffer);
    let text = if begins_with(all.as_slice(), typed.as_slice()) {
        blank_or(from_index(all.as_slice(), typed.len()))
    } else {
        " ".to_string()
    };
    let accept_text = text.clone();
    Candidate {
        display: found.name.clone(),
        description: found.description.clone(),
        description_pending: found.description_pending,
        kind: CandidateKind::Command,
        insert_text: text,
        accept_text,
        source: CandidateSource::Command,
    }
}

/// The commands that no row shows yet, as many as there is room for.
fn commands_to_show(rows: &Vec<Candidate>, list: &Vec<CommandEntry>, room: usize) -> (r: Vec<
    CommandEntry,
>)
    ensures
        r.deep_view() == order::at_most(
            list.deep_view().filter(not_shown(rows.deep_view())),
            room as nat,
        ),
{
    let ghost all = list.deep_view();
    let ghost keep = not_shown(rows.deep_view());
    let mut out: Vec<CommandEntry> = Vec::new();
    let mut i: usize = 0;
    proof {
        reveal(Seq::filter);
        assert(out.deep_view() =~= all.take(0).filter(keep));
    }
    while i < list.len() && out.len() < room
        invariant
            i <= list@.len(),
            all == list.deep_view(),
            keep == not_shown(rows.deep_view()),
            out@.len() <= room,
            out.deep_view() == all.take(i as int).filter(keep),
        decreases list.len() - i,
    {
        let ghost before = out.deep_view();
        proof {
            assert(all.take(i + 1) =~= all.take(i as int).push(all[i as int]));
            all.take(i as int).lemma_filter_push(all[i as int], keep);
            assert(all[i as int] == list@[i as int].deep_view());
        }
        if !is_shown(rows, list[i].name.as_str()) {
            out.push(list[i].clone());
            assert(out.deep_view() =~= before.push(all[i as int]));
        }
        i += 1;
    }
    proof {
        lemma_filter_prefix(all, keep, i as int);
        let fresh = all.filter(keep);
        assert(out.deep_view().len() == out@.len());
        assert(all.take(all.len() as int) =~= all);
        assert(fresh.take(fresh.len() as int) =~= fresh);
    }
    out
}

/// Adds rows for commands to a menu.
fn add_commands(rows: &mut Vec<Candidate>, found: &Vec<CommandMatch>, buffer: &str)
    ensures
        final(rows).deep_view() == old(rows).deep_view() + found.deep_view().map_values(
            from_command(buffer@),
        ),
{
    let ghost start = rows.deep_view();
    let ghost more = found.deep_view().map_values(from_command(buffer@));
    let mut i: usize = 0;
    assert(start + more.take(0) =~= start);
    while i < found.len()
        invariant
            i <= found@.len(),
            more == found.deep_view().map_values(from_command(buffer@)),
            rows.deep_view() == start + more.take(i as int),
        decreases found.len() - i,
    {
        let ghost before = rows.deep_view();
        let row = row_from_command(buffer, &found[i]);
        rows.push(row);
        proof {
            assert(found.deep_view()[i as int] == found@[i as int].deep_view());
            assert(rows.deep_view() =~= before.push(row.deep_view()));
            assert(before.push(more[i as int]) =~= start + more.take(i + 1));
        }
        i += 1;
    }
    assert(more.take(more.len() as int) =~= more);
}

/// Appends rows.
pub fn append_rows(rows: &mut Vec<Candidate>, more: Vec<Candidate>)
    ensures
        final(rows).deep_view() == old(rows).deep_view() + more.deep_view(),
{
    let ghost start = rows.deep_view();
    let ghost added = more.deep_view();
    let mut more = more;
    rows.append(&mut more);
    assert(rows.deep_view() =~= start + added);
}

proof fn lemma_filter_prefix<A>(list: Seq<A>, keep: spec_fn(A) -> bool, n: int)
    requires
        0 <= n <= list.len(),
    ensures
        list.take(n).filter(keep).len() <= list.filter(keep).len(),
        list.filter(keep).take(list.take(n).filter(keep).len() as int) == list.take(n).filter(keep),
    decreases list.len() - n,
{
    if n < list.len() {
        lemma_filter_prefix(list, keep, n + 1);
        let shorter = list.take(n);
        assert(list.take(n + 1) =~= shorter.push(list[n]));
        shorter.lemma_filter_push(list[n], keep);
        let m = shorter.filter(keep).len() as int;
        let longer = list.take(n + 1).filter(keep);
        assert(list.filter(keep).take(m) =~= longer.take(m));
        assert(longer.take(m) =~= shorter.filter(keep));
    } else {
        assert(list.take(n) =~= list);
        assert(list.filter(keep).take(list.filter(keep).len() as int) =~= list.filter(keep));
    }
}

/// What kind of entry a command's help is asked for.
#[derive(Clone, Copy)]
enum Asked {
    Value,
    Option,
    Subcommand,
}

spec fn asked_context(
    asked: Asked,
    command: Seq<char>,
    option: Seq<char>,
    prefix: Seq<char>,
) -> Context {
    match asked {
        Asked::Value => Context::Value { command, option, prefix },
        Asked::Option => Context::Option { command, prefix },
        Asked::Subcommand => Context::Subcommand { command, prefix },
    }
}

fn row_from_help<T: Labelled>(
    buffer: &str,
    asked: Asked,
    option: &str,
    prefix: &[char],
    entry: &T,
    Ghost(command): Ghost<Seq<char>>,
) -> (r: Option<Candidate>)
    ensures
        r.deep_view() == help_row(
            buffer@,
            asked_context(asked, command, option@, prefix@),
            entry.deep_view(),
        ),
{
    let name = chars_of(entry.label());
    if !begins_with(name.as_slice(), prefix) {
        return None;
    }
    let suffix = from_index(name.as_slice(), prefix.len());
    let note = chars_of(entry.note());
    let description = match asked {
        Asked::Value => {
            if note.len() == 0 {
                let mut text = String::new();
                push_str(&mut text, "Value for ");
                push_str(&mut text, option);
                assert(text@ =~= "Value for "@ + option@);
                text
            } else {
                text_of(note.as_slice())
            }
        },
        Asked::Option => {
            if suffix.len() == 0 {
                return None;
            }
            text_of(note.as_slice())
        },
        Asked::Subcommand => text_of(note.as_slice()),
    };
    Some(
        Candidate {
            display: text_from(buffer, suffix),
            description,
            description_pending: false,
            kind: match asked {
                Asked::Value => CandidateKind::Value,
                Asked::Option => CandidateKind::Option,
                Asked::Subcommand => CandidateKind::Subcommand,
            },
            insert_text: blank_or(suffix),
            accept_text: blank_or(suffix),
            source: CandidateSource::Help,
        },
    )
}

fn rows_from_help<T: Labelled>(
    buffer: &str,
    asked: Asked,
    option: &str,
    prefix: &str,
    entries: &Vec<T>,
    Ghost(command): Ghost<Seq<char>>,
) -> (r: Vec<Candidate>)
    ensures
        r.deep_view() == entries.deep_view().filter_map(
            from_help(buffer@, asked_context(asked, command, option@, prefix@)),
        ),
{
    let typed = chars_of(prefix);
    let ghost all = entries.deep_view();
    let ghost pick = from_help(buffer@, asked_context(asked, command, option@, prefix@));
    let mut rows: Vec<Candidate> = Vec::new();
    let mut i: usize = 0;
    proof {
        reveal(Seq::filter_map);
        assert(rows.deep_view() =~= all.take(0).filter_map(pick));
    }
    while i < entries.len()
        invariant
            i <= entries@.len(),
            typed@ == prefix@,
            all == entries.deep_view(),
            pick == from_help(buffer@, asked_context(asked, command, option@, prefix@)),
            rows.deep_view() == all.take(i as int).filter_map(pick),
        decreases entries.len() - i,
    {
        let ghost before = rows.deep_view();
        proof {
            all.lemma_filter_map_take_succ(pick, i as int);
            assert(all[i as int] == entries@[i as int].deep_view());
        }
        if let Some(row) = row_from_help(
            buffer,
            asked,
            option,
            typed.as_slice(),
            &entries[i],
            Ghost(command),
        ) {
            rows.push(row);
            assert(rows.deep_view() =~= before.push(row.deep_view()));
        }
        i += 1;
    }
    assert(all.take(all.len() as int) =~= all);
    rows
}

/// The rows from a command's help, and whether more is to be found.
fn ask_help(commands: &mut CommandCatalog, buffer: &str, limit: usize) -> (r: (
    Vec<Candidate>,
    bool,
))
    ensures
        r.0.deep_view() == help_rows(old(commands)@, buffer@, limit as nat),
        r.1 == help_pending(old(commands)@, context_of(buffer@)),
        final(commands)@ == after_help(old(commands)@, context_of(buffer@)),
{
    if let Some((command, option, prefix)) = value_context(buffer) {
        let found = commands.matching_values(command, option, prefix, limit);
        return (
            rows_from_help(buffer, Asked::Value, option, prefix, &found.entries, Ghost(command@)),
            found.pending,
        );
    }
    if let Some((command, prefix)) = option_context(buffer) {
        let found = commands.matching_options(command, prefix, limit);
        return (
            rows_from_help(buffer, Asked::Option, "", prefix, &found.entries, Ghost(command@)),
            found.pending,
        );
    }
    if let Some((command, prefix)) = subcommand_context(buffer) {
        let found = commands.matching_subcommands(command, prefix, limit);
        return (
            rows_from_help(buffer, Asked::Subcommand, "", prefix, &found.entries, Ghost(command@)),
            found.pending,
        );
    }
    let none: Vec<Candidate> = Vec::new();
    proof {
        reveal(Seq::filter_map);
        assert(none.deep_view() =~= Seq::<CandidateView>::empty());
        assert(help_rows(commands@, buffer@, limit as nat) =~= Seq::<CandidateView>::empty());
    }
    (none, false)
}

/// Adds rows from a command's help to a menu.
fn add_help(rows: &mut Vec<Candidate>, help: Vec<Candidate>, limit: usize)
    ensures
        final(rows).deep_view() == with_help(
            old(rows).deep_view(),
            help.deep_view(),
            limit as nat,
        ),
{
    if help.len() == 0 {
        return;
    }
    let ghost start = rows.deep_view();
    let ghost all = help.deep_view();
    let ghost keep = new_row(start);
    let mut fresh: Vec<Candidate> = Vec::new();
    let mut i: usize = 0;
    proof {
        reveal(Seq::filter);
        assert(fresh.deep_view() =~= all.take(0).filter(keep));
    }
    while i < help.len()
        invariant
            i <= help@.len(),
            all == help.deep_view(),
            start == rows.deep_view(),
            keep == new_row(start),
            fresh.deep_view() == all.take(i as int).filter(keep),
        decreases help.len() - i,
    {
        let ghost before = fresh.deep_view();
        proof {
            assert(all.take(i + 1) =~= all.take(i as int).push(all[i as int]));
            all.take(i as int).lemma_filter_push(all[i as int], keep);
            assert(all[i as int] == help@[i as int].deep_view());
        }
        if !is_shown(rows, help[i].display.as_str()) {
            let row = help[i].clone();
            fresh.push(row);
            assert(fresh.deep_view() =~= before.push(row.deep_view()));
        }
        i += 1;
    }
    assert(all.take(all.len() as int) =~= all);
    let half: usize = limit / 2;
    let half: usize = if half > 1 {
        half
    } else {
        1
    };
    let share: usize = if fresh.len() < half {
        fresh.len()
    } else {
        half
    };
    let room: usize = if fresh.len() < limit / 2 {
        limit - fresh.len()
    } else {
        limit - limit / 2
    };
    let ghost kept = fresh.deep_view();
    assert(kept.len() == fresh@.len());
    rows.truncate(room);
    assert(rows.deep_view() =~= before_help(start, kept, limit as nat));
    assert(rows.deep_view().len() == rows@.len());
    let free: usize = limit - rows.len();
    let slots: usize = if share < free {
        share
    } else {
        free
    };
    fresh.truncate(slots);
    assert(fresh.deep_view() =~= kept.take(slots as int));
    append_rows(rows, fresh);
}

/// The completion of the end of a buffer, given the commands of the past that
/// start with it.
pub fn complete_with_history(
    commands: &mut CommandCatalog,
    history: &Vec<HistoryCandidate>,
    buffer: &str,
    cursor_byte: usize,
    limit: usize,
    accept: AcceptMode,
) -> (r: CompletionResponse)
    ensures
        r@ == completion_of(
            old(commands)@,
            history.deep_view(),
            buffer@,
            cursor_byte as nat,
            limit as nat,
            accept,
        ),
        final(commands)@ == catalog_after(
            old(commands)@,
            history.deep_view(),
            buffer@,
            limit as nat,
            accept,
        ),
{
    let mut rows = rows_from_history(history, buffer, accept);
    let typed = chars_of(buffer);
    if rows.len() < limit && valid_command_prefix(typed.as_slice()) {
        let room: usize = limit - rows.len();
        let list = commands.starting_with(buffer, limit);
        let shown = commands_to_show(&rows, &list, room);
        let found = commands.offer(&shown);
        add_commands(&mut rows, &found, buffer);
    } else {
        let ghost none = Seq::<MatchView>::empty().map_values(from_command(buffer@));
        assert(none =~= Seq::<CandidateView>::empty());
        assert(rows.deep_view() + none =~= rows.deep_view());
    }
    let (help, enrichment_pending) = ask_help(commands, buffer, limit);
    add_help(&mut rows, help, limit);
    CompletionResponse {
        replace_start_byte: cursor_byte,
        replace_end_byte: cursor_byte,
        candidates: rows,
        enrichment_pending,
    }
}

/// How many candidates a menu holds: as many as are asked for, and no more than
/// the settings allow.
pub open spec fn menu_limit(requested: Option<usize>, settings: Settings) -> nat {
    let most = settings.completion.max_candidates as nat;
    match requested {
        Some(n) => merge::least(n as nat, most),
        None => most,
    }
}

/// How many candidates a menu holds.
pub fn candidate_limit(requested: Option<usize>, settings: &Settings) -> (n: usize)
    ensures
        n == menu_limit(requested, *settings),
{
    let most: usize = settings.completion.max_candidates;
    match requested {
        Some(n) => {
            if n < most {
                n
            } else {
                most
            }
        },
        None => most,
    }
}

/// Why a buffer with a cursor cannot be completed.
pub open spec fn buffer_problem(buffer: Seq<char>, cursor: int) -> Option<EngineError> {
    if encode_utf8(buffer).len() > MAX_BUFFER_BYTES {
        Some(EngineError::BufferTooLong)
    } else if !is_boundary(buffer, cursor) {
        Some(EngineError::InvalidCursor)
    } else {
        None
    }
}

/// A position between two characters, in bytes.
pub open spec fn is_boundary(buffer: Seq<char>, cursor: int) -> bool {
    vstd::utf8::is_char_boundary(encode_utf8(buffer), cursor)
}

/// A response completes the end of a buffer from some commands of the past:
/// those that the store offers, where it says what it offers.
pub open spec fn completed(
    response: CompletionView,
    before: CatalogView,
    after: CatalogView,
    store: Store,
    buffer: Seq<char>,
    cursor: nat,
    cwd: Seq<char>,
    limit: nat,
    settings: Settings,
) -> bool {
    exists|history: Seq<HistoryView>|
        {
            &&& response == #[trigger] completion_of(
                before,
                history,
                buffer,
                cursor,
                limit,
                settings.completion.accept,
            )
            &&& after == catalog_after(before, history, buffer, limit, settings.completion.accept)
            &&& history.len() <= limit
            &&& store.ready() ==> store::offered_for_prefix(
                history,
                store,
                buffer,
                cwd,
                limit,
                settings.history.successful_first,
            )
        }
}

/// Completes the end of a buffer. A cursor elsewhere, and an empty buffer, get
/// no candidates.
pub fn complete(
    store: &Store,
    commands: &mut CommandCatalog,
    buffer: &str,
    cursor_byte: usize,
    cwd: &str,
    requested_limit: Option<usize>,
    settings: &Settings,
) -> (r: Result<CompletionResponse, EngineError>)
    ensures
        match buffer_problem(buffer@, cursor_byte as int) {
            Some(problem) => r == Err::<CompletionResponse, EngineError>(problem)
                && final(commands)@ == old(commands)@,
            None => if cursor_byte != encode_utf8(buffer@).len() || buffer@.len() == 0 {
                r is Ok && r->Ok_0@ == protocol::empty_completion(cursor_byte as nat) && final(commands)@
                    == old(commands)@
            } else {
                match r {
                    Ok(response) => completed(
                        response@,
                        old(commands)@,
                        final(commands)@,
                        *store,
                        buffer@,
                        cursor_byte as nat,
                        cwd@,
                        menu_limit(requested_limit, *settings),
                        *settings,
                    ),
                    Err(e) => e matches EngineError::Store { error } && store::failed_query(
                        error,
                        store::READING_CANDIDATES@,
                    ) && final(commands)@ == old(commands)@,
                }
            },
        },
{
    if buffer.as_bytes().len() > MAX_BUFFER_BYTES {
        return Err(EngineError::BufferTooLong);
    }
    if !buffer.is_char_boundary(cursor_byte) {
        return Err(EngineError::InvalidCursor);
    }
    let length: usize = buffer.as_bytes().len();
    proof {
        crate::text::lemma_empty_bytes(buffer@);
    }
    if cursor_byte != length || length == 0 {
        return Ok(CompletionResponse::empty(cursor_byte));
    }
    let limit: usize = candidate_limit(requested_limit, settings);
    let history = match store.history_candidates(
        buffer,
        cwd,
        limit,
        settings.history.successful_first,
    ) {
        Ok(history) => history,
        Err(error) => {
            return Err(EngineError::Store { error });
        },
    };
    let ghost before = commands@;
    let response = complete_with_history(
        commands,
        &history,
        buffer,
        cursor_byte,
        limit,
        settings.completion.accept,
    );
    assert(response@ == completion_of(
        before,
        history.deep_view(),
        buffer@,
        cursor_byte as nat,
        limit as nat,
        settings.completion.accept,
    ));
    Ok(response)
}

// ---------------------------------------------------------------------------
// Laws
// ---------------------------------------------------------------------------

/// A row that edits the end of a buffer: it inserts something, and a key press
/// accepts a beginning of that. A row that is not from history shows the buffer
/// as it will be, or the buffer itself where only a blank is missing.
pub open spec fn appends(buffer: Seq<char>, row: CandidateView) -> bool {
    &&& row.insert_text.len() > 0
    &&& row.accept_text.len() > 0
    &&& text::starts_with(row.insert_text, row.accept_text)
    &&& row.source != CandidateSource::History ==> row.display == buffer + row.insert_text || (
    row.display == buffer && row.insert_text == " "@)
}

/// A row from history inserts what is missing from a command of the past.
pub open spec fn recalls(
    buffer: Seq<char>,
    history: Seq<HistoryView>,
    row: CandidateView,
) -> bool {
    exists|i: int|
        {
            &&& 0 <= i < history.len()
            &&& (#[trigger] history[i]).command == buffer + row.insert_text
            &&& row.display == display::displayed(history[i].command)
        }
}

proof fn lemma_past_rows(history: Seq<HistoryView>, buffer: Seq<char>, accept: AcceptMode)
    ensures
        past_rows(history, buffer, accept).len() <= history.len(),
        forall|i: int|
            0 <= i < past_rows(history, buffer, accept).len() ==> {
                let row = #[trigger] past_rows(history, buffer, accept)[i];
                &&& row.source == CandidateSource::History
                &&& appends(buffer, row)
                &&& recalls(buffer, history, row)
            },
{
    let pick = from_history(buffer, accept);
    let rows = past_rows(history, buffer, accept);
    lemma_filter_map_len(history, pick);
    assert forall|i: int| 0 <= i < rows.len() implies {
        let row = #[trigger] rows[i];
        &&& row.source == CandidateSource::History
        &&& appends(buffer, row)
        &&& recalls(buffer, history, row)
    } by {
        let row = rows[i];
        assert(rows.contains(row));
        history.lemma_filter_map_contains(pick, row);
        let past = choose|t: HistoryView| #[trigger] history.contains(t) && pick(t) == Some(row);
        let k = choose|k: int| 0 <= k < history.len() && history[k] == past;
        let suffix = past.command.skip(buffer.len() as int);
        assert(past.command.take(buffer.len() as int) + suffix =~= past.command);
        assert(history[k].command == buffer + row.insert_text);
        segment::law_segment_is_a_prefix(suffix);
        assert(suffix.take(suffix.len() as int) =~= suffix);
        let n = row.accept_text.len() as int;
        assert(suffix.take(n) =~= row.accept_text) by {
            if accept == AcceptMode::Segment {
                assert((segment::first_segment(suffix) + suffix.skip(n)).take(n) =~= segment::first_segment(suffix));
            }
        }
    }
}

proof fn lemma_filter_map_len<A, B>(list: Seq<A>, pick: spec_fn(A) -> Option<B>)
    ensures
        list.filter_map(pick).len() <= list.len(),
    decreases list.len(),
{
    reveal(Seq::filter_map);
    if list.len() > 0 {
        lemma_filter_map_len(list.drop_last(), pick);
        list.lemma_filter_map_take_succ(pick, list.len() - 1);
        assert(list.take(list.len() as int) =~= list);
        assert(list.take(list.len() - 1) =~= list.drop_last());
    }
}

proof fn lemma_offered(catalog: CatalogView, list: Seq<Described>)
    ensures
        catalog::offered(catalog, list).1.len() == list.len(),
        forall|i: int|
            0 <= i < list.len() ==> (#[trigger] catalog::offered(catalog, list).1[i]).name == list[i].name,
    decreases list.len(),
{
    if list.len() > 0 {
        lemma_offered(catalog, list.drop_last());
    }
}

proof fn lemma_command_rows(
    catalog: CatalogView,
    rows: Seq<CandidateView>,
    buffer: Seq<char>,
    limit: nat,
)
    requires
        wants_commands(rows, buffer, limit),
    ensures
        ({
            let all = with_commands(catalog, rows, buffer, limit);
            &&& rows.len() <= all.len() <= limit
            &&& all.take(rows.len() as int) == rows
            &&& forall|i: int|
                rows.len() <= i < all.len() ==> {
                    let row = #[trigger] all[i];
                    &&& row.source == CandidateSource::Command
                    &&& appends(buffer, row)
                    &&& !merge::shows(rows, row.display)
                }
        }),
{
    let list = listing::prefixed(catalog.entries, buffer, limit);
    let keep = not_shown(rows);
    let fresh = list.filter(keep);
    let shown = shown_commands(catalog, rows, buffer, limit);
    let found = catalog::offered(catalog, shown).1;
    let all = with_commands(catalog, rows, buffer, limit);
    lemma_offered(catalog, shown);
    listing::law_prefixed(catalog.entries, buffer, limit);
    assert(all.take(rows.len() as int) =~= rows);
    reveal_strlit(" ");
    assert forall|i: int| rows.len() <= i < all.len() implies {
        let row = #[trigger] all[i];
        &&& row.source == CandidateSource::Command
        &&& appends(buffer, row)
        &&& !merge::shows(rows, row.display)
    } by {
        let k = i - rows.len();
        let row = all[i];
        assert(row == command_row(buffer, found[k]));
        assert(found[k].name == shown[k].name);
        assert(shown[k] == fresh[k]);
        list.lemma_filter_pred(keep, k);
        assert(fresh.contains(fresh[k]));
        list.lemma_filter_contains_rev(keep, fresh[k]);
        let m = choose|m: int| 0 <= m < list.len() && list[m] == fresh[k];
        let name = fresh[k].name;
        assert(name == list[m].name);
        assert(text::starts_with(name, buffer));
        let suffix = name.skip(buffer.len() as int);
        assert(buffer + suffix =~= name) by {
            assert(name.take(buffer.len() as int) == buffer);
        }
        assert(row.insert_text.take(row.insert_text.len() as int) =~= row.insert_text);
        if suffix.len() == 0 {
            assert(name =~= buffer);
        }
    }
}

proof fn lemma_help_rows(catalog: CatalogView, buffer: Seq<char>, limit: nat)
    ensures
        help_rows(catalog, buffer, limit).len() <= limit,
        forall|i: int|
            0 <= i < help_rows(catalog, buffer, limit).len() ==> {
                let row = #[trigger] help_rows(catalog, buffer, limit)[i];
                &&& row.source == CandidateSource::Help
                &&& appends(buffer, row)
            },
{
    let context = context_of(buffer);
    let entries = help_entries(catalog, context, limit);
    let pick = from_help(buffer, context);
    let rows = help_rows(catalog, buffer, limit);
    lemma_filter_map_len(entries, pick);
    reveal_strlit(" ");
    assert forall|i: int| 0 <= i < rows.len() implies {
        let row = #[trigger] rows[i];
        &&& row.source == CandidateSource::Help
        &&& appends(buffer, row)
    } by {
        let row = rows[i];
        assert(rows.contains(row));
        entries.lemma_filter_map_contains(pick, row);
        let entry = choose|t: Described| #[trigger] entries.contains(t) && pick(t) == Some(row);
        assert(row.insert_text.take(row.insert_text.len() as int) =~= row.insert_text);
        assert(buffer + Seq::<char>::empty() =~= buffer);
    }
}

/// The place of a source among the others.
pub open spec fn tier(source: CandidateSource) -> int {
    match source {
        CandidateSource::History => 0,
        CandidateSource::Filesystem => 1,
        CandidateSource::Help => 2,
        CandidateSource::Command => 3,
    }
}

/// No row stands before one of a higher tier.
pub open spec fn tiers_in_order(rows: Seq<CandidateView>) -> bool {
    forall|i: int, j: int|
        0 <= i < j < rows.len() ==> tier((#[trigger] rows[i]).source) <= tier(
            (#[trigger] rows[j]).source,
        )
}

/// A completion of the end of a buffer replaces nothing. It holds at most
/// `limit` rows, those from history first, then those from a command's help or
/// those for commands, of which it never has both. Every row appends to the
/// buffer, and a row from history brings a command of the past back.
pub proof fn law_completion(
    catalog: CatalogView,
    history: Seq<HistoryView>,
    buffer: Seq<char>,
    cursor: nat,
    limit: nat,
    accept: AcceptMode,
)
    requires
        history.len() <= limit,
    ensures
        ({
            let r = completion_of(catalog, history, buffer, cursor, limit, accept);
            &&& r.replace_start == cursor
            &&& r.replace_end == cursor
            &&& r.candidates.len() <= limit
            &&& tiers_in_order(r.candidates)
            &&& forall|i: int|
                0 <= i < r.candidates.len() ==> {
                    let row = #[trigger] r.candidates[i];
                    &&& appends(buffer, row)
                    &&& row.source == CandidateSource::History ==> recalls(buffer, history, row)
                    &&& row.source != CandidateSource::Filesystem
                }
        }),
{
    let past = past_rows(history, buffer, accept);
    let rows = with_commands(catalog, past, buffer, limit);
    let asked = after_commands(catalog, past, buffer, limit);
    let help = help_rows(asked, buffer, limit);
    let all = with_help(rows, help, limit);
    lemma_past_rows(history, buffer, accept);
    context::law_contexts_exclude(buffer);
    if wants_commands(past, buffer, limit) {
        lemma_command_rows(catalog, past, buffer, limit);
        reveal(Seq::filter_map);
        assert(context_of(buffer) is Nothing);
        assert(help =~= Seq::<CandidateView>::empty());
        assert forall|i: int| 0 <= i < all.len() implies {
            let row = #[trigger] all[i];
            &&& appends(buffer, row)
            &&& row.source == CandidateSource::History ==> recalls(buffer, history, row)
            &&& row.source == CandidateSource::History || row.source == CandidateSource::Command
            &&& row.source == CandidateSource::Command <==> i >= past.len()
        } by {
            if i < past.len() {
                assert(all.take(past.len() as int)[i] == all[i]);
                assert(all[i] == past[i]);
            }
        }
    } else {
        lemma_help_rows(asked, buffer, limit);
        assert(Seq::<MatchView>::empty().map_values(from_command(buffer)) =~= Seq::<
            CandidateView,
        >::empty());
        assert(rows =~= past);
        if help.len() > 0 {
            let keep = new_row(rows);
            let fresh = help.filter(keep);
            let front = before_help(rows, fresh, limit);
            assert forall|i: int| 0 <= i < all.len() implies {
                let row = #[trigger] all[i];
                &&& appends(buffer, row)
                &&& row.source == CandidateSource::History ==> recalls(buffer, history, row)
                &&& row.source == CandidateSource::History || row.source == CandidateSource::Help
                &&& row.source == CandidateSource::Help <==> i >= front.len()
            } by {
                if i < front.len() {
                    assert(all[i] == past[i]);
                } else {
                    let k = i - front.len();
                    assert(all[i] == fresh[k]);
                    assert(fresh.contains(fresh[k]));
                    help.lemma_filter_contains_rev(keep, fresh[k]);
                    let m = choose|m: int| 0 <= m < help.len() && help[m] == fresh[k];
                    assert(help[m].source == CandidateSource::Help);
                }
            }
        }
    }
}

/// A look is asked only at commands that a completion shows, and at the one whose
/// help it looks for.
pub proof fn law_only_shown_commands_are_asked(
    catalog: CatalogView,
    history: Seq<HistoryView>,
    buffer: Seq<char>,
    cursor: nat,
    limit: nat,
    accept: AcceptMode,
    i: int,
)
    requires
        catalog::jobs_are_named(catalog),
        catalog.queue is Some,
        catalog.queue->Some_0.waiting.len() <= i < catalog_after(
            catalog,
            history,
            buffer,
            limit,
            accept,
        ).queue->Some_0.waiting.len(),
    ensures
        ({
            let after = catalog_after(catalog, history, buffer, limit, accept);
            let name = after.queue->Some_0.waiting[i].name;
            ||| merge::shows(
                completion_of(catalog, history, buffer, cursor, limit, accept).candidates,
                name,
            )
            ||| context_command(context_of(buffer)) == Some(name)
        }),
{
    let past = past_rows(history, buffer, accept);
    let shown = shown_commands(catalog, past, buffer, limit);
    let rows = with_commands(catalog, past, buffer, limit);
    let asked = after_commands(catalog, past, buffer, limit);
    let after = catalog_after(catalog, history, buffer, limit, accept);
    let name = after.queue->Some_0.waiting[i].name;
    catalog::law_asking_keeps_what_is_known(catalog, shown);
    if i < asked.queue->Some_0.waiting.len() {
        assert(name == asked.queue->Some_0.waiting[i].name);
        catalog::law_only_offered_commands_are_asked(catalog, shown, i);
        let k = choose|k: int| 0 <= k < shown.len() && (#[trigger] shown[k]).name == name;
        lemma_offered(catalog, shown);
        context::law_contexts_exclude(buffer);
        assert(wants_commands(past, buffer, limit));
        assert(context_of(buffer) is Nothing);
        reveal(Seq::filter_map);
        assert(help_rows(asked, buffer, limit) =~= Seq::<CandidateView>::empty());
        assert(catalog::offered(catalog, shown).1[k].name == name);
        assert(rows[past.len() + k].display == name);
    }
}

/// History that fills the menu leaves what is reserved to a command's help, and
/// help takes no more than that from it: half of it at most, and nothing of a menu
/// with one row.
pub proof fn law_help_keeps_its_share(
    rows: Seq<CandidateView>,
    help: Seq<CandidateView>,
    limit: nat,
)
    requires
        rows.len() <= limit,
    ensures
        ({
            let fresh = help.filter(new_row(rows));
            let all = with_help(rows, help, limit);
            let front = before_help(rows, fresh, limit);
            let slots = help_slots(rows, fresh, limit);
            &&& all.len() <= limit
            &&& front.len() >= merge::least(rows.len(), (limit - limit / 2) as nat)
            &&& slots >= merge::reserved(fresh.len(), limit)
            &&& limit == 1 && rows.len() == 1 ==> all == rows
            &&& help.len() > 0 ==> all.take(front.len() as int) == front
                && front == rows.take(front.len() as int)
            &&& help.len() > 0 ==> all.len() == front.len() + slots && forall|i: int|
                0 <= i < slots ==> #[trigger] all[front.len() + i] == fresh[i]
        }),
{
}

proof fn lemma_added_tiers(rows: Seq<CandidateView>, more: Seq<CandidateView>, cap: nat)
    requires
        tiers_in_order(rows),
        tiers_in_order(more),
        forall|i: int, j: int|
            0 <= i < rows.len() && 0 <= j < more.len() ==> tier((#[trigger] rows[i]).source)
                <= tier((#[trigger] more[j]).source),
    ensures
        tiers_in_order(merge::added(rows, more, cap)),
    decreases more.len(),
{
    if more.len() > 0 {
        let shorter = more.drop_last();
        assert forall|i: int, j: int| 0 <= i < j < shorter.len() implies tier(
            (#[trigger] shorter[i]).source,
        ) <= tier((#[trigger] shorter[j]).source) by {
            assert(shorter[i] == more[i] && shorter[j] == more[j]);
        }
        assert forall|i: int, j: int| 0 <= i < rows.len() && 0 <= j < shorter.len() implies tier(
            (#[trigger] rows[i]).source,
        ) <= tier((#[trigger] shorter[j]).source) by {
            assert(shorter[j] == more[j]);
        }
        lemma_added_tiers(rows, shorter, cap);
        merge::law_added(rows, shorter, cap);
        let before = merge::added(rows, shorter, cap);
        let last = more[more.len() - 1];
        assert forall|i: int| 0 <= i < before.len() implies tier((#[trigger] before[i]).source)
            <= tier(last.source) by {
            if i < rows.len() {
                assert(before.take(rows.len() as int)[i] == rows[i]);
            } else {
                assert(shorter.contains(before[i]));
                let k = choose|k: int| 0 <= k < shorter.len() && shorter[k] == before[i];
                assert(more[k] == before[i]);
            }
        }
    }
}

/// Paths in a completion stand behind its rows from history and before all its
/// others: no tier outranks a higher one.
pub proof fn law_menu_tiers(rows: Seq<CandidateView>, paths: Seq<CandidateView>, limit: nat)
    requires
        tiers_in_order(rows),
        forall|i: int|
            0 <= i < rows.len() ==> (#[trigger] rows[i]).source != CandidateSource::Filesystem,
        forall|i: int|
            0 <= i < paths.len() ==> (#[trigger] paths[i]).source == CandidateSource::Filesystem,
    ensures
        tiers_in_order(merge::merged(rows, paths, limit)),
{
    if paths.len() > 0 && limit > 0 {
        let list = merge::noted(paths, limit);
        let history = merge::kept_history(rows, paths, limit);
        let middle = merge::with_paths(rows, paths, limit);
        let n = merge::history_count(rows);
        let rest = rows.skip(n as int);
        merge::law_merged_tiers(rows, paths, limit);
        lemma_history_ends(rows);
        let all = merge::merged(rows, paths, limit);
        assert forall|i: int| 0 <= i < history.len() implies (#[trigger] history[i]).source
            == CandidateSource::History by {
            assert(all.take(history.len() as int)[i] == all[i]);
        }
        assert forall|i: int| 0 <= i < list.len() implies (#[trigger] list[i]).source
            == CandidateSource::Filesystem by {
            assert(list[i].source == paths[i].source);
        }
        lemma_added_tiers(
            history,
            list,
            merge::least(history.len() + merge::path_slots(paths, limit), limit),
        );
        assert forall|i: int| 0 <= i < middle.len() implies tier((#[trigger] middle[i]).source)
            <= 1 by {
            assert(all.take(middle.len() as int)[i] == all[i]);
            if i >= history.len() {
                assert(list.contains(all[i]));
                let k = choose|k: int| 0 <= k < list.len() && list[k] == all[i];
                assert(list[k].source == CandidateSource::Filesystem);
            }
        }
        assert forall|i: int| 0 <= i < rest.len() implies tier((#[trigger] rest[i]).source) >= 2 by {
            assert(rest[i] == rows[n + i]);
            assert(tier(rows[n as int].source) <= tier(rows[n + i].source));
        }
        assert forall|i: int, j: int| 0 <= i < j < rest.len() implies tier(
            (#[trigger] rest[i]).source,
        ) <= tier((#[trigger] rest[j]).source) by {
            assert(rest[i] == rows[n + i] && rest[j] == rows[n + j]);
        }
        lemma_added_tiers(middle, rest, limit);
    }
}

proof fn lemma_history_ends(rows: Seq<CandidateView>)
    ensures
        merge::history_count(rows) <= rows.len(),
        merge::history_count(rows) < rows.len() ==> rows[merge::history_count(rows) as int].source
            != CandidateSource::History,
    decreases rows.len(),
{
    if rows.len() > 0 && rows[0].source == CandidateSource::History {
        lemma_history_ends(rows.drop_first());
    }
}

} // verus!

//! Which commands of the past are offered, and in what order.
use vstd::prelude::*;
use crate::laws::menus;
use crate::order;
use crate::records;
use crate::store;
use crate::store::history;
use crate::store::ranking;
use crate::text;
use crate::store::history::EntryView;
use crate::store::ranking::Event;
use crate::store::{HistoryFile, HistoryView};

verus! {

/// The command was used at a time.
pub open spec fn used_at(events: Seq<Event>, command: Seq<char>, time: int) -> bool {
    exists|i: int|
        0 <= i < events.len() && (#[trigger] events[i]).command == command && events[i].observed_at
            == time
}

/// No use of the command came after a time.
pub open spec fn not_used_after(events: Seq<Event>, command: Seq<char>, time: int) -> bool {
    forall|i: int|
        0 <= i < events.len() && (#[trigger] events[i]).command == command
            ==> events[i].observed_at <= time
}

/// The command was used in a directory.
pub open spec fn used_here(events: Seq<Event>, command: Seq<char>, cwd: Seq<char>) -> bool {
    exists|i: int|
        0 <= i < events.len() && (#[trigger] events[i]).command == command && events[i].cwd == cwd
}

/// The command has succeeded.
pub open spec fn worked(events: Seq<Event>, command: Seq<char>) -> bool {
    exists|i: int|
        0 <= i < events.len() && (#[trigger] events[i]).command == command && events[i].exit_code
            == Some(0int)
}

/// How often a command was used.
pub open spec fn times_used(events: Seq<Event>, command: Seq<char>) -> nat {
    events.filter(|e: Event| e.command == command).len()
}

proof fn lemma_latest(events: Seq<Event>, command: Seq<char>)
    ensures
        match ranking::latest_of(events, command) {
            Some(time) => used_at(events, command, time) && not_used_after(events, command, time),
            None => forall|i: int| 0 <= i < events.len() ==> (#[trigger] events[i]).command
                != command,
        },
    decreases events.len(),
{
    if events.len() > 0 {
        let rest = events.drop_last();
        lemma_latest(rest, command);
        let last = events[events.len() - 1];
        assert forall|i: int| 0 <= i < events.len() && i != events.len() - 1 implies
            #[trigger] events[i] == rest[i] by {}
        if ranking::latest_of(rest, command) is Some {
            let time = ranking::latest_of(rest, command)->Some_0;
            let k = choose|k: int|
                0 <= k < rest.len() && (#[trigger] rest[k]).command == command
                    && rest[k].observed_at == time;
            assert(events[k].command == command && events[k].observed_at == time);
        }
        if last.command == command {
            assert(events.last() == last);
            assert(events[events.len() - 1].observed_at == last.observed_at);
        }
    }
}

proof fn lemma_times_used(events: Seq<Event>, command: Seq<char>)
    ensures
        ranking::uses_of(events, command) == times_used(events, command),
    decreases events.len(),
{
    reveal(Seq::filter);
    if events.len() > 0 {
        lemma_times_used(events.drop_last(), command);
    }
}

/// Of two commands that are offered, the one that was used last comes first;
/// where both were last used at the same time, one that was used in this directory
/// comes before one that was not, then, where that is asked for, one that has
/// worked before one that has not, then the one that was used more often, and
/// otherwise the one whose text is the smaller.
pub proof fn law_order_of_past_commands(
    events: Seq<Event>,
    list: Seq<HistoryView>,
    prefix: Seq<char>,
    cwd: Seq<char>,
    limit: nat,
    successful_first: bool,
    i: int,
    j: int,
    first: int,
    second: int,
)
    requires
        store::offers_best(list, events, prefix, cwd, limit, successful_first),
        0 <= i < list.len(),
        0 <= j < list.len(),
        i != j,
        used_at(events, list[i].command, first),
        not_used_after(events, list[i].command, first),
        used_at(events, list[j].command, second),
        not_used_after(events, list[j].command, second),
    ensures
        ({
            let a = list[i].command;
            let b = list[j].command;
            &&& first > second ==> i < j
            &&& first == second && used_here(events, a, cwd) && !used_here(events, b, cwd) ==> i < j
            &&& first == second && (used_here(events, a, cwd) <==> used_here(events, b, cwd)) ==> {
                &&& successful_first && worked(events, a) && !worked(events, b) ==> i < j
                &&& !successful_first || (worked(events, a) <==> worked(events, b)) ==> {
                    &&& times_used(events, a) > times_used(events, b) ==> i < j
                    &&& times_used(events, a) == times_used(events, b) && !order::text_le(b, a)
                        ==> i < j
                }
            }
        }),
{
    let a = list[i].command;
    let b = list[j].command;
    lemma_latest(events, a);
    lemma_latest(events, b);
    lemma_times_used(events, a);
    lemma_times_used(events, b);
    let k = choose|k: int|
        0 <= k < events.len() && (#[trigger] events[k]).command == a && events[k].observed_at
            == first;
    let m = choose|m: int|
        0 <= m < events.len() && (#[trigger] events[m]).command == b && events[m].observed_at
            == second;
    assert(events[k].command == a && events[m].command == b);
    let la = ranking::latest_of(events, a)->Some_0;
    let lb = ranking::latest_of(events, b)->Some_0;
    assert(la == first) by {
        let n = choose|n: int|
            0 <= n < events.len() && (#[trigger] events[n]).command == a && events[n].observed_at
                == la;
        assert(events[n].observed_at <= first);
        assert(events[k].observed_at <= la);
    }
    assert(lb == second) by {
        let n = choose|n: int|
            0 <= n < events.len() && (#[trigger] events[n]).command == b && events[n].observed_at
                == lb;
        assert(events[n].observed_at <= second);
        assert(events[m].observed_at <= lb);
    }
    let group = ranking::grouping(events, cwd);
    order::law_text_order(a, b, a);
    if j < i {
        assert(ranking::rank_le(group(list[j].command), group(list[i].command), successful_first));
    }
}

/// A command that goes on from what was typed, and was used, is offered once,
/// with the number of its uses and whether it was used here, unless the list is
/// full; nothing else is offered.
pub proof fn law_offered_past_commands(
    events: Seq<Event>,
    list: Seq<HistoryView>,
    prefix: Seq<char>,
    cwd: Seq<char>,
    limit: nat,
    successful_first: bool,
    k: int,
)
    requires
        store::offers_best(list, events, prefix, cwd, limit, successful_first),
        records::without_nul(prefix),
        0 <= k < events.len(),
        menus::extends(events[k].command, prefix),
        events[k].command.len() > prefix.len(),
        list.len() < limit,
        events.len() <= usize::MAX,
    ensures
        exists|i: int|
            0 <= i < list.len() && (#[trigger] list[i]).command == events[k].command
                && list[i].uses == times_used(events, events[k].command) && (list[i].same_cwd
                <==> used_here(events, events[k].command, cwd)),
        forall|i: int|
            0 <= i < list.len() ==> menus::extends((#[trigger] list[i]).command, prefix)
                && list[i].command != prefix,
        list.len() <= limit,
{
    let c = events[k].command;
    menus::lemma_extends(c, prefix);
    history::law_start_answers(prefix, c);
    ranking::law_uses_count_events(events, k);
    lemma_times_used(events, c);
    lemma_filter_len(events, c);
    assert(history::answers(prefix, c));
    assert forall|i: int| 0 <= i < list.len() implies menus::extends(
        (#[trigger] list[i]).command,
        prefix,
    ) && list[i].command != prefix by {
        menus::lemma_extends(list[i].command, prefix);
    }
    if forall|i: int| 0 <= i < list.len() ==> (#[trigger] list[i]).command != c {
        assert(false);
    }
    let i = choose|i: int| 0 <= i < list.len() && (#[trigger] list[i]).command == c;
    assert(list[i].uses == times_used(events, c));
}

proof fn lemma_filter_len(events: Seq<Event>, command: Seq<char>)
    ensures
        times_used(events, command) <= events.len(),
    decreases events.len(),
{
    reveal(Seq::filter);
    if events.len() > 0 {
        lemma_filter_len(events.drop_last(), command);
    }
}

/// A history file is known by its path, and no session is taken for one.
pub proof fn law_sources_differ(path: Seq<char>, other: Seq<char>, session: Seq<char>)
    ensures
        store::file_source(path) == store::file_source(other) <==> path == other,
        store::session_source(path) == store::session_source(other) <==> path == other,
        store::file_source(path) != store::session_source(session),
{
    reveal_strlit("zsh:");
    reveal_strlit("session:");
    let a = store::file_source(path);
    let b = store::file_source(other);
    assert(a.skip(4) =~= path);
    assert(b.skip(4) =~= other);
    assert(store::session_source(path).skip(8) =~= path);
    assert(store::session_source(other).skip(8) =~= other);
    assert(a[0] == 'z');
    assert(store::session_source(session)[0] == 's');
}

/// A history file that grew, shrank or was written again is told from what it
/// was, as far as its size and time can be kept.
pub proof fn law_changed_file_is_noticed(file: HistoryFile, later: HistoryFile)
    requires
        file.size <= i64::MAX,
        later.size <= i64::MAX,
        file.modified_ns <= i64::MAX,
        later.modified_ns <= i64::MAX,
    ensures
        store::file_mark(file) == store::file_mark(later) <==> file.size == later.size
            && file.modified_ns == later.modified_ns,
{
}

/// What is read of a history file stands behind everything else, in its order,
/// with its commands and times, in no directory and without an outcome.
pub proof fn law_commands_of_a_file(
    events: Seq<Event>,
    source: Seq<char>,
    entries: Seq<EntryView>,
    i: int,
)
    requires
        0 <= i < entries.len(),
    ensures
        ({
            let after = store::with_file(events, source, entries);
            let event = after[after.len() - entries.len() + i];
            &&& after.len() >= entries.len()
            &&& event.command == entries[i].command
            &&& event.observed_at == entries[i].observed_at
            &&& event.cwd.len() == 0
            &&& event.exit_code is None
            &&& event.source == source
        }),
{
}

} // verus!

//! What a fuzzy search looks through, and what it finds.
use vstd::prelude::*;
use crate::commands::catalog;
use crate::commands::listing;
use crate::engine::display;
use crate::engine::fuzzy;
use crate::laws::menus;
use crate::laws::plain;
use crate::number;
use crate::commands::catalog::{CatalogView, MatchView};
use crate::commands::help::Described;
use crate::protocol::{CandidateKind, CandidateSource, CandidateView};
use crate::store::HistoryView;

verus! {

/// No two commands of the past are the same.
pub open spec fn distinct_past(history: Seq<HistoryView>) -> bool {
    forall|i: int, j: int|
        0 <= i < j < history.len() ==> (#[trigger] history[i]).command != (
        #[trigger] history[j]).command
}

/// No two installed commands share a name.
pub open spec fn distinct_installed(commands: Seq<MatchView>) -> bool {
    forall|i: int, j: int|
        0 <= i < j < commands.len() ==> (#[trigger] commands[i]).name != (
        #[trigger] commands[j]).name
}

/// No installed command is a command of the past.
pub open spec fn apart(history: Seq<HistoryView>, commands: Seq<MatchView>) -> bool {
    forall|i: int, j: int|
        0 <= i < history.len() && 0 <= j < commands.len() ==> (#[trigger] history[i]).command != (
        #[trigger] commands[j]).name
}

proof fn lemma_past_pool(history: Seq<HistoryView>)
    requires
        distinct_past(history),
    ensures
        fuzzy::past_pool(history).len() == history.len(),
        forall|i: int|
            0 <= i < history.len() ==> #[trigger] fuzzy::past_pool(history)[i]
                == fuzzy::past_entry(history[i]),
    decreases history.len(),
{
    if history.len() > 0 {
        let rest = history.drop_last();
        assert(distinct_past(rest)) by {
            assert forall|i: int, j: int| 0 <= i < j < rest.len() implies (
            #[trigger] rest[i]).command != (#[trigger] rest[j]).command by {
                assert(rest[i] == history[i] && rest[j] == history[j]);
            }
        }
        lemma_past_pool(rest);
        let pool = fuzzy::past_pool(rest);
        let last = history[history.len() - 1];
        assert(!fuzzy::inserts(pool, last.command)) by {
            assert forall|i: int| 0 <= i < pool.len() implies (#[trigger] pool[i]).insert_text
                != last.command by {
                assert(pool[i] == fuzzy::past_entry(rest[i]));
                assert(rest[i] == history[i]);
            }
        }
        assert forall|i: int| 0 <= i < history.len() implies #[trigger] fuzzy::past_pool(history)[i]
            == fuzzy::past_entry(history[i]) by {
            if i < rest.len() {
                assert(fuzzy::past_pool(history)[i] == pool[i]);
                assert(rest[i] == history[i]);
            }
        }
    }
}

proof fn lemma_full_pool(history: Seq<HistoryView>, commands: Seq<MatchView>)
    requires
        distinct_past(history),
        distinct_installed(commands),
        apart(history, commands),
    ensures
        ({
            let pool = fuzzy::pool_of(history, commands);
            &&& pool.len() == history.len() + commands.len()
            &&& forall|i: int|
                0 <= i < history.len() ==> #[trigger] pool[i] == fuzzy::past_entry(history[i])
            &&& forall|i: int|
                0 <= i < commands.len() ==> #[trigger] pool[history.len() + i]
                    == fuzzy::command_entry(commands[i])
        }),
    decreases commands.len(),
{
    lemma_past_pool(history);
    if commands.len() > 0 {
        let rest = commands.drop_last();
        assert(distinct_installed(rest)) by {
            assert forall|i: int, j: int| 0 <= i < j < rest.len() implies (
            #[trigger] rest[i]).name != (#[trigger] rest[j]).name by {
                assert(rest[i] == commands[i] && rest[j] == commands[j]);
            }
        }
        assert(apart(history, rest)) by {
            assert forall|i: int, j: int| 0 <= i < history.len() && 0 <= j < rest.len() implies (
            #[trigger] history[i]).command != (#[trigger] rest[j]).name by {
                assert(rest[j] == commands[j]);
            }
        }
        lemma_full_pool(history, rest);
        let before = fuzzy::pool_of(history, rest);
        let pool = fuzzy::pool_of(history, commands);
        let last = commands[commands.len() - 1];
        assert(!fuzzy::inserts(before, last.name)) by {
            assert forall|i: int| 0 <= i < before.len() implies (#[trigger] before[i]).insert_text
                != last.name by {
                if i < history.len() {
                    assert(before[i] == fuzzy::past_entry(history[i]));
                } else {
                    let k = i - history.len();
                    assert(before[history.len() + k] == fuzzy::command_entry(rest[k]));
                    assert(rest[k] == commands[k]);
                }
            }
        }
        assert(pool == before.push(fuzzy::command_entry(last)));
        assert forall|i: int| 0 <= i < commands.len() implies #[trigger] pool[history.len() + i]
            == fuzzy::command_entry(commands[i]) by {
            if i < rest.len() {
                assert(pool[history.len() + i] == before[history.len() + i]);
                assert(rest[i] == commands[i]);
            }
        }
        assert forall|i: int| 0 <= i < history.len() implies #[trigger] pool[i]
            == fuzzy::past_entry(history[i]) by {
            assert(pool[i] == before[i]);
        }
    }
}

/// A search looks through the commands of the past and then the installed ones,
/// in their orders. Each is shown and inserted whole: a command of the past with
/// the number of its uses, an installed one with its description.
pub proof fn law_search_looks_through_everything(
    history: Seq<HistoryView>,
    commands: Seq<MatchView>,
)
    requires
        distinct_past(history),
        distinct_installed(commands),
        apart(history, commands),
    ensures
        ({
            let pool = fuzzy::pool_of(history, commands);
            &&& pool.len() == history.len() + commands.len()
            &&& forall|i: int|
                0 <= i < history.len() ==> {
                    let entry = #[trigger] pool[i];
                    &&& entry.insert_text == history[i].command
                    &&& entry.accept_text == history[i].command
                    &&& entry.display == display::displayed(history[i].command)
                    &&& entry.description == menus::use_of(history[i])
                    &&& entry.kind == CandidateKind::History
                    &&& entry.source == CandidateSource::History
                    &&& !entry.description_pending
                }
            &&& forall|i: int|
                0 <= i < commands.len() ==> {
                    let entry = #[trigger] pool[history.len() + i];
                    &&& entry.insert_text == commands[i].name
                    &&& entry.accept_text == commands[i].name
                    &&& entry.display == commands[i].name
                    &&& entry.description == commands[i].description
                    &&& entry.kind == CandidateKind::Command
                    &&& entry.source == CandidateSource::Command
                    &&& !entry.description_pending
                }
        }),
{
    lemma_full_pool(history, commands);
}

/// What was inserted by an earlier entry is not listed again.
pub proof fn law_nothing_is_searched_twice(
    history: Seq<HistoryView>,
    commands: Seq<MatchView>,
    past: HistoryView,
    found: MatchView,
    k: int,
)
    requires
        0 <= k < fuzzy::pool_of(history, commands).len(),
    ensures
        fuzzy::pool_of(history, commands)[k].insert_text == found.name ==> fuzzy::pool_of(
            history,
            commands.push(found),
        ) == fuzzy::pool_of(history, commands),
        commands.len() == 0 && fuzzy::pool_of(history, commands)[k].insert_text == past.command
            ==> fuzzy::pool_of(history.push(past), commands) == fuzzy::pool_of(history, commands),
{
    assert(commands.push(found).drop_last() =~= commands);
    assert(history.push(past).drop_last() =~= history);
    let pool = fuzzy::pool_of(history, commands);
    if pool[k].insert_text == found.name {
        assert(fuzzy::inserts(pool, found.name));
    }
    if pool[k].insert_text == past.command {
        assert(fuzzy::inserts(pool, past.command));
    }
}

/// The filter reads each entry as its number, a tab and what is shown of it, and
/// is handed the query as its last argument.
pub proof fn law_what_the_filter_gets(n: nat, shown: Seq<char>, query: Seq<char>)
    ensures
        fuzzy::record(n, shown) == number::decimal(n) + seq!['\t'] + shown,
        fuzzy::filter_arguments(query).last() == query,
        fuzzy::filter_arguments(query).drop_last().last() == "--filter"@,
        fuzzy::filter_arguments(query).contains("--read0"@),
        fuzzy::filter_arguments(query).contains("--print0"@),
        fuzzy::filter_arguments(query).contains("--nth=2.."@),
{
    let list = fuzzy::filter_arguments(query);
    assert(list[0] == "--read0"@);
    assert(list[1] == "--print0"@);
    assert(list[4] == "--nth=2.."@);
}

/// A search that found nothing is no failure; one that failed says how.
pub proof fn law_status_of_the_filter(
    code: Option<i32>,
    status: Seq<char>,
    output: Seq<u8>,
    count: nat,
    limit: nat,
)
    ensures
        code == Some(1i32) ==> fuzzy::filter_answer(code, status, output, count, limit) == Ok::<
            Seq<nat>,
            Seq<char>,
        >(Seq::empty()),
        code != Some(0i32) && code != Some(1i32) ==> fuzzy::filter_answer(
            code,
            status,
            output,
            count,
            limit,
        ) == Err::<Seq<nat>, Seq<char>>("fzf fuzzy filter failed with "@ + status),
{
}

/// Of the entries that the filter names, in its order, a smaller menu holds the
/// first.
pub proof fn law_first_named_entries(records: Seq<Seq<u8>>, count: nat, limit: nat, more: nat)
    requires
        limit <= more,
        fuzzy::named_entries(records, count, more) is Ok,
    ensures
        fuzzy::named_entries(records, count, limit) == Ok::<Seq<nat>, Seq<char>>(
            plain::first_of(fuzzy::named_entries(records, count, more)->Ok_0, limit),
        ),
        fuzzy::named_entries(records, count, more)->Ok_0.len() <= more,
    decreases records.len(),
{
    if records.len() > 0 {
        let rest = records.drop_last();
        law_first_named_entries(rest, count, limit, more);
        let all = fuzzy::named_entries(rest, count, more)->Ok_0;
        let whole = fuzzy::named_entries(records, count, more)->Ok_0;
        if whole.len() > all.len() {
            assert(whole.drop_last() =~= all);
        }
        if all.len() >= limit {
            assert(plain::first_of(whole, limit) =~= plain::first_of(all, limit));
        } else {
            assert(plain::first_of(all, limit) == all);
            assert(plain::first_of(whole, limit) == whole);
        }
    }
}

/// The entries that a search shows are those that the filter named, in its order;
/// entries from history as they are, installed commands with what is known about
/// them now.
pub proof fn law_shown_entries(catalog: CatalogView, pool: Seq<CandidateView>, indexes: Seq<usize>)
    ensures
        ({
            let shown = fuzzy::shown_entries(catalog, pool, indexes).1;
            &&& shown.len() == indexes.len()
            &&& forall|i: int|
                0 <= i < indexes.len() ==> {
                    let entry = pool[indexes[i] as int];
                    let row = #[trigger] shown[i];
                    &&& row.display == entry.display
                    &&& row.insert_text == entry.insert_text
                    &&& row.accept_text == entry.accept_text
                    &&& row.kind == entry.kind
                    &&& row.source == entry.source
                    &&& entry.source != CandidateSource::Command ==> row == entry
                }
        }),
    decreases indexes.len(),
{
    if indexes.len() > 0 {
        let rest = indexes.drop_last();
        law_shown_entries(catalog, pool, rest);
        let shown = fuzzy::shown_entries(catalog, pool, indexes).1;
        assert forall|i: int| 0 <= i < indexes.len() implies {
            let entry = pool[indexes[i] as int];
            let row = #[trigger] shown[i];
            &&& row.display == entry.display
            &&& row.insert_text == entry.insert_text
            &&& row.accept_text == entry.accept_text
            &&& row.kind == entry.kind
            &&& row.source == entry.source
            &&& entry.source != CandidateSource::Command ==> row == entry
        } by {
            if i < rest.len() {
                assert(rest[i] == indexes[i]);
                assert(shown[i] == fuzzy::shown_entries(catalog, pool, rest).1[i]);
            }
        }
    }
}

/// A single installed command that is shown carries the description that was
/// found out about it.
pub proof fn law_shown_command_is_described(
    catalog: CatalogView,
    pool: Seq<CandidateView>,
    n: usize,
    k: int,
)
    requires
        n < pool.len(),
        pool[n as int].source == CandidateSource::Command,
        0 <= k < catalog.entries.len(),
        catalog.entries[k].name == pool[n as int].display,
        forall|i: int|
            0 <= i < k ==> !menus::extends(
                (#[trigger] catalog.entries[i]).name,
                pool[n as int].display,
            ),
        catalog.state.descriptions.contains_key(pool[n as int].display),
        !catalog.jobs.contains_key(pool[n as int].display),
    ensures
        fuzzy::shown_entries(catalog, pool, seq![n]).1[0].description
            == catalog.state.descriptions[pool[n as int].display],
{
    let name = pool[n as int].display;
    let entry = catalog.entries[k];
    lemma_first_prefixed(catalog.entries, name, k);
    let list = listing::prefixed(catalog.entries, name, 1);
    assert(list =~= seq![entry]);
    assert(list.drop_last() =~= Seq::<Described>::empty());
    assert(catalog::offered(catalog, list.drop_last()) == (catalog, Seq::<MatchView>::empty()));
    let asked = catalog::offered(catalog, list);
    assert(list.last() == entry);
    assert(asked.1[0].name == name);
    assert(seq![n].drop_last() =~= Seq::empty());
    assert(fuzzy::shown_entries(catalog, pool, seq![n].drop_last()) == (
        catalog,
        Seq::<CandidateView>::empty(),
    ));
}

proof fn lemma_first_prefixed(list: Seq<Described>, typed: Seq<char>, k: int)
    requires
        0 <= k < list.len(),
        list[k].name == typed,
        forall|i: int| 0 <= i < k ==> !menus::extends((#[trigger] list[i]).name, typed),
    ensures
        list.filter(listing::prefixed_by(typed)).len() > 0,
        list.filter(listing::prefixed_by(typed))[0] == list[k],
    decreases list.len(),
{
    reveal(Seq::filter);
    let rest = list.drop_last();
    let keep = listing::prefixed_by(typed);
    if k < rest.len() {
        assert forall|i: int| 0 <= i < k implies !menus::extends((#[trigger] rest[i]).name, typed) by {
            assert(rest[i] == list[i]);
        }
        assert(rest[k] == list[k]);
        lemma_first_prefixed(rest, typed, k);
    } else {
        lemma_none_prefixed(rest, typed);
        menus::lemma_extends(typed, typed);
        assert(keep(list.last()));
    }
}

proof fn lemma_none_prefixed(list: Seq<Described>, typed: Seq<char>)
    requires
        forall|i: int| 0 <= i < list.len() ==> !menus::extends((#[trigger] list[i]).name, typed),
    ensures
        list.filter(listing::prefixed_by(typed)).len() == 0,
    decreases list.len(),
{
    reveal(Seq::filter);
    if list.len() > 0 {
        let rest = list.drop_last();
        assert forall|i: int| 0 <= i < rest.len() implies !menus::extends(
            (#[trigger] rest[i]).name,
            typed,
        ) by {
            assert(rest[i] == list[i]);
        }
        lemma_none_prefixed(rest, typed);
        menus::lemma_extends(list[list.len() - 1].name, typed);
    }
}

} // verus!

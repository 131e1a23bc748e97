//! What the menu offers at the end of a command line.
use vstd::prelude::*;
use crate::commands::catalog;
use crate::commands::listing;
use crate::engine::completion;
use crate::engine::context;
use crate::engine::display;
use crate::engine::merge;
use crate::engine::segment;
use crate::laws::contexts;
use crate::laws::plain;
use crate::number;
use crate::order;
use crate::text;
use crate::commands::catalog::CatalogView;
use crate::commands::help::Described;
use crate::commands::values::Choices;
use crate::config::AcceptMode;
use crate::engine::completion::Context;
use crate::protocol::{CandidateKind, CandidateSource, CandidateView};
use crate::store::HistoryView;
use crate::text::Class;

verus! {

/// A text goes on from another one, or is the same.
pub open spec fn extends(s: Seq<char>, start: Seq<char>) -> bool {
    start.len() <= s.len() && forall|i: int| 0 <= i < start.len() ==> #[trigger] s[i] == start[i]
}

/// The entries of a list whose names go on from what was typed.
pub open spec fn going_on(list: Seq<Described>, typed: Seq<char>) -> Seq<Described>
    decreases list.len(),
{
    if list.len() == 0 {
        Seq::empty()
    } else if extends(list.last().name, typed) {
        going_on(list.drop_last(), typed).push(list.last())
    } else {
        going_on(list.drop_last(), typed)
    }
}

/// How many rows of an otherwise empty menu a command's help may take: half of
/// it, one at least, and no more than there are.
pub open spec fn room_for_help(limit: nat) -> nat {
    if limit >= 4 {
        limit / 2
    } else if limit > 0 {
        1
    } else {
        0
    }
}

/// What is still to be typed; a space, where nothing is.
pub open spec fn missing(name: Seq<char>, typed: Seq<char>) -> Seq<char> {
    if name.len() == typed.len() {
        seq![' ']
    } else {
        name.skip(typed.len() as int)
    }
}

/// The row of an entry of a command's help.
pub open spec fn row_of(
    buffer: Seq<char>,
    typed: Seq<char>,
    entry: Described,
    description: Seq<char>,
    kind: CandidateKind,
) -> CandidateView {
    CandidateView {
        display: buffer + entry.name.skip(typed.len() as int),
        description,
        description_pending: false,
        kind,
        insert_text: missing(entry.name, typed),
        accept_text: missing(entry.name, typed),
        source: CandidateSource::Help,
    }
}

pub proof fn lemma_extends(s: Seq<char>, start: Seq<char>)
    ensures
        extends(s, start) <==> text::starts_with(s, start),
{
    if extends(s, start) {
        assert(s.take(start.len() as int) =~= start);
    }
    if text::starts_with(s, start) {
        assert forall|i: int| 0 <= i < start.len() implies #[trigger] s[i] == start[i] by {
            assert(s.take(start.len() as int)[i] == s[i]);
        }
    }
}

proof fn lemma_going_on(list: Seq<Described>, typed: Seq<char>)
    ensures
        going_on(list, typed) == list.filter(listing::prefixed_by(typed)),
        forall|i: int|
            0 <= i < going_on(list, typed).len() ==> extends(
                (#[trigger] going_on(list, typed)[i]).name,
                typed,
            ) && list.contains(going_on(list, typed)[i]),
    decreases list.len(),
{
    reveal(Seq::filter);
    if list.len() > 0 {
        let rest = list.drop_last();
        lemma_going_on(rest, typed);
        lemma_extends(list.last().name, typed);
        assert forall|i: int| 0 <= i < going_on(list, typed).len() implies list.contains(
            #[trigger] going_on(list, typed)[i],
        ) by {
            let e = going_on(list, typed)[i];
            if i < going_on(rest, typed).len() {
                assert(rest.contains(e));
                let k = choose|k: int| 0 <= k < rest.len() && rest[k] == e;
                assert(list[k] == e);
            } else {
                assert(list[list.len() - 1] == e);
            }
        }
    }
}

pub proof fn lemma_all_picked<A, B>(list: Seq<A>, pick: spec_fn(A) -> Option<B>)
    requires
        forall|i: int| 0 <= i < list.len() ==> pick(#[trigger] list[i]) is Some,
    ensures
        list.filter_map(pick).len() == list.len(),
        forall|i: int|
            0 <= i < list.len() ==> Some(#[trigger] list.filter_map(pick)[i]) == pick(list[i]),
    decreases list.len(),
{
    reveal(Seq::filter_map);
    if list.len() > 0 {
        let rest = list.drop_last();
        assert forall|i: int| 0 <= i < rest.len() implies pick(#[trigger] rest[i]) is Some by {
            assert(rest[i] == list[i]);
        }
        lemma_all_picked(rest, pick);
        assert(pick(list[list.len() - 1]) is Some);
        assert forall|i: int| 0 <= i < list.len() implies Some(#[trigger] list.filter_map(pick)[i])
            == pick(list[i]) by {
            if i < rest.len() {
                assert(rest[i] == list[i]);
                assert(list.filter_map(pick)[i] == rest.filter_map(pick)[i]);
            }
        }
    }
}

proof fn lemma_all_new(rows: Seq<CandidateView>, keep: spec_fn(CandidateView) -> bool)
    requires
        forall|i: int| 0 <= i < rows.len() ==> keep(#[trigger] rows[i]),
    ensures
        rows.filter(keep) == rows,
    decreases rows.len(),
{
    reveal(Seq::filter);
    if rows.len() > 0 {
        let rest = rows.drop_last();
        assert forall|i: int| 0 <= i < rest.len() implies keep(#[trigger] rest[i]) by {
            assert(rest[i] == rows[i]);
        }
        lemma_all_new(rest, keep);
        assert(keep(rows[rows.len() - 1]));
        assert(rest.push(rows.last()) =~= rows);
    }
}

/// Without commands of the past, and where no command's name is typed, the menu
/// is what the help of the command gives.
proof fn lemma_help_menu(
    catalog: CatalogView,
    buffer: Seq<char>,
    list: Seq<Described>,
    typed: Seq<char>,
    cursor: nat,
    limit: nat,
    accept: AcceptMode,
)
    requires
        !context::command_prefix(buffer),
        completion::help_entries(catalog, completion::context_of(buffer), limit)
            == listing::prefixed(list, typed, limit),
        forall|e: Described|
            extends(e.name, typed) && list.contains(e) ==> #[trigger] completion::help_row(
                buffer,
                completion::context_of(buffer),
                e,
            ) is Some,
    ensures
        ({
            let found = going_on(list, typed);
            let menu = completion::completion_of(
                catalog,
                Seq::empty(),
                buffer,
                cursor,
                limit,
                accept,
            ).candidates;
            &&& menu.len() == plain::smaller(found.len(), room_for_help(limit))
            &&& forall|i: int|
                0 <= i < menu.len() ==> Some(#[trigger] menu[i]) == completion::help_row(
                    buffer,
                    completion::context_of(buffer),
                    found[i],
                )
        }),
{
    let history = Seq::<HistoryView>::empty();
    let none = Seq::<CandidateView>::empty();
    let context = completion::context_of(buffer);
    let found = going_on(list, typed);
    assert(completion::past_rows(history, buffer, accept) == none) by {
        reveal(Seq::filter_map);
        assert(completion::past_rows(history, buffer, accept) =~= none);
    }
    lemma_no_commands(catalog, none, buffer, limit);
    let entries = listing::prefixed(list, typed, limit);
    lemma_going_on(list, typed);
    let pick = completion::from_help(buffer, context);
    assert forall|i: int| 0 <= i < entries.len() implies pick(#[trigger] entries[i]) is Some by {
        assert(entries[i] == found[i]);
        assert(completion::help_row(buffer, context, entries[i]) is Some);
    }
    lemma_all_picked(entries, pick);
    let help = entries.filter_map(pick);
    lemma_help_alone(help, limit);
    let menu = completion::with_help(none, help, limit);
    assert(menu == completion::completion_of(
        catalog,
        history,
        buffer,
        cursor,
        limit,
        accept,
    ).candidates);
    assert forall|i: int| 0 <= i < menu.len() implies Some(#[trigger] menu[i])
        == completion::help_row(buffer, context, found[i]) by {
        assert(menu[i] == help[i]);
        assert(entries[i] == found[i]);
        assert(pick(entries[i]) == Some(help[i]));
    }
}

proof fn lemma_help_alone(help: Seq<CandidateView>, limit: nat)
    ensures
        ({
            let menu = completion::with_help(Seq::empty(), help, limit);
            &&& menu.len() == plain::smaller(help.len(), room_for_help(limit))
            &&& forall|i: int| 0 <= i < menu.len() ==> #[trigger] menu[i] == help[i]
        }),
{
    let none = Seq::<CandidateView>::empty();
    let keep = completion::new_row(none);
    assert forall|i: int| 0 <= i < help.len() implies keep(#[trigger] help[i]) by {}
    lemma_all_new(help, keep);
    assert(completion::before_help(none, help, limit) == none);
}

proof fn lemma_no_commands(
    catalog: CatalogView,
    rows: Seq<CandidateView>,
    buffer: Seq<char>,
    limit: nat,
)
    requires
        !context::command_prefix(buffer),
    ensures
        completion::with_commands(catalog, rows, buffer, limit) == rows,
        completion::after_commands(catalog, rows, buffer, limit) == catalog,
{
    let shown = completion::shown_commands(catalog, rows, buffer, limit);
    assert(shown == Seq::<Described>::empty());
    let found = catalog::offered(catalog, shown).1;
    assert(found.map_values(completion::from_command(buffer)) =~= Seq::<CandidateView>::empty());
    assert(completion::with_commands(catalog, rows, buffer, limit) =~= rows);
}

proof fn lemma_values_of(list: Seq<Choices>, n: int)
    requires
        0 <= n < list.len(),
        forall|i: int| 0 <= i < n ==> (#[trigger] list[i]).option != list[n].option,
    ensures
        catalog::values_of(list, list[n].option) == list[n].values,
    decreases n,
{
    if n > 0 {
        let rest = list.drop_first();
        assert forall|i: int| 0 <= i < n - 1 implies (#[trigger] rest[i]).option != rest[n
            - 1].option by {
            assert(rest[i] == list[i + 1]);
        }
        lemma_values_of(rest, n - 1);
        assert(list[0].option != list[n].option);
    }
}

proof fn lemma_spaced(lead: Seq<char>, name: Seq<char>, gap: Seq<char>, word: Seq<char>)
    requires
        plain::spaces(gap),
        gap.len() > 0,
    ensures
        !context::command_prefix(lead + name + gap + word),
{
    let buffer = lead + name + gap + word;
    let i = (lead + name).len() as int;
    assert(buffer[i] == gap[0]);
    assert(!text::in_class(Class::CommandPart, buffer[i]));
}

/// Behind a command, an option and `=`, the menu offers the documented values of
/// that option that go on from what is typed behind the `=`, and all of them
/// where nothing is: in their order, as far as there is room, each with its
/// description, or with one that names the option.
pub proof fn law_documented_values_are_offered(
    catalog: CatalogView,
    lead: Seq<char>,
    name: Seq<char>,
    gap: Seq<char>,
    n: int,
    typed: Seq<char>,
    cursor: nat,
    limit: nat,
    accept: AcceptMode,
)
    requires
        plain::spaces(lead),
        contexts::command_word(name),
        plain::spaces(gap),
        gap.len() > 0,
        plain::typed_word(typed),
        catalog.jobs.contains_key(name),
        catalog.state.option_values.contains_key(name),
        0 <= n < catalog.state.option_values[name].len(),
        contexts::option_word(catalog.state.option_values[name][n].option),
        forall|i: int|
            0 <= i < n ==> (#[trigger] catalog.state.option_values[name][i]).option
                != catalog.state.option_values[name][n].option,
    ensures
        ({
            let choices = catalog.state.option_values[name][n];
            let buffer = lead + name + gap + (choices.option + seq!['='] + typed);
            let found = going_on(choices.values, typed);
            let menu = completion::completion_of(
                catalog,
                Seq::empty(),
                buffer,
                cursor,
                limit,
                accept,
            ).candidates;
            &&& menu.len() == plain::smaller(found.len(), room_for_help(limit))
            &&& forall|i: int|
                0 <= i < menu.len() ==> #[trigger] menu[i] == row_of(
                    buffer,
                    typed,
                    found[i],
                    if found[i].description.len() == 0 {
                        "Value for "@ + choices.option
                    } else {
                        found[i].description
                    },
                    CandidateKind::Value,
                )
        }),
{
    let list = catalog.state.option_values[name];
    let choices = list[n];
    let word = choices.option + seq!['='] + typed;
    let buffer = lead + name + gap + word;
    let found = going_on(choices.values, typed);
    contexts::law_value_behind_equals(lead, name, gap, choices.option, typed);
    lemma_spaced(lead, name, gap, word);
    lemma_values_of(list, n);
    lemma_value_rows(buffer, name, choices.option, typed);
    lemma_help_menu(catalog, buffer, choices.values, typed, cursor, limit, accept);
    lemma_going_on(choices.values, typed);
    let menu = completion::completion_of(
        catalog,
        Seq::empty(),
        buffer,
        cursor,
        limit,
        accept,
    ).candidates;
    assert forall|i: int| 0 <= i < menu.len() implies #[trigger] menu[i] == row_of(
        buffer,
        typed,
        found[i],
        if found[i].description.len() == 0 {
            "Value for "@ + choices.option
        } else {
            found[i].description
        },
        CandidateKind::Value,
    ) by {
        assert(extends(found[i].name, typed));
    }
}

proof fn lemma_value_rows(
    buffer: Seq<char>,
    command: Seq<char>,
    option: Seq<char>,
    typed: Seq<char>,
)
    ensures
        forall|e: Described|
            extends(e.name, typed) ==> #[trigger] completion::help_row(
                buffer,
                Context::Value { command, option, prefix: typed },
                e,
            ) == Some(
                row_of(
                    buffer,
                    typed,
                    e,
                    if e.description.len() == 0 {
                        "Value for "@ + option
                    } else {
                        e.description
                    },
                    CandidateKind::Value,
                ),
            ),
        forall|e: Described|
            extends(e.name, typed) ==> #[trigger] completion::help_row(
                buffer,
                Context::Subcommand { command, prefix: typed },
                e,
            ) == Some(row_of(buffer, typed, e, e.description, CandidateKind::Subcommand)),
        forall|e: Described|
            extends(e.name, typed) && e.name != typed ==> #[trigger] completion::help_row(
                buffer,
                Context::Option { command, prefix: typed },
                e,
            ) == Some(row_of(buffer, typed, e, e.description, CandidateKind::Option)),
        forall|e: Described|
            #[trigger] completion::help_row(
                buffer,
                Context::Option { command, prefix: typed },
                Described { name: typed, description: e.description },
            ) is None,
{
    reveal_strlit(" ");
    assert(" "@ =~= seq![' ']);
    assert forall|e: Described| extends(e.name, typed) implies text::starts_with(
        #[trigger] e.name,
        typed,
    ) && (e.name.skip(typed.len() as int).len() == 0 <==> e.name.len() == typed.len()) && (
    e.name.len() == typed.len() ==> e.name == typed) by {
        lemma_extends(e.name, typed);
        if e.name.len() == typed.len() {
            assert(e.name =~= typed);
        }
    }
}

/// Behind a command alone, the menu offers the documented subcommands that go on
/// from what is typed; behind a dash, the documented options that do. An option
/// that is typed already is not offered.
pub proof fn law_documented_words_are_offered(
    catalog: CatalogView,
    lead: Seq<char>,
    name: Seq<char>,
    gap: Seq<char>,
    typed: Seq<char>,
    cursor: nat,
    limit: nat,
    accept: AcceptMode,
)
    requires
        plain::spaces(lead),
        contexts::command_word(name),
        plain::spaces(gap),
        gap.len() > 0,
        catalog.jobs.contains_key(name),
        catalog.state.options.contains_key(name),
        catalog.state.subcommands.contains_key(name),
        plain::typed_word(typed),
        plain::lacks(typed, '='),
    ensures
        ({
            let buffer = lead + name + gap + typed;
            let menu = completion::completion_of(
                catalog,
                Seq::empty(),
                buffer,
                cursor,
                limit,
                accept,
            ).candidates;
            if typed.len() > 0 && typed[0] == '-' {
                let list = catalog.state.options[name];
                let found = going_on(list, typed);
                (forall|i: int| 0 <= i < list.len() ==> (#[trigger] list[i]).name != typed) ==> {
                    &&& menu.len() == plain::smaller(found.len(), room_for_help(limit))
                    &&& forall|i: int|
                        0 <= i < menu.len() ==> #[trigger] menu[i] == row_of(
                            buffer,
                            typed,
                            found[i],
                            found[i].description,
                            CandidateKind::Option,
                        )
                }
            } else {
                let found = going_on(catalog.state.subcommands[name], typed);
                contexts::subcommand_word(typed) ==> {
                    &&& menu.len() == plain::smaller(found.len(), room_for_help(limit))
                    &&& forall|i: int|
                        0 <= i < menu.len() ==> #[trigger] menu[i] == row_of(
                            buffer,
                            typed,
                            found[i],
                            found[i].description,
                            CandidateKind::Subcommand,
                        )
                }
            }
        }),
{
    let buffer = lead + name + gap + typed;
    let dash = seq!['-'];
    assert(plain::typed_word(dash)) by {
        assert(plain::typed(dash[0]));
    }
    lemma_spaced(lead, name, gap, typed);
    contexts::lemma_no_value(lead, name, gap, typed);
    lemma_value_rows(buffer, name, Seq::empty(), typed);
    if typed.len() > 0 && typed[0] == '-' {
        contexts::law_option_behind_command(lead, name, gap, dash, gap, typed);
        let list = catalog.state.options[name];
        let found = going_on(list, typed);
        lemma_going_on(list, typed);
        if forall|i: int| 0 <= i < list.len() ==> (#[trigger] list[i]).name != typed {
            assert forall|e: Described| extends(e.name, typed) && list.contains(
                e,
            ) implies #[trigger] completion::help_row(
                buffer,
                completion::context_of(buffer),
                e,
            ) is Some by {
                let k = choose|k: int| 0 <= k < list.len() && list[k] == e;
                assert(list[k].name != typed);
            }
            lemma_help_menu(catalog, buffer, list, typed, cursor, limit, accept);
            assert forall|i: int| 0 <= i < found.len() implies extends(
                (#[trigger] found[i]).name,
                typed,
            ) && found[i].name != typed by {
                assert(list.contains(found[i]));
                let k = choose|k: int| 0 <= k < list.len() && list[k] == found[i];
                assert(list[k].name != typed);
            }
        }
    } else if contexts::subcommand_word(typed) {
        contexts::law_subcommand_behind_command(lead, name, gap, dash, gap, typed);
        contexts::lemma_no_option(lead, name, gap, typed);
        let list = catalog.state.subcommands[name];
        lemma_going_on(list, typed);
        lemma_help_menu(catalog, buffer, list, typed, cursor, limit, accept);
    }
}

/// How a command of the past is described.
pub open spec fn use_of(past: HistoryView) -> Seq<char> {
    if past.uses == 1 && past.same_cwd {
        "used here"@
    } else if past.uses == 1 {
        "used once"@
    } else if past.same_cwd {
        "used "@ + number::decimal(past.uses) + "x, here"@
    } else {
        "used "@ + number::decimal(past.uses) + "x"@
    }
}

/// Commands of the past that go on from the buffer stand in front of the menu, in
/// their order, as far as they leave the half that other sources may take: each
/// shown whole, inserting what the buffer lacks of it, of which a key press takes
/// the first segment or all, as the settings say.
pub proof fn law_past_commands_come_first(
    catalog: CatalogView,
    history: Seq<HistoryView>,
    buffer: Seq<char>,
    cursor: nat,
    limit: nat,
    accept: AcceptMode,
)
    requires
        history.len() <= limit - limit / 2,
        forall|i: int|
            0 <= i < history.len() ==> extends((#[trigger] history[i]).command, buffer)
                && history[i].command.len() > buffer.len(),
    ensures
        ({
            let menu = completion::completion_of(
                catalog,
                history,
                buffer,
                cursor,
                limit,
                accept,
            ).candidates;
            &&& history.len() <= menu.len()
            &&& forall|i: int|
                0 <= i < history.len() ==> {
                    let row = #[trigger] menu[i];
                    let rest = history[i].command.skip(buffer.len() as int);
                    &&& row.display == display::displayed(history[i].command)
                    &&& row.description == use_of(history[i])
                    &&& !row.description_pending
                    &&& row.kind == CandidateKind::History
                    &&& row.source == CandidateSource::History
                    &&& row.insert_text == rest
                    &&& accept is Full ==> row.accept_text == rest
                    &&& accept is Segment ==> row.accept_text == rest.take(
                        segment::segment_length(rest) as int,
                    )
                }
        }),
{
    let pick = completion::from_history(buffer, accept);
    assert forall|i: int| 0 <= i < history.len() implies pick(#[trigger] history[i]) is Some by {
        lemma_extends(history[i].command, buffer);
    }
    lemma_all_picked(history, pick);
    let past = completion::past_rows(history, buffer, accept);
    let rows = completion::with_commands(catalog, past, buffer, limit);
    let asked = completion::after_commands(catalog, past, buffer, limit);
    let help = completion::help_rows(asked, buffer, limit);
    let menu = completion::with_help(rows, help, limit);
    assert forall|i: int| 0 <= i < history.len() implies {
        let row = #[trigger] menu[i];
        let rest = history[i].command.skip(buffer.len() as int);
        &&& row.display == display::displayed(history[i].command)
        &&& row.description == use_of(history[i])
        &&& !row.description_pending
        &&& row.kind == CandidateKind::History
        &&& row.source == CandidateSource::History
        &&& row.insert_text == rest
        &&& accept is Full ==> row.accept_text == rest
        &&& accept is Segment ==> row.accept_text == rest.take(
            segment::segment_length(rest) as int,
        )
    } by {
        assert(rows[i] == past[i]);
        assert(menu[i] == rows[i]);
        assert(pick(history[i]) == Some(past[i]));
        lemma_extends(history[i].command, buffer);
    }
}

/// Where commands of the past leave room, the documented values that go on from
/// what is typed are shown all the same, half a menu of them at least.
pub proof fn law_values_find_room(
    catalog: CatalogView,
    history: Seq<HistoryView>,
    lead: Seq<char>,
    name: Seq<char>,
    gap: Seq<char>,
    n: int,
    typed: Seq<char>,
    k: int,
    cursor: nat,
    limit: nat,
    accept: AcceptMode,
)
    requires
        plain::spaces(lead),
        contexts::command_word(name),
        plain::spaces(gap),
        gap.len() > 0,
        plain::typed_word(typed),
        catalog.jobs.contains_key(name),
        catalog.state.option_values.contains_key(name),
        0 <= n < catalog.state.option_values[name].len(),
        contexts::option_word(catalog.state.option_values[name][n].option),
        forall|i: int|
            0 <= i < n ==> (#[trigger] catalog.state.option_values[name][i]).option
                != catalog.state.option_values[name][n].option,
        history.len() <= limit - limit / 2,
        0 <= k < going_on(catalog.state.option_values[name][n].values, typed).len(),
        k < limit / 2,
    ensures
        ({
            let choices = catalog.state.option_values[name][n];
            let buffer = lead + name + gap + (choices.option + seq!['='] + typed);
            let menu = completion::completion_of(
                catalog,
                history,
                buffer,
                cursor,
                limit,
                accept,
            ).candidates;
            merge::shows(
                menu,
                buffer + going_on(choices.values, typed)[k].name.skip(typed.len() as int),
            )
        }),
{
    let list = catalog.state.option_values[name];
    let choices = list[n];
    let word = choices.option + seq!['='] + typed;
    let buffer = lead + name + gap + word;
    let found = going_on(choices.values, typed);
    let context = completion::context_of(buffer);
    contexts::law_value_behind_equals(lead, name, gap, choices.option, typed);
    lemma_spaced(lead, name, gap, word);
    lemma_values_of(list, n);
    lemma_value_rows(buffer, name, choices.option, typed);
    lemma_going_on(choices.values, typed);
    let past = completion::past_rows(history, buffer, accept);
    lemma_picked_fewer(history, completion::from_history(buffer, accept));
    lemma_no_commands(catalog, past, buffer, limit);
    let entries = listing::prefixed(choices.values, typed, limit);
    let pick = completion::from_help(buffer, context);
    assert forall|i: int| 0 <= i < entries.len() implies pick(#[trigger] entries[i]) is Some by {
        assert(entries[i] == found[i]);
        assert(extends(found[i].name, typed));
    }
    lemma_all_picked(entries, pick);
    let help = entries.filter_map(pick);
    let keep = completion::new_row(past);
    let fresh = help.filter(keep);
    let menu = completion::with_help(past, help, limit);
    assert(entries[k] == found[k]);
    assert(extends(found[k].name, typed));
    assert(pick(entries[k]) == Some(help[k]));
    let shown = buffer + found[k].name.skip(typed.len() as int);
    assert(help[k].display == shown);
    if merge::shows(past, shown) {
        let i = choose|i: int| 0 <= i < past.len() && (#[trigger] past[i]).display == shown;
        assert(menu[i] == past[i]);
    } else {
        let j = lemma_kept_place(help, keep, k);
        assert(completion::before_help(past, fresh, limit) == past);
        assert(menu[past.len() + j] == fresh[j]);
        assert(menu[past.len() + j].display == shown);
    }
}

proof fn lemma_picked_fewer<A, B>(list: Seq<A>, pick: spec_fn(A) -> Option<B>)
    ensures
        list.filter_map(pick).len() <= list.len(),
    decreases list.len(),
{
    reveal(Seq::filter_map);
    if list.len() > 0 {
        lemma_picked_fewer(list.drop_last(), pick);
    }
}

proof fn lemma_kept_place(
    rows: Seq<CandidateView>,
    keep: spec_fn(CandidateView) -> bool,
    k: int,
) -> (j: int)
    requires
        0 <= k < rows.len(),
        keep(rows[k]),
    ensures
        0 <= j <= k,
        j < rows.filter(keep).len(),
        rows.filter(keep)[j] == rows[k],
    decreases rows.len(),
{
    reveal(Seq::filter);
    let rest = rows.drop_last();
    if k < rest.len() {
        let j = lemma_kept_place(rest, keep, k);
        assert(rest[k] == rows[k]);
        j
    } else {
        rest.lemma_filter_len(keep);
        rest.filter(keep).len() as int
    }
}

/// While the name of a command is typed, the menu offers the installed commands
/// whose names go on from it, in the order of the catalogue, as far as there is
/// room. A complete name is offered with a space. The description that was found
/// out stands before the one that came with the command, unless that one is
/// settled.
pub proof fn law_commands_are_offered(
    catalog: CatalogView,
    buffer: Seq<char>,
    cursor: nat,
    limit: nat,
    accept: AcceptMode,
)
    requires
        contexts::command_word(buffer),
    ensures
        ({
            let found = going_on(catalog.entries, buffer);
            let menu = completion::completion_of(
                catalog,
                Seq::empty(),
                buffer,
                cursor,
                limit,
                accept,
            ).candidates;
            &&& menu.len() == plain::smaller(found.len(), limit)
            &&& forall|i: int|
                0 <= i < menu.len() ==> {
                    let row = #[trigger] menu[i];
                    let entry = found[i];
                    &&& row.display == entry.name
                    &&& row.insert_text == missing(entry.name, buffer)
                    &&& row.accept_text == missing(entry.name, buffer)
                    &&& row.kind == CandidateKind::Command
                    &&& row.source == CandidateSource::Command
                    &&& row.description == if catalog.state.descriptions.contains_key(entry.name)
                        && !(catalog.jobs.contains_key(entry.name)
                        && catalog.jobs[entry.name].authored) {
                        catalog.state.descriptions[entry.name]
                    } else {
                        entry.description
                    }
                    &&& catalog.queue is None || !catalog.jobs.contains_key(entry.name)
                        || catalog.jobs[entry.name].authored ==> !row.description_pending
                }
        }),
{
    let none = Seq::<CandidateView>::empty();
    let history = Seq::<HistoryView>::empty();
    let found = going_on(catalog.entries, buffer);
    contexts::lemma_command(buffer);
    context::law_contexts_exclude(buffer);
    reveal(Seq::filter_map);
    assert(completion::past_rows(history, buffer, accept) =~= none);
    lemma_going_on(catalog.entries, buffer);
    let list = listing::prefixed(catalog.entries, buffer, limit);
    lemma_none_shown(list);
    let shown = completion::shown_commands(catalog, none, buffer, limit);
    if limit > 0 {
        assert(shown =~= list);
    } else {
        assert(shown =~= list);
    }
    lemma_offered(catalog, shown);
    let rows = completion::with_commands(catalog, none, buffer, limit);
    let asked = completion::after_commands(catalog, none, buffer, limit);
    assert(completion::help_rows(asked, buffer, limit) =~= none);
    let menu = completion::completion_of(
        catalog,
        history,
        buffer,
        cursor,
        limit,
        accept,
    ).candidates;
    assert(menu == rows);
    let offered = catalog::offered(catalog, shown).1;
    assert(rows =~= offered.map_values(completion::from_command(buffer)));
    reveal_strlit(" ");
    assert(" "@ =~= seq![' ']);
    assert forall|i: int| 0 <= i < menu.len() implies {
        let row = #[trigger] menu[i];
        let entry = found[i];
        &&& row.display == entry.name
        &&& row.insert_text == missing(entry.name, buffer)
        &&& row.accept_text == missing(entry.name, buffer)
        &&& row.kind == CandidateKind::Command
        &&& row.source == CandidateSource::Command
        &&& row.description == if catalog.state.descriptions.contains_key(entry.name) && !(
        catalog.jobs.contains_key(entry.name) && catalog.jobs[entry.name].authored) {
            catalog.state.descriptions[entry.name]
        } else {
            entry.description
        }
        &&& catalog.queue is None || !catalog.jobs.contains_key(entry.name)
            || catalog.jobs[entry.name].authored ==> !row.description_pending
    } by {
        assert(shown[i] == found[i]);
        assert(extends(found[i].name, buffer));
        lemma_extends(found[i].name, buffer);
        assert(offered[i].name == shown[i].name);
        assert(menu[i] == completion::command_row(buffer, offered[i]));
    }
}

proof fn lemma_none_shown(list: Seq<Described>)
    ensures
        list.filter(completion::not_shown(Seq::empty())) == list,
    decreases list.len(),
{
    reveal(Seq::filter);
    if list.len() > 0 {
        lemma_none_shown(list.drop_last());
        assert(list.drop_last().push(list.last()) =~= list);
    }
}

proof fn lemma_offered(catalog: CatalogView, list: Seq<Described>)
    ensures
        catalog::offered(catalog, list).1.len() == list.len(),
        forall|i: int|
            0 <= i < list.len() ==> {
                let found = #[trigger] catalog::offered(catalog, list).1[i];
                let name = list[i].name;
                &&& found.name == name
                &&& found.description == if catalog.state.descriptions.contains_key(name) && !(
                catalog.jobs.contains_key(name) && catalog.jobs[name].authored) {
                    catalog.state.descriptions[name]
                } else {
                    list[i].description
                }
                &&& catalog.queue is None || !catalog.jobs.contains_key(name)
                    || catalog.jobs[name].authored ==> !found.description_pending
            },
    decreases list.len(),
{
    if list.len() > 0 {
        let rest = list.drop_last();
        lemma_offered(catalog, rest);
        catalog::law_asking_keeps_what_is_known(catalog, rest);
        assert forall|i: int| 0 <= i < list.len() implies {
            let found = #[trigger] catalog::offered(catalog, list).1[i];
            let name = list[i].name;
            &&& found.name == name
            &&& found.description == if catalog.state.descriptions.contains_key(name) && !(
            catalog.jobs.contains_key(name) && catalog.jobs[name].authored) {
                catalog.state.descriptions[name]
            } else {
                list[i].description
            }
            &&& catalog.queue is None || !catalog.jobs.contains_key(name)
                || catalog.jobs[name].authored ==> !found.description_pending
        } by {
            if i < rest.len() {
                assert(rest[i] == list[i]);
                assert(catalog::offered(catalog, list).1[i] == catalog::offered(
                    catalog,
                    rest,
                ).1[i]);
            }
        }
    }
}

} // verus!

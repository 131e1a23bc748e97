//! Which commands of the past are offered, and in which order.
use vstd::prelude::*;
use crate::order;
use crate::records;
use crate::store::history;
use crate::text;

verus! {

/// A command that was executed, or read from a history file.
pub struct Event {
    pub command: Seq<char>,
    pub cwd: Seq<char>,
    pub observed_at: int,
    pub exit_code: Option<int>,
    pub source: Seq<char>,
    pub source_key: Option<Seq<char>>,
}

/// The commands of some events, each once.
pub open spec fn commands_of(events: Seq<Event>) -> Seq<Seq<char>>
    decreases events.len(),
{
    if events.len() == 0 {
        Seq::empty()
    } else {
        let before = commands_of(events.drop_last());
        if before.contains(events.last().command) {
            before
        } else {
            before.push(events.last().command)
        }
    }
}

/// How often a command was used.
pub open spec fn uses_of(events: Seq<Event>, command: Seq<char>) -> nat
    decreases events.len(),
{
    if events.len() == 0 {
        0
    } else {
        uses_of(events.drop_last(), command) + if events.last().command == command {
            1nat
        } else {
            0nat
        }
    }
}

/// When a command was used last.
pub open spec fn latest_of(events: Seq<Event>, command: Seq<char>) -> Option<int>
    decreases events.len(),
{
    if events.len() == 0 {
        None
    } else {
        let before = latest_of(events.drop_last(), command);
        let event = events.last();
        if event.command == command && (before is None || event.observed_at > before->Some_0) {
            Some(event.observed_at)
        } else {
            before
        }
    }
}

/// Whether a command was used in a directory.
pub open spec fn used_in(events: Seq<Event>, command: Seq<char>, cwd: Seq<char>) -> bool {
    exists|i: int|
        0 <= i < events.len() && (#[trigger] events[i]).command == command && events[i].cwd == cwd
}

/// Whether a command has ever succeeded.
pub open spec fn succeeded(events: Seq<Event>, command: Seq<char>) -> bool {
    exists|i: int|
        0 <= i < events.len() && (#[trigger] events[i]).command == command && events[i].exit_code
            == Some(0int)
}

/// A command of an event was used.
pub proof fn law_uses_count_events(events: Seq<Event>, n: int)
    requires
        0 <= n < events.len(),
    ensures
        uses_of(events, events[n].command) > 0,
    decreases events.len(),
{
    if n < events.len() - 1 {
        assert(events.drop_last()[n] == events[n]);
        law_uses_count_events(events.drop_last(), n);
    }
}

/// A command with what its rank depends on.
pub struct Ranked {
    pub command: Seq<char>,
    pub same_cwd: bool,
    pub succeeded: bool,
    pub latest: int,
    pub uses: nat,
}

pub open spec fn grouping(events: Seq<Event>, cwd: Seq<char>) -> spec_fn(Seq<char>) -> Ranked {
    |command: Seq<char>|
        Ranked {
            command,
            same_cwd: used_in(events, command, cwd),
            succeeded: succeeded(events, command),
            latest: latest_of(events, command)->Some_0,
            uses: uses_of(events, command),
        }
}

/// A command stands before another that was used earlier; then before one that
/// was not used here; then, if that is asked for, before one that never
/// succeeded; then before one that was used less; then in the order of text.
pub open spec fn rank_le(a: Ranked, b: Ranked, successful_first: bool) -> bool {
    if a.latest != b.latest {
        a.latest > b.latest
    } else if a.same_cwd != b.same_cwd {
        a.same_cwd
    } else if successful_first && a.succeeded != b.succeeded {
        a.succeeded
    } else if a.uses != b.uses {
        a.uses > b.uses
    } else {
        order::text_le(a.command, b.command)
    }
}

pub open spec fn rank_order(successful_first: bool) -> spec_fn(Ranked, Ranked) -> bool {
    |a: Ranked, b: Ranked| rank_le(a, b, successful_first)
}

/// The order of commands is total.
pub proof fn law_rank_order(successful_first: bool)
    ensures
        order::total(rank_order(successful_first)),
{
    let le = rank_order(successful_first);
    assert forall|a: Ranked, b: Ranked| #[trigger] le(a, b) || le(b, a) by {
        order::law_text_order(a.command, b.command, a.command);
    }
    assert forall|a: Ranked, b: Ranked, c: Ranked| #[trigger]
        le(a, b) && #[trigger] le(b, c) implies le(a, c) by {
        order::law_text_order(a.command, b.command, c.command);
    }
}

/// The commands of some events that a test admits, in order.
pub open spec fn ranked(
    events: Seq<Event>,
    keep: spec_fn(Seq<char>) -> bool,
    cwd: Seq<char>,
    successful_first: bool,
) -> Seq<Ranked> {
    order::ordered(
        commands_of(events).filter(keep).map_values(grouping(events, cwd)),
        rank_order(successful_first),
    )
}

/// Commands that match a pattern, besides one. Pattern and command are read up to
/// a NUL.
pub open spec fn by_pattern(pattern: Seq<char>, besides: Seq<char>) -> spec_fn(Seq<char>) -> bool {
    |command: Seq<char>|
        history::like(records::until_nul(pattern), records::until_nul(command)) && command
            != besides
}

/// Commands that answer to a prefix, besides the prefix itself.
pub open spec fn by_prefix(prefix: Seq<char>) -> spec_fn(Seq<char>) -> bool {
    |command: Seq<char>| history::answers(prefix, command) && command != prefix
}

/// All commands.
pub open spec fn any_command() -> spec_fn(Seq<char>) -> bool {
    |command: Seq<char>| true
}

/// The best commands that match a pattern, `limit` at most.
pub open spec fn matching_rows(
    events: Seq<Event>,
    pattern: Seq<char>,
    besides: Seq<char>,
    cwd: Seq<char>,
    limit: nat,
    successful_first: bool,
) -> Seq<Ranked> {
    order::at_most(ranked(events, by_pattern(pattern, besides), cwd, successful_first), limit)
}

/// The best commands that answer to a prefix, `limit` at most.
pub open spec fn prefix_rows(
    events: Seq<Event>,
    prefix: Seq<char>,
    cwd: Seq<char>,
    limit: nat,
    successful_first: bool,
) -> Seq<Ranked> {
    order::at_most(ranked(events, by_prefix(prefix), cwd, successful_first), limit)
}

/// The best commands, `limit` at most.
pub open spec fn inventory_rows(
    events: Seq<Event>,
    cwd: Seq<char>,
    limit: nat,
    successful_first: bool,
) -> Seq<Ranked> {
    order::at_most(ranked(events, any_command(), cwd, successful_first), limit)
}

proof fn lemma_filter_agrees<A>(list: Seq<A>, p: spec_fn(A) -> bool, q: spec_fn(A) -> bool)
    requires
        forall|x: A| #[trigger] p(x) == q(x),
    ensures
        list.filter(p) == list.filter(q),
    decreases list.len(),
{
    reveal(Seq::filter);
    if list.len() > 0 {
        lemma_filter_agrees(list.drop_last(), p, q);
        assert(p(list.last()) == q(list.last()));
    }
}

/// The pattern of an escaped prefix finds the commands that answer to it.
pub proof fn law_pattern_finds_prefix(
    events: Seq<Event>,
    prefix: Seq<char>,
    cwd: Seq<char>,
    limit: nat,
    successful_first: bool,
)
    ensures
        matching_rows(
            events,
            history::like_escaped(prefix).push('%'),
            prefix,
            cwd,
            limit,
            successful_first,
        ) == prefix_rows(events, prefix, cwd, limit, successful_first),
{
    let p = by_pattern(history::like_escaped(prefix).push('%'), prefix);
    let q = by_prefix(prefix);
    assert forall|x: Seq<char>| #[trigger] p(x) == q(x) by {
        history::law_pattern_as_read(prefix, x);
    }
    lemma_filter_agrees(commands_of(events), p, q);
}

/// No command occurs twice.
pub open spec fn distinct_commands(rows: Seq<Ranked>) -> bool {
    forall|i: int, j: int|
        0 <= i < j < rows.len() ==> (#[trigger] rows[i]).command != (#[trigger] rows[j]).command
}

proof fn lemma_commands_of(events: Seq<Event>)
    ensures
        commands_of(events).no_duplicates(),
        forall|c: Seq<char>| #[trigger] commands_of(events).contains(c) <==> uses_of(events, c) > 0,
        forall|c: Seq<char>|
            #[trigger] latest_of(events, c) is Some <==> uses_of(events, c) > 0,
    decreases events.len(),
{
    if events.len() > 0 {
        let shorter = events.drop_last();
        lemma_commands_of(shorter);
        let before = commands_of(shorter);
        let after = commands_of(events);
        let last = events.last().command;
        assert forall|c: Seq<char>| #[trigger] after.contains(c) <==> uses_of(events, c) > 0 by {
            if before.contains(c) {
                let k = choose|k: int| 0 <= k < before.len() && before[k] == c;
                assert(after[k] == c);
            }
            if c == last && !before.contains(c) {
                assert(after[after.len() - 1] == c);
            }
            if after.contains(c) && c != last {
                let k = choose|k: int| 0 <= k < after.len() && after[k] == c;
                assert(before[k] == c);
            }
        }
        assert forall|c: Seq<char>| #[trigger] latest_of(events, c) is Some <==> uses_of(events, c)
            > 0 by {
            assert(latest_of(shorter, c) is Some <==> uses_of(shorter, c) > 0);
        }
    }
}

proof fn lemma_ranked(
    events: Seq<Event>,
    keep: spec_fn(Seq<char>) -> bool,
    cwd: Seq<char>,
    successful_first: bool,
)
    ensures
        ({
            let rows = ranked(events, keep, cwd, successful_first);
            &&& order::is_ordered(rows, rank_order(successful_first))
            &&& distinct_commands(rows)
            &&& forall|i: int|
                0 <= i < rows.len() ==> {
                    let c = (#[trigger] rows[i]).command;
                    &&& keep(c)
                    &&& uses_of(events, c) > 0
                    &&& rows[i] == grouping(events, cwd)(c)
                }
            &&& forall|c: Seq<char>|
                #[trigger] keep(c) && uses_of(events, c) > 0 ==> rows.contains(
                    grouping(events, cwd)(c),
                )
        }),
{
    let all = commands_of(events);
    let kept = all.filter(keep);
    let group = grouping(events, cwd);
    let groups = kept.map_values(group);
    let le = rank_order(successful_first);
    let rows = ranked(events, keep, cwd, successful_first);
    lemma_commands_of(events);
    law_rank_order(successful_first);
    order::law_ordered(groups, le);
    broadcast use vstd::seq_lib::group_to_multiset_ensures;

    assert forall|i: int| 0 <= i < rows.len() implies {
        let c = (#[trigger] rows[i]).command;
        &&& keep(c)
        &&& uses_of(events, c) > 0
        &&& rows[i] == group(c)
    } by {
        assert(rows.contains(rows[i]));
        assert(rows.to_multiset().contains(rows[i]));
        assert(groups.contains(rows[i]));
        let k = choose|k: int| 0 <= k < groups.len() && groups[k] == rows[i];
        all.lemma_filter_pred(keep, k);
        all.lemma_filter_contains_rev(keep, kept[k]);
        assert(all.contains(kept[k]));
    }
    assert forall|c: Seq<char>| #[trigger] keep(c) && uses_of(events, c) > 0 implies rows.contains(
        group(c),
    ) by {
        assert(all.contains(c));
        let k = choose|k: int| 0 <= k < all.len() && all[k] == c;
        all.lemma_filter_contains(keep, k);
        let m = choose|m: int| 0 <= m < kept.len() && kept[m] == c;
        assert(groups[m] == group(c));
        assert(groups.contains(group(c)));
        assert(groups.to_multiset().contains(group(c)));
        assert(rows.to_multiset().contains(group(c)));
    }
    assert(distinct_commands(rows)) by {
        lemma_filter_no_duplicates(all, keep);
        assert(groups.no_duplicates()) by {
            assert forall|i: int, j: int|
                0 <= i < groups.len() && 0 <= j < groups.len() && i != j implies groups[i]
                != groups[j] by {
                assert(kept[i] != kept[j]);
                assert(groups[i].command == kept[i] && groups[j].command == kept[j]);
            }
        }
        groups.lemma_multiset_has_no_duplicates();
        rows.lemma_multiset_has_no_duplicates_conv();
        assert forall|i: int, j: int| 0 <= i < j < rows.len() implies (#[trigger] rows[i]).command
            != (#[trigger] rows[j]).command by {
            if rows[i].command == rows[j].command {
                assert(rows[i] == group(rows[i].command));
                assert(rows[j] == group(rows[j].command));
                assert(rows[i] == rows[j]);
                assert(false);
            }
        }
    }
}

proof fn lemma_filter_no_duplicates<A>(list: Seq<A>, keep: spec_fn(A) -> bool)
    requires
        list.no_duplicates(),
    ensures
        list.filter(keep).no_duplicates(),
    decreases list.len(),
{
    reveal(Seq::filter);
    if list.len() > 0 {
        let rest = list.drop_last();
        assert(rest.no_duplicates());
        lemma_filter_no_duplicates(rest, keep);
        let kept = rest.filter(keep);
        if keep(list.last()) {
            assert forall|i: int| 0 <= i < kept.len() implies kept[i] != list.last() by {
                assert(kept.contains(kept[i]));
                rest.lemma_filter_contains_rev(keep, kept[i]);
                let k = choose|k: int| 0 <= k < rest.len() && rest[k] == kept[i];
                assert(list[k] == kept[i]);
            }
            assert(list.filter(keep) =~= kept.push(list.last()));
        }
    }
}

/// What is offered for a prefix: at most `limit` commands, each once, in order,
/// all of them used, all of them answering to the prefix; where it holds no NUL,
/// they start with it and are longer. A command that is left out ranks behind
/// all that are offered, and only where those are `limit`.
pub proof fn law_prefix_rows(
    events: Seq<Event>,
    prefix: Seq<char>,
    cwd: Seq<char>,
    limit: nat,
    successful_first: bool,
)
    ensures
        ({
            let rows = prefix_rows(events, prefix, cwd, limit, successful_first);
            let le = rank_order(successful_first);
            &&& rows.len() <= limit
            &&& order::is_ordered(rows, le)
            &&& distinct_commands(rows)
            &&& forall|i: int|
                0 <= i < rows.len() ==> {
                    let c = (#[trigger] rows[i]).command;
                    &&& history::answers(prefix, c)
                    &&& c != prefix
                    &&& records::without_nul(prefix) ==> text::starts_with(c, prefix) && c.len()
                        > prefix.len()
                    &&& uses_of(events, c) > 0
                    &&& rows[i] == grouping(events, cwd)(c)
                }
            &&& forall|c: Seq<char>|
                #[trigger] history::answers(prefix, c) && c != prefix && uses_of(events, c) > 0
                    && !rows.contains(grouping(events, cwd)(c)) ==> rows.len() == limit && forall|
                    i: int,
                |
                    0 <= i < rows.len() ==> le(#[trigger] rows[i], grouping(events, cwd)(c))
        }),
{
    let keep = by_prefix(prefix);
    let le = rank_order(successful_first);
    let group = grouping(events, cwd);
    let all = ranked(events, keep, cwd, successful_first);
    let rows = prefix_rows(events, prefix, cwd, limit, successful_first);
    lemma_ranked(events, keep, cwd, successful_first);
    assert forall|i: int| 0 <= i < rows.len() implies {
        let c = (#[trigger] rows[i]).command;
        &&& history::answers(prefix, c)
        &&& c != prefix
        &&& records::without_nul(prefix) ==> text::starts_with(c, prefix) && c.len()
            > prefix.len()
        &&& uses_of(events, c) > 0
        &&& rows[i] == group(c)
    } by {
        assert(rows[i] == all[i]);
        let c = all[i].command;
        assert(keep(c));
        if c.len() == prefix.len() && records::without_nul(prefix) {
            assert(c.take(prefix.len() as int) =~= c);
        }
    }
    assert forall|c: Seq<char>| #[trigger]
        history::answers(prefix, c) && c != prefix && uses_of(events, c) > 0 && !rows.contains(
            group(c),
        ) implies rows.len() == limit && forall|i: int|
        0 <= i < rows.len() ==> le(#[trigger] rows[i], group(c)) by {
        assert(keep(c));
        assert(all.contains(group(c)));
        let k = choose|k: int| 0 <= k < all.len() && all[k] == group(c);
        if k < rows.len() {
            assert(rows[k] == group(c));
        }
        assert forall|i: int| 0 <= i < rows.len() implies le(#[trigger] rows[i], group(c)) by {
            assert(rows[i] == all[i]);
            assert(le(all[i], all[k]));
        }
    }
    assert forall|i: int, j: int| 0 <= i < j < rows.len() implies le(
        #[trigger] rows[i],
        #[trigger] rows[j],
    ) && rows[i].command != rows[j].command by {
        assert(rows[i] == all[i] && rows[j] == all[j]);
    }
}

proof fn lemma_latest_of_others(events: Seq<Event>, event: Event, command: Seq<char>)
    requires
        forall|i: int| 0 <= i < events.len() ==> (#[trigger] events[i]).observed_at
            < event.observed_at,
    ensures
        latest_of(events, command) is Some ==> latest_of(events, command)->Some_0
            < event.observed_at,
    decreases events.len(),
{
    if events.len() > 0 {
        let shorter = events.drop_last();
        assert forall|i: int| 0 <= i < shorter.len() implies (#[trigger] shorter[i]).observed_at
            < event.observed_at by {
            assert(shorter[i] == events[i]);
        }
        lemma_latest_of_others(shorter, event, command);
        assert(events[events.len() - 1].observed_at < event.observed_at);
    }
}

/// The command that was used last comes first wherever it is offered.
pub proof fn law_newest_command_comes_first(
    events: Seq<Event>,
    event: Event,
    prefix: Seq<char>,
    cwd: Seq<char>,
    limit: nat,
    successful_first: bool,
)
    requires
        forall|i: int| 0 <= i < events.len() ==> (#[trigger] events[i]).observed_at
            < event.observed_at,
        text::starts_with(event.command, prefix),
        event.command != prefix,
        limit > 0,
    ensures
        ({
            let rows = prefix_rows(events.push(event), prefix, cwd, limit, successful_first);
            &&& rows.len() > 0
            &&& rows[0].command == event.command
            &&& rows[0].latest == event.observed_at
            &&& rows[0].uses == uses_of(events, event.command) + 1
        }),
{
    let after = events.push(event);
    let keep = by_prefix(prefix);
    let le = rank_order(successful_first);
    let group = grouping(after, cwd);
    let all = ranked(after, keep, cwd, successful_first);
    let c = event.command;
    history::law_start_answers(prefix, c);
    lemma_ranked(after, keep, cwd, successful_first);
    assert(after.drop_last() =~= events);
    assert(after.last() == event);
    assert(uses_of(after, c) == uses_of(events, c) + 1);
    lemma_latest_of_others(events, event, c);
    assert(latest_of(after, c) == Some(event.observed_at));
    assert(keep(c));
    assert(all.contains(group(c)));
    let k = choose|k: int| 0 <= k < all.len() && all[k] == group(c);
    if all[0].command != c {
        let d = all[0].command;
        lemma_latest_of_others(events, event, d);
        lemma_commands_of(after);
        assert(uses_of(after, d) > 0);
        assert(latest_of(after, d) is Some);
        assert(latest_of(after, d) == latest_of(events, d));
        assert(all[0] == group(d));
        assert(k > 0);
        assert(le(all[0], all[k]));
        assert(false);
    }
}

} // verus!

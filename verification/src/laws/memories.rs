//! What is remembered about commands, and which commands there are.
use vstd::prelude::*;
use crate::commands::cache;
use crate::commands::catalog;
use crate::commands::discovery;
use crate::commands::help;
use crate::commands::known;
use crate::commands::listing;
use crate::laws::choices;
use crate::laws::declarations;
use crate::laws::listings;
use crate::laws::pages;
use crate::laws::plain;
use crate::text;
use crate::commands::cache::{CacheView, CachedView, FingerprintView, NamedEntry};
use crate::commands::catalog::{CatalogView, JobView, StateView};
use crate::commands::discovery::{EnrichmentView, FoundView};
use crate::commands::help::Described;
use crate::commands::listing::Naming;
use crate::commands::values::Choices;
use crate::text::Class;

verus! {

/// Something was found out about a command.
pub open spec fn tells_something(cached: CachedView) -> bool {
    cached.description is Some || cached.options.len() > 0 || cached.subcommands.len() > 0
        || cached.option_values.len() > 0
}

/// What was found out about an executable is believed for thirty days, that
/// nothing was found for one, and neither before it was found out.
pub proof fn law_belief_in_what_was_found(cached: CachedView, now: nat)
    ensures
        tells_something(cached) ==> (cache::fresh(cached, now) <==> cached.checked_at <= now
            <= cached.checked_at + 30 * 24 * 60 * 60),
        !tells_something(cached) ==> (cache::fresh(cached, now) <==> cached.checked_at <= now
            <= cached.checked_at + 24 * 60 * 60),
{
}

/// What was remembered of an executable is believed while the executable is the
/// same and the memory is fresh; a changed executable is looked at again.
pub proof fn law_memory_of_an_executable(
    entries: Seq<NamedEntry>,
    name: Seq<char>,
    cached: CachedView,
    fingerprint: FingerprintView,
    now: nat,
    other: Seq<char>,
)
    requires
        cache::names_in_order(entries),
        tells_something(cached),
        cached.checked_at <= now,
    ensures
        ({
            let after = cache::with_entry(entries, name, cached);
            &&& discovery::believed(after, now, name, fingerprint) == if fingerprint
                == cached.fingerprint && now <= cached.checked_at + 2_592_000 {
                Some(cached)
            } else {
                None
            }
            &&& other != name ==> discovery::believed(after, now, other, fingerprint)
                == discovery::believed(entries, now, other, fingerprint)
        }),
{
    cache::law_with_entry(entries, name, cached, name);
    cache::law_with_entry(entries, name, cached, other);
}

/// A memory that was written in another version is not used at all.
pub proof fn law_other_versions_are_forgotten(cache: CacheView)
    ensures
        cache.version != 4 ==> cache::usable(cache).len() == 0,
        cache.version == 4 ==> cache::usable(cache).len() == cache.entries.len(),
        cache.version == 4 ==> forall|i: int|
            0 <= i < cache.entries.len() ==> (#[trigger] cache::usable(cache)[i]).name
                == cache.entries[i].name && cache::usable(cache)[i].cached.fingerprint
                == cache.entries[i].cached.fingerprint && cache::usable(cache)[i].cached.checked_at
                == cache.entries[i].cached.checked_at && cache::usable(cache)[i].cached.description
                == cache.entries[i].cached.description,
{
}

/// The memory is cut down while it is larger than two megabytes.
pub proof fn law_size_of_memory(size: nat, entries: nat)
    ensures
        cache::shrinks(size, entries) <==> size > 2 * 1024 * 1024 && entries > 0,
{
}

/// Of remembered entries, those that are well named stay, each name once, in
/// their order and with their descriptions, as far as these can be shown.
pub proof fn law_remembered_entries(list: Seq<Described>, entry: Described)
    ensures
        ({
            let before = listing::fit_entries(list, Naming::SubcommandName);
            let new = forall|i: int| 0 <= i < before.len() ==> (#[trigger] before[i]).name
                != entry.name;
            let after = listing::fit_entries(list.push(entry), Naming::SubcommandName);
            &&& listings::subcommand_word(entry.name) && pages::description(entry.description) && new
                ==> after == before.push(entry)
            &&& !new ==> after == before
            &&& !listings::subcommand_word(entry.name) ==> after == before
        }),
        ({
            let before = listing::fit_entries(list, Naming::OptionSpelling);
            let new = forall|i: int| 0 <= i < before.len() ==> (#[trigger] before[i]).name
                != entry.name;
            let after = listing::fit_entries(list.push(entry), Naming::OptionSpelling);
            &&& declarations::option_name(entry.name) && pages::description(entry.description) && new
                ==> after == before.push(entry)
            &&& !new ==> after == before
            &&& !declarations::option_name(entry.name) ==> after == before
        }),
        ({
            let before = listing::fit_entries(list, Naming::OptionValue);
            let new = forall|i: int| 0 <= i < before.len() ==> (#[trigger] before[i]).name
                != entry.name;
            let after = listing::fit_entries(list.push(entry), Naming::OptionValue);
            &&& choices::value_word(entry.name) && pages::description(entry.description) && new
                ==> after == before.push(entry)
            &&& !new ==> after == before
            &&& !choices::value_word(entry.name) ==> after == before
        }),
{
    assert(list.push(entry).drop_last() =~= list);
    law_well_named(entry.name);
    if pages::description(entry.description) {
        pages::law_description_stays(entry.description);
    }
    lemma_new(listing::fit_entries(list, Naming::SubcommandName), entry.name);
    lemma_new(listing::fit_entries(list, Naming::OptionSpelling), entry.name);
    lemma_new(listing::fit_entries(list, Naming::OptionValue), entry.name);
}

proof fn lemma_new(list: Seq<Described>, name: Seq<char>)
    ensures
        listing::has_name(list, name) <==> !(forall|i: int|
            0 <= i < list.len() ==> (#[trigger] list[i]).name != name),
{
}

/// What subcommands, options and values may be called.
pub proof fn law_well_named(name: Seq<char>)
    ensures
        help::subcommand_name(name) <==> listings::subcommand_word(name),
        help::option_spelling(name) <==> declarations::option_name(name),
        help::option_value(name) <==> choices::value_word(name),
{
    if help::subcommand_name(name) {
        assert forall|i: int| 0 <= i < name.len() implies plain::name_char(#[trigger] name[i]) by {
            assert(text::in_class(Class::NamePart, name[i]));
        }
    }
    if listings::subcommand_word(name) {
        assert forall|i: int| 0 <= i < name.len() implies text::in_class(
            Class::NamePart,
            #[trigger] name[i],
        ) by {
            assert(plain::name_char(name[i]));
        }
    }
    if help::option_value(name) {
        assert forall|i: int| 0 <= i < name.len() implies plain::name_char(#[trigger] name[i])
            || name[i] == '/' by {
            assert(text::in_class(Class::ValuePart, name[i]));
        }
    }
    if choices::value_word(name) {
        assert forall|i: int| 0 <= i < name.len() implies text::in_class(
            Class::ValuePart,
            #[trigger] name[i],
        ) by {
            assert(plain::name_char(name[i]) || name[i] == '/');
        }
    }
    if declarations::option_name(name) {
        declarations::lemma_option_spelling(name);
    }
    if help::option_spelling(name) && name[1] == '-' {
        assert forall|i: int| 2 <= i < name.len() implies plain::option_char(#[trigger] name[i]) by {
            assert(name.skip(2)[i - 2] == name[i]);
            assert(text::in_class(Class::OptionPart, name.skip(2)[i - 2]));
        }
    }
}

/// Somebody may execute a file.
pub open spec fn executable_mode(mode: u32) -> bool {
    mode % 2 == 1 || (mode / 8) % 2 == 1 || (mode / 64) % 2 == 1
}

/// A command is a file that somebody may execute, under a name of letters, digits
/// and a few marks.
pub proof fn law_executables(found: FoundView)
    ensures
        discovery::executable(found) <==> {
            &&& found.name is Some
            &&& found.name->Some_0.len() > 0
            &&& forall|i: int|
                0 <= i < found.name->Some_0.len() ==> plain::name_char(
                    #[trigger] found.name->Some_0[i],
                )
            &&& found.facts is Some
            &&& (found.facts->Some_0).0
            &&& executable_mode((found.facts->Some_0).1.mode)
        },
{
    if found.name is Some && found.facts is Some {
        let name = found.name->Some_0;
        let mode = (found.facts->Some_0).1.mode;
        assert((mode & 0o111 != 0) == (mode % 2 == 1 || (mode / 8) % 2 == 1 || (mode / 64) % 2
            == 1)) by (bit_vector);
        if help::executable_name(name) {
            assert forall|i: int| 0 <= i < name.len() implies plain::name_char(
                #[trigger] name[i],
            ) by {
                assert(text::in_class(Class::NamePart, name[i]));
            }
        }
        if forall|i: int| 0 <= i < name.len() ==> plain::name_char(#[trigger] name[i]) {
            assert forall|i: int| 0 <= i < name.len() implies text::in_class(
                Class::NamePart,
                #[trigger] name[i],
            ) by {
                assert(plain::name_char(name[i]));
            }
        }
    }
}

/// An executable that is found under a new name is a command more: described by
/// what is known about it beforehand, or else by its place, and to be looked at
/// there. A shell builtin of that name keeps its own description. Under a name
/// that was found before, it changes nothing.
pub proof fn law_another_executable(
    files: Seq<FoundView>,
    found: FoundView,
    memory: Seq<NamedEntry>,
    now: nat,
)
    requires
        discovery::executable(found),
    ensures
        ({
            let name = found.name->Some_0;
            let before = discovery::discovery(files, memory, now);
            let after = discovery::discovery(files.push(found), memory, now);
            let job = after.jobs[name];
            if before.jobs.contains_key(name) {
                after == before
            } else {
                &&& after.jobs.contains_key(name)
                &&& job.name == name
                &&& job.path == found.path
                &&& job.fingerprint == (found.facts->Some_0).1
                &&& known::known(name) is Some ==> after.entries == before.entries.push(
                    Described { name, description: known::known(name)->Some_0 },
                ) && job.authored
                &&& known::known(name) is None && !before.seen.contains(name) ==> after.entries
                    == before.entries.push(
                    Described { name, description: known::fallback(found.path) },
                ) && !job.authored
                &&& known::known(name) is None && before.seen.contains(name) ==> after.entries
                    == before.entries && job.authored
                &&& after.seen.contains(name)
                &&& forall|other: Seq<char>| #[trigger]
                    before.jobs.contains_key(other) ==> after.jobs.contains_key(other)
                        && after.jobs[other] == before.jobs[other]
                &&& discovery::believed(memory, now, name, job.fingerprint) is None ==> after.state
                    == before.state
                &&& discovery::believed(memory, now, name, job.fingerprint) is Some
                    ==> after.state.settled.contains(name)
            }
        }),
{
    assert(files.push(found).drop_last() =~= files);
}

/// What a finished look has found of a command is what is known about it from
/// then on, and of others nothing changes. A description that is settled
/// beforehand stays, and what could not be kept is not taken over.
pub proof fn law_finished_look(
    state: StateView,
    job: JobView,
    found: EnrichmentView,
    kept: bool,
    other: Seq<char>,
)
    requires
        other != job.name,
    ensures
        ({
            let after = discovery::finished(state, job, found, kept);
            let name = job.name;
            &&& after.settled.contains(name)
            &&& !after.pending.contains(name)
            &&& kept && found.options.len() > 0 ==> catalog::looked_up(after.options, name)
                == found.options
            &&& kept && found.subcommands.len() > 0 ==> catalog::looked_up(after.subcommands, name)
                == found.subcommands
            &&& kept && found.option_values.len() > 0 ==> catalog::looked_up(
                after.option_values,
                name,
            ) == found.option_values
            &&& kept && !job.authored && found.description is Some
                ==> after.descriptions.contains_key(name) && after.descriptions[name]
                == found.description->Some_0
            &&& job.authored || !kept || found.description is None ==> after.descriptions
                == state.descriptions
            &&& !kept ==> after.options == state.options && after.subcommands == state.subcommands
                && after.option_values == state.option_values
            &&& catalog::looked_up(after.options, other) == catalog::looked_up(
                state.options,
                other,
            )
            &&& catalog::looked_up(after.subcommands, other) == catalog::looked_up(
                state.subcommands,
                other,
            )
            &&& catalog::looked_up(after.option_values, other) == catalog::looked_up(
                state.option_values,
                other,
            )
            &&& after.descriptions.contains_key(other) == state.descriptions.contains_key(other)
            &&& state.settled.contains(other) == after.settled.contains(other)
            &&& state.pending.contains(other) == after.pending.contains(other)
        }),
{
}

/// The help text fills in what the manual page lacks, and only that.
pub proof fn law_help_fills_in(man: EnrichmentView, more: EnrichmentView)
    ensures
        ({
            let both = discovery::completed(man, Some(more));
            &&& man.description is None ==> both.description == more.description
            &&& man.options.len() == 0 ==> both.options == more.options
            &&& man.subcommands.len() == 0 ==> both.subcommands == more.subcommands
            &&& man.option_values.len() == 0 ==> both.option_values == more.option_values
            &&& man.options.len() > 0 ==> both.options == man.options
            &&& discovery::completed(man, None) == man
            &&& discovery::incomplete(man) <==> (man.description is None || man.options.len() == 0
                || man.subcommands.len() == 0 || man.option_values.len() == 0)
        }),
{
}

/// A look at a command is asked for once: it waits behind the others, if there is
/// room and somebody to take it, and is not asked for again while it waits, nor
/// once it is settled.
pub proof fn law_asking_for_a_look(catalog: CatalogView, job: JobView)
    requires
        catalog.queue is Some,
    ensures
        ({
            let queue = catalog.queue->Some_0;
            let after = catalog::enqueued(catalog, Some(job));
            let known = catalog.state.settled.contains(job.name)
                || catalog.state.pending.contains(job.name);
            &&& known ==> after == catalog
            &&& !known && queue.connected && queue.waiting.len() < queue.capacity ==> {
                &&& after.queue->Some_0.waiting == queue.waiting.push(job)
                &&& after.state.pending.contains(job.name)
                &&& catalog::enqueued(after, Some(job)) == after
            }
            &&& !known && queue.connected && queue.waiting.len() >= queue.capacity ==> after
                == catalog
            &&& !known && !queue.connected ==> after.state.settled.contains(job.name)
                && after.queue == catalog.queue
            &&& after.entries == catalog.entries
            &&& after.jobs == catalog.jobs
            &&& after.state.options == catalog.state.options
            &&& after.state.descriptions == catalog.state.descriptions
        }),
{
}

/// A command is still to be looked at while it waits, or while somebody could be
/// asked, until it is settled.
pub proof fn law_pending_looks(catalog: CatalogView, job: JobView)
    ensures
        catalog::unsettled(catalog, None) == false,
        catalog.queue is None ==> !catalog::unsettled(catalog, Some(job)),
        catalog.state.settled.contains(job.name) ==> !catalog::unsettled(catalog, Some(job)),
        catalog.queue is Some && !catalog.state.settled.contains(job.name) ==> (catalog::unsettled(
            catalog,
            Some(job),
        ) <==> catalog.state.pending.contains(job.name) || catalog.queue->Some_0.connected),
{
}

/// What the manual page of a command does not tell comes from its help text.
pub proof fn law_help_fills_gaps(man: EnrichmentView, help: EnrichmentView)
    ensures
        man.description is None ==> discovery::completed(man, Some(help)).description
            == help.description,
        man.options.len() == 0 ==> discovery::completed(man, Some(help)).options == help.options,
        man.subcommands.len() == 0 ==> discovery::completed(man, Some(help)).subcommands
            == help.subcommands,
        man.option_values.len() == 0 ==> discovery::completed(man, Some(help)).option_values
            == help.option_values,
        discovery::completed(man, None) == man,
{
}

/// The values of an option are those documented for it, and none where none are.
pub proof fn law_values_of_an_option(list: Seq<Choices>, k: int, option: Seq<char>)
    requires
        forall|i: int, j: int|
            0 <= i < j < list.len() ==> (#[trigger] list[i]).option != (#[trigger] list[j]).option,
    ensures
        0 <= k < list.len() ==> catalog::values_of(list, list[k].option) == list[k].values,
        (forall|i: int| 0 <= i < list.len() ==> (#[trigger] list[i]).option != option)
            ==> catalog::values_of(list, option) == Seq::<Described>::empty(),
    decreases list.len(),
{
    if list.len() > 0 {
        let rest = list.drop_first();
        assert forall|i: int, j: int| 0 <= i < j < rest.len() implies (#[trigger] rest[i]).option
            != (#[trigger] rest[j]).option by {
            assert(rest[i] == list[i + 1] && rest[j] == list[j + 1]);
        }
        law_values_of_an_option(rest, k - 1, option);
        if 0 < k < list.len() {
            assert(list[0].option != list[k].option);
            assert(rest[k - 1] == list[k]);
        }
        if forall|i: int| 0 <= i < list.len() ==> (#[trigger] list[i]).option != option {
            assert forall|i: int| 0 <= i < rest.len() implies (#[trigger] rest[i]).option
                != option by {
                assert(rest[i] == list[i + 1]);
            }
        }
    }
}

/// A description that was found out takes the place of a listed one, except of one
/// that was written for the command.
pub proof fn law_found_description_is_shown(catalog: CatalogView, entry: Described, job: JobView)
    requires
        catalog.jobs.contains_key(entry.name) ==> catalog.jobs[entry.name] == job,
    ensures
        catalog.jobs.contains_key(entry.name) && !job.authored
            && catalog.state.descriptions.contains_key(entry.name) ==> catalog::shown_description(
            catalog,
            entry,
        ) == catalog.state.descriptions[entry.name],
        catalog.jobs.contains_key(entry.name) && job.authored ==> catalog::shown_description(
            catalog,
            entry,
        ) == entry.description,
        !catalog.state.descriptions.contains_key(entry.name) ==> catalog::shown_description(
            catalog,
            entry,
        ) == entry.description,
{
}

} // verus!

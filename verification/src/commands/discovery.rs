//! How the catalogue is filled: from the executables on the search path, from
//! the cache, and from what a look at a manual page or a help text brings.
use vstd::prelude::*;
use vstd::hash_set::StringHashSet;
use crate::commands::cache;
use crate::commands::catalog;
use crate::commands::describe;
use crate::commands::help;
use crate::commands::known;
use crate::commands::listing;
use crate::commands::options;
use crate::commands::subcommands;
use crate::commands::values;
use crate::order;
use crate::commands::cache::{
    cache_is_fresh, copy_option_values, CachedDescription, CachedView, DescriptionCache,
    ExecutableFingerprint, FingerprintView, NamedEntry, MISS_TTL, SUCCESS_TTL,
};
use crate::commands::catalog::{
    sorted, CatalogView, CommandCatalog, CommandEntry, DescriptionJob, EnrichmentState, JobQueue,
    JobView, QueueView, StateView, QUEUE_CAPACITY,
};
use crate::commands::describe::{parse_help_description, parse_man_description};
use crate::commands::help::{valid_name, Described};
use crate::commands::known::{fallback_description, known_description, shell_builtins};
use crate::commands::listing::copies_of;
use crate::commands::options::{parse_options, OptionMatch};
use crate::commands::subcommands::{parse_subcommands, SubcommandMatch};
use crate::commands::values::{parse_option_values, Choices, OptionValues, ValueMatch};
use crate::paths::bytes_of;

verus! {

// ---------------------------------------------------------------------------
// What a look brings
// ---------------------------------------------------------------------------

/// What a look at a command brought.
#[derive(Debug)]
pub struct Enrichment {
    pub description: Option<String>,
    pub options: Vec<OptionMatch>,
    pub subcommands: Vec<SubcommandMatch>,
    pub option_values: Vec<OptionValues>,
}

/// What was found out about a command.
pub struct EnrichmentView {
    pub description: Option<Seq<char>>,
    pub options: Seq<Described>,
    pub subcommands: Seq<Described>,
    pub option_values: Seq<Choices>,
}

impl DeepView for Enrichment {
    type V = EnrichmentView;

    open spec fn deep_view(&self) -> EnrichmentView {
        EnrichmentView {
            description: cache::text_view(self.description),
            options: self.options.deep_view(),
            subcommands: self.subcommands.deep_view(),
            option_values: self.option_values.deep_view(),
        }
    }
}

pub open spec fn nothing_found() -> EnrichmentView {
    EnrichmentView {
        description: None,
        options: Seq::empty(),
        subcommands: Seq::empty(),
        option_values: Seq::empty(),
    }
}

impl Default for Enrichment {
    /// Nothing was found out.
    fn default() -> (r: Self)
        ensures
            r.deep_view() == nothing_found(),
    {
        let r = Enrichment {
            description: None,
            options: Vec::new(),
            subcommands: Vec::new(),
            option_values: Vec::new(),
        };
        assert(r.options.deep_view() =~= Seq::<Described>::empty());
        assert(r.subcommands.deep_view() =~= Seq::<Described>::empty());
        assert(r.option_values.deep_view() =~= Seq::<Choices>::empty());
        r
    }
}

/// What a text documents about a command.
pub open spec fn documented(description: Option<Seq<char>>, output: Seq<char>) -> EnrichmentView {
    EnrichmentView {
        description,
        options: options::documented_options(output),
        subcommands: subcommands::documented_subcommands(output),
        option_values: values::documented_choices(output),
    }
}

/// What a manual page says about a command.
pub fn man_enrichment(name: &str, output: &str) -> (r: Enrichment)
    ensures
        r.deep_view() == documented(describe::man_description(name@, output@), output@),
{
    Enrichment {
        description: parse_man_description(name, output),
        options: parse_options(output),
        subcommands: parse_subcommands(output),
        option_values: parse_option_values(output),
    }
}

/// What a help text says about a command.
pub fn help_enrichment(name: &str, output: &str) -> (r: Enrichment)
    ensures
        r.deep_view() == documented(describe::help_description(name@, output@), output@),
{
    Enrichment {
        description: parse_help_description(name, output),
        options: parse_options(output),
        subcommands: parse_subcommands(output),
        option_values: parse_option_values(output),
    }
}

/// Whether something is missing.
pub open spec fn incomplete(found: EnrichmentView) -> bool {
    found.description is None || found.options.len() == 0 || found.subcommands.len() == 0
        || found.option_values.len() == 0
}

/// What a manual page says, with what it lacks from a help text.
pub open spec fn completed(man: EnrichmentView, help: Option<EnrichmentView>) -> EnrichmentView {
    match help {
        Some(h) => EnrichmentView {
            description: if man.description is Some {
                man.description
            } else {
                h.description
            },
            options: if man.options.len() > 0 {
                man.options
            } else {
                h.options
            },
            subcommands: if man.subcommands.len() > 0 {
                man.subcommands
            } else {
                h.subcommands
            },
            option_values: if man.option_values.len() > 0 {
                man.option_values
            } else {
                h.option_values
            },
        },
        None => man,
    }
}

/// A help text changes nothing that a manual page says, so it is asked for only
/// where that lacks something.
pub proof fn law_man_page_comes_first(man: EnrichmentView, help: Option<EnrichmentView>)
    ensures
        !incomplete(man) ==> completed(man, help) == man,
        man.description is Some ==> completed(man, help).description == man.description,
        man.options.len() > 0 ==> completed(man, help).options == man.options,
        man.subcommands.len() > 0 ==> completed(man, help).subcommands == man.subcommands,
        man.option_values.len() > 0 ==> completed(man, help).option_values == man.option_values,
{
}

impl Enrichment {
    /// Whether something is missing.
    pub fn is_incomplete(&self) -> (b: bool)
        ensures
            b == incomplete(self.deep_view()),
    {
        self.description.is_none() || self.options.len() == 0 || self.subcommands.len() == 0
            || self.option_values.len() == 0
    }

    /// What a manual page says, with what it lacks from a help text.
    pub fn completed_by(self, help: Option<Enrichment>) -> (r: Enrichment)
        ensures
            r.deep_view() == completed(
                self.deep_view(),
                match help {
                    Some(h) => Some(h.deep_view()),
                    None => None,
                },
            ),
    {
        match help {
            Some(help) => Enrichment {
                description: match self.description {
                    Some(description) => Some(description),
                    None => help.description,
                },
                options: if self.options.len() > 0 {
                    self.options
                } else {
                    help.options
                },
                subcommands: if self.subcommands.len() > 0 {
                    self.subcommands
                } else {
                    help.subcommands
                },
                option_values: if self.option_values.len() > 0 {
                    self.option_values
                } else {
                    help.option_values
                },
            },
            None => self,
        }
    }
}

// ---------------------------------------------------------------------------
// What becomes of it
// ---------------------------------------------------------------------------

/// What is known about a command after a look at it: nothing is forgotten for
/// what the look did not bring.
pub open spec fn absorbed(
    state: StateView,
    name: Seq<char>,
    is_authored: bool,
    found: EnrichmentView,
) -> StateView {
    StateView {
        descriptions: if !is_authored && found.description is Some {
            state.descriptions.insert(name, found.description->Some_0)
        } else {
            state.descriptions
        },
        options: if found.options.len() > 0 {
            state.options.insert(name, found.options)
        } else {
            state.options
        },
        subcommands: if found.subcommands.len() > 0 {
            state.subcommands.insert(name, found.subcommands)
        } else {
            state.subcommands
        },
        option_values: if found.option_values.len() > 0 {
            state.option_values.insert(name, found.option_values)
        } else {
            state.option_values
        },
        ..state
    }
}

/// What is known about a command once a worker is done with it.
pub open spec fn finished(
    state: StateView,
    job: JobView,
    found: EnrichmentView,
    cacheable: bool,
) -> StateView {
    let settled = StateView {
        settled: state.settled.insert(job.name),
        pending: state.pending.remove(job.name),
        ..state
    };
    if cacheable {
        absorbed(settled, job.name, job.authored, found)
    } else {
        settled
    }
}

/// A command that a worker is done with stays settled: no look at it is asked
/// for again.
pub proof fn law_finished_is_settled(
    catalog: CatalogView,
    job: JobView,
    found: EnrichmentView,
    cacheable: bool,
)
    ensures
        ({
            let after = CatalogView {
                state: finished(catalog.state, job, found, cacheable),
                ..catalog
            };
            &&& !crate::commands::catalog::unsettled(after, Some(job))
            &&& catalog::enqueued(after, Some(job)) == after
        }),
{
}

impl EnrichmentState {
    fn absorb(
        &mut self,
        name: &str,
        is_authored: bool,
        description: Option<&String>,
        options: &Vec<OptionMatch>,
        subcommands: &Vec<SubcommandMatch>,
        option_values: &Vec<OptionValues>,
    )
        ensures
            final(self)@ == absorbed(
                old(self)@,
                name@,
                is_authored,
                EnrichmentView {
                    description: match description {
                        Some(d) => Some(d@),
                        None => None,
                    },
                    options: options.deep_view(),
                    subcommands: subcommands.deep_view(),
                    option_values: option_values.deep_view(),
                },
            ),
    {
        if !is_authored {
            if let Some(description) = description {
                self.set_description(name, description.as_str());
            }
        }
        if options.len() > 0 {
            self.set_options(name, copies_of(options));
        }
        if subcommands.len() > 0 {
            self.set_subcommands(name, copies_of(subcommands));
        }
        if option_values.len() > 0 {
            self.set_option_values(name, copy_option_values(option_values));
        }
    }
}

impl CommandCatalog {
    /// Takes a job to work on, the one that has waited longest.
    pub fn take_job(&mut self) -> (r: Option<DescriptionJob>)
        ensures
            match old(self)@.queue {
                Some(q) => if q.waiting.len() > 0 {
                    &&& r is Some
                    &&& r->Some_0.deep_view() == q.waiting[0]
                    &&& final(self)@ == CatalogView {
                        queue: Some(QueueView { waiting: q.waiting.drop_first(), ..q }),
                        ..old(self)@
                    }
                } else {
                    r is None && final(self)@ == old(self)@
                },
                None => r is None && final(self)@ == old(self)@,
            },
    {
        let mut queue = match self.queue.take() {
            Some(queue) => queue,
            None => {
                return None;
            },
        };
        let mut job: Option<DescriptionJob> = None;
        let ghost waiting = queue.waiting.deep_view();
        if queue.waiting.len() > 0 {
            let first = queue.waiting.remove(0);
            assert(queue.waiting.deep_view() =~= waiting.drop_first());
            job = Some(first);
        }
        self.queue = Some(queue);
        job
    }

    /// Notes what a worker found out; `cacheable` says that the executable was
    /// the same before and after.
    pub fn finish_job(&mut self, job: &DescriptionJob, found: &Enrichment, cacheable: bool)
        ensures
            final(self)@ == (CatalogView {
                state: finished(old(self)@.state, job.deep_view(), found.deep_view(), cacheable),
                ..old(self)@
            }),
    {
        self.state.pending.remove(job.name.as_str());
        self.state.settled.insert(job.name.clone());
        if cacheable {
            self.state.absorb(
                job.name.as_str(),
                job.authored_description,
                found.description.as_ref(),
                &found.options,
                &found.subcommands,
                &found.option_values,
            );
        }
    }

    /// Notes that no worker is left. What waits keeps waiting; nothing more is
    /// taken into the queue.
    pub fn close_queue(&mut self)
        ensures
            final(self)@ == (CatalogView {
                queue: match old(self)@.queue {
                    Some(q) => Some(QueueView { connected: false, ..q }),
                    None => None,
                },
                ..old(self)@
            }),
    {
        if let Some(mut queue) = self.queue.take() {
            queue.connected = false;
            self.queue = Some(queue);
        }
    }

    /// Opens the queue for jobs, if there are workers to take them.
    pub fn open_queue(&mut self, workers: usize)
        ensures
            final(self)@ == (CatalogView {
                queue: if workers > 0 {
                    Some(
                        QueueView {
                            waiting: Seq::empty(),
                            capacity: QUEUE_CAPACITY as nat,
                            connected: true,
                        },
                    )
                } else {
                    None
                },
                ..old(self)@
            }),
    {
        self.queue = if workers > 0 {
            Some(JobQueue::new(QUEUE_CAPACITY))
        } else {
            None
        };
    }
}

/// The entry of the cache that a look leaves.
pub open spec fn cached_look(job: JobView, found: EnrichmentView, now: nat) -> CachedView {
    CachedView {
        fingerprint: job.fingerprint,
        checked_at: now,
        description: found.description,
        options: found.options,
        subcommands: found.subcommands,
        option_values: found.option_values,
    }
}

impl DescriptionCache {
    /// Keeps what a worker found out.
    pub fn remember(&mut self, job: DescriptionJob, found: Enrichment, now: u64)
        ensures
            final(self)@.version == old(self)@.version,
            final(self)@.entries == cache::with_entry(
                old(self)@.entries,
                job.name@,
                cached_look(job.deep_view(), found.deep_view(), now as nat),
            ),
    {
        let cached = CachedDescription {
            fingerprint: job.fingerprint,
            checked_at_secs: now,
            description: found.description,
            options: found.options,
            subcommands: found.subcommands,
            option_values: found.option_values,
        };
        self.insert(job.name, cached);
    }
}

// ---------------------------------------------------------------------------
// The executables on the search path
// ---------------------------------------------------------------------------

/// What the file system says of a file.
#[derive(Debug)]
pub struct FileFacts {
    pub is_file: bool,
    pub fingerprint: ExecutableFingerprint,
}

/// A file in a directory of the search path.
#[derive(Debug)]
pub struct FoundFile {
    /// Its name, if that is UTF-8.
    pub name: Option<String>,
    pub path: Vec<u8>,
    /// What the file system says of it, if it says anything.
    pub facts: Option<FileFacts>,
}

/// What is known of a file in a directory of the search path.
pub struct FoundView {
    pub name: Option<Seq<char>>,
    pub path: Seq<u8>,
    pub facts: Option<(bool, FingerprintView)>,
}

impl DeepView for FoundFile {
    type V = FoundView;

    open spec fn deep_view(&self) -> FoundView {
        FoundView {
            name: cache::text_view(self.name),
            path: self.path@,
            facts: match self.facts {
                Some(f) => Some((f.is_file, f.fingerprint.deep_view())),
                None => None,
            },
        }
    }
}

/// A file with a plain name that somebody may execute.
pub open spec fn executable(found: FoundView) -> bool {
    &&& found.name is Some
    &&& help::executable_name(found.name->Some_0)
    &&& found.facts is Some
    &&& (found.facts->Some_0).0
    &&& (found.facts->Some_0).1.mode & 0o111 != 0
}

/// What was made of the files so far.
pub struct Discovery {
    pub entries: Seq<Described>,
    pub seen: Set<Seq<char>>,
    pub jobs: Map<Seq<char>, JobView>,
    pub state: StateView,
}

/// The cache entry of an executable that is still believed.
pub open spec fn believed(
    cache: Seq<NamedEntry>,
    now: nat,
    name: Seq<char>,
    fingerprint: FingerprintView,
) -> Option<CachedView> {
    match cache::entry_of(cache, name) {
        Some(cached) => if cached.fingerprint == fingerprint && cache::fresh(cached, now) {
            Some(cached)
        } else {
            None
        },
        None => None,
    }
}

/// What the cache says is believed of the same executable alone, for as long as
/// a finding lasts; that nothing was found is believed for a shorter time.
pub proof fn law_cached_entries_expire(
    cache: Seq<NamedEntry>,
    now: nat,
    name: Seq<char>,
    fingerprint: FingerprintView,
)
    ensures
        believed(cache, now, name, fingerprint) matches Some(cached) ==> {
            &&& cache::entry_of(cache, name) == Some(cached)
            &&& cached.fingerprint == fingerprint
            &&& now <= cached.checked_at + SUCCESS_TTL
            &&& cache::is_miss(cached) ==> now <= cached.checked_at + MISS_TTL
        },
{
}

/// What a cache entry says about a command.
pub open spec fn cached_facts(cached: CachedView) -> EnrichmentView {
    EnrichmentView {
        description: cached.description,
        options: cached.options,
        subcommands: cached.subcommands,
        option_values: cached.option_values,
    }
}

/// What is made of one more file. The first executable of a name counts; a
/// shell builtin keeps its description.
pub open spec fn found_one(
    before: Discovery,
    found: FoundView,
    cache: Seq<NamedEntry>,
    now: nat,
) -> Discovery {
    if executable(found) && !before.jobs.contains_key(found.name->Some_0) {
        let name = found.name->Some_0;
        let fingerprint = (found.facts->Some_0).1;
        let is_authored = before.seen.contains(name) || known::known(name) is Some;
        let settled = StateView {
            settled: before.state.settled.insert(name),
            ..before.state
        };
        Discovery {
            entries: if !is_authored || known::known(name) is Some {
                before.entries.push(
                    Described {
                        name,
                        description: match known::known(name) {
                            Some(d) => d,
                            None => known::fallback(found.path),
                        },
                    },
                )
            } else {
                before.entries
            },
            seen: before.seen.insert(name),
            jobs: before.jobs.insert(
                name,
                JobView { name, path: found.path, fingerprint, authored: is_authored },
            ),
            state: match believed(cache, now, name, fingerprint) {
                Some(cached) => absorbed(settled, name, is_authored, cached_facts(cached)),
                None => before.state,
            },
        }
    } else {
        before
    }
}

/// The names in a list.
pub open spec fn names_of(list: Seq<Described>) -> Set<Seq<char>> {
    Set::new(|name: Seq<char>| crate::commands::listing::has_name(list, name))
}

/// What is made of the files on the search path, in their order.
pub open spec fn discovery(files: Seq<FoundView>, cache: Seq<NamedEntry>, now: nat) -> Discovery
    decreases files.len(),
{
    if files.len() == 0 {
        Discovery {
            entries: known::builtins(),
            seen: names_of(known::builtins()),
            jobs: Map::empty(),
            state: catalog::nothing_known(),
        }
    } else {
        found_one(discovery(files.drop_last(), cache, now), files.last(), cache, now)
    }
}

/// The catalogue of the files on the search path.
pub open spec fn discovered(files: Seq<FoundView>, cache: Seq<NamedEntry>, now: nat) -> CatalogView {
    let all = discovery(files, cache, now);
    CatalogView {
        entries: order::ordered(all.entries, catalog::name_order()),
        jobs: all.jobs,
        state: all.state,
        queue: None,
    }
}

/// Each name on the search path leads to its first executable, under its own
/// name; nothing else has a job.
pub proof fn law_first_executable_counts(
    files: Seq<FoundView>,
    cache: Seq<NamedEntry>,
    now: nat,
    name: Seq<char>,
)
    ensures
        ({
            let jobs = discovery(files, cache, now).jobs;
            &&& jobs.contains_key(name) <==> exists|i: int|
                0 <= i < files.len() && executable(#[trigger] files[i]) && files[i].name == Some(
                    name,
                )
            &&& jobs.contains_key(name) ==> jobs[name].name == name && exists|i: int|
                {
                    &&& 0 <= i < files.len()
                    &&& executable(#[trigger] files[i])
                    &&& files[i].name == Some(name)
                    &&& jobs[name].path == files[i].path
                    &&& jobs[name].fingerprint == (files[i].facts->Some_0).1
                    &&& forall|j: int|
                        0 <= j < i && executable(#[trigger] files[j]) ==> files[j].name != Some(
                            name,
                        )
                }
        }),
    decreases files.len(),
{
    if files.len() > 0 {
        let shorter = files.drop_last();
        law_first_executable_counts(shorter, cache, now, name);
        let before = discovery(shorter, cache, now);
        let jobs = discovery(files, cache, now).jobs;
        let last = files[files.len() - 1];
        assert(last == files.last());
        if before.jobs.contains_key(name) {
            let i = choose|i: int|
                {
                    &&& 0 <= i < shorter.len()
                    &&& executable(#[trigger] shorter[i])
                    &&& shorter[i].name == Some(name)
                    &&& before.jobs[name].path == shorter[i].path
                    &&& before.jobs[name].fingerprint == (shorter[i].facts->Some_0).1
                    &&& forall|j: int|
                        0 <= j < i && executable(#[trigger] shorter[j]) ==> shorter[j].name != Some(
                            name,
                        )
                };
            assert(files[i] == shorter[i]);
            assert(jobs[name] == before.jobs[name]);
            assert forall|j: int| 0 <= j < i && executable(#[trigger] files[j]) implies files[j].name
                != Some(name) by {
                assert(files[j] == shorter[j]);
            }
        } else {
            assert forall|j: int| 0 <= j < shorter.len() && executable(#[trigger] files[j]) implies files[j].name
                != Some(name) by {
                assert(files[j] == shorter[j]);
            }
            if executable(last) && last.name == Some(name) {
                assert(jobs[name].path == last.path);
            } else {
                assert(!jobs.contains_key(name));
            }
        }
    }
}

proof fn lemma_ordered_names(list: Seq<Described>)
    ensures
        ({
            let sorted = order::ordered(list, catalog::name_order());
            &&& forall|name: Seq<char>|
                #[trigger] listing::has_name(sorted, name) <==> listing::has_name(list, name)
            &&& options::distinct_names(list) ==> options::distinct_names(sorted)
        }),
    decreases list.len(),
{
    if list.len() > 0 {
        let rest = list.drop_last();
        let x = list.last();
        lemma_ordered_names(rest);
        let before = order::ordered(rest, catalog::name_order());
        let sorted = order::ordered(list, catalog::name_order());
        order::lemma_rank_of(before, x, catalog::name_order());
        let n = order::rank_of(before, x, catalog::name_order()) as int;
        assert(sorted == before.insert(n, x));
        assert forall|name: Seq<char>| #[trigger] listing::has_name(sorted, name)
            <==> listing::has_name(list, name) by {
            if listing::has_name(sorted, name) {
                let k = choose|k: int| 0 <= k < sorted.len() && (#[trigger] sorted[k]).name == name;
                if k == n {
                    assert(list[list.len() - 1].name == name);
                } else {
                    assert(before[if k < n { k } else { k - 1 }].name == name);
                    assert(listing::has_name(before, name));
                    let j = choose|j: int| 0 <= j < rest.len() && (#[trigger] rest[j]).name == name;
                    assert(list[j].name == name);
                }
            }
            if listing::has_name(list, name) {
                let j = choose|j: int| 0 <= j < list.len() && (#[trigger] list[j]).name == name;
                if j == list.len() - 1 {
                    assert(sorted[n].name == name);
                } else {
                    assert(rest[j].name == name);
                    assert(listing::has_name(before, name));
                    let k = choose|k: int|
                        0 <= k < before.len() && (#[trigger] before[k]).name == name;
                    assert(sorted[if k < n { k } else { k + 1 }].name == name);
                }
            }
        }
        if options::distinct_names(list) {
            assert forall|i: int, j: int| 0 <= i < j < rest.len() implies (#[trigger] rest[i]).name
                != (#[trigger] rest[j]).name by {
                assert(list[i].name != list[j].name);
            }
            assert(!listing::has_name(before, x.name)) by {
                if listing::has_name(before, x.name) {
                    assert(listing::has_name(rest, x.name));
                    let j = choose|j: int|
                        0 <= j < rest.len() && (#[trigger] rest[j]).name == x.name;
                    assert(list[j].name != list[list.len() - 1].name);
                }
            }
            assert forall|i: int, j: int| 0 <= i < j < sorted.len() implies (
            #[trigger] sorted[i]).name != (#[trigger] sorted[j]).name by {
                if i != n {
                    assert(sorted[i] == before[if i < n { i } else { i - 1 }]);
                }
                if j != n {
                    assert(sorted[j] == before[if j < n { j } else { j - 1 }]);
                }
            }
        }
    }
}

proof fn lemma_discovered_names(files: Seq<FoundView>, cache: Seq<NamedEntry>, now: nat)
    ensures
        ({
            let all = discovery(files, cache, now);
            &&& options::distinct_names(all.entries)
            &&& forall|name: Seq<char>|
                #[trigger] listing::has_name(all.entries, name) <==> (listing::has_name(
                    known::builtins(),
                    name,
                ) || all.jobs.contains_key(name))
            &&& forall|name: Seq<char>|
                #[trigger] all.seen.contains(name) <==> (listing::has_name(known::builtins(), name)
                    || all.jobs.contains_key(name))
        }),
    decreases files.len(),
{
    known::law_builtins();
    if files.len() > 0 {
        lemma_discovered_names(files.drop_last(), cache, now);
        let before = discovery(files.drop_last(), cache, now);
        let after = discovery(files, cache, now);
        let found = files.last();
        if executable(found) && !before.jobs.contains_key(found.name->Some_0) {
            let new = found.name->Some_0;
            let built_in = listing::has_name(known::builtins(), new);
            if built_in {
                let k = choose|k: int|
                    0 <= k < known::builtins().len() && (#[trigger] known::builtins()[k]).name == new;
                assert(known::known(known::builtins()[k].name) is None);
                assert(after.entries == before.entries);
            } else {
                assert(!listing::has_name(before.entries, new));
                assert(after.entries.len() == before.entries.len() + 1);
                assert(after.entries[before.entries.len() as int].name == new);
                assert forall|i: int, j: int| 0 <= i < j < after.entries.len() implies (
                #[trigger] after.entries[i]).name != (#[trigger] after.entries[j]).name by {
                    assert(after.entries[i] == before.entries[i]);
                    if j < before.entries.len() {
                        assert(after.entries[j] == before.entries[j]);
                    }
                }
            }
            assert forall|name: Seq<char>| #[trigger] listing::has_name(after.entries, name) <==> (
            listing::has_name(known::builtins(), name) || after.jobs.contains_key(name)) by {
                if listing::has_name(before.entries, name) {
                    let k = choose|k: int|
                        0 <= k < before.entries.len() && (#[trigger] before.entries[k]).name == name;
                    assert(after.entries[k].name == name);
                }
                if listing::has_name(after.entries, name) {
                    let k = choose|k: int|
                        0 <= k < after.entries.len() && (#[trigger] after.entries[k]).name == name;
                    if k < before.entries.len() {
                        assert(before.entries[k].name == name);
                    }
                }
            }
        }
    }
}

/// Each command that can be run is listed once: the shell's own, and every
/// executable on the search path; nothing else is. What is to be found out about
/// a command stands under its name.
pub proof fn law_discovered_names(files: Seq<FoundView>, cache: Seq<NamedEntry>, now: nat)
    ensures
        ({
            let entries = discovered(files, cache, now).entries;
            &&& catalog::jobs_are_named(discovered(files, cache, now))
            &&& options::distinct_names(entries)
            &&& forall|name: Seq<char>|
                #[trigger] listing::has_name(entries, name) <==> {
                    ||| listing::has_name(known::builtins(), name)
                    ||| exists|i: int|
                        0 <= i < files.len() && executable(#[trigger] files[i]) && files[i].name
                            == Some(name)
                }
        }),
{
    lemma_discovered_names(files, cache, now);
    lemma_ordered_names(discovery(files, cache, now).entries);
    let entries = discovered(files, cache, now).entries;
    let jobs = discovered(files, cache, now).jobs;
    assert forall|name: Seq<char>| #[trigger] jobs.contains_key(name) implies jobs[name].name
        == name by {
        law_first_executable_counts(files, cache, now, name);
    }
    assert forall|name: Seq<char>| #[trigger] listing::has_name(entries, name) <==> {
        ||| listing::has_name(known::builtins(), name)
        ||| exists|i: int|
            0 <= i < files.len() && executable(#[trigger] files[i]) && files[i].name == Some(name)
    } by {
        law_first_executable_counts(files, cache, now, name);
        assert(listing::has_name(discovery(files, cache, now).entries, name) == listing::has_name(
            entries,
            name,
        ));
    }
}

fn note_names(seen: &mut StringHashSet, list: &Vec<CommandEntry>)
    requires
        old(seen)@ == Set::<Seq<char>>::empty(),
    ensures
        final(seen)@ == names_of(list.deep_view()),
{
    let ghost all = list.deep_view();
    let mut i: usize = 0;
    assert(seen@ =~= names_of(all.take(0)));
    while i < list.len()
        invariant
            i <= list@.len(),
            all == list.deep_view(),
            seen@ == names_of(all.take(i as int)),
        decreases list.len() - i,
    {
        let ghost before = seen@;
        let ghost name = list@[i as int].name@;
        seen.insert(list[i].name.clone());
        proof {
            let shorter = all.take(i as int);
            let longer = all.take(i + 1);
            assert forall|n: Seq<char>| #[trigger] seen@.contains(n) <==> names_of(longer).contains(
                n,
            ) by {
                if crate::commands::listing::has_name(shorter, n) {
                    let k = choose|k: int| 0 <= k < shorter.len() && (#[trigger] shorter[k]).name == n;
                    assert(longer[k].name == n);
                }
                if crate::commands::listing::has_name(longer, n) {
                    let k = choose|k: int| 0 <= k < longer.len() && (#[trigger] longer[k]).name == n;
                    if k < i {
                        assert(shorter[k].name == n);
                    } else {
                        assert(longer[k].name == name);
                    }
                }
                assert(longer[i as int].name == name);
            }
            assert(seen@ =~= names_of(longer));
        }
        i += 1;
    }
    assert(all.take(all.len() as int) =~= all);
}

impl CommandCatalog {
    /// The catalogue of the files on the search path, in their order, with what
    /// the cache knows about them at a time.
    pub fn discover(files: &Vec<FoundFile>, cache: &DescriptionCache, now: u64) -> (r: Self)
        ensures
            r@ == discovered(files.deep_view(), cache@.entries, now as nat),
    {
        let ghost all = files.deep_view();
        let ghost stored = cache@.entries;
        let mut entries = shell_builtins();
        let mut seen = StringHashSet::new();
        note_names(&mut seen, &entries);
        let mut catalog = CommandCatalog::default();
        let mut i: usize = 0;
        while i < files.len()
            invariant
                i <= files@.len(),
                all == files.deep_view(),
                stored == cache@.entries,
                catalog@.queue is None,
                entries.deep_view() == discovery(all.take(i as int), stored, now as nat).entries,
                seen@ == discovery(all.take(i as int), stored, now as nat).seen,
                catalog@.jobs == discovery(all.take(i as int), stored, now as nat).jobs,
                catalog@.state == discovery(all.take(i as int), stored, now as nat).state,
            decreases files.len() - i,
        {
            proof {
                assert(all.take(i + 1).drop_last() =~= all.take(i as int));
                assert(all.take(i + 1).last() == files@[i as int].deep_view());
            }
            catalog.add_file(&mut entries, &mut seen, &files[i], cache, now);
            i += 1;
        }
        assert(all.take(all.len() as int) =~= all);
        catalog.entries = sorted(&entries);
        catalog
    }

    fn add_file(
        &mut self,
        entries: &mut Vec<CommandEntry>,
        seen: &mut StringHashSet,
        file: &FoundFile,
        cache: &DescriptionCache,
        now: u64,
    )
        requires
            old(self)@.queue is None,
        ensures
            ({
                let after = found_one(
                    Discovery {
                        entries: old(entries).deep_view(),
                        seen: old(seen)@,
                        jobs: old(self)@.jobs,
                        state: old(self)@.state,
                    },
                    file.deep_view(),
                    cache@.entries,
                    now as nat,
                );
                &&& final(entries).deep_view() == after.entries
                &&& final(seen)@ == after.seen
                &&& final(self)@.jobs == after.jobs
                &&& final(self)@.state == after.state
                &&& final(self)@.queue is None
            }),
    {
        let ghost known_jobs = self@.jobs;
        let ghost listed = entries.deep_view();
        let name = match &file.name {
            Some(name) => name,
            None => {
                return;
            },
        };
        if !valid_name(name.as_str()) || self.jobs.contains_key(name.as_str()) {
            return;
        }
        let facts = match &file.facts {
            Some(facts) => facts,
            None => {
                return;
            },
        };
        if !facts.is_file || facts.fingerprint.mode & 0o111 == 0 {
            return;
        }
        let described = known_description(name.as_str());
        let is_authored = seen.contains(name.as_str()) || described.is_some();
        seen.insert(name.clone());
        if !is_authored || described.is_some() {
            let description = match described {
                Some(description) => description,
                None => fallback_description(file.path.as_slice()),
            };
            let entry = CommandEntry {
                name: name.clone(),
                description: description.to_string(),
            };
            entries.push(entry);
            assert(entries.deep_view() =~= listed.push(entry.deep_view()));
        }
        let job = DescriptionJob {
            name: name.clone(),
            path: bytes_of(file.path.as_slice()),
            fingerprint: facts.fingerprint.clone(),
            authored_description: is_authored,
        };
        if let Some(cached) = cache.get(name.as_str()) {
            if cached.fingerprint.same_as(&job.fingerprint) && cache_is_fresh(cached, now) {
                self.state.set_settled(name.as_str());
                self.state.absorb(
                    name.as_str(),
                    is_authored,
                    cached.description.as_ref(),
                    &cached.options,
                    &cached.subcommands,
                    &cached.option_values,
                );
            }
        }
        let ghost view = job.deep_view();
        self.jobs.insert(name.clone(), job);
        assert(self@.jobs =~= known_jobs.insert(name@, view));
    }

    /// A catalogue of some commands that nothing is to be found out about.
    pub fn from_entries(entries: Vec<CommandEntry>) -> (r: Self)
        ensures
            r@ == (CatalogView {
                entries: order::ordered(entries.deep_view(), catalog::name_order()),
                ..catalog::empty_catalog()
            }),
    {
        let mut catalog = CommandCatalog::default();
        catalog.entries = sorted(&entries);
        catalog
    }

    /// A catalogue of one command with known options.
    pub fn from_options(command: &str, options: Vec<OptionMatch>) -> (r: Self)
        ensures
            r@ == one_command(command@, options.deep_view(), Seq::empty(), Seq::empty()),
    {
        let subcommands: Vec<SubcommandMatch> = Vec::new();
        let option_values: Vec<(String, Vec<ValueMatch>)> = Vec::new();
        assert(subcommands.deep_view() =~= Seq::<Described>::empty());
        assert(pairs_view(option_values@) =~= Seq::<Choices>::empty());
        CommandCatalog::from_structured(command, options, subcommands, option_values)
    }

    /// A catalogue of one command with known options, subcommands and values.
    pub fn from_structured(
        command: &str,
        options: Vec<OptionMatch>,
        subcommands: Vec<SubcommandMatch>,
        option_values: Vec<(String, Vec<ValueMatch>)>,
    ) -> (r: Self)
        ensures
            r@ == one_command(
                command@,
                options.deep_view(),
                subcommands.deep_view(),
                pairs_view(option_values@),
            ),
    {
        let ghost pairs = pairs_view(option_values@);
        let mut values: Vec<OptionValues> = Vec::new();
        let mut i: usize = 0;
        assert(values.deep_view() =~= pairs.take(0));
        while i < option_values.len()
            invariant
                i <= option_values@.len(),
                pairs == pairs_view(option_values@),
                values.deep_view() == pairs.take(i as int),
            decreases option_values.len() - i,
        {
            let ghost before = values.deep_view();
            let one = OptionValues {
                option: option_values[i].0.clone(),
                values: copies_of(&option_values[i].1),
            };
            values.push(one);
            assert(values.deep_view() =~= before.push(pairs[i as int]));
            assert(pairs.take(i + 1) =~= before.push(pairs[i as int]));
            i += 1;
        }
        assert(pairs.take(pairs.len() as int) =~= pairs);
        let mut catalog = CommandCatalog::default();
        let entry = CommandEntry {
            name: command.to_string(),
            description: "Test command".to_string(),
        };
        let path = bytes_of(command.as_bytes());
        let job = DescriptionJob {
            name: command.to_string(),
            path: bytes_of(path.as_slice()),
            fingerprint: ExecutableFingerprint {
                path,
                size: 0,
                device: 0,
                inode: 0,
                mode: 0,
                modified_secs: 0,
                modified_nanos: 0,
                changed_secs: 0,
                changed_nanos: 0,
            },
            authored_description: true,
        };
        let ghost one = entry.deep_view();
        let ghost view = job.deep_view();
        let ghost none = catalog@.jobs;
        catalog.entries.push(entry);
        assert(catalog.entries.deep_view() =~= seq![one]);
        catalog.jobs.insert(command.to_string(), job);
        assert(catalog@.jobs =~= none.insert(command@, view));
        catalog.state.set_options(command, options);
        catalog.state.set_subcommands(command, subcommands);
        catalog.state.set_option_values(command, values);
        catalog.state.set_settled(command);
        catalog
    }
}

pub open spec fn pairs_view(pairs: Seq<(String, Vec<ValueMatch>)>) -> Seq<Choices> {
    pairs.map_values(
        |p: (String, Vec<ValueMatch>)| Choices { option: p.0@, values: p.1.deep_view() },
    )
}

/// A catalogue of one command with known options, subcommands and values.
pub open spec fn one_command(
    command: Seq<char>,
    options: Seq<Described>,
    subcommands: Seq<Described>,
    option_values: Seq<Choices>,
) -> CatalogView {
    let path = vstd::utf8::encode_utf8(command);
    CatalogView {
        entries: seq![Described { name: command, description: "Test command"@ }],
        jobs: Map::empty().insert(
            command,
            JobView {
                name: command,
                path,
                fingerprint: FingerprintView {
                    path,
                    size: 0,
                    device: 0,
                    inode: 0,
                    mode: 0,
                    modified_secs: 0,
                    modified_nanos: 0,
                    changed_secs: 0,
                    changed_nanos: 0,
                },
                authored: true,
            },
        ),
        state: StateView {
            options: Map::empty().insert(command, options),
            subcommands: Map::empty().insert(command, subcommands),
            option_values: Map::empty().insert(command, option_values),
            settled: Set::empty().insert(command),
            ..catalog::nothing_known()
        },
        queue: None,
    }
}

} // verus!

//! The catalogue of installed commands: what is offered of it, what is still to
//! be found out, and what becomes of it when that is known.
use vstd::prelude::*;
use vstd::hash_map::StringHashMap;
use vstd::hash_set::StringHashSet;
use crate::commands::listing;
use crate::commands::options;
use crate::commands::subcommands;
use crate::commands::values;
use crate::order;
use crate::commands::cache::{ExecutableFingerprint, FingerprintView};
use crate::commands::help::Described;
use crate::commands::listing::{copy_of, first_prefixed, Labelled};
use crate::commands::options::OptionMatch;
use crate::commands::subcommands::SubcommandMatch;
use crate::commands::values::{Choices, OptionValues, ValueMatch};
use crate::order::in_text_order;
use crate::paths::bytes_of;
use crate::text::same_text;

verus! {

/// How many commands wait to be looked at.
pub const QUEUE_CAPACITY: usize = 64;

// ---------------------------------------------------------------------------
// What the catalogue holds
// ---------------------------------------------------------------------------

/// A command that can be typed.
#[derive(Debug, PartialEq, Eq)]
pub struct CommandEntry {
    pub name: String,
    pub description: String,
}

impl DeepView for CommandEntry {
    type V = Described;

    open spec fn deep_view(&self) -> Described {
        Described { name: self.name@, description: self.description@ }
    }
}

impl Labelled for CommandEntry {
    fn label(&self) -> (r: &str) {
        self.name.as_str()
    }

    fn note(&self) -> (r: &str) {
        self.description.as_str()
    }

    fn described(name: String, description: String) -> (r: Self) {
        CommandEntry { name, description }
    }
}

impl Clone for CommandEntry {
    fn clone(&self) -> (r: Self)
        ensures
            r == *self,
    {
        CommandEntry { name: self.name.clone(), description: self.description.clone() }
    }
}

/// A command that completes a prefix.
#[derive(Debug, Clone, PartialEq, Eq)]
pub struct CommandMatch {
    pub name: String,
    pub description: String,
    pub description_pending: bool,
}

/// What a command that completes a prefix says.
pub struct MatchView {
    pub name: Seq<char>,
    pub description: Seq<char>,
    pub description_pending: bool,
}

impl DeepView for CommandMatch {
    type V = MatchView;

    open spec fn deep_view(&self) -> MatchView {
        MatchView {
            name: self.name@,
            description: self.description@,
            description_pending: self.description_pending,
        }
    }
}

/// Options that complete a prefix.
#[derive(Debug, Clone, PartialEq, Eq)]
pub struct OptionMatches {
    pub entries: Vec<OptionMatch>,
    pub pending: bool,
}

/// Subcommands that complete a prefix.
#[derive(Debug, Clone, PartialEq, Eq)]
pub struct SubcommandMatches {
    pub entries: Vec<SubcommandMatch>,
    pub pending: bool,
}

/// Values that complete a prefix.
#[derive(Debug, Clone, PartialEq, Eq)]
pub struct ValueMatches {
    pub entries: Vec<ValueMatch>,
    pub pending: bool,
}

/// An executable to look at.
#[derive(Debug, PartialEq, Eq)]
pub struct DescriptionJob {
    pub name: String,
    pub path: Vec<u8>,
    pub fingerprint: ExecutableFingerprint,
    /// Its description is settled beforehand.
    pub authored_description: bool,
}

/// What a job says.
pub struct JobView {
    pub name: Seq<char>,
    pub path: Seq<u8>,
    pub fingerprint: FingerprintView,
    pub authored: bool,
}

impl DeepView for DescriptionJob {
    type V = JobView;

    open spec fn deep_view(&self) -> JobView {
        JobView {
            name: self.name@,
            path: self.path@,
            fingerprint: self.fingerprint.deep_view(),
            authored: self.authored_description,
        }
    }
}

impl Clone for DescriptionJob {
    fn clone(&self) -> (r: Self)
        ensures
            r.deep_view() == self.deep_view(),
    {
        DescriptionJob {
            name: self.name.clone(),
            path: bytes_of(self.path.as_slice()),
            fingerprint: self.fingerprint.clone(),
            authored_description: self.authored_description,
        }
    }
}

/// Jobs that wait for a worker, in the order in which they came.
#[derive(Debug)]
pub struct JobQueue {
    pub waiting: Vec<DescriptionJob>,
    pub capacity: usize,
    /// Some worker is left to take them.
    pub connected: bool,
}

/// What a queue holds.
pub struct QueueView {
    pub waiting: Seq<JobView>,
    pub capacity: nat,
    pub connected: bool,
}

impl View for JobQueue {
    type V = QueueView;

    open spec fn view(&self) -> QueueView {
        QueueView {
            waiting: self.waiting.deep_view(),
            capacity: self.capacity as nat,
            connected: self.connected,
        }
    }
}

impl JobQueue {
    /// A queue without jobs.
    pub fn new(capacity: usize) -> (r: Self)
        ensures
            r@ == (QueueView {
                waiting: Seq::empty(),
                capacity: capacity as nat,
                connected: true,
            }),
    {
        let r = JobQueue { waiting: Vec::new(), capacity, connected: true };
        assert(r.waiting.deep_view() =~= Seq::<JobView>::empty());
        r
    }
}

/// What was found out about commands, by their names.
pub struct EnrichmentState {
    pub descriptions: StringHashMap<String>,
    pub options: StringHashMap<Vec<OptionMatch>>,
    pub subcommands: StringHashMap<Vec<SubcommandMatch>>,
    pub option_values: StringHashMap<Vec<OptionValues>>,
    pub settled: StringHashSet,
    pub pending: StringHashSet,
}

/// What is known about commands.
pub struct StateView {
    pub descriptions: Map<Seq<char>, Seq<char>>,
    pub options: Map<Seq<char>, Seq<Described>>,
    pub subcommands: Map<Seq<char>, Seq<Described>>,
    pub option_values: Map<Seq<char>, Seq<Choices>>,
    pub settled: Set<Seq<char>>,
    pub pending: Set<Seq<char>>,
}

pub open spec fn nothing_known() -> StateView {
    StateView {
        descriptions: Map::empty(),
        options: Map::empty(),
        subcommands: Map::empty(),
        option_values: Map::empty(),
        settled: Set::empty(),
        pending: Set::empty(),
    }
}

impl View for EnrichmentState {
    type V = StateView;

    open spec fn view(&self) -> StateView {
        StateView {
            descriptions: self.descriptions@.map_values(|s: String| s@),
            options: self.options@.map_values(|v: Vec<OptionMatch>| v.deep_view()),
            subcommands: self.subcommands@.map_values(|v: Vec<SubcommandMatch>| v.deep_view()),
            option_values: self.option_values@.map_values(|v: Vec<OptionValues>| v.deep_view()),
            settled: self.settled@,
            pending: self.pending@,
        }
    }
}

impl Default for EnrichmentState {
    /// Nothing is known yet.
    fn default() -> (r: Self)
        ensures
            r@ == nothing_known(),
    {
        let r = EnrichmentState {
            descriptions: StringHashMap::new(),
            options: StringHashMap::new(),
            subcommands: StringHashMap::new(),
            option_values: StringHashMap::new(),
            settled: StringHashSet::new(),
            pending: StringHashSet::new(),
        };
        assert(r@.descriptions =~= Map::<Seq<char>, Seq<char>>::empty());
        assert(r@.options =~= Map::<Seq<char>, Seq<Described>>::empty());
        assert(r@.subcommands =~= Map::<Seq<char>, Seq<Described>>::empty());
        assert(r@.option_values =~= Map::<Seq<char>, Seq<Choices>>::empty());
        r
    }
}

impl EnrichmentState {
    /// Sets the description of a command.
    pub fn set_description(&mut self, name: &str, description: &str)
        ensures
            final(self)@ == (StateView {
                descriptions: old(self)@.descriptions.insert(name@, description@),
                ..old(self)@
            }),
    {
        let ghost before = self@;
        self.descriptions.insert(name.to_string(), description.to_string());
        assert(self@.descriptions =~= before.descriptions.insert(name@, description@));
    }

    /// Sets the options of a command.
    pub fn set_options(&mut self, name: &str, options: Vec<OptionMatch>)
        ensures
            final(self)@ == (StateView {
                options: old(self)@.options.insert(name@, options.deep_view()),
                ..old(self)@
            }),
    {
        let ghost before = self@;
        let ghost list = options.deep_view();
        self.options.insert(name.to_string(), options);
        assert(self@.options =~= before.options.insert(name@, list));
    }

    /// Sets the subcommands of a command.
    pub fn set_subcommands(&mut self, name: &str, subcommands: Vec<SubcommandMatch>)
        ensures
            final(self)@ == (StateView {
                subcommands: old(self)@.subcommands.insert(name@, subcommands.deep_view()),
                ..old(self)@
            }),
    {
        let ghost before = self@;
        let ghost list = subcommands.deep_view();
        self.subcommands.insert(name.to_string(), subcommands);
        assert(self@.subcommands =~= before.subcommands.insert(name@, list));
    }

    /// Sets the values that the options of a command take.
    pub fn set_option_values(&mut self, name: &str, values: Vec<OptionValues>)
        ensures
            final(self)@ == (StateView {
                option_values: old(self)@.option_values.insert(name@, values.deep_view()),
                ..old(self)@
            }),
    {
        let ghost before = self@;
        let ghost list = values.deep_view();
        self.option_values.insert(name.to_string(), values);
        assert(self@.option_values =~= before.option_values.insert(name@, list));
    }

    /// Notes that a command needs no further look.
    pub fn set_settled(&mut self, name: &str)
        ensures
            final(self)@ == (StateView {
                settled: old(self)@.settled.insert(name@),
                ..old(self)@
            }),
    {
        self.settled.insert(name.to_string());
    }

    /// The description of a command, where one was found.
    pub fn description(&self, name: &str) -> (r: Option<&String>)
        ensures
            match r {
                Some(d) => self@.descriptions.contains_key(name@) && self@.descriptions[name@]
                    == d@,
                None => !self@.descriptions.contains_key(name@),
            },
    {
        self.descriptions.get(name)
    }
}

/// The commands that can be typed, in the order of their names, with what is
/// known about them.
pub struct CommandCatalog {
    pub entries: Vec<CommandEntry>,
    pub jobs: StringHashMap<DescriptionJob>,
    pub state: EnrichmentState,
    pub queue: Option<JobQueue>,
}

/// What the catalogue says.
pub struct CatalogView {
    pub entries: Seq<Described>,
    pub jobs: Map<Seq<char>, JobView>,
    pub state: StateView,
    pub queue: Option<QueueView>,
}

impl View for CommandCatalog {
    type V = CatalogView;

    open spec fn view(&self) -> CatalogView {
        CatalogView {
            entries: self.entries.deep_view(),
            jobs: self.jobs@.map_values(|j: DescriptionJob| j.deep_view()),
            state: self.state@,
            queue: match self.queue {
                Some(q) => Some(q@),
                None => None,
            },
        }
    }
}

pub open spec fn empty_catalog() -> CatalogView {
    CatalogView {
        entries: Seq::empty(),
        jobs: Map::empty(),
        state: nothing_known(),
        queue: None,
    }
}

impl Default for CommandCatalog {
    /// A catalogue without commands.
    fn default() -> (r: Self)
        ensures
            r@ == empty_catalog(),
    {
        let r = CommandCatalog {
            entries: Vec::new(),
            jobs: StringHashMap::new(),
            state: EnrichmentState::default(),
            queue: None,
        };
        assert(r@.entries =~= Seq::<Described>::empty());
        assert(r@.jobs =~= Map::<Seq<char>, JobView>::empty());
        r
    }
}

// ---------------------------------------------------------------------------
// Order
// ---------------------------------------------------------------------------

pub open spec fn name_order() -> spec_fn(Described, Described) -> bool {
    |a: Described, b: Described| order::text_le(a.name, b.name)
}

/// The order of names is total.
pub proof fn law_name_order()
    ensures
        order::total(name_order()),
{
    let le = name_order();
    assert forall|a: Described, b: Described| #[trigger] le(a, b) || le(b, a) by {
        order::law_text_order(a.name, b.name, a.name);
    }
    assert forall|a: Described, b: Described, c: Described| #[trigger]
        le(a, b) && #[trigger] le(b, c) implies le(a, c) by {
        order::law_text_order(a.name, b.name, c.name);
    }
}

/// Puts an entry in its place, which halving finds.
fn place_entry(list: &mut Vec<CommandEntry>, entry: CommandEntry)
    requires
        order::is_ordered(old(list).deep_view(), name_order()),
    ensures
        final(list).deep_view() == order::insert_ordered(
            old(list).deep_view(),
            entry.deep_view(),
            name_order(),
        ),
{
    let ghost all = list.deep_view();
    let ghost x = entry.deep_view();
    let ghost le = name_order();
    let mut low: usize = 0;
    let mut high: usize = list.len();
    proof {
        law_name_order();
    }
    while low < high
        invariant
            low <= high <= list@.len(),
            all == list.deep_view(),
            x == entry.deep_view(),
            le == name_order(),
            order::total(le),
            order::is_ordered(all, le),
            forall|i: int| 0 <= i < low ==> le(#[trigger] all[i], x),
            forall|i: int| high <= i < all.len() ==> !le(#[trigger] all[i], x),
        decreases high - low,
    {
        let middle: usize = low + (high - low) / 2;
        assert(all[middle as int] == list@[middle as int].deep_view());
        if in_text_order(list[middle].name.as_str(), entry.name.as_str()) {
            assert forall|i: int| 0 <= i < middle + 1 implies le(#[trigger] all[i], x) by {
                if i < middle {
                    assert(le(all[i], all[middle as int]));
                    assert(le(all[middle as int], x));
                }
            }
            low = middle + 1;
        } else {
            assert forall|i: int| middle <= i < all.len() implies !le(#[trigger] all[i], x) by {
                if i > middle && le(all[i], x) {
                    assert(le(all[middle as int], all[i]));
                    assert(le(all[middle as int], x));
                }
            }
            high = middle;
        }
    }
    proof {
        order::lemma_rank_is(all, x, le, low as nat);
    }
    list.insert(low, entry);
    assert(list.deep_view() =~= all.insert(low as int, x));
}

/// The entries of a list in the order of their names.
pub fn sorted(list: &Vec<CommandEntry>) -> (r: Vec<CommandEntry>)
    ensures
        r.deep_view() == order::ordered(list.deep_view(), name_order()),
{
    let ghost all = list.deep_view();
    let ghost le = name_order();
    let mut out: Vec<CommandEntry> = Vec::new();
    let mut i: usize = 0;
    assert(out.deep_view() =~= all.take(0));
    while i < list.len()
        invariant
            i <= list@.len(),
            all == list.deep_view(),
            le == name_order(),
            out.deep_view() == order::ordered(all.take(i as int), le),
        decreases list.len() - i,
    {
        proof {
            law_name_order();
            order::law_ordered(all.take(i as int), le);
            assert(all.take(i + 1).drop_last() =~= all.take(i as int));
            assert(all.take(i + 1).last() == list@[i as int].deep_view());
        }
        place_entry(&mut out, copy_of(&list[i]));
        i += 1;
    }
    assert(all.take(all.len() as int) =~= all);
    out
}

// ---------------------------------------------------------------------------
// What is offered
// ---------------------------------------------------------------------------

/// The job of a command.
pub open spec fn job_of(catalog: CatalogView, name: Seq<char>) -> Option<JobView> {
    if catalog.jobs.contains_key(name) {
        Some(catalog.jobs[name])
    } else {
        None
    }
}

/// Whether the description of a command is settled beforehand.
pub open spec fn authored(job: Option<JobView>) -> bool {
    job is Some && job->Some_0.authored
}

/// Whether something is still to be found out about a command.
pub open spec fn unsettled(catalog: CatalogView, job: Option<JobView>) -> bool {
    match (job, catalog.queue) {
        (Some(j), Some(q)) => !catalog.state.settled.contains(j.name) && (
        catalog.state.pending.contains(j.name) || q.connected),
        _ => false,
    }
}

/// The catalogue after a look at a command was asked for: once, and only while
/// there is room in the queue. Without workers the command is settled.
pub open spec fn enqueued(catalog: CatalogView, job: Option<JobView>) -> CatalogView {
    match (job, catalog.queue) {
        (Some(j), Some(q)) => if catalog.state.settled.contains(j.name)
            || catalog.state.pending.contains(j.name) {
            catalog
        } else if !q.connected {
            CatalogView {
                state: StateView {
                    settled: catalog.state.settled.insert(j.name),
                    ..catalog.state
                },
                ..catalog
            }
        } else if q.waiting.len() < q.capacity {
            CatalogView {
                state: StateView {
                    pending: catalog.state.pending.insert(j.name),
                    ..catalog.state
                },
                queue: Some(QueueView { waiting: q.waiting.push(j), ..q }),
                ..catalog
            }
        } else {
            catalog
        },
        _ => catalog,
    }
}

/// The description that a command is offered with.
pub open spec fn shown_description(catalog: CatalogView, entry: Described) -> Seq<char> {
    if !authored(job_of(catalog, entry.name)) && catalog.state.descriptions.contains_key(
        entry.name,
    ) {
        catalog.state.descriptions[entry.name]
    } else {
        entry.description
    }
}

/// Offering some commands: the catalogue after, and what is offered.
pub open spec fn offered(catalog: CatalogView, list: Seq<Described>) -> (
    CatalogView,
    Seq<MatchView>,
)
    decreases list.len(),
{
    if list.len() == 0 {
        (catalog, Seq::empty())
    } else {
        let before = offered(catalog, list.drop_last());
        let entry = list.last();
        let job = job_of(before.0, entry.name);
        (
            enqueued(before.0, job),
            before.1.push(
                MatchView {
                    name: entry.name,
                    description: shown_description(before.0, entry),
                    description_pending: unsettled(before.0, job) && !authored(job),
                },
            ),
        )
    }
}

/// A list by the name of a command.
pub open spec fn looked_up<A>(table: Map<Seq<char>, Seq<A>>, command: Seq<char>) -> Seq<A> {
    if table.contains_key(command) {
        table[command]
    } else {
        Seq::empty()
    }
}

/// The values of the first option with a spelling.
pub open spec fn values_of(list: Seq<Choices>, option: Seq<char>) -> Seq<Described>
    decreases list.len(),
{
    if list.len() == 0 {
        Seq::empty()
    } else if list[0].option == option {
        list[0].values
    } else {
        values_of(list.drop_first(), option)
    }
}

/// A list that is offered of a known command.
pub open spec fn offered_list(
    catalog: CatalogView,
    command: Seq<char>,
    list: Seq<Described>,
    prefix: Seq<char>,
    limit: nat,
) -> Seq<Described> {
    if catalog.jobs.contains_key(command) {
        listing::prefixed(list, prefix, limit)
    } else {
        Seq::empty()
    }
}

/// Everything that is asked of a look keeps the catalogue's commands, its jobs
/// and what was found out. What is settled stays settled.
pub proof fn law_asking_keeps_what_is_known(catalog: CatalogView, list: Seq<Described>)
    ensures
        ({
            let after = offered(catalog, list).0;
            &&& after.entries == catalog.entries
            &&& after.jobs == catalog.jobs
            &&& after.state.descriptions == catalog.state.descriptions
            &&& after.state.options == catalog.state.options
            &&& after.state.subcommands == catalog.state.subcommands
            &&& after.state.option_values == catalog.state.option_values
            &&& catalog.state.settled.subset_of(after.state.settled)
            &&& catalog.state.pending.subset_of(after.state.pending)
            &&& after.queue is Some <==> catalog.queue is Some
            &&& catalog.queue is Some ==> {
                let q = catalog.queue->Some_0;
                let p = after.queue->Some_0;
                &&& p.capacity == q.capacity
                &&& q.waiting.len() <= p.waiting.len()
                &&& p.waiting.take(q.waiting.len() as int) == q.waiting
                &&& q.waiting.len() <= q.capacity ==> p.waiting.len() <= p.capacity
            }
        }),
    decreases list.len(),
{
    if list.len() > 0 {
        law_asking_keeps_what_is_known(catalog, list.drop_last());
        let before = offered(catalog, list.drop_last()).0;
        let after = offered(catalog, list).0;
        if catalog.queue is Some {
            let n = catalog.queue->Some_0.waiting.len() as int;
            assert(after.queue->Some_0.waiting.take(n) =~= before.queue->Some_0.waiting.take(n));
        }
    } else if catalog.queue is Some {
        let q = catalog.queue->Some_0;
        assert(q.waiting.take(q.waiting.len() as int) =~= q.waiting);
    }
}

/// Each command has its job under its own name.
pub open spec fn jobs_are_named(catalog: CatalogView) -> bool {
    forall|name: Seq<char>| #[trigger]
        catalog.jobs.contains_key(name) ==> catalog.jobs[name].name == name
}

/// What is asked of a look are only commands that are offered.
pub proof fn law_only_offered_commands_are_asked(
    catalog: CatalogView,
    list: Seq<Described>,
    i: int,
)
    requires
        jobs_are_named(catalog),
        catalog.queue is Some,
        catalog.queue->Some_0.waiting.len() <= i < offered(
            catalog,
            list,
        ).0.queue->Some_0.waiting.len(),
    ensures
        listing::has_name(list, offered(catalog, list).0.queue->Some_0.waiting[i].name),
    decreases list.len(),
{
    if list.len() > 0 {
        let rest = list.drop_last();
        law_asking_keeps_what_is_known(catalog, rest);
        let before = offered(catalog, rest).0;
        let after = offered(catalog, list).0;
        let name = after.queue->Some_0.waiting[i].name;
        if i < before.queue->Some_0.waiting.len() {
            law_only_offered_commands_are_asked(catalog, rest, i);
            let k = choose|k: int| 0 <= k < rest.len() && (#[trigger] rest[k]).name == name;
            assert(list[k].name == name);
        } else {
            assert(list[list.len() - 1].name == name);
        }
    }
}

/// An authored description is offered whatever was found out.
pub proof fn law_authored_descriptions_stay(catalog: CatalogView, entry: Described)
    ensures
        authored(job_of(catalog, entry.name)) ==> shown_description(catalog, entry)
            == entry.description,
{
}

impl CommandCatalog {
    /// Asks for a look at a command, if something is still to be found out.
    fn enqueue_if_unsettled(&mut self, name: &str) -> (pending: bool)
        ensures
            final(self)@ == enqueued(old(self)@, job_of(old(self)@, name@)),
            pending == unsettled(old(self)@, job_of(old(self)@, name@)),
    {
        let ghost before = self@;
        let job = match self.jobs.get(name) {
            Some(job) => job.clone(),
            None => {
                return false;
            },
        };
        let mut queue = match self.queue.take() {
            Some(queue) => queue,
            None => {
                return false;
            },
        };
        let ghost waiting = queue.waiting.deep_view();
        let mut pending = true;
        if self.state.settled.contains(job.name.as_str()) {
            pending = false;
        } else if !self.state.pending.contains(job.name.as_str()) {
            if !queue.connected {
                self.state.settled.insert(job.name.clone());
                pending = false;
            } else if queue.waiting.len() < queue.capacity {
                self.state.pending.insert(job.name.clone());
                let ghost view = job.deep_view();
                queue.waiting.push(job);
                assert(queue.waiting.deep_view() =~= waiting.push(view));
            }
        }
        self.queue = Some(queue);
        pending
    }

    /// The description that a command is offered with.
    fn description_of(&self, entry: &CommandEntry) -> (r: String)
        ensures
            r@ == shown_description(self@, entry.deep_view()),
    {
        let is_authored = match self.jobs.get(entry.name.as_str()) {
            Some(job) => job.authored_description,
            None => false,
        };
        if !is_authored {
            if let Some(description) = self.state.description(entry.name.as_str()) {
                return description.clone();
            }
        }
        entry.description.clone()
    }

    /// The commands that complete a prefix, `limit` at most, in the order of
    /// their names.
    pub fn matching(&mut self, prefix: &str, limit: usize) -> (r: Vec<CommandMatch>)
        ensures
            ({
                let o = offered(
                    old(self)@,
                    listing::prefixed(old(self)@.entries, prefix@, limit as nat),
                );
                final(self)@ == o.0 && r.deep_view() == o.1
            }),
    {
        let list = self.starting_with(prefix, limit);
        self.offer(&list)
    }

    /// The commands whose names start with a prefix, `limit` at most, in the
    /// order of their names. Nothing is asked about them.
    pub fn starting_with(&self, prefix: &str, limit: usize) -> (r: Vec<CommandEntry>)
        ensures
            r.deep_view() == listing::prefixed(self@.entries, prefix@, limit as nat),
    {
        first_prefixed(&self.entries, prefix, limit)
    }

    /// Offers some commands, and asks for a look at those of which something is
    /// still to be found out.
    pub fn offer(&mut self, list: &Vec<CommandEntry>) -> (r: Vec<CommandMatch>)
        ensures
            ({
                let o = offered(old(self)@, list.deep_view());
                final(self)@ == o.0 && r.deep_view() == o.1
            }),
    {
        let ghost before = self@;
        let ghost all = list.deep_view();
        let mut out: Vec<CommandMatch> = Vec::new();
        let mut i: usize = 0;
        proof {
            assert(out.deep_view() =~= Seq::<MatchView>::empty());
            assert(all.take(0) =~= Seq::<Described>::empty());
        }
        while i < list.len()
            invariant
                i <= list@.len(),
                all == list.deep_view(),
                (self@, out.deep_view()) == offered(before, all.take(i as int)),
            decreases list.len() - i,
        {
            let ghost rows = out.deep_view();
            let ghost middle = self@;
            let entry = &list[i];
            assert(all.take(i + 1).drop_last() =~= all.take(i as int));
            assert(all.take(i + 1).last() == entry.deep_view());
            let description = self.description_of(entry);
            let is_authored = match self.jobs.get(entry.name.as_str()) {
                Some(job) => job.authored_description,
                None => false,
            };
            let pending = self.enqueue_if_unsettled(entry.name.as_str());
            let found = CommandMatch {
                name: entry.name.clone(),
                description,
                description_pending: pending && !is_authored,
            };
            out.push(found);
            assert(out.deep_view() =~= rows.push(found.deep_view()));
            i += 1;
        }
        assert(all.take(all.len() as int) =~= all);
        out
    }

    /// The options of a command that complete a prefix, `limit` at most.
    pub fn matching_options(&mut self, command: &str, prefix: &str, limit: usize) -> (r:
        OptionMatches)
        ensures
            final(self)@ == enqueued(old(self)@, job_of(old(self)@, command@)),
            r.pending == unsettled(old(self)@, job_of(old(self)@, command@)),
            r.entries.deep_view() == offered_list(
                old(self)@,
                command@,
                looked_up(old(self)@.state.options, command@),
                prefix@,
                limit as nat,
            ),
    {
        let known_command = self.jobs.contains_key(command);
        let pending = self.enqueue_if_unsettled(command);
        if known_command {
            if let Some(list) = self.state.options.get(command) {
                return OptionMatches { entries: first_prefixed(list, prefix, limit), pending };
            }
        }
        let none: Vec<OptionMatch> = Vec::new();
        proof {
            assert(none.deep_view() =~= Seq::<Described>::empty());
            lemma_nothing_prefixed(prefix@, limit as nat);
        }
        OptionMatches { entries: none, pending }
    }

    /// The subcommands of a command that complete a prefix, `limit` at most.
    pub fn matching_subcommands(&mut self, command: &str, prefix: &str, limit: usize) -> (r:
        SubcommandMatches)
        ensures
            final(self)@ == enqueued(old(self)@, job_of(old(self)@, command@)),
            r.pending == unsettled(old(self)@, job_of(old(self)@, command@)),
            r.entries.deep_view() == offered_list(
                old(self)@,
                command@,
                looked_up(old(self)@.state.subcommands, command@),
                prefix@,
                limit as nat,
            ),
    {
        let known_command = self.jobs.contains_key(command);
        let pending = self.enqueue_if_unsettled(command);
        if known_command {
            if let Some(list) = self.state.subcommands.get(command) {
                return SubcommandMatches { entries: first_prefixed(list, prefix, limit), pending };
            }
        }
        let none: Vec<SubcommandMatch> = Vec::new();
        proof {
            assert(none.deep_view() =~= Seq::<Described>::empty());
            lemma_nothing_prefixed(prefix@, limit as nat);
        }
        SubcommandMatches { entries: none, pending }
    }

    /// The values of a command's option that complete a prefix, `limit` at
    /// most.
    pub fn matching_values(&mut self, command: &str, option: &str, prefix: &str, limit: usize) -> (
    r: ValueMatches)
        ensures
            final(self)@ == enqueued(old(self)@, job_of(old(self)@, command@)),
            r.pending == unsettled(old(self)@, job_of(old(self)@, command@)),
            r.entries.deep_view() == offered_list(
                old(self)@,
                command@,
                values_of(looked_up(old(self)@.state.option_values, command@), option@),
                prefix@,
                limit as nat,
            ),
    {
        let known_command = self.jobs.contains_key(command);
        let pending = self.enqueue_if_unsettled(command);
        if known_command {
            if let Some(list) = self.state.option_values.get(command) {
                if let Some(n) = find_option(list, option) {
                    return ValueMatches {
                        entries: first_prefixed(&list[n].values, prefix, limit),
                        pending,
                    };
                }
            }
        }
        let none: Vec<ValueMatch> = Vec::new();
        proof {
            assert(none.deep_view() =~= Seq::<Described>::empty());
            lemma_nothing_prefixed(prefix@, limit as nat);
        }
        ValueMatches { entries: none, pending }
    }

    /// All commands, with what is known about them.
    pub fn inventory(&self) -> (r: Vec<CommandMatch>)
        ensures
            r.deep_view() == inventory_of(self@),
    {
        let ghost all = self@.entries;
        let mut out: Vec<CommandMatch> = Vec::new();
        let mut i: usize = 0;
        assert(out.deep_view() =~= inventory_of(self@).take(0));
        while i < self.entries.len()
            invariant
                i <= self.entries@.len(),
                all == self@.entries,
                out.deep_view() == inventory_of(self@).take(i as int),
            decreases self.entries.len() - i,
        {
            let ghost before = out.deep_view();
            let entry = &self.entries[i];
            let found = CommandMatch {
                name: entry.name.clone(),
                description: self.description_of(entry),
                description_pending: false,
            };
            assert(all[i as int] == entry.deep_view());
            out.push(found);
            assert(out.deep_view() =~= before.push(found.deep_view()));
            assert(inventory_of(self@).take(i + 1) =~= before.push(inventory_of(self@)[i as int]));
            i += 1;
        }
        assert(inventory_of(self@).take(all.len() as int) =~= inventory_of(self@));
        out
    }
}

/// All commands, with what is known about them.
pub open spec fn inventory_of(catalog: CatalogView) -> Seq<MatchView> {
    catalog.entries.map_values(
        |entry: Described|
            MatchView {
                name: entry.name,
                description: shown_description(catalog, entry),
                description_pending: false,
            },
    )
}

proof fn lemma_nothing_prefixed(prefix: Seq<char>, limit: nat)
    ensures
        listing::prefixed(Seq::empty(), prefix, limit) == Seq::<Described>::empty(),
{
    reveal(Seq::filter);
}

/// The position of the first option with a spelling.
fn find_option(list: &Vec<OptionValues>, option: &str) -> (r: Option<usize>)
    ensures
        match r {
            Some(n) => n < list@.len() && values_of(list.deep_view(), option@)
                == list@[n as int].values.deep_view(),
            None => values_of(list.deep_view(), option@) == Seq::<Described>::empty(),
        },
{
    let ghost all = list.deep_view();
    let mut i: usize = 0;
    assert(all.skip(0) =~= all);
    while i < list.len()
        invariant
            i <= list@.len(),
            all == list.deep_view(),
            values_of(all, option@) == values_of(all.skip(i as int), option@),
        decreases list.len() - i,
    {
        assert(all.skip(i as int)[0] == list@[i as int].deep_view());
        if same_text(list[i].option.as_str(), option) {
            return Some(i);
        }
        assert(all.skip(i as int).drop_first() =~= all.skip(i + 1));
        i += 1;
    }
    None
}

} // verus!

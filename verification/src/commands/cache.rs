//! The cache of what was found out about executables: how long an entry is
//! believed, what of a stored one is fit to be used, and which one goes first.
use vstd::prelude::*;
use crate::commands::help;
use crate::commands::listing;
use crate::commands::options;
use crate::commands::subcommands;
use crate::commands::values;
use crate::order;
use crate::commands::help::{
    valid_option_spelling, Described, MAX_OPTION_COUNT, MAX_SUBCOMMAND_COUNT, MAX_VALUE_COUNT,
};
use crate::commands::listing::{copies_of, keep_fit, Naming};
use crate::commands::options::OptionMatch;
use crate::commands::subcommands::SubcommandMatch;
use crate::commands::values::{Choices, OptionValues};
use crate::order::in_text_order;
use crate::paths::bytes_of;
use crate::text::{chars_of, same_bytes, same_text};

verus! {

/// The format of the cache file.
pub const CACHE_VERSION: u32 = 4;

/// The size of the cache file.
pub const CACHE_MAX_BYTES: u64 = 2_097_152;

/// How long an entry with something in it is believed, in seconds.
pub const SUCCESS_TTL: u64 = 2_592_000;

/// How long an entry with nothing in it is believed, in seconds.
pub const MISS_TTL: u64 = 86_400;

/// What tells one state of an executable from another.
#[derive(Debug, PartialEq, Eq)]
pub struct ExecutableFingerprint {
    pub path: Vec<u8>,
    pub size: u64,
    pub device: u64,
    pub inode: u64,
    pub mode: u32,
    pub modified_secs: i64,
    pub modified_nanos: i64,
    pub changed_secs: i64,
    pub changed_nanos: i64,
}

impl Clone for ExecutableFingerprint {
    fn clone(&self) -> (r: Self)
        ensures
            r.deep_view() == self.deep_view(),
    {
        ExecutableFingerprint {
            path: bytes_of(self.path.as_slice()),
            size: self.size,
            device: self.device,
            inode: self.inode,
            mode: self.mode,
            modified_secs: self.modified_secs,
            modified_nanos: self.modified_nanos,
            changed_secs: self.changed_secs,
            changed_nanos: self.changed_nanos,
        }
    }
}

/// What a fingerprint says.
pub struct FingerprintView {
    pub path: Seq<u8>,
    pub size: u64,
    pub device: u64,
    pub inode: u64,
    pub mode: u32,
    pub modified_secs: i64,
    pub modified_nanos: i64,
    pub changed_secs: i64,
    pub changed_nanos: i64,
}

impl DeepView for ExecutableFingerprint {
    type V = FingerprintView;

    open spec fn deep_view(&self) -> FingerprintView {
        FingerprintView {
            path: self.path@,
            size: self.size,
            device: self.device,
            inode: self.inode,
            mode: self.mode,
            modified_secs: self.modified_secs,
            modified_nanos: self.modified_nanos,
            changed_secs: self.changed_secs,
            changed_nanos: self.changed_nanos,
        }
    }
}

impl ExecutableFingerprint {
    /// Whether two fingerprints are of the same state of an executable.
    pub fn same_as(&self, other: &ExecutableFingerprint) -> (b: bool)
        ensures
            b == (self.deep_view() == other.deep_view()),
    {
        same_bytes(self.path.as_slice(), other.path.as_slice()) && self.size == other.size
            && self.device == other.device && self.inode == other.inode && self.mode == other.mode
            && self.modified_secs == other.modified_secs && self.modified_nanos
            == other.modified_nanos && self.changed_secs == other.changed_secs
            && self.changed_nanos == other.changed_nanos
    }
}

/// What was found out about an executable, and when.
#[derive(Debug)]
pub struct CachedDescription {
    pub fingerprint: ExecutableFingerprint,
    pub checked_at_secs: u64,
    pub description: Option<String>,
    pub options: Vec<OptionMatch>,
    pub subcommands: Vec<SubcommandMatch>,
    pub option_values: Vec<OptionValues>,
}

/// What an entry of the cache says.
pub struct CachedView {
    pub fingerprint: FingerprintView,
    pub checked_at: nat,
    pub description: Option<Seq<char>>,
    pub options: Seq<Described>,
    pub subcommands: Seq<Described>,
    pub option_values: Seq<Choices>,
}

/// A text that may be missing.
pub open spec fn text_view(s: Option<String>) -> Option<Seq<char>> {
    match s {
        Some(t) => Some(t@),
        None => None,
    }
}

impl DeepView for CachedDescription {
    type V = CachedView;

    open spec fn deep_view(&self) -> CachedView {
        CachedView {
            fingerprint: self.fingerprint.deep_view(),
            checked_at: self.checked_at_secs as nat,
            description: text_view(self.description),
            options: self.options.deep_view(),
            subcommands: self.subcommands.deep_view(),
            option_values: self.option_values.deep_view(),
        }
    }
}

/// An entry with nothing in it.
pub open spec fn is_miss(cached: CachedView) -> bool {
    &&& cached.description is None
    &&& cached.options.len() == 0
    &&& cached.subcommands.len() == 0
    &&& cached.option_values.len() == 0
}

/// Whether an entry of the cache is believed at a time. One from the future is
/// not.
pub open spec fn fresh(cached: CachedView, now: nat) -> bool {
    let ttl = if is_miss(cached) {
        MISS_TTL
    } else {
        SUCCESS_TTL
    };
    cached.checked_at <= now <= cached.checked_at + ttl
}

/// Whether an entry of the cache is believed at a time.
pub fn cache_is_fresh(cached: &CachedDescription, now: u64) -> (b: bool)
    ensures
        b == fresh(cached.deep_view(), now as nat),
{
    let ttl: u64 = if cached.description.is_some() || cached.options.len() > 0
        || cached.subcommands.len() > 0 || cached.option_values.len() > 0 {
        SUCCESS_TTL
    } else {
        MISS_TTL
    };
    now >= cached.checked_at_secs && now - cached.checked_at_secs <= ttl
}

// ---------------------------------------------------------------------------
// What of a stored entry is fit to be used
// ---------------------------------------------------------------------------

/// The values of an option that are fit to be offered.
pub open spec fn fit_values(values: Seq<Described>) -> Seq<Described> {
    order::at_most(listing::fit_entries(values, Naming::OptionValue), MAX_VALUE_COUNT as nat)
}

/// Some option among the first `n` of a list is spelled like this.
pub open spec fn names_option(list: Seq<Choices>, n: int, option: Seq<char>) -> bool {
    exists|i: int| 0 <= i < n && (#[trigger] list[i]).option == option
}

/// The options of a list that are spelled strictly, the first of each
/// spelling, with the values that are fit to be offered, if there are any.
pub open spec fn fit_choices(list: Seq<Choices>) -> Seq<Choices>
    decreases list.len(),
{
    if list.len() == 0 {
        list
    } else {
        let before = fit_choices(list.drop_last());
        let entry = list.last();
        let values = fit_values(entry.values);
        if help::option_spelling(entry.option) && !names_option(list, list.len() - 1, entry.option)
            && values.len() > 0 {
            before.push(Choices { option: entry.option, values })
        } else {
            before
        }
    }
}

/// A stored entry with what is fit to be used.
pub open spec fn fit_cached(cached: CachedView) -> CachedView {
    CachedView {
        options: order::at_most(
            listing::fit_entries(cached.options, Naming::OptionSpelling),
            MAX_OPTION_COUNT as nat,
        ),
        subcommands: order::at_most(
            listing::fit_entries(cached.subcommands, Naming::SubcommandName),
            MAX_SUBCOMMAND_COUNT as nat,
        ),
        option_values: fit_choices(cached.option_values),
        ..cached
    }
}

proof fn lemma_fit_choices(list: Seq<Choices>)
    ensures
        values::sound_choices(fit_choices(list)),
        forall|i: int|
            0 <= i < fit_choices(list).len() ==> names_option(
                list,
                list.len() as int,
                (#[trigger] fit_choices(list)[i]).option,
            ),
    decreases list.len(),
{
    if list.len() > 0 {
        let shorter = list.drop_last();
        lemma_fit_choices(shorter);
        let before = fit_choices(shorter);
        let entry = list.last();
        let after = fit_choices(list);
        listing::law_fit_entries(entry.values, Naming::OptionValue);
        assert forall|i: int| 0 <= i < before.len() implies names_option(
            list,
            list.len() - 1,
            (#[trigger] before[i]).option,
        ) by {
            let k = choose|k: int|
                0 <= k < shorter.len() && (#[trigger] shorter[k]).option == before[i].option;
            assert(list[k] == shorter[k]);
        }
        assert forall|i: int| 0 <= i < after.len() implies names_option(
            list,
            list.len() as int,
            (#[trigger] after[i]).option,
        ) by {
            if i < before.len() {
                assert(after[i] == before[i]);
                let k = choose|k: int|
                    0 <= k < list.len() - 1 && (#[trigger] list[k]).option == before[i].option;
                assert(list[k].option == after[i].option);
            } else {
                assert(list[list.len() - 1].option == after[i].option);
            }
        }
    }
}

/// What is used of a stored entry is as sound as what a parser reads.
pub proof fn law_fit_cached_is_sound(cached: CachedView)
    ensures
        options::sound_options(fit_cached(cached).options),
        subcommands::sound_subcommands(fit_cached(cached).subcommands),
        values::sound_choices(fit_cached(cached).option_values),
{
    listing::law_fit_entries(cached.options, Naming::OptionSpelling);
    listing::law_fit_entries(cached.subcommands, Naming::SubcommandName);
    lemma_fit_choices(cached.option_values);
}

/// Descriptions that sanitising leaves as they are.
pub open spec fn settled_descriptions(list: Seq<Described>) -> bool {
    forall|i: int|
        0 <= i < list.len() ==> listing::fit_description((#[trigger] list[i]).description)
            == list[i].description
}

proof fn lemma_sound_entries_are_fit(list: Seq<Described>, naming: Naming)
    requires
        options::distinct_names(list),
        settled_descriptions(list),
        forall|i: int| 0 <= i < list.len() ==> listing::well_named(naming, (#[trigger] list[i]).name),
    ensures
        listing::fit_entries(list, naming) == list,
    decreases list.len(),
{
    if list.len() > 0 {
        let shorter = list.drop_last();
        assert forall|i: int, j: int| 0 <= i < j < shorter.len() implies (
        #[trigger] shorter[i]).name != (#[trigger] shorter[j]).name by {
            assert(list[i].name != list[j].name);
        }
        assert forall|i: int| 0 <= i < shorter.len() implies listing::well_named(
            naming,
            (#[trigger] shorter[i]).name,
        ) && listing::fit_description(shorter[i].description) == shorter[i].description by {
            assert(shorter[i] == list[i]);
        }
        lemma_sound_entries_are_fit(shorter, naming);
        let last = list[list.len() - 1];
        assert(!listing::has_name(shorter, last.name)) by {
            assert forall|i: int| 0 <= i < shorter.len() implies (#[trigger] shorter[i]).name
                != last.name by {
                assert(list[i].name != last.name);
            }
        }
        assert(shorter.push(last) =~= list);
    }
}

proof fn lemma_sound_choices_are_fit(list: Seq<Choices>)
    requires
        values::sound_choices(list),
        forall|i: int| 0 <= i < list.len() ==> settled_descriptions((#[trigger] list[i]).values),
    ensures
        fit_choices(list) == list,
    decreases list.len(),
{
    if list.len() > 0 {
        let shorter = list.drop_last();
        assert forall|i: int| 0 <= i < shorter.len() implies settled_descriptions(
            (#[trigger] shorter[i]).values,
        ) && help::option_spelling(shorter[i].option) && values::sound_values(shorter[i].values) by {
            assert(shorter[i] == list[i]);
        }
        assert forall|i: int, j: int| 0 <= i < j < shorter.len() implies (
        #[trigger] shorter[i]).option != (#[trigger] shorter[j]).option by {
            assert(list[i].option != list[j].option);
        }
        lemma_sound_choices_are_fit(shorter);
        let last = list[list.len() - 1];
        lemma_sound_entries_are_fit(last.values, Naming::OptionValue);
        assert(!names_option(list, list.len() - 1, last.option)) by {
            assert forall|i: int| 0 <= i < list.len() - 1 implies (#[trigger] list[i]).option
                != last.option by {
                assert(list[i].option != last.option);
            }
        }
        assert(shorter.push(last) =~= list);
    }
}

/// An entry with sound lists is read back as it was stored, where sanitising
/// leaves its descriptions as they are.
pub proof fn law_sound_entry_reads_back(cached: CachedView)
    requires
        options::sound_options(cached.options),
        subcommands::sound_subcommands(cached.subcommands),
        values::sound_choices(cached.option_values),
        settled_descriptions(cached.options),
        settled_descriptions(cached.subcommands),
        forall|i: int|
            0 <= i < cached.option_values.len() ==> settled_descriptions(
                (#[trigger] cached.option_values[i]).values,
            ),
    ensures
        fit_cached(cached) == cached,
{
    lemma_sound_entries_are_fit(cached.options, Naming::OptionSpelling);
    lemma_sound_entries_are_fit(cached.subcommands, Naming::SubcommandName);
    lemma_sound_choices_are_fit(cached.option_values);
}

fn fit_option_values(list: &Vec<OptionValues>) -> (r: Vec<OptionValues>)
    ensures
        r.deep_view() == fit_choices(list.deep_view()),
{
    let ghost all = list.deep_view();
    let mut out: Vec<OptionValues> = Vec::new();
    let mut i: usize = 0;
    assert(out.deep_view() =~= all.take(0));
    while i < list.len()
        invariant
            i <= list@.len(),
            all == list.deep_view(),
            out.deep_view() == fit_choices(all.take(i as int)),
        decreases list.len() - i,
    {
        let ghost before = out.deep_view();
        let entry = &list[i];
        assert(all.take(i + 1).drop_last() =~= all.take(i as int));
        assert(all.take(i + 1).last() == entry.deep_view());
        let option = chars_of(entry.option.as_str());
        if valid_option_spelling(option.as_slice()) && !option_is_named(list, i, &entry.option) {
            let values = keep_fit(&entry.values, Naming::OptionValue, MAX_VALUE_COUNT);
            if values.len() > 0 {
                let kept = OptionValues { option: entry.option.clone(), values };
                out.push(kept);
                assert(out.deep_view() =~= before.push(kept.deep_view()));
            }
        }
        i += 1;
    }
    assert(all.take(all.len() as int) =~= all);
    out
}

fn option_is_named(list: &Vec<OptionValues>, n: usize, option: &String) -> (b: bool)
    requires
        n < list@.len(),
    ensures
        b == names_option(list.deep_view().take(n + 1), n as int, option@),
{
    let ghost all = list.deep_view().take(n + 1);
    let mut i: usize = 0;
    while i < n
        invariant
            i <= n < list@.len(),
            all == list.deep_view().take(n + 1),
            forall|j: int| 0 <= j < i ==> (#[trigger] all[j]).option != option@,
        decreases n - i,
    {
        assert(all[i as int] == list@[i as int].deep_view());
        if same_text(list[i].option.as_str(), option.as_str()) {
            return true;
        }
        i += 1;
    }
    false
}

/// A copy of a list of options with their values.
pub fn copy_option_values(list: &Vec<OptionValues>) -> (r: Vec<OptionValues>)
    ensures
        r.deep_view() == list.deep_view(),
{
    let mut out: Vec<OptionValues> = Vec::new();
    let ghost all = list.deep_view();
    let mut i: usize = 0;
    assert(out.deep_view() =~= all.take(0));
    while i < list.len()
        invariant
            i <= list@.len(),
            all == list.deep_view(),
            out.deep_view() == all.take(i as int),
        decreases list.len() - i,
    {
        let ghost before = out.deep_view();
        let entry = list[i].clone();
        out.push(entry);
        assert(out.deep_view() =~= before.push(all[i as int]));
        assert(all.take(i + 1) =~= before.push(all[i as int]));
        i += 1;
    }
    assert(all.take(all.len() as int) =~= all);
    out
}

impl Clone for CachedDescription {
    fn clone(&self) -> (r: Self)
        ensures
            r.deep_view() == self.deep_view(),
    {
        CachedDescription {
            fingerprint: self.fingerprint.clone(),
            checked_at_secs: self.checked_at_secs,
            description: match &self.description {
                Some(d) => Some(d.clone()),
                None => None,
            },
            options: copies_of(&self.options),
            subcommands: copies_of(&self.subcommands),
            option_values: copy_option_values(&self.option_values),
        }
    }
}

/// A stored entry with what is fit to be used.
fn keep_fit_cached(cached: &CachedDescription) -> (r: CachedDescription)
    ensures
        r.deep_view() == fit_cached(cached.deep_view()),
{
    CachedDescription {
        fingerprint: cached.fingerprint.clone(),
        checked_at_secs: cached.checked_at_secs,
        description: match &cached.description {
            Some(d) => Some(d.clone()),
            None => None,
        },
        options: keep_fit(&cached.options, Naming::OptionSpelling, MAX_OPTION_COUNT),
        subcommands: keep_fit(&cached.subcommands, Naming::SubcommandName, MAX_SUBCOMMAND_COUNT),
        option_values: fit_option_values(&cached.option_values),
    }
}

// ---------------------------------------------------------------------------
// The cache
// ---------------------------------------------------------------------------

/// The cache: entries by the names of commands, in the order of the names.
#[derive(Debug)]
pub struct DescriptionCache {
    pub version: u32,
    pub entries: Vec<(String, CachedDescription)>,
}

/// An entry of the cache with its name.
pub struct NamedEntry {
    pub name: Seq<char>,
    pub cached: CachedView,
}

pub open spec fn named(entries: Seq<(String, CachedDescription)>) -> Seq<NamedEntry> {
    entries.map_values(
        |e: (String, CachedDescription)| NamedEntry { name: e.0@, cached: e.1.deep_view() },
    )
}

/// What a cache says.
pub struct CacheView {
    pub version: u32,
    pub entries: Seq<NamedEntry>,
}

impl View for DescriptionCache {
    type V = CacheView;

    open spec fn view(&self) -> CacheView {
        CacheView { version: self.version, entries: named(self.entries@) }
    }
}

/// Names in strict order.
pub open spec fn names_in_order(entries: Seq<NamedEntry>) -> bool {
    forall|i: int, j: int|
        0 <= i < j < entries.len() ==> order::text_le(
            (#[trigger] entries[i]).name,
            (#[trigger] entries[j]).name,
        ) && entries[i].name != entries[j].name
}

/// Where a name stands, or would stand, among names in order.
pub open spec fn place_of(entries: Seq<NamedEntry>, name: Seq<char>) -> nat
    decreases entries.len(),
{
    if entries.len() > 0 && entries[0].name != name && order::text_le(entries[0].name, name) {
        1 + place_of(entries.drop_first(), name)
    } else {
        0
    }
}

/// The entry of a name.
pub open spec fn entry_of(entries: Seq<NamedEntry>, name: Seq<char>) -> Option<CachedView> {
    let n = place_of(entries, name) as int;
    if n < entries.len() && entries[n].name == name {
        Some(entries[n].cached)
    } else {
        None
    }
}

/// The entries with one set.
pub open spec fn with_entry(
    entries: Seq<NamedEntry>,
    name: Seq<char>,
    cached: CachedView,
) -> Seq<NamedEntry> {
    let n = place_of(entries, name) as int;
    let entry = NamedEntry { name, cached };
    if n < entries.len() && entries[n].name == name {
        entries.update(n, entry)
    } else {
        entries.insert(n, entry)
    }
}

proof fn lemma_place_of(entries: Seq<NamedEntry>, name: Seq<char>)
    ensures
        0 <= place_of(entries, name) <= entries.len(),
        forall|i: int|
            0 <= i < place_of(entries, name) ==> (#[trigger] entries[i]).name != name && order::text_le(
                entries[i].name,
                name,
            ),
        place_of(entries, name) < entries.len() ==> {
            let e = entries[place_of(entries, name) as int];
            e.name == name || !order::text_le(e.name, name)
        },
    decreases entries.len(),
{
    if entries.len() > 0 && entries[0].name != name && order::text_le(entries[0].name, name) {
        let rest = entries.drop_first();
        lemma_place_of(rest, name);
        assert forall|i: int| 0 <= i < place_of(entries, name) implies (#[trigger] entries[i]).name
            != name && order::text_le(entries[i].name, name) by {
            if i > 0 {
                assert(entries[i] == rest[i - 1]);
            }
        }
    }
}

proof fn lemma_place_is(entries: Seq<NamedEntry>, name: Seq<char>, n: nat)
    requires
        n <= entries.len(),
        forall|i: int|
            0 <= i < n ==> (#[trigger] entries[i]).name != name && order::text_le(entries[i].name, name),
        n < entries.len() ==> entries[n as int].name == name || !order::text_le(
            entries[n as int].name,
            name,
        ),
    ensures
        place_of(entries, name) == n,
{
    lemma_place_of(entries, name);
    let m = place_of(entries, name);
    if m < n {
        assert(entries[m as int].name != name);
    } else if n < m {
        assert(entries[n as int].name != name);
    }
}

/// Setting an entry keeps the names in order, the other entries as they are,
/// and is what the name then has.
pub proof fn law_with_entry(
    entries: Seq<NamedEntry>,
    name: Seq<char>,
    cached: CachedView,
    other: Seq<char>,
)
    requires
        names_in_order(entries),
    ensures
        names_in_order(with_entry(entries, name, cached)),
        entry_of(with_entry(entries, name, cached), other) == if other == name {
            Some(cached)
        } else {
            entry_of(entries, other)
        },
{
    let n = place_of(entries, name) as int;
    let after = with_entry(entries, name, cached);
    let entry = NamedEntry { name, cached };
    let known = n < entries.len() && entries[n].name == name;
    lemma_place_of(entries, name);
    lemma_place_of(entries, other);
    assert forall|i: int, j: int| 0 <= i < j < after.len() implies order::text_le(
        (#[trigger] after[i]).name,
        (#[trigger] after[j]).name,
    ) && after[i].name != after[j].name by {
        if known {
            assert(after[i].name == entries[i].name && after[j].name == entries[j].name);
        } else {
            let a = if i < n { i } else { i - 1 };
            let b = if j < n { j } else { j - 1 };
            if i != n && j != n {
                assert(after[i] == entries[a] && after[j] == entries[b]);
            } else if j == n {
                assert(after[i] == entries[i]);
            } else {
                assert(after[j] == entries[b]);
                crate::order::law_text_order(entries[n].name, name, name);
                if n < b {
                    assert(order::text_le(entries[n].name, entries[b].name));
                    crate::order::law_text_order(name, entries[n].name, entries[b].name);
                    if entries[b].name == name {
                        assert(order::text_le(entries[n].name, name));
                    }
                }
            }
        }
    }
    let m = place_of(entries, other) as int;
    if known {
        assert forall|i: int| 0 <= i < m implies (#[trigger] after[i]).name != other && order::text_le(
            after[i].name,
            other,
        ) by {
            assert(after[i].name == entries[i].name);
        }
        if m < after.len() {
            assert(after[m].name == entries[m].name);
        }
        lemma_place_is(after, other, m as nat);
        if other == name {
            assert(after[n] == entry);
        } else if m == n {
            assert(after[n].name == name);
        }
    } else if other == name {
        assert forall|i: int| 0 <= i < n implies (#[trigger] after[i]).name != other && order::text_le(
            after[i].name,
            other,
        ) by {
            assert(after[i] == entries[i]);
        }
        assert(after[n] == entry);
        lemma_place_is(after, other, n as nat);
    } else {
        crate::order::law_text_order(name, other, name);
        if order::text_le(name, other) {
            // The new name stands before the other one.
            assert(n <= m) by {
                if m < n {
                    assert(order::text_le(entries[m].name, name));
                    crate::order::law_text_order(entries[m].name, name, other);
                    assert(entries[m].name == other);
                    crate::order::law_text_order(name, other, name);
                }
            }
            assert forall|i: int| 0 <= i < m + 1 implies (#[trigger] after[i]).name != other
                && order::text_le(after[i].name, other) by {
                if i < n {
                    assert(after[i] == entries[i]);
                } else if i > n {
                    assert(after[i] == entries[i - 1]);
                } else {
                    assert(after[i] == entry);
                }
            }
            if m + 1 < after.len() {
                assert(after[m + 1] == entries[m]);
            }
            lemma_place_is(after, other, (m + 1) as nat);
        } else {
            // The new name stands behind the other one.
            assert(m <= n) by {
                if n < m {
                    assert(order::text_le(entries[n].name, other));
                    crate::order::law_text_order(entries[n].name, other, name);
                }
            }
            assert forall|i: int| 0 <= i < m implies (#[trigger] after[i]).name != other && order::text_le(
                after[i].name,
                other,
            ) by {
                assert(after[i] == entries[i]);
            }
            if m < n {
                assert(after[m] == entries[m]);
            } else {
                assert(after[m] == entry);
                if m < entries.len() {
                    assert(entries[m].name != other) by {
                        if entries[m].name == other {
                            crate::order::law_text_order(entries[n].name, other, name);
                        }
                    }
                }
            }
            lemma_place_is(after, other, m as nat);
        }
    }
}

/// The position of the entry that was checked first; of several the one whose
/// name comes first.
pub open spec fn oldest(entries: Seq<NamedEntry>) -> int
    decreases entries.len(),
{
    if entries.len() <= 1 {
        0
    } else {
        let before = oldest(entries.drop_last());
        if entries.last().cached.checked_at < entries[before].cached.checked_at {
            entries.len() - 1
        } else {
            before
        }
    }
}

/// The oldest entry was checked no later than any other, and before those with
/// smaller names.
pub proof fn law_oldest(entries: Seq<NamedEntry>)
    requires
        entries.len() > 0,
    ensures
        0 <= oldest(entries) < entries.len(),
        forall|i: int|
            0 <= i < entries.len() ==> entries[oldest(entries)].cached.checked_at <= (
            #[trigger] entries[i]).cached.checked_at,
        forall|i: int|
            0 <= i < oldest(entries) ==> entries[oldest(entries)].cached.checked_at < (
            #[trigger] entries[i]).cached.checked_at,
    decreases entries.len(),
{
    if entries.len() > 1 {
        let rest = entries.drop_last();
        law_oldest(rest);
        assert forall|i: int| 0 <= i < entries.len() implies entries[oldest(
            entries,
        )].cached.checked_at <= (#[trigger] entries[i]).cached.checked_at by {
            if i < rest.len() {
                assert(rest[i] == entries[i]);
            }
        }
        assert forall|i: int| 0 <= i < oldest(entries) implies entries[oldest(
            entries,
        )].cached.checked_at < (#[trigger] entries[i]).cached.checked_at by {
            assert(rest[i] == entries[i]);
        }
    }
}

impl Default for DescriptionCache {
    /// A cache without entries.
    fn default() -> (r: Self)
        ensures
            r@.version == CACHE_VERSION,
            r@.entries == Seq::<NamedEntry>::empty(),
    {
        let r = DescriptionCache { version: CACHE_VERSION, entries: Vec::new() };
        assert(r@.entries =~= Seq::<NamedEntry>::empty());
        r
    }
}

/// A stored cache as it is used: with the entries' fit parts if its format is
/// the current one, empty otherwise.
pub open spec fn usable(cache: CacheView) -> Seq<NamedEntry> {
    if cache.version == CACHE_VERSION {
        cache.entries.map_values(
            |e: NamedEntry| NamedEntry { name: e.name, cached: fit_cached(e.cached) },
        )
    } else {
        Seq::empty()
    }
}

/// Whether a cache of some size has to lose an entry.
pub open spec fn shrinks(size: nat, entries: nat) -> bool {
    size > CACHE_MAX_BYTES && entries > 0
}

impl DescriptionCache {
    fn place(&self, name: &str) -> (n: usize)
        ensures
            n == place_of(self@.entries, name@),
            n <= self.entries@.len(),
    {
        let ghost all = self@.entries;
        let mut i: usize = 0;
        while i < self.entries.len() && !same_text(self.entries[i].0.as_str(), name)
            && in_text_order(self.entries[i].0.as_str(), name)
            invariant
                i <= self.entries@.len(),
                all == self@.entries,
                forall|j: int|
                    0 <= j < i ==> (#[trigger] all[j]).name != name@ && order::text_le(
                        all[j].name,
                        name@,
                    ),
            decreases self.entries.len() - i,
        {
            assert(all[i as int].name == self.entries@[i as int].0@);
            i += 1;
        }
        proof {
            if i < all.len() {
                assert(all[i as int].name == self.entries@[i as int].0@);
            }
            lemma_place_is(all, name@, i as nat);
        }
        i
    }

    /// The entry of a name.
    pub fn get(&self, name: &str) -> (r: Option<&CachedDescription>)
        ensures
            match r {
                Some(c) => entry_of(self@.entries, name@) == Some(c.deep_view()),
                None => entry_of(self@.entries, name@) is None,
            },
    {
        let n: usize = self.place(name);
        if n < self.entries.len() && same_text(self.entries[n].0.as_str(), name) {
            Some(&self.entries[n].1)
        } else {
            None
        }
    }

    /// Sets the entry of a name.
    pub fn insert(&mut self, name: String, cached: CachedDescription)
        ensures
            final(self)@.version == old(self)@.version,
            final(self)@.entries == with_entry(old(self)@.entries, name@, cached.deep_view()),
    {
        let ghost before = self@.entries;
        let n: usize = self.place(name.as_str());
        let known = n < self.entries.len() && same_text(
            self.entries[n].0.as_str(),
            name.as_str(),
        );
        if known {
            self.entries.set(n, (name, cached));
        } else {
            self.entries.insert(n, (name, cached));
        }
        assert(self@.entries =~= with_entry(before, name@, cached.deep_view()));
    }

    /// A stored cache as it is used.
    pub fn checked(self) -> (r: Self)
        ensures
            r@.version == CACHE_VERSION,
            r@.entries == usable(self@),
    {
        if self.version != CACHE_VERSION {
            return DescriptionCache::default();
        }
        let ghost all = usable(self@);
        let mut entries: Vec<(String, CachedDescription)> = Vec::new();
        let mut i: usize = 0;
        assert(named(entries@) =~= all.take(0));
        while i < self.entries.len()
            invariant
                i <= self.entries@.len(),
                self.version == CACHE_VERSION,
                all == usable(self@),
                named(entries@) == all.take(i as int),
            decreases self.entries.len() - i,
        {
            let ghost before = named(entries@);
            let cached = keep_fit_cached(&self.entries[i].1);
            let name = self.entries[i].0.clone();
            entries.push((name, cached));
            assert(named(entries@) =~= before.push(all[i as int]));
            assert(all.take(i + 1) =~= before.push(all[i as int]));
            i += 1;
        }
        assert(all.take(all.len() as int) =~= all);
        DescriptionCache { version: CACHE_VERSION, entries }
    }

    fn oldest_entry(&self) -> (n: usize)
        requires
            self.entries@.len() > 0,
        ensures
            n == oldest(self@.entries),
            n < self.entries@.len(),
    {
        let ghost all = self@.entries;
        let mut n: usize = 0;
        let mut i: usize = 1;
        while i < self.entries.len()
            invariant
                1 <= i <= self.entries@.len(),
                n < i,
                all == self@.entries,
                n == oldest(all.take(i as int)),
            decreases self.entries.len() - i,
        {
            assert(all.take(i + 1).drop_last() =~= all.take(i as int));
            assert(all.take(i + 1).last() == all[i as int]);
            if self.entries[i].1.checked_at_secs < self.entries[n].1.checked_at_secs {
                n = i;
            }
            i += 1;
        }
        assert(all.take(all.len() as int) =~= all);
        n
    }

    /// Makes room in a cache whose file would take `size` bytes: drops the
    /// oldest entry and says so, or leaves the cache as it is when it fits or
    /// has no entries.
    pub fn shrink(&mut self, size: u64) -> (dropped: bool)
        ensures
            final(self)@.version == old(self)@.version,
            dropped == shrinks(size as nat, old(self)@.entries.len()),
            final(self)@.entries == if dropped {
                old(self)@.entries.remove(oldest(old(self)@.entries))
            } else {
                old(self)@.entries
            },
    {
        if size <= CACHE_MAX_BYTES || self.entries.len() == 0 {
            return false;
        }
        let ghost before = self@.entries;
        let n: usize = self.oldest_entry();
        self.entries.remove(n);
        assert(self@.entries =~= before.remove(n as int));
        true
    }
}

} // verus!

//! Lists of names with descriptions: what starts with a prefix, and what of a
//! stored list is fit to be offered.
use vstd::prelude::*;
use crate::commands::help;
use crate::commands::options;
use crate::order;
use crate::text;
use crate::commands::help::{
    sanitize_description, valid_option_spelling, valid_subcommand_name, valid_value, Described,
};
use crate::commands::options::OptionMatch;
use crate::commands::subcommands::SubcommandMatch;
use crate::commands::values::ValueMatch;
use crate::text::{begins_with, chars_of, same_text, text_of};

verus! {

/// A name with a description.
pub trait Labelled: DeepView<V = Described> + Sized {
    fn label(&self) -> (r: &str)
        ensures
            r@ == self.deep_view().name,
    ;

    fn note(&self) -> (r: &str)
        ensures
            r@ == self.deep_view().description,
    ;

    fn described(name: String, description: String) -> (r: Self)
        ensures
            r.deep_view() == (Described { name: name@, description: description@ }),
    ;
}

impl Labelled for OptionMatch {
    fn label(&self) -> (r: &str) {
        self.spelling.as_str()
    }

    fn note(&self) -> (r: &str) {
        self.description.as_str()
    }

    fn described(name: String, description: String) -> (r: Self) {
        OptionMatch { spelling: name, description }
    }
}

impl Labelled for SubcommandMatch {
    fn label(&self) -> (r: &str) {
        self.name.as_str()
    }

    fn note(&self) -> (r: &str) {
        self.description.as_str()
    }

    fn described(name: String, description: String) -> (r: Self) {
        SubcommandMatch { name, description }
    }
}

impl Labelled for ValueMatch {
    fn label(&self) -> (r: &str) {
        self.value.as_str()
    }

    fn note(&self) -> (r: &str) {
        self.description.as_str()
    }

    fn described(name: String, description: String) -> (r: Self) {
        ValueMatch { value: name, description }
    }
}

/// A copy of an entry.
pub fn copy_of<T: Labelled>(entry: &T) -> (r: T)
    ensures
        r.deep_view() == entry.deep_view(),
{
    T::described(entry.label().to_string(), entry.note().to_string())
}

/// A copy of a list.
pub fn copies_of<T: Labelled>(list: &Vec<T>) -> (r: Vec<T>)
    ensures
        r.deep_view() == list.deep_view(),
{
    let mut out: Vec<T> = Vec::new();
    let ghost all = list.deep_view();
    let mut i: usize = 0;
    assert(out.deep_view() =~= all.take(0));
    while i < list.len()
        invariant
            i <= list@.len(),
            all == list.deep_view(),
            out.deep_view() == all.take(i as int),
        decreases list.len() - i,
    {
        let ghost before = out.deep_view();
        let entry = copy_of(&list[i]);
        out.push(entry);
        assert(out.deep_view() =~= before.push(all[i as int]));
        assert(all.take(i + 1) =~= before.push(all[i as int]));
        i += 1;
    }
    assert(all.take(all.len() as int) =~= all);
    out
}

// ---------------------------------------------------------------------------
// What starts with a prefix
// ---------------------------------------------------------------------------

pub open spec fn prefixed_by(prefix: Seq<char>) -> spec_fn(Described) -> bool {
    |entry: Described| text::starts_with(entry.name, prefix)
}

/// The first entries of a list, `limit` at most, whose names start with a
/// prefix.
pub open spec fn prefixed(list: Seq<Described>, prefix: Seq<char>, limit: nat) -> Seq<Described> {
    order::at_most(list.filter(prefixed_by(prefix)), limit)
}

/// The entries with a prefix are in the list, start with it, and are no more
/// than `limit`.
pub proof fn law_prefixed(list: Seq<Described>, prefix: Seq<char>, limit: nat)
    ensures
        prefixed(list, prefix, limit).len() <= limit,
        forall|i: int|
            0 <= i < prefixed(list, prefix, limit).len() ==> list.contains(
                #[trigger] prefixed(list, prefix, limit)[i],
            ) && text::starts_with(prefixed(list, prefix, limit)[i].name, prefix),
{
    let keep = prefixed_by(prefix);
    let all = list.filter(keep);
    let found = prefixed(list, prefix, limit);
    assert forall|i: int| 0 <= i < found.len() implies list.contains(#[trigger] found[i])
        && text::starts_with(found[i].name, prefix) by {
        assert(found[i] == all[i]);
        list.lemma_filter_pred(keep, i);
        list.lemma_filter_contains_rev(keep, all[i]);
    }
}

proof fn lemma_filter_grows(list: Seq<Described>, keep: spec_fn(Described) -> bool, n: int)
    requires
        0 <= n <= list.len(),
    ensures
        list.take(n).filter(keep).len() <= list.filter(keep).len(),
        list.filter(keep).take(list.take(n).filter(keep).len() as int) == list.take(n).filter(keep),
    decreases list.len() - n,
{
    if n < list.len() {
        lemma_filter_grows(list, keep, n + 1);
        let shorter = list.take(n);
        assert(list.take(n + 1) =~= shorter.push(list[n]));
        shorter.lemma_filter_push(list[n], keep);
        let m = shorter.filter(keep).len() as int;
        let longer = list.take(n + 1).filter(keep);
        assert(list.filter(keep).take(m) =~= longer.take(m));
        assert(longer.take(m) =~= shorter.filter(keep));
    } else {
        assert(list.take(n) =~= list);
        assert(list.filter(keep).take(list.filter(keep).len() as int) =~= list.filter(keep));
    }
}

/// The first entries of a list, `limit` at most, whose names start with a
/// prefix.
pub fn first_prefixed<T: Labelled>(list: &Vec<T>, prefix: &str, limit: usize) -> (r: Vec<T>)
    ensures
        r.deep_view() == prefixed(list.deep_view(), prefix@, limit as nat),
{
    let wanted = chars_of(prefix);
    let ghost all = list.deep_view();
    let ghost keep = prefixed_by(prefix@);
    let mut out: Vec<T> = Vec::new();
    let mut i: usize = 0;
    proof {
        reveal(Seq::filter);
        assert(out.deep_view() =~= all.take(0).filter(keep));
    }
    while i < list.len() && out.len() < limit
        invariant
            i <= list@.len(),
            wanted@ == prefix@,
            keep == prefixed_by(prefix@),
            all == list.deep_view(),
            out@.len() <= limit,
            out.deep_view() == all.take(i as int).filter(keep),
        decreases list.len() - i,
    {
        let ghost before = out.deep_view();
        proof {
            assert(all.take(i + 1) =~= all.take(i as int).push(all[i as int]));
            all.take(i as int).lemma_filter_push(all[i as int], keep);
            assert(all[i as int] == list@[i as int].deep_view());
        }
        let name = chars_of(list[i].label());
        if begins_with(name.as_slice(), wanted.as_slice()) {
            let entry = copy_of(&list[i]);
            out.push(entry);
            assert(out.deep_view() =~= before.push(all[i as int]));
        }
        i += 1;
    }
    proof {
        lemma_filter_grows(all, keep, i as int);
        assert(all.take(all.len() as int) =~= all);
        assert(all.filter(keep).take(all.filter(keep).len() as int) =~= all.filter(keep));
    }
    out
}

// ---------------------------------------------------------------------------
// What of a stored list is fit to be offered
// ---------------------------------------------------------------------------

/// What the names of a list have to be.
#[derive(Clone, Copy)]
pub enum Naming {
    OptionSpelling,
    SubcommandName,
    OptionValue,
}

/// Whether a name is what a list wants.
pub open spec fn well_named(naming: Naming, name: Seq<char>) -> bool {
    match naming {
        Naming::OptionSpelling => help::option_spelling(name),
        Naming::SubcommandName => help::subcommand_name(name),
        Naming::OptionValue => help::option_value(name),
    }
}

impl Naming {
    fn admits(self, name: &[char]) -> (b: bool)
        ensures
            b == well_named(self, name@),
    {
        match self {
            Naming::OptionSpelling => valid_option_spelling(name),
            Naming::SubcommandName => valid_subcommand_name(name),
            Naming::OptionValue => valid_value(name),
        }
    }
}

/// Some entry has a name.
pub open spec fn has_name(list: Seq<Described>, name: Seq<char>) -> bool {
    exists|i: int| 0 <= i < list.len() && (#[trigger] list[i]).name == name
}

/// A description fit for display; an unfit one becomes empty.
pub open spec fn fit_description(s: Seq<char>) -> Seq<char> {
    match help::sanitize(s) {
        Some(d) => d,
        None => Seq::empty(),
    }
}

/// The entries of a list that are well named, the first of each name, with
/// descriptions fit for display.
pub open spec fn fit_entries(list: Seq<Described>, naming: Naming) -> Seq<Described>
    decreases list.len(),
{
    if list.len() == 0 {
        list
    } else {
        let before = fit_entries(list.drop_last(), naming);
        let entry = list.last();
        if well_named(naming, entry.name) && !has_name(before, entry.name) {
            before.push(
                Described { name: entry.name, description: fit_description(entry.description) },
            )
        } else {
            before
        }
    }
}

/// What is fit to be offered has distinct names of the right form and
/// descriptions fit for display.
pub proof fn law_fit_entries(list: Seq<Described>, naming: Naming)
    ensures
        options::distinct_names(fit_entries(list, naming)),
        options::clean_descriptions(fit_entries(list, naming)),
        forall|i: int|
            0 <= i < fit_entries(list, naming).len() ==> well_named(
                naming,
                (#[trigger] fit_entries(list, naming)[i]).name,
            ),
    decreases list.len(),
{
    if list.len() > 0 {
        law_fit_entries(list.drop_last(), naming);
        help::law_sanitized_is_clean(list.last().description);
    }
}

proof fn lemma_fit_entries_grow(list: Seq<Described>, naming: Naming, n: int)
    requires
        0 <= n <= list.len(),
    ensures
        fit_entries(list.take(n), naming).len() <= fit_entries(list, naming).len(),
        fit_entries(list, naming).take(fit_entries(list.take(n), naming).len() as int)
            == fit_entries(list.take(n), naming),
    decreases list.len() - n,
{
    if n < list.len() {
        lemma_fit_entries_grow(list, naming, n + 1);
        assert(list.take(n + 1).drop_last() =~= list.take(n));
        let m = fit_entries(list.take(n), naming).len() as int;
        assert(fit_entries(list, naming).take(m) =~= fit_entries(list.take(n + 1), naming).take(m));
        assert(fit_entries(list.take(n + 1), naming).take(m) =~= fit_entries(list.take(n), naming));
    } else {
        assert(list.take(n) =~= list);
        assert(fit_entries(list, naming).take(fit_entries(list, naming).len() as int)
            =~= fit_entries(list, naming));
    }
}

fn is_named<T: Labelled>(list: &Vec<T>, name: &str) -> (b: bool)
    ensures
        b == has_name(list.deep_view(), name@),
{
    let mut i: usize = 0;
    while i < list.len()
        invariant
            i <= list@.len(),
            forall|j: int| 0 <= j < i ==> (#[trigger] list.deep_view()[j]).name != name@,
        decreases list.len() - i,
    {
        assert(list.deep_view()[i as int] == list@[i as int].deep_view());
        if same_text(list[i].label(), name) {
            return true;
        }
        i += 1;
    }
    false
}

/// The entries of a list that are fit to be offered, `limit` at most.
pub fn keep_fit<T: Labelled>(list: &Vec<T>, naming: Naming, limit: usize) -> (r: Vec<T>)
    ensures
        r.deep_view() == order::at_most(fit_entries(list.deep_view(), naming), limit as nat),
{
    let ghost all = list.deep_view();
    let mut out: Vec<T> = Vec::new();
    let mut i: usize = 0;
    assert(out.deep_view() =~= all.take(0));
    while i < list.len() && out.len() < limit
        invariant
            i <= list@.len(),
            all == list.deep_view(),
            out@.len() <= limit,
            out.deep_view() == fit_entries(all.take(i as int), naming),
        decreases list.len() - i,
    {
        let ghost before = out.deep_view();
        let entry = &list[i];
        assert(all.take(i + 1).drop_last() =~= all.take(i as int));
        assert(all.take(i + 1).last() == entry.deep_view());
        let name = chars_of(entry.label());
        if naming.admits(name.as_slice()) && !is_named(&out, entry.label()) {
            let note = chars_of(entry.note());
            let description = match sanitize_description(note.as_slice()) {
                Some(d) => text_of(d.as_slice()),
                None => String::new(),
            };
            assert(description@ =~= fit_description(entry.deep_view().description));
            let kept = T::described(text_of(name.as_slice()), description);
            out.push(kept);
            assert(out.deep_view() =~= before.push(kept.deep_view()));
        }
        i += 1;
    }
    proof {
        lemma_fit_entries_grow(all, naming, i as int);
        assert(all.take(all.len() as int) =~= all);
        let fit = fit_entries(all, naming);
        assert(fit.take(fit.len() as int) =~= fit);
    }
    out
}

} // verus!

//! How the sources of a menu share it.
use vstd::prelude::*;
use crate::engine::completion;
use crate::engine::merge;
use crate::laws::menus;
use crate::laws::plain;
use crate::config::Settings;
use crate::protocol::{CandidateSource, CandidateView};

verus! {

/// No two rows show the same.
pub open spec fn all_different(rows: Seq<CandidateView>) -> bool {
    forall|i: int, j: int|
        0 <= i < j < rows.len() ==> (#[trigger] rows[i]).display != (#[trigger] rows[j]).display
}

proof fn lemma_added_new(rows: Seq<CandidateView>, more: Seq<CandidateView>, cap: nat)
    requires
        all_different(more),
        forall|i: int, j: int|
            0 <= i < rows.len() && 0 <= j < more.len() ==> (#[trigger] rows[i]).display != (
            #[trigger] more[j]).display,
        rows.len() <= cap,
    ensures
        merge::added(rows, more, cap) == rows + plain::first_of(more, (cap - rows.len()) as nat),
    decreases more.len(),
{
    let room = (cap - rows.len()) as nat;
    if more.len() == 0 {
        assert(rows + plain::first_of(more, room) =~= rows);
    } else {
        let rest = more.drop_last();
        let last = more.last();
        assert forall|i: int, j: int| 0 <= i < j < rest.len() implies (#[trigger] rest[i]).display
            != (#[trigger] rest[j]).display by {
            assert(rest[i] == more[i] && rest[j] == more[j]);
        }
        assert forall|i: int, j: int| 0 <= i < rows.len() && 0 <= j < rest.len() implies (
        #[trigger] rows[i]).display != (#[trigger] rest[j]).display by {
            assert(rest[j] == more[j]);
        }
        lemma_added_new(rows, rest, cap);
        let before = rows + plain::first_of(rest, room);
        assert(last == more[more.len() - 1]);
        if rest.len() < room {
            assert(!merge::shows(before, last.display)) by {
                assert forall|i: int| 0 <= i < before.len() implies (#[trigger] before[i]).display
                    != last.display by {
                    if i >= rows.len() {
                        assert(before[i] == more[i - rows.len()]);
                    }
                }
            }
            assert(before.push(last) =~= rows + plain::first_of(more, room));
        } else {
            assert(before =~= rows + plain::first_of(more, room));
        }
    }
}

/// Where a menu has no commands of the past, the paths stand in front: as many as
/// half of the menu holds, and one at least. Where not all of them fit, the first
/// says so.
pub proof fn law_paths_in_front(
    rows: Seq<CandidateView>,
    paths: Seq<CandidateView>,
    limit: nat,
    i: int,
)
    requires
        rows.len() > 0 ==> rows[0].source != CandidateSource::History,
        all_different(paths),
        paths.len() > 0,
        limit > 0,
        0 <= i < plain::smaller(paths.len(), menus::room_for_help(limit)),
    ensures
        ({
            let menu = merge::merged(rows, paths, limit);
            let shown = plain::smaller(paths.len(), menus::room_for_help(limit));
            &&& menu.len() >= shown
            &&& menu[i] == if i == 0 && paths.len() > shown {
                CandidateView {
                    description: paths[0].description + " (more matches)"@,
                    ..paths[0]
                }
            } else {
                paths[i]
            }
        }),
{
    let none = Seq::<CandidateView>::empty();
    let shown = plain::smaller(paths.len(), menus::room_for_help(limit));
    let noted = merge::noted(paths, limit);
    assert(merge::history_count(rows) == 0);
    assert(rows.take(0) =~= none);
    assert(merge::kept_history(rows, paths, limit) =~= none);
    assert(merge::path_slots(paths, limit) == shown);
    assert(all_different(noted)) by {
        assert forall|a: int, b: int| 0 <= a < b < noted.len() implies (#[trigger] noted[a]).display
            != (#[trigger] noted[b]).display by {
            assert(noted[a].display == paths[a].display && noted[b].display == paths[b].display);
        }
    }
    lemma_added_new(none, noted, shown);
    let front = merge::with_paths(rows, paths, limit);
    assert(front == none + plain::first_of(noted, shown));
    let rest = rows.skip(0);
    merge::law_added(front, rest, limit);
    let menu = merge::merged(rows, paths, limit);
    assert(menu.take(front.len() as int)[i] == front[i]);
    assert(front[i] == noted[i]);
}

/// Commands of the past stay in front of the paths, and give up no more than half
/// of the menu to them.
pub proof fn law_past_before_paths(
    rows: Seq<CandidateView>,
    paths: Seq<CandidateView>,
    limit: nat,
    i: int,
)
    requires
        all_different(rows),
        paths.len() > 0,
        limit > 0,
        0 <= i < rows.len(),
        i < limit - limit / 2,
        forall|k: int| 0 <= k <= i ==> (#[trigger] rows[k]).source == CandidateSource::History,
    ensures
        merge::merged(rows, paths, limit).len() > i,
        merge::merged(rows, paths, limit)[i] == rows[i],
{
    merge::law_history_keeps_its_half(rows, paths, limit);
    merge::law_merged_tiers(rows, paths, limit);
    lemma_history_count(rows, i);
    let history = merge::kept_history(rows, paths, limit);
    let menu = merge::merged(rows, paths, limit);
    assert(history[i] == rows[i]);
    assert(menu.take(history.len() as int)[i] == menu[i]);
}

proof fn lemma_history_count(rows: Seq<CandidateView>, i: int)
    requires
        0 <= i < rows.len(),
        forall|k: int| 0 <= k <= i ==> (#[trigger] rows[k]).source == CandidateSource::History,
    ensures
        i < merge::history_count(rows) <= rows.len(),
    decreases rows.len(),
{
    assert(rows[0].source == CandidateSource::History);
    let rest = rows.drop_first();
    lemma_count_bound(rest);
    if i > 0 {
        assert forall|k: int| 0 <= k <= i - 1 implies (#[trigger] rest[k]).source
            == CandidateSource::History by {
            assert(rest[k] == rows[k + 1]);
        }
        lemma_history_count(rest, i - 1);
    }
}

proof fn lemma_count_bound(rows: Seq<CandidateView>)
    ensures
        merge::history_count(rows) <= rows.len(),
    decreases rows.len(),
{
    if rows.len() > 0 {
        lemma_count_bound(rows.drop_first());
    }
}

/// Without paths a menu stays as it is.
pub proof fn law_no_paths_no_change(rows: Seq<CandidateView>, limit: nat)
    ensures
        merge::merged(rows, Seq::empty(), limit) == rows,
{
}

/// A menu holds as many rows as are asked for, and never more than the settings
/// allow.
pub proof fn law_size_of_menu(wanted: usize, settings: Settings)
    ensures
        ({
            let most = settings.completion.max_candidates as nat;
            &&& completion::menu_limit(None, settings) == most
            &&& wanted <= most ==> completion::menu_limit(Some(wanted), settings) == wanted
            &&& wanted > most ==> completion::menu_limit(Some(wanted), settings) == most
        }),
{
}

} // verus!

//! Rows from several sources in one menu: history stays first, paths keep a
//! share of it, and no row is shown twice.
use vstd::prelude::*;
use crate::protocol::{Candidate, CandidateSource, CandidateView, CompletionResponse};
use crate::text::{push_str, same_text};

verus! {

/// Some row shows a text.
pub open spec fn shows(rows: Seq<CandidateView>, display: Seq<char>) -> bool {
    exists|i: int| 0 <= i < rows.len() && (#[trigger] rows[i]).display == display
}

/// No two rows show the same text.
pub open spec fn distinct_displays(rows: Seq<CandidateView>) -> bool {
    forall|i: int, j: int|
        0 <= i < j < rows.len() ==> (#[trigger] rows[i]).display != (#[trigger] rows[j]).display
}

/// A menu with the rows of a list that it does not show yet, as long as it
/// holds fewer than `cap`.
pub open spec fn added(
    rows: Seq<CandidateView>,
    more: Seq<CandidateView>,
    cap: nat,
) -> Seq<CandidateView>
    decreases more.len(),
{
    if more.len() == 0 {
        rows
    } else {
        let before = added(rows, more.drop_last(), cap);
        if before.len() < cap && !shows(before, more.last().display) {
            before.push(more.last())
        } else {
            before
        }
    }
}

/// The number of rows from history at the front of a menu.
pub open spec fn history_count(rows: Seq<CandidateView>) -> nat
    decreases rows.len(),
{
    if rows.len() > 0 && rows[0].source == CandidateSource::History {
        1 + history_count(rows.drop_first())
    } else {
        0
    }
}

pub open spec fn least(a: nat, b: nat) -> nat {
    if a < b {
        a
    } else {
        b
    }
}

/// The rows of a menu that are reserved for a second source with `count` rows:
/// half of it at most.
pub open spec fn reserved(count: nat, limit: nat) -> nat {
    least(count, limit / 2)
}

/// The rows of a menu that a second source may take where they are free: half
/// of it, and one at least.
pub open spec fn share(limit: nat) -> nat {
    if limit / 2 > 1 {
        limit / 2
    } else {
        1
    }
}

/// The number of rows that paths may take.
pub open spec fn path_slots(paths: Seq<CandidateView>, limit: nat) -> nat {
    least(paths.len(), share(limit))
}

/// The paths with a note on the first where not all fit.
pub open spec fn noted(paths: Seq<CandidateView>, limit: nat) -> Seq<CandidateView> {
    if paths.len() > path_slots(paths, limit) {
        paths.update(
            0,
            CandidateView {
                description: paths[0].description + " (more matches)"@,
                ..paths[0]
            },
        )
    } else {
        paths
    }
}

/// The number of rows from history that stay: all that there is room for.
pub open spec fn history_room(
    rows: Seq<CandidateView>,
    paths: Seq<CandidateView>,
    limit: nat,
) -> nat {
    least(history_count(rows), (limit - reserved(paths.len(), limit)) as nat)
}

/// The rows from history that stay.
pub open spec fn kept_history(
    rows: Seq<CandidateView>,
    paths: Seq<CandidateView>,
    limit: nat,
) -> Seq<CandidateView> {
    added(Seq::empty(), rows.take(history_room(rows, paths, limit) as int), limit)
}

/// The rows from history, and the paths behind them.
pub open spec fn with_paths(
    rows: Seq<CandidateView>,
    paths: Seq<CandidateView>,
    limit: nat,
) -> Seq<CandidateView> {
    let history = kept_history(rows, paths, limit);
    added(
        history,
        noted(paths, limit),
        least(history.len() + path_slots(paths, limit), limit),
    )
}

/// A menu with paths in it.
pub open spec fn merged(
    rows: Seq<CandidateView>,
    paths: Seq<CandidateView>,
    limit: nat,
) -> Seq<CandidateView> {
    if paths.len() == 0 || limit == 0 {
        rows
    } else {
        added(with_paths(rows, paths, limit), rows.skip(history_count(rows) as int), limit)
    }
}

/// Adding rows keeps those that are there in front, takes the others from the
/// list, stays within the cap, and repeats no text.
pub proof fn law_added(rows: Seq<CandidateView>, more: Seq<CandidateView>, cap: nat)
    ensures
        rows.len() <= added(rows, more, cap).len(),
        added(rows, more, cap).take(rows.len() as int) == rows,
        added(rows, more, cap).len() <= cap || added(rows, more, cap) == rows,
        added(rows, more, cap).len() <= rows.len() + more.len(),
        distinct_displays(rows) ==> distinct_displays(added(rows, more, cap)),
        forall|i: int|
            rows.len() <= i < added(rows, more, cap).len() ==> more.contains(
                #[trigger] added(rows, more, cap)[i],
            ),
    decreases more.len(),
{
    if more.len() == 0 {
        assert(rows.take(rows.len() as int) =~= rows);
    } else {
        let shorter = more.drop_last();
        law_added(rows, shorter, cap);
        let before = added(rows, shorter, cap);
        let after = added(rows, more, cap);
        assert(after.take(rows.len() as int) =~= before.take(rows.len() as int));
        assert forall|i: int| rows.len() <= i < after.len() implies more.contains(
            #[trigger] after[i],
        ) by {
            if i < before.len() {
                assert(after[i] == before[i]);
                assert(shorter.contains(before[i]));
                let k = choose|k: int| 0 <= k < shorter.len() && shorter[k] == before[i];
                assert(more[k] == after[i]);
            } else {
                assert(more[more.len() - 1] == after[i]);
            }
        }
    }
}

proof fn lemma_history_count(rows: Seq<CandidateView>)
    ensures
        history_count(rows) <= rows.len(),
        forall|i: int|
            0 <= i < history_count(rows) ==> (#[trigger] rows[i]).source
                == CandidateSource::History,
        history_count(rows) < rows.len() ==> rows[history_count(rows) as int].source
            != CandidateSource::History,
    decreases rows.len(),
{
    if rows.len() > 0 && rows[0].source == CandidateSource::History {
        let rest = rows.drop_first();
        lemma_history_count(rest);
        assert forall|i: int| 0 <= i < history_count(rows) implies (#[trigger] rows[i]).source
            == CandidateSource::History by {
            if i > 0 {
                assert(rows[i] == rest[i - 1]);
            }
        }
    }
}

/// A menu with paths in it holds at most `limit` rows and shows no text twice.
/// The rows from history stand in front, the paths behind them, and what else
/// was there comes last: no tier outranks the one before it.
pub proof fn law_merged_tiers(
    rows: Seq<CandidateView>,
    paths: Seq<CandidateView>,
    limit: nat,
)
    requires
        paths.len() > 0,
        limit > 0,
    ensures
        ({
            let history = kept_history(rows, paths, limit);
            let middle = with_paths(rows, paths, limit);
            let all = merged(rows, paths, limit);
            &&& all.len() <= limit
            &&& distinct_displays(all)
            &&& history.len() <= middle.len() <= all.len()
            &&& all.take(history.len() as int) == history
            &&& all.take(middle.len() as int) == middle
            &&& forall|i: int|
                0 <= i < history.len() ==> (#[trigger] all[i]).source == CandidateSource::History
                    && rows.contains(all[i])
            &&& forall|i: int|
                history.len() <= i < middle.len() ==> noted(paths, limit).contains(
                    #[trigger] all[i],
                )
            &&& forall|i: int|
                middle.len() <= i < all.len() ==> rows.skip(history_count(rows) as int).contains(
                    #[trigger] all[i],
                )
        }),
{
    let history = kept_history(rows, paths, limit);
    let middle = with_paths(rows, paths, limit);
    let all = merged(rows, paths, limit);
    let slots = path_slots(paths, limit);
    let old = rows.take(history_room(rows, paths, limit) as int);
    lemma_history_count(rows);
    law_added(Seq::empty(), old, limit);
    law_added(history, noted(paths, limit), least(history.len() + slots, limit));
    law_added(middle, rows.skip(history_count(rows) as int), limit);
    assert(middle.take(history.len() as int) == history);
    assert(all.take(middle.len() as int) == middle);
    assert(all.take(history.len() as int) =~= middle.take(history.len() as int));
    assert forall|i: int| 0 <= i < history.len() implies (#[trigger] all[i]).source
        == CandidateSource::History && rows.contains(all[i]) by {
        assert(all[i] == all.take(history.len() as int)[i]);
        assert(old.contains(history[i]));
        let k = choose|k: int| 0 <= k < old.len() && old[k] == history[i];
        assert(rows[k] == all[i]);
    }
    assert forall|i: int| history.len() <= i < middle.len() implies noted(paths, limit).contains(
        #[trigger] all[i],
    ) by {
        assert(all[i] == all.take(middle.len() as int)[i]);
        assert(noted(paths, limit).contains(middle[i]));
    }
}

/// History gives up what is reserved for paths and no more: half of the menu at
/// most, and nothing of a menu with one row.
pub proof fn law_history_keeps_its_half(
    rows: Seq<CandidateView>,
    paths: Seq<CandidateView>,
    limit: nat,
)
    requires
        distinct_displays(rows),
    ensures
        kept_history(rows, paths, limit) == rows.take(history_room(rows, paths, limit) as int),
        history_room(rows, paths, limit) >= least(
            history_count(rows),
            (limit - limit / 2) as nat,
        ),
        limit == 1 ==> history_room(rows, paths, limit) == least(history_count(rows), 1),
{
    let old = rows.take(history_room(rows, paths, limit) as int);
    lemma_history_count(rows);
    assert(distinct_displays(old)) by {
        assert forall|i: int, j: int| 0 <= i < j < old.len() implies (#[trigger] old[i]).display
            != (#[trigger] old[j]).display by {
            assert(old[i] == rows[i] && old[j] == rows[j]);
        }
    }
    lemma_added_new(Seq::empty(), old, limit);
    assert(Seq::empty() + old.take(old.len() as int) =~= old);
}

/// Paths that show new and distinct texts get what is reserved for them, however
/// much history there is, and their share where it is free.
pub proof fn law_paths_keep_their_share(
    rows: Seq<CandidateView>,
    paths: Seq<CandidateView>,
    limit: nat,
)
    requires
        paths.len() > 0,
        limit > 0,
        distinct_displays(paths),
        forall|i: int| 0 <= i < paths.len() ==> !shows(rows, (#[trigger] paths[i]).display),
    ensures
        ({
            let history = kept_history(rows, paths, limit).len();
            let shown = with_paths(rows, paths, limit).len() - history;
            &&& shown == least(path_slots(paths, limit), (limit - history) as nat)
            &&& shown >= reserved(paths.len(), limit)
        }),
{
    let history = kept_history(rows, paths, limit);
    let slots = path_slots(paths, limit);
    let old = rows.take(history_room(rows, paths, limit) as int);
    let list = noted(paths, limit);
    lemma_history_count(rows);
    law_added(Seq::empty(), old, limit);
    assert(history.len() <= history_room(rows, paths, limit));
    assert forall|i: int| 0 <= i < list.len() implies !shows(
        history,
        (#[trigger] list[i]).display,
    ) by {
        assert(list[i].display == paths[i].display);
        if shows(history, list[i].display) {
            let k = choose|k: int|
                0 <= k < history.len() && (#[trigger] history[k]).display == list[i].display;
            assert(old.contains(history[k]));
            let n = choose|n: int| 0 <= n < old.len() && old[n] == history[k];
            assert(rows[n].display == paths[i].display);
        }
    }
    assert forall|i: int, j: int| 0 <= i < j < list.len() implies (#[trigger] list[i]).display != (
    #[trigger] list[j]).display by {
        assert(list[i].display == paths[i].display && list[j].display == paths[j].display);
    }
    lemma_added_new(history, list, least(history.len() + slots, limit));
}

proof fn lemma_added_new(rows: Seq<CandidateView>, more: Seq<CandidateView>, cap: nat)
    requires
        distinct_displays(more),
        rows.len() <= cap,
        forall|i: int| 0 <= i < more.len() ==> !shows(rows, (#[trigger] more[i]).display),
    ensures
        added(rows, more, cap) == rows + more.take(
            least(more.len(), (cap - rows.len()) as nat) as int,
        ),
    decreases more.len(),
{
    if more.len() == 0 {
        assert(rows + more.take(0) =~= rows);
    } else {
        let shorter = more.drop_last();
        assert forall|i: int| 0 <= i < shorter.len() implies !shows(
            rows,
            (#[trigger] shorter[i]).display,
        ) by {
            assert(shorter[i] == more[i]);
        }
        assert(distinct_displays(shorter)) by {
            assert forall|i: int, j: int| 0 <= i < j < shorter.len() implies (
            #[trigger] shorter[i]).display != (#[trigger] shorter[j]).display by {
                assert(shorter[i] == more[i] && shorter[j] == more[j]);
            }
        }
        lemma_added_new(rows, shorter, cap);
        let room = (cap - rows.len()) as nat;
        let before = added(rows, shorter, cap);
        let last = more[more.len() - 1];
        let n = least(shorter.len(), room) as int;
        if shows(before, last.display) {
            let k = choose|k: int|
                0 <= k < before.len() && (#[trigger] before[k]).display == last.display;
            if k < rows.len() {
                assert(rows[k] == before[k]);
                assert(shows(rows, last.display));
            } else {
                assert(before[k] == more[k - rows.len()]);
            }
            assert(false);
        }
        if more.len() <= room {
            assert(before =~= rows + shorter);
            assert(before.push(last) =~= rows + more.take(more.len() as int));
        } else {
            assert(shorter.take(n) =~= more.take(n));
        }
    }
}

/// Whether a row of a menu shows a text.
pub fn is_shown(rows: &Vec<Candidate>, display: &str) -> (b: bool)
    ensures
        b == shows(rows.deep_view(), display@),
{
    let mut i: usize = 0;
    while i < rows.len()
        invariant
            i <= rows@.len(),
            forall|j: int|
                0 <= j < i ==> (#[trigger] rows.deep_view()[j]).display != display@,
        decreases rows.len() - i,
    {
        assert(rows.deep_view()[i as int] == rows@[i as int].deep_view());
        if same_text(rows[i].display.as_str(), display) {
            return true;
        }
        i += 1;
    }
    false
}

/// Adds the rows from `from` to `to` of a list that the menu does not show yet.
pub fn add_rows(rows: &mut Vec<Candidate>, more: &Vec<Candidate>, from: usize, to: usize, cap: usize)
    requires
        from <= to <= more@.len(),
    ensures
        final(rows).deep_view() == added(
            old(rows).deep_view(),
            more.deep_view().subrange(from as int, to as int),
            cap as nat,
        ),
{
    let ghost list = more.deep_view().subrange(from as int, to as int);
    let ghost start = rows.deep_view();
    let mut i: usize = from;
    assert(list.take(0).len() == 0);
    while i < to
        invariant
            from <= i <= to <= more@.len(),
            list == more.deep_view().subrange(from as int, to as int),
            rows.deep_view() == added(start, list.take(i - from), cap as nat),
        decreases to - i,
    {
        let ghost before = rows.deep_view();
        let ghost n = i - from;
        assert(list.take(n + 1).drop_last() =~= list.take(n));
        assert(list.take(n + 1).last() == more@[i as int].deep_view());
        if rows.len() < cap && !is_shown(rows, more[i].display.as_str()) {
            let row = more[i].clone();
            rows.push(row);
            assert(rows.deep_view() =~= before.push(row.deep_view()));
        }
        i += 1;
    }
    assert(list.take(to - from) =~= list);
}

fn count_history(rows: &Vec<Candidate>) -> (n: usize)
    ensures
        n == history_count(rows.deep_view()),
        n <= rows@.len(),
{
    let ghost all = rows.deep_view();
    let mut i: usize = 0;
    assert(all.skip(0) =~= all);
    while i < rows.len() && rows[i].source == CandidateSource::History
        invariant
            i <= rows@.len(),
            all == rows.deep_view(),
            history_count(all) == i + history_count(all.skip(i as int)),
        decreases rows.len() - i,
    {
        assert(all.skip(i as int)[0] == rows@[i as int].deep_view());
        assert(all.skip(i as int).drop_first() =~= all.skip(i + 1));
        i += 1;
    }
    proof {
        if i < rows@.len() {
            assert(all.skip(i as int)[0] == rows@[i as int].deep_view());
        }
    }
    i
}

/// Adds paths to a menu: behind its rows from history, before the others. Half of
/// it is reserved for them.
pub fn merge_filesystem_candidates(
    response: &mut CompletionResponse,
    paths: Vec<Candidate>,
    limit: usize,
)
    ensures
        final(response)@.candidates == merged(
            old(response)@.candidates,
            paths.deep_view(),
            limit as nat,
        ),
        final(response)@.replace_start == old(response)@.replace_start,
        final(response)@.replace_end == old(response)@.replace_end,
        final(response)@.enrichment_pending == old(response)@.enrichment_pending,
{
    if paths.len() == 0 || limit == 0 {
        return;
    }
    let ghost before = response.candidates.deep_view();
    let ghost list = paths.deep_view();
    let count: usize = paths.len();
    let history: usize = count_history(&response.candidates);
    let half: usize = limit / 2;
    let half: usize = if half > 1 {
        half
    } else {
        1
    };
    let slots: usize = if count < half {
        count
    } else {
        half
    };
    let mut paths = paths;
    if count > slots {
        let mut first = paths[0].clone();
        push_str(&mut first.description, " (more matches)");
        assert(paths.deep_view()[0] == paths@[0].deep_view());
        paths.set(0, first);
        assert(paths.deep_view() =~= noted(list, limit as nat));
    }
    let room: usize = if count < limit / 2 {
        limit - count
    } else {
        limit - limit / 2
    };
    let keep: usize = if history < room {
        history
    } else {
        room
    };
    let mut rows: Vec<Candidate> = Vec::new();
    assert(rows.deep_view() =~= Seq::<CandidateView>::empty());
    assert(before.subrange(0, keep as int) =~= before.take(keep as int));
    add_rows(&mut rows, &response.candidates, 0, keep, limit);
    proof {
        law_added(Seq::empty(), before.take(keep as int), limit as nat);
        assert(rows.deep_view() == kept_history(before, list, limit as nat));
    }
    let cap: usize = if limit - rows.len() < slots {
        limit
    } else {
        rows.len() + slots
    };
    assert(paths.deep_view().subrange(0, count as int) =~= noted(list, limit as nat));
    add_rows(&mut rows, &paths, 0, count, cap);
    let total: usize = response.candidates.len();
    assert(before.subrange(history as int, total as int) =~= before.skip(history as int));
    add_rows(&mut rows, &response.candidates, history, total, limit);
    response.candidates = rows;
}

} // verus!

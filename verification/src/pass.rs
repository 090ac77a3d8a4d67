//! What an indexing pass does to the store, as a sequence of states, and
//! what therefore holds of the store once a pass has completed.
//!
//! A pass clears every validity flag, then confirms or stores one entry per
//! file that it found, then deletes what was not confirmed and rebuilds the
//! position table.

use crate::db::{before, has_id, is_time_order, row_with_id, EntryView, IndexState, InsertionView};
use vstd::prelude::*;
use vstd::seq_lib::seq_to_set_is_finite;
use vstd::set_lib::lemma_subset_equality;

verus! {

/// What the populate phase does for one file.
pub enum PopulateStep {
    /// The file is unchanged: its entry is confirmed if the fingerprint
    /// still matches.
    Confirm { path: Seq<char>, finfo: Seq<char> },
    /// The file is new or changed: its entry is stored.
    Store { entry: InsertionView },
}

impl PopulateStep {
    /// The path of the file that the step is about.
    pub open spec fn path(self) -> Seq<char> {
        match self {
            PopulateStep::Confirm { path, .. } => path,
            PopulateStep::Store { entry } => entry.path,
        }
    }
}

/// The state after one populate step.
pub open spec fn after_step(s: IndexState, step: PopulateStep) -> IndexState {
    match step {
        PopulateStep::Confirm { path, finfo } => s.marked(path, finfo),
        PopulateStep::Store { entry } => s.upserted(entry),
    }
}

/// The state after the populate steps `steps`, taken in order.
pub open spec fn after_steps(s: IndexState, steps: Seq<PopulateStep>) -> IndexState
    decreases steps.len(),
{
    if steps.len() == 0 {
        s
    } else {
        after_step(after_steps(s, steps.drop_last()), steps.last())
    }
}

/// Whether no step of `steps` is about `path`.
pub open spec fn untouched(steps: Seq<PopulateStep>, path: Seq<char>) -> bool {
    forall|i: int| 0 <= i < steps.len() ==> (#[trigger] steps[i]).path() != path
}

/// Whether `after` is what a pass leaves that found `s` and took `steps`:
/// flags cleared, the steps taken, the unconfirmed entries deleted, and the
/// position table rebuilt over what remains.
pub open spec fn completed_pass(s: IndexState, steps: Seq<PopulateStep>, after: IndexState) -> bool {
    &&& after.has_media
    &&& after.rows == after_steps(s.invalidated(), steps).cleaned().rows
    &&& after.order is Some
    &&& is_time_order(after.rows, after.order->0)
}

/// Creating the entry table a second time changes nothing, and neither
/// does clearing the flags or deleting the unconfirmed entries a second
/// time.
pub proof fn lemma_lifecycle_idempotent(s: IndexState)
    ensures
        s.created().created() == s.created(),
        s.invalidated().invalidated().rows =~= s.invalidated().rows,
        s.cleaned().cleaned().rows == s.cleaned().rows,
{
    lemma_cleaned_rows_valid(s);
    lemma_filter_all(s.cleaned().rows, |r: EntryView| r.is_valid);
}

/// A sequence whose every element meets `keep` is its own filter.
pub proof fn lemma_filter_all<A>(s: Seq<A>, keep: spec_fn(A) -> bool)
    requires
        forall|i: int| 0 <= i < s.len() ==> keep(#[trigger] s[i]),
    ensures
        s.filter(keep) == s,
    decreases s.len(),
{
    reveal(Seq::filter);
    if s.len() > 0 {
        lemma_filter_all(s.drop_last(), keep);
        assert(s.drop_last().push(s.last()) =~= s);
    }
}

/// Every entry that survives the cleanup is valid.
pub proof fn lemma_cleaned_rows_valid(s: IndexState)
    ensures
        forall|i: int| 0 <= i < s.cleaned().rows.len() ==> (#[trigger] s.cleaned().rows[i]).is_valid,
        s.cleaned().valid_count() == s.cleaned().rows.len(),
{
    let keep = |r: EntryView| r.is_valid;
    let kept = s.rows.filter(keep);
    assert forall|i: int| 0 <= i < kept.len() implies keep(#[trigger] kept[i]) by {
        s.rows.lemma_filter_pred(keep, i);
    }
    lemma_filter_all(kept, keep);
}

/// Every entry has a position: where the position table lists the entries
/// in time order, each stored entry stands at some position, and no two
/// positions hold the same entry.
pub proof fn lemma_every_entry_has_a_position(s: IndexState)
    requires
        s.wf(),
        s.has_media,
        s.order is Some,
        is_time_order(s.rows, s.order->0),
    ensures
        s.order->0.no_duplicates(),
        forall|i: int| 0 <= i < s.rows.len() ==> s.has_position(#[trigger] s.rows[i]),
{
    let rows = s.rows;
    let order = s.order->0;
    let ids = Seq::new(rows.len(), |i: int| rows[i].id);
    assert forall|p: int| 0 <= p < order.len() implies has_id(rows, #[trigger] order[p])
        && rows[row_with_id(rows, order[p])].id == order[p] by {
        assert(has_id(rows, order[p]));
    }
    assert forall|p: int, q: int| 0 <= p < q < order.len() implies order[p] != order[q] by {
        assert(before(
            rows[row_with_id(rows, order[p])],
            rows[row_with_id(rows, order[q])],
        ));
    }
    assert(ids.no_duplicates()) by {
        assert forall|i: int, j: int| 0 <= i < j < ids.len() implies ids[i] != ids[j] by {
            assert(rows[i].id < rows[j].id);
        }
    }
    order.unique_seq_to_set();
    ids.unique_seq_to_set();
    seq_to_set_is_finite(order);
    seq_to_set_is_finite(ids);
    assert(order.to_set().subset_of(ids.to_set())) by {
        assert forall|x: u64| order.to_set().contains(x) implies ids.to_set().contains(x) by {
            let p = choose|p: int| 0 <= p < order.len() && order[p] == x;
            let i = row_with_id(rows, order[p]);
            assert(ids[i] == x);
        }
    }
    lemma_subset_equality(order.to_set(), ids.to_set());
    assert forall|i: int| 0 <= i < rows.len() implies s.has_position(#[trigger] rows[i]) by {
        assert(ids[i] == rows[i].id);
        assert(ids.to_set().contains(rows[i].id));
        assert(order.to_set().contains(rows[i].id));
        let p = choose|p: int| 0 <= p < order.len() && order[p] == rows[i].id;
        let c = row_with_id(rows, order[p]);
        if c < i {
            assert(rows[c].id < rows[i].id);
        }
        if i < c {
            assert(rows[i].id < rows[c].id);
        }
        assert(s.entry_at(p) == Some(rows[i]));
    }
}

/// Two position tables that list the same entries in time order agree on
/// their first `k` positions.
proof fn lemma_orders_agree(s: IndexState, a: Seq<u64>, b: Seq<u64>, k: int)
    requires
        s.wf(),
        s.has_media,
        is_time_order(s.rows, a),
        is_time_order(s.rows, b),
        0 <= k <= s.rows.len(),
    ensures
        forall|j: int| 0 <= j < k ==> a[j] == b[j],
    decreases k,
{
    if k > 0 {
        lemma_orders_agree(s, a, b, k - 1);
        let rows = s.rows;
        let sa = IndexState { order: Some(a), ..s };
        let sb = IndexState { order: Some(b), ..s };
        lemma_every_entry_has_a_position(sa);
        lemma_every_entry_has_a_position(sb);
        let x = a[k - 1];
        let y = b[k - 1];
        assert(has_id(rows, x));
        assert(has_id(rows, y));
        let ix = row_with_id(rows, x);
        let iy = row_with_id(rows, y);
        // where `x` stands in `b`, and `y` in `a`
        assert(sb.has_position(rows[ix]));
        let q = choose|q: int| 0 <= q < b.len() && #[trigger] sb.entry_at(q) == Some(rows[ix]);
        assert(has_id(rows, b[q]));
        assert(b[q] == x);
        assert(sa.has_position(rows[iy]));
        let p = choose|p: int| 0 <= p < a.len() && #[trigger] sa.entry_at(p) == Some(rows[iy]);
        assert(has_id(rows, a[p]));
        assert(a[p] == y);
        if q < k - 1 {
            assert(a[q] == b[q]);
            assert(false);
        }
        if p < k - 1 {
            assert(a[p] == b[p]);
            assert(false);
        }
        if q > k - 1 && p > k - 1 {
            assert(before(rows[row_with_id(rows, b[k - 1])], rows[row_with_id(rows, b[q])]));
            assert(before(rows[row_with_id(rows, a[k - 1])], rows[row_with_id(rows, a[p])]));
            assert(false);
        }
    }
}

/// The position table is determined by the entries: two tables that list
/// the same entries in time order are equal.
pub proof fn lemma_time_order_unique(s: IndexState, a: Seq<u64>, b: Seq<u64>)
    requires
        s.wf(),
        s.has_media,
        is_time_order(s.rows, a),
        is_time_order(s.rows, b),
    ensures
        a == b,
{
    lemma_orders_agree(s, a, b, s.rows.len() as int);
    assert(a =~= b);
}

/// Positions are dense and ordered: once a pass has completed, the position
/// table has one position for every valid entry, every position below the
/// count holds an entry, and along the positions the capture times never
/// decrease, entries of the same time standing in the order of their
/// insertion.
pub proof fn lemma_positions_ordered(s: IndexState, steps: Seq<PopulateStep>, after: IndexState)
    requires
        completed_pass(s, steps, after),
    ensures
        after.order->0.len() == after.valid_count(),
        forall|p: int| 0 <= p < after.order->0.len() ==> after.entry_at(p) is Some,
        forall|p: int, q: int|
            0 <= p <= q < after.order->0.len() ==> (#[trigger] after.entry_at(p))->0.timestamp <= (
            #[trigger] after.entry_at(q))->0.timestamp,
        forall|p: int, q: int|
            0 <= p < q < after.order->0.len() ==> before(
                (#[trigger] after.entry_at(p))->0,
                (#[trigger] after.entry_at(q))->0,
            ),
{
    let mid = after_steps(s.invalidated(), steps);
    lemma_cleaned_rows_valid(mid);
    let order = after.order->0;
    assert forall|p: int| 0 <= p < order.len() implies after.entry_at(p) is Some by {
        assert(has_id(after.rows, order[p]));
    }
    assert forall|p: int, q: int| 0 <= p <= q < order.len() implies (#[trigger] after.entry_at(
        p,
    ))->0.timestamp <= (#[trigger] after.entry_at(q))->0.timestamp by {
        assert(has_id(after.rows, order[p]));
        assert(has_id(after.rows, order[q]));
        if p < q {
            assert(before(
                after.rows[row_with_id(after.rows, order[p])],
                after.rows[row_with_id(after.rows, order[q])],
            ));
        }
    }
    assert forall|p: int, q: int| 0 <= p < q < order.len() implies before(
        (#[trigger] after.entry_at(p))->0,
        (#[trigger] after.entry_at(q))->0,
    ) by {
        assert(has_id(after.rows, order[p]));
        assert(has_id(after.rows, order[q]));
        assert(before(
            after.rows[row_with_id(after.rows, order[p])],
            after.rows[row_with_id(after.rows, order[q])],
        ));
    }
}

/// Whether every step of `steps` that is about `path` only checks the
/// file, and with a fingerprint that the store `s` does not hold for it: the
/// file was found changed and nothing was stored for it.
pub open spec fn only_failed_checks(s: IndexState, steps: Seq<PopulateStep>, path: Seq<char>) -> bool {
    forall|i: int|
        0 <= i < steps.len() && (#[trigger] steps[i]).path() == path ==> match steps[i] {
            PopulateStep::Confirm { finfo, .. } => !s.matches(path, finfo),
            PopulateStep::Store { .. } => false,
        }
}

/// While a file is only checked without success, its entry stays as the
/// cleared flags left it: invalid, with the fingerprint that it had.
pub proof fn lemma_failed_checks_leave_invalid(
    s: IndexState,
    steps: Seq<PopulateStep>,
    path: Seq<char>,
)
    requires
        only_failed_checks(s, steps, path),
    ensures
        forall|i: int|
            0 <= i < after_steps(s.invalidated(), steps).rows.len() && (#[trigger] after_steps(
                s.invalidated(),
                steps,
            ).rows[i]).path == path ==> !after_steps(s.invalidated(), steps).rows[i].is_valid
                && s.matches(path, after_steps(s.invalidated(), steps).rows[i].finfo),
    decreases steps.len(),
{
    if steps.len() == 0 {
        let start = s.invalidated();
        assert forall|i: int| 0 <= i < start.rows.len() && (#[trigger] start.rows[i]).path
            == path implies !start.rows[i].is_valid && s.matches(path, start.rows[i].finfo) by {
            assert(s.rows[i].path == path && s.rows[i].finfo == start.rows[i].finfo);
        }
    } else {
        let head = steps.drop_last();
        assert(only_failed_checks(s, head, path)) by {
            assert forall|i: int| 0 <= i < head.len() && (#[trigger] head[i]).path()
                == path implies match head[i] {
                PopulateStep::Confirm { finfo, .. } => !s.matches(path, finfo),
                PopulateStep::Store { .. } => false,
            } by {
                assert(head[i] == steps[i]);
            }
        }
        lemma_failed_checks_leave_invalid(s, head, path);
        let mid = after_steps(s.invalidated(), head);
        let step = steps.last();
        assert(step == steps[steps.len() - 1]);
        let next = after_step(mid, step);
        assert forall|i: int| 0 <= i < next.rows.len() && (#[trigger] next.rows[i]).path
            == path implies !next.rows[i].is_valid && s.matches(path, next.rows[i].finfo) by {
            match step {
                PopulateStep::Confirm { path: p, finfo } => {
                    assert(mid.rows[i].path == path);
                    if p == path {
                        assert(!s.matches(path, finfo));
                        assert(s.matches(path, mid.rows[i].finfo));
                    }
                },
                PopulateStep::Store { entry } => {
                    assert(entry.path != path);
                    if mid.contains_path(entry.path) {
                        assert(mid.rows[i].path == path);
                    } else {
                        if i < mid.rows.len() {
                            assert(next.rows[i] == mid.rows[i]);
                        }
                    }
                },
            }
        }
    }
}

/// A file that could not be indexed leaves the index: when a pass finds
/// the file at `path` changed and stores nothing for it, because its
/// metadata or preview could not be had, the store holds no entry for
/// `path` once the pass has completed, so that a later pass takes the file
/// up again.
pub proof fn lemma_failed_file_removed(
    s: IndexState,
    steps: Seq<PopulateStep>,
    after: IndexState,
    path: Seq<char>,
)
    requires
        completed_pass(s, steps, after),
        only_failed_checks(s, steps, path),
    ensures
        !after.contains_path(path),
        forall|p: int| 0 <= p < after.order->0.len() ==> after.entry_at(p) is Some,
        forall|p: int|
            0 <= p < after.order->0.len() ==> (#[trigger] after.entry_at(p))->0.path != path,
{
    let mid = after_steps(s.invalidated(), steps);
    let keep = |r: EntryView| r.is_valid;
    lemma_failed_checks_leave_invalid(s, steps, path);
    lemma_positions_ordered(s, steps, after);
    assert(after.rows == mid.cleaned().rows);
    assert(mid.cleaned().rows == mid.rows.filter(keep));
    assert forall|i: int| 0 <= i < after.rows.len() implies (#[trigger] after.rows[i]).path
        != path by {
        assert(mid.rows.filter(keep).contains(after.rows[i]));
        mid.rows.lemma_filter_contains_rev(keep, after.rows[i]);
        mid.rows.lemma_filter_pred(keep, i);
        assert(mid.rows.contains(after.rows[i]));
        let j = choose|j: int| 0 <= j < mid.rows.len() && mid.rows[j] == after.rows[i];
        assert(mid.rows[j].is_valid);
    }
    assert forall|p: int| 0 <= p < after.order->0.len() implies (#[trigger] after.entry_at(
        p,
    ))->0.path != path by {
        assert(after.entry_at(p) is Some);
    }
}

/// A file that has gone leaves the index: when a pass finds no file at
/// `path`, the store holds no entry for `path` once the pass has completed,
/// and every position below the count still holds an entry.
pub proof fn lemma_missing_file_removed(
    s: IndexState,
    steps: Seq<PopulateStep>,
    after: IndexState,
    path: Seq<char>,
)
    requires
        completed_pass(s, steps, after),
        untouched(steps, path),
    ensures
        !after.contains_path(path),
        forall|p: int| 0 <= p < after.order->0.len() ==> after.entry_at(p) is Some,
        forall|p: int|
            0 <= p < after.order->0.len() ==> (#[trigger] after.entry_at(p))->0.path != path,
{
    assert(only_failed_checks(s, steps, path));
    lemma_failed_file_removed(s, steps, after, path);
}

/// A stored entry is valid and is found again under its path and
/// fingerprint.
pub proof fn lemma_stored_entry_matches(s: IndexState, e: InsertionView)
    ensures
        s.upserted(e).confirms(e.path, e.finfo),
        s.upserted(e).matches(e.path, e.finfo),
{
    let t = s.upserted(e);
    if s.contains_path(e.path) {
        let i = choose|i: int| 0 <= i < s.rows.len() && (#[trigger] s.rows[i]).path == e.path;
        assert(t.rows[i].path == e.path && t.rows[i].finfo == e.finfo && t.rows[i].is_valid);
    } else {
        let i = s.rows.len() as int;
        assert(t.rows[i].path == e.path && t.rows[i].finfo == e.finfo && t.rows[i].is_valid);
    }
}

/// An entry that a check found under its path and fingerprint is valid
/// after the check.
pub proof fn lemma_checked_entry_confirmed(s: IndexState, path: Seq<char>, finfo: Seq<char>)
    requires
        s.matches(path, finfo),
    ensures
        s.marked(path, finfo).confirms(path, finfo),
{
    let i = choose|i: int|
        0 <= i < s.rows.len() && (#[trigger] s.rows[i]).path == path && s.rows[i].finfo == finfo;
    let m = s.marked(path, finfo);
    assert(m.rows[i].path == path && m.rows[i].finfo == finfo && m.rows[i].is_valid);
}

/// While no step is about `path`, a valid entry for `path` stays valid and
/// keeps its fingerprint.
pub proof fn lemma_untouched_stays_confirmed(
    s: IndexState,
    steps: Seq<PopulateStep>,
    path: Seq<char>,
    finfo: Seq<char>,
)
    requires
        s.confirms(path, finfo),
        untouched(steps, path),
    ensures
        after_steps(s, steps).confirms(path, finfo),
    decreases steps.len(),
{
    if steps.len() > 0 {
        let head = steps.drop_last();
        assert(untouched(head, path)) by {
            assert forall|i: int| 0 <= i < head.len() implies (#[trigger] head[i]).path()
                != path by {
                assert(head[i] == steps[i]);
            }
        }
        lemma_untouched_stays_confirmed(s, head, path, finfo);
        let mid = after_steps(s, head);
        let step = steps.last();
        assert(step == steps[steps.len() - 1]);
        let i = choose|i: int|
            0 <= i < mid.rows.len() && (#[trigger] mid.rows[i]).path == path && mid.rows[i].finfo
                == finfo && mid.rows[i].is_valid;
        let next = after_step(mid, step);
        assert(next.rows[i].path == path && next.rows[i].finfo == finfo && next.rows[i].is_valid);
    }
}

/// A valid entry survives the cleanup.
pub proof fn lemma_confirmed_entry_survives(s: IndexState, path: Seq<char>, finfo: Seq<char>)
    requires
        s.confirms(path, finfo),
    ensures
        s.cleaned().confirms(path, finfo),
        s.cleaned().matches(path, finfo),
{
    let keep = |r: EntryView| r.is_valid;
    let i = choose|i: int|
        0 <= i < s.rows.len() && (#[trigger] s.rows[i]).path == path && s.rows[i].finfo == finfo
            && s.rows[i].is_valid;
    s.rows.lemma_filter_contains(keep, i);
    let kept = s.rows.filter(keep);
    assert(kept.contains(s.rows[i]));
    let j = choose|j: int| 0 <= j < kept.len() && kept[j] == s.rows[i];
    assert(s.cleaned().rows[j].path == path && s.cleaned().rows[j].finfo == finfo
        && s.cleaned().rows[j].is_valid);
}

/// While no step is about `path`, the entry for `path` keeps its
/// fingerprint.
pub proof fn lemma_untouched_keeps_fingerprint(
    s: IndexState,
    steps: Seq<PopulateStep>,
    path: Seq<char>,
    finfo: Seq<char>,
)
    requires
        s.matches(path, finfo),
        untouched(steps, path),
    ensures
        after_steps(s, steps).matches(path, finfo),
    decreases steps.len(),
{
    if steps.len() > 0 {
        let head = steps.drop_last();
        assert(untouched(head, path)) by {
            assert forall|i: int| 0 <= i < head.len() implies (#[trigger] head[i]).path()
                != path by {
                assert(head[i] == steps[i]);
            }
        }
        lemma_untouched_keeps_fingerprint(s, head, path, finfo);
        let mid = after_steps(s, head);
        let step = steps.last();
        assert(step == steps[steps.len() - 1]);
        let i = choose|i: int|
            0 <= i < mid.rows.len() && (#[trigger] mid.rows[i]).path == path && mid.rows[i].finfo
                == finfo;
        let next = after_step(mid, step);
        assert(next.rows[i].path == path && next.rows[i].finfo == finfo);
    }
}

/// A file that a pass has stored or confirmed is skipped by the next pass
/// if it has not changed: once the step for the file was taken with the
/// fingerprint `finfo`, whatever the first pass did for other files after
/// that and the second pass did for other files before, the second pass
/// finds the entry under the same path and fingerprint, so that nothing is
/// extracted or stored for the file; and it confirms the entry.
pub proof fn lemma_second_pass_skips(
    s: IndexState,
    rest: Seq<PopulateStep>,
    after: IndexState,
    again: Seq<PopulateStep>,
    path: Seq<char>,
    finfo: Seq<char>,
)
    requires
        s.confirms(path, finfo),
        untouched(rest, path),
        after.rows == after_steps(s, rest).cleaned().rows,
        untouched(again, path),
    ensures
        after_steps(after.invalidated(), again).matches(path, finfo),
        after_steps(after.invalidated(), again).marked(path, finfo).confirms(path, finfo),
{
    lemma_untouched_stays_confirmed(s, rest, path, finfo);
    lemma_confirmed_entry_survives(after_steps(s, rest), path, finfo);
    let kept = after_steps(s, rest).cleaned();
    let i = choose|i: int|
        0 <= i < kept.rows.len() && (#[trigger] kept.rows[i]).path == path && kept.rows[i].finfo
            == finfo;
    assert(after.rows[i].path == path && after.rows[i].finfo == finfo);
    assert(after.matches(path, finfo));
    lemma_unchanged_file_skipped(after, again, path, finfo);
}

/// An unchanged file is skipped: if the store holds an entry for `path`
/// with the fingerprint `finfo`, then in the next pass, whatever was done
/// for other files first, the check for `path` and `finfo` still succeeds,
/// so that nothing is extracted or stored for it; and the check confirms the
/// entry.
pub proof fn lemma_unchanged_file_skipped(
    s: IndexState,
    steps: Seq<PopulateStep>,
    path: Seq<char>,
    finfo: Seq<char>,
)
    requires
        s.matches(path, finfo),
        untouched(steps, path),
    ensures
        after_steps(s.invalidated(), steps).matches(path, finfo),
        after_steps(s.invalidated(), steps).marked(path, finfo).confirms(path, finfo),
{
    let i0 = choose|i: int|
        0 <= i < s.rows.len() && (#[trigger] s.rows[i]).path == path && s.rows[i].finfo == finfo;
    assert(s.invalidated().rows[i0].path == path && s.invalidated().rows[i0].finfo == finfo);
    lemma_untouched_keeps_fingerprint(s.invalidated(), steps, path, finfo);
    lemma_checked_entry_confirmed(after_steps(s.invalidated(), steps), path, finfo);
}

} // verus!

//! Housekeeping of the selected thumbnail of a collection or a reading list after one of
//! its thumbnails is deleted.
use vstd::prelude::*;
use crate::metadata_support::opt_view;

verus! {

/// A thumbnail that remains after a deletion: its id and whether it is the selected one.
#[derive(Clone, Debug)]
pub struct ThumbnailRow {
    pub id: String,
    pub selected: bool,
}

/// The rows as (id, selected) pairs.
pub open spec fn row_views(rows: Seq<ThumbnailRow>) -> Seq<(Seq<char>, bool)> {
    rows.map_values(|r: ThumbnailRow| (r.id@, r.selected))
}

/// The ids of the selected rows, in row order.
pub open spec fn selected_ids(rows: Seq<(Seq<char>, bool)>) -> Seq<Seq<char>>
    decreases rows.len(),
{
    if rows.len() == 0 {
        Seq::empty()
    } else {
        let rest = selected_ids(rows.drop_last());
        if rows.last().1 {
            rest.push(rows.last().0)
        } else {
            rest
        }
    }
}

/// The thumbnail that becomes the only selected one, if any changes: the first selected one
/// when several are selected; the first remaining one when none is selected and the deleted
/// thumbnail was the selected one; else nothing changes.
pub open spec fn selection_target(rows: Seq<(Seq<char>, bool)>, deleted_selected: bool) -> Option<Seq<char>> {
    let selected = selected_ids(rows);
    if selected.len() > 1 {
        Some(selected[0])
    } else if selected.len() == 0 && deleted_selected && rows.len() > 0 {
        Some(rows[0].0)
    } else {
        None
    }
}

/// The rows once `target` is made the only selected thumbnail.
pub open spec fn reselect(rows: Seq<(Seq<char>, bool)>, target: Seq<char>) -> Seq<(Seq<char>, bool)> {
    rows.map_values(|r: (Seq<char>, bool)| (r.0, r.0 == target))
}

/// The rows after the housekeeping.
pub open spec fn after_housekeeping(rows: Seq<(Seq<char>, bool)>, deleted_selected: bool) -> Seq<(Seq<char>, bool)> {
    match selection_target(rows, deleted_selected) {
        Some(target) => reselect(rows, target),
        None => rows,
    }
}

/// No id occurs twice.
pub open spec fn distinct_ids(rows: Seq<(Seq<char>, bool)>) -> bool {
    forall|i: int, j: int| 0 <= i < j < rows.len() ==> #[trigger] rows[i].0 != #[trigger] rows[j].0
}

/// The thumbnail to make the only selected one after a deletion, given the remaining
/// thumbnails (ordered by id) and whether the deleted one was selected; `None` when the
/// selection stays as it is.
pub fn thumbnail_selection_target(remaining: &Vec<ThumbnailRow>, deleted_selected: bool) -> (r: Option<String>)
    ensures
        opt_view(r) == selection_target(row_views(remaining@), deleted_selected),
{
    let ghost rows = row_views(remaining@);
    let mut first_selected: Option<String> = None;
    let mut count: usize = 0;
    let mut i: usize = 0;
    while i < remaining.len()
        invariant
            i <= remaining@.len(),
            rows == row_views(remaining@),
            count as int == selected_ids(rows.take(i as int)).len(),
            count <= i,
            count == 0 <==> first_selected is None,
            count > 0 ==> (first_selected matches Some(f) && f@ == selected_ids(rows.take(i as int))[0]),
        decreases remaining@.len() - i,
    {
        proof {
            assert(rows.take(i + 1).drop_last() =~= rows.take(i as int));
            assert(rows.take(i + 1).last() == rows[i as int]);
            lemma_selected_prefix_first(rows.take(i as int), rows[i as int]);
            assert(rows.take(i as int).push(rows[i as int]) =~= rows.take(i + 1));
        }
        if remaining[i].selected {
            if count == 0 {
                first_selected = Some(remaining[i].id.clone());
            }
            count += 1;
        }
        i += 1;
    }
    proof {
        assert(rows.take(remaining@.len() as int) =~= rows);
    }
    if count > 1 {
        first_selected
    } else if count == 0 && deleted_selected && remaining.len() > 0 {
        Some(remaining[0].id.clone())
    } else {
        None
    }
}

/// Appending a row keeps the first selected id, or makes the new row's id the first.
proof fn lemma_selected_prefix_first(rows: Seq<(Seq<char>, bool)>, row: (Seq<char>, bool))
    ensures
        selected_ids(rows.push(row)).len() == selected_ids(rows).len() + (if row.1 { 1int } else { 0int }),
        selected_ids(rows).len() > 0 ==> selected_ids(rows.push(row))[0] == selected_ids(rows)[0],
        selected_ids(rows).len() == 0 && row.1 ==> selected_ids(rows.push(row))[0] == row.0,
{
    assert(rows.push(row).drop_last() =~= rows);
}

/// Every selected id is the id of a selected row.
proof fn lemma_selected_ids_are_rows(rows: Seq<(Seq<char>, bool)>, k: int)
    requires
        0 <= k < selected_ids(rows).len(),
    ensures
        exists|i: int| 0 <= i < rows.len() && #[trigger] rows[i].0 == selected_ids(rows)[k] && rows[i].1,
    decreases rows.len(),
{
    let rest = selected_ids(rows.drop_last());
    if k < rest.len() {
        lemma_selected_ids_are_rows(rows.drop_last(), k);
        let i = choose|i: int| 0 <= i < rows.drop_last().len() && #[trigger] rows.drop_last()[i].0 == rest[k] && rows.drop_last()[i].1;
        assert(rows[i] == rows.drop_last()[i]);
    } else {
        assert(rows[rows.len() - 1] == rows.last());
    }
}

/// After making `target` the only selected one, the selected ids are `target` alone when it
/// is among the ids, and none otherwise.
proof fn lemma_reselect_selected(rows: Seq<(Seq<char>, bool)>, target: Seq<char>)
    requires
        distinct_ids(rows),
    ensures
        (exists|i: int| 0 <= i < rows.len() && #[trigger] rows[i].0 == target) ==> selected_ids(reselect(rows, target)) == seq![target],
        (forall|i: int| 0 <= i < rows.len() ==> #[trigger] rows[i].0 != target) ==> selected_ids(reselect(rows, target)).len() == 0,
    decreases rows.len(),
{
    if rows.len() > 0 {
        let init = rows.drop_last();
        assert(reselect(rows, target).drop_last() =~= reselect(init, target));
        assert(distinct_ids(init)) by {
            assert forall|i: int, j: int| 0 <= i < j < init.len() implies #[trigger] init[i].0 != #[trigger] init[j].0 by {
                assert(init[i] == rows[i] && init[j] == rows[j]);
            }
        }
        lemma_reselect_selected(init, target);
        let last = rows.last();
        assert(reselect(rows, target).last() == (last.0, last.0 == target));
        if last.0 == target {
            assert forall|i: int| 0 <= i < init.len() implies #[trigger] init[i].0 != target by {
                assert(init[i] == rows[i]);
                assert(rows[rows.len() - 1] == last);
            }
            assert(selected_ids(reselect(init, target)).len() == 0);
            assert(selected_ids(reselect(rows, target)) =~= seq![target]);
        } else {
            if exists|i: int| 0 <= i < rows.len() && #[trigger] rows[i].0 == target {
                let i = choose|i: int| 0 <= i < rows.len() && #[trigger] rows[i].0 == target;
                assert(i < rows.len() - 1);
                assert(init[i] == rows[i]);
            }
            if forall|i: int| 0 <= i < rows.len() ==> #[trigger] rows[i].0 != target {
                assert forall|i: int| 0 <= i < init.len() implies #[trigger] init[i].0 != target by {
                    assert(init[i] == rows[i]);
                }
            }
        }
    }
}

/// After the housekeeping that follows a thumbnail deletion, at most one thumbnail is
/// selected; and exactly one is when any remain and either one was selected before or the
/// deleted thumbnail was the selected one.
pub proof fn law_thumbnail_selection_single(rows: Seq<(Seq<char>, bool)>, deleted_selected: bool)
    requires
        distinct_ids(rows),
    ensures
        selected_ids(after_housekeeping(rows, deleted_selected)).len() <= 1,
        rows.len() > 0 && (deleted_selected || selected_ids(rows).len() > 0)
            ==> selected_ids(after_housekeeping(rows, deleted_selected)).len() == 1,
{
    let selected = selected_ids(rows);
    if selected.len() > 1 {
        lemma_selected_ids_are_rows(rows, 0);
        lemma_reselect_selected(rows, selected[0]);
    } else if selected.len() == 0 && deleted_selected && rows.len() > 0 {
        assert(rows[0].0 == rows[0].0);
        lemma_reselect_selected(rows, rows[0].0);
    }
}

/// A thumbnail of a book as housekeeping sees it: its id, whether its image is still there
/// (a non-empty stored image, or an existing file at its URL), and whether it is selected.
#[derive(Clone, Debug)]
pub struct BookThumbnailRow {
    pub id: String,
    pub available: bool,
    pub selected: bool,
}

/// What housekeeping does to a book's thumbnails: the rows to delete, and the thumbnail to
/// make the only selected one, if the selection changes.
#[derive(Clone, Debug)]
pub struct BookThumbnailPlan {
    pub delete_ids: Vec<String>,
    pub select_id: Option<String>,
}

/// The available thumbnails, as (id, selected) pairs, in row order.
pub open spec fn kept_rows(rows: Seq<BookThumbnailRow>) -> Seq<(Seq<char>, bool)>
    decreases rows.len(),
{
    if rows.len() == 0 {
        Seq::empty()
    } else {
        let rest = kept_rows(rows.drop_last());
        if rows.last().available {
            rest.push((rows.last().id@, rows.last().selected))
        } else {
            rest
        }
    }
}

/// The ids of the thumbnails whose image is gone, in row order.
pub open spec fn discarded_ids(rows: Seq<BookThumbnailRow>) -> Seq<Seq<char>>
    decreases rows.len(),
{
    if rows.len() == 0 {
        Seq::empty()
    } else {
        let rest = discarded_ids(rows.drop_last());
        if rows.last().available {
            rest
        } else {
            rest.push(rows.last().id@)
        }
    }
}

/// Housekeeping of a book's thumbnails (given newest first): those whose image is gone are
/// deleted; of the rest, the first selected one stays selected when several are, and the
/// first one becomes selected when none is.
pub fn book_thumbnail_housekeeping_plan(rows: &Vec<BookThumbnailRow>) -> (r: BookThumbnailPlan)
    ensures
        crate::ordering::views(r.delete_ids@) == discarded_ids(rows@),
        opt_view(r.select_id) == selection_target(kept_rows(rows@), true),
{
    let mut kept: Vec<ThumbnailRow> = Vec::new();
    let mut delete_ids: Vec<String> = Vec::new();
    let mut i: usize = 0;
    while i < rows.len()
        invariant
            i <= rows@.len(),
            row_views(kept@) == kept_rows(rows@.take(i as int)),
            crate::ordering::views(delete_ids@) == discarded_ids(rows@.take(i as int)),
        decreases rows@.len() - i,
    {
        proof {
            assert(rows@.take(i + 1).drop_last() =~= rows@.take(i as int));
            assert(rows@.take(i + 1).last() == rows@[i as int]);
        }
        let ghost kept_before = row_views(kept@);
        let ghost deleted_before = crate::ordering::views(delete_ids@);
        if rows[i].available {
            kept.push(ThumbnailRow { id: rows[i].id.clone(), selected: rows[i].selected });
            proof {
                assert(row_views(kept@) =~= kept_before.push((rows@[i as int].id@, rows@[i as int].selected)));
            }
        } else {
            delete_ids.push(rows[i].id.clone());
            proof {
                assert(crate::ordering::views(delete_ids@) =~= deleted_before.push(rows@[i as int].id@));
            }
        }
        i += 1;
    }
    proof {
        assert(rows@.take(rows@.len() as int) =~= rows@);
    }
    let select_id = thumbnail_selection_target(&kept, true);
    BookThumbnailPlan { delete_ids, select_id }
}

/// After a book's thumbnail housekeeping, exactly one of the remaining thumbnails is
/// selected, if any remain.
pub proof fn law_book_thumbnail_single_selection(rows: Seq<BookThumbnailRow>)
    requires
        distinct_ids(kept_rows(rows)),
    ensures
        kept_rows(rows).len() > 0 ==> selected_ids(after_housekeeping(kept_rows(rows), true)).len() == 1,
        kept_rows(rows).len() == 0 ==> selected_ids(after_housekeeping(kept_rows(rows), true)).len() == 0,
{
    law_thumbnail_selection_single(kept_rows(rows), true);
    if kept_rows(rows).len() == 0 {
        assert(selected_ids(kept_rows(rows)).len() == 0);
    }
}

} // verus!

//! The viewport computation: pick the contiguous slice of the flattened
//! sequence that fits in the available height, keep the selected row visible
//! when a reveal is pending, and commit the new scroll offset.

use vstd::prelude::*;

use crate::flatten::FlatRow;
use crate::flatten::Flattened;
use crate::flatten::rows_of;
use crate::identifier::path_eq;
use crate::state::TreeState;

verus! {

/// The total height, in text lines, of the rows `rows[a..b)`.
pub open spec fn height_sum(rows: Seq<FlatRow>, a: int, b: int) -> nat
    decreases b - a,
{
    if a >= b {
        0
    } else {
        rows[a].height() + height_sum(rows, a + 1, b)
    }
}

/// The first index at or after `i` whose row's path is `selected`; the top
/// row, index 0, when no row matches.
pub open spec fn position_from(rows: Seq<FlatRow>, selected: Seq<u64>, i: int) -> int
    decreases rows.len() - i,
{
    if i < 0 || i >= rows.len() {
        0
    } else if rows[i].path == selected {
        i
    } else {
        position_from(rows, selected, i + 1)
    }
}

/// The index of the row the selection refers to: the first row whose path is
/// `selected`, or the top row when nothing is selected or the selection is
/// not visible.
pub open spec fn selected_index(rows: Seq<FlatRow>, selected: Seq<u64>) -> int {
    if selected.len() == 0 {
        0
    } else {
        position_from(rows, selected, 0)
    }
}

/// Greedy window end: grow from `e` row by row while the next row still fits
/// in the remaining height `budget`.
pub open spec fn grow_end(rows: Seq<FlatRow>, e: int, budget: int) -> int
    decreases rows.len() - e,
{
    if e < 0 || e >= rows.len() || rows[e].height() > budget {
        e
    } else {
        grow_end(rows, e + 1, budget - rows[e].height())
    }
}

/// The first start at or after `s` from which the rows up to `e` fit in
/// `avail`; `e` itself at the latest, the empty window.
pub open spec fn shrink_start(rows: Seq<FlatRow>, s: int, e: int, avail: int) -> int
    decreases e - s,
{
    if s >= e || height_sum(rows, s, e) <= avail {
        s
    } else {
        shrink_start(rows, s + 1, e, avail)
    }
}

/// The window `(start, end)` the viewport computation picks for a non-empty
/// sequence of rows and a positive available height: clamp the previous
/// offset, grow greedily, and, when a reveal is pending and the selected row
/// is still below the window, extend past it and drop rows from the front
/// until the height is back in budget.
pub open spec fn viewport_window(
    rows: Seq<FlatRow>,
    avail: int,
    offset: int,
    selected: Seq<u64>,
    reveal: bool,
) -> (int, int) {
    let len = rows.len() as int;
    let sel = selected_index(rows, selected);
    let clamped = if offset < len - 1 {
        offset
    } else {
        len - 1
    };
    let start = if reveal && sel < clamped {
        sel
    } else {
        clamped
    };
    let end = grow_end(rows, start, avail);
    if reveal && sel >= end {
        let shrunk = shrink_start(rows, start, sel + 1, avail);
        ((if shrunk < len {
            shrunk
        } else {
            len - 1
        }), sel + 1)
    } else {
        (start, end)
    }
}

/// A selection index always lies in the rows, and marks a matching row when
/// one exists at or after `i`.
proof fn lemma_position_from_bounds(rows: Seq<FlatRow>, selected: Seq<u64>, i: int)
    requires
        rows.len() > 0,
    ensures
        0 <= position_from(rows, selected, i) < rows.len(),
    decreases rows.len() - i,
{
    if 0 <= i < rows.len() && rows[i].path != selected {
        lemma_position_from_bounds(rows, selected, i + 1);
    }
}

/// The selected index lies in the rows.
pub proof fn lemma_selected_index_bounds(rows: Seq<FlatRow>, selected: Seq<u64>)
    requires
        rows.len() > 0,
    ensures
        0 <= selected_index(rows, selected) < rows.len(),
{
    if selected.len() > 0 {
        lemma_position_from_bounds(rows, selected, 0);
    }
}

/// Skipping rows that do not match does not change the found position.
proof fn lemma_position_from_skip(rows: Seq<FlatRow>, selected: Seq<u64>, i: int)
    requires
        0 <= i <= rows.len(),
        forall|k: int| 0 <= k < i ==> rows[k].path != selected,
    ensures
        position_from(rows, selected, 0) == position_from(rows, selected, i),
    decreases i,
{
    if i > 0 {
        lemma_position_from_skip(rows, selected, i - 1);
    }
}

/// A sum of row heights grows with the right end of its range.
proof fn lemma_height_sum_extend(rows: Seq<FlatRow>, a: int, b: int)
    requires
        a <= b,
    ensures
        height_sum(rows, a, b + 1) == height_sum(rows, a, b) + rows[b].height(),
    decreases b - a,
{
    if a < b {
        lemma_height_sum_extend(rows, a + 1, b);
    } else {
        assert(height_sum(rows, b + 1, b + 1) == 0);
    }
}

/// A sum of row heights is at most the sum over any enclosing range.
proof fn lemma_height_sum_widen(rows: Seq<FlatRow>, a2: int, a: int, b: int, b2: int)
    requires
        a2 <= a,
        b <= b2,
    ensures
        height_sum(rows, a, b) <= height_sum(rows, a2, b2),
    decreases (a - a2) + (b2 - b),
{
    if a2 < a {
        lemma_height_sum_widen(rows, a2 + 1, a, b, b2);
        if a2 < b2 {
            assert(height_sum(rows, a2, b2) == rows[a2].height() + height_sum(rows, a2 + 1, b2));
        } else {
            assert(height_sum(rows, a2 + 1, b2) == 0);
            assert(height_sum(rows, a, b) == 0);
        }
    } else if b < b2 {
        lemma_height_sum_widen(rows, a2, a, b, b2 - 1);
        if a <= b2 - 1 {
            lemma_height_sum_extend(rows, a2, b2 - 1);
        } else {
            assert(height_sum(rows, a, b) == 0);
        }
    }
}

/// The greedy end never leaves the rows, fills the budget, and stops only
/// when the budget is spent or the rows are.
pub proof fn lemma_grow_end_fits(rows: Seq<FlatRow>, e: int, budget: int)
    requires
        0 <= e <= rows.len(),
        budget >= 0,
    ensures
        e <= grow_end(rows, e, budget) <= rows.len(),
        height_sum(rows, e, grow_end(rows, e, budget)) <= budget,
        grow_end(rows, e, budget) < rows.len() ==> height_sum(
            rows,
            e,
            grow_end(rows, e, budget) + 1,
        ) > budget,
    decreases rows.len() - e,
{
    if !(e >= rows.len() || rows[e].height() > budget) {
        lemma_grow_end_fits(rows, e + 1, budget - rows[e].height() as int);
        let g = grow_end(rows, e, budget);
        assert(height_sum(rows, e, g) == rows[e].height() + height_sum(rows, e + 1, g));
        if g < rows.len() {
            assert(height_sum(rows, e, g + 1) == rows[e].height() + height_sum(rows, e + 1, g + 1));
        }
    }
}

/// Dropping the rows that an earlier shrink already dropped does not change
/// where a later shrink ends up.
proof fn lemma_shrink_start_absorb(rows: Seq<FlatRow>, s: int, e: int, avail: int)
    requires
        s <= e,
        avail >= 0,
    ensures
        shrink_start(rows, s, e + 1, avail) == shrink_start(
            rows,
            shrink_start(rows, s, e, avail),
            e + 1,
            avail,
        ),
    decreases e - s,
{
    if !(s >= e || height_sum(rows, s, e) <= avail) {
        lemma_height_sum_extend(rows, s, e);
        lemma_shrink_start_absorb(rows, s + 1, e, avail);
    }
}

/// The shrunk start stays between `s` and `e`, its window fits in `avail`,
/// and one row fewer dropped would not fit.
pub proof fn lemma_shrink_start_least(rows: Seq<FlatRow>, s: int, e: int, avail: int)
    requires
        s <= e,
        avail >= 0,
    ensures
        s <= shrink_start(rows, s, e, avail) <= e,
        height_sum(rows, shrink_start(rows, s, e, avail), e) <= avail,
        shrink_start(rows, s, e, avail) > s ==> height_sum(
            rows,
            shrink_start(rows, s, e, avail) - 1,
            e,
        ) > avail,
    decreases e - s,
{
    if !(s >= e || height_sum(rows, s, e) <= avail) {
        lemma_shrink_start_least(rows, s + 1, e, avail);
    }
}

/// The index of the first row whose path is `selected`; the top row when no
/// row matches.
fn position_of(visible: &Vec<Flattened<'_>>, selected: &Vec<u64>) -> (r: usize)
    requires
        visible@.len() > 0,
    ensures
        r == selected_index(rows_of(visible@), selected@),
        r < visible@.len(),
{
    proof {
        lemma_selected_index_bounds(rows_of(visible@), selected@);
    }
    if selected.len() == 0 {
        return 0;
    }
    let n = visible.len();
    for i in 0..n
        invariant
            n == visible@.len(),
            selected@.len() > 0,
            forall|k: int| 0 <= k < i ==> rows_of(visible@)[k].path != selected@,
    {
        if path_eq(&visible[i].identifier, selected) {
            proof {
                assert(rows_of(visible@)[i as int] == visible@[i as int]@);
                lemma_position_from_skip(rows_of(visible@), selected@, i as int);
            }
            return i;
        }
        proof {
            assert(rows_of(visible@)[i as int] == visible@[i as int]@);
        }
    }
    proof {
        lemma_position_from_skip(rows_of(visible@), selected@, n as int);
    }
    0
}

impl TreeState {
    /// Compute the window of `visible` rows shown by one render pass and
    /// commit the new scroll offset, consuming a pending reveal.
    ///
    /// Returns `(start, end)`: the rows `visible[start..end)` are the ones a
    /// renderer paints. With no rows or no available height nothing is shown
    /// and the state is left untouched. Otherwise the offset ends up on a
    /// valid row, the window reaches a pending selection, and — as long as
    /// the total height stays within the machine's range — the window is
    /// exactly the one [`viewport_window`] describes.
    #[verifier::loop_isolation(false)]
    pub fn update_viewport(&mut self, visible: &Vec<Flattened<'_>>, available_height: usize) -> (window: (
        usize,
        usize,
    ))
        ensures
            final(self).opened == old(self).opened,
            final(self).selected == old(self).selected,
            (visible@.len() == 0 || available_height == 0) ==> *final(self) == *old(self)
                && window == (0usize, 0usize),
            ({
                let rows = rows_of(visible@);
                let len = rows.len() as int;
                let sel = selected_index(rows, old(self).selected@);
                let reveal = old(self).ensure_selected_in_view_on_next_render;
                (len > 0 && available_height > 0) ==> {
                    &&& !final(self).ensure_selected_in_view_on_next_render
                    &&& final(self).offset == window.0
                    &&& window.0 <= window.1 <= len
                    &&& window.0 < len
                    &&& reveal ==> sel < window.1
                    &&& (reveal && rows[sel].height() <= available_height) ==> window.0 <= sel
                    &&& height_sum(rows, 0, len) <= usize::MAX ==> (
                    window.0 as int,
                    window.1 as int,
                    ) == viewport_window(
                        rows,
                        available_height as int,
                        old(self).offset as int,
                        old(self).selected@,
                        reveal,
                    )
                }
            }),
    {
        let len = visible.len();
        if len == 0 || available_height == 0 {
            return (0, 0);
        }
        let ghost rows = rows_of(visible@);
        let ghost total = height_sum(rows, 0, len as int);
        let sel = position_of(visible, &self.selected);
        let reveal = self.ensure_selected_in_view_on_next_render;

        let mut start = if self.offset < len - 1 {
            self.offset
        } else {
            len - 1
        };
        if reveal && sel < start {
            start = sel;
        }
        let ghost start1 = start as int;

        let mut end = start;
        let mut height: usize = 0;
        while end < len && visible[end].item.height() <= available_height - height
            invariant
                start1 <= end as int <= len as int,
                height == height_sum(rows, start1, end as int),
                height <= available_height,
                grow_end(rows, start1, available_height as int) == grow_end(
                    rows,
                    end as int,
                    available_height - height,
                ),
            decreases len - end,
        {
            let h = visible[end].item.height();
            proof {
                assert(rows[end as int] == visible@[end as int]@);
                lemma_height_sum_extend(rows, start1, end as int);
            }
            height = height + h;
            end = end + 1;
        }
        proof {
            if (end as int) < len as int {
                assert(rows[end as int] == visible@[end as int]@);
            }
            assert(grow_end(rows, end as int, available_height - height) == end as int);
        }
        let ghost end0 = end as int;

        if reveal && sel >= end {
            proof {
                assert(shrink_start(rows, start1, end0, available_height as int) == start1);
            }
            while sel >= end
                invariant
                    start1 <= start as int,
                    start <= end <= sel + 1,
                    height as nat <= height_sum(rows, start as int, end as int),
                    height <= available_height,
                    total <= usize::MAX ==> height == height_sum(rows, start as int, end as int),
                    total <= usize::MAX ==> start as int == shrink_start(
                        rows,
                        start1,
                        end as int,
                        available_height as int,
                    ),
                    rows[sel as int].height() <= available_height ==> start <= sel,
                decreases sel + 1 - end,
            {
                let h = visible[end].item.height();
                proof {
                    assert(rows[end as int] == visible@[end as int]@);
                    lemma_height_sum_extend(rows, start as int, end as int);
                    if total <= usize::MAX {
                        lemma_height_sum_widen(rows, 0, start as int, end as int + 1, len as int);
                        lemma_shrink_start_absorb(
                            rows,
                            start1,
                            end as int,
                            available_height as int,
                        );
                    }
                }
                height = height.saturating_add(h);
                end = end + 1;
                while height > available_height
                    invariant
                        start1 <= start as int,
                        start <= end,
                        height as nat <= height_sum(rows, start as int, end as int),
                        total <= usize::MAX ==> height == height_sum(
                            rows,
                            start as int,
                            end as int,
                        ),
                        total <= usize::MAX ==> shrink_start(
                            rows,
                            start1,
                            end as int,
                            available_height as int,
                        ) == shrink_start(rows, start as int, end as int, available_height as int),
                        (end as int == sel + 1 && rows[sel as int].height() <= available_height)
                            ==> start <= sel,
                    decreases end - start,
                {
                    proof {
                        if start >= end {
                            assert(height_sum(rows, start as int, end as int) == 0);
                        }
                        assert(rows[start as int] == visible@[start as int]@);
                        assert(height_sum(rows, start as int, end as int) == rows[start as int].height()
                            + height_sum(rows, start as int + 1, end as int));
                        if end as int == sel + 1 && rows[sel as int].height()
                            <= available_height && start == sel {
                            assert(height_sum(rows, sel as int, sel + 1) == rows[sel as int].height()
                                + height_sum(rows, sel + 1, sel + 1));
                            assert(false);
                        }
                    }
                    let hs = visible[start].item.height();
                    height = height.saturating_sub(hs);
                    start = start + 1;
                }
                proof {
                    if total <= usize::MAX {
                        assert(shrink_start(
                            rows,
                            start as int,
                            end as int,
                            available_height as int,
                        ) == start as int);
                    }
                }
            }
        }

        if start >= len {
            start = len - 1;
        }
        self.offset = start;
        self.ensure_selected_in_view_on_next_render = false;
        (start, end)
    }
}

} // verus!

//! The rectangular grid and the constraints that are laid over it.
//!
//! Cells are numbered row by row: the cell in column `x` of row `y` has index
//! `y * width + x`. Walking the cells in that order, each cell contributes the
//! constraints that start at it, and the concatenation is the constraint list
//! of the grid.

use vstd::prelude::*;
use vstd::math::min;
use vstd::arithmetic::div_mod::{
    lemma_fundamental_div_mod, lemma_fundamental_div_mod_converse, lemma_mod_bound,
};
use crate::spring::{SpringKind, SpringModel};

verus! {

/// Index of the cell in `column` of `row`.
pub open spec fn cell_index(width: int, column: int, row: int) -> int {
    row * width + column
}

/// The constraint of `kind` between the particles with indices `first` and
/// `second`.
pub open spec fn link(first: int, second: int, kind: SpringKind) -> SpringModel {
    SpringModel { first, second, kind }
}

/// Constraints along the row that start at the cell with index `i` in
/// `column`: to the right-hand neighbour, then to the particle two columns on.
pub open spec fn row_links(width: int, column: int, i: int) -> Seq<SpringModel> {
    if column + 2 < width {
        seq![link(i, i + 1, SpringKind::Stretch), link(i, i + 2, SpringKind::Bend)]
    } else if column + 1 < width {
        seq![link(i, i + 1, SpringKind::Stretch)]
    } else {
        Seq::empty()
    }
}

/// Constraints down the column that start at the cell with index `i` in
/// `row`: to the neighbour below, then to the particle two rows below.
pub open spec fn column_links(width: int, height: int, row: int, i: int) -> Seq<SpringModel> {
    if row + 2 < height {
        seq![link(i, i + width, SpringKind::Stretch), link(i, i + 2 * width, SpringKind::Bend)]
    } else if row + 1 < height {
        seq![link(i, i + width, SpringKind::Stretch)]
    } else {
        Seq::empty()
    }
}

/// The two diagonals of the square whose upper left corner is the cell with
/// index `i`.
pub open spec fn diagonal_links(width: int, height: int, column: int, row: int, i: int) -> Seq<
    SpringModel,
> {
    if column + 1 < width && row + 1 < height {
        seq![link(i, i + width + 1, SpringKind::Shear), link(i + 1, i + width, SpringKind::Shear)]
    } else {
        Seq::empty()
    }
}

/// All constraints that start at the cell in `column` of `row`, in the order
/// in which they are created.
pub open spec fn cell_springs(width: int, height: int, column: int, row: int) -> Seq<SpringModel> {
    let i = cell_index(width, column, row);
    row_links(width, column, i) + column_links(width, height, row, i) + diagonal_links(
        width,
        height,
        column,
        row,
        i,
    )
}

/// The constraints of the first `columns` cells of `row`.
pub open spec fn row_springs(width: int, height: int, row: int, columns: int) -> Seq<SpringModel>
    decreases columns,
{
    if columns <= 0 {
        Seq::empty()
    } else {
        row_springs(width, height, row, columns - 1) + cell_springs(
            width,
            height,
            columns - 1,
            row,
        )
    }
}

/// The constraints of the first `rows` rows.
pub open spec fn rows_springs(width: int, height: int, rows: int) -> Seq<SpringModel>
    decreases rows,
{
    if rows <= 0 {
        Seq::empty()
    } else {
        rows_springs(width, height, rows - 1) + row_springs(width, height, rows - 1, width)
    }
}

/// The constraint list of a grid of `width` columns and `height` rows.
pub open spec fn grid_springs(width: int, height: int) -> Seq<SpringModel> {
    rows_springs(width, height, height)
}

/// How many constraints of `kind` a list holds.
pub open spec fn count_kind(springs: Seq<SpringModel>, kind: SpringKind) -> int
    decreases springs.len(),
{
    if springs.len() == 0 {
        0
    } else {
        count_kind(springs.drop_last(), kind) + if springs.last().kind == kind {
            1int
        } else {
            0int
        }
    }
}

pub proof fn lemma_count_push(springs: Seq<SpringModel>, s: SpringModel, kind: SpringKind)
    ensures
        count_kind(springs.push(s), kind) == count_kind(springs, kind) + if s.kind == kind {
            1int
        } else {
            0int
        },
{
    assert(springs.push(s).drop_last() =~= springs);
}

pub proof fn lemma_count_concat(a: Seq<SpringModel>, b: Seq<SpringModel>, kind: SpringKind)
    ensures
        count_kind(a + b, kind) == count_kind(a, kind) + count_kind(b, kind),
    decreases b.len(),
{
    if b.len() == 0 {
        assert(a + b =~= a);
    } else {
        lemma_count_concat(a, b.drop_last(), kind);
        assert((a + b).drop_last() =~= a + b.drop_last());
    }
}

/// Every constraint has exactly one of the three kinds.
pub proof fn lemma_count_total(springs: Seq<SpringModel>)
    ensures
        springs.len() == count_kind(springs, SpringKind::Stretch) + count_kind(
            springs,
            SpringKind::Bend,
        ) + count_kind(springs, SpringKind::Shear),
    decreases springs.len(),
{
    if springs.len() > 0 {
        lemma_count_total(springs.drop_last());
    }
}

proof fn lemma_count_one(s: SpringModel, kind: SpringKind)
    ensures
        count_kind(seq![s], kind) == if s.kind == kind {
            1int
        } else {
            0int
        },
{
    assert(seq![s] =~= Seq::<SpringModel>::empty().push(s));
    lemma_count_push(Seq::empty(), s, kind);
}

proof fn lemma_count_two(s: SpringModel, t: SpringModel, kind: SpringKind)
    ensures
        count_kind(seq![s, t], kind) == (if s.kind == kind {
            1int
        } else {
            0int
        }) + (if t.kind == kind {
            1int
        } else {
            0int
        }),
{
    lemma_count_one(s, kind);
    assert(seq![s, t] =~= seq![s].push(t));
    lemma_count_push(seq![s], t, kind);
}

/// The number of constraints of each kind that start at one cell.
pub proof fn lemma_cell_counts(width: int, height: int, column: int, row: int)
    ensures
        count_kind(cell_springs(width, height, column, row), SpringKind::Stretch) == (if column
            + 1 < width {
            1int
        } else {
            0int
        }) + (if row + 1 < height {
            1int
        } else {
            0int
        }),
        count_kind(cell_springs(width, height, column, row), SpringKind::Bend) == (if column + 2
            < width {
            1int
        } else {
            0int
        }) + (if row + 2 < height {
            1int
        } else {
            0int
        }),
        count_kind(cell_springs(width, height, column, row), SpringKind::Shear) == (if column + 1
            < width && row + 1 < height {
            2int
        } else {
            0int
        }),
{
    let i = cell_index(width, column, row);
    let a = row_links(width, column, i);
    let b = column_links(width, height, row, i);
    let c = diagonal_links(width, height, column, row, i);
    assert forall|kind: SpringKind| #![auto]
        count_kind(cell_springs(width, height, column, row), kind) == count_kind(a, kind)
            + count_kind(b, kind) + count_kind(c, kind) by {
        lemma_count_concat(a, b, kind);
        lemma_count_concat(a + b, c, kind);
    }
    assert forall|kind: SpringKind| #![auto]
        count_kind(a, kind) == (if column + 1 < width && kind == SpringKind::Stretch {
            1int
        } else {
            0int
        }) + (if column + 2 < width && kind == SpringKind::Bend {
            1int
        } else {
            0int
        }) by {
        lemma_count_one(link(i, i + 1, SpringKind::Stretch), kind);
        lemma_count_two(
            link(i, i + 1, SpringKind::Stretch),
            link(i, i + 2, SpringKind::Bend),
            kind,
        );
    }
    assert forall|kind: SpringKind| #![auto]
        count_kind(b, kind) == (if row + 1 < height && kind == SpringKind::Stretch {
            1int
        } else {
            0int
        }) + (if row + 2 < height && kind == SpringKind::Bend {
            1int
        } else {
            0int
        }) by {
        lemma_count_one(link(i, i + width, SpringKind::Stretch), kind);
        lemma_count_two(
            link(i, i + width, SpringKind::Stretch),
            link(i, i + 2 * width, SpringKind::Bend),
            kind,
        );
    }
    assert forall|kind: SpringKind| #![auto]
        count_kind(c, kind) == (if column + 1 < width && row + 1 < height && kind
            == SpringKind::Shear {
            2int
        } else {
            0int
        }) by {
        lemma_count_two(
            link(i, i + width + 1, SpringKind::Shear),
            link(i + 1, i + width, SpringKind::Shear),
            kind,
        );
    }
}

/// The number of constraints of each kind that start in the first `columns`
/// cells of `row`.
pub proof fn lemma_row_counts(width: int, height: int, row: int, columns: int)
    requires
        2 <= width,
        0 <= columns <= width,
    ensures
        count_kind(row_springs(width, height, row, columns), SpringKind::Stretch) == min(
            columns,
            width - 1,
        ) + (if row + 1 < height {
            columns
        } else {
            0int
        }),
        count_kind(row_springs(width, height, row, columns), SpringKind::Bend) == min(
            columns,
            width - 2,
        ) + (if row + 2 < height {
            columns
        } else {
            0int
        }),
        count_kind(row_springs(width, height, row, columns), SpringKind::Shear) == (if row + 1
            < height {
            2 * min(columns, width - 1)
        } else {
            0int
        }),
    decreases columns,
{
    if columns > 0 {
        let before = row_springs(width, height, row, columns - 1);
        let cell = cell_springs(width, height, columns - 1, row);
        lemma_row_counts(width, height, row, columns - 1);
        lemma_cell_counts(width, height, columns - 1, row);
        lemma_count_concat(before, cell, SpringKind::Stretch);
        lemma_count_concat(before, cell, SpringKind::Bend);
        lemma_count_concat(before, cell, SpringKind::Shear);
    }
}

/// The number of constraints of each kind that start in the first `rows`
/// rows.
pub proof fn lemma_rows_counts(width: int, height: int, rows: int)
    requires
        2 <= width,
        2 <= height,
        0 <= rows <= height,
    ensures
        count_kind(rows_springs(width, height, rows), SpringKind::Stretch) == rows * (width - 1)
            + min(rows, height - 1) * width,
        count_kind(rows_springs(width, height, rows), SpringKind::Bend) == rows * (width - 2) + min(
            rows,
            height - 2,
        ) * width,
        count_kind(rows_springs(width, height, rows), SpringKind::Shear) == 2 * (min(
            rows,
            height - 1,
        ) * (width - 1)),
    decreases rows,
{
    if rows > 0 {
        let before = rows_springs(width, height, rows - 1);
        let last = row_springs(width, height, rows - 1, width);
        lemma_rows_counts(width, height, rows - 1);
        lemma_row_counts(width, height, rows - 1, width);
        lemma_count_concat(before, last, SpringKind::Stretch);
        lemma_count_concat(before, last, SpringKind::Bend);
        lemma_count_concat(before, last, SpringKind::Shear);
        assert(rows * (width - 1) == (rows - 1) * (width - 1) + (width - 1)) by (nonlinear_arith);
        assert(rows * (width - 2) == (rows - 1) * (width - 2) + (width - 2)) by (nonlinear_arith);
        let near = min(rows, height - 1);
        let near_before = min(rows - 1, height - 1);
        if rows < height {
            assert(near * width == near_before * width + width && near * (width - 1) == near_before
                * (width - 1) + (width - 1)) by (nonlinear_arith)
                requires
                    near == near_before + 1,
            ;
        }
        let far = min(rows, height - 2);
        let far_before = min(rows - 1, height - 2);
        if rows + 1 < height {
            assert(far * width == far_before * width + width) by (nonlinear_arith)
                requires
                    far == far_before + 1,
            ;
        }
    } else {
        assert(0 * (width - 1) == 0 && 0 * (width - 2) == 0 && 0 * width == 0) by (nonlinear_arith);
    }
}

/// The constraint counts of a whole grid, kind by kind.
///
/// Each row has `width - 1` pairs of horizontal neighbours and each column
/// `height - 1` pairs of vertical ones; pairs two cells apart number
/// `width - 2` per row and `height - 2` per column; and each of the
/// `(width - 1) * (height - 1)` squares of the grid carries two diagonals.
pub proof fn lemma_grid_counts(width: int, height: int)
    requires
        2 <= width,
        2 <= height,
    ensures
        count_kind(grid_springs(width, height), SpringKind::Stretch) == (width - 1) * height
            + width * (height - 1),
        count_kind(grid_springs(width, height), SpringKind::Bend) == (width - 2) * height + width
            * (height - 2),
        count_kind(grid_springs(width, height), SpringKind::Shear) == 2 * ((width - 1) * (height
            - 1)),
        grid_springs(width, height).len() == (width - 1) * height + width * (height - 1) + (width
            - 2) * height + width * (height - 2) + 2 * ((width - 1) * (height - 1)),
{
    lemma_rows_counts(width, height, height);
    lemma_count_total(grid_springs(width, height));
    assert(height * (width - 1) == (width - 1) * height) by (nonlinear_arith);
    assert(height * (width - 2) == (width - 2) * height) by (nonlinear_arith);
    assert((height - 1) * width == width * (height - 1)) by (nonlinear_arith);
    assert((height - 2) * width == width * (height - 2)) by (nonlinear_arith);
    assert((height - 1) * (width - 1) == (width - 1) * (height - 1)) by (nonlinear_arith);
    assert(min(height, height - 2) == height - 2);
}

/// Column of the cell with index `i`.
pub open spec fn column_of(width: int, i: int) -> int {
    i % width
}

/// Row of the cell with index `i`.
pub open spec fn row_of(width: int, i: int) -> int {
    i / width
}

/// Whether `column` and `row` name a cell of the grid.
pub open spec fn in_grid(width: int, height: int, column: int, row: int) -> bool {
    0 <= column < width && 0 <= row < height
}

/// Whether `s` is one of the constraints that start at the cell in `column`
/// of `row`.
pub open spec fn starts_at(width: int, height: int, column: int, row: int, s: SpringModel) -> bool {
    let i = cell_index(width, column, row);
    ||| (column + 1 < width && s == link(i, i + 1, SpringKind::Stretch))
    ||| (column + 2 < width && s == link(i, i + 2, SpringKind::Bend))
    ||| (row + 1 < height && s == link(i, i + width, SpringKind::Stretch))
    ||| (row + 2 < height && s == link(i, i + 2 * width, SpringKind::Bend))
    ||| (column + 1 < width && row + 1 < height && s == link(i, i + width + 1, SpringKind::Shear))
    ||| (column + 1 < width && row + 1 < height && s == link(i + 1, i + width, SpringKind::Shear))
}

/// Whether two constraints join the same two particles.
pub open spec fn same_pair(s: SpringModel, t: SpringModel) -> bool {
    s.first == t.first && s.second == t.second
}

/// A cell index determines its column and row.
pub proof fn lemma_cell_position(width: int, column: int, row: int)
    requires
        0 <= column < width,
    ensures
        column_of(width, cell_index(width, column, row)) == column,
        row_of(width, cell_index(width, column, row)) == row,
{
    lemma_fundamental_div_mod_converse(cell_index(width, column, row), width, row, column);
}

/// The index `i` of a cell of the grid splits into its column and its row.
pub proof fn lemma_cell_split(width: int, height: int, i: int)
    requires
        0 < width,
        0 <= i < width * height,
    ensures
        in_grid(width, height, column_of(width, i), row_of(width, i)),
        i == cell_index(width, column_of(width, i), row_of(width, i)),
        (row_of(width, i) == 0) == (i < width),
{
    let w = width;
    lemma_fundamental_div_mod(i, w);
    lemma_mod_bound(i, w);
    assert(w * (i / w) == (i / w) * w) by (nonlinear_arith);
    if i / w >= height {
        assert((i / w) * w >= height * w && height * w == w * height) by (nonlinear_arith)
            requires
                i / w >= height,
                0 < w,
        ;
    }
    if i / w < 0 {
        assert((i / w) * w <= -w) by (nonlinear_arith)
            requires
                i / w <= -1,
                0 < w,
        ;
    }
    if i / w >= 1 {
        assert((i / w) * w >= w) by (nonlinear_arith)
            requires
                i / w >= 1,
                0 < w,
        ;
    }
}

/// The cells of the grid have the indices below `width * height`.
pub proof fn lemma_cell_bound(width: int, height: int, column: int, row: int)
    requires
        in_grid(width, height, column, row),
    ensures
        0 <= cell_index(width, column, row) < width * height,
{
    assert(0 <= row * width && row * width + width <= height * width && height * width == width
        * height) by (nonlinear_arith)
        requires
            0 <= row < height,
            0 < width,
    ;
}

proof fn lemma_cell_origin(width: int, height: int, column: int, row: int, k: int)
    requires
        0 <= k < cell_springs(width, height, column, row).len(),
    ensures
        starts_at(width, height, column, row, cell_springs(width, height, column, row)[k]),
{
}

proof fn lemma_cell_distinct(width: int, height: int, column: int, row: int, a: int, b: int)
    requires
        2 <= width,
        0 <= column,
        0 <= a < b < cell_springs(width, height, column, row).len(),
    ensures
        !same_pair(
            cell_springs(width, height, column, row)[a],
            cell_springs(width, height, column, row)[b],
        ),
{
}

/// Constraints that start at different cells join different pairs of
/// particles.
proof fn lemma_cells_apart(
    width: int,
    height: int,
    column1: int,
    row1: int,
    column2: int,
    row2: int,
    s1: SpringModel,
    s2: SpringModel,
)
    requires
        2 <= width,
        in_grid(width, height, column1, row1),
        in_grid(width, height, column2, row2),
        column1 != column2 || row1 != row2,
        starts_at(width, height, column1, row1, s1),
        starts_at(width, height, column2, row2, s2),
    ensures
        !same_pair(s1, s2),
{
    let i1 = cell_index(width, column1, row1);
    let i2 = cell_index(width, column2, row2);
    lemma_cell_position(width, column1, row1);
    lemma_cell_position(width, column2, row2);
    if same_pair(s1, s2) {
        assert(i1 != i2);
        if s1.first == i1 + 1 && s2.first == i2 {
            lemma_cell_position(width, column1 + 1, row1);
            assert(cell_index(width, column1 + 1, row1) == i2);
            assert(false);
        } else if s2.first == i2 + 1 && s1.first == i1 {
            lemma_cell_position(width, column2 + 1, row2);
            assert(cell_index(width, column2 + 1, row2) == i1);
            assert(false);
        }
        assert(false);
    }
}

proof fn lemma_row_origin(width: int, height: int, row: int, columns: int, k: int)
    requires
        0 <= k < row_springs(width, height, row, columns).len(),
    ensures
        exists|column: int|
            0 <= column < columns && #[trigger] starts_at(
                width,
                height,
                column,
                row,
                row_springs(width, height, row, columns)[k],
            ),
    decreases columns,
{
    if columns > 0 {
        let before = row_springs(width, height, row, columns - 1);
        if k < before.len() {
            lemma_row_origin(width, height, row, columns - 1, k);
            let column = choose|column: int|
                0 <= column < columns - 1 && #[trigger] starts_at(
                    width,
                    height,
                    column,
                    row,
                    before[k],
                );
            assert(starts_at(
                width,
                height,
                column,
                row,
                row_springs(width, height, row, columns)[k],
            ));
        } else {
            lemma_cell_origin(width, height, columns - 1, row, k - before.len());
            assert(starts_at(
                width,
                height,
                columns - 1,
                row,
                row_springs(width, height, row, columns)[k],
            ));
        }
    }
}

proof fn lemma_row_distinct(width: int, height: int, row: int, columns: int, a: int, b: int)
    requires
        2 <= width,
        0 <= row < height,
        0 <= columns <= width,
        0 <= a < b < row_springs(width, height, row, columns).len(),
    ensures
        !same_pair(
            row_springs(width, height, row, columns)[a],
            row_springs(width, height, row, columns)[b],
        ),
    decreases columns,
{
    if columns > 0 {
        let before = row_springs(width, height, row, columns - 1);
        let cell = cell_springs(width, height, columns - 1, row);
        if b < before.len() {
            lemma_row_distinct(width, height, row, columns - 1, a, b);
        } else if a >= before.len() {
            lemma_cell_distinct(width, height, columns - 1, row, a - before.len(), b - before.len());
        } else {
            lemma_row_origin(width, height, row, columns - 1, a);
            let column = choose|column: int|
                0 <= column < columns - 1 && #[trigger] starts_at(
                    width,
                    height,
                    column,
                    row,
                    before[a],
                );
            lemma_cell_origin(width, height, columns - 1, row, b - before.len());
            lemma_cells_apart(
                width,
                height,
                column,
                row,
                columns - 1,
                row,
                before[a],
                cell[b - before.len()],
            );
        }
    }
}

/// Whether `s` starts at a cell of one of the first `rows` rows.
pub open spec fn starts_in_rows(width: int, height: int, rows: int, s: SpringModel) -> bool {
    exists|column: int, row: int|
        0 <= column < width && 0 <= row < rows && #[trigger] starts_at(
            width,
            height,
            column,
            row,
            s,
        )
}

proof fn lemma_rows_origin(width: int, height: int, rows: int, k: int)
    requires
        0 <= k < rows_springs(width, height, rows).len(),
    ensures
        starts_in_rows(width, height, rows, rows_springs(width, height, rows)[k]),
    decreases rows,
{
    if rows > 0 {
        let before = rows_springs(width, height, rows - 1);
        let s = rows_springs(width, height, rows)[k];
        if k < before.len() {
            lemma_rows_origin(width, height, rows - 1, k);
            let (column, row) = choose|column: int, row: int|
                0 <= column < width && 0 <= row < rows - 1 && #[trigger] starts_at(
                    width,
                    height,
                    column,
                    row,
                    s,
                );
            assert(starts_at(width, height, column, row, s));
        } else {
            lemma_row_origin(width, height, rows - 1, width, k - before.len());
            let column = choose|column: int|
                0 <= column < width && #[trigger] starts_at(width, height, column, rows - 1, s);
            assert(starts_at(width, height, column, rows - 1, s));
        }
    }
}

proof fn lemma_rows_distinct(width: int, height: int, rows: int, a: int, b: int)
    requires
        2 <= width,
        0 <= rows <= height,
        0 <= a < b < rows_springs(width, height, rows).len(),
    ensures
        !same_pair(rows_springs(width, height, rows)[a], rows_springs(width, height, rows)[b]),
    decreases rows,
{
    if rows > 0 {
        let before = rows_springs(width, height, rows - 1);
        let last = row_springs(width, height, rows - 1, width);
        if b < before.len() {
            lemma_rows_distinct(width, height, rows - 1, a, b);
        } else if a >= before.len() {
            lemma_row_distinct(width, height, rows - 1, width, a - before.len(), b - before.len());
        } else {
            lemma_rows_origin(width, height, rows - 1, a);
            let (column1, row1) = choose|column: int, row: int|
                0 <= column < width && 0 <= row < rows - 1 && #[trigger] starts_at(
                    width,
                    height,
                    column,
                    row,
                    before[a],
                );
            lemma_row_origin(width, height, rows - 1, width, b - before.len());
            let column2 = choose|column: int|
                0 <= column < width && #[trigger] starts_at(
                    width,
                    height,
                    column,
                    rows - 1,
                    last[b - before.len()],
                );
            lemma_cells_apart(
                width,
                height,
                column1,
                row1,
                column2,
                rows - 1,
                before[a],
                last[b - before.len()],
            );
        }
    }
}

/// Every constraint of the grid starts at one of its cells.
pub proof fn lemma_grid_spring_origin(width: int, height: int, k: int)
    requires
        0 <= k < grid_springs(width, height).len(),
    ensures
        starts_in_rows(width, height, height, grid_springs(width, height)[k]),
{
    lemma_rows_origin(width, height, height, k);
}

/// No two constraints of the grid join the same pair of particles.
pub proof fn lemma_grid_pairs_distinct(width: int, height: int, a: int, b: int)
    requires
        2 <= width,
        2 <= height,
        0 <= a < grid_springs(width, height).len(),
        0 <= b < grid_springs(width, height).len(),
        a != b,
    ensures
        !same_pair(grid_springs(width, height)[a], grid_springs(width, height)[b]),
{
    if a < b {
        lemma_rows_distinct(width, height, height, a, b);
    } else {
        lemma_rows_distinct(width, height, height, b, a);
    }
}

/// What holds of a constraint that starts at a cell of the grid: its
/// endpoints are two different particles of the grid, the first with the
/// smaller index, and its squared rest length is the squared distance between
/// the cells of its endpoints, both measured in grid spacings.
pub proof fn lemma_spring_shape(width: int, height: int, column: int, row: int, s: SpringModel)
    requires
        2 <= width,
        in_grid(width, height, column, row),
        starts_at(width, height, column, row, s),
    ensures
        0 <= s.first < s.second < width * height,
        ({
            let across = column_of(width, s.second) - column_of(width, s.first);
            let down = row_of(width, s.second) - row_of(width, s.first);
            across * across + down * down == s.kind.rest_squared()
        }),
{
    let i = cell_index(width, column, row);
    lemma_cell_position(width, column, row);
    lemma_cell_bound(width, height, column, row);
    if s.second == i + 1 && s.kind == SpringKind::Stretch {
        lemma_cell_position(width, column + 1, row);
        lemma_cell_bound(width, height, column + 1, row);
    } else if s.second == i + 2 && s.kind == SpringKind::Bend {
        lemma_cell_position(width, column + 2, row);
        lemma_cell_bound(width, height, column + 2, row);
    } else if s.second == i + width && s.kind == SpringKind::Stretch {
        lemma_cell_position(width, column, row + 1);
        lemma_cell_bound(width, height, column, row + 1);
        assert((row + 1) * width == row * width + width) by (nonlinear_arith);
    } else if s.second == i + 2 * width && s.kind == SpringKind::Bend {
        lemma_cell_position(width, column, row + 2);
        lemma_cell_bound(width, height, column, row + 2);
        assert((row + 2) * width == row * width + 2 * width) by (nonlinear_arith);
    } else if s.first == i {
        lemma_cell_position(width, column + 1, row + 1);
        lemma_cell_bound(width, height, column + 1, row + 1);
        assert((row + 1) * width == row * width + width) by (nonlinear_arith);
    } else {
        lemma_cell_position(width, column + 1, row);
        lemma_cell_position(width, column, row + 1);
        lemma_cell_bound(width, height, column, row + 1);
        assert((row + 1) * width == row * width + width) by (nonlinear_arith);
    }
    let across = column_of(width, s.second) - column_of(width, s.first);
    let down = row_of(width, s.second) - row_of(width, s.first);
    let rest = s.kind.rest_squared();
    assert(across * across + down * down == rest) by (nonlinear_arith)
        requires
            (across == 1 && down == 0 && rest == 1) || (across == 2 && down == 0 && rest == 4) || (
            across == 0 && down == 1 && rest == 1) || (across == 0 && down == 2 && rest == 4) || (
            across == 1 && down == 1 && rest == 2) || (across == -1 && down == 1 && rest == 2),
    ;
}

} // verus!

//! Building a cloth: the particles of the grid and the constraints between
//! them, in the order in which the cells are walked.

use vstd::prelude::*;
use crate::cloth::placement;
use crate::particle::Particle;
use crate::spring::{models, Spring, SpringKind};
use crate::topology::{
    cell_springs, column_links, diagonal_links, grid_springs, lemma_cell_bound,
    lemma_cell_position, row_links, row_springs, rows_springs,
};

verus! {

/// The particles of a grid, row by row, the top row pinned, each at rest
/// where `place` puts it.
pub(crate) fn build_particles<V: Copy, F: Fn(usize, usize) -> V>(
    width: usize,
    height: usize,
    place: &F,
) -> (particles: Vec<Particle<V>>)
    requires
        0 < width,
        width * height <= usize::MAX,
        forall|column: usize, row: usize| call_requires(*place, (column, row)),
    ensures
        particles@.len() == width * height,
        forall|i: int|
            0 <= i < particles@.len() ==> placement(
                *place,
                width as int,
                i,
                #[trigger] particles@[i],
            ),
{
    let mut particles: Vec<Particle<V>> = Vec::new();
    let mut y: usize = 0;
    while y < height
        invariant
            forall|column: usize, row: usize| call_requires(*place, (column, row)),
            0 < width,
            y <= height,
            width * height <= usize::MAX,
            particles@.len() == y * width,
            forall|i: int|
                0 <= i < particles@.len() ==> placement(
                    *place,
                    width as int,
                    i,
                    #[trigger] particles@[i],
                ),
        decreases height - y,
    {
        let mut x: usize = 0;
        while x < width
            invariant
                forall|column: usize, row: usize| call_requires(*place, (column, row)),
                0 < width,
                y < height,
                x <= width,
                width * height <= usize::MAX,
                particles@.len() == y * width + x,
                forall|i: int|
                    0 <= i < particles@.len() ==> placement(
                        *place,
                        width as int,
                        i,
                        #[trigger] particles@[i],
                    ),
            decreases width - x,
        {
            proof {
                lemma_cell_position(width as int, x as int, y as int);
                lemma_cell_bound(width as int, height as int, x as int, y as int);
            }
            let mut p = Particle::new(place(x, y), x, y);
            if y == 0 {
                p.is_pinned = true;
            }
            particles.push(p);
            x += 1;
        }
        proof {
            assert((y + 1) * width == y * width + width) by (nonlinear_arith);
        }
        y += 1;
    }
    proof {
        assert(height * width == width * height) by (nonlinear_arith);
    }
    particles
}

/// Appends the constraints along the row that start at the cell with index
/// `current_idx` in column `x`.
fn push_row_links(springs: &mut Vec<Spring>, width: usize, x: usize, current_idx: usize)
    requires
        2 <= width,
        x < width,
        current_idx + (width - 1 - x) <= usize::MAX,
    ensures
        models(final(springs)@) == models(old(springs)@) + row_links(
            width as int,
            x as int,
            current_idx as int,
        ),
{
    if x < width - 1 {
        springs.push(
            Spring { p1_idx: current_idx, p2_idx: current_idx + 1, kind: SpringKind::Stretch },
        );
        if x < width - 2 {
            springs.push(
                Spring { p1_idx: current_idx, p2_idx: current_idx + 2, kind: SpringKind::Bend },
            );
        }
    }
    assert(models(springs@) =~= models(old(springs)@) + row_links(
        width as int,
        x as int,
        current_idx as int,
    ));
}

/// Appends the constraints down the column that start at the cell with index
/// `current_idx` in row `y`.
fn push_column_links(
    springs: &mut Vec<Spring>,
    width: usize,
    height: usize,
    y: usize,
    current_idx: usize,
)
    requires
        2 <= height,
        y < height,
        y + 1 < height ==> current_idx + width <= usize::MAX,
        y + 2 < height ==> current_idx + 2 * width <= usize::MAX,
    ensures
        models(final(springs)@) == models(old(springs)@) + column_links(
            width as int,
            height as int,
            y as int,
            current_idx as int,
        ),
{
    if y < height - 1 {
        springs.push(
            Spring { p1_idx: current_idx, p2_idx: current_idx + width, kind: SpringKind::Stretch },
        );
        if y < height - 2 {
            springs.push(
                Spring {
                    p1_idx: current_idx,
                    p2_idx: current_idx + 2 * width,
                    kind: SpringKind::Bend,
                },
            );
        }
    }
    assert(models(springs@) =~= models(old(springs)@) + column_links(
        width as int,
        height as int,
        y as int,
        current_idx as int,
    ));
}

/// Appends the two diagonals of the square whose upper left corner is the
/// cell with index `current_idx` in column `x` of row `y`.
fn push_diagonal_links(
    springs: &mut Vec<Spring>,
    width: usize,
    height: usize,
    x: usize,
    y: usize,
    current_idx: usize,
)
    requires
        2 <= width,
        2 <= height,
        x < width,
        y < height,
        x + 1 < width && y + 1 < height ==> current_idx + width + 1 <= usize::MAX,
    ensures
        models(final(springs)@) == models(old(springs)@) + diagonal_links(
            width as int,
            height as int,
            x as int,
            y as int,
            current_idx as int,
        ),
{
    if x < width - 1 && y < height - 1 {
        springs.push(
            Spring {
                p1_idx: current_idx,
                p2_idx: current_idx + width + 1,
                kind: SpringKind::Shear,
            },
        );
        springs.push(
            Spring {
                p1_idx: current_idx + 1,
                p2_idx: current_idx + width,
                kind: SpringKind::Shear,
            },
        );
    }
    assert(models(springs@) =~= models(old(springs)@) + diagonal_links(
        width as int,
        height as int,
        x as int,
        y as int,
        current_idx as int,
    ));
}

/// Appends the constraints that start at the cell in column `x` of row `y`.
fn push_cell_springs(springs: &mut Vec<Spring>, width: usize, height: usize, x: usize, y: usize)
    requires
        2 <= width,
        2 <= height,
        width * height <= usize::MAX,
        x < width,
        y < height,
    ensures
        models(final(springs)@) == models(old(springs)@) + cell_springs(
            width as int,
            height as int,
            x as int,
            y as int,
        ),
{
    let ghost w = width as int;
    let ghost h = height as int;
    proof {
        lemma_cell_bound(w, h, 0, y as int);
        lemma_cell_bound(w, h, x as int, y as int);
        lemma_cell_bound(w, h, w - 1, y as int);
        if y + 1 < height {
            lemma_cell_bound(w, h, w - 1, y + 1);
            assert((y + 1) * w == y * w + w) by (nonlinear_arith);
        }
        if y + 2 < height {
            lemma_cell_bound(w, h, w - 1, y + 2);
            assert((y + 2) * w == y * w + 2 * w) by (nonlinear_arith);
        }
    }
    let current_idx = y * width + x;
    let ghost before = models(springs@);
    push_row_links(springs, width, x, current_idx);
    push_column_links(springs, width, height, y, current_idx);
    push_diagonal_links(springs, width, height, x, y, current_idx);
    assert(models(springs@) =~= before + cell_springs(w, h, x as int, y as int));
}

/// The constraints of a grid, cell by cell and row by row.
pub(crate) fn build_springs(width: usize, height: usize) -> (springs: Vec<Spring>)
    requires
        2 <= width,
        2 <= height,
        width * height <= usize::MAX,
    ensures
        models(springs@) == grid_springs(width as int, height as int),
{
    let mut springs: Vec<Spring> = Vec::new();
    let ghost w = width as int;
    let ghost h = height as int;
    let mut y: usize = 0;
    while y < height
        invariant
            2 <= width,
            2 <= height,
            w == width,
            h == height,
            w * h <= usize::MAX,
            y <= height,
            models(springs@) == rows_springs(w, h, y as int),
        decreases height - y,
    {
        let mut x: usize = 0;
        while x < width
            invariant
                2 <= width,
                2 <= height,
                w == width,
                h == height,
                w * h <= usize::MAX,
                y < height,
                x <= width,
                models(springs@) == rows_springs(w, h, y as int) + row_springs(
                    w,
                    h,
                    y as int,
                    x as int,
                ),
            decreases width - x,
        {
            push_cell_springs(&mut springs, width, height, x, y);
            assert(models(springs@) =~= rows_springs(w, h, y as int) + row_springs(
                w,
                h,
                y as int,
                x + 1,
            ));
            x += 1;
        }
        y += 1;
    }
    springs
}

} // verus!

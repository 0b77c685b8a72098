//! The playfield: a bounded grid of cell labels with a wall border and
//! a floor, the collision predicate, the lock operation and the
//! line-clear algorithm.

use vstd::prelude::*;
use crate::block::{BlockColor, BlockShape, NONE, WALL, is_piece_color, shape_dims_ok,
    piece_shape_wf};

verus! {

/// The top-left anchor of a piece's 4x4 bounding box, in field
/// coordinates (column `x`, row `y`).
#[derive(Clone, Copy, Debug, PartialEq, Eq, Structural)]
pub struct Position {
    pub x: usize,
    pub y: usize,
}

/// The locked state of the play area: `cells[r][c]` is the label of
/// row `r`, column `c`.
pub struct Playfield {
    pub cells: Vec<Vec<BlockColor>>,
}

/// Every row has the same width as the first.
pub open spec fn grid_rect(f: Seq<Seq<BlockColor>>) -> bool {
    forall|r: int| 0 <= r < f.len() ==> (#[trigger] f[r]).len() == f[0].len()
}

/// A playable row: walls at both ends, interior cells empty or locked
/// piece colors.
pub open spec fn row_wf(row: Seq<BlockColor>, w: int) -> bool {
    &&& row.len() == w
    &&& row[0] == WALL
    &&& row[w - 1] == WALL
    &&& forall|c: int| 1 <= c < w - 1 ==> (#[trigger] row[c] == NONE || is_piece_color(row[c]))
}

/// A row made of wall cells only (the floor).
pub open spec fn wall_row(row: Seq<BlockColor>, w: int) -> bool {
    &&& row.len() == w
    &&& forall|c: int| 0 <= c < w ==> #[trigger] row[c] == WALL
}

/// A well-formed field: at least one playable row over a floor, at
/// least one interior column, playable rows above a wall floor.
pub open spec fn field_wf(f: Seq<Seq<BlockColor>>) -> bool {
    &&& f.len() >= 2
    &&& f[0].len() >= 3
    &&& forall|r: int| 0 <= r < f.len() - 1 ==> row_wf(#[trigger] f[r], f[0].len() as int)
    &&& wall_row(f[f.len() - 1], f[0].len() as int)
}

/// A well-formed field is rectangular.
pub proof fn lemma_field_wf_rect(f: Seq<Seq<BlockColor>>)
    requires
        field_wf(f),
    ensures
        grid_rect(f),
{
}

/// An empty playable row: walls at both ends, `NONE` between them.
pub open spec fn spec_empty_row(w: int) -> Seq<BlockColor> {
    Seq::new(
        w as nat,
        |c: int|
            if c == 0 || c == w - 1 {
                WALL
            } else {
                NONE
            },
    )
}

/// A fresh field: empty playable rows over a wall floor.
pub open spec fn spec_empty_field(w: int, h: int) -> Seq<Seq<BlockColor>> {
    Seq::new(
        h as nat,
        |r: int|
            if r == h - 1 {
                Seq::new(w as nat, |c: int| WALL)
            } else {
                spec_empty_row(w)
            },
    )
}

impl Playfield {
    /// Allocates the grid: a wall border left and right of each playable
    /// row, a wall floor below, everything else empty.
    pub fn new(interior_width: usize, interior_height: usize) -> (field: Playfield)
        requires
            1 <= interior_width,
            1 <= interior_height,
            interior_width + 2 <= usize::MAX,
            interior_height + 1 <= usize::MAX,
        ensures
            field.cells.deep_view() == spec_empty_field(
                interior_width + 2,
                interior_height + 1,
            ),
            field_wf(field.cells.deep_view()),
            field.cells@.len() == interior_height + 1,
    {
        let w = interior_width + 2;
        let h = interior_height + 1;
        let mut cells: Vec<Vec<BlockColor>> = Vec::new();
        let mut r: usize = 0;
        while r < h
            invariant
                w == interior_width + 2,
                h == interior_height + 1,
                3 <= w,
                2 <= h,
                r <= h,
                cells@.len() == r,
                forall|i: int| 0 <= i < r ==> (#[trigger] cells@[i]).deep_view()
                    == spec_empty_field(w as int, h as int)[i],
            decreases h - r,
        {
            let mut row: Vec<BlockColor> = Vec::new();
            let mut c: usize = 0;
            while c < w
                invariant
                    3 <= w,
                    2 <= h,
                    r < h,
                    c <= w,
                    row@.len() == c,
                    forall|j: int| 0 <= j < c ==> #[trigger] row@[j] == (if r == h - 1 {
                        WALL
                    } else {
                        spec_empty_row(w as int)[j]
                    }),
                decreases w - c,
            {
                if r == h - 1 || c == 0 || c == w - 1 {
                    row.push(WALL);
                } else {
                    row.push(NONE);
                }
                c = c + 1;
            }
            proof {
                assert(row.deep_view() =~= spec_empty_field(w as int, h as int)[r as int]);
            }
            cells.push(row);
            r = r + 1;
        }
        let field = Playfield { cells };
        proof {
            assert(field.cells.deep_view() =~= spec_empty_field(w as int, h as int));
            let f = field.cells.deep_view();
            assert forall|i: int| 0 <= i < f.len() - 1 implies row_wf(
                #[trigger] f[i],
                f[0].len() as int,
            ) by {
                assert(f[i] == spec_empty_row(w as int));
            }
            assert(wall_row(f[f.len() - 1], f[0].len() as int));
        }
        field
    }
}

/// The shape cell (r, c) collides: it is active and maps onto a cell
/// that is outside the field or not empty.
pub open spec fn cell_hits(
    f: Seq<Seq<BlockColor>>,
    x: int,
    y: int,
    s: Seq<Seq<BlockColor>>,
    r: int,
    c: int,
) -> bool {
    s[r][c] != NONE && (y + r >= f.len() || x + c >= f[0].len() || f[y + r][x + c] != NONE)
}

/// The shape at anchor (x, y) overlaps a non-empty cell or leaves the
/// field: at least one of its active cells hits.
pub open spec fn spec_collides(
    f: Seq<Seq<BlockColor>>,
    x: int,
    y: int,
    s: Seq<Seq<BlockColor>>,
) -> bool {
    exists|r: int, c: int| 0 <= r < 4 && 0 <= c < 4 && #[trigger] cell_hits(f, x, y, s, r, c)
}

/// Returns true iff at least one active cell of `shape`, anchored at
/// `pos`, maps onto a non-empty field cell or falls outside the field.
pub fn is_collision(field: &Playfield, pos: &Position, shape: &BlockShape) -> (b: bool)
    requires
        grid_rect(field.cells.deep_view()),
        shape_dims_ok(shape.deep_view()),
        pos.x + 4 <= usize::MAX,
        pos.y + 4 <= usize::MAX,
    ensures
        b == spec_collides(
            field.cells.deep_view(),
            pos.x as int,
            pos.y as int,
            shape.deep_view(),
        ),
{
    let ghost f = field.cells.deep_view();
    let ghost s = shape.deep_view();
    let ghost px = pos.x as int;
    let ghost py = pos.y as int;
    let mut r: usize = 0;
    while r < 4
        invariant
            f == field.cells.deep_view(),
            s == shape.deep_view(),
            px == pos.x as int,
            py == pos.y as int,
            grid_rect(f),
            shape_dims_ok(s),
            pos.x + 4 <= usize::MAX,
            pos.y + 4 <= usize::MAX,
            r <= 4,
            forall|rr: int, cc: int|
                0 <= rr < r && 0 <= cc < 4 ==> !#[trigger] cell_hits(f, px, py, s, rr, cc),
        decreases 4 - r,
    {
        let mut c: usize = 0;
        while c < 4
            invariant
                f == field.cells.deep_view(),
                s == shape.deep_view(),
                px == pos.x as int,
                py == pos.y as int,
                grid_rect(f),
                shape_dims_ok(s),
                pos.x + 4 <= usize::MAX,
                pos.y + 4 <= usize::MAX,
                r < 4,
                c <= 4,
                forall|rr: int, cc: int|
                    0 <= rr < r && 0 <= cc < 4 ==> !#[trigger] cell_hits(f, px, py, s, rr, cc),
                forall|cc: int| 0 <= cc < c ==> !#[trigger] cell_hits(f, px, py, s, r as int, cc),
            decreases 4 - c,
        {
            proof {
                assert(shape@.len() == s.len());
                assert(s[r as int] == shape@[r as int].deep_view());
            }
            if shape[r][c] != NONE {
                let fy = pos.y + r;
                let fx = pos.x + c;
                if fy >= field.cells.len() {
                    proof {
                        assert(cell_hits(f, px, py, s, r as int, c as int));
                    }
                    return true;
                }
                proof {
                    assert(f[fy as int] == field.cells@[fy as int].deep_view());
                }
                if fx >= field.cells[fy].len() {
                    proof {
                        assert(f[fy as int].len() == f[0].len());
                        assert(cell_hits(f, px, py, s, r as int, c as int));
                    }
                    return true;
                }
                if field.cells[fy][fx] != NONE {
                    proof {
                        assert(f[fy as int][fx as int] != NONE);
                        assert(cell_hits(f, px, py, s, r as int, c as int));
                    }
                    return true;
                }
                proof {
                    assert(!cell_hits(f, px, py, s, r as int, c as int));
                }
            } else {
                proof {
                    assert(!cell_hits(f, px, py, s, r as int, c as int));
                }
            }
            c = c + 1;
        }
        r = r + 1;
    }
    false
}

/// One row after a piece row is burned in: active shape cells replace
/// the old labels, the rest stay.
pub open spec fn spec_lock_row(row: Seq<BlockColor>, x: int, srow: Seq<BlockColor>) -> Seq<
    BlockColor,
> {
    Seq::new(
        row.len(),
        |c: int|
            if x <= c < x + 4 && srow[c - x] != NONE {
                srow[c - x]
            } else {
                row[c]
            },
    )
}

/// The field after a shape anchored at (x, y) is burned in.
pub open spec fn spec_lock(
    f: Seq<Seq<BlockColor>>,
    x: int,
    y: int,
    s: Seq<Seq<BlockColor>>,
) -> Seq<Seq<BlockColor>> {
    Seq::new(
        f.len(),
        |r: int|
            if y <= r < y + 4 {
                spec_lock_row(f[r], x, s[r - y])
            } else {
                f[r]
            },
    )
}

/// Writes every active cell of `shape` into the field. The caller must
/// already have checked that the placement does not collide.
pub fn lock(field: &mut Playfield, pos: &Position, shape: &BlockShape)
    requires
        grid_rect(old(field).cells.deep_view()),
        shape_dims_ok(shape.deep_view()),
        pos.x + 4 <= usize::MAX,
        pos.y + 4 <= usize::MAX,
        !spec_collides(
            old(field).cells.deep_view(),
            pos.x as int,
            pos.y as int,
            shape.deep_view(),
        ),
    ensures
        final(field).cells.deep_view() == spec_lock(
            old(field).cells.deep_view(),
            pos.x as int,
            pos.y as int,
            shape.deep_view(),
        ),
{
    let ghost f = field.cells.deep_view();
    let ghost s = shape.deep_view();
    let ghost px = pos.x as int;
    let ghost py = pos.y as int;
    let h = field.cells.len();
    let mut out: Vec<Vec<BlockColor>> = Vec::new();
    let mut rr: usize = 0;
    while rr < h
        invariant
            f == field.cells.deep_view(),
            s == shape.deep_view(),
            px == pos.x as int,
            py == pos.y as int,
            grid_rect(f),
            shape_dims_ok(s),
            pos.x + 4 <= usize::MAX,
            pos.y + 4 <= usize::MAX,
            h == f.len(),
            rr <= h,
            out@.len() == rr,
            forall|i: int| 0 <= i < rr ==> (#[trigger] out@[i]).deep_view() == spec_lock(
                f,
                px,
                py,
                s,
            )[i],
        decreases h - rr,
    {
        proof {
            assert(f[rr as int] == field.cells@[rr as int].deep_view());
            assert(f[rr as int].len() == f[0].len());
        }
        let wr = field.cells[rr].len();
        let mut row: Vec<BlockColor> = Vec::new();
        let mut cc: usize = 0;
        while cc < wr
            invariant
                f == field.cells.deep_view(),
                s == shape.deep_view(),
                px == pos.x as int,
                py == pos.y as int,
                grid_rect(f),
                shape_dims_ok(s),
                pos.x + 4 <= usize::MAX,
                pos.y + 4 <= usize::MAX,
                h == f.len(),
                rr < h,
                wr == f[rr as int].len(),
                cc <= wr,
                row@.len() == cc,
                forall|j: int|
                    0 <= j < cc ==> #[trigger] row@[j] == (if py <= rr < py + 4 {
                        spec_lock_row(f[rr as int], px, s[rr - py])[j]
                    } else {
                        f[rr as int][j]
                    }),
            decreases wr - cc,
        {
            proof {
                assert(f[rr as int] == field.cells@[rr as int].deep_view());
            }
            let mut v: BlockColor = field.cells[rr][cc];
            if rr >= pos.y && rr < pos.y + 4 && cc >= pos.x && cc < pos.x + 4 {
                let sr = rr - pos.y;
                let sc = cc - pos.x;
                proof {
                    assert(shape@.len() == s.len());
                    assert(s[sr as int] == shape@[sr as int].deep_view());
                }
                let sv = shape[sr][sc];
                if sv != NONE {
                    v = sv;
                }
            }
            row.push(v);
            cc = cc + 1;
        }
        proof {
            if py <= rr < py + 4 {
                assert(row.deep_view() =~= spec_lock_row(f[rr as int], px, s[rr - py]));
            } else {
                assert(row.deep_view() =~= f[rr as int]);
            }
            assert(row.deep_view() == spec_lock(f, px, py, s)[rr as int]);
        }
        out.push(row);
        rr = rr + 1;
    }
    field.cells = out;
    proof {
        assert(field.cells.deep_view() =~= spec_lock(f, px, py, s));
    }
}

/// Burning a piece into empty cells keeps the field well-formed: only
/// interior empty cells receive labels, and those labels are piece
/// colors.
pub proof fn lemma_lock_preserves_wf(
    f: Seq<Seq<BlockColor>>,
    x: int,
    y: int,
    s: Seq<Seq<BlockColor>>,
)
    requires
        field_wf(f),
        piece_shape_wf(s),
        0 <= x,
        0 <= y,
        !spec_collides(f, x, y, s),
    ensures
        field_wf(spec_lock(f, x, y, s)),
{
    let g = spec_lock(f, x, y, s);
    let w = f[0].len() as int;
    assert(g[0].len() == w);
    assert forall|r: int| 0 <= r < g.len() - 1 implies row_wf(#[trigger] g[r], w) by {
        if y <= r < y + 4 {
            let gr = spec_lock_row(f[r], x, s[r - y]);
            assert forall|c: int| 0 <= c < w implies gr[c] == f[r][c] || (f[r][c] == NONE
                && is_piece_color(gr[c])) by {
                if x <= c < x + 4 && s[r - y][c - x] != NONE {
                    assert(!cell_hits(f, x, y, s, r - y, c - x));
                    assert(f[r][c] == NONE);
                    assert(is_piece_color(s[r - y][c - x]));
                }
            }
            assert(gr[0] == WALL);
            assert(gr[w - 1] == WALL);
        }
    }
    let fl = g.len() - 1;
    assert forall|c: int| 0 <= c < w implies #[trigger] g[fl][c] == WALL by {
        if y <= fl < y + 4 && x <= c < x + 4 && s[fl - y][c - x] != NONE {
            assert(!cell_hits(f, x, y, s, fl - y, c - x));
            assert(f[fl][c] == NONE);
            assert(f[fl][c] == WALL);
        }
    }
}

/// Locking a non-colliding piece occupies its cells: the same
/// (position, shape) collides against the updated field.
pub proof fn lemma_lock_then_collides(
    f: Seq<Seq<BlockColor>>,
    x: int,
    y: int,
    s: Seq<Seq<BlockColor>>,
)
    requires
        grid_rect(f),
        piece_shape_wf(s),
        0 <= x,
        0 <= y,
        !spec_collides(f, x, y, s),
    ensures
        spec_collides(spec_lock(f, x, y, s), x, y, s),
{
    let g = spec_lock(f, x, y, s);
    let (r0, c0) = choose|r: int, c: int| 0 <= r < 4 && 0 <= c < 4 && #[trigger] s[r][c] != NONE;
    assert(!cell_hits(f, x, y, s, r0, c0));
    assert(y + r0 < f.len() && x + c0 < f[0].len());
    assert(f[y + r0].len() == f[0].len());
    assert(g[y + r0][x + c0] == s[r0][c0]);
    assert(g[0].len() == f[0].len());
    assert(cell_hits(g, x, y, s, r0, c0));
}

/// A piece with at least one active cell can rest without collision
/// only with its anchor inside the field.
pub proof fn lemma_noncolliding_in_bounds(
    f: Seq<Seq<BlockColor>>,
    x: int,
    y: int,
    s: Seq<Seq<BlockColor>>,
)
    requires
        piece_shape_wf(s),
        0 <= x,
        0 <= y,
        !spec_collides(f, x, y, s),
    ensures
        y < f.len(),
        x < f[0].len(),
{
    let (r0, c0) = choose|r: int, c: int| 0 <= r < 4 && 0 <= c < 4 && #[trigger] s[r][c] != NONE;
    assert(!cell_hits(f, x, y, s, r0, c0));
}

/// A complete row: every interior cell (the border columns excluded)
/// is occupied.
pub open spec fn row_complete(row: Seq<BlockColor>) -> bool {
    forall|c: int| 1 <= c < row.len() - 1 ==> #[trigger] row[c] != NONE
}

/// The rows that survive a clear: the incomplete rows, in their
/// original order.
pub open spec fn kept_rows(rows: Seq<Seq<BlockColor>>) -> Seq<Seq<BlockColor>> {
    rows.filter(|row: Seq<BlockColor>| !row_complete(row))
}

/// The field after a clear: as many fresh empty rows at the top as
/// rows were removed, the incomplete rows below them, the floor last.
pub open spec fn spec_clear(f: Seq<Seq<BlockColor>>) -> Seq<Seq<BlockColor>> {
    let stack = f.drop_last();
    let kept = kept_rows(stack);
    Seq::new((stack.len() - kept.len()) as nat, |i: int| spec_empty_row(f[0].len() as int)) + kept
        + seq![f.last()]
}

/// How many rows a clear removes.
pub open spec fn spec_cleared_count(f: Seq<Seq<BlockColor>>) -> int {
    f.drop_last().len() - kept_rows(f.drop_last()).len()
}

/// Surviving rows are incomplete rows of the original stack: no more
/// rows survive than there were, each keeps its well-formedness, and
/// none of them is complete.
pub proof fn lemma_kept_rows_wf(rows: Seq<Seq<BlockColor>>, w: int)
    requires
        forall|r: int| 0 <= r < rows.len() ==> row_wf(#[trigger] rows[r], w),
    ensures
        kept_rows(rows).len() <= rows.len(),
        forall|i: int|
            0 <= i < kept_rows(rows).len() ==> row_wf(#[trigger] kept_rows(rows)[i], w)
                && !row_complete(kept_rows(rows)[i]),
    decreases rows.len(),
{
    reveal_with_fuel(Seq::filter, 2);
    if rows.len() > 0 {
        let dl = rows.drop_last();
        assert(forall|r: int| 0 <= r < dl.len() ==> row_wf(#[trigger] dl[r], w));
        lemma_kept_rows_wf(dl, w);
        if !row_complete(rows.last()) {
            assert(kept_rows(rows) == kept_rows(dl).push(rows.last()));
            assert(row_wf(rows.last(), w));
        }
    }
}

/// Tests whether every interior cell of a row is occupied.
fn is_row_complete(row: &Vec<BlockColor>) -> (b: bool)
    ensures
        b == row_complete(row@),
{
    let len = row.len();
    if len < 3 {
        return true;
    }
    let mut c: usize = 1;
    while c < len - 1
        invariant
            len == row@.len(),
            3 <= len,
            1 <= c <= len - 1,
            forall|j: int| 1 <= j < c ==> #[trigger] row@[j] != NONE,
        decreases len - c,
    {
        if row[c] == NONE {
            return false;
        }
        c = c + 1;
    }
    true
}

/// Copies one row of labels.
fn copy_row(row: &Vec<BlockColor>) -> (out: Vec<BlockColor>)
    ensures
        out@ == row@,
{
    let mut out: Vec<BlockColor> = Vec::new();
    let mut c: usize = 0;
    let len = row.len();
    while c < len
        invariant
            len == row@.len(),
            c <= len,
            out@.len() == c,
            forall|j: int| 0 <= j < c ==> #[trigger] out@[j] == row@[j],
        decreases len - c,
    {
        out.push(row[c]);
        c = c + 1;
    }
    proof {
        assert(out@ =~= row@);
    }
    out
}

/// Builds one empty playable row.
fn empty_row(w: usize) -> (out: Vec<BlockColor>)
    requires
        3 <= w,
    ensures
        out@ == spec_empty_row(w as int),
{
    let mut out: Vec<BlockColor> = Vec::new();
    let mut c: usize = 0;
    while c < w
        invariant
            3 <= w,
            c <= w,
            out@.len() == c,
            forall|j: int| 0 <= j < c ==> #[trigger] out@[j] == spec_empty_row(w as int)[j],
        decreases w - c,
    {
        if c == 0 || c == w - 1 {
            out.push(WALL);
        } else {
            out.push(NONE);
        }
        c = c + 1;
    }
    proof {
        assert(out@ =~= spec_empty_row(w as int));
    }
    out
}

/// Removes every complete row, shifts the rows above down, fills the
/// top with fresh empty rows, and returns how many rows were removed.
/// The border columns and the floor are preserved, the surviving rows
/// keep their relative order, and the row count does not change.
pub fn clear_completed_lines(field: &mut Playfield) -> (n: usize)
    requires
        field_wf(old(field).cells.deep_view()),
    ensures
        final(field).cells.deep_view() == spec_clear(old(field).cells.deep_view()),
        n == spec_cleared_count(old(field).cells.deep_view()),
        final(field).cells@.len() == old(field).cells@.len(),
        final(field).cells.deep_view()[0].len() == old(field).cells.deep_view()[0].len(),
        field_wf(final(field).cells.deep_view()),
{
    let ghost f = field.cells.deep_view();
    let ghost stack = f.drop_last();
    let ghost w_spec = f[0].len() as int;
    proof {
        reveal_with_fuel(Seq::filter, 1);
        assert(kept_rows(stack.take(0)) =~= Seq::<Seq<BlockColor>>::empty());
        lemma_kept_rows_wf(stack, w_spec);
    }
    let h = field.cells.len();
    let w = field.cells[0].len();
    let mut kept: Vec<Vec<BlockColor>> = Vec::new();
    let mut r: usize = 0;
    while r < h - 1
        invariant
            f == field.cells.deep_view(),
            stack == f.drop_last(),
            field_wf(f),
            h == f.len(),
            w == f[0].len(),
            r <= h - 1,
            forall|i: int| 0 <= i < kept@.len() ==> (#[trigger] kept@[i]).deep_view()
                == kept_rows(stack.take(r as int))[i],
            kept@.len() == kept_rows(stack.take(r as int)).len(),
        decreases h - 1 - r,
    {
        proof {
            reveal_with_fuel(Seq::filter, 2);
            assert(f[r as int] == field.cells@[r as int].deep_view());
            assert(f[r as int] =~= field.cells@[r as int]@);
            assert(stack.take(r as int + 1).drop_last() =~= stack.take(r as int));
            assert(stack.take(r as int + 1).last() == stack[r as int]);
            assert(stack[r as int] == f[r as int]);
        }
        if !is_row_complete(&field.cells[r]) {
            let row = copy_row(&field.cells[r]);
            proof {
                assert(row.deep_view() =~= f[r as int]);
                assert(!row_complete(stack.take(r as int + 1).last()));
                assert(kept_rows(stack.take(r as int + 1)) == kept_rows(
                    stack.take(r as int),
                ).push(stack[r as int]));
            }
            kept.push(row);
        } else {
            proof {
                assert(row_complete(stack.take(r as int + 1).last()));
                assert(kept_rows(stack.take(r as int + 1)) == kept_rows(stack.take(r as int)));
            }
        }
        r = r + 1;
    }
    proof {
        assert(stack.take(h - 1) =~= stack);
    }
    let n = (h - 1) - kept.len();
    let mut out: Vec<Vec<BlockColor>> = Vec::new();
    let mut i: usize = 0;
    while i < n
        invariant
            field_wf(f),
            w == f[0].len(),
            i <= n,
            out@.len() == i,
            forall|j: int| 0 <= j < i ==> (#[trigger] out@[j]).deep_view() == spec_empty_row(
                f[0].len() as int,
            ),
        decreases n - i,
    {
        let row = empty_row(w);
        proof {
            assert(row.deep_view() =~= spec_empty_row(f[0].len() as int));
        }
        out.push(row);
        i = i + 1;
    }
    let k = kept.len();
    let mut j: usize = 0;
    while j < k
        invariant
            field_wf(f),
            stack == f.drop_last(),
            w == f[0].len(),
            k == kept@.len(),
            k == kept_rows(stack).len(),
            forall|i2: int| 0 <= i2 < kept@.len() ==> (#[trigger] kept@[i2]).deep_view()
                == kept_rows(stack)[i2],
            j <= k,
            out@.len() == n + j,
            n == stack.len() - kept_rows(stack).len(),
            forall|j2: int| 0 <= j2 < n ==> (#[trigger] out@[j2]).deep_view() == spec_empty_row(
                f[0].len() as int,
            ),
            forall|j2: int| n <= j2 < n + j ==> (#[trigger] out@[j2]).deep_view() == kept_rows(
                stack,
            )[j2 - n],
        decreases k - j,
    {
        let row = copy_row(&kept[j]);
        proof {
            assert(row.deep_view() =~= kept@[j as int].deep_view());
        }
        out.push(row);
        j = j + 1;
    }
    proof {
        assert(f[h - 1] == field.cells@[h - 1].deep_view());
    }
    let floor = copy_row(&field.cells[h - 1]);
    proof {
        assert(floor.deep_view() =~= f[h - 1]);
        assert(f.last() == f[h - 1]);
    }
    out.push(floor);
    field.cells = out;
    proof {
        assert(field.cells.deep_view() =~= spec_clear(f));
        let g = field.cells.deep_view();
        assert(g.len() == f.len());
        lemma_kept_rows_wf(stack, w_spec);
        assert(g[0].len() == f[0].len()) by {
            if n > 0 {
            } else {
                if kept_rows(stack).len() > 0 {
                } else {
                    assert(g[0] == f.last());
                }
            }
        }
        assert forall|r2: int| 0 <= r2 < g.len() - 1 implies row_wf(
            #[trigger] g[r2],
            g[0].len() as int,
        ) by {
            if r2 < n {
                assert(g[r2] == spec_empty_row(w_spec));
            } else {
                assert(g[r2] == kept_rows(stack)[r2 - n]);
            }
        }
        assert(wall_row(g[g.len() - 1], g[0].len() as int));
    }
    n
}

} // verus!

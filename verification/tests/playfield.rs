//! Tests for the playfield: collision, locking and line clearing.

use tetris_core::{
    clear_completed_lines, is_collision, lock, rotate_right, shapes_for_kind, BlockKind,
    Playfield, Position,
};

const NONE: usize = 0;
const WALL: usize = 1;

fn empty_field() -> Playfield {
    Playfield::new(11, 20)
}

#[test]
fn new_field_has_walls_floor_and_empty_interior() {
    let f = empty_field();
    assert_eq!(f.cells.len(), 21);
    for (r, row) in f.cells.iter().enumerate() {
        assert_eq!(row.len(), 13);
        for (c, &v) in row.iter().enumerate() {
            if r == 20 || c == 0 || c == 12 {
                assert_eq!(v, WALL);
            } else {
                assert_eq!(v, NONE);
            }
        }
    }
}

#[test]
fn no_collision_on_empty_interior() {
    let f = empty_field();
    let i = shapes_for_kind(BlockKind::I);
    assert!(!is_collision(&f, &Position { x: 4, y: 0 }, &i));
    assert!(!is_collision(&f, &Position { x: 1, y: 10 }, &i));
}

#[test]
fn collision_with_wall_floor_and_locked_cells() {
    let mut f = empty_field();
    let i = shapes_for_kind(BlockKind::I);
    // active row of the I piece would overlap the left wall
    assert!(is_collision(&f, &Position { x: 0, y: 0 }, &i));
    // would overlap the floor
    assert!(is_collision(&f, &Position { x: 4, y: 18 }, &i));
    // rests just above the floor
    assert!(!is_collision(&f, &Position { x: 4, y: 17 }, &i));
    // a locked cell in the way
    f.cells[10][5] = 3;
    assert!(is_collision(&f, &Position { x: 4, y: 8 }, &i));
}

#[test]
fn out_of_bounds_counts_as_collision() {
    let f = empty_field();
    let i = shapes_for_kind(BlockKind::I);
    assert!(is_collision(&f, &Position { x: 10, y: 0 }, &i));
    assert!(is_collision(&f, &Position { x: 4, y: 30 }, &i));
    assert!(is_collision(&f, &Position { x: 30, y: 0 }, &i));
}

#[test]
fn locking_occupies_cells_and_then_collides() {
    let mut f = empty_field();
    let i = shapes_for_kind(BlockKind::I);
    let pos = Position { x: 4, y: 17 };
    assert!(!is_collision(&f, &pos, &i));
    lock(&mut f, &pos, &i);
    // the I piece's active row lands on field row 19, columns 4..8
    for c in 4..8 {
        assert_eq!(f.cells[19][c], i[2][0]);
    }
    // the same placement now collides against the updated field
    assert!(is_collision(&f, &pos, &i));
}

#[test]
fn clear_removes_only_complete_rows_and_keeps_height() {
    let mut f = empty_field();
    // complete row 19, partly fill row 18
    for c in 1..12 {
        f.cells[19][c] = 3;
    }
    f.cells[18][1] = 4;
    let before_height = f.cells.len();
    let n = clear_completed_lines(&mut f);
    assert_eq!(n, 1);
    assert_eq!(f.cells.len(), before_height);
    // the partly filled row shifted down onto the floor
    assert_eq!(f.cells[19][1], 4);
    for c in 2..12 {
        assert_eq!(f.cells[19][c], NONE);
    }
    // borders intact
    for r in 0..20 {
        assert_eq!(f.cells[r][0], WALL);
        assert_eq!(f.cells[r][12], WALL);
    }
    for c in 0..13 {
        assert_eq!(f.cells[20][c], WALL);
    }
}

#[test]
fn clear_preserves_relative_order_of_remaining_rows() {
    let mut f = empty_field();
    // rows 17 and 19 complete, rows 16 and 18 distinct and partial
    for c in 1..12 {
        f.cells[17][c] = 3;
        f.cells[19][c] = 5;
    }
    f.cells[16][2] = 7;
    f.cells[18][3] = 8;
    let n = clear_completed_lines(&mut f);
    assert_eq!(n, 2);
    // the two partial rows keep their order, now at the bottom
    assert_eq!(f.cells[18][2], 7);
    assert_eq!(f.cells[19][3], 8);
}

#[test]
fn clear_returns_zero_on_incomplete_rows() {
    let mut f = empty_field();
    for c in 1..11 {
        f.cells[19][c] = 3;
    }
    assert_eq!(clear_completed_lines(&mut f), 0);
    assert_eq!(f.cells[19][1], 3);
}

#[test]
fn locking_last_gap_completes_a_row() {
    let mut f = empty_field();
    // fill the bottom interior row except column 1
    for c in 2..12 {
        f.cells[19][c] = 3;
    }
    // a vertical I piece occupies column 1 of its box
    let vi = rotate_right(&shapes_for_kind(BlockKind::I));
    let pos = Position { x: 0, y: 16 };
    assert!(!is_collision(&f, &pos, &vi));
    lock(&mut f, &pos, &vi);
    let n = clear_completed_lines(&mut f);
    assert_eq!(n, 1);
    // the cleared row is gone; the rest of the vertical I shifted down
    for c in 2..12 {
        assert_eq!(f.cells[19][c], NONE);
    }
    assert_ne!(f.cells[19][1], NONE);
    assert_ne!(f.cells[18][1], NONE);
    assert_ne!(f.cells[17][1], NONE);
    assert_eq!(f.cells[16][1], NONE);
}

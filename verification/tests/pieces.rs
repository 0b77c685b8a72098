//! Tests for the piece catalog: canonical shapes, rotation, the bag.

use tetris_core::{gen_block_7, rotate_left, rotate_right, shapes_for_kind, BlockKind, BlockShape};

const ALL_KINDS: [BlockKind; 7] = [
    BlockKind::I,
    BlockKind::O,
    BlockKind::S,
    BlockKind::Z,
    BlockKind::J,
    BlockKind::L,
    BlockKind::T,
];

#[test]
fn canonical_shapes_are_4x4_single_label() {
    for k in ALL_KINDS {
        let s = shapes_for_kind(k);
        assert_eq!(s.len(), 4);
        let mut label: usize = 0;
        let mut active: usize = 0;
        for row in &s {
            assert_eq!(row.len(), 4);
            for &v in row {
                if v != 0 {
                    if label == 0 {
                        label = v;
                    }
                    assert_eq!(v, label);
                    active += 1;
                }
            }
        }
        assert_eq!(active, 4);
        assert!(label >= 3 && label <= 9);
    }
}

#[test]
fn rotate_right_four_times_is_identity() {
    for k in ALL_KINDS {
        let s = shapes_for_kind(k);
        let t = rotate_right(&rotate_right(&rotate_right(&rotate_right(&s))));
        assert_eq!(t, s);
    }
}

#[test]
fn rotate_left_undoes_rotate_right() {
    for k in ALL_KINDS {
        let s = shapes_for_kind(k);
        assert_eq!(rotate_left(&rotate_right(&s)), s);
        assert_eq!(rotate_right(&rotate_left(&s)), s);
    }
}

#[test]
fn rotate_right_turns_i_piece_vertical() {
    let i = shapes_for_kind(BlockKind::I);
    let v = rotate_right(&i);
    let label = i[2][0];
    for r in 0..4 {
        for c in 0..4 {
            if c == 1 {
                assert_eq!(v[r][c], label);
            } else {
                assert_eq!(v[r][c], 0);
            }
        }
    }
}

#[test]
fn bag_holds_each_kind_exactly_once() {
    for _ in 0..50 {
        let bag: Vec<BlockShape> = gen_block_7();
        assert_eq!(bag.len(), 7);
        for k in ALL_KINDS {
            let canonical = shapes_for_kind(k);
            let count = bag.iter().filter(|s| **s == canonical).count();
            assert_eq!(count, 1);
        }
    }
}

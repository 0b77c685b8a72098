//! Tests for the game controller: spawning, gravity, hard drop, hold,
//! game over and the gravity cadence.

use tetris_core::{
    is_collision, shapes_for_kind, tick_interval_ms, BlockKind, Game, Playfield, Position,
};

fn game_with(kind: BlockKind, queue_kinds: &[BlockKind]) -> Game {
    let mut queue = Vec::new();
    for &k in queue_kinds {
        queue.push(shapes_for_kind(k));
    }
    Game {
        field: Playfield::new(11, 20),
        shape: shapes_for_kind(kind),
        pos: Position { x: 4, y: 0 },
        queue,
        hold: None,
        cleared_lines: 0,
        game_over: false,
    }
}

#[test]
fn new_game_starts_clean() {
    let g = Game::new();
    assert!(!g.game_over);
    assert_eq!(g.cleared_lines, 0);
    assert!(g.hold.is_none());
    assert_eq!(g.queue.len(), 6);
    assert_eq!(g.pos.x, 4);
    assert_eq!(g.pos.y, 0);
    assert_eq!(g.field.cells.len(), 21);
}

#[test]
fn gravity_drops_i_piece_to_the_bottom_row() {
    let mut g = game_with(BlockKind::I, &[BlockKind::O]);
    let label = g.shape[2][0];
    let mut locked = false;
    for _ in 0..25 {
        match g.gravity_step() {
            Ok(true) => {},
            Ok(false) => {
                locked = true;
                break;
            },
            Err(_) => panic!("spawn blocked on a nearly empty field"),
        }
    }
    assert!(locked);
    // the I piece's four cells sit on the bottom interior row at its
    // spawn columns
    for c in 4..8 {
        assert_eq!(g.field.cells[19][c], label);
    }
    assert_eq!(g.cleared_lines, 0);
    // the next piece spawned at the anchor
    assert_eq!(g.pos.x, 4);
    assert_eq!(g.pos.y, 0);
    assert!(!g.game_over);
}

#[test]
fn hard_drop_locks_at_resting_row() {
    let mut g = game_with(BlockKind::I, &[BlockKind::O]);
    let label = g.shape[2][0];
    let gy = g.ghost_y();
    assert_eq!(gy, 17);
    // the resting row does not collide, one row further down would
    let shape = g.shape.clone();
    assert!(!is_collision(&g.field, &Position { x: 4, y: gy }, &shape));
    assert!(is_collision(&g.field, &Position { x: 4, y: gy + 1 }, &shape));
    assert!(g.hard_drop().is_ok());
    for c in 4..8 {
        assert_eq!(g.field.cells[19][c], label);
    }
}

#[test]
fn hard_drop_clears_a_completed_row() {
    let mut g = game_with(BlockKind::I, &[BlockKind::O]);
    // fill the bottom interior row except the I piece's four columns
    for c in 1..4 {
        g.field.cells[19][c] = 5;
    }
    for c in 8..12 {
        g.field.cells[19][c] = 5;
    }
    assert!(g.hard_drop().is_ok());
    assert_eq!(g.cleared_lines, 1);
    for c in 1..12 {
        assert_eq!(g.field.cells[19][c], 0);
    }
}

#[test]
fn rejected_moves_leave_the_state_unchanged() {
    let mut g = game_with(BlockKind::O, &[]);
    // walk left until the wall stops the piece
    for _ in 0..13 {
        g.move_left();
    }
    let stuck_x = g.pos.x;
    assert!(!g.move_left());
    assert_eq!(g.pos.x, stuck_x);
    // the O piece occupies box columns 1..3; at x = 0 they are field
    // columns 1..3, inside the interior
    assert_eq!(stuck_x, 0);
}

#[test]
fn moves_commit_when_free() {
    let mut g = game_with(BlockKind::O, &[]);
    assert!(g.move_right());
    assert_eq!(g.pos.x, 5);
    assert!(g.move_down());
    assert_eq!(g.pos.y, 1);
    assert!(g.move_left());
    assert_eq!(g.pos.x, 4);
}

#[test]
fn blocked_rotation_is_rejected() {
    let mut g = game_with(BlockKind::I, &[]);
    // drop to the resting row: the horizontal I cannot turn vertical
    // inside the bottom three rows
    let gy = g.ghost_y();
    assert!(g.move_block(Position { x: 4, y: gy }));
    let before = g.shape.clone();
    assert!(!g.rotate_piece_right());
    assert_eq!(g.shape, before);
}

#[test]
fn free_rotation_commits() {
    let mut g = game_with(BlockKind::I, &[]);
    assert!(g.move_down());
    let before = g.shape.clone();
    assert!(g.rotate_piece_right());
    assert_ne!(g.shape, before);
    assert!(g.rotate_piece_left());
    assert_eq!(g.shape, before);
}

#[test]
fn hold_stores_and_swaps_pieces() {
    let mut g = game_with(BlockKind::I, &[BlockKind::O, BlockKind::T]);
    let i_shape = g.shape.clone();
    let o_shape = shapes_for_kind(BlockKind::O);
    // first hold: the I piece is stored, the O piece spawns
    assert!(g.hold_piece().is_ok());
    assert_eq!(g.hold.as_ref(), Some(&i_shape));
    assert_eq!(g.shape, o_shape);
    assert_eq!(g.pos.x, 4);
    assert_eq!(g.pos.y, 0);
    // second hold: swap back
    assert!(g.hold_piece().is_ok());
    assert_eq!(g.hold.as_ref(), Some(&o_shape));
    assert_eq!(g.shape, i_shape);
}

#[test]
fn blocked_spawn_ends_the_game() {
    let mut g = game_with(BlockKind::I, &[BlockKind::I]);
    // occupy the spawn area so the next spawn collides
    for c in 4..8 {
        g.field.cells[2][c] = 5;
    }
    let r = g.spawn_next();
    assert_eq!(r, Err(tetris_core::SpawnBlocked));
    assert!(g.game_over);
}

#[test]
fn gravity_interval_slows_with_cleared_lines() {
    assert_eq!(tick_interval_ms(0), 1000);
    assert_eq!(tick_interval_ms(9), 1000);
    assert_eq!(tick_interval_ms(10), 900);
    assert_eq!(tick_interval_ms(35), 700);
    assert_eq!(tick_interval_ms(90), 100);
    assert_eq!(tick_interval_ms(100), 100);
    assert_eq!(tick_interval_ms(1000), 100);
}

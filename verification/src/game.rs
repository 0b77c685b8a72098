//! The game controller: piece supply from the shuffled bag, spawning,
//! movement, rotation, gravity, hard drop, hold and game-over
//! detection over one mutable game state.

use vstd::prelude::*;
use crate::block::{BlockColor, BlockShape, BlockKind, NONE, piece_shape_wf, spec_shape, spec_rotate_right, spec_rotate_left, rotate_right, rotate_left,
    lemma_rotate_right_wf, lemma_rotate_left_wf, is_full_bag, gen_block_7};
use crate::field::{Playfield, Position, field_wf, spec_collides, spec_lock,
    spec_clear, spec_cleared_count, spec_empty_field, spec_empty_row, cell_hits, is_collision,
    lock, clear_completed_lines, lemma_field_wf_rect, lemma_lock_preserves_wf,
    lemma_noncolliding_in_bounds};

verus! {

/// Field width: the interior columns plus one wall on either side.
pub const FIELD_WIDTH: usize = 13;

/// Field height: the interior rows plus the floor.
pub const FIELD_HEIGHT: usize = 21;

pub const INTERIOR_WIDTH: usize = 11;

pub const INTERIOR_HEIGHT: usize = 20;

/// The fixed spawn anchor: top row, horizontally centered.
pub const SPAWN_X: usize = 4;

pub const SPAWN_Y: usize = 0;

/// The single fatal condition: a freshly spawned piece immediately
/// collides with locked cells.
#[derive(Clone, Copy, Debug, PartialEq, Eq, Structural)]
pub struct SpawnBlocked;

/// The whole game state: locked playfield, falling piece, upcoming
/// pieces, hold slot, cleared-line counter and the game-over flag.
pub struct Game {
    pub field: Playfield,
    pub shape: BlockShape,
    pub pos: Position,
    pub queue: Vec<BlockShape>,
    pub hold: Option<BlockShape>,
    pub cleared_lines: u64,
    pub game_over: bool,
}

impl Game {
    /// The parts of the invariant that do not involve the falling
    /// piece: a well-formed field of the fixed dimensions, a queue of
    /// at most one bag of well-formed shapes, a well-formed held shape.
    pub open spec fn base_wf(self) -> bool {
        &&& field_wf(self.field.cells.deep_view())
        &&& self.field.cells.deep_view().len() == FIELD_HEIGHT
        &&& self.field.cells.deep_view()[0].len() == FIELD_WIDTH
        &&& self.queue@.len() <= 7
        &&& forall|i: int|
            0 <= i < self.queue@.len() ==> piece_shape_wf(
                (#[trigger] self.queue@[i]).deep_view(),
            )
        &&& match self.hold {
            Some(h) => piece_shape_wf(h.deep_view()),
            None => true,
        }
    }

    /// The full invariant: additionally the falling piece is a
    /// well-formed shape at an in-field anchor, and while the game is
    /// not over the piece never overlaps a non-empty cell.
    pub open spec fn wf(self) -> bool {
        &&& self.base_wf()
        &&& piece_shape_wf(self.shape.deep_view())
        &&& self.pos.x < FIELD_WIDTH
        &&& self.pos.y < FIELD_HEIGHT
        &&& !self.game_over ==> !spec_collides(
            self.field.cells.deep_view(),
            self.pos.x as int,
            self.pos.y as int,
            self.shape.deep_view(),
        )
    }

    /// The playfield, queue, hold slot, counter and game-over flag are
    /// unchanged.
    pub open spec fn same_core(pre: Game, post: Game) -> bool {
        &&& post.field == pre.field
        &&& post.queue == pre.queue
        &&& post.hold == pre.hold
        &&& post.cleared_lines == pre.cleared_lines
        &&& post.game_over == pre.game_over
    }

    /// What a spawn leaves behind: the anchor is reset, the new piece
    /// comes from the front of the queue (refilled from a fresh full
    /// bag when it was empty), and the game is over exactly when the
    /// new piece collides at the anchor against `fpre`.
    pub open spec fn spawn_post(
        qpre: Seq<Seq<Seq<BlockColor>>>,
        fpre: Seq<Seq<BlockColor>>,
        post: Game,
    ) -> bool {
        &&& post.pos.x == SPAWN_X
        &&& post.pos.y == SPAWN_Y
        &&& if qpre.len() > 0 {
            post.shape.deep_view() == qpre[0] && post.queue.deep_view() == qpre.drop_first()
        } else {
            exists|ks: Seq<BlockKind>|
                {
                    &&& #[trigger] is_full_bag(ks)
                    &&& post.shape.deep_view() == spec_shape(ks[0])
                    &&& post.queue.deep_view().len() == 6
                    &&& forall|i: int|
                        0 <= i < 6 ==> #[trigger] post.queue.deep_view()[i] == spec_shape(
                            ks[i + 1],
                        )
                }
        }
        &&& post.game_over == spec_collides(
            fpre,
            SPAWN_X as int,
            SPAWN_Y as int,
            post.shape.deep_view(),
        )
    }

    /// Starts a game: an empty field, a freshly shuffled bag, and the
    /// first piece spawned at the anchor; on the empty field that
    /// first spawn can never be blocked.
    pub fn new() -> (g: Game)
        ensures
            g.wf(),
            !g.game_over,
            g.cleared_lines == 0,
            g.hold is None,
            g.field.cells.deep_view() == spec_empty_field(
                FIELD_WIDTH as int,
                FIELD_HEIGHT as int,
            ),
            Game::spawn_post(
                Seq::<Seq<Seq<BlockColor>>>::empty(),
                g.field.cells.deep_view(),
                g,
            ),
    {
        let field = Playfield::new(INTERIOR_WIDTH, INTERIOR_HEIGHT);
        let shape0 = crate::block::shapes_for_kind(BlockKind::I);
        let mut g = Game {
            field,
            shape: shape0,
            pos: Position { x: SPAWN_X, y: SPAWN_Y },
            queue: Vec::new(),
            hold: None,
            cleared_lines: 0,
            game_over: false,
        };
        proof {
            assert(g.field.cells.deep_view().len() == FIELD_HEIGHT);
            assert(g.field.cells.deep_view()[0].len() == FIELD_WIDTH);
            assert(g.queue.deep_view() =~= Seq::<Seq<Seq<BlockColor>>>::empty());
        }
        let _spawned = g.spawn_next();
        proof {
            lemma_spawn_on_empty_no_collision(g.shape.deep_view());
        }
        g
    }

    /// Pops the next shape from the queue (refilling it with a fresh
    /// shuffled bag first when it is empty), resets the anchor, and
    /// reports `SpawnBlocked` iff the new piece collides immediately.
    pub fn spawn_next(&mut self) -> (r: Result<(), SpawnBlocked>)
        requires
            old(self).base_wf(),
        ensures
            final(self).wf(),
            final(self).base_wf(),
            Game::spawn_post(
                old(self).queue.deep_view(),
                old(self).field.cells.deep_view(),
                *final(self),
            ),
            final(self).field == old(self).field,
            final(self).hold == old(self).hold,
            final(self).cleared_lines == old(self).cleared_lines,
            r is Err <==> final(self).game_over,
    {
        let ghost qpre = self.queue.deep_view();
        if self.queue.len() == 0 {
            let bag = gen_block_7();
            self.queue = bag;
        }
        let ghost qfull = self.queue.deep_view();
        let s = self.queue.remove(0);
        self.shape = s;
        self.pos = Position { x: SPAWN_X, y: SPAWN_Y };
        proof {
            assert(self.queue.deep_view() =~= qfull.drop_first());
            assert(self.shape.deep_view() == qfull[0]);
            if qpre.len() == 0 {
                let ks = choose|ks: Seq<BlockKind>|
                    is_full_bag(ks) && forall|i: int|
                        0 <= i < 7 ==> #[trigger] qfull[i] == spec_shape(ks[i]);
                assert(is_full_bag(ks));
                assert(self.shape.deep_view() == spec_shape(ks[0]));
                assert(forall|i: int|
                    0 <= i < 6 ==> #[trigger] self.queue.deep_view()[i] == spec_shape(ks[i + 1]));
                assert forall|i: int|
                    0 <= i < self.queue@.len() implies piece_shape_wf(
                    (#[trigger] self.queue@[i]).deep_view(),
                ) by {
                    assert(self.queue.deep_view()[i] == self.queue@[i].deep_view());
                    assert(self.queue@[i].deep_view() == spec_shape(ks[i + 1]));
                    crate::block::lemma_spec_shape_wf(ks[i + 1]);
                }
                crate::block::lemma_spec_shape_wf(ks[0]);
            } else {
                assert(forall|i: int|
                    0 <= i < self.queue@.len() ==> (#[trigger] self.queue@[i]).deep_view()
                        == qpre[i + 1]);
            }
            lemma_field_wf_rect(self.field.cells.deep_view());
        }
        if is_collision(&self.field, &self.pos, &self.shape) {
            self.game_over = true;
            Err(SpawnBlocked)
        } else {
            self.game_over = false;
            Ok(())
        }
    }

    /// Tests a proposed position for the falling piece and commits it
    /// iff it does not collide; a colliding proposal is silently
    /// rejected and changes nothing.
    pub fn move_block(&mut self, new_pos: Position) -> (moved: bool)
        requires
            old(self).wf(),
            !old(self).game_over,
            new_pos.x + 4 <= usize::MAX,
            new_pos.y + 4 <= usize::MAX,
        ensures
            final(self).wf(),
            moved == !spec_collides(
                old(self).field.cells.deep_view(),
                new_pos.x as int,
                new_pos.y as int,
                old(self).shape.deep_view(),
            ),
            Game::same_core(*old(self), *final(self)),
            final(self).shape == old(self).shape,
            final(self).pos == if moved {
                new_pos
            } else {
                old(self).pos
            },
    {
        proof {
            lemma_field_wf_rect(self.field.cells.deep_view());
        }
        if !is_collision(&self.field, &new_pos, &self.shape) {
            proof {
                lemma_noncolliding_in_bounds(
                    self.field.cells.deep_view(),
                    new_pos.x as int,
                    new_pos.y as int,
                    self.shape.deep_view(),
                );
            }
            self.pos = new_pos;
            true
        } else {
            false
        }
    }

    /// Nudges the piece one column left; at the leftmost anchor the
    /// move would leave the field and is rejected like a collision.
    pub fn move_left(&mut self) -> (moved: bool)
        requires
            old(self).wf(),
            !old(self).game_over,
        ensures
            final(self).wf(),
            moved == (old(self).pos.x > 0 && !spec_collides(
                old(self).field.cells.deep_view(),
                old(self).pos.x - 1,
                old(self).pos.y as int,
                old(self).shape.deep_view(),
            )),
            Game::same_core(*old(self), *final(self)),
            final(self).shape == old(self).shape,
            final(self).pos == if moved {
                (Position { x: (old(self).pos.x - 1) as usize, y: old(self).pos.y })
            } else {
                old(self).pos
            },
    {
        if self.pos.x == 0 {
            return false;
        }
        self.move_block(Position { x: self.pos.x - 1, y: self.pos.y })
    }

    /// Nudges the piece one column right.
    pub fn move_right(&mut self) -> (moved: bool)
        requires
            old(self).wf(),
            !old(self).game_over,
        ensures
            final(self).wf(),
            moved == !spec_collides(
                old(self).field.cells.deep_view(),
                old(self).pos.x + 1,
                old(self).pos.y as int,
                old(self).shape.deep_view(),
            ),
            Game::same_core(*old(self), *final(self)),
            final(self).shape == old(self).shape,
            final(self).pos == if moved {
                (Position { x: (old(self).pos.x + 1) as usize, y: old(self).pos.y })
            } else {
                old(self).pos
            },
    {
        self.move_block(Position { x: self.pos.x + 1, y: self.pos.y })
    }

    /// Nudges the piece one row down without locking it.
    pub fn move_down(&mut self) -> (moved: bool)
        requires
            old(self).wf(),
            !old(self).game_over,
        ensures
            final(self).wf(),
            moved == !spec_collides(
                old(self).field.cells.deep_view(),
                old(self).pos.x as int,
                old(self).pos.y + 1,
                old(self).shape.deep_view(),
            ),
            Game::same_core(*old(self), *final(self)),
            final(self).shape == old(self).shape,
            final(self).pos == if moved {
                (Position { x: old(self).pos.x, y: (old(self).pos.y + 1) as usize })
            } else {
                old(self).pos
            },
    {
        self.move_block(Position { x: self.pos.x, y: self.pos.y + 1 })
    }

    /// Speculatively turns the piece clockwise: the rotated matrix is
    /// committed at the unchanged anchor iff it does not collide.
    pub fn rotate_piece_right(&mut self) -> (rotated: bool)
        requires
            old(self).wf(),
            !old(self).game_over,
        ensures
            final(self).wf(),
            rotated == !spec_collides(
                old(self).field.cells.deep_view(),
                old(self).pos.x as int,
                old(self).pos.y as int,
                spec_rotate_right(old(self).shape.deep_view()),
            ),
            Game::same_core(*old(self), *final(self)),
            final(self).pos == old(self).pos,
            final(self).shape.deep_view() == if rotated {
                spec_rotate_right(old(self).shape.deep_view())
            } else {
                old(self).shape.deep_view()
            },
    {
        proof {
            lemma_field_wf_rect(self.field.cells.deep_view());
            lemma_rotate_right_wf(self.shape.deep_view());
        }
        let t = rotate_right(&self.shape);
        if !is_collision(&self.field, &self.pos, &t) {
            self.shape = t;
            true
        } else {
            false
        }
    }

    /// The resting row of a hard drop from row `y0`: the first row at
    /// or below `y0` whose successor collides, reached without ever
    /// stepping through a colliding row.
    pub open spec fn is_drop_row(
        f: Seq<Seq<BlockColor>>,
        x: int,
        y0: int,
        s: Seq<Seq<BlockColor>>,
        y: int,
    ) -> bool {
        &&& y0 <= y
        &&& !spec_collides(f, x, y, s)
        &&& spec_collides(f, x, y + 1, s)
        &&& forall|k: int| y0 <= k < y ==> !#[trigger] spec_collides(f, x, k + 1, s)
    }

    /// The row the falling piece would rest on if hard-dropped now,
    /// computed without touching the state (the drop preview).
    pub fn ghost_y(&self) -> (gy: usize)
        requires
            self.wf(),
            !self.game_over,
        ensures
            gy < FIELD_HEIGHT,
            Game::is_drop_row(
                self.field.cells.deep_view(),
                self.pos.x as int,
                self.pos.y as int,
                self.shape.deep_view(),
                gy as int,
            ),
    {
        let ghost f = self.field.cells.deep_view();
        let ghost px = self.pos.x as int;
        let ghost y0 = self.pos.y as int;
        let ghost s = self.shape.deep_view();
        proof {
            lemma_field_wf_rect(f);
        }
        let mut yy: usize = self.pos.y;
        loop
            invariant
                self.wf(),
                !self.game_over,
                f == self.field.cells.deep_view(),
                px == self.pos.x as int,
                y0 == self.pos.y as int,
                s == self.shape.deep_view(),
                y0 <= yy < FIELD_HEIGHT,
                !spec_collides(f, px, yy as int, s),
                forall|k: int| y0 <= k < yy ==> !#[trigger] spec_collides(f, px, k + 1, s),
            ensures
                yy < FIELD_HEIGHT,
                Game::is_drop_row(f, px, y0, s, yy as int),
            decreases FIELD_HEIGHT - yy,
        {
            proof {
                lemma_field_wf_rect(f);
            }
            let cand = Position { x: self.pos.x, y: yy + 1 };
            if is_collision(&self.field, &cand, &self.shape) {
                break;
            }
            proof {
                lemma_noncolliding_in_bounds(f, px, yy + 1, s);
            }
            yy = yy + 1;
        }
        yy
    }

    /// What a lock at row `yr` leaves behind: the shape is burned in,
    /// complete rows are cleared and counted, and the next piece is
    /// spawned from the queue.
    pub open spec fn locks_at(pre: Game, post: Game, yr: int) -> bool {
        let f1 = spec_lock(
            pre.field.cells.deep_view(),
            pre.pos.x as int,
            yr,
            pre.shape.deep_view(),
        );
        &&& post.field.cells.deep_view() == spec_clear(f1)
        &&& post.cleared_lines == pre.cleared_lines + spec_cleared_count(f1)
        &&& post.hold == pre.hold
        &&& Game::spawn_post(pre.queue.deep_view(), spec_clear(f1), post)
    }

    /// Locks the piece where it stands, clears complete rows, adds
    /// them to the counter and spawns the next piece.
    fn lock_and_advance(&mut self) -> (r: Result<(), SpawnBlocked>)
        requires
            old(self).base_wf(),
            piece_shape_wf(old(self).shape.deep_view()),
            old(self).pos.x < FIELD_WIDTH,
            old(self).pos.y < FIELD_HEIGHT,
            !spec_collides(
                old(self).field.cells.deep_view(),
                old(self).pos.x as int,
                old(self).pos.y as int,
                old(self).shape.deep_view(),
            ),
            old(self).cleared_lines <= u64::MAX - 20,
        ensures
            final(self).wf(),
            Game::locks_at(*old(self), *final(self), old(self).pos.y as int),
            r is Err <==> final(self).game_over,
    {
        let ghost f = self.field.cells.deep_view();
        let ghost px = self.pos.x as int;
        let ghost py = self.pos.y as int;
        let ghost s = self.shape.deep_view();
        proof {
            lemma_field_wf_rect(f);
        }
        lock(&mut self.field, &self.pos, &self.shape);
        let ghost f1 = spec_lock(f, px, py, s);
        proof {
            lemma_lock_preserves_wf(f, px, py, s);
            assert(f1.len() == f.len());
            assert(f1[0].len() == f[0].len());
        }
        let n = clear_completed_lines(&mut self.field);
        proof {
            assert(spec_cleared_count(f1) <= f1.len() - 1);
        }
        self.cleared_lines = self.cleared_lines + (n as u64);
        self.spawn_next()
    }

    /// One gravity tick: the piece falls one row if it can; otherwise
    /// it locks, complete rows are cleared, and the next piece spawns.
    /// `Ok(true)` means the piece moved, `Ok(false)` that it locked
    /// and play continues, `Err` that the fresh spawn was blocked.
    pub fn gravity_step(&mut self) -> (r: Result<bool, SpawnBlocked>)
        requires
            old(self).wf(),
            !old(self).game_over,
            old(self).cleared_lines <= u64::MAX - 20,
        ensures
            final(self).wf(),
            !spec_collides(
                old(self).field.cells.deep_view(),
                old(self).pos.x as int,
                old(self).pos.y + 1,
                old(self).shape.deep_view(),
            ) ==> {
                &&& r == Ok::<bool, SpawnBlocked>(true)
                &&& Game::same_core(*old(self), *final(self))
                &&& final(self).shape == old(self).shape
                &&& final(self).pos.x == old(self).pos.x
                &&& final(self).pos.y == old(self).pos.y + 1
            },
            spec_collides(
                old(self).field.cells.deep_view(),
                old(self).pos.x as int,
                old(self).pos.y + 1,
                old(self).shape.deep_view(),
            ) ==> {
                &&& Game::locks_at(*old(self), *final(self), old(self).pos.y as int)
                &&& (r == Ok::<bool, SpawnBlocked>(false) <==> !final(self).game_over)
                &&& (r is Err <==> final(self).game_over)
            },
    {
        if self.move_down() {
            Ok(true)
        } else {
            match self.lock_and_advance() {
                Ok(()) => Ok(false),
                Err(e) => Err(e),
            }
        }
    }

    /// Drops the piece to its resting row in single-row steps and
    /// locks it there at once; hard drop always locks.
    pub fn hard_drop(&mut self) -> (r: Result<(), SpawnBlocked>)
        requires
            old(self).wf(),
            !old(self).game_over,
            old(self).cleared_lines <= u64::MAX - 20,
        ensures
            final(self).wf(),
            exists|yr: int|
                {
                    &&& #[trigger] Game::is_drop_row(
                        old(self).field.cells.deep_view(),
                        old(self).pos.x as int,
                        old(self).pos.y as int,
                        old(self).shape.deep_view(),
                        yr,
                    )
                    &&& Game::locks_at(*old(self), *final(self), yr)
                },
            r is Err <==> final(self).game_over,
    {
        let gy = self.ghost_y();
        self.pos = Position { x: self.pos.x, y: gy };
        let r = self.lock_and_advance();
        proof {
            assert(Game::is_drop_row(
                old(self).field.cells.deep_view(),
                old(self).pos.x as int,
                old(self).pos.y as int,
                old(self).shape.deep_view(),
                gy as int,
            ));
        }
        r
    }

    /// Swaps the falling piece with the hold slot; with an empty slot
    /// the next queue piece spawns instead. The swapped-in piece
    /// restarts at the spawn anchor; a swap whose result would collide
    /// there is silently rejected.
    pub fn hold_piece(&mut self) -> (r: Result<(), SpawnBlocked>)
        requires
            old(self).wf(),
            !old(self).game_over,
        ensures
            final(self).wf(),
            final(self).field == old(self).field,
            final(self).cleared_lines == old(self).cleared_lines,
            old(self).hold matches Some(h) ==> {
                &&& final(self).queue == old(self).queue
                &&& r is Ok
                &&& if !spec_collides(
                    old(self).field.cells.deep_view(),
                    SPAWN_X as int,
                    SPAWN_Y as int,
                    h.deep_view(),
                ) {
                    &&& final(self).shape == h
                    &&& final(self).hold == Some(old(self).shape)
                    &&& final(self).pos.x == SPAWN_X
                    &&& final(self).pos.y == SPAWN_Y
                    &&& final(self).game_over == old(self).game_over
                } else {
                    *final(self) == *old(self)
                }
            },
            old(self).hold is None ==> {
                &&& final(self).hold == Some(old(self).shape)
                &&& Game::spawn_post(
                    old(self).queue.deep_view(),
                    old(self).field.cells.deep_view(),
                    *final(self),
                )
                &&& (r is Err <==> final(self).game_over)
            },
    {
        let mut held: Option<BlockShape> = None;
        core::mem::swap(&mut held, &mut self.hold);
        match held {
            None => {
                let mut cur: BlockShape = Vec::new();
                core::mem::swap(&mut cur, &mut self.shape);
                self.hold = Some(cur);
                self.spawn_next()
            },
            Some(h) => {
                let spawn_pos = Position { x: SPAWN_X, y: SPAWN_Y };
                proof {
                    lemma_field_wf_rect(self.field.cells.deep_view());
                }
                if !is_collision(&self.field, &spawn_pos, &h) {
                    let mut cur = h;
                    core::mem::swap(&mut cur, &mut self.shape);
                    self.hold = Some(cur);
                    self.pos = spawn_pos;
                    Ok(())
                } else {
                    self.hold = Some(h);
                    Ok(())
                }
            },
        }
    }

    /// Speculatively turns the piece counter-clockwise.
    pub fn rotate_piece_left(&mut self) -> (rotated: bool)
        requires
            old(self).wf(),
            !old(self).game_over,
        ensures
            final(self).wf(),
            rotated == !spec_collides(
                old(self).field.cells.deep_view(),
                old(self).pos.x as int,
                old(self).pos.y as int,
                spec_rotate_left(old(self).shape.deep_view()),
            ),
            Game::same_core(*old(self), *final(self)),
            final(self).pos == old(self).pos,
            final(self).shape.deep_view() == if rotated {
                spec_rotate_left(old(self).shape.deep_view())
            } else {
                old(self).shape.deep_view()
            },
    {
        proof {
            lemma_field_wf_rect(self.field.cells.deep_view());
            lemma_rotate_left_wf(self.shape.deep_view());
        }
        let t = rotate_left(&self.shape);
        if !is_collision(&self.field, &self.pos, &t) {
            self.shape = t;
            true
        } else {
            false
        }
    }
}

/// On the empty field, no well-formed shape collides at the spawn
/// anchor: its active cells land on empty interior cells.
pub proof fn lemma_spawn_on_empty_no_collision(s: Seq<Seq<BlockColor>>)
    requires
        piece_shape_wf(s),
    ensures
        !spec_collides(
            spec_empty_field(FIELD_WIDTH as int, FIELD_HEIGHT as int),
            SPAWN_X as int,
            SPAWN_Y as int,
            s,
        ),
{
    let f = spec_empty_field(FIELD_WIDTH as int, FIELD_HEIGHT as int);
    assert forall|r: int, c: int| 0 <= r < 4 && 0 <= c < 4 implies !cell_hits(
        f,
        SPAWN_X as int,
        SPAWN_Y as int,
        s,
        r,
        c,
    ) by {
        if s[r][c] != NONE {
            assert(f[r] == spec_empty_row(FIELD_WIDTH as int));
            assert(f[0].len() == FIELD_WIDTH);
            assert(f[r][SPAWN_X + c] == NONE);
        }
    }
}

/// The gravity cadence in milliseconds for a cleared-line total:
/// 1000ms below ten lines, 100ms less for each further ten, floored
/// at 100ms.
pub open spec fn spec_tick_interval(cleared: nat) -> nat {
    if cleared / 10 >= 9 {
        100
    } else {
        (1000 - (cleared / 10) * 100) as nat
    }
}

/// Computes the gravity tick interval for a cleared-line total.
pub fn tick_interval_ms(cleared_lines: u64) -> (ms: u64)
    ensures
        ms as nat == spec_tick_interval(cleared_lines as nat),
{
    let steps = cleared_lines / 10;
    if steps >= 9 {
        100
    } else {
        1000 - steps * 100
    }
}

} // verus!


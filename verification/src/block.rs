//! The piece catalog: the seven piece kinds, their cell labels and
//! canonical 4x4 shapes, the 90-degree rotation transform, and the
//! shuffled bag that supplies pieces.

use vstd::prelude::*;
use vstd::seq_lib::group_to_multiset_ensures;
use rand::seq::SliceRandom;

verus! {

/// A cell label: `NONE` and `WALL` are structural, `GHOST` is the
/// drop preview, and the remaining seven are the piece colors.
pub type BlockColor = usize;

pub const NONE: BlockColor = 0;
pub const WALL: BlockColor = 1;
pub const GHOST: BlockColor = 2;
pub const COLOR_I: BlockColor = 3;
pub const COLOR_O: BlockColor = 4;
pub const COLOR_S: BlockColor = 5;
pub const COLOR_Z: BlockColor = 6;
pub const COLOR_J: BlockColor = 7;
pub const COLOR_L: BlockColor = 8;
pub const COLOR_T: BlockColor = 9;

/// The seven piece kinds.
#[derive(Clone, Copy, Debug, PartialEq, Eq, Structural)]
pub enum BlockKind {
    I,
    O,
    S,
    Z,
    J,
    L,
    T,
}

/// A piece shape: a 4x4 matrix of cell labels, held in exactly one of
/// its rotation states; rotating replaces the matrix.
pub type BlockShape = Vec<Vec<BlockColor>>;

/// True of a label that marks a locked or falling piece cell
/// (neither empty, wall nor ghost).
pub open spec fn is_piece_color(v: BlockColor) -> bool {
    COLOR_I <= v <= COLOR_T
}

/// The color burned into the active cells of a kind's shape.
pub open spec fn kind_color(k: BlockKind) -> BlockColor {
    match k {
        BlockKind::I => COLOR_I,
        BlockKind::O => COLOR_O,
        BlockKind::S => COLOR_S,
        BlockKind::Z => COLOR_Z,
        BlockKind::J => COLOR_J,
        BlockKind::L => COLOR_L,
        BlockKind::T => COLOR_T,
    }
}

/// A 4x4 matrix of labels.
pub open spec fn shape_dims_ok(s: Seq<Seq<BlockColor>>) -> bool {
    &&& s.len() == 4
    &&& forall|r: int| 0 <= r < 4 ==> (#[trigger] s[r]).len() == 4
}

/// A well-formed piece matrix: 4x4, every cell empty or a piece color,
/// and at least one cell active.
pub open spec fn piece_shape_wf(s: Seq<Seq<BlockColor>>) -> bool {
    &&& shape_dims_ok(s)
    &&& forall|r: int, c: int|
        0 <= r < 4 && 0 <= c < 4 ==> (#[trigger] s[r][c] == NONE || is_piece_color(s[r][c]))
    &&& exists|r: int, c: int| 0 <= r < 4 && 0 <= c < 4 && #[trigger] s[r][c] != NONE
}

/// The canonical matrix of a kind.
pub open spec fn spec_shape(k: BlockKind) -> Seq<Seq<BlockColor>> {
    match k {
        BlockKind::I => seq![
            seq![NONE, NONE, NONE, NONE],
            seq![NONE, NONE, NONE, NONE],
            seq![COLOR_I, COLOR_I, COLOR_I, COLOR_I],
            seq![NONE, NONE, NONE, NONE],
        ],
        BlockKind::O => seq![
            seq![NONE, NONE, NONE, NONE],
            seq![NONE, COLOR_O, COLOR_O, NONE],
            seq![NONE, COLOR_O, COLOR_O, NONE],
            seq![NONE, NONE, NONE, NONE],
        ],
        BlockKind::S => seq![
            seq![NONE, NONE, NONE, NONE],
            seq![NONE, COLOR_S, COLOR_S, NONE],
            seq![COLOR_S, COLOR_S, NONE, NONE],
            seq![NONE, NONE, NONE, NONE],
        ],
        BlockKind::Z => seq![
            seq![NONE, NONE, NONE, NONE],
            seq![COLOR_Z, COLOR_Z, NONE, NONE],
            seq![NONE, COLOR_Z, COLOR_Z, NONE],
            seq![NONE, NONE, NONE, NONE],
        ],
        BlockKind::J => seq![
            seq![NONE, NONE, NONE, NONE],
            seq![COLOR_J, NONE, NONE, NONE],
            seq![COLOR_J, COLOR_J, COLOR_J, NONE],
            seq![NONE, NONE, NONE, NONE],
        ],
        BlockKind::L => seq![
            seq![NONE, NONE, NONE, NONE],
            seq![NONE, NONE, COLOR_L, NONE],
            seq![COLOR_L, COLOR_L, COLOR_L, NONE],
            seq![NONE, NONE, NONE, NONE],
        ],
        BlockKind::T => seq![
            seq![NONE, NONE, NONE, NONE],
            seq![NONE, COLOR_T, NONE, NONE],
            seq![COLOR_T, COLOR_T, COLOR_T, NONE],
            seq![NONE, NONE, NONE, NONE],
        ],
    }
}

/// Every canonical matrix is a well-formed piece matrix.
pub proof fn lemma_spec_shape_wf(k: BlockKind)
    ensures
        piece_shape_wf(spec_shape(k)),
{
    match k {
        BlockKind::I => {
            assert(spec_shape(k)[2][0] != NONE);
        },
        BlockKind::O => {
            assert(spec_shape(k)[1][1] != NONE);
        },
        BlockKind::S => {
            assert(spec_shape(k)[1][1] != NONE);
        },
        BlockKind::Z => {
            assert(spec_shape(k)[1][0] != NONE);
        },
        BlockKind::J => {
            assert(spec_shape(k)[1][0] != NONE);
        },
        BlockKind::L => {
            assert(spec_shape(k)[1][2] != NONE);
        },
        BlockKind::T => {
            assert(spec_shape(k)[1][1] != NONE);
        },
    }
}

/// Returns the canonical 4x4 matrix for a kind, with the kind's color in
/// the active cells and `NONE` elsewhere.
pub fn shapes_for_kind(k: BlockKind) -> (s: BlockShape)
    ensures
        s.deep_view() == spec_shape(k),
        piece_shape_wf(s.deep_view()),
{
    let n = NONE;
    let s: BlockShape = match k {
        BlockKind::I => {
            let v = COLOR_I;
            vec![vec![n, n, n, n], vec![n, n, n, n], vec![v, v, v, v], vec![n, n, n, n]]
        },
        BlockKind::O => {
            let v = COLOR_O;
            vec![vec![n, n, n, n], vec![n, v, v, n], vec![n, v, v, n], vec![n, n, n, n]]
        },
        BlockKind::S => {
            let v = COLOR_S;
            vec![vec![n, n, n, n], vec![n, v, v, n], vec![v, v, n, n], vec![n, n, n, n]]
        },
        BlockKind::Z => {
            let v = COLOR_Z;
            vec![vec![n, n, n, n], vec![v, v, n, n], vec![n, v, v, n], vec![n, n, n, n]]
        },
        BlockKind::J => {
            let v = COLOR_J;
            vec![vec![n, n, n, n], vec![v, n, n, n], vec![v, v, v, n], vec![n, n, n, n]]
        },
        BlockKind::L => {
            let v = COLOR_L;
            vec![vec![n, n, n, n], vec![n, n, v, n], vec![v, v, v, n], vec![n, n, n, n]]
        },
        BlockKind::T => {
            let v = COLOR_T;
            vec![vec![n, n, n, n], vec![n, v, n, n], vec![v, v, v, n], vec![n, n, n, n]]
        },
    };
    proof {
        assert(s.deep_view() =~~= spec_shape(k));
        lemma_spec_shape_wf(k);
    }
    s
}

/// A clockwise quarter turn of a 4x4 matrix: the cell at (r, c) moves
/// to (c, 3 - r).
pub open spec fn spec_rotate_right(s: Seq<Seq<BlockColor>>) -> Seq<Seq<BlockColor>> {
    Seq::new(4, |r: int| Seq::new(4, |c: int| s[3 - c][r]))
}

/// A counter-clockwise quarter turn of a 4x4 matrix: the cell at (r, c)
/// moves to (3 - c, r).
pub open spec fn spec_rotate_left(s: Seq<Seq<BlockColor>>) -> Seq<Seq<BlockColor>> {
    Seq::new(4, |r: int| Seq::new(4, |c: int| s[c][3 - r]))
}

/// A quarter turn of a well-formed piece matrix is well-formed: the
/// cells are only rearranged.
pub proof fn lemma_rotate_right_wf(s: Seq<Seq<BlockColor>>)
    requires
        piece_shape_wf(s),
    ensures
        piece_shape_wf(spec_rotate_right(s)),
{
    let t = spec_rotate_right(s);
    let (r0, c0) = choose|r: int, c: int| 0 <= r < 4 && 0 <= c < 4 && #[trigger] s[r][c] != NONE;
    assert(t[c0][3 - r0] == s[r0][c0]);
}

/// The counter-clockwise counterpart of `lemma_rotate_right_wf`.
pub proof fn lemma_rotate_left_wf(s: Seq<Seq<BlockColor>>)
    requires
        piece_shape_wf(s),
    ensures
        piece_shape_wf(spec_rotate_left(s)),
{
    let t = spec_rotate_left(s);
    let (r0, c0) = choose|r: int, c: int| 0 <= r < 4 && 0 <= c < 4 && #[trigger] s[r][c] != NONE;
    assert(t[3 - c0][r0] == s[r0][c0]);
}

/// Rotation is a cyclic group of order 4: four clockwise quarter turns
/// return any 4x4 matrix to its original state.
pub proof fn lemma_rotate_right_four(s: Seq<Seq<BlockColor>>)
    requires
        shape_dims_ok(s),
    ensures
        spec_rotate_right(spec_rotate_right(spec_rotate_right(spec_rotate_right(s)))) == s,
{
    let t = spec_rotate_right(spec_rotate_right(spec_rotate_right(spec_rotate_right(s))));
    assert(t =~~= s);
}

/// A counter-clockwise turn undoes a clockwise turn.
pub proof fn lemma_rotate_left_right(s: Seq<Seq<BlockColor>>)
    requires
        shape_dims_ok(s),
    ensures
        spec_rotate_left(spec_rotate_right(s)) == s,
{
    assert(spec_rotate_left(spec_rotate_right(s)) =~~= s);
}

/// A clockwise turn undoes a counter-clockwise turn.
pub proof fn lemma_rotate_right_left(s: Seq<Seq<BlockColor>>)
    requires
        shape_dims_ok(s),
    ensures
        spec_rotate_right(spec_rotate_left(s)) == s,
{
    assert(spec_rotate_right(spec_rotate_left(s)) =~~= s);
}

/// Computes the clockwise quarter turn of a 4x4 matrix.
pub fn rotate_right(s: &BlockShape) -> (t: BlockShape)
    requires
        shape_dims_ok(s.deep_view()),
    ensures
        t.deep_view() == spec_rotate_right(s.deep_view()),
{
    let mut t: BlockShape = Vec::new();
    let mut r: usize = 0;
    while r < 4
        invariant
            shape_dims_ok(s.deep_view()),
            r <= 4,
            t@.len() == r,
            forall|i: int| 0 <= i < r ==> (#[trigger] t@[i]).deep_view()
                == spec_rotate_right(s.deep_view())[i],
        decreases 4 - r,
    {
        let mut row: Vec<BlockColor> = Vec::new();
        let mut c: usize = 0;
        while c < 4
            invariant
                shape_dims_ok(s.deep_view()),
                r < 4,
                c <= 4,
                row@.len() == c,
                forall|j: int| 0 <= j < c ==> #[trigger] row@[j]
                    == spec_rotate_right(s.deep_view())[r as int][j],
            decreases 4 - c,
        {
            proof {
                assert(s@.len() == s.deep_view().len());
                assert(s.deep_view()[3 - c as int] == s@[3 - c as int].deep_view());
            }
            row.push(s[3 - c][r]);
            c = c + 1;
        }
        proof {
            assert(row.deep_view() =~= spec_rotate_right(s.deep_view())[r as int]);
        }
        t.push(row);
        r = r + 1;
    }
    proof {
        assert(t.deep_view() =~= spec_rotate_right(s.deep_view()));
    }
    t
}

/// Computes the counter-clockwise quarter turn of a 4x4 matrix.
pub fn rotate_left(s: &BlockShape) -> (t: BlockShape)
    requires
        shape_dims_ok(s.deep_view()),
    ensures
        t.deep_view() == spec_rotate_left(s.deep_view()),
{
    let mut t: BlockShape = Vec::new();
    let mut r: usize = 0;
    while r < 4
        invariant
            shape_dims_ok(s.deep_view()),
            r <= 4,
            t@.len() == r,
            forall|i: int| 0 <= i < r ==> (#[trigger] t@[i]).deep_view()
                == spec_rotate_left(s.deep_view())[i],
        decreases 4 - r,
    {
        let mut row: Vec<BlockColor> = Vec::new();
        let mut c: usize = 0;
        while c < 4
            invariant
                shape_dims_ok(s.deep_view()),
                r < 4,
                c <= 4,
                row@.len() == c,
                forall|j: int| 0 <= j < c ==> #[trigger] row@[j]
                    == spec_rotate_left(s.deep_view())[r as int][j],
            decreases 4 - c,
        {
            proof {
                assert(s@.len() == s.deep_view().len());
                assert(s.deep_view()[c as int] == s@[c as int].deep_view());
            }
            row.push(s[c][3 - r]);
            c = c + 1;
        }
        proof {
            assert(row.deep_view() =~= spec_rotate_left(s.deep_view())[r as int]);
        }
        t.push(row);
        r = r + 1;
    }
    proof {
        assert(t.deep_view() =~= spec_rotate_left(s.deep_view()));
    }
    t
}

/// The seven kinds, one each, in catalog order.
pub open spec fn all_kinds() -> Seq<BlockKind> {
    seq![
        BlockKind::I,
        BlockKind::O,
        BlockKind::S,
        BlockKind::Z,
        BlockKind::J,
        BlockKind::L,
        BlockKind::T,
    ]
}

/// One full bag: a sequence of seven kinds that is a permutation of the
/// seven distinct kinds.
pub open spec fn is_full_bag(ks: Seq<BlockKind>) -> bool {
    &&& ks.len() == 7
    &&& ks.to_multiset() == all_kinds().to_multiset()
}

/// A full bag holds each of the seven kinds exactly once, whatever
/// order the shuffle produced.
pub proof fn lemma_full_bag_each_kind_once(ks: Seq<BlockKind>)
    requires
        is_full_bag(ks),
    ensures
        forall|k: BlockKind| ks.to_multiset().count(k) == 1,
{
    broadcast use group_to_multiset_ensures;

    let a = all_kinds();
    assert(a =~= a.take(6).push(BlockKind::T));
    assert(a.take(6) =~= a.take(5).push(BlockKind::L));
    assert(a.take(5) =~= a.take(4).push(BlockKind::J));
    assert(a.take(4) =~= a.take(3).push(BlockKind::Z));
    assert(a.take(3) =~= a.take(2).push(BlockKind::S));
    assert(a.take(2) =~= a.take(1).push(BlockKind::O));
    assert(a.take(1) =~= Seq::<BlockKind>::empty().push(BlockKind::I));
    assert forall|k: BlockKind| ks.to_multiset().count(k) == 1 by {
        match k {
            BlockKind::I => {},
            BlockKind::O => {},
            BlockKind::S => {},
            BlockKind::Z => {},
            BlockKind::J => {},
            BlockKind::L => {},
            BlockKind::T => {},
        }
    }
}

/// The thread-local random number generator of the rand crate,
/// declared so that it can be handed to the shuffle; opaque here.
#[verifier::external_type_specification]
#[verifier::external_body]
pub struct ExThreadRng(rand::rngs::ThreadRng);

/// Relies on rand::thread_rng: returns a handle to the thread-local
/// random number generator; nothing is promised of it.
#[verifier::external_body]
fn fresh_rng() -> rand::rngs::ThreadRng {
    rand::thread_rng()
}

/// Relies on rand::seq::SliceRandom::shuffle: a Fisher-Yates pass that
/// only swaps elements in place, so the new contents are a permutation
/// of the old; the order it picks depends on the generator and is not
/// stated.
#[verifier::external_body]
fn shuffle_kinds(kinds: &mut Vec<BlockKind>, rng: &mut rand::rngs::ThreadRng)
    ensures
        final(kinds)@.len() == old(kinds)@.len(),
        final(kinds)@.to_multiset() == old(kinds)@.to_multiset(),
{
    kinds.shuffle(rng);
}

/// Produces one shuffled bag: the seven canonical shapes, one per kind,
/// in a random order; no kind appears twice.
pub fn gen_block_7() -> (bag: Vec<BlockShape>)
    ensures
        bag.deep_view().len() == 7,
        exists|ks: Seq<BlockKind>|
            is_full_bag(ks) && forall|i: int|
                0 <= i < 7 ==> #[trigger] bag.deep_view()[i] == spec_shape(ks[i]),
{
    let mut kinds: Vec<BlockKind> = Vec::new();
    kinds.push(BlockKind::I);
    kinds.push(BlockKind::O);
    kinds.push(BlockKind::S);
    kinds.push(BlockKind::Z);
    kinds.push(BlockKind::J);
    kinds.push(BlockKind::L);
    kinds.push(BlockKind::T);
    proof {
        assert(kinds@ =~= all_kinds());
    }
    let mut rng = fresh_rng();
    shuffle_kinds(&mut kinds, &mut rng);
    let ghost ks = kinds@;
    let mut bag: Vec<BlockShape> = Vec::new();
    let mut i: usize = 0;
    while i < 7
        invariant
            kinds@ == ks,
            kinds@.len() == 7,
            i <= 7,
            bag@.len() == i,
            forall|j: int| 0 <= j < i ==> (#[trigger] bag@[j]).deep_view() == spec_shape(ks[j]),
        decreases 7 - i,
    {
        let s = shapes_for_kind(kinds[i]);
        bag.push(s);
        i = i + 1;
    }
    proof {
        assert(is_full_bag(ks));
        assert forall|j: int| 0 <= j < 7 implies #[trigger] bag.deep_view()[j] == spec_shape(
            ks[j],
        ) by {
            assert(bag.deep_view()[j] == bag@[j].deep_view());
        }
    }
    bag
}

} // verus!

//! Tetromino shapes and their rotations inside a 5x5 bounding box.
//!
//! A pattern is indexed `pattern[dx][dy]`: `dx` counts columns from the left
//! edge of the box, `dy` counts rows from its top edge. The same `(x, y)`
//! convention is used for the board.

use vstd::prelude::*;

verus! {

/// Side length of the bounding box of every piece.
pub const BOX: usize = 5;

/// Number of distinct shapes.
pub const SHAPE_COUNT: u64 = 7;

/// A 5x5 occupancy pattern; a cell is occupied when it is not zero.
pub type Pattern = [[u8; BOX]; BOX];

/// The seven tetromino shapes.
#[derive(Clone, Copy, Debug, PartialEq, Eq, Structural)]
pub enum Shape {
    I,
    J,
    L,
    O,
    S,
    T,
    Z,
}

/// The mathematical value of a pattern: five columns of five cells.
pub open spec fn pattern_view(p: Pattern) -> Seq<Seq<u8>> {
    Seq::new(BOX as nat, |dx: int| p[dx]@)
}

/// A 5x5 matrix whose cells are all 0 or 1.
pub open spec fn is_pattern(p: Seq<Seq<u8>>) -> bool {
    &&& p.len() == BOX
    &&& forall|dx: int| 0 <= dx < BOX ==> (#[trigger] p[dx]).len() == BOX
    &&& forall|dx: int, dy: int| 0 <= dx < BOX && 0 <= dy < BOX ==> #[trigger] p[dx][dy] <= 1
}

/// The pattern turned a quarter turn clockwise about the centre of the box
/// (with `dy` growing downwards): the cell at `(dx, dy)` moves to `(4 - dy, dx)`.
pub open spec fn rotate_cw(p: Seq<Seq<u8>>) -> Seq<Seq<u8>> {
    Seq::new(BOX as nat, |dx: int| Seq::new(BOX as nat, |dy: int| p[dy][4 - dx]))
}

/// `n` quarter turns clockwise.
pub open spec fn rotate_times(p: Seq<Seq<u8>>, n: nat) -> Seq<Seq<u8>>
    decreases n,
{
    if n == 0 {
        p
    } else {
        rotate_cw(rotate_times(p, (n - 1) as nat))
    }
}

/// The unrotated pattern of each shape.
pub open spec fn base_pattern(shape: Shape) -> Seq<Seq<u8>> {
    match shape {
        Shape::I => seq![
            seq![0u8, 0, 0, 0, 0],
            seq![0u8, 0, 1, 0, 0],
            seq![0u8, 0, 1, 0, 0],
            seq![0u8, 0, 1, 0, 0],
            seq![0u8, 0, 1, 0, 0],
        ],
        Shape::J => seq![
            seq![0u8, 0, 0, 0, 0],
            seq![0u8, 1, 1, 0, 0],
            seq![0u8, 0, 1, 0, 0],
            seq![0u8, 0, 1, 0, 0],
            seq![0u8, 0, 0, 0, 0],
        ],
        Shape::L => seq![
            seq![0u8, 0, 0, 0, 0],
            seq![0u8, 0, 1, 0, 0],
            seq![0u8, 0, 1, 0, 0],
            seq![0u8, 1, 1, 0, 0],
            seq![0u8, 0, 0, 0, 0],
        ],
        Shape::O => seq![
            seq![0u8, 0, 0, 0, 0],
            seq![0u8, 0, 0, 0, 0],
            seq![0u8, 0, 1, 1, 0],
            seq![0u8, 0, 1, 1, 0],
            seq![0u8, 0, 0, 0, 0],
        ],
        Shape::S => seq![
            seq![0u8, 0, 0, 0, 0],
            seq![0u8, 0, 0, 1, 0],
            seq![0u8, 0, 1, 1, 0],
            seq![0u8, 0, 1, 0, 0],
            seq![0u8, 0, 0, 0, 0],
        ],
        Shape::T => seq![
            seq![0u8, 0, 0, 0, 0],
            seq![0u8, 0, 1, 0, 0],
            seq![0u8, 0, 1, 1, 0],
            seq![0u8, 0, 1, 0, 0],
            seq![0u8, 0, 0, 0, 0],
        ],
        Shape::Z => seq![
            seq![0u8, 0, 0, 0, 0],
            seq![0u8, 0, 1, 0, 0],
            seq![0u8, 0, 1, 1, 0],
            seq![0u8, 0, 0, 1, 0],
            seq![0u8, 0, 0, 0, 0],
        ],
    }
}

/// The shape that a roll selects: rolls are taken modulo the number of shapes.
pub open spec fn shape_of_roll(roll: u64) -> Shape {
    let k = roll % 7;
    if k == 0 {
        Shape::I
    } else if k == 1 {
        Shape::J
    } else if k == 2 {
        Shape::L
    } else if k == 3 {
        Shape::O
    } else if k == 4 {
        Shape::S
    } else if k == 5 {
        Shape::T
    } else {
        Shape::Z
    }
}

impl Shape {
    /// Number of `rotate` steps after which a piece of this shape is back
    /// where it started.
    pub open spec fn spec_cycle_len(self) -> nat {
        if self == Shape::O {
            1
        } else {
            4
        }
    }

    /// Number of `rotate` steps after which a piece of this shape is back
    /// where it started: 1 for the square, 4 for every other shape.
    pub fn cycle_len(self) -> (n: u8)
        ensures
            n == self.spec_cycle_len(),
    {
        match self {
            Shape::O => 1,
            _ => 4,
        }
    }

    /// Picks the shape for a roll, each residue modulo seven naming one shape.
    pub fn from_roll(roll: u64) -> (shape: Shape)
        ensures
            shape == shape_of_roll(roll),
    {
        let k: u64 = roll % SHAPE_COUNT;
        if k == 0 {
            Shape::I
        } else if k == 1 {
            Shape::J
        } else if k == 2 {
            Shape::L
        } else if k == 3 {
            Shape::O
        } else if k == 4 {
            Shape::S
        } else if k == 5 {
            Shape::T
        } else {
            Shape::Z
        }
    }

    /// The unrotated pattern of the shape.
    pub fn base(self) -> (p: Pattern)
        ensures
            pattern_view(p) == base_pattern(self),
    {
        let p: Pattern = match self {
            Shape::I => [
                [0, 0, 0, 0, 0],
                [0, 0, 1, 0, 0],
                [0, 0, 1, 0, 0],
                [0, 0, 1, 0, 0],
                [0, 0, 1, 0, 0],
            ],
            Shape::J => [
                [0, 0, 0, 0, 0],
                [0, 1, 1, 0, 0],
                [0, 0, 1, 0, 0],
                [0, 0, 1, 0, 0],
                [0, 0, 0, 0, 0],
            ],
            Shape::L => [
                [0, 0, 0, 0, 0],
                [0, 0, 1, 0, 0],
                [0, 0, 1, 0, 0],
                [0, 1, 1, 0, 0],
                [0, 0, 0, 0, 0],
            ],
            Shape::O => [
                [0, 0, 0, 0, 0],
                [0, 0, 0, 0, 0],
                [0, 0, 1, 1, 0],
                [0, 0, 1, 1, 0],
                [0, 0, 0, 0, 0],
            ],
            Shape::S => [
                [0, 0, 0, 0, 0],
                [0, 0, 0, 1, 0],
                [0, 0, 1, 1, 0],
                [0, 0, 1, 0, 0],
                [0, 0, 0, 0, 0],
            ],
            Shape::T => [
                [0, 0, 0, 0, 0],
                [0, 0, 1, 0, 0],
                [0, 0, 1, 1, 0],
                [0, 0, 1, 0, 0],
                [0, 0, 0, 0, 0],
            ],
            Shape::Z => [
                [0, 0, 0, 0, 0],
                [0, 0, 1, 0, 0],
                [0, 0, 1, 1, 0],
                [0, 0, 0, 1, 0],
                [0, 0, 0, 0, 0],
            ],
        };
        assert(pattern_view(p) =~~= base_pattern(self));
        p
    }
}

/// Turns a pattern a quarter turn clockwise.
pub fn rotate_pattern(p: &Pattern) -> (q: Pattern)
    ensures
        pattern_view(q) == rotate_cw(pattern_view(*p)),
{
    let mut q: Pattern = [[0; 5]; 5];
    let mut dx: usize = 0;
    while dx < BOX
        invariant
            dx <= BOX,
            forall|a: int, b: int| 0 <= a < dx && 0 <= b < BOX ==> q[a][b] == p[b][4 - a],
        decreases BOX - dx,
    {
        let mut dy: usize = 0;
        while dy < BOX
            invariant
                dx < BOX,
                dy <= BOX,
                forall|a: int, b: int| 0 <= a < dx && 0 <= b < BOX ==> q[a][b] == p[b][4 - a],
                forall|b: int| 0 <= b < dy ==> q[dx as int][b] == p[b][4 - dx],
            decreases BOX - dy,
        {
            q[dx][dy] = p[dy][4 - dx];
            dy += 1;
        }
        dx += 1;
    }
    assert(pattern_view(q) =~~= rotate_cw(pattern_view(*p)));
    q
}

/// A falling piece: a shape and the number of quarter turns applied to it.
#[derive(Clone, Copy, Debug, PartialEq, Eq, Structural)]
pub struct Piece {
    shape: Shape,
    rotation: u8,
}

/// The mathematical value of a piece.
pub struct PieceView {
    pub shape: Shape,
    pub rotation: nat,
}

impl PieceView {
    /// The rotation index stays inside the shape's cycle.
    pub open spec fn wf(self) -> bool {
        self.rotation < self.shape.spec_cycle_len()
    }

    /// The cells the piece occupies inside its box.
    pub open spec fn pattern(self) -> Seq<Seq<u8>> {
        rotate_times(base_pattern(self.shape), self.rotation)
    }

    /// The next rotation state in the shape's cycle.
    pub open spec fn rotated(self) -> PieceView {
        PieceView {
            shape: self.shape,
            rotation: (self.rotation + 1) % self.shape.spec_cycle_len(),
        }
    }

    /// The state after `n` rotation steps.
    pub open spec fn rotated_by(self, n: nat) -> PieceView
        decreases n,
    {
        if n == 0 {
            self
        } else {
            self.rotated_by((n - 1) as nat).rotated()
        }
    }
}

impl View for Piece {
    type V = PieceView;

    closed spec fn view(&self) -> PieceView {
        PieceView { shape: self.shape, rotation: self.rotation as nat }
    }
}

impl Piece {
    #[verifier::type_invariant]
    closed spec fn inv(self) -> bool {
        self@.wf()
    }

    /// A piece of the given shape in its unrotated state.
    pub fn new(shape: Shape) -> (piece: Piece)
        ensures
            piece@ == (PieceView { shape, rotation: 0 }),
            piece@.wf(),
    {
        Piece { shape, rotation: 0 }
    }

    /// A piece of the shape that `roll` selects, in its unrotated state.
    /// Rolls drawn uniformly give each shape with equal probability, up to
    /// the remainder of the roll's range modulo seven.
    pub fn spawn_random(roll: u64) -> (piece: Piece)
        ensures
            piece@ == (PieceView { shape: shape_of_roll(roll), rotation: 0 }),
            piece@.wf(),
    {
        Piece::new(Shape::from_roll(roll))
    }

    /// The shape of the piece.
    pub fn shape(&self) -> (shape: Shape)
        ensures
            shape == self@.shape,
    {
        self.shape
    }

    /// How many quarter turns have been applied to the base pattern.
    pub fn rotation(&self) -> (rotation: u8)
        ensures
            rotation == self@.rotation,
            self@.wf(),
    {
        proof {
            use_type_invariant(self);
        }
        self.rotation
    }

    /// The 5x5 pattern of the piece in its current rotation state.
    pub fn occupancy(&self) -> (p: Pattern)
        ensures
            pattern_view(p) == self@.pattern(),
            is_pattern(pattern_view(p)),
            self@.wf(),
    {
        proof {
            use_type_invariant(self);
        }
        let mut p = self.shape.base();
        let mut k: u8 = 0;
        while k < self.rotation
            invariant
                k <= self.rotation,
                pattern_view(p) == rotate_times(base_pattern(self.shape), k as nat),
            decreases self.rotation - k,
        {
            p = rotate_pattern(&p);
            k += 1;
        }
        proof {
            lemma_pattern_is_pattern(self@);
        }
        p
    }

    /// Advances the piece to the next rotation state of its shape's cycle.
    /// The square keeps its pattern; every other shape turns a quarter turn
    /// clockwise.
    pub fn rotate(&mut self)
        ensures
            final(self)@ == old(self)@.rotated(),
            final(self)@.wf(),
            final(self)@.pattern() == if old(self)@.shape == Shape::O {
                old(self)@.pattern()
            } else {
                rotate_cw(old(self)@.pattern())
            },
    {
        proof {
            use_type_invariant(&*self);
            lemma_rotated_pattern(self@);
        }
        let n = self.shape.cycle_len();
        self.rotation = (self.rotation + 1) % n;
    }
}

/// Rotating a 5x5 matrix keeps it a 5x5 matrix of zeros and ones.
pub proof fn lemma_rotate_cw_is_pattern(p: Seq<Seq<u8>>)
    requires
        is_pattern(p),
    ensures
        is_pattern(rotate_cw(p)),
{
    let q = rotate_cw(p);
    assert forall|dx: int, dy: int| 0 <= dx < BOX && 0 <= dy < BOX implies #[trigger] q[dx][dy]
        <= 1 by {
        assert(q[dx][dy] == p[dy][4 - dx]);
    }
}

/// Four quarter turns bring every 5x5 matrix back to itself.
pub proof fn lemma_four_turns(p: Seq<Seq<u8>>)
    requires
        p.len() == BOX,
        forall|dx: int| 0 <= dx < BOX ==> (#[trigger] p[dx]).len() == BOX,
    ensures
        rotate_times(p, 4) == p,
{
    reveal_with_fuel(rotate_times, 5);
    let a = rotate_cw(p);
    let b = rotate_cw(a);
    let c = rotate_cw(b);
    let d = rotate_cw(c);
    assert(rotate_times(p, 4) == d);
    assert forall|dx: int, dy: int| 0 <= dx < BOX && 0 <= dy < BOX implies d[dx][dy]
        == p[dx][dy] by {
        assert(d[dx][dy] == c[dy][4 - dx]);
        assert(c[dy][4 - dx] == b[4 - dx][4 - dy]);
        assert(b[4 - dx][4 - dy] == a[4 - dy][dx]);
        assert(a[4 - dy][dx] == p[dx][dy]);
    }
    assert(d =~~= p);
}

/// The pattern of every piece is a 5x5 matrix of zeros and ones.
pub proof fn lemma_pattern_is_pattern(v: PieceView)
    ensures
        is_pattern(v.pattern()),
{
    lemma_base_is_pattern(v.shape);
    lemma_rotate_times_is_pattern(base_pattern(v.shape), v.rotation);
}

/// The base pattern of every shape is a 5x5 matrix of zeros and ones.
pub proof fn lemma_base_is_pattern(shape: Shape)
    ensures
        is_pattern(base_pattern(shape)),
{
    let p = base_pattern(shape);
    assert(p.len() == BOX);
    assert(p[0].len() == BOX && p[1].len() == BOX && p[2].len() == BOX && p[3].len() == BOX
        && p[4].len() == BOX);
    assert forall|dx: int, dy: int| 0 <= dx < BOX && 0 <= dy < BOX implies #[trigger] p[dx][dy]
        <= 1 by {
        let col = p[dx];
        assert(col[0] <= 1 && col[1] <= 1 && col[2] <= 1 && col[3] <= 1 && col[4] <= 1);
    }
}

/// Any number of quarter turns keeps a 5x5 matrix of zeros and ones one.
pub proof fn lemma_rotate_times_is_pattern(p: Seq<Seq<u8>>, n: nat)
    requires
        is_pattern(p),
    ensures
        is_pattern(rotate_times(p, n)),
    decreases n,
{
    if n > 0 {
        lemma_rotate_times_is_pattern(p, (n - 1) as nat);
        lemma_rotate_cw_is_pattern(rotate_times(p, (n - 1) as nat));
    }
}

/// The centre cell of the box is occupied in every rotation state of every
/// shape, so no piece is without an occupied cell.
pub proof fn lemma_centre_occupied(v: PieceView)
    ensures
        v.pattern()[2][2] == 1,
{
    let base = base_pattern(v.shape);
    assert(base[2][2] == 1);
    lemma_base_is_pattern(v.shape);
    lemma_turns_keep_centre(base, v.rotation);
}

/// Quarter turns leave the centre cell of a 5x5 matrix where it is.
proof fn lemma_turns_keep_centre(p: Seq<Seq<u8>>, n: nat)
    requires
        is_pattern(p),
    ensures
        rotate_times(p, n)[2][2] == p[2][2],
    decreases n,
{
    if n > 0 {
        lemma_turns_keep_centre(p, (n - 1) as nat);
        lemma_rotate_times_is_pattern(p, (n - 1) as nat);
        let q = rotate_times(p, (n - 1) as nat);
        assert(rotate_cw(q)[2][2] == q[2][4 - 2]);
    }
}

/// One rotation step leaves the square's pattern as it is and turns the
/// pattern of every other shape a quarter turn clockwise.
pub proof fn lemma_rotated_pattern(v: PieceView)
    requires
        v.wf(),
    ensures
        v.rotated().wf(),
        v.rotated().pattern() == if v.shape == Shape::O {
            v.pattern()
        } else {
            rotate_cw(v.pattern())
        },
{
    reveal_with_fuel(rotate_times, 5);
    if v.shape != Shape::O && v.rotation == 3 {
        lemma_base_is_pattern(v.shape);
        lemma_four_turns(base_pattern(v.shape));
    }
}

/// Rotation cycle closure: after as many rotation steps as the shape's cycle
/// is long, a piece is back in the state it started in, and so is its
/// pattern, cell for cell. Four steps do the same for every shape.
pub proof fn lemma_rotation_cycle(v: PieceView)
    requires
        v.wf(),
    ensures
        v.rotated_by(v.shape.spec_cycle_len()) == v,
        v.rotated_by(v.shape.spec_cycle_len()).pattern() == v.pattern(),
        v.rotated_by(4) == v,
        v.rotated_by(4).pattern() == v.pattern(),
{
    let a = v.rotated();
    let b = a.rotated();
    let c = b.rotated();
    let d = c.rotated();
    assert(v.rotated_by(0) == v);
    assert(v.rotated_by(1) == a);
    assert(v.rotated_by(2) == b);
    assert(v.rotated_by(3) == c);
    assert(v.rotated_by(4) == d);
    if v.shape == Shape::O {
        assert(a.rotation == 0);
    } else {
        assert(v.shape.spec_cycle_len() == 4);
        assert(a.shape == v.shape);
        assert(a.rotation == (v.rotation + 1) % 4);
        assert(b.shape == v.shape);
        assert(b.rotation == (a.rotation + 1) % 4);
        assert(c.shape == v.shape);
        assert(c.rotation == (b.rotation + 1) % 4);
        assert(d.rotation == (c.rotation + 1) % 4);
    }
}

} // verus!

use rand::Rng;
use vstd::prelude::*;

use crate::geometry::Point;

verus! {

pub const BRICK_TYPE_COUNT: usize = 7;

pub const BLOCK_COUNT_OF_BRICK: usize = 4;

/// The cells of a piece as `(x, y)` pairs.
pub type TupleBrickPoints = [(u16, u16); BLOCK_COUNT_OF_BRICK];

/// The cells of a piece.
pub type BrickPoints = [Point; BLOCK_COUNT_OF_BRICK];

pub const O_BRICK_POINTS: TupleBrickPoints = [(0, 0), (0, 1), (1, 0), (1, 1)];

pub const Z_BRICK_POINTS: TupleBrickPoints = [(0, 0), (1, 0), (1, 1), (2, 1)];

pub const T_BRICK_POINTS: TupleBrickPoints = [(1, 0), (0, 1), (1, 1), (2, 1)];

pub const S_BRICK_POINTS: TupleBrickPoints = [(1, 0), (2, 0), (0, 1), (1, 1)];

pub const L_BRICK_POINTS: TupleBrickPoints = [(0, 0), (0, 1), (1, 1), (2, 1)];

pub const RL_BRICK_POINTS: TupleBrickPoints = [(2, 0), (0, 1), (1, 1), (2, 1)];

pub const I_BRICK_POINTS: TupleBrickPoints = [(0, 0), (1, 0), (2, 0), (3, 0)];

/// The largest `x` among the cells (0 for no cells).
pub open spec fn max_x(s: Seq<Point>) -> u16
    decreases s.len(),
{
    if s.len() == 0 {
        0
    } else if s.last().x > max_x(s.drop_last()) {
        s.last().x
    } else {
        max_x(s.drop_last())
    }
}

/// The largest `y` among the cells (0 for no cells).
pub open spec fn max_y(s: Seq<Point>) -> u16
    decreases s.len(),
{
    if s.len() == 0 {
        0
    } else if s.last().y > max_y(s.drop_last()) {
        s.last().y
    } else {
        max_y(s.drop_last())
    }
}

/// One cell turned a quarter clockwise inside a box whose largest `x` is `m`.
pub open spec fn rotate_point(p: Point, m: u16) -> Point {
    Point { x: p.y, y: if m == 0 { 0 } else { (m - p.x) as u16 } }
}

/// The cells turned a quarter clockwise inside their own bounding box:
/// `(x, y)` becomes `(y, max_x - x)`.
pub open spec fn rotation(s: Seq<Point>) -> Seq<Point> {
    s.map_values(|p: Point| rotate_point(p, max_x(s)))
}

/// The cells after `n` quarter turns.
pub open spec fn rotation_n(s: Seq<Point>, n: nat) -> Seq<Point>
    decreases n,
{
    if n == 0 {
        s
    } else {
        rotation(rotation_n(s, (n - 1) as nat))
    }
}

/// Some cell lies in column 0 and some cell lies in row 0: the cells sit in the
/// corner of their bounding box, as every piece of the catalog does.
pub open spec fn touches_axes(s: Seq<Point>) -> bool {
    &&& exists|i: int| 0 <= i < s.len() && #[trigger] s[i].x == 0
    &&& exists|j: int| 0 <= j < s.len() && #[trigger] s[j].y == 0
}

/// A piece of the catalog turned 0 to 3 times.
pub open spec fn is_catalog_piece(b: Brick) -> bool {
    exists|t: BrickType, k: nat| k < 4 && b@ == #[trigger] rotation_n(t.layout(), k)
}

/// The cells of a layout given as pairs.
pub open spec fn points_of(t: TupleBrickPoints) -> Seq<Point> {
    t@.map_values(|c: (u16, u16)| Point { x: c.0, y: c.1 })
}

proof fn lemma_max_x_bound(s: Seq<Point>)
    ensures
        forall|i: int| 0 <= i < s.len() ==> #[trigger] s[i].x <= max_x(s),
        s.len() > 0 ==> exists|i: int| 0 <= i < s.len() && #[trigger] s[i].x == max_x(s),
    decreases s.len(),
{
    if s.len() > 0 {
        let d = s.drop_last();
        lemma_max_x_bound(d);
        assert forall|i: int| 0 <= i < s.len() implies #[trigger] s[i].x <= max_x(s) by {
            if i < s.len() - 1 {
                assert(s[i] == d[i]);
            }
        }
        if s.last().x <= max_x(d) && d.len() > 0 {
            let k = choose|k: int| 0 <= k < d.len() && #[trigger] d[k].x == max_x(d);
            assert(s[k] == d[k]);
        } else {
            assert(s[s.len() - 1].x == max_x(s));
        }
    }
}

proof fn lemma_max_y_bound(s: Seq<Point>)
    ensures
        forall|i: int| 0 <= i < s.len() ==> #[trigger] s[i].y <= max_y(s),
        s.len() > 0 ==> exists|i: int| 0 <= i < s.len() && #[trigger] s[i].y == max_y(s),
    decreases s.len(),
{
    if s.len() > 0 {
        let d = s.drop_last();
        lemma_max_y_bound(d);
        assert forall|i: int| 0 <= i < s.len() implies #[trigger] s[i].y <= max_y(s) by {
            if i < s.len() - 1 {
                assert(s[i] == d[i]);
            }
        }
        if s.last().y <= max_y(d) && d.len() > 0 {
            let k = choose|k: int| 0 <= k < d.len() && #[trigger] d[k].y == max_y(d);
            assert(s[k] == d[k]);
        } else {
            assert(s[s.len() - 1].y == max_y(s));
        }
    }
}

/// A bound that every `x` meets and some `x` reaches is `max_x`.
proof fn lemma_max_x_is(s: Seq<Point>, m: u16)
    requires
        forall|i: int| 0 <= i < s.len() ==> #[trigger] s[i].x <= m,
        exists|i: int| 0 <= i < s.len() && #[trigger] s[i].x == m,
    ensures
        max_x(s) == m,
{
    lemma_max_x_bound(s);
    let k = choose|k: int| 0 <= k < s.len() && #[trigger] s[k].x == m;
    let j = choose|j: int| 0 <= j < s.len() && #[trigger] s[j].x == max_x(s);
    assert(s[k].x <= max_x(s));
    assert(s[j].x <= m);
}

/// A bound that every `y` meets and some `y` reaches is `max_y`.
proof fn lemma_max_y_is(s: Seq<Point>, m: u16)
    requires
        forall|i: int| 0 <= i < s.len() ==> #[trigger] s[i].y <= m,
        exists|i: int| 0 <= i < s.len() && #[trigger] s[i].y == m,
    ensures
        max_y(s) == m,
{
    lemma_max_y_bound(s);
    let k = choose|k: int| 0 <= k < s.len() && #[trigger] s[k].y == m;
    let j = choose|j: int| 0 <= j < s.len() && #[trigger] s[j].y == max_y(s);
    assert(s[k].y <= max_y(s));
    assert(s[j].y <= m);
}

/// One quarter turn of cells in the corner of their box: each `(x, y)` goes to
/// `(y, max_x - x)`, the result is in the corner again, and the two extents swap.
pub proof fn lemma_rotation_step(s: Seq<Point>)
    requires
        touches_axes(s),
    ensures
        rotation(s).len() == s.len(),
        forall|i: int|
            0 <= i < s.len() ==> #[trigger] rotation(s)[i] == (Point {
                x: s[i].y,
                y: (max_x(s) - s[i].x) as u16,
            }),
        touches_axes(rotation(s)),
        max_x(rotation(s)) == max_y(s),
        max_y(rotation(s)) == max_x(s),
{
    let r = rotation(s);
    let m = max_x(s);
    lemma_max_x_bound(s);
    lemma_max_y_bound(s);
    assert forall|i: int| 0 <= i < s.len() implies #[trigger] r[i] == (Point {
        x: s[i].y,
        y: (m - s[i].x) as u16,
    }) by {
        assert(s[i].x <= m);
    }
    let a = choose|a: int| 0 <= a < s.len() && #[trigger] s[a].x == 0;
    let b = choose|b: int| 0 <= b < s.len() && #[trigger] s[b].y == 0;
    let c = choose|c: int| 0 <= c < s.len() && #[trigger] s[c].x == m;
    let d = choose|d: int| 0 <= d < s.len() && #[trigger] s[d].y == max_y(s);
    assert(r[b].x == 0);
    assert(r[c].y == 0);
    assert(r[d].x == max_y(s));
    assert(r[a].y == m);
    lemma_max_x_is(r, max_y(s));
    lemma_max_y_is(r, m);
}

/// Four quarter turns bring a piece back to where it started, cell for cell,
/// whenever its cells sit in the corner of their bounding box.
pub proof fn lemma_four_rotations(s: Seq<Point>)
    requires
        touches_axes(s),
    ensures
        rotation_n(s, 4) == s,
        rotation_n(s, 4).to_set() == s.to_set(),
{
    let r1 = rotation(s);
    lemma_rotation_step(s);
    let r2 = rotation(r1);
    lemma_rotation_step(r1);
    let r3 = rotation(r2);
    lemma_rotation_step(r2);
    let r4 = rotation(r3);
    lemma_rotation_step(r3);
    assert(rotation_n(s, 0) == s);
    assert(rotation_n(s, 1) == r1);
    assert(rotation_n(s, 2) == r2);
    assert(rotation_n(s, 3) == r3);
    assert(rotation_n(s, 4) == r4);
    lemma_max_x_bound(s);
    lemma_max_y_bound(s);
    assert(r4 =~= s);
}

/// Turning cells whose `x` never exceeds `max_x` keeps distinct cells distinct.
pub proof fn lemma_rotation_keeps_distinct(s: Seq<Point>)
    requires
        s.no_duplicates(),
    ensures
        rotation(s).no_duplicates(),
{
    let r = rotation(s);
    let m = max_x(s);
    lemma_max_x_bound(s);
    assert forall|i: int, j: int| 0 <= i < r.len() && 0 <= j < r.len() && i != j implies r[i]
        != r[j] by {
        assert(s[i].x <= m && s[j].x <= m);
        assert(s[i] != s[j]);
    }
}

/// The seven kinds of piece.
#[derive(Copy, Clone, Eq, PartialEq, Debug, Hash, Structural)]
pub enum BrickType {
    O,
    Z,
    T,
    S,
    L,
    RL,
    I,
}

impl BrickType {
    /// Position of the kind in the catalog, from 0 to 6.
    pub open spec fn index(self) -> int {
        match self {
            BrickType::O => 0,
            BrickType::Z => 1,
            BrickType::T => 2,
            BrickType::S => 3,
            BrickType::L => 4,
            BrickType::RL => 5,
            BrickType::I => 6,
        }
    }

    /// The kind's canonical cells.
    pub open spec fn layout(self) -> Seq<Point> {
        match self {
            BrickType::O => points_of(O_BRICK_POINTS),
            BrickType::Z => points_of(Z_BRICK_POINTS),
            BrickType::T => points_of(T_BRICK_POINTS),
            BrickType::S => points_of(S_BRICK_POINTS),
            BrickType::L => points_of(L_BRICK_POINTS),
            BrickType::RL => points_of(RL_BRICK_POINTS),
            BrickType::I => points_of(I_BRICK_POINTS),
        }
    }

    /// The kind at a catalog position; positions past the last give `O`.
    pub fn from_usize(num: usize) -> (r: BrickType)
        ensures
            num < BRICK_TYPE_COUNT ==> r.index() == num,
            num >= BRICK_TYPE_COUNT ==> r == BrickType::O,
    {
        match num {
            0 => BrickType::O,
            1 => BrickType::Z,
            2 => BrickType::T,
            3 => BrickType::S,
            4 => BrickType::L,
            5 => BrickType::RL,
            6 => BrickType::I,
            _ => BrickType::O,
        }
    }
}

/// Each canonical layout has four distinct cells in the corner of its box.
pub proof fn lemma_catalog_layout(t: BrickType)
    ensures
        t.layout().len() == BLOCK_COUNT_OF_BRICK,
        t.layout().no_duplicates(),
        touches_axes(t.layout()),
{
    let s = t.layout();
    assert(s[0].y == 0);
    assert(s[0].x == 0 || s[1].x == 0 || s[2].x == 0);
}

/// A piece: four cells relative to its own origin.
#[derive(Copy, Clone, Eq, PartialEq, Debug)]
pub struct Brick {
    pub points: BrickPoints,
}

impl View for Brick {
    type V = Seq<Point>;

    open spec fn view(&self) -> Seq<Point> {
        self.points@
    }
}

impl Brick {
    /// Distinct cells in the corner of their bounding box: true of every piece
    /// of the catalog and kept by rotation.
    pub open spec fn wf(&self) -> bool {
        self@.no_duplicates() && touches_axes(self@)
    }

    pub fn new(points: TupleBrickPoints) -> (r: Brick)
        ensures
            r@ == points_of(points),
    {
        Brick { points: create_points(points) }
    }

    /// Turns the piece a quarter clockwise inside its bounding box.
    pub fn rotate(&mut self)
        ensures
            final(self)@ == rotation(old(self)@),
            old(self).wf() ==> final(self).wf(),
    {
        let ghost before = self@;
        let mut max: u16 = 0;
        let mut i: usize = 0;
        while i < BLOCK_COUNT_OF_BRICK
            invariant
                i <= BLOCK_COUNT_OF_BRICK,
                self@ == before,
                max == max_x(before.take(i as int)),
            decreases BLOCK_COUNT_OF_BRICK - i,
        {
            assert(before.take(i + 1).drop_last() == before.take(i as int));
            if self.points[i].x > max {
                max = self.points[i].x;
            }
            i += 1;
        }
        assert(before.take(4) == before);
        proof {
            lemma_max_x_bound(before);
        }
        let mut index: usize = 0;
        while index < BLOCK_COUNT_OF_BRICK
            invariant
                index <= BLOCK_COUNT_OF_BRICK,
                before.len() == BLOCK_COUNT_OF_BRICK,
                max == max_x(before),
                forall|j: int| 0 <= j < before.len() ==> #[trigger] before[j].x <= max,
                forall|j: int| 0 <= j < index ==> self@[j] == rotate_point(before[j], max),
                forall|j: int| index <= j < BLOCK_COUNT_OF_BRICK ==> self@[j] == before[j],
            decreases BLOCK_COUNT_OF_BRICK - index,
        {
            let point = self.points[index];
            assert(point == before[index as int]);
            let new_y: u16 = if max == 0 {
                0
            } else {
                max - point.x
            };
            self.points[index] = Point { x: point.y, y: new_y };
            index += 1;
        }
        assert(self@ =~= rotation(before));
        proof {
            if before.no_duplicates() && touches_axes(before) {
                lemma_rotation_keeps_distinct(before);
                lemma_rotation_step(before);
            }
        }
    }
}

/// The cells of a layout given as pairs.
pub fn create_points(points: TupleBrickPoints) -> (r: BrickPoints)
    ensures
        r@ == points_of(points),
{
    let r = [
        Point::new(points[0].0, points[0].1),
        Point::new(points[1].0, points[1].1),
        Point::new(points[2].0, points[2].1),
        Point::new(points[3].0, points[3].1),
    ];
    assert(r@ =~= points_of(points));
    r
}

/// The catalog: the piece of each kind, at the kind's position.
pub fn create_all_brick() -> (r: Vec<Brick>)
    ensures
        r@.len() == BRICK_TYPE_COUNT,
        forall|t: BrickType| #[trigger] r@[t.index()]@ == t.layout(),
{
    let mut all = Vec::new();
    all.push(Brick::new(O_BRICK_POINTS));
    all.push(Brick::new(Z_BRICK_POINTS));
    all.push(Brick::new(T_BRICK_POINTS));
    all.push(Brick::new(S_BRICK_POINTS));
    all.push(Brick::new(L_BRICK_POINTS));
    all.push(Brick::new(RL_BRICK_POINTS));
    all.push(Brick::new(I_BRICK_POINTS));
    all
}

/// Relies on rand::thread_rng and Rng::gen_range: a number drawn from `0..bound`
/// (gen_range panics on an empty range, hence the bound above zero).
#[verifier::external_body]
fn random_below(bound: usize) -> (r: usize)
    requires
        bound > 0,
    ensures
        r < bound,
{
    rand::thread_rng().gen_range(0..bound)
}

/// Hands out pieces of the catalog, turned or not.
pub struct BrickCollection {
    all_bricks: Vec<Brick>,
}

impl BrickCollection {
    /// Holds the catalog, each kind at its position.
    pub closed spec fn wf(&self) -> bool {
        &&& self.all_bricks@.len() == BRICK_TYPE_COUNT
        &&& forall|t: BrickType| #[trigger] self.all_bricks@[t.index()]@ == t.layout()
    }

    pub fn new() -> (r: BrickCollection)
        ensures
            r.wf(),
    {
        let all_bricks = create_all_brick();
        BrickCollection { all_bricks }
    }

    /// A piece of a kind drawn at random, turned a random number of times
    /// from 0 to 3.
    pub fn get_rand_one(&self) -> (r: Brick)
        requires
            self.wf(),
        ensures
            is_catalog_piece(r),
            r.wf(),
    {
        let index = BrickType::from_usize(random_below(BRICK_TYPE_COUNT));
        let rotate_times = random_below(4);
        let r = self.get_new_one(index, rotate_times);
        assert(r@ == rotation_n(index.layout(), rotate_times as nat));
        r
    }

    /// The piece of kind `brick_type`, turned `rotate_time` times.
    pub fn get_new_one(&self, brick_type: BrickType, rotate_time: usize) -> (r: Brick)
        requires
            self.wf(),
        ensures
            r@ == rotation_n(brick_type.layout(), rotate_time as nat),
            r.wf(),
    {
        let mut new_block = self.all_bricks[brick_type_index(brick_type)];
        proof {
            lemma_catalog_layout(brick_type);
        }
        let mut i: usize = 0;
        while i < rotate_time
            invariant
                i <= rotate_time,
                new_block@ == rotation_n(brick_type.layout(), i as nat),
                new_block.wf(),
            decreases rotate_time - i,
        {
            new_block.rotate();
            i += 1;
        }
        new_block
    }
}

/// Position of a kind in the catalog.
fn brick_type_index(t: BrickType) -> (r: usize)
    ensures
        r == t.index(),
{
    match t {
        BrickType::O => 0,
        BrickType::Z => 1,
        BrickType::T => 2,
        BrickType::S => 3,
        BrickType::L => 4,
        BrickType::RL => 5,
        BrickType::I => 6,
    }
}

} // verus!

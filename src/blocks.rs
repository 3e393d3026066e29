use vstd::prelude::*;

use crate::bricks::Brick;
use crate::geometry::{Point, Size};

verus! {

/// The cell `c = (x, y)` lies on the grid `g` (rows indexed by `y`).
pub open spec fn in_grid(g: Seq<Seq<bool>>, c: (int, int)) -> bool {
    0 <= c.1 < g.len() && 0 <= c.0 < g[c.1].len()
}

/// The cell lies on the grid and holds `flag`.
pub open spec fn holds(g: Seq<Seq<bool>>, c: (int, int), flag: bool) -> bool {
    in_grid(g, c) && g[c.1][c.0] == flag
}

/// Every listed cell lies on the grid and holds `flag`.
pub open spec fn all_hold(g: Seq<Seq<bool>>, cs: Seq<(int, int)>, flag: bool) -> bool {
    forall|i: int| 0 <= i < cs.len() ==> holds(g, #[trigger] cs[i], flag)
}

/// Every listed cell lies on the grid.
pub open spec fn all_in_grid(g: Seq<Seq<bool>>, cs: Seq<(int, int)>) -> bool {
    forall|i: int| 0 <= i < cs.len() ==> in_grid(g, #[trigger] cs[i])
}

/// The grid with every listed cell set to `flag` and every other cell as it was.
pub open spec fn with_cells(g: Seq<Seq<bool>>, cs: Seq<(int, int)>, flag: bool) -> Seq<Seq<bool>> {
    Seq::new(
        g.len(),
        |y: int| Seq::new(g[y].len(), |x: int| if cs.contains((x, y)) { flag } else { g[y][x] }),
    )
}

/// The grid with the rectangle at `p` of extent `s` set to `flag`.
pub open spec fn with_region(g: Seq<Seq<bool>>, p: Point, s: Size, flag: bool) -> Seq<Seq<bool>> {
    Seq::new(
        g.len(),
        |y: int|
            Seq::new(
                g[y].len(),
                |x: int|
                    if p.x <= x < p.x + s.width && p.y <= y < p.y + s.height {
                        flag
                    } else {
                        g[y][x]
                    },
            ),
    )
}

/// The cells of a list of points.
pub open spec fn cells_of(pts: Seq<Point>) -> Seq<(int, int)> {
    pts.map_values(|p: Point| p.cell())
}

/// A row of `w` empty cells.
pub open spec fn empty_row(w: nat) -> Seq<bool> {
    Seq::new(w, |x: int| false)
}

/// Every cell of the row is occupied.
pub open spec fn is_full(row: Seq<bool>) -> bool {
    forall|x: int| 0 <= x < row.len() ==> row[x]
}

/// The rows that are not full, top to bottom.
pub open spec fn kept_rows(g: Seq<Seq<bool>>) -> Seq<Seq<bool>> {
    g.filter(|row: Seq<bool>| !is_full(row))
}

/// The grid after a line clear: the full rows are gone, the other rows keep
/// their order and sink to the bottom, and as many empty rows of width `w`
/// as were removed come in at the top.
pub open spec fn cleared(g: Seq<Seq<bool>>, w: nat) -> Seq<Seq<bool>> {
    Seq::new((g.len() - kept_rows(g).len()) as nat, |i: int| empty_row(w)) + kept_rows(g)
}

/// `lines` lists each full row of `g` once, from the bottom up.
pub open spec fn lists_full_rows(lines: Seq<u16>, g: Seq<Seq<bool>>) -> bool {
    &&& forall|i: int, j: int| 0 <= i < j < lines.len() ==> lines[i] > lines[j]
    &&& forall|i: int|
        0 <= i < lines.len() ==> #[trigger] lines[i] < g.len() && is_full(g[lines[i] as int])
    &&& forall|y: int| 0 <= y < g.len() && is_full(g[y]) ==> lines.contains(y as u16)
}

/// A row of `width` empty cells.
pub fn create_empty_line(width: u16) -> (r: Vec<bool>)
    ensures
        r@ == empty_row(width as nat),
{
    let mut line: Vec<bool> = Vec::new();
    let mut i: u16 = 0;
    while i < width
        invariant
            i <= width,
            line@ == empty_row(i as nat),
        decreases width - i,
    {
        line.push(false);
        i += 1;
        assert(line@ =~= empty_row(i as nat));
    }
    line
}

/// Rows removed by a line clear, from the bottom up.
pub struct TryCleanLinesResult {
    pub clear_lines: Vec<u16>,
}

/// The occupancy grid of the playing field: `height` rows of `width` cells,
/// row 0 at the top.
pub struct BlocksData {
    pub blocks: Vec<Vec<bool>>,
    block_size: Size,
}

impl View for BlocksData {
    type V = Seq<Seq<bool>>;

    closed spec fn view(&self) -> Seq<Seq<bool>> {
        self.blocks@.map_values(|row: Vec<bool>| row@)
    }
}

impl BlocksData {
    /// The extent fixed at construction.
    pub closed spec fn size(&self) -> Size {
        self.block_size
    }

    /// The grid has the extent it was made with.
    pub open spec fn wf(&self) -> bool {
        &&& self@.len() == self.size().height
        &&& forall|y: int| 0 <= y < self@.len() ==> #[trigger] self@[y].len() == self.size().width
    }

    /// An empty grid of the given extent.
    pub fn new(block_size: Size) -> (r: BlocksData)
        ensures
            r.wf(),
            r.size() == block_size,
            forall|c: (int, int)| in_grid(r@, c) ==> holds(r@, c, false),
    {
        let mut blocks: Vec<Vec<bool>> = Vec::new();
        let mut line: u16 = 0;
        while line < block_size.height
            invariant
                line <= block_size.height,
                blocks@.len() == line,
                forall|y: int| 0 <= y < line ==> #[trigger] blocks@[y]@ == empty_row(block_size.width as nat),
            decreases block_size.height - line,
        {
            blocks.push(create_empty_line(block_size.width));
            line += 1;
        }
        BlocksData { blocks, block_size }
    }

    /// Succeeds when every point lies on the grid and holds `flag`.
    pub fn test_points(&self, points: &[Point], flag: bool) -> (r: Result<(), ()>)
        ensures
            r is Ok <==> all_hold(self@, cells_of(points@), flag),
    {
        let mut i: usize = 0;
        while i < points.len()
            invariant
                i <= points@.len(),
                forall|k: int| 0 <= k < i ==> holds(self@, #[trigger] points@[k].cell(), flag),
            decreases points@.len() - i,
        {
            let point = points[i];
            let y = point.y as usize;
            if y >= self.blocks.len() {
                assert(!holds(self@, cells_of(points@)[i as int], flag));
                return Err(());
            }
            let x = point.x as usize;
            if x >= self.blocks[y].len() {
                assert(!holds(self@, cells_of(points@)[i as int], flag));
                return Err(());
            }
            if self.blocks[y][x] != flag {
                assert(!holds(self@, cells_of(points@)[i as int], flag));
                return Err(());
            }
            i += 1;
        }
        assert forall|k: int| 0 <= k < cells_of(points@).len() implies holds(
            self@,
            #[trigger] cells_of(points@)[k],
            flag,
        ) by {
            assert(cells_of(points@)[k] == points@[k].cell());
        }
        Ok(())
    }

    /// Sets every point, all of which lie on the grid, to `flag`.
    pub fn set_points(&mut self, points: &[Point], flag: bool)
        requires
            all_in_grid(old(self)@, cells_of(points@)),
        ensures
            final(self)@ == with_cells(old(self)@, cells_of(points@), flag),
            final(self).size() == old(self).size(),
            old(self).wf() ==> final(self).wf(),
    {
        let ghost g = self@;
        let mut i: usize = 0;
        assert(self@ =~~= with_cells(g, cells_of(points@.take(0)), flag));
        while i < points.len()
            invariant
                i <= points@.len(),
                self.size() == old(self).size(),
                g == old(self)@,
                all_in_grid(g, cells_of(points@)),
                self@ == with_cells(g, cells_of(points@.take(i as int)), flag),
            decreases points@.len() - i,
        {
            let point = points[i];
            assert(cells_of(points@)[i as int] == point.cell());
            let y = point.y as usize;
            let x = point.x as usize;
            let ghost before = self@;
            assert(in_grid(g, point.cell()));
            assert(in_grid(before, point.cell()));
            assert(self.blocks@[y as int]@ == before[y as int]);
            self.blocks[y][x] = flag;
            assert(self@ =~~= before.update(y as int, before[y as int].update(x as int, flag)));
            let ghost done = cells_of(points@.take(i as int));
            let ghost more = cells_of(points@.take(i + 1));
            assert(more =~= done.push(point.cell()));
            assert forall|c: (int, int)| #[trigger] more.contains(c) <==> done.contains(c) || c == point.cell() by {
                if done.contains(c) {
                    let j = choose|j: int| 0 <= j < done.len() && done[j] == c;
                    assert(more[j] == c);
                }
                if c == point.cell() {
                    assert(more[i as int] == c);
                }
                if more.contains(c) && c != point.cell() {
                    let j = choose|j: int| 0 <= j < more.len() && more[j] == c;
                    assert(done[j] == c);
                }
            }
            assert(self@ =~~= with_cells(g, more, flag));
            i += 1;
        }
        assert(points@.take(points@.len() as int) == points@);
    }

    /// Sets every cell of the piece, all of which lie on the grid, to `flag`.
    pub fn set_brick(&mut self, brick: &Brick, flag: bool)
        requires
            all_in_grid(old(self)@, cells_of(brick@)),
        ensures
            final(self)@ == with_cells(old(self)@, cells_of(brick@), flag),
            final(self).size() == old(self).size(),
            old(self).wf() ==> final(self).wf(),
    {
        self.set_points(&brick.points, flag)
    }

    /// Sets every cell of the rectangle at `point` of extent `size`, which lies
    /// on the grid, to `flag`.
    pub fn set_region(&mut self, point: Point, size: Size, flag: bool)
        requires
            old(self).wf(),
            point.y + size.height <= old(self).size().height,
            point.x + size.width <= old(self).size().width,
        ensures
            final(self).wf(),
            final(self).size() == old(self).size(),
            final(self)@ == with_region(old(self)@, point, size, flag),
    {
        let ghost g = self@;
        let bottom = point.y + size.height;
        let right = point.x + size.width;
        let mut y: u16 = point.y;
        assert(self@ =~~= with_region(g, point, Size { height: 0, width: size.width }, flag));
        while y < bottom
            invariant
                point.y <= y <= bottom,
                bottom == point.y + size.height,
                right == point.x + size.width,
                g == old(self)@,
                old(self).wf(),
                self.wf(),
                self.size() == old(self).size(),
                bottom <= self.size().height,
                right <= self.size().width,
                self@ == with_region(g, point, Size { height: (y - point.y) as u16, width: size.width }, flag),
            decreases bottom - y,
        {
            let mut x: u16 = point.x;
            assert(self@ =~~= with_region(g, point, Size { height: (y - point.y) as u16, width: size.width }, flag)
                .update(
                y as int,
                Seq::new(
                    g[y as int].len(),
                    |c: int| if point.x <= c < x { flag } else { g[y as int][c] },
                ),
            ));
            while x < right
                invariant
                    point.y <= y < bottom,
                    point.x <= x <= right,
                    right == point.x + size.width,
                    g == old(self)@,
                    old(self).wf(),
                    self.wf(),
                    self.size() == old(self).size(),
                    bottom <= self.size().height,
                    right <= self.size().width,
                    self@ == with_region(g, point, Size { height: (y - point.y) as u16, width: size.width }, flag)
                        .update(
                        y as int,
                        Seq::new(
                            g[y as int].len(),
                            |c: int| if point.x <= c < x { flag } else { g[y as int][c] },
                        ),
                    ),
                decreases right - x,
            {
                let ghost before = self@;
                assert(self.blocks@[y as int]@ == before[y as int]);
                self.blocks[y as usize][x as usize] = flag;
                assert(self@ =~~= before.update(y as int, before[y as int].update(x as int, flag)));
                x += 1;
                assert(self@ =~~= with_region(g, point, Size { height: (y - point.y) as u16, width: size.width }, flag)
                    .update(
                    y as int,
                    Seq::new(
                        g[y as int].len(),
                        |c: int| if point.x <= c < x { flag } else { g[y as int][c] },
                    ),
                ));
            }
            y += 1;
            assert(self@ =~~= with_region(g, point, Size { height: (y - point.y) as u16, width: size.width }, flag));
        }
        assert(self@ =~~= with_region(g, point, size, flag));
    }

    /// Removes the full rows, lets the rest sink in order and refills the top
    /// with empty rows. Fails, and changes nothing, when no row is full.
    pub fn try_clean_lines(&mut self) -> (r: Result<TryCleanLinesResult, ()>)
        requires
            old(self).wf(),
        ensures
            final(self).wf(),
            final(self).size() == old(self).size(),
            r is Err <==> forall|y: int| 0 <= y < old(self)@.len() ==> !is_full(#[trigger] old(self)@[y]),
            r is Err ==> final(self)@ == old(self)@,
            r matches Ok(res) ==> {
                &&& lists_full_rows(res.clear_lines@, old(self)@)
                &&& res.clear_lines@.len() == old(self)@.len() - kept_rows(old(self)@).len()
                &&& final(self)@ == cleared(old(self)@, old(self).size().width as nat)
            },
    {
        let ghost g = self@;
        let height = self.blocks.len();
        let mut clear_lines: Vec<u16> = Vec::new();
        let mut y: usize = height;
        while y > 0
            invariant
                y <= height,
                height == g.len(),
                self@ == g,
                self.wf(),
                forall|i: int, j: int| 0 <= i < j < clear_lines@.len() ==> clear_lines@[i] > clear_lines@[j],
                forall|i: int|
                    0 <= i < clear_lines@.len() ==> y <= #[trigger] clear_lines@[i] < height && is_full(
                        g[clear_lines@[i] as int],
                    ),
                forall|k: int| y <= k < height && is_full(g[k]) ==> clear_lines@.contains(k as u16),
                clear_lines@.len() + kept_rows(g.subrange(y as int, height as int)).len() == height - y,
            decreases y,
        {
            y -= 1;
            proof {
                assert(g.subrange(y as int, height as int) =~= seq![g[y as int]] + g.subrange(
                    y + 1,
                    height as int,
                ));
                lemma_kept_prepend(g[y as int], g.subrange(y + 1, height as int));
            }
            let ghost found = clear_lines@;
            if row_is_full(&self.blocks[y]) {
                clear_lines.push(y as u16);
                assert(clear_lines@[clear_lines@.len() - 1] == y as u16);
                assert forall|k: int| y < k < height && is_full(g[k]) implies clear_lines@.contains(
                    k as u16,
                ) by {
                    let j = choose|j: int| 0 <= j < found.len() && found[j] == k as u16;
                    assert(clear_lines@[j] == k as u16);
                }
            }
        }
        assert(g.subrange(0, height as int) == g);
        if clear_lines.len() == 0 {
            return Err(());
        }
        assert(g[clear_lines@[0] as int] == g[clear_lines@[0] as int]);
        let mut kept: Vec<Vec<bool>> = Vec::new();
        let mut row: usize = 0;
        while row < height
            invariant
                row <= height,
                height == g.len(),
                self@ == g,
                self.wf(),
                kept@.map_values(|r: Vec<bool>| r@) == kept_rows(g.take(row as int)),
                kept@.len() <= row,
                forall|i: int| 0 <= i < kept@.len() ==> #[trigger] kept@[i]@.len() == self.size().width,
            decreases height - row,
        {
            let ghost before = kept@;
            assert(g.take(row + 1).drop_last() == g.take(row as int));
            assert(g.take(row + 1).last() == g[row as int]);
            proof {
                reveal(Seq::filter);
            }
            if !row_is_full(&self.blocks[row]) {
                let copy = self.blocks[row].clone();
                assert(copy@ =~= g[row as int]);
                kept.push(copy);
                assert(kept@.map_values(|r: Vec<bool>| r@) =~= before.map_values(|r: Vec<bool>| r@).push(
                    g[row as int],
                ));
            }
            row += 1;
        }
        assert(g.take(height as int) == g);
        let removed = height - kept.len();
        let mut blocks: Vec<Vec<bool>> = Vec::new();
        let mut i: usize = 0;
        while i < removed
            invariant
                i <= removed,
                blocks@.len() == i,
                forall|k: int| 0 <= k < i ==> #[trigger] blocks@[k]@ == empty_row(self.size().width as nat),
            decreases removed - i,
        {
            blocks.push(create_empty_line(self.block_size.width));
            i += 1;
        }
        let ghost top = blocks@;
        let ghost rest = kept@;
        blocks.append(&mut kept);
        self.blocks = blocks;
        assert(self@ =~= cleared(g, self.size().width as nat)) by {
            assert(self.blocks@ == top + rest);
            assert(rest.map_values(|r: Vec<bool>| r@) == kept_rows(g));
        }
        Ok(TryCleanLinesResult { clear_lines })
    }
}

/// A line clear on a grid of rows of width `w` removes exactly the full rows:
/// the row count is unchanged, the rows that come in at the top are empty,
/// below them stand the rows that were not full in their old order, none of
/// them full, and every row that was not full is among them.
pub proof fn lemma_line_clear(g: Seq<Seq<bool>>, w: nat)
    requires
        forall|y: int| 0 <= y < g.len() ==> #[trigger] g[y].len() == w,
    ensures
        cleared(g, w).len() == g.len(),
        forall|i: int|
            0 <= i < g.len() - kept_rows(g).len() ==> #[trigger] cleared(g, w)[i] == empty_row(w),
        cleared(g, w).subrange(g.len() - kept_rows(g).len(), g.len() as int) == kept_rows(g),
        forall|i: int| 0 <= i < kept_rows(g).len() ==> !is_full(#[trigger] kept_rows(g)[i]),
        forall|y: int| 0 <= y < g.len() && !is_full(g[y]) ==> kept_rows(g).contains(#[trigger] g[y]),
{
    let pred = |row: Seq<bool>| !is_full(row);
    g.lemma_filter_len(pred);
    let k = g.len() - kept_rows(g).len();
    assert(cleared(g, w).subrange(k, g.len() as int) =~= kept_rows(g));
    assert forall|i: int| 0 <= i < kept_rows(g).len() implies !is_full(#[trigger] kept_rows(g)[i]) by {
        g.lemma_filter_pred(pred, i);
    }
    assert forall|y: int| 0 <= y < g.len() && !is_full(g[y]) implies kept_rows(g).contains(
        #[trigger] g[y],
    ) by {
        g.lemma_filter_contains(pred, y);
    }
}

/// Setting listed cells that all hold `flag` to the other value and back
/// gives the grid it started from.
pub proof fn lemma_set_back(g: Seq<Seq<bool>>, cs: Seq<(int, int)>, flag: bool)
    requires
        all_hold(g, cs, flag),
    ensures
        with_cells(with_cells(g, cs, !flag), cs, flag) == g,
{
    let h = with_cells(with_cells(g, cs, !flag), cs, flag);
    assert forall|y: int, x: int| 0 <= y < g.len() && 0 <= x < g[y].len() implies h[y][x] == g[y][x] by {
        if cs.contains((x, y)) {
            let i = choose|i: int| 0 <= i < cs.len() && cs[i] == (x, y);
            assert(holds(g, cs[i], flag));
        }
    }
    assert(h =~~= g);
}

/// After setting listed cells that lie on the grid to `flag`, they hold `flag`.
pub proof fn lemma_set_holds(g: Seq<Seq<bool>>, cs: Seq<(int, int)>, flag: bool)
    requires
        all_in_grid(g, cs),
    ensures
        all_hold(with_cells(g, cs, flag), cs, flag),
{
    assert forall|i: int| 0 <= i < cs.len() implies holds(with_cells(g, cs, flag), #[trigger] cs[i], flag) by {
        assert(in_grid(g, cs[i]));
        assert(cs.contains(cs[i]));
    }
}

/// Putting a row in front adds one kept row when it is not full and none when it is.
proof fn lemma_kept_prepend(row: Seq<bool>, rest: Seq<Seq<bool>>)
    ensures
        kept_rows(seq![row] + rest).len() == kept_rows(rest).len() + if is_full(row) {
            0int
        } else {
            1int
        },
{
    let pred = |r: Seq<bool>| !is_full(r);
    Seq::filter_distributes_over_add(seq![row], rest, pred);
    reveal_with_fuel(Seq::filter, 2);
    assert(seq![row].drop_last() =~= Seq::<Seq<bool>>::empty());
}

/// Whether every cell of the row is occupied.
fn row_is_full(row: &Vec<bool>) -> (r: bool)
    ensures
        r == is_full(row@),
{
    let mut x: usize = 0;
    while x < row.len()
        invariant
            x <= row.len(),
            forall|k: int| 0 <= k < x ==> row@[k],
        decreases row.len() - x,
    {
        if !row[x] {
            return false;
        }
        x += 1;
    }
    true
}

} // verus!

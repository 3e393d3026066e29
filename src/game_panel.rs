use vstd::prelude::*;

use crate::blocks::{
    all_hold, all_in_grid, cells_of, cleared, holds, in_grid, is_full, kept_rows, lemma_set_back,
    lemma_set_holds, lists_full_rows, with_cells, with_region, BlocksData, TryCleanLinesResult,
};
use crate::bricks::{rotation, Brick};
use crate::geometry::{Movement, Point, Size};
use crate::settings::AppSettings;

verus! {

/// Outcome of a gravity step.
#[derive(Eq, PartialEq, Debug)]
pub enum MoveDownResult {
    Success,
    NeedNewOne,
}

/// Outcome of a spawn.
#[derive(Eq, PartialEq, Debug)]
pub enum PutNewOneResult {
    Success,
    GameOver,
}

/// The cells of a piece whose origin stands at `(x, y)` on the board.
pub open spec fn placed(s: Seq<Point>, x: int, y: int) -> Seq<(int, int)> {
    s.map_values(|p: Point| (x + p.x, y + p.y))
}

/// The falling piece and the board position of its origin.
#[derive(Copy, Clone, Eq, PartialEq)]
pub struct LiveBrick {
    pub brick: Brick,
    pub position: Point,
}

impl LiveBrick {
    /// The board cells the piece covers.
    pub open spec fn cells(self) -> Seq<(int, int)> {
        placed(self.brick@, self.position.x as int, self.position.y as int)
    }

    /// The piece with each cell moved to its board position.
    pub fn get_projected_brick(&self) -> (r: Brick)
        requires
            forall|i: int|
                0 <= i < self.cells().len() ==> #[trigger] self.cells()[i].0 <= u16::MAX
                    && self.cells()[i].1 <= u16::MAX,
        ensures
            cells_of(r@) == self.cells(),
    {
        assert forall|i: int| 0 <= i < self.brick@.len() implies #[trigger] self.brick@[i].x
            + self.position.x <= u16::MAX && self.brick@[i].y + self.position.y <= u16::MAX by {
            assert(self.cells()[i].0 <= u16::MAX && self.cells()[i].1 <= u16::MAX);
        }
        self.brick.project_to_new_position(self.position)
    }
}

impl Brick {
    /// The piece with `position` added to each cell.
    pub fn project_to_new_position(&self, position: Point) -> (r: Brick)
        requires
            forall|i: int|
                0 <= i < self@.len() ==> #[trigger] self@[i].x + position.x <= u16::MAX
                    && self@[i].y + position.y <= u16::MAX,
        ensures
            cells_of(r@) == placed(self@, position.x as int, position.y as int),
    {
        let mut r = *self;
        let mut i: usize = 0;
        while i < self.points.len()
            invariant
                i <= self@.len(),
                r@.len() == self@.len(),
                forall|i: int|
                    0 <= i < self@.len() ==> #[trigger] self@[i].x + position.x <= u16::MAX
                        && self@[i].y + position.y <= u16::MAX,
                forall|j: int|
                    0 <= j < i ==> r@[j] == (Point {
                        x: (self@[j].x + position.x) as u16,
                        y: (self@[j].y + position.y) as u16,
                    }),
            decreases self@.len() - i,
        {
            let p = self.points[i];
            assert(p == self@[i as int]);
            r.points[i] = Point { x: p.x + position.x, y: p.y + position.y };
            i += 1;
        }
        assert(cells_of(r@) =~= placed(self@, position.x as int, position.y as int));
        r
    }
}

/// The piece moved by `(dx, dy)`.
pub open spec fn shifted(live: LiveBrick, dx: int, dy: int) -> LiveBrick {
    LiveBrick {
        brick: live.brick,
        position: Point {
            x: (live.position.x + dx) as u16,
            y: (live.position.y + dy) as u16,
        },
    }
}

/// No cell lies inside the rectangle at `p` of extent `s`.
pub open spec fn outside_region(cs: Seq<(int, int)>, p: Point, s: Size) -> bool {
    forall|i: int|
        0 <= i < cs.len() ==> !(p.x <= #[trigger] cs[i].0 < p.x + s.width && p.y <= cs[i].1 < p.y
            + s.height)
}

/// The engine: the board and the falling piece, if any.
pub struct GamePanel {
    pub blocks: BlocksData,
    pub current_brick: Option<LiveBrick>,
    pub block_size: Size,
}

impl View for GamePanel {
    type V = (Seq<Seq<bool>>, Option<LiveBrick>);

    open spec fn view(&self) -> (Seq<Seq<bool>>, Option<LiveBrick>) {
        (self.grid(), self.current_brick)
    }
}

impl GamePanel {
    /// The extent of the board, fixed at construction.
    pub open spec fn size(&self) -> Size {
        self.block_size
    }

    /// The occupancy grid.
    pub open spec fn grid(&self) -> Seq<Seq<bool>> {
        self.blocks@
    }

    /// The board has its extent and the falling piece, if any, lies on it.
    pub open spec fn frame(&self) -> bool {
        &&& self.blocks.wf()
        &&& self.blocks.size() == self.size()
        &&& self.current_brick matches Some(live) ==> all_in_grid(self.grid(), live.cells())
    }

    /// The board has its extent and the cells of the falling piece are marked.
    pub open spec fn wf(&self) -> bool {
        &&& self.frame()
        &&& self.current_brick matches Some(live) ==> all_hold(self.grid(), live.cells(), true)
    }

    /// The grid without the falling piece: what a move of the piece must avoid.
    pub open spec fn lifted(&self) -> Seq<Seq<bool>> {
        match self.current_brick {
            Some(live) => with_cells(self.grid(), live.cells(), false),
            None => self.grid(),
        }
    }

    pub fn new(block_size: Size, settings: &AppSettings) -> (r: GamePanel)
        ensures
            r.wf(),
            r.size() == block_size,
            r.current_brick is None,
            forall|c: (int, int)| in_grid(r.grid(), c) ==> holds(r.grid(), c, false),
    {
        let data = BlocksData::new(block_size);
        GamePanel { blocks: data, current_brick: None, block_size }
    }


    /// Where a new piece enters: horizontally centred, in the top row.
    pub open spec fn spawn_point(&self) -> Point {
        Point { x: (self.size().width / 2 - 2) as u16, y: 0 }
    }

    /// The falling piece can move by `(dx, dy)`: the new position is not
    /// negative and the cells there lie on the board and are free once the
    /// piece itself is lifted off.
    pub open spec fn can_move(&self, dx: int, dy: int) -> bool {
        match self.current_brick {
            Some(live) => {
                &&& live.position.x + dx >= 0
                &&& live.position.y + dy >= 0
                &&& all_hold(
                    self.lifted(),
                    placed(live.brick@, live.position.x + dx, live.position.y + dy),
                    false,
                )
            },
            None => false,
        }
    }

    /// The grid and the piece after the piece moved by `(dx, dy)`: lifted off
    /// and marked again at its new position.
    pub open spec fn after_move(&self, dx: int, dy: int) -> (Seq<Seq<bool>>, Option<LiveBrick>) {
        match self.current_brick {
            Some(live) => (
                with_cells(self.lifted(), shifted(live, dx, dy).cells(), true),
                Some(shifted(live, dx, dy)),
            ),
            None => self@,
        }
    }

    /// `self` is `before` after a rotation attempt: the piece turned a quarter
    /// in place where the turned cells are free, and nothing changed otherwise.
    pub open spec fn rotated_from(&self, before: GamePanel) -> bool {
        match before.current_brick {
            None => self@ == before@,
            Some(live) => {
                let turned = placed(rotation(live.brick@), live.position.x as int, live.position.y as int);
                if all_hold(before.lifted(), turned, false) {
                    &&& self.current_brick matches Some(now)
                    &&& now.position == live.position
                    &&& now.brick@ == rotation(live.brick@)
                    &&& self.grid() == with_cells(before.lifted(), turned, true)
                } else {
                    self@ == before@
                }
            },
        }
    }

    /// `self` is `before` after a hard drop: the piece went straight down over
    /// free rows and stopped above the first row where it does not fit.
    pub open spec fn dropped_from(&self, before: GamePanel) -> bool {
        match before.current_brick {
            None => self@ == before@,
            Some(live) => {
                &&& self.current_brick matches Some(now)
                &&& now.brick == live.brick
                &&& now.position.x == live.position.x
                &&& live.position.y <= now.position.y
                &&& forall|y: int|
                    live.position.y <= y <= now.position.y ==> all_hold(
                        before.lifted(),
                        #[trigger] placed(live.brick@, live.position.x as int, y),
                        false,
                    )
                &&& !all_hold(
                    before.lifted(),
                    placed(live.brick@, live.position.x as int, now.position.y + 1),
                    false,
                )
                &&& self.grid() == with_cells(before.lifted(), now.cells(), true)
            },
        }
    }

    /// Places `new_brick` at the spawn point when the cells there are free;
    /// otherwise the game is over and nothing changes.
    pub fn put_new_one(&mut self, new_brick: &Brick) -> (r: PutNewOneResult)
        requires
            old(self).wf(),
            old(self).size().width >= 4,
        ensures
            final(self).wf(),
            final(self).size() == old(self).size(),
            r is Success <==> all_hold(
                old(self).grid(),
                placed(new_brick@, old(self).spawn_point().x as int, 0),
                false,
            ),
            r is Success ==> final(self).current_brick == Some(
                LiveBrick { brick: *new_brick, position: old(self).spawn_point() },
            ),
            r is Success ==> final(self).grid() == with_cells(
                old(self).grid(),
                placed(new_brick@, old(self).spawn_point().x as int, 0),
                true,
            ),
            r is GameOver ==> final(self)@ == old(self)@,
    {
        let live_brick = LiveBrick {
            brick: *new_brick,
            position: Point::new(self.block_size.width / 2 - 2, 0),
        };
        let result = self.test_put_brick(&live_brick);
        if result.is_ok() {
            self.current_brick = Some(live_brick);
            self.set_current_brick(true);
            proof {
                lemma_set_holds(old(self).grid(), live_brick.cells(), true);
            }
            PutNewOneResult::Success
        } else {
            PutNewOneResult::GameOver
        }
    }

    /// One gravity step: moves the piece down one row, or, when it cannot
    /// move, leaves its cells where they are and lets go of it.
    pub fn move_down(&mut self) -> (r: MoveDownResult)
        requires
            old(self).wf(),
        ensures
            final(self).wf(),
            final(self).size() == old(self).size(),
            r is Success <==> old(self).can_move(0, 1),
            r is Success ==> final(self)@ == old(self).after_move(0, 1),
            r is NeedNewOne ==> final(self).grid() == old(self).grid() && final(self).current_brick is None,
    {
        if self.move_current_brick(Movement { y: 1, x: 0 }).is_ok() {
            MoveDownResult::Success
        } else {
            self.current_brick = None;
            MoveDownResult::NeedNewOne
        }
    }

    /// Moves the falling piece by `movement` when it can go there; otherwise
    /// changes nothing.
    pub fn move_current_brick(&mut self, movement: Movement) -> (r: Result<(), ()>)
        requires
            old(self).wf(),
        ensures
            final(self).wf(),
            final(self).size() == old(self).size(),
            r is Ok <==> old(self).can_move(movement.x as int, movement.y as int),
            r is Ok ==> final(self)@ == old(self).after_move(movement.x as int, movement.y as int),
            r is Err ==> final(self)@ == old(self)@,
    {
        let old_brick = match self.current_brick {
            None => {
                return Err(());
            },
            Some(b) => b,
        };
        let ghost g = self.grid();
        let ghost cand = placed(
            old_brick.brick@,
            old_brick.position.x + movement.x,
            old_brick.position.y + movement.y,
        );
        let new_y = old_brick.position.y as i32 + movement.y as i32;
        let new_x = old_brick.position.x as i32 + movement.x as i32;
        if new_x < 0 || new_y < 0 {
            return Err(());
        }
        if new_x > u16::MAX as i32 || new_y > u16::MAX as i32 {
            proof {
                let c = cand[0];
                if in_grid(self.lifted(), c) {
                    assert(self.grid()[c.1].len() == self.size().width);
                }
                assert(!holds(self.lifted(), c, false));
            }
            return Err(());
        }
        let new_brick = LiveBrick {
            brick: old_brick.brick,
            position: Point { y: new_y as u16, x: new_x as u16 },
        };
        assert(new_brick.cells() == cand);
        self.set_current_brick(false);
        if self.test_put_brick(&new_brick).is_ok() {
            self.current_brick = Some(new_brick);
            self.set_current_brick(true);
            proof {
                lemma_set_holds(with_cells(g, old_brick.cells(), false), cand, true);
            }
            Ok(())
        } else {
            self.set_current_brick(true);
            proof {
                lemma_set_back(g, old_brick.cells(), true);
            }
            Err(())
        }
    }


    /// Turns the falling piece a quarter clockwise in place when the turned
    /// cells are free; otherwise changes nothing. There is no wall kick.
    pub fn rotate_current_brick(&mut self)
        requires
            old(self).wf(),
        ensures
            final(self).wf(),
            final(self).size() == old(self).size(),
            final(self).rotated_from(*old(self)),
    {
        if let Some(current_brick) = self.current_brick {
            let ghost g = self.grid();
            self.set_current_brick(false);
            let mut brick = current_brick.brick;
            brick.rotate();
            let new_position = LiveBrick { brick, position: current_brick.position };
            let result = self.test_put_brick(&new_position);
            if result.is_ok() {
                self.current_brick = Some(new_position);
                proof {
                    lemma_set_holds(with_cells(g, current_brick.cells(), false), new_position.cells(), true);
                }
            } else {
                proof {
                    lemma_set_back(g, current_brick.cells(), true);
                }
            }
            self.set_current_brick(true);
        }
    }

    /// Moves the falling piece one column right when it can go there.
    pub fn move_current_brick_to_right(&mut self)
        requires
            old(self).wf(),
        ensures
            final(self).wf(),
            final(self).size() == old(self).size(),
            final(self)@ == if old(self).can_move(1, 0) {
                old(self).after_move(1, 0)
            } else {
                old(self)@
            },
    {
        let _ = self.move_current_brick(Movement { x: 1, y: 0 });
    }

    /// Moves the falling piece one column left when it can go there.
    pub fn move_current_brick_to_left(&mut self)
        requires
            old(self).wf(),
        ensures
            final(self).wf(),
            final(self).size() == old(self).size(),
            final(self)@ == if old(self).can_move(-1, 0) {
                old(self).after_move(-1, 0)
            } else {
                old(self)@
            },
    {
        let _ = self.move_current_brick(Movement { x: -1, y: 0 });
    }

    /// Drops the falling piece straight down to where it comes to rest: every
    /// row from its start to its end is free for it, the next one is not.
    pub fn move_current_brick_to_bottom(&mut self)
        requires
            old(self).wf(),
        ensures
            final(self).wf(),
            final(self).size() == old(self).size(),
            final(self).dropped_from(*old(self)),
    {
        let live = match self.current_brick {
            None => {
                return;
            },
            Some(b) => b,
        };
        let ghost lifted = self.lifted();
        proof {
            lemma_set_back(self.grid(), live.cells(), true);
            assert forall|i: int| 0 <= i < live.cells().len() implies holds(
                lifted,
                #[trigger] live.cells()[i],
                false,
            ) by {
                assert(live.cells().contains(live.cells()[i]));
            }
        }
        loop
            invariant_except_break
                self.wf(),
                self.size() == old(self).size(),
                self.lifted() == lifted,
                self.current_brick matches Some(now) && now.brick == live.brick && now.position.x
                    == live.position.x && live.position.y <= now.position.y && self.grid()
                    == with_cells(lifted, now.cells(), true),
                forall|y: int|
                    live.position.y <= y <= self.current_brick.unwrap().position.y ==> all_hold(
                        lifted,
                        #[trigger] placed(live.brick@, live.position.x as int, y),
                        false,
                    ),
            ensures
                self.wf(),
                self.size() == old(self).size(),
                self.current_brick matches Some(now) && now.brick == live.brick && now.position.x
                    == live.position.x && live.position.y <= now.position.y && self.grid()
                    == with_cells(lifted, now.cells(), true),
                forall|y: int|
                    live.position.y <= y <= self.current_brick.unwrap().position.y ==> all_hold(
                        lifted,
                        #[trigger] placed(live.brick@, live.position.x as int, y),
                        false,
                    ),
                !all_hold(
                    lifted,
                    placed(live.brick@, live.position.x as int, self.current_brick.unwrap().position.y + 1),
                    false,
                ),
            decreases self.size().height - self.current_brick.unwrap().position.y,
        {
            let ghost before = self.current_brick.unwrap();
            let movement = Movement { x: 0, y: 1 };
            proof {
                assert(live.brick@.len() == 4);
                assert(in_grid(self.grid(), before.cells()[0]));
                assert(before.position.y < self.size().height);
            }
            let result = self.move_current_brick(movement);
            if result.is_err() {
                assert(placed(live.brick@, live.position.x as int, before.position.y + 1) == placed(
                    before.brick@,
                    before.position.x + movement.x,
                    before.position.y + movement.y,
                ));
                break;
            }
            proof {
                let now = self.current_brick.unwrap();
                assert(now.position.y == before.position.y + 1);
                assert(now.position.x == before.position.x);
                assert(now.cells() == placed(live.brick@, live.position.x as int, before.position.y + 1));
                lemma_set_back(lifted, now.cells(), false);
                assert(in_grid(self.grid(), now.cells()[0]));
            }
        }
    }

    /// Sets every cell of the rectangle at `point` of extent `size`, which lies
    /// on the board, to `flag`; clearing must leave the falling piece's cells alone.
    pub fn set_region(&mut self, point: Point, size: Size, flag: bool)
        requires
            old(self).wf(),
            point.y + size.height <= old(self).size().height,
            point.x + size.width <= old(self).size().width,
            !flag ==> (old(self).current_brick matches Some(live) ==> outside_region(
                live.cells(),
                point,
                size,
            )),
        ensures
            final(self).wf(),
            final(self).size() == old(self).size(),
            final(self).current_brick == old(self).current_brick,
            final(self).grid() == with_region(old(self).grid(), point, size, flag),
    {
        self.blocks.set_region(point, size, flag);
        proof {
            if let Some(live) = self.current_brick {
                assert forall|i: int| 0 <= i < live.cells().len() implies holds(
                    self.grid(),
                    #[trigger] live.cells()[i],
                    true,
                ) by {
                    assert(holds(old(self).grid(), live.cells()[i], true));
                }
            }
        }
    }

    /// Clears the whole board and lets go of the falling piece.
    pub fn reset(&mut self)
        requires
            old(self).wf(),
        ensures
            final(self).wf(),
            final(self).size() == old(self).size(),
            final(self).current_brick is None,
            final(self).grid().len() == old(self).grid().len(),
            forall|c: (int, int)| in_grid(final(self).grid(), c) ==> holds(final(self).grid(), c, false),
    {
        self.current_brick = None;
        self.set_region(Point::new(0, 0), self.block_size, false);
    }

    /// Line clear on the board, between a lock and the next spawn.
    pub fn try_clean_lines(&mut self) -> (r: Result<TryCleanLinesResult, ()>)
        requires
            old(self).wf(),
            old(self).current_brick is None,
        ensures
            final(self).wf(),
            final(self).size() == old(self).size(),
            final(self).current_brick is None,
            r is Err <==> forall|y: int|
                0 <= y < old(self).grid().len() ==> !is_full(#[trigger] old(self).grid()[y]),
            r is Err ==> final(self)@ == old(self)@,
            r matches Ok(res) ==> {
                &&& lists_full_rows(res.clear_lines@, old(self).grid())
                &&& res.clear_lines@.len() == old(self).grid().len() - kept_rows(old(self).grid()).len()
                &&& final(self).grid() == cleared(old(self).grid(), old(self).size().width as nat)
            },
    {
        let r = self.blocks.try_clean_lines();
        assert(r is Err <==> forall|y: int|
            0 <= y < old(self).grid().len() ==> !is_full(#[trigger] old(self).blocks@[y]));
        r
    }

    /// Succeeds when every cell the piece would cover lies on the board and is free.
    pub fn test_put_brick(&self, current_brick: &LiveBrick) -> (r: Result<(), ()>)
        requires
            self.blocks.wf(),
        ensures
            r is Ok <==> all_hold(self.grid(), current_brick.cells(), false),
    {
        let mut i: usize = 0;
        while i < current_brick.brick.points.len()
            invariant
                i <= current_brick.brick@.len(),
                self.blocks.wf(),
                forall|j: int|
                    0 <= j < i ==> #[trigger] current_brick.cells()[j].0 <= u16::MAX
                        && current_brick.cells()[j].1 <= u16::MAX,
            decreases current_brick.brick@.len() - i,
        {
            let p = current_brick.brick.points[i];
            assert(current_brick.cells()[i as int] == (
                current_brick.position.x + p.x,
                current_brick.position.y + p.y,
            ));
            if p.x as u32 + current_brick.position.x as u32 > u16::MAX as u32 || p.y as u32
                + current_brick.position.y as u32 > u16::MAX as u32 {
                proof {
                    let c = current_brick.cells()[i as int];
                    if in_grid(self.grid(), c) {
                        assert(self.grid()[c.1].len() == self.blocks.size().width);
                    }
                    assert(!holds(self.grid(), c, false));
                }
                return Err(());
            }
            i += 1;
        }
        let projected = current_brick.get_projected_brick();
        self.test_points(&projected.points, false)
    }

    /// Succeeds when every point lies on the board and holds `flag`.
    fn test_points(&self, points: &[Point], flag: bool) -> (r: Result<(), ()>)
        ensures
            r is Ok <==> all_hold(self.grid(), cells_of(points@), flag),
    {
        self.blocks.test_points(points, flag)
    }

    /// Sets every point, all of which lie on the board, to `flag`.
    fn set_points(&mut self, points: &[Point], flag: bool)
        requires
            all_in_grid(old(self).grid(), cells_of(points@)),
        ensures
            final(self).grid() == with_cells(old(self).grid(), cells_of(points@), flag),
            final(self).blocks.size() == old(self).blocks.size(),
            old(self).blocks.wf() ==> final(self).blocks.wf(),
            final(self).current_brick == old(self).current_brick,
            final(self).size() == old(self).size(),
    {
        self.blocks.set_points(points, flag)
    }

    /// Marks the cells of the falling piece, if any, with `flag`.
    fn set_current_brick(&mut self, flag: bool)
        requires
            old(self).frame(),
        ensures
            final(self).frame(),
            final(self).current_brick == old(self).current_brick,
            final(self).size() == old(self).size(),
            final(self).grid() == match old(self).current_brick {
                Some(live) => with_cells(old(self).grid(), live.cells(), flag),
                None => old(self).grid(),
            },
    {
        if let Some(live_brick) = self.current_brick {
            proof {
                assert forall|i: int| 0 <= i < live_brick.cells().len() implies #[trigger] live_brick.cells()[i].0
                    <= u16::MAX && live_brick.cells()[i].1 <= u16::MAX by {
                    assert(in_grid(self.grid(), live_brick.cells()[i]));
                    let y = live_brick.cells()[i].1;
                    assert(self.grid()[y].len() == self.size().width);
                }
            }
            let new_brick = live_brick.get_projected_brick();
            self.set_points(&new_brick.points, flag);
        }
    }
}

} // verus!

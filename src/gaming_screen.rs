use vstd::prelude::*;

use crate::blocks::{
    all_hold, cleared, holds, in_grid, is_full, kept_rows, with_cells, BlocksData,
};
use crate::bricks::{is_catalog_piece, Brick, BrickCollection};
use crate::game_panel::{GamePanel, LiveBrick, MoveDownResult, PutNewOneResult};

verus! {

/// What a gravity tick led to.
#[derive(Eq, PartialEq, Debug, Copy, Clone)]
pub enum NextResult {
    /// The piece moved down one row.
    Success,
    /// The piece locked, this many rows were cleared, the waiting piece came
    /// in and the given piece now waits.
    LineClear(u16, Brick),
    /// The piece locked, no row was full, the waiting piece came in and the
    /// given piece now waits.
    NewBrickPutIn(Brick),
    /// The piece locked and the waiting piece found no room.
    GameOver,
}

/// Something that shows the occupancy grid.
pub trait BlocksRenderView {
    fn render_blocks(&self, data: &BlocksData);
}

/// A running game: the engine, the source of new pieces and the piece that
/// comes next.
pub struct GamingScreenCore {
    pub manager: GamePanel,
    pub brick_collection: BrickCollection,
    pub next_brick: Option<Brick>,
}

/// Whether some row of the grid is full.
pub open spec fn any_full(g: Seq<Seq<bool>>) -> bool {
    exists|y: int| 0 <= y < g.len() && is_full(#[trigger] g[y])
}

/// `after` and `r` are what a lock in `before` leads to when `drawn` is the
/// piece drawn for later: full rows are cleared, then the waiting piece enters
/// at the spawn point if there is room there; the game is over if not.
pub open spec fn after_lock(
    before: GamingScreenCore,
    drawn: Brick,
    after: GamingScreenCore,
    r: NextResult,
) -> bool {
    let g = before.manager.grid();
    let w = before.manager.size().width;
    let settled = if any_full(g) { cleared(g, w as nat) } else { g };
    let live = LiveBrick { brick: before.next_brick.unwrap(), position: before.manager.spawn_point() };
    if all_hold(settled, live.cells(), false) {
        &&& after.manager@ == (with_cells(settled, live.cells(), true), Some(live))
        &&& after.next_brick == Some(drawn)
        &&& if any_full(g) {
            &&& r matches NextResult::LineClear(count, shown)
            &&& shown == drawn
            &&& count == g.len() - kept_rows(g).len()
        } else {
            r == NextResult::NewBrickPutIn(drawn)
        }
    } else {
        &&& r is GameOver
        &&& after.manager@ == (settled, None::<LiveBrick>)
        &&& after.next_brick == before.next_brick
    }
}

impl GamingScreenCore {
    /// The engine is consistent, its board is wide enough to spawn on, and a
    /// piece waits.
    pub open spec fn wf(&self) -> bool {
        &&& self.manager.wf()
        &&& self.manager.size().width >= 4
        &&& self.brick_collection.wf()
        &&& self.next_brick is Some
    }

    /// One gravity tick: the piece moves down, or it locks and the game goes
    /// on as `lock_and_spawn` describes, with a piece drawn at random.
    pub fn next(&mut self) -> (r: NextResult)
        requires
            old(self).wf(),
        ensures
            final(self).wf(),
            final(self).manager.size() == old(self).manager.size(),
            r is Success <==> old(self).manager.can_move(0, 1),
            r is Success ==> final(self).manager@ == old(self).manager.after_move(0, 1)
                && final(self).next_brick == old(self).next_brick,
            !(r is Success) ==> exists|drawn: Brick|
                is_catalog_piece(drawn) && #[trigger] after_lock(*old(self), drawn, *final(self), r),
    {
        let down = self.manager.move_down();
        match down {
            MoveDownResult::NeedNewOne => {
                let new_brick = self.brick_collection.get_rand_one();
                let ghost locked = *self;
                let r = self.lock_and_spawn(new_brick);
                assert(after_lock(*old(self), new_brick, *self, r)) by {
                    assert(locked.manager.grid() == old(self).manager.grid());
                }
                r
            },
            MoveDownResult::Success => NextResult::Success,
        }
    }

    /// After a lock: clears the full rows, brings the waiting piece in and,
    /// when it fits, makes `new_brick` the waiting piece.
    pub fn lock_and_spawn(&mut self, new_brick: Brick) -> (r: NextResult)
        requires
            old(self).wf(),
            old(self).manager.current_brick is None,
        ensures
            final(self).wf(),
            final(self).manager.size() == old(self).manager.size(),
            after_lock(*old(self), new_brick, *final(self), r),
    {
        let ghost g = self.manager.grid();
        let ghost w = self.manager.size().width;
        let line_clear_result = self.manager.try_clean_lines();
        let ghost settled = self.manager.grid();
        assert(settled == if any_full(g) { cleared(g, w as nat) } else { g });
        let waiting = self.next_brick.unwrap();
        let put_new_one_result = self.manager.put_new_one(&waiting);
        match put_new_one_result {
            PutNewOneResult::Success => {
                self.next_brick = Some(new_brick);
                match line_clear_result {
                    Ok(lines) => {
                        let count = lines.clear_lines.len() as u16;
                        NextResult::LineClear(count, new_brick)
                    },
                    Err(_) => NextResult::NewBrickPutIn(new_brick),
                }
            },
            PutNewOneResult::GameOver => NextResult::GameOver,
        }
    }

    /// Turns the falling piece when it can turn in place.
    pub fn rotate(&mut self)
        requires
            old(self).wf(),
        ensures
            final(self).wf(),
            final(self).manager.rotated_from(old(self).manager),
            final(self).next_brick == old(self).next_brick,
    {
        self.manager.rotate_current_brick()
    }

    /// Moves the falling piece one column left when it can go there.
    pub fn move_left(&mut self)
        requires
            old(self).wf(),
        ensures
            final(self).wf(),
            final(self).manager@ == if old(self).manager.can_move(-1, 0) {
                old(self).manager.after_move(-1, 0)
            } else {
                old(self).manager@
            },
            final(self).next_brick == old(self).next_brick,
    {
        self.manager.move_current_brick_to_left()
    }

    /// Moves the falling piece one column right when it can go there.
    pub fn move_right(&mut self)
        requires
            old(self).wf(),
        ensures
            final(self).wf(),
            final(self).manager@ == if old(self).manager.can_move(1, 0) {
                old(self).manager.after_move(1, 0)
            } else {
                old(self).manager@
            },
            final(self).next_brick == old(self).next_brick,
    {
        self.manager.move_current_brick_to_right();
    }

    /// Drops the falling piece to where it comes to rest.
    pub fn move_bottom(&mut self)
        requires
            old(self).wf(),
        ensures
            final(self).wf(),
            final(self).manager.dropped_from(old(self).manager),
            final(self).next_brick == old(self).next_brick,
    {
        self.manager.move_current_brick_to_bottom()
    }

    /// Shows the board on `component`.
    pub fn render_to<V: BlocksRenderView>(&self, component: &V) {
        component.render_blocks(&self.manager.blocks)
    }

    /// Starts over: an empty board, no falling piece and a fresh waiting piece.
    pub fn reset(&mut self)
        requires
            old(self).manager.wf(),
            old(self).manager.size().width >= 4,
            old(self).brick_collection.wf(),
        ensures
            final(self).wf(),
            final(self).manager.size() == old(self).manager.size(),
            final(self).manager.current_brick is None,
            final(self).manager.grid().len() == old(self).manager.grid().len(),
            forall|c: (int, int)|
                in_grid(final(self).manager.grid(), c) ==> holds(final(self).manager.grid(), c, false),
            final(self).next_brick matches Some(b) && is_catalog_piece(b),
    {
        self.manager.reset();
        let brick = self.brick_collection.get_rand_one();
        self.next_brick = Some(brick);
    }
}

} // verus!

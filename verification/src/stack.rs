use vstd::prelude::*;

verus! {

use crate::shape::ShapeType;
use crate::shape::shape_cell;
use crate::piece::Piece;

/// The playfield cell grid: row-major, top row first, one `usize` code per
/// cell (0 for empty, 1..=7 for the shape kind that filled it).
pub type Grid = Vec<Vec<usize>>;

/// A row-clear animation in progress: the full rows found at lock time and
/// the timer that gates their physical removal. Times are in microseconds.
pub struct Clearing {
    pub rows: Vec<i32>,
    pub current_duration: u64,
    pub max_duration: u64,
}

/// A cell removed by a finished row clear, reported to the caller so a
/// renderer can animate it; it carries no gameplay state.
pub struct DestroyedBlock {
    pub x: i32,
    pub y: i32,
    pub block_id: usize,
}

/// The result of locking a piece into the stack.
pub enum Locked {
    Collision,
    Success(i32),
}

/// The playfield: a `width x (height + vanish)` grid, where the first
/// `vanish` rows are the hidden zone above the visible board.
pub struct Stack {
    pub width: i32,
    pub height: i32,
    pub vanish: i32,
    pub clearing: Option<Clearing>,
    pub game_over: bool,
    pub grid: Grid,
}

impl Stack {
    /// The grid contents as a sequence of rows.
    pub open spec fn cells(self) -> Seq<Seq<usize>> {
        Seq::new(self.grid@.len() as nat, |r: int| self.grid@[r]@)
    }

    /// Total number of rows, hidden zone included.
    pub open spec fn rows_total(self) -> int {
        self.height + self.vanish
    }

    /// The pending clear animation, as (rows, elapsed, duration).
    pub open spec fn clearing_view(self) -> Option<(Seq<int>, int, int)> {
        match self.clearing {
            Option::Some(c) => Option::Some(
                (c.rows@.map_values(|v: i32| v as int), c.current_duration as int, c.max_duration as int),
            ),
            Option::None => Option::None,
        }
    }

    pub open spec fn is_game_over(self) -> bool {
        self.game_over
    }

    pub open spec fn wf(self) -> bool {
        &&& 1 <= self.width
        &&& 1 <= self.height
        &&& 0 <= self.vanish
        &&& self.height + self.vanish <= 0x4000_0000
        &&& self.grid@.len() == self.height + self.vanish
        &&& forall|r: int| 0 <= r < self.grid@.len() ==> #[trigger] self.grid@[r]@.len() == self.width
        &&& match self.clearing {
            Option::Some(c) => {
                &&& forall|i: int|
                    0 <= i < c.rows@.len() ==> 0 <= #[trigger] c.rows@[i] < self.height + self.vanish
                &&& forall|i: int, j: int| 0 <= i < j < c.rows@.len() ==> c.rows@[i] < c.rows@[j]
            },
            Option::None => true,
        }
    }

    #[verifier::loop_isolation(false)]
    pub fn new(width: i32, height: i32, vanish: i32) -> (s: Stack)
        requires
            1 <= width,
            1 <= height,
            0 <= vanish,
            height + vanish <= 0x4000_0000,
        ensures
            s.wf(),
            s.width == width,
            s.height == height,
            s.vanish == vanish,
            s.clearing_view() is None,
            !s.is_game_over(),
            s.cells() == empty_grid(width as int, height + vanish),
    {
        let total = (height + vanish) as usize;
        let mut grid: Grid = Vec::new();
        let mut r: usize = 0;
        while r < total
            invariant
                grid@.len() == r,
                r <= total,
                forall|i: int| 0 <= i < r ==> #[trigger] grid@[i]@ == Seq::new(width as nat, |c: int| 0usize),
            decreases total - r,
        {
            let mut row: Vec<usize> = Vec::new();
            let mut c: usize = 0;
            while c < width as usize
                invariant
                    row@.len() == c,
                    c <= width as usize,
                    forall|i: int| 0 <= i < c ==> #[trigger] row@[i] == 0usize,
                decreases width as usize - c,
            {
                row.push(0);
                c += 1;
            }
            proof {
                assert(row@ =~= Seq::new(width as nat, |c: int| 0usize));
            }
            grid.push(row);
            r += 1;
        }
        let s = Stack { width, height, vanish, clearing: None, game_over: false, grid };
        proof {
            assert(s.cells() =~= empty_grid(width as int, height + vanish));
        }
        s
    }

    pub fn grid(&self) -> (g: &Grid)
        ensures
            g@ == self.grid@,
            Seq::new(g@.len() as nat, |r: int| g@[r]@) == self.cells(),
    {
        proof {
            assert(Seq::new(self.grid@.len() as nat, |r: int| self.grid@[r]@) =~= self.cells());
        }
        &self.grid
    }

    /// Empties every cell; the board dimensions and any pending clear
    /// animation are deliberately kept.
    pub fn clear(&mut self)
        requires
            old(self).wf(),
        ensures
            final(self).wf(),
            final(self).cells() == empty_grid(old(self).width as int, old(self).rows_total()),
            final(self).width == old(self).width,
            final(self).height == old(self).height,
            final(self).vanish == old(self).vanish,
            final(self).clearing_view() == old(self).clearing_view(),
            final(self).is_game_over() == old(self).is_game_over(),
    {
        let width = self.width;
        let height = self.height;
        let vanish = self.vanish;
        let fresh = Stack::new(width, height, vanish);
        self.grid = fresh.grid;
        proof {
            assert(self.cells() =~= fresh.cells());
        }
    }

    pub fn blocked(&self) -> (b: bool)
        ensures
            b == (self.clearing_view() is Some),
    {
        self.clearing.is_some()
    }

    /// Whether the piece, placed at (x, y) in rotation `rot`, overlaps a
    /// filled cell or leaves the grid. This is the single source of truth
    /// for the legality of a piece position: it is true exactly when some
    /// non-zero cell of the 4x4 mask falls outside the grid or on a
    /// non-zero stack cell.
    pub open spec fn spec_collides(self, t: ShapeType, rot: int, x: int, y: int) -> bool {
        exists|r: int, c: int|
            0 <= r < 4 && 0 <= c < 4 && #[trigger] shape_cell(t, rot, r, c) != 0 && !(
            0 <= x + c < self.width && 0 <= y + r < self.rows_total() && self.cells()[y + r][x + c]
                == 0)
    }

    /// Collision probe for the piece translated by (dx, dy), without moving it.
    #[verifier::loop_isolation(false)]
    pub fn collision_probe(&self, piece: &Piece, dx: i32, dy: i32) -> (b: bool)
        requires
            self.wf(),
            piece.wf(),
        ensures
            b == self.spec_collides(
                piece.shape.shape_type,
                piece.rotation as int,
                piece.x + dx,
                piece.y + dy,
            ),
    {
        let x = piece.x as i64 + dx as i64;
        let y = piece.y as i64 + dy as i64;
        let t = piece.shape.shape_type;
        let ghost rot = piece.rotation as int;
        let grid = &piece.shape.grids[piece.rotation];
        let mut r: usize = 0;
        while r < 4
            invariant
                r <= 4,
                forall|rr: int, cc: int|
                    0 <= rr < r && 0 <= cc < 4 && #[trigger] shape_cell(t, rot, rr, cc) != 0 ==> (0
                        <= x + cc < self.width && 0 <= y + rr < self.rows_total() && self.cells()[y
                        + rr][x + cc] == 0),
            decreases 4 - r,
        {
            let mut c: usize = 0;
            while c < 4
                invariant
                    r < 4,
                    c <= 4,
                    forall|rr: int, cc: int|
                        0 <= rr < r && 0 <= cc < 4 && #[trigger] shape_cell(t, rot, rr, cc) != 0
                            ==> (0 <= x + cc < self.width && 0 <= y + rr < self.rows_total()
                            && self.cells()[y + rr][x + cc] == 0),
                    forall|cc: int|
                        0 <= cc < c && #[trigger] shape_cell(t, rot, r as int, cc) != 0 ==> (0 <= x
                            + cc < self.width && 0 <= y + r < self.rows_total() && self.cells()[y
                            + r][x + cc] == 0),
                decreases 4 - c,
            {
                if grid.grid[r][c] != 0 {
                    proof {
                        assert(shape_cell(t, rot, r as int, c as int) != 0);
                    }
                    let gx = x + c as i64;
                    let gy = y + r as i64;
                    if gx < 0 || gx >= self.width as i64 || gy < 0 || gy >= self.height as i64
                        + self.vanish as i64 {
                        proof {
                            assert(self.spec_collides(t, rot, piece.x + dx, piece.y + dy));
                        }
                        return true;
                    }
                    if self.grid[gy as usize][gx as usize] != 0 {
                        proof {
                            assert(self.cells()[y + r][x + c] != 0);
                            assert(self.spec_collides(t, rot, piece.x + dx, piece.y + dy));
                        }
                        return true;
                    }
                }
                c += 1;
            }
            r += 1;
        }
        proof {
            assert(!self.spec_collides(t, rot, piece.x + dx, piece.y + dy));
        }
        false
    }

    /// True when the piece at its current position overlaps a filled cell or
    /// leaves the grid.
    pub fn collision(&self, piece: &Piece) -> (b: bool)
        requires
            self.wf(),
            piece.wf(),
        ensures
            b == self.spec_collides(
                piece.shape.shape_type,
                piece.rotation as int,
                piece.x as int,
                piece.y as int,
            ),
    {
        self.collision_probe(piece, 0, 0)
    }

    /// The grid after writing the non-zero mask cells of the piece at
    /// (x, y); cells that would fall outside the grid are left as they are.
    pub open spec fn spec_place(
        g: Seq<Seq<usize>>,
        t: ShapeType,
        rot: int,
        x: int,
        y: int,
    ) -> Seq<Seq<usize>> {
        Seq::new(
            g.len(),
            |rr: int|
                Seq::new(
                    g[rr].len(),
                    |cc: int|
                        if 0 <= rr - y < 4 && 0 <= cc - x < 4 && shape_cell(t, rot, rr - y, cc - x)
                            != 0 {
                            shape_cell(t, rot, rr - y, cc - x)
                        } else {
                            g[rr][cc]
                        },
                ),
        )
    }

    /// Whether the lock of a piece at (x, y, rot) ends the game: the piece
    /// either overlapped the old grid (or its bounds), or its bounding box
    /// came to rest entirely above the vanish boundary.
    pub open spec fn spec_lock_collision(self, t: ShapeType, rot: int, x: int, y: int) -> bool {
        self.spec_collides(t, rot, x, y) || y + spec_shape(t).grids@[rot].offset_y + spec_shape(
            t,
        ).grids@[rot].height <= self.vanish
    }

    /// Writes the piece's cells permanently into the grid, then reports
    /// either a game-ending collision or the number of rows completed. The
    /// cells are deliberately written in both cases: a `Collision` lock is
    /// terminal, so the mutated grid is only ever shown by the game-over
    /// animation.
    #[verifier::loop_isolation(false)]
    #[verifier::rlimit(60)]
    pub fn lock(&mut self, piece: &Piece, clear_delay: u64) -> (res: Locked)
        requires
            old(self).wf(),
            piece.wf(),
        ensures
            final(self).wf(),
            final(self).width == old(self).width,
            final(self).height == old(self).height,
            final(self).vanish == old(self).vanish,
            final(self).is_game_over() == old(self).is_game_over(),
            final(self).cells() == Stack::spec_place(
                old(self).cells(),
                piece.shape.shape_type,
                piece.rotation as int,
                piece.x as int,
                piece.y as int,
            ),
            old(self).spec_lock_collision(
                piece.shape.shape_type,
                piece.rotation as int,
                piece.x as int,
                piece.y as int,
            ) ==> res is Collision && final(self).clearing_view() == old(self).clearing_view(),
            !old(self).spec_lock_collision(
                piece.shape.shape_type,
                piece.rotation as int,
                piece.x as int,
                piece.y as int,
            ) ==> {
                let full = spec_full_rows(final(self).cells());
                &&& res == Locked::Success(full.len() as i32)
                &&& (full.len() == 0 ==> final(self).clearing_view() == old(self).clearing_view())
                &&& (full.len() > 0 ==> final(self).clearing_view() == Some(
                    (full, 0int, clear_delay as int),
                ))
                &&& (old(self).clearing_view() is None ==> ((final(self).clearing_view() is Some)
                    <==> full.len() > 0))
            },
    {
        let collision = self.collision(piece);
        let t = piece.shape.shape_type;
        let ghost rot = piece.rotation as int;
        let grid = &piece.shape.grids[piece.rotation];
        let x = piece.x as i64;
        let y = piece.y as i64;

        let vanish_lock = y + grid.offset_y as i64 + grid.height as i64 <= self.vanish as i64;
        let collision = collision || vanish_lock;

        let ghost placed = Stack::spec_place(old(self).cells(), t, rot, piece.x as int, piece.y as int);

        proof {
            assert(self.cells() =~~= place_prefix(
                old(self).cells(),
                t,
                rot,
                piece.x as int,
                piece.y as int,
                0,
                0,
            ));
        }
        let mut my: usize = 0;
        while my < 4
            invariant
                my <= 4,
                self.width == old(self).width,
                self.height == old(self).height,
                self.vanish == old(self).vanish,
                self.clearing == old(self).clearing,
                self.game_over == old(self).game_over,
                self.cells() == place_prefix(
                    old(self).cells(),
                    t,
                    rot,
                    piece.x as int,
                    piece.y as int,
                    my as int,
                    0,
                ),
            decreases 4 - my,
        {
            let mut mx: usize = 0;
            while mx < 4
                invariant
                    my < 4,
                    mx <= 4,
                    self.width == old(self).width,
                    self.height == old(self).height,
                    self.vanish == old(self).vanish,
                    self.clearing == old(self).clearing,
                    self.game_over == old(self).game_over,
                    self.cells() == place_prefix(
                        old(self).cells(),
                        t,
                        rot,
                        piece.x as int,
                        piece.y as int,
                        my as int,
                        mx as int,
                    ),
                decreases 4 - mx,
            {
                let ghost pre = *self;
                let ghost step = place_prefix(
                    old(self).cells(),
                    t,
                    rot,
                    piece.x as int,
                    piece.y as int,
                    my as int,
                    mx as int + 1,
                );
                let c = grid.grid[my][mx];
                if c != 0 {
                    let gy = y + my as i64;
                    let gx = x + mx as i64;
                    if 0 <= gy && gy < self.height as i64 + self.vanish as i64 && 0 <= gx && gx
                        < self.width as i64 {
                        proof {
                            assert(shape_cell(t, rot, my as int, mx as int) == c);
                            assert(self.grid@.len() == old(self).grid@.len());
                            assert(pre.cells()[gy as int].len() == old(self).cells()[gy as int].len());
                            assert(old(self).grid@[gy as int]@.len() == self.width);
                        }
                        self.grid[gy as usize][gx as usize] = c;
                        proof {
                            assert forall|rr: int, cc: int|
                                0 <= rr < self.cells().len() && 0 <= cc
                                    < self.cells()[rr].len() implies #[trigger] self.cells()[rr][cc]
                                == step[rr][cc] by {
                                if rr == gy as int && cc == gx as int {
                                    assert(self.cells()[rr][cc] == c);
                                } else if rr == gy as int {
                                    assert(self.grid@[rr]@ == pre.grid@[rr]@.update(gx as int, c));
                                    assert(self.cells()[rr][cc] == pre.cells()[rr][cc]);
                                } else {
                                    assert(self.grid@[rr] == pre.grid@[rr]);
                                    assert(self.cells()[rr][cc] == pre.cells()[rr][cc]);
                                }
                            }
                            assert(self.cells().len() == step.len());
                            assert forall|rr: int| 0 <= rr < self.cells().len() implies (
                            #[trigger] self.cells()[rr]).len() == step[rr].len() by {
                                if rr == gy as int {
                                    assert(self.grid@[rr]@ == pre.grid@[rr]@.update(gx as int, c));
                                } else {
                                    assert(self.grid@[rr] == pre.grid@[rr]);
                                }
                                assert(pre.cells()[rr].len() == old(self).cells()[rr].len());
                            }
                            assert(self.cells() =~~= step);
                        }
                    } else {
                        proof {
                            assert(self.cells() =~~= step);
                        }
                    }
                } else {
                    proof {
                        assert(self.cells() =~~= step);
                    }
                }
                mx += 1;
            }
            proof {
                assert(place_prefix(
                    old(self).cells(),
                    t,
                    rot,
                    piece.x as int,
                    piece.y as int,
                    my as int,
                    4,
                ) =~~= place_prefix(
                    old(self).cells(),
                    t,
                    rot,
                    piece.x as int,
                    piece.y as int,
                    my as int + 1,
                    0,
                ));
            }
            my += 1;
        }
        proof {
            assert(self.cells() =~~= placed);
            assert forall|r: int| 0 <= r < self.grid@.len() implies #[trigger] self.grid@[r]@.len()
                == self.width by {
                assert(self.cells()[r].len() == old(self).cells()[r].len());
                assert(old(self).grid@[r]@.len() == self.width);
            }
            assert(self.wf());
        }

        if !collision {
            Locked::Success(self.clear_full_rows(clear_delay))
        } else {
            Locked::Collision
        }
    }

    /// Scans for completed rows; if any exist, starts the clear animation
    /// over them and returns how many there are.
    fn clear_full_rows(&mut self, clear_delay: u64) -> (n: i32)
        requires
            old(self).wf(),
        ensures
            final(self).wf(),
            final(self).grid == old(self).grid,
            final(self).width == old(self).width,
            final(self).height == old(self).height,
            final(self).vanish == old(self).vanish,
            final(self).is_game_over() == old(self).is_game_over(),
            n == spec_full_rows(old(self).cells()).len(),
            n == 0 ==> final(self).clearing_view() == old(self).clearing_view(),
            n > 0 ==> final(self).clearing_view() == Some(
                (spec_full_rows(old(self).cells()), 0int, clear_delay as int),
            ),
    {
        let rows = self.get_full_rows();
        let length = rows.len();
        proof {
            lemma_full_rows_bounds(self.cells(), self.cells().len() as int);
            assert forall|i: int| 0 <= i < rows@.len() implies 0 <= #[trigger] rows@[i]
                < self.height + self.vanish by {
                assert(rows@.map_values(|v: i32| v as int)[i] == spec_full_rows(self.cells())[i]);
            }
            assert forall|i: int, j: int| 0 <= i < j < rows@.len() implies rows@[i] < rows@[j] by {
                assert(rows@.map_values(|v: i32| v as int)[i] == spec_full_rows(self.cells())[i]);
                assert(rows@.map_values(|v: i32| v as int)[j] == spec_full_rows(self.cells())[j]);
            }
            assert(rows@.len() == spec_full_rows(self.cells()).len());
            assert(length <= 0x4000_0000);
        }

        if length > 0 {
            self.clear_rows(rows, clear_delay);
        }
        length as i32
    }

    /// The indices of the rows whose every cell is non-zero, in ascending
    /// order.
    #[verifier::loop_isolation(false)]
    fn get_full_rows(&self) -> (rows: Vec<i32>)
        requires
            self.wf(),
        ensures
            rows@.map_values(|v: i32| v as int) == spec_full_rows(self.cells()),
    {
        let mut rows: Vec<i32> = Vec::new();
        let total = (self.height + self.vanish) as usize;
        let mut y: usize = 0;
        while y < total
            invariant
                y <= total,
                rows@.map_values(|v: i32| v as int) == full_rows_upto(self.cells(), y as int),
            decreases total - y,
        {
            let mut full = true;
            let mut x: usize = 0;
            while x < self.width as usize
                invariant
                    y < total,
                    x <= self.width as usize,
                    full == forall|c: int| 0 <= c < x ==> #[trigger] self.cells()[y as int][c] != 0,
                decreases self.width as usize - x,
            {
                if self.grid[y][x] == 0 {
                    full = false;
                    break;
                }
                x += 1;
            }
            if full {
                rows.push(y as i32);
            }
            proof {
                assert(rows@.map_values(|v: i32| v as int) =~= full_rows_upto(
                    self.cells(),
                    y as int + 1,
                ));
            }
            y += 1;
        }
        rows
    }

    /// Begins the clear animation over the given rows.
    fn clear_rows(&mut self, rows: Vec<i32>, clear_delay: u64)
        ensures
            final(self).clearing_view() == Some(
                (rows@.map_values(|v: i32| v as int), 0int, clear_delay as int),
            ),
            final(self).clearing matches Some(c) && c.rows@ == rows@ && c.current_duration == 0
                && c.max_duration == clear_delay,
            final(self).grid == old(self).grid,
            final(self).width == old(self).width,
            final(self).height == old(self).height,
            final(self).vanish == old(self).vanish,
            final(self).game_over == old(self).game_over,
    {
        self.clearing = Some(
            Clearing { rows, current_duration: 0, max_duration: clear_delay },
        );
    }

    /// Advances the clear animation by `dt` microseconds. When the timer
    /// elapses, the cleared rows are collapsed: every row above each cleared
    /// row moves down one step, and the cells that stood in the cleared rows
    /// are returned so a renderer can animate them.
    #[verifier::loop_isolation(false)]
    #[verifier::rlimit(60)]
    pub fn update(&mut self, dt: u64) -> (out: Vec<DestroyedBlock>)
        requires
            old(self).wf(),
        ensures
            final(self).wf(),
            final(self).width == old(self).width,
            final(self).height == old(self).height,
            final(self).vanish == old(self).vanish,
            final(self).is_game_over() == old(self).is_game_over(),
            match old(self).clearing_view() {
                Option::None => {
                    &&& final(self).cells() == old(self).cells()
                    &&& final(self).clearing_view() is None
                    &&& out@ == Seq::<DestroyedBlock>::empty()
                },
                Option::Some((rows, cur, max)) => {
                    let cur2 = sat_add_u64(cur, dt as int);
                    if cur2 < max {
                        &&& final(self).cells() == old(self).cells()
                        &&& final(self).clearing_view() == Some((rows, cur2, max))
                        &&& out@ == Seq::<DestroyedBlock>::empty()
                    } else {
                        &&& final(self).cells() == spec_collapse(old(self).cells(), rows)
                        &&& final(self).clearing_view() is None
                        &&& out@ == spec_destroyed(old(self).cells(), rows, old(self).width as int)
                    }
                },
            },
    {
        let cl = self.clearing.take();
        match cl {
            None => Vec::new(),
            Some(mut c) => {
                let cur2 = if dt > u64::MAX - c.current_duration {
                    u64::MAX
                } else {
                    c.current_duration + dt
                };
                if cur2 < c.max_duration {
                    c.current_duration = cur2;
                    self.clearing = Some(c);
                    Vec::new()
                } else {
                    let ghost g0 = self.cells();
                    let ghost rows_view = c.rows@.map_values(|v: i32| v as int);
                    let width = self.width;

                    let mut out: Vec<DestroyedBlock> = Vec::new();
                    let mut ri: usize = 0;
                    while ri < c.rows.len()
                        invariant
                            ri <= c.rows@.len(),
                            out@ == destroyed_upto(g0, rows_view, width as int, ri as int),
                        decreases c.rows@.len() - ri,
                    {
                        let yrow = c.rows[ri];
                        let mut xx: usize = 0;
                        while xx < width as usize
                            invariant
                                ri < c.rows@.len(),
                                xx <= width as usize,
                                out@ == destroyed_upto(g0, rows_view, width as int, ri as int)
                                    + destroyed_row_upto(g0[yrow as int], yrow as int, xx as int),
                            decreases width as usize - xx,
                        {
                            let id = self.grid[yrow as usize][xx];
                            if id != 0 {
                                out.push(DestroyedBlock { x: xx as i32, y: yrow, block_id: id });
                            }
                            proof {
                                assert(out@ =~= destroyed_upto(g0, rows_view, width as int, ri as int)
                                    + destroyed_row_upto(g0[yrow as int], yrow as int, xx as int + 1));
                            }
                            xx += 1;
                        }
                        proof {
                            assert(out@ =~= destroyed_upto(g0, rows_view, width as int, ri as int + 1));
                        }
                        ri += 1;
                    }
                    proof {
                        assert(out@ == spec_destroyed(g0, rows_view, width as int));
                    }

                    let mut ri: usize = 0;
                    while ri < c.rows.len()
                        invariant
                            ri <= c.rows@.len(),
                            self.width == old(self).width,
                            self.height == old(self).height,
                            self.vanish == old(self).vanish,
                            self.game_over == old(self).game_over,
                            self.clearing is None,
                            self.grid@.len() == old(self).grid@.len(),
                            forall|r: int| 0 <= r < self.grid@.len() ==> #[trigger] self.grid@[r]@.len() == self.width,
                            self.cells() == collapse_upto(g0, rows_view, ri as int),
                        decreases c.rows@.len() - ri,
                    {
                        let yrow = c.rows[ri];
                        let ghost pre = *self;
                        let mut yy: usize = yrow as usize;
                        while yy >= 1
                            invariant
                                yy <= yrow as usize,
                                self.width == old(self).width,
                                self.height == old(self).height,
                                self.vanish == old(self).vanish,
                                self.game_over == old(self).game_over,
                                self.clearing is None,
                                self.grid@.len() == old(self).grid@.len(),
                                forall|r: int| 0 <= r < self.grid@.len() ==> #[trigger] self.grid@[r]@.len() == self.width,
                                forall|i: int|
                                    yy < i <= yrow ==> #[trigger] self.cells()[i] == pre.cells()[i - 1],
                                forall|i: int|
                                    (0 <= i <= yy || yrow < i < self.grid@.len())
                                        ==> #[trigger] self.cells()[i] == pre.cells()[i],
                            decreases yy,
                        {
                            let ghost pre2 = *self;
                            let mut cx: usize = 0;
                            while cx < width as usize
                                invariant
                                    1 <= yy <= yrow as usize,
                                    cx <= width as usize,
                                    self.width == old(self).width,
                                    self.height == old(self).height,
                                    self.vanish == old(self).vanish,
                                    self.game_over == old(self).game_over,
                                    self.clearing is None,
                                    self.grid@.len() == old(self).grid@.len(),
                                    forall|r: int| 0 <= r < self.grid@.len() ==> #[trigger] self.grid@[r]@.len() == self.width,
                                    forall|i: int|
                                        0 <= i < self.grid@.len() && i != yy ==> #[trigger] self.cells()[i]
                                            == pre2.cells()[i],
                                    forall|j: int|
                                        0 <= j < cx ==> #[trigger] self.cells()[yy as int][j]
                                            == pre2.cells()[yy as int - 1][j],
                                    forall|j: int|
                                        cx <= j < self.width ==> #[trigger] self.cells()[yy as int][j]
                                            == pre2.cells()[yy as int][j],
                                decreases width as usize - cx,
                            {
                                let v = self.grid[yy - 1][cx];
                                proof {
                                    assert(self.cells()[yy as int - 1] == pre2.cells()[yy as int
                                        - 1]);
                                    assert(v == pre2.cells()[yy as int - 1][cx as int]);
                                }
                                let ghost mid = *self;
                                self.grid[yy][cx] = v;
                                proof {
                                    assert(self.grid@[yy as int]@ =~= mid.grid@[yy as int]@.update(
                                        cx as int,
                                        v,
                                    ));
                                    assert(forall|i: int|
                                        0 <= i < self.grid@.len() && i != yy
                                            ==> self.grid@[i] == mid.grid@[i]);
                                    assert forall|j: int| 0 <= j <= cx implies #[trigger] self.cells()[yy as int][j]
                                        == pre2.cells()[yy as int - 1][j] by {
                                        assert(self.cells()[yy as int] == self.grid@[yy as int]@);
                                        if j < cx {
                                            assert(mid.cells()[yy as int][j] == pre2.cells()[yy as int - 1][j]);
                                        }
                                    }
                                    assert forall|j: int| cx + 1 <= j < self.width implies #[trigger] self.cells()[yy as int][j]
                                        == pre2.cells()[yy as int][j] by {
                                        assert(self.cells()[yy as int] == self.grid@[yy as int]@);
                                        assert(mid.cells()[yy as int][j] == pre2.cells()[yy as int][j]);
                                    }
                                    assert forall|i: int|
                                        0 <= i < self.grid@.len() && i != yy implies #[trigger] self.cells()[i]
                                            == pre2.cells()[i] by {
                                        assert(self.grid@[i] == mid.grid@[i]);
                                        assert(mid.cells()[i] == pre2.cells()[i]);
                                    }
                                }
                                cx += 1;
                            }
                            proof {
                                assert forall|i: int| yy - 1 < i <= yrow implies #[trigger] self.cells()[i]
                                    == pre.cells()[i - 1] by {
                                    if i == yy as int {
                                        assert(self.cells()[i] =~= pre2.cells()[i - 1]);
                                    }
                                }
                            }
                            yy -= 1;
                        }
                        proof {
                            assert(self.cells() =~~= spec_collapse_row(pre.cells(), yrow as int));
                            assert(self.cells() =~~= collapse_upto(g0, rows_view, ri as int + 1));
                        }
                        ri += 1;
                    }
                    proof {
                        assert(self.cells() == spec_collapse(g0, rows_view));
                    }
                    out
                }
            },
        }
    }

    /// Starts the game-over animation: every row that holds any block is
    /// queued for an immediate clear, and the stack is marked finished.
    #[verifier::loop_isolation(false)]
    pub fn game_over(&mut self)
        requires
            old(self).wf(),
        ensures
            final(self).wf(),
            final(self).cells() == old(self).cells(),
            final(self).width == old(self).width,
            final(self).height == old(self).height,
            final(self).vanish == old(self).vanish,
            final(self).is_game_over(),
            final(self).clearing_view() == Some(
                (spec_occupied_rows(old(self).cells()), 0int, 0int),
            ),
    {
        let mut rows: Vec<i32> = Vec::new();
        let total = (self.height + self.vanish) as usize;
        let mut y: usize = 0;
        while y < total
            invariant
                y <= total,
                rows@.map_values(|v: i32| v as int) == occupied_rows_upto(self.cells(), y as int),
            decreases total - y,
        {
            let mut occupied = false;
            let mut x: usize = 0;
            while x < self.width as usize
                invariant
                    y < total,
                    x <= self.width as usize,
                    occupied == exists|c: int| 0 <= c < x && #[trigger] self.cells()[y as int][c] != 0,
                decreases self.width as usize - x,
            {
                if self.grid[y][x] != 0 {
                    occupied = true;
                    break;
                }
                x += 1;
            }
            if occupied {
                rows.push(y as i32);
            }
            proof {
                assert(rows@.map_values(|v: i32| v as int) =~= occupied_rows_upto(
                    self.cells(),
                    y as int + 1,
                ));
            }
            y += 1;
        }
        proof {
            lemma_occupied_rows_bounds(self.cells(), self.cells().len() as int);
            assert forall|i: int| 0 <= i < rows@.len() implies 0 <= #[trigger] rows@[i]
                < self.height + self.vanish by {
                assert(rows@.map_values(|v: i32| v as int)[i] == spec_occupied_rows(self.cells())[i]);
            }
            assert forall|i: int, j: int| 0 <= i < j < rows@.len() implies rows@[i] < rows@[j] by {
                assert(rows@.map_values(|v: i32| v as int)[i] == spec_occupied_rows(self.cells())[i]);
                assert(rows@.map_values(|v: i32| v as int)[j] == spec_occupied_rows(self.cells())[j]);
            }
        }
        self.clear_rows(rows, 0);
        self.game_over = true;
    }

    /// Fills the board with a flat 16-row, 9-column wall, leaving the
    /// right column open: a board one bar drop away from a quadruple
    /// clear.
    #[verifier::loop_isolation(false)]
    pub fn debug_tetris(&mut self)
        requires
            old(self).wf(),
            old(self).width >= 9,
            old(self).rows_total() >= 40,
        ensures
            final(self).wf(),
            final(self).width == old(self).width,
            final(self).height == old(self).height,
            final(self).vanish == old(self).vanish,
            final(self).clearing_view() == old(self).clearing_view(),
            final(self).is_game_over() == old(self).is_game_over(),
            forall|r: int, c: int|
                0 <= r < final(self).rows_total() && 0 <= c < final(self).width
                    ==> ((#[trigger] final(self).cells()[r][c] != 0) <==> (24 <= r < 40 && 0 <= c
                    < 9)),
            forall|r: int, c: int|
                0 <= r < final(self).rows_total() && 0 <= c < final(self).width
                    && final(self).cells()[r][c] != 0 ==> 1 <= #[trigger] final(self).cells()[r][c]
                    <= 7,
    {
        self.clear();

        let mut y: usize = 24;
        while y < 40
            invariant
                24 <= y <= 40,
                self.wf(),
                self.width == old(self).width,
                self.height == old(self).height,
                self.vanish == old(self).vanish,
                self.clearing_view() == old(self).clearing_view(),
                self.is_game_over() == old(self).is_game_over(),
                forall|r: int, c: int|
                    0 <= r < self.rows_total() && 0 <= c < self.width ==> ((
                    #[trigger] self.cells()[r][c] != 0) <==> (24 <= r < y && 0 <= c < 9)),
                forall|r: int, c: int|
                    0 <= r < self.rows_total() && 0 <= c < self.width && self.cells()[r][c] != 0
                        ==> 1 <= #[trigger] self.cells()[r][c] <= 7,
            decreases 40 - y,
        {
            let mut x: usize = 0;
            while x < 9
                invariant
                    24 <= y < 40,
                    x <= 9,
                    self.wf(),
                    self.width == old(self).width,
                    self.height == old(self).height,
                    self.vanish == old(self).vanish,
                    self.clearing_view() == old(self).clearing_view(),
                    self.is_game_over() == old(self).is_game_over(),
                    forall|r: int, c: int|
                        0 <= r < self.rows_total() && 0 <= c < self.width ==> ((
                        #[trigger] self.cells()[r][c] != 0) <==> ((24 <= r < y && 0 <= c < 9) || (r
                            == y && 0 <= c < x))),
                    forall|r: int, c: int|
                        0 <= r < self.rows_total() && 0 <= c < self.width && self.cells()[r][c]
                            != 0 ==> 1 <= #[trigger] self.cells()[r][c] <= 7,
                decreases 9 - x,
            {
                self.place_random(x, y);
                x += 1;
            }
            y += 1;
        }
    }

    /// Builds the practice board the debug menu offers for T-spin setups:
    /// exactly the cells of `debug_t_spin_bricks` are filled.
    #[verifier::loop_isolation(false)]
    #[verifier::rlimit(60)]
    pub fn debug_t_spin(&mut self)
        requires
            old(self).wf(),
            old(self).width >= 10,
            old(self).rows_total() >= 40,
        ensures
            final(self).wf(),
            final(self).width == old(self).width,
            final(self).height == old(self).height,
            final(self).vanish == old(self).vanish,
            final(self).clearing_view() == old(self).clearing_view(),
            final(self).is_game_over() == old(self).is_game_over(),
            forall|r: int, c: int|
                0 <= r < final(self).rows_total() && 0 <= c < final(self).width
                    ==> ((#[trigger] final(self).cells()[r][c] != 0) <==> debug_t_spin_bricks()
                    .contains((r, c))),
            forall|r: int, c: int|
                0 <= r < final(self).rows_total() && 0 <= c < final(self).width
                    && final(self).cells()[r][c] != 0 ==> 1 <= #[trigger] final(self).cells()[r][c]
                    <= 7,
    {
        let mut bricks: Vec<(usize, usize)> = vec![
            (39, 0),
            (39, 1),
            (38, 0),
            (37, 0),
            (37, 1),
            (36, 0),
            (36, 1),
            (35, 0),
            (34, 0),
            (34, 1),
            (33, 0),
            (33, 1),
            (32, 0),
            (31, 0),
            (31, 1),
            (30, 0),
            (30, 1),
            (29, 0),
            (28, 0),
            (28, 1),
            (26, 2),
            (25, 2),
        ];

        let mut y: usize = 0;
        while y < 14
            invariant
                y <= 14,
                bricks@.map_values(|b: (usize, usize)| (b.0 as int, b.1 as int))
                    =~= debug_t_spin_bricks().take(22 + y as int),
            decreases 14 - y,
        {
            bricks.push((39 - y, 3));
            proof {
                assert(bricks@.map_values(|b: (usize, usize)| (b.0 as int, b.1 as int))
                    =~= debug_t_spin_bricks().take(22 + y as int + 1));
            }
            y += 1;
        }

        let mut i: usize = 0;
        while i < 72
            invariant
                i <= 72,
                bricks@.map_values(|b: (usize, usize)| (b.0 as int, b.1 as int))
                    =~= debug_t_spin_bricks().take(36 + i as int),
            decreases 72 - i,
        {
            bricks.push((39 - i / 6, 4 + i % 6));
            proof {
                assert(bricks@.map_values(|b: (usize, usize)| (b.0 as int, b.1 as int))
                    =~= debug_t_spin_bricks().take(36 + i as int + 1));
            }
            i += 1;
        }
        proof {
            assert(bricks@.map_values(|b: (usize, usize)| (b.0 as int, b.1 as int))
                =~= debug_t_spin_bricks());
        }

        self.clear();

        let ghost all = debug_t_spin_bricks();
        let mut k: usize = 0;
        while k < bricks.len()
            invariant
                k <= bricks@.len(),
                bricks@.map_values(|b: (usize, usize)| (b.0 as int, b.1 as int)) =~= all,
                all == debug_t_spin_bricks(),
                self.wf(),
                self.width == old(self).width,
                self.height == old(self).height,
                self.vanish == old(self).vanish,
                self.clearing_view() == old(self).clearing_view(),
                self.is_game_over() == old(self).is_game_over(),
                forall|r: int, c: int|
                    0 <= r < self.rows_total() && 0 <= c < self.width ==> ((
                    #[trigger] self.cells()[r][c] != 0) <==> all.take(k as int).contains((r, c))),
                forall|r: int, c: int|
                    0 <= r < self.rows_total() && 0 <= c < self.width && self.cells()[r][c] != 0
                        ==> 1 <= #[trigger] self.cells()[r][c] <= 7,
            decreases bricks@.len() - k,
        {
            let (by, bx) = bricks[k];
            proof {
                assert(all[k as int] == (by as int, bx as int));
                assert(0 <= by < 40 && 0 <= bx < 10);
            }
            self.place_random(bx, by);
            proof {
                assert forall|r: int, c: int|
                    0 <= r < self.rows_total() && 0 <= c < self.width implies ((
                #[trigger] self.cells()[r][c] != 0) <==> all.take(k as int + 1).contains(
                    (r, c),
                )) by {
                    if r == by as int && c == bx as int {
                        assert(all.take(k as int + 1)[k as int] == (r, c));
                        assert(all.take(k as int + 1).contains((r, c)));
                    } else {
                        assert(all.take(k as int + 1).contains((r, c)) ==> all.take(
                            k as int,
                        ).contains((r, c))) by {
                            if all.take(k as int + 1).contains((r, c)) {
                                let j = choose|j: int|
                                    #![trigger all.take(k as int + 1)[j]]
                                    0 <= j < all.take(k as int + 1).len() && all.take(
                                        k as int + 1,
                                    )[j] == (r, c);
                                if j < k {
                                    assert(all.take(k as int)[j] == (r, c));
                                }
                            }
                        }
                        assert(all.take(k as int).contains((r, c)) ==> all.take(
                            k as int + 1,
                        ).contains((r, c))) by {
                            if all.take(k as int).contains((r, c)) {
                                let j = choose|j: int|
                                    #![trigger all.take(k as int)[j]]
                                    0 <= j < all.take(k as int).len() && all.take(k as int)[j] == (
                                    r,
                                    c,
                                );
                                assert(all.take(k as int + 1)[j] == (r, c));
                            }
                        }
                    }
                }
            }
            k += 1;
        }
        proof {
            assert(all.take(all.len() as int) =~= all);
        }
    }

    /// Fills one cell with a random shape code, for the interactive debug
    /// board editors.
    pub fn place_random(&mut self, x: usize, y: usize)
        requires
            old(self).wf(),
            x < old(self).width,
            y < old(self).rows_total(),
        ensures
            final(self).wf(),
            final(self).width == old(self).width,
            final(self).height == old(self).height,
            final(self).vanish == old(self).vanish,
            final(self).clearing_view() == old(self).clearing_view(),
            final(self).is_game_over() == old(self).is_game_over(),
            exists|v: usize|
                1 <= v <= 7 && final(self).cells() == old(self).cells().update(
                    y as int,
                    old(self).cells()[y as int].update(x as int, v),
                ),
    {
        let code = random_cell_code();
        self.grid[y][x] = code;
        proof {
            assert(self.cells() =~~= old(self).cells().update(
                y as int,
                old(self).cells()[y as int].update(x as int, code),
            ));
        }
    }
}

/// The grid after writing only the mask cells that the row-major write loop
/// has reached: every full mask row below `my`, and the first `mx` cells of
/// mask row `my`.
pub open spec fn place_prefix(
    g: Seq<Seq<usize>>,
    t: ShapeType,
    rot: int,
    x: int,
    y: int,
    my: int,
    mx: int,
) -> Seq<Seq<usize>> {
    Seq::new(
        g.len(),
        |rr: int|
            Seq::new(
                g[rr].len(),
                |cc: int|
                    if 0 <= rr - y < 4 && 0 <= cc - x < 4 && (rr - y < my || (rr - y == my && cc - x
                        < mx)) && shape_cell(t, rot, rr - y, cc - x) != 0 {
                        shape_cell(t, rot, rr - y, cc - x)
                    } else {
                        g[rr][cc]
                    },
            ),
    )
}

/// The brick coordinates (row, column) of the debug T-spin tower: the
/// hand-placed overhang cells, a full column at 3, and a solid block on
/// the right.
pub open spec fn debug_t_spin_bricks() -> Seq<(int, int)> {
    seq![
        (39int, 0int),
        (39int, 1int),
        (38int, 0int),
        (37int, 0int),
        (37int, 1int),
        (36int, 0int),
        (36int, 1int),
        (35int, 0int),
        (34int, 0int),
        (34int, 1int),
        (33int, 0int),
        (33int, 1int),
        (32int, 0int),
        (31int, 0int),
        (31int, 1int),
        (30int, 0int),
        (30int, 1int),
        (29int, 0int),
        (28int, 0int),
        (28int, 1int),
        (26int, 2int),
        (25int, 2int),
    ] + Seq::new(14, |y: int| (39 - y, 3int)) + Seq::new(72, |i: int| (39 - i / 6, 4 + i % 6))
}

/// Every cell of the row is occupied.
pub open spec fn row_full(row: Seq<usize>) -> bool {
    forall|c: int| 0 <= c < row.len() ==> row[c] != 0
}

/// The indices of the full rows among the first `n` rows, ascending.
pub open spec fn full_rows_upto(g: Seq<Seq<usize>>, n: int) -> Seq<int>
    decreases n,
{
    if n <= 0 {
        Seq::empty()
    } else if row_full(g[n - 1]) {
        full_rows_upto(g, n - 1).push(n - 1)
    } else {
        full_rows_upto(g, n - 1)
    }
}

/// The indices of all full rows of the grid, ascending.
pub open spec fn spec_full_rows(g: Seq<Seq<usize>>) -> Seq<int> {
    full_rows_upto(g, g.len() as int)
}

/// Every index reported by `full_rows_upto` lies below `n`, and the list is
/// strictly ascending.
pub proof fn lemma_full_rows_bounds(g: Seq<Seq<usize>>, n: int)
    ensures
        forall|i: int| 0 <= i < full_rows_upto(g, n).len() ==> 0 <= #[trigger] full_rows_upto(
            g,
            n,
        )[i] < n,
        forall|i: int, j: int|
            0 <= i < j < full_rows_upto(g, n).len() ==> full_rows_upto(g, n)[i] < full_rows_upto(
                g,
                n,
            )[j],
        n >= 0 ==> full_rows_upto(g, n).len() <= n,
    decreases n,
{
    if n > 0 {
        lemma_full_rows_bounds(g, n - 1);
        assert forall|i: int| 0 <= i < full_rows_upto(g, n).len() implies 0 <= #[trigger] full_rows_upto(
            g,
            n,
        )[i] < n by {
            if i < full_rows_upto(g, n - 1).len() {
                assert(full_rows_upto(g, n)[i] == full_rows_upto(g, n - 1)[i]);
            }
        }
    }
}

/// `a + b` clamped to the range of `u64`.
pub open spec fn sat_add_u64(a: int, b: int) -> int {
    if a + b > u64::MAX {
        u64::MAX as int
    } else {
        a + b
    }
}

/// The grid after one cleared row at index `y` is removed: every row above
/// it moves down one step, and the top row keeps its old contents.
pub open spec fn spec_collapse_row(g: Seq<Seq<usize>>, y: int) -> Seq<Seq<usize>> {
    Seq::new(g.len(), |i: int| if 1 <= i <= y { g[i - 1] } else { g[i] })
}

/// The grid after collapsing the first `k` cleared rows, in the recorded
/// ascending order.
pub open spec fn collapse_upto(g: Seq<Seq<usize>>, rows: Seq<int>, k: int) -> Seq<Seq<usize>>
    decreases k,
{
    if k <= 0 {
        g
    } else {
        spec_collapse_row(collapse_upto(g, rows, k - 1), rows[k - 1])
    }
}

/// The grid after collapsing all the cleared rows.
pub open spec fn spec_collapse(g: Seq<Seq<usize>>, rows: Seq<int>) -> Seq<Seq<usize>> {
    collapse_upto(g, rows, rows.len() as int)
}

/// The destroyed-block reports for the first `n` cells of one cleared row.
pub open spec fn destroyed_row_upto(row: Seq<usize>, y: int, n: int) -> Seq<DestroyedBlock>
    decreases n,
{
    if n <= 0 {
        Seq::empty()
    } else if row[n - 1] != 0 {
        destroyed_row_upto(row, y, n - 1).push(
            DestroyedBlock { x: (n - 1) as i32, y: y as i32, block_id: row[n - 1] },
        )
    } else {
        destroyed_row_upto(row, y, n - 1)
    }
}

/// The destroyed-block reports for the first `k` cleared rows.
pub open spec fn destroyed_upto(
    g: Seq<Seq<usize>>,
    rows: Seq<int>,
    width: int,
    k: int,
) -> Seq<DestroyedBlock>
    decreases k,
{
    if k <= 0 {
        Seq::empty()
    } else {
        destroyed_upto(g, rows, width, k - 1) + destroyed_row_upto(g[rows[k - 1]], rows[k - 1], width)
    }
}

/// All destroyed-block reports of one finished clear, row by row.
pub open spec fn spec_destroyed(g: Seq<Seq<usize>>, rows: Seq<int>, width: int) -> Seq<
    DestroyedBlock,
> {
    destroyed_upto(g, rows, width, rows.len() as int)
}

/// Some cell of the row is occupied.
pub open spec fn row_occupied(row: Seq<usize>) -> bool {
    exists|c: int| 0 <= c < row.len() && row[c] != 0
}

/// The indices of the occupied rows among the first `n` rows, ascending.
pub open spec fn occupied_rows_upto(g: Seq<Seq<usize>>, n: int) -> Seq<int>
    decreases n,
{
    if n <= 0 {
        Seq::empty()
    } else if row_occupied(g[n - 1]) {
        occupied_rows_upto(g, n - 1).push(n - 1)
    } else {
        occupied_rows_upto(g, n - 1)
    }
}

/// The indices of all rows holding any block, ascending.
pub open spec fn spec_occupied_rows(g: Seq<Seq<usize>>) -> Seq<int> {
    occupied_rows_upto(g, g.len() as int)
}

/// Every index reported by `occupied_rows_upto` lies below `n`, and the
/// list is strictly ascending.
pub proof fn lemma_occupied_rows_bounds(g: Seq<Seq<usize>>, n: int)
    ensures
        forall|i: int| 0 <= i < occupied_rows_upto(g, n).len() ==> 0 <= #[trigger] occupied_rows_upto(
            g,
            n,
        )[i] < n,
        forall|i: int, j: int|
            0 <= i < j < occupied_rows_upto(g, n).len() ==> occupied_rows_upto(g, n)[i]
                < occupied_rows_upto(g, n)[j],
        n >= 0 ==> occupied_rows_upto(g, n).len() <= n,
    decreases n,
{
    if n > 0 {
        lemma_occupied_rows_bounds(g, n - 1);
        assert forall|i: int| 0 <= i < occupied_rows_upto(g, n).len() implies 0
            <= #[trigger] occupied_rows_upto(g, n)[i] < n by {
            if i < occupied_rows_upto(g, n - 1).len() {
                assert(occupied_rows_upto(g, n)[i] == occupied_rows_upto(g, n - 1)[i]);
            }
        }
    }
}

/// `spec_full_rows` reports exactly the indices of the completely
/// occupied rows, in ascending order: the row set a lock clears is the
/// set of full rows and nothing else.
pub proof fn lemma_full_rows_exact(g: Seq<Seq<usize>>, n: int, y: int)
    requires
        0 <= n <= g.len(),
    ensures
        full_rows_upto(g, n).contains(y) <==> (0 <= y < n && row_full(g[y])),
    decreases n,
{
    if n > 0 {
        lemma_full_rows_exact(g, n - 1, y);
        if row_full(g[n - 1]) {
            assert(full_rows_upto(g, n) == full_rows_upto(g, n - 1).push(n - 1));
            if 0 <= y < n && row_full(g[y]) {
                if y == n - 1 {
                    assert(full_rows_upto(g, n)[full_rows_upto(g, n).len() - 1] == y);
                } else {
                    let i = choose|i: int|
                        #![trigger full_rows_upto(g, n - 1)[i]]
                        0 <= i < full_rows_upto(g, n - 1).len() && full_rows_upto(g, n - 1)[i] == y;
                    assert(full_rows_upto(g, n)[i] == y);
                }
            }
            if full_rows_upto(g, n).contains(y) {
                let i = choose|i: int|
                    #![trigger full_rows_upto(g, n)[i]]
                    0 <= i < full_rows_upto(g, n).len() && full_rows_upto(g, n)[i] == y;
                if i < full_rows_upto(g, n - 1).len() {
                    assert(full_rows_upto(g, n - 1)[i] == y);
                    assert(full_rows_upto(g, n - 1).contains(y));
                }
            }
        } else {
            if full_rows_upto(g, n).contains(y) {
                assert(full_rows_upto(g, n - 1).contains(y));
            }
            if full_rows_upto(g, n - 1).contains(y) {
                let i = choose|i: int|
                    #![trigger full_rows_upto(g, n - 1)[i]]
                    0 <= i < full_rows_upto(g, n - 1).len() && full_rows_upto(g, n - 1)[i] == y;
                assert(full_rows_upto(g, n)[i] == y);
            }
        }
    }
}

/// Collapsing the cleared rows leaves every row strictly below them
/// untouched.
pub proof fn lemma_collapse_below_untouched(g: Seq<Seq<usize>>, rows: Seq<int>, k: int, y: int)
    requires
        0 <= k <= rows.len(),
        0 <= y < g.len(),
        forall|i: int| 0 <= i < k ==> #[trigger] rows[i] < y,
    ensures
        collapse_upto(g, rows, k).len() == g.len(),
        collapse_upto(g, rows, k)[y] == g[y],
    decreases k,
{
    if k > 0 {
        lemma_collapse_below_untouched(g, rows, k - 1, y);
    }
}

/// The rows of the first `n` that survive a clear of `rows`: those whose
/// index is not cleared, in their original order.
pub open spec fn kept_rows_upto(g: Seq<Seq<usize>>, rows: Seq<int>, n: int) -> Seq<Seq<usize>>
    decreases n,
{
    if n <= 0 {
        Seq::empty()
    } else if rows.contains(n - 1) {
        kept_rows_upto(g, rows, n - 1)
    } else {
        kept_rows_upto(g, rows, n - 1).push(g[n - 1])
    }
}

/// All rows that survive a clear of `rows`, in their original order.
pub open spec fn kept_rows(g: Seq<Seq<usize>>, rows: Seq<int>) -> Seq<Seq<usize>> {
    kept_rows_upto(g, rows, g.len() as int)
}

/// While no cleared row lies below `m`, the kept rows up to `m` are simply
/// the first `m` rows.
proof fn lemma_kept_prefix(g: Seq<Seq<usize>>, rows: Seq<int>, m: int)
    requires
        forall|i: int| 0 <= i < rows.len() ==> #[trigger] rows[i] >= m,
        0 <= m <= g.len(),
    ensures
        kept_rows_upto(g, rows, m) == g.subrange(0, m),
    decreases m,
{
    if m <= 0 {
        assert(kept_rows_upto(g, rows, m) =~= g.subrange(0, 0));
    } else {
        lemma_kept_prefix(g, rows, m - 1);
        if rows.contains(m - 1) {
            let i = choose|i: int|
                #![trigger rows[i]]
                0 <= i < rows.len() && rows[i] == m - 1;
            assert(false);
        }
        assert(kept_rows_upto(g, rows, m) =~= g.subrange(0, m));
    }
}

/// Folding the cleared rows one at a time, from the smallest on, equals
/// collapsing the first row and then folding the rest.
proof fn lemma_collapse_upto_shift(g: Seq<Seq<usize>>, rows: Seq<int>, k: int)
    requires
        1 <= k <= rows.len(),
    ensures
        collapse_upto(g, rows, k) == collapse_upto(
            spec_collapse_row(g, rows[0]),
            rows.skip(1),
            k - 1,
        ),
    decreases k,
{
    if k == 1 {
        assert(collapse_upto(g, rows, 0) == g);
        assert(collapse_upto(g, rows, 1) == spec_collapse_row(g, rows[0]));
        assert(collapse_upto(spec_collapse_row(g, rows[0]), rows.skip(1), 0)
            == spec_collapse_row(g, rows[0]));
    } else {
        lemma_collapse_upto_shift(g, rows, k - 1);
        assert(rows.skip(1)[k - 2] == rows[k - 1]);
        assert(collapse_upto(g, rows, k) == spec_collapse_row(
            collapse_upto(g, rows, k - 1),
            rows[k - 1],
        ));
        assert(collapse_upto(spec_collapse_row(g, rows[0]), rows.skip(1), k - 1)
            == spec_collapse_row(
            collapse_upto(spec_collapse_row(g, rows[0]), rows.skip(1), k - 2),
            rows.skip(1)[k - 2],
        ));
    }
}

/// After one collapse at the lowest cleared row, the surviving rows are
/// the old top row followed by the rows the full clear keeps.
proof fn lemma_kept_shift(g: Seq<Seq<usize>>, rows: Seq<int>, n: int)
    requires
        rows.len() >= 1,
        0 <= rows[0] < g.len(),
        forall|i: int, j: int| 0 <= i < j < rows.len() ==> rows[i] < rows[j],
        forall|i: int| 0 <= i < rows.len() ==> 0 <= #[trigger] rows[i] < g.len(),
        rows[0] + 1 <= n <= g.len(),
    ensures
        kept_rows_upto(spec_collapse_row(g, rows[0]), rows.skip(1), n) == seq![g[0]]
            + kept_rows_upto(g, rows, n),
    decreases n,
{
    let r0 = rows[0];
    let g1 = spec_collapse_row(g, r0);
    let rest = rows.skip(1);
    if n == r0 + 1 {
        assert forall|i: int| 0 <= i < rest.len() implies #[trigger] rest[i] >= n by {
            assert(rest[i] == rows[i + 1]);
        }
        lemma_kept_prefix(g1, rest, n);
        assert forall|i: int| 0 <= i < rows.len() implies #[trigger] rows[i] >= r0 by {
            if i > 0 {
                assert(rows[0] < rows[i]);
            }
        }
        lemma_kept_prefix(g, rows, r0);
        assert(rows.contains(r0)) by {
            assert(rows[0] == r0);
        }
        assert(kept_rows_upto(g, rows, n) == kept_rows_upto(g, rows, r0));
        assert(g1.subrange(0, r0 + 1) =~= seq![g[0]] + g.subrange(0, r0));
    } else {
        lemma_kept_shift(g, rows, n - 1);
        assert(n - 1 > r0);
        assert(rest.contains(n - 1) <==> rows.contains(n - 1)) by {
            if rest.contains(n - 1) {
                let i = choose|i: int| #![trigger rest[i]] 0 <= i < rest.len() && rest[i] == n - 1;
                assert(rows[i + 1] == n - 1);
            }
            if rows.contains(n - 1) {
                let i = choose|i: int| #![trigger rows[i]] 0 <= i < rows.len() && rows[i] == n - 1;
                if i == 0 {
                    assert(rows[0] == r0 && r0 == n - 1);
                    assert(false);
                }
                assert(rest[i - 1] == n - 1);
            }
        }
        assert(g1[n - 1] == g[n - 1]);
        if !rows.contains(n - 1) {
            assert(kept_rows_upto(g1, rest, n) =~= seq![g[0]] + kept_rows_upto(g, rows, n));
        }
    }
}

/// Line-clear correctness: collapsing the cleared rows removes exactly
/// them. The new grid is the old top row repeated once per cleared row,
/// followed by every surviving row in its original order - so all rows
/// above a cleared row move down one step per cleared row below them, and
/// rows below the cleared region are untouched.
pub proof fn lemma_line_clear(g: Seq<Seq<usize>>, rows: Seq<int>)
    requires
        forall|i: int, j: int| 0 <= i < j < rows.len() ==> rows[i] < rows[j],
        forall|i: int| 0 <= i < rows.len() ==> 0 <= #[trigger] rows[i] < g.len(),
    ensures
        spec_collapse(g, rows) == Seq::new(rows.len(), |i: int| g[0]) + kept_rows(g, rows),
    decreases rows.len(),
{
    if rows.len() == 0 {
        assert(kept_rows_upto(g, rows, g.len() as int) =~= g) by {
            lemma_kept_prefix_total(g, rows);
        }
        assert(spec_collapse(g, rows) =~= Seq::new(0, |i: int| g[0]) + kept_rows(g, rows));
    } else {
        let r0 = rows[0];
        let g1 = spec_collapse_row(g, r0);
        let rest = rows.skip(1);
        lemma_collapse_upto_shift(g, rows, rows.len() as int);
        assert(spec_collapse(g, rows) == collapse_upto(g1, rest, rest.len() as int));
        assert forall|i: int, j: int| 0 <= i < j < rest.len() implies rest[i] < rest[j] by {
            assert(rest[i] == rows[i + 1] && rest[j] == rows[j + 1]);
        }
        assert forall|i: int| 0 <= i < rest.len() implies 0 <= #[trigger] rest[i] < g1.len() by {
            assert(rest[i] == rows[i + 1]);
        }
        lemma_line_clear(g1, rest);
        assert(g1[0] == g[0]);
        lemma_kept_shift(g, rows, g.len() as int);
        assert(kept_rows(g1, rest) == seq![g[0]] + kept_rows(g, rows));
        assert(Seq::new(rest.len(), |i: int| g1[0]) + (seq![g[0]] + kept_rows(g, rows)) =~= Seq::new(
            rows.len(),
            |i: int| g[0],
        ) + kept_rows(g, rows));
    }
}

/// With nothing cleared, every row is kept.
proof fn lemma_kept_prefix_total(g: Seq<Seq<usize>>, rows: Seq<int>)
    requires
        rows.len() == 0,
    ensures
        kept_rows_upto(g, rows, g.len() as int) == g,
{
    lemma_kept_prefix(g, rows, g.len() as int);
    assert(g.subrange(0, g.len() as int) =~= g);
}

/// Relies on rand::Rng::gen_range with rand::thread_rng: returns a value
/// drawn from the half-open range given to it, here 1..=7.
#[verifier::external_body]
fn random_cell_code() -> (c: usize)
    ensures
        1 <= c <= 7,
{
    rand::Rng::gen_range(&mut rand::thread_rng(), 1, 8)
}

/// A grid of the given dimensions with every cell empty.
pub open spec fn empty_grid(width: int, rows: int) -> Seq<Seq<usize>> {
    Seq::new(rows as nat, |r: int| Seq::new(width as nat, |c: int| 0usize))
}

use crate::shape::spec_shape;

} // verus!

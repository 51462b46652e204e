use vstd::prelude::*;

verus! {

use crate::shape::ShapeType;
use crate::shape::{Shape, ShapeGrid, spec_shape, shape_cell};
use crate::stack::{Stack, sat_add_u64};

/// The kind of the piece's most recent movement; consumed by T-spin
/// detection.
#[derive(Clone, Copy, Debug, PartialEq, Eq, Structural)]
pub enum Movement {
    Idle,
    Shift,
    Rotate,
}

/// The active falling tetromino: its geometry, grid position, rotation
/// state, last movement and how long it has rested on the floor
/// (microseconds).
pub struct Piece {
    pub shape: Shape,
    pub x: i32,
    pub y: i32,
    pub rotation: usize,
    pub last_movement: Movement,
    pub locking: u64,
}

/// Some cell of every rotation mask is non-zero.
pub proof fn lemma_shape_mask_nonempty(t: ShapeType, rot: int)
    requires
        0 <= rot < 4,
    ensures
        exists|r: int, c: int|
            0 <= r < 4 && 0 <= c < 4 && #[trigger] shape_cell(t, rot, r, c) != 0,
{
    if t == ShapeType::I {
        if rot == 0 {
            assert(shape_cell(t, rot, 1, 1) != 0);
        } else if rot == 1 {
            assert(shape_cell(t, rot, 1, 2) != 0);
        } else if rot == 2 {
            assert(shape_cell(t, rot, 2, 1) != 0);
        } else {
            assert(shape_cell(t, rot, 1, 1) != 0);
        }
    } else {
        if rot == 0 {
            assert(shape_cell(t, rot, 1, 1) != 0);
        } else if rot == 1 {
            assert(shape_cell(t, rot, 1, 1) != 0);
        } else if rot == 2 {
            assert(shape_cell(t, rot, 1, 1) != 0);
        } else {
            assert(shape_cell(t, rot, 1, 1) != 0);
        }
    }
}

/// If the piece does not collide at (x, y), then (x, y) lies within a small
/// band around the grid, so the position fits comfortably in `i32`.
pub proof fn lemma_position_in_range(s: Stack, t: ShapeType, rot: int, x: int, y: int)
    requires
        s.wf(),
        0 <= rot < 4,
        !s.spec_collides(t, rot, x, y),
    ensures
        -3 <= x < s.width,
        -3 <= y < s.rows_total(),
{
    lemma_shape_mask_nonempty(t, rot);
    let (r0, c0) = choose|r0: int, c0: int|
        0 <= r0 < 4 && 0 <= c0 < 4 && #[trigger] shape_cell(t, rot, r0, c0) != 0;
    assert(0 <= x + c0 < s.width && 0 <= y + r0 < s.rows_total());
}

impl Piece {
    pub open spec fn wf(self) -> bool {
        &&& self.shape == spec_shape(self.shape.shape_type)
        &&& self.rotation < 4
    }

    /// The x position where a freshly spawned piece is centred.
    pub open spec fn spec_spawn_x(stack: Stack, t: ShapeType) -> int {
        (stack.width - spec_shape(t).grids@[0].width) / 2
    }

    /// The y position where a freshly spawned piece rests just above the
    /// visible board, inside the vanish zone.
    pub open spec fn spec_spawn_y(stack: Stack, t: ShapeType) -> int {
        stack.vanish - spec_shape(t).grids@[0].height - spec_shape(t).grids@[0].offset_y
    }

    pub fn new(shape_type: ShapeType, stack: &Stack) -> (p: Piece)
        requires
            stack.wf(),
            stack.width >= 4,
        ensures
            p.wf(),
            p.shape == spec_shape(shape_type),
            p.x == Piece::spec_spawn_x(*stack, shape_type),
            p.y == Piece::spec_spawn_y(*stack, shape_type),
            p.rotation == 0,
            p.last_movement == Movement::Idle,
            p.locking == 0,
    {
        let mut piece = Piece {
            shape: Shape::new(shape_type),
            x: 0,
            y: 0,
            rotation: 0,
            last_movement: Movement::Idle,
            locking: 0,
        };

        piece.reset(stack);
        piece
    }

    /// Moves the piece back to its spawn position and rotation.
    pub fn reset(&mut self, stack: &Stack)
        requires
            old(self).wf(),
            stack.wf(),
            stack.width >= 4,
        ensures
            final(self).shape == old(self).shape,
            final(self).x == Piece::spec_spawn_x(*stack, old(self).shape.shape_type),
            final(self).y == Piece::spec_spawn_y(*stack, old(self).shape.shape_type),
            final(self).rotation == 0,
            final(self).last_movement == Movement::Idle,
            final(self).locking == old(self).locking,
    {
        self.x = (stack.width - self.shape.grids[0].width) / 2;
        self.y = stack.vanish - self.shape.grids[0].height - self.shape.grids[0].offset_y;
        self.rotation = 0;
        self.last_movement = Movement::Idle;
    }

    /// Attempts to translate the piece by (x, y); reverts and reports
    /// `false` when the new position would collide.
    pub fn shift(&mut self, x: i32, y: i32, stack: &Stack) -> (moved: bool)
        requires
            old(self).wf(),
            stack.wf(),
        ensures
            final(self).wf(),
            moved == !stack.spec_collides(
                old(self).shape.shape_type,
                old(self).rotation as int,
                old(self).x + x,
                old(self).y + y,
            ),
            moved ==> final(self).x == old(self).x + x && final(self).y == old(self).y + y
                && *final(self) == (Piece {
                x: final(self).x,
                y: final(self).y,
                last_movement: Movement::Shift,
                ..*old(self)
            }),
            !moved ==> *final(self) == *old(self),
    {
        if stack.collision_probe(self, x, y) {
            return false;
        }

        proof {
            lemma_position_in_range(
                *stack,
                self.shape.shape_type,
                self.rotation as int,
                self.x + x,
                self.y + y,
            );
        }
        self.x = self.x + x;
        self.y = self.y + y;
        self.last_movement = Movement::Shift;
        true
    }

    /// The rotation index reached from the current one.
    pub open spec fn next_rotation(self, clockwise: bool) -> int {
        if clockwise {
            (self.rotation as int + 1) % 4
        } else {
            (self.rotation as int + 3) % 4
        }
    }

    /// The kick offsets tried from the current rotation in the given
    /// direction.
    pub open spec fn kick_list(self, clockwise: bool) -> Seq<(i32, i32)> {
        if clockwise {
            spec_shape(self.shape.shape_type).kicks@[self.rotation as int].0@
        } else {
            spec_shape(self.shape.shape_type).kicks@[self.rotation as int].1@
        }
    }

    /// Advances or retreats the rotation; when the plain rotation collides,
    /// the kick offsets are tried in order and the first that resolves the
    /// collision is taken. On failure the piece is left entirely unchanged.
    #[verifier::loop_isolation(false)]
    pub fn rotate(&mut self, clockwise: bool, stack: &Stack) -> (rotated: bool)
        requires
            old(self).wf(),
            stack.wf(),
        ensures
            final(self).wf(),
            ({
                let t = old(self).shape.shape_type;
                let nr = old(self).next_rotation(clockwise);
                let ks = old(self).kick_list(clockwise);
                let ki = spec_first_kick(*stack, t, nr, old(self).x as int, old(self).y as int, ks, 0);
                &&& (!stack.spec_collides(t, nr, old(self).x as int, old(self).y as int) ==> rotated
                    && *final(self) == (Piece {
                    rotation: nr as usize,
                    last_movement: Movement::Rotate,
                    ..*old(self)
                }))
                &&& (stack.spec_collides(t, nr, old(self).x as int, old(self).y as int) && ki >= 0
                    ==> rotated && final(self).x == old(self).x + ks[ki].0 && final(self).y == old(
                    self,
                ).y + ks[ki].1 && *final(self) == (Piece {
                    x: final(self).x,
                    y: final(self).y,
                    rotation: nr as usize,
                    last_movement: Movement::Rotate,
                    ..*old(self)
                }))
                &&& (stack.spec_collides(t, nr, old(self).x as int, old(self).y as int) && ki < 0
                    ==> !rotated && *final(self) == *old(self))
            }),
    {
        let ghost t = self.shape.shape_type;
        let ghost nr = self.next_rotation(clockwise);
        let ghost ks = self.kick_list(clockwise);
        let kicks_pair = self.shape.kicks[self.rotation];
        let kicks = if clockwise {
            kicks_pair.0
        } else {
            kicks_pair.1
        };
        let last_rotation = self.rotation;

        if clockwise && self.rotation == 3 {
            self.rotation = 0;
        } else if clockwise {
            self.rotation += 1;
        } else if self.rotation == 0 {
            self.rotation = 3;
        } else {
            self.rotation -= 1;
        }
        proof {
            assert(self.rotation == nr as usize);
            assert(kicks@ == ks);
        }

        if !stack.collision(self) {
            self.last_movement = Movement::Rotate;
            return true;
        }

        let mut k: usize = 0;
        while k < 4
            invariant
                k <= 4,
                self.wf(),
                stack.wf(),
                self.shape == old(self).shape,
                self.x == old(self).x,
                self.y == old(self).y,
                self.locking == old(self).locking,
                self.last_movement == old(self).last_movement,
                self.rotation == nr as usize,
                t == old(self).shape.shape_type,
                nr == old(self).next_rotation(clockwise),
                ks == old(self).kick_list(clockwise),
                kicks@ == ks,
                spec_first_kick(*stack, t, nr, old(self).x as int, old(self).y as int, ks, 0)
                    == spec_first_kick(*stack, t, nr, old(self).x as int, old(self).y as int, ks, k as int),
            decreases 4 - k,
        {
            let kick = kicks[k];
            if self.shift(kick.0, kick.1, stack) {
                self.last_movement = Movement::Rotate;
                proof {
                    assert(spec_first_kick(
                        *stack,
                        t,
                        nr,
                        old(self).x as int,
                        old(self).y as int,
                        ks,
                        k as int,
                    ) == k as int);
                }
                return true;
            }
            k += 1;
        }

        self.rotation = last_rotation;
        proof {
            assert(*self == *old(self));
        }
        false
    }

    /// Drops the piece as far as it goes, one row at a time; returns how
    /// many rows it fell. A drop of one or more rows clears the
    /// last-movement tag.
    #[verifier::loop_isolation(false)]
    pub fn fall(&mut self, stack: &Stack) -> (rows: i32)
        requires
            old(self).wf(),
            stack.wf(),
        ensures
            final(self).wf(),
            rows >= 0,
            final(self).shape == old(self).shape,
            final(self).x == old(self).x,
            final(self).rotation == old(self).rotation,
            final(self).locking == old(self).locking,
            final(self).y == old(self).y + rows,
            forall|d: int|
                1 <= d <= rows ==> !#[trigger] stack.spec_collides(
                    old(self).shape.shape_type,
                    old(self).rotation as int,
                    old(self).x as int,
                    old(self).y + d,
                ),
            stack.spec_collides(
                old(self).shape.shape_type,
                old(self).rotation as int,
                old(self).x as int,
                old(self).y + rows + 1,
            ),
            rows > 0 ==> final(self).last_movement == Movement::Idle,
            rows == 0 ==> *final(self) == *old(self),
    {
        let mut rows: i32 = 0;
        let mut moved = true;
        while moved
            invariant
                0 <= rows,
                self.shape == old(self).shape,
                self.x == old(self).x,
                self.rotation == old(self).rotation,
                self.locking == old(self).locking,
                self.y == old(self).y + rows,
                rows > 0 ==> self.y < stack.rows_total() && old(self).y >= -4,
                forall|d: int|
                    1 <= d <= rows ==> !#[trigger] stack.spec_collides(
                        old(self).shape.shape_type,
                        old(self).rotation as int,
                        old(self).x as int,
                        old(self).y + d,
                    ),
                rows > 0 ==> self.last_movement == Movement::Shift,
                rows == 0 ==> *self == *old(self),
                !moved ==> stack.spec_collides(
                    old(self).shape.shape_type,
                    old(self).rotation as int,
                    old(self).x as int,
                    old(self).y + rows + 1,
                ),
            decreases
                    (if moved {
                        1int
                    } else {
                        0int
                    }),
                    (if self.y > stack.rows_total() + 8 {
                        0int
                    } else {
                        stack.rows_total() + 8 - self.y
                    }),
        {
            if self.shift(0, 1, stack) {
                proof {
                    lemma_position_in_range(
                        *stack,
                        self.shape.shape_type,
                        self.rotation as int,
                        self.x as int,
                        self.y as int,
                    );
                    assert(self.y < stack.rows_total());
                    assert(old(self).y >= -4);
                    assert(rows + 1 <= stack.rows_total() + 8);
                }
                rows = rows + 1;
            } else {
                moved = false;
            }
        }

        if rows > 0 {
            self.last_movement = Movement::Idle;
        }

        rows
    }

    /// Whether the piece rests on the floor or on a filled cell: a pure
    /// probe one row below the current position.
    pub fn touching_floor(&self, stack: &Stack) -> (b: bool)
        requires
            self.wf(),
            stack.wf(),
        ensures
            b == stack.spec_collides(
                self.shape.shape_type,
                self.rotation as int,
                self.x as int,
                self.y + 1,
            ),
    {
        stack.collision_probe(self, 0, 1)
    }

    /// Advances the lock-delay timer: it runs while the piece is resting on
    /// something and resets to zero while the piece is free to fall.
    pub fn update(&mut self, dt: u64, stack: &Stack)
        requires
            old(self).wf(),
            stack.wf(),
        ensures
            *final(self) == (Piece { locking: final(self).locking, ..*old(self) }),
            final(self).locking == (if stack.spec_collides(
                old(self).shape.shape_type,
                old(self).rotation as int,
                old(self).x as int,
                old(self).y + 1,
            ) {
                sat_add_u64(old(self).locking as int, dt as int)
            } else {
                0
            }),
    {
        if self.touching_floor(stack) {
            self.locking = if dt > u64::MAX - self.locking {
                u64::MAX
            } else {
                self.locking + dt
            };
        } else {
            self.locking = 0;
        }
    }

    /// How long the piece has rested against the floor, in microseconds.
    pub fn locking(&self) -> (d: u64)
        ensures
            d == self.locking,
    {
        self.locking
    }

    pub fn shape(&self) -> (t: ShapeType)
        ensures
            t == self.shape.shape_type,
    {
        self.shape.shape_type
    }

    /// The 4x4 mask of the current rotation state.
    pub fn grid(&self) -> (g: &ShapeGrid)
        requires
            self.wf(),
        ensures
            *g == spec_shape(self.shape.shape_type).grids@[self.rotation as int],
    {
        &self.shape.grids[self.rotation]
    }

    /// Whether a corner cell around the T piece's centre counts as
    /// occupied: filled, or outside the grid.
    pub open spec fn spec_corner_occupied(stack: Stack, cx: int, cy: int) -> bool {
        !(0 <= cx < stack.width && 0 <= cy < stack.rows_total()) || stack.cells()[cy][cx] != 0
    }

    /// The three-corner T-spin rule: the piece is a T, its last movement
    /// was a rotation, and at least three of the four diagonal neighbours
    /// of its centre are occupied (cells outside the grid count as
    /// occupied).
    pub open spec fn spec_t_spin(stack: Stack, p: Piece) -> bool {
        &&& p.shape.shape_type == ShapeType::T
        &&& p.last_movement == Movement::Rotate
        &&& count_bool(Piece::spec_corner_occupied(stack, p.x as int, p.y as int)) + count_bool(
            Piece::spec_corner_occupied(stack, p.x + 2, p.y as int),
        ) + count_bool(Piece::spec_corner_occupied(stack, p.x as int, p.y + 2)) + count_bool(
            Piece::spec_corner_occupied(stack, p.x + 2, p.y + 2),
        ) >= 3
    }

    pub fn t_spin(&self, stack: &Stack) -> (b: bool)
        requires
            self.wf(),
            stack.wf(),
        ensures
            b == Piece::spec_t_spin(*stack, *self),
    {
        if !matches!(self.shape.shape_type, ShapeType::T) || !matches!(
            self.last_movement,
            Movement::Rotate,
        ) {
            return false;
        }

        let x = self.x as i64;
        let y = self.y as i64;

        let mut occupied: i32 = 0;

        if corner_occupied(stack, x, y) {
            occupied += 1;
        }
        if corner_occupied(stack, x + 2, y) {
            occupied += 1;
        }
        if corner_occupied(stack, x, y + 2) {
            occupied += 1;
        }
        if corner_occupied(stack, x + 2, y + 2) {
            occupied += 1;
        }

        occupied >= 3
    }
}

/// 1 for true, 0 for false; used to count occupied corners.
pub open spec fn count_bool(b: bool) -> int {
    if b {
        1
    } else {
        0
    }
}

/// The index of the first kick offset, from position `i` on, that resolves
/// the collision; -1 when none does.
pub open spec fn spec_first_kick(
    stack: Stack,
    t: ShapeType,
    nr: int,
    x: int,
    y: int,
    ks: Seq<(i32, i32)>,
    i: int,
) -> int
    decreases ks.len() - i,
{
    if i < 0 || i >= ks.len() {
        -1
    } else if !stack.spec_collides(t, nr, x + ks[i].0, y + ks[i].1) {
        i
    } else {
        spec_first_kick(stack, t, nr, x, y, ks, i + 1)
    }
}

fn corner_occupied(stack: &Stack, cx: i64, cy: i64) -> (b: bool)
    requires
        stack.wf(),
    ensures
        b == Piece::spec_corner_occupied(*stack, cx as int, cy as int),
{
    if cx < 0 || cx >= stack.width as i64 || cy < 0 || cy >= stack.height as i64
        + stack.vanish as i64 {
        true
    } else {
        stack.grid[cy as usize][cx as usize] != 0
    }
}

} // verus!

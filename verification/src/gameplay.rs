use vstd::prelude::*;

verus! {

use std::collections::VecDeque;

use crate::action::Action;
use crate::bag::{Bag, bag_code_at, type_of_code};
use crate::holder::Holder;
use crate::piece::{Movement, Piece, spec_first_kick};
use crate::replay::{ReplayData, TimedAction};
use crate::score::{Score, sat_i32};
use crate::shape::{ShapeType, spec_shape};
use crate::stack::{DestroyedBlock, Locked, Stack, sat_add_u64, spec_full_rows};

/// One simulated second, in the microsecond unit every timer uses.
pub const COUNTDOWN_STEP: u64 = 1_000_000;

/// The numeric parameters of a game; every duration is in microseconds.
#[derive(Copy, Clone, Debug, PartialEq, Eq, Structural)]
pub struct GameplayConfig {
    pub fall_interval: u64,
    pub lock_delay: u64,
    pub clear_delay: u64,
    pub entry_delay: u64,
}

/// The ready-set-go countdown shown before a game accepts input.
#[derive(Copy, Clone, Debug, PartialEq, Eq, Structural)]
pub enum Countdown {
    Waiting,
    Ready,
    Finished,
}

/// The gameplay orchestrator: the state machine that drains queued
/// `Action`s each tick and drives the stack, piece, bag, holder and score
/// through the piece lifecycle.
pub struct Gameplay {
    pub interactive: bool,
    pub action_duration: u64,
    pub actions: VecDeque<Action>,
    pub replay: ReplayData,
    pub stack: Stack,
    pub bag: Bag,
    pub piece: Piece,
    pub piece_visible: bool,
    pub holder: Holder,
    pub score: Score,
    pub game_over: bool,
    pub falling: u64,
    pub fall_interval: u64,
    pub piece_entering: Option<u64>,
    pub countdown: Countdown,
    pub countdown_switch: u64,
    pub config: GameplayConfig,
}

/// The fall timer after a successful move of a resting piece: the piece
/// gets a fresh interval (minus any overshoot) before gravity pulls again.
pub open spec fn spec_reset_fall(falling: int, fall_interval: int) -> int {
    if falling > fall_interval {
        falling - fall_interval
    } else {
        0
    }
}

/// A freshly spawned piece of the given kind.
pub open spec fn piece_spawn(stack: Stack, t: ShapeType) -> Piece {
    Piece {
        shape: spec_shape(t),
        x: Piece::spec_spawn_x(stack, t) as i32,
        y: Piece::spec_spawn_y(stack, t) as i32,
        rotation: 0,
        last_movement: Movement::Idle,
        locking: 0,
    }
}

/// The two gameplays agree on every observable part of the simulation
/// state; values that merely differ in allocation (queues, grids) are
/// compared by contents.
pub open spec fn obs_eq(a: Gameplay, b: Gameplay) -> bool {
    &&& a.interactive == b.interactive
    &&& a.action_duration == b.action_duration
    &&& a.actions@ == b.actions@
    &&& a.replay.seed@ == b.replay.seed@
    &&& a.replay.actions@ == b.replay.actions@
    &&& a.stack.width == b.stack.width
    &&& a.stack.height == b.stack.height
    &&& a.stack.vanish == b.stack.vanish
    &&& a.stack.cells() == b.stack.cells()
    &&& a.stack.clearing_view() == b.stack.clearing_view()
    &&& a.stack.is_game_over() == b.stack.is_game_over()
    &&& a.bag.seed@ == b.bag.seed@
    &&& a.bag.popped@ == b.bag.popped@
    &&& a.piece.shape.shape_type == b.piece.shape.shape_type
    &&& a.piece.x == b.piece.x
    &&& a.piece.y == b.piece.y
    &&& a.piece.rotation == b.piece.rotation
    &&& a.piece.last_movement == b.piece.last_movement
    &&& a.piece.locking == b.piece.locking
    &&& a.piece_visible == b.piece_visible
    &&& a.holder == b.holder
    &&& a.score == b.score
    &&& a.game_over == b.game_over
    &&& a.falling == b.falling
    &&& a.fall_interval == b.fall_interval
    &&& a.piece_entering == b.piece_entering
    &&& a.countdown == b.countdown
    &&& a.countdown_switch == b.countdown_switch
    &&& a.config == b.config
}

/// The fields that no movement action ever touches.
pub open spec fn move_frame(pre: Gameplay, post: Gameplay) -> bool {
    &&& post.interactive == pre.interactive
    &&& post.action_duration == pre.action_duration
    &&& post.replay == pre.replay
    &&& post.stack == pre.stack
    &&& post.bag == pre.bag
    &&& post.piece_visible == pre.piece_visible
    &&& post.holder == pre.holder
    &&& post.game_over == pre.game_over
    &&& post.fall_interval == pre.fall_interval
    &&& post.piece_entering == pre.piece_entering
    &&& post.countdown == pre.countdown
    &&& post.countdown_switch == pre.countdown_switch
    &&& post.config == pre.config
}

/// A sideways or downward step: the piece moves when the target is free,
/// and a move that leaves the piece resting refreshes the fall timer.
pub open spec fn rel_shift(pre: Gameplay, post: Gameplay, dx: int, dy: int, down: bool) -> bool {
    let pc = pre.piece;
    let t = pc.shape.shape_type;
    let rot = pc.rotation as int;
    let moved = !pre.stack.spec_collides(t, rot, pc.x + dx, pc.y + dy);
    &&& move_frame(pre, post)
    &&& post.score == pre.score
    &&& post.actions == pre.actions
    &&& (if moved {
        &&& post.piece == (Piece {
            x: (pc.x + dx) as i32,
            y: (pc.y + dy) as i32,
            last_movement: Movement::Shift,
            ..pc
        })
        &&& (if down || pre.stack.spec_collides(t, rot, pc.x + dx, pc.y + dy + 1) {
            post.falling == spec_reset_fall(pre.falling as int, pre.fall_interval as int)
        } else {
            post.falling == pre.falling
        })
    } else {
        post.piece == pc && post.falling == pre.falling
    })
}

/// A rotation attempt: the plain turn, or the first kick that fits, or no
/// change at all; a successful turn of a resting piece refreshes the fall
/// timer.
pub open spec fn rel_rotate(pre: Gameplay, post: Gameplay, clockwise: bool) -> bool {
    let pc = pre.piece;
    let t = pc.shape.shape_type;
    let nr = pc.next_rotation(clockwise);
    let ks = pc.kick_list(clockwise);
    let ki = spec_first_kick(pre.stack, t, nr, pc.x as int, pc.y as int, ks, 0);
    let naive = !pre.stack.spec_collides(t, nr, pc.x as int, pc.y as int);
    &&& move_frame(pre, post)
    &&& post.score == pre.score
    &&& post.actions == pre.actions
    &&& (if naive {
        post.piece == (Piece { rotation: nr as usize, last_movement: Movement::Rotate, ..pc })
    } else if ki >= 0 {
        post.piece == (Piece {
            x: (pc.x + ks[ki].0) as i32,
            y: (pc.y + ks[ki].1) as i32,
            rotation: nr as usize,
            last_movement: Movement::Rotate,
            ..pc
        })
    } else {
        post.piece == pc
    })
    &&& (if (naive || ki >= 0) && pre.stack.spec_collides(
        t,
        nr,
        post.piece.x as int,
        post.piece.y + 1,
    ) {
        post.falling == spec_reset_fall(pre.falling as int, pre.fall_interval as int)
    } else {
        post.falling == pre.falling
    })
}

/// The piece falls `rows` steps and stops on the first obstructed row.
pub open spec fn is_drop_count(pre: Gameplay, rows: int) -> bool {
    let pc = pre.piece;
    let t = pc.shape.shape_type;
    let rot = pc.rotation as int;
    &&& rows >= 0
    &&& forall|d: int|
        1 <= d <= rows ==> !#[trigger] pre.stack.spec_collides(t, rot, pc.x as int, pc.y + d)
    &&& pre.stack.spec_collides(t, rot, pc.x as int, pc.y + rows + 1)
}

/// A soft drop: the piece falls to the floor, one point per row, and the
/// fall timer refreshes if anything moved.
pub open spec fn rel_soft_drop(pre: Gameplay, post: Gameplay, rows: int) -> bool {
    let pc = pre.piece;
    &&& is_drop_count(pre, rows)
    &&& move_frame(pre, post)
    &&& post.actions == pre.actions
    &&& (if rows > 0 {
        &&& post.piece == (Piece { y: (pc.y + rows) as i32, last_movement: Movement::Idle, ..pc })
        &&& post.falling == spec_reset_fall(pre.falling as int, pre.fall_interval as int)
        &&& post.score == (Score { score: sat_i32(pre.score.score + rows) as i32, ..pre.score })
    } else {
        post.piece == pc && post.falling == pre.falling && post.score == pre.score
    })
}

/// A hard drop: the piece falls to the floor, two points per row, and an
/// interactive game locks it at once.
pub open spec fn rel_hard_drop(pre: Gameplay, post: Gameplay, rows: int) -> bool {
    let pc = pre.piece;
    &&& is_drop_count(pre, rows)
    &&& move_frame(pre, post)
    &&& post.falling == pre.falling
    &&& (if rows > 0 {
        post.piece == (Piece { y: (pc.y + rows) as i32, last_movement: Movement::Idle, ..pc })
    } else {
        post.piece == pc
    })
    &&& post.score == (Score { score: sat_i32(pre.score.score + 2 * rows) as i32, ..pre.score })
    &&& (if pre.interactive {
        post.actions@ == seq![Action::LockPiece] + pre.actions@
    } else {
        post.actions == pre.actions
    })
}

/// What one movement action does to the state.
pub open spec fn rel_move(pre: Gameplay, post: Gameplay, action: Action) -> bool {
    match action {
        Action::MoveRight => rel_shift(pre, post, 1, 0, false),
        Action::MoveLeft => rel_shift(pre, post, -1, 0, false),
        Action::MoveDown => rel_shift(pre, post, 0, 1, true),
        Action::RotateClockwise => rel_rotate(pre, post, true),
        Action::RotateCounterClockwise => rel_rotate(pre, post, false),
        Action::SoftDrop => exists|rows: int| #[trigger] rel_soft_drop(pre, post, rows),
        Action::HardDrop => exists|rows: int| #[trigger] rel_hard_drop(pre, post, rows),
        _ => post == pre,
    }
}

/// The fields that no queued action ever touches.
pub open spec fn proc_frame(pre: Gameplay, post: Gameplay) -> bool {
    &&& post.interactive == pre.interactive
    &&& post.action_duration == pre.action_duration
    &&& post.replay == pre.replay
    &&& post.fall_interval == pre.fall_interval
    &&& post.countdown == pre.countdown
    &&& post.countdown_switch == pre.countdown_switch
    &&& post.config == pre.config
}

/// What processing one queued action does to the state, and whether the
/// drain loop goes on (`cont`) afterwards. This is the orchestrator's
/// transition table.
pub open spec fn rel_process(pre: Gameplay, post: Gameplay, action: Action, cont: bool) -> bool {
    match action {
        Action::HoldPiece => {
            let res = pre.holder.spec_hold_result(pre.bag.seed@, pre.bag.popped@);
            &&& cont == true
            &&& proc_frame(pre, post)
            &&& post.stack == pre.stack
            &&& post.score == pre.score
            &&& post.actions == pre.actions
            &&& post.falling == pre.falling
            &&& post.game_over == pre.game_over
            &&& post.piece_visible == pre.piece_visible
            &&& post.piece_entering == pre.piece_entering
            &&& post.holder == pre.holder.spec_hold_state(pre.piece.shape.shape_type)
            &&& post.bag.seed@ == pre.bag.seed@
            &&& post.bag.popped@ == (if !pre.holder.locked && pre.holder.shape is None {
                pre.bag.popped@ + 1
            } else {
                pre.bag.popped@
            })
            &&& (match res {
                Option::Some(shape) => post.piece == piece_spawn(pre.stack, shape),
                Option::None => post.piece == pre.piece && post.bag == pre.bag,
            })
        },
        Action::FallPiece => {
            let pc = pre.piece;
            let moved = !pre.stack.spec_collides(
                pc.shape.shape_type,
                pc.rotation as int,
                pc.x as int,
                pc.y + 1,
            );
            &&& cont == true
            &&& proc_frame(pre, post)
            &&& post.stack == pre.stack
            &&& post.bag == pre.bag
            &&& post.holder == pre.holder
            &&& post.score == pre.score
            &&& post.falling == pre.falling
            &&& post.game_over == pre.game_over
            &&& post.piece_visible == pre.piece_visible
            &&& post.piece_entering == pre.piece_entering
            &&& (if moved {
                &&& post.piece == (Piece {
                    y: (pc.y + 1) as i32,
                    last_movement: Movement::Shift,
                    ..pc
                })
                &&& post.actions == pre.actions
            } else {
                &&& post.piece == pc
                &&& (if pre.interactive {
                    post.actions@ == seq![Action::LockPiece] + pre.actions@
                } else {
                    post.actions == pre.actions
                })
            })
        },
        Action::LockPiece => {
            let pc = pre.piece;
            let t = pc.shape.shape_type;
            let rot = pc.rotation as int;
            let coll = pre.stack.spec_lock_collision(t, rot, pc.x as int, pc.y as int);
            let placed = Stack::spec_place(pre.stack.cells(), t, rot, pc.x as int, pc.y as int);
            let full = spec_full_rows(placed);
            &&& proc_frame(pre, post)
            &&& post.bag == pre.bag
            &&& post.holder == pre.holder
            &&& post.piece == pre.piece
            &&& post.falling == pre.falling
            &&& post.game_over == pre.game_over
            &&& post.stack.width == pre.stack.width
            &&& post.stack.height == pre.stack.height
            &&& post.stack.vanish == pre.stack.vanish
            &&& post.stack.is_game_over() == pre.stack.is_game_over()
            &&& post.stack.cells() == placed
            &&& (if coll {
                &&& cont == true
                &&& post.stack.clearing_view() == pre.stack.clearing_view()
                &&& post.score == pre.score
                &&& post.piece_visible == pre.piece_visible
                &&& post.piece_entering == pre.piece_entering
                &&& (if pre.interactive {
                    post.actions@ == seq![Action::GameOver] + pre.actions@
                } else {
                    post.actions == pre.actions
                })
            } else {
                let rows = full.len() as int;
                let tspin = Piece::spec_t_spin(post.stack, pre.piece);
                &&& cont == false
                &&& post.actions == pre.actions
                &&& post.piece_visible == false
                &&& post.piece_entering == Some(0u64)
                &&& (if rows > 0 {
                    &&& post.stack.clearing_view() == Some(
                        (full, 0int, pre.config.clear_delay as int),
                    )
                    &&& post.score.btb == pre.score.spec_lock_btb(rows, tspin)
                    &&& post.score.combo == (match pre.score.combo {
                        Option::Some(c) => Option::Some(sat_i32(c + 1) as i32),
                        Option::None => Option::Some(0i32),
                    })
                    &&& post.score.last_clear == sat_i32(pre.score.spec_lock_gain(rows, tspin))
                    &&& post.score.score == sat_i32(
                        pre.score.score + pre.score.spec_lock_gain(rows, tspin),
                    )
                } else {
                    &&& post.stack.clearing_view() == pre.stack.clearing_view()
                    &&& post.score == (Score { combo: None, ..pre.score })
                })
            })
        },
        Action::GameOver => {
            &&& cont == false
            &&& proc_frame(pre, post)
            &&& post.bag == pre.bag
            &&& post.holder == pre.holder
            &&& post.piece == pre.piece
            &&& post.score == pre.score
            &&& post.falling == pre.falling
            &&& post.piece_visible == pre.piece_visible
            &&& post.piece_entering == pre.piece_entering
            &&& post.actions == pre.actions
            &&& post.game_over == true
            &&& post.stack.width == pre.stack.width
            &&& post.stack.height == pre.stack.height
            &&& post.stack.vanish == pre.stack.vanish
            &&& post.stack.cells() == pre.stack.cells()
            &&& post.stack.is_game_over() == true
            &&& post.stack.clearing_view() == Some(
                (crate::stack::spec_occupied_rows(pre.stack.cells()), 0int, 0int),
            )
        },
        _ => {
            &&& cont == true
            &&& rel_move(pre, post, action)
        },
    }
}

impl Gameplay {
    pub open spec fn wf(self) -> bool {
        &&& self.stack.wf()
        &&& self.stack.width >= 4
        &&& self.bag.wf()
        &&& self.piece.wf()
    }

    pub fn new(config: GameplayConfig, interactive: bool, seed: &[u8; 32]) -> (g: Gameplay)
        ensures
            g.wf(),
            g.interactive == interactive,
            g.config == config,
            g.fall_interval == config.fall_interval,
            g.action_duration == 0,
            g.actions@ == Seq::<Action>::empty(),
            g.replay.seed@ == seed@,
            g.replay.actions@ == Seq::<TimedAction>::empty(),
            g.stack.width == 10 && g.stack.height == 20 && g.stack.vanish == 20,
            g.stack.cells() == crate::stack::empty_grid(10, 40),
            g.stack.clearing_view() is None,
            !g.stack.is_game_over(),
            g.bag.seed@ == seed@,
            g.bag.popped@ == 1,
            g.piece == piece_spawn(g.stack, type_of_code(bag_code_at(seed@, 0))),
            g.piece_visible,
            g.holder.shape is None && !g.holder.locked,
            g.score.score == 0 && g.score.last_clear == 0 && g.score.combo is None
                && !g.score.btb,
            !g.game_over,
            g.falling == 0,
            g.piece_entering is None,
            g.countdown == Countdown::Waiting,
            g.countdown_switch == 0,
    {
        let stack = Stack::new(10, 20, 20);
        let mut bag = Bag::new(seed);
        let first = bag.pop();
        let piece = Piece::new(first, &stack);
        let replay = ReplayData::new(seed);

        let g = Gameplay {
            interactive,
            action_duration: 0,
            actions: VecDeque::new(),
            replay,
            stack,
            bag,
            piece,
            piece_visible: true,
            holder: Holder::default(),
            score: Score::new(),
            game_over: false,
            falling: 0,
            fall_interval: config.fall_interval,
            piece_entering: None,
            countdown: Countdown::Waiting,
            countdown_switch: 0,
            config,
        };
        proof {
            assert(g.piece == piece_spawn(g.stack, type_of_code(bag_code_at(seed@, 0))));
        }
        g
    }

    /// Enqueues one action: synthetic follow-ups go to the front so they
    /// are handled before any pending player input.
    pub fn action(&mut self, action: Action, immediate: bool)
        ensures
            *final(self) == (Gameplay { actions: final(self).actions, ..*old(self) }),
            final(self).actions@ == (if immediate {
                seq![action] + old(self).actions@
            } else {
                old(self).actions@.push(action)
            }),
    {
        if immediate {
            self.actions.push_front(action);
        } else {
            self.actions.push_back(action);
        }
        proof {
            if immediate {
                assert(final(self).actions@ =~= seq![action] + old(self).actions@);
            }
        }
    }

    /// Appends a tick's worth of player input to the queue, in order.
    pub fn actions(&mut self, actions: &[Action])
        ensures
            *final(self) == (Gameplay { actions: final(self).actions, ..*old(self) }),
            final(self).actions@ == old(self).actions@ + actions@,
    {
        let mut i: usize = 0;
        while i < actions.len()
            invariant
                i <= actions@.len(),
                *self == (Gameplay { actions: self.actions, ..*old(self) }),
                self.actions@ == old(self).actions@ + actions@.take(i as int),
            decreases actions@.len() - i,
        {
            let a = actions[i];
            self.actions.push_back(a);
            proof {
                assert(self.actions@ =~= old(self).actions@ + actions@.take(i as int + 1));
            }
            i += 1;
        }
        proof {
            assert(actions@.take(actions@.len() as int) =~= actions@);
        }
    }

    pub fn replay_data(&self) -> (r: &ReplayData)
        ensures
            r == &self.replay,
    {
        &self.replay
    }

    pub fn score(&self) -> (s: i32)
        ensures
            s == self.score.score,
    {
        self.score.score()
    }

    pub fn game_over(&self) -> (b: bool)
        ensures
            b == self.game_over,
    {
        self.game_over
    }

    /// The game ignores input while it is over, while the countdown still
    /// runs, and while a row clear is animating.
    pub open spec fn spec_paused(self) -> bool {
        self.game_over || self.countdown != Countdown::Finished || self.stack.clearing_view()
            is Some
    }

    pub fn paused(&self) -> (b: bool)
        ensures
            b == self.spec_paused(),
    {
        self.game_over || !matches!(self.countdown, Countdown::Finished) || self.stack.blocked()
    }

    /// Refreshes the gravity timer after a move that leaves the piece
    /// resting, keeping any overshoot beyond one interval.
    fn reset_fall(&mut self)
        ensures
            *final(self) == (Gameplay { falling: final(self).falling, ..*old(self) }),
            final(self).falling == spec_reset_fall(
                old(self).falling as int,
                old(self).fall_interval as int,
            ),
    {
        if self.falling > self.fall_interval {
            self.falling = self.falling - self.fall_interval
        } else {
            self.falling = 0;
        }
    }

    /// Applies one movement or rotation action to the piece, with the
    /// lock-delay bookkeeping the rules ask for.
    fn process_movement_action(&mut self, action: Action)
        requires
            old(self).wf(),
        ensures
            final(self).wf(),
            rel_move(*old(self), *final(self), action),
    {
        match action {
            Action::MoveRight => {
                let moved = self.piece.shift(1, 0, &self.stack);
                if moved && self.piece.touching_floor(&self.stack) {
                    self.reset_fall();
                }
            },
            Action::MoveLeft => {
                let moved = self.piece.shift(-1, 0, &self.stack);
                if moved && self.piece.touching_floor(&self.stack) {
                    self.reset_fall();
                }
            },
            Action::MoveDown => {
                if self.piece.shift(0, 1, &self.stack) {
                    self.reset_fall();
                }
            },
            Action::RotateClockwise => {
                let rotated = self.piece.rotate(true, &self.stack);
                if rotated && self.piece.touching_floor(&self.stack) {
                    self.reset_fall();
                }
            },
            Action::RotateCounterClockwise => {
                let rotated = self.piece.rotate(false, &self.stack);
                if rotated && self.piece.touching_floor(&self.stack) {
                    self.reset_fall();
                }
            },
            Action::SoftDrop => {
                let rows = self.piece.fall(&self.stack);
                if rows > 0 {
                    self.reset_fall();
                    self.score.soft_drop(rows);
                }
                proof {
                    assert(rel_soft_drop(*old(self), *self, rows as int));
                }
            },
            Action::HardDrop => {
                let rows = self.piece.fall(&self.stack);
                self.score.hard_drop(rows);

                if self.interactive {
                    self.action(Action::LockPiece, true);
                }
                proof {
                    assert(rel_hard_drop(*old(self), *self, rows as int));
                }
            },
            _ => (),
        }
    }

    /// Dispatches one queued action and reports whether the drain loop
    /// should keep going: a successful lock and a game over both end the
    /// tick's action processing.
    fn process_action(&mut self, action: Action) -> (cont: bool)
        requires
            old(self).wf(),
        ensures
            final(self).wf(),
            rel_process(*old(self), *final(self), action, cont),
    {
        match action {
            Action::HoldPiece => {
                let shape = self.piece.shape();
                if let Some(swapped) = self.holder.hold(shape, &mut self.bag) {
                    self.piece = Piece::new(swapped, &self.stack);
                }
                proof {
                    assert(rel_process(*old(self), *self, action, true));
                }
                true
            },
            Action::FallPiece => {
                if !self.piece.shift(0, 1, &self.stack) && self.interactive {
                    self.action(Action::LockPiece, true);
                }
                true
            },
            Action::LockPiece => {
                match self.stack.lock(&self.piece, self.config.clear_delay) {
                    Locked::Collision => {
                        if self.interactive {
                            self.action(Action::GameOver, true);
                        }
                        proof {
                            assert(rel_process(*old(self), *self, action, true));
                        }
                        true
                    },
                    Locked::Success(rows) => {
                        proof {
                            crate::stack::lemma_full_rows_bounds(
                                self.stack.cells(),
                                self.stack.cells().len() as int,
                            );
                        }
                        if rows > 0 {
                            let t_spin = self.piece.t_spin(&self.stack);
                            self.score.lock(rows, t_spin);
                        } else {
                            self.score.reset_combo();
                        }

                        self.piece_entering = Some(0);
                        self.piece_visible = false;
                        proof {
                            assert(rel_process(*old(self), *self, action, false));
                        }
                        false
                    },
                }
            },
            Action::GameOver => {
                self.game_over = true;
                self.stack.game_over();
                false
            },
            Action::MoveLeft
            | Action::MoveRight
            | Action::MoveDown
            | Action::RotateClockwise
            | Action::RotateCounterClockwise
            | Action::SoftDrop
            | Action::HardDrop => {
                self.process_movement_action(action);
                true
            },
        }
    }

    /// One simulation tick of `dt` microseconds: advances the countdown and
    /// the clear animation, drains the pending actions (logging each into
    /// the replay), runs the lock-delay timer, and moves the piece
    /// lifecycle along through the entry delay or gravity. Returns the
    /// cells destroyed by a finished row clear, for the renderer.
    #[verifier::loop_isolation(false)]
    #[verifier::rlimit(60)]
    pub fn update(&mut self, dt: u64) -> (out: Vec<DestroyedBlock>)
        requires
            old(self).wf(),
        ensures
            final(self).wf(),
            rel_update(*old(self), *final(self), dt as int, out@),
    {
        if !matches!(self.countdown, Countdown::Finished) {
            self.countdown_switch = sat_add(self.countdown_switch, dt);
            if self.countdown_switch >= COUNTDOWN_STEP {
                self.countdown_switch = 0;
                self.countdown = match self.countdown {
                    Countdown::Waiting => Countdown::Ready,
                    Countdown::Ready => Countdown::Finished,
                    Countdown::Finished => Countdown::Finished,
                };
            }
        }

        let out = self.stack.update(dt);
        let ghost g1 = *self;

        if self.paused() {
            proof {
                assert(rel_update_chain(*old(self), g1, g1, g1, 0, *self, dt as int, out@));
            }
            return out;
        }

        self.action_duration = sat_add(self.action_duration, dt);
        let ghost gd = *self;
        let ghost mut n: nat = 0;

        if self.piece_entering.is_none() {
            let mut running = self.actions.len() > 0;
            while running
                invariant
                    self.wf(),
                    running ==> self.actions@.len() > 0,
                    running ==> forall|b: Gameplay, m: nat| #[trigger]
                        drain_rel(*self, b, m) ==> drain_rel(gd, b, (m + n) as nat),
                    !running ==> drain_rel(gd, *self, n) || (*self == gd && n == 0
                        && gd.actions@.len() == 0),
                decreases
                        (if running {
                            1int
                        } else {
                            0int
                        }),
                        queue_weight(self.actions@),
            {
                let ghost prev = *self;
                let act = match self.actions.pop_front() {
                    Some(a) => a,
                    None => Action::GameOver,
                };
                self.replay.add(act, self.action_duration);
                self.action_duration = 0;
                let ghost mid0 = *self;
                proof {
                    assert(mid0.actions@ =~= prev.actions@.skip(1));
                    assert(popped_logged(prev, mid0));
                }

                let cont = self.process_action(act);
                proof {
                    n = n + 1;
                    lemma_weight_after_process(mid0, *self, act, cont);
                    assert(queue_weight(prev.actions@) == action_weight(act) + queue_weight(
                        mid0.actions@,
                    ));
                    lemma_queue_weight_nonneg(self.actions@);
                }
                running = cont && self.actions.len() > 0;
                proof {
                    if cont {
                        assert forall|b: Gameplay, m: nat| #[trigger]
                            drain_rel(*self, b, m) implies drain_rel(gd, b, (m + n) as nat) by {
                            assert(popped_logged(prev, mid0));
                            assert(rel_process(mid0, *self, prev.actions@[0], cont));
                            assert(drain_rel(prev, b, (m + 1) as nat));
                            assert(drain_rel(gd, b, ((m + 1) + (n - 1)) as nat));
                        }
                        if self.actions.len() == 0 {
                            assert(drain_rel(*self, *self, 0));
                            assert(drain_rel(gd, *self, n));
                        }
                    } else {
                        assert(popped_logged(prev, mid0));
                        assert(rel_process(mid0, *self, prev.actions@[0], cont));
                        assert(drain_rel(prev, *self, 1));
                        assert(drain_rel(gd, *self, n));
                    }
                }
            }
        }
        let ghost g2 = *self;

        self.piece.update(dt, &self.stack);
        let ghost g3 = *self;

        if self.piece_entering.is_some() {
            let e = match self.piece_entering {
                Some(e) => e,
                None => 0,
            };
            let e2 = sat_add(e, dt);
            if e2 >= self.config.entry_delay {
                self.piece_entering = None;
                self.piece_visible = true;

                let next = self.bag.pop();
                self.piece = Piece::new(next, &self.stack);
                if self.stack.collision(&self.piece) && self.interactive {
                    self.action(Action::GameOver, true);
                } else {
                    self.reset_fall();
                    self.holder.unlock();
                }
            } else {
                self.piece_entering = Some(e2);
            }
        } else if self.interactive {
            if self.piece.locking() > self.config.lock_delay {
                self.action(Action::LockPiece, true);
            } else {
                self.falling = sat_add(self.falling, dt);
                if self.falling >= self.fall_interval {
                    self.falling = self.falling - self.fall_interval;
                    self.action(Action::FallPiece, true);
                }
            }
        }

        proof {
            assert(rel_tail(g3, *self, dt as int));
            assert(rel_update_chain(*old(self), g1, g2, g3, n, *self, dt as int, out@));
        }
        out
    }
}

/// `a + b` in `u64`, stopping at the top of the range.
fn sat_add(a: u64, b: u64) -> (r: u64)
    ensures
        r == sat_add_u64(a as int, b as int),
{
    if b > u64::MAX - a {
        u64::MAX
    } else {
        a + b
    }
}

/// The countdown state one second later.
pub open spec fn next_countdown(c: Countdown) -> Countdown {
    match c {
        Countdown::Waiting => Countdown::Ready,
        Countdown::Ready => Countdown::Finished,
        Countdown::Finished => Countdown::Finished,
    }
}

/// What `Stack::update` does in one tick, as a relation between the stack
/// before and after, with the destroyed cells it reports.
pub open spec fn rel_stack_update(s0: Stack, s1: Stack, dt: int, out: Seq<DestroyedBlock>) -> bool {
    &&& s1.width == s0.width
    &&& s1.height == s0.height
    &&& s1.vanish == s0.vanish
    &&& s1.is_game_over() == s0.is_game_over()
    &&& (match s0.clearing_view() {
        Option::None => {
            &&& s1.cells() == s0.cells()
            &&& s1.clearing_view() is None
            &&& out == Seq::<DestroyedBlock>::empty()
        },
        Option::Some((rows, cur, max)) => {
            let cur2 = sat_add_u64(cur, dt);
            if cur2 < max {
                &&& s1.cells() == s0.cells()
                &&& s1.clearing_view() == Some((rows, cur2, max))
                &&& out == Seq::<DestroyedBlock>::empty()
            } else {
                &&& s1.cells() == crate::stack::spec_collapse(s0.cells(), rows)
                &&& s1.clearing_view() is None
                &&& out == crate::stack::spec_destroyed(s0.cells(), rows, s0.width as int)
            }
        },
    })
}

/// The state after the front action is popped and written to the replay
/// log with the accumulated duration, which then resets.
pub open spec fn popped_logged(a: Gameplay, b: Gameplay) -> bool {
    &&& a.actions@.len() > 0
    &&& b.actions@ == a.actions@.skip(1)
    &&& b.replay.seed == a.replay.seed
    &&& b.replay.actions@ == a.replay.actions@.push(
        TimedAction { action: a.actions@[0], duration: a.action_duration },
    )
    &&& b.action_duration == 0
    &&& b.interactive == a.interactive
    &&& b.stack == a.stack
    &&& b.bag == a.bag
    &&& b.piece == a.piece
    &&& b.piece_visible == a.piece_visible
    &&& b.holder == a.holder
    &&& b.score == a.score
    &&& b.game_over == a.game_over
    &&& b.falling == a.falling
    &&& b.fall_interval == a.fall_interval
    &&& b.piece_entering == a.piece_entering
    &&& b.countdown == a.countdown
    &&& b.countdown_switch == a.countdown_switch
    &&& b.config == a.config
}

/// The drain loop, as a relation: exactly `n` queued actions are popped,
/// logged and processed; the loop ends when the queue empties or when a
/// processed action asks it to stop.
pub open spec fn drain_rel(a: Gameplay, b: Gameplay, n: nat) -> bool
    decreases n,
{
    if n == 0 {
        b == a && a.actions@.len() == 0
    } else {
        &&& a.actions@.len() > 0
        &&& exists|mid0: Gameplay, mid: Gameplay, cont: bool|
            {
                &&& #[trigger] popped_logged(a, mid0)
                &&& #[trigger] rel_process(mid0, mid, a.actions@[0], cont)
                &&& (if cont {
                    drain_rel(mid, b, (n - 1) as nat)
                } else {
                    b == mid && n == 1
                })
            }
    }
}

/// Every field but the pending-action queue agrees.
pub open spec fn eq_except_actions(a: Gameplay, b: Gameplay) -> bool {
    b == (Gameplay { actions: b.actions, ..a })
}

/// One whole tick, step by step: the countdown advances, the stack's clear
/// animation runs, and then - unless the game is paused - the queued
/// actions are drained, the lock-delay timer runs, and either the entry
/// delay or gravity moves the piece lifecycle along.
pub open spec fn rel_update_chain(
    pre: Gameplay,
    g1: Gameplay,
    g2: Gameplay,
    g3: Gameplay,
    n: nat,
    post: Gameplay,
    dt: int,
    out: Seq<DestroyedBlock>,
) -> bool {
    &&& rel_stack_update(pre.stack, g1.stack, dt, out)
    &&& (if pre.countdown != Countdown::Finished {
        let sw = sat_add_u64(pre.countdown_switch as int, dt);
        if sw >= COUNTDOWN_STEP {
            g1.countdown == next_countdown(pre.countdown) && g1.countdown_switch == 0
        } else {
            g1.countdown == pre.countdown && g1.countdown_switch == sw
        }
    } else {
        g1.countdown == pre.countdown && g1.countdown_switch == pre.countdown_switch
    })
    &&& g1.interactive == pre.interactive
    &&& g1.action_duration == pre.action_duration
    &&& g1.actions == pre.actions
    &&& g1.replay == pre.replay
    &&& g1.bag == pre.bag
    &&& g1.piece == pre.piece
    &&& g1.piece_visible == pre.piece_visible
    &&& g1.holder == pre.holder
    &&& g1.score == pre.score
    &&& g1.game_over == pre.game_over
    &&& g1.falling == pre.falling
    &&& g1.fall_interval == pre.fall_interval
    &&& g1.piece_entering == pre.piece_entering
    &&& g1.config == pre.config
    &&& (if g1.spec_paused() {
        post == g1
    } else {
        let g1b = (Gameplay {
            action_duration: sat_add_u64(g1.action_duration as int, dt) as u64,
            ..g1
        });
        &&& (if g1.piece_entering is None {
            (if g1b.actions@.len() == 0 {
                g2 == g1b && n == 0
            } else {
                drain_rel(g1b, g2, n)
            })
        } else {
            g2 == g1b && n == 0
        })
        &&& g3 == (Gameplay {
            piece: (Piece {
                locking: (if g2.stack.spec_collides(
                    g2.piece.shape.shape_type,
                    g2.piece.rotation as int,
                    g2.piece.x as int,
                    g2.piece.y + 1,
                ) {
                    sat_add_u64(g2.piece.locking as int, dt)
                } else {
                    0
                }) as u64,
                ..g2.piece
            }),
            ..g2
        })
        &&& rel_tail(g3, post, dt)
    })
}

/// The tail of a tick: the entry delay spawns the next piece when it
/// elapses, or gravity and the lock-delay timeout enqueue the synthetic
/// fall and lock actions of an interactive game.
pub open spec fn rel_tail(g3: Gameplay, post: Gameplay, dt: int) -> bool {
    match g3.piece_entering {
        Option::Some(e) => {
            let e2 = sat_add_u64(e as int, dt);
            if e2 >= g3.config.entry_delay {
                let np = piece_spawn(g3.stack, type_of_code(bag_code_at(g3.bag.seed@, g3.bag.popped@)));
                let spawn_coll = g3.stack.spec_collides(
                    np.shape.shape_type,
                    0,
                    np.x as int,
                    np.y as int,
                );
                &&& post.bag.seed@ == g3.bag.seed@
                &&& post.bag.popped@ == g3.bag.popped@ + 1
                &&& post.piece == np
                &&& post.piece_entering is None
                &&& post.piece_visible == true
                &&& post.interactive == g3.interactive
                &&& post.action_duration == g3.action_duration
                &&& post.replay == g3.replay
                &&& post.stack == g3.stack
                &&& post.score == g3.score
                &&& post.game_over == g3.game_over
                &&& post.fall_interval == g3.fall_interval
                &&& post.countdown == g3.countdown
                &&& post.countdown_switch == g3.countdown_switch
                &&& post.config == g3.config
                &&& (if spawn_coll && g3.interactive {
                    &&& post.actions@ == seq![Action::GameOver] + g3.actions@
                    &&& post.falling == g3.falling
                    &&& post.holder == g3.holder
                } else {
                    &&& post.actions == g3.actions
                    &&& post.falling == spec_reset_fall(g3.falling as int, g3.fall_interval as int)
                    &&& post.holder == (Holder { locked: false, ..g3.holder })
                })
            } else {
                post == (Gameplay { piece_entering: Some(e2 as u64), ..g3 })
            }
        },
        Option::None => {
            if g3.interactive {
                if g3.piece.locking > g3.config.lock_delay {
                    &&& eq_except_actions(g3, post)
                    &&& post.actions@ == seq![Action::LockPiece] + g3.actions@
                } else {
                    let f2 = sat_add_u64(g3.falling as int, dt);
                    if f2 >= g3.fall_interval {
                        &&& post == (Gameplay {
                            falling: post.falling,
                            actions: post.actions,
                            ..g3
                        })
                        &&& post.falling == f2 - g3.fall_interval
                        &&& post.actions@ == seq![Action::FallPiece] + g3.actions@
                    } else {
                        post == (Gameplay { falling: f2 as u64, ..g3 })
                    }
                }
            } else {
                post == g3
            }
        },
    }
}

/// One tick of the orchestrator.
pub open spec fn rel_update(pre: Gameplay, post: Gameplay, dt: int, out: Seq<DestroyedBlock>) -> bool {
    exists|g1: Gameplay, g2: Gameplay, g3: Gameplay, n: nat|
        #[trigger] rel_update_chain(pre, g1, g2, g3, n, post, dt, out)
}

/// How much queue-draining work one pending action can still cause: a
/// fall or hard drop may enqueue a lock, and a lock may enqueue the game
/// over, so the total strictly shrinks with every processed action.
pub open spec fn action_weight(a: Action) -> int {
    match a {
        Action::GameOver => 1,
        Action::LockPiece => 2,
        Action::FallPiece => 3,
        Action::HardDrop => 3,
        _ => 1,
    }
}

/// The summed weight of a pending-action queue.
pub open spec fn queue_weight(q: Seq<Action>) -> int
    decreases q.len(),
{
    if q.len() == 0 {
        0
    } else {
        action_weight(q[0]) + queue_weight(q.skip(1))
    }
}

/// Queue weights are non-negative.
pub proof fn lemma_queue_weight_nonneg(q: Seq<Action>)
    ensures
        queue_weight(q) >= 0,
    decreases q.len(),
{
    if q.len() > 0 {
        lemma_queue_weight_nonneg(q.skip(1));
        assert(action_weight(q[0]) >= 0);
    }
}

/// Prepending one action adds exactly its weight.
pub proof fn lemma_queue_weight_prepend(a: Action, q: Seq<Action>)
    ensures
        queue_weight(seq![a] + q) == action_weight(a) + queue_weight(q),
{
    let w = seq![a] + q;
    assert(w.len() == q.len() + 1);
    assert(w[0] == a);
    assert(w.skip(1) =~= q);
}

/// Processing an action leaves the queue strictly lighter than it was
/// before that action was popped from it.
pub proof fn lemma_weight_after_process(pre: Gameplay, post: Gameplay, a: Action, cont: bool)
    requires
        rel_process(pre, post, a, cont),
    ensures
        queue_weight(post.actions@) < action_weight(a) + queue_weight(pre.actions@),
{
    if post.actions == pre.actions {
        assert(action_weight(a) >= 1);
    } else {
        match a {
            Action::FallPiece => {
                lemma_queue_weight_prepend(Action::LockPiece, pre.actions@);
            },
            Action::LockPiece => {
                lemma_queue_weight_prepend(Action::GameOver, pre.actions@);
            },
            Action::HardDrop => {
                lemma_queue_weight_prepend(Action::LockPiece, pre.actions@);
            },
            _ => {},
        }
    }
}

/// The two stacks agree on everything a collision test reads.
pub open spec fn stack_geom_eq(s1: Stack, s2: Stack) -> bool {
    &&& s1.width == s2.width
    &&& s1.height == s2.height
    &&& s1.vanish == s2.vanish
    &&& s1.cells() == s2.cells()
}

/// Collision testing only reads the stack's dimensions and cells.
pub proof fn lemma_collides_congruent(s1: Stack, s2: Stack, t: ShapeType, rot: int, x: int, y: int)
    requires
        stack_geom_eq(s1, s2),
    ensures
        s1.spec_collides(t, rot, x, y) == s2.spec_collides(t, rot, x, y),
{
    if s1.spec_collides(t, rot, x, y) {
        let (r, c) = choose|r: int, c: int|
            0 <= r < 4 && 0 <= c < 4 && #[trigger] crate::shape::shape_cell(t, rot, r, c) != 0 && !(
            0 <= x + c < s1.width && 0 <= y + r < s1.rows_total() && s1.cells()[y + r][x + c] == 0);
        assert(s2.spec_collides(t, rot, x, y));
    }
    if s2.spec_collides(t, rot, x, y) {
        let (r, c) = choose|r: int, c: int|
            0 <= r < 4 && 0 <= c < 4 && #[trigger] crate::shape::shape_cell(t, rot, r, c) != 0 && !(
            0 <= x + c < s2.width && 0 <= y + r < s2.rows_total() && s2.cells()[y + r][x + c] == 0);
        assert(s1.spec_collides(t, rot, x, y));
    }
}

/// The kick search likewise only reads the stack's geometry.
pub proof fn lemma_first_kick_congruent(
    s1: Stack,
    s2: Stack,
    t: ShapeType,
    nr: int,
    x: int,
    y: int,
    ks: Seq<(i32, i32)>,
    i: int,
)
    requires
        stack_geom_eq(s1, s2),
    ensures
        spec_first_kick(s1, t, nr, x, y, ks, i) == spec_first_kick(s2, t, nr, x, y, ks, i),
    decreases ks.len() - i,
{
    if 0 <= i < ks.len() {
        lemma_collides_congruent(s1, s2, t, nr, x + ks[i].0, y + ks[i].1);
        lemma_first_kick_congruent(s1, s2, t, nr, x, y, ks, i + 1);
    }
}

/// T-spin detection likewise only reads the stack's geometry.
pub proof fn lemma_t_spin_congruent(s1: Stack, s2: Stack, p1: Piece, p2: Piece)
    requires
        stack_geom_eq(s1, s2),
        p1.shape.shape_type == p2.shape.shape_type,
        p1.x == p2.x,
        p1.y == p2.y,
        p1.last_movement == p2.last_movement,
    ensures
        Piece::spec_t_spin(s1, p1) == Piece::spec_t_spin(s2, p2),
{
}

/// Processing the same action in two observably equal states ends in
/// observably equal states, with the same continue decision.
pub proof fn lemma_process_deterministic(
    p1: Gameplay,
    q1: Gameplay,
    p2: Gameplay,
    q2: Gameplay,
    a: Action,
    c1: bool,
    c2: bool,
)
    requires
        obs_eq(p1, p2),
        p1.piece.wf(),
        p2.piece.wf(),
        rel_process(p1, q1, a, c1),
        rel_process(p2, q2, a, c2),
    ensures
        c1 == c2,
        obs_eq(q1, q2),
{
    let pc1 = p1.piece;
    let pc2 = p2.piece;
    assert(pc1.shape == pc2.shape);
    match a {
        Action::HoldPiece => {
        },
        Action::FallPiece => {
            lemma_collides_congruent(
                p1.stack,
                p2.stack,
                pc1.shape.shape_type,
                pc1.rotation as int,
                pc1.x as int,
                pc1.y + 1,
            );
        },
        Action::LockPiece => {
            lemma_collides_congruent(
                p1.stack,
                p2.stack,
                pc1.shape.shape_type,
                pc1.rotation as int,
                pc1.x as int,
                pc1.y as int,
            );
            assert(q1.stack.cells() == q2.stack.cells());
            lemma_t_spin_congruent(q1.stack, q2.stack, pc1, pc2);
        },
        Action::GameOver => {
        },
        Action::MoveRight => {
            lemma_shift_deterministic(p1, q1, p2, q2, 1, 0, false);
        },
        Action::MoveLeft => {
            lemma_shift_deterministic(p1, q1, p2, q2, -1, 0, false);
        },
        Action::MoveDown => {
            lemma_shift_deterministic(p1, q1, p2, q2, 0, 1, true);
        },
        Action::RotateClockwise => {
            lemma_rotate_deterministic(p1, q1, p2, q2, true);
        },
        Action::RotateCounterClockwise => {
            lemma_rotate_deterministic(p1, q1, p2, q2, false);
        },
        Action::SoftDrop => {
            let r1 = choose|rows: int| #[trigger] rel_soft_drop(p1, q1, rows);
            let r2 = choose|rows: int| #[trigger] rel_soft_drop(p2, q2, rows);
            lemma_drop_count_unique(p1, p2, r1, r2);
        },
        Action::HardDrop => {
            let r1 = choose|rows: int| #[trigger] rel_hard_drop(p1, q1, rows);
            let r2 = choose|rows: int| #[trigger] rel_hard_drop(p2, q2, rows);
            lemma_drop_count_unique(p1, p2, r1, r2);
        },
    }
}

/// A sideways step behaves identically in observably equal states.
proof fn lemma_shift_deterministic(
    p1: Gameplay,
    q1: Gameplay,
    p2: Gameplay,
    q2: Gameplay,
    dx: int,
    dy: int,
    down: bool,
)
    requires
        obs_eq(p1, p2),
        p1.piece.wf(),
        p2.piece.wf(),
        rel_shift(p1, q1, dx, dy, down),
        rel_shift(p2, q2, dx, dy, down),
    ensures
        obs_eq(q1, q2),
{
    let pc = p1.piece;
    assert(pc.shape == p2.piece.shape);
    lemma_collides_congruent(
        p1.stack,
        p2.stack,
        pc.shape.shape_type,
        pc.rotation as int,
        pc.x + dx,
        pc.y + dy,
    );
    lemma_collides_congruent(
        p1.stack,
        p2.stack,
        pc.shape.shape_type,
        pc.rotation as int,
        pc.x + dx,
        pc.y + dy + 1,
    );
}

/// A rotation behaves identically in observably equal states.
proof fn lemma_rotate_deterministic(
    p1: Gameplay,
    q1: Gameplay,
    p2: Gameplay,
    q2: Gameplay,
    clockwise: bool,
)
    requires
        obs_eq(p1, p2),
        p1.piece.wf(),
        p2.piece.wf(),
        rel_rotate(p1, q1, clockwise),
        rel_rotate(p2, q2, clockwise),
    ensures
        obs_eq(q1, q2),
{
    let pc = p1.piece;
    let t = pc.shape.shape_type;
    let nr = pc.next_rotation(clockwise);
    let ks = pc.kick_list(clockwise);
    assert(pc.shape == p2.piece.shape);
    assert(p2.piece.next_rotation(clockwise) == nr);
    assert(p2.piece.kick_list(clockwise) == ks);
    lemma_collides_congruent(p1.stack, p2.stack, t, nr, pc.x as int, pc.y as int);
    lemma_first_kick_congruent(p1.stack, p2.stack, t, nr, pc.x as int, pc.y as int, ks, 0);
    lemma_collides_congruent(p1.stack, p2.stack, t, nr, q1.piece.x as int, q1.piece.y + 1);
}

/// Only one drop distance satisfies the fall conditions, and it is the
/// same in observably equal states.
proof fn lemma_drop_count_unique(p1: Gameplay, p2: Gameplay, r1: int, r2: int)
    requires
        obs_eq(p1, p2),
        p1.piece.wf(),
        p2.piece.wf(),
        is_drop_count(p1, r1),
        is_drop_count(p2, r2),
    ensures
        r1 == r2,
{
    let pc = p1.piece;
    let t = pc.shape.shape_type;
    let rot = pc.rotation as int;
    assert(pc.shape == p2.piece.shape);
    if r1 < r2 {
        lemma_collides_congruent(p1.stack, p2.stack, t, rot, pc.x as int, pc.y + r1 + 1);
        assert(!p2.stack.spec_collides(t, rot, pc.x as int, pc.y + (r1 + 1)));
        assert(false);
    }
    if r2 < r1 {
        lemma_collides_congruent(p1.stack, p2.stack, t, rot, pc.x as int, pc.y + r2 + 1);
        assert(!p1.stack.spec_collides(t, rot, pc.x as int, pc.y + (r2 + 1)));
        assert(false);
    }
}

/// Draining the queues of two observably equal states processes the same
/// actions and ends in observably equal states.
pub proof fn lemma_drain_deterministic(
    a1: Gameplay,
    b1: Gameplay,
    a2: Gameplay,
    b2: Gameplay,
    n1: nat,
    n2: nat,
)
    requires
        obs_eq(a1, a2),
        a1.piece.wf(),
        a2.piece.wf(),
        drain_rel(a1, b1, n1),
        drain_rel(a2, b2, n2),
    ensures
        n1 == n2,
        obs_eq(b1, b2),
        b1.piece.wf(),
        b2.piece.wf(),
    decreases n1,
{
    if n1 == 0 {
        assert(a2.actions@.len() == 0);
        assert(n2 == 0);
    } else {
        assert(a2.actions@.len() > 0);
        assert(n2 != 0);
        let (mid01, mid1, cont1) = choose|mid0: Gameplay, mid: Gameplay, cont: bool|
            #[trigger] popped_logged(a1, mid0) && #[trigger] rel_process(
                mid0,
                mid,
                a1.actions@[0],
                cont,
            ) && (if cont {
                drain_rel(mid, b1, (n1 - 1) as nat)
            } else {
                b1 == mid && n1 == 1
            });
        let (mid02, mid2, cont2) = choose|mid0: Gameplay, mid: Gameplay, cont: bool|
            #[trigger] popped_logged(a2, mid0) && #[trigger] rel_process(
                mid0,
                mid,
                a2.actions@[0],
                cont,
            ) && (if cont {
                drain_rel(mid, b2, (n2 - 1) as nat)
            } else {
                b2 == mid && n2 == 1
            });
        assert(a1.actions@[0] == a2.actions@[0]);
        assert(obs_eq(mid01, mid02));
        lemma_process_deterministic(mid01, mid1, mid02, mid2, a1.actions@[0], cont1, cont2);
        lemma_process_keeps_piece_wf(mid01, mid1, a1.actions@[0], cont1);
        lemma_process_keeps_piece_wf(mid02, mid2, a2.actions@[0], cont2);
        if cont1 {
            lemma_drain_deterministic(mid1, b1, mid2, b2, (n1 - 1) as nat, (n2 - 1) as nat);
        }
    }
}

/// The processed piece is still a well-formed shape.
pub proof fn lemma_process_keeps_piece_wf(pre: Gameplay, post: Gameplay, a: Action, cont: bool)
    requires
        pre.piece.wf(),
        rel_process(pre, post, a, cont),
    ensures
        post.piece.wf(),
{
}

/// One tick of the same length, from two observably equal states, ends in
/// observably equal states and reports the same destroyed cells.
pub proof fn lemma_update_deterministic(
    p1: Gameplay,
    q1: Gameplay,
    p2: Gameplay,
    q2: Gameplay,
    dt: int,
    out1: Seq<DestroyedBlock>,
    out2: Seq<DestroyedBlock>,
)
    requires
        obs_eq(p1, p2),
        p1.piece.wf(),
        p2.piece.wf(),
        rel_update(p1, q1, dt, out1),
        rel_update(p2, q2, dt, out2),
    ensures
        obs_eq(q1, q2),
        q1.piece.wf(),
        q2.piece.wf(),
        out1 == out2,
{
    let (g11, g21, g31, n1) = choose|g1: Gameplay, g2: Gameplay, g3: Gameplay, n: nat|
        #[trigger] rel_update_chain(p1, g1, g2, g3, n, q1, dt, out1);
    let (g12, g22, g32, n2) = choose|g1: Gameplay, g2: Gameplay, g3: Gameplay, n: nat|
        #[trigger] rel_update_chain(p2, g1, g2, g3, n, q2, dt, out2);
    assert(out1 == out2);
    assert(obs_eq_partial(g11, g12)) by {
        assert(g11.stack.cells() == g12.stack.cells());
    }
    if g11.spec_paused() {
        assert(g12.spec_paused());
        assert(obs_eq(q1, q2));
    } else {
        assert(!g12.spec_paused());
        let g1b1 = (Gameplay {
            action_duration: sat_add_u64(g11.action_duration as int, dt) as u64,
            ..g11
        });
        let g1b2 = (Gameplay {
            action_duration: sat_add_u64(g12.action_duration as int, dt) as u64,
            ..g12
        });
        assert(obs_eq_partial(g1b1, g1b2));
        if g11.piece_entering is None && g1b1.actions@.len() > 0 {
            lemma_drain_deterministic(g1b1, g21, g1b2, g22, n1, n2);
        } else {
            assert(g21 == g1b1 && g22 == g1b2);
        }
        assert(obs_eq_partial(g21, g22));
        lemma_collides_congruent(
            g21.stack,
            g22.stack,
            g21.piece.shape.shape_type,
            g21.piece.rotation as int,
            g21.piece.x as int,
            g21.piece.y + 1,
        );
        assert(obs_eq_partial(g31, g32));
        lemma_tail_deterministic(g31, q1, g32, q2, dt);
    }
}

/// `obs_eq` where the piece-shape tables agree because the types do: used
/// for the intermediate states inside a tick, whose pieces come from the
/// same well-formed sources.
pub open spec fn obs_eq_partial(a: Gameplay, b: Gameplay) -> bool {
    obs_eq(a, b) && a.piece.wf() && b.piece.wf()
}

/// The tail of the tick behaves identically in observably equal states.
proof fn lemma_tail_deterministic(g1: Gameplay, q1: Gameplay, g2: Gameplay, q2: Gameplay, dt: int)
    requires
        obs_eq_partial(g1, g2),
        rel_tail(g1, q1, dt),
        rel_tail(g2, q2, dt),
    ensures
        obs_eq(q1, q2),
        q1.piece.wf(),
        q2.piece.wf(),
{
    match g1.piece_entering {
        Option::Some(e) => {
            let e2 = sat_add_u64(e as int, dt);
            if e2 >= g1.config.entry_delay {
                let np1 = piece_spawn(
                    g1.stack,
                    type_of_code(bag_code_at(g1.bag.seed@, g1.bag.popped@)),
                );
                let np2 = piece_spawn(
                    g2.stack,
                    type_of_code(bag_code_at(g2.bag.seed@, g2.bag.popped@)),
                );
                assert(np1 == np2);
                lemma_collides_congruent(
                    g1.stack,
                    g2.stack,
                    np1.shape.shape_type,
                    0,
                    np1.x as int,
                    np1.y as int,
                );
            }
        },
        Option::None => {},
    }
}

/// One externally driven step of a game: either an action is queued (a
/// player input or a replayed record), or one tick of `dt` microseconds
/// runs.
pub enum GpEvent {
    Queued(Action, bool),
    Tick(int),
}

/// What one event does to the state.
pub open spec fn rel_event(pre: Gameplay, post: Gameplay, e: GpEvent) -> bool {
    match e {
        GpEvent::Queued(a, immediate) => {
            &&& eq_except_actions(pre, post)
            &&& post.actions@ == (if immediate {
                seq![a] + pre.actions@
            } else {
                pre.actions@.push(a)
            })
        },
        GpEvent::Tick(dt) => exists|out: Seq<DestroyedBlock>| #[trigger] rel_update(
            pre,
            post,
            dt,
            out,
        ),
    }
}

/// A whole driven game: the events applied in order.
pub open spec fn run_rel(pre: Gameplay, post: Gameplay, evs: Seq<GpEvent>) -> bool
    decreases evs.len(),
{
    if evs.len() == 0 {
        post == pre
    } else {
        exists|mid: Gameplay|
            #[trigger] rel_event(pre, mid, evs[0]) && run_rel(mid, post, evs.skip(1))
    }
}

/// Replays reproduce games exactly: two games in observably equal states -
/// for instance two fresh games built from the same seed and settings -
/// driven by the same sequence of queued actions and tick lengths, end in
/// observably equal states: the same grid, score, piece and game-over
/// outcome.
pub proof fn lemma_replay_round_trip(
    g1: Gameplay,
    h1: Gameplay,
    g2: Gameplay,
    h2: Gameplay,
    evs: Seq<GpEvent>,
)
    requires
        obs_eq(g1, g2),
        g1.piece.wf(),
        g2.piece.wf(),
        run_rel(g1, h1, evs),
        run_rel(g2, h2, evs),
    ensures
        obs_eq(h1, h2),
    decreases evs.len(),
{
    if evs.len() > 0 {
        let mid1 = choose|mid: Gameplay|
            #[trigger] rel_event(g1, mid, evs[0]) && run_rel(mid, h1, evs.skip(1));
        let mid2 = choose|mid: Gameplay|
            #[trigger] rel_event(g2, mid, evs[0]) && run_rel(mid, h2, evs.skip(1));
        match evs[0] {
            GpEvent::Queued(a, immediate) => {
                assert(obs_eq(mid1, mid2));
                assert(mid1.piece.wf() && mid2.piece.wf());
            },
            GpEvent::Tick(dt) => {
                let out1 = choose|out: Seq<DestroyedBlock>| #[trigger] rel_update(g1, mid1, dt, out);
                let out2 = choose|out: Seq<DestroyedBlock>| #[trigger] rel_update(g2, mid2, dt, out);
                lemma_update_deterministic(g1, mid1, g2, mid2, dt, out1, out2);
            },
        }
        lemma_replay_round_trip(mid1, h1, mid2, h2, evs.skip(1));
    }
}

} // verus!

use vstd::prelude::*;

verus! {

use std::collections::VecDeque;

use crate::action::Action;

/// One recorded input: the action and how long after the previous recorded
/// action it was processed, in microseconds.
#[derive(Copy, Clone, Debug, PartialEq, Eq, Structural)]
pub struct TimedAction {
    pub action: Action,
    pub duration: u64,
}

/// A full game transcript: the 256-bit seed and the ordered, timed action
/// log. Together with the simulation rules it determines a play-through
/// exactly.
#[derive(Clone)]
pub struct ReplayData {
    pub seed: [u8; 32],
    pub actions: VecDeque<TimedAction>,
}

impl ReplayData {
    pub fn new(seed: &[u8; 32]) -> (r: ReplayData)
        ensures
            r.seed@ == seed@,
            r.actions@ == Seq::<TimedAction>::empty(),
    {
        let mut seed_clone = [0u8; 32];
        let mut i: usize = 0;
        while i < 32
            invariant
                i <= 32,
                seed_clone@.len() == 32,
                forall|j: int| 0 <= j < i ==> #[trigger] seed_clone@[j] == seed@[j],
            decreases 32 - i,
        {
            seed_clone[i] = seed[i];
            i += 1;
        }
        proof {
            assert(seed_clone@ =~= seed@);
        }
        ReplayData { seed: seed_clone, actions: VecDeque::new() }
    }

    /// Appends one timed action to the log.
    pub fn add(&mut self, action: Action, duration: u64)
        ensures
            final(self).seed == old(self).seed,
            final(self).actions@ == old(self).actions@.push(TimedAction { action, duration }),
    {
        self.actions.push_back(TimedAction { action, duration });
    }

    /// The delay of the next recorded action, if any remains.
    pub fn current_duration(&self) -> (d: Option<u64>)
        ensures
            self.actions@.len() == 0 ==> d is None,
            self.actions@.len() > 0 ==> d == Some(self.actions@[0].duration),
    {
        if self.actions.len() > 0 {
            Some(self.actions[0].duration)
        } else {
            None
        }
    }

    /// Removes and returns the next recorded action; an exhausted log hands
    /// back `GameOver`, which ends the replayed game.
    pub fn pop_action(&mut self) -> (a: Action)
        ensures
            final(self).seed == old(self).seed,
            old(self).actions@.len() == 0 ==> a == Action::GameOver && final(self).actions@
                == old(self).actions@,
            old(self).actions@.len() > 0 ==> a == old(self).actions@[0].action
                && final(self).actions@ == old(self).actions@.skip(1),
    {
        proof {
            if old(self).actions@.len() > 0 {
                assert(old(self).actions@.subrange(1, old(self).actions@.len() as int)
                    =~= old(self).actions@.skip(1));
            }
        }
        if let Some(action) = self.actions.pop_front() {
            action.action
        } else {
            Action::GameOver
        }
    }
}

/// The playback driver: a fresh non-interactive game built from the
/// recorded seed, re-fed the recorded actions at their recorded intervals.
pub struct Replay {
    pub replay_data: ReplayData,
    pub action_duration: u64,
    pub gameplay: crate::gameplay::Gameplay,
}

/// How many of the recorded actions are due once `acc` microseconds have
/// accumulated: the first is due when `acc` reaches its delay; popping it
/// resets the accumulator, so further actions follow only while their
/// recorded delay is zero.
pub open spec fn due_actions(log: Seq<TimedAction>, acc: int) -> int
    decreases log.len(),
{
    if log.len() == 0 {
        0
    } else if acc >= log[0].duration {
        1 + due_actions(log.skip(1), 0)
    } else {
        0
    }
}

/// A tick feeds between zero and all of the recorded actions.
pub proof fn lemma_due_actions_bounds(log: Seq<TimedAction>, acc: int)
    ensures
        0 <= due_actions(log, acc) <= log.len(),
    decreases log.len(),
{
    if log.len() > 0 && acc >= log[0].duration {
        lemma_due_actions_bounds(log.skip(1), 0);
    }
}

/// What one playback tick does: `dt` accumulates, the due prefix of the
/// recorded log moves - in order, at the back - into the game's pending
/// queue, and the accumulator resets if anything was fed.
pub open spec fn rel_replay_feed(pre: Replay, post: Replay, dt: int) -> bool {
    let acc = crate::stack::sat_add_u64(pre.action_duration as int, dt);
    let k = due_actions(pre.replay_data.actions@, acc);
    &&& post.replay_data.seed == pre.replay_data.seed
    &&& post.replay_data.actions@ == pre.replay_data.actions@.skip(k)
    &&& post.action_duration == (if k == 0 {
        acc
    } else {
        0int
    })
    &&& post.gameplay == (crate::gameplay::Gameplay {
        actions: post.gameplay.actions,
        ..pre.gameplay
    })
    &&& post.gameplay.actions@ == pre.gameplay.actions@ + pre.replay_data.actions@.take(
        k,
    ).map_values(|t: TimedAction| t.action)
}

/// Playback is reproducible: two drivers holding the same transcript and
/// the same accumulated delay, whose games are observably equal, stay in
/// lockstep under equal ticks. With the gameplay determinism lemmas this
/// makes a replayed session a function of the saved transcript and the
/// tick schedule alone.
pub proof fn lemma_playback_deterministic(p1: Replay, q1: Replay, p2: Replay, q2: Replay, dt: int)
    requires
        rel_replay_feed(p1, q1, dt),
        rel_replay_feed(p2, q2, dt),
        p1.replay_data.seed@ == p2.replay_data.seed@,
        p1.replay_data.actions@ == p2.replay_data.actions@,
        p1.action_duration == p2.action_duration,
        crate::gameplay::obs_eq(p1.gameplay, p2.gameplay),
    ensures
        q1.replay_data.seed@ == q2.replay_data.seed@,
        q1.replay_data.actions@ == q2.replay_data.actions@,
        q1.action_duration == q2.action_duration,
        crate::gameplay::obs_eq(q1.gameplay, q2.gameplay),
{
}

impl Replay {
    pub open spec fn wf(self) -> bool {
        self.gameplay.wf()
    }

    /// Builds the playback driver: the gameplay is created non-interactive
    /// (no gravity and no self-locking), so the recorded log alone drives
    /// the whole game.
    pub fn new(config: crate::gameplay::GameplayConfig, replay_data: ReplayData) -> (r: Replay)
        ensures
            r.wf(),
            !r.gameplay.interactive,
            r.gameplay.bag.seed@ == replay_data.seed@,
            r.replay_data == replay_data,
            r.action_duration == 0,
    {
        let gameplay = crate::gameplay::Gameplay::new(config, false, &replay_data.seed);
        Replay { gameplay, replay_data, action_duration: 0 }
    }

    /// One playback tick: accumulates `dt`, and feeds every recorded action
    /// that has come due into the gameplay's queue, in order.
    #[verifier::loop_isolation(false)]
    pub fn update(&mut self, dt: u64)
        requires
            old(self).wf(),
        ensures
            final(self).wf(),
            final(self).gameplay.wf(),
            rel_replay_feed(*old(self), *final(self), dt as int),
    {
        self.action_duration = if dt > u64::MAX - self.action_duration {
            u64::MAX
        } else {
            self.action_duration + dt
        };

        let ghost log0 = self.replay_data.actions@;
        let ghost acc = self.action_duration as int;
        let ghost k = due_actions(log0, acc);
        let ghost mut fed: int = 0;
        proof {
            lemma_due_actions_bounds(log0, acc);
        }

        proof {
            assert(log0.take(0).map_values(|t: TimedAction| t.action)
                =~= Seq::<crate::action::Action>::empty());
            assert(self.gameplay.actions@ =~= old(self).gameplay.actions@ + log0.take(0).map_values(
                |t: TimedAction| t.action,
            ));
        }

        let mut running = true;
        while running
            invariant
                0 <= fed <= k,
                k == due_actions(log0, acc),
                running ==> (fed == 0 && self.action_duration == acc) || (fed > 0
                    && self.action_duration == 0),
                running ==> k - fed == due_actions(
                    self.replay_data.actions@,
                    self.action_duration as int,
                ),
                !running ==> fed == k && self.action_duration == (if k == 0 {
                    acc
                } else {
                    0int
                }),
                self.replay_data.seed == old(self).replay_data.seed,
                self.replay_data.actions@ == log0.skip(fed),
                self.gameplay == (crate::gameplay::Gameplay {
                    actions: self.gameplay.actions,
                    ..old(self).gameplay
                }),
                self.gameplay.actions@ == old(self).gameplay.actions@ + log0.take(fed).map_values(
                    |t: TimedAction| t.action,
                ),
            decreases
                    (if running {
                        1int
                    } else {
                        0int
                    }),
                    log0.len() - fed,
        {
            let next = self.replay_data.current_duration();
            match next {
                Some(duration) => {
                    if self.action_duration >= duration {
                        let a = self.replay_data.pop_action();
                        self.gameplay.action(a, false);
                        self.action_duration = 0;
                        proof {
                            lemma_due_actions_bounds(log0.skip(fed).skip(1), 0);
                            assert(log0.skip(fed).skip(1) =~= log0.skip(fed + 1));
                            assert(log0.take(fed).map_values(|t: TimedAction| t.action).push(
                                log0[fed].action,
                            ) =~= log0.take(fed + 1).map_values(|t: TimedAction| t.action));
                            fed = fed + 1;
                        }
                    } else {
                        running = false;
                    }
                },
                None => {
                    running = false;
                },
            }
        }
    }
}

} // verus!

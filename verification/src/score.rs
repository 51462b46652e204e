use vstd::prelude::*;

verus! {

/// Running score state: the total, the magnitude of the last clear (used
/// for the back-to-back check), the combo counter and the back-to-back
/// flag.
pub struct Score {
    pub score: i32,
    pub last_clear: i32,
    pub combo: Option<i32>,
    pub btb: bool,
}

/// The documented base score of a lock by rows cleared and T-spin flag.
pub open spec fn spec_base_score(rows: int, t_spin: bool) -> int {
    if rows == 1 && !t_spin {
        100
    } else if rows == 1 && t_spin {
        800
    } else if rows == 2 && !t_spin {
        300
    } else if rows == 2 && t_spin {
        1200
    } else if rows == 3 && !t_spin {
        500
    } else if rows == 3 && t_spin {
        1600
    } else if rows == 4 && !t_spin {
        800
    } else {
        0
    }
}

/// `v` clamped to the range of `i32`.
pub open spec fn sat_i32(v: int) -> int {
    if v > i32::MAX {
        i32::MAX as int
    } else if v < i32::MIN {
        i32::MIN as int
    } else {
        v
    }
}

impl Score {
    /// The combo counter never goes negative: every reachable score keeps
    /// this, since the counter only ever starts at zero and advances.
    pub open spec fn wf(self) -> bool {
        match self.combo {
            Option::Some(c) => c >= 0,
            Option::None => true,
        }
    }

    /// Whether this lock earns the back-to-back flag: the previous clear
    /// was hard (scored at least 800) and so is this one.
    pub open spec fn spec_lock_btb(self, rows: int, t_spin: bool) -> bool {
        self.last_clear >= 800 && spec_base_score(rows, t_spin) >= 800
    }

    /// The exact points granted by one lock: the table value, plus half of
    /// it again on a back-to-back, plus 50 per combo step.
    pub open spec fn spec_lock_gain(self, rows: int, t_spin: bool) -> int {
        let base = spec_base_score(rows, t_spin);
        let with_btb = if self.spec_lock_btb(rows, t_spin) {
            base + base / 2
        } else {
            base
        };
        with_btb + (match self.combo {
            Option::Some(c) => 50 * sat_i32(c + 1),
            Option::None => 0,
        })
    }

    pub fn new() -> (s: Score)
        ensures
            s.wf(),
            s.score == 0,
            s.last_clear == 0,
            s.combo is None,
            !s.btb,
    {
        Score { score: 0, last_clear: 0, combo: None, btb: false }
    }

    pub fn score(&self) -> (v: i32)
        ensures
            v == self.score,
    {
        self.score
    }

    /// One point per row descended under player control.
    pub fn soft_drop(&mut self, rows: i32)
        requires
            rows >= 0,
        ensures
            old(self).wf() ==> final(self).wf(),
            *final(self) == (Score { score: final(self).score, ..*old(self) }),
            final(self).score == sat_i32(old(self).score + rows),
    {
        self.score = saturating_add_i32(self.score, rows);
    }

    /// Two points per row of a hard drop.
    pub fn hard_drop(&mut self, rows: i32)
        requires
            rows >= 0,
        ensures
            old(self).wf() ==> final(self).wf(),
            *final(self) == (Score { score: final(self).score, ..*old(self) }),
            final(self).score == sat_i32(old(self).score + 2 * rows),
    {
        let sum = self.score as i64 + 2 * (rows as i64);
        self.score = clamp_i64_to_i32(sum);
    }

    /// Forgets the running combo; called on any lock that clears nothing.
    pub fn reset_combo(&mut self)
        ensures
            final(self).wf(),
            *final(self) == (Score { combo: None, ..*old(self) }),
    {
        self.combo = None;
    }

    pub fn btb(&self) -> (b: bool)
        ensures
            b == self.btb,
    {
        self.btb
    }

    pub fn combo(&self) -> (c: Option<i32>)
        ensures
            c == self.combo,
    {
        self.combo
    }

    /// Applies one clearing lock to the score: table-driven base points,
    /// the 50% back-to-back bonus for consecutive hard clears, and the
    /// 50-per-step combo bonus. The combo counter advances on every call.
    /// The gain becomes the magnitude the next back-to-back check reads,
    /// except on a T-spin that clears nothing: that lock scores no base
    /// points and is transparent to the back-to-back chain, so any standing
    /// hard eligibility survives it.
    pub fn lock(&mut self, rows: i32, t_spin: bool)
        ensures
            old(self).wf() ==> final(self).wf(),
            final(self).btb == old(self).spec_lock_btb(rows as int, t_spin),
            final(self).combo == (match old(self).combo {
                Option::Some(c) => Option::Some(sat_i32(c + 1) as i32),
                Option::None => Option::Some(0i32),
            }),
            final(self).last_clear == (if rows == 0 && t_spin {
                old(self).last_clear as int
            } else {
                sat_i32(old(self).spec_lock_gain(rows as int, t_spin))
            }),
            final(self).score == sat_i32(
                old(self).score + old(self).spec_lock_gain(rows as int, t_spin),
            ),
    {
        let base: i32 = match (rows, t_spin) {
            (1, false) => 100,
            (1, true) => 800,
            (2, false) => 300,
            (2, true) => 1200,
            (3, false) => 500,
            (3, true) => 1600,
            (4, false) => 800,
            _ => 0,
        };

        let last_hard = self.last_clear >= 800;

        self.btb = false;
        let mut gain: i64 = base as i64;
        if last_hard && base >= 800 {
            self.btb = true;
            gain = gain + (base / 2) as i64;
        }

        match &mut self.combo {
            Some(combo) => {
                let next = saturating_add_i32(*combo, 1);
                *combo = next;
                gain = gain + 50i64 * next as i64;
            },
            None => {
                self.combo = Some(0);
            },
        }

        if !(rows == 0 && t_spin) {
            self.last_clear = clamp_i64_to_i32(gain);
        }
        self.score = clamp_i64_to_i32(self.score as i64 + gain);
    }
}

/// A lock never lowers the score: the table value, the back-to-back bonus
/// and the combo bonus are all non-negative (the combo counter of a
/// well-formed score never is), so the points granted are non-negative and
/// the running total only grows.
pub proof fn lemma_lock_gain_nonneg(s: Score, rows: int, t_spin: bool)
    requires
        s.wf(),
    ensures
        s.spec_lock_gain(rows, t_spin) >= 0,
        sat_i32(s.score + s.spec_lock_gain(rows, t_spin)) >= s.score,
{
    assert(spec_base_score(rows, t_spin) >= 0);
    match s.combo {
        Option::Some(c) => {
            assert(sat_i32(c + 1) >= 0);
        },
        Option::None => {},
    }
}

/// `a + b` clamped to the range of `i32`.
fn saturating_add_i32(a: i32, b: i32) -> (r: i32)
    ensures
        r == sat_i32(a + b),
{
    let sum = a as i64 + b as i64;
    clamp_i64_to_i32(sum)
}

fn clamp_i64_to_i32(v: i64) -> (r: i32)
    ensures
        r == sat_i32(v as int),
{
    if v > i32::MAX as i64 {
        i32::MAX
    } else if v < i32::MIN as i64 {
        i32::MIN
    } else {
        v as i32
    }
}

} // verus!

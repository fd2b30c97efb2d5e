//! Pool settlement state machine.
//!
//! A pool ingests a cut of every wager into its pot and releases payouts
//! along the wave trajectory kept by its segment tracker.  While the pot is
//! below the current segment's far edge it is in `Ascent` and payouts are
//! dampened; once the pot exceeds the far edge it is in `Fall` and payouts
//! are accelerated.  All monetary bookkeeping is checked: a wager that would
//! overflow an accumulator is rejected before anything is applied.

use vstd::prelude::*;
use vstd::math::min;
use crate::rng::{rng_from_entropy, rng_in_range};
use crate::wave;

verus! {

/// Fixed-point denominator shared by monetary ratios and probability scaling.
pub const RATIO: u64 = 10000;

/// Added to the probability-scaling denominator while the pot is climbing,
/// making payouts rarer during an ascent.
pub const ASCENT_SPEED_RATE: u64 = 2000;

/// Subtracted from the probability-scaling denominator during a fall for
/// ordinary odds, making payouts more likely.
pub const SPEED_RATE: u64 = 1000;

/// Subtracted from the probability-scaling denominator during a fall for big
/// odds, making big payouts much more likely.
pub const SPEED_BIG: u64 = 8000;

/// Odds at or above which the big-odds fall acceleration applies.
pub const BIG_ODDS: u64 = 50;

/// Direction of the pot's trajectory against the current segment.
#[derive(Debug, Clone, Copy, PartialEq, Eq, Structural)]
pub enum WaveState {
    Ascent,
    Fall,
}

/// Classification of a settlement attempt while the pot is falling.
#[derive(Debug, Clone, Copy, PartialEq, Eq, Structural)]
pub enum FallState {
    Normal,
    Win,
    Reflesh,
}

/// Why a call was rejected before any accumulator was touched.
#[derive(Debug, Clone, Copy, PartialEq, Eq, Structural)]
pub enum PoolError {
    /// An argument outside the documented domain (a zero wager or odds, a
    /// baseline not below the boundary, ratios summing past `RATIO`).
    InvalidInput,
    /// The wager would push an accumulator or the reward past `u64::MAX`.
    Overflow,
}

/// The stateful pool: bet accounting, the pot balance, the bonus ledger, and
/// the wave trajectory that controls payouts.
#[derive(Debug)]
pub struct Pool {
    pub id: u32,
    pub owner_id: u32,
    /// Value of one wager unit in the smallest currency denomination.
    pub bet_unit: u64,
    /// Inclusive lower bound the pot trajectory must respect.
    pub base_line: u64,
    /// Inclusive upper bound the pot trajectory must respect.
    pub boundary: u64,
    /// Cut of each wager paid as brokerage, in `RATIO`-ths.
    pub brokerage_ratio: u64,
    /// Cut of each wager paid into the jackpot, in `RATIO`-ths.
    pub jackpot_ratio: u64,
    /// Cut of each wager credited to the pot, in `RATIO`-ths.
    pub pot_ratio: u64,
    /// Current pool balance driving the trajectory.
    pub pot: u64,
    pub jackpot: u64,
    /// Cumulative wager volume ingested.
    pub suction: u64,
    pub brokerage: u64,
    /// Cumulative payouts granted.
    pub bonus: u64,
    /// Funds advanced to seed the pot at creation.
    pub advance: u64,
    /// Pending trajectory levels, consumed front first.
    pub waves: Vec<u64>,
    /// The active `(near, far)` trajectory bound pair.
    pub segment: (u64, u64),
    /// The pool's private random source; every probabilistic decision draws
    /// from this one stream.
    pub rng: rand::rngs::StdRng,
}

/// The fields a settlement never touches.
pub open spec fn same_config(a: Pool, b: Pool) -> bool {
    &&& a.id == b.id
    &&& a.owner_id == b.owner_id
    &&& a.bet_unit == b.bet_unit
    &&& a.base_line == b.base_line
    &&& a.boundary == b.boundary
    &&& a.brokerage_ratio == b.brokerage_ratio
    &&& a.jackpot_ratio == b.jackpot_ratio
    &&& a.pot_ratio == b.pot_ratio
    &&& a.advance == b.advance
}

/// The scaling denominator of the ascent coin flip: odds inflated by
/// `ASCENT_SPEED_RATE` on top of `RATIO`, so payouts are rarer while the pot
/// is still filling.
pub open spec fn ascent_scaled_odds(odds: u64) -> int {
    odds * (ASCENT_SPEED_RATE + RATIO)
}

/// The scaling denominator of the fall coin flip: deflated below `RATIO`, so
/// payouts are more likely while the pot retreats — and deflated much further
/// for odds at or above `BIG_ODDS`.
pub open spec fn fall_scaled_odds(odds: u64) -> int {
    if odds >= BIG_ODDS {
        odds * (RATIO - SPEED_BIG)
    } else {
        odds * (RATIO - SPEED_RATE)
    }
}

/// Every accumulator update and the reward fit in `u64` for this wager.
pub open spec fn draw_fits(p: Pool, bets: u64, odds: u64) -> bool {
    let v = p.bet_unit * bets;
    let reward = bets * odds * RATIO;
    &&& p.suction + bets <= u64::MAX
    &&& v <= u64::MAX
    &&& p.pot + p.pot_ratio * v <= u64::MAX
    &&& p.brokerage + p.brokerage_ratio * v <= u64::MAX
    &&& p.jackpot + p.jackpot_ratio * v <= u64::MAX
    &&& reward <= u64::MAX
    &&& ascent_scaled_odds(odds) <= u64::MAX
    &&& p.bonus + reward <= u64::MAX
}

/// One wave level was consumed: the segment is re-anchored at `anchor` with
/// the popped front as its far edge, and the queue is the tail of `pre`'s —
/// or a freshly regenerated wave, ending on a trajectory bound, when the pop
/// emptied it.
pub open spec fn advanced_segment(pre: Pool, post: Pool, anchor: u64) -> bool {
    &&& post.spec_segment() == (anchor, pre.spec_waves()[0])
    &&& pre.spec_waves().len() > 1 ==> post.spec_waves() == pre.spec_waves().remove(0)
    &&& pre.spec_waves().len() == 1 ==> 135 <= post.spec_waves().len() <= 625 && (
    post.spec_waves().last() == pre.base_line || post.spec_waves().last() == pre.boundary)
}

impl Pool {
    /// The pending trajectory levels, front first.
    pub open spec fn spec_waves(&self) -> Seq<u64> {
        self.waves@
    }

    /// The active `(near, far)` trajectory bound pair.
    pub open spec fn spec_segment(&self) -> (u64, u64) {
        self.segment
    }

    /// Well-formedness: the three ratios sum to `RATIO`, the baseline sits
    /// strictly below the boundary, and a queued wave level is always at hand.
    pub open spec fn inv(&self) -> bool {
        &&& self.brokerage_ratio + self.jackpot_ratio + self.pot_ratio == RATIO
        &&& self.base_line < self.boundary
        &&& self.spec_waves().len() >= 1
    }

    /// `Fall` exactly when the pot has passed the segment's far edge.
    pub open spec fn spec_state(&self) -> WaveState {
        if self.pot > self.spec_segment().1 {
            WaveState::Fall
        } else {
            WaveState::Ascent
        }
    }

    /// A payout during an ascent is admissible only when the pot covers the
    /// reward and paying it would leave the pot strictly above the segment
    /// floor.
    pub open spec fn ascent_eligible(&self, reward: u64) -> bool {
        reward <= self.pot && self.spec_segment().0 < self.pot - reward
    }

    /// Classification of a settlement attempt during a fall: a reward beyond
    /// the pot wins anyway while the pot still sits above the segment floor,
    /// but forces a fresh trajectory once the pot has fallen through it; a
    /// covered reward goes to the ordinary weighted coin flip.
    pub open spec fn fall_class(&self, reward: u64) -> FallState {
        if reward > self.pot {
            if self.pot > self.spec_segment().0 {
                FallState::Win
            } else {
                FallState::Reflesh
            }
        } else {
            FallState::Normal
        }
    }

    /// Fresh pool: the pot is seeded from `advance`, the baseline is zero and
    /// the pot ratio is derived so the three ratios sum to `RATIO`.  Rejected
    /// when the given ratios already exceed `RATIO` or the boundary is zero.
    pub fn new(
        id: u32,
        owner_id: u32,
        bet_unit: u64,
        brokerage_ratio: u64,
        jackpot_ratio: u64,
        boundary: u64,
        advance: u64,
    ) -> (r: Result<Pool, PoolError>)
        ensures
            r is Ok <==> brokerage_ratio + jackpot_ratio <= RATIO && boundary >= 1,
            r is Err ==> r == Err::<Pool, PoolError>(PoolError::InvalidInput),
            r matches Ok(p) ==> {
                &&& p.inv()
                &&& p.id == id
                &&& p.owner_id == owner_id
                &&& p.bet_unit == bet_unit
                &&& p.base_line == 0
                &&& p.boundary == boundary
                &&& p.brokerage_ratio == brokerage_ratio
                &&& p.jackpot_ratio == jackpot_ratio
                &&& p.pot_ratio == RATIO - brokerage_ratio - jackpot_ratio
                &&& p.pot == advance
                &&& p.jackpot == 0
                &&& p.suction == 0
                &&& p.brokerage == 0
                &&& p.bonus == 0
                &&& p.advance == advance
                &&& p.spec_segment().0 == advance
            },
    {
        if brokerage_ratio > RATIO || jackpot_ratio > RATIO - brokerage_ratio || boundary == 0 {
            return Err(PoolError::InvalidInput);
        }
        let pot: u64 = advance;
        Ok(create_pool(
            id,
            owner_id,
            bet_unit,
            0,
            boundary,
            brokerage_ratio,
            jackpot_ratio,
            pot,
            0,
            0,
            0,
            0,
            pot,
        ))
    }

    /// Rehydrate a pool from persisted accumulators.  Rejected when the
    /// ratios exceed `RATIO` or the baseline is not strictly below the
    /// boundary.
    pub fn load_pool(
        id: u32,
        owner_id: u32,
        bet_unit: u64,
        base_line: u64,
        boundary: u64,
        brokerage_ratio: u64,
        jackpot_ratio: u64,
        pot: u64,
        jackpot: u64,
        suction: u64,
        brokerage: u64,
        bonus: u64,
        advance: u64,
    ) -> (r: Result<Pool, PoolError>)
        ensures
            r is Ok <==> brokerage_ratio + jackpot_ratio <= RATIO && base_line < boundary,
            r is Err ==> r == Err::<Pool, PoolError>(PoolError::InvalidInput),
            r matches Ok(p) ==> {
                &&& p.inv()
                &&& p.id == id
                &&& p.owner_id == owner_id
                &&& p.bet_unit == bet_unit
                &&& p.base_line == base_line
                &&& p.boundary == boundary
                &&& p.brokerage_ratio == brokerage_ratio
                &&& p.jackpot_ratio == jackpot_ratio
                &&& p.pot_ratio == RATIO - brokerage_ratio - jackpot_ratio
                &&& p.pot == pot
                &&& p.jackpot == jackpot
                &&& p.suction == suction
                &&& p.brokerage == brokerage
                &&& p.bonus == bonus
                &&& p.advance == advance
                &&& p.spec_segment().0 == pot
            },
    {
        if brokerage_ratio > RATIO || jackpot_ratio > RATIO - brokerage_ratio
            || base_line >= boundary {
            return Err(PoolError::InvalidInput);
        }
        Ok(create_pool(
            id,
            owner_id,
            bet_unit,
            base_line,
            boundary,
            brokerage_ratio,
            jackpot_ratio,
            pot,
            jackpot,
            suction,
            brokerage,
            bonus,
            advance,
        ))
    }

    /// Settle one wager of `bets` units at the given odds: accrue the wager
    /// into the accumulators, then run the settlement branch the trajectory
    /// state selects, returning whether it hit and the reward paid.
    ///
    /// A zero wager or zero odds is rejected as invalid, and a wager whose
    /// bookkeeping would overflow is rejected, both before anything changes.
    /// On success the wager is fully accrued; on a hit the reward (capped at
    /// the credited pot) moves from the pot to the bonus ledger.
    pub fn draw(&mut self, bets: u64, odds: u64) -> (r: Result<(bool, u64), PoolError>)
        requires
            old(self).inv(),
        ensures
            final(self).inv(),
            same_config(*old(self), *final(self)),
            (r is Ok <==> bets >= 1 && odds >= 1 && draw_fits(*old(self), bets, odds)),
            (r == Err::<(bool, u64), PoolError>(PoolError::InvalidInput) <==> bets == 0 || odds
                == 0),
            (r == Err::<(bool, u64), PoolError>(PoolError::Overflow) <==> bets >= 1 && odds >= 1
                && !draw_fits(*old(self), bets, odds)),
            r is Err ==> *final(self) == *old(self),
            final(self).suction >= old(self).suction,
            final(self).brokerage >= old(self).brokerage,
            final(self).jackpot >= old(self).jackpot,
            final(self).bonus >= old(self).bonus,
            r matches Ok((hit, won)) ==> {
                let v = old(self).bet_unit * bets;
                let reward = bets * odds * RATIO;
                let pot1 = old(self).pot + old(self).pot_ratio * v;
                let near = old(self).spec_segment().0;
                &&& final(self).suction == old(self).suction + bets
                &&& final(self).brokerage == old(self).brokerage + old(self).brokerage_ratio * v
                &&& final(self).jackpot == old(self).jackpot + old(self).jackpot_ratio * v
                &&& hit ==> won == reward
                &&& !hit ==> won == 0
                &&& hit ==> final(self).pot == pot1 - min(pot1, reward as int) && final(self).bonus == old(self).bonus + min(pot1, reward as int)
                &&& !hit ==> final(self).pot == pot1 && final(self).bonus == old(self).bonus
                &&& old(self).spec_state() is Ascent && !(reward <= pot1 && near < pot1 - reward)
                    ==> !hit
                &&& old(self).spec_state() is Fall && reward > pot1 && pot1 <= near ==> !hit
                &&& old(self).spec_state() is Fall && reward > pot1 && pot1 > near ==> hit
                &&& old(self).spec_state() is Fall && reward <= pot1 && fall_scaled_odds(odds)
                    <= RATIO ==> hit
                &&& old(self).spec_state() is Ascent && !hit && pot1 <= old(self).spec_segment().1
                    ==> final(self).spec_segment() == old(self).spec_segment() && final(self).spec_waves() == old(self).spec_waves()
                &&& old(self).spec_state() is Fall && reward <= pot1 && !hit ==> final(self).spec_segment() == old(self).spec_segment() && final(self).spec_waves() == old(self).spec_waves()
                &&& old(self).spec_state() is Ascent && hit ==> final(self).spec_segment() == old(self).spec_segment() && final(self).spec_waves() == old(self).spec_waves()
                &&& old(self).spec_state() is Ascent && !hit && pot1 > old(self).spec_segment().1
                    ==> advanced_segment(*old(self), *final(self), (pot1) as u64)
                &&& old(self).spec_state() is Fall && hit && pot1 - min(pot1, reward as int)
                    <= old(self).spec_segment().1 ==> advanced_segment(
                    *old(self),
                    *final(self),
                    final(self).pot,
                )
                &&& old(self).spec_state() is Fall && hit && pot1 - min(pot1, reward as int)
                    > old(self).spec_segment().1 ==> final(self).spec_segment() == old(self).spec_segment() && final(self).spec_waves() == old(self).spec_waves()
                &&& old(self).spec_state() is Fall && reward > pot1 && pot1 <= near ==> final(self).spec_segment().0 == pot1 && 134 <= final(self).spec_waves().len() <= 624
            },
    {
        if bets == 0 || odds == 0 {
            return Err(PoolError::InvalidInput);
        }
        let v: u64 = match self.bet_unit.checked_mul(bets) {
            Some(x) => x,
            None => {
                return Err(PoolError::Overflow);
            },
        };
        let suction2: u64 = match self.suction.checked_add(bets) {
            Some(x) => x,
            None => {
                return Err(PoolError::Overflow);
            },
        };
        let pot_add: u64 = match self.pot_ratio.checked_mul(v) {
            Some(x) => x,
            None => {
                return Err(PoolError::Overflow);
            },
        };
        let pot2: u64 = match self.pot.checked_add(pot_add) {
            Some(x) => x,
            None => {
                return Err(PoolError::Overflow);
            },
        };
        let brokerage_add: u64 = match self.brokerage_ratio.checked_mul(v) {
            Some(x) => x,
            None => {
                return Err(PoolError::Overflow);
            },
        };
        let brokerage2: u64 = match self.brokerage.checked_add(brokerage_add) {
            Some(x) => x,
            None => {
                return Err(PoolError::Overflow);
            },
        };
        let jackpot_add: u64 = match self.jackpot_ratio.checked_mul(v) {
            Some(x) => x,
            None => {
                return Err(PoolError::Overflow);
            },
        };
        let jackpot2: u64 = match self.jackpot.checked_add(jackpot_add) {
            Some(x) => x,
            None => {
                return Err(PoolError::Overflow);
            },
        };
        let bets_odds: u64 = match bets.checked_mul(odds) {
            Some(x) => x,
            None => {
                proof {
                    assert(bets * odds * RATIO >= bets * odds) by (nonlinear_arith)
                        requires
                            bets * odds >= 0,
                    ;
                }
                return Err(PoolError::Overflow);
            },
        };
        let reward: u64 = match bets_odds.checked_mul(RATIO) {
            Some(x) => x,
            None => {
                return Err(PoolError::Overflow);
            },
        };
        if odds.checked_mul(ASCENT_SPEED_RATE + RATIO).is_none() {
            return Err(PoolError::Overflow);
        }
        if self.bonus > u64::MAX - reward {
            return Err(PoolError::Overflow);
        }
        let state: WaveState = self.get_state();
        self.suction = suction2;
        self.pot = pot2;
        self.brokerage = brokerage2;
        self.jackpot = jackpot2;
        let hit: bool = match state {
            WaveState::Ascent => self.ascent(odds, reward),
            WaveState::Fall => self.fall(odds, reward),
        };
        if hit {
            Ok((true, reward))
        } else {
            Ok((false, 0))
        }
    }

    /// Draw one more value from the pool's own random stream, for cosmetic
    /// outcomes that must share the pool's deterministic stream; nothing else
    /// about the pool changes.
    pub fn draw_rand(&mut self, lo: u64, hi: u64) -> (r: u64)
        requires
            lo <= hi,
        ensures
            lo <= r <= hi,
            same_config(*old(self), *final(self)),
            final(self).pot == old(self).pot,
            final(self).jackpot == old(self).jackpot,
            final(self).suction == old(self).suction,
            final(self).brokerage == old(self).brokerage,
            final(self).bonus == old(self).bonus,
            final(self).spec_waves() == old(self).spec_waves(),
            final(self).spec_segment() == old(self).spec_segment(),
            old(self).inv() ==> final(self).inv(),
    {
        rng_in_range(&mut self.rng, lo, hi)
    }

    /// Replace the brokerage ratio, re-deriving the pot ratio so the three
    /// ratios still sum to `RATIO`; the jackpot ratio is held fixed.
    pub fn update_ratios(&mut self, new_brokerage_ratio: u64) -> (r: Result<(), PoolError>)
        requires
            old(self).inv(),
        ensures
            final(self).inv(),
            (r is Ok <==> new_brokerage_ratio + old(self).jackpot_ratio <= RATIO),
            r is Err ==> r == Err::<(), PoolError>(PoolError::InvalidInput) && *final(self) == *old(self),
            r is Ok ==> final(self).brokerage_ratio == new_brokerage_ratio && final(self).pot_ratio
                == RATIO - new_brokerage_ratio - old(self).jackpot_ratio && final(self).jackpot_ratio
                == old(self).jackpot_ratio && final(self).pot == old(self).pot && final(self).bonus
                == old(self).bonus && final(self).suction == old(self).suction && final(self).brokerage == old(self).brokerage && final(self).jackpot == old(self).jackpot && final(self).spec_waves() == old(self).spec_waves() && final(self).spec_segment() == old(self).spec_segment(),
    {
        if new_brokerage_ratio > RATIO || self.jackpot_ratio > RATIO - new_brokerage_ratio {
            return Err(PoolError::InvalidInput);
        }
        self.brokerage_ratio = new_brokerage_ratio;
        self.pot_ratio = RATIO - new_brokerage_ratio - self.jackpot_ratio;
        Ok(())
    }

    /// The active `(near, far)` segment.
    pub fn get_segment(&self) -> (r: (u64, u64))
        ensures
            r == self.spec_segment(),
    {
        self.segment
    }

    /// How many trajectory levels are still queued.
    pub fn get_waves_len(&self) -> (r: usize)
        ensures
            r == self.spec_waves().len(),
    {
        self.waves.len()
    }

    /// The trajectory state, re-evaluated from the pot and the current
    /// segment on every call.
    pub fn get_state(&self) -> (r: WaveState)
        ensures
            r == self.spec_state(),
    {
        let (_, destination) = self.segment;
        if self.pot > destination {
            WaveState::Fall
        } else {
            WaveState::Ascent
        }
    }

    /// Pay `reward` out of the pot into the bonus ledger.  A reward beyond
    /// the pot is capped: the bonus grows by exactly what the pot held and
    /// the pot is zeroed; the pot never goes negative and capping is not an
    /// error.
    pub fn decrease_pot(&mut self, reward: u64)
        requires
            old(self).bonus + min(old(self).pot as int, reward as int) <= u64::MAX,
        ensures
            old(self).pot >= reward ==> final(self).pot == old(self).pot - reward && final(self).bonus == old(self).bonus + reward,
            old(self).pot < reward ==> final(self).pot == 0 && final(self).bonus == old(self).bonus
                + old(self).pot,
            same_config(*old(self), *final(self)),
            final(self).suction == old(self).suction,
            final(self).jackpot == old(self).jackpot,
            final(self).brokerage == old(self).brokerage,
            final(self).spec_waves() == old(self).spec_waves(),
            final(self).spec_segment() == old(self).spec_segment(),
            old(self).inv() ==> final(self).inv(),
    {
        if self.pot >= reward {
            self.pot = self.pot - reward;
            self.bonus = self.bonus + reward;
        } else {
            self.bonus = self.bonus + self.pot;
            self.pot = 0;
        }
    }

    /// Ascent settlement: admissibility check, then the dampened coin flip;
    /// a winner pays out of the pot, a loser may advance the segment when the
    /// pot has overshot its ceiling.
    fn ascent(&mut self, odds: u64, reward: u64) -> (hit: bool)
        requires
            old(self).inv(),
            odds >= 1,
            ascent_scaled_odds(odds) <= u64::MAX,
            old(self).bonus + reward <= u64::MAX,
        ensures
            final(self).inv(),
            same_config(*old(self), *final(self)),
            final(self).suction == old(self).suction,
            final(self).brokerage == old(self).brokerage,
            final(self).jackpot == old(self).jackpot,
            !old(self).ascent_eligible(reward) ==> !hit,
            hit ==> final(self).pot == old(self).pot - reward && final(self).bonus == old(self).bonus + reward,
            !hit ==> final(self).pot == old(self).pot && final(self).bonus == old(self).bonus,
            !hit && old(self).pot <= old(self).spec_segment().1 ==> final(self).spec_segment()
                == old(self).spec_segment() && final(self).spec_waves() == old(self).spec_waves(),
            !hit && old(self).pot > old(self).spec_segment().1 ==> advanced_segment(
                *old(self),
                *final(self),
                old(self).pot,
            ),
            hit ==> final(self).spec_segment() == old(self).spec_segment() && final(self).spec_waves() == old(self).spec_waves(),
    {
        if self.analyzing_ascent(reward) && self.ascent_run(odds) {
            self.decrease_pot(reward);
            true
        } else {
            self.ascent_action();
            false
        }
    }

    /// Whether an ascent payout is admissible.
    fn analyzing_ascent(&self, reward: u64) -> (r: bool)
        ensures
            r == self.ascent_eligible(reward),
    {
        let (bottom, _) = self.segment;
        if self.pot < reward {
            return false;
        }
        bottom < self.pot - reward
    }

    /// The ascent coin flip: odds scaled up by `ASCENT_SPEED_RATE + RATIO`.
    fn ascent_run(&mut self, odds: u64) -> (hit: bool)
        requires
            odds >= 1,
            ascent_scaled_odds(odds) <= u64::MAX,
        ensures
            same_config(*old(self), *final(self)),
            final(self).pot == old(self).pot,
            final(self).jackpot == old(self).jackpot,
            final(self).suction == old(self).suction,
            final(self).brokerage == old(self).brokerage,
            final(self).bonus == old(self).bonus,
            final(self).spec_waves() == old(self).spec_waves(),
            final(self).spec_segment() == old(self).spec_segment(),
            old(self).inv() ==> final(self).inv(),
    {
        proof {
            assert(odds * (ASCENT_SPEED_RATE + RATIO) >= 1 * (ASCENT_SPEED_RATE + RATIO))
                by (nonlinear_arith)
                requires
                    odds >= 1,
                    ASCENT_SPEED_RATE + RATIO >= 0,
            ;
        }
        let new_odds: u64 = odds * (ASCENT_SPEED_RATE + RATIO);
        self.run(new_odds)
    }

    /// After a missed ascent: when the pot has overshot the segment's far
    /// edge, consume the next wave level as the new target.
    fn ascent_action(&mut self)
        requires
            old(self).inv(),
        ensures
            final(self).inv(),
            same_config(*old(self), *final(self)),
            final(self).pot == old(self).pot,
            final(self).jackpot == old(self).jackpot,
            final(self).suction == old(self).suction,
            final(self).brokerage == old(self).brokerage,
            final(self).bonus == old(self).bonus,
            old(self).pot <= old(self).spec_segment().1 ==> final(self).spec_segment() == old(self).spec_segment() && final(self).spec_waves() == old(self).spec_waves(),
            old(self).pot > old(self).spec_segment().1 ==> advanced_segment(
                *old(self),
                *final(self),
                old(self).pot,
            ),
    {
        let (_, destination) = self.segment;
        if self.pot > destination {
            self.consume_and_segment();
        }
    }

    /// Fall settlement: an uncovered reward above the floor is a forced win,
    /// one below forces a fresh trajectory, and a covered reward goes to the
    /// accelerated coin flip.
    fn fall(&mut self, odds: u64, reward: u64) -> (hit: bool)
        requires
            old(self).inv(),
            odds >= 1,
            ascent_scaled_odds(odds) <= u64::MAX,
            old(self).bonus + reward <= u64::MAX,
        ensures
            final(self).inv(),
            same_config(*old(self), *final(self)),
            final(self).suction == old(self).suction,
            final(self).brokerage == old(self).brokerage,
            final(self).jackpot == old(self).jackpot,
            old(self).fall_class(reward) is Reflesh ==> !hit,
            old(self).fall_class(reward) is Win ==> hit,
            old(self).fall_class(reward) is Normal && fall_scaled_odds(odds) <= RATIO ==> hit,
            hit ==> final(self).pot == old(self).pot - min(old(self).pot as int, reward as int)
                && final(self).bonus == old(self).bonus + min(old(self).pot as int, reward as int),
            !hit ==> final(self).pot == old(self).pot && final(self).bonus == old(self).bonus,
            old(self).fall_class(reward) is Normal && !hit ==> final(self).spec_segment() == old(self).spec_segment() && final(self).spec_waves() == old(self).spec_waves(),
            hit && old(self).pot - min(old(self).pot as int, reward as int) <= old(self).spec_segment().1 ==> advanced_segment(*old(self), *final(self), final(self).pot),
            hit && old(self).pot - min(old(self).pot as int, reward as int) > old(self).spec_segment().1 ==> final(self).spec_segment() == old(self).spec_segment() && final(self).spec_waves() == old(self).spec_waves(),
            old(self).fall_class(reward) is Reflesh ==> final(self).spec_segment().0 == old(self).pot && 134 <= final(self).spec_waves().len() <= 624,
    {
        match self.analyzing_fall(reward) {
            FallState::Normal => {
                if self.fall_run(odds) {
                    self.fall_action(reward);
                    true
                } else {
                    false
                }
            },
            FallState::Win => {
                self.fall_action(reward);
                true
            },
            FallState::Reflesh => {
                self.create_new_wave_and_segment();
                false
            },
        }
    }

    /// Classify a fall settlement against the pot and the segment floor.
    fn analyzing_fall(&self, reward: u64) -> (r: FallState)
        ensures
            r == self.fall_class(reward),
    {
        if reward > self.pot {
            let (top, _) = self.segment;
            if self.pot > top {
                FallState::Win
            } else {
                FallState::Reflesh
            }
        } else {
            FallState::Normal
        }
    }

    /// The fall coin flip: odds scaled by `RATIO - SPEED_BIG` at or above
    /// `BIG_ODDS`, by `RATIO - SPEED_RATE` below it.
    fn fall_run(&mut self, odds: u64) -> (hit: bool)
        requires
            odds >= 1,
            ascent_scaled_odds(odds) <= u64::MAX,
        ensures
            fall_scaled_odds(odds) <= RATIO ==> hit,
            same_config(*old(self), *final(self)),
            final(self).pot == old(self).pot,
            final(self).jackpot == old(self).jackpot,
            final(self).suction == old(self).suction,
            final(self).brokerage == old(self).brokerage,
            final(self).bonus == old(self).bonus,
            final(self).spec_waves() == old(self).spec_waves(),
            final(self).spec_segment() == old(self).spec_segment(),
            old(self).inv() ==> final(self).inv(),
    {
        proof {
            assert(odds * (RATIO - SPEED_BIG) <= odds * (ASCENT_SPEED_RATE + RATIO)
                && odds * (RATIO - SPEED_BIG) >= 1 * (RATIO - SPEED_BIG)) by (nonlinear_arith)
                requires
                    odds >= 1,
                    0 <= RATIO - SPEED_BIG <= ASCENT_SPEED_RATE + RATIO,
            ;
            assert(odds * (RATIO - SPEED_RATE) <= odds * (ASCENT_SPEED_RATE + RATIO)
                && odds * (RATIO - SPEED_RATE) >= 1 * (RATIO - SPEED_RATE)) by (nonlinear_arith)
                requires
                    odds >= 1,
                    0 <= RATIO - SPEED_RATE <= ASCENT_SPEED_RATE + RATIO,
            ;
        }
        let new_odds: u64 = if odds >= BIG_ODDS {
            odds * (RATIO - SPEED_BIG)
        } else {
            odds * (RATIO - SPEED_RATE)
        };
        self.run(new_odds)
    }

    /// A winning fall pays out of the pot, then consumes the next wave level
    /// when the pot has fallen to or below the segment's far edge.
    fn fall_action(&mut self, reward: u64)
        requires
            old(self).inv(),
            old(self).bonus + min(old(self).pot as int, reward as int) <= u64::MAX,
        ensures
            final(self).inv(),
            same_config(*old(self), *final(self)),
            final(self).suction == old(self).suction,
            final(self).jackpot == old(self).jackpot,
            final(self).brokerage == old(self).brokerage,
            final(self).pot == old(self).pot - min(old(self).pot as int, reward as int),
            final(self).bonus == old(self).bonus + min(old(self).pot as int, reward as int),
            old(self).pot - min(old(self).pot as int, reward as int) <= old(self).spec_segment().1
                ==> advanced_segment(*old(self), *final(self), final(self).pot),
            old(self).pot - min(old(self).pot as int, reward as int) > old(self).spec_segment().1
                ==> final(self).spec_segment() == old(self).spec_segment() && final(self).spec_waves() == old(self).spec_waves(),
    {
        self.decrease_pot(reward);
        let (_, destination) = self.segment;
        if self.pot <= destination {
            self.consume_and_segment();
        }
    }

    /// One weighted coin flip: draw uniformly from `[1, scaled_odds]` and hit
    /// exactly when the draw lands at or below `RATIO`, so a larger scaled
    /// odds means a rarer hit.  Odds scaled to `RATIO` or below always hit.
    fn run(&mut self, scaled_odds: u64) -> (hit: bool)
        requires
            scaled_odds >= 1,
        ensures
            scaled_odds <= RATIO ==> hit,
            same_config(*old(self), *final(self)),
            final(self).pot == old(self).pot,
            final(self).jackpot == old(self).jackpot,
            final(self).suction == old(self).suction,
            final(self).brokerage == old(self).brokerage,
            final(self).bonus == old(self).bonus,
            final(self).spec_waves() == old(self).spec_waves(),
            final(self).spec_segment() == old(self).spec_segment(),
            old(self).inv() ==> final(self).inv(),
    {
        let rand: u64 = rng_in_range(&mut self.rng, 1, scaled_odds);
        rand <= RATIO
    }

    /// Pop the next queued wave level into a fresh segment anchored at the
    /// current pot; when that empties the queue, immediately regenerate a
    /// wave from the current pot so a target is always at hand.
    fn consume_and_segment(&mut self)
        requires
            old(self).inv(),
        ensures
            final(self).inv(),
            same_config(*old(self), *final(self)),
            final(self).pot == old(self).pot,
            final(self).jackpot == old(self).jackpot,
            final(self).suction == old(self).suction,
            final(self).brokerage == old(self).brokerage,
            final(self).bonus == old(self).bonus,
            advanced_segment(*old(self), *final(self), old(self).pot),
    {
        let w: u64 = self.waves.remove(0);
        self.segment = (self.pot, w);
        if self.waves.len() == 0 {
            self.refill_waves();
        }
    }

    /// Discard the queue, generate a wholly new wave and consume its first
    /// level as the fresh segment.
    fn create_new_wave_and_segment(&mut self)
        requires
            old(self).inv(),
        ensures
            final(self).inv(),
            same_config(*old(self), *final(self)),
            final(self).pot == old(self).pot,
            final(self).jackpot == old(self).jackpot,
            final(self).suction == old(self).suction,
            final(self).brokerage == old(self).brokerage,
            final(self).bonus == old(self).bonus,
            final(self).spec_segment().0 == old(self).pot,
            134 <= final(self).spec_waves().len() <= 624,
    {
        self.refill_waves();
        self.consume_and_segment();
    }

    /// Regenerate the wave queue from the current pot, clamped up to the
    /// baseline when payouts have drained the pot below it.
    fn refill_waves(&mut self)
        requires
            old(self).base_line < old(self).boundary,
        ensures
            same_config(*old(self), *final(self)),
            final(self).pot == old(self).pot,
            final(self).jackpot == old(self).jackpot,
            final(self).suction == old(self).suction,
            final(self).brokerage == old(self).brokerage,
            final(self).bonus == old(self).bonus,
            final(self).spec_segment() == old(self).spec_segment(),
            135 <= final(self).spec_waves().len() <= 625,
            final(self).spec_waves().last() == old(self).base_line || final(self).spec_waves().last()
                == old(self).boundary,
    {
        let origin: u64 = if self.pot < self.base_line {
            self.base_line
        } else {
            self.pot
        };
        let w: Vec<u64> = wave::create_wave(origin, self.base_line, self.boundary, &mut self.rng);
        self.waves = w;
    }
}

/// Build a pool around a fresh entropy-seeded random source: generate the
/// first wave from the pot (clamped up to the baseline) and consume its
/// first level as the opening segment.
fn create_pool(
    id: u32,
    owner_id: u32,
    bet_unit: u64,
    base_line: u64,
    boundary: u64,
    brokerage_ratio: u64,
    jackpot_ratio: u64,
    pot: u64,
    jackpot: u64,
    suction: u64,
    brokerage: u64,
    bonus: u64,
    advance: u64,
) -> (p: Pool)
    requires
        brokerage_ratio + jackpot_ratio <= RATIO,
        base_line < boundary,
    ensures
        p.inv(),
        p.id == id,
        p.owner_id == owner_id,
        p.bet_unit == bet_unit,
        p.base_line == base_line,
        p.boundary == boundary,
        p.brokerage_ratio == brokerage_ratio,
        p.jackpot_ratio == jackpot_ratio,
        p.pot_ratio == RATIO - brokerage_ratio - jackpot_ratio,
        p.pot == pot,
        p.jackpot == jackpot,
        p.suction == suction,
        p.brokerage == brokerage,
        p.bonus == bonus,
        p.advance == advance,
        p.spec_segment().0 == pot,
{
    let mut rng0: rand::rngs::StdRng = rng_from_entropy();
    let origin: u64 = if pot < base_line {
        base_line
    } else {
        pot
    };
    let mut waves: Vec<u64> = wave::create_wave(origin, base_line, boundary, &mut rng0);
    let segment: (u64, u64) = wave::create_segment(&mut waves, pot);
    Pool {
        id,
        owner_id,
        bet_unit,
        brokerage_ratio,
        jackpot_ratio,
        base_line,
        boundary,
        pot_ratio: RATIO - brokerage_ratio - jackpot_ratio,
        pot,
        jackpot,
        suction,
        brokerage,
        bonus,
        advance,
        waves,
        segment,
        rng: rng0,
    }
}

/// Law: the three ratios of a well-formed pool always sum to `RATIO`; pools
/// are well-formed after construction, rehydration and every settlement or
/// ratio update.
pub proof fn lemma_ratio_invariant(p: &Pool)
    requires
        p.inv(),
    ensures
        p.brokerage_ratio + p.jackpot_ratio + p.pot_ratio == RATIO,
{
}

/// Law: a well-formed pool always holds a queued wave level, so a trajectory
/// target is available without regeneration on every settlement.
pub proof fn lemma_waves_never_empty(p: &Pool)
    requires
        p.inv(),
    ensures
        p.spec_waves().len() >= 1,
{
}

/// Law: the trajectory state is a pure function of the pot against the
/// current segment — `Fall` exactly when the pot exceeds the far edge, else
/// `Ascent` — so re-querying it without an intervening settlement always
/// yields the same answer.
pub proof fn lemma_state_consistency(p: &Pool)
    ensures
        p.spec_state() is Fall <==> p.pot > p.spec_segment().1,
        p.spec_state() is Ascent <==> p.pot <= p.spec_segment().1,
{
}

} // verus!

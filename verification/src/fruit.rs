//! Fruit-symbol paytable: odds per symbol and difficulty level, reel
//! positions for each outcome, and the aggregation of one spin's bet lines
//! into a payout report, settling each line against the pool.

use vstd::prelude::*;
use crate::pool::{same_config, draw_fits, Pool, PoolError, ASCENT_SPEED_RATE, RATIO};
use crate::rng::rng_in_range;

verus! {

pub const BAR_HIGH_ODDS: u8 = 100;
pub const BAR_MEDIUM_ODDS: u8 = 50;
pub const BAR_LOW_ODDS: u8 = 25;

pub const GENERAL_HIGH_ODDS: u8 = 40;
pub const GENERAL_MEDIUM_ODDS: u8 = 30;
pub const GENERAL_LOW_ODDS: u8 = 20;
pub const GENERAL_MINIMAL_ODDS: u8 = 2;

pub const SECONDARY_HIGH_ODDS: u8 = 20;
pub const SECONDARY_MEDIUM_ODDS: u8 = 15;
pub const SECONDARY_LOW_ODDS: u8 = 10;
pub const SECONDARY_MINIMAL_ODDS: u8 = 2;

pub const APPLE_ODDS: u8 = 5;

pub const BAR_POSITION_HIGH: u8 = 3;
pub const BAR_POSITION_MID: u8 = 2;
pub const BAR_POSITION_LOW: u8 = 4;

pub const LUCKY_SEVEN_POSITION_BIG: u8 = 15;
pub const LUCKY_SEVEN_POSITION_MINIMA: u8 = 14;

pub const STAR_POSITION_BIG: u8 = 19;
pub const STAR_POSITION_MINIMA: u8 = 20;

pub const WATERMELON_POSITION_BIG: u8 = 7;
pub const WATERMELON_POSITION_MINIMA: u8 = 8;

pub const BELL_POSITION_BIG_A: u8 = 1;
pub const BELL_POSITION_BIG_B: u8 = 13;
pub const BELL_POSITION_MINIMA: u8 = 23;

pub const LEMON_POSITION_BIG_A: u8 = 6;
pub const LEMON_POSITION_BIG_B: u8 = 18;
pub const LEMON_POSITION_MINIMA: u8 = 17;

pub const ORANGE_POSITION_BIG_A: u8 = 0;
pub const ORANGE_POSITION_BIG_B: u8 = 12;
pub const ORANGE_POSITION_MINIMA: u8 = 11;

pub const APPLE_POSITION_A: u8 = 5;
pub const APPLE_POSITION_B: u8 = 10;
pub const APPLE_POSITION_C: u8 = 16;
pub const APPLE_POSITION_D: u8 = 22;

/// Reel position reported when no symbol at all was hit or missed.
pub const NONE_POSITION: u8 = 21;

/// Reel position prepended when several symbols hit in one spin.
pub const MULTI_POSITION: u8 = 9;

/// Difficulty level of one spin, drawn once per spin.
#[derive(Debug, Clone, Copy, PartialEq, Eq, Structural)]
pub enum GeneralLevel {
    High,
    Medium,
    Low,
    Minimal,
}

impl GeneralLevel {
    /// The index this level reports in a payout report.
    pub open spec fn spec_position(&self) -> u8 {
        match self {
            GeneralLevel::High => 0,
            GeneralLevel::Medium => 1,
            _ => 2,
        }
    }

    pub fn get_position(&self) -> (r: u8)
        ensures
            r == self.spec_position(),
    {
        match self {
            GeneralLevel::High => 0,
            GeneralLevel::Medium => 1,
            _ => 2,
        }
    }
}

/// The eight reel symbols a line can be bet on.
#[derive(Debug, Clone, Copy, PartialEq, Eq, Structural, Hash)]
pub enum FruitSymbol {
    Bar,
    LuckySeven,
    Star,
    Watermelon,
    Bell,
    Lemon,
    Orange,
    Apple,
}

/// The paytable: odds for one symbol at one difficulty level.
pub open spec fn spec_odds(sym: FruitSymbol, level: GeneralLevel) -> u8 {
    match sym {
        FruitSymbol::Bar => match level {
            GeneralLevel::High => BAR_HIGH_ODDS,
            GeneralLevel::Medium => BAR_MEDIUM_ODDS,
            _ => BAR_LOW_ODDS,
        },
        FruitSymbol::LuckySeven | FruitSymbol::Star | FruitSymbol::Watermelon => match level {
            GeneralLevel::High => GENERAL_HIGH_ODDS,
            GeneralLevel::Medium => GENERAL_MEDIUM_ODDS,
            GeneralLevel::Low => GENERAL_LOW_ODDS,
            GeneralLevel::Minimal => GENERAL_MINIMAL_ODDS,
        },
        FruitSymbol::Bell | FruitSymbol::Lemon | FruitSymbol::Orange => match level {
            GeneralLevel::High => SECONDARY_HIGH_ODDS,
            GeneralLevel::Medium => SECONDARY_MEDIUM_ODDS,
            GeneralLevel::Low => SECONDARY_LOW_ODDS,
            GeneralLevel::Minimal => SECONDARY_MINIMAL_ODDS,
        },
        FruitSymbol::Apple => APPLE_ODDS,
    }
}

/// Every paytable entry lies between the minimal odds and the bar jackpot.
pub proof fn lemma_odds_bounds(sym: FruitSymbol, level: GeneralLevel)
    ensures
        2 <= spec_odds(sym, level) <= 100,
{
}

/// Which reel positions one symbol may land on at one level.
pub open spec fn position_ok(sym: FruitSymbol, level: GeneralLevel, p: u8) -> bool {
    match sym {
        FruitSymbol::Bar => match level {
            GeneralLevel::High => p == BAR_POSITION_HIGH,
            GeneralLevel::Medium => p == BAR_POSITION_MID,
            _ => p == BAR_POSITION_LOW,
        },
        FruitSymbol::LuckySeven => if level is Minimal {
            p == LUCKY_SEVEN_POSITION_MINIMA
        } else {
            p == LUCKY_SEVEN_POSITION_BIG
        },
        FruitSymbol::Star => if level is Minimal {
            p == STAR_POSITION_MINIMA
        } else {
            p == STAR_POSITION_BIG
        },
        FruitSymbol::Watermelon => if level is Minimal {
            p == WATERMELON_POSITION_MINIMA
        } else {
            p == WATERMELON_POSITION_BIG
        },
        FruitSymbol::Bell => if level is Minimal {
            p == BELL_POSITION_MINIMA
        } else {
            p == BELL_POSITION_BIG_A || p == BELL_POSITION_BIG_B
        },
        FruitSymbol::Lemon => if level is Minimal {
            p == LEMON_POSITION_MINIMA
        } else {
            p == LEMON_POSITION_BIG_A || p == LEMON_POSITION_BIG_B
        },
        FruitSymbol::Orange => if level is Minimal {
            p == ORANGE_POSITION_MINIMA
        } else {
            p == ORANGE_POSITION_BIG_A || p == ORANGE_POSITION_BIG_B
        },
        FruitSymbol::Apple => p == APPLE_POSITION_A || p == APPLE_POSITION_B || p
            == APPLE_POSITION_C || p == APPLE_POSITION_D,
    }
}

/// Every reel position lies on the 24-cell reel.
pub proof fn lemma_position_bound(sym: FruitSymbol, level: GeneralLevel, p: u8)
    requires
        position_ok(sym, level, p),
    ensures
        p <= 23,
{
}

impl FruitSymbol {
    /// The odds this symbol pays at the given level.
    pub fn get_odds(&self, level: &GeneralLevel) -> (r: u8)
        ensures
            r == spec_odds(*self, *level),
    {
        match self {
            FruitSymbol::Bar => match level {
                GeneralLevel::High => BAR_HIGH_ODDS,
                GeneralLevel::Medium => BAR_MEDIUM_ODDS,
                _ => BAR_LOW_ODDS,
            },
            FruitSymbol::LuckySeven | FruitSymbol::Star | FruitSymbol::Watermelon => match level {
                GeneralLevel::High => GENERAL_HIGH_ODDS,
                GeneralLevel::Medium => GENERAL_MEDIUM_ODDS,
                GeneralLevel::Low => GENERAL_LOW_ODDS,
                GeneralLevel::Minimal => GENERAL_MINIMAL_ODDS,
            },
            FruitSymbol::Bell | FruitSymbol::Lemon | FruitSymbol::Orange => match level {
                GeneralLevel::High => SECONDARY_HIGH_ODDS,
                GeneralLevel::Medium => SECONDARY_MEDIUM_ODDS,
                GeneralLevel::Low => SECONDARY_LOW_ODDS,
                GeneralLevel::Minimal => SECONDARY_MINIMAL_ODDS,
            },
            FruitSymbol::Apple => APPLE_ODDS,
        }
    }

    /// The reel position this symbol lands on at the given level; symbols
    /// with two big positions pick one of them at random.
    fn get_position(&self, level: &GeneralLevel, rng: &mut rand::rngs::StdRng) -> (r: u8)
        ensures
            position_ok(*self, *level, r),
    {
        match self {
            FruitSymbol::Bar => match level {
                GeneralLevel::High => BAR_POSITION_HIGH,
                GeneralLevel::Medium => BAR_POSITION_MID,
                _ => BAR_POSITION_LOW,
            },
            FruitSymbol::LuckySeven => match level {
                GeneralLevel::Minimal => LUCKY_SEVEN_POSITION_MINIMA,
                _ => LUCKY_SEVEN_POSITION_BIG,
            },
            FruitSymbol::Star => match level {
                GeneralLevel::Minimal => STAR_POSITION_MINIMA,
                _ => STAR_POSITION_BIG,
            },
            FruitSymbol::Watermelon => match level {
                GeneralLevel::Minimal => WATERMELON_POSITION_MINIMA,
                _ => WATERMELON_POSITION_BIG,
            },
            FruitSymbol::Bell => match level {
                GeneralLevel::Minimal => BELL_POSITION_MINIMA,
                _ => {
                    let k: u64 = rng_in_range(rng, 0, 1);
                    if k == 0 {
                        BELL_POSITION_BIG_A
                    } else {
                        BELL_POSITION_BIG_B
                    }
                },
            },
            FruitSymbol::Lemon => match level {
                GeneralLevel::Minimal => LEMON_POSITION_MINIMA,
                _ => {
                    let k: u64 = rng_in_range(rng, 0, 1);
                    if k == 0 {
                        LEMON_POSITION_BIG_A
                    } else {
                        LEMON_POSITION_BIG_B
                    }
                },
            },
            FruitSymbol::Orange => match level {
                GeneralLevel::Minimal => ORANGE_POSITION_MINIMA,
                _ => {
                    let k: u64 = rng_in_range(rng, 0, 1);
                    if k == 0 {
                        ORANGE_POSITION_BIG_A
                    } else {
                        ORANGE_POSITION_BIG_B
                    }
                },
            },
            FruitSymbol::Apple => {
                let k: u64 = rng_in_range(rng, 0, 3);
                if k == 0 {
                    APPLE_POSITION_A
                } else if k == 1 {
                    APPLE_POSITION_B
                } else if k == 2 {
                    APPLE_POSITION_C
                } else {
                    APPLE_POSITION_D
                }
            },
        }
    }
}

/// One bet line: a symbol and the wager placed on it.
#[derive(Debug, Clone, Copy, PartialEq, Eq, Structural)]
pub struct FruitBet {
    pub symbol: FruitSymbol,
    /// Wager units; the admissible range is 1 to 100.
    pub value: u32,
}

impl FruitBet {
    /// The admissible wager range for one bet line.
    pub open spec fn spec_valid(&self) -> bool {
        1 <= self.value <= 100
    }

    /// Whether the wager lies in the admissible range.
    pub fn validate(&self) -> (r: bool)
        ensures
            r == self.spec_valid(),
    {
        self.value >= 1 && self.value <= 100
    }

    /// Settle this bet line: one pool draw at the symbol's odds for the
    /// spin's level, plus the reel position when it hit.
    fn draw(&self, level: &GeneralLevel, pool: &mut Pool) -> (r: Result<
        (bool, u64, Option<u8>),
        PoolError,
    >)
        requires
            old(pool).inv(),
        ensures
            final(pool).inv(),
            same_config(*old(pool), *final(pool)),
            (r is Ok <==> self.value >= 1 && draw_fits(
                *old(pool),
                self.value as u64,
                spec_odds(self.symbol, *level) as u64,
            )),
            (r == Err::<(bool, u64, Option<u8>), PoolError>(PoolError::InvalidInput) <==> self.value
                == 0),
            (r == Err::<(bool, u64, Option<u8>), PoolError>(PoolError::Overflow) <==> self.value
                >= 1 && !draw_fits(*old(pool), self.value as u64, spec_odds(self.symbol, *level) as u64)),
            r is Err ==> *final(pool) == *old(pool),
            r matches Ok((flag, reward, position)) ==> {
                let v = old(pool).bet_unit * self.value;
                let rw = self.value * spec_odds(self.symbol, *level) * RATIO;
                &&& final(pool).suction == old(pool).suction + self.value
                &&& final(pool).brokerage == old(pool).brokerage + old(pool).brokerage_ratio * v
                &&& final(pool).jackpot == old(pool).jackpot + old(pool).jackpot_ratio * v
                &&& final(pool).pot <= old(pool).pot + old(pool).pot_ratio * v
                &&& old(pool).bonus <= final(pool).bonus <= old(pool).bonus + rw
                &&& flag ==> reward == rw
                &&& !flag ==> reward == 0
                &&& (flag <==> position is Some)
                &&& (position matches Some(p) ==> position_ok(self.symbol, *level, p))
            },
    {
        let odds: u64 = self.symbol.get_odds(level) as u64;
        proof {
            lemma_odds_bounds(self.symbol, *level);
        }
        let dr: Result<(bool, u64), PoolError> = pool.draw(self.value as u64, odds);
        match dr {
            Err(e) => Err(e),
            Ok((flag, reward)) => {
                let position: Option<u8> = if flag {
                    Some(get_furit_postition(&self.symbol, level, &mut pool.rng))
                } else {
                    None
                };
                Ok((flag, reward, position))
            },
        }
    }
}

/// The reel position for a drawn symbol, from the pool's own random stream.
fn get_furit_postition(
    symbol: &FruitSymbol,
    level: &GeneralLevel,
    rng: &mut rand::rngs::StdRng,
) -> (r: u8)
    ensures
        position_ok(*symbol, *level, r),
{
    symbol.get_position(level, rng)
}

/// The settled outcome of one bet line.
#[derive(Debug, Clone, Copy, PartialEq, Eq, Structural)]
pub struct FruitReward {
    pub symbol: FruitSymbol,
    pub bet: u64,
    pub reward: u64,
    pub flag: bool,
}

impl FruitReward {
    pub fn new(symbol: FruitSymbol, bet: u64, reward: u64, flag: bool) -> (r: FruitReward)
        ensures
            r.symbol == symbol,
            r.bet == bet,
            r.reward == reward,
            r.flag == flag,
    {
        FruitReward { symbol, bet, reward, flag }
    }
}

/// One spin's payout report: the settled lines, the reel positions to show,
/// and the index of the drawn difficulty level.
#[derive(Debug)]
pub struct FruitDraw {
    pub rewards: Vec<FruitReward>,
    pub positions: Vec<u8>,
    pub odds: u8,
}

/// Total wager units across a spin's bet lines.
pub open spec fn sum_values(s: Seq<FruitBet>) -> int
    decreases s.len(),
{
    if s.len() == 0 {
        0
    } else {
        sum_values(s.drop_last()) + s.last().value
    }
}

proof fn lemma_sum_values_take_step(s: Seq<FruitBet>, k: int)
    requires
        0 <= k < s.len(),
    ensures
        sum_values(s.take(k + 1)) == sum_values(s.take(k)) + s[k].value,
{
    assert(s.take(k + 1).drop_last() =~= s.take(k));
    assert(s.take(k + 1).last() == s[k]);
}

proof fn lemma_sum_values_take_le(s: Seq<FruitBet>, k: int)
    requires
        0 <= k <= s.len(),
    ensures
        sum_values(s.take(k)) <= sum_values(s),
    decreases s.len() - k,
{
    if k == s.len() {
        assert(s.take(k) =~= s);
    } else {
        lemma_sum_values_take_step(s, k);
        lemma_sum_values_take_le(s, k + 1);
    }
}

proof fn lemma_sum_values_nonneg(s: Seq<FruitBet>, k: int)
    requires
        0 <= k <= s.len(),
    ensures
        sum_values(s.take(k)) >= 0,
    decreases k,
{
    if k == 0 {
        assert(s.take(0) =~= Seq::<FruitBet>::empty());
    } else {
        lemma_sum_values_take_step(s, k - 1);
        lemma_sum_values_nonneg(s, k - 1);
    }
}

/// Every bet line's wager is in the admissible range.
pub open spec fn all_bets_valid(s: Seq<FruitBet>) -> bool {
    forall|i: int| 0 <= i < s.len() ==> (#[trigger] s[i]).spec_valid()
}

/// Every accumulator has room for a whole spin's wagers and payouts: the
/// wager volume, the ratio cuts of its full value, and the largest possible
/// payout (odds capped at the bar jackpot) all fit in `u64`.
pub open spec fn fruit_fits(p: Pool, fruits: Seq<FruitBet>) -> bool {
    let sv = sum_values(fruits);
    &&& p.suction + sv <= u64::MAX
    &&& p.bet_unit * sv <= u64::MAX
    &&& p.pot + p.pot_ratio * (p.bet_unit * sv) <= u64::MAX
    &&& p.brokerage + p.brokerage_ratio * (p.bet_unit * sv) <= u64::MAX
    &&& p.jackpot + p.jackpot_ratio * (p.bet_unit * sv) <= u64::MAX
    &&& p.bonus + 100 * RATIO * sv <= u64::MAX
}

/// The settled lines mirror the bet lines one for one: same symbol, same
/// wager, and a hit pays exactly wager times the paytable odds at the spin's
/// level, scaled by `RATIO`, while a miss pays zero.
pub open spec fn rewards_match(
    bets: Seq<FruitBet>,
    rewards: Seq<FruitReward>,
    lvl: GeneralLevel,
) -> bool {
    &&& rewards.len() == bets.len()
    &&& forall|i: int|
        0 <= i < bets.len() ==> {
            &&& (#[trigger] rewards[i]).symbol == bets[i].symbol
            &&& rewards[i].bet == bets[i].value as u64
            &&& (rewards[i].flag ==> rewards[i].reward == bets[i].value * spec_odds(
                bets[i].symbol,
                lvl,
            ) * RATIO)
            &&& (!rewards[i].flag ==> rewards[i].reward == 0)
        }
}

/// Whether some bet line of the spin wagers on the symbol.
pub open spec fn symbol_bet(s: FruitSymbol, bets: Seq<FruitBet>) -> bool {
    exists|i: int| 0 <= i < bets.len() && (#[trigger] bets[i]).symbol == s
}

/// Every one of the eight symbols is wagered on by some bet line.
pub open spec fn all_symbols_bet(bets: Seq<FruitBet>) -> bool {
    forall|s: FruitSymbol| symbol_bet(s, bets)
}

/// How many of the settled lines hit.
pub open spec fn count_hits(rs: Seq<FruitReward>) -> int
    decreases rs.len(),
{
    if rs.len() == 0 {
        0
    } else {
        count_hits(rs.drop_last()) + if rs.last().flag {
            1int
        } else {
            0int
        }
    }
}

/// The reel positions report the hits one for one, in bet order: walked from
/// the back, each hit line pairs with one position admissible for its symbol
/// at the spin's level, and misses contribute none.
pub open spec fn positions_track_hits(
    bets: Seq<FruitBet>,
    rs: Seq<FruitReward>,
    lvl: GeneralLevel,
    ps: Seq<u8>,
) -> bool
    decreases rs.len(),
{
    if rs.len() == 0 {
        ps.len() == 0
    } else if rs.last().flag {
        &&& ps.len() >= 1
        &&& position_ok(bets[rs.len() - 1].symbol, lvl, ps.last())
        &&& positions_track_hits(bets, rs.drop_last(), lvl, ps.drop_last())
    } else {
        positions_track_hits(bets, rs.drop_last(), lvl, ps)
    }
}

/// Tracking positions pair off exactly one per hit.
pub proof fn lemma_track_len(
    bets: Seq<FruitBet>,
    rs: Seq<FruitReward>,
    lvl: GeneralLevel,
    ps: Seq<u8>,
)
    requires
        positions_track_hits(bets, rs, lvl, ps),
    ensures
        ps.len() == count_hits(rs),
    decreases rs.len(),
{
    if rs.len() > 0 {
        if rs.last().flag {
            lemma_track_len(bets, rs.drop_last(), lvl, ps.drop_last());
        } else {
            lemma_track_len(bets, rs.drop_last(), lvl, ps);
        }
    }
}

/// A filter that keeps everything changes nothing.
proof fn lemma_filter_all(s: Seq<FruitSymbol>, p: spec_fn(FruitSymbol) -> bool)
    requires
        forall|x: FruitSymbol| #[trigger] p(x),
    ensures
        s.filter(p) == s,
    decreases s.len(),
{
    reveal(Seq::filter);
    if s.len() == 0 {
        assert(s.filter(p) =~= s);
    } else {
        lemma_filter_all(s.drop_last(), p);
        assert(p(s.last()));
        assert(s.drop_last().push(s.last()) =~= s);
    }
}

/// Filtering twice is filtering by the conjunction.
proof fn lemma_filter_compose(
    s: Seq<FruitSymbol>,
    p: spec_fn(FruitSymbol) -> bool,
    q: spec_fn(FruitSymbol) -> bool,
    pq: spec_fn(FruitSymbol) -> bool,
)
    requires
        forall|x: FruitSymbol| #[trigger] pq(x) <==> p(x) && q(x),
    ensures
        s.filter(p).filter(q) == s.filter(pq),
    decreases s.len(),
{
    reveal(Seq::filter);
    if s.len() > 0 {
        lemma_filter_compose(s.drop_last(), p, q, pq);
        let f1 = s.drop_last().filter(p);
        assert(pq(s.last()) <==> p(s.last()) && q(s.last()));
        if p(s.last()) {
            assert(s.filter(p) == f1.push(s.last()));
            assert(f1.push(s.last()).drop_last() =~= f1);
            assert(f1.push(s.last()).last() == s.last());
        }
    }
}

/// Settle one spin: draw the difficulty level once, settle every bet line
/// against the pool, and assemble the payout report with the reel positions
/// to show (the missed-symbol position when nothing hit, or the multi-hit
/// marker in front of several positions).
pub fn draw(fruits: Vec<FruitBet>, pool: &mut Pool) -> (r: Result<FruitDraw, PoolError>)
    requires
        old(pool).inv(),
    ensures
        final(pool).inv(),
        same_config(*old(pool), *final(pool)),
        final(pool).suction >= old(pool).suction,
        final(pool).brokerage >= old(pool).brokerage,
        final(pool).jackpot >= old(pool).jackpot,
        final(pool).bonus >= old(pool).bonus,
        r matches Ok(d) ==> d.rewards@.len() == fruits@.len() && d.positions@.len() >= 1,
        r matches Ok(d) ==> forall|j: int| 0 <= j < d.positions@.len() ==> (#[trigger] d.positions@[j]) <= 23,
        r matches Ok(d) ==> exists|lvl: GeneralLevel|
            #[trigger] rewards_match(fruits@, d.rewards@, lvl) && d.odds == lvl.spec_position() && (
            count_hits(d.rewards@) == 1 ==> positions_track_hits(
                fruits@,
                d.rewards@,
                lvl,
                d.positions@,
            )) && (count_hits(d.rewards@) >= 2 ==> positions_track_hits(
                fruits@,
                d.rewards@,
                lvl,
                d.positions@.skip(1),
            )),
        r matches Ok(d) ==> {
            let h = count_hits(d.rewards@);
            &&& (h == 0 && all_symbols_bet(fruits@) ==> d.positions@ == seq![NONE_POSITION])
            &&& (h == 0 && !all_symbols_bet(fruits@) ==> d.positions@.len() == 1 && exists|
                s: FruitSymbol,
                lvl2: GeneralLevel,
            |
                !symbol_bet(s, fruits@) && (lvl2 == GeneralLevel::Minimal || lvl2
                    == GeneralLevel::Low) && #[trigger] position_ok(s, lvl2, d.positions@[0]))
            &&& (h >= 2 ==> d.positions@.len() == h + 1 && d.positions@[0] == MULTI_POSITION)
        },
        r is Ok ==> final(pool).suction == old(pool).suction + sum_values(fruits@) && final(pool).brokerage == old(pool).brokerage + old(pool).brokerage_ratio * (old(pool).bet_unit * sum_values(fruits@)) && final(pool).jackpot == old(pool).jackpot + old(pool).jackpot_ratio * (old(pool).bet_unit * sum_values(fruits@)) && final(pool).pot <= old(pool).pot + old(pool).pot_ratio * (old(pool).bet_unit * sum_values(fruits@)) && final(pool).bonus <= old(pool).bonus + 100 * RATIO * sum_values(fruits@),
        r == Err::<FruitDraw, PoolError>(PoolError::InvalidInput) ==> exists|i: int|
            0 <= i < fruits@.len() && (#[trigger] fruits@[i]).value == 0,
        all_bets_valid(fruits@) && fruit_fits(*old(pool), fruits@) ==> r is Ok,
{
    let level: GeneralLevel = random_level(&mut pool.rng);
    let mut positions: Vec<u8> = Vec::new();
    let mut missed: Vec<FruitSymbol> = full_symbol();
    let ghost full0: Seq<FruitSymbol> = missed@;
    let rewards: Vec<FruitReward> = match calculate_rewards(
        &fruits,
        pool,
        &level,
        &mut positions,
        &mut missed,
    ) {
        Ok(x) => x,
        Err(e) => {
            return Err(e);
        },
    };
    proof {
        assert(positions@.skip(0) =~= positions@);
        lemma_track_len(fruits@, rewards@, level, positions@);
        // the missed list is empty exactly when every symbol was bet
        if missed@.len() == 0 {
            assert forall|s: FruitSymbol| symbol_bet(s, fruits@) by {
                if !symbol_bet(s, fruits@) {
                    let i: int = if s == FruitSymbol::Bar {
                        0
                    } else if s == FruitSymbol::LuckySeven {
                        1
                    } else if s == FruitSymbol::Star {
                        2
                    } else if s == FruitSymbol::Watermelon {
                        3
                    } else if s == FruitSymbol::Bell {
                        4
                    } else if s == FruitSymbol::Lemon {
                        5
                    } else if s == FruitSymbol::Orange {
                        6
                    } else {
                        7
                    };
                    assert(full0[i] == s);
                    full0.lemma_filter_contains(|s: FruitSymbol| !symbol_bet(s, fruits@), i);
                    assert(missed@.len() > 0);
                }
            }
            assert(all_symbols_bet(fruits@));
        } else {
            full0.lemma_filter_pred(|s: FruitSymbol| !symbol_bet(s, fruits@), 0);
            assert(!symbol_bet(missed@[0], fruits@));
            assert(!all_symbols_bet(fruits@));
        }
    }
    let new_positions: Vec<u8> = if positions.len() == 0 {
        if missed.len() == 0 {
            let only_none: Vec<u8> = vec![NONE_POSITION];
            proof {
                assert(only_none@ =~= seq![NONE_POSITION]);
            }
            only_none
        } else {
            let consolation: Vec<u8> = get_missed_position(&missed, &mut pool.rng);
            proof {
                let (i0, lvl0): (int, GeneralLevel) = choose|i0: int, lvl0: GeneralLevel|
                    0 <= i0 < missed@.len() && (lvl0 == GeneralLevel::Minimal || lvl0
                        == GeneralLevel::Low) && #[trigger] position_ok(
                        missed@[i0],
                        lvl0,
                        consolation@[0],
                    );
                full0.lemma_filter_pred(|s: FruitSymbol| !symbol_bet(s, fruits@), i0);
                assert(!symbol_bet(missed@[i0], fruits@));
                assert(position_ok(missed@[i0], lvl0, consolation@[0]));
            }
            consolation
        }
    } else if positions.len() == 1 {
        positions
    } else {
        let ghost ps0: Seq<u8> = positions@;
        positions.insert(0, MULTI_POSITION);
        proof {
            assert(positions@.skip(1) =~= ps0);
            assert(positions@[0] == MULTI_POSITION);
        }
        positions
    };
    let d: FruitDraw = FruitDraw { rewards, positions: new_positions, odds: level.get_position() };
    let r: Result<FruitDraw, PoolError> = Ok(d);
    proof {
        assert(rewards_match(fruits@, r->Ok_0.rewards@, level) && r->Ok_0.odds
            == level.spec_position());
        if count_hits(r->Ok_0.rewards@) >= 2 {
            assert(r->Ok_0.positions@.skip(1) =~= r->Ok_0.positions@.subrange(
                1,
                r->Ok_0.positions@.len() as int,
            ));
            assert(positions_track_hits(
                fruits@,
                r->Ok_0.rewards@,
                level,
                r->Ok_0.positions@.skip(1),
            ));
        }
        assert(exists|lvl: GeneralLevel|
            #[trigger] rewards_match(fruits@, r->Ok_0.rewards@, lvl) && r->Ok_0.odds
                == lvl.spec_position() && (count_hits(r->Ok_0.rewards@) == 1
                ==> positions_track_hits(fruits@, r->Ok_0.rewards@, lvl, r->Ok_0.positions@)) && (
            count_hits(r->Ok_0.rewards@) >= 2 ==> positions_track_hits(
                fruits@,
                r->Ok_0.rewards@,
                lvl,
                r->Ok_0.positions@.skip(1),
            )));
    }
    r
}

/// Draw the spin's difficulty level, each level equally likely.
pub fn random_level(rng: &mut rand::rngs::StdRng) -> (r: GeneralLevel) {
    let k: u64 = rng_in_range(rng, 0, 3);
    if k == 0 {
        GeneralLevel::High
    } else if k == 1 {
        GeneralLevel::Medium
    } else if k == 2 {
        GeneralLevel::Low
    } else {
        GeneralLevel::Minimal
    }
}

/// All eight symbols, in paytable order.
pub fn full_symbol() -> (r: Vec<FruitSymbol>)
    ensures
        r@ == seq![
            FruitSymbol::Bar,
            FruitSymbol::LuckySeven,
            FruitSymbol::Star,
            FruitSymbol::Watermelon,
            FruitSymbol::Bell,
            FruitSymbol::Lemon,
            FruitSymbol::Orange,
            FruitSymbol::Apple,
        ],
{
    let r: Vec<FruitSymbol> = vec![
        FruitSymbol::Bar,
        FruitSymbol::LuckySeven,
        FruitSymbol::Star,
        FruitSymbol::Watermelon,
        FruitSymbol::Bell,
        FruitSymbol::Lemon,
        FruitSymbol::Orange,
        FruitSymbol::Apple,
    ];
    proof {
        assert(r@ =~= seq![
            FruitSymbol::Bar,
            FruitSymbol::LuckySeven,
            FruitSymbol::Star,
            FruitSymbol::Watermelon,
            FruitSymbol::Bell,
            FruitSymbol::Lemon,
            FruitSymbol::Orange,
            FruitSymbol::Apple,
        ]);
    }
    r
}

/// Drop every occurrence of `target` from the symbol list.
pub fn remove_symbol(symbols: &mut Vec<FruitSymbol>, target: &FruitSymbol)
    ensures
        final(symbols)@ == old(symbols)@.filter(|s: FruitSymbol| s != *target),
{
    let mut kept: Vec<FruitSymbol> = Vec::new();
    let mut k: usize = 0;
    let ghost pred = |s: FruitSymbol| s != *target;
    proof {
        reveal(Seq::filter);
        assert(symbols@.take(0) =~= Seq::<FruitSymbol>::empty());
    }
    while k < symbols.len()
        invariant
            k <= symbols@.len(),
            kept@ == symbols@.take(k as int).filter(pred),
            pred == (|s: FruitSymbol| s != *target),
        decreases symbols@.len() - k,
    {
        let s: FruitSymbol = symbols[k];
        proof {
            reveal(Seq::filter);
            assert(symbols@.take(k as int + 1).drop_last() =~= symbols@.take(k as int));
            assert(symbols@.take(k as int + 1).last() == s);
        }
        if s == *target {
        } else {
            kept.push(s);
        }
        k += 1;
    }
    proof {
        assert(symbols@.take(k as int) =~= symbols@);
    }
    *symbols = kept;
}

/// Pick one missed symbol at random and report a consolation reel position
/// for it at a low or minimal level.
fn get_missed_position(missed: &Vec<FruitSymbol>, rng: &mut rand::rngs::StdRng) -> (r: Vec<u8>)
    requires
        missed@.len() >= 1,
    ensures
        r@.len() == 1,
        r@[0] <= 23,
        exists|i: int, lvl: GeneralLevel|
            0 <= i < missed@.len() && (lvl == GeneralLevel::Minimal || lvl == GeneralLevel::Low)
                && #[trigger] position_ok(missed@[i], lvl, r@[0]),
{
    let idx_u64: u64 = rng_in_range(rng, 0, (missed.len() - 1) as u64);
    let idx: usize = idx_u64 as usize;
    let symbol: FruitSymbol = missed[idx];
    let k: u64 = rng_in_range(rng, 0, 1);
    let level: GeneralLevel = if k == 0 {
        GeneralLevel::Minimal
    } else {
        GeneralLevel::Low
    };
    let pos: u8 = symbol.get_position(&level, rng);
    let r: Vec<u8> = vec![pos];
    proof {
        assert(r@ =~= seq![pos]);
        assert(position_ok(missed@[idx as int], level, r@[0]));
        lemma_position_bound(missed@[idx as int], level, pos);
    }
    r
}

/// Settle every bet line in order against the pool, collecting the settled
/// lines, the reel positions of the hits, and pruning hit-or-bet symbols
/// from the missed list.  Stops at the first rejected wager; a spin of
/// admissible wagers against a pool with room for it always settles.
fn calculate_rewards(
    fruits: &Vec<FruitBet>,
    pool: &mut Pool,
    level: &GeneralLevel,
    positions: &mut Vec<u8>,
    missed: &mut Vec<FruitSymbol>,
) -> (r: Result<Vec<FruitReward>, PoolError>)
    requires
        old(pool).inv(),
    ensures
        final(pool).inv(),
        same_config(*old(pool), *final(pool)),
        final(pool).suction >= old(pool).suction,
        final(pool).brokerage >= old(pool).brokerage,
        final(pool).jackpot >= old(pool).jackpot,
        final(pool).bonus >= old(pool).bonus,
        r matches Ok(rs) ==> rewards_match(fruits@, rs@, *level),
        r == Err::<Vec<FruitReward>, PoolError>(PoolError::InvalidInput) ==> exists|i: int|
            0 <= i < fruits@.len() && (#[trigger] fruits@[i]).value == 0,
        all_bets_valid(fruits@) && fruit_fits(*old(pool), fruits@) ==> r is Ok,
        final(positions)@.len() >= old(positions)@.len(),
        forall|j: int|
            0 <= j < final(positions)@.len() ==> if j < old(positions)@.len() {
                final(positions)@[j] == old(positions)@[j]
            } else {
                (#[trigger] final(positions)@[j]) <= 23
            },
        r is Ok ==> final(pool).suction == old(pool).suction + sum_values(fruits@) && final(pool).brokerage == old(pool).brokerage + old(pool).brokerage_ratio * (old(pool).bet_unit
            * sum_values(fruits@)) && final(pool).jackpot == old(pool).jackpot + old(pool).jackpot_ratio * (old(pool).bet_unit * sum_values(fruits@)) && final(pool).pot <= old(pool).pot + old(pool).pot_ratio * (old(pool).bet_unit * sum_values(fruits@)) && final(pool).bonus <= old(pool).bonus + 100 * RATIO * sum_values(fruits@),
        r is Ok ==> final(missed)@ == old(missed)@.filter(
            |s: FruitSymbol| !symbol_bet(s, fruits@),
        ),
        r matches Ok(rs) ==> final(positions)@.subrange(0, old(positions)@.len() as int) == old(positions)@ && positions_track_hits(
            fruits@,
            rs@,
            *level,
            final(positions)@.skip(old(positions)@.len() as int),
        ),
{
    let mut rewards: Vec<FruitReward> = Vec::new();
    let mut k: usize = 0;
    proof {
        assert(fruits@.take(0) =~= Seq::<FruitBet>::empty());
        assert(sum_values(Seq::<FruitBet>::empty()) == 0);
        let bu = old(pool).bet_unit as int;
        let pr = old(pool).pot_ratio as int;
        let br = old(pool).brokerage_ratio as int;
        let jr = old(pool).jackpot_ratio as int;
        let s0 = sum_values(fruits@.take(0));
        assert(bu * s0 == 0 && pr * (bu * s0) == 0 && br * (bu * s0) == 0 && jr * (bu * s0) == 0
            && 100 * (RATIO as int) * s0 == 0) by (nonlinear_arith)
            requires
                s0 == 0,
        ;
        assert(forall|x: FruitSymbol| !symbol_bet(x, fruits@.take(0))) by {
            assert(fruits@.take(0).len() == 0);
        }
        lemma_filter_all(old(missed)@, |s: FruitSymbol| !symbol_bet(s, fruits@.take(0)));
        assert(positions@.skip(old(positions)@.len() as int) =~= Seq::<u8>::empty());
    }
    while k < fruits.len()
        invariant
            old(pool).inv(),
            pool.inv(),
            k <= fruits@.len(),
            same_config(*old(pool), *pool),
            rewards@.len() == k,
            rewards_match(fruits@.take(k as int), rewards@, *level),
            pool.suction == old(pool).suction + sum_values(fruits@.take(k as int)),
            pool.brokerage == old(pool).brokerage + old(pool).brokerage_ratio * (old(pool).bet_unit * sum_values(fruits@.take(k as int))),
            pool.jackpot == old(pool).jackpot + old(pool).jackpot_ratio * (old(pool).bet_unit
                * sum_values(fruits@.take(k as int))),
            pool.pot <= old(pool).pot + old(pool).pot_ratio * (old(pool).bet_unit * sum_values(
                fruits@.take(k as int),
            )),
            old(pool).bonus <= pool.bonus,
            pool.bonus <= old(pool).bonus + 100 * RATIO * sum_values(fruits@.take(k as int)),
            positions@.len() >= old(positions)@.len(),
            forall|j: int|
                0 <= j < positions@.len() ==> if j < old(positions)@.len() {
                    positions@[j] == old(positions)@[j]
                } else {
                    (#[trigger] positions@[j]) <= 23
                },
            missed@ == old(missed)@.filter(
                |s: FruitSymbol| !symbol_bet(s, fruits@.take(k as int)),
            ),
            positions_track_hits(
                fruits@,
                rewards@,
                *level,
                positions@.skip(old(positions)@.len() as int),
            ),
        decreases fruits@.len() - k,
    {
        let bet: FruitBet = fruits[k];
        proof {
            lemma_sum_values_take_step(fruits@, k as int);
            lemma_sum_values_nonneg(fruits@, k as int);
            lemma_sum_values_nonneg(fruits@, k as int + 1);
            lemma_sum_values_take_le(fruits@, k as int + 1);
            lemma_odds_bounds(bet.symbol, *level);
            let ghost ssk = sum_values(fruits@.take(k as int));
            let ghost ssk1 = sum_values(fruits@.take(k as int + 1));
            let ghost gbu = old(pool).bet_unit as int;
            let ghost gpr = old(pool).pot_ratio as int;
            let ghost gbr = old(pool).brokerage_ratio as int;
            let ghost gjr = old(pool).jackpot_ratio as int;
            assert(gbu * ssk >= 0 && gbu * ssk1 >= 0 && gpr * (gbu * ssk) >= 0 && gpr * (gbu
                * ssk1) >= 0 && gbr * (gbu * ssk) >= 0 && gbr * (gbu * ssk1) >= 0 && gjr * (gbu
                * ssk) >= 0 && gjr * (gbu * ssk1) >= 0 && 100 * (RATIO as int) * ssk >= 0 && 100
                * (RATIO as int) * ssk1 >= 0) by (nonlinear_arith)
                requires
                    ssk >= 0,
                    ssk1 >= 0,
                    gbu >= 0,
                    gpr >= 0,
                    gbr >= 0,
                    gjr >= 0,
            ;
            if all_bets_valid(fruits@) && fruit_fits(*old(pool), fruits@) {
                let sv = sum_values(fruits@);
                let sk = sum_values(fruits@.take(k as int));
                let sk1 = sum_values(fruits@.take(k as int + 1));
                let bu = old(pool).bet_unit as int;
                let vk = bet.value as int;
                assert(fruits@[k as int].spec_valid());
                assert(1 <= vk <= 100);
                assert(sk + vk == sk1 && sk1 <= sv && sk >= 0);
                assert(bu * sk + bu * vk == bu * sk1 && bu * sk1 <= bu * sv && bu * sk >= 0
                    && bu * vk >= 0) by (nonlinear_arith)
                    requires
                        sk + vk == sk1,
                        sk1 <= sv,
                        sk >= 0,
                        vk >= 0,
                        bu >= 0,
                ;
                let pr = old(pool).pot_ratio as int;
                let br = old(pool).brokerage_ratio as int;
                let jr = old(pool).jackpot_ratio as int;
                assert(pr * (bu * sk) + pr * (bu * vk) == pr * (bu * sk1) && pr * (bu * sk1) <= pr
                    * (bu * sv) && pr * (bu * vk) >= 0) by (nonlinear_arith)
                    requires
                        bu * sk + bu * vk == bu * sk1,
                        bu * sk1 <= bu * sv,
                        bu * vk >= 0,
                        bu * sk >= 0,
                        pr >= 0,
                ;
                assert(br * (bu * sk) + br * (bu * vk) == br * (bu * sk1) && br * (bu * sk1) <= br
                    * (bu * sv) && br * (bu * vk) >= 0) by (nonlinear_arith)
                    requires
                        bu * sk + bu * vk == bu * sk1,
                        bu * sk1 <= bu * sv,
                        bu * vk >= 0,
                        bu * sk >= 0,
                        br >= 0,
                ;
                assert(jr * (bu * sk) + jr * (bu * vk) == jr * (bu * sk1) && jr * (bu * sk1) <= jr
                    * (bu * sv) && jr * (bu * vk) >= 0) by (nonlinear_arith)
                    requires
                        bu * sk + bu * vk == bu * sk1,
                        bu * sk1 <= bu * sv,
                        bu * vk >= 0,
                        bu * sk >= 0,
                        jr >= 0,
                ;
                let ok = spec_odds(bet.symbol, *level) as int;
                assert(vk * ok * (RATIO as int) <= 100 * (RATIO as int) * vk && vk * ok * (
                RATIO as int) >= 0) by (nonlinear_arith)
                    requires
                        1 <= vk,
                        2 <= ok <= 100,
                        RATIO as int > 0,
                ;
                assert(100 * (RATIO as int) * sk + 100 * (RATIO as int) * vk == 100 * (
                RATIO as int) * sk1 && 100 * (RATIO as int) * sk1 <= 100 * (RATIO as int) * sv)
                    by (nonlinear_arith)
                    requires
                        sk + vk == sk1,
                        sk1 <= sv,
                        RATIO as int > 0,
                ;
                assert(vk * ok * (RATIO as int) <= (RATIO as int) * 100 * 100);
                assert(ok * (ASCENT_SPEED_RATE + RATIO) <= 100 * (ASCENT_SPEED_RATE + RATIO))
                    by (nonlinear_arith)
                    requires
                        0 <= ok <= 100,
                        ASCENT_SPEED_RATE + RATIO >= 0,
                ;
                assert(draw_fits(*pool, bet.value as u64, spec_odds(bet.symbol, *level) as u64));
            }
        }
        let dr: Result<(bool, u64, Option<u8>), PoolError> = bet.draw(level, pool);
        match dr {
            Err(e) => {
                return Err(e);
            },
            Ok((flag, reward, position)) => {
                let ghost news0: Seq<u8> = positions@.skip(old(positions)@.len() as int);
                if flag {
                    match position {
                        Some(p) => {
                            proof {
                                lemma_position_bound(bet.symbol, *level, p);
                            }
                            positions.push(p);
                            proof {
                                assert(positions@.skip(old(positions)@.len() as int) =~= news0.push(
                                    p,
                                ));
                            }
                        },
                        None => {},
                    }
                }
                let ghost m0: Seq<FruitSymbol> = missed@;
                remove_symbol(missed, &bet.symbol);
                proof {
                    assert(missed@ == m0.filter(|x: FruitSymbol| x != bet.symbol));
                    assert forall|x: FruitSymbol| #[trigger] symbol_bet(
                        x,
                        fruits@.take(k as int + 1),
                    ) <==> symbol_bet(x, fruits@.take(k as int)) || x == bet.symbol by {
                        assert(fruits@.take(k as int + 1) =~= fruits@.take(k as int).push(
                            fruits@[k as int],
                        ));
                        if symbol_bet(x, fruits@.take(k as int + 1)) {
                            let i = choose|i: int|
                                0 <= i < fruits@.take(k as int + 1).len() && (#[trigger] fruits@.take(
                                    k as int + 1,
                                )[i]).symbol == x;
                            if i < k as int {
                                assert(fruits@.take(k as int)[i] == fruits@.take(k as int + 1)[i]);
                                assert(symbol_bet(x, fruits@.take(k as int)));
                            } else {
                                assert(x == bet.symbol);
                            }
                        }
                        if symbol_bet(x, fruits@.take(k as int)) {
                            let i = choose|i: int|
                                0 <= i < fruits@.take(k as int).len() && (#[trigger] fruits@.take(
                                    k as int,
                                )[i]).symbol == x;
                            assert(fruits@.take(k as int + 1)[i] == fruits@.take(k as int)[i]);
                            assert(symbol_bet(x, fruits@.take(k as int + 1)));
                        }
                        if x == bet.symbol {
                            assert((fruits@.take(k as int + 1)[k as int]).symbol == x);
                            assert(symbol_bet(x, fruits@.take(k as int + 1)));
                        }
                    }
                    lemma_filter_compose(
                        old(missed)@,
                        |s: FruitSymbol| !symbol_bet(s, fruits@.take(k as int)),
                        |y: FruitSymbol| y != bet.symbol,
                        |s: FruitSymbol| !symbol_bet(s, fruits@.take(k as int + 1)),
                    );
                }
                let ghost rs0: Seq<FruitReward> = rewards@;
                let fr: FruitReward = FruitReward::new(bet.symbol, bet.value as u64, reward, flag);
                rewards.push(fr);
                proof {
                    let news1: Seq<u8> = positions@.skip(old(positions)@.len() as int);
                    assert(rewards@.drop_last() =~= rs0);
                    assert(rewards@.last() == fr);
                    assert((fruits@[k as int]).symbol == bet.symbol);
                    if flag {
                        assert(news1.drop_last() =~= news0);
                        assert(position_ok(fruits@[rewards@.len() - 1].symbol, *level, news1.last()));
                    } else {
                        assert(news1 =~= news0);
                    }
                    assert(positions_track_hits(fruits@, rewards@, *level, news1));
                }
                proof {
                    let sk = sum_values(fruits@.take(k as int));
                    let sk1 = sum_values(fruits@.take(k as int + 1));
                    let bu = old(pool).bet_unit as int;
                    let vk = bet.value as int;
                    let pr = old(pool).pot_ratio as int;
                    let br = old(pool).brokerage_ratio as int;
                    let jr = old(pool).jackpot_ratio as int;
                    let ok = spec_odds(bet.symbol, *level) as int;
                    assert(bu * sk + bu * vk == bu * sk1) by (nonlinear_arith)
                        requires
                            sk + vk == sk1,
                    ;
                    assert(pr * (bu * sk) + pr * (bu * vk) == pr * (bu * sk1)) by (nonlinear_arith)
                        requires
                            bu * sk + bu * vk == bu * sk1,
                    ;
                    assert(br * (bu * sk) + br * (bu * vk) == br * (bu * sk1)) by (nonlinear_arith)
                        requires
                            bu * sk + bu * vk == bu * sk1,
                    ;
                    assert(jr * (bu * sk) + jr * (bu * vk) == jr * (bu * sk1)) by (nonlinear_arith)
                        requires
                            bu * sk + bu * vk == bu * sk1,
                    ;
                    assert(vk * ok * (RATIO as int) <= 100 * (RATIO as int) * vk)
                        by (nonlinear_arith)
                        requires
                            0 <= vk,
                            0 <= ok <= 100,
                            RATIO as int > 0,
                    ;
                    assert(100 * (RATIO as int) * sk + 100 * (RATIO as int) * vk == 100 * (
                    RATIO as int) * sk1) by (nonlinear_arith)
                        requires
                            sk + vk == sk1,
                    ;
                    assert(fruits@.take(k as int + 1) =~= fruits@.take(k as int).push(
                        fruits@[k as int],
                    ));
                }
                k += 1;
            },
        }
    }
    proof {
        assert(fruits@.take(k as int) =~= fruits@);
        lemma_sum_values_nonneg(fruits@, k as int);
        let ghost ssk = sum_values(fruits@.take(k as int));
        let ghost gbu = old(pool).bet_unit as int;
        let ghost gbr = old(pool).brokerage_ratio as int;
        let ghost gjr = old(pool).jackpot_ratio as int;
        assert(gbr * (gbu * ssk) >= 0 && gjr * (gbu * ssk) >= 0) by (nonlinear_arith)
            requires
                ssk >= 0,
                gbu >= 0,
                gbr >= 0,
                gjr >= 0,
        ;
    }
    Ok(rewards)
}

} // verus!

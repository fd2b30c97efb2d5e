use slot_algorithm::fruit::{
    draw, full_symbol, random_level, remove_symbol, FruitBet, FruitReward, FruitSymbol,
    GeneralLevel,
};
use slot_algorithm::pool::{Pool, PoolError};
use rand::SeedableRng;

fn table_pool() -> Pool {
    Pool::load_pool(1, 1, 1, 0, 9500, 500, 0, 5_000_000, 0, 0, 0, 0, 5_000_000).unwrap()
}

fn odds_of(sym: FruitSymbol, level: &GeneralLevel) -> u64 {
    sym.get_odds(level) as u64
}

#[test]
fn odds_table_exact_values() {
    assert_eq!(FruitSymbol::Bar.get_odds(&GeneralLevel::High), 100);
    assert_eq!(FruitSymbol::Bar.get_odds(&GeneralLevel::Medium), 50);
    assert_eq!(FruitSymbol::Bar.get_odds(&GeneralLevel::Low), 25);
    assert_eq!(FruitSymbol::Bar.get_odds(&GeneralLevel::Minimal), 25);
    assert_eq!(FruitSymbol::LuckySeven.get_odds(&GeneralLevel::High), 40);
    assert_eq!(FruitSymbol::Star.get_odds(&GeneralLevel::Medium), 30);
    assert_eq!(FruitSymbol::Watermelon.get_odds(&GeneralLevel::Low), 20);
    assert_eq!(FruitSymbol::Watermelon.get_odds(&GeneralLevel::Minimal), 2);
    assert_eq!(FruitSymbol::Bell.get_odds(&GeneralLevel::High), 20);
    assert_eq!(FruitSymbol::Lemon.get_odds(&GeneralLevel::Medium), 15);
    assert_eq!(FruitSymbol::Orange.get_odds(&GeneralLevel::Low), 10);
    assert_eq!(FruitSymbol::Orange.get_odds(&GeneralLevel::Minimal), 2);
    assert_eq!(FruitSymbol::Apple.get_odds(&GeneralLevel::High), 5);
    assert_eq!(FruitSymbol::Apple.get_odds(&GeneralLevel::Minimal), 5);
}

#[test]
fn level_reports_its_index() {
    assert_eq!(GeneralLevel::High.get_position(), 0);
    assert_eq!(GeneralLevel::Medium.get_position(), 1);
    assert_eq!(GeneralLevel::Low.get_position(), 2);
    assert_eq!(GeneralLevel::Minimal.get_position(), 2);
}

#[test]
fn full_symbol_lists_all_eight() {
    let all = full_symbol();
    assert_eq!(
        all,
        vec![
            FruitSymbol::Bar,
            FruitSymbol::LuckySeven,
            FruitSymbol::Star,
            FruitSymbol::Watermelon,
            FruitSymbol::Bell,
            FruitSymbol::Lemon,
            FruitSymbol::Orange,
            FruitSymbol::Apple,
        ]
    );
}

#[test]
fn remove_symbol_drops_target() {
    let mut symbols = full_symbol();
    remove_symbol(&mut symbols, &FruitSymbol::Bell);
    assert_eq!(symbols.len(), 7);
    assert!(!symbols.contains(&FruitSymbol::Bell));
    // removing one that is gone changes nothing
    let before = symbols.clone();
    remove_symbol(&mut symbols, &FruitSymbol::Bell);
    assert_eq!(symbols, before);
}

#[test]
fn validate_checks_wager_range() {
    assert!(!FruitBet { symbol: FruitSymbol::Apple, value: 0 }.validate());
    assert!(FruitBet { symbol: FruitSymbol::Apple, value: 1 }.validate());
    assert!(FruitBet { symbol: FruitSymbol::Apple, value: 100 }.validate());
    assert!(!FruitBet { symbol: FruitSymbol::Apple, value: 101 }.validate());
}

#[test]
fn reward_constructor_keeps_fields() {
    let r = FruitReward::new(FruitSymbol::Star, 4, 80_000, true);
    assert_eq!(r.symbol, FruitSymbol::Star);
    assert_eq!(r.bet, 4);
    assert_eq!(r.reward, 80_000);
    assert!(r.flag);
}

#[test]
fn random_level_covers_all_levels() {
    let mut rng = rand::rngs::StdRng::seed_from_u64(3);
    let mut seen = [false; 4];
    for _ in 0..200 {
        match random_level(&mut rng) {
            GeneralLevel::High => seen[0] = true,
            GeneralLevel::Medium => seen[1] = true,
            GeneralLevel::Low => seen[2] = true,
            GeneralLevel::Minimal => seen[3] = true,
        }
    }
    assert!(seen.iter().all(|b| *b));
}

#[test]
fn spin_mirrors_bet_lines() {
    let mut pool = table_pool();
    let bets = vec![
        FruitBet { symbol: FruitSymbol::Bar, value: 1 },
        FruitBet { symbol: FruitSymbol::Apple, value: 2 },
        FruitBet { symbol: FruitSymbol::Bell, value: 3 },
    ];
    let d = draw(bets.clone(), &mut pool).unwrap();
    assert_eq!(d.rewards.len(), 3);
    assert!(d.odds <= 2);
    let candidates: &[GeneralLevel] = match d.odds {
        0 => &[GeneralLevel::High],
        1 => &[GeneralLevel::Medium],
        _ => &[GeneralLevel::Low, GeneralLevel::Minimal],
    };
    // some single level drawn for the spin explains every settled line
    let explained = candidates.iter().any(|lvl| {
        bets.iter().zip(d.rewards.iter()).all(|(b, r)| {
            r.symbol == b.symbol && r.bet == b.value as u64
                && if r.flag {
                    r.reward == b.value as u64 * odds_of(b.symbol, lvl) * 10_000
                } else {
                    r.reward == 0
                }
        })
    });
    assert!(explained);
    assert!(!d.positions.is_empty());
    assert_eq!(pool.suction, 6);
}

#[test]
fn spin_rejects_zero_wager() {
    let mut pool = table_pool();
    let bets = vec![FruitBet { symbol: FruitSymbol::Bar, value: 0 }];
    let r = draw(bets, &mut pool);
    assert_eq!(r.unwrap_err(), PoolError::InvalidInput);
}

#[test]
fn spin_positions_always_reported() {
    let mut pool = table_pool();
    for _ in 0..50 {
        let bets = vec![FruitBet { symbol: FruitSymbol::Lemon, value: 1 }];
        let d = draw(bets, &mut pool).unwrap();
        assert!(!d.positions.is_empty());
        for p in &d.positions {
            assert!(*p <= 23);
        }
    }
}

#[test]
fn spin_of_empty_bets_reports_a_miss_position() {
    let mut pool = table_pool();
    let d = draw(Vec::new(), &mut pool).unwrap();
    assert!(d.rewards.is_empty());
    assert_eq!(d.positions.len(), 1);
    assert_eq!(pool.suction, 0);
}

#[test]
fn spin_positions_shape_follows_hits() {
    let mut pool = table_pool();
    for _ in 0..40 {
        let bets = vec![
            FruitBet { symbol: FruitSymbol::Bar, value: 1 },
            FruitBet { symbol: FruitSymbol::Apple, value: 1 },
            FruitBet { symbol: FruitSymbol::Star, value: 1 },
            FruitBet { symbol: FruitSymbol::Orange, value: 1 },
        ];
        let d = draw(bets, &mut pool).unwrap();
        let hits = d.rewards.iter().filter(|r| r.flag).count();
        match hits {
            0 => assert_eq!(d.positions.len(), 1),
            1 => assert_eq!(d.positions.len(), 1),
            h => {
                assert_eq!(d.positions.len(), h + 1);
                assert_eq!(d.positions[0], 9);
            }
        }
    }
}

#[test]
fn spin_on_every_symbol_without_hit_reports_none_position() {
    let mut pool = table_pool();
    for _ in 0..40 {
        let bets: Vec<FruitBet> =
            full_symbol().into_iter().map(|symbol| FruitBet { symbol, value: 1 }).collect();
        let d = draw(bets, &mut pool).unwrap();
        let hits = d.rewards.iter().filter(|r| r.flag).count();
        if hits == 0 {
            assert_eq!(d.positions, vec![21]);
        }
    }
}

use triadchain::address::TriangleAddress;
use triadchain::decimal::Decimal;
use triadchain::economics::{depth_penalty_factor, EconomicsEngine, MarketPrice};
use triadchain::errors::SierpinskiError;
use triadchain::geometry::Point;
use triadchain::triangle::Triangle;

fn dec(num: i64, scale: u32) -> Decimal {
    Decimal::new(num, scale)
}

fn create_test_triangle() -> Triangle {
    Triangle::new(
        Point::new(dec(0, 0), dec(0, 0)),
        Point::new(dec(1, 0), dec(0, 0)),
        Point::new(dec(5, 1), dec(866, 3)),
    )
    .unwrap()
}

fn message_of<T: std::fmt::Debug>(r: Result<T, SierpinskiError>) -> String {
    match r {
        Err(SierpinskiError::ValidationError { message }) => message,
        other => panic!("{:?}", other),
    }
}

#[test]
fn test_economics_engine_creation() {
    let engine = EconomicsEngine::new();
    assert!(engine.config.initial_supply > Decimal::zero());
    assert!(engine.config.max_supply > engine.config.initial_supply);
}

#[test]
fn test_triangle_value_calculation() {
    let engine = EconomicsEngine::new();
    let triangle = create_test_triangle();
    let address = TriangleAddress::genesis();

    let value = engine.calculate_triangle_value(&triangle, &address, 0).unwrap();
    assert!(value.total_estimated_value > Decimal::zero());
    assert!(value.base_area_value > Decimal::zero());
}

#[test]
fn test_staking_pool_creation() {
    let mut engine = EconomicsEngine::new();
    let address = TriangleAddress::genesis();

    let result = engine.create_staking_pool(
        address.clone(),
        Decimal::new(5, 2), // 5% APR
        Decimal::new(100, 0), // 100 token minimum
    );

    assert!(result.is_ok());
    assert!(engine.staking_pools.iter().any(|pool| pool.triangle_address == address));
}

#[test]
fn triangle_value_is_the_sum_of_its_parts() {
    let engine = EconomicsEngine::new();
    let triangle = create_test_triangle();
    // area 0.433, at depth 3, void, ten days old
    let address = TriangleAddress::new(vec![1, 1, 3]).unwrap();
    let value = engine.calculate_triangle_value_at(10 * 86400 + 5, &triangle, &address, 0).unwrap();
    assert_eq!(value.address, address);
    assert_eq!(value.base_area_value, dec(433, 1));
    assert_eq!(value.depth_bonus, dec(3464, 1));
    // equilateral 0.2, void 0.15
    assert_eq!(value.rarity_bonus, dec(35, 2));
    assert_eq!(value.age_factor, dec(1, 2));
    assert_eq!(value.total_estimated_value, dec(39006, 2));
    assert_eq!(value.market_liquidity, dec(85, 2));

    let genesis =
        engine.calculate_triangle_value_at(0, &triangle, &TriangleAddress::genesis(), 100).unwrap();
    assert_eq!(genesis.depth_bonus, dec(433, 1));
    assert_eq!(genesis.rarity_bonus, dec(7, 1));
    assert_eq!(genesis.age_factor, Decimal::zero());
    assert_eq!(genesis.market_liquidity, dec(95, 2));
}

#[test]
fn liquidity_and_rarity() {
    let engine = EconomicsEngine::new();
    assert_eq!(depth_penalty_factor(0), 5);
    assert_eq!(depth_penalty_factor(2), 5);
    assert_eq!(depth_penalty_factor(3), 15);
    assert_eq!(depth_penalty_factor(5), 15);
    assert_eq!(depth_penalty_factor(6), 30);
    assert_eq!(depth_penalty_factor(8), 30);
    assert_eq!(depth_penalty_factor(9), 50);
    assert_eq!(depth_penalty_factor(255), 50);
    let at = |depth: usize| {
        engine.calculate_liquidity_factor(&TriangleAddress::new(vec![0; depth]).unwrap()).unwrap()
    };
    assert_eq!(at(0), dec(95, 2));
    assert_eq!(at(2), dec(95, 2));
    assert_eq!(at(3), dec(85, 2));
    assert_eq!(at(6), dec(70, 2));
    assert_eq!(at(9), dec(50, 2));

    let scalene = Triangle::new(
        Point::new(dec(0, 0), dec(0, 0)),
        Point::new(dec(4, 0), dec(0, 0)),
        Point::new(dec(0, 0), dec(3, 0)),
    )
    .unwrap();
    // digits are separated by dots, so no address holds three in a row
    let zeros = TriangleAddress::new(vec![0, 0, 0]).unwrap();
    assert_eq!(engine.calculate_rarity_bonus(&scalene, &zeros).unwrap(), Decimal::zero());
    let void = TriangleAddress::new(vec![1, 3]).unwrap();
    assert_eq!(engine.calculate_rarity_bonus(&scalene, &void).unwrap(), dec(15, 2));
    assert_eq!(
        engine.calculate_rarity_bonus(&scalene, &TriangleAddress::genesis()).unwrap(),
        dec(5, 1)
    );
}

#[test]
fn staking() {
    let mut engine = EconomicsEngine::new();
    let address = TriangleAddress::new(vec![2]).unwrap();
    let other = TriangleAddress::new(vec![1]).unwrap();
    assert_eq!(
        message_of(engine.stake_tokens_at(0, &address, "ann".to_string(), dec(500, 0))),
        "Staking pool not found"
    );
    engine.create_staking_pool(other.clone(), dec(1, 2), dec(1, 0)).unwrap();
    engine.create_staking_pool(address.clone(), dec(5, 2), dec(100, 0)).unwrap();
    assert_eq!(
        message_of(engine.create_staking_pool(address.clone(), dec(5, 2), dec(100, 0))),
        "Staking pool already exists for this triangle"
    );
    assert_eq!(engine.staking_pools.len(), 2);
    assert_eq!(engine.find_pool(&address), 1);
    assert_eq!(engine.find_pool(&TriangleAddress::genesis()), 2);
    assert_eq!(engine.staking_pools[1].lock_period, 7 * 24 * 3600);

    assert_eq!(
        message_of(engine.stake_tokens_at(0, &address, "ann".to_string(), dec(99, 0))),
        "Amount below minimum stake"
    );
    engine.stake_tokens_at(1000, &address, "ann".to_string(), dec(100, 0)).unwrap();
    engine.stake_tokens_at(2000, &address, "bob".to_string(), dec(300, 0)).unwrap();
    engine.stake_tokens_at(3000, &address, "ann".to_string(), dec(200, 0)).unwrap();
    engine.stake_tokens(&other, "ann".to_string(), dec(1, 0)).unwrap();
    let pool = &engine.staking_pools[1];
    assert_eq!(pool.total_staked, dec(600, 0));
    assert_eq!(pool.participants.len(), 2);
    assert_eq!(pool.participants[0].staker_address, "ann");
    assert_eq!(pool.participants[0].amount_staked, dec(200, 0));
    assert_eq!(pool.participants[0].stake_timestamp, 3000);
    assert_eq!(pool.participants[0].lock_expires, 3000 + 604800);
    assert_eq!(pool.participants[0].accumulated_rewards, Decimal::zero());
    assert_eq!(pool.participants[1].staker_address, "bob");
    assert_eq!(pool.participants[1].amount_staked, dec(300, 0));

    // 200 * 0.05 for each of two full hours
    assert_eq!(
        engine.calculate_staking_rewards_at(3000 + 7200 + 3599, &address, "ann").unwrap(),
        dec(20, 0)
    );
    assert_eq!(engine.calculate_staking_rewards_at(0, &address, "ann").unwrap(), Decimal::zero());
    assert!(engine.calculate_staking_rewards(&address, "bob").unwrap() > Decimal::zero());
    assert_eq!(
        message_of(engine.calculate_staking_rewards_at(0, &address, "eve")),
        "Stake position not found"
    );
    assert_eq!(
        message_of(engine.calculate_staking_rewards_at(0, &TriangleAddress::genesis(), "ann")),
        "Staking pool not found"
    );
    let stats = engine.get_economics_stats().unwrap();
    assert_eq!(stats.active_staking_pools, 2);
    assert_eq!(stats.total_staked_value, dec(601, 0));
    assert_eq!(stats.active_rentals, 0);
    assert_eq!(stats.average_triangle_value, Decimal::zero());
}

#[test]
fn rentals_supply_and_prices() {
    let mut engine = EconomicsEngine::new();
    let address = TriangleAddress::new(vec![0, 1]).unwrap();
    engine.create_rental(address.clone(), "ann".to_string(), dec(25, 1)).unwrap();
    assert_eq!(
        message_of(engine.create_rental(address.clone(), "bob".to_string(), dec(1, 0))),
        "Triangle already listed for rental"
    );
    assert_eq!(engine.rentals.len(), 1);
    let rental = &engine.rentals[0];
    assert_eq!(rental.owner_address, "ann");
    assert_eq!(rental.rental_rate_per_block, dec(25, 1));
    assert_eq!(rental.security_deposit, dec(25, 0));
    assert_eq!(rental.minimum_rental_period, 100);
    assert!(rental.current_renter.is_none());
    assert_eq!(engine.find_rental(&address), 0);

    // 1000000 + 5% - 2 * 1%
    engine.update_supply_after_block(7, 2).unwrap();
    assert_eq!(engine.config.circulating_supply, dec(1_030_000, 0));
    engine.config.circulating_supply = dec(20_900_000, 0);
    engine.update_supply_after_block(0, 0).unwrap();
    assert_eq!(engine.config.circulating_supply, dec(21_000_000, 0));

    engine.market_prices.push(MarketPrice { triangle_address: address.clone(), price: dec(10, 0) });
    engine.market_prices.push(MarketPrice { triangle_address: address, price: dec(25, 1) });
    assert_eq!(engine.calculate_average_triangle_value(), Some(dec(625, 2)));
    let stats = engine.get_economics_stats().unwrap();
    assert_eq!(stats.average_triangle_value, dec(625, 2));
    assert_eq!(stats.active_rentals, 1);
    assert_eq!(stats.circulating_supply, dec(21_000_000, 0));
    assert_eq!(stats.max_supply, dec(21_000_000, 0));
    assert_eq!(stats.inflation_rate, dec(5, 2));
    assert_eq!(stats.deflation_rate, dec(1, 2));
}

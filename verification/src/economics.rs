//! Token economics: the value of triangles, staking pools, rentals, and
//! the supply of tokens.
//!
//! The engine reads triangles and addresses; it writes nothing back into
//! the chain or the fractal.

use vstd::prelude::*;
use vstd::string::*;
use crate::address::{address_text, TriangleAddress};
use crate::clock::unix_time_now;
use crate::decimal::{minus, over, plus, spec_minus, spec_over, spec_plus, spec_times, times, Decimal};
use crate::errors::{SierpinskiError, SierpinskiResult};
use crate::geometry::{settle, settled};
use crate::triangle::Triangle;

verus! {

/// The seconds of a day.
pub const SECONDS_PER_DAY: u64 = 86400;

/// The seconds of an hour.
pub const SECONDS_PER_HOUR: u64 = 3600;

/// The time for which a stake is locked, in seconds: seven days.
pub const DEFAULT_LOCK_PERIOD: u64 = 604800;

/// The least number of blocks for which a triangle is rented.
pub const MINIMUM_RENTAL_PERIOD: u64 = 100;

/// How the value of a triangle follows from its area.
#[derive(Debug, Clone, Copy)]
pub struct AreaValueCurve {
    /// The value of one unit of area.
    pub base_value_per_area: Decimal,
    /// The factor by which the value grows with every level of depth.
    pub depth_multiplier: Decimal,
    /// The bonus for rare properties.
    pub rarity_bonus: Decimal,
    /// The bonus for every day of age.
    pub age_factor: Decimal,
}

/// The settings of the token economy.
#[derive(Debug, Clone, Copy)]
pub struct TokenEconomics {
    /// The supply the economy began with.
    pub initial_supply: Decimal,
    /// The supply that is never exceeded.
    pub max_supply: Decimal,
    /// The supply in circulation.
    pub circulating_supply: Decimal,
    /// The share by which a block inflates the supply.
    pub block_inflation_rate: Decimal,
    /// The share of the supply that a subdivision burns.
    pub subdivision_deflation_rate: Decimal,
    /// How the value of a triangle follows from its area.
    pub area_value_curve: AreaValueCurve,
}

/// What a triangle is worth.
#[derive(Debug, Clone)]
pub struct TriangleValue {
    pub address: TriangleAddress,
    pub base_area_value: Decimal,
    pub depth_bonus: Decimal,
    pub rarity_bonus: Decimal,
    pub age_factor: Decimal,
    pub total_estimated_value: Decimal,
    pub market_liquidity: Decimal,
}

/// The stake of one participant of a pool.
#[derive(Debug, Clone)]
pub struct StakePosition {
    pub staker_address: String,
    pub amount_staked: Decimal,
    pub stake_timestamp: u64,
    pub lock_expires: u64,
    pub accumulated_rewards: Decimal,
}

/// A staking pool on a triangle.
#[derive(Debug, Clone)]
pub struct StakingPool {
    pub triangle_address: TriangleAddress,
    pub total_staked: Decimal,
    pub staking_reward_rate: Decimal,
    pub minimum_stake: Decimal,
    /// The time for which a stake is locked, in seconds.
    pub lock_period: u64,
    /// The stakes, at most one for a participant.
    pub participants: Vec<StakePosition>,
}

/// A triangle offered for rent.
#[derive(Debug, Clone)]
pub struct TriangleRental {
    pub triangle_address: TriangleAddress,
    pub owner_address: String,
    pub rental_rate_per_block: Decimal,
    pub minimum_rental_period: u64,
    pub current_renter: Option<String>,
    pub rental_start_block: u64,
    pub rental_end_block: u64,
    pub security_deposit: Decimal,
}

/// The known price of a triangle.
#[derive(Debug, Clone)]
pub struct MarketPrice {
    pub triangle_address: TriangleAddress,
    pub price: Decimal,
}

/// The token economy.
#[derive(Debug)]
pub struct EconomicsEngine {
    pub config: TokenEconomics,
    /// The staking pools, at most one for a triangle.
    pub staking_pools: Vec<StakingPool>,
    /// The rentals, at most one for a triangle.
    pub rentals: Vec<TriangleRental>,
    /// The known prices.
    pub market_prices: Vec<MarketPrice>,
}

/// Counts and sums of the economy.
#[derive(Debug, Clone, Copy)]
pub struct EconomicsStats {
    pub circulating_supply: Decimal,
    pub max_supply: Decimal,
    pub inflation_rate: Decimal,
    pub deflation_rate: Decimal,
    pub active_staking_pools: usize,
    pub total_staked_value: Decimal,
    pub active_rentals: usize,
    pub average_triangle_value: Decimal,
}

/// The share of liquidity, in hundredths, that a triangle loses to its
/// depth: 5 down to depth 2, 15 down to depth 5, 30 down to depth 8, and 50
/// below.
pub open spec fn spec_depth_penalty(depth: u8) -> i64 {
    if depth <= 2 {
        5
    } else if depth <= 5 {
        15
    } else if depth <= 8 {
        30
    } else {
        50
    }
}

/// The liquidity of a triangle at an address of `depth` digits: 0.95 down
/// to depth 2, and below that one less the depth penalty, and 0.10 at
/// least. `None` where the difference overflows.
pub open spec fn spec_liquidity(depth: u8) -> Option<Decimal> {
    if depth <= 2 {
        Some(Decimal::from_pair(95, 2))
    } else {
        match Decimal::from_pair(1, 0).spec_sub(Decimal::from_pair(spec_depth_penalty(depth) as int, 2)) {
            Some(rest) => if rest.less_than(Decimal::from_pair(10, 2)) {
                Some(Decimal::from_pair(10, 2))
            } else {
                Some(rest)
            },
            None => None,
        }
    }
}

/// Whether `text` holds the character `c` three times in a row.
pub open spec fn has_triple(text: Seq<char>, c: char) -> bool {
    exists|i: int| 0 <= i && i + 2 < text.len() && #[trigger] text[i] == c && text[i + 1] == c && text[i + 2] == c
}

/// `bonus` raised by `share` of `unit` where `applies`.
pub open spec fn raised(bonus: Option<Decimal>, applies: bool, unit: Decimal, share: Decimal) -> Option<Decimal> {
    if applies {
        spec_plus(bonus, unit.spec_mul(share))
    } else {
        bonus
    }
}

/// The bonus for the rare properties of a triangle: of the unit `unit`, two
/// tenths for an equilateral triangle, five tenths for the genesis address,
/// fifteen hundredths for a void, and a tenth for an address whose text
/// holds `000` or `111`.
pub open spec fn spec_rarity(unit: Decimal, equilateral: bool, path: Seq<u8>) -> Option<Decimal> {
    let first = raised(Some(Decimal::from_pair(0, 0)), equilateral, unit, Decimal::from_pair(2, 1));
    let second = raised(first, path.len() == 0, unit, Decimal::from_pair(5, 1));
    let third = raised(second, path.len() > 0 && path.last() == 3, unit, Decimal::from_pair(15, 2));
    raised(
        third,
        has_triple(address_text(path), '0') || has_triple(address_text(path), '1'),
        unit,
        Decimal::from_pair(1, 1),
    )
}

/// `factor` to the power `depth`, multiplied out from one.
pub open spec fn spec_power(factor: Decimal, depth: nat) -> Option<Decimal>
    decreases depth,
{
    if depth == 0 {
        Some(Decimal::from_pair(1, 0))
    } else {
        spec_times(spec_power(factor, (depth - 1) as nat), Some(factor))
    }
}

/// The days between `creation_time` and `now`; none where the creation lies
/// ahead.
pub open spec fn age_in_days(creation_time: u64, now: u64) -> u64 {
    if now >= creation_time {
        ((now - creation_time) / SECONDS_PER_DAY as int) as u64
    } else {
        0
    }
}

/// The full hours between `since` and `now`; none where `since` lies
/// ahead.
pub open spec fn hours_between(since: u64, now: u64) -> u64 {
    if now >= since {
        ((now - since) / SECONDS_PER_HOUR as int) as u64
    } else {
        0
    }
}

/// The parts of the value of a triangle of area `area` at an address of
/// `depth` digits: the value of the area, the bonus for the depth, and the
/// bonus for the age.
pub open spec fn spec_base_value(curve: AreaValueCurve, area: Decimal) -> Option<Decimal> {
    area.spec_mul(curve.base_value_per_area)
}

/// The bonus for the depth: the value of the area times the depth
/// multiplier to the power of the depth.
pub open spec fn spec_depth_bonus(curve: AreaValueCurve, area: Decimal, depth: u8) -> Option<Decimal> {
    spec_times(spec_base_value(curve, area), spec_power(curve.depth_multiplier, depth as nat))
}

/// The bonus for the age: the age factor for each day.
pub open spec fn spec_age_bonus(curve: AreaValueCurve, days: u64) -> Option<Decimal> {
    curve.age_factor.spec_mul(Decimal::from_pair(days as int, 0))
}

/// The supply after a block in which `subdivisions` subdivisions were
/// performed: the supply grows by the inflation rate, shrinks by the
/// deflation rate for each subdivision, and stays at most the greatest
/// supply. `None` where a step overflows.
pub open spec fn supply_after_block(config: TokenEconomics, subdivisions: u32) -> Option<Decimal> {
    let inflation = config.circulating_supply.spec_mul(config.block_inflation_rate);
    let deflation = spec_times(
        Decimal::from_pair(subdivisions as int, 0).spec_mul(config.circulating_supply),
        Some(config.subdivision_deflation_rate),
    );
    match spec_minus(spec_plus(Some(config.circulating_supply), inflation), deflation) {
        Some(supply) => if config.max_supply.less_than(supply) {
            Some(config.max_supply)
        } else {
            Some(supply)
        },
        None => None,
    }
}

/// The reward of a stake of `amount` at the rate `rate` after `hours` full
/// hours.
pub open spec fn spec_reward(amount: Decimal, rate: Decimal, hours: u64) -> Option<Decimal> {
    spec_times(amount.spec_mul(rate), Some(Decimal::from_pair(hours as int, 0)))
}

/// The position of the first pool on the triangle at `path`, or the number
/// of pools where there is none.
pub open spec fn pool_position(pools: Seq<StakingPool>, path: Seq<u8>) -> int
    decreases pools.len(),
{
    if pools.len() == 0 {
        0
    } else if pools[0].triangle_address@ == path {
        0
    } else {
        1 + pool_position(pools.drop_first(), path)
    }
}

/// The position of the first rental of the triangle at `path`, or the
/// number of rentals where there is none.
pub open spec fn rental_position(rentals: Seq<TriangleRental>, path: Seq<u8>) -> int
    decreases rentals.len(),
{
    if rentals.len() == 0 {
        0
    } else if rentals[0].triangle_address@ == path {
        0
    } else {
        1 + rental_position(rentals.drop_first(), path)
    }
}

/// The position of the first stake of `staker`, or the number of stakes
/// where there is none.
pub open spec fn stake_position(stakes: Seq<StakePosition>, staker: Seq<char>) -> int
    decreases stakes.len(),
{
    if stakes.len() == 0 {
        0
    } else if stakes[0].staker_address@ == staker {
        0
    } else {
        1 + stake_position(stakes.drop_first(), staker)
    }
}

/// The amounts staked in the pools, added up from zero in their order.
pub open spec fn staked_total(pools: Seq<StakingPool>) -> Option<Decimal>
    decreases pools.len(),
{
    if pools.len() == 0 {
        Some(Decimal::from_pair(0, 0))
    } else {
        spec_plus(staked_total(pools.drop_last()), Some(pools.last().total_staked))
    }
}

/// The prices, added up from zero in their order.
pub open spec fn price_total(prices: Seq<MarketPrice>) -> Option<Decimal>
    decreases prices.len(),
{
    if prices.len() == 0 {
        Some(Decimal::from_pair(0, 0))
    } else {
        spec_plus(price_total(prices.drop_last()), Some(prices.last().price))
    }
}

/// The mean of the prices: zero for none.
pub open spec fn price_mean(prices: Seq<MarketPrice>) -> Option<Decimal> {
    if prices.len() == 0 {
        Some(Decimal::from_pair(0, 0))
    } else {
        spec_over(price_total(prices), Some(Decimal::from_pair(prices.len() as int, 0)))
    }
}

/// The share of liquidity, in hundredths, that a triangle loses to its
/// depth.
pub fn depth_penalty_factor(depth: u8) -> (r: i64)
    ensures
        r == spec_depth_penalty(depth),
{
    if depth <= 2 {
        5
    } else if depth <= 5 {
        15
    } else if depth <= 8 {
        30
    } else {
        50
    }
}

/// Whether `text` holds the byte `c` three times in a row.
fn holds_triple(text: &str, c: u8) -> (r: bool)
    requires
        text.is_ascii(),
        c < 128,
    ensures
        r == has_triple(text@, c as char),
{
    let n = text.unicode_len();
    if n < 3 {
        return false;
    }
    let mut i: usize = 0;
    while i + 2 < n
        invariant
            text.is_ascii(),
            n == text@.len(),
            c < 128,
            n >= 3,
            i + 2 <= n,
            forall|k: int|
                0 <= k < i ==> !(#[trigger] text@[k] == c as char && text@[k + 1] == c as char && text@[k + 2]
                    == c as char),
        decreases n - i,
    {
        let a = text.get_ascii(i);
        let b = text.get_ascii(i + 1);
        let d = text.get_ascii(i + 2);
        proof {
            lemma_byte_of_char(text@[i as int], c);
            lemma_byte_of_char(text@[i + 1], c);
            lemma_byte_of_char(text@[i + 2], c);
        }
        if a == c && b == c && d == c {
            return true;
        }
        i = i + 1;
    }
    false
}

/// An ASCII character is the character of a byte exactly where it has that
/// byte as its code.
proof fn lemma_byte_of_char(x: char, c: u8)
    requires
        c < 128,
        '\0' <= x <= '\u{7f}',
    ensures
        (x as u8 == c) == (x == c as char),
{
}

impl Default for EconomicsEngine {
    /// The economy that [`EconomicsEngine::new`] makes.
    fn default() -> (r: EconomicsEngine)
        ensures
            r.config.initial_supply == Decimal::from_pair(1_000_000, 0),
            r.config.max_supply == Decimal::from_pair(21_000_000, 0),
            r.staking_pools@.len() == 0,
            r.rentals@.len() == 0,
            r.market_prices@.len() == 0,
    {
        EconomicsEngine::new()
    }
}

impl EconomicsEngine {
    /// An economy of a million tokens, of which there may be twenty-one
    /// million at most, without pools, rentals and prices.
    pub fn new() -> (r: EconomicsEngine)
        ensures
            r.config.initial_supply == Decimal::from_pair(1_000_000, 0),
            r.config.max_supply == Decimal::from_pair(21_000_000, 0),
            r.config.circulating_supply == Decimal::from_pair(1_000_000, 0),
            r.config.block_inflation_rate == Decimal::from_pair(5, 2),
            r.config.subdivision_deflation_rate == Decimal::from_pair(1, 2),
            r.config.area_value_curve.base_value_per_area == Decimal::from_pair(100, 0),
            r.config.area_value_curve.depth_multiplier == Decimal::from_pair(2, 0),
            r.config.area_value_curve.rarity_bonus == Decimal::from_pair(10, 1),
            r.config.area_value_curve.age_factor == Decimal::from_pair(1, 3),
            r.staking_pools@.len() == 0,
            r.rentals@.len() == 0,
            r.market_prices@.len() == 0,
    {
        EconomicsEngine {
            config: TokenEconomics {
                initial_supply: Decimal::new(1_000_000, 0),
                max_supply: Decimal::new(21_000_000, 0),
                circulating_supply: Decimal::new(1_000_000, 0),
                block_inflation_rate: Decimal::new(5, 2),
                subdivision_deflation_rate: Decimal::new(1, 2),
                area_value_curve: AreaValueCurve {
                    base_value_per_area: Decimal::new(100, 0),
                    depth_multiplier: Decimal::new(2, 0),
                    rarity_bonus: Decimal::new(10, 1),
                    age_factor: Decimal::new(1, 3),
                },
            },
            staking_pools: Vec::new(),
            rentals: Vec::new(),
            market_prices: Vec::new(),
        }
    }

    /// What `triangle` at `address`, made at `creation_time`, is worth now.
    ///
    /// Fails with `ArithmeticOverflow` where a step overflows, and with the
    /// error of the check for equal sides.
    pub fn calculate_triangle_value(
        &self,
        triangle: &Triangle,
        address: &TriangleAddress,
        creation_time: u64,
    ) -> (r: SierpinskiResult<TriangleValue>)
        ensures
            exists|now: u64| #[trigger] self.valued(*triangle, address@, creation_time, now, r),
    {
        let now = unix_time_now();
        let r = self.calculate_triangle_value_at(now, triangle, address, creation_time);
        assert(self.valued(*triangle, address@, creation_time, now, r));
        r
    }

    /// Whether `r` is the outcome of valuing `triangle` at the address
    /// `path`, made at `creation_time`, at `now`: its worth, or an overflow
    /// error where the worth cannot be computed.
    pub open spec fn valued(
        self,
        triangle: Triangle,
        path: Seq<u8>,
        creation_time: u64,
        now: u64,
        r: SierpinskiResult<TriangleValue>,
    ) -> bool {
        match r {
            Ok(v) => self.values(triangle, path, creation_time, now, v),
            Err(e) => e == SierpinskiError::ArithmeticOverflow && !self.can_value(
                triangle,
                path,
                creation_time,
                now,
            ),
        }
    }

    /// Whether `v` is what `triangle` at the address `path`, made at
    /// `creation_time`, is worth at `now`.
    pub open spec fn values(
        self,
        triangle: Triangle,
        path: Seq<u8>,
        creation_time: u64,
        now: u64,
        v: TriangleValue,
    ) -> bool {
        let curve = self.config.area_value_curve;
        let depth = (path.len() % 256) as u8;
        &&& v.address@ == path
        &&& triangle.spec_area() matches Some(area) && {
            &&& spec_base_value(curve, area) == Some(v.base_area_value)
            &&& spec_depth_bonus(curve, area, depth) == Some(v.depth_bonus)
        }
        &&& triangle.spec_is_equilateral() matches Ok(equilateral) && spec_rarity(
            curve.rarity_bonus,
            equilateral,
            path,
        ) == Some(v.rarity_bonus)
        &&& spec_age_bonus(curve, age_in_days(creation_time, now)) == Some(v.age_factor)
        &&& spec_plus(
            spec_plus(v.base_area_value.spec_add(v.depth_bonus), Some(v.rarity_bonus)),
            Some(v.age_factor),
        ) == Some(v.total_estimated_value)
        &&& spec_liquidity(depth) == Some(v.market_liquidity)
    }

    /// Whether the worth of `triangle` at the address `path`, made at
    /// `creation_time`, can be computed at `now`: whether none of its parts
    /// overflows.
    pub open spec fn can_value(self, triangle: Triangle, path: Seq<u8>, creation_time: u64, now: u64) -> bool {
        let curve = self.config.area_value_curve;
        let depth = (path.len() % 256) as u8;
        match (triangle.spec_area(), triangle.spec_is_equilateral()) {
            (Some(area), Ok(equilateral)) => {
                let base = spec_base_value(curve, area);
                let bonus = spec_depth_bonus(curve, area, depth);
                let rarity = spec_rarity(curve.rarity_bonus, equilateral, path);
                let age = spec_age_bonus(curve, age_in_days(creation_time, now));
                &&& base is Some
                &&& bonus is Some
                &&& rarity is Some
                &&& age is Some
                &&& spec_plus(spec_plus(spec_plus(base, bonus), rarity), age) is Some
                &&& spec_liquidity(depth) is Some
            },
            _ => false,
        }
    }

    /// What `triangle` at `address`, made at `creation_time`, is worth when
    /// the clock reads `now`.
    pub fn calculate_triangle_value_at(
        &self,
        now: u64,
        triangle: &Triangle,
        address: &TriangleAddress,
        creation_time: u64,
    ) -> (r: SierpinskiResult<TriangleValue>)
        ensures
            self.valued(*triangle, address@, creation_time, now, r),
            r is Ok <==> self.can_value(*triangle, address@, creation_time, now),
    {
        let curve = self.config.area_value_curve;
        let area = match triangle.area() {
            Ok(a) => a,
            Err(_) => {
                return Err(SierpinskiError::ArithmeticOverflow);
            },
        };
        let base_area_value = area.checked_mul(curve.base_value_per_area);
        let depth = address.depth();
        let mut multiplier = Some(Decimal::one());
        let mut level: u8 = 0;
        while level < depth
            invariant
                level <= depth,
                multiplier == spec_power(curve.depth_multiplier, level as nat),
            decreases depth - level,
        {
            multiplier = times(multiplier, Some(curve.depth_multiplier));
            level = level + 1;
        }
        let depth_bonus = times(base_area_value, multiplier);
        let rarity_bonus = match self.calculate_rarity_bonus(triangle, address) {
            Ok(b) => Some(b),
            Err(_) => None,
        };
        let age_days = if now >= creation_time {
            (now - creation_time) / SECONDS_PER_DAY
        } else {
            0
        };
        let age_factor = curve.age_factor.checked_mul(Decimal::from_unsigned(age_days, 0));
        let total_estimated_value = plus(plus(plus(base_area_value, depth_bonus), rarity_bonus), age_factor);
        let market_liquidity = self.calculate_liquidity_factor(address);
        match (base_area_value, depth_bonus, rarity_bonus, age_factor, total_estimated_value, market_liquidity) {
            (Some(base_area_value), Some(depth_bonus), Some(rarity_bonus), Some(age_factor), Some(
                total_estimated_value,
            ), Ok(market_liquidity)) => Ok(
                TriangleValue {
                    address: address.clone(),
                    base_area_value,
                    depth_bonus,
                    rarity_bonus,
                    age_factor,
                    total_estimated_value,
                    market_liquidity,
                },
            ),
            _ => Err(SierpinskiError::ArithmeticOverflow),
        }
    }

    /// The bonus for the rare properties of `triangle` at `address`.
    pub fn calculate_rarity_bonus(
        &self,
        triangle: &Triangle,
        address: &TriangleAddress,
    ) -> (r: SierpinskiResult<Decimal>)
        ensures
            match triangle.spec_is_equilateral() {
                Ok(equilateral) => r == settled(
                    spec_rarity(self.config.area_value_curve.rarity_bonus, equilateral, address@),
                ),
                Err(e) => r == Err::<Decimal, SierpinskiError>(e),
            },
    {
        let unit = self.config.area_value_curve.rarity_bonus;
        let mut bonus = Some(Decimal::zero());
        if triangle.is_equilateral()? {
            bonus = plus(bonus, unit.checked_mul(Decimal::new(2, 1)));
        }
        if address.is_genesis() {
            bonus = plus(bonus, unit.checked_mul(Decimal::new(5, 1)));
        }
        if address.is_void() {
            bonus = plus(bonus, unit.checked_mul(Decimal::new(15, 2)));
        }
        let text = address.to_string_representation();
        let digits = address.components();
        proof {
            crate::address::lemma_address_text_is_ascii(address@);
        }
        if holds_triple(text.as_str(), 48) || holds_triple(text.as_str(), 49) {
            bonus = plus(bonus, unit.checked_mul(Decimal::new(1, 1)));
        }
        settle(bonus)
    }

    /// How easily the triangle at `address` is traded.
    pub fn calculate_liquidity_factor(&self, address: &TriangleAddress) -> (r: SierpinskiResult<Decimal>)
        ensures
            r == settled(spec_liquidity((address@.len() % 256) as u8)),
    {
        let depth = address.depth();
        if address.is_genesis() || depth <= 2 {
            return Ok(Decimal::new(95, 2));
        }
        let penalty = Decimal::new(depth_penalty_factor(depth), 2);
        match Decimal::one().checked_sub(penalty) {
            Some(rest) => {
                let floor = Decimal::new(10, 2);
                if rest.lt(&floor) {
                    Ok(floor)
                } else {
                    Ok(rest)
                }
            },
            None => Err(SierpinskiError::ArithmeticOverflow),
        }
    }

    /// The position of the pool on the triangle at `address`, or the number
    /// of pools where there is none.
    pub fn find_pool(&self, address: &TriangleAddress) -> (i: usize)
        ensures
            i == pool_position(self.staking_pools@, address@),
            i <= self.staking_pools@.len(),
            i < self.staking_pools@.len() ==> self.staking_pools@[i as int].triangle_address@ == address@,
    {
        let ghost pools = self.staking_pools@;
        let mut i: usize = 0;
        assert(pools.skip(0) =~= pools);
        while i < self.staking_pools.len()
            invariant
                pools == self.staking_pools@,
                i <= self.staking_pools.len(),
                pool_position(pools, address@) == i + pool_position(pools.skip(i as int), address@),
            decreases self.staking_pools.len() - i,
        {
            assert(pools.skip(i as int)[0] == pools[i as int]);
            if self.staking_pools[i].triangle_address.same_as(address) {
                return i;
            }
            assert(pools.skip(i as int).drop_first() =~= pools.skip(i + 1));
            i = i + 1;
        }
        i
    }

    /// The position of the rental of the triangle at `address`, or the
    /// number of rentals where there is none.
    pub fn find_rental(&self, address: &TriangleAddress) -> (i: usize)
        ensures
            i == rental_position(self.rentals@, address@),
            i <= self.rentals@.len(),
            i < self.rentals@.len() ==> self.rentals@[i as int].triangle_address@ == address@,
    {
        let ghost rentals = self.rentals@;
        let mut i: usize = 0;
        assert(rentals.skip(0) =~= rentals);
        while i < self.rentals.len()
            invariant
                rentals == self.rentals@,
                i <= self.rentals.len(),
                rental_position(rentals, address@) == i + rental_position(rentals.skip(i as int), address@),
            decreases self.rentals.len() - i,
        {
            assert(rentals.skip(i as int)[0] == rentals[i as int]);
            if self.rentals[i].triangle_address.same_as(address) {
                return i;
            }
            assert(rentals.skip(i as int).drop_first() =~= rentals.skip(i + 1));
            i = i + 1;
        }
        i
    }

    /// Opens a staking pool on the triangle at `triangle_address`. Stakes
    /// are locked for seven days.
    ///
    /// Fails with `ValidationError` where the triangle has a pool already;
    /// the economy is then left as it was.
    pub fn create_staking_pool(
        &mut self,
        triangle_address: TriangleAddress,
        reward_rate: Decimal,
        minimum_stake: Decimal,
    ) -> (r: SierpinskiResult<()>)
        ensures
            final(self).config == old(self).config,
            final(self).rentals@ == old(self).rentals@,
            final(self).market_prices@ == old(self).market_prices@,
            pool_position(old(self).staking_pools@, triangle_address@) < old(self).staking_pools@.len() ==> final(self).staking_pools@ == old(self).staking_pools@ && (r matches Err(
                SierpinskiError::ValidationError { message },
            ) && message@ == "Staking pool already exists for this triangle"@),
            pool_position(old(self).staking_pools@, triangle_address@) >= old(self).staking_pools@.len() ==> {
                &&& r is Ok
                &&& final(self).staking_pools@.len() == old(self).staking_pools@.len() + 1
                &&& final(self).staking_pools@.drop_last() == old(self).staking_pools@
                &&& final(self).staking_pools@.last().triangle_address@ == triangle_address@
                &&& final(self).staking_pools@.last().total_staked == Decimal::from_pair(0, 0)
                &&& final(self).staking_pools@.last().staking_reward_rate == reward_rate
                &&& final(self).staking_pools@.last().minimum_stake == minimum_stake
                &&& final(self).staking_pools@.last().lock_period == DEFAULT_LOCK_PERIOD
                &&& final(self).staking_pools@.last().participants@.len() == 0
            },
    {
        if self.find_pool(&triangle_address) < self.staking_pools.len() {
            return Err(SierpinskiError::validation("Staking pool already exists for this triangle"));
        }
        let pool = StakingPool {
            triangle_address,
            total_staked: Decimal::zero(),
            staking_reward_rate: reward_rate,
            minimum_stake,
            lock_period: DEFAULT_LOCK_PERIOD,
            participants: Vec::new(),
        };
        self.staking_pools.push(pool);
        assert(self.staking_pools@.drop_last() =~= old(self).staking_pools@);
        Ok(())
    }

    /// Stakes `amount` for `staker_address` in the pool on the triangle at
    /// `triangle_address`, as the clock stands.
    pub fn stake_tokens(
        &mut self,
        triangle_address: &TriangleAddress,
        staker_address: String,
        amount: Decimal,
    ) -> (r: SierpinskiResult<()>)
        ensures
            final(self).config == old(self).config,
            final(self).rentals@ == old(self).rentals@,
            final(self).market_prices@ == old(self).market_prices@,
            final(self).staking_pools@.len() == old(self).staking_pools@.len(),
            r is Err ==> final(self).staking_pools@ == old(self).staking_pools@,
            r is Ok <==> stake_accepted(old(self).staking_pools@, triangle_address@, amount),
            r is Ok ==> exists|now: u64| #[trigger]
                staked(
                    old(self).staking_pools@,
                    final(self).staking_pools@,
                    triangle_address@,
                    staker_address@,
                    amount,
                    now,
                ),
    {
        let now = unix_time_now();
        let ghost staker = staker_address@;
        let r = self.stake_tokens_at(now, triangle_address, staker_address, amount);
        assert(r is Ok ==> staked(old(self).staking_pools@, self.staking_pools@, triangle_address@, staker, amount, now));
        r
    }

    /// Stakes as [`EconomicsEngine::stake_tokens`] does, with `now` as the
    /// reading of the clock. The stake replaces an earlier stake of the same
    /// participant; the total of the pool grows by the amount in either
    /// case.
    ///
    /// Fails with `ValidationError` where the triangle has no pool or the
    /// amount is below the least stake of the pool, and with
    /// `ArithmeticOverflow` where the total overflows; the economy is then
    /// left as it was.
    pub fn stake_tokens_at(
        &mut self,
        now: u64,
        triangle_address: &TriangleAddress,
        staker_address: String,
        amount: Decimal,
    ) -> (r: SierpinskiResult<()>)
        ensures
            final(self).config == old(self).config,
            final(self).rentals@ == old(self).rentals@,
            final(self).market_prices@ == old(self).market_prices@,
            final(self).staking_pools@.len() == old(self).staking_pools@.len(),
            r is Err ==> final(self).staking_pools@ == old(self).staking_pools@,
            r is Ok <==> stake_accepted(old(self).staking_pools@, triangle_address@, amount),
            pool_position(old(self).staking_pools@, triangle_address@) >= old(self).staking_pools@.len() ==> (r matches Err(
                SierpinskiError::ValidationError { message },
            ) && message@ == "Staking pool not found"@),
            pool_position(old(self).staking_pools@, triangle_address@) < old(self).staking_pools@.len() ==> {
                let pool = old(self).staking_pools@[pool_position(old(self).staking_pools@, triangle_address@)];
                &&& amount.less_than(pool.minimum_stake) ==> (r matches Err(
                    SierpinskiError::ValidationError { message },
                ) && message@ == "Amount below minimum stake"@)
                &&& !amount.less_than(pool.minimum_stake) && pool.total_staked.spec_add(amount) is None ==> r
                    == Err::<(), SierpinskiError>(SierpinskiError::ArithmeticOverflow)
            },
            r is Ok ==> staked(
                old(self).staking_pools@,
                final(self).staking_pools@,
                triangle_address@,
                staker_address@,
                amount,
                now,
            ),
    {
        let at = self.find_pool(triangle_address);
        if at >= self.staking_pools.len() {
            return Err(SierpinskiError::validation("Staking pool not found"));
        }
        let pool = &self.staking_pools[at];
        if amount.lt(&pool.minimum_stake) {
            return Err(SierpinskiError::validation("Amount below minimum stake"));
        }
        let total = match pool.total_staked.checked_add(amount) {
            Some(t) => t,
            None => {
                return Err(SierpinskiError::ArithmeticOverflow);
            },
        };
        let lock_expires = if now > u64::MAX - pool.lock_period {
            u64::MAX
        } else {
            now + pool.lock_period
        };
        let slot = find_stake(&pool.participants, staker_address.as_str());
        let position = StakePosition {
            staker_address,
            amount_staked: amount,
            stake_timestamp: now,
            lock_expires,
            accumulated_rewards: Decimal::zero(),
        };
        let mut participants = copy_stakes(&pool.participants);
        if slot < participants.len() {
            participants.set(slot, position);
        } else {
            participants.push(position);
        }
        let updated = StakingPool {
            triangle_address: pool.triangle_address.clone(),
            total_staked: total,
            staking_reward_rate: pool.staking_reward_rate,
            minimum_stake: pool.minimum_stake,
            lock_period: pool.lock_period,
            participants,
        };
        self.staking_pools.set(at, updated);
        Ok(())
    }

    /// The stake of `staker` in the pool on the triangle at `path`, with
    /// the reward rate of the pool, if there is such a pool and such a
    /// stake.
    pub open spec fn stake_of(self, path: Seq<u8>, staker: Seq<char>) -> Option<(StakePosition, Decimal)> {
        let at = pool_position(self.staking_pools@, path);
        if 0 <= at < self.staking_pools@.len() {
            let pool = self.staking_pools@[at];
            let slot = stake_position(pool.participants@, staker);
            if 0 <= slot < pool.participants@.len() {
                Some((pool.participants@[slot], pool.staking_reward_rate))
            } else {
                None
            }
        } else {
            None
        }
    }

    /// Whether `r` is the reward of the stake of `staker` in the pool on
    /// the triangle at `path` at `now`: the amount times the rate of the
    /// pool times the full hours since the stake was made.
    pub open spec fn rewards(self, path: Seq<u8>, staker: Seq<char>, now: u64, r: SierpinskiResult<Decimal>) -> bool {
        match self.stake_of(path, staker) {
            Some((stake, rate)) => r == settled(
                spec_reward(stake.amount_staked, rate, hours_between(stake.stake_timestamp, now)),
            ),
            None => r matches Err(SierpinskiError::ValidationError { message }) && message@ == (if pool_position(
                self.staking_pools@,
                path,
            ) >= self.staking_pools@.len() {
                "Staking pool not found"@
            } else {
                "Stake position not found"@
            }),
        }
    }

    /// The reward that the stake of `staker_address` in the pool on the
    /// triangle at `triangle_address` has earned by now.
    ///
    /// Fails with `ValidationError` where there is no such pool or stake,
    /// and with `ArithmeticOverflow` where a product overflows.
    pub fn calculate_staking_rewards(
        &self,
        triangle_address: &TriangleAddress,
        staker_address: &str,
    ) -> (r: SierpinskiResult<Decimal>)
        ensures
            exists|now: u64| #[trigger] self.rewards(triangle_address@, staker_address@, now, r),
            self.stake_of(triangle_address@, staker_address@) is None ==> r is Err,
    {
        let now = unix_time_now();
        let r = self.calculate_staking_rewards_at(now, triangle_address, staker_address);
        assert(self.rewards(triangle_address@, staker_address@, now, r));
        r
    }

    /// The reward as [`EconomicsEngine::calculate_staking_rewards`] gives
    /// it, with `now` as the reading of the clock.
    pub fn calculate_staking_rewards_at(
        &self,
        now: u64,
        triangle_address: &TriangleAddress,
        staker_address: &str,
    ) -> (r: SierpinskiResult<Decimal>)
        ensures
            self.rewards(triangle_address@, staker_address@, now, r),
    {
        let at = self.find_pool(triangle_address);
        if at >= self.staking_pools.len() {
            return Err(SierpinskiError::validation("Staking pool not found"));
        }
        let pool = &self.staking_pools[at];
        let slot = find_stake(&pool.participants, staker_address);
        if slot >= pool.participants.len() {
            return Err(SierpinskiError::validation("Stake position not found"));
        }
        let position = &pool.participants[slot];
        let hours = if now >= position.stake_timestamp {
            (now - position.stake_timestamp) / SECONDS_PER_HOUR
        } else {
            0
        };
        settle(
            times(
                position.amount_staked.checked_mul(pool.staking_reward_rate),
                Some(Decimal::from_unsigned(hours, 0)),
            ),
        )
    }

    /// Offers the triangle at `triangle_address` for rent at `rental_rate`
    /// for a block, for a hundred blocks at least, against a deposit of ten
    /// times the rate.
    ///
    /// Fails with `ValidationError` where the triangle is offered already,
    /// and with `ArithmeticOverflow` where the deposit overflows; the
    /// economy is then left as it was.
    pub fn create_rental(
        &mut self,
        triangle_address: TriangleAddress,
        owner_address: String,
        rental_rate: Decimal,
    ) -> (r: SierpinskiResult<()>)
        ensures
            final(self).config == old(self).config,
            final(self).staking_pools@ == old(self).staking_pools@,
            final(self).market_prices@ == old(self).market_prices@,
            r is Err ==> final(self).rentals@ == old(self).rentals@,
            rental_position(old(self).rentals@, triangle_address@) < old(self).rentals@.len() ==> (r matches Err(
                SierpinskiError::ValidationError { message },
            ) && message@ == "Triangle already listed for rental"@),
            rental_position(old(self).rentals@, triangle_address@) >= old(self).rentals@.len() ==> (
            match rental_rate.spec_mul(Decimal::from_pair(10, 0)) {
                None => r == Err::<(), SierpinskiError>(SierpinskiError::ArithmeticOverflow),
                Some(deposit) => {
                    &&& r is Ok
                    &&& final(self).rentals@.len() == old(self).rentals@.len() + 1
                    &&& final(self).rentals@.drop_last() == old(self).rentals@
                    &&& final(self).rentals@.last().triangle_address@ == triangle_address@
                    &&& final(self).rentals@.last().owner_address@ == owner_address@
                    &&& final(self).rentals@.last().rental_rate_per_block == rental_rate
                    &&& final(self).rentals@.last().minimum_rental_period == MINIMUM_RENTAL_PERIOD
                    &&& final(self).rentals@.last().current_renter is None
                    &&& final(self).rentals@.last().rental_start_block == 0
                    &&& final(self).rentals@.last().rental_end_block == 0
                    &&& final(self).rentals@.last().security_deposit == deposit
                },
            }),
    {
        if self.find_rental(&triangle_address) < self.rentals.len() {
            return Err(SierpinskiError::validation("Triangle already listed for rental"));
        }
        let deposit = match rental_rate.checked_mul(Decimal::new(10, 0)) {
            Some(d) => d,
            None => {
                return Err(SierpinskiError::ArithmeticOverflow);
            },
        };
        let rental = TriangleRental {
            triangle_address,
            owner_address,
            rental_rate_per_block: rental_rate,
            minimum_rental_period: MINIMUM_RENTAL_PERIOD,
            current_renter: None,
            rental_start_block: 0,
            rental_end_block: 0,
            security_deposit: deposit,
        };
        self.rentals.push(rental);
        assert(self.rentals@.drop_last() =~= old(self).rentals@);
        Ok(())
    }

    /// Brings the supply up to date after a block: it grows by the
    /// inflation rate, shrinks by the deflation rate for each subdivision
    /// that was performed, and stays at most the greatest supply.
    ///
    /// Fails with `ArithmeticOverflow` where a step overflows; the supply
    /// is then left as it was.
    pub fn update_supply_after_block(
        &mut self,
        new_triangles_created: u32,
        subdivisions_performed: u32,
    ) -> (r: SierpinskiResult<()>)
        ensures
            final(self).staking_pools@ == old(self).staking_pools@,
            final(self).rentals@ == old(self).rentals@,
            final(self).market_prices@ == old(self).market_prices@,
            match supply_after_block(old(self).config, subdivisions_performed) {
                Some(supply) => r is Ok && final(self).config == (TokenEconomics {
                    circulating_supply: supply,
                    ..old(self).config
                }),
                None => r == Err::<(), SierpinskiError>(SierpinskiError::ArithmeticOverflow) && final(self).config
                    == old(self).config,
            },
    {
        let supply = self.config.circulating_supply;
        let inflation = supply.checked_mul(self.config.block_inflation_rate);
        let deflation = times(
            Decimal::from_unsigned(subdivisions_performed as u64, 0).checked_mul(supply),
            Some(self.config.subdivision_deflation_rate),
        );
        match minus(plus(Some(supply), inflation), deflation) {
            Some(next) => {
                self.config.circulating_supply = if self.config.max_supply.lt(&next) {
                    self.config.max_supply
                } else {
                    next
                };
                Ok(())
            },
            None => Err(SierpinskiError::ArithmeticOverflow),
        }
    }

    /// Counts and sums of the economy.
    ///
    /// Fails with `ArithmeticOverflow` where a sum overflows.
    pub fn get_economics_stats(&self) -> (r: SierpinskiResult<EconomicsStats>)
        ensures
            match (staked_total(self.staking_pools@), price_mean(self.market_prices@)) {
                (Some(staked), Some(mean)) => r == Ok::<EconomicsStats, SierpinskiError>(
                    EconomicsStats {
                        circulating_supply: self.config.circulating_supply,
                        max_supply: self.config.max_supply,
                        inflation_rate: self.config.block_inflation_rate,
                        deflation_rate: self.config.subdivision_deflation_rate,
                        active_staking_pools: self.staking_pools@.len() as usize,
                        total_staked_value: staked,
                        active_rentals: self.rentals@.len() as usize,
                        average_triangle_value: mean,
                    },
                ),
                _ => r == Err::<EconomicsStats, SierpinskiError>(SierpinskiError::ArithmeticOverflow),
            },
    {
        let ghost pools = self.staking_pools@;
        let mut staked = Some(Decimal::zero());
        let mut i: usize = 0;
        while i < self.staking_pools.len()
            invariant
                pools == self.staking_pools@,
                i <= self.staking_pools.len(),
                staked == staked_total(pools.subrange(0, i as int)),
            decreases self.staking_pools.len() - i,
        {
            proof {
                let next = pools.subrange(0, i + 1);
                assert(next.drop_last() =~= pools.subrange(0, i as int));
                assert(next.last() == pools[i as int]);
            }
            staked = plus(staked, Some(self.staking_pools[i].total_staked));
            i = i + 1;
        }
        assert(pools.subrange(0, i as int) =~= pools);
        let mean = self.calculate_average_triangle_value();
        match (staked, mean) {
            (Some(staked), Some(mean)) => Ok(
                EconomicsStats {
                    circulating_supply: self.config.circulating_supply,
                    max_supply: self.config.max_supply,
                    inflation_rate: self.config.block_inflation_rate,
                    deflation_rate: self.config.subdivision_deflation_rate,
                    active_staking_pools: self.staking_pools.len(),
                    total_staked_value: staked,
                    active_rentals: self.rentals.len(),
                    average_triangle_value: mean,
                },
            ),
            _ => Err(SierpinskiError::ArithmeticOverflow),
        }
    }

    /// The mean of the known prices: zero where none is known, `None`
    /// where a step overflows.
    pub fn calculate_average_triangle_value(&self) -> (r: Option<Decimal>)
        ensures
            r == price_mean(self.market_prices@),
    {
        if self.market_prices.len() == 0 {
            return Some(Decimal::zero());
        }
        let ghost prices = self.market_prices@;
        let mut total = Some(Decimal::zero());
        let mut i: usize = 0;
        while i < self.market_prices.len()
            invariant
                prices == self.market_prices@,
                i <= self.market_prices.len(),
                total == price_total(prices.subrange(0, i as int)),
            decreases self.market_prices.len() - i,
        {
            proof {
                let next = prices.subrange(0, i + 1);
                assert(next.drop_last() =~= prices.subrange(0, i as int));
                assert(next.last() == prices[i as int]);
            }
            total = plus(total, Some(self.market_prices[i].price));
            i = i + 1;
        }
        assert(prices.subrange(0, i as int) =~= prices);
        over(total, Some(Decimal::from_unsigned(self.market_prices.len() as u64, 0)))
    }
}

/// Whether `after` holds the pools `before` once `amount` has been staked
/// for `staker` at the time `now` in the pool on the triangle at `address`.
/// The other pools stay. The total of the pool grows by the amount. The
/// stake takes the place of an earlier stake of the same participant, or
/// comes at the end; it begins at `now`, is locked for the lock period of
/// the pool, and has no rewards yet. The other stakes stay.
pub open spec fn staked(
    before: Seq<StakingPool>,
    after: Seq<StakingPool>,
    address: Seq<u8>,
    staker: Seq<char>,
    amount: Decimal,
    now: u64,
) -> bool {
    let at = pool_position(before, address);
    let pool = before[at];
    let grown = after[at];
    let slot = stake_position(pool.participants@, staker);
    &&& after.len() == before.len()
    &&& forall|k: int| 0 <= k < before.len() && k != at ==> after[k] == before[k]
    &&& grown.triangle_address@ == address
    &&& pool.total_staked.spec_add(amount) == Some(grown.total_staked)
    &&& grown.staking_reward_rate == pool.staking_reward_rate
    &&& grown.minimum_stake == pool.minimum_stake
    &&& grown.lock_period == pool.lock_period
    &&& grown.participants@.len() == if slot < pool.participants@.len() {
        pool.participants@.len()
    } else {
        pool.participants@.len() + 1
    }
    &&& forall|k: int| 0 <= k < pool.participants@.len() && k != slot ==> grown.participants@[k] == pool.participants@[k]
    &&& grown.participants@[slot].staker_address@ == staker
    &&& grown.participants@[slot].amount_staked == amount
    &&& grown.participants@[slot].stake_timestamp == now
    &&& grown.participants@[slot].lock_expires == if now + pool.lock_period > u64::MAX {
        u64::MAX
    } else {
        (now + pool.lock_period) as u64
    }
    &&& grown.participants@[slot].accumulated_rewards == Decimal::from_pair(0, 0)
}

/// Whether a stake of `amount` is taken by the pool on the triangle at
/// `path`: there is such a pool, the amount is not below its least stake,
/// and its total does not overflow.
pub open spec fn stake_accepted(pools: Seq<StakingPool>, path: Seq<u8>, amount: Decimal) -> bool {
    let at = pool_position(pools, path);
    &&& 0 <= at < pools.len()
    &&& !amount.less_than(pools[at].minimum_stake)
    &&& pools[at].total_staked.spec_add(amount) is Some
}

/// A copy of the stakes.
pub fn copy_stakes(stakes: &Vec<StakePosition>) -> (r: Vec<StakePosition>)
    ensures
        r@ == stakes@,
{
    let mut copy: Vec<StakePosition> = Vec::new();
    let mut i: usize = 0;
    while i < stakes.len()
        invariant
            i <= stakes.len(),
            copy@ == stakes@.subrange(0, i as int),
        decreases stakes.len() - i,
    {
        let stake = &stakes[i];
        copy.push(
            StakePosition {
                staker_address: stake.staker_address.clone(),
                amount_staked: stake.amount_staked,
                stake_timestamp: stake.stake_timestamp,
                lock_expires: stake.lock_expires,
                accumulated_rewards: stake.accumulated_rewards,
            },
        );
        assert(copy@ =~= stakes@.subrange(0, i + 1));
        i = i + 1;
    }
    assert(stakes@.subrange(0, i as int) =~= stakes@);
    copy
}

/// The position of the stake of `staker`, or the number of stakes where
/// there is none.
pub fn find_stake(stakes: &Vec<StakePosition>, staker: &str) -> (i: usize)
    ensures
        i == stake_position(stakes@, staker@),
        i <= stakes@.len(),
        i < stakes@.len() ==> stakes@[i as int].staker_address@ == staker@,
{
    let wanted = staker.to_owned();
    let mut i: usize = 0;
    assert(stakes@.skip(0) =~= stakes@);
    while i < stakes.len()
        invariant
            wanted@ == staker@,
            i <= stakes.len(),
            stake_position(stakes@, staker@) == i + stake_position(stakes@.skip(i as int), staker@),
        decreases stakes.len() - i,
    {
        assert(stakes@.skip(i as int)[0] == stakes@[i as int]);
        if stakes[i].staker_address == wanted {
            return i;
        }
        assert(stakes@.skip(i as int).drop_first() =~= stakes@.skip(i + 1));
        i = i + 1;
    }
    i
}

} // verus!

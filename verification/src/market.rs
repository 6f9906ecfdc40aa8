use vstd::prelude::*;

use crate::book::Orderbook;
use crate::error::Error;
use crate::event_queue::EventQueue;
use crate::oracle::OracleConfig;
use crate::oracle::OracleFeed;
use crate::oracle::read_price;
use crate::oracle::read_price_spec;
use crate::stable_price::StablePriceModel;
use crate::stable_price::clamp_spec;

verus! {

/// Index of the protocol's primary quote token, the only supported
/// settlement asset.
pub const QUOTE_TOKEN_INDEX: u16 = 0;

/// Fixed width of the stored market name, in bytes.
pub const MARKET_NAME_LEN: usize = 16;

/// Resting orders one book side can hold; fixed at creation.
pub const BOOK_CAPACITY: usize = 1024;

/// Slots in the event queue; fixed at creation.
pub const EVENT_QUEUE_CAPACITY: usize = 488;

/// The fixed-point one: fractions (weights, fees, funding rates) are
/// stored as signed integers scaled by 2^48.
pub const FP_ONE: i128 = 281474976710656;

/// Largest magnitude, in the same 2^48 scale, accepted for the per-day
/// funding-rate bounds; keeps the funding accumulators far from overflow
/// for any timestamp.
pub const FUNDING_RATE_BOUND: i128 = 1152921504606846976;

pub const SECONDS_PER_DAY: u64 = 86400;

/// The canonical record of one perpetual-futures market. Fractional
/// parameters (weights, fees, funding rates and accumulators) are
/// fixed-point integers scaled by `FP_ONE`.
#[derive(Debug)]
pub struct PerpMarket {
    // identity, immutable after creation
    pub group: u64,
    pub perp_market_index: u16,
    pub settle_token_index: u16,
    pub group_insurance_fund: bool,
    pub base_decimals: u8,
    /// Exactly `MARKET_NAME_LEN` bytes, zero-padded.
    pub name: Vec<u8>,
    // references
    pub bids: u64,
    pub asks: u64,
    pub event_queue: u64,
    pub oracle: u64,
    pub oracle_config: OracleConfig,
    pub stable_price_model: StablePriceModel,
    // lot configuration, both strictly positive
    pub quote_lot_size: i64,
    pub base_lot_size: i64,
    // risk weights
    pub maint_base_asset_weight: i128,
    pub init_base_asset_weight: i128,
    pub maint_base_liab_weight: i128,
    pub init_base_liab_weight: i128,
    pub maint_pnl_asset_weight: i128,
    pub init_pnl_asset_weight: i128,
    /// Total outstanding position size; never negative.
    pub open_interest: i64,
    /// Strictly increasing per state-mutating trading event.
    pub seq_num: u64,
    pub registration_time: u64,
    // funding state
    pub min_funding: i128,
    pub max_funding: i128,
    pub impact_quantity: i64,
    pub long_funding: i128,
    pub short_funding: i128,
    pub funding_last_updated: u64,
    // fee schedule and totals
    pub liquidation_fee: i128,
    pub maker_fee: i128,
    pub taker_fee: i128,
    pub fees_accrued: i128,
    pub fees_settled: i128,
    pub fee_penalty: i128,
    // settlement parameters
    pub settle_fee_flat: i128,
    pub settle_fee_amount_threshold: i128,
    pub settle_fee_fraction_low_health: i128,
    pub settle_pnl_limit_factor: i128,
    pub settle_pnl_limit_window_size_ts: u64,
    pub reduce_only: bool,
}

/// Everything `perp_create_market` takes. Identities (group, oracle, the
/// market itself, its book sides and queue) arrive as plain ids from the
/// host; fractional parameters are already in the 2^48 fixed-point scale.
#[derive(Debug)]
pub struct CreateMarketParams {
    pub group: u64,
    pub market: u64,
    pub oracle: u64,
    pub bids: u64,
    pub asks: u64,
    pub event_queue: u64,
    pub perp_market_index: u16,
    pub settle_token_index: u16,
    pub name: Vec<u8>,
    pub oracle_config: OracleConfig,
    pub base_decimals: u8,
    pub quote_lot_size: i64,
    pub base_lot_size: i64,
    pub maint_base_asset_weight: i128,
    pub init_base_asset_weight: i128,
    pub maint_base_liab_weight: i128,
    pub init_base_liab_weight: i128,
    pub maint_pnl_asset_weight: i128,
    pub init_pnl_asset_weight: i128,
    pub liquidation_fee: i128,
    pub maker_fee: i128,
    pub taker_fee: i128,
    pub min_funding: i128,
    pub max_funding: i128,
    pub impact_quantity: i64,
    pub group_insurance_fund: bool,
    pub fee_penalty: i128,
    pub settle_fee_flat: i128,
    pub settle_fee_amount_threshold: i128,
    pub settle_fee_fraction_low_health: i128,
    pub settle_pnl_limit_factor: i128,
    pub settle_pnl_limit_window_size_ts: u64,
    pub stable_price_max_move_ppm_per_sec: u32,
}

/// The market-created notification handed back for the host to emit.
#[derive(Clone, Copy, Debug, PartialEq, Eq, Structural)]
pub struct MarketCreated {
    pub group: u64,
    pub market: u64,
    pub perp_market_index: u16,
    pub base_decimals: u8,
    pub base_lot_size: i64,
    pub quote_lot_size: i64,
    pub oracle: u64,
}

/// A freshly created market with its empty book and queue, plus the
/// notification.
#[derive(Debug)]
pub struct CreatedMarket {
    pub market: PerpMarket,
    pub orderbook: Orderbook,
    pub event_queue: EventQueue,
    pub notification: MarketCreated,
}

/// The name as stored: zero-padded to the fixed width.
pub open spec fn padded_name(s: Seq<u8>) -> Seq<u8> {
    Seq::new(
        MARKET_NAME_LEN as nat,
        |i: int|
            if 0 <= i < s.len() {
                s[i]
            } else {
                0u8
            },
    )
}

/// Asset weights lie in [0, 1], liability weights in [1, ∞), and each
/// maintenance threshold is reached before its initial threshold.
pub open spec fn valid_weights(p: CreateMarketParams) -> bool {
    &&& 0 <= p.init_base_asset_weight <= p.maint_base_asset_weight <= FP_ONE
    &&& FP_ONE <= p.maint_base_liab_weight <= p.init_base_liab_weight
    &&& 0 <= p.init_pnl_asset_weight <= p.maint_pnl_asset_weight <= FP_ONE
}

/// Fee fractions lie in valid ranges (a maker rebate may be negative).
pub open spec fn valid_fees(p: CreateMarketParams) -> bool {
    &&& -FP_ONE <= p.maker_fee <= FP_ONE
    &&& 0 <= p.taker_fee <= FP_ONE
    &&& 0 <= p.liquidation_fee <= FP_ONE
    &&& 0 <= p.fee_penalty
    &&& 0 <= p.settle_fee_flat
    &&& 0 <= p.settle_fee_amount_threshold
    &&& 0 <= p.settle_fee_fraction_low_health <= FP_ONE
    &&& 0 <= p.settle_pnl_limit_factor
}

/// The funding band is ordered and bounded.
pub open spec fn valid_funding_limits(p: CreateMarketParams) -> bool {
    &&& p.min_funding <= p.max_funding
    &&& -FUNDING_RATE_BOUND <= p.min_funding
    &&& p.max_funding <= FUNDING_RATE_BOUND
}

pub open spec fn valid_risk_params(p: CreateMarketParams) -> bool {
    valid_weights(p) && valid_fees(p) && valid_funding_limits(p)
}

/// Truncating division for a positive divisor: rounds toward zero.
pub open spec fn div_trunc(a: int, b: int) -> int {
    if a >= 0 {
        a / b
    } else {
        -((-a) / b)
    }
}

/// Midpoint of the best bid and best ask, or `fallback` (the stable
/// price, making the funding gap zero) when either side is empty.
pub open spec fn book_mid_spec(book: Orderbook, fallback: int) -> int {
    if book.bids.orders@.len() > 0 && book.asks.orders@.len() > 0 {
        (book.bids.orders@[0].price + book.asks.orders@[0].price) / 2
    } else {
        fallback
    }
}

/// One funding step: no-op unless time advanced; otherwise the
/// instantaneous rate is the fractional gap between the book mid price and
/// the stable price, clamped into the market's funding band, and both
/// accumulators grow by that per-day rate scaled by the elapsed seconds.
pub open spec fn funding_update_spec(m: PerpMarket, mid: int, now: u64) -> PerpMarket {
    if now <= m.funding_last_updated {
        m
    } else {
        let elapsed = now - m.funding_last_updated;
        let stable = m.stable_price_model.stable_price as int;
        let rate = clamp_spec(
            div_trunc((mid - stable) * FP_ONE, stable),
            m.min_funding as int,
            m.max_funding as int,
        );
        let delta = div_trunc(rate * elapsed, SECONDS_PER_DAY as int);
        PerpMarket {
            long_funding: (m.long_funding + delta) as i128,
            short_funding: (m.short_funding + delta) as i128,
            funding_last_updated: now,
            ..m
        }
    }
}

impl PerpMarket {
    /// Structural invariant: positive lot sizes, fixed-width name, an
    /// ordered and bounded funding band, bounded funding accumulators,
    /// a seeded stable price and non-negative open interest.
    pub open spec fn wf(self) -> bool {
        &&& self.quote_lot_size >= 1
        &&& self.base_lot_size >= 1
        &&& self.name@.len() == MARKET_NAME_LEN
        &&& self.min_funding <= self.max_funding
        &&& -FUNDING_RATE_BOUND <= self.min_funding
        &&& self.max_funding <= FUNDING_RATE_BOUND
        &&& -(FUNDING_RATE_BOUND * (self.funding_last_updated as int)) <= self.long_funding
            <= FUNDING_RATE_BOUND * (self.funding_last_updated as int)
        &&& -(FUNDING_RATE_BOUND * (self.funding_last_updated as int)) <= self.short_funding
            <= FUNDING_RATE_BOUND * (self.funding_last_updated as int)
        &&& self.stable_price_model.wf()
        &&& self.open_interest >= 0
    }

    /// Accrues funding from the gap between the book's mid price and the
    /// stable price, clamped to `[min_funding, max_funding]`,
    /// proportionally to the time elapsed since the last update. A call
    /// whose timestamp has not advanced changes nothing, so duplicate or
    /// out-of-order host calls are harmless.
    pub fn update_funding(&mut self, book: &Orderbook, now: u64)
        requires
            old(self).wf(),
            book.wf(),
        ensures
            final(self).wf(),
            *final(self) == funding_update_spec(
                *old(self),
                book_mid_spec(*book, old(self).stable_price_model.stable_price as int),
                now,
            ),
            now <= old(self).funding_last_updated ==> *final(self) == *old(self),
    {
        if now <= self.funding_last_updated {
            return ;
        }
        let elapsed: u64 = now - self.funding_last_updated;
        let stable: i64 = self.stable_price_model.stable_price;
        let best_bid = book.bids.peek_best();
        let best_ask = book.asks.peek_best();
        let mid: i128 = match (best_bid, best_ask) {
            (Some(b), Some(a)) => (((b.price as u128) + (a.price as u128)) / 2) as i128,
            _ => stable as i128,
        };
        let diff: i128 = mid - (stable as i128);
        let ghost stable_i = stable as int;
        let ghost mid_i = mid as int;
        let diff_mag: u128 = if diff >= 0 {
            diff as u128
        } else {
            (-diff) as u128
        };
        proof {
            vstd::arithmetic::mul::lemma_mul_upper_bound(
                diff_mag as int,
                0x10000000000000000,
                FP_ONE as int,
                FP_ONE as int,
            );
            vstd::arithmetic::div_mod::lemma_div_nonincreasing(
                (diff_mag as int) * (FP_ONE as int),
                stable_i,
            );
            vstd::arithmetic::div_mod::lemma_div_pos_is_pos(
                (diff_mag as int) * (FP_ONE as int),
                stable_i,
            );
            assert((diff_mag as int) * (FP_ONE as int) == if diff >= 0 {
                (diff as int) * (FP_ONE as int)
            } else {
                -((diff as int) * (FP_ONE as int))
            }) by (nonlinear_arith)
                requires
                    diff_mag as int == if diff >= 0 {
                        diff as int
                    } else {
                        -(diff as int)
                    },
            ;
        }
        let rate_mag: u128 = diff_mag * (FP_ONE as u128) / (stable as u128);
        let rate_unclamped: i128 = if diff >= 0 {
            rate_mag as i128
        } else {
            -(rate_mag as i128)
        };
        proof {
            assert(rate_unclamped as int == div_trunc((mid_i - stable_i) * (FP_ONE as int), stable_i));
        }
        let rate: i128 = if rate_unclamped < self.min_funding {
            self.min_funding
        } else if rate_unclamped > self.max_funding {
            self.max_funding
        } else {
            rate_unclamped
        };
        let ghost rate_i = rate as int;
        let ghost e_i = elapsed as int;
        let rate_abs: u128 = if rate >= 0 {
            rate as u128
        } else {
            (-rate) as u128
        };
        proof {
            vstd::arithmetic::mul::lemma_mul_upper_bound(
                rate_abs as int,
                FUNDING_RATE_BOUND as int,
                e_i,
                0xffffffffffffffff,
            );
            vstd::arithmetic::div_mod::lemma_div_nonincreasing((rate_abs as int) * e_i, SECONDS_PER_DAY as int);
            vstd::arithmetic::div_mod::lemma_div_pos_is_pos((rate_abs as int) * e_i, SECONDS_PER_DAY as int);
            assert((rate_abs as int) * e_i == if rate_i >= 0 {
                rate_i * e_i
            } else {
                -(rate_i * e_i)
            }) by (nonlinear_arith)
                requires
                    rate_abs as int == if rate_i >= 0 {
                        rate_i
                    } else {
                        -rate_i
                    },
            ;
        }
        let delta_mag: u128 = rate_abs * (elapsed as u128) / (SECONDS_PER_DAY as u128);
        let delta: i128 = if rate >= 0 {
            delta_mag as i128
        } else {
            -(delta_mag as i128)
        };
        proof {
            let b = FUNDING_RATE_BOUND as int;
            let last = self.funding_last_updated as int;
            assert(delta as int == div_trunc(rate_i * e_i, SECONDS_PER_DAY as int));
            vstd::arithmetic::mul::lemma_mul_inequality(rate_abs as int, b, e_i);
            assert(-(b * e_i) <= delta <= b * e_i);
            assert(b * last + b * e_i == b * (last + e_i)) by (nonlinear_arith);
            assert(b * (last + e_i) == b * (now as int));
        }
        self.long_funding = self.long_funding + delta;
        self.short_funding = self.short_funding + delta;
        self.funding_last_updated = now;
    }
}

/// Funding accrual is idempotent against duplicate or out-of-order calls:
/// once an update ran at `t1`, a second update at any `t2 <= t1` changes
/// nothing, whatever mid price it sees.
pub proof fn lemma_update_funding_idempotent(
    m: PerpMarket,
    mid1: int,
    t1: u64,
    mid2: int,
    t2: u64,
)
    requires
        t2 <= t1,
    ensures
        funding_update_spec(funding_update_spec(m, mid1, t1), mid2, t2) == funding_update_spec(
            m,
            mid1,
            t1,
        ),
{
}

/// Validates the creation parameters and, on success, builds the market
/// record with zeroed totals, an empty book and queue, the stable price
/// seeded from one oracle read, and the notification for the host to
/// emit.
///
/// Failures, checked in this order and reported before anything is built:
/// `UnsupportedSettlementToken` unless the settlement token is the primary
/// quote token (no partial accounting for other assets), `InvalidLotSize`
/// for a non-positive lot size, `NameTooLong` when the name exceeds its
/// fixed-width storage, `InvalidRiskParams` for an out-of-range fee,
/// weight or funding bound, and the oracle's own error when the seeding
/// read fails.
pub fn perp_create_market(params: &CreateMarketParams, oracle_feed: &OracleFeed, now: u64) -> (r:
    Result<CreatedMarket, Error>)
    ensures
        params.settle_token_index != QUOTE_TOKEN_INDEX ==> r == Err::<CreatedMarket, Error>(
            Error::UnsupportedSettlementToken,
        ),
        params.settle_token_index == QUOTE_TOKEN_INDEX && (params.quote_lot_size <= 0
            || params.base_lot_size <= 0) ==> r == Err::<CreatedMarket, Error>(Error::InvalidLotSize),
        params.settle_token_index == QUOTE_TOKEN_INDEX && params.quote_lot_size > 0
            && params.base_lot_size > 0 && params.name@.len() > MARKET_NAME_LEN ==> r == Err::<
            CreatedMarket,
            Error,
        >(Error::NameTooLong),
        params.settle_token_index == QUOTE_TOKEN_INDEX && params.quote_lot_size > 0
            && params.base_lot_size > 0 && params.name@.len() <= MARKET_NAME_LEN
            && !valid_risk_params(*params) ==> r == Err::<CreatedMarket, Error>(
            Error::InvalidRiskParams,
        ),
        params.settle_token_index == QUOTE_TOKEN_INDEX && params.quote_lot_size > 0
            && params.base_lot_size > 0 && params.name@.len() <= MARKET_NAME_LEN
            && valid_risk_params(*params) ==> r is Ok == read_price_spec(
            *oracle_feed,
            params.oracle_config,
            now,
        ) is Ok && (read_price_spec(*oracle_feed, params.oracle_config, now) matches Err(e) ==> r
            == Err::<CreatedMarket, Error>(e)),
        r matches Ok(c) ==> {
            &&& c.market.wf()
            &&& c.market.group == params.group
            &&& c.market.perp_market_index == params.perp_market_index
            &&& c.market.settle_token_index == params.settle_token_index
            &&& c.market.group_insurance_fund == params.group_insurance_fund
            &&& c.market.base_decimals == params.base_decimals
            &&& c.market.name@ == padded_name(params.name@)
            &&& c.market.bids == params.bids
            &&& c.market.asks == params.asks
            &&& c.market.event_queue == params.event_queue
            &&& c.market.oracle == params.oracle
            &&& c.market.oracle_config == params.oracle_config
            &&& c.market.quote_lot_size == params.quote_lot_size
            &&& c.market.base_lot_size == params.base_lot_size
            &&& c.market.maint_base_asset_weight == params.maint_base_asset_weight
            &&& c.market.init_base_asset_weight == params.init_base_asset_weight
            &&& c.market.maint_base_liab_weight == params.maint_base_liab_weight
            &&& c.market.init_base_liab_weight == params.init_base_liab_weight
            &&& c.market.maint_pnl_asset_weight == params.maint_pnl_asset_weight
            &&& c.market.init_pnl_asset_weight == params.init_pnl_asset_weight
            &&& c.market.open_interest == 0
            &&& c.market.seq_num == 0
            &&& c.market.registration_time == now
            &&& c.market.min_funding == params.min_funding
            &&& c.market.max_funding == params.max_funding
            &&& c.market.impact_quantity == params.impact_quantity
            &&& c.market.long_funding == 0
            &&& c.market.short_funding == 0
            &&& c.market.funding_last_updated == now
            &&& c.market.liquidation_fee == params.liquidation_fee
            &&& c.market.maker_fee == params.maker_fee
            &&& c.market.taker_fee == params.taker_fee
            &&& c.market.fees_accrued == 0
            &&& c.market.fees_settled == 0
            &&& c.market.fee_penalty == params.fee_penalty
            &&& c.market.settle_fee_flat == params.settle_fee_flat
            &&& c.market.settle_fee_amount_threshold == params.settle_fee_amount_threshold
            &&& c.market.settle_fee_fraction_low_health == params.settle_fee_fraction_low_health
            &&& c.market.settle_pnl_limit_factor == params.settle_pnl_limit_factor
            &&& c.market.settle_pnl_limit_window_size_ts == params.settle_pnl_limit_window_size_ts
            &&& c.market.reduce_only == false
            &&& c.market.stable_price_model.stable_price == read_price_spec(
                *oracle_feed,
                params.oracle_config,
                now,
            ).unwrap()
            &&& c.market.stable_price_model.last_update_ts == now
            &&& c.market.stable_price_model.max_move_ppm_per_sec
                == params.stable_price_max_move_ppm_per_sec
            &&& c.orderbook.wf()
            &&& c.orderbook.bids.orders@.len() == 0
            &&& c.orderbook.asks.orders@.len() == 0
            &&& c.orderbook.bids.capacity == BOOK_CAPACITY
            &&& c.orderbook.asks.capacity == BOOK_CAPACITY
            &&& c.event_queue.wf()
            &&& c.event_queue.contents().len() == 0
            &&& c.event_queue.capacity_spec() == EVENT_QUEUE_CAPACITY
            &&& c.notification == (MarketCreated {
                group: params.group,
                market: params.market,
                perp_market_index: params.perp_market_index,
                base_decimals: params.base_decimals,
                base_lot_size: params.base_lot_size,
                quote_lot_size: params.quote_lot_size,
                oracle: params.oracle,
            })
        },
        r is Ok <==> params.settle_token_index == QUOTE_TOKEN_INDEX && params.quote_lot_size > 0
            && params.base_lot_size > 0 && params.name@.len() <= MARKET_NAME_LEN
            && valid_risk_params(*params) && read_price_spec(
            *oracle_feed,
            params.oracle_config,
            now,
        ) is Ok,
{
    if params.settle_token_index != QUOTE_TOKEN_INDEX {
        return Err(Error::UnsupportedSettlementToken);
    }
    if params.quote_lot_size <= 0 || params.base_lot_size <= 0 {
        return Err(Error::InvalidLotSize);
    }
    if params.name.len() > MARKET_NAME_LEN {
        return Err(Error::NameTooLong);
    }
    let weights_ok = 0 <= params.init_base_asset_weight && params.init_base_asset_weight
        <= params.maint_base_asset_weight && params.maint_base_asset_weight <= FP_ONE && FP_ONE
        <= params.maint_base_liab_weight && params.maint_base_liab_weight
        <= params.init_base_liab_weight && 0 <= params.init_pnl_asset_weight
        && params.init_pnl_asset_weight <= params.maint_pnl_asset_weight
        && params.maint_pnl_asset_weight <= FP_ONE;
    let fees_ok = -FP_ONE <= params.maker_fee && params.maker_fee <= FP_ONE && 0
        <= params.taker_fee && params.taker_fee <= FP_ONE && 0 <= params.liquidation_fee
        && params.liquidation_fee <= FP_ONE && 0 <= params.fee_penalty && 0
        <= params.settle_fee_flat && 0 <= params.settle_fee_amount_threshold && 0
        <= params.settle_fee_fraction_low_health && params.settle_fee_fraction_low_health <= FP_ONE
        && 0 <= params.settle_pnl_limit_factor;
    let funding_ok = params.min_funding <= params.max_funding && -FUNDING_RATE_BOUND
        <= params.min_funding && params.max_funding <= FUNDING_RATE_BOUND;
    if !(weights_ok && fees_ok && funding_ok) {
        return Err(Error::InvalidRiskParams);
    }
    let oracle_price = match read_price(oracle_feed, &params.oracle_config, now) {
        Ok(p) => p,
        Err(e) => {
            return Err(e);
        },
    };
    let mut name: Vec<u8> = Vec::new();
    let mut i: usize = 0;
    while i < MARKET_NAME_LEN
        invariant
            name@.len() == i,
            i <= MARKET_NAME_LEN,
            params.name@.len() <= MARKET_NAME_LEN,
            forall|j: int|
                0 <= j < i ==> name@[j] == (if j < params.name@.len() {
                    params.name@[j]
                } else {
                    0u8
                }),
        decreases MARKET_NAME_LEN - i,
    {
        if i < params.name.len() {
            let b = params.name[i];
            name.push(b);
        } else {
            name.push(0);
        }
        i = i + 1;
    }
    proof {
        assert(name@ =~= padded_name(params.name@));
    }
    let mut stable_price_model = StablePriceModel {
        stable_price: 1,
        last_update_ts: 0,
        max_move_ppm_per_sec: params.stable_price_max_move_ppm_per_sec,
    };
    stable_price_model.reset_to_price(oracle_price, now);
    let market = PerpMarket {
        group: params.group,
        perp_market_index: params.perp_market_index,
        settle_token_index: params.settle_token_index,
        group_insurance_fund: params.group_insurance_fund,
        base_decimals: params.base_decimals,
        name,
        bids: params.bids,
        asks: params.asks,
        event_queue: params.event_queue,
        oracle: params.oracle,
        oracle_config: params.oracle_config,
        stable_price_model,
        quote_lot_size: params.quote_lot_size,
        base_lot_size: params.base_lot_size,
        maint_base_asset_weight: params.maint_base_asset_weight,
        init_base_asset_weight: params.init_base_asset_weight,
        maint_base_liab_weight: params.maint_base_liab_weight,
        init_base_liab_weight: params.init_base_liab_weight,
        maint_pnl_asset_weight: params.maint_pnl_asset_weight,
        init_pnl_asset_weight: params.init_pnl_asset_weight,
        open_interest: 0,
        seq_num: 0,
        registration_time: now,
        min_funding: params.min_funding,
        max_funding: params.max_funding,
        impact_quantity: params.impact_quantity,
        long_funding: 0,
        short_funding: 0,
        funding_last_updated: now,
        liquidation_fee: params.liquidation_fee,
        maker_fee: params.maker_fee,
        taker_fee: params.taker_fee,
        fees_accrued: 0,
        fees_settled: 0,
        fee_penalty: params.fee_penalty,
        settle_fee_flat: params.settle_fee_flat,
        settle_fee_amount_threshold: params.settle_fee_amount_threshold,
        settle_fee_fraction_low_health: params.settle_fee_fraction_low_health,
        settle_pnl_limit_factor: params.settle_pnl_limit_factor,
        settle_pnl_limit_window_size_ts: params.settle_pnl_limit_window_size_ts,
        reduce_only: false,
    };
    proof {
        assert(FUNDING_RATE_BOUND * (now as int) >= 0) by (nonlinear_arith)
            requires
                (now as int) >= 0,
        ;
    }
    let orderbook = Orderbook::init(BOOK_CAPACITY);
    let event_queue = EventQueue::new(EVENT_QUEUE_CAPACITY);
    let notification = MarketCreated {
        group: params.group,
        market: params.market,
        perp_market_index: params.perp_market_index,
        base_decimals: params.base_decimals,
        base_lot_size: params.base_lot_size,
        quote_lot_size: params.quote_lot_size,
        oracle: params.oracle,
    };
    Ok(CreatedMarket { market, orderbook, event_queue, notification })
}

} // verus!

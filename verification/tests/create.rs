use perp_market_core::error::Error;
use perp_market_core::error::ErrorKind;
use perp_market_core::market::perp_create_market;
use perp_market_core::market::CreateMarketParams;
use perp_market_core::market::BOOK_CAPACITY;
use perp_market_core::market::EVENT_QUEUE_CAPACITY;
use perp_market_core::market::FP_ONE;
use perp_market_core::oracle::OracleConfig;
use perp_market_core::oracle::OracleFeed;
use perp_market_core::oracle::FEED_KIND_CONFIDENCE;
use perp_market_core::oracle::FEED_KIND_STUB;

fn base_params() -> CreateMarketParams {
    CreateMarketParams {
        group: 11,
        market: 12,
        oracle: 13,
        bids: 14,
        asks: 15,
        event_queue: 16,
        perp_market_index: 0,
        settle_token_index: 0,
        name: b"PERP".to_vec(),
        oracle_config: OracleConfig { max_staleness: 60, conf_filter_ppm: 100_000 },
        base_decimals: 6,
        quote_lot_size: 10,
        base_lot_size: 100,
        maint_base_asset_weight: FP_ONE / 10 * 9,
        init_base_asset_weight: FP_ONE / 10 * 8,
        maint_base_liab_weight: FP_ONE / 10 * 11,
        init_base_liab_weight: FP_ONE / 10 * 12,
        maint_pnl_asset_weight: FP_ONE,
        init_pnl_asset_weight: FP_ONE / 2,
        liquidation_fee: FP_ONE / 100,
        maker_fee: -FP_ONE / 10000,
        taker_fee: FP_ONE / 1000,
        min_funding: -FP_ONE / 20,
        max_funding: FP_ONE / 20,
        impact_quantity: 100,
        group_insurance_fund: true,
        fee_penalty: 0,
        settle_fee_flat: 0,
        settle_fee_amount_threshold: 0,
        settle_fee_fraction_low_health: 0,
        settle_pnl_limit_factor: FP_ONE,
        settle_pnl_limit_window_size_ts: 86400,
        stable_price_max_move_ppm_per_sec: 10_000,
    }
}

fn stub_feed(price: i64) -> OracleFeed {
    OracleFeed { discriminator: FEED_KIND_STUB, price, confidence: 0, published_ts: 0 }
}

#[test]
fn create_with_valid_params_zeroes_totals_and_leaves_book_empty() {
    let created = perp_create_market(&base_params(), &stub_feed(1000), 5000).unwrap();
    let m = &created.market;
    assert_eq!(m.open_interest, 0);
    assert_eq!(m.fees_accrued, 0);
    assert_eq!(m.fees_settled, 0);
    assert_eq!(m.long_funding, 0);
    assert_eq!(m.short_funding, 0);
    assert_eq!(m.seq_num, 0);
    assert_eq!(m.registration_time, 5000);
    assert_eq!(m.funding_last_updated, 5000);
    assert_eq!(created.orderbook.bids.len(), 0);
    assert_eq!(created.orderbook.asks.len(), 0);
    assert_eq!(created.orderbook.bids.capacity, BOOK_CAPACITY);
    assert_eq!(created.orderbook.asks.capacity, BOOK_CAPACITY);
    assert_eq!(created.event_queue.len(), 0);
    assert_eq!(created.event_queue.capacity(), EVENT_QUEUE_CAPACITY);
}

#[test]
fn create_seeds_stable_price_from_oracle_and_copies_fields() {
    let p = base_params();
    let created = perp_create_market(&p, &stub_feed(1234), 5000).unwrap();
    let m = &created.market;
    assert_eq!(m.stable_price_model.stable_price, 1234);
    assert_eq!(m.stable_price_model.last_update_ts, 5000);
    assert_eq!(m.stable_price_model.max_move_ppm_per_sec, 10_000);
    assert_eq!(m.group, 11);
    assert_eq!(m.oracle, 13);
    assert_eq!(m.quote_lot_size, 10);
    assert_eq!(m.base_lot_size, 100);
    assert_eq!(m.maker_fee, -FP_ONE / 10000);
    assert!(!m.reduce_only);
    assert!(m.group_insurance_fund);
    let n = &created.notification;
    assert_eq!(n.group, 11);
    assert_eq!(n.market, 12);
    assert_eq!(n.perp_market_index, 0);
    assert_eq!(n.base_decimals, 6);
    assert_eq!(n.base_lot_size, 100);
    assert_eq!(n.quote_lot_size, 10);
    assert_eq!(n.oracle, 13);
}

#[test]
fn create_pads_name_to_fixed_width() {
    let created = perp_create_market(&base_params(), &stub_feed(1000), 5000).unwrap();
    assert_eq!(created.market.name, b"PERP\0\0\0\0\0\0\0\0\0\0\0\0".to_vec());
}

#[test]
fn create_rejects_non_primary_settlement_token() {
    let mut p = base_params();
    p.settle_token_index = 1;
    let err = perp_create_market(&p, &stub_feed(1000), 5000).unwrap_err();
    assert_eq!(err, Error::UnsupportedSettlementToken);
    assert_eq!(err.kind(), ErrorKind::UnsupportedFeature);
}

#[test]
fn create_rejects_zero_lot_sizes() {
    let mut p = base_params();
    p.quote_lot_size = 0;
    let err = perp_create_market(&p, &stub_feed(1000), 5000).unwrap_err();
    assert_eq!(err, Error::InvalidLotSize);
    assert_eq!(err.kind(), ErrorKind::Validation);

    let mut p = base_params();
    p.base_lot_size = 0;
    let err = perp_create_market(&p, &stub_feed(1000), 5000).unwrap_err();
    assert_eq!(err, Error::InvalidLotSize);
    assert_eq!(err.kind(), ErrorKind::Validation);
}

#[test]
fn create_rejects_too_long_name() {
    let mut p = base_params();
    p.name = b"A_NAME_LONGER_THAN_SIXTEEN_BYTES".to_vec();
    let err = perp_create_market(&p, &stub_feed(1000), 5000).unwrap_err();
    assert_eq!(err, Error::NameTooLong);
    assert_eq!(err.kind(), ErrorKind::Validation);
}

#[test]
fn create_rejects_out_of_range_risk_params() {
    let mut p = base_params();
    p.taker_fee = FP_ONE + 1;
    let err = perp_create_market(&p, &stub_feed(1000), 5000).unwrap_err();
    assert_eq!(err, Error::InvalidRiskParams);

    let mut p = base_params();
    p.min_funding = FP_ONE;
    p.max_funding = -FP_ONE;
    let err = perp_create_market(&p, &stub_feed(1000), 5000).unwrap_err();
    assert_eq!(err, Error::InvalidRiskParams);

    let mut p = base_params();
    p.maint_base_asset_weight = FP_ONE / 2;
    p.init_base_asset_weight = FP_ONE;
    let err = perp_create_market(&p, &stub_feed(1000), 5000).unwrap_err();
    assert_eq!(err, Error::InvalidRiskParams);
}

#[test]
fn create_propagates_oracle_errors() {
    let stale = OracleFeed {
        discriminator: FEED_KIND_CONFIDENCE,
        price: 1000,
        confidence: 1,
        published_ts: 100,
    };
    let err = perp_create_market(&base_params(), &stale, 100_000).unwrap_err();
    assert_eq!(err, Error::StalePrice);
    assert_eq!(err.kind(), ErrorKind::Oracle);

    let unknown = OracleFeed { discriminator: 99, price: 1000, confidence: 0, published_ts: 0 };
    let err = perp_create_market(&base_params(), &unknown, 100_000).unwrap_err();
    assert_eq!(err, Error::InvalidOracle);
}

use perp_market_core::error::Error;
use perp_market_core::oracle::read_price;
use perp_market_core::oracle::OracleConfig;
use perp_market_core::oracle::OracleFeed;
use perp_market_core::oracle::FEED_KIND_CONFIDENCE;
use perp_market_core::oracle::FEED_KIND_STUB;
use perp_market_core::stable_price::StablePriceModel;

fn config() -> OracleConfig {
    OracleConfig { max_staleness: 60, conf_filter_ppm: 100_000 }
}

#[test]
fn stub_feed_reads_its_price_directly() {
    let feed = OracleFeed { discriminator: FEED_KIND_STUB, price: 42, confidence: 0, published_ts: 0 };
    assert_eq!(read_price(&feed, &config(), 1_000_000), Ok(42));
}

#[test]
fn confidence_feed_checks_freshness_and_interval() {
    let fresh = OracleFeed {
        discriminator: FEED_KIND_CONFIDENCE,
        price: 1000,
        confidence: 100,
        published_ts: 990,
    };
    assert_eq!(read_price(&fresh, &config(), 1000), Ok(1000));

    let stale = OracleFeed { published_ts: 100, ..fresh };
    assert_eq!(read_price(&stale, &config(), 1000), Err(Error::StalePrice));

    // 101 parts of 1000 is over the 10% filter
    let wide = OracleFeed { confidence: 101, ..fresh };
    assert_eq!(read_price(&wide, &config(), 1000), Err(Error::LowConfidence));
}

#[test]
fn unknown_encoding_and_bad_price_are_invalid() {
    let unknown = OracleFeed { discriminator: 77, price: 1000, confidence: 0, published_ts: 0 };
    assert_eq!(read_price(&unknown, &config(), 0), Err(Error::InvalidOracle));

    let nonpositive =
        OracleFeed { discriminator: FEED_KIND_STUB, price: 0, confidence: 0, published_ts: 0 };
    assert_eq!(read_price(&nonpositive, &config(), 0), Err(Error::InvalidOracle));
}

#[test]
fn update_clamps_a_large_oracle_jump_to_the_per_second_band() {
    // 10000 ppm/s = 1% of the estimate per elapsed second
    let mut m =
        StablePriceModel { stable_price: 1000, last_update_ts: 100, max_move_ppm_per_sec: 10_000 };
    // 10 s elapsed: the band is 1000 * 1% * 10 = 100 either way
    let p = m.update(5000, 110);
    assert_eq!(p, 1100);
    assert_eq!(m.stable_price, 1100);
    assert_eq!(m.last_update_ts, 110);

    // downward jump from 1100: the band is 1100 * 1% * 10 = 110
    let p = m.update(1, 120);
    assert_eq!(p, 990);
}

#[test]
fn update_follows_the_oracle_inside_the_band() {
    let mut m =
        StablePriceModel { stable_price: 1000, last_update_ts: 100, max_move_ppm_per_sec: 10_000 };
    let p = m.update(1050, 110);
    assert_eq!(p, 1050);
}

#[test]
fn update_with_stale_timestamp_changes_nothing() {
    let mut m =
        StablePriceModel { stable_price: 1000, last_update_ts: 100, max_move_ppm_per_sec: 10_000 };
    let p = m.update(5000, 100);
    assert_eq!(p, 1000);
    assert_eq!(m.last_update_ts, 100);
    let p = m.update(5000, 50);
    assert_eq!(p, 1000);
    assert_eq!(m.last_update_ts, 100);
}

#[test]
fn monotone_updates_never_move_past_the_band() {
    let mut m =
        StablePriceModel { stable_price: 1000, last_update_ts: 0, max_move_ppm_per_sec: 10_000 };
    let mut now: u64 = 0;
    for _ in 0..5 {
        now += 7;
        let before = m.stable_price;
        let after = m.update(1_000_000, now);
        let band = (before as i128) * 10_000 * 7 / 1_000_000;
        assert!((after as i128 - before as i128).abs() <= band);
    }
}

#[test]
fn a_long_quiet_period_widens_the_band_only_up_to_a_day() {
    let mut m =
        StablePriceModel { stable_price: 1000, last_update_ts: 0, max_move_ppm_per_sec: 10_000 };
    // ten days elapsed, but the band stays at one day's width:
    // 1000 * 1% * 86400 = 864000
    let p = m.update(10_000_000, 864_000);
    assert_eq!(p, 865_000);
}

#[test]
fn reset_to_price_seeds_unconditionally() {
    let mut m =
        StablePriceModel { stable_price: 1, last_update_ts: 0, max_move_ppm_per_sec: 10_000 };
    m.reset_to_price(777, 50);
    assert_eq!(m.stable_price, 777);
    assert_eq!(m.last_update_ts, 50);
}

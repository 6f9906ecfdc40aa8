use vstd::prelude::*;

use crate::error::Error;

verus! {

/// Feed encoding: a fixed administrator-set price, never stale and with no
/// confidence interval.
pub const FEED_KIND_STUB: u8 = 1;

/// Feed encoding: a published price with a confidence interval and a
/// publish timestamp, both of which are checked.
pub const FEED_KIND_CONFIDENCE: u8 = 2;

/// Freshness and confidence bounds for oracle reads.
#[derive(Clone, Copy, Debug, PartialEq, Eq, Structural)]
pub struct OracleConfig {
    /// Maximum age, in seconds, of a confidence-feed price.
    pub max_staleness: u64,
    /// Largest accepted confidence interval, in parts per million of the
    /// price.
    pub conf_filter_ppm: u32,
}

/// One oracle account's data, already decoded to plain fields by the host.
/// `discriminator` selects the encoding from the closed set above.
#[derive(Clone, Copy, Debug, PartialEq, Eq, Structural)]
pub struct OracleFeed {
    pub discriminator: u8,
    /// Reported price in quote lots per base lot.
    pub price: i64,
    /// Reported confidence interval, in the same unit as `price`.
    pub confidence: u64,
    /// When the price was published, in seconds.
    pub published_ts: u64,
}

/// What `read_price` returns for a given feed, configuration and time.
pub open spec fn read_price_spec(feed: OracleFeed, config: OracleConfig, now: u64) -> Result<
    i64,
    Error,
> {
    if feed.discriminator == FEED_KIND_STUB {
        if feed.price >= 1 {
            Ok(feed.price)
        } else {
            Err(Error::InvalidOracle)
        }
    } else if feed.discriminator == FEED_KIND_CONFIDENCE {
        if feed.price < 1 {
            Err(Error::InvalidOracle)
        } else if now > feed.published_ts && now - feed.published_ts > config.max_staleness {
            Err(Error::StalePrice)
        } else if feed.confidence * 1000000 > feed.price * config.conf_filter_ppm {
            Err(Error::LowConfidence)
        } else {
            Ok(feed.price)
        }
    } else {
        Err(Error::InvalidOracle)
    }
}

/// Reads a normalized, strictly positive price from one of the supported
/// feed encodings. Pure: no state anywhere is touched.
///
/// Fails `InvalidOracle` on an unrecognized discriminator or a
/// non-positive price, `StalePrice` when the feed is older than
/// `config.max_staleness` seconds, and `LowConfidence` when the confidence
/// interval exceeds `config.conf_filter_ppm` parts per million of the
/// price.
pub fn read_price(feed: &OracleFeed, config: &OracleConfig, now: u64) -> (r: Result<i64, Error>)
    ensures
        r == read_price_spec(*feed, *config, now),
        r matches Ok(p) ==> p >= 1,
{
    if feed.discriminator == FEED_KIND_STUB {
        if feed.price >= 1 {
            Ok(feed.price)
        } else {
            Err(Error::InvalidOracle)
        }
    } else if feed.discriminator == FEED_KIND_CONFIDENCE {
        if feed.price < 1 {
            Err(Error::InvalidOracle)
        } else if now > feed.published_ts && now - feed.published_ts > config.max_staleness {
            Err(Error::StalePrice)
        } else {
            proof {
                vstd::arithmetic::mul::lemma_mul_upper_bound(
                    feed.price as int,
                    0x7fffffffffffffff,
                    config.conf_filter_ppm as int,
                    0xffffffff,
                );
            }
            let interval = (feed.confidence as u128) * 1000000;
            let allowed = (feed.price as u128) * (config.conf_filter_ppm as u128);
            if interval > allowed {
                Err(Error::LowConfidence)
            } else {
                Ok(feed.price)
            }
        }
    } else {
        Err(Error::InvalidOracle)
    }
}

} // verus!

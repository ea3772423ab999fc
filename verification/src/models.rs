//! What the price oracle answers: its reports and moving averages per asset.

use vstd::prelude::*;

pub mod u64_dec_format;
pub mod u128_dec_format;

verus! {

pub const TGAS: u64 = 1_000_000_000_000;

pub type DurationSec = u32;

pub type AssetId = String;

/// A price as a whole number scaled by `10^decimals`.
#[derive(Clone, Copy)]
pub struct Price {
    pub multiplier: u128,
    pub decimals: u8,
}

/// One oracle's report on an asset.
pub struct Report {
    pub oracle_id: String,
    pub timestamp: u64,
    pub price: Price,
}

/// An exponential moving average of an asset's price over `period_sec`.
pub struct AssetEma {
    pub period_sec: DurationSec,
    pub timestamp: u64,
    pub price: Option<Price>,
}

/// What the oracle knows of an asset.
pub struct Asset {
    pub reports: Vec<Report>,
    pub emas: Vec<AssetEma>,
}

} // verus!

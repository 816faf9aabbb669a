//! A player-to-player trading marketplace: offers with a lifecycle, gifts,
//! queries over pending offers, and statistics over completed trades.
use vstd::prelude::*;

pub mod item;
pub mod laws;
pub mod market;
pub mod offer;
pub mod stats;
pub mod tally;
pub mod text;

pub use item::{Tradeable, TradeableView};
pub use market::{MarketView, TradeMarket};
pub use offer::{CompletedTrade, Gift, TradeOffer, TradeStatus};
pub use stats::TradeStats;
pub use tally::Tally;

verus! {
} // verus!

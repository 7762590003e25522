//! Default scheduler settings shared by both engines, in Q20 fixed point.

use vstd::prelude::*;
use crate::fx::ONE;

verus! {

/// Default reference recall ratio: nine tenths.
pub const DEFAULT_MEASURED_RETENTION: u64 = 9 * ONE / 10;

/// Default interval-growth factor: five halves.
pub const DEFAULT_INTERVAL_FACTOR: u64 = 5 * ONE / 2;

/// Default multiplier applied to an interval on a failed review.
pub const DEFAULT_LAPSE_INTERVAL_FACTOR: u64 = 0;

/// Default spread of per-card recall probability around the mean.
pub const DEFAULT_DIFFICULTY_VARIANCE: u64 = ONE / 20;

/// Default failure count at which a card is permanently dropped.
pub const DEFAULT_MAX_LAPSES: u64 = 8;

/// Default seconds spent introducing each new card.
pub const DEFAULT_TIME_PER_NEW_CARD: u64 = 90 * ONE;

/// Default seconds spent on each review.
pub const DEFAULT_TIME_PER_REVIEW_CARD: u64 = 20 * ONE;

/// Default extra seconds spent on each lapsed review.
pub const DEFAULT_TIME_PER_LAPSED_CARD: u64 = 40 * ONE;

/// Lowest per-card recall probability a card can be created with.
pub const RATIO_MIN: u64 = ONE / 100;

/// Highest per-card recall probability a card can be created with.
pub const RATIO_MAX: u64 = 99 * ONE / 100;

/// One tenth, the half-width of the interval jitter band.
pub const TENTH: u64 = ONE / 10;

/// One fifth, the full width of the interval jitter band.
pub const FIFTH: u64 = ONE / 5;

} // verus!

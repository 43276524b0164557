//! Parameters of the node's view of the exchange protocol.

use vstd::prelude::*;

verus! {

/// How long a reservation stays open: the node looks this many hours back when it starts.
pub const RESERVATION_DURATION_HOURS: u64 = 8;

/// How many hours before the oldest open reservation the scan of the Bitcoin chain begins, to be
/// safe: the times in headers are not exact.
pub const SCAN_MARGIN_HOURS: u64 = 1;

/// How many Bitcoin headers below the contract's tip are read when no count is given.
pub const HEADER_LOOKBACK_LIMIT: usize = 200;

/// Blocks on top of the paying block that make a payment confirmed.
///
/// One more than the value that the contract expects.
pub const CONFIRMATION_HEIGHT_DELTA: u64 = 1;

} // verus!

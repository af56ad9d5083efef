//! An over-the-counter escrow library: a seller offers one asset and asks
//! for another; a buyer executes the trade by paying the ask; the seller
//! claims the payment; either side can unwind before execution through
//! cancellation or post-expiry withdrawal.

pub mod denom;
pub mod error;
pub mod execute;
pub mod instantiate;
pub mod migrate;
pub mod msg;
pub mod payment;
pub mod props;
pub mod query;
pub mod response;
pub mod state;

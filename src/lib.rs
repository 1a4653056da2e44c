//! Daily settlement engine for a trading-rebate platform: a decaying token
//! issuance curve, trade aggregation, referral bonus distribution with
//! broker and KOL rules, and the admin fee-share controller.

pub mod issuance;
pub mod referral;
pub mod trades;
pub mod distribution;
pub mod settlement;
pub mod earnings;
pub mod control;
pub mod dates;
pub mod validation;
pub mod ledger;
pub mod schedule;
pub mod records;
pub mod requests;

//! Verified core of a bot that watches football goal-clip submissions,
//! decides which competition channel a clip belongs to, and extracts the
//! direct video address from the hosting page.
use vstd::prelude::*;

pub mod text;
pub mod numbers;
pub mod videohost;
pub mod competition;
pub mod config;
pub mod reddit_scrape;
pub mod filter;
pub mod html;
pub mod scrape;
pub mod comments;
pub mod handle;
pub mod telegram;
pub mod auth;

verus! {

} // verus!

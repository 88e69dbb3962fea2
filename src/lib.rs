//! A small market-data service core: a mock price source, a portfolio store
//! and a watchlist store kept as in-memory documents, and the derived figures
//! (values, gains, percentages) computed from them. Money is held in cents and
//! percentages in hundredths of a percent.
pub mod aggregate;
pub mod market;
pub mod models;
pub mod portfolio;
pub mod quotes;
pub mod watchlist;

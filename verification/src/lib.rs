//! Verified core of a trading-card scanner: the text, number and ranking
//! logic that the scraping workers and the camera matcher run on.

pub mod controls;
pub mod decimal;
pub mod drivers;
pub mod models;
pub mod pages;
pub mod ranking;
pub mod text;
pub mod urls;

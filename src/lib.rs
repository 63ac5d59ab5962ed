//! Decision core of a grid trading bot: price ranges, positions that buy low
//! and sell high, the engine that drives them tick by tick, the grid that lays
//! them out, a one-shot percentage strategy, and exchange commission rules.

pub mod decimal;
pub mod strategy;
pub mod spot;
pub mod market;
pub mod treasurer;

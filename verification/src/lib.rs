//! A verified core for a household meal planner: ISO-week date arithmetic,
//! and an in-memory relational store for meals, ingredients, days and
//! per-day shopping state, with the cascade rules that keep them consistent.

pub mod api;
pub mod date;
pub mod models;
pub mod store;
pub mod week;

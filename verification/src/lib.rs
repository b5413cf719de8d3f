//! Query engine for embedded-board schematics.
//!
//! A board definition consists of a SoC (exposing pins), a set of on-board
//! devices wired to those pins (and possibly exposing further pins of their
//! own, like IO expanders), connectors exposing pins to the user, and an
//! application declaring which devices it uses. This crate models those
//! entities, parses their compact textual identifiers, and answers lookup
//! questions about pin, peripheral and device usage.

pub mod grammar;
pub mod lookup;
pub mod model;
pub mod peripherals;
pub mod queries;
pub mod requests;
pub mod topology;

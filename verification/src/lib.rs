//! Polls, votes and the tallies that tie them together.
//!
//! A [`store::Store`] holds the polls and the votes. The functions of [`poll`] and [`vote`]
//! judge what a user answered and change the store accordingly, so that each poll's two
//! counts are at all times the numbers of its votes that say yes and that say no.

mod clock;
pub mod ident;
pub mod menu;
pub mod poll;
pub mod row;
pub mod store;
pub mod tally;
pub mod text;
pub mod vote;

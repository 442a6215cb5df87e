//! Black-Scholes implied volatility, verified.
//!
//! A premium determines the volatility of an option, and the library works it
//! out, over batches of options taken eight at a time.
//!
//! - [`direct`] iterates Newton's method on the price and answers with a
//!   volatility or a NaN.
//! - [`typed`] iterates a third-order step in a wide bracket and says of every
//!   option what became of it: a volatility, a root outside the reported range,
//!   or the reason why there is none.
//! - [`schadner`] inverts a probability law in place of the price.
//! - [`jackel`] starts from a rational guess and takes two steps of third order.
//! - [`otm_context`] splits the work: what depends on strike and expiry alone is
//!   done once and serves many prices.
//! - [`naive`] takes one option at a time, as a baseline.
//!
//! They rest on [`norm`] (the cumulative normal and its inverse), [`black`] (the
//! normalized price), [`iterate`] (masked iteration), [`lanes`] (packs) and
//! [`guard`] (denominators). [`dataset`], [`plan`], [`adversarial`] and
//! [`grids`] make options to solve, [`csv`] reads and writes them, and [`report`]
//! compares the answers.
//!
//! Numbers are held by their encodings ([`double`]), whose order, signs and
//! neighbours ([`neighbour`]) are exact. Rounded arithmetic on them is done by a
//! machine that the caller supplies ([`arith`]): for a machine that always
//! answers alike the contracts state every result in terms of its operations,
//! and what must hold of any machine, such as that a reported volatility lies
//! inside the reported range or is a NaN, they state without condition.

pub mod adversarial;
pub mod arith;
pub mod black;
pub mod constants;
pub mod csv;
pub mod dataset;
pub mod direct;
pub mod double;
pub mod grids;
pub mod guard;
pub mod iterate;
pub mod jackel;
pub mod kind;
pub mod lanes;
pub mod naive;
pub mod neighbour;
pub mod norm;
pub mod otm_context;
pub mod plan;
pub mod report;
pub mod schadner;
pub mod typed;

pub use arith::Arith;
pub use direct::{bs_price, implied_vol, implied_vol_one, MAX_ITERS, VOL_MAX, VOL_MIN};
pub use double::Double;
pub use kind::OptionKind;
pub use otm_context::{
    canonical_c_from_price, implied_vol_fully_vectorized, implied_vol_vectorized_with_contexts,
    implied_vol_with_context, implied_vol_with_context_batch, OtmContext,
};
pub use schadner::{implied_vol_explicit, implied_vol_explicit_one};
pub use typed::{implied_vol_typed, implied_vol_typed_batch, ImpliedVolResult, ImpliedVolStatus};

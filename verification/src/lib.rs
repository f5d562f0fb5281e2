//! Fixed-width 256-bit unsigned integers with wrapping arithmetic and
//! hexadecimal interchange.
//!
//! A [`Uint256`] is four 64-bit limbs, least significant first. Its view is
//! the natural number below 2^256 that the limbs denote, and every contract
//! in this crate is stated over that number.

pub mod add_sub;
pub mod div_rem;
pub mod error;
pub mod laws;
pub mod limbs;
pub mod modular;
pub mod mul;
pub mod parse;
pub mod render;
pub mod uint256;

pub use error::{ArithmeticError, ParseError};
pub use uint256::Uint256;

//! Exact statistical reductions over widened numeric sequences, together
//! with a character-class input validator.
//!
//! Numeric values of any fixed-width kind up to 32 bits are widened, without
//! loss, into `i64` through the coercion capability in [`coerce`]; the
//! statistics engine in [`stats`] then reduces such a sequence to an exact
//! scalar or vector result.  Quotients (the average, the median of an
//! even-length sequence) are returned exactly as a [`ratio::Ratio`] rather
//! than as a floating-point approximation.  The validator in [`validate`]
//! checks a text against one of a closed set of character-class
//! requirements and reports every offending character.

pub mod coerce;
pub mod factorial;
pub mod ratio;
pub mod stats;
pub mod validate;

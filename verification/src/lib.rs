//! A declassification-policy propagation and enforcement engine.
//!
//! A relational query runs over a raw data frame while a second frame of
//! equal shape carries one information-flow policy per cell.  Each
//! relational operator has a rule that maps input policies to output
//! policies; a terminal collect gate refuses to release a result unless
//! every exposed cell has been reduced to the unrestricted `Clean` policy.

pub mod codec;
pub mod error;
pub mod eval;
pub mod frame;
pub mod plan;
pub mod policy;
pub mod presets;
pub mod session;

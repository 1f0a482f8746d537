//! What the operations do, stated by what goes into them and what comes out.
//!
//! The laws speak of the contracts of the executable functions themselves: of every
//! result that a function may give.

pub mod events;
pub mod files;
pub mod pixels;
pub mod program;
pub mod search;
pub mod segments;
pub mod showing;

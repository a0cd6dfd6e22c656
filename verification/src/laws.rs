//! What the operations are for: relations between what goes in and what comes out, stated on the
//! fields, characters and bytes themselves.

pub mod audit;
pub mod daemon;
pub mod observation;
pub mod records;
pub mod rules;
pub mod text;
pub mod validation;
pub mod window;

//! What the operations do, said of what goes in and what comes out.

pub mod annotating;
pub mod clearing;
pub mod finding;
pub mod naming;
pub mod places;
pub mod realms;
pub mod runtime;
pub mod saying;
pub mod showing;
pub mod text;
pub mod values;

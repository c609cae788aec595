pub mod parameters;
pub mod circuit;
pub mod constraints;
pub mod protocol;

pub mod charset;
pub mod derivation;
pub mod grammar;
pub mod input;
pub mod invariants;
pub mod random;
pub mod selection;
pub mod session;
pub mod terminal;
pub mod text;

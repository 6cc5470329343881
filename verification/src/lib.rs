pub mod creole;
pub mod grammar;
pub mod inline;
pub mod parser;
pub mod prelude;
pub mod laws;
pub mod shape;

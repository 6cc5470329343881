pub use crate::parser::{creoles, try_creoles};
pub use crate::creole::ICreole;

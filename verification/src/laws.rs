//! What holds of the operations taken together.

pub mod history;
pub mod io;
pub mod names;
pub mod paths;

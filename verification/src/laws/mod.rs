//! What holds of the library as a whole.

pub mod calls;
pub mod list;
pub mod registry;
pub mod single;
pub mod values;

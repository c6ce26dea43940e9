//! Command implementations.

pub mod get;
pub mod list;
pub mod report;

pub use get::execute as execute_get;
pub use list::execute as execute_list;
pub use report::Report;

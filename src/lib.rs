pub mod catalog;
pub mod matcher;
pub mod selection;
pub mod session;

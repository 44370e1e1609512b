pub mod console;
pub mod error;
pub mod modes;
pub mod order;
pub mod paint;
pub mod project;
pub mod text;
pub mod verbosity;

pub mod advice;
pub mod assembly;
pub mod errors;
pub mod felt;
pub mod io_ops;
pub mod laws;
pub mod memory;
pub mod modules;
pub mod process;
pub mod resolution;
pub mod stack;
pub mod stack_ops;

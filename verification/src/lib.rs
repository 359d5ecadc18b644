pub mod cmdui;
pub mod command;
pub mod error;
pub mod grid;
pub mod solver;
pub mod stats;
pub mod string_specs;
pub mod text;

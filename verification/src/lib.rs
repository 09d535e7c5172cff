pub mod bus;
pub mod hashing;
pub mod keyed;
pub mod model;
pub mod node;
pub mod runner;
pub mod safety;
pub mod text;
pub mod transformer;
pub mod types;
